//! The best score that a node has found among its children so far: the bound
//! against which each of its children is explored. The children of a node
//! that are explored in parallel share it in a cell behind a lock.

use crate::scalar::Scalar;
use std::sync::Mutex;
use std::sync::MutexGuard;
use vstd::prelude::*;

verus! {

/// `std::sync::Mutex`: a value behind a lock. Nothing is known of what it
/// holds.
#[verifier::external_type_specification]
#[verifier::external_body]
#[verifier::reject_recursive_types(T)]
pub struct ExMutex<T: ?Sized>(Mutex<T>);

/// `std::sync::MutexGuard`: the hold on a lock, from taking it to letting it
/// go.
#[verifier::external_type_specification]
#[verifier::external_body]
#[verifier::reject_recursive_types(T)]
pub struct ExMutexGuard<'a, T: ?Sized + 'a>(MutexGuard<'a, T>);

/// A new cell that holds `score`, by `Mutex::new`. Nothing is claimed of it.
#[verifier::external_body]
fn new_cell<S: Scalar>(score: S) -> (cell: Mutex<S>) {
    Mutex::new(score)
}

/// Takes the lock of the cell, by `Mutex::lock`, and waits for it where
/// another thread holds it; a lock that a panic has poisoned is taken all
/// the same. Nothing is claimed of what is found.
///
/// The standard library leaves open what `lock` does on a thread that holds
/// the lock already: it may never return, or panic. The call is safe only
/// because no thread asks twice: `latest` and `offer`, the two callers and
/// the only holders of a guard, each take the lock once and let it go before
/// they return, and neither calls the other.
#[verifier::external_body]
fn lock_cell<'a, S: Scalar>(cell: &'a Mutex<S>) -> (guard: MutexGuard<'a, S>) {
    match cell.lock() {
        Ok(guard) => guard,
        Err(poisoned) => poisoned.into_inner(),
    }
}

/// The score in a cell whose lock is held, by the `Deref` of the guard.
/// Nothing is claimed of it: another thread may have put it there.
#[verifier::external_body]
fn held_score<'a, S: Scalar>(guard: &MutexGuard<'a, S>) -> (score: S) {
    **guard
}

/// Puts `score` into a cell whose lock is held, by the `DerefMut` of the
/// guard. Nothing is claimed of it.
#[verifier::external_body]
fn put_score<'a, S: Scalar>(guard: &mut MutexGuard<'a, S>, score: S) {
    **guard = score;
}

/// What a node is told of the best score that its parent has found among its
/// siblings.
#[verifier::reject_recursive_types(S)]
pub(crate) enum SiblingBound<'a, S: Scalar> {
    /// The score itself: the siblings are explored one after the other.
    Known(S),
    /// The cell in which the siblings, explored in parallel, note what they
    /// find. What is read from it is a hint: the search does not rest on it.
    Shared(&'a Mutex<S>),
}

impl<'a, S: Scalar> SiblingBound<'a, S> {
    /// The bound, where it is known.
    pub(crate) open spec fn known(self) -> Option<S> {
        match self {
            SiblingBound::Known(score) => Some(score),
            SiblingBound::Shared(_) => None,
        }
    }

    /// A cell for the children of a node, which holds `score` at first.
    pub(crate) fn share(score: S) -> (cell: Mutex<S>) {
        new_cell(score)
    }

    /// The bound as it stands: the known score, or what the cell holds now.
    pub(crate) fn latest(&self) -> (score: S)
        ensures
            self.known() matches Some(known) ==> score == known,
    {
        match self {
            SiblingBound::Known(score) => *score,
            SiblingBound::Shared(cell) => {
                let guard = lock_cell(cell);
                held_score(&guard)
            },
        }
    }
}

/// Notes `score` in the cell if it is better, for the side that chooses,
/// than what the cell holds: the lock is held from the look to the note.
pub(crate) fn offer<S: Scalar>(cell: &Mutex<S>, maximize: bool, score: S) {
    let mut guard = lock_cell(cell);
    let held = held_score(&guard);
    let better = if maximize {
        score > held
    } else {
        score < held
    };
    if better {
        put_score(&mut guard, score);
    }
}

} // verus!
