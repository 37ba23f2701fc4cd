//! Scores: a totally ordered number type with the sentinels of a certain
//! loss (`MIN`), a certain win (`MAX`) and a neutral position (`ZERO`).

use vstd::prelude::*;
use vstd::std_specs::cmp::PartialEqSpec;
use vstd::std_specs::cmp::PartialOrdIs;
use vstd::std_specs::cmp::PartialOrdSpec;

verus! {

/// The quotient of `a` by `b` rounded toward zero, as machine integers
/// divide (`/` alone rounds so that the remainder is never negative).
pub open spec fn quotient_toward_zero(a: int, b: int) -> int
    recommends
        b != 0,
{
    if a >= 0 {
        a / b
    } else {
        -((-a) / b)
    }
}

/// `x` held inside `lo ..= hi`.
pub open spec fn clamped(x: int, lo: int, hi: int) -> int {
    if x < lo {
        lo
    } else if x > hi {
        hi
    } else {
        x
    }
}

/// `v` moved by `n` toward zero: a positive `v` loses `n` and a negative `v`
/// gains `n`, neither crossing zero; zero stays. A negative `n` moves `v` away
/// from zero, and the result then stops at `lo` or `hi`.
pub open spec fn nudged_toward_zero(v: int, n: int, lo: int, hi: int) -> int {
    if v > 0 {
        clamped(v - n, 0, hi)
    } else if v < 0 {
        clamped(v + n, lo, 0)
    } else {
        0
    }
}

/// A score of the search. `as_int` places every value on the number line;
/// the comparison operators of the type agree with that placement.
#[allow(non_snake_case)]
pub trait Scalar: Sized + Copy + PartialOrd + Send + Sync {
    /// The number this score stands for.
    spec fn as_int(self) -> int;

    /// The number of the certain loss.
    spec fn min_int() -> int;

    /// The number of the certain win.
    spec fn max_int() -> int;

    /// `<`, `>` and `==` compare the numbers, two scores with one number are
    /// one score, and every score lies between the two sentinels.
    proof fn lemma_order(a: Self, b: Self)
        ensures
            Self::obeys_partial_cmp_spec(),
            Self::obeys_eq_spec(),
            a.is_lt(&b) <==> a.as_int() < b.as_int(),
            a.is_gt(&b) <==> a.as_int() > b.as_int(),
            a.eq_spec(&b) <==> a.as_int() == b.as_int(),
            a.as_int() == b.as_int() <==> a == b,
            Self::min_int() <= a.as_int() <= Self::max_int(),
    ;

    /// The loss sentinel is negative, the win sentinel positive, and half a
    /// loss lies strictly between a loss and the neutral score.
    proof fn lemma_sentinels()
        ensures
            Self::min_int() < 0 < Self::max_int(),
            Self::min_int() < quotient_toward_zero(Self::min_int(), 2) < 0,
    ;

    fn MIN() -> (r: Self)
        ensures
            r.as_int() == Self::min_int(),
    ;

    fn MAX() -> (r: Self)
        ensures
            r.as_int() == Self::max_int(),
    ;

    fn ZERO() -> (r: Self)
        ensures
            r.as_int() == 0,
    ;

    /// Division that rounds toward zero.
    fn div(&self, by: i32) -> (r: Self)
        requires
            by != 0,
            Self::min_int() <= quotient_toward_zero(self.as_int(), by as int) <= Self::max_int(),
        ensures
            r.as_int() == quotient_toward_zero(self.as_int(), by as int),
    ;

    /// Moves the score by `add` toward zero without crossing it, so that of
    /// two forced wins the one reached sooner ranks higher.
    fn add_towards_0(&self, add: i32) -> (r: Self)
        ensures
            r.as_int() == nudged_toward_zero(
                self.as_int(),
                add as int,
                Self::min_int(),
                Self::max_int(),
            ),
    ;
}

#[allow(non_snake_case)]
impl Scalar for i32 {
    open spec fn as_int(self) -> int {
        self as int
    }

    open spec fn min_int() -> int {
        i32::MIN as int
    }

    open spec fn max_int() -> int {
        i32::MAX as int
    }

    proof fn lemma_order(a: Self, b: Self) {
    }

    proof fn lemma_sentinels() {
    }

    fn MIN() -> (r: Self) {
        i32::MIN
    }

    fn MAX() -> (r: Self) {
        i32::MAX
    }

    fn ZERO() -> (r: Self) {
        0
    }

    fn div(&self, by: i32) -> (r: Self) {
        *self / by
    }

    fn add_towards_0(&self, add: i32) -> (r: Self) {
        let v: i64 = *self as i64;
        let n: i64 = add as i64;
        if v > 0 {
            let moved: i64 = v - n;
            if moved < 0 {
                0
            } else if moved > i32::MAX as i64 {
                i32::MAX
            } else {
                moved as i32
            }
        } else if v < 0 {
            let moved: i64 = v + n;
            if moved > 0 {
                0
            } else if moved < i32::MIN as i64 {
                i32::MIN
            } else {
                moved as i32
            }
        } else {
            0
        }
    }
}

} // verus!
