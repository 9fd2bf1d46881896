//! The numbers that positions are scored with.
use vstd::prelude::*;

verus! {

/// A score: a number with the four operations that the evaluation uses and a
/// strict weak order.
///
/// The evaluation and the search are written over this trait, so that what
/// they compute is pinned down operation by operation, in the order in which
/// the operations are applied, whatever the rounding of the number type is.
pub trait Score: Copy {
    /// The score of a whole number.
    spec fn of_int(n: i64) -> Self;

    /// The lowest score, that of a position in which White is mated.
    spec fn min_value() -> Self;

    /// The highest score, that of a position in which Black is mated.
    spec fn max_value() -> Self;

    /// `self + other`.
    spec fn plus(self, other: Self) -> Self;

    /// `self - other`.
    spec fn minus(self, other: Self) -> Self;

    /// `self * other`.
    spec fn times(self, other: Self) -> Self;

    /// `self / other`.
    spec fn over(self, other: Self) -> Self;

    /// Whether `self` is the smaller of the two.
    spec fn below(self, other: Self) -> bool;

    /// Whether `self` is a number of limited size.
    spec fn finite(self) -> bool;

    /// Of two scores at most one is below the other.
    proof fn below_is_asymmetric(a: Self, b: Self)
        requires
            a.below(b),
        ensures
            !b.below(a),
    ;

    /// Where one score is below another, every third score is above the first
    /// or below the second.
    proof fn below_is_cotransitive(a: Self, b: Self, c: Self)
        requires
            a.below(c),
        ensures
            a.below(b) || b.below(c),
    ;

    /// Whole numbers lie between the lowest and the highest score.
    proof fn whole_numbers_lie_between(n: i64)
        ensures
            !Self::of_int(n).below(Self::min_value()),
            !Self::max_value().below(Self::of_int(n)),
            !Self::max_value().below(Self::min_value()),
    ;

    /// Adding 0 to a whole number, or a whole number to 0, gives that number.
    proof fn zero_adds_nothing(n: i64)
        ensures
            Self::of_int(0).plus(Self::of_int(n)) == Self::of_int(n),
            Self::of_int(n).plus(Self::of_int(0)) == Self::of_int(n),
    ;

    /// A part of 0 is 0.
    proof fn zero_has_no_parts(n: i64)
        requires
            n > 0,
        ensures
            Self::of_int(0).over(Self::of_int(n)) == Self::of_int(0),
    ;

    /// Adding a number of limited size no times to 0 gives 0.
    proof fn nothing_is_added_no_times(x: Self)
        requires
            x.finite(),
        ensures
            Self::of_int(0).plus(Self::of_int(0).times(x)) == Self::of_int(0),
    ;

    /// Converts a whole number.
    fn from_int(n: i64) -> (r: Self)
        ensures
            r == Self::of_int(n),
    ;

    /// The lowest score.
    fn lowest() -> (r: Self)
        ensures
            r == Self::min_value(),
    ;

    /// The highest score.
    fn highest() -> (r: Self)
        ensures
            r == Self::max_value(),
    ;

    /// The sum.
    fn sum(self, other: Self) -> (r: Self)
        ensures
            r == self.plus(other),
    ;

    /// The difference.
    fn difference(self, other: Self) -> (r: Self)
        ensures
            r == self.minus(other),
    ;

    /// The product.
    fn product(self, other: Self) -> (r: Self)
        ensures
            r == self.times(other),
    ;

    /// The quotient.
    fn quotient(self, other: Self) -> (r: Self)
        ensures
            r == self.over(other),
    ;

    /// Whether `self` is the smaller of the two.
    fn less_than(self, other: Self) -> (r: bool)
        ensures
            r == self.below(other),
    ;
}

/// The larger of two scores, the first where neither is larger.
pub open spec fn larger<S: Score>(a: S, b: S) -> S {
    if a.below(b) {
        b
    } else {
        a
    }
}

/// The smaller of two scores, the first where neither is smaller.
pub open spec fn smaller<S: Score>(a: S, b: S) -> S {
    if b.below(a) {
        b
    } else {
        a
    }
}

/// The larger of two scores, the first where neither is larger.
pub fn max_score<S: Score>(a: S, b: S) -> (r: S)
    ensures
        r == larger(a, b),
{
    if a.less_than(b) {
        b
    } else {
        a
    }
}

/// The smaller of two scores, the first where neither is smaller.
pub fn min_score<S: Score>(a: S, b: S) -> (r: S)
    ensures
        r == smaller(a, b),
{
    if b.less_than(a) {
        b
    } else {
        a
    }
}

/// How many steps of a [`Fixed`] make one pawn. Halves, twentieths, hundredths
/// and seventy-eighths of a pawn are whole numbers of steps.
pub const STEPS_PER_PAWN: i64 = 78000;

/// A fixed-point score, which gives the same results on every machine.
#[derive(Clone, Copy, Debug, PartialEq, Eq, Structural)]
pub struct Fixed {
    /// The score in steps.
    pub steps: i64,
}

/// The nearest value that an `i64` can hold.
pub open spec fn clamped(n: int) -> i64 {
    if n < i64::MIN {
        i64::MIN
    } else if n > i64::MAX {
        i64::MAX
    } else {
        n as i64
    }
}

/// The size of a number without its sign.
pub open spec fn magnitude(n: int) -> nat {
    if n < 0 {
        (-n) as nat
    } else {
        n as nat
    }
}

/// `a * b / c`, rounded toward zero, and 0 where `c` is 0.
pub open spec fn scaled(a: int, b: int, c: int) -> int {
    let size = if c == 0 {
        0
    } else {
        ((magnitude(a) * magnitude(b)) / magnitude(c)) as int
    };
    if (a < 0) ^ (b < 0) ^ (c < 0) {
        -size
    } else {
        size
    }
}

fn clamp(n: i128) -> (r: i64)
    ensures
        r == clamped(n as int),
{
    if n < i64::MIN as i128 {
        i64::MIN
    } else if n > i64::MAX as i128 {
        i64::MAX
    } else {
        n as i64
    }
}

fn size_of_steps(n: i64) -> (r: u128)
    ensures
        r == magnitude(n as int),
        r <= 0x8000_0000_0000_0000u128,
{
    if n < 0 {
        (-(n as i128)) as u128
    } else {
        n as u128
    }
}

fn scale(a: i64, b: i64, c: i64) -> (r: i64)
    ensures
        r == clamped(scaled(a as int, b as int, c as int)),
{
    let x: u128 = size_of_steps(a);
    let y: u128 = size_of_steps(b);
    let z: u128 = size_of_steps(c);
    assert(x * y <= 0x8000_0000_0000_0000u128 * 0x8000_0000_0000_0000u128) by (nonlinear_arith)
        requires
            x <= 0x8000_0000_0000_0000u128,
            y <= 0x8000_0000_0000_0000u128,
    ;
    let size: u128 = if z == 0 {
        0
    } else {
        (x * y) / z
    };
    assert(size <= 0x8000_0000_0000_0000u128 * 0x8000_0000_0000_0000u128) by {
        if z != 0 {
            vstd::arithmetic::div_mod::lemma_div_is_ordered_by_denominator(
                (x * y) as int,
                1,
                z as int,
            );
            vstd::arithmetic::div_mod::lemma_div_basics((x * y) as int);
        }
    }
    if (a < 0) ^ (b < 0) ^ (c < 0) {
        clamp(-(size as i128))
    } else {
        clamp(size as i128)
    }
}

proof fn lemma_zero_scaled(b: int, c: int)
    requires
        c != 0,
    ensures
        scaled(0, b, c) == 0,
{
    assert(0 * magnitude(b) == 0) by (nonlinear_arith);
    vstd::arithmetic::div_mod::lemma_div_basics(magnitude(c) as int);
}

impl Score for Fixed {
    open spec fn of_int(n: i64) -> Self {
        Fixed { steps: clamped(n * STEPS_PER_PAWN) }
    }

    open spec fn min_value() -> Self {
        Fixed { steps: i64::MIN }
    }

    open spec fn max_value() -> Self {
        Fixed { steps: i64::MAX }
    }

    open spec fn plus(self, other: Self) -> Self {
        Fixed { steps: clamped(self.steps + other.steps) }
    }

    open spec fn minus(self, other: Self) -> Self {
        Fixed { steps: clamped(self.steps - other.steps) }
    }

    open spec fn times(self, other: Self) -> Self {
        Fixed {
            steps: clamped(scaled(self.steps as int, other.steps as int, STEPS_PER_PAWN as int)),
        }
    }

    open spec fn over(self, other: Self) -> Self {
        Fixed {
            steps: clamped(scaled(self.steps as int, STEPS_PER_PAWN as int, other.steps as int)),
        }
    }

    open spec fn below(self, other: Self) -> bool {
        self.steps < other.steps
    }

    open spec fn finite(self) -> bool {
        true
    }

    proof fn below_is_asymmetric(a: Self, b: Self) {
    }

    proof fn below_is_cotransitive(a: Self, b: Self, c: Self) {
    }

    proof fn whole_numbers_lie_between(n: i64) {
    }

    proof fn zero_adds_nothing(n: i64) {
    }

    proof fn zero_has_no_parts(n: i64) {
        lemma_zero_scaled(STEPS_PER_PAWN as int, Self::of_int(n).steps as int);
    }

    proof fn nothing_is_added_no_times(x: Self) {
        lemma_zero_scaled(x.steps as int, STEPS_PER_PAWN as int);
    }

    fn from_int(n: i64) -> (r: Self) {
        Fixed { steps: clamp((n as i128) * (STEPS_PER_PAWN as i128)) }
    }

    fn lowest() -> (r: Self) {
        Fixed { steps: i64::MIN }
    }

    fn highest() -> (r: Self) {
        Fixed { steps: i64::MAX }
    }

    fn sum(self, other: Self) -> (r: Self) {
        Fixed { steps: clamp((self.steps as i128) + (other.steps as i128)) }
    }

    fn difference(self, other: Self) -> (r: Self) {
        Fixed { steps: clamp((self.steps as i128) - (other.steps as i128)) }
    }

    fn product(self, other: Self) -> (r: Self) {
        Fixed { steps: scale(self.steps, other.steps, STEPS_PER_PAWN) }
    }

    fn quotient(self, other: Self) -> (r: Self) {
        Fixed { steps: scale(self.steps, STEPS_PER_PAWN, other.steps) }
    }

    fn less_than(self, other: Self) -> (r: bool) {
        self.steps < other.steps
    }
}

} // verus!
