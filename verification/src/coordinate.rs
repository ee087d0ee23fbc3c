use vstd::prelude::*;

verus! {

/// A primitive integer type that can be used as a coordinate.
pub trait PositionUnit: Copy + Sized {
    /// The mathematical integer that a coordinate stands for.
    spec fn val(self) -> int;

    /// The smallest value of the type.
    spec fn lowest() -> int;

    /// The largest value of the type.
    spec fn highest() -> int;

    /// Every value lies within the range of its type, and a value is
    /// determined by the integer it stands for.
    proof fn lemma_val(self, other: Self)
        ensures
            Self::lowest() <= self.val() <= Self::highest(),
            self.val() == other.val() ==> self == other,
    ;

    /// `self < other`
    fn less_than(self, other: Self) -> (r: bool)
        ensures
            r == (self.val() < other.val()),
    ;

    /// `self + other`, for sums that the type can hold.
    fn add(self, other: Self) -> (r: Self)
        requires
            Self::lowest() <= self.val() + other.val() <= Self::highest(),
        ensures
            r.val() == self.val() + other.val(),
    ;

    /// The point that halves the span from `lo` to `hi`: `lo + h`, where `h`
    /// is half the span rounded toward zero. It is computed without overflow.
    fn midpoint(lo: Self, hi: Self) -> (r: Self)
        ensures
            r.val() == lo.val() + half(hi.val() - lo.val()),
    ;

    /// The value as an `i128`.
    fn to_i128(self) -> (r: i128)
        ensures
            r == self.val(),
    ;
}

/// Half of `v`, rounded toward zero (as Rust's integer division by two does).
pub open spec fn half(v: int) -> int {
    if v >= 0 {
        v / 2
    } else {
        -((-v) / 2)
    }
}

/// Twice the half of a span gives back the span, or misses it by the one
/// unit that the rounding toward zero drops; the half has the span's sign.
pub proof fn law_half(v: int)
    ensures
        v >= 0 ==> 0 <= half(v) && (2 * half(v) == v || 2 * half(v) + 1 == v),
        v < 0 ==> half(v) <= 0 && (2 * half(v) == v || 2 * half(v) - 1 == v),
{
}

/// Exact half of an `i128` span, rounded toward zero.
fn half_i128(d: i128) -> (r: i128)
    requires
        -0x2_0000_0000_0000_0000 <= d <= 0x2_0000_0000_0000_0000,
    ensures
        r == half(d as int),
{
    if d >= 0 {
        d / 2
    } else {
        -((-d) / 2)
    }
}

impl PositionUnit for u8 {
    open spec fn val(self) -> int {
        self as int
    }

    open spec fn lowest() -> int {
        u8::MIN as int
    }

    open spec fn highest() -> int {
        u8::MAX as int
    }

    proof fn lemma_val(self, other: Self) {
    }

    fn less_than(self, other: Self) -> (r: bool) {
        self < other
    }

    fn add(self, other: Self) -> (r: Self) {
        self + other
    }

    fn midpoint(lo: Self, hi: Self) -> (r: Self) {
        let a: i128 = lo as i128;
        let h: i128 = half_i128(hi as i128 - a);
        (a + h) as u8
    }

    fn to_i128(self) -> (r: i128) {
        self as i128
    }
}

impl PositionUnit for u16 {
    open spec fn val(self) -> int {
        self as int
    }

    open spec fn lowest() -> int {
        u16::MIN as int
    }

    open spec fn highest() -> int {
        u16::MAX as int
    }

    proof fn lemma_val(self, other: Self) {
    }

    fn less_than(self, other: Self) -> (r: bool) {
        self < other
    }

    fn add(self, other: Self) -> (r: Self) {
        self + other
    }

    fn midpoint(lo: Self, hi: Self) -> (r: Self) {
        let a: i128 = lo as i128;
        let h: i128 = half_i128(hi as i128 - a);
        (a + h) as u16
    }

    fn to_i128(self) -> (r: i128) {
        self as i128
    }
}

impl PositionUnit for u32 {
    open spec fn val(self) -> int {
        self as int
    }

    open spec fn lowest() -> int {
        u32::MIN as int
    }

    open spec fn highest() -> int {
        u32::MAX as int
    }

    proof fn lemma_val(self, other: Self) {
    }

    fn less_than(self, other: Self) -> (r: bool) {
        self < other
    }

    fn add(self, other: Self) -> (r: Self) {
        self + other
    }

    fn midpoint(lo: Self, hi: Self) -> (r: Self) {
        let a: i128 = lo as i128;
        let h: i128 = half_i128(hi as i128 - a);
        (a + h) as u32
    }

    fn to_i128(self) -> (r: i128) {
        self as i128
    }
}

impl PositionUnit for u64 {
    open spec fn val(self) -> int {
        self as int
    }

    open spec fn lowest() -> int {
        u64::MIN as int
    }

    open spec fn highest() -> int {
        u64::MAX as int
    }

    proof fn lemma_val(self, other: Self) {
    }

    fn less_than(self, other: Self) -> (r: bool) {
        self < other
    }

    fn add(self, other: Self) -> (r: Self) {
        self + other
    }

    fn midpoint(lo: Self, hi: Self) -> (r: Self) {
        let a: i128 = lo as i128;
        let h: i128 = half_i128(hi as i128 - a);
        (a + h) as u64
    }

    fn to_i128(self) -> (r: i128) {
        self as i128
    }
}

impl PositionUnit for usize {
    open spec fn val(self) -> int {
        self as int
    }

    open spec fn lowest() -> int {
        usize::MIN as int
    }

    open spec fn highest() -> int {
        usize::MAX as int
    }

    proof fn lemma_val(self, other: Self) {
    }

    fn less_than(self, other: Self) -> (r: bool) {
        self < other
    }

    fn add(self, other: Self) -> (r: Self) {
        self + other
    }

    fn midpoint(lo: Self, hi: Self) -> (r: Self) {
        let a: i128 = lo as i128;
        let h: i128 = half_i128(hi as i128 - a);
        (a + h) as usize
    }

    fn to_i128(self) -> (r: i128) {
        self as i128
    }
}

impl PositionUnit for i8 {
    open spec fn val(self) -> int {
        self as int
    }

    open spec fn lowest() -> int {
        i8::MIN as int
    }

    open spec fn highest() -> int {
        i8::MAX as int
    }

    proof fn lemma_val(self, other: Self) {
    }

    fn less_than(self, other: Self) -> (r: bool) {
        self < other
    }

    fn add(self, other: Self) -> (r: Self) {
        self + other
    }

    fn midpoint(lo: Self, hi: Self) -> (r: Self) {
        let a: i128 = lo as i128;
        let h: i128 = half_i128(hi as i128 - a);
        (a + h) as i8
    }

    fn to_i128(self) -> (r: i128) {
        self as i128
    }
}

impl PositionUnit for i16 {
    open spec fn val(self) -> int {
        self as int
    }

    open spec fn lowest() -> int {
        i16::MIN as int
    }

    open spec fn highest() -> int {
        i16::MAX as int
    }

    proof fn lemma_val(self, other: Self) {
    }

    fn less_than(self, other: Self) -> (r: bool) {
        self < other
    }

    fn add(self, other: Self) -> (r: Self) {
        self + other
    }

    fn midpoint(lo: Self, hi: Self) -> (r: Self) {
        let a: i128 = lo as i128;
        let h: i128 = half_i128(hi as i128 - a);
        (a + h) as i16
    }

    fn to_i128(self) -> (r: i128) {
        self as i128
    }
}

impl PositionUnit for i32 {
    open spec fn val(self) -> int {
        self as int
    }

    open spec fn lowest() -> int {
        i32::MIN as int
    }

    open spec fn highest() -> int {
        i32::MAX as int
    }

    proof fn lemma_val(self, other: Self) {
    }

    fn less_than(self, other: Self) -> (r: bool) {
        self < other
    }

    fn add(self, other: Self) -> (r: Self) {
        self + other
    }

    fn midpoint(lo: Self, hi: Self) -> (r: Self) {
        let a: i128 = lo as i128;
        let h: i128 = half_i128(hi as i128 - a);
        (a + h) as i32
    }

    fn to_i128(self) -> (r: i128) {
        self as i128
    }
}

impl PositionUnit for i64 {
    open spec fn val(self) -> int {
        self as int
    }

    open spec fn lowest() -> int {
        i64::MIN as int
    }

    open spec fn highest() -> int {
        i64::MAX as int
    }

    proof fn lemma_val(self, other: Self) {
    }

    fn less_than(self, other: Self) -> (r: bool) {
        self < other
    }

    fn add(self, other: Self) -> (r: Self) {
        self + other
    }

    fn midpoint(lo: Self, hi: Self) -> (r: Self) {
        let a: i128 = lo as i128;
        let h: i128 = half_i128(hi as i128 - a);
        (a + h) as i64
    }

    fn to_i128(self) -> (r: i128) {
        self as i128
    }
}

impl PositionUnit for isize {
    open spec fn val(self) -> int {
        self as int
    }

    open spec fn lowest() -> int {
        isize::MIN as int
    }

    open spec fn highest() -> int {
        isize::MAX as int
    }

    proof fn lemma_val(self, other: Self) {
    }

    fn less_than(self, other: Self) -> (r: bool) {
        self < other
    }

    fn add(self, other: Self) -> (r: Self) {
        self + other
    }

    fn midpoint(lo: Self, hi: Self) -> (r: Self) {
        let a: i128 = lo as i128;
        let h: i128 = half_i128(hi as i128 - a);
        (a + h) as isize
    }

    fn to_i128(self) -> (r: i128) {
        self as i128
    }
}

} // verus!
