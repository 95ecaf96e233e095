//! Sequence numbers that wrap around, compared and subtracted within a
//! clipping window.
use vstd::prelude::*;

verus! {

/// Marker for the unsigned integer types a sequence number can be built on.
pub trait Unsigned {}

impl Unsigned for u8 {}
impl Unsigned for u16 {}
impl Unsigned for u32 {}
impl Unsigned for u64 {}

/// The arithmetic a sequence number needs from its integer type: a bound,
/// comparison, subtraction without underflow and wrapping addition.
pub trait SequenceNumberBase: Unsigned + Copy + Sized {
    /// The value as a natural number.
    spec fn value(&self) -> nat;

    /// The largest value of the type.
    spec fn max_int() -> nat;

    proof fn lemma_bounds(v: Self)
        ensures
            v.value() <= Self::max_int(),
            Self::max_int() >= 0xFF,
    ;

    fn max_value() -> (r: Self)
        ensures
            r.value() == Self::max_int(),
    ;

    fn from_u8(v: u8) -> (r: Self)
        ensures
            r.value() == v as nat,
    ;

    fn less_than(&self, other: &Self) -> (r: bool)
        ensures
            r == (self.value() < other.value()),
    ;

    fn checked_minus(&self, other: &Self) -> (r: Self)
        requires
            other.value() <= self.value(),
        ensures
            r.value() == self.value() - other.value(),
    ;

    fn checked_plus(&self, other: &Self) -> (r: Self)
        requires
            self.value() + other.value() <= Self::max_int(),
        ensures
            r.value() == self.value() + other.value(),
    ;

    fn wrapping_plus(&self, other: &Self) -> (r: Self)
        ensures
            r.value() == (self.value() + other.value()) % (Self::max_int() + 1),
    ;

    fn wrapping_minus(&self, other: &Self) -> (r: Self)
        ensures
            r.value() == (self.value() - other.value()) % ((Self::max_int() + 1) as int),
    ;
}

/// Reduction modulo `m` of a value less than `m` away from `[0, m)`.
pub proof fn lemma_mod_wrap(x: int, m: int)
    requires
        m > 0,
        -m <= x < 2 * m,
    ensures
        x % m == if x >= m { x - m } else if x < 0 { x + m } else { x },
{
    if x >= m {
        vstd::arithmetic::div_mod::lemma_fundamental_div_mod(x, m);
        assert(x / m == 1) by (nonlinear_arith) requires m > 0, m <= x < 2 * m, x == m * (x / m) + x % m, 0 <= x % m < m;
    } else if x < 0 {
        vstd::arithmetic::div_mod::lemma_fundamental_div_mod(x, m);
        assert(x / m == -1) by (nonlinear_arith) requires m > 0, -m <= x < 0, x == m * (x / m) + x % m, 0 <= x % m < m;
    } else {
        vstd::arithmetic::div_mod::lemma_small_mod(x as nat, m as nat);
    }
}

impl SequenceNumberBase for u8 {
    open spec fn value(&self) -> nat { *self as nat }
    open spec fn max_int() -> nat { 0xFF }
    proof fn lemma_bounds(v: Self) {}
    fn max_value() -> (r: Self) { 0xFF }
    fn from_u8(v: u8) -> (r: Self) { v }
    fn less_than(&self, other: &Self) -> (r: bool) { *self < *other }
    fn checked_minus(&self, other: &Self) -> (r: Self) { *self - *other }
    fn checked_plus(&self, other: &Self) -> (r: Self) { *self + *other }
    fn wrapping_plus(&self, other: &Self) -> (r: Self) {
        proof { lemma_mod_wrap(self.value() as int + other.value() as int, (Self::max_int() + 1) as int); }
        if *self as u16 + *other as u16 > 0xFF {
            (*self as u16 + *other as u16 - 0x100) as u8
        } else {
            *self + *other
        }
    }
    fn wrapping_minus(&self, other: &Self) -> (r: Self) {
        proof { lemma_mod_wrap(self.value() as int - other.value() as int, (Self::max_int() + 1) as int); }
        if *self >= *other {
            *self - *other
        } else {
            (0x100 - (*other as u16) + (*self as u16)) as u8
        }
    }
}

impl SequenceNumberBase for u16 {
    open spec fn value(&self) -> nat { *self as nat }
    open spec fn max_int() -> nat { 0xFFFF }
    proof fn lemma_bounds(v: Self) {}
    fn max_value() -> (r: Self) { 0xFFFF }
    fn from_u8(v: u8) -> (r: Self) { v as u16 }
    fn less_than(&self, other: &Self) -> (r: bool) { *self < *other }
    fn checked_minus(&self, other: &Self) -> (r: Self) { *self - *other }
    fn checked_plus(&self, other: &Self) -> (r: Self) { *self + *other }
    fn wrapping_plus(&self, other: &Self) -> (r: Self) {
        proof { lemma_mod_wrap(self.value() as int + other.value() as int, (Self::max_int() + 1) as int); }
        if *self as u32 + *other as u32 > 0xFFFF {
            (*self as u32 + *other as u32 - 0x10000) as u16
        } else {
            *self + *other
        }
    }
    fn wrapping_minus(&self, other: &Self) -> (r: Self) {
        proof { lemma_mod_wrap(self.value() as int - other.value() as int, (Self::max_int() + 1) as int); }
        if *self >= *other {
            *self - *other
        } else {
            (0x10000 - (*other as u32) + (*self as u32)) as u16
        }
    }
}

impl SequenceNumberBase for u32 {
    open spec fn value(&self) -> nat { *self as nat }
    open spec fn max_int() -> nat { 0xFFFF_FFFF }
    proof fn lemma_bounds(v: Self) {}
    fn max_value() -> (r: Self) { 0xFFFF_FFFF }
    fn from_u8(v: u8) -> (r: Self) { v as u32 }
    fn less_than(&self, other: &Self) -> (r: bool) { *self < *other }
    fn checked_minus(&self, other: &Self) -> (r: Self) { *self - *other }
    fn checked_plus(&self, other: &Self) -> (r: Self) { *self + *other }
    fn wrapping_plus(&self, other: &Self) -> (r: Self) {
        proof { lemma_mod_wrap(self.value() as int + other.value() as int, (Self::max_int() + 1) as int); }
        if *self as u64 + *other as u64 > 0xFFFF_FFFF {
            (*self as u64 + *other as u64 - 0x1_0000_0000) as u32
        } else {
            *self + *other
        }
    }
    fn wrapping_minus(&self, other: &Self) -> (r: Self) {
        proof { lemma_mod_wrap(self.value() as int - other.value() as int, (Self::max_int() + 1) as int); }
        if *self >= *other {
            *self - *other
        } else {
            (0x1_0000_0000 - (*other as u64) + (*self as u64)) as u32
        }
    }
}

impl SequenceNumberBase for u64 {
    open spec fn value(&self) -> nat { *self as nat }
    open spec fn max_int() -> nat { 0xFFFF_FFFF_FFFF_FFFF }
    proof fn lemma_bounds(v: Self) {}
    fn max_value() -> (r: Self) { 0xFFFF_FFFF_FFFF_FFFF }
    fn from_u8(v: u8) -> (r: Self) { v as u64 }
    fn less_than(&self, other: &Self) -> (r: bool) { *self < *other }
    fn checked_minus(&self, other: &Self) -> (r: Self) { *self - *other }
    fn checked_plus(&self, other: &Self) -> (r: Self) { *self + *other }
    fn wrapping_plus(&self, other: &Self) -> (r: Self) {
        proof { lemma_mod_wrap(self.value() as int + other.value() as int, (Self::max_int() + 1) as int); }
        if *self as u128 + *other as u128 > 0xFFFF_FFFF_FFFF_FFFF {
            (*self as u128 + *other as u128 - 0x1_0000_0000_0000_0000) as u64
        } else {
            *self + *other
        }
    }
    fn wrapping_minus(&self, other: &Self) -> (r: Self) {
        proof { lemma_mod_wrap(self.value() as int - other.value() as int, (Self::max_int() + 1) as int); }
        if *self >= *other {
            *self - *other
        } else {
            (0x1_0000_0000_0000_0000 - (*other as u128) + (*self as u128)) as u64
        }
    }
}

/// `a` comes before `b`, where values close to the maximum and values below
/// the clipping window are taken to lie next to each other.
pub open spec fn spec_is_less(a: nat, b: nat, window: Option<nat>, max: nat) -> bool {
    match window {
        Some(w) => if a < w {
            a < b && b < max - w
        } else if a > max - w {
            a < b || (a + w) % (max + 1) >= b
        } else {
            a < b
        },
        None => a < b,
    }
}

/// Without a clipping window, sequence numbers are ordered as plain integers.
pub proof fn lemma_is_less_unclipped(a: nat, b: nat, max: nat)
    ensures
        spec_is_less(a, b, None, max) == (a < b),
{
}

/// Away from the wrap point (both values at least `w` from either end of the
/// range) the order of sequence numbers is the order of the integers: a
/// larger value never comes before a smaller one there.
pub proof fn lemma_is_less_away_from_wrap(a: nat, b: nat, w: nat, max: nat)
    requires
        w <= a <= max - w,
        w <= b <= max - w,
    ensures
        spec_is_less(a, b, Some(w), max) == (a < b),
{
}

/// A value within the window below the maximum comes before a small value
/// exactly when the small value lies at most `w` steps after it, counting
/// across the wrap point.
pub proof fn lemma_is_less_across_wrap(a: nat, b: nat, w: nat, max: nat)
    requires
        a <= max,
        2 * w <= max + 1,
        a > max - w,
        b < w,
    ensures
        spec_is_less(a, b, Some(w), max) == (b + (max + 1) - a <= w),
{
    lemma_mod_wrap(a + w as int, max + 1 as int);
}

/// A value below the window never comes before a value at or above the
/// window below the maximum: across the wrap point the small value is the
/// later one.
pub proof fn lemma_is_less_not_backwards_across_wrap(a: nat, b: nat, w: nat, max: nat)
    requires
        a < w,
        b >= max - w,
    ensures
        !spec_is_less(a, b, Some(w), max),
{
}

/// Unless the two values straddle the wrap point (one below the window, the
/// other one within the window below the maximum), the order of sequence
/// numbers is the order of the integers.
pub proof fn lemma_is_less_without_crossing(a: nat, b: nat, w: nat, max: nat)
    requires
        a <= max,
        b <= max,
        2 * w <= max + 1,
        !(a > max - w && b < w),
        !(a < w && b >= max - w),
    ensures
        spec_is_less(a, b, Some(w), max) == (a < b),
{
    if a > max - w {
        lemma_mod_wrap(a + w as int, max + 1 as int);
    }
}

/// The order of sequence numbers is asymmetric (and so irreflexive): when
/// the clipping window is at most half the range, `a` before `b` rules out
/// `b` before `a`.
pub proof fn lemma_is_less_asymmetric(a: nat, b: nat, window: Option<nat>, max: nat)
    requires
        a <= max,
        b <= max,
        window matches Some(w) ==> 2 * w <= max + 1,
    ensures
        spec_is_less(a, b, window, max) ==> !spec_is_less(b, a, window, max),
{
    if let Some(w) = window {
        if a > max - w {
            lemma_mod_wrap(a + w as int, max + 1 as int);
        }
        if b > max - w {
            lemma_mod_wrap(b + w as int, max + 1 as int);
        }
    }
}

/// The distance between `a` and `b`, measured across the wrap point when one
/// of them lies below the clipping window and the other one close to the
/// maximum.
pub open spec fn spec_difference(a: nat, b: nat, window: Option<nat>, max: nat) -> int {
    match window {
        Some(w) => if a < w {
            if b > max - w {
                (max - b) + a + 1
            } else if b > a {
                b - a
            } else {
                a - b
            }
        } else if b < w {
            if a > max - w {
                (max - a) + b + 1
            } else if a > b {
                a - b
            } else {
                b - a
            }
        } else if a > b {
            a - b
        } else {
            b - a
        },
        None => if a > b {
            a - b
        } else {
            b - a
        },
    }
}

/// The difference of two sequence numbers does not depend on their order,
/// when the clipping window is at most half the range of the numbers.
pub proof fn lemma_difference_symmetric(a: nat, b: nat, window: Option<nat>, max: nat)
    requires
        a <= max,
        b <= max,
        window matches Some(w) ==> 2 * w <= max + 1,
    ensures
        spec_difference(a, b, window, max) == spec_difference(b, a, window, max),
{
}

/// The inputs on which the difference fits the integer type: the distance
/// across the wrap point is only taken between values that lie on different
/// sides of it.
pub open spec fn difference_fits(a: nat, b: nat, window: Option<nat>, max: nat) -> bool {
    match window {
        Some(w) => (a < w && b > max - w ==> a < b) && (!(a < w) && b < w && a > max - w ==> b < a),
        None => true,
    }
}

/// A wrapper around an unsigned integer to represent a packet id.
#[derive(Debug, PartialEq, Clone, Copy, Eq)]
pub struct SequenceNumber<T> {
    pub packet_id: T,
}

impl<T: SequenceNumberBase> SequenceNumber<T> {
    pub fn new(packet_id: T) -> (r: Self)
        ensures
            r.packet_id == packet_id,
    {
        SequenceNumber { packet_id }
    }

    pub fn is_less(&self, other: &Self, clipping_window: Option<T>) -> (r: bool)
        ensures
            r == spec_is_less(
                self.packet_id.value(),
                other.packet_id.value(),
                match clipping_window { Some(w) => Some(w.value()), None => None },
                T::max_int(),
            ),
    {
        proof {
            T::lemma_bounds(self.packet_id);
            T::lemma_bounds(other.packet_id);
        }
        if let Some(window) = clipping_window {
            proof { T::lemma_bounds(window); }
            let max = T::max_value();
            let upper = max.checked_minus(&window);
            if self.packet_id.less_than(&window) {
                self.packet_id.less_than(&other.packet_id) && other.packet_id.less_than(&upper)
            } else if upper.less_than(&self.packet_id) {
                let shifted = self.packet_id.wrapping_plus(&window);
                self.packet_id.less_than(&other.packet_id) || !shifted.less_than(&other.packet_id)
            } else {
                self.packet_id.less_than(&other.packet_id)
            }
        } else {
            self.packet_id.less_than(&other.packet_id)
        }
    }

    pub fn difference(&self, other: &Self, clipping_window: Option<T>) -> (r: T)
        requires
            difference_fits(
                self.packet_id.value(),
                other.packet_id.value(),
                match clipping_window { Some(w) => Some(w.value()), None => None },
                T::max_int(),
            ),
        ensures
            r.value() == spec_difference(
                self.packet_id.value(),
                other.packet_id.value(),
                match clipping_window { Some(w) => Some(w.value()), None => None },
                T::max_int(),
            ),
    {
        proof {
            T::lemma_bounds(self.packet_id);
            T::lemma_bounds(other.packet_id);
        }
        let a = self.packet_id;
        let b = other.packet_id;
        if let Some(window) = clipping_window {
            proof { T::lemma_bounds(window); }
            let max = T::max_value();
            let upper = max.checked_minus(&window);
            let one = T::from_u8(1);
            if a.less_than(&window) {
                return if upper.less_than(&b) {
                    max.checked_minus(&b).checked_plus(&a).checked_plus(&one)
                } else if a.less_than(&b) {
                    b.checked_minus(&a)
                } else {
                    a.checked_minus(&b)
                };
            } else if b.less_than(&window) {
                return if upper.less_than(&a) {
                    max.checked_minus(&a).checked_plus(&b).checked_plus(&one)
                } else if b.less_than(&a) {
                    a.checked_minus(&b)
                } else {
                    b.checked_minus(&a)
                };
            }
        }
        if b.less_than(&a) {
            a.checked_minus(&b)
        } else {
            b.checked_minus(&a)
        }
    }

    /// The sequence number `rhs` steps later, wrapping at the maximum.
    pub fn add(self, rhs: T) -> (r: Self)
        ensures
            r.packet_id.value() == (self.packet_id.value() + rhs.value()) % (T::max_int() + 1),
    {
        SequenceNumber::new(self.packet_id.wrapping_plus(&rhs))
    }

    /// The sequence number `rhs` steps earlier, wrapping at zero.
    pub fn sub(self, rhs: T) -> (r: Self)
        ensures
            r.packet_id.value() == (self.packet_id.value() - rhs.value()) % ((T::max_int() + 1) as int),
    {
        SequenceNumber::new(self.packet_id.wrapping_minus(&rhs))
    }

    /// Whether this sequence number holds `other`.
    pub fn eq_id(&self, other: &T) -> (r: bool)
        ensures
            r == (self.packet_id.value() == other.value()),
    {
        !self.packet_id.less_than(other) && !other.less_than(&self.packet_id)
    }

    pub fn from(id: T) -> (r: Self)
        ensures
            r.packet_id == id,
    {
        SequenceNumber::new(id)
    }
}

} // verus!
