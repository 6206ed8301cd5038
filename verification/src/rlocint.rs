//! Relocatable integers: an affine value `offset + rlocmode * base/4` tied to
//! an unresolved base address. The mode encodes the scale factor: 0 for a
//! plain constant, 1 for an EPD address (base / 4), 4 for a pointer (base).
//! All arithmetic wraps on overflow, matching the 32-bit addressing domain;
//! division and modulo demand exact divisibility on relocated values and
//! report `NotDivisible` instead of truncating silently.

use vstd::prelude::*;
use vstd::arithmetic::div_mod::lemma_fundamental_div_mod;
use crate::error::EudError;

verus! {

/// Relocation mode of a plain constant.
pub const RLOCMODE_CONST: i32 = 0;

/// Relocation mode of an EPD address (the base address divided by 4).
pub const RLOCMODE_EPD: i32 = 1;

/// Relocation mode of a full pointer (the base address itself).
pub const RLOCMODE_PTR: i32 = 4;

/// A relocatable integer: `offset` plus `rlocmode` quarters of the base
/// address that is only decided at load time.
#[derive(Clone, Copy, Debug, PartialEq, Eq, Structural)]
pub struct RlocInt {
    pub offset: i32,
    pub rlocmode: i32,
}

/// Floor division on unbounded integers (`/` on `int` is Euclidean).
pub open spec fn floor_div_int(a: int, d: int) -> int {
    if a % d == 0 {
        a / d
    } else if d < 0 {
        a / d - 1
    } else {
        a / d
    }
}

/// Floor remainder on unbounded integers: what `a - d * floor_div_int(a, d)`
/// leaves over; it carries the divisor's sign.
pub open spec fn floor_rem_int(a: int, d: int) -> int {
    a - d * floor_div_int(a, d)
}

pub open spec fn wadd(a: i32, b: i32) -> i32 {
    vstd::wrapping::i32_specs::wrapping_add(a, b)
}

pub open spec fn wsub(a: i32, b: i32) -> i32 {
    vstd::wrapping::i32_specs::wrapping_sub(a, b)
}

pub open spec fn wmul(a: i32, b: i32) -> i32 {
    vstd::wrapping::i32_specs::wrapping_mul(a, b)
}

pub open spec fn wneg(a: i32) -> i32 {
    vstd::wrapping::i32_specs::wrapping_sub(0, a)
}

pub open spec fn spec_add(a: RlocInt, b: RlocInt) -> RlocInt {
    RlocInt { offset: wadd(a.offset, b.offset), rlocmode: wadd(a.rlocmode, b.rlocmode) }
}

pub open spec fn spec_add_i32(a: RlocInt, k: i32) -> RlocInt {
    RlocInt { offset: wadd(a.offset, k), rlocmode: a.rlocmode }
}

pub open spec fn spec_sub(a: RlocInt, b: RlocInt) -> RlocInt {
    RlocInt { offset: wsub(a.offset, b.offset), rlocmode: wsub(a.rlocmode, b.rlocmode) }
}

pub open spec fn spec_sub_i32(a: RlocInt, k: i32) -> RlocInt {
    RlocInt { offset: wsub(a.offset, k), rlocmode: a.rlocmode }
}

/// `k - a`: the offset is subtracted from `k`, the mode changes sign.
pub open spec fn spec_rsub_i32(k: i32, a: RlocInt) -> RlocInt {
    RlocInt { offset: wsub(k, a.offset), rlocmode: wneg(a.rlocmode) }
}

pub open spec fn spec_neg(a: RlocInt) -> RlocInt {
    RlocInt { offset: wneg(a.offset), rlocmode: wneg(a.rlocmode) }
}

pub open spec fn spec_mul_i32(a: RlocInt, k: i32) -> RlocInt {
    RlocInt { offset: wmul(a.offset, k), rlocmode: wmul(a.rlocmode, k) }
}

/// Multiplying two relocatable values is defined only when the right operand
/// is a plain constant; both components scale by its offset.
pub open spec fn spec_try_mul(a: RlocInt, b: RlocInt) -> Result<RlocInt, EudError> {
    if b.rlocmode != 0 {
        Err(EudError::InvalidMode)
    } else {
        Ok(spec_mul_i32(a, b.offset))
    }
}

pub open spec fn spec_floor_div_i32(a: i32, d: i32) -> i32 {
    floor_div_int(a as int, d as int) as i32
}

pub open spec fn spec_floor_rem_i32(a: i32, d: i32) -> i32 {
    floor_rem_int(a as int, d as int) as i32
}

/// Floor division of a relocatable value by a plain constant. A relocated
/// value (mode != 0) divides only when both its offset and its mode divide
/// evenly; anything else is `NotDivisible`. A plain constant floor-divides
/// without restriction.
pub open spec fn spec_try_div_i32(a: RlocInt, d: i32) -> Result<RlocInt, EudError> {
    if a.rlocmode != 0 && !(a.offset % d == 0 && a.rlocmode % d == 0) {
        Err(EudError::NotDivisible)
    } else {
        Ok(RlocInt { offset: spec_floor_div_i32(a.offset, d), rlocmode: spec_floor_div_i32(a.rlocmode, d) })
    }
}

pub open spec fn spec_try_div(a: RlocInt, b: RlocInt) -> Result<RlocInt, EudError> {
    if b.rlocmode != 0 {
        Err(EudError::InvalidMode)
    } else {
        spec_try_div_i32(a, b.offset)
    }
}

/// Floor remainder under the same conditions as division.
pub open spec fn spec_try_rem_i32(a: RlocInt, d: i32) -> Result<RlocInt, EudError> {
    if a.rlocmode != 0 && !(a.offset % d == 0 && a.rlocmode % d == 0) {
        Err(EudError::NotDivisible)
    } else {
        Ok(RlocInt { offset: spec_floor_rem_i32(a.offset, d), rlocmode: spec_floor_rem_i32(a.rlocmode, d) })
    }
}

pub open spec fn spec_try_rem(a: RlocInt, b: RlocInt) -> Result<RlocInt, EudError> {
    if b.rlocmode != 0 {
        Err(EudError::InvalidMode)
    } else {
        spec_try_rem_i32(a, b.offset)
    }
}

/// Bitwise AND with a plain mask. Only constant and pointer modes take part,
/// and a pointer-mode value only accepts masks 0 through 3: the low two bits
/// of a 4-aligned base are known, the rest are not.
pub open spec fn spec_try_and_i32(a: RlocInt, k: i32) -> Result<RlocInt, EudError> {
    if a.rlocmode != 0 && a.rlocmode != 4 {
        Err(EudError::InvalidMode)
    } else if a.rlocmode == 4 && (k & 3) != k {
        Err(EudError::InvalidMode)
    } else {
        Ok(RlocInt { offset: a.offset & k, rlocmode: a.rlocmode })
    }
}

pub open spec fn spec_try_and(a: RlocInt, b: RlocInt) -> Result<RlocInt, EudError> {
    if a.rlocmode != 0 && a.rlocmode != 4 {
        Err(EudError::InvalidMode)
    } else if a.rlocmode != 0 || b.rlocmode != 0 {
        Err(EudError::InvalidMode)
    } else {
        Ok(RlocInt { offset: a.offset & b.offset, rlocmode: 0 })
    }
}

pub open spec fn spec_try_or_i32(a: RlocInt, k: i32) -> Result<RlocInt, EudError> {
    if a.rlocmode != 0 && a.rlocmode != 4 {
        Err(EudError::InvalidMode)
    } else if a.rlocmode == 4 && (k & 3) != k {
        Err(EudError::InvalidMode)
    } else {
        Ok(RlocInt { offset: a.offset | k, rlocmode: a.rlocmode })
    }
}

pub open spec fn spec_try_or(a: RlocInt, b: RlocInt) -> Result<RlocInt, EudError> {
    if a.rlocmode != 0 && a.rlocmode != 4 {
        Err(EudError::InvalidMode)
    } else if a.rlocmode != 0 || b.rlocmode != 0 {
        Err(EudError::InvalidMode)
    } else {
        Ok(RlocInt { offset: a.offset | b.offset, rlocmode: 0 })
    }
}

pub open spec fn spec_try_invert(a: RlocInt) -> Result<RlocInt, EudError> {
    if a.rlocmode != 0 {
        Err(EudError::InvalidMode)
    } else {
        Ok(RlocInt { offset: !a.offset, rlocmode: 0 })
    }
}

/// The Euclidean quotient and remainder of an `i32` by a nonzero divisor
/// stay in range, except for `i32::MIN / -1`.
proof fn lemma_euclid_bounds(a: int, d: int)
    requires
        d != 0,
        i32::MIN <= a <= i32::MAX,
        !(a == i32::MIN && d == -1),
    ensures
        a == d * (a / d) + a % d,
        0 <= a % d < (if d > 0 { d } else { -d }),
        i32::MIN <= a / d <= i32::MAX,
{
    lemma_fundamental_div_mod(a, d);
    assert(0 <= a % d < (if d > 0 { d } else { -d })) by (nonlinear_arith)
        requires
            d != 0,
    ;
    let q = a / d;
    let r = a % d;
    assert(i32::MIN <= q <= i32::MAX) by (nonlinear_arith)
        requires
            a == d * q + r,
            0 <= r < (if d > 0 { d } else { -d }),
            d != 0,
            i32::MIN <= a <= i32::MAX,
            !(a == i32::MIN && d == -1),
    ;
}

/// Floor division of `a` by `d`, rounding toward negative infinity.
pub fn floor_div_i32(a: i32, d: i32) -> (q: i32)
    requires
        d != 0,
        !(a == i32::MIN && d == -1),
    ensures
        q as int == floor_div_int(a as int, d as int),
{
    proof {
        lemma_euclid_bounds(a as int, d as int);
    }
    let q0 = match a.checked_div_euclid(d) {
        Some(q) => q,
        None => {
            proof {
                assert(false);
            }
            0
        },
    };
    let r0 = match a.checked_rem_euclid(d) {
        Some(r) => r,
        None => {
            proof {
                assert(false);
            }
            0
        },
    };
    if d < 0 && r0 != 0 {
        proof {
            assert(d <= -2) by {
                if d == -1 {
                    assert(a as int % (d as int) == 0);
                }
            }
            assert(q0 > i32::MIN) by (nonlinear_arith)
                requires
                    a as int == d as int * (q0 as int) + r0 as int,
                    d <= -2,
                    0 < r0 < -(d as int),
                    i32::MIN <= a <= i32::MAX,
            ;
        }
        q0 - 1
    } else {
        q0
    }
}

/// Floor remainder of `a` by `d`; carries the divisor's sign.
pub fn floor_rem_i32(a: i32, d: i32) -> (r: i32)
    requires
        d != 0,
        !(a == i32::MIN && d == -1),
    ensures
        r as int == floor_rem_int(a as int, d as int),
{
    proof {
        lemma_euclid_bounds(a as int, d as int);
    }
    let r0 = match a.checked_rem_euclid(d) {
        Some(r) => r,
        None => {
            proof {
                assert(false);
            }
            0
        },
    };
    if d < 0 && r0 != 0 {
        proof {
            let q = a as int / d as int;
            assert(d as int * (q - 1) == d as int * q - d as int) by (nonlinear_arith);
        }
        r0 + d
    } else {
        r0
    }
}

impl RlocInt {
    pub fn new(offset: i32, rlocmode: i32) -> (r: RlocInt)
        ensures
            r == (RlocInt { offset, rlocmode }),
    {
        RlocInt { offset, rlocmode }
    }

    /// Add another relocatable value; offsets and modes combine linearly.
    pub fn wrapping_add(&self, o: &RlocInt) -> (r: RlocInt)
        ensures
            r == spec_add(*self, *o),
    {
        RlocInt {
            offset: self.offset.wrapping_add(o.offset),
            rlocmode: self.rlocmode.wrapping_add(o.rlocmode),
        }
    }

    /// Add a plain integer; the mode passes through unchanged.
    pub fn wrapping_add_i32(&self, k: i32) -> (r: RlocInt)
        ensures
            r == spec_add_i32(*self, k),
    {
        RlocInt { offset: self.offset.wrapping_add(k), rlocmode: self.rlocmode }
    }

    pub fn wrapping_sub(&self, o: &RlocInt) -> (r: RlocInt)
        ensures
            r == spec_sub(*self, *o),
    {
        RlocInt {
            offset: self.offset.wrapping_sub(o.offset),
            rlocmode: self.rlocmode.wrapping_sub(o.rlocmode),
        }
    }

    pub fn wrapping_sub_i32(&self, k: i32) -> (r: RlocInt)
        ensures
            r == spec_sub_i32(*self, k),
    {
        RlocInt { offset: self.offset.wrapping_sub(k), rlocmode: self.rlocmode }
    }

    /// `k - self`: subtraction with the plain integer on the left.
    pub fn rsub_i32(&self, k: i32) -> (r: RlocInt)
        ensures
            r == spec_rsub_i32(k, *self),
    {
        RlocInt {
            offset: k.wrapping_sub(self.offset),
            rlocmode: 0i32.wrapping_sub(self.rlocmode),
        }
    }

    /// Negation flips both the offset and the mode sign.
    pub fn wrapping_neg(&self) -> (r: RlocInt)
        ensures
            r == spec_neg(*self),
    {
        RlocInt {
            offset: 0i32.wrapping_sub(self.offset),
            rlocmode: 0i32.wrapping_sub(self.rlocmode),
        }
    }

    /// Scale by a plain integer.
    pub fn wrapping_mul_i32(&self, k: i32) -> (r: RlocInt)
        ensures
            r == spec_mul_i32(*self, k),
    {
        RlocInt {
            offset: self.offset.wrapping_mul(k),
            rlocmode: self.rlocmode.wrapping_mul(k),
        }
    }

    /// Multiply by another relocatable value, which must be a plain constant.
    pub fn try_mul(&self, o: &RlocInt) -> (r: Result<RlocInt, EudError>)
        ensures
            r == spec_try_mul(*self, *o),
    {
        if o.rlocmode != 0 {
            Err(EudError::InvalidMode)
        } else {
            Ok(self.wrapping_mul_i32(o.offset))
        }
    }

    /// Floor-divide by a plain integer. A relocated value must divide evenly
    /// in both components or the call reports `NotDivisible`.
    pub fn try_div_i32(&self, d: i32) -> (r: Result<RlocInt, EudError>)
        requires
            d != 0,
            !(self.offset == i32::MIN && d == -1),
            !(self.rlocmode == i32::MIN && d == -1),
        ensures
            r == spec_try_div_i32(*self, d),
    {
        let off_rem = floor_rem_i32(self.offset, d);
        let mode_rem = floor_rem_i32(self.rlocmode, d);
        proof {
            lemma_fundamental_div_mod(self.offset as int, d as int);
            lemma_fundamental_div_mod(self.rlocmode as int, d as int);
            lemma_floor_rem_zero(self.offset as int, d as int);
            lemma_floor_rem_zero(self.rlocmode as int, d as int);
        }
        if self.rlocmode != 0 && !(off_rem == 0 && mode_rem == 0) {
            Err(EudError::NotDivisible)
        } else {
            Ok(RlocInt {
                offset: floor_div_i32(self.offset, d),
                rlocmode: floor_div_i32(self.rlocmode, d),
            })
        }
    }

    /// Floor-divide by another relocatable value, which must be a plain,
    /// nonzero constant.
    pub fn try_div(&self, o: &RlocInt) -> (r: Result<RlocInt, EudError>)
        requires
            o.rlocmode == 0 ==> o.offset != 0,
            o.rlocmode == 0 ==> !(self.offset == i32::MIN && o.offset == -1),
            o.rlocmode == 0 ==> !(self.rlocmode == i32::MIN && o.offset == -1),
        ensures
            r == spec_try_div(*self, *o),
    {
        if o.rlocmode != 0 {
            Err(EudError::InvalidMode)
        } else {
            self.try_div_i32(o.offset)
        }
    }

    /// Floor remainder by a plain integer, under the same divisibility
    /// conditions as division.
    pub fn try_rem_i32(&self, d: i32) -> (r: Result<RlocInt, EudError>)
        requires
            d != 0,
            !(self.offset == i32::MIN && d == -1),
            !(self.rlocmode == i32::MIN && d == -1),
        ensures
            r == spec_try_rem_i32(*self, d),
    {
        let off_rem = floor_rem_i32(self.offset, d);
        let mode_rem = floor_rem_i32(self.rlocmode, d);
        proof {
            lemma_fundamental_div_mod(self.offset as int, d as int);
            lemma_fundamental_div_mod(self.rlocmode as int, d as int);
            lemma_floor_rem_zero(self.offset as int, d as int);
            lemma_floor_rem_zero(self.rlocmode as int, d as int);
            lemma_floor_rem_range(self.offset as int, d as int);
            lemma_floor_rem_range(self.rlocmode as int, d as int);
        }
        if self.rlocmode != 0 && !(off_rem == 0 && mode_rem == 0) {
            Err(EudError::NotDivisible)
        } else {
            Ok(RlocInt { offset: off_rem, rlocmode: mode_rem })
        }
    }

    pub fn try_rem(&self, o: &RlocInt) -> (r: Result<RlocInt, EudError>)
        requires
            o.rlocmode == 0 ==> o.offset != 0,
            o.rlocmode == 0 ==> !(self.offset == i32::MIN && o.offset == -1),
            o.rlocmode == 0 ==> !(self.rlocmode == i32::MIN && o.offset == -1),
        ensures
            r == spec_try_rem(*self, *o),
    {
        if o.rlocmode != 0 {
            Err(EudError::InvalidMode)
        } else {
            self.try_rem_i32(o.offset)
        }
    }

    /// Bitwise AND with a plain mask (pointer mode only accepts 0..=3).
    pub fn try_and_i32(&self, k: i32) -> (r: Result<RlocInt, EudError>)
        ensures
            r == spec_try_and_i32(*self, k),
    {
        if self.rlocmode != 0 && self.rlocmode != 4 {
            Err(EudError::InvalidMode)
        } else if self.rlocmode == 4 && (k & 3) != k {
            Err(EudError::InvalidMode)
        } else {
            Ok(RlocInt { offset: self.offset & k, rlocmode: self.rlocmode })
        }
    }

    /// Bitwise AND with another relocatable value; both must be constants.
    pub fn try_and(&self, o: &RlocInt) -> (r: Result<RlocInt, EudError>)
        ensures
            r == spec_try_and(*self, *o),
    {
        if self.rlocmode != 0 && self.rlocmode != 4 {
            Err(EudError::InvalidMode)
        } else if self.rlocmode != 0 || o.rlocmode != 0 {
            Err(EudError::InvalidMode)
        } else {
            Ok(RlocInt { offset: self.offset & o.offset, rlocmode: 0 })
        }
    }

    /// Bitwise OR with a plain mask (pointer mode only accepts 0..=3).
    pub fn try_or_i32(&self, k: i32) -> (r: Result<RlocInt, EudError>)
        ensures
            r == spec_try_or_i32(*self, k),
    {
        if self.rlocmode != 0 && self.rlocmode != 4 {
            Err(EudError::InvalidMode)
        } else if self.rlocmode == 4 && (k & 3) != k {
            Err(EudError::InvalidMode)
        } else {
            Ok(RlocInt { offset: self.offset | k, rlocmode: self.rlocmode })
        }
    }

    pub fn try_or(&self, o: &RlocInt) -> (r: Result<RlocInt, EudError>)
        ensures
            r == spec_try_or(*self, *o),
    {
        if self.rlocmode != 0 && self.rlocmode != 4 {
            Err(EudError::InvalidMode)
        } else if self.rlocmode != 0 || o.rlocmode != 0 {
            Err(EudError::InvalidMode)
        } else {
            Ok(RlocInt { offset: self.offset | o.offset, rlocmode: 0 })
        }
    }

    /// Bitwise inversion; only a plain constant supports it.
    pub fn try_invert(&self) -> (r: Result<RlocInt, EudError>)
        ensures
            r == spec_try_invert(*self),
    {
        if self.rlocmode != 0 {
            Err(EudError::InvalidMode)
        } else {
            Ok(RlocInt { offset: !self.offset, rlocmode: 0 })
        }
    }

    /// A pointer-mode value whose offset is 4-byte aligned.
    pub fn is_aligned_ptr(&self) -> (r: bool)
        ensures
            r == (self.rlocmode == 4 && self.offset as int % 4 == 0),
    {
        self.rlocmode == 4 && self.offset % 4 == 0
    }

    pub fn is_ptr(&self) -> (r: bool)
        ensures
            r == (self.rlocmode == 4),
    {
        self.rlocmode == 4
    }

    pub fn is_epd(&self) -> (r: bool)
        ensures
            r == (self.rlocmode == 1),
    {
        self.rlocmode == 1
    }
}

/// The floor remainder is zero exactly when the Euclidean remainder is.
pub proof fn lemma_floor_rem_zero(a: int, d: int)
    requires
        d != 0,
    ensures
        (floor_rem_int(a, d) == 0) == (a % d == 0),
{
    lemma_fundamental_div_mod(a, d);
    if a % d == 0 {
        assert(floor_rem_int(a, d) == a - d * (a / d));
    } else {
        if d < 0 {
            assert(floor_rem_int(a, d) == a - d * (a / d - 1));
            assert(a - d * (a / d - 1) == (a - d * (a / d)) + d) by (nonlinear_arith);
            assert(0 < a % d < -d);
        } else {
            assert(floor_rem_int(a, d) == a - d * (a / d));
        }
    }
}

/// The floor remainder lies strictly between `-|d|` and `|d|` and carries
/// the divisor's sign.
pub proof fn lemma_floor_rem_range(a: int, d: int)
    requires
        d != 0,
    ensures
        d > 0 ==> 0 <= floor_rem_int(a, d) < d,
        d < 0 ==> d < floor_rem_int(a, d) <= 0,
{
    lemma_fundamental_div_mod(a, d);
    if a % d == 0 {
        assert(floor_rem_int(a, d) == a - d * (a / d));
    } else if d < 0 {
        assert(a - d * (a / d - 1) == (a - d * (a / d)) + d) by (nonlinear_arith);
        assert(0 < a % d < -d);
    } else {
        assert(0 < a % d < d);
    }
}

/// A nonnegative dividend leaves the same remainder for a divisor and for
/// its negation.
pub proof fn lemma_pos_mod_neg(a: int, d: int)
    requires
        a >= 0,
        d != 0,
    ensures
        a % d == a % (-d),
{
    assert(a % d == a % (-d)) by (nonlinear_arith)
        requires
            a >= 0,
            d != 0,
    ;
}

/// Adding and then subtracting the same relocatable value gives the original
/// back, for every `(offset, mode)` pair: wrapping addition is a group.
pub proof fn lemma_add_sub_cancel(x: RlocInt, a: RlocInt)
    ensures
        spec_sub(spec_add(x, a), a) == x,
{
}

/// The same identity with a plain integer operand.
pub proof fn lemma_add_sub_cancel_i32(x: RlocInt, k: i32)
    ensures
        spec_sub_i32(spec_add_i32(x, k), k) == x,
{
}

/// Multiplying by one changes nothing, for every `(offset, mode)` pair.
pub proof fn lemma_mul_one(x: RlocInt)
    ensures
        spec_mul_i32(x, 1) == x,
{
    assert(wmul(x.offset, 1) == x.offset) by (nonlinear_arith);
    assert(wmul(x.rlocmode, 1) == x.rlocmode) by (nonlinear_arith);
}

/// Division of a plain constant never fails: it floors.
pub proof fn lemma_div_const_succeeds(x: RlocInt, d: i32)
    requires
        d != 0,
        x.rlocmode == 0,
    ensures
        spec_try_div_i32(x, d) is Ok,
{
}

/// Floor division of a relocated value fails with `NotDivisible` exactly
/// when the offset or the mode component does not divide evenly.
pub proof fn lemma_div_not_divisible(x: RlocInt, d: i32)
    requires
        d != 0,
        x.rlocmode != 0,
    ensures
        spec_try_div_i32(x, d) is Err <==> (x.offset % d != 0 || x.rlocmode % d != 0),
        spec_try_div_i32(x, d) is Err ==> spec_try_div_i32(x, d) == Err::<RlocInt, EudError>(EudError::NotDivisible),
{
}

/// When both components divide evenly, division succeeds and multiplying the
/// quotient back by the divisor restores the original value.
pub proof fn lemma_div_mul_cancel(x: RlocInt, d: i32)
    requires
        d != 0,
        x.offset % d == 0,
        x.rlocmode % d == 0,
        !(x.offset == i32::MIN && d == -1),
        !(x.rlocmode == i32::MIN && d == -1),
    ensures
        spec_try_div_i32(x, d) is Ok,
        spec_mul_i32(spec_try_div_i32(x, d).unwrap(), d) == x,
{
    lemma_exact_div_mul(x.offset, d);
    lemma_exact_div_mul(x.rlocmode, d);
}

/// An exactly dividing quotient scales back to the dividend.
proof fn lemma_exact_div_mul(a: i32, d: i32)
    requires
        d != 0,
        a % d == 0,
        !(a == i32::MIN && d == -1),
    ensures
        wmul(spec_floor_div_i32(a, d), d) == a,
{
    lemma_fundamental_div_mod(a as int, d as int);
    let q = a as int / d as int;
    assert(a as int == d as int * q);
    assert(i32::MIN <= q <= i32::MAX) by (nonlinear_arith)
        requires
            a as int == d as int * q,
            d != 0,
            !(a == i32::MIN && d == -1),
            i32::MIN <= a <= i32::MAX,
    ;
    assert(q * d as int == a as int) by (nonlinear_arith)
        requires
            a as int == d as int * q,
    ;
    assert(wmul(q as i32, d) == a) by {
        assert(vstd::wrapping::i32_specs::signed_crop(q * d as int) == a);
    }
}

} // verus!
