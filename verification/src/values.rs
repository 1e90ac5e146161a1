//! The typed value algebra of the wire format.
//!
//! A `DataFieldValue` carries one decoded payload, tagged with its base type.
//! Every scalar base type reserves exactly one bit pattern that means "field
//! not present" (the invalid sentinel); validity, numeric coercion, byte
//! encoding and the composition law below are all defined over that catalog.
//!
//! Floating-point payloads are carried as their IEEE-754 bit patterns, so
//! that validity (finiteness), byte encoding and the truncated integer
//! coercion are plain functions of the stored bits; floating-point
//! arithmetic itself is left to the surrounding tooling. Timestamps are
//! carried as an epoch-seconds count.
use vstd::prelude::*;

verus! {

/// Contains arbitrary data in the defined format.
#[derive(Debug, PartialEq)]
pub enum DataFieldValue {
    /// Seconds since the epoch.
    Timestamp(i64),
    Byte(u8),
    Enum(u8),
    SInt8(i8),
    UInt8(u8),
    SInt16(i16),
    UInt16(u16),
    SInt32(i32),
    UInt32(u32),
    String(String),
    /// IEEE-754 single-precision bit pattern.
    Float32(u32),
    /// IEEE-754 double-precision bit pattern.
    Float64(u64),
    UInt8z(u8),
    UInt16z(u16),
    UInt32z(u32),
    SInt64(i64),
    UInt64(u64),
    UInt64z(u64),
    /// A homogeneous sequence of values of one scalar base type.
    Array(Vec<DataFieldValue>),
}

/// A single-precision bit pattern is finite exactly when its exponent
/// field is not all ones.
pub open spec fn f32_bits_finite(bits: u32) -> bool {
    (bits >> 23) & 0xff != 0xff
}

/// A double-precision bit pattern is finite exactly when its exponent
/// field is not all ones.
pub open spec fn f64_bits_finite(bits: u64) -> bool {
    (bits >> 52) & 0x7ff != 0x7ff
}

/// Validity of a value: the stored payload differs from its base type's
/// reserved invalid sentinel. Floats are valid exactly when finite, strings
/// exactly when they embed no null character, timestamps always, and arrays
/// exactly when non-empty with every element valid.
pub open spec fn spec_is_valid(v: DataFieldValue) -> bool
    decreases v,
{
    match v {
        DataFieldValue::Timestamp(_) => true,
        DataFieldValue::Byte(x) => x != 0xff,
        DataFieldValue::Enum(x) => x != 0xff,
        DataFieldValue::SInt8(x) => x != 0x7f,
        DataFieldValue::UInt8(x) => x != 0xff,
        DataFieldValue::SInt16(x) => x != 0x7fff,
        DataFieldValue::UInt16(x) => x != 0xffff,
        DataFieldValue::SInt32(x) => x != 0x7fffffff,
        DataFieldValue::UInt32(x) => x != 0xffffffff,
        DataFieldValue::String(s) => forall|i: int| 0 <= i < s@.len() ==> s@[i] != '\0',
        DataFieldValue::Float32(bits) => f32_bits_finite(bits),
        DataFieldValue::Float64(bits) => f64_bits_finite(bits),
        DataFieldValue::UInt8z(x) => x != 0,
        DataFieldValue::UInt16z(x) => x != 0,
        DataFieldValue::UInt32z(x) => x != 0,
        DataFieldValue::SInt64(x) => x != 0x7fffffffffffffff,
        DataFieldValue::UInt64(x) => x != 0xffffffffffffffff,
        DataFieldValue::UInt64z(x) => x != 0,
        DataFieldValue::Array(vals) => vals@.len() > 0 && (forall|i: int|
            0 <= i < vals@.len() ==> spec_is_valid(vals@[i])),
    }
}

impl DataFieldValue {
    /// True unless the stored payload equals its base type's reserved
    /// invalid sentinel.
    pub fn is_valid(&self) -> (r: bool)
        ensures
            r == spec_is_valid(*self),
        decreases *self,
    {
        match self {
            DataFieldValue::Timestamp(_) => true,
            DataFieldValue::Byte(x) => *x != 0xff,
            DataFieldValue::Enum(x) => *x != 0xff,
            DataFieldValue::SInt8(x) => *x != 0x7f,
            DataFieldValue::UInt8(x) => *x != 0xff,
            DataFieldValue::SInt16(x) => *x != 0x7fff,
            DataFieldValue::UInt16(x) => *x != 0xffff,
            DataFieldValue::SInt32(x) => *x != 0x7fffffff,
            DataFieldValue::UInt32(x) => *x != 0xffffffff,
            DataFieldValue::String(s) => str_has_no_nul(s.as_str()),
            DataFieldValue::Float32(bits) => (*bits >> 23) & 0xff != 0xff,
            DataFieldValue::Float64(bits) => (*bits >> 52) & 0x7ff != 0x7ff,
            DataFieldValue::UInt8z(x) => *x != 0,
            DataFieldValue::UInt16z(x) => *x != 0,
            DataFieldValue::UInt32z(x) => *x != 0,
            DataFieldValue::SInt64(x) => *x != 0x7fffffffffffffff,
            DataFieldValue::UInt64(x) => *x != 0xffffffffffffffff,
            DataFieldValue::UInt64z(x) => *x != 0,
            DataFieldValue::Array(vals) => {
                let n = vals.len();
                if n == 0 {
                    return false;
                }
                let mut i: usize = 0;
                let mut all_valid = true;
                while i < n
                    invariant
                        *self == DataFieldValue::Array(*vals),
                        n == vals@.len(),
                        i <= n,
                        all_valid == (forall|j: int| 0 <= j < i ==> spec_is_valid(vals@[j])),
                    decreases n - i,
                {
                    proof {
                        assert(decreases_to!(*self => self->Array_0));
                        assert(decreases_to!(*vals => vals@));
                        assert(decreases_to!(vals@ => vals@[i as int]));
                    }
                    if !vals[i].is_valid() {
                        all_valid = false;
                    }
                    i = i + 1;
                }
                all_valid
            },
        }
    }
}

/// True exactly when the string contains no null character.
fn str_has_no_nul(s: &str) -> (r: bool)
    ensures
        r == (forall|i: int| 0 <= i < s@.len() ==> s@[i] != '\0'),
{
    let n = s.unicode_len();
    let mut i: usize = 0;
    while i < n
        invariant
            n == s@.len(),
            i <= n,
            forall|j: int| 0 <= j < i ==> s@[j] != '\0',
        decreases n - i,
    {
        if s.get_char(i) == '\0' {
            return false;
        }
        i = i + 1;
    }
    true
}

} // verus!

verus! {

// Reduction of a mathematical integer to the value range of each fixed-width
// wire type, stated with the Euclidean remainder so that every contract over
// the composition law is a plain modular-arithmetic statement.

pub open spec fn wrap_u8(x: int) -> u8 {
    (x % 0x100) as u8
}

pub open spec fn wrap_u16(x: int) -> u16 {
    (x % 0x10000) as u16
}

pub open spec fn wrap_u32(x: int) -> u32 {
    (x % 0x100000000) as u32
}

pub open spec fn wrap_u64(x: int) -> u64 {
    (x % 0x10000000000000000) as u64
}

pub open spec fn wrap_i8(x: int) -> i8 {
    if x % 0x100 >= 0x80 {
        (x % 0x100 - 0x100) as i8
    } else {
        (x % 0x100) as i8
    }
}

pub open spec fn wrap_i16(x: int) -> i16 {
    if x % 0x10000 >= 0x8000 {
        (x % 0x10000 - 0x10000) as i16
    } else {
        (x % 0x10000) as i16
    }
}

pub open spec fn wrap_i32(x: int) -> i32 {
    if x % 0x100000000 >= 0x80000000 {
        (x % 0x100000000 - 0x100000000) as i32
    } else {
        (x % 0x100000000) as i32
    }
}

pub open spec fn wrap_i64(x: int) -> i64 {
    if x % 0x10000000000000000 >= 0x8000000000000000 {
        (x % 0x10000000000000000 - 0x10000000000000000) as i64
    } else {
        (x % 0x10000000000000000) as i64
    }
}

/// The 64-bit two's-complement reading of an unsigned payload.
pub open spec fn u64_as_i64(x: u64) -> i64 {
    if x >= 0x8000000000000000 {
        (x - 0x10000000000000000) as i64
    } else {
        x as i64
    }
}

/// Euclidean remainder of a signed value by a positive modulus.
fn i64_mod(o: i64, m: u64) -> (r: u64)
    requires
        1 <= m,
    ensures
        r == (o as int) % (m as int),
        r < m,
{
    if o >= 0 {
        let r = (o as u64) % m;
        proof {
            vstd::arithmetic::div_mod::lemma_mod_division_less_than_divisor(o as int, m as int);
        }
        r
    } else {
        let k = ((-(o + 1)) as u64) % m;
        proof {
            let ki = (-(o + 1)) as int;
            let mi = m as int;
            vstd::arithmetic::div_mod::lemma_mod_division_less_than_divisor(ki, mi);
            vstd::arithmetic::div_mod::lemma_fundamental_div_mod(ki, mi);
            assert(o as int == (-(ki / mi) - 1) * mi + (mi - 1 - k)) by (nonlinear_arith)
                requires
                    ki == mi * (ki / mi) + k,
                    o == -ki - 1,
            ;
            vstd::arithmetic::div_mod::lemma_fundamental_div_mod_converse_mod(
                o as int,
                mi,
                -(ki / mi) - 1,
                mi - 1 - k,
            );
        }
        m - 1 - k
    }
}

/// The low 64 bits of a signed value, as the Euclidean remainder by 2^64.
fn i64_low(o: i64) -> (r: u64)
    ensures
        r == wrap_u64(o as int),
{
    if o >= 0 {
        proof {
            vstd::arithmetic::div_mod::lemma_small_mod(o as nat, 0x10000000000000000);
        }
        o as u64
    } else {
        let adj = (o + 0x4000000000000000) + 0x4000000000000000;
        proof {
            vstd::arithmetic::div_mod::lemma_fundamental_div_mod_converse_mod(
                o as int,
                0x10000000000000000,
                -1,
                o + 0x10000000000000000,
            );
        }
        (adj as u64) + 0x8000000000000000
    }
}

pub fn add_wrap_u8(x: u8, o: i64) -> (r: u8)
    ensures
        r == wrap_u8(x + o),
{
    let om = i64_mod(o, 0x100);
    let s = ((x as u64) + om) % 0x100;
    proof {
        vstd::arithmetic::div_mod::lemma_add_mod_noop_right(x as int, o as int, 0x100);
        vstd::arithmetic::div_mod::lemma_mod_division_less_than_divisor((x + om) as int, 0x100);
    }
    s as u8
}

fn add_wrap_u16(x: u16, o: i64) -> (r: u16)
    ensures
        r == wrap_u16(x + o),
{
    let om = i64_mod(o, 0x10000);
    let s = ((x as u64) + om) % 0x10000;
    proof {
        vstd::arithmetic::div_mod::lemma_add_mod_noop_right(x as int, o as int, 0x10000);
        vstd::arithmetic::div_mod::lemma_mod_division_less_than_divisor((x + om) as int, 0x10000);
    }
    s as u16
}

fn add_wrap_u32(x: u32, o: i64) -> (r: u32)
    ensures
        r == wrap_u32(x + o),
{
    let om = i64_mod(o, 0x100000000);
    let s = ((x as u64) + om) % 0x100000000;
    proof {
        vstd::arithmetic::div_mod::lemma_add_mod_noop_right(x as int, o as int, 0x100000000);
        vstd::arithmetic::div_mod::lemma_mod_division_less_than_divisor(
            (x + om) as int,
            0x100000000,
        );
    }
    s as u32
}

fn add_wrap_u64(x: u64, o: i64) -> (r: u64)
    ensures
        r == wrap_u64(x + o),
{
    let om = i64_low(o);
    let r = x.wrapping_add(om);
    proof {
        let m: int = 0x10000000000000000;
        vstd::arithmetic::div_mod::lemma_add_mod_noop_right(x as int, o as int, m);
        if x + om >= m {
            vstd::arithmetic::div_mod::lemma_fundamental_div_mod_converse_mod(
                x + om,
                m,
                1,
                x + om - m,
            );
        } else {
            vstd::arithmetic::div_mod::lemma_small_mod((x + om) as nat, m as nat);
        }
    }
    r
}

/// The low 8 bits of a signed byte, as a Euclidean remainder.
fn i8_low(x: i8) -> (r: u8)
    ensures
        r == wrap_u8(x as int),
{
    if x >= 0 {
        proof {
            vstd::arithmetic::div_mod::lemma_small_mod(x as nat, 0x100);
        }
        x as u8
    } else {
        let v = (x as i16) + 0x100;
        proof {
            vstd::arithmetic::div_mod::lemma_fundamental_div_mod_converse_mod(
                x as int,
                0x100,
                -1,
                x + 0x100,
            );
        }
        v as u8
    }
}

fn i16_low(x: i16) -> (r: u16)
    ensures
        r == wrap_u16(x as int),
{
    if x >= 0 {
        proof {
            vstd::arithmetic::div_mod::lemma_small_mod(x as nat, 0x10000);
        }
        x as u16
    } else {
        let v = (x as i32) + 0x10000;
        proof {
            vstd::arithmetic::div_mod::lemma_fundamental_div_mod_converse_mod(
                x as int,
                0x10000,
                -1,
                x + 0x10000,
            );
        }
        v as u16
    }
}

fn i32_low(x: i32) -> (r: u32)
    ensures
        r == wrap_u32(x as int),
{
    if x >= 0 {
        proof {
            vstd::arithmetic::div_mod::lemma_small_mod(x as nat, 0x100000000);
        }
        x as u32
    } else {
        let v = (x as i64) + 0x100000000;
        proof {
            vstd::arithmetic::div_mod::lemma_fundamental_div_mod_converse_mod(
                x as int,
                0x100000000,
                -1,
                x + 0x100000000,
            );
        }
        v as u32
    }
}

fn add_wrap_i8(x: i8, o: i64) -> (r: i8)
    ensures
        r == wrap_i8(x + o),
{
    let xl = i8_low(x);
    let om = i64_mod(o, 0x100);
    let s = ((xl as u64) + om) % 0x100;
    proof {
        vstd::arithmetic::div_mod::lemma_add_mod_noop(x as int, o as int, 0x100);
        vstd::arithmetic::div_mod::lemma_mod_division_less_than_divisor((xl + om) as int, 0x100);
    }
    let t = s as u8;
    if t >= 0x80 {
        -((0xff - t) as i8) - 1
    } else {
        t as i8
    }
}

fn add_wrap_i16(x: i16, o: i64) -> (r: i16)
    ensures
        r == wrap_i16(x + o),
{
    let xl = i16_low(x);
    let om = i64_mod(o, 0x10000);
    let s = ((xl as u64) + om) % 0x10000;
    proof {
        vstd::arithmetic::div_mod::lemma_add_mod_noop(x as int, o as int, 0x10000);
        vstd::arithmetic::div_mod::lemma_mod_division_less_than_divisor((xl + om) as int, 0x10000);
    }
    let t = s as u16;
    if t >= 0x8000 {
        -((0xffff - t) as i16) - 1
    } else {
        t as i16
    }
}

fn add_wrap_i32(x: i32, o: i64) -> (r: i32)
    ensures
        r == wrap_i32(x + o),
{
    let xl = i32_low(x);
    let om = i64_mod(o, 0x100000000);
    let s = ((xl as u64) + om) % 0x100000000;
    proof {
        vstd::arithmetic::div_mod::lemma_add_mod_noop(x as int, o as int, 0x100000000);
        vstd::arithmetic::div_mod::lemma_mod_division_less_than_divisor(
            (xl + om) as int,
            0x100000000,
        );
    }
    let t = s as u32;
    if t >= 0x80000000 {
        -((0xffffffff - t) as i32) - 1
    } else {
        t as i32
    }
}

fn add_wrap_i64(x: i64, o: i64) -> (r: i64)
    ensures
        r == wrap_i64(x + o),
{
    let xl = i64_low(x);
    let t = add_wrap_u64(xl, o);
    proof {
        vstd::arithmetic::div_mod::lemma_add_mod_noop(x as int, o as int, 0x10000000000000000);
    }
    if t >= 0x8000000000000000 {
        -((0xffffffffffffffff - t) as i64) - 1
    } else {
        t as i64
    }
}

/// Truncation toward zero of the value a double-precision bit pattern
/// denotes, saturating at the signed 64-bit bounds, with the not-a-number
/// patterns reading as zero: a plain integer function of the bits (sign,
/// biased exponent, significand).
pub open spec fn f64_bits_to_i64(bits: u64) -> i64 {
    let sign = bits >> 63;
    let e = (bits >> 52) & 0x7ff;
    let m = bits & 0xfffffffffffff;
    if e == 0x7ff {
        if m != 0 {
            0
        } else if sign == 0 {
            i64::MAX
        } else {
            i64::MIN
        }
    } else if e < 1023 {
        0
    } else if e >= 1086 {
        if sign == 0 {
            i64::MAX
        } else {
            i64::MIN
        }
    } else {
        let p = e - 1023;
        let sig = 0x10000000000000 + m;
        let mag = if p >= 52 {
            sig * vstd::arithmetic::power2::pow2((p - 52) as nat)
        } else {
            sig / vstd::arithmetic::power2::pow2((52 - p) as nat) as int
        };
        if sign == 0 {
            (mag) as i64
        } else {
            (-mag) as i64
        }
    }
}

/// Truncation toward zero of the value a single-precision bit pattern
/// denotes, saturating at the signed 64-bit bounds, with the not-a-number
/// patterns reading as zero.
pub open spec fn f32_bits_to_i64(bits: u32) -> i64 {
    let sign = bits >> 31;
    let e = (bits >> 23) & 0xff;
    let m = bits & 0x7fffff;
    if e == 0xff {
        if m != 0 {
            0
        } else if sign == 0 {
            i64::MAX
        } else {
            i64::MIN
        }
    } else if e < 127 {
        0
    } else if e >= 190 {
        if sign == 0 {
            i64::MAX
        } else {
            i64::MIN
        }
    } else {
        let p = e - 127;
        let sig = 0x800000 + m;
        let mag = if p >= 23 {
            sig * vstd::arithmetic::power2::pow2((p - 23) as nat)
        } else {
            sig / vstd::arithmetic::power2::pow2((23 - p) as nat) as int
        };
        if sign == 0 {
            (mag) as i64
        } else {
            (-mag) as i64
        }
    }
}

/// Computes the truncated reading of a double-precision bit pattern.
fn f64_bits_trunc_i64(bits: u64) -> (r: i64)
    ensures
        r == f64_bits_to_i64(bits),
{
    let sign = bits >> 63;
    let e = (bits >> 52) & 0x7ff;
    let m = bits & 0xfffffffffffff;
    proof {
        assert((bits >> 52) & 0x7ff <= 0x7ff) by (bit_vector);
        assert(bits & 0xfffffffffffff <= 0xfffffffffffff) by (bit_vector);
    }
    if e == 0x7ff {
        if m != 0 {
            0
        } else if sign == 0 {
            i64::MAX
        } else {
            i64::MIN
        }
    } else if e < 1023 {
        0
    } else if e >= 1086 {
        if sign == 0 {
            i64::MAX
        } else {
            i64::MIN
        }
    } else {
        let p = e - 1023;
        let sig: u64 = 0x10000000000000 + m;
        let mag: u64 = if p >= 52 {
            let k = p - 52;
            proof {
                vstd::arithmetic::power2::lemma2_to64();
                if k < 10 {
                    vstd::arithmetic::power2::lemma_pow2_strictly_increases(k as nat, 10);
                }
                let pw = vstd::arithmetic::power2::pow2(k as nat) as int;
                assert(sig * pw <= 0x7fffffffffffffff) by (nonlinear_arith)
                    requires
                        0 <= sig <= 0x1fffffffffffff,
                        0 <= pw <= 0x400,
                ;
                vstd::bits::lemma_u64_shl_is_mul(sig, k);
            }
            sig << k
        } else {
            let k = 52 - p;
            proof {
                vstd::arithmetic::power2::lemma_pow2_pos(k as nat);
                vstd::arithmetic::div_mod::lemma_div_nonincreasing(
                    sig as int,
                    vstd::arithmetic::power2::pow2(k as nat) as int,
                );
                vstd::bits::lemma_u64_shr_is_div(sig, k);
            }
            sig >> k
        };
        if sign == 0 {
            mag as i64
        } else {
            -(mag as i64)
        }
    }
}

/// Computes the truncated reading of a single-precision bit pattern.
fn f32_bits_trunc_i64(bits: u32) -> (r: i64)
    ensures
        r == f32_bits_to_i64(bits),
{
    let sign = bits >> 31;
    let e = (bits >> 23) & 0xff;
    let m = bits & 0x7fffff;
    proof {
        assert((bits >> 23) & 0xff <= 0xff) by (bit_vector);
        assert(bits & 0x7fffff <= 0x7fffff) by (bit_vector);
    }
    if e == 0xff {
        if m != 0 {
            0
        } else if sign == 0 {
            i64::MAX
        } else {
            i64::MIN
        }
    } else if e < 127 {
        0
    } else if e >= 190 {
        if sign == 0 {
            i64::MAX
        } else {
            i64::MIN
        }
    } else {
        let p = e - 127;
        let sig: u64 = (0x800000 + m) as u64;
        let mag: u64 = if p >= 23 {
            let k: u64 = (p - 23) as u64;
            proof {
                vstd::arithmetic::power2::lemma2_to64();
                vstd::arithmetic::power2::lemma2_to64_rest();
                if k < 39 {
                    vstd::arithmetic::power2::lemma_pow2_strictly_increases(k as nat, 39);
                }
                let pw = vstd::arithmetic::power2::pow2(k as nat) as int;
                assert(sig * pw <= 0x7fffffffffffffff) by (nonlinear_arith)
                    requires
                        0 <= sig <= 0xffffff,
                        0 <= pw <= 0x8000000000,
                ;
                vstd::bits::lemma_u64_shl_is_mul(sig, k);
            }
            sig << k
        } else {
            let k: u64 = (23 - p) as u64;
            proof {
                vstd::arithmetic::power2::lemma_pow2_pos(k as nat);
                vstd::arithmetic::div_mod::lemma_div_nonincreasing(
                    sig as int,
                    vstd::arithmetic::power2::pow2(k as nat) as int,
                );
                vstd::bits::lemma_u64_shr_is_div(sig, k);
            }
            sig >> k
        };
        if sign == 0 {
            mag as i64
        } else {
            -(mag as i64)
        }
    }
}

/// The two's-complement reading of a full-width unsigned payload.
fn u64_to_i64_trunc(x: u64) -> (r: i64)
    ensures
        r == u64_as_i64(x),
{
    if x >= 0x8000000000000000 {
        -((0xffffffffffffffff - x) as i64) - 1
    } else {
        x as i64
    }
}

/// The integer coercion of a value, defined for every numeric-like variant:
/// the timestamp reads as its epoch-seconds count, full-width unsigned
/// payloads read as two's complement, and floating-point bit patterns
/// truncate toward zero with saturation; only strings and arrays have no
/// integer reading.
pub open spec fn spec_as_i64(v: DataFieldValue) -> Option<i64> {
    match v {
        DataFieldValue::Timestamp(t) => Some(t),
        DataFieldValue::Byte(x) => Some(x as i64),
        DataFieldValue::Enum(x) => Some(x as i64),
        DataFieldValue::SInt8(x) => Some(x as i64),
        DataFieldValue::UInt8(x) => Some(x as i64),
        DataFieldValue::SInt16(x) => Some(x as i64),
        DataFieldValue::UInt16(x) => Some(x as i64),
        DataFieldValue::SInt32(x) => Some(x as i64),
        DataFieldValue::UInt32(x) => Some(x as i64),
        DataFieldValue::String(_) => None,
        DataFieldValue::Float32(bits) => Some(f32_bits_to_i64(bits)),
        DataFieldValue::Float64(bits) => Some(f64_bits_to_i64(bits)),
        DataFieldValue::UInt8z(x) => Some(x as i64),
        DataFieldValue::UInt16z(x) => Some(x as i64),
        DataFieldValue::UInt32z(x) => Some(x as i64),
        DataFieldValue::SInt64(x) => Some(x),
        DataFieldValue::UInt64(x) => Some(u64_as_i64(x)),
        DataFieldValue::UInt64z(x) => Some(u64_as_i64(x)),
        DataFieldValue::Array(_) => None,
    }
}

impl DataFieldValue {
    /// The integer coercion of the stored payload, where one is defined:
    /// every numeric-like variant has one, floating-point bit patterns
    /// through truncation toward zero; strings and arrays have none.
    pub fn as_i64(&self) -> (r: Option<i64>)
        ensures
            r == spec_as_i64(*self),
    {
        match self {
            DataFieldValue::Timestamp(t) => Some(*t),
            DataFieldValue::Byte(x) => Some(*x as i64),
            DataFieldValue::Enum(x) => Some(*x as i64),
            DataFieldValue::SInt8(x) => Some(*x as i64),
            DataFieldValue::UInt8(x) => Some(*x as i64),
            DataFieldValue::SInt16(x) => Some(*x as i64),
            DataFieldValue::UInt16(x) => Some(*x as i64),
            DataFieldValue::SInt32(x) => Some(*x as i64),
            DataFieldValue::UInt32(x) => Some(*x as i64),
            DataFieldValue::String(_) => None,
            DataFieldValue::Float32(bits) => Some(f32_bits_trunc_i64(*bits)),
            DataFieldValue::Float64(bits) => Some(f64_bits_trunc_i64(*bits)),
            DataFieldValue::UInt8z(x) => Some(*x as i64),
            DataFieldValue::UInt16z(x) => Some(*x as i64),
            DataFieldValue::UInt32z(x) => Some(*x as i64),
            DataFieldValue::SInt64(x) => Some(*x),
            DataFieldValue::UInt64(x) => Some(u64_to_i64_trunc(*x)),
            DataFieldValue::UInt64z(x) => Some(u64_to_i64_trunc(*x)),
            DataFieldValue::Array(_) => None,
        }
    }
}

} // verus!

verus! {

// Little-endian byte encoding: the wire format declares a fixed byte order,
// so the encoding is stated digit by digit in base 256, least significant
// first.

pub open spec fn u16_le(x: u16) -> Seq<u8> {
    seq![(x % 0x100) as u8, (x / 0x100) as u8]
}

pub open spec fn u32_le(x: u32) -> Seq<u8> {
    seq![
        (x % 0x100) as u8,
        ((x / 0x100) % 0x100) as u8,
        ((x / 0x10000) % 0x100) as u8,
        (x / 0x1000000) as u8,
    ]
}

pub open spec fn u64_le(x: u64) -> Seq<u8> {
    seq![
        (x % 0x100) as u8,
        ((x / 0x100) % 0x100) as u8,
        ((x / 0x10000) % 0x100) as u8,
        ((x / 0x1000000) % 0x100) as u8,
        ((x / 0x100000000) % 0x100) as u8,
        ((x / 0x10000000000) % 0x100) as u8,
        ((x / 0x1000000000000) % 0x100) as u8,
        (x / 0x100000000000000) as u8,
    ]
}

fn bytes_u16(x: u16) -> (r: Vec<u8>)
    ensures
        r@ == u16_le(x),
{
    let mut out: Vec<u8> = Vec::new();
    out.push((x % 0x100) as u8);
    proof {
        assert(x / 0x100 < 0x100) by (nonlinear_arith)
            requires
                x <= 0xffff,
        ;
    }
    out.push((x / 0x100) as u8);
    proof {
        assert(out@ =~= u16_le(x));
    }
    out
}

fn bytes_u32(x: u32) -> (r: Vec<u8>)
    ensures
        r@ == u32_le(x),
{
    let mut out: Vec<u8> = Vec::new();
    out.push((x % 0x100) as u8);
    out.push(((x / 0x100) % 0x100) as u8);
    out.push(((x / 0x10000) % 0x100) as u8);
    proof {
        assert(x / 0x1000000 < 0x100) by (nonlinear_arith)
            requires
                x <= 0xffffffffu32,
        ;
    }
    out.push((x / 0x1000000) as u8);
    proof {
        assert(out@ =~= u32_le(x));
    }
    out
}

fn bytes_u64(x: u64) -> (r: Vec<u8>)
    ensures
        r@ == u64_le(x),
{
    let mut out: Vec<u8> = Vec::new();
    out.push((x % 0x100) as u8);
    out.push(((x / 0x100) % 0x100) as u8);
    out.push(((x / 0x10000) % 0x100) as u8);
    out.push(((x / 0x1000000) % 0x100) as u8);
    out.push(((x / 0x100000000) % 0x100) as u8);
    out.push(((x / 0x10000000000) % 0x100) as u8);
    out.push(((x / 0x1000000000000) % 0x100) as u8);
    proof {
        assert(x / 0x100000000000000 < 0x100) by (nonlinear_arith)
            requires
                x <= 0xffffffffffffffffu64,
        ;
    }
    out.push((x / 0x100000000000000) as u8);
    proof {
        assert(out@ =~= u64_le(x));
    }
    out
}

/// The serialized form of one value: single bytes for one-byte types, base-256
/// little-endian digits of the (two's-complement) payload for wider integers,
/// the bit pattern's digits for floats, the UTF-8 bytes for strings, eight
/// bytes of epoch seconds for timestamps, and the concatenation of the
/// elements' encodings for arrays.
pub open spec fn spec_to_bytes(v: DataFieldValue) -> Seq<u8>
    decreases v, 0int,
{
    match v {
        DataFieldValue::Timestamp(t) => u64_le(wrap_u64(t as int)),
        DataFieldValue::Byte(x) => seq![x],
        DataFieldValue::Enum(x) => seq![x],
        DataFieldValue::SInt8(x) => seq![wrap_u8(x as int)],
        DataFieldValue::UInt8(x) => seq![x],
        DataFieldValue::SInt16(x) => u16_le(wrap_u16(x as int)),
        DataFieldValue::UInt16(x) => u16_le(x),
        DataFieldValue::SInt32(x) => u32_le(wrap_u32(x as int)),
        DataFieldValue::UInt32(x) => u32_le(x),
        DataFieldValue::String(s) => vstd::utf8::encode_utf8(s@),
        DataFieldValue::Float32(bits) => u32_le(bits),
        DataFieldValue::Float64(bits) => u64_le(bits),
        DataFieldValue::UInt8z(x) => seq![x],
        DataFieldValue::UInt16z(x) => u16_le(x),
        DataFieldValue::UInt32z(x) => u32_le(x),
        DataFieldValue::SInt64(x) => u64_le(wrap_u64(x as int)),
        DataFieldValue::UInt64(x) => u64_le(x),
        DataFieldValue::UInt64z(x) => u64_le(x),
        DataFieldValue::Array(vals) => spec_concat_bytes_from(vals@, 0),
    }
}

/// The concatenated encodings of the elements of `vals` from index `i` on.
pub open spec fn spec_concat_bytes_from(vals: Seq<DataFieldValue>, i: int) -> Seq<u8>
    decreases vals, vals.len() - i,
{
    if 0 <= i < vals.len() {
        spec_to_bytes(vals[i]) + spec_concat_bytes_from(vals, i + 1)
    } else {
        Seq::empty()
    }
}

impl DataFieldValue {
    /// Serializes the payload in the wire format's declared little-endian
    /// byte order; strings serialize as their raw bytes, arrays as the
    /// concatenation of each element's bytes.
    pub fn to_bytes(&self) -> (r: Vec<u8>)
        ensures
            r@ == spec_to_bytes(*self),
        decreases *self,
    {
        match self {
            DataFieldValue::Timestamp(t) => bytes_u64(i64_low(*t)),
            DataFieldValue::Byte(x) => {
                let mut out: Vec<u8> = Vec::new();
                out.push(*x);
                proof {
                    assert(out@ =~= spec_to_bytes(*self));
                }
                out
            },
            DataFieldValue::Enum(x) => {
                let mut out: Vec<u8> = Vec::new();
                out.push(*x);
                proof {
                    assert(out@ =~= spec_to_bytes(*self));
                }
                out
            },
            DataFieldValue::SInt8(x) => {
                let mut out: Vec<u8> = Vec::new();
                out.push(i8_low(*x));
                proof {
                    assert(out@ =~= spec_to_bytes(*self));
                }
                out
            },
            DataFieldValue::UInt8(x) => {
                let mut out: Vec<u8> = Vec::new();
                out.push(*x);
                proof {
                    assert(out@ =~= spec_to_bytes(*self));
                }
                out
            },
            DataFieldValue::SInt16(x) => bytes_u16(i16_low(*x)),
            DataFieldValue::UInt16(x) => bytes_u16(*x),
            DataFieldValue::SInt32(x) => bytes_u32(i32_low(*x)),
            DataFieldValue::UInt32(x) => bytes_u32(*x),
            DataFieldValue::String(s) => s.as_str().as_bytes_vec(),
            DataFieldValue::Float32(bits) => bytes_u32(*bits),
            DataFieldValue::Float64(bits) => bytes_u64(*bits),
            DataFieldValue::UInt8z(x) => {
                let mut out: Vec<u8> = Vec::new();
                out.push(*x);
                proof {
                    assert(out@ =~= spec_to_bytes(*self));
                }
                out
            },
            DataFieldValue::UInt16z(x) => bytes_u16(*x),
            DataFieldValue::UInt32z(x) => bytes_u32(*x),
            DataFieldValue::SInt64(x) => bytes_u64(i64_low(*x)),
            DataFieldValue::UInt64(x) => bytes_u64(*x),
            DataFieldValue::UInt64z(x) => bytes_u64(*x),
            DataFieldValue::Array(vals) => {
                let n = vals.len();
                let mut out: Vec<u8> = Vec::new();
                let mut i: usize = 0;
                while i < n
                    invariant
                        *self == DataFieldValue::Array(*vals),
                        n == vals@.len(),
                        i <= n,
                        out@ + spec_concat_bytes_from(vals@, i as int) == spec_concat_bytes_from(
                            vals@,
                            0,
                        ),
                    decreases n - i,
                {
                    proof {
                        assert(decreases_to!(*self => self->Array_0));
                        assert(decreases_to!(*vals => vals@));
                        assert(decreases_to!(vals@ => vals@[i as int]));
                    }
                    let mut chunk = vals[i].to_bytes();
                    out.append(&mut chunk);
                    i = i + 1;
                }
                proof {
                    assert(out@ =~= out@ + spec_concat_bytes_from(vals@, n as int));
                }
                out
            },
        }
    }
}

} // verus!

verus! {

/// Failure of the composition law: the operands cannot be coerced to a
/// compatible kind.
#[derive(Clone, Copy, Debug, PartialEq, Eq, Structural)]
pub struct TypeMismatch;

/// Whether composing a non-array value `a` with `b` is defined: numeric
/// scalars require `b` to carry an integer coercion, strings require a
/// string. Timestamps compose with nothing; a floating-point left operand
/// would need floating-point addition, which lives in the surrounding
/// tooling, so it composes with nothing here; nor does an array in this
/// scalar position.
pub open spec fn spec_combine_defined_scalar(a: DataFieldValue, b: DataFieldValue) -> bool {
    match a {
        DataFieldValue::Timestamp(_) => false,
        DataFieldValue::String(_) => b is String,
        DataFieldValue::Float32(_) => false,
        DataFieldValue::Float64(_) => false,
        DataFieldValue::Array(_) => false,
        _ => spec_as_i64(b) is Some,
    }
}

/// The result of composing a non-array value `a` with `b`: `b` is coerced to
/// `a`'s numeric kind and added with wrapping at `a`'s native width, keeping
/// `a`'s variant; strings concatenate.
pub open spec fn spec_combine_scalar(
    a: DataFieldValue,
    b: DataFieldValue,
    r: DataFieldValue,
) -> bool {
    match a {
        DataFieldValue::Timestamp(_) => false,
        DataFieldValue::Byte(x) => match spec_as_i64(b) {
            Some(o) => r == DataFieldValue::Byte(wrap_u8(x + o)),
            None => false,
        },
        DataFieldValue::Enum(x) => match spec_as_i64(b) {
            Some(o) => r == DataFieldValue::Enum(wrap_u8(x + o)),
            None => false,
        },
        DataFieldValue::SInt8(x) => match spec_as_i64(b) {
            Some(o) => r == DataFieldValue::SInt8(wrap_i8(x + o)),
            None => false,
        },
        DataFieldValue::UInt8(x) => match spec_as_i64(b) {
            Some(o) => r == DataFieldValue::UInt8(wrap_u8(x + o)),
            None => false,
        },
        DataFieldValue::SInt16(x) => match spec_as_i64(b) {
            Some(o) => r == DataFieldValue::SInt16(wrap_i16(x + o)),
            None => false,
        },
        DataFieldValue::UInt16(x) => match spec_as_i64(b) {
            Some(o) => r == DataFieldValue::UInt16(wrap_u16(x + o)),
            None => false,
        },
        DataFieldValue::SInt32(x) => match spec_as_i64(b) {
            Some(o) => r == DataFieldValue::SInt32(wrap_i32(x + o)),
            None => false,
        },
        DataFieldValue::UInt32(x) => match spec_as_i64(b) {
            Some(o) => r == DataFieldValue::UInt32(wrap_u32(x + o)),
            None => false,
        },
        DataFieldValue::String(s) => match b {
            DataFieldValue::String(t) => r matches DataFieldValue::String(u) && u@ == s@ + t@,
            _ => false,
        },
        DataFieldValue::Float32(_) => false,
        DataFieldValue::Float64(_) => false,
        DataFieldValue::UInt8z(x) => match spec_as_i64(b) {
            Some(o) => r == DataFieldValue::UInt8z(wrap_u8(x + o)),
            None => false,
        },
        DataFieldValue::UInt16z(x) => match spec_as_i64(b) {
            Some(o) => r == DataFieldValue::UInt16z(wrap_u16(x + o)),
            None => false,
        },
        DataFieldValue::UInt32z(x) => match spec_as_i64(b) {
            Some(o) => r == DataFieldValue::UInt32z(wrap_u32(x + o)),
            None => false,
        },
        DataFieldValue::SInt64(x) => match spec_as_i64(b) {
            Some(o) => r == DataFieldValue::SInt64(wrap_i64(x + o)),
            None => false,
        },
        DataFieldValue::UInt64(x) => match spec_as_i64(b) {
            Some(o) => r == DataFieldValue::UInt64(wrap_u64(x + o)),
            None => false,
        },
        DataFieldValue::UInt64z(x) => match spec_as_i64(b) {
            Some(o) => r == DataFieldValue::UInt64z(wrap_u64(x + o)),
            None => false,
        },
        DataFieldValue::Array(_) => false,
    }
}

/// Element-wise composition of two arrays: the shorter operand's elements
/// are combined pairwise with the longer operand's prefix (the longer
/// operand's elements standing on the left), the longer operand's trailing
/// elements are carried through unchanged, and on equal lengths the second
/// operand's elements stand on the left.
pub open spec fn spec_combine_arrays(
    xs: Seq<DataFieldValue>,
    ys: Seq<DataFieldValue>,
    rs: Seq<DataFieldValue>,
) -> bool {
    if xs.len() > ys.len() {
        &&& rs.len() == xs.len()
        &&& (forall|i: int| 0 <= i < ys.len() ==> spec_combine_scalar(xs[i], ys[i], rs[i]))
        &&& (forall|i: int| ys.len() <= i < xs.len() ==> rs[i] == xs[i])
    } else {
        &&& rs.len() == ys.len()
        &&& (forall|i: int| 0 <= i < xs.len() ==> spec_combine_scalar(ys[i], xs[i], rs[i]))
        &&& (forall|i: int| xs.len() <= i < ys.len() ==> rs[i] == ys[i])
    }
}

/// Whether the composition `a` with `b` is defined at all.
pub open spec fn spec_combine_defined(a: DataFieldValue, b: DataFieldValue) -> bool {
    match a {
        DataFieldValue::Array(xs) => match b {
            DataFieldValue::Array(ys) => if xs@.len() > ys@.len() {
                forall|i: int|
                    0 <= i < ys@.len() ==> spec_combine_defined_scalar(xs@[i], ys@[i])
            } else {
                forall|i: int|
                    0 <= i < xs@.len() ==> spec_combine_defined_scalar(ys@[i], xs@[i])
            },
            _ => forall|i: int| 0 <= i < xs@.len() ==> spec_combine_defined_scalar(xs@[i], b),
        },
        _ => spec_combine_defined_scalar(a, b),
    }
}

/// The composition law relating operands to a successful result.
pub open spec fn spec_combine_ok(
    a: DataFieldValue,
    b: DataFieldValue,
    r: DataFieldValue,
) -> bool {
    match a {
        DataFieldValue::Array(xs) => match b {
            DataFieldValue::Array(ys) => r matches DataFieldValue::Array(rs)
                && spec_combine_arrays(xs@, ys@, rs@),
            _ => r matches DataFieldValue::Array(rs) && rs@.len() == xs@.len() && (forall|i: int|
                0 <= i < xs@.len() ==> spec_combine_scalar(xs@[i], b, rs@[i])),
        },
        _ => spec_combine_scalar(a, b, r),
    }
}

impl DataFieldValue {
    /// Composes one non-array value with `b`.
    fn combine_scalar(a: Self, b: &Self) -> (r: Result<Self, TypeMismatch>)
        ensures
            match r {
                Result::Ok(v) => spec_combine_defined_scalar(a, *b) && spec_combine_scalar(
                    a,
                    *b,
                    v,
                ),
                Result::Err(_) => !spec_combine_defined_scalar(a, *b),
            },
    {
        match a {
            DataFieldValue::Timestamp(_) => Err(TypeMismatch),
            DataFieldValue::Byte(x) => match b.as_i64() {
                Some(o) => Ok(DataFieldValue::Byte(add_wrap_u8(x, o))),
                None => Err(TypeMismatch),
            },
            DataFieldValue::Enum(x) => match b.as_i64() {
                Some(o) => Ok(DataFieldValue::Enum(add_wrap_u8(x, o))),
                None => Err(TypeMismatch),
            },
            DataFieldValue::SInt8(x) => match b.as_i64() {
                Some(o) => Ok(DataFieldValue::SInt8(add_wrap_i8(x, o))),
                None => Err(TypeMismatch),
            },
            DataFieldValue::UInt8(x) => match b.as_i64() {
                Some(o) => Ok(DataFieldValue::UInt8(add_wrap_u8(x, o))),
                None => Err(TypeMismatch),
            },
            DataFieldValue::SInt16(x) => match b.as_i64() {
                Some(o) => Ok(DataFieldValue::SInt16(add_wrap_i16(x, o))),
                None => Err(TypeMismatch),
            },
            DataFieldValue::UInt16(x) => match b.as_i64() {
                Some(o) => Ok(DataFieldValue::UInt16(add_wrap_u16(x, o))),
                None => Err(TypeMismatch),
            },
            DataFieldValue::SInt32(x) => match b.as_i64() {
                Some(o) => Ok(DataFieldValue::SInt32(add_wrap_i32(x, o))),
                None => Err(TypeMismatch),
            },
            DataFieldValue::UInt32(x) => match b.as_i64() {
                Some(o) => Ok(DataFieldValue::UInt32(add_wrap_u32(x, o))),
                None => Err(TypeMismatch),
            },
            DataFieldValue::String(s) => match b {
                DataFieldValue::String(t) => Ok(DataFieldValue::String(s.concat(t.as_str()))),
                _ => Err(TypeMismatch),
            },
            DataFieldValue::Float32(_) => Err(TypeMismatch),
            DataFieldValue::Float64(_) => Err(TypeMismatch),
            DataFieldValue::UInt8z(x) => match b.as_i64() {
                Some(o) => Ok(DataFieldValue::UInt8z(add_wrap_u8(x, o))),
                None => Err(TypeMismatch),
            },
            DataFieldValue::UInt16z(x) => match b.as_i64() {
                Some(o) => Ok(DataFieldValue::UInt16z(add_wrap_u16(x, o))),
                None => Err(TypeMismatch),
            },
            DataFieldValue::UInt32z(x) => match b.as_i64() {
                Some(o) => Ok(DataFieldValue::UInt32z(add_wrap_u32(x, o))),
                None => Err(TypeMismatch),
            },
            DataFieldValue::SInt64(x) => match b.as_i64() {
                Some(o) => Ok(DataFieldValue::SInt64(add_wrap_i64(x, o))),
                None => Err(TypeMismatch),
            },
            DataFieldValue::UInt64(x) => match b.as_i64() {
                Some(o) => Ok(DataFieldValue::UInt64(add_wrap_u64(x, o))),
                None => Err(TypeMismatch),
            },
            DataFieldValue::UInt64z(x) => match b.as_i64() {
                Some(o) => Ok(DataFieldValue::UInt64z(add_wrap_u64(x, o))),
                None => Err(TypeMismatch),
            },
            DataFieldValue::Array(_) => Err(TypeMismatch),
        }
    }

    /// Composes the elements of `longer` pairwise with the prefix of
    /// `shorter`, the elements of `longer` standing on the left; the tail of
    /// `longer` is carried through unchanged.
    fn combine_pairwise(longer: Vec<Self>, shorter: &Vec<Self>) -> (r: Result<
        Vec<Self>,
        TypeMismatch,
    >)
        requires
            longer@.len() >= shorter@.len(),
        ensures
            match r {
                Result::Ok(rs) => {
                    &&& rs@.len() == longer@.len()
                    &&& (forall|i: int|
                        0 <= i < shorter@.len() ==> spec_combine_defined_scalar(
                            longer@[i],
                            shorter@[i],
                        ) && spec_combine_scalar(longer@[i], shorter@[i], rs@[i]))
                    &&& (forall|i: int|
                        shorter@.len() <= i < longer@.len() ==> rs@[i] == longer@[i])
                },
                Result::Err(_) => !(forall|i: int|
                    0 <= i < shorter@.len() ==> spec_combine_defined_scalar(
                        longer@[i],
                        shorter@[i],
                    )),
            },
    {
        let ghost lv = longer@;
        let slen = shorter.len();
        let n = longer.len();
        let mut rest = longer;
        let mut out: Vec<Self> = Vec::new();
        let mut i: usize = 0;
        while i < n
            invariant
                lv == longer@,
                n == lv.len(),
                slen == shorter@.len(),
                slen <= n,
                i <= n,
                rest@ == lv.subrange(i as int, n as int),
                out@.len() == i,
                forall|j: int|
                    0 <= j < i && j < slen ==> spec_combine_defined_scalar(lv[j], shorter@[j])
                        && spec_combine_scalar(lv[j], shorter@[j], out@[j]),
                forall|j: int| slen <= j < i ==> out@[j] == lv[j],
            decreases n - i,
        {
            let x = rest.remove(0);
            proof {
                assert(rest@ =~= lv.subrange(i + 1, n as int));
            }
            proof {
                assert(x == lv[i as int]);
            }
            if i < slen {
                match Self::combine_scalar(x, &shorter[i]) {
                    Ok(v) => out.push(v),
                    Err(e) => {
                        proof {
                            assert(!spec_combine_defined_scalar(lv[i as int], shorter@[i as int]));
                            assert(!(forall|j: int|
                                0 <= j < shorter@.len() ==> spec_combine_defined_scalar(
                                    lv[j],
                                    shorter@[j],
                                )));
                        }
                        return Err(e);
                    },
                }
            } else {
                out.push(x);
            }
            i = i + 1;
        }
        Ok(out)
    }

    /// Composes every element of `xs` with the same right operand `b`.
    fn combine_each(xs: Vec<Self>, b: &Self) -> (r: Result<Vec<Self>, TypeMismatch>)
        ensures
            match r {
                Result::Ok(rs) => {
                    &&& rs@.len() == xs@.len()
                    &&& (forall|i: int|
                        0 <= i < xs@.len() ==> spec_combine_defined_scalar(xs@[i], *b)
                            && spec_combine_scalar(xs@[i], *b, rs@[i]))
                },
                Result::Err(_) => !(forall|i: int|
                    0 <= i < xs@.len() ==> spec_combine_defined_scalar(xs@[i], *b)),
            },
    {
        let ghost xv = xs@;
        let n = xs.len();
        let mut rest = xs;
        let mut out: Vec<Self> = Vec::new();
        let mut i: usize = 0;
        while i < n
            invariant
                xv == xs@,
                n == xv.len(),
                i <= n,
                rest@ == xv.subrange(i as int, n as int),
                out@.len() == i,
                forall|j: int|
                    0 <= j < i ==> spec_combine_defined_scalar(xv[j], *b) && spec_combine_scalar(
                        xv[j],
                        *b,
                        out@[j],
                    ),
            decreases n - i,
        {
            let x = rest.remove(0);
            proof {
                assert(rest@ =~= xv.subrange(i + 1, n as int));
            }
            proof {
                assert(x == xv[i as int]);
            }
            match Self::combine_scalar(x, b) {
                Ok(v) => out.push(v),
                Err(e) => {
                    proof {
                        assert(!spec_combine_defined_scalar(xv[i as int], *b));
                        assert(!(forall|j: int|
                            0 <= j < xv.len() ==> spec_combine_defined_scalar(xv[j], *b)));
                    }
                    return Err(e);
                },
            }
            i = i + 1;
        }
        Ok(out)
    }

    /// The arithmetic composition law: coerces `other` to `self`'s kind and
    /// adds with wrapping at the native width, concatenates strings, composes
    /// arrays element-wise (the longer operand's prefix pairwise with the
    /// shorter, the tail carried through unchanged), and combines a lone
    /// right operand against every element of an array. Timestamps and
    /// operands that cannot be coerced fail with `TypeMismatch`. A
    /// floating-point right operand coerces through its truncated integer
    /// reading; a floating-point left operand asks for floating-point
    /// addition, which lives in the surrounding tooling, and fails here.
    pub fn combine(self, other: Self) -> (r: Result<Self, TypeMismatch>)
        ensures
            match r {
                Result::Ok(v) => spec_combine_defined(self, other) && spec_combine_ok(
                    self,
                    other,
                    v,
                ),
                Result::Err(_) => !spec_combine_defined(self, other),
            },
    {
        match self {
            DataFieldValue::Array(xs) => match other {
                DataFieldValue::Array(ys) => {
                    if xs.len() > ys.len() {
                        match Self::combine_pairwise(xs, &ys) {
                            Ok(rs) => Ok(DataFieldValue::Array(rs)),
                            Err(e) => Err(e),
                        }
                    } else {
                        match Self::combine_pairwise(ys, &xs) {
                            Ok(rs) => Ok(DataFieldValue::Array(rs)),
                            Err(e) => Err(e),
                        }
                    }
                },
                b => {
                    match Self::combine_each(xs, &b) {
                        Ok(rs) => Ok(DataFieldValue::Array(rs)),
                        Err(e) => Err(e),
                    }
                },
            },
            a => Self::combine_scalar(a, &other),
        }
    }
}

} // verus!

verus! {

// The laws of the value algebra.

/// 256^n, the weight of the n-th little-endian digit.
pub open spec fn pow256(n: nat) -> int
    decreases n,
{
    if n == 0 {
        1
    } else {
        0x100 * pow256((n - 1) as nat)
    }
}

/// The base-256 little-endian reading of a byte sequence.
pub open spec fn le_bytes_to_nat(s: Seq<u8>) -> int
    decreases s.len(),
{
    if s.len() == 0 {
        0
    } else {
        s[0] + 0x100 * le_bytes_to_nat(s.drop_first())
    }
}

/// The two's-complement little-endian reading of a byte sequence.
pub open spec fn le_bytes_to_signed(s: Seq<u8>) -> int {
    let u = le_bytes_to_nat(s);
    let m = pow256(s.len());
    if 2 * u >= m {
        u - m
    } else {
        u
    }
}

/// Whether a value carries one of the fixed-width integer payloads
/// (the timestamp counts, through its epoch-seconds encoding).
pub open spec fn is_integer_variant(v: DataFieldValue) -> bool {
    match v {
        DataFieldValue::Timestamp(_) => true,
        DataFieldValue::Byte(_) => true,
        DataFieldValue::Enum(_) => true,
        DataFieldValue::SInt8(_) => true,
        DataFieldValue::UInt8(_) => true,
        DataFieldValue::SInt16(_) => true,
        DataFieldValue::UInt16(_) => true,
        DataFieldValue::SInt32(_) => true,
        DataFieldValue::UInt32(_) => true,
        DataFieldValue::UInt8z(_) => true,
        DataFieldValue::UInt16z(_) => true,
        DataFieldValue::UInt32z(_) => true,
        DataFieldValue::SInt64(_) => true,
        DataFieldValue::UInt64(_) => true,
        DataFieldValue::UInt64z(_) => true,
        DataFieldValue::String(_) => false,
        DataFieldValue::Float32(_) => false,
        DataFieldValue::Float64(_) => false,
        DataFieldValue::Array(_) => false,
    }
}

proof fn lemma_le_nat_u16(x: u16)
    ensures
        le_bytes_to_nat(u16_le(x)) == x,
{
    reveal_with_fuel(le_bytes_to_nat, 3);
    let s = u16_le(x);
    assert(s.drop_first() =~= seq![(x / 0x100) as u8]);
    assert(s.drop_first().drop_first() =~= Seq::<u8>::empty());
    vstd::arithmetic::div_mod::lemma_fundamental_div_mod(x as int, 0x100);
}

proof fn lemma_le_nat_u32(x: u32)
    ensures
        le_bytes_to_nat(u32_le(x)) == x,
{
    reveal_with_fuel(le_bytes_to_nat, 5);
    let s = u32_le(x);
    assert(s.drop_first() =~= seq![
        ((x / 0x100) % 0x100) as u8,
        ((x / 0x10000) % 0x100) as u8,
        (x / 0x1000000) as u8,
    ]);
    assert(s.drop_first().drop_first() =~= seq![
        ((x / 0x10000) % 0x100) as u8,
        (x / 0x1000000) as u8,
    ]);
    assert(s.drop_first().drop_first().drop_first() =~= seq![(x / 0x1000000) as u8]);
    assert(s.drop_first().drop_first().drop_first().drop_first() =~= Seq::<u8>::empty());
    vstd::arithmetic::div_mod::lemma_div_denominator(x as int, 0x100, 0x100);
    vstd::arithmetic::div_mod::lemma_div_denominator(x as int, 0x10000, 0x100);
    vstd::arithmetic::div_mod::lemma_fundamental_div_mod(x as int, 0x100);
    vstd::arithmetic::div_mod::lemma_fundamental_div_mod((x / 0x100) as int, 0x100);
    vstd::arithmetic::div_mod::lemma_fundamental_div_mod((x / 0x10000) as int, 0x100);
}

proof fn lemma_le_nat_u64(x: u64)
    ensures
        le_bytes_to_nat(u64_le(x)) == x,
{
    reveal_with_fuel(le_bytes_to_nat, 9);
    let s = u64_le(x);
    let d1 = (x / 0x100) as int;
    let d2 = (x / 0x10000) as int;
    let d3 = (x / 0x1000000) as int;
    let d4 = (x / 0x100000000) as int;
    let d5 = (x / 0x10000000000) as int;
    let d6 = (x / 0x1000000000000) as int;
    let d7 = (x / 0x100000000000000) as int;
    assert(s.drop_first() =~= seq![
        (d1 % 0x100) as u8,
        (d2 % 0x100) as u8,
        (d3 % 0x100) as u8,
        (d4 % 0x100) as u8,
        (d5 % 0x100) as u8,
        (d6 % 0x100) as u8,
        d7 as u8,
    ]);
    assert(s.drop_first().drop_first() =~= seq![
        (d2 % 0x100) as u8,
        (d3 % 0x100) as u8,
        (d4 % 0x100) as u8,
        (d5 % 0x100) as u8,
        (d6 % 0x100) as u8,
        d7 as u8,
    ]);
    assert(s.drop_first().drop_first().drop_first() =~= seq![
        (d3 % 0x100) as u8,
        (d4 % 0x100) as u8,
        (d5 % 0x100) as u8,
        (d6 % 0x100) as u8,
        d7 as u8,
    ]);
    assert(s.drop_first().drop_first().drop_first().drop_first() =~= seq![
        (d4 % 0x100) as u8,
        (d5 % 0x100) as u8,
        (d6 % 0x100) as u8,
        d7 as u8,
    ]);
    assert(s.drop_first().drop_first().drop_first().drop_first().drop_first() =~= seq![
        (d5 % 0x100) as u8,
        (d6 % 0x100) as u8,
        d7 as u8,
    ]);
    assert(s.drop_first().drop_first().drop_first().drop_first().drop_first().drop_first() =~= seq![
        (d6 % 0x100) as u8,
        d7 as u8,
    ]);
    assert(s.drop_first().drop_first().drop_first().drop_first().drop_first().drop_first().drop_first()
        =~= seq![d7 as u8]);
    assert(s.drop_first().drop_first().drop_first().drop_first().drop_first().drop_first().drop_first().drop_first()
        =~= Seq::<u8>::empty());
    vstd::arithmetic::div_mod::lemma_div_denominator(x as int, 0x100, 0x100);
    vstd::arithmetic::div_mod::lemma_div_denominator(x as int, 0x10000, 0x100);
    vstd::arithmetic::div_mod::lemma_div_denominator(x as int, 0x1000000, 0x100);
    vstd::arithmetic::div_mod::lemma_div_denominator(x as int, 0x100000000, 0x100);
    vstd::arithmetic::div_mod::lemma_div_denominator(x as int, 0x10000000000, 0x100);
    vstd::arithmetic::div_mod::lemma_div_denominator(x as int, 0x1000000000000, 0x100);
    vstd::arithmetic::div_mod::lemma_fundamental_div_mod(x as int, 0x100);
    vstd::arithmetic::div_mod::lemma_fundamental_div_mod(d1, 0x100);
    vstd::arithmetic::div_mod::lemma_fundamental_div_mod(d2, 0x100);
    vstd::arithmetic::div_mod::lemma_fundamental_div_mod(d3, 0x100);
    vstd::arithmetic::div_mod::lemma_fundamental_div_mod(d4, 0x100);
    vstd::arithmetic::div_mod::lemma_fundamental_div_mod(d5, 0x100);
    vstd::arithmetic::div_mod::lemma_fundamental_div_mod(d6, 0x100);
}

/// The Euclidean remainder of a signed value by the full range of its width,
/// recovered from the value itself.
proof fn lemma_wrap_of_signed(x: int, h: int)
    requires
        0 < h,
        -h <= x < h,
    ensures
        x >= 0 ==> x % (2 * h) == x,
        x < 0 ==> x % (2 * h) == x + 2 * h,
{
    if x >= 0 {
        vstd::arithmetic::div_mod::lemma_small_mod(x as nat, (2 * h) as nat);
    } else {
        vstd::arithmetic::div_mod::lemma_fundamental_div_mod_converse_mod(x, 2 * h, -1, x + 2 * h);
    }
}

/// Law: for every integer variant, reading the little-endian bytes produced
/// by `to_bytes` back as a base-256 number reproduces the original payload
/// exactly — the plain reading for unsigned payloads, the two's-complement
/// reading for signed payloads and the timestamp's epoch seconds.
#[verifier::rlimit(60)]
pub proof fn lemma_to_bytes_round_trip(v: DataFieldValue)
    requires
        is_integer_variant(v),
    ensures
        match v {
            DataFieldValue::Byte(x) => le_bytes_to_nat(spec_to_bytes(v)) == x,
            DataFieldValue::Enum(x) => le_bytes_to_nat(spec_to_bytes(v)) == x,
            DataFieldValue::UInt8(x) => le_bytes_to_nat(spec_to_bytes(v)) == x,
            DataFieldValue::UInt8z(x) => le_bytes_to_nat(spec_to_bytes(v)) == x,
            DataFieldValue::UInt16(x) => le_bytes_to_nat(spec_to_bytes(v)) == x,
            DataFieldValue::UInt16z(x) => le_bytes_to_nat(spec_to_bytes(v)) == x,
            DataFieldValue::UInt32(x) => le_bytes_to_nat(spec_to_bytes(v)) == x,
            DataFieldValue::UInt32z(x) => le_bytes_to_nat(spec_to_bytes(v)) == x,
            DataFieldValue::UInt64(x) => le_bytes_to_nat(spec_to_bytes(v)) == x,
            DataFieldValue::UInt64z(x) => le_bytes_to_nat(spec_to_bytes(v)) == x,
            DataFieldValue::SInt8(x) => le_bytes_to_signed(spec_to_bytes(v)) == x,
            DataFieldValue::SInt16(x) => le_bytes_to_signed(spec_to_bytes(v)) == x,
            DataFieldValue::SInt32(x) => le_bytes_to_signed(spec_to_bytes(v)) == x,
            DataFieldValue::SInt64(x) => le_bytes_to_signed(spec_to_bytes(v)) == x,
            DataFieldValue::Timestamp(t) => le_bytes_to_signed(spec_to_bytes(v)) == t,
            _ => true,
        },
{
    reveal_with_fuel(pow256, 9);
    reveal_with_fuel(le_bytes_to_nat, 2);
    match v {
        DataFieldValue::Byte(x) => {
            assert(spec_to_bytes(v).drop_first() =~= Seq::<u8>::empty());
        },
        DataFieldValue::Enum(x) => {
            assert(spec_to_bytes(v).drop_first() =~= Seq::<u8>::empty());
        },
        DataFieldValue::UInt8(x) => {
            assert(spec_to_bytes(v).drop_first() =~= Seq::<u8>::empty());
        },
        DataFieldValue::UInt8z(x) => {
            assert(spec_to_bytes(v).drop_first() =~= Seq::<u8>::empty());
        },
        DataFieldValue::UInt16(x) => {
            lemma_le_nat_u16(x);
        },
        DataFieldValue::UInt16z(x) => {
            lemma_le_nat_u16(x);
        },
        DataFieldValue::UInt32(x) => {
            lemma_le_nat_u32(x);
        },
        DataFieldValue::UInt32z(x) => {
            lemma_le_nat_u32(x);
        },
        DataFieldValue::UInt64(x) => {
            lemma_le_nat_u64(x);
        },
        DataFieldValue::UInt64z(x) => {
            lemma_le_nat_u64(x);
        },
        DataFieldValue::SInt8(x) => {
            assert(spec_to_bytes(v).drop_first() =~= Seq::<u8>::empty());
            lemma_wrap_of_signed(x as int, 0x80);
        },
        DataFieldValue::SInt16(x) => {
            lemma_wrap_of_signed(x as int, 0x8000);
            lemma_le_nat_u16(wrap_u16(x as int));
        },
        DataFieldValue::SInt32(x) => {
            lemma_wrap_of_signed(x as int, 0x80000000);
            lemma_le_nat_u32(wrap_u32(x as int));
        },
        DataFieldValue::SInt64(x) => {
            lemma_wrap_of_signed(x as int, 0x8000000000000000);
            lemma_le_nat_u64(wrap_u64(x as int));
        },
        DataFieldValue::Timestamp(t) => {
            lemma_wrap_of_signed(t as int, 0x8000000000000000);
            lemma_le_nat_u64(wrap_u64(t as int));
        },
        _ => {},
    }
}

/// Law: for every scalar variant the reserved sentinel is the one invalid
/// payload — validity fails on the sentinel and holds on every other
/// representable payload (for floats, exactly the finite bit patterns; for
/// strings, exactly the null-free ones; timestamps are always valid).
pub proof fn lemma_sentinel_validity(v: DataFieldValue)
    ensures
        match v {
            DataFieldValue::Timestamp(_) => spec_is_valid(v),
            DataFieldValue::Byte(x) => spec_is_valid(v) <==> x != 0xff,
            DataFieldValue::Enum(x) => spec_is_valid(v) <==> x != 0xff,
            DataFieldValue::SInt8(x) => spec_is_valid(v) <==> x != 0x7f,
            DataFieldValue::UInt8(x) => spec_is_valid(v) <==> x != 0xff,
            DataFieldValue::SInt16(x) => spec_is_valid(v) <==> x != 0x7fff,
            DataFieldValue::UInt16(x) => spec_is_valid(v) <==> x != 0xffff,
            DataFieldValue::SInt32(x) => spec_is_valid(v) <==> x != 0x7fffffff,
            DataFieldValue::UInt32(x) => spec_is_valid(v) <==> x != 0xffffffff,
            DataFieldValue::String(s) => spec_is_valid(v) <==> (forall|i: int|
                0 <= i < s@.len() ==> s@[i] != '\0'),
            DataFieldValue::Float32(b) => spec_is_valid(v) <==> f32_bits_finite(b),
            DataFieldValue::Float64(b) => spec_is_valid(v) <==> f64_bits_finite(b),
            DataFieldValue::UInt8z(x) => spec_is_valid(v) <==> x != 0,
            DataFieldValue::UInt16z(x) => spec_is_valid(v) <==> x != 0,
            DataFieldValue::UInt32z(x) => spec_is_valid(v) <==> x != 0,
            DataFieldValue::SInt64(x) => spec_is_valid(v) <==> x != 0x7fffffffffffffff,
            DataFieldValue::UInt64(x) => spec_is_valid(v) <==> x != 0xffffffffffffffff,
            DataFieldValue::UInt64z(x) => spec_is_valid(v) <==> x != 0,
            DataFieldValue::Array(vals) => spec_is_valid(v) <==> (vals@.len() > 0 && forall|i: int|
                0 <= i < vals@.len() ==> spec_is_valid(vals@[i])),
        },
{
}

/// Law: a timestamp composes with nothing — the composition law is undefined
/// for a timestamp left operand whatever the right operand is.
pub proof fn lemma_timestamp_combine_fails(t: i64, b: DataFieldValue)
    ensures
        !spec_combine_defined(DataFieldValue::Timestamp(t), b),
{
}

} // verus!

verus! {

/// The mathematical reading of a value: payloads as themselves, strings as
/// their character sequences, arrays as the sequence of their elements'
/// readings.
pub enum ValueModel {
    Timestamp(i64),
    Byte(u8),
    Enum(u8),
    SInt8(i8),
    UInt8(u8),
    SInt16(i16),
    UInt16(u16),
    SInt32(i32),
    UInt32(u32),
    String(Seq<char>),
    Float32(u32),
    Float64(u64),
    UInt8z(u8),
    UInt16z(u16),
    UInt32z(u32),
    SInt64(i64),
    UInt64(u64),
    UInt64z(u64),
    Array(Seq<ValueModel>),
}

pub open spec fn value_model(v: DataFieldValue) -> ValueModel
    decreases v, 0int,
{
    match v {
        DataFieldValue::Timestamp(t) => ValueModel::Timestamp(t),
        DataFieldValue::Byte(x) => ValueModel::Byte(x),
        DataFieldValue::Enum(x) => ValueModel::Enum(x),
        DataFieldValue::SInt8(x) => ValueModel::SInt8(x),
        DataFieldValue::UInt8(x) => ValueModel::UInt8(x),
        DataFieldValue::SInt16(x) => ValueModel::SInt16(x),
        DataFieldValue::UInt16(x) => ValueModel::UInt16(x),
        DataFieldValue::SInt32(x) => ValueModel::SInt32(x),
        DataFieldValue::UInt32(x) => ValueModel::UInt32(x),
        DataFieldValue::String(s) => ValueModel::String(s@),
        DataFieldValue::Float32(b) => ValueModel::Float32(b),
        DataFieldValue::Float64(b) => ValueModel::Float64(b),
        DataFieldValue::UInt8z(x) => ValueModel::UInt8z(x),
        DataFieldValue::UInt16z(x) => ValueModel::UInt16z(x),
        DataFieldValue::UInt32z(x) => ValueModel::UInt32z(x),
        DataFieldValue::SInt64(x) => ValueModel::SInt64(x),
        DataFieldValue::UInt64(x) => ValueModel::UInt64(x),
        DataFieldValue::UInt64z(x) => ValueModel::UInt64z(x),
        DataFieldValue::Array(vals) => ValueModel::Array(value_models_from(vals@, 0)),
    }
}

/// The readings of the elements of `vals` from index `i` on.
pub open spec fn value_models_from(vals: Seq<DataFieldValue>, i: int) -> Seq<ValueModel>
    decreases vals, vals.len() - i,
{
    if 0 <= i < vals.len() {
        seq![value_model(vals[i])] + value_models_from(vals, i + 1)
    } else {
        Seq::empty()
    }
}

/// The element readings line up index by index.
pub proof fn lemma_value_models_from(vals: Seq<DataFieldValue>, i: int)
    requires
        0 <= i <= vals.len(),
    ensures
        value_models_from(vals, i).len() == vals.len() - i,
        forall|j: int|
            i <= j < vals.len() ==> value_models_from(vals, i)[j - i] == value_model(vals[j]),
    decreases vals.len() - i,
{
    if i < vals.len() {
        lemma_value_models_from(vals, i + 1);
    }
}

/// The readings from index zero, lined up index by index.
pub proof fn lemma_value_models(vals: Seq<DataFieldValue>)
    ensures
        value_models_from(vals, 0).len() == vals.len(),
        forall|j: int|
            0 <= j < vals.len() ==> value_models_from(vals, 0)[j] == value_model(vals[j]),
{
    lemma_value_models_from(vals, 0);
    assert forall|j: int|
        0 <= j < vals.len() implies value_models_from(vals, 0)[j] == value_model(vals[j]) by {
        assert(value_models_from(vals, 0)[j - 0] == value_model(vals[j]));
    }
}

impl Clone for DataFieldValue {
    /// A deep copy with the same mathematical reading.
    fn clone(&self) -> (r: Self)
        ensures
            value_model(r) == value_model(*self),
        decreases *self,
    {
        match self {
            DataFieldValue::Timestamp(t) => DataFieldValue::Timestamp(*t),
            DataFieldValue::Byte(x) => DataFieldValue::Byte(*x),
            DataFieldValue::Enum(x) => DataFieldValue::Enum(*x),
            DataFieldValue::SInt8(x) => DataFieldValue::SInt8(*x),
            DataFieldValue::UInt8(x) => DataFieldValue::UInt8(*x),
            DataFieldValue::SInt16(x) => DataFieldValue::SInt16(*x),
            DataFieldValue::UInt16(x) => DataFieldValue::UInt16(*x),
            DataFieldValue::SInt32(x) => DataFieldValue::SInt32(*x),
            DataFieldValue::UInt32(x) => DataFieldValue::UInt32(*x),
            DataFieldValue::String(s) => DataFieldValue::String(s.clone()),
            DataFieldValue::Float32(b) => DataFieldValue::Float32(*b),
            DataFieldValue::Float64(b) => DataFieldValue::Float64(*b),
            DataFieldValue::UInt8z(x) => DataFieldValue::UInt8z(*x),
            DataFieldValue::UInt16z(x) => DataFieldValue::UInt16z(*x),
            DataFieldValue::UInt32z(x) => DataFieldValue::UInt32z(*x),
            DataFieldValue::SInt64(x) => DataFieldValue::SInt64(*x),
            DataFieldValue::UInt64(x) => DataFieldValue::UInt64(*x),
            DataFieldValue::UInt64z(x) => DataFieldValue::UInt64z(*x),
            DataFieldValue::Array(vals) => {
                let n = vals.len();
                let mut out: Vec<DataFieldValue> = Vec::new();
                let mut i: usize = 0;
                while i < n
                    invariant
                        *self == DataFieldValue::Array(*vals),
                        n == vals@.len(),
                        i <= n,
                        out@.len() == i,
                        forall|j: int|
                            0 <= j < i ==> value_model(out@[j]) == value_model(vals@[j]),
                    decreases n - i,
                {
                    proof {
                        assert(decreases_to!(*self => self->Array_0));
                        assert(decreases_to!(*vals => vals@));
                        assert(decreases_to!(vals@ => vals@[i as int]));
                    }
                    out.push(vals[i].clone());
                    i = i + 1;
                }
                let r = DataFieldValue::Array(out);
                proof {
                    lemma_value_models(out@);
                    lemma_value_models(vals@);
                    assert(value_models_from(out@, 0) =~= value_models_from(vals@, 0));
                }
                r
            },
        }
    }
}

} // verus!

verus! {

impl DataFieldValue {
    /// In-place composition: `self` becomes the composition of its old value
    /// with `other`. The composition must be defined for the operands.
    pub fn combine_assign(&mut self, other: Self)
        requires
            spec_combine_defined(*old(self), other),
        ensures
            spec_combine_ok(*old(self), other, *final(self)),
    {
        let mut cur = DataFieldValue::Byte(0);
        core::mem::swap(self, &mut cur);
        match cur.combine(other) {
            Ok(v) => {
                *self = v;
            },
            Err(_) => {
                proof {
                    assert(false);
                }
            },
        }
    }
}

/// Law: every fixed-width variant serializes to its base type's declared
/// byte width; one-byte types to one byte, and so on up to the eight-byte
/// types and the eight-byte epoch-seconds timestamp.
pub proof fn lemma_to_bytes_width(v: DataFieldValue)
    ensures
        match v {
            DataFieldValue::Byte(_) => spec_to_bytes(v).len() == 1,
            DataFieldValue::Enum(_) => spec_to_bytes(v).len() == 1,
            DataFieldValue::SInt8(_) => spec_to_bytes(v).len() == 1,
            DataFieldValue::UInt8(_) => spec_to_bytes(v).len() == 1,
            DataFieldValue::UInt8z(_) => spec_to_bytes(v).len() == 1,
            DataFieldValue::SInt16(_) => spec_to_bytes(v).len() == 2,
            DataFieldValue::UInt16(_) => spec_to_bytes(v).len() == 2,
            DataFieldValue::UInt16z(_) => spec_to_bytes(v).len() == 2,
            DataFieldValue::SInt32(_) => spec_to_bytes(v).len() == 4,
            DataFieldValue::UInt32(_) => spec_to_bytes(v).len() == 4,
            DataFieldValue::UInt32z(_) => spec_to_bytes(v).len() == 4,
            DataFieldValue::Float32(_) => spec_to_bytes(v).len() == 4,
            DataFieldValue::SInt64(_) => spec_to_bytes(v).len() == 8,
            DataFieldValue::UInt64(_) => spec_to_bytes(v).len() == 8,
            DataFieldValue::UInt64z(_) => spec_to_bytes(v).len() == 8,
            DataFieldValue::Float64(_) => spec_to_bytes(v).len() == 8,
            DataFieldValue::Timestamp(_) => spec_to_bytes(v).len() == 8,
            DataFieldValue::String(_) => true,
            DataFieldValue::Array(_) => true,
        },
{
}

} // verus!

verus! {

/// Law: a zero-valued coercible right operand is an identity element for
/// the composition on every integer scalar left operand (timestamps compose
/// with nothing, and a floating-point left operand's addition is
/// floating-point work outside this crate).
pub proof fn lemma_combine_zero_identity(a: DataFieldValue)
    requires
        is_integer_variant(a),
        !(a is Timestamp),
    ensures
        spec_combine_defined(a, DataFieldValue::UInt8(0)),
        spec_combine_ok(a, DataFieldValue::UInt8(0), a),
{
    match a {
        DataFieldValue::Byte(x) => {
            vstd::arithmetic::div_mod::lemma_small_mod(x as nat, 0x100);
        },
        DataFieldValue::Enum(x) => {
            vstd::arithmetic::div_mod::lemma_small_mod(x as nat, 0x100);
        },
        DataFieldValue::UInt8(x) => {
            vstd::arithmetic::div_mod::lemma_small_mod(x as nat, 0x100);
        },
        DataFieldValue::UInt8z(x) => {
            vstd::arithmetic::div_mod::lemma_small_mod(x as nat, 0x100);
        },
        DataFieldValue::UInt16(x) => {
            vstd::arithmetic::div_mod::lemma_small_mod(x as nat, 0x10000);
        },
        DataFieldValue::UInt16z(x) => {
            vstd::arithmetic::div_mod::lemma_small_mod(x as nat, 0x10000);
        },
        DataFieldValue::UInt32(x) => {
            vstd::arithmetic::div_mod::lemma_small_mod(x as nat, 0x100000000);
        },
        DataFieldValue::UInt32z(x) => {
            vstd::arithmetic::div_mod::lemma_small_mod(x as nat, 0x100000000);
        },
        DataFieldValue::UInt64(x) => {
            vstd::arithmetic::div_mod::lemma_small_mod(x as nat, 0x10000000000000000);
        },
        DataFieldValue::UInt64z(x) => {
            vstd::arithmetic::div_mod::lemma_small_mod(x as nat, 0x10000000000000000);
        },
        DataFieldValue::SInt8(x) => {
            lemma_wrap_of_signed(x as int, 0x80);
        },
        DataFieldValue::SInt16(x) => {
            lemma_wrap_of_signed(x as int, 0x8000);
        },
        DataFieldValue::SInt32(x) => {
            lemma_wrap_of_signed(x as int, 0x80000000);
        },
        DataFieldValue::SInt64(x) => {
            lemma_wrap_of_signed(x as int, 0x8000000000000000);
        },
        _ => {},
    }
}

} // verus!
