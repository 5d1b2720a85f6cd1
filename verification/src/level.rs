//! Loudness levels in dBFS, held as an order-preserving integer key of the
//! IEEE-754 single-precision bit pattern.
use vstd::prelude::*;

verus! {

/// Sign bit of an `f32` bit pattern.
pub const SIGN_BIT: u32 = 0x8000_0000u32;

/// Bit pattern of negative infinity.
pub const NEG_INFINITY_BITS: u32 = 0xFF80_0000u32;

/// True when the `f32` bit pattern `b` is a NaN (all exponent bits set, non-zero mantissa).
pub open spec fn bits_is_nan(b: u32) -> bool {
    (b & 0x7F80_0000u32) == 0x7F80_0000u32 && (b & 0x007F_FFFFu32) != 0
}

/// IEEE-754 `a >= b` on two `f32` bit patterns: false when either is NaN,
/// and the two zeros compare equal.
pub open spec fn bits_ge(a: u32, b: u32) -> bool {
    let ma = a & 0x7FFF_FFFFu32;
    let mb = b & 0x7FFF_FFFFu32;
    let na = (a & SIGN_BIT) != 0;
    let nb = (b & SIGN_BIT) != 0;
    &&& !bits_is_nan(a)
    &&& !bits_is_nan(b)
    &&& if ma == 0 && mb == 0 {
        true
    } else if !na && !nb {
        ma >= mb
    } else if na && nb {
        ma <= mb
    } else {
        !na
    }
}

/// The key of a bit pattern: negative values are complemented, non-negative
/// values get the sign bit set, so that unsigned key order is float order.
pub open spec fn key_of_bits(b: u32) -> u32 {
    if (b & SIGN_BIT) != 0 {
        !b
    } else {
        b | SIGN_BIT
    }
}

/// The bit pattern of a key; the inverse of `key_of_bits`.
pub open spec fn bits_of_key(k: u32) -> u32 {
    if (k & SIGN_BIT) != 0 {
        k & 0x7FFF_FFFFu32
    } else {
        !k
    }
}

/// A loudness in dBFS. `key` encodes the `f32` value so that comparing keys
/// as unsigned integers compares the values (the two zeros aside, which have
/// adjacent keys), and every `f32` bit pattern has exactly one key.
#[derive(Clone, Copy, Debug, PartialEq, Eq, Structural)]
pub struct Dbfs {
    pub key: u32,
}

/// Key of negative zero.
pub const NEG_ZERO_KEY: u32 = 0x7FFF_FFFFu32;

/// Key of positive zero.
pub const POS_ZERO_KEY: u32 = 0x8000_0000u32;

impl Dbfs {
    /// The `f32` bit pattern this level stands for.
    pub open spec fn bits(self) -> u32 {
        bits_of_key(self.key)
    }

    /// True when this level is a NaN.
    pub open spec fn spec_is_nan(self) -> bool {
        bits_is_nan(self.bits())
    }

    /// IEEE-754 `self >= other`.
    pub open spec fn spec_ge(self, other: Dbfs) -> bool {
        &&& !self.spec_is_nan()
        &&& !other.spec_is_nan()
        &&& (self.key >= other.key || (self.key == NEG_ZERO_KEY && other.key == POS_ZERO_KEY))
    }

    /// `f32::max`: a NaN argument yields the other one; otherwise the larger.
    pub open spec fn spec_max(self, other: Dbfs) -> Dbfs {
        if other.spec_is_nan() {
            self
        } else if self.spec_is_nan() {
            other
        } else if other.key > self.key {
            other
        } else {
            self
        }
    }

    /// The level of an `f32` bit pattern (`f32::to_bits`).
    pub fn from_bits(bits: u32) -> (res: Dbfs)
        ensures
            res.key == key_of_bits(bits),
            res.bits() == bits,
    {
        proof {
            lemma_bits_key_roundtrip(bits);
        }
        if bits & SIGN_BIT != 0 {
            Dbfs { key: !bits }
        } else {
            Dbfs { key: bits | SIGN_BIT }
        }
    }

    /// The `f32` bit pattern of this level (for `f32::from_bits`).
    pub fn to_bits(self) -> (res: u32)
        ensures
            res == self.bits(),
            key_of_bits(res) == self.key,
    {
        proof {
            lemma_key_bits_roundtrip(self.key);
        }
        if self.key & SIGN_BIT != 0 {
            self.key & 0x7FFF_FFFFu32
        } else {
            !self.key
        }
    }

    /// Negative infinity, the level below every other one.
    pub fn neg_infinity() -> (res: Dbfs)
        ensures
            res.key == 0x007F_FFFFu32,
            res.bits() == NEG_INFINITY_BITS,
            !res.spec_is_nan(),
            forall|d: Dbfs| !d.spec_is_nan() ==> #[trigger] d.spec_ge(res),
    {
        proof {
            lemma_nan_by_key(0x007F_FFFFu32);
            assert(bits_of_key(0x007F_FFFFu32) == NEG_INFINITY_BITS) by (bit_vector);
            assert forall|d: Dbfs| !d.spec_is_nan() implies #[trigger] d.spec_ge(
                Dbfs { key: 0x007F_FFFFu32 },
            ) by {
                lemma_nan_by_key(d.key);
            }
        }
        Dbfs { key: 0x007F_FFFFu32 }
    }

    /// True when this level is a NaN.
    pub fn is_nan(self) -> (res: bool)
        ensures
            res == self.spec_is_nan(),
    {
        proof {
            lemma_nan_by_key(self.key);
        }
        self.key > 0xFF80_0000u32 || self.key < 0x007F_FFFFu32
    }

    /// IEEE-754 `self >= other` (`f32` `>=`).
    pub fn ge(self, other: Dbfs) -> (res: bool)
        ensures
            res == self.spec_ge(other),
    {
        if self.is_nan() || other.is_nan() {
            false
        } else {
            self.key >= other.key || (self.key == NEG_ZERO_KEY && other.key == POS_ZERO_KEY)
        }
    }

    /// `f32::max`.
    pub fn max(self, other: Dbfs) -> (res: Dbfs)
        ensures
            res == self.spec_max(other),
    {
        if other.is_nan() {
            self
        } else if self.is_nan() {
            other
        } else if other.key > self.key {
            other
        } else {
            self
        }
    }
}

/// NaN levels are exactly the keys above that of positive infinity and below
/// that of negative infinity.
pub proof fn lemma_nan_by_key(k: u32)
    ensures
        bits_is_nan(bits_of_key(k)) <==> (k > 0xFF80_0000u32 || k < 0x007F_FFFFu32),
{
    assert(bits_is_nan(bits_of_key(k)) <==> (k > 0xFF80_0000u32 || k < 0x007F_FFFFu32))
        by (bit_vector);
}

/// Converting a bit pattern to its key and back gives the bit pattern again.
pub proof fn lemma_bits_key_roundtrip(b: u32)
    ensures
        bits_of_key(key_of_bits(b)) == b,
{
    assert(bits_of_key(key_of_bits(b)) == b) by (bit_vector);
}

/// Converting a key to its bit pattern and back gives the key again.
pub proof fn lemma_key_bits_roundtrip(k: u32)
    ensures
        key_of_bits(bits_of_key(k)) == k,
{
    assert(key_of_bits(bits_of_key(k)) == k) by (bit_vector);
}

/// Comparing levels is comparing the `f32` values they stand for: `ge` on
/// levels agrees with IEEE-754 `>=` on their bit patterns.
pub proof fn law_ge_is_float_ge(a: Dbfs, b: Dbfs)
    ensures
        a.spec_ge(b) <==> bits_ge(a.bits(), b.bits()),
{
    let ka = a.key;
    let kb = b.key;
    assert(((ka > 0xFF80_0000u32 || ka < 0x007F_FFFFu32) || (kb > 0xFF80_0000u32 || kb
        < 0x007F_FFFFu32) || (ka >= kb || (ka == 0x7FFF_FFFFu32 && kb == 0x8000_0000u32)))
        <==> ((ka > 0xFF80_0000u32 || ka < 0x007F_FFFFu32) || (kb > 0xFF80_0000u32 || kb
        < 0x007F_FFFFu32) || bits_ge(bits_of_key(ka), bits_of_key(kb)))) by (bit_vector);
    lemma_nan_by_key(ka);
    lemma_nan_by_key(kb);
}

} // verus!
