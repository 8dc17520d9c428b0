//! Feature-hash mixers for packed n-gram keys.
//!
//! A packed key (see [`crate::features`]) maps to a bucket in `2^log2_d`,
//! taken from the *high* bits of the mixed value (`h >> (32 - log2_d)`),
//! plus a sign bit (the low bit) for signed hashing. All mixers use only
//! u32 multiply/xor/shift.
use vstd::prelude::*;

use crate::text::{chars_eq, str_chars};

verus! {

/// MurmurHash3-32 finalizer, as a value.
pub open spec fn spec_fmix32(h: u32) -> u32 {
    let h1 = h ^ (h >> 16u32);
    let h2 = h1.wrapping_mul(0x85EB_CA6B);
    let h3 = h2 ^ (h2 >> 13u32);
    let h4 = h3.wrapping_mul(0xC2B2_AE35);
    h4 ^ (h4 >> 16u32)
}

/// MurmurHash3-32 finalizer: the mixing step, not the variable-length hash.
pub fn fmix32(h: u32) -> (r: u32)
    ensures
        r == spec_fmix32(h),
{
    let mut h = h;
    h ^= h >> 16u32;
    h = h.wrapping_mul(0x85EB_CA6B);
    h ^= h >> 13u32;
    h = h.wrapping_mul(0xC2B2_AE35);
    h ^= h >> 16u32;
    h
}

/// murmurhash2 on one u32 (4-byte tail path), as a value.
pub open spec fn spec_murmurhash2(k: u32, seed: u32) -> u32 {
    let m: u32 = 0x5BD1_E995;
    let k1 = k.wrapping_mul(m);
    let k2 = k1 ^ (k1 >> 24u32);
    let k3 = k2.wrapping_mul(m);
    let h1 = seed.wrapping_mul(m);
    let h2 = h1 ^ k3;
    let h3 = h2 ^ (h2 >> 13u32);
    let h4 = h3.wrapping_mul(m);
    h4 ^ (h4 >> 15u32)
}

/// whichlang's exact murmurhash2-on-u32 (4-byte tail path), kept bit-for-bit
/// as the parity baseline for A/B experiments.
pub fn murmurhash2(k: u32, seed: u32) -> (r: u32)
    ensures
        r == spec_murmurhash2(k, seed),
{
    let m: u32 = 0x5BD1_E995;
    let mut k = k;
    let mut h: u32 = seed;
    k = k.wrapping_mul(m);
    k ^= k >> 24u32;
    k = k.wrapping_mul(m);
    h = h.wrapping_mul(m);
    h ^= k;
    h ^= h >> 13u32;
    h = h.wrapping_mul(m);
    h ^ (h >> 15u32)
}

/// Odd multiplier for multiply-shift universal hashing.
pub const MS_CONSTANT: u64 = 0x9E37_79B9_7F4A_7C15;

/// Hash function selector. Serialized in model metadata as [`HashId::id`]
/// strings so a model carries its own hashing contract.
#[derive(Copy, Clone, Debug, PartialEq, Eq, Hash, Structural)]
pub enum HashId {
    /// fmix32 over the combined 32-bit halves of the key: the primary hash.
    Fmix32,
    /// whichlang's murmurhash2 applied to both halves; parity baseline.
    Murmur2,
    /// Multiply-shift universal hashing (top 32 bits of `key * C`).
    MultiplyShift,
}

impl HashId {
    /// Every hash function, in lookup order.
    pub const ALL: [HashId; 3] = [HashId::Fmix32, HashId::Murmur2, HashId::MultiplyShift];

    /// Stable identifier stored in model metadata.
    pub open spec fn spec_id(self) -> Seq<char> {
        match self {
            HashId::Fmix32 => "fmix32"@,
            HashId::Murmur2 => "murmur2"@,
            HashId::MultiplyShift => "multiply_shift"@,
        }
    }

    /// Stable identifier stored in model metadata.
    pub fn id(self) -> (r: &'static str)
        ensures
            r@ == self.spec_id(),
    {
        match self {
            HashId::Fmix32 => "fmix32",
            HashId::Murmur2 => "murmur2",
            HashId::MultiplyShift => "multiply_shift",
        }
    }

    /// The hash whose identifier is exactly `s`, searched in [`HashId::ALL`]
    /// order.
    pub open spec fn spec_from_id(s: Seq<char>) -> Option<HashId> {
        if s == HashId::Fmix32.spec_id() {
            Some(HashId::Fmix32)
        } else if s == HashId::Murmur2.spec_id() {
            Some(HashId::Murmur2)
        } else if s == HashId::MultiplyShift.spec_id() {
            Some(HashId::MultiplyShift)
        } else {
            None
        }
    }

    /// Look a hash up by its metadata identifier.
    pub fn from_id(id: &str) -> (r: Option<HashId>)
        ensures
            r == HashId::spec_from_id(id@),
    {
        let target = str_chars(id);
        let mut i: usize = 0;
        while i < 3
            invariant
                i <= 3,
                target@ == id@,
                forall|j: int| 0 <= j < i ==> id@ != (#[trigger] HashId::ALL@[j]).spec_id(),
            decreases 3 - i,
        {
            let h = HashId::ALL[i];
            let name = str_chars(h.id());
            if chars_eq(name.as_slice(), target.as_slice()) {
                return Some(h);
            }
            i = i + 1;
        }
        assert(id@ != HashId::ALL@[0].spec_id());
        assert(id@ != HashId::ALL@[1].spec_id());
        assert(id@ != HashId::ALL@[2].spec_id());
        None
    }
}

/// Every hash identifier parses back to its hash.
pub proof fn lemma_id_round_trip(h: HashId)
    ensures
        HashId::spec_from_id(h.spec_id()) == Some(h),
{
    reveal_strlit("fmix32");
    reveal_strlit("murmur2");
    reveal_strlit("multiply_shift");
    assert(HashId::Fmix32.spec_id()[0] != HashId::Murmur2.spec_id()[0]);
    assert(HashId::Fmix32.spec_id().len() != HashId::MultiplyShift.spec_id().len());
    assert(HashId::Murmur2.spec_id().len() != HashId::MultiplyShift.spec_id().len());
}

impl std::str::FromStr for HashId {
    type Err = ();

    fn from_str(s: &str) -> (r: Result<Self, Self::Err>)
        ensures
            match r {
                Ok(h) => HashId::spec_from_id(s@) == Some(h),
                Err(_) => HashId::spec_from_id(s@) is None,
            },
    {
        match HashId::from_id(s) {
            Some(h) => Ok(h),
            None => Err(()),
        }
    }
}

/// `x` rotated left by 16 bits.
pub open spec fn rotl16(x: u32) -> u32 {
    (x << 16u32) | (x >> 16u32)
}

/// A configured feature hasher: hash function + seed.
#[derive(Copy, Clone, Debug, PartialEq, Eq, Hash, Structural)]
pub struct FeatureHasher {
    pub id: HashId,
    pub seed: u32,
}

impl Default for FeatureHasher {
    fn default() -> (r: Self)
        ensures
            r.id == HashId::Fmix32,
            r.seed == 0x9E37_79B9,
    {
        FeatureHasher { id: HashId::Fmix32, seed: 0x9E37_79B9 }
    }
}

impl FeatureHasher {
    /// The mixed u32 of a packed n-gram key.
    pub open spec fn spec_hash_u64(self, key: u64) -> u32 {
        let lo = key as u32;
        let hi = (key >> 32u64) as u32;
        match self.id {
            HashId::Fmix32 => spec_fmix32(
                (lo ^ self.seed.wrapping_mul(0x85EB_CA6B)) ^ hi.wrapping_mul(0xC2B2_AE35),
            ),
            HashId::Murmur2 => spec_murmurhash2(lo ^ self.seed, self.seed) ^ spec_murmurhash2(
                hi ^ rotl16(self.seed),
                rotl16(self.seed),
            ),
            HashId::MultiplyShift => ((key.wrapping_mul(MS_CONSTANT) >> 32u64) as u32) ^ self.seed,
        }
    }

    /// Mix a packed n-gram key into a u32.
    pub fn hash_u64(&self, key: u64) -> (r: u32)
        ensures
            r == self.spec_hash_u64(key),
    {
        let lo = key as u32;
        let hi = (key >> 32u64) as u32;
        match self.id {
            HashId::Fmix32 => {
                let mut h = lo ^ self.seed.wrapping_mul(0x85EB_CA6B);
                h ^= hi.wrapping_mul(0xC2B2_AE35);
                fmix32(h)
            },
            HashId::Murmur2 => {
                let rot = (self.seed << 16u32) | (self.seed >> 16u32);
                murmurhash2(lo ^ self.seed, self.seed) ^ murmurhash2(hi ^ rot, rot)
            },
            HashId::MultiplyShift => ((key.wrapping_mul(MS_CONSTANT) >> 32u64) as u32) ^ self.seed,
        }
    }

    /// The bucket of a key: the top `log2_d` bits of its hash.
    pub open spec fn spec_bucket(self, key: u64, log2_d: u32) -> u32 {
        self.spec_hash_u64(key) >> ((32 - log2_d) as u32)
    }

    /// The sign of a key: the low bit of its hash.
    pub open spec fn spec_negative(self, key: u64) -> bool {
        self.spec_hash_u64(key) & 1 == 1
    }

    /// Map a packed n-gram key to `(bucket, negative)` where the bucket is in
    /// `0..2^log2_d` (from the high bits) and `negative` is the sign bit for
    /// signed hashing.
    pub fn bucket(&self, key: u64, log2_d: u32) -> (r: (u32, bool))
        requires
            0 < log2_d < 32,
        ensures
            r.0 == self.spec_bucket(key, log2_d),
            r.1 == self.spec_negative(key),
            r.0 < (1u32 << log2_d),
    {
        let h = self.hash_u64(key);
        let shift = 32 - log2_d;
        let bucket = h >> shift;
        proof {
            lemma_high_bits_in_range(h, log2_d);
        }
        (bucket, h & 1 == 1)
    }
}

/// The top `d` bits of a u32 form a number below `2^d`.
pub proof fn lemma_high_bits_in_range(h: u32, d: u32)
    requires
        0 < d < 32,
    ensures
        h >> ((32 - d) as u32) < (1u32 << d),
{
    assert(h >> ((32 - d) as u32) < (1u32 << d)) by (bit_vector)
        requires
            0 < d < 32,
    ;
}

/// The three odd multipliers of the mixers can be undone modulo `2^32`:
/// `0x85EB_CA6B` by `0xA5CB_9243`, `0xC2B2_AE35` by `0x7ED1_B41D`, and
/// murmurhash2's `0x5BD1_E995` by `0xE59B_19BD`.
proof fn lemma_multipliers_invert(x: u32)
    ensures
        x.wrapping_mul(0x85EB_CA6B).wrapping_mul(0xA5CB_9243) == x,
        x.wrapping_mul(0xC2B2_AE35).wrapping_mul(0x7ED1_B41D) == x,
        x.wrapping_mul(0x5BD1_E995).wrapping_mul(0xE59B_19BD) == x,
{
    assert(((x * 0x85EB_CA6Bu32) % 0x1_0000_0000 * 0xA5CB_9243u32) % 0x1_0000_0000 == x && ((x
        * 0xC2B2_AE35u32) % 0x1_0000_0000 * 0x7ED1_B41Du32) % 0x1_0000_0000 == x && ((x
        * 0x5BD1_E995u32) % 0x1_0000_0000 * 0xE59B_19BDu32) % 0x1_0000_0000 == x) by (bit_vector);
    let a = x.wrapping_mul(0x85EB_CA6B);
    let b = x.wrapping_mul(0xC2B2_AE35);
    let c = x.wrapping_mul(0x5BD1_E995);
    assert(a as int == (x * 0x85EB_CA6Bu32) % 0x1_0000_0000);
    assert(b as int == (x * 0xC2B2_AE35u32) % 0x1_0000_0000);
    assert(c as int == (x * 0x5BD1_E995u32) % 0x1_0000_0000);
    assert(a.wrapping_mul(0xA5CB_9243) as int == (a * 0xA5CB_9243u32) % 0x1_0000_0000);
    assert(b.wrapping_mul(0x7ED1_B41D) as int == (b * 0x7ED1_B41Du32) % 0x1_0000_0000);
    assert(c.wrapping_mul(0xE59B_19BD) as int == (c * 0xE59B_19BDu32) % 0x1_0000_0000);
}

/// `x ^ (x >> k)` loses nothing for a shift `0 < k < 32`.
proof fn lemma_xor_shift_injective(a: u32, b: u32, k: u32)
    requires
        0 < k < 32,
        a ^ (a >> k) == b ^ (b >> k),
    ensures
        a == b,
{
    assert(a ^ (a >> k) == b ^ (b >> k) ==> a == b) by (bit_vector)
        requires
            0 < k < 32,
    ;
}

/// XOR with a common value cancels, on either side.
proof fn lemma_xor_cancel(p: u32, q: u32, r: u32)
    ensures
        (p ^ q == p ^ r) == (q == r),
        (q ^ p == r ^ p) == (q == r),
{
    assert((p ^ q == p ^ r) == (q == r) && (q ^ p == r ^ p) == (q == r)) by (bit_vector);
}

/// Two distinct keys differ in their low or their high 32 bits, and keys
/// with equal high words have equal high halves.
proof fn lemma_key_halves(k1: u64, k2: u64)
    ensures
        k1 != k2 ==> k1 as u32 != k2 as u32 || (k1 >> 32u64) as u32 != (k2 >> 32u64) as u32,
        k1 >> 32u64 == k2 >> 32u64 ==> (k1 >> 32u64) as u32 == (k2 >> 32u64) as u32,
{
    assert(k1 != k2 ==> k1 as u32 != k2 as u32 || (k1 >> 32u64) as u32 != (k2 >> 32u64) as u32)
        by (bit_vector);
}

/// The fmix32 finalizer is a bijection of `u32`: distinct inputs mix to
/// distinct outputs.
pub proof fn lemma_fmix32_injective(a: u32, b: u32)
    requires
        a != b,
    ensures
        spec_fmix32(a) != spec_fmix32(b),
{
    let a1 = a ^ (a >> 16u32);
    let b1 = b ^ (b >> 16u32);
    let a2 = a1.wrapping_mul(0x85EB_CA6B);
    let b2 = b1.wrapping_mul(0x85EB_CA6B);
    let a3 = a2 ^ (a2 >> 13u32);
    let b3 = b2 ^ (b2 >> 13u32);
    let a4 = a3.wrapping_mul(0xC2B2_AE35);
    let b4 = b3.wrapping_mul(0xC2B2_AE35);
    if spec_fmix32(a) == spec_fmix32(b) {
        lemma_xor_shift_injective(a4, b4, 16);
        lemma_multipliers_invert(a3);
        lemma_multipliers_invert(b3);
        lemma_xor_shift_injective(a2, b2, 13);
        lemma_multipliers_invert(a1);
        lemma_multipliers_invert(b1);
        lemma_xor_shift_injective(a, b, 16);
    }
}

/// Under the fmix32 hash, two distinct keys that share one 32-bit half
/// never collide: the hash depends on the whole key, high half included
/// (the first char of a packed 3-gram, most of a 4- or 5-gram).
pub proof fn lemma_fmix32_keys_sharing_a_half_differ(h: FeatureHasher, k1: u64, k2: u64)
    requires
        h.id == HashId::Fmix32,
        k1 != k2,
        k1 as u32 == k2 as u32 || k1 >> 32u64 == k2 >> 32u64,
    ensures
        h.spec_hash_u64(k1) != h.spec_hash_u64(k2),
{
    let lo1 = k1 as u32;
    let lo2 = k2 as u32;
    let hi1 = (k1 >> 32u64) as u32;
    let hi2 = (k2 >> 32u64) as u32;
    lemma_key_halves(k1, k2);
    let s = h.seed.wrapping_mul(0x85EB_CA6B);
    let m1 = hi1.wrapping_mul(0xC2B2_AE35);
    let m2 = hi2.wrapping_mul(0xC2B2_AE35);
    lemma_multipliers_invert(hi1);
    lemma_multipliers_invert(hi2);
    let x1 = (lo1 ^ s) ^ m1;
    let x2 = (lo2 ^ s) ^ m2;
    if lo1 == lo2 {
        lemma_xor_cancel(lo1 ^ s, m1, m2);
    } else {
        lemma_xor_cancel(s, lo1, lo2);
        lemma_xor_cancel(m1, lo1 ^ s, lo2 ^ s);
    }
    lemma_fmix32_injective(x1, x2);
}

/// For a fixed seed, murmurhash2 on one u32 is a bijection of the key:
/// distinct keys hash apart.
pub proof fn lemma_murmurhash2_injective(a: u32, b: u32, seed: u32)
    requires
        a != b,
    ensures
        spec_murmurhash2(a, seed) != spec_murmurhash2(b, seed),
{
    let m: u32 = 0x5BD1_E995;
    let a1 = a.wrapping_mul(m);
    let b1 = b.wrapping_mul(m);
    let a2 = a1 ^ (a1 >> 24u32);
    let b2 = b1 ^ (b1 >> 24u32);
    let a3 = a2.wrapping_mul(m);
    let b3 = b2.wrapping_mul(m);
    let h1 = seed.wrapping_mul(m);
    let a4 = h1 ^ a3;
    let b4 = h1 ^ b3;
    let a5 = a4 ^ (a4 >> 13u32);
    let b5 = b4 ^ (b4 >> 13u32);
    let a6 = a5.wrapping_mul(m);
    let b6 = b5.wrapping_mul(m);
    if spec_murmurhash2(a, seed) == spec_murmurhash2(b, seed) {
        lemma_xor_shift_injective(a6, b6, 15);
        lemma_multipliers_invert(a5);
        lemma_multipliers_invert(b5);
        lemma_xor_shift_injective(a4, b4, 13);
        lemma_xor_cancel(h1, a3, b3);
        lemma_multipliers_invert(a2);
        lemma_multipliers_invert(b2);
        lemma_xor_shift_injective(a1, b1, 24);
        lemma_multipliers_invert(a);
        lemma_multipliers_invert(b);
    }
}

/// Under the murmur2 hash too, two distinct keys that share one 32-bit
/// half never collide: each half goes through its own murmurhash2.
pub proof fn lemma_murmur2_keys_sharing_a_half_differ(h: FeatureHasher, k1: u64, k2: u64)
    requires
        h.id == HashId::Murmur2,
        k1 != k2,
        k1 as u32 == k2 as u32 || k1 >> 32u64 == k2 >> 32u64,
    ensures
        h.spec_hash_u64(k1) != h.spec_hash_u64(k2),
{
    let lo1 = k1 as u32;
    let lo2 = k2 as u32;
    let hi1 = (k1 >> 32u64) as u32;
    let hi2 = (k2 >> 32u64) as u32;
    lemma_key_halves(k1, k2);
    let seed = h.seed;
    let rot = rotl16(seed);
    let x1 = lo1 ^ seed;
    let x2 = lo2 ^ seed;
    let y1 = hi1 ^ rot;
    let y2 = hi2 ^ rot;
    lemma_xor_cancel(seed, lo1, lo2);
    lemma_xor_cancel(rot, hi1, hi2);
    let p1 = spec_murmurhash2(x1, seed);
    let p2 = spec_murmurhash2(x2, seed);
    let q1 = spec_murmurhash2(y1, rot);
    let q2 = spec_murmurhash2(y2, rot);
    if x1 != x2 {
        lemma_murmurhash2_injective(x1, x2, seed);
    }
    if y1 != y2 {
        lemma_murmurhash2_injective(y1, y2, rot);
    }
    if p1 == p2 {
        lemma_xor_cancel(p1, q1, q2);
    } else {
        lemma_xor_cancel(q1, p1, p2);
    }
}

} // verus!
