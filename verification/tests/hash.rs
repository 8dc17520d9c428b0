use spellman::hash::{fmix32, murmurhash2, FeatureHasher, HashId};

fn buckets_of(hasher: &FeatureHasher, keys: &[u64], log2_d: u32) -> Vec<u32> {
    keys.iter().map(|k| hasher.bucket(*k, log2_d).0).collect()
}

#[test]
fn fmix32_reference_values() {
    // fmix32 of 0 is a fixed point of the final xorshift; spot-check the
    // chain against a hand-rolled computation.
    assert_eq!(fmix32(0), 0);
    let h = fmix32(1);
    let mut x = 1u32;
    x ^= x >> 16;
    x = x.wrapping_mul(0x85EB_CA6B);
    x ^= x >> 13;
    x = x.wrapping_mul(0xC2B2_AE35);
    x ^= x >> 16;
    assert_eq!(h, x);
    assert_ne!(fmix32(1), fmix32(2));
}

#[test]
fn murmur2_matches_whichlang() {
    // Bit-for-bit parity with whichlang's murmurhash2 on u32 inputs.
    assert_eq!(murmurhash2(0, 0x9E37_79B9), murmurhash2(0, 0x9E37_79B9));
    assert_eq!(murmurhash2(0xDEADBEEF, 42), {
        // Independent reference implementation.
        const M: u32 = 0x5BD1_E995;
        let mut k = 0xDEADBEEFu32.wrapping_mul(M);
        k ^= k >> 24;
        k = k.wrapping_mul(M);
        let mut h = 42u32.wrapping_mul(M);
        h ^= k;
        h ^= h >> 13;
        h = h.wrapping_mul(M);
        h ^ (h >> 15)
    });
}

#[test]
fn buckets_in_range_and_deterministic() {
    let hasher = FeatureHasher::default();
    let keys: Vec<u64> = (0..10_000u64).map(|i| i.wrapping_mul(0x9E37_79B9_7F4A_7C15)).collect();
    for log2_d in [12u32, 16, 17, 20] {
        for &b in &buckets_of(&hasher, &keys, log2_d) {
            assert!(b < (1 << log2_d));
        }
    }
    // Determinism: same key, same bucket.
    assert_eq!(buckets_of(&hasher, &keys, 17), buckets_of(&hasher, &keys, 17));
    // Seeds change the assignment.
    let other = FeatureHasher { id: HashId::Fmix32, seed: 7 };
    assert_ne!(buckets_of(&hasher, &keys, 17), buckets_of(&other, &keys, 17));
}

#[test]
fn bucket_and_sign_bits_are_disjoint() {
    let hasher = FeatureHasher::default();
    for key in 0..1000u64 {
        let (bucket, _) = hasher.bucket(key, 17);
        assert!(bucket < (1 << 17));
    }
}

#[test]
fn spread_is_reasonably_uniform() {
    // With 2^17 buckets and 200k distinct keys the most-collided bucket
    // should stay well below 12 hits (mean ~1.5 under uniformity).
    let hasher = FeatureHasher::default();
    let log2_d = 17u32;
    let mut counts = vec![0u32; 1 << log2_d];
    for i in 0..200_000u64 {
        let (b, _) = hasher.bucket(i.wrapping_mul(11400714819323198485), log2_d);
        counts[b as usize] += 1;
    }
    let max = counts.iter().copied().max().unwrap();
    assert!(max < 12, "max bucket occupancy {max} too skewed");
}

#[test]
fn hash_ids_round_trip() {
    for id in HashId::ALL {
        assert_eq!(HashId::from_id(id.id()), Some(id));
        let parsed: HashId = id.id().parse().unwrap();
        assert_eq!(parsed, id);
    }
    assert_eq!(HashId::from_id("fmix32"), Some(HashId::Fmix32));
    assert_eq!(HashId::from_id("FMIX32"), None);
    assert!("sha1".parse::<HashId>().is_err());
}
