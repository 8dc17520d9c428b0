use spellman::batch::{check_gather_range, chunk_row, chunk_schedule, pick_rung, plan_ladder, push_signed_indices};
use spellman::features::{orders_fit, token_keys, FeatureConfig};
use spellman::hash::{FeatureHasher, HashId};

#[test]
fn plan_ladder_rungs() {
    assert_eq!(plan_ladder(0), vec![1]);
    assert_eq!(plan_ladder(1), vec![1]);
    assert_eq!(plan_ladder(64), vec![64]);
    assert_eq!(plan_ladder(65), vec![64, 65]);
    assert_eq!(plan_ladder(256), vec![64, 256]);
    assert_eq!(plan_ladder(1024), vec![64, 256, 1024]);
}

#[test]
fn pick_rung_takes_smallest_fitting_budget() {
    let ladder = plan_ladder(1024);
    assert_eq!(pick_rung(&ladder, 0), 0);
    assert_eq!(pick_rung(&ladder, 64), 0);
    assert_eq!(pick_rung(&ladder, 65), 1);
    assert_eq!(pick_rung(&ladder, 257), 2);
    assert_eq!(pick_rung(&ladder, 1024), 2);
    // Longer than every rung: the top rung (the row is chunked).
    assert_eq!(pick_rung(&ladder, 5000), 2);
}

#[test]
fn chunk_schedule_first_chunks_then_tails() {
    let sched = chunk_schedule(&[3, 10, 0, 4], 4);
    assert_eq!(
        sched,
        vec![(0, 0), (1, 0), (2, 0), (3, 0), (1, 4), (1, 8)]
    );
    // Every row fits: one chunk per row.
    assert_eq!(chunk_schedule(&[1, 2], 8), vec![(0, 0), (1, 0)]);
    assert_eq!(chunk_schedule(&[], 8), vec![]);
}

#[test]
fn chunks_tile_each_row_exactly_once() {
    let lens = [0usize, 1, 7, 8, 9, 23];
    let k = 4;
    let sched = chunk_schedule(&lens, k);
    for (row, &len) in lens.iter().enumerate() {
        for pos in 0..len {
            let covering = sched
                .iter()
                .filter(|&&(r, s)| r == row && s <= pos && pos < s + k)
                .count();
            assert_eq!(covering, 1, "row {row} position {pos}");
        }
    }
}

#[test]
fn chunk_row_copies_then_pads() {
    let ids = [5, 6, 7, 8, 9];
    assert_eq!(chunk_row(&ids, 0, 3, -1), vec![5, 6, 7]);
    assert_eq!(chunk_row(&ids, 3, 4, -1), vec![8, 9, -1, -1]);
    assert_eq!(chunk_row(&ids, 5, 2, 0), vec![0, 0]);
    assert_eq!(chunk_row(&ids, 0, 0, 0), Vec::<i32>::new());
}

#[test]
fn signed_indices_shift_negative_tokens_by_d_plus_one() {
    let hasher = FeatureHasher {
        id: HashId::Fmix32,
        seed: 0x9E37_79B9,
    };
    let log2_d = 12;
    let d = 1u32 << log2_d;
    let mut saw = [false, false];
    for key in 0u64..200 {
        let (bucket, neg) = hasher.bucket(key, log2_d);
        let idx = hasher.signed_index(key, log2_d);
        if neg {
            assert_eq!(idx, (bucket + d + 1) as i32);
        } else {
            assert_eq!(idx, bucket as i32);
        }
        assert!(idx >= 0 && idx <= (2 * d + 1) as i32);
        saw[neg as usize] = true;
    }
    assert_eq!(saw, [true, true]);
}

#[test]
fn push_signed_indices_appends_one_row_per_token() {
    let cfg = FeatureConfig { n_min: 1, n_max: 3 };
    let hasher = FeatureHasher {
        id: HashId::Murmur2,
        seed: 7,
    };
    let text = "привет мир hello";
    assert!(orders_fit(text, &cfg));
    let keys = token_keys(text, &cfg);
    let mut out = vec![-7, -8];
    push_signed_indices(text, &cfg, &hasher, 10, &mut out);
    assert_eq!(out.len(), 2 + keys.len());
    assert_eq!(&out[..2], &[-7, -8]);
    for (i, &key) in keys.iter().enumerate() {
        assert_eq!(out[2 + i], hasher.signed_index(key, 10));
    }
}

#[test]
fn gather_range_stops_below_thirty() {
    assert_eq!(check_gather_range(1), Ok(()));
    assert_eq!(check_gather_range(29), Ok(()));
    assert_eq!(check_gather_range(30), Err(30));
    assert_eq!(check_gather_range(31), Err(31));
}
