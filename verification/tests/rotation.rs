use drainer::rotation::increment_stream_index;

#[test]
fn last_shard_wraps_to_first() {
    assert_eq!(increment_stream_index(4, 5), 0);
    assert_eq!(increment_stream_index(0, 1), 0);
    assert_eq!(increment_stream_index(254, 255), 0);
}

#[test]
fn inner_shard_moves_up_by_one() {
    assert_eq!(increment_stream_index(0, 5), 1);
    assert_eq!(increment_stream_index(3, 5), 4);
    assert_eq!(increment_stream_index(253, 255), 254);
}

#[test]
fn index_outside_the_rotation_wraps_into_it() {
    assert_eq!(increment_stream_index(5, 3), 0);
    assert_eq!(increment_stream_index(7, 5), 3);
    assert_eq!(increment_stream_index(5, 5), 1);
    assert_eq!(increment_stream_index(255, 255), 1);
    assert_eq!(increment_stream_index(255, 1), 0);
    assert_eq!(increment_stream_index(255, 7), 4);
}

#[test]
fn successor_is_always_a_shard() {
    for total in 1..=255u8 {
        for index in 0..=255u8 {
            let next = increment_stream_index(index, total);
            assert!(next < total);
            assert_eq!(next as u16, (index as u16 + 1) % total as u16);
        }
    }
}

#[test]
fn full_cycle_returns_to_start_and_not_before() {
    for total in 1..=20u8 {
        for start in 0..total {
            let mut index = start;
            for step in 1..=total {
                index = increment_stream_index(index, total);
                if step < total {
                    assert_ne!(index, start);
                }
            }
            assert_eq!(index, start);
        }
    }
}

#[test]
fn full_cycle_visits_every_shard_once() {
    let total = 7u8;
    let mut seen = vec![0u32; total as usize];
    let mut index = 3u8;
    for _ in 0..total {
        seen[index as usize] += 1;
        index = increment_stream_index(index, total);
    }
    assert_eq!(seen, vec![1u32; total as usize]);
}

#[test]
fn successor_is_index_plus_one_modulo_total() {
    for total in 1..=255u8 {
        for index in 0..total {
            let expected = ((index as u16 + 1) % total as u16) as u8;
            assert_eq!(increment_stream_index(index, total), expected);
        }
    }
}

#[test]
fn successor_is_injective_within_a_rotation() {
    let total = 11u8;
    for a in 0..total {
        for b in 0..total {
            if a != b {
                assert_ne!(
                    increment_stream_index(a, total),
                    increment_stream_index(b, total)
                );
            }
        }
    }
}
