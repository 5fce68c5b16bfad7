use drainer::naming::{get_drainer_stream_name, get_stream_key_flag};

#[test]
fn stream_name_is_prefix_shard_and_number() {
    assert_eq!(get_drainer_stream_name("drainer", 0), "drainer_shard_0");
    assert_eq!(get_drainer_stream_name("drainer", 3), "drainer_shard_3");
    assert_eq!(get_drainer_stream_name("drainer", 9), "drainer_shard_9");
    assert_eq!(get_drainer_stream_name("drainer", 10), "drainer_shard_10");
    assert_eq!(get_drainer_stream_name("drainer", 42), "drainer_shard_42");
    assert_eq!(get_drainer_stream_name("drainer", 99), "drainer_shard_99");
    assert_eq!(get_drainer_stream_name("drainer", 100), "drainer_shard_100");
    assert_eq!(get_drainer_stream_name("drainer", 109), "drainer_shard_109");
    assert_eq!(get_drainer_stream_name("drainer", 255), "drainer_shard_255");
}

#[test]
fn stream_name_agrees_with_decimal_formatting() {
    for index in 0..=255u8 {
        assert_eq!(
            get_drainer_stream_name("ns", index),
            format!("ns_shard_{}", index)
        );
    }
}

#[test]
fn lock_key_is_stream_name_and_in_use() {
    assert_eq!(get_stream_key_flag("drainer", 3), "drainer_shard_3_in_use");
    assert_eq!(get_stream_key_flag("drainer", 0), "drainer_shard_0_in_use");
    assert_eq!(get_stream_key_flag("drainer", 255), "drainer_shard_255_in_use");
    for index in 0..=255u8 {
        assert_eq!(
            get_stream_key_flag("ns", index),
            format!("{}_in_use", get_drainer_stream_name("ns", index))
        );
    }
}

#[test]
fn empty_prefix_is_kept_empty() {
    assert_eq!(get_drainer_stream_name("", 7), "_shard_7");
    assert_eq!(get_stream_key_flag("", 7), "_shard_7_in_use");
}

#[test]
fn prefix_outside_ascii_is_kept() {
    assert_eq!(get_drainer_stream_name("häfen", 12), "häfen_shard_12");
}

#[test]
fn different_shards_have_different_names_and_keys() {
    for a in 0..=255u8 {
        for b in 0..=255u8 {
            if a != b {
                assert_ne!(
                    get_drainer_stream_name("p", a),
                    get_drainer_stream_name("p", b)
                );
                assert_ne!(get_stream_key_flag("p", a), get_stream_key_flag("p", b));
            }
        }
    }
}
