use aurora_chain::db::block_key;
use aurora_chain::text::{push_decimal, push_json_byte_array, push_json_string};

#[test]
fn block_key_is_the_big_endian_index() {
    assert_eq!(block_key(0), vec![0, 0, 0, 0, 0, 0, 0, 0]);
    assert_eq!(block_key(1), vec![0, 0, 0, 0, 0, 0, 0, 1]);
    assert_eq!(block_key(256), vec![0, 0, 0, 0, 0, 0, 1, 0]);
    assert_eq!(block_key(0x0102030405060708), vec![1, 2, 3, 4, 5, 6, 7, 8]);
    assert_eq!(block_key(u64::MAX), vec![255; 8]);
    for i in [7u64, 255, 65535, 65536, 1 << 40, u64::MAX - 1] {
        assert_eq!(block_key(i), i.to_be_bytes().to_vec());
    }
}

#[test]
fn block_keys_sort_as_indices_do() {
    let indices = [0u64, 1, 2, 255, 256, 257, 65535, 65536, 1 << 32, u64::MAX - 1, u64::MAX];
    for w in indices.windows(2) {
        assert!(block_key(w[0]) < block_key(w[1]));
    }
}

#[test]
fn json_strings_agree_with_serde_json() {
    let mut samples: Vec<String> = (0u8..128).map(|b| (b as char).to_string()).collect();
    samples.push("name with \"quotes\" and \\ and \n é ü 漢 \u{7f}\u{80}".to_string());
    samples.push(String::new());
    for s in samples {
        let mut out = Vec::new();
        push_json_string(&mut out, s.as_bytes());
        assert_eq!(String::from_utf8(out).unwrap(), serde_json::to_string(&s).unwrap());
    }
}

#[test]
fn json_numbers_agree_with_serde_json() {
    for n in [0u64, 9, 10, 99, 100, 12345678901234567890, u64::MAX] {
        let mut out = Vec::new();
        push_decimal(&mut out, n);
        assert_eq!(String::from_utf8(out).unwrap(), serde_json::to_string(&n).unwrap());
    }
    let all: Vec<u8> = (0u8..=255).collect();
    for bytes in [vec![], vec![0u8], all] {
        let mut out = Vec::new();
        push_json_byte_array(&mut out, &bytes);
        assert_eq!(String::from_utf8(out).unwrap(), serde_json::to_string(&bytes).unwrap());
    }
}
