use core::cmp::Ordering;
use zset_engine::fixed_binary::{BinaryDecodeError, FixedByteArray};
use zset_engine::rows::{compare, hash, hash_vectors, weighted_vector_count, zset_of_vectors_to_strings,
    zset_to_rows, zset_to_strings, DataRows, RowEntry, RowZSet, SortOrder, VecRowEntry, VecRowZSet};

fn row(cols: &[&str]) -> Vec<String> {
    cols.iter().map(|c| c.to_string()).collect()
}

#[test]
fn compare_is_lexicographic_then_by_length() {
    assert_eq!(compare(&row(&["a"]), &row(&["b"])), Ordering::Less);
    assert_eq!(compare(&row(&["b", "a"]), &row(&["a", "b"])), Ordering::Greater);
    assert_eq!(compare(&row(&["a", "b"]), &row(&["a"])), Ordering::Greater);
    assert_eq!(compare(&row(&["a"]), &row(&["a", "x"])), Ordering::Less);
    assert_eq!(compare(&row(&["a", "b"]), &row(&["a", "b"])), Ordering::Equal);
    assert_eq!(compare(&row(&[]), &row(&[])), Ordering::Equal);
}

#[test]
fn zset_to_rows_expands_weights() {
    let set = RowZSet {
        entries: vec![
            RowEntry { cols: row(&["x", "1"]), weight: 2 },
            RowEntry { cols: row(&["y", "2"]), weight: 0 },
            RowEntry { cols: row(&["z", "3"]), weight: 1 },
        ],
    };
    let rows = zset_to_rows(&set);
    assert_eq!(rows, vec![row(&["x", "1"]), row(&["x", "1"]), row(&["z", "3"])]);
}

#[test]
fn data_rows_row_mode_sorts_rows() {
    let mut d = DataRows::new(SortOrder::ROW);
    d.push(row(&["b"]));
    d.push(row(&["a"]));
    d.push(row(&["b"]));
    assert_eq!(d.get(), vec![row(&["a"]), row(&["b"]), row(&["b"])]);
}

#[test]
fn data_rows_value_mode_splits_columns() {
    let mut d = DataRows::new(SortOrder::VALUE);
    d.push(row(&["c", "a"]));
    d.push(row(&["b"]));
    assert_eq!(d.get(), vec![row(&["a"]), row(&["b"]), row(&["c"])]);
}

#[test]
fn data_rows_none_mode_keeps_order() {
    let mut d = DataRows::new(SortOrder::NONE);
    d.push(row(&["b"]));
    d.push(row(&["a"]));
    assert_eq!(d.get(), vec![row(&["b"]), row(&["a"])]);
}

#[test]
fn zset_to_strings_sorts_expanded_rows() {
    let set = RowZSet {
        entries: vec![
            RowEntry { cols: row(&["b"]), weight: 1 },
            RowEntry { cols: row(&["a"]), weight: 2 },
        ],
    };
    let table = zset_to_strings(&set, SortOrder::ROW);
    assert_eq!(table, vec![row(&["a"]), row(&["a"]), row(&["b"])]);
}

#[test]
fn zset_of_vectors_flattens_entries() {
    let set = VecRowZSet {
        entries: vec![
            VecRowEntry { rows: vec![row(&["b"]), row(&["a"])], weight: 1 },
        ],
    };
    let table = zset_of_vectors_to_strings(&set, SortOrder::ROW);
    assert_eq!(table, vec![row(&["a"]), row(&["b"])]);
    let table = zset_of_vectors_to_strings(&set, SortOrder::NONE);
    assert_eq!(table, vec![row(&["b"]), row(&["a"])]);
}

#[test]
fn hash_is_stable_under_entry_order() {
    let a = RowZSet {
        entries: vec![
            RowEntry { cols: row(&["x"]), weight: 1 },
            RowEntry { cols: row(&["y"]), weight: 1 },
        ],
    };
    let b = RowZSet {
        entries: vec![
            RowEntry { cols: row(&["y"]), weight: 1 },
            RowEntry { cols: row(&["x"]), weight: 1 },
        ],
    };
    let ha = hash(&a, SortOrder::ROW);
    let hb = hash(&b, SortOrder::ROW);
    assert_eq!(ha, hb);
    assert_eq!(ha.len(), 32);
    assert!(ha.chars().all(|c| c.is_ascii_hexdigit()));
    // a different table digests differently
    let c = RowZSet { entries: vec![RowEntry { cols: row(&["x"]), weight: 1 }] };
    assert_ne!(hash(&c, SortOrder::ROW), ha);
}

#[test]
fn hash_matches_known_digest() {
    // the digest text of this one-row table is "abcdefghijklmnopqrstuvwxyz\n"
    let set = RowZSet {
        entries: vec![RowEntry { cols: row(&["abcdefghijklmnopqrstuvwxyz"]), weight: 1 }],
    };
    let h = hash(&set, SortOrder::ROW);
    let digest = md5::compute("abcdefghijklmnopqrstuvwxyz\n");
    assert_eq!(h, format!("{:x}", digest));
}

#[test]
fn hash_vectors_digests_per_entry_blocks() {
    let set = VecRowZSet {
        entries: vec![
            VecRowEntry { rows: vec![row(&["b"]), row(&["a"])], weight: 1 },
        ],
    };
    let h = hash_vectors(&set, SortOrder::ROW);
    let digest = md5::compute("a\nb\n");
    assert_eq!(h, format!("{:x}", digest));
}

#[test]
fn weighted_vector_count_sums_len_times_weight() {
    let set = VecRowZSet {
        entries: vec![
            VecRowEntry { rows: vec![row(&["a"]), row(&["b"])], weight: 3 },
            VecRowEntry { rows: vec![row(&["c"])], weight: -2 },
        ],
    };
    assert_eq!(weighted_vector_count(&set), 4);
}

#[test]
fn fixed_byte_array_words_and_bytes() {
    let fb = FixedByteArray::new([1, 2, 3, 4]);
    assert_eq!(fb.as_slice(), &[1, 2, 3, 4]);
    assert_eq!(fb.length(), 32);
    let bytes = fb.to_byte_array();
    assert_eq!(bytes.len(), 32);
    assert_eq!(bytes[0], 1);
    assert_eq!(bytes[8], 2);
    let back = FixedByteArray::from_bytes(&bytes);
    assert_eq!(back.as_slice(), fb.as_slice());
}

#[test]
fn fixed_byte_array_from_bytes_little_endian() {
    let mut bytes = vec![0u8; 32];
    for i in 0..8 {
        bytes[i] = i as u8;
    }
    let fb = FixedByteArray::from_bytes(&bytes);
    assert_eq!(fb.as_slice()[0], 0x0706050403020100);
    assert_eq!(fb.as_slice()[1], 0);
}

#[test]
fn fixed_byte_array_bitwise_ops() {
    let a = FixedByteArray::new([0b1100, 0, 0, u64::MAX]);
    let b = FixedByteArray::new([0b1010, 1, 0, 0]);
    assert_eq!(a.and(&b).as_slice(), &[0b1000, 0, 0, 0]);
    assert_eq!(a.or(&b).as_slice(), &[0b1110, 1, 0, u64::MAX]);
    assert_eq!(a.xor(&b).as_slice(), &[0b0110, 1, 0, u64::MAX]);
    let z = FixedByteArray::zero(32);
    assert_eq!(z.as_slice(), &[0, 0, 0, 0]);
    let v = FixedByteArray::from_vec(vec![9, 8, 7, 6, 5]);
    assert_eq!(v.as_slice(), &[9, 8, 7, 6]);
}

#[test]
fn fixed_byte_array_zip_applies_pointwise() {
    let a = FixedByteArray::new([1, 2, 3, 4]);
    let b = FixedByteArray::new([10, 20, 30, 40]);
    let r = a.zip(&b, |x, y| x + y);
    assert_eq!(r.as_slice(), &[11, 22, 33, 44]);
}

#[test]
fn from_base64_round_trips() {
    let mut bytes = vec![0u8; 32];
    for i in 0..32 {
        bytes[i] = i as u8;
    }
    let text = base64::Engine::encode(&base64::prelude::BASE64_STANDARD, &bytes);
    let fb = FixedByteArray::from_base64(&text).unwrap();
    assert_eq!(fb.to_byte_array(), bytes);
}

#[test]
fn from_base64_rejects_bad_input() {
    assert_eq!(FixedByteArray::from_base64("!!!not base64!!!"),
        Err(BinaryDecodeError::InvalidBase64));
    let text = base64::Engine::encode(&base64::prelude::BASE64_STANDARD, &[1u8, 2, 3]);
    assert_eq!(FixedByteArray::from_base64(&text), Err(BinaryDecodeError::WrongLength));
}
