use duckdb_turbovec::codec::{decode_idmap, encode_idmap, to_global_row, IvfMeta, MetaError};

fn sample_meta() -> IvfMeta {
    IvfMeta {
        dim: 2,
        bit_width: 4,
        num_lists: 2,
        centroid_bits: vec![1.0f32.to_bits(), 0.5f32.to_bits(), (-2.0f32).to_bits(), 0.0f32.to_bits()],
    }
}

#[test]
fn meta_bytes_layout() {
    let b = sample_meta().to_bytes();
    assert_eq!(b.len(), 24 + 16);
    assert_eq!(&b[0..8], &2usize.to_le_bytes());
    assert_eq!(&b[8..16], &4usize.to_le_bytes());
    assert_eq!(&b[16..24], &2usize.to_le_bytes());
    assert_eq!(&b[24..28], &1.0f32.to_le_bytes());
    assert_eq!(&b[32..36], &(-2.0f32).to_le_bytes());
}

#[test]
fn meta_roundtrip() {
    let m = sample_meta();
    let b = m.to_bytes();
    let back = IvfMeta::from_bytes(&b).unwrap_or_else(|_| panic!("readable"));
    assert_eq!(back.dim, 2);
    assert_eq!(back.bit_width, 4);
    assert_eq!(back.num_lists, 2);
    assert_eq!(back.centroid_bits, m.centroid_bits);
    assert_eq!(back.to_bytes(), b);
}

#[test]
fn meta_ignores_a_trailing_partial_word() {
    let mut b = sample_meta().to_bytes();
    b.extend_from_slice(&[7, 7]);
    let back = IvfMeta::from_bytes(&b).unwrap_or_else(|_| panic!("readable"));
    assert_eq!(back.centroid_bits.len(), 4);
}

#[test]
fn meta_with_wrong_centroid_count_is_refused() {
    let mut m = sample_meta();
    m.centroid_bits.pop();
    let b = m.to_bytes();
    assert!(matches!(IvfMeta::from_bytes(&b), Err(MetaError::CentroidCountMismatch)));
}

#[test]
fn idmap_roundtrip() {
    let ids = vec![0, 7, -1, i32::MAX, i32::MIN];
    let b = encode_idmap(&ids);
    assert_eq!(b.len(), 20);
    assert_eq!(&b[4..8], &7i32.to_le_bytes());
    assert_eq!(decode_idmap(&b), ids);
    let mut longer = b.clone();
    longer.push(1);
    assert_eq!(decode_idmap(&longer), ids);
    assert!(decode_idmap(&[1, 2, 3]).is_empty());
}

#[test]
fn global_row_uses_the_map_where_it_can() {
    let map = vec![10, 20, 30];
    assert_eq!(to_global_row(1, &map), 20);
    assert_eq!(to_global_row(5, &map), 5);
    assert_eq!(to_global_row(usize::MAX, &map), -1);
}
