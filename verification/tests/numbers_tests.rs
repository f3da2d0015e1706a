use duckdb_turbovec::params::{parse_usize, IntError};
use duckdb_turbovec::sizing::{auto_detect_dim, effective_probes, group_by_cluster, seed_rows};

#[test]
fn parse_usize_reads_decimal_digits() {
    assert_eq!(parse_usize("4"), Ok(4));
    assert_eq!(parse_usize("+1536"), Ok(1536));
    assert_eq!(parse_usize("007"), Ok(7));
    assert_eq!(parse_usize("18446744073709551615"), Ok(usize::MAX));
}

#[test]
fn parse_usize_errors_match_std() {
    for s in ["", "+", "-", "-5", "12a", " 4", "4 ", "+-1", "1.5", "é"] {
        let ours = parse_usize(s);
        let std = s.parse::<usize>();
        match (ours, std) {
            (Ok(a), Ok(b)) => assert_eq!(a, b),
            (Err(IntError::Empty), Err(e)) => assert_eq!(e.to_string(), "cannot parse integer from empty string"),
            (Err(IntError::InvalidDigit), Err(e)) => assert_eq!(e.to_string(), "invalid digit found in string"),
            (Err(IntError::PosOverflow), Err(e)) => assert_eq!(e.to_string(), "number too large to fit in target type"),
            (a, b) => panic!("{s:?}: {a:?} vs {b:?}"),
        }
    }
    assert_eq!(parse_usize(""), Err(IntError::Empty));
    assert_eq!(parse_usize("-"), Err(IntError::InvalidDigit));
    assert_eq!(parse_usize("18446744073709551616"), Err(IntError::PosOverflow));
    // The overflow comes before the bad digit that follows it.
    assert_eq!(parse_usize("99999999999999999999x"), Err(IntError::PosOverflow));
    assert_eq!("99999999999999999999x".parse::<usize>().unwrap_err().to_string(), "number too large to fit in target type");
}

#[test]
fn auto_detect_dim_tries_candidates_in_order() {
    assert_eq!(auto_detect_dim(1536), Some(1536));
    assert_eq!(auto_detect_dim(3072), Some(1536));
    assert_eq!(auto_detect_dim(2048), Some(1024));
    assert_eq!(auto_detect_dim(16), Some(8));
    assert_eq!(auto_detect_dim(8192 * 3), Some(1536));
    assert_eq!(auto_detect_dim(2048 * 3), Some(1536));
    assert_eq!(auto_detect_dim(8192 + 4096), Some(1536));
    assert_eq!(auto_detect_dim(1024 * 5), Some(1024));
    assert_eq!(auto_detect_dim(0), None);
    assert_eq!(auto_detect_dim(12), None);
    assert_eq!(auto_detect_dim(4), None);
}

#[test]
fn detected_dim_divides_the_count() {
    for total in 0..5000usize {
        if let Some(d) = auto_detect_dim(total) {
            assert_eq!(total % d, 0);
            assert!(d <= total);
        }
    }
}

#[test]
fn seed_rows_spread_over_the_rows() {
    assert_eq!(seed_rows(10, 3), vec![0, 3, 6]);
    assert_eq!(seed_rows(2, 5), vec![0, 1, 1, 1, 1]);
    assert_eq!(seed_rows(1, 1), vec![0]);
}

#[test]
fn group_by_cluster_partitions_rows_in_order() {
    let groups = group_by_cluster(&vec![1, 0, 1, 2, 1], 4);
    assert_eq!(groups, vec![vec![1], vec![0, 2, 4], vec![3], vec![]]);
}

#[test]
fn effective_probes_scans_all_for_zero() {
    assert_eq!(effective_probes(0, 16), 16);
    assert_eq!(effective_probes(usize::MAX, 16), 16);
    assert_eq!(effective_probes(4, 16), 4);
    assert_eq!(effective_probes(40, 16), 16);
}
