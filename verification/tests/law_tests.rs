use duckdb_turbovec::codec::{decode_idmap, encode_idmap, to_global_row};
use duckdb_turbovec::sizing::group_by_cluster;
use duckdb_turbovec::text::{read_vectors_text, VectorsText};

fn row_tokens(raw: &str) -> Vec<Vec<String>> {
    match read_vectors_text(raw) {
        Ok(VectorsText::Rows(rows)) => rows
            .into_iter()
            .map(|row| row.into_iter().map(|it| it.token).collect())
            .collect(),
        _ => panic!("expected rows"),
    }
}

#[test]
fn joined_lists_read_as_the_nested_list() {
    let joined = "[1.0, 0.0, 0.0, 0.0],[0.0, 1.0, 0.0, 0.0],[0.0, 0.0, 1.0, 0.0]";
    let nested = format!("[{joined}]");
    assert_eq!(row_tokens(joined), row_tokens(&nested));
    assert_eq!(row_tokens(joined).len(), 3);
}

#[test]
fn every_row_lands_in_its_cluster_only() {
    let assign = vec![2, 0, 0, 1, 2, 2, 1];
    let groups = group_by_cluster(&assign, 3);
    for (i, c) in assign.iter().enumerate() {
        for (g, members) in groups.iter().enumerate() {
            assert_eq!(members.contains(&i), g == *c);
        }
    }
    assert_eq!(groups.iter().map(|g| g.len()).sum::<usize>(), assign.len());
}

#[test]
fn cluster_positions_map_back_to_global_rows() {
    let assign = vec![1, 0, 1, 1, 0];
    let groups = group_by_cluster(&assign, 2);
    for members in &groups {
        let ids: Vec<i32> = members.iter().map(|r| *r as i32).collect();
        let map = decode_idmap(&encode_idmap(&ids));
        for (local, row) in members.iter().enumerate() {
            assert_eq!(to_global_row(local, &map), *row as i32);
        }
    }
}
