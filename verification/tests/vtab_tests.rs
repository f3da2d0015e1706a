use duckdb_turbovec::index::{create_index, index_size, IndexError, MAX_INDEX_DIM};
use duckdb_turbovec::results::{cluster_hits, gather_hits, take_chunk, MAX_ROWS_PER_CHUNK};
use duckdb_turbovec::vtabs::{
    BuildInitData, ConcatError, ScoreInitData, IvfBuildError, IvfBuildVTab, IvfSearchVTab, ListError, ParamKind,
    RemoveError, SearchInitData, TurboQuantAddVTab, TurboQuantBuildConcatVTab,
    TurboQuantBuildListVTab, TurboQuantBuildVTab, TurboQuantRemoveVTab, TurboQuantScoreVTab,
    TurboQuantSearchVTab, VectorsError,
};

#[test]
fn parameters_and_arities() {
    assert_eq!(TurboQuantSearchVTab::parameters(), vec![ParamKind::Varchar, ParamKind::Varchar, ParamKind::Integer]);
    assert_eq!(TurboQuantBuildListVTab::parameters(), vec![ParamKind::FloatList, ParamKind::Integer, ParamKind::Varchar]);
    assert_eq!(IvfBuildVTab::parameters().len(), 5);
    assert!(!TurboQuantScoreVTab::has_arguments(1));
    assert!(TurboQuantScoreVTab::has_arguments(2));
    assert!(!TurboQuantBuildConcatVTab::has_arguments(3));
    assert!(TurboQuantRemoveVTab::has_arguments(2));
}

#[test]
fn output_steps_emit_every_row_in_chunks() {
    let mut s = ScoreInitData::new();
    assert_eq!(s.next_batch(3000), (0, MAX_ROWS_PER_CHUNK));
    assert_eq!(s.next_batch(3000), (2048, 952));
    assert_eq!(s.next_batch(3000), (3000, 0));
    let mut q = SearchInitData::new();
    assert_eq!(q.next_batch(5000), (0, 2048));
    assert_eq!(q.next_batch(5000), (2048, 2048));
    assert_eq!(q.next_batch(5000), (4096, 904));
    assert_eq!(q.next_batch(5000), (5000, 0));
    let mut e = SearchInitData::new();
    assert_eq!(e.next_batch(0), (0, 0));
    let mut b = BuildInitData::new();
    assert_eq!(b.next_batch(1), (0, 1));
    assert_eq!(b.next_batch(1), (1, 0));
    let mut offset = 4096;
    assert_eq!(take_chunk(&mut offset, 4096), (4096, 0));
    assert_eq!(offset, 4096);
    let mut offset = 10;
    assert_eq!(take_chunk(&mut offset, 20), (10, 10));
    assert_eq!(offset, 20);
}

#[test]
fn chunks_join_to_all_rows() {
    let rows: Vec<usize> = (0..4100).collect();
    let mut s = ScoreInitData::new();
    let mut joined = Vec::new();
    loop {
        let (start, count) = s.next_batch(rows.len());
        if count == 0 {
            break;
        }
        joined.extend_from_slice(&rows[start..start + count]);
    }
    assert_eq!(joined, rows);
}

#[test]
fn build_plans() {
    let b = TurboQuantBuildVTab::plan("/tmp/x.tv".to_string(), 12, 4).unwrap_or_else(|_| panic!("ok"));
    assert_eq!((b.output_path.as_str(), b.rows), ("/tmp/x.tv", 3));
    assert_eq!(TurboQuantBuildVTab::plan(String::new(), 3, 4).err(), Some(VectorsError::NoVectors));
    let c = TurboQuantBuildConcatVTab::plan(String::new(), 16, 8).unwrap_or_else(|_| panic!("ok"));
    assert_eq!(c.rows, 2);
    assert_eq!(TurboQuantBuildConcatVTab::plan(String::new(), 10, 8).err(), Some(ConcatError::NotDivisible { values: 10, dim: 8 }));
    assert_eq!(TurboQuantBuildConcatVTab::plan(String::new(), 0, 8).err(), Some(ConcatError::NoVectors));
}

#[test]
fn build_list_plans() {
    let b = TurboQuantBuildListVTab::plan("p".to_string(), 16).unwrap_or_else(|_| panic!("ok"));
    assert_eq!((b.rows, b.dim), (2, 8));
    let b = TurboQuantBuildListVTab::plan("p".to_string(), 3072).unwrap_or_else(|_| panic!("ok"));
    assert_eq!((b.rows, b.dim), (2, 1536));
    assert_eq!(TurboQuantBuildListVTab::plan("p".to_string(), 0).err(), Some(ListError::EmptyList));
    assert_eq!(TurboQuantBuildListVTab::plan("p".to_string(), 12).err(), Some(ListError::NoDimension { values: 12 }));
    assert_eq!(TurboQuantBuildListVTab::check_nonempty(0), Err(ListError::EmptyList));
    assert_eq!(TurboQuantBuildListVTab::check_nonempty(1), Ok(()));
}

#[test]
fn add_and_remove_plans() {
    assert_eq!(TurboQuantAddVTab::vectors_to_add(8, 4), Ok(2));
    assert_eq!(TurboQuantAddVTab::vectors_to_add(3, 4), Err(VectorsError::NoVectors));
    let a = TurboQuantAddVTab::report("i".to_string(), 2, 5);
    assert_eq!((a.added, a.total), (2, 7));
    let r = TurboQuantRemoveVTab::plan("i".to_string(), 1, 3).unwrap_or_else(|_| panic!("ok"));
    assert_eq!((r.removed_idx, r.remaining), (1, 2));
    assert_eq!(TurboQuantRemoveVTab::plan("i".to_string(), 3, 3).err(), Some(RemoveError::OutOfRange { target: 3, len: 3 }));
}

#[test]
fn ivf_plans() {
    let p = IvfBuildVTab::plan("d".to_string(), 40, 8, 16).unwrap_or_else(|_| panic!("ok"));
    assert_eq!((p.rows, p.num_lists), (5, 5));
    let p = IvfBuildVTab::plan("d".to_string(), 40, 8, 2).unwrap_or_else(|_| panic!("ok"));
    assert_eq!((p.rows, p.num_lists), (5, 2));
    assert_eq!(IvfBuildVTab::plan("d".to_string(), 4, 8, 2).err(), Some(IvfBuildError::NoVectors));
    assert_eq!(IvfBuildVTab::plan("d".to_string(), 40, 8, 0).err(), Some(IvfBuildError::NoLists));
    assert_eq!(IvfSearchVTab::cluster_result_count(10, 3), 3);
    assert_eq!(TurboQuantSearchVTab::result_count(2, 3), 2);
}

#[test]
fn hits_become_rows() {
    let rows = gather_hits(&vec![2i64, 0, 1, 5], &vec![0.9f32, 0.5, 0.1, 0.0], 1, 3);
    assert_eq!(rows, vec![(2, 0.9), (0, 0.5), (1, 0.1)]);
    let rows = gather_hits(&vec![1i64 << 32 | 3], &vec![1.0f32], 1, 1);
    assert_eq!(rows, vec![(3, 1.0)]);
    let rows = cluster_hits(&vec![1i64, 4], &vec![0.7f32, 0.2], 2, &vec![100, 200]);
    assert_eq!(rows, vec![(200, 0.7), (4, 0.2)]);
}

#[test]
fn index_creation_follows_the_configuration_rules() {
    assert!(create_index(8, 4).is_ok());
    assert!(create_index(1536, 2).is_ok());
    assert!(create_index(8, 5).is_err());
    assert!(create_index(12, 4).is_err());
    assert!(create_index(0, 4).is_err());
    assert!(create_index(16392, 3).is_err());
}

fn refusal_of(dim: usize, bit_width: usize) -> String {
    match create_index(dim, bit_width) {
        Ok(_) => "ok".to_string(),
        Err(IndexError::BitWidthOutOfRange(b)) => format!("bit width {b}"),
        Err(IndexError::DimNotPositiveMultipleOf8(d)) => format!("dim {d}"),
        Err(IndexError::DimTooLarge { dim, max }) => format!("too large {dim} {max}"),
        Err(IndexError::Other(_)) => "other".to_string(),
    }
}

#[test]
fn index_refusals_name_their_reason_in_order() {
    assert_eq!(refusal_of(12, 5), "bit width 5");
    assert_eq!(refusal_of(0, 1), "bit width 1");
    assert_eq!(refusal_of(12, 4), "dim 12");
    assert_eq!(refusal_of(0, 2), "dim 0");
    assert_eq!(refusal_of(16392, 3), format!("too large 16392 {MAX_INDEX_DIM}"));
    assert_eq!(refusal_of(16384, 3), "ok");
}

#[test]
fn created_index_is_empty_with_its_configuration() {
    let idx = create_index(16, 3).ok().unwrap();
    assert_eq!(index_size(&idx), 0);
    assert_eq!(idx.dim_opt(), Some(16));
    assert_eq!(idx.bit_width(), 3);
}

#[test]
fn removal_moves_the_last_vector_and_shrinks_the_index() {
    let mut idx = create_index(8, 4).ok().unwrap();
    let values: Vec<f32> = (0..24).map(|i| (i as f32) * 0.25 - 2.0).collect();
    idx.add(&values);
    assert_eq!(index_size(&idx), 3);
    let r = TurboQuantRemoveVTab::remove(&mut idx, "i.tv".to_string(), 0).unwrap_or_else(|_| panic!("ok"));
    assert_eq!((r.output_path.as_str(), r.removed_idx, r.remaining), ("i.tv", 0, 2));
    assert_eq!(index_size(&idx), 2);
    assert_eq!(idx.dim_opt(), Some(8));
    assert_eq!(TurboQuantRemoveVTab::remove(&mut idx, "i.tv".to_string(), 2).err(), Some(RemoveError::OutOfRange { target: 2, len: 2 }));
    assert_eq!(index_size(&idx), 2);
}

fn unit(axis: usize) -> Vec<f32> {
    let mut v = vec![0.0f32; 8];
    v[axis] = 1.0;
    v
}

#[test]
fn removal_puts_the_last_vector_in_the_freed_slot() {
    let mut idx = create_index(8, 4).ok().unwrap();
    let values: Vec<f32> = [unit(0), unit(3), unit(6)].concat();
    idx.add(&values);
    assert_eq!(idx.search(&unit(6), 1).indices, vec![2]);
    TurboQuantRemoveVTab::remove(&mut idx, "i.tv".to_string(), 0).unwrap_or_else(|_| panic!("ok"));
    assert_eq!(idx.search(&unit(6), 1).indices, vec![0]);
    assert_eq!(idx.search(&unit(3), 1).indices, vec![1]);
}

#[test]
fn removal_from_an_empty_index_is_refused() {
    let mut idx = create_index(8, 2).ok().unwrap();
    assert_eq!(TurboQuantRemoveVTab::remove(&mut idx, "e.tv".to_string(), 0).err(), Some(RemoveError::OutOfRange { target: 0, len: 0 }));
    assert_eq!(index_size(&idx), 0);
}

#[test]
fn add_report_counts_what_the_index_held() {
    let mut idx = create_index(8, 4).ok().unwrap();
    idx.add(&vec![0.5f32; 16]);
    let a = TurboQuantAddVTab::report_for("i.tv".to_string(), 3, &idx).unwrap();
    assert_eq!((a.output_path.as_str(), a.added, a.total), ("i.tv", 3, 5));
    assert!(TurboQuantAddVTab::report_for("i.tv".to_string(), usize::MAX, &idx).is_none());
}
