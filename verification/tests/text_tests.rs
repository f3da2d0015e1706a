use duckdb_turbovec::rows::{assemble_rows, RowsError};
use duckdb_turbovec::text::{list_items, read_vectors_text, ListItem, VectorsText, VectorsTextError};

fn pieces(items: &[ListItem]) -> Vec<&str> {
    items.iter().map(|it| it.piece.as_str()).collect()
}

fn tokens(items: &[ListItem]) -> Vec<&str> {
    items.iter().map(|it| it.token.as_str()).collect()
}

#[test]
fn list_items_splits_on_commas_and_trims_tokens() {
    let items = list_items("[1.0, 2.0 ,3]");
    assert_eq!(pieces(&items), vec!["1.0", " 2.0 ", "3"]);
    assert_eq!(tokens(&items), vec!["1.0", "2.0", "3"]);
}

#[test]
fn list_items_of_empty_lists() {
    assert!(list_items("[]").is_empty());
    assert!(list_items("   ").is_empty());
    assert!(list_items("[[]]").is_empty());
}

#[test]
fn list_items_strips_every_outer_bracket() {
    let items = list_items("  [[1,2]] ");
    assert_eq!(pieces(&items), vec!["1", "2"]);
}

#[test]
fn list_items_without_brackets() {
    let items = list_items("1,,2");
    assert_eq!(pieces(&items), vec!["1", "", "2"]);
}

#[test]
fn list_items_trims_unicode_white_space() {
    let items = list_items("\u{3000}[\u{a0}0.5\u{2028}]\t");
    assert_eq!(pieces(&items), vec!["\u{a0}0.5\u{2028}"]);
    assert_eq!(tokens(&items), vec!["0.5"]);
}

fn rows_of(r: Result<VectorsText, VectorsTextError>) -> Vec<Vec<String>> {
    match r {
        Ok(VectorsText::Rows(rows)) => rows
            .into_iter()
            .map(|row| row.into_iter().map(|it| it.token).collect())
            .collect(),
        _ => panic!("expected rows"),
    }
}

#[test]
fn nested_lists_read_as_rows() {
    let rows = rows_of(read_vectors_text("[[1, 2], [3, 4]]"));
    assert_eq!(rows, vec![vec!["1", "2"], vec!["3", "4"]]);
}

#[test]
fn comma_separated_lists_read_as_rows() {
    let rows = rows_of(read_vectors_text("[1.0, 0.0],[0.0, 1.0]"));
    assert_eq!(rows, vec![vec!["1.0", "0.0"], vec!["0.0", "1.0"]]);
    let rows = rows_of(read_vectors_text(" [5] \t, [6]"));
    assert_eq!(rows, vec![vec!["5"], vec!["6"]]);
}

#[test]
fn single_list_reads_flat() {
    match read_vectors_text(" [0.1, 0.2] ") {
        Ok(VectorsText::Flat(items)) => assert_eq!(tokens(&items), vec!["0.1", "0.2"]),
        _ => panic!("expected a flat list"),
    }
    match read_vectors_text("[1] [2]") {
        Ok(VectorsText::Flat(items)) => assert_eq!(tokens(&items), vec!["1] [2"]),
        _ => panic!("expected a flat list"),
    }
}

#[test]
fn text_without_bracket_is_refused() {
    assert!(matches!(read_vectors_text("1,2,3"), Err(VectorsTextError::NotAList)));
    assert!(matches!(read_vectors_text(""), Err(VectorsTextError::NotAList)));
}

#[test]
fn nested_scan_keeps_inner_brackets_and_text_between_rows() {
    // Text after a closed row is gathered until the next row opens.
    let rows = rows_of(read_vectors_text("[[1],x[2,[3]]]"));
    // Only the outermost brackets of a row are stripped from its text.
    assert_eq!(rows, vec![vec!["1"], vec!["2", "[3"]]);
    // An empty inner list is a row with no items.
    let rows = rows_of(read_vectors_text("[[]]"));
    assert_eq!(rows, vec![Vec::<String>::new()]);
}

#[test]
fn assemble_rows_joins_rows_of_the_right_length() {
    let rows: Vec<Result<Vec<u32>, String>> = vec![Ok(vec![1, 2]), Ok(vec![3, 4])];
    match assemble_rows(rows, 2) {
        Ok(v) => assert_eq!(v, vec![1, 2, 3, 4]),
        Err(_) => panic!("expected values"),
    }
}

#[test]
fn assemble_rows_reports_the_first_failure() {
    let rows: Vec<Result<Vec<u32>, String>> =
        vec![Ok(vec![1, 2]), Ok(vec![3]), Err("bad".to_string())];
    match assemble_rows(rows, 2) {
        Err(RowsError::DimMismatch { expected, got }) => {
            assert_eq!(expected, 2);
            assert_eq!(got, 1);
        }
        _ => panic!("expected a dimension mismatch"),
    }
    let rows: Vec<Result<Vec<u32>, String>> =
        vec![Ok(vec![1, 2]), Err("bad".to_string()), Ok(vec![3])];
    match assemble_rows(rows, 2) {
        Err(RowsError::Item(e)) => assert_eq!(e, "bad"),
        _ => panic!("expected the row's own error"),
    }
}

#[test]
fn assemble_rows_of_no_rows_is_empty() {
    let rows: Vec<Result<Vec<u32>, String>> = Vec::new();
    match assemble_rows(rows, 3) {
        Ok(v) => assert!(v.is_empty()),
        Err(_) => panic!("expected no values"),
    }
}
