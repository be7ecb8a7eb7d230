use excel_network::edits::{contains_id, edit_column_range, position_of_row, toggle_id, without_id};
use excel_network::models::{Column, ColumnValue, Row};
use excel_network::collapse::ids_of;
use excel_network::edits::without_row;

fn num(x: f64) -> ColumnValue<String> {
    ColumnValue::Float(x.to_bits())
}

fn rows(n: u128) -> Vec<Row<u128, String>> {
    (0..n)
        .map(|i| Row { id: i, columns: vec![("k".to_string(), Column { is_basic: true, value: num(i as f64) })] })
        .collect()
}

fn value_of(r: &Row<u128, String>, h: &str) -> Option<ColumnValue<String>> {
    r.columns.iter().find(|(k, _)| k == h).map(|(_, c)| c.value.clone())
}

fn edited_ids(rs: &[Row<u128, String>]) -> Vec<u128> {
    let mut ids: Vec<u128> = rs.iter().filter(|r| value_of(r, "v").is_some()).map(|r| r.id).collect();
    ids.sort();
    ids
}

fn run(top: Option<usize>, down: Option<usize>) -> Vec<Row<u128, String>> {
    let mut rs = rows(6);
    edit_column_range(&mut rs, 2, &"v".to_string(), &num(7.0), top, down, &["k".to_string()]);
    assert_eq!(ids_of(&rs), vec![0, 1, 2, 3, 4, 5]);
    rs
}

#[test]
fn edit_reaches_the_rows_of_the_range() {
    assert_eq!(edited_ids(&run(None, None)), vec![2]);
    assert_eq!(edited_ids(&run(Some(1), None)), vec![1, 2]);
    assert_eq!(edited_ids(&run(Some(5), None)), vec![0, 1, 2]);
    assert_eq!(edited_ids(&run(None, Some(2))), vec![2, 3]);
    assert_eq!(edited_ids(&run(Some(0), Some(2))), vec![2, 3, 4]);
    assert_eq!(edited_ids(&run(Some(1), Some(1))), vec![1, 2, 3]);
    assert_eq!(edited_ids(&run(None, Some(6))), vec![2, 3, 4, 5]);
    let rs = run(None, None);
    assert_eq!(value_of(&rs[2], "v"), Some(num(7.0)));
    assert!(rs[2].columns.iter().all(|(_, c)| c.is_basic));
}

#[test]
fn edit_of_a_missing_row_only_sorts() {
    let mut rs = rows(3);
    rs.reverse();
    edit_column_range(&mut rs, 99, &"v".to_string(), &num(1.0), None, None, &["k".to_string()]);
    assert_eq!(ids_of(&rs), vec![0, 1, 2]);
    assert!(edited_ids(&rs).is_empty());
}

#[test]
fn edited_rows_go_after_the_others_before_sorting() {
    // all rows compare equal under a header nobody has: the order is that of
    // the rows left in place followed by the edited rows, last first
    let mut rs = rows(5);
    edit_column_range(&mut rs, 1, &"v".to_string(), &num(1.0), Some(1), Some(1), &["none".to_string()]);
    assert_eq!(ids_of(&rs), vec![3, 4, 2, 1, 0]);
}

#[test]
fn row_positions_and_marks() {
    let rs = rows(3);
    assert_eq!(position_of_row(&rs, 2), Some(2));
    assert_eq!(position_of_row(&rs, 5), None);
    let mut ids = vec![1u128, 2, 1];
    assert!(contains_id(&ids, 2));
    assert_eq!(without_id(&ids, 1), vec![2]);
    toggle_id(&mut ids, 1);
    assert_eq!(ids, vec![2]);
    toggle_id(&mut ids, 3);
    assert_eq!(ids, vec![2, 3]);
    toggle_id(&mut ids, 3);
    assert_eq!(ids, vec![2]);
}

#[test]
fn rows_without_an_identifier() {
    let rs = without_row(rows(4), 2);
    assert_eq!(ids_of(&rs), vec![0, 1, 3]);
    assert_eq!(ids_of(&without_row(rows(2), 7)), vec![0, 1]);
}
