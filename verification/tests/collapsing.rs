use excel_network::client_models::IdentityDiffsOps;
use excel_network::collapse::{
    collapse_groups, collapsed_cells, finish_collapse, ids_of, nth_value, split_repeated, stack_rows,
};
use excel_network::models::{Column, ColumnValue, Row};

fn num(x: f64) -> ColumnValue<String> {
    ColumnValue::Float(x.to_bits())
}

fn row(id: u128, cells: Vec<(&str, ColumnValue<String>)>) -> Row<u128, String> {
    Row {
        id,
        columns: cells.into_iter().map(|(h, v)| (h.to_string(), Column { is_basic: true, value: v })).collect(),
    }
}

#[test]
fn split_keeps_repeated_keys_and_unique_rows_in_order() {
    let items = vec![
        ("a".to_string(), 1),
        ("b".to_string(), 2),
        ("a".to_string(), 3),
        ("c".to_string(), 4),
        ("b".to_string(), 5),
        ("d".to_string(), 6),
    ];
    let (repeated, unique) = split_repeated(items);
    assert_eq!(
        repeated,
        vec![("a".to_string(), 1), ("b".to_string(), 2), ("a".to_string(), 3), ("b".to_string(), 5)]
    );
    assert_eq!(unique, vec![4, 6]);
    assert_eq!(repeated.len() + unique.len(), 6);
    let (r, u) = split_repeated(Vec::<(String, u8)>::new());
    assert!(r.is_empty() && u.is_empty());
}

#[test]
fn stack_groups_rows_by_key() {
    let items = vec![
        ("a".to_string(), 1),
        ("b".to_string(), 2),
        ("a".to_string(), 3),
        ("b".to_string(), 4),
        ("a".to_string(), 5),
    ];
    let mut groups = stack_rows(items);
    groups.sort();
    assert_eq!(groups, vec![vec![1, 3, 5], vec![2, 4]]);
    assert!(stack_rows(Vec::<(String, u8)>::new()).is_empty());
}

#[test]
fn nth_value_counts_rows_having_the_header() {
    let rows = vec![
        row(1, vec![("x", num(1.0))]),
        row(2, vec![("y", num(9.0))]),
        row(3, vec![("x", num(3.0))]),
    ];
    let x = "x".to_string();
    assert_eq!(nth_value(&rows, &x, 0), Some(num(1.0)));
    assert_eq!(nth_value(&rows, &x, 1), Some(num(3.0)));
    assert_eq!(nth_value(&rows, &x, 2), None);
    assert_eq!(nth_value(&rows, &"z".to_string(), 0), None);
}

#[test]
fn collapse_result_sorts_collapsed_then_appends_unique() {
    let collapsed = vec![row(1, vec![("k", num(5.0))]), row(2, vec![("k", num(2.0))])];
    let unique = vec![row(3, vec![("k", num(1.0))])];
    let res = finish_collapse(collapsed, unique, &["k".to_string()]);
    assert_eq!(ids_of(&res), vec![2, 1, 3]);
}

#[test]
fn stacking_keeps_every_row_once() {
    let items: Vec<(String, u32)> = (0..10u32).map(|i| (format!("k{}", i % 3), i)).collect();
    let groups = stack_rows(items);
    assert_eq!(groups.len(), 3);
    let mut all: Vec<u32> = groups.iter().flatten().cloned().collect();
    all.sort();
    assert_eq!(all, (0..10u32).collect::<Vec<_>>());
}

#[test]
fn collapsed_rows_take_the_rules_values_and_fresh_ids() {
    let rules = vec![
        ("x".to_string(), IdentityDiffsOps::Nth(0)),
        ("y".to_string(), IdentityDiffsOps::Sum),
        ("x".to_string(), IdentityDiffsOps::Nth(1)),
    ];
    let cells = collapsed_cells(&rules, vec![Some(num(1.0)), None, Some(num(3.0))]);
    assert_eq!(cells, vec![("x".to_string(), Column { is_basic: true, value: num(3.0) })]);

    let groups = vec![vec![row(1, vec![("k", num(9.0))]), row(2, vec![])], vec![row(3, vec![])]];
    let columns = vec![
        vec![("k".to_string(), Column { is_basic: true, value: num(5.0) })],
        vec![("k".to_string(), Column { is_basic: true, value: num(2.0) })],
    ];
    let unique = vec![row(7, vec![("k", num(0.0))])];
    let (shown, members) = collapse_groups(groups, columns, unique, &["k".to_string()]);
    assert_eq!(members.len(), 2);
    assert_eq!(members[0].1, vec![1, 2]);
    assert_eq!(members[1].1, vec![3]);
    assert_eq!(uuid::Uuid::from_u128(members[0].0).get_version_num(), 4);
    assert_eq!(ids_of(&shown), vec![members[1].0, members[0].0, 7]);
}
