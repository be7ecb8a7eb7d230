use excel_network::client_models::{ColumnConfig, ColumnProps};
use excel_network::models::{Column, ColumnValue, Date, Row};
use excel_network::session::{
    all_cell_edits, basic_columns, collapsed_members, edit_start_value, edit_toggle, edits_of_cell,
    extra_primary_headers, imported_primary_changes, initial_input, input_row, merged_primary_cells, patch_rows, pending_edit,
    plan_column_saves, primary_row_columns, rows_for_save, rows_to_delete, save_tasks, CancelStep, ColumnIdentity, EditState,
    SheetEdits,
};

fn num(x: f64) -> ColumnValue<String> {
    ColumnValue::Float(x.to_bits())
}

fn cell(v: ColumnValue<String>) -> Column<String> {
    Column { is_basic: true, value: v }
}

fn computed(v: ColumnValue<String>) -> Column<String> {
    Column { is_basic: false, value: v }
}

fn row(id: u128, cells: Vec<(&str, Column<String>)>) -> Row<u128, String> {
    Row { id, columns: cells.into_iter().map(|(h, c)| (h.to_string(), c)).collect() }
}

fn edit(id: u128, h: &str, x: f64) -> ColumnIdentity {
    ColumnIdentity { row_id: id, header: h.to_string(), value: num(x) }
}

#[test]
fn new_edits_have_nothing_changed_and_revert_clears() {
    let mut e = SheetEdits::new();
    assert!(!e.has_anything_changed());
    e.sheet_name = "n".to_string();
    assert!(e.has_anything_changed());
    e.revert_all_edits();
    assert!(!e.has_anything_changed());
    e.modified_columns.push(edit(1, "a", 1.0));
    assert!(e.has_anything_changed());
    e.revert_all_edits();
    assert!(!e.has_anything_changed());
}

#[test]
fn deleting_a_row_toggles_its_mark() {
    let collapsed = vec![(10u128, vec![1u128, 2])];
    let mut e = SheetEdits::new();
    e.delete_row(5, &collapsed);
    assert_eq!(e.expanded_deleted_rows, vec![5]);
    e.delete_row(10, &collapsed);
    assert_eq!(e.collapsed_deleted_rows, vec![10]);
    e.delete_row(5, &collapsed);
    assert!(e.expanded_deleted_rows.is_empty());
    assert_eq!(collapsed_members(&collapsed, 10), Some(&vec![1u128, 2]));
    assert_eq!(collapsed_members(&collapsed, 1), None);
}

#[test]
fn rows_to_delete_expand_collapsed_marks() {
    let collapsed_ids = vec![(10u128, vec![1u128, 2]), (11u128, vec![3u128])];
    let mut res = rows_to_delete(&vec![2u128, 7], &vec![10u128], &collapsed_ids);
    res.sort();
    assert_eq!(res, vec![1, 2, 7]);
    assert!(rows_to_delete(&vec![], &vec![], &collapsed_ids).is_empty());
}

#[test]
fn removing_row_edits_before_marking() {
    let collapsed = vec![];
    let mut e = SheetEdits::new();
    e.modified_columns = vec![edit(1, "a", 1.0), edit(2, "a", 2.0), edit(1, "b", 3.0)];
    e.remove_row_edits(1, &collapsed);
    assert_eq!(e.modified_columns, vec![edit(2, "a", 2.0)]);
    assert!(e.expanded_deleted_rows.is_empty());
    e.remove_row_edits(1, &collapsed);
    assert_eq!(e.expanded_deleted_rows, vec![1]);
}

#[test]
fn deleting_primary_columns() {
    let mut e = SheetEdits::new();
    e.modified_primary_columns = vec![("a".to_string(), cell(num(1.0)))];
    e.delete_primary_column(&"a".to_string());
    assert!(e.modified_primary_columns.is_empty());
    assert!(e.deleted_primary_columns.is_empty());
    e.delete_primary_column(&"b".to_string());
    assert_eq!(e.deleted_primary_columns, vec!["b".to_string()]);
    e.delete_primary_column(&"b".to_string());
    assert!(e.deleted_primary_columns.is_empty());
    e.delete_primary_column(&String::new());
    assert!(e.deleted_primary_columns.is_empty());
}

#[test]
fn saved_rows_keep_basic_cells_and_primary_edits() {
    let rows = vec![
        row(1, vec![("a", cell(num(1.0))), ("sum", computed(num(2.0)))]),
        row(9, vec![("p", cell(num(5.0)))]),
    ];
    assert_eq!(primary_row_columns(&rows, 9), vec![("p".to_string(), cell(num(5.0)))]);
    assert!(primary_row_columns(&rows, 8).is_empty());
    assert_eq!(
        basic_columns(rows[0].columns.clone()),
        vec![("a".to_string(), cell(num(1.0)))]
    );
    let saved = rows_for_save(rows, 9, vec![("p".to_string(), cell(num(6.0))), ("q".to_string(), cell(num(7.0)))]);
    assert_eq!(saved[0], row(1, vec![("a", cell(num(1.0)))]));
    assert_eq!(saved[1], row(9, vec![("p", cell(num(6.0))), ("q", cell(num(7.0)))]));
}

#[test]
fn column_saves_split_updates_and_inserts() {
    let rows = vec![row(1, vec![("a", cell(num(1.0)))]), row(2, vec![("a", cell(num(1.0)))])];
    let modified = vec![edit(1, "a", 5.0), edit(2, "b", 6.0), edit(1, "b", 7.0), edit(3, "a", 8.0)];
    let primary_cols = vec![("p".to_string(), cell(num(0.0)))];
    let modified_primary = vec![("p".to_string(), cell(num(1.0))), ("q".to_string(), cell(num(2.0)))];
    let (updates, inserts) = plan_column_saves(&modified, &modified_primary, &primary_cols, &rows, 9);
    assert_eq!(updates, vec![edit(1, "a", 5.0), edit(9, "p", 1.0)]);
    assert_eq!(inserts, vec![edit(2, "b", 6.0), edit(9, "q", 2.0)]);
    assert_eq!(
        all_cell_edits(&modified, &modified_primary, 9),
        vec![edit(1, "a", 5.0), edit(2, "b", 6.0), edit(1, "b", 7.0), edit(3, "a", 8.0), edit(9, "p", 1.0), edit(9, "q", 2.0)]
    );
}

#[test]
fn patched_rows_drop_deleted_and_apply_first_edit() {
    let rows = vec![row(1, vec![("a", cell(num(1.0)))]), row(2, vec![("a", cell(num(2.0)))])];
    let added = vec![row(3, vec![("a", cell(num(3.0)))])];
    let edits = vec![edit(1, "a", 10.0), edit(1, "a", 11.0), edit(3, "a", 30.0)];
    let res = patch_rows(rows, added, &vec![2u128], &edits);
    assert_eq!(res, vec![row(1, vec![("a", cell(num(10.0)))]), row(3, vec![("a", cell(num(30.0)))])]);
}

#[test]
fn extra_headers_of_the_primary_row() {
    let modified = vec![("x".to_string(), cell(num(1.0))), ("p".to_string(), cell(num(1.0)))];
    let existing = vec![("y".to_string(), cell(num(1.0))), ("x".to_string(), cell(num(1.0)))];
    let primary_headers = vec!["p".to_string()];
    assert_eq!(
        extra_primary_headers(&modified, &existing, &primary_headers),
        vec!["x".to_string(), "y".to_string()]
    );
}

#[test]
fn imported_primary_cells_that_change_values() {
    let old = vec![
        ("a".to_string(), cell(num(1.0))),
        ("z".to_string(), cell(num(0.0))),
        ("n".to_string(), cell(ColumnValue::Float(f64::NAN.to_bits()))),
        ("t".to_string(), cell(ColumnValue::String("x".to_string()))),
    ];
    let imported = vec![
        ("a".to_string(), cell(num(2.0))),
        ("z".to_string(), cell(num(-0.0))),
        ("n".to_string(), cell(ColumnValue::Float(f64::NAN.to_bits()))),
        ("t".to_string(), cell(ColumnValue::String("x".to_string()))),
        ("new".to_string(), cell(num(5.0))),
    ];
    assert_eq!(
        imported_primary_changes(imported, &old),
        vec![("a".to_string(), cell(num(2.0))), ("n".to_string(), cell(ColumnValue::Float(f64::NAN.to_bits())))]
    );
}

#[test]
fn cell_edits_of_collapsed_rows_reach_every_member() {
    let collapsed = vec![(10u128, vec![1u128, 2]), (11u128, vec![])];
    let h = "a".to_string();
    assert_eq!(edits_of_cell(&collapsed, 10, &h, &num(4.0)), vec![edit(1, "a", 4.0), edit(2, "a", 4.0)]);
    assert_eq!(edits_of_cell(&collapsed, 5, &h, &num(4.0)), vec![edit(5, "a", 4.0)]);
    assert!(edits_of_cell(&collapsed, 11, &h, &num(4.0)).is_empty());
    let modified = vec![edit(2, "a", 9.0), edit(1, "a", 8.0), edit(1, "a", 7.0), edit(5, "b", 1.0)];
    assert_eq!(pending_edit(&modified, &collapsed, 10, &h), Some(num(8.0)));
    assert_eq!(pending_edit(&modified, &collapsed, 2, &h), Some(num(9.0)));
    assert_eq!(pending_edit(&modified, &collapsed, 5, &h), None);
    assert_eq!(pending_edit(&modified, &collapsed, 5, &"b".to_string()), Some(num(1.0)));
}

#[test]
fn saves_worth_making() {
    let none: Vec<ColumnIdentity> = vec![];
    let t = save_tasks(&"x".to_string(), &"x".to_string(), &vec![], &vec![], &none, &none, &vec![]);
    assert!(!t.rename && !t.delete_rows && !t.add_rows && !t.update_columns && !t.save_columns && !t.delete_columns);
    let t = save_tasks(&"y".to_string(), &"x".to_string(), &vec![1], &vec![row(1, vec![])], &vec![edit(1, "a", 1.0)], &none, &vec!["h".to_string()]);
    assert!(t.rename && t.delete_rows && t.add_rows && t.update_columns && !t.save_columns && t.delete_columns);
    assert!(!save_tasks(&String::new(), &"x".to_string(), &vec![], &vec![], &none, &none, &vec![]).rename);
}

#[test]
fn edits_start_from_the_cell_or_a_placeholder() {
    let today = Date { year: 2024, month: 5, day: 5 };
    let props = ColumnProps { header: "h".to_string(), is_completable: false };
    let c = cell(num(3.0));
    assert_eq!(edit_start_value(Some(&c), None, today), num(3.0));
    assert_eq!(edit_start_value(None, Some(&ColumnConfig::String(props.clone())), today), ColumnValue::String("empty".to_string()));
    assert_eq!(edit_start_value(None, Some(&ColumnConfig::Float(props.clone())), today), ColumnValue::Float(0));
    assert_eq!(edit_start_value(None, Some(&ColumnConfig::Date(props)), today), ColumnValue::Date(today));
    assert_eq!(edit_start_value(None, None, today), ColumnValue::String("EMPTY".to_string()));
}

#[test]
fn edit_button_flips_mode_and_asks_before_dropping_edits() {
    assert_eq!(edit_toggle(false, false), (true, CancelStep::Revert));
    assert_eq!(edit_toggle(true, true), (false, CancelStep::Confirm));
}

#[test]
fn input_rows_hold_entered_then_calculated_cells() {
    let today = Date { year: 2024, month: 2, day: 3 };
    let props = ColumnProps { header: "h".to_string(), is_completable: true };
    assert_eq!(initial_input(&ColumnConfig::String(props.clone()), today), ColumnValue::String(String::new()));
    assert_eq!(initial_input(&ColumnConfig::Float(props.clone()), today), ColumnValue::Float(0));
    assert_eq!(initial_input(&ColumnConfig::Date(props), today), ColumnValue::Date(today));
    let r = input_row(
        3,
        vec![("a".to_string(), num(1.0)), ("b".to_string(), ColumnValue::Date(today))],
        vec![("total".to_string(), 2.0f64.to_bits()), ("a".to_string(), 5.0f64.to_bits())],
    );
    assert_eq!(r.id, 3);
    assert_eq!(
        r.columns,
        vec![
            ("a".to_string(), computed(num(5.0))),
            ("b".to_string(), cell(ColumnValue::Date(today))),
            ("total".to_string(), computed(num(2.0))),
        ]
    );
}

#[test]
fn edited_primary_cells_show_over_the_old_ones() {
    let old = vec![("a".to_string(), cell(num(1.0))), ("b".to_string(), cell(num(2.0)))];
    let edited = vec![("b".to_string(), cell(num(3.0))), ("c".to_string(), cell(num(4.0)))];
    assert_eq!(
        merged_primary_cells(&old, &edited),
        vec![("a".to_string(), cell(num(1.0))), ("b".to_string(), cell(num(3.0))), ("c".to_string(), cell(num(4.0)))]
    );
}

#[test]
fn reverting_ends_editing() {
    let mut e = SheetEdits::new();
    assert_eq!(e.edit_mode, EditState::NoEdit);
    e.edit_mode = EditState::Primary;
    e.delete_row(4, &vec![]);
    assert_eq!(e.edit_mode, EditState::Primary);
    e.revert_all_edits();
    assert_eq!(e.edit_mode, EditState::NoEdit);
    assert!(!e.has_anything_changed());
}
