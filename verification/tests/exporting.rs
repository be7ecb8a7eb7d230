use excel_network::export::{layout_sheet, LayoutCell};
use excel_network::models::{Column, ColumnValue, Date, Row, Sheet};
use excel_network::export::export_file_name;

fn num(x: f64) -> ColumnValue<String> {
    ColumnValue::Float(x.to_bits())
}

fn text(s: &str) -> ColumnValue<String> {
    ColumnValue::String(s.to_string())
}

fn row(id: u128, cells: Vec<(&str, ColumnValue<String>)>) -> Row<u128, String> {
    Row {
        id,
        columns: cells.into_iter().map(|(h, v)| (h.to_string(), Column { is_basic: true, value: v })).collect(),
    }
}

fn at(row: u32, col: u16, value: ColumnValue<String>) -> LayoutCell {
    LayoutCell { row, col, value }
}

fn sheet(rows: Vec<Row<u128, String>>) -> Sheet<u128, String> {
    Sheet {
        id: 7,
        sheet_name: "s".to_string(),
        sheet_type_name: "t".to_string(),
        insert_date: Date { year: 2024, month: 1, day: 2 },
        rows,
    }
}

#[test]
fn layout_places_primary_cells_headers_and_rows() {
    let s = sheet(vec![
        row(1, vec![("b", num(2.0)), ("a", text("x"))]),
        row(7, vec![("total", num(9.0))]),
        row(2, vec![("a", text("y"))]),
    ]);
    let headers = vec!["a".to_string(), "b".to_string()];
    let l = layout_sheet(&s, &headers);
    assert_eq!(l.primary_rows, 1);
    assert_eq!(l.header_row, 2);
    assert_eq!(l.data_rows, 3);
    assert_eq!(
        l.cells,
        vec![
            at(0, 1, text("total")),
            at(0, 3, num(9.0)),
            at(2, 0, text("a")),
            at(2, 1, text("b")),
            at(3, 0, text("x")),
            at(3, 1, num(2.0)),
            at(5, 0, text("y")),
        ]
    );
}

#[test]
fn layout_without_primary_row_or_headers() {
    let s = sheet(vec![row(1, vec![("a", text("x"))])]);
    let l = layout_sheet(&s, &[]);
    assert_eq!(l.primary_rows, 0);
    assert_eq!(l.header_row, 1);
    assert_eq!(l.data_rows, 0);
    assert!(l.cells.is_empty());
}

#[test]
fn export_file_name_names_type_sheet_and_date() {
    assert_eq!(
        export_file_name(&"مبيعات".to_string(), &"s1".to_string(), &"2024-01-02".to_string()),
        "_شيت_مبيعات_--_باسم_s1_--_بتاريخ_2024-01-02.xlsx"
    );
}
