use excel_network::client_models::{ColumnConfig, ColumnProps, ConfigValue, HeaderGetter, Operation, OperationConfig, OperationKind, ValueType};
use excel_network::headers::merge_primary_row_headers;
use excel_network::ids::{id_from_text, new_id};
use excel_network::models::{copy_columns, find_column, set_column, Column, ColumnId, ColumnValue, Date, Name, Row, Sheet, ToSerial};

fn cell(v: ColumnValue<String>) -> Column<String> {
    Column { is_basic: true, value: v }
}

#[test]
fn merge_pads_the_shorter_list() {
    let p = vec!["a".to_string(), "b".to_string(), "c".to_string()];
    let n = vec!["x".to_string()];
    let merged = merge_primary_row_headers(&p, &n);
    assert_eq!(
        merged,
        vec![
            ("a".to_string(), "x".to_string()),
            ("b".to_string(), "".to_string()),
            ("c".to_string(), "".to_string())
        ]
    );
    let merged = merge_primary_row_headers(&n, &p);
    assert_eq!(merged.len(), 3);
    assert_eq!(merged[2], ("".to_string(), "c".to_string()));
    assert!(merge_primary_row_headers(&[], &[]).is_empty());
}

#[test]
fn get_header_of_configs() {
    let c = ColumnConfig::Date(ColumnProps { header: "التاريخ".to_string(), is_completable: false });
    assert_eq!(c.get_header(), "التاريخ");
    let v = ConfigValue::Calculated(OperationConfig {
        header: "total".to_string(),
        value: Operation { op: OperationKind::Add, lhs: ValueType::Variable("a".to_string()), rhs: ValueType::Const(1.0f64.to_bits()) },
    });
    assert_eq!(v.get_header(), "total");
    let b = ConfigValue::Basic(ColumnConfig::Float(ColumnProps { header: "n".to_string(), is_completable: true }));
    assert_eq!(b.get_header(), "n");
}

#[test]
fn uuid_to_serial_is_hyphenated_lowercase() {
    let id: u128 = 0x67e5504410b1426f9247bb680e5fe0c8;
    assert_eq!(id.to_serial(), "67e55044-10b1-426f-9247-bb680e5fe0c8");
    assert_eq!(id.to_serial(), uuid::Uuid::from_u128(id).to_string());
    assert_eq!(0u128.to_serial(), "00000000-0000-0000-0000-000000000000");
}

#[test]
fn serial_forms_replace_only_ids() {
    let cid = ColumnId { sheet_id: 1u128, row_id: 2u128, header: "h".to_string() };
    let s = cid.to_serial();
    assert_eq!(s.sheet_id, "00000000-0000-0000-0000-000000000001");
    assert_eq!(s.row_id, "00000000-0000-0000-0000-000000000002");
    assert_eq!(s.header, "h");
    let name = Name { id: 255u128, the_name: "n".to_string() }.to_serial();
    assert_eq!(name.id, "00000000-0000-0000-0000-0000000000ff");
    let sheet = Sheet {
        id: 16u128,
        sheet_name: "s".to_string(),
        sheet_type_name: "t".to_string(),
        insert_date: Date { year: 2024, month: 2, day: 29 },
        rows: vec![Row { id: 17u128, columns: vec![("a".to_string(), cell(ColumnValue::Float(1)))] }],
    }
    .to_serial();
    assert_eq!(sheet.id, "00000000-0000-0000-0000-000000000010");
    assert_eq!(sheet.rows[0].id, "00000000-0000-0000-0000-000000000011");
    assert_eq!(sheet.rows[0].columns, vec![("a".to_string(), cell(ColumnValue::Float(1)))]);
}

#[test]
fn new_ids_are_version_four() {
    let a = new_id();
    let b = new_id();
    assert_ne!(a, b);
    let u = uuid::Uuid::from_u128(a);
    assert_eq!(u.get_version_num(), 4);
    assert_eq!((a >> 62) & 3, 2);
}

#[test]
fn set_column_replaces_or_appends() {
    let mut cols = vec![("a".to_string(), cell(ColumnValue::Float(1)))];
    set_column(&mut cols, "b".to_string(), cell(ColumnValue::Float(2)));
    set_column(&mut cols, "a".to_string(), cell(ColumnValue::Float(3)));
    assert_eq!(cols, vec![("a".to_string(), cell(ColumnValue::Float(3))), ("b".to_string(), cell(ColumnValue::Float(2)))]);
    assert_eq!(find_column(&cols, &"b".to_string()), Some(1));
    assert_eq!(find_column(&cols, &"c".to_string()), None);
    assert_eq!(copy_columns(&cols), cols);
}

#[test]
fn a_set_cell_reads_back_and_others_stay() {
    let mut cols = vec![("a".to_string(), cell(ColumnValue::Float(1))), ("b".to_string(), cell(ColumnValue::Float(2)))];
    set_column(&mut cols, "a".to_string(), cell(ColumnValue::Float(9)));
    let a = find_column(&cols, &"a".to_string()).unwrap();
    let b = find_column(&cols, &"b".to_string()).unwrap();
    assert_eq!(cols[a].1, cell(ColumnValue::Float(9)));
    assert_eq!(cols[b].1, cell(ColumnValue::Float(2)));
}

#[test]
fn serial_ids_read_back() {
    let cid = ColumnId { sheet_id: 0x67e5504410b1426f9247bb680e5fe0c8u128, row_id: u128::MAX, header: "h".to_string() };
    let s = cid.clone().to_serial();
    assert_eq!(id_from_text(&s.sheet_id), Some(cid.sheet_id));
    assert_eq!(id_from_text(&s.row_id), Some(u128::MAX));
    assert_eq!(id_from_text(&"00000000-0000-0000-0000-000000000000".to_string()), Some(0));
    assert_eq!(id_from_text(&"67E55044-10b1-426f-9247-bb680e5fe0c8".to_string()), Some(cid.sheet_id));
    assert_eq!(id_from_text(&"67e5504410b1426f9247bb680e5fe0c8".to_string()), Some(cid.sheet_id));
    assert_eq!(id_from_text(&"67e55044-10b1-426f-9247-bb680e5fe0c".to_string()), None);
    assert_eq!(id_from_text(&"67e55044x10b1-426f-9247-bb680e5fe0c8".to_string()), None);
    assert_eq!(id_from_text(&"67e55044-10b1-426f-9247-bb680e5fe0g8".to_string()), None);
}
