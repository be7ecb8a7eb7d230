use excel_network::client_models::ImportConfig;
use excel_network::import::{column_from_value, date_of_text, import_rows, value_from_text};
use excel_network::json::{get_main_json_entry, Json};
use excel_network::models::{Column, ColumnValue, Date};
use excel_network::import::{date_text, edited_value};

fn text(s: &str) -> Json {
    Json::String { text: s.to_string(), number: s.parse::<f64>().ok().map(f64::to_bits) }
}

fn num(x: f64) -> Json {
    Json::Number(x.to_bits())
}

fn obj(fields: Vec<(&str, Json)>) -> Json {
    Json::Object(fields.into_iter().map(|(k, v)| (k.to_string(), v)).collect())
}

fn path(p: &[&str]) -> Vec<String> {
    p.iter().map(|s| s.to_string()).collect()
}

fn entries(e: &[(&str, &[&str])]) -> Vec<(String, Vec<String>)> {
    e.iter().map(|(h, p)| (h.to_string(), path(p))).collect()
}

fn basic(v: ColumnValue<String>) -> Column<String> {
    Column { is_basic: true, value: v }
}

#[test]
fn main_entry_follows_member_names() {
    let doc = obj(vec![("a", obj(vec![("b", num(5.0))])), ("c", Json::Bool(true))]);
    assert_eq!(get_main_json_entry(&doc, &path(&["a", "b"])), Some(&num(5.0)));
    assert_eq!(get_main_json_entry(&doc, &path(&[])), Some(&doc));
    assert_eq!(get_main_json_entry(&doc, &path(&["a", "x"])), None);
    assert_eq!(get_main_json_entry(&doc, &path(&["c", "b"])), None);
    let list = Json::Array(vec![num(1.0)]);
    assert_eq!(get_main_json_entry(&list, &path(&["0"])), None);
}

#[test]
fn cells_from_json_values() {
    assert_eq!(column_from_value(&num(2.5)), basic(ColumnValue::Float(2.5f64.to_bits())));
    assert_eq!(column_from_value(&text("12.5")), basic(ColumnValue::Float(12.5f64.to_bits())));
    assert_eq!(
        column_from_value(&text("2024-01-15T10:30:00")),
        basic(ColumnValue::Date(Date { year: 2024, month: 1, day: 15 }))
    );
    assert_eq!(column_from_value(&text("hello")), basic(ColumnValue::String("hello".to_string())));
    assert_eq!(column_from_value(&Json::Null), basic(ColumnValue::String(String::new())));
    assert_eq!(column_from_value(&Json::Bool(true)), basic(ColumnValue::String(String::new())));
    assert_eq!(column_from_value(&Json::Array(vec![])), basic(ColumnValue::String(String::new())));
}

#[test]
fn dates_are_read_from_the_first_ten_bytes() {
    assert_eq!(date_of_text(&"2023-12-31".to_string()), Some(Date { year: 2023, month: 12, day: 31 }));
    assert_eq!(date_of_text(&"2023-12-31 23:59".to_string()), Some(Date { year: 2023, month: 12, day: 31 }));
    assert_eq!(date_of_text(&"2023-02-30".to_string()), None);
    assert_eq!(date_of_text(&"2023-12-3".to_string()), None);
    // the tenth byte falls inside a two-byte character
    assert_eq!(date_of_text(&"123456789ب".to_string()), None);
    assert_eq!(column_from_value(&text("123456789ب")), basic(ColumnValue::String("123456789ب".to_string())));
}

#[test]
fn text_values_prefer_number_then_date() {
    let d = Date { year: 2020, month: 5, day: 6 };
    let s = "x".to_string();
    assert_eq!(value_from_text(&s, Some(7), Some(d)), ColumnValue::Float(7));
    assert_eq!(value_from_text(&s, None, Some(d)), ColumnValue::Date(d));
    assert_eq!(value_from_text(&s, None, None), ColumnValue::String("x".to_string()));
}

fn config() -> ImportConfig {
    ImportConfig {
        main_entry: path(&["doc"]),
        repeated_entry: path(&["items"]),
        unique: entries(&[("name", &["name"]), ("q", &["default_q"])]),
        repeated: entries(&[("q", &["q"]), ("date", &["when"])]),
        primary: entries(&[("total", &["total"]), ("missing", &["nowhere"])]),
    }
}

#[test]
fn import_makes_one_row_per_item_and_the_primary_row() {
    let main = obj(vec![
        ("name", text("store")),
        ("default_q", num(0.0)),
        ("items", Json::Array(vec![
            obj(vec![("q", num(1.0)), ("when", text("2024-03-01"))]),
            obj(vec![("q", text("2"))]),
        ])),
        ("total", num(3.0)),
    ]);
    let sheet_id: u128 = 42;
    let rows = import_rows(&main, &config(), sheet_id);
    assert_eq!(rows.len(), 3);
    assert_eq!(
        rows[0].columns,
        vec![
            ("name".to_string(), basic(ColumnValue::String("store".to_string()))),
            ("q".to_string(), basic(ColumnValue::Float(1.0f64.to_bits()))),
            ("date".to_string(), basic(ColumnValue::Date(Date { year: 2024, month: 3, day: 1 }))),
        ]
    );
    assert_eq!(
        rows[1].columns,
        vec![
            ("name".to_string(), basic(ColumnValue::String("store".to_string()))),
            ("q".to_string(), basic(ColumnValue::Float(2.0f64.to_bits()))),
            ("date".to_string(), basic(ColumnValue::String(String::new()))),
        ]
    );
    for r in &rows[..2] {
        assert_eq!(uuid::Uuid::from_u128(r.id).get_version_num(), 4);
    }
    assert_ne!(rows[0].id, rows[1].id);
    assert_eq!(rows[2].id, sheet_id);
    assert_eq!(
        rows[2].columns,
        vec![
            ("total".to_string(), basic(ColumnValue::Float(3.0f64.to_bits()))),
            ("missing".to_string(), basic(ColumnValue::String(String::new()))),
        ]
    );
}

#[test]
fn import_without_a_list_gives_no_rows() {
    let main = obj(vec![("items", num(1.0)), ("total", num(3.0))]);
    assert!(import_rows(&main, &config(), 1).is_empty());
    assert!(import_rows(&Json::Null, &config(), 1).is_empty());
    let empty_list = obj(vec![("items", Json::Array(vec![]))]);
    let rows = import_rows(&empty_list, &config(), 9);
    assert_eq!(rows.len(), 1);
    assert_eq!(rows[0].id, 9);
}

#[test]
fn typed_input_keeps_the_kind_of_the_cell() {
    let t = |s: &str| s.to_string();
    let f = ColumnValue::Float(1);
    let d = ColumnValue::Date(Date { year: 2000, month: 1, day: 1 });
    let s = ColumnValue::String(t("a"));
    assert_eq!(edited_value(Some(&f), &t("2.5"), Some(2.5f64.to_bits())), ColumnValue::Float(2.5f64.to_bits()));
    assert_eq!(edited_value(Some(&f), &t("x"), None), ColumnValue::Float(0));
    assert_eq!(
        edited_value(Some(&d), &t("2021-07-09"), None),
        ColumnValue::Date(Date { year: 2021, month: 7, day: 9 })
    );
    assert_eq!(edited_value(Some(&d), &t("soon"), None), ColumnValue::Date(Date { year: 1970, month: 1, day: 1 }));
    assert_eq!(edited_value(Some(&s), &t("12"), Some(12.0f64.to_bits())), ColumnValue::String(t("12")));
    assert_eq!(edited_value(None, &t("b"), None), ColumnValue::String(t("b")));
}

#[test]
fn following_paths_in_turn_is_following_their_join() {
    let doc = obj(vec![("a", obj(vec![("b", obj(vec![("c", num(1.0))]))]))]);
    let first = get_main_json_entry(&doc, &path(&["a"])).unwrap();
    assert_eq!(get_main_json_entry(first, &path(&["b", "c"])), get_main_json_entry(&doc, &path(&["a", "b", "c"])));
    assert_eq!(get_main_json_entry(&doc, &path(&["a", "b", "c"])), Some(&num(1.0)));
}

#[test]
fn dates_are_written_as_chrono_writes_them() {
    assert_eq!(date_text(Date { year: 2024, month: 3, day: 9 }), "2024-03-09");
    assert_eq!(date_text(Date { year: 2023, month: 2, day: 30 }), "");
}
