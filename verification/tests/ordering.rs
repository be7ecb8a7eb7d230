use excel_network::models::{Column, ColumnValue, Date, Row};
use excel_network::order::{compare_bytes, compare_dates, compare_numbers, compare_rows, compare_texts, Order};
use excel_network::sorting::RowsSort;
use excel_network::order::same_value;

fn num(x: f64) -> ColumnValue<String> {
    ColumnValue::Float(x.to_bits())
}

fn text(s: &str) -> ColumnValue<String> {
    ColumnValue::String(s.to_string())
}

fn date(y: i32, m: u32, d: u32) -> ColumnValue<String> {
    ColumnValue::Date(Date { year: y, month: m, day: d })
}

fn cell(v: ColumnValue<String>) -> Column<String> {
    Column { is_basic: true, value: v }
}

fn row(id: u128, cells: Vec<(&str, ColumnValue<String>)>) -> Row<u128, String> {
    Row { id, columns: cells.into_iter().map(|(h, v)| (h.to_string(), cell(v))).collect() }
}

fn expected(a: f64, b: f64) -> Order {
    if a > b {
        Order::Greater
    } else if a < b {
        Order::Less
    } else {
        Order::Equal
    }
}

#[test]
fn numbers_compare_like_f64() {
    let values = [
        0.0, -0.0, 1.0, -1.0, 2.5, -2.5, 1e300, -1e300, f64::INFINITY, f64::NEG_INFINITY,
        f64::NAN, f64::MIN_POSITIVE, -f64::MIN_POSITIVE, 5e-324, 0.14, 123456.789,
    ];
    for a in values.iter() {
        for b in values.iter() {
            assert_eq!(compare_numbers(a.to_bits(), b.to_bits()), expected(*a, *b), "{} vs {}", a, b);
        }
    }
}

#[test]
fn nan_is_equal_to_everything() {
    assert_eq!(compare_numbers(f64::NAN.to_bits(), 1.0f64.to_bits()), Order::Equal);
    assert_eq!(compare_numbers(3.0f64.to_bits(), f64::NAN.to_bits()), Order::Equal);
}

#[test]
fn texts_compare_like_str() {
    let words = ["", "a", "ab", "b", "Z", "é", "التاريخ", "رقم", "a\u{10000}"];
    for a in words.iter() {
        for b in words.iter() {
            let want = match a.cmp(b) {
                std::cmp::Ordering::Less => Order::Less,
                std::cmp::Ordering::Equal => Order::Equal,
                std::cmp::Ordering::Greater => Order::Greater,
            };
            assert_eq!(compare_texts(&a.to_string(), &b.to_string()), want);
            assert_eq!(compare_bytes(a.as_bytes(), b.as_bytes()), want);
        }
    }
}

#[test]
fn dates_compare_chronologically() {
    let a = Date { year: 2023, month: 12, day: 31 };
    let b = Date { year: 2024, month: 1, day: 1 };
    assert_eq!(compare_dates(&a, &b), Order::Less);
    assert_eq!(compare_dates(&b, &a), Order::Greater);
    assert_eq!(compare_dates(&a, &a), Order::Equal);
    let c = Date { year: 2024, month: 1, day: 2 };
    assert_eq!(compare_dates(&b, &c), Order::Less);
}

#[test]
fn columns_of_different_kinds_are_not_comparable() {
    assert_eq!(cell(num(1.0)).compare(&cell(text("1"))), None);
    assert_eq!(cell(date(2020, 1, 1)).compare(&cell(num(1.0))), None);
    assert_eq!(cell(num(1.0)).compare(&cell(num(2.0))), Some(Order::Less));
    assert_eq!(cell(text("b")).compare(&cell(text("a"))), Some(Order::Greater));
}

#[test]
fn rows_compare_by_first_deciding_key() {
    let keys = vec!["date".to_string(), "no".to_string()];
    let a = row(1, vec![("date", date(2024, 1, 1)), ("no", num(2.0))]);
    let b = row(2, vec![("date", date(2024, 1, 1)), ("no", num(1.0))]);
    assert_eq!(compare_rows(&a, &b, &keys), Order::Greater);
    let c = row(3, vec![("no", text("x"))]);
    // the date is missing in c and the kinds differ under "no": equal
    assert_eq!(compare_rows(&a, &c, &keys), Order::Equal);
    assert_eq!(compare_rows(&a, &a, &keys), Order::Equal);
}

#[test]
fn sort_rows_orders_and_keeps_equal_rows_in_place() {
    let keys = vec!["date".to_string(), "no".to_string()];
    let mut rows = vec![
        row(1, vec![("date", date(2024, 3, 1)), ("no", num(1.0))]),
        row(2, vec![("date", date(2024, 1, 1)), ("no", num(5.0))]),
        row(3, vec![("date", date(2024, 1, 1)), ("no", num(5.0))]),
        row(4, vec![("date", date(2024, 1, 1)), ("no", num(2.0))]),
        row(5, vec![("date", date(2023, 6, 1)), ("no", num(9.0))]),
    ];
    rows.sort_rows(&keys);
    let ids: Vec<u128> = rows.iter().map(|r| r.id).collect();
    assert_eq!(ids, vec![5, 4, 2, 3, 1]);
}

#[test]
fn sort_rows_matches_std_stable_sort_on_total_orders() {
    let keys = vec!["name".to_string(), "value".to_string()];
    let names = ["b", "a", "c", "a", "b", "a"];
    let values = [3.0, 1.0, 2.0, 1.0, -4.0, 0.5];
    let mut rows: Vec<Row<u128, String>> = Vec::new();
    for i in 0..names.len() {
        rows.push(row(i as u128, vec![("name", text(names[i])), ("value", num(values[i]))]));
    }
    let mut by_std = rows.clone();
    by_std.sort_by(|x, y| match compare_rows(x, y, &keys) {
        Order::Less => std::cmp::Ordering::Less,
        Order::Equal => std::cmp::Ordering::Equal,
        Order::Greater => std::cmp::Ordering::Greater,
    });
    rows.sort_rows(&keys);
    assert_eq!(rows, by_std);
}

#[test]
fn sort_rows_of_empty_list() {
    let mut rows: Vec<Row<u128, String>> = Vec::new();
    rows.sort_rows(&["x".to_string()]);
    assert!(rows.is_empty());
}

#[test]
fn values_equal_like_f64() {
    assert!(same_value(&num(1.5), &num(1.5)));
    assert!(same_value(&num(0.0), &num(-0.0)));
    assert!(!same_value(&num(f64::NAN), &num(f64::NAN)));
    assert!(!same_value(&num(1.0), &num(2.0)));
    assert!(same_value(&text("a"), &text("a")));
    assert!(!same_value(&text("a"), &num(1.0)));
    assert!(same_value(&date(2020, 1, 2), &date(2020, 1, 2)));
    assert!(!same_value(&date(2020, 1, 2), &date(2020, 1, 3)));
}

#[test]
fn sorting_twice_sorts_once() {
    let keys = vec!["date".to_string(), "no".to_string()];
    let mut rows = vec![
        row(1, vec![("date", date(2024, 3, 1)), ("no", num(1.0))]),
        row(2, vec![("date", date(2024, 1, 1)), ("no", num(-0.0))]),
        row(3, vec![("date", date(2024, 1, 1)), ("no", num(0.0))]),
        row(4, vec![("date", date(2022, 1, 1)), ("no", num(7.0))]),
    ];
    rows.sort_rows(&keys);
    let once = rows.clone();
    rows.sort_rows(&keys);
    assert_eq!(rows, once);
    let ids: Vec<u128> = rows.iter().map(|r| r.id).collect();
    assert_eq!(ids, vec![4, 2, 3, 1]);
}

#[test]
fn rows_missing_a_priority_can_leave_the_order_unsorted() {
    // a has k = 1, b has no k, c has k = 0: a = b and b = c, yet a > c
    let keys = vec!["k".to_string()];
    let mut rows = vec![row(1, vec![("k", num(1.0))]), row(2, vec![]), row(3, vec![("k", num(0.0))])];
    rows.sort_rows(&keys);
    let ids: Vec<u128> = rows.iter().map(|r| r.id).collect();
    assert_eq!(ids, vec![1, 2, 3]);
}
