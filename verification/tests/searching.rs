use excel_network::models::{Date, SearchSheetParams};
use excel_network::search::{
    contains_pattern, next_page, previous_page, search_params, search_query, shows_next_page, shows_previous_page, SheetQuery,
    SEARCH_LIMIT,
};

fn params(begin: Option<Date>, end: Option<Date>, name: Option<&str>) -> SearchSheetParams {
    SearchSheetParams {
        offset: 10,
        begin,
        end,
        sheet_name: name.map(|s| s.to_string()),
        sheet_type_name: "t".to_string(),
    }
}

#[test]
fn pattern_matches_names_containing_the_text() {
    assert_eq!(contains_pattern(&"abc".to_string()), "%abc%");
    assert_eq!(contains_pattern(&String::new()), "%%");
    assert_eq!(SEARCH_LIMIT, 5);
}

#[test]
fn query_for_each_combination_of_filters() {
    let b = Date { year: 2024, month: 1, day: 1 };
    let e = Date { year: 2024, month: 12, day: 31 };
    let t = "t".to_string();
    let p = "%n%".to_string();
    assert_eq!(search_query(params(None, None, None)), SheetQuery::OfType { sheet_type_name: t.clone(), offset: 10 });
    assert_eq!(
        search_query(params(None, None, Some("n"))),
        SheetQuery::NameLike { sheet_type_name: t.clone(), pattern: p.clone(), offset: 10 }
    );
    assert_eq!(search_query(params(Some(b), None, None)), SheetQuery::After { sheet_type_name: t.clone(), begin: b, offset: 10 });
    assert_eq!(
        search_query(params(Some(b), None, Some("n"))),
        SheetQuery::AfterNameLike { sheet_type_name: t.clone(), begin: b, pattern: p.clone(), offset: 10 }
    );
    assert_eq!(search_query(params(None, Some(e), None)), SheetQuery::Before { sheet_type_name: t.clone(), end: e, offset: 10 });
    assert_eq!(
        search_query(params(None, Some(e), Some("n"))),
        SheetQuery::BeforeNameLike { sheet_type_name: t.clone(), end: e, pattern: p.clone(), offset: 10 }
    );
    assert_eq!(
        search_query(params(Some(b), Some(e), None)),
        SheetQuery::Between { sheet_type_name: t.clone(), begin: b, end: e, offset: 10 }
    );
    assert_eq!(
        search_query(params(Some(b), Some(e), Some("n"))),
        SheetQuery::BetweenNameLike { sheet_type_name: t, begin: b, end: e, pattern: p, offset: 10 }
    );
}

#[test]
fn empty_name_means_no_name_filter() {
    let p = search_params(3, "t".to_string(), String::new(), None, None);
    assert_eq!(p.sheet_name, None);
    assert_eq!(p.offset, 3);
    let p = search_params(0, "t".to_string(), "x".to_string(), None, None);
    assert_eq!(p.sheet_name, Some("x".to_string()));
}

#[test]
fn pages_of_sheet_names_move_by_five() {
    assert!(!shows_previous_page(0));
    assert!(shows_previous_page(5));
    assert!(shows_next_page(5));
    assert!(!shows_next_page(4));
    assert_eq!(previous_page(10), 5);
    assert_eq!(next_page(10), 15);
}
