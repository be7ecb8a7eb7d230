use excel_network::paging::{
    collapses_now, default_rows_number, next_offset, renders_page, shown_rows, toggled_mode, RenderMode, ShownRows,
    FETCH_LIMIT,
};

#[test]
fn collapse_button_alternates_modes() {
    assert_eq!(toggled_mode(RenderMode::Automatic), RenderMode::Collapse);
    assert_eq!(toggled_mode(RenderMode::Collapse), RenderMode::Accumalate);
    assert_eq!(toggled_mode(RenderMode::Accumalate), RenderMode::Collapse);
}

#[test]
fn shown_rows_follow_mode_then_loading() {
    assert_eq!(shown_rows(RenderMode::Accumalate, 100, 1, true), ShownRows::Loaded);
    assert_eq!(shown_rows(RenderMode::Collapse, 0, 100, false), ShownRows::Collapsed);
    assert_eq!(shown_rows(RenderMode::Automatic, 7, 28, true), ShownRows::Loaded);
    assert_eq!(shown_rows(RenderMode::Automatic, 35, 28, true), ShownRows::Collapsed);
    assert_eq!(shown_rows(RenderMode::Automatic, 35, 28, false), ShownRows::Loaded);
}

#[test]
fn loading_goes_on_until_past_the_row_count() {
    assert_eq!(default_rows_number(), 28);
    assert_eq!(next_offset(0, 28), Some(FETCH_LIMIT));
    assert_eq!(next_offset(28, 28), Some(35));
    assert_eq!(next_offset(35, 28), None);
    assert!(renders_page(0) && renders_page(7) && renders_page(21));
    assert!(!renders_page(14) && !renders_page(28));
    assert!(collapses_now(true, 35, 28));
    assert!(!collapses_now(true, 28, 28) && !collapses_now(false, 35, 28));
}
