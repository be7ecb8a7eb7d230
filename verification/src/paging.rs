use vstd::prelude::*;

verus! {

/// The number of rows fetched per request while a sheet is loaded.
pub const FETCH_LIMIT: i64 = 7;

/// Loaded rows are shown once every this many offsets (and always for the
/// first pages).
pub const RENDER_EVERY_CALLS_NUMBER: i64 = 3;

/// Which rows a shown sheet displays: all loaded rows, the rows after
/// collapsing, or a choice made by the loading state (`Automatic`, the
/// starting mode).
#[derive(Clone, Copy, Debug, PartialEq, Eq, Structural)]
pub enum RenderMode {
    Accumalate,
    Collapse,
    Automatic,
}

/// The list of rows that is displayed.
#[derive(Clone, Copy, Debug, PartialEq, Eq, Structural)]
pub enum ShownRows {
    Loaded,
    Collapsed,
}

/// The display mode after pressing the collapse button.
pub fn toggled_mode(mode: RenderMode) -> (res: RenderMode)
    ensures
        res == (match mode {
            RenderMode::Collapse => RenderMode::Accumalate,
            _ => RenderMode::Collapse,
        }),
{
    match mode {
        RenderMode::Automatic | RenderMode::Accumalate => RenderMode::Collapse,
        RenderMode::Collapse => RenderMode::Accumalate,
    }
}

/// The rows displayed: those the mode asks for; without a mode, the loaded
/// rows while loading goes on (`offset` not past `rows_number`), then the
/// collapsed rows when the sheet type collapses rows, else the loaded ones.
pub fn shown_rows(mode: RenderMode, offset: i64, rows_number: i64, collapsable: bool) -> (res: ShownRows)
    ensures
        res == (match mode {
            RenderMode::Accumalate => ShownRows::Loaded,
            RenderMode::Collapse => ShownRows::Collapsed,
            RenderMode::Automatic => if offset <= rows_number || !collapsable {
                ShownRows::Loaded
            } else {
                ShownRows::Collapsed
            },
        }),
{
    match mode {
        RenderMode::Accumalate => ShownRows::Loaded,
        RenderMode::Collapse => ShownRows::Collapsed,
        RenderMode::Automatic => {
            if offset <= rows_number {
                ShownRows::Loaded
            } else if collapsable {
                ShownRows::Collapsed
            } else {
                ShownRows::Loaded
            }
        },
    }
}

/// What loading does after the page at `offset` arrived: fetch the next
/// page while `offset` is not past `rows_number` (`Some` of the next
/// offset), else stop and sort what was loaded (`None`).
pub fn next_offset(offset: i64, rows_number: i64) -> (res: Option<i64>)
    requires
        offset <= rows_number ==> offset + FETCH_LIMIT <= i64::MAX,
    ensures
        offset <= rows_number ==> res == Some((offset + FETCH_LIMIT) as i64),
        offset > rows_number ==> res is None,
{
    if offset <= rows_number {
        Some(offset + FETCH_LIMIT)
    } else {
        None
    }
}

/// The rows of the page at `offset` are displayed as soon as they arrive.
pub fn renders_page(offset: i64) -> (res: bool)
    ensures
        res == (offset % RENDER_EVERY_CALLS_NUMBER == 0 || offset <= FETCH_LIMIT),
{
    offset % RENDER_EVERY_CALLS_NUMBER == 0 || offset <= FETCH_LIMIT
}

/// The loaded rows are collapsed once loading is over, when the sheet type
/// collapses rows.
pub fn collapses_now(collapsable: bool, offset: i64, rows_number: i64) -> (res: bool)
    ensures
        res == (collapsable && offset > rows_number),
{
    collapsable && offset > rows_number
}

/// The number of rows to load before the sheet's row count is known.
pub fn default_rows_number() -> (res: i64)
    ensures
        res == FETCH_LIMIT * 4,
{
    FETCH_LIMIT * 4
}

} // verus!
