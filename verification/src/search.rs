use vstd::prelude::*;
use crate::models::{Date, SearchSheetParams};

verus! {

/// The number of sheet names a search returns at most.
pub const SEARCH_LIMIT: i64 = 5;

/// The query that a search runs: sheets of the type `sheet_type_name`,
/// skipping `offset` of them, at most `SEARCH_LIMIT`, further filtered by
/// name (`pattern`, a SQL `LIKE` pattern) and by insertion date (after
/// `begin`, before `end`, or between both, inclusive).
#[derive(Clone, Debug, PartialEq)]
pub enum SheetQuery {
    OfType { sheet_type_name: String, offset: i64 },
    NameLike { sheet_type_name: String, pattern: String, offset: i64 },
    After { sheet_type_name: String, begin: Date, offset: i64 },
    AfterNameLike { sheet_type_name: String, begin: Date, pattern: String, offset: i64 },
    Before { sheet_type_name: String, end: Date, offset: i64 },
    BeforeNameLike { sheet_type_name: String, end: Date, pattern: String, offset: i64 },
    Between { sheet_type_name: String, begin: Date, end: Date, offset: i64 },
    BetweenNameLike {
        sheet_type_name: String,
        begin: Date,
        end: Date,
        pattern: String,
        offset: i64,
    },
}

/// The `LIKE` pattern that matches names containing `name`.
pub open spec fn like_pattern(name: Seq<char>) -> Seq<char> {
    seq!['%'] + name + seq!['%']
}

/// The `LIKE` pattern that matches names containing `name`.
pub fn contains_pattern(name: &String) -> (res: String)
    ensures
        res@ == like_pattern(name@),
{
    let mut res = String::new();
    res.append("%");
    res.append(name.as_str());
    res.append("%");
    proof {
        reveal_strlit("%");
        assert(res@ =~= like_pattern(name@));
    }
    res
}

/// Chooses the query for the given search parameters: the sheet type and
/// offset always, the name pattern when a name is given, and the date
/// filter by which of `begin` and `end` are given.
pub fn search_query(params: SearchSheetParams) -> (res: SheetQuery)
    ensures
        match (params.begin, params.end, params.sheet_name) {
            (None, None, None) => res == SheetQuery::OfType {
                sheet_type_name: params.sheet_type_name,
                offset: params.offset,
            },
            (None, None, Some(n)) => res matches SheetQuery::NameLike {
                sheet_type_name,
                pattern,
                offset,
            } && sheet_type_name == params.sheet_type_name && pattern@ == like_pattern(n@)
                && offset == params.offset,
            (Some(b), None, None) => res == SheetQuery::After {
                sheet_type_name: params.sheet_type_name,
                begin: b,
                offset: params.offset,
            },
            (Some(b), None, Some(n)) => res matches SheetQuery::AfterNameLike {
                sheet_type_name,
                begin,
                pattern,
                offset,
            } && sheet_type_name == params.sheet_type_name && begin == b && pattern@
                == like_pattern(n@) && offset == params.offset,
            (None, Some(e), None) => res == SheetQuery::Before {
                sheet_type_name: params.sheet_type_name,
                end: e,
                offset: params.offset,
            },
            (None, Some(e), Some(n)) => res matches SheetQuery::BeforeNameLike {
                sheet_type_name,
                end,
                pattern,
                offset,
            } && sheet_type_name == params.sheet_type_name && end == e && pattern@ == like_pattern(
                n@,
            ) && offset == params.offset,
            (Some(b), Some(e), None) => res == SheetQuery::Between {
                sheet_type_name: params.sheet_type_name,
                begin: b,
                end: e,
                offset: params.offset,
            },
            (Some(b), Some(e), Some(n)) => res matches SheetQuery::BetweenNameLike {
                sheet_type_name,
                begin,
                end,
                pattern,
                offset,
            } && sheet_type_name == params.sheet_type_name && begin == b && end == e && pattern@
                == like_pattern(n@) && offset == params.offset,
        },
{
    let SearchSheetParams { offset, sheet_type_name, begin, end, sheet_name } = params;
    match (begin, end, sheet_name) {
        (None, None, None) => SheetQuery::OfType { sheet_type_name, offset },
        (None, None, Some(name)) => SheetQuery::NameLike {
            sheet_type_name,
            pattern: contains_pattern(&name),
            offset,
        },
        (Some(begin), None, None) => SheetQuery::After { sheet_type_name, begin, offset },
        (Some(begin), None, Some(name)) => SheetQuery::AfterNameLike {
            sheet_type_name,
            begin,
            pattern: contains_pattern(&name),
            offset,
        },
        (None, Some(end), None) => SheetQuery::Before { sheet_type_name, end, offset },
        (None, Some(end), Some(name)) => SheetQuery::BeforeNameLike {
            sheet_type_name,
            end,
            pattern: contains_pattern(&name),
            offset,
        },
        (Some(begin), Some(end), None) => SheetQuery::Between {
            sheet_type_name,
            begin,
            end,
            offset,
        },
        (Some(begin), Some(end), Some(name)) => SheetQuery::BetweenNameLike {
            sheet_type_name,
            begin,
            end,
            pattern: contains_pattern(&name),
            offset,
        },
    }
}

/// The search parameters of the sheet list's form: no name filter when the
/// name is empty.
pub fn search_params(
    offset: i64,
    sheet_type_name: String,
    sheet_name: String,
    begin: Option<Date>,
    end: Option<Date>,
) -> (res: SearchSheetParams)
    ensures
        res.offset == offset,
        res.sheet_type_name == sheet_type_name,
        res.begin == begin,
        res.end == end,
        sheet_name@.len() == 0 ==> res.sheet_name is None,
        sheet_name@.len() != 0 ==> res.sheet_name == Some(sheet_name),
{
    let name = if sheet_name.as_str().is_empty() {
        None
    } else {
        Some(sheet_name)
    };
    SearchSheetParams { offset, begin, end, sheet_name: name, sheet_type_name }
}

/// The button to the previous page of sheet names is shown: the offset is
/// not at the start.
pub fn shows_previous_page(offset: u64) -> (res: bool)
    ensures
        res == (offset != 0),
{
    offset != 0
}

/// The button to the next page of sheet names is shown: the page is full.
pub fn shows_next_page(found: usize) -> (res: bool)
    ensures
        res == (found >= SEARCH_LIMIT),
{
    found >= 5
}

/// The offset of the previous page of sheet names.
pub fn previous_page(offset: u64) -> (res: u64)
    requires
        offset >= SEARCH_LIMIT,
    ensures
        res == offset - SEARCH_LIMIT,
{
    offset - 5
}

/// The offset of the next page of sheet names.
pub fn next_page(offset: u64) -> (res: u64)
    requires
        offset + SEARCH_LIMIT <= u64::MAX,
    ensures
        res == offset + SEARCH_LIMIT,
{
    offset + 5
}

/// The sheet list's offset starts at 0 and moves only by `previous_page`
/// and `next_page`, so it stays a multiple of five: from such an offset the
/// previous page is offered exactly when the offset is not 0, stepping back
/// then meets `previous_page`'s bound, and both steps (below the overflow
/// bound of `next_page`) give a multiple of five again.
pub proof fn lemma_page_offsets(offset: u64)
    requires
        offset % 5 == 0,
    ensures
        0u64 % 5 == 0,
        offset != 0 ==> offset >= SEARCH_LIMIT && (offset - SEARCH_LIMIT) % 5 == 0,
        offset + SEARCH_LIMIT <= u64::MAX ==> (offset + SEARCH_LIMIT) % 5 == 0,
{
}

} // verus!
