use vstd::prelude::*;
use vstd::utf8::{decode_utf8, encode_utf8, is_char_boundary};
use crate::client_models::ImportConfig;
use crate::json::{Json, json_at, get_main_json_entry};
use crate::models::{
    Column, ColumnValue, ColumnView, Date, Row, ValueView, cells_view, with_cells, with_cells_view,
    set_columns, copy_columns, lemma_with_cell_view, lemma_with_cells_distinct,
};
use crate::ids::new_id;
use chrono::Datelike;

verus! {

/// What `chrono`'s `NaiveDate::from_str` gives for a text: the date it
/// reads (year, month, day), if it reads one.
pub uninterp spec fn naive_date_from_str(text: Seq<char>) -> Option<Date>;

/// `chrono::NaiveDate::from_str` (`str::parse::<NaiveDate>`), with the date
/// given by its year, month and day. The contract only names the result: it
/// depends on the text alone.
#[verifier::external_body]
fn parse_naive_date(text: &str) -> (res: Option<Date>)
    ensures
        res == naive_date_from_str(text@),
{
    match text.parse::<chrono::NaiveDate>() {
        Ok(d) => Some(Date { year: d.year(), month: d.month(), day: d.day() }),
        Err(_) => None,
    }
}

/// What `chrono` writes for the date with that year, month and day (its
/// `Display` of `NaiveDate`), if the three make a date.
pub uninterp spec fn naive_date_text(d: Date) -> Option<Seq<char>>;

/// `chrono::NaiveDate::from_ymd_opt` followed by `to_string`: the text of
/// the date, `None` when the year, month and day make no date. The contract
/// only names the result, which depends on the date alone.
#[verifier::external_body]
fn format_naive_date(d: Date) -> (res: Option<String>)
    ensures
        match res {
            Some(t) => naive_date_text(d) == Some(t@),
            None => naive_date_text(d) is None,
        },
{
    match chrono::NaiveDate::from_ymd_opt(d.year, d.month, d.day) {
        Some(n) => Some(n.to_string()),
        None => None,
    }
}

/// The text of a date as the sheets show it (see `naive_date_text`); empty
/// for a year, month and day that make no date.
pub fn date_text(d: Date) -> (res: String)
    ensures
        res@ == match naive_date_text(d) {
            Some(t) => t,
            None => Seq::empty(),
        },
{
    match format_naive_date(d) {
        Some(t) => t,
        None => String::new(),
    }
}

/// The first ten bytes of the text, as a text, when a character ends at
/// the tenth byte (what `str::get(..10)` gives).
pub open spec fn date_prefix(text: Seq<char>) -> Option<Seq<char>> {
    let bytes = encode_utf8(text);
    if is_char_boundary(bytes, 10) {
        Some(decode_utf8(bytes.subrange(0, 10)))
    } else {
        None
    }
}

/// The date that a text starts with: its first ten bytes read as a date.
pub open spec fn text_date(text: Seq<char>) -> Option<Date> {
    match date_prefix(text) {
        Some(p) => naive_date_from_str(p),
        None => None,
    }
}

/// The value of a cell read from a text: the number it reads as, else the
/// date it starts with, else the text itself.
pub open spec fn text_value(text: Seq<char>, number: Option<u64>, date: Option<Date>) -> ValueView {
    match number {
        Some(b) => ValueView::Float(b),
        None => match date {
            Some(d) => ValueView::Date(d),
            None => ValueView::String(text),
        },
    }
}

/// The value of a cell read from a JSON value: a number as a number, a
/// string as its number, date or text, anything else as the empty text.
pub open spec fn json_value(j: Json) -> ValueView {
    match j {
        Json::Number(b) => ValueView::Float(b),
        Json::String { text, number } => text_value(text@, number, text_date(text@)),
        _ => ValueView::String(Seq::empty()),
    }
}

/// The date that the text starts with (see `text_date`).
pub fn date_of_text(text: &String) -> (res: Option<Date>)
    ensures
        res == text_date(text@),
{
    let s = text.as_str();
    proof {
        vstd::utf8::encode_utf8_valid_utf8(text@);
    }
    if s.is_char_boundary(10) {
        let (prefix, _) = s.split_at(10);
        proof {
            vstd::utf8::encode_utf8_decode_utf8(prefix@);
            assert(s@ == text@);
            assert(encode_utf8(prefix@) == encode_utf8(text@).subrange(0, 10));
            assert(date_prefix(text@) == Some(prefix@));
        }
        parse_naive_date(prefix)
    } else {
        None
    }
}

/// The value of a cell read from a text, given what the text reads as.
pub fn value_from_text(text: &String, number: Option<u64>, date: Option<Date>) -> (res: ColumnValue<
    String,
>)
    ensures
        res@ == text_value(text@, number, date),
{
    match number {
        Some(b) => ColumnValue::Float(b),
        None => match date {
            Some(d) => ColumnValue::Date(d),
            None => ColumnValue::String(text.clone()),
        },
    }
}

/// The cell read from a JSON value (see `json_value`).
pub fn column_from_value(value: &Json) -> (res: Column<String>)
    ensures
        res@ == (ColumnView { is_basic: true, value: json_value(*value) }),
{
    let value = match value {
        Json::Number(b) => ColumnValue::Float(*b),
        Json::String { text, number } => {
            let date = match number {
                Some(_) => None,
                None => date_of_text(text),
            };
            value_from_text(text, *number, date)
        },
        _ => ColumnValue::String(String::new()),
    };
    Column { is_basic: true, value }
}

/// The cell read at `path` from `node`.
pub open spec fn cell_at(node: Json, path: Seq<String>) -> ColumnView {
    ColumnView { is_basic: true, value: json_value(json_at(node, path)) }
}

/// The cells read from `node`, one per configured header.
pub open spec fn entry_cells(node: Json, entries: Seq<(String, Vec<String>)>) -> Seq<
    (Seq<char>, ColumnView),
> {
    entries.map_values(|e: (String, Vec<String>)| (e.0@, cell_at(node, e.1@)))
}

/// The cells of the row made from one repeated entry: the cells of the main
/// entry, then those of the repeated entry set over them.
pub open spec fn item_cells(main: Json, item: Json, config: ImportConfig) -> Seq<
    (Seq<char>, ColumnView),
> {
    with_cells_view(
        with_cells_view(Seq::empty(), entry_cells(main, config.unique@)),
        entry_cells(item, config.repeated@),
    )
}

/// The cells of the primary row.
pub open spec fn primary_cells(main: Json, config: ImportConfig) -> Seq<(Seq<char>, ColumnView)> {
    with_cells_view(Seq::empty(), entry_cells(main, config.primary@))
}

/// Setting cells in turn commutes with taking the abstract form.
pub proof fn lemma_with_cells_view(
    cols: Seq<(String, Column<String>)>,
    updates: Seq<(String, Column<String>)>,
)
    ensures
        cells_view(with_cells(cols, updates)) == with_cells_view(
            cells_view(cols),
            cells_view(updates),
        ),
    decreases updates.len(),
{
    if updates.len() > 0 {
        lemma_with_cells_view(cols, updates.drop_last());
        assert(cells_view(updates).drop_last() =~= cells_view(updates.drop_last()));
        lemma_with_cell_view(
            with_cells(cols, updates.drop_last()),
            updates.last().0,
            updates.last().1,
        );
    }
}

/// The cell read at `path` from `node`.
fn cell_from(node: &Json, path: &Vec<String>) -> (res: Column<String>)
    ensures
        res@ == cell_at(*node, path@),
{
    match get_main_json_entry(node, path) {
        Some(v) => column_from_value(v),
        None => column_from_value(&Json::Null),
    }
}

/// The cells read from `node`, one per configured header, in order.
fn cells_from(node: &Json, entries: &Vec<(String, Vec<String>)>) -> (res: Vec<(String, Column<String>)>)
    ensures
        cells_view(res@) == entry_cells(*node, entries@),
{
    let mut res: Vec<(String, Column<String>)> = Vec::new();
    let mut i: usize = 0;
    while i < entries.len()
        invariant
            i <= entries@.len(),
            cells_view(res@) == entry_cells(*node, entries@.take(i as int)),
        decreases entries@.len() - i,
    {
        let header = entries[i].0.clone();
        let column = cell_from(node, &entries[i].1);
        let ghost before = res@;
        res.push((header, column));
        assert(cells_view(res@) =~= cells_view(before).push((header@, column@)));
        assert(entries@.take(i + 1) =~= entries@.take(i as int).push(entries@[i as int]));
        assert(entry_cells(*node, entries@.take(i + 1)) =~= entry_cells(
            *node,
            entries@.take(i as int),
        ).push((entries@[i as int].0@, cell_at(*node, entries@[i as int].1@))));
        i = i + 1;
    }
    assert(entries@.take(entries@.len() as int) =~= entries@);
    res
}

/// Builds the rows of a sheet from the main entry of an imported document:
/// one row per element of the repeated entry (when it is a list), with a
/// fresh identifier and the cells of the main entry and of the element, then
/// the primary row, with the sheet's identifier and the primary cells. When
/// the repeated entry is not a list there are no rows.
pub fn import_rows(main: &Json, config: &ImportConfig, sheet_id: u128) -> (res: Vec<Row<u128, String>>)
    ensures
        match json_at(*main, config.repeated_entry@) {
            Json::Array(items) => {
                &&& res@.len() == items@.len() + 1
                &&& forall|i: int|
                    0 <= i < items@.len() ==> cells_view((#[trigger] res@[i]).columns@)
                        == item_cells(*main, items@[i], *config) && (res@[i].id >> 76u128) & 0xfu128
                        == 4u128
                &&& forall|i: int| 0 <= i < res@.len() ==> (#[trigger] res@[i]).well_formed()
                &&& res@.last().id == sheet_id
                &&& cells_view(res@.last().columns@) == primary_cells(*main, *config)
            },
            _ => res@.len() == 0,
        },
{
    let mut unique: Vec<(String, Column<String>)> = Vec::new();
    let unique_cells = cells_from(main, &config.unique);
    let ghost unique_cells_view = unique_cells@;
    proof {
        lemma_with_cells_view(unique@, unique_cells@);
        assert(unique@ =~= Seq::<(String, Column<String>)>::empty());
        assert(cells_view(unique@) =~= Seq::<(Seq<char>, ColumnView)>::empty());
    }
    set_columns(&mut unique, unique_cells);
    proof {
        lemma_with_cells_distinct(Seq::<(String, Column<String>)>::empty(), unique_cells_view);
    }
    let repeated = get_main_json_entry(main, &config.repeated_entry);
    let list = match repeated {
        Some(Json::Array(list)) => list,
        _ => {
            return Vec::new();
        },
    };
    let mut result: Vec<Row<u128, String>> = Vec::new();
    let mut k: usize = 0;
    while k < list.len()
        invariant
            k <= list@.len(),
            result@.len() == k,
            cells_view(unique@) == with_cells_view(Seq::empty(), entry_cells(*main, config.unique@)),
            crate::models::distinct_headers(unique@),
            forall|i: int| 0 <= i < k ==> (#[trigger] result@[i]).well_formed(),
            forall|i: int|
                0 <= i < k ==> cells_view((#[trigger] result@[i]).columns@) == item_cells(
                    *main,
                    list@[i],
                    *config,
                ) && (result@[i].id >> 76u128) & 0xfu128 == 4u128,
        decreases list@.len() - k,
    {
        let mut columns = copy_columns(&unique);
        let item_cells_exec = cells_from(&list[k], &config.repeated);
        proof {
            lemma_with_cells_view(columns@, item_cells_exec@);
            lemma_with_cells_distinct(columns@, item_cells_exec@);
        }
        set_columns(&mut columns, item_cells_exec);
        let id = new_id();
        result.push(Row { id, columns });
        k = k + 1;
    }
    let mut primary_row: Vec<(String, Column<String>)> = Vec::new();
    let primary = cells_from(main, &config.primary);
    proof {
        lemma_with_cells_view(primary_row@, primary@);
        assert(cells_view(primary_row@) =~= Seq::<(Seq<char>, ColumnView)>::empty());
    }
    let ghost primary_view = primary@;
    set_columns(&mut primary_row, primary);
    proof {
        lemma_with_cells_distinct(Seq::<(String, Column<String>)>::empty(), primary_view);
    }
    let ghost before = result@;
    result.push(Row { id: sheet_id, columns: primary_row });
    assert forall|i: int| 0 <= i < result@.len() implies (#[trigger] result@[i]).well_formed() by {
        if i < before.len() {
            assert(result@[i] == before[i]);
        }
    }
    result
}

/// The date that an unreadable date input stands for (1970-01-01, what
/// `NaiveDate::default` gives).
pub open spec fn default_date() -> Date {
    Date { year: 1970, month: 1, day: 1 }
}

/// The value typed into a cell, of the kind of its current value: a number
/// (`number`, what the text reads as, or zero), a date (the date the text
/// reads as, or the default date), or else the text.
pub open spec fn typed_value(current: Option<ColumnValue<String>>, text: Seq<char>, number: Option<u64>) -> ValueView {
    match current {
        Some(ColumnValue::Float(_)) => ValueView::Float(
            match number {
                Some(b) => b,
                None => 0,
            },
        ),
        Some(ColumnValue::Date(_)) => ValueView::Date(
            match naive_date_from_str(text) {
                Some(d) => d,
                None => default_date(),
            },
        ),
        _ => ValueView::String(text),
    }
}

/// Reads a typed input as a value of the kind of the cell's current value
/// (see `typed_value`); `number` is what the text reads as, if it reads as
/// a number.
pub fn edited_value(current: Option<&ColumnValue<String>>, text: &String, number: Option<u64>) -> (res: ColumnValue<String>)
    ensures
        res@ == typed_value(
            match current {
                Some(c) => Some(*c),
                None => None,
            },
            text@,
            number,
        ),
{
    match current {
        Some(ColumnValue::Float(_)) => ColumnValue::Float(
            match number {
                Some(b) => b,
                None => 0,
            },
        ),
        Some(ColumnValue::Date(_)) => ColumnValue::Date(
            match parse_naive_date(text.as_str()) {
                Some(d) => d,
                None => Date { year: 1970, month: 1, day: 1 },
            },
        ),
        _ => ColumnValue::String(text.clone()),
    }
}

} // verus!
