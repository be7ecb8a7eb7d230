use vstd::prelude::*;
use crate::models::{Column, ColumnValue, Row, Sheet, find_column, lemma_header_index};
use crate::session::{primary_cells_of, primary_row_columns};

verus! {

broadcast use vstd::seq_lib::group_seq_properties;

/// One cell of an exported worksheet: its row, its column and its value
/// (headers are texts).
#[derive(Clone, Debug, PartialEq)]
pub struct LayoutCell {
    pub row: u32,
    pub col: u16,
    pub value: ColumnValue<String>,
}

/// The layout of an exported worksheet. Rows `0..primary_rows` hold the
/// primary row, one cell per line (header in column 1, value in column 3);
/// row `header_row` holds the headers; each row of the sheet follows on its
/// own line, starting just below the headers, with its cells under their
/// headers. `data_rows` lines after the headers get the data height (none
/// when there are no headers).
#[derive(Clone, Debug, PartialEq)]
pub struct SheetLayout {
    pub primary_rows: u32,
    pub header_row: u32,
    pub data_rows: u32,
    pub cells: Vec<LayoutCell>,
}

/// The cells of the primary lines, for the primary cells `cols`.
pub open spec fn primary_part(cols: Seq<(String, Column<String>)>) -> Seq<LayoutCell>
    decreases cols.len(),
{
    if cols.len() == 0 {
        Seq::empty()
    } else {
        let r = (cols.len() - 1) as u32;
        primary_part(cols.drop_last()) + seq![
            LayoutCell { row: r, col: 1, value: ColumnValue::String(cols.last().0) },
            LayoutCell { row: r, col: 3, value: cols.last().1.value },
        ]
    }
}

/// The primary cells are laid out one per line, in order: cell `k`'s
/// header on line `k` in column 1 and its value on line `k` in column 3,
/// so different primary cells are on different lines.
pub proof fn lemma_primary_part_lines(cols: Seq<(String, Column<String>)>)
    requires
        cols.len() <= u32::MAX,
    ensures
        primary_part(cols).len() == 2 * cols.len(),
        forall|k: int|
            0 <= k < cols.len() ==> {
                let h = #[trigger] primary_part(cols)[2 * k];
                let v = primary_part(cols)[2 * k + 1];
                &&& h.row == k && h.col == 1 && h.value == ColumnValue::String(cols[k].0)
                &&& v.row == k && v.col == 3 && v.value == cols[k].1.value
            },
    decreases cols.len(),
{
    if cols.len() > 0 {
        let d = cols.drop_last();
        lemma_primary_part_lines(d);
        let p = primary_part(cols);
        let q = primary_part(d);
        assert forall|k: int| 0 <= k < cols.len() implies {
            let h = #[trigger] primary_part(cols)[2 * k];
            let v = primary_part(cols)[2 * k + 1];
            &&& h.row == k && h.col == 1 && h.value == ColumnValue::String(cols[k].0)
            &&& v.row == k && v.col == 3 && v.value == cols[k].1.value
        } by {
            if k < d.len() {
                assert(p[2 * k] == q[2 * k]);
                assert(p[2 * k + 1] == q[2 * k + 1]);
                assert(d[k] == cols[k]);
            } else {
                assert(k == cols.len() - 1);
                assert(p[2 * k] == (LayoutCell { row: (cols.len() - 1) as u32, col: 1, value: ColumnValue::String(cols.last().0) }));
                assert(p[2 * k + 1] == (LayoutCell { row: (cols.len() - 1) as u32, col: 3, value: cols.last().1.value }));
            }
        }
    }
}

/// The cells of the header line.
pub open spec fn header_part(headers: Seq<String>, r: u32) -> Seq<LayoutCell>
    decreases headers.len(),
{
    if headers.len() == 0 {
        Seq::empty()
    } else {
        header_part(headers.drop_last(), r) + seq![
            LayoutCell { row: r, col: (headers.len() - 1) as u16, value: ColumnValue::String(headers.last()) },
        ]
    }
}

/// The cells of one row of the sheet, on the line `r`.
pub open spec fn row_part(row: Row<u128, String>, headers: Seq<String>, r: u32) -> Seq<LayoutCell>
    decreases headers.len(),
{
    if headers.len() == 0 {
        Seq::empty()
    } else {
        row_part(row, headers.drop_last(), r) + match row.cell(headers.last()@) {
            Some(c) => seq![LayoutCell { row: r, col: (headers.len() - 1) as u16, value: c.value }],
            None => Seq::empty(),
        }
    }
}

/// The cells of the rows of the sheet, from the line `first` on.
pub open spec fn data_part(rows: Seq<Row<u128, String>>, headers: Seq<String>, first: int) -> Seq<LayoutCell>
    decreases rows.len(),
{
    if rows.len() == 0 {
        Seq::empty()
    } else {
        data_part(rows.drop_last(), headers, first) + row_part(
            rows.last(),
            headers,
            (first + rows.len() - 1) as u32,
        )
    }
}

/// The layout of the sheet exported with the columns `headers`.
pub open spec fn sheet_layout(sheet: Sheet<u128, String>, headers: Seq<String>) -> (u32, u32, u32, Seq<LayoutCell>) {
    let primary = primary_cells_of(sheet.rows@, sheet.id);
    let second = primary.len() + 1;
    (
        primary.len() as u32,
        second as u32,
        if headers.len() == 0 { 0 } else { sheet.rows@.len() as u32 },
        primary_part(primary) + header_part(headers, second as u32) + data_part(sheet.rows@, headers, (second + 1) as int),
    )
}

/// The cells of the primary lines.
fn primary_cells_layout(cols: &Vec<(String, Column<String>)>) -> (res: Vec<LayoutCell>)
    requires
        cols@.len() < u32::MAX,
    ensures
        res@ == primary_part(cols@),
{
    let mut res: Vec<LayoutCell> = Vec::new();
    let mut i: usize = 0;
    assert(cols@.take(0) =~= Seq::<(String, Column<String>)>::empty());
    while i < cols.len()
        invariant
            i <= cols@.len() < u32::MAX,
            res@ == primary_part(cols@.take(i as int)),
        decreases cols@.len() - i,
    {
        let r = i as u32;
        let a = LayoutCell { row: r, col: 1, value: ColumnValue::String(cols[i].0.clone()) };
        let b = LayoutCell { row: r, col: 3, value: cols[i].1.value.copy() };
        let ghost before = res@;
        res.push(a);
        res.push(b);
        assert(cols@.take(i + 1).drop_last() =~= cols@.take(i as int));
        assert(res@ =~= before + seq![a, b]);
        i = i + 1;
    }
    assert(cols@.take(cols@.len() as int) =~= cols@);
    res
}

/// The cells of the header line `r`.
fn header_cells_layout(headers: &[String], r: u32) -> (res: Vec<LayoutCell>)
    requires
        headers@.len() <= 0x10000,
    ensures
        res@ == header_part(headers@, r),
{
    let mut res: Vec<LayoutCell> = Vec::new();
    let mut c: usize = 0;
    assert(headers@.take(0) =~= Seq::<String>::empty());
    while c < headers.len()
        invariant
            c <= headers@.len() <= 0x10000,
            res@ == header_part(headers@.take(c as int), r),
        decreases headers@.len() - c,
    {
        let cell = LayoutCell { row: r, col: c as u16, value: ColumnValue::String(headers[c].clone()) };
        let ghost before = res@;
        res.push(cell);
        assert(headers@.take(c + 1).drop_last() =~= headers@.take(c as int));
        assert(res@ =~= before + seq![cell]);
        c = c + 1;
    }
    assert(headers@.take(headers@.len() as int) =~= headers@);
    res
}

/// Adds the cells of one row on the line `r`.
fn push_row_cells(res: &mut Vec<LayoutCell>, row: &Row<u128, String>, headers: &[String], r: u32)
    requires
        headers@.len() <= 0x10000,
    ensures
        final(res)@ == old(res)@ + row_part(*row, headers@, r),
{
    let ghost start = res@;
    let mut c: usize = 0;
    assert(headers@.take(0) =~= Seq::<String>::empty());
    assert(start + row_part(*row, headers@.take(0), r) =~= start);
    while c < headers.len()
        invariant
            c <= headers@.len() <= 0x10000,
            res@ == start + row_part(*row, headers@.take(c as int), r),
        decreases headers@.len() - c,
    {
        assert(headers@.take(c + 1).drop_last() =~= headers@.take(c as int));
        assert(headers@.take(c + 1).last() == headers@[c as int]);
        let found = find_column(&row.columns, &headers[c]);
        proof {
            lemma_header_index(row.columns@, headers@[c as int]@);
        }
        let ghost before = res@;
        match found {
            Some(k) => {
                let cell = LayoutCell { row: r, col: c as u16, value: row.columns[k].1.value.copy() };
                res.push(cell);
                assert(res@ =~= before + seq![cell]);
            },
            None => {
                assert(before + Seq::<LayoutCell>::empty() =~= before);
            },
        }
        assert(res@ =~= start + row_part(*row, headers@.take(c + 1), r));
        c = c + 1;
    }
    assert(headers@.take(headers@.len() as int) =~= headers@);
}

/// Lays out the export of a sheet with the columns `headers` (see
/// `SheetLayout`); the primary row is the first row with the sheet's
/// identifier.
pub fn layout_sheet(sheet: &Sheet<u128, String>, headers: &[String]) -> (res: SheetLayout)
    requires
        sheet.rows@.len() + primary_cells_of(sheet.rows@, sheet.id).len() + 2 <= u32::MAX,
        headers@.len() <= 0x10000,
    ensures
        (res.primary_rows, res.header_row, res.data_rows, res.cells@) == sheet_layout(*sheet, headers@),
        res.primary_rows == primary_cells_of(sheet.rows@, sheet.id).len(),
        forall|k: int|
            0 <= k < primary_cells_of(sheet.rows@, sheet.id).len() ==> {
                let h = #[trigger] res.cells@[2 * k];
                let v = res.cells@[2 * k + 1];
                let cell = primary_cells_of(sheet.rows@, sheet.id)[k];
                &&& h.row == k && h.col == 1 && h.value == ColumnValue::String(cell.0)
                &&& v.row == k && v.col == 3 && v.value == cell.1.value
            },
{
    proof {
        lemma_primary_part_lines(primary_cells_of(sheet.rows@, sheet.id));
    }
    let primary = primary_row_columns(&sheet.rows, sheet.id);
    let second = primary.len() + 1;
    let mut cells = primary_cells_layout(&primary);
    let mut header_cells = header_cells_layout(headers, second as u32);
    cells.append(&mut header_cells);
    let ghost prefix = cells@;
    let rows = &sheet.rows;
    let mut i: usize = 0;
    assert(rows@.take(0) =~= Seq::<Row<u128, String>>::empty());
    assert(prefix + data_part(rows@.take(0), headers@, second + 1) =~= prefix);
    while i < rows.len()
        invariant
            i <= rows@.len(),
            rows@.len() + second + 1 <= u32::MAX,
            headers@.len() <= 0x10000,
            cells@ == prefix + data_part(rows@.take(i as int), headers@, second + 1),
        decreases rows@.len() - i,
    {
        assert(rows@.take(i + 1).drop_last() =~= rows@.take(i as int));
        assert(rows@.take(i + 1).last() == rows@[i as int]);
        let r = (second + 1 + i) as u32;
        push_row_cells(&mut cells, &rows[i], headers, r);
        assert(cells@ =~= prefix + data_part(rows@.take(i + 1), headers@, second + 1));
        i = i + 1;
    }
    assert(rows@.take(rows@.len() as int) =~= rows@);
    let data_rows: u32 = if headers.len() == 0 {
        0
    } else {
        rows.len() as u32
    };
    SheetLayout { primary_rows: primary.len() as u32, header_row: second as u32, data_rows, cells }
}

/// The name of the file a sheet is exported to, from its type name, its
/// name and its insertion date written as text.
pub open spec fn export_name(kind_name: Seq<char>, sheet_name: Seq<char>, date: Seq<char>) -> Seq<char> {
    "_شيت_"@ + kind_name + "_--_باسم_"@ + sheet_name + "_--_بتاريخ_"@ + date + ".xlsx"@
}

/// The name of the file a sheet is exported to (see `export_name`).
pub fn export_file_name(kind_name: &String, sheet_name: &String, date: &String) -> (res: String)
    ensures
        res@ == export_name(kind_name@, sheet_name@, date@),
{
    let mut res = String::new();
    res.append("_شيت_");
    res.append(kind_name.as_str());
    res.append("_--_باسم_");
    res.append(sheet_name.as_str());
    res.append("_--_بتاريخ_");
    res.append(date.as_str());
    res.append(".xlsx");
    proof {
        assert(res@ =~= export_name(kind_name@, sheet_name@, date@));
    }
    res
}

} // verus!
