use vstd::prelude::*;

verus! {

/// Marks the types that identify sheets and rows: the 128-bit value of a
/// UUID, or its textual form.
pub trait IdMarker {}

impl IdMarker for u128 {}

impl IdMarker for String {}

/// Marks the types that hold header text.
pub trait StrMarker {}

impl StrMarker for String {}

/// Converts a value into the form that is sent over the wire, where
/// identifiers are written as text.
pub trait ToSerial<T>: Sized {
    fn to_serial(self) -> T;
}

/// A calendar date (proleptic Gregorian), as year, month (1..=12) and day.
#[derive(Clone, Copy, Debug, PartialEq, Eq, Structural)]
pub struct Date {
    pub year: i32,
    pub month: u32,
    pub day: u32,
}

/// The value held by one cell of a row. A number is kept as the bit pattern
/// of its IEEE-754 binary64 representation.
#[derive(Clone, Debug, PartialEq)]
pub enum ColumnValue<RC> where RC: StrMarker {
    String(RC),
    Float(u64),
    Date(Date),
}

/// One cell of a row. `is_basic` is false for values that were computed
/// from other cells.
#[derive(Clone, Debug, PartialEq)]
pub struct Column<RC> where RC: StrMarker {
    pub is_basic: bool,
    pub value: ColumnValue<RC>,
}

/// Identifies one cell: the sheet, the row and the header.
#[derive(Clone, Debug, PartialEq)]
pub struct ColumnId<I, RC> where I: IdMarker, RC: StrMarker {
    pub sheet_id: I,
    pub row_id: I,
    pub header: RC,
}

/// The identifier and the name of a sheet (or of a sheet type).
#[derive(Clone, Debug, PartialEq)]
pub struct Name<I> where I: IdMarker {
    pub id: I,
    pub the_name: String,
}

/// A row: its identifier and its cells, each under its header. No header
/// occurs twice (see `Row::well_formed`).
#[derive(Clone, Debug, PartialEq)]
pub struct Row<I, RC> where I: IdMarker, RC: StrMarker {
    pub id: I,
    pub columns: Vec<(RC, Column<RC>)>,
}

/// A sheet with its rows. The row whose id is the sheet's id is the
/// sheet's primary row.
#[derive(Clone, Debug, PartialEq)]
pub struct Sheet<I, RC> where I: IdMarker, RC: StrMarker {
    pub id: I,
    pub sheet_name: RC,
    pub sheet_type_name: RC,
    pub insert_date: Date,
    pub rows: Vec<Row<I, RC>>,
}

/// The parameters of a search for sheets of one type.
#[derive(Clone, Debug, PartialEq)]
pub struct SearchSheetParams {
    pub offset: i64,
    pub begin: Option<Date>,
    pub end: Option<Date>,
    pub sheet_name: Option<String>,
    pub sheet_type_name: String,
}

/// The headers of a list of cells, in order.
pub open spec fn headers_of<C>(cols: Seq<(String, C)>) -> Seq<Seq<char>> {
    cols.map_values(|e: (String, C)| e.0@)
}

/// No header occurs twice in the list of cells.
pub open spec fn distinct_headers<C>(cols: Seq<(String, C)>) -> bool {
    forall|i: int, j: int|
        0 <= i < cols.len() && 0 <= j < cols.len() && i != j ==> #[trigger] cols[i].0@
            != #[trigger] cols[j].0@
}

/// The position of the first cell whose header is `key`.
pub open spec fn header_index<C>(cols: Seq<(String, C)>, key: Seq<char>) -> Option<int>
    decreases cols.len(),
{
    if cols.len() == 0 {
        None
    } else if cols[0].0@ == key {
        Some(0)
    } else {
        match header_index(cols.drop_first(), key) {
            Some(i) => Some(i + 1),
            None => None,
        }
    }
}

/// The cell stored under `key`: the first one whose header is `key`.
pub open spec fn column_of<C>(cols: Seq<(String, C)>, key: Seq<char>) -> Option<C> {
    match header_index(cols, key) {
        Some(i) => Some(cols[i].1),
        None => None,
    }
}

/// `cols` with the cell under the header `h` set to `c`: the first cell with
/// that header is replaced, or the cell is added at the end.
pub open spec fn with_cell<C>(cols: Seq<(String, C)>, h: String, c: C) -> Seq<(String, C)> {
    match header_index(cols, h@) {
        Some(i) => cols.update(i, (h, c)),
        None => cols.push((h, c)),
    }
}

/// `cols` with each cell of `updates` set in turn.
pub open spec fn with_cells<C>(cols: Seq<(String, C)>, updates: Seq<(String, C)>) -> Seq<(String, C)>
    decreases updates.len(),
{
    if updates.len() == 0 {
        cols
    } else {
        with_cell(with_cells(cols, updates.drop_last()), updates.last().0, updates.last().1)
    }
}

impl<I: IdMarker> Row<I, String> {
    pub open spec fn well_formed(&self) -> bool {
        distinct_headers(self.columns@)
    }

    /// The cell under `key`, if the row has one.
    pub open spec fn cell(&self, key: Seq<char>) -> Option<Column<String>> {
        column_of(self.columns@, key)
    }
}

/// `header_index` is the first position whose header is `key`.
pub proof fn lemma_header_index<C>(cols: Seq<(String, C)>, key: Seq<char>)
    ensures
        match header_index(cols, key) {
            Some(i) => 0 <= i < cols.len() && cols[i].0@ == key && forall|j: int|
                0 <= j < i ==> cols[j].0@ != key,
            None => forall|j: int| 0 <= j < cols.len() ==> cols[j].0@ != key,
        },
    decreases cols.len(),
{
    if cols.len() > 0 {
        lemma_header_index(cols.drop_first(), key);
        if cols[0].0@ != key {
            match header_index(cols.drop_first(), key) {
                Some(i) => {
                    assert forall|j: int| 0 <= j < i + 1 implies cols[j].0@ != key by {
                        if j > 0 {
                            assert(cols[j] == cols.drop_first()[j - 1]);
                        }
                    }
                },
                None => {
                    assert forall|j: int| 0 <= j < cols.len() implies cols[j].0@ != key by {
                        if j > 0 {
                            assert(cols[j] == cols.drop_first()[j - 1]);
                        }
                    }
                },
            }
        }
    }
}

/// A position holding `key` with no earlier one is the `header_index`.
pub proof fn lemma_header_index_at<C>(cols: Seq<(String, C)>, key: Seq<char>, i: int)
    requires
        0 <= i < cols.len(),
        cols[i].0@ == key,
        forall|j: int| 0 <= j < i ==> cols[j].0@ != key,
    ensures
        header_index(cols, key) == Some(i),
{
    lemma_header_index(cols, key);
}

/// Finds the position of the first cell under `key`.
pub fn find_column<C>(cols: &Vec<(String, C)>, key: &String) -> (res: Option<usize>)
    ensures
        match res {
            Some(i) => header_index(cols@, key@) == Some(i as int),
            None => header_index(cols@, key@) is None,
        },
{
    let mut i: usize = 0;
    while i < cols.len()
        invariant
            i <= cols@.len(),
            forall|j: int| 0 <= j < i ==> cols@[j].0@ != key@,
        decreases cols@.len() - i,
    {
        if cols[i].0 == *key {
            proof {
                lemma_header_index_at(cols@, key@, i as int);
            }
            return Some(i);
        }
        i = i + 1;
    }
    proof {
        lemma_header_index(cols@, key@);
    }
    None
}

impl ColumnValue<String> {
    /// A copy of the value.
    pub fn copy(&self) -> (res: Self)
        ensures
            res == *self,
    {
        match self {
            ColumnValue::String(s) => ColumnValue::String(s.clone()),
            ColumnValue::Float(n) => ColumnValue::Float(*n),
            ColumnValue::Date(d) => ColumnValue::Date(*d),
        }
    }
}

impl Column<String> {
    /// A copy of the cell.
    pub fn copy(&self) -> (res: Self)
        ensures
            res == *self,
    {
        Column { is_basic: self.is_basic, value: self.value.copy() }
    }
}

/// A copy of a list of cells.
pub fn copy_columns(cols: &Vec<(String, Column<String>)>) -> (res: Vec<(String, Column<String>)>)
    ensures
        res@ == cols@,
{
    let mut res: Vec<(String, Column<String>)> = Vec::new();
    let mut i: usize = 0;
    while i < cols.len()
        invariant
            i <= cols@.len(),
            res@ == cols@.take(i as int),
        decreases cols@.len() - i,
    {
        let entry = (cols[i].0.clone(), cols[i].1.copy());
        assert(entry == cols@[i as int]);
        res.push(entry);
        assert(cols@.take(i + 1) =~= cols@.take(i as int).push(cols@[i as int]));
        i = i + 1;
    }
    assert(cols@.take(cols@.len() as int) =~= cols@);
    res
}

/// Sets the cell under the header `h` to `c`, replacing the cell that has
/// the header, or adding it at the end.
pub fn set_column<C>(cols: &mut Vec<(String, C)>, h: String, c: C)
    ensures
        final(cols)@ == with_cell(old(cols)@, h, c),
{
    let found = find_column(cols, &h);
    proof {
        lemma_header_index(cols@, h@);
    }
    match found {
        Some(i) => {
            cols.set(i, (h, c));
        },
        None => {
            cols.push((h, c));
        },
    }
}

/// A cell that was set reads back, and the cells under other headers read
/// as before.
pub proof fn lemma_cell_read_after_write<C>(cols: Seq<(String, C)>, h: String, c: C)
    ensures
        column_of(with_cell(cols, h, c), h@) == Some(c),
        forall|k: Seq<char>| k != h@ ==> column_of(with_cell(cols, h, c), k) == column_of(cols, k),
{
    lemma_header_index(cols, h@);
    let r = with_cell(cols, h, c);
    match header_index(cols, h@) {
        Some(i) => {
            assert forall|j: int| 0 <= j < i implies r[j].0@ != h@ by {
                assert(r[j] == cols[j]);
            }
            lemma_header_index_at(r, h@, i);
        },
        None => {
            assert forall|j: int| 0 <= j < cols.len() implies r[j].0@ != h@ by {
                assert(r[j] == cols[j]);
            }
            lemma_header_index_at(r, h@, cols.len() as int);
        },
    }
    assert forall|k: Seq<char>| k != h@ implies column_of(r, k) == column_of(cols, k) by {
        lemma_header_index(r, k);
        lemma_header_index(cols, k);
        match header_index(cols, k) {
            Some(i) => {
                assert(r[i] == cols[i]);
                lemma_header_index_at(r, k, i);
            },
            None => {
                match header_index(r, k) {
                    Some(j) => {
                        if j < cols.len() {
                            assert(r[j].0@ == cols[j].0@);
                        }
                    },
                    None => {},
                }
            },
        }
    }
}

/// Keeping some cells keeps the headers distinct; each kept cell is one of
/// the cells.
pub proof fn lemma_filter_distinct<C>(cols: Seq<(String, C)>, p: spec_fn((String, C)) -> bool)
    requires
        distinct_headers(cols),
    ensures
        distinct_headers(cols.filter(p)),
        forall|i: int| 0 <= i < cols.filter(p).len() ==> cols.contains(#[trigger] cols.filter(p)[i]),
    decreases cols.len(),
{
    reveal(Seq::filter);
    if cols.len() > 0 {
        let d = cols.drop_last();
        assert(distinct_headers(d)) by {
            assert forall|i: int, j: int|
                0 <= i < d.len() && 0 <= j < d.len() && i != j implies #[trigger] d[i].0@ != #[trigger] d[j].0@ by {
                assert(d[i] == cols[i] && d[j] == cols[j]);
            }
        }
        lemma_filter_distinct(d, p);
        let t = d.filter(p);
        let r = cols.filter(p);
        let x = cols.last();
        assert(cols[cols.len() - 1] == x);
        assert forall|i: int| 0 <= i < t.len() implies cols.contains(#[trigger] t[i]) by {
            let j = choose|j: int| 0 <= j < d.len() && d[j] == t[i];
            assert(cols[j] == d[j]);
        }
        if p(x) {
            assert(r == t.push(x));
            assert forall|i: int| 0 <= i < t.len() implies t[i].0@ != x.0@ by {
                let j = choose|j: int| 0 <= j < d.len() && d[j] == t[i];
                assert(cols[j] == d[j]);
            }
            assert forall|i: int, j: int|
                0 <= i < r.len() && 0 <= j < r.len() && i != j implies #[trigger] r[i].0@ != #[trigger] r[j].0@ by {
                if i < t.len() && j < t.len() {
                    assert(r[i] == t[i] && r[j] == t[j]);
                } else if i < t.len() {
                    assert(r[i] == t[i] && r[j] == x);
                } else {
                    assert(r[j] == t[j] && r[i] == x);
                }
            }
            assert forall|i: int| 0 <= i < r.len() implies cols.contains(#[trigger] r[i]) by {
                if i < t.len() {
                    assert(r[i] == t[i]);
                } else {
                    assert(r[i] == x);
                }
            }
        } else {
            assert(r == t);
        }
    }
}

/// Setting a cell keeps the headers distinct.
pub proof fn lemma_with_cell_distinct<C>(cols: Seq<(String, C)>, h: String, c: C)
    requires
        distinct_headers(cols),
    ensures
        distinct_headers(with_cell(cols, h, c)),
        column_of(with_cell(cols, h, c), h@) == Some(c),
        forall|k: Seq<char>| k != h@ ==> column_of(with_cell(cols, h, c), k) == column_of(cols, k),
{
    lemma_header_index(cols, h@);
    let r = with_cell(cols, h, c);
    match header_index(cols, h@) {
        Some(i) => {
            assert(r[i].0@ == cols[i].0@);
            assert forall|a: int, b: int|
                0 <= a < r.len() && 0 <= b < r.len() && a != b implies #[trigger] r[a].0@
                != #[trigger] r[b].0@ by {
                assert(r[a].0@ == cols[a].0@);
                assert(r[b].0@ == cols[b].0@);
            }
        },
        None => {
            assert forall|a: int, b: int|
                0 <= a < r.len() && 0 <= b < r.len() && a != b implies #[trigger] r[a].0@
                != #[trigger] r[b].0@ by {
                if a < cols.len() {
                    assert(r[a] == cols[a]);
                }
                if b < cols.len() {
                    assert(r[b] == cols[b]);
                }
            }
        },
    }
    lemma_cell_read_after_write(cols, h, c);
}

/// The abstract value of a cell: text as characters.
pub enum ValueView {
    String(Seq<char>),
    Float(u64),
    Date(Date),
}

/// The abstract value of a cell with its kind flag.
pub struct ColumnView {
    pub is_basic: bool,
    pub value: ValueView,
}

impl View for ColumnValue<String> {
    type V = ValueView;

    open spec fn view(&self) -> ValueView {
        match self {
            ColumnValue::String(s) => ValueView::String(s@),
            ColumnValue::Float(n) => ValueView::Float(*n),
            ColumnValue::Date(d) => ValueView::Date(*d),
        }
    }
}

impl View for Column<String> {
    type V = ColumnView;

    open spec fn view(&self) -> ColumnView {
        ColumnView { is_basic: self.is_basic, value: self.value@ }
    }
}

/// The abstract form of a list of cells: headers as characters, cells by
/// their views.
pub open spec fn cells_view(cols: Seq<(String, Column<String>)>) -> Seq<(Seq<char>, ColumnView)> {
    cols.map_values(|e: (String, Column<String>)| (e.0@, e.1@))
}

/// The position of the first entry whose key is `key`.
pub open spec fn key_index<V>(cols: Seq<(Seq<char>, V)>, key: Seq<char>) -> Option<int>
    decreases cols.len(),
{
    if cols.len() == 0 {
        None
    } else if cols[0].0 == key {
        Some(0)
    } else {
        match key_index(cols.drop_first(), key) {
            Some(i) => Some(i + 1),
            None => None,
        }
    }
}

/// `with_cell` on abstract cells.
pub open spec fn with_cell_view<V>(cols: Seq<(Seq<char>, V)>, h: Seq<char>, c: V) -> Seq<(Seq<char>, V)> {
    match key_index(cols, h) {
        Some(i) => cols.update(i, (h, c)),
        None => cols.push((h, c)),
    }
}

/// `with_cells` on abstract cells.
pub open spec fn with_cells_view<V>(cols: Seq<(Seq<char>, V)>, updates: Seq<(Seq<char>, V)>) -> Seq<
    (Seq<char>, V),
>
    decreases updates.len(),
{
    if updates.len() == 0 {
        cols
    } else {
        with_cell_view(
            with_cells_view(cols, updates.drop_last()),
            updates.last().0,
            updates.last().1,
        )
    }
}

/// Looking up a header in the abstract form finds the same position.
pub proof fn lemma_key_index_view(cols: Seq<(String, Column<String>)>, key: Seq<char>)
    ensures
        key_index(cells_view(cols), key) == header_index(cols, key),
    decreases cols.len(),
{
    if cols.len() > 0 {
        lemma_key_index_view(cols.drop_first(), key);
        assert(cells_view(cols).drop_first() =~= cells_view(cols.drop_first()));
    }
}

/// Setting a cell commutes with taking the abstract form.
pub proof fn lemma_with_cell_view(cols: Seq<(String, Column<String>)>, h: String, c: Column<String>)
    ensures
        cells_view(with_cell(cols, h, c)) == with_cell_view(cells_view(cols), h@, c@),
{
    lemma_key_index_view(cols, h@);
    lemma_header_index(cols, h@);
    match header_index(cols, h@) {
        Some(i) => {
            assert(cells_view(cols.update(i, (h, c))) =~= cells_view(cols).update(i, (h@, c@)));
        },
        None => {
            assert(cells_view(cols.push((h, c))) =~= cells_view(cols).push((h@, c@)));
        },
    }
}

/// Sets each cell of `updates` in turn (see `with_cells`).
pub fn set_columns(cols: &mut Vec<(String, Column<String>)>, updates: Vec<(String, Column<String>)>)
    ensures
        final(cols)@ == with_cells(old(cols)@, updates@),
{
    let ghost base = cols@;
    let ghost all = updates@;
    let mut updates = updates;
    let mut i: usize = 0;
    let n = updates.len();
    assert(all.skip(0) =~= all);
    assert(all.take(0) =~= Seq::<(String, Column<String>)>::empty());
    while i < n
        invariant
            n == all.len(),
            i <= n,
            updates@ == all.skip(i as int),
            cols@ == with_cells(base, all.take(i as int)),
        decreases n - i,
    {
        let (h, c) = updates.remove(0);
        assert(all.skip(i as int).remove(0) =~= all.skip(i + 1));
        assert(all.take(i + 1).drop_last() =~= all.take(i as int));
        set_column(cols, h, c);
        i = i + 1;
    }
    assert(all.take(n as int) =~= all);
}

/// Setting cells in turn keeps the headers distinct.
pub proof fn lemma_with_cells_distinct<C>(cols: Seq<(String, C)>, updates: Seq<(String, C)>)
    requires
        distinct_headers(cols),
    ensures
        distinct_headers(with_cells(cols, updates)),
    decreases updates.len(),
{
    if updates.len() > 0 {
        lemma_with_cells_distinct(cols, updates.drop_last());
        lemma_with_cell_distinct(with_cells(cols, updates.drop_last()), updates.last().0, updates.last().1);
    }
}

} // verus!
