use vstd::prelude::*;
use crate::models::{Column, ColumnValue, Date, Row, column_of, copy_columns, find_column, lemma_header_index, with_cells, set_columns};
use crate::order::{values_equal, same_value};
use crate::client_models::ColumnConfig;
use crate::edits::{toggle_id, contains_id, other_than, row_index, lemma_row_index, position_of_row};

verus! {

broadcast use vstd::seq_lib::group_seq_properties;

/// A cell edited in a row of a shown sheet.
#[derive(Clone, Debug, PartialEq)]
pub struct ColumnIdentity {
    pub row_id: u128,
    pub header: String,
    pub value: ColumnValue<String>,
}

/// What a shown sheet's editing is on: the primary row, the other rows, a
/// file being loaded, or nothing (`NoEdit`, the starting state).
#[derive(Clone, Copy, Debug, PartialEq, Eq, Structural)]
pub enum EditState {
    Primary,
    NonePrimary,
    LoadFile,
    NoEdit,
}

/// The edit mode of a shown sheet, with the edits made to it and not yet saved: a new sheet name (empty
/// for none), rows marked for deletion (shown rows, and collapsed rows that
/// stand for several rows), added rows, edited cells, added or changed cells
/// of the primary row, and headers of the primary row marked for deletion.
#[derive(Clone, Debug, PartialEq)]
pub struct SheetEdits {
    pub sheet_name: String,
    pub expanded_deleted_rows: Vec<u128>,
    pub collapsed_deleted_rows: Vec<u128>,
    pub added_rows: Vec<Row<u128, String>>,
    pub modified_columns: Vec<ColumnIdentity>,
    pub modified_primary_columns: Vec<(String, Column<String>)>,
    pub deleted_primary_columns: Vec<String>,
    pub edit_mode: EditState,
}

impl SheetEdits {
    /// Nothing is edited.
    pub open spec fn is_empty(&self) -> bool {
        &&& self.sheet_name@.len() == 0
        &&& self.expanded_deleted_rows@.len() == 0
        &&& self.collapsed_deleted_rows@.len() == 0
        &&& self.added_rows@.len() == 0
        &&& self.modified_columns@.len() == 0
        &&& self.modified_primary_columns@.len() == 0
        &&& self.deleted_primary_columns@.len() == 0
    }

    /// No edits, and editing on nothing.
    pub fn new() -> (res: Self)
        ensures
            res.is_empty(),
            res.edit_mode == EditState::NoEdit,
    {
        SheetEdits {
            sheet_name: String::new(),
            expanded_deleted_rows: Vec::new(),
            collapsed_deleted_rows: Vec::new(),
            added_rows: Vec::new(),
            modified_columns: Vec::new(),
            modified_primary_columns: Vec::new(),
            deleted_primary_columns: Vec::new(),
            edit_mode: EditState::NoEdit,
        }
    }

    /// Some edit has been made.
    pub fn has_anything_changed(&self) -> (res: bool)
        ensures
            res == !self.is_empty(),
    {
        !self.sheet_name.as_str().is_empty() || !self.expanded_deleted_rows.is_empty()
            || !self.collapsed_deleted_rows.is_empty() || !self.added_rows.is_empty()
            || !self.modified_columns.is_empty() || !self.modified_primary_columns.is_empty()
            || !self.deleted_primary_columns.is_empty()
    }

    /// Drops every edit and ends editing.
    pub fn revert_all_edits(&mut self)
        ensures
            final(self).is_empty(),
            final(self).edit_mode == EditState::NoEdit,
    {
        *self = SheetEdits::new();
    }

    /// Marks or unmarks a shown row for deletion: a collapsed row (one of the
    /// keys of `collapsed_ids`) in the collapsed list, any other row in the
    /// expanded list (see `toggle_id`).
    pub fn delete_row(&mut self, id: u128, collapsed_ids: &Vec<(u128, Vec<u128>)>)
        ensures
            is_collapsed_id(collapsed_ids@, id) ==> {
                &&& old(self).collapsed_deleted_rows@.contains(id) ==> final(self).collapsed_deleted_rows@ == old(self).collapsed_deleted_rows@.filter(other_than(id))
                &&& !old(self).collapsed_deleted_rows@.contains(id) ==> final(self).collapsed_deleted_rows@ == old(self).collapsed_deleted_rows@.push(id)
                &&& final(self).expanded_deleted_rows@ == old(self).expanded_deleted_rows@
            },
            !is_collapsed_id(collapsed_ids@, id) ==> {
                &&& old(self).expanded_deleted_rows@.contains(id) ==> final(self).expanded_deleted_rows@ == old(self).expanded_deleted_rows@.filter(other_than(id))
                &&& !old(self).expanded_deleted_rows@.contains(id) ==> final(self).expanded_deleted_rows@ == old(self).expanded_deleted_rows@.push(id)
                &&& final(self).collapsed_deleted_rows@ == old(self).collapsed_deleted_rows@
            },
            final(self).sheet_name == old(self).sheet_name,
            final(self).added_rows == old(self).added_rows,
            final(self).modified_columns == old(self).modified_columns,
            final(self).modified_primary_columns == old(self).modified_primary_columns,
            final(self).deleted_primary_columns == old(self).deleted_primary_columns,
            final(self).edit_mode == old(self).edit_mode,
    {
        if collapsed_members(collapsed_ids, id).is_some() {
            toggle_id(&mut self.collapsed_deleted_rows, id);
        } else {
            toggle_id(&mut self.expanded_deleted_rows, id);
        }
    }
}

/// The rows that the collapsed row `id` stands for, if it is one: the list
/// of the first entry for `id`.
pub open spec fn members_of(collapsed_ids: Seq<(u128, Vec<u128>)>, id: u128) -> Option<Seq<u128>>
    decreases collapsed_ids.len(),
{
    if collapsed_ids.len() == 0 {
        None
    } else if collapsed_ids[0].0 == id {
        Some(collapsed_ids[0].1@)
    } else {
        members_of(collapsed_ids.drop_first(), id)
    }
}

/// `id` is a collapsed row.
pub open spec fn is_collapsed_id(collapsed_ids: Seq<(u128, Vec<u128>)>, id: u128) -> bool {
    members_of(collapsed_ids, id) is Some
}

/// The rows that the collapsed row `id` stands for, if it is one.
pub fn collapsed_members(collapsed_ids: &Vec<(u128, Vec<u128>)>, id: u128) -> (res: Option<&Vec<u128>>)
    ensures
        match res {
            Some(v) => members_of(collapsed_ids@, id) == Some(v@),
            None => members_of(collapsed_ids@, id) is None,
        },
{
    let mut i: usize = 0;
    assert(collapsed_ids@.skip(0) =~= collapsed_ids@);
    while i < collapsed_ids.len()
        invariant
            i <= collapsed_ids@.len(),
            members_of(collapsed_ids@, id) == members_of(collapsed_ids@.skip(i as int), id),
        decreases collapsed_ids@.len() - i,
    {
        assert(collapsed_ids@.skip(i as int).drop_first() =~= collapsed_ids@.skip(i + 1));
        if collapsed_ids[i].0 == id {
            return Some(&collapsed_ids[i].1);
        }
        i = i + 1;
    }
    None
}

/// The collapsed row `c` stands for the row `x`.
pub open spec fn stands_for(collapsed_ids: Seq<(u128, Vec<u128>)>, c: u128, x: u128) -> bool {
    match members_of(collapsed_ids, c) {
        Some(m) => m.contains(x),
        None => false,
    }
}

/// The row is to be deleted: it is marked itself, or a marked collapsed row
/// stands for it.
pub open spec fn is_marked_for_deletion(
    expanded: Seq<u128>,
    collapsed: Seq<u128>,
    collapsed_ids: Seq<(u128, Vec<u128>)>,
    x: u128,
) -> bool {
    ||| expanded.contains(x)
    ||| exists|c: u128|
        #[trigger] collapsed.contains(c) && stands_for(collapsed_ids, c, x)
}

/// Adds `x` unless the list holds it.
fn push_new(ids: &mut Vec<u128>, x: u128)
    ensures
        final(ids)@.to_set() == old(ids)@.to_set().insert(x),
        old(ids)@.no_duplicates() ==> final(ids)@.no_duplicates(),
{
    if !contains_id(ids, x) {
        ids.push(x);
        assert(ids@.to_set() =~= old(ids)@.to_set().insert(x));
    } else {
        assert(ids@.to_set() =~= old(ids)@.to_set().insert(x));
    }
}

/// Adds the identifiers that the list does not hold yet, in order.
fn push_all_new(ids: &mut Vec<u128>, more: &Vec<u128>)
    ensures
        final(ids)@.to_set() == old(ids)@.to_set() + more@.to_set(),
        old(ids)@.no_duplicates() ==> final(ids)@.no_duplicates(),
{
    let ghost before = ids@;
    let mut t: usize = 0;
    assert(before.to_set() =~= before.to_set() + more@.take(0).to_set());
    while t < more.len()
        invariant
            t <= more@.len(),
            before.no_duplicates() ==> ids@.no_duplicates(),
            ids@.to_set() == before.to_set() + more@.take(t as int).to_set(),
        decreases more@.len() - t,
    {
        push_new(ids, more[t]);
        assert(more@.take(t + 1) =~= more@.take(t as int).push(more@[t as int]));
        assert(more@.take(t + 1).to_set() =~= more@.take(t as int).to_set().insert(more@[t as int]));
        assert(ids@.to_set() =~= before.to_set() + more@.take(t + 1).to_set());
        t = t + 1;
    }
    assert(more@.take(more@.len() as int) =~= more@);
}

/// The rows that the collapsed rows `cs` stand for.
pub open spec fn members_set(collapsed_ids: Seq<(u128, Vec<u128>)>, cs: Seq<u128>) -> Set<u128>
    decreases cs.len(),
{
    if cs.len() == 0 {
        Set::empty()
    } else {
        members_set(collapsed_ids, cs.drop_last()) + match members_of(collapsed_ids, cs.last()) {
            Some(m) => m.to_set(),
            None => Set::empty(),
        }
    }
}

/// A row is among those that the collapsed rows stand for exactly when one
/// of them stands for it.
pub proof fn lemma_members_set(collapsed_ids: Seq<(u128, Vec<u128>)>, cs: Seq<u128>, x: u128)
    ensures
        members_set(collapsed_ids, cs).contains(x) <==> exists|c: u128|
            #[trigger] cs.contains(c) && stands_for(collapsed_ids, c, x),
    decreases cs.len(),
{
    if cs.len() == 0 {
        assert(members_set(collapsed_ids, cs) == Set::<u128>::empty());
        assert(!members_set(collapsed_ids, cs).contains(x));
        assert(!(exists|c: u128| #[trigger] cs.contains(c) && stands_for(collapsed_ids, c, x)));
    } else {
        lemma_members_set(collapsed_ids, cs.drop_last(), x);
        if members_set(collapsed_ids, cs).contains(x) {
            if members_set(collapsed_ids, cs.drop_last()).contains(x) {
                let c = choose|c: u128| #[trigger] cs.drop_last().contains(c) && stands_for(collapsed_ids, c, x);
                let j = choose|j: int| 0 <= j < cs.len() - 1 && cs.drop_last()[j] == c;
                assert(cs[j] == c);
                assert(cs.contains(c));
            } else {
                assert(cs[cs.len() - 1] == cs.last());
                assert(cs.contains(cs.last()));
                assert(stands_for(collapsed_ids, cs.last(), x));
            }
        }
        if exists|c: u128| #[trigger] cs.contains(c) && stands_for(collapsed_ids, c, x) {
            let c = choose|c: u128| #[trigger] cs.contains(c) && stands_for(collapsed_ids, c, x);
            let j = choose|j: int| 0 <= j < cs.len() && cs[j] == c;
            if j < cs.len() - 1 {
                assert(cs.drop_last()[j] == c);
                assert(cs.drop_last().contains(c));
            } else {
                assert(c == cs.last());
                match members_of(collapsed_ids, c) {
                    Some(m) => {
                        assert(m.to_set().contains(x));
                    },
                    None => {},
                }
            }
        }
    }
}

/// The rows to delete when saving: the marked rows and the rows that the
/// marked collapsed rows stand for, each once.
pub fn rows_to_delete(
    expanded: &Vec<u128>,
    collapsed: &Vec<u128>,
    collapsed_ids: &Vec<(u128, Vec<u128>)>,
) -> (res: Vec<u128>)
    ensures
        res@.no_duplicates(),
        forall|x: u128|
            #[trigger] res@.contains(x) <==> is_marked_for_deletion(
                expanded@,
                collapsed@,
                collapsed_ids@,
                x,
            ),
{
    let mut res: Vec<u128> = Vec::new();
    assert(res@.to_set() =~= Set::<u128>::empty());
    push_all_new(&mut res, expanded);
    assert(res@.to_set() =~= expanded@.to_set());
    let mut k: usize = 0;
    assert(collapsed@.take(0) =~= Seq::<u128>::empty());
    assert(res@.to_set() =~= expanded@.to_set() + members_set(collapsed_ids@, collapsed@.take(0)));
    while k < collapsed.len()
        invariant
            k <= collapsed@.len(),
            res@.no_duplicates(),
            res@.to_set() == expanded@.to_set() + members_set(collapsed_ids@, collapsed@.take(k as int)),
        decreases collapsed@.len() - k,
    {
        let c = collapsed[k];
        assert(collapsed@.take(k + 1).drop_last() =~= collapsed@.take(k as int));
        assert(collapsed@.take(k + 1).last() == c);
        match collapsed_members(collapsed_ids, c) {
            Some(members) => {
                push_all_new(&mut res, members);
            },
            None => {},
        }
        assert(res@.to_set() =~= expanded@.to_set() + members_set(collapsed_ids@, collapsed@.take(k + 1)));
        k = k + 1;
    }
    assert(collapsed@.take(collapsed@.len() as int) =~= collapsed@);
    assert forall|x: u128|
        #[trigger] res@.contains(x) <==> is_marked_for_deletion(
            expanded@,
            collapsed@,
            collapsed_ids@,
            x,
        ) by {
        lemma_members_set(collapsed_ids@, collapsed@, x);
        assert(res@.to_set().contains(x) == res@.contains(x));
        assert(expanded@.to_set().contains(x) == expanded@.contains(x));
    }
    res
}

/// The cells of the sheet's primary row: the first row whose identifier is
/// the sheet's; none when there is no such row.
pub open spec fn primary_cells_of(rows: Seq<Row<u128, String>>, sheet_id: u128) -> Seq<(String, Column<String>)> {
    match row_index(rows, sheet_id) {
        Some(i) => rows[i].columns@,
        None => Seq::empty(),
    }
}

/// A copy of the cells of the sheet's primary row (see `primary_cells_of`).
pub fn primary_row_columns(rows: &Vec<Row<u128, String>>, sheet_id: u128) -> (res: Vec<(String, Column<String>)>)
    ensures
        res@ == primary_cells_of(rows@, sheet_id),
{
    let found = position_of_row(rows, sheet_id);
    proof {
        lemma_row_index(rows@, sheet_id);
    }
    match found {
        Some(i) => copy_columns(&rows[i].columns),
        None => Vec::new(),
    }
}

/// The cell is a basic one (entered, not calculated).
pub open spec fn is_basic_cell() -> spec_fn((String, Column<String>)) -> bool {
    |e: (String, Column<String>)| e.1.is_basic
}

/// The basic cells of a row, in order.
pub fn basic_columns(cols: Vec<(String, Column<String>)>) -> (res: Vec<(String, Column<String>)>)
    ensures
        res@ == cols@.filter(is_basic_cell()),
{
    let ghost all = cols@;
    let mut rest = cols;
    let mut res: Vec<(String, Column<String>)> = Vec::new();
    let n = rest.len();
    let mut k: usize = 0;
    assert(all.skip(0) =~= all);
    assert(all.take(0) =~= Seq::<(String, Column<String>)>::empty());
    while k < n
        invariant
            n == all.len(),
            k <= n,
            rest@ == all.skip(k as int),
            res@ == all.take(k as int).filter(is_basic_cell()),
        decreases n - k,
    {
        let e = rest.remove(0);
        assert(all.skip(k as int).remove(0) =~= all.skip(k + 1));
        assert(all.take(k + 1) =~= all.take(k as int).push(all[k as int]));
        proof {
            all.take(k as int).lemma_filter_push(all[k as int], is_basic_cell());
        }
        if e.1.is_basic {
            res.push(e);
        }
        k = k + 1;
    }
    assert(all.take(n as int) =~= all);
    res
}

/// The rows that a new sheet is saved with: the edited primary cells set
/// over the cells of the primary row (the first row with the sheet's
/// identifier), and, in every row, only the basic cells.
pub fn rows_for_save(
    rows: Vec<Row<u128, String>>,
    sheet_id: u128,
    modified_primary: Vec<(String, Column<String>)>,
) -> (res: Vec<Row<u128, String>>)
    ensures
        res@.len() == rows@.len(),
        forall|i: int|
            0 <= i < rows@.len() ==> (#[trigger] res@[i]).id == rows@[i].id && res@[i].columns@ == (
            if row_index(rows@, sheet_id) == Some(i) {
                with_cells(rows@[i].columns@, modified_primary@)
            } else {
                rows@[i].columns@
            }).filter(is_basic_cell()),
        (forall|i: int| 0 <= i < rows@.len() ==> #[trigger] rows@[i].well_formed()) ==> forall|i: int|
            0 <= i < res@.len() ==> #[trigger] res@[i].well_formed(),
{
    let ghost all = rows@;
    let found = position_of_row(&rows, sheet_id);
    proof {
        lemma_row_index(all, sheet_id);
    }
    let mut rest = rows;
    let mut modified = Some(modified_primary);
    let mut res: Vec<Row<u128, String>> = Vec::new();
    let n = rest.len();
    let mut k: usize = 0;
    assert(all.skip(0) =~= all);
    while k < n
        invariant
            n == all.len(),
            k <= n,
            rest@ == all.skip(k as int),
            res@.len() == k,
            match found {
                Some(p) => row_index(all, sheet_id) == Some(p as int) && (k <= p ==> modified == Some(modified_primary)),
                None => row_index(all, sheet_id) is None,
            },
            forall|i: int|
                0 <= i < k ==> (#[trigger] res@[i]).id == all[i].id && res@[i].columns@ == (
                if row_index(all, sheet_id) == Some(i) {
                    with_cells(all[i].columns@, modified_primary@)
                } else {
                    all[i].columns@
                }).filter(is_basic_cell()),
        decreases n - k,
    {
        let row = rest.remove(0);
        assert(all.skip(k as int).remove(0) =~= all.skip(k + 1));
        let Row { id, columns } = row;
        let mut columns = columns;
        if found == Some(k) {
            match modified.take() {
                Some(m) => {
                    set_columns(&mut columns, m);
                },
                None => {},
            }
        }
        let kept = basic_columns(columns);
        res.push(Row { id, columns: kept });
        k = k + 1;
    }
    proof {
        if forall|i: int| 0 <= i < all.len() ==> #[trigger] all[i].well_formed() {
            assert forall|i: int| 0 <= i < res@.len() implies #[trigger] res@[i].well_formed() by {
                assert(all[i].well_formed());
                let cols = if row_index(all, sheet_id) == Some(i) {
                    crate::models::lemma_with_cells_distinct(all[i].columns@, modified_primary@);
                    with_cells(all[i].columns@, modified_primary@)
                } else {
                    all[i].columns@
                };
                crate::models::lemma_filter_distinct(cols, is_basic_cell());
            }
        }
    }
    res
}

impl SheetEdits {
    /// The delete button of a primary cell: a cell added in this edit is
    /// dropped; a header marked for deletion is unmarked; any other
    /// non-empty header is marked for deletion.
    pub fn delete_primary_column(&mut self, header: &String)
        ensures
            column_of_header(old(self).modified_primary_columns@, header@) ==> final(self).modified_primary_columns@
                == old(self).modified_primary_columns@.filter(header_other_than(header@)) && final(self).deleted_primary_columns
                == old(self).deleted_primary_columns,
            !column_of_header(old(self).modified_primary_columns@, header@) && text_listed(old(self).deleted_primary_columns@, header@)
                ==> final(self).deleted_primary_columns@ == old(self).deleted_primary_columns@.filter(text_other_than(header@))
                && final(self).modified_primary_columns == old(self).modified_primary_columns,
            !column_of_header(old(self).modified_primary_columns@, header@) && !text_listed(old(self).deleted_primary_columns@, header@)
                ==> final(self).modified_primary_columns == old(self).modified_primary_columns && (if header@.len() == 0 {
                final(self).deleted_primary_columns == old(self).deleted_primary_columns
            } else {
                final(self).deleted_primary_columns@ == old(self).deleted_primary_columns@.push(*header)
            }),
            final(self).sheet_name == old(self).sheet_name,
            final(self).expanded_deleted_rows == old(self).expanded_deleted_rows,
            final(self).collapsed_deleted_rows == old(self).collapsed_deleted_rows,
            final(self).added_rows == old(self).added_rows,
            final(self).modified_columns == old(self).modified_columns,
            final(self).edit_mode == old(self).edit_mode,
    {
        if has_header(&self.modified_primary_columns, header) {
            let kept = without_header(&self.modified_primary_columns, header);
            self.modified_primary_columns = kept;
        } else if has_text(&self.deleted_primary_columns, header) {
            let kept = without_text(&self.deleted_primary_columns, header);
            self.deleted_primary_columns = kept;
        } else if !header.as_str().is_empty() {
            self.deleted_primary_columns.push(header.clone());
        }
    }
}

/// Some entry has the header `h`.
pub open spec fn column_of_header<C>(cols: Seq<(String, C)>, h: Seq<char>) -> bool {
    exists|i: int| 0 <= i < cols.len() && #[trigger] cols[i].0@ == h
}

/// The entry's header is not `h`.
pub open spec fn header_other_than<C>(h: Seq<char>) -> spec_fn((String, C)) -> bool {
    |e: (String, C)| e.0@ != h
}

/// Some text of the list is `h`.
pub open spec fn text_listed(texts: Seq<String>, h: Seq<char>) -> bool {
    exists|i: int| 0 <= i < texts.len() && #[trigger] texts[i]@ == h
}

/// The text is not `h`.
pub open spec fn text_other_than(h: Seq<char>) -> spec_fn(String) -> bool {
    |t: String| t@ != h
}

fn has_header(cols: &Vec<(String, Column<String>)>, h: &String) -> (res: bool)
    ensures
        res == column_of_header(cols@, h@),
{
    let mut i: usize = 0;
    while i < cols.len()
        invariant
            i <= cols@.len(),
            forall|j: int| 0 <= j < i ==> cols@[j].0@ != h@,
        decreases cols@.len() - i,
    {
        if cols[i].0 == *h {
            return true;
        }
        i = i + 1;
    }
    false
}

fn without_header(cols: &Vec<(String, Column<String>)>, h: &String) -> (res: Vec<(String, Column<String>)>)
    ensures
        res@ == cols@.filter(header_other_than(h@)),
{
    let mut res: Vec<(String, Column<String>)> = Vec::new();
    let mut k: usize = 0;
    assert(cols@.take(0) =~= Seq::<(String, Column<String>)>::empty());
    while k < cols.len()
        invariant
            k <= cols@.len(),
            res@ == cols@.take(k as int).filter(header_other_than(h@)),
        decreases cols@.len() - k,
    {
        assert(cols@.take(k + 1) =~= cols@.take(k as int).push(cols@[k as int]));
        proof {
            cols@.take(k as int).lemma_filter_push(cols@[k as int], header_other_than(h@));
        }
        if cols[k].0 != *h {
            let e = (cols[k].0.clone(), cols[k].1.copy());
            assert(e == cols@[k as int]);
            res.push(e);
        }
        k = k + 1;
    }
    assert(cols@.take(cols@.len() as int) =~= cols@);
    res
}

fn has_text(texts: &Vec<String>, h: &String) -> (res: bool)
    ensures
        res == text_listed(texts@, h@),
{
    let mut i: usize = 0;
    while i < texts.len()
        invariant
            i <= texts@.len(),
            forall|j: int| 0 <= j < i ==> texts@[j]@ != h@,
        decreases texts@.len() - i,
    {
        if texts[i] == *h {
            return true;
        }
        i = i + 1;
    }
    false
}

fn without_text(texts: &Vec<String>, h: &String) -> (res: Vec<String>)
    ensures
        res@ == texts@.filter(text_other_than(h@)),
{
    let mut res: Vec<String> = Vec::new();
    let mut k: usize = 0;
    assert(texts@.take(0) =~= Seq::<String>::empty());
    while k < texts.len()
        invariant
            k <= texts@.len(),
            res@ == texts@.take(k as int).filter(text_other_than(h@)),
        decreases texts@.len() - k,
    {
        assert(texts@.take(k + 1) =~= texts@.take(k as int).push(texts@[k as int]));
        proof {
            texts@.take(k as int).lemma_filter_push(texts@[k as int], text_other_than(h@));
        }
        if texts[k] != *h {
            res.push(texts[k].clone());
        }
        k = k + 1;
    }
    assert(texts@.take(texts@.len() as int) =~= texts@);
    res
}

impl ColumnIdentity {
    /// A copy of the edited cell.
    pub fn copy(&self) -> (res: Self)
        ensures
            res == *self,
    {
        ColumnIdentity { row_id: self.row_id, header: self.header.clone(), value: self.value.copy() }
    }
}

/// Some row with the identifier `id` has a cell under `h`.
pub open spec fn has_cell_in(rows: Seq<Row<u128, String>>, id: u128, h: Seq<char>) -> bool {
    exists|i: int| 0 <= i < rows.len() && #[trigger] rows[i].id == id && column_of(rows[i].columns@, h) is Some
}

/// Some row with the identifier `id` has a cell under a header other than `h`.
pub open spec fn has_other_cell_in(rows: Seq<Row<u128, String>>, id: u128, h: Seq<char>) -> bool {
    exists|i: int, j: int|
        0 <= i < rows.len() && #[trigger] rows[i].id == id && 0 <= j < rows[i].columns@.len()
            && #[trigger] rows[i].columns@[j].0@ != h
}

/// The edited cell exists in the shown rows: saving it updates it.
pub open spec fn is_update_of(rows: Seq<Row<u128, String>>) -> spec_fn(ColumnIdentity) -> bool {
    |c: ColumnIdentity| has_cell_in(rows, c.row_id, c.header@)
}

/// The rows of the edited cells that are updates.
pub open spec fn updated_row_ids(modified: Seq<ColumnIdentity>, rows: Seq<Row<u128, String>>) -> Seq<u128> {
    modified.filter(is_update_of(rows)).map_values(|c: ColumnIdentity| c.row_id)
}

/// The edited cell is saved as a new cell: its row has no update among the
/// edits, and the row is shown with a cell under another header.
pub open spec fn is_insert_of(modified: Seq<ColumnIdentity>, rows: Seq<Row<u128, String>>) -> spec_fn(ColumnIdentity) -> bool {
    |c: ColumnIdentity| !updated_row_ids(modified, rows).contains(c.row_id) && has_other_cell_in(rows, c.row_id, c.header@)
}

/// A primary cell as an edited cell of the sheet's primary row.
pub open spec fn as_identity(sheet_id: u128) -> spec_fn((String, Column<String>)) -> ColumnIdentity {
    |e: (String, Column<String>)| ColumnIdentity { row_id: sheet_id, header: e.0, value: e.1.value }
}

/// The primary row has a cell under the header of the entry.
pub open spec fn in_cells(cols: Seq<(String, Column<String>)>) -> spec_fn((String, Column<String>)) -> bool {
    |e: (String, Column<String>)| column_of(cols, e.0@) is Some
}

/// The primary row has no cell under the header of the entry.
pub open spec fn not_in_cells(cols: Seq<(String, Column<String>)>) -> spec_fn((String, Column<String>)) -> bool {
    |e: (String, Column<String>)| column_of(cols, e.0@) is None
}

fn row_has_cell(rows: &Vec<Row<u128, String>>, id: u128, h: &String) -> (res: bool)
    ensures
        res == has_cell_in(rows@, id, h@),
{
    let mut i: usize = 0;
    while i < rows.len()
        invariant
            i <= rows@.len(),
            forall|k: int| 0 <= k < i ==> !(#[trigger] rows@[k].id == id && column_of(rows@[k].columns@, h@) is Some),
        decreases rows@.len() - i,
    {
        if rows[i].id == id {
            let found = find_column(&rows[i].columns, h);
            if found.is_some() {
                return true;
            }
        }
        i = i + 1;
    }
    false
}

fn row_has_other_cell(rows: &Vec<Row<u128, String>>, id: u128, h: &String) -> (res: bool)
    ensures
        res == has_other_cell_in(rows@, id, h@),
{
    let mut i: usize = 0;
    while i < rows.len()
        invariant
            i <= rows@.len(),
            forall|k: int, j: int|
                0 <= k < i && #[trigger] rows@[k].id == id && 0 <= j < rows@[k].columns@.len() ==> #[trigger] rows@[k].columns@[j].0@ == h@,
        decreases rows@.len() - i,
    {
        if rows[i].id == id {
            let cols = &rows[i].columns;
            let mut j: usize = 0;
            while j < cols.len()
                invariant
                    j <= cols@.len(),
                    i < rows@.len(),
                    rows@[i as int].id == id,
                    *cols == rows@[i as int].columns,
                    forall|t: int| 0 <= t < j ==> #[trigger] cols@[t].0@ == h@,
                decreases cols@.len() - j,
            {
                if cols[j].0 != *h {
                    assert(rows@[i as int].columns@[j as int].0@ != h@);
                    assert(rows@[i as int].id == id);
                    return true;
                }
                j = j + 1;
            }
        }
        i = i + 1;
    }
    false
}

/// The edited cells of the shown rows and of the primary row, split into
/// those that update an existing cell and those that are saved as new
/// cells, each in the order of the edits, the primary cells after the
/// others.
pub fn plan_column_saves(
    modified: &Vec<ColumnIdentity>,
    modified_primary: &Vec<(String, Column<String>)>,
    primary_columns: &Vec<(String, Column<String>)>,
    rows: &Vec<Row<u128, String>>,
    sheet_id: u128,
) -> (res: (Vec<ColumnIdentity>, Vec<ColumnIdentity>))
    ensures
        res.0@ == modified@.filter(is_update_of(rows@)) + modified_primary@.filter(in_cells(primary_columns@)).map_values(as_identity(sheet_id)),
        res.1@ == modified@.filter(is_insert_of(modified@, rows@)) + modified_primary@.filter(not_in_cells(primary_columns@)).map_values(as_identity(sheet_id)),
{
    let mut updated: Vec<ColumnIdentity> = Vec::new();
    let mut updated_ids: Vec<u128> = Vec::new();
    let mut k: usize = 0;
    assert(modified@.take(0) =~= Seq::<ColumnIdentity>::empty());
    while k < modified.len()
        invariant
            k <= modified@.len(),
            updated@ == modified@.take(k as int).filter(is_update_of(rows@)),
            updated_ids@ == updated@.map_values(|c: ColumnIdentity| c.row_id),
        decreases modified@.len() - k,
    {
        assert(modified@.take(k + 1) =~= modified@.take(k as int).push(modified@[k as int]));
        proof {
            modified@.take(k as int).lemma_filter_push(modified@[k as int], is_update_of(rows@));
        }
        if row_has_cell(rows, modified[k].row_id, &modified[k].header) {
            updated_ids.push(modified[k].row_id);
            updated.push(modified[k].copy());
            assert(updated_ids@ =~= updated@.map_values(|c: ColumnIdentity| c.row_id));
        }
        k = k + 1;
    }
    assert(modified@.take(modified@.len() as int) =~= modified@);
    assert(updated_ids@ == updated_row_ids(modified@, rows@));
    let mut inserted: Vec<ColumnIdentity> = Vec::new();
    let mut k: usize = 0;
    while k < modified.len()
        invariant
            k <= modified@.len(),
            updated_ids@ == updated_row_ids(modified@, rows@),
            inserted@ == modified@.take(k as int).filter(is_insert_of(modified@, rows@)),
        decreases modified@.len() - k,
    {
        assert(modified@.take(k + 1) =~= modified@.take(k as int).push(modified@[k as int]));
        proof {
            modified@.take(k as int).lemma_filter_push(modified@[k as int], is_insert_of(modified@, rows@));
        }
        if !contains_id(&updated_ids, modified[k].row_id) && row_has_other_cell(rows, modified[k].row_id, &modified[k].header) {
            inserted.push(modified[k].copy());
        }
        k = k + 1;
    }
    assert(modified@.take(modified@.len() as int) =~= modified@);
    let ghost base_updated = updated@;
    let ghost base_inserted = inserted@;
    let mut k: usize = 0;
    assert(modified_primary@.take(0) =~= Seq::<(String, Column<String>)>::empty());
    while k < modified_primary.len()
        invariant
            k <= modified_primary@.len(),
            updated@ == base_updated + modified_primary@.take(k as int).filter(in_cells(primary_columns@)).map_values(as_identity(sheet_id)),
            inserted@ == base_inserted + modified_primary@.take(k as int).filter(not_in_cells(primary_columns@)).map_values(as_identity(sheet_id)),
        decreases modified_primary@.len() - k,
    {
        let ghost e = modified_primary@[k as int];
        assert(modified_primary@.take(k + 1) =~= modified_primary@.take(k as int).push(e));
        proof {
            modified_primary@.take(k as int).lemma_filter_push(e, in_cells(primary_columns@));
            modified_primary@.take(k as int).lemma_filter_push(e, not_in_cells(primary_columns@));
        }
        let identity = ColumnIdentity {
            row_id: sheet_id,
            header: modified_primary[k].0.clone(),
            value: modified_primary[k].1.value.copy(),
        };
        assert(identity == as_identity(sheet_id)(e));
        let ghost before_u = modified_primary@.take(k as int).filter(in_cells(primary_columns@));
        let ghost before_i = modified_primary@.take(k as int).filter(not_in_cells(primary_columns@));
        assert(before_u.push(e).map_values(as_identity(sheet_id)) =~= before_u.map_values(as_identity(sheet_id)).push(identity));
        assert(before_i.push(e).map_values(as_identity(sheet_id)) =~= before_i.map_values(as_identity(sheet_id)).push(identity));
        let found = find_column(primary_columns, &modified_primary[k].0);
        if found.is_some() {
            updated.push(identity);
        } else {
            inserted.push(identity);
        }
        k = k + 1;
    }
    assert(modified_primary@.take(modified_primary@.len() as int) =~= modified_primary@);
    (updated, inserted)
}

/// The first edit of the cell under `h` in the row `id`.
pub open spec fn first_edit_for(edits: Seq<ColumnIdentity>, id: u128, h: Seq<char>) -> Option<ColumnIdentity>
    decreases edits.len(),
{
    if edits.len() == 0 {
        None
    } else if edits[0].row_id == id && edits[0].header@ == h {
        Some(edits[0])
    } else {
        first_edit_for(edits.drop_first(), id, h)
    }
}

/// A cell of the row `id` after the edits: the value of its first edit, as
/// a basic cell, or unchanged.
pub open spec fn patched_cell(edits: Seq<ColumnIdentity>, id: u128) -> spec_fn((String, Column<String>)) -> (String, Column<String>) {
    |e: (String, Column<String>)| match first_edit_for(edits, id, e.0@) {
        Some(m) => (e.0, Column { is_basic: true, value: m.value }),
        None => e,
    }
}

/// The row is not marked for deletion.
pub open spec fn not_deleted(deleted: Seq<u128>) -> spec_fn(Row<u128, String>) -> bool {
    |r: Row<u128, String>| !deleted.contains(r.id)
}

/// The edits of shown cells followed by the edits of primary cells.
pub fn all_cell_edits(
    modified: &Vec<ColumnIdentity>,
    modified_primary: &Vec<(String, Column<String>)>,
    sheet_id: u128,
) -> (res: Vec<ColumnIdentity>)
    ensures
        res@ == modified@ + modified_primary@.map_values(as_identity(sheet_id)),
{
    let mut res: Vec<ColumnIdentity> = Vec::new();
    let mut k: usize = 0;
    while k < modified.len()
        invariant
            k <= modified@.len(),
            res@ == modified@.take(k as int),
        decreases modified@.len() - k,
    {
        res.push(modified[k].copy());
        assert(modified@.take(k + 1) =~= modified@.take(k as int).push(modified@[k as int]));
        k = k + 1;
    }
    assert(modified@.take(modified@.len() as int) =~= modified@);
    let mut k: usize = 0;
    while k < modified_primary.len()
        invariant
            k <= modified_primary@.len(),
            res@ == modified@ + modified_primary@.take(k as int).map_values(as_identity(sheet_id)),
        decreases modified_primary@.len() - k,
    {
        let identity = ColumnIdentity {
            row_id: sheet_id,
            header: modified_primary[k].0.clone(),
            value: modified_primary[k].1.value.copy(),
        };
        res.push(identity);
        assert(modified_primary@.take(k + 1).map_values(as_identity(sheet_id)) =~= modified_primary@.take(k as int).map_values(as_identity(sheet_id)).push(identity));
        k = k + 1;
    }
    assert(modified_primary@.take(modified_primary@.len() as int) =~= modified_primary@);
    res
}

/// The first edit of the cell under `h` in the row `id`.
fn find_edit(edits: &Vec<ColumnIdentity>, id: u128, h: &String) -> (res: Option<usize>)
    ensures
        match res {
            Some(k) => k < edits@.len() && first_edit_for(edits@, id, h@) == Some(edits@[k as int]),
            None => first_edit_for(edits@, id, h@) is None,
        },
{
    let mut k: usize = 0;
    assert(edits@.skip(0) =~= edits@);
    while k < edits.len()
        invariant
            k <= edits@.len(),
            first_edit_for(edits@, id, h@) == first_edit_for(edits@.skip(k as int), id, h@),
        decreases edits@.len() - k,
    {
        assert(edits@.skip(k as int).drop_first() =~= edits@.skip(k + 1));
        if edits[k].row_id == id && edits[k].header == *h {
            return Some(k);
        }
        k = k + 1;
    }
    None
}

/// The cells of the row `id` after the edits.
fn patch_cells(cols: Vec<(String, Column<String>)>, edits: &Vec<ColumnIdentity>, id: u128) -> (res: Vec<(String, Column<String>)>)
    ensures
        res@ == cols@.map_values(patched_cell(edits@, id)),
{
    let ghost all = cols@;
    let mut rest = cols;
    let mut res: Vec<(String, Column<String>)> = Vec::new();
    let n = rest.len();
    let mut k: usize = 0;
    assert(all.skip(0) =~= all);
    while k < n
        invariant
            n == all.len(),
            k <= n,
            rest@ == all.skip(k as int),
            res@ == all.take(k as int).map_values(patched_cell(edits@, id)),
        decreases n - k,
    {
        let (h, c) = rest.remove(0);
        assert(all.skip(k as int).remove(0) =~= all.skip(k + 1));
        let found = find_edit(edits, id, &h);
        let cell = match found {
            Some(e) => Column { is_basic: true, value: edits[e].value.copy() },
            None => c,
        };
        let ghost entry = (h, cell);
        res.push((h, cell));
        assert(all.take(k + 1).map_values(patched_cell(edits@, id)) =~= all.take(k as int).map_values(patched_cell(edits@, id)).push(entry));
        k = k + 1;
    }
    assert(all.take(n as int) =~= all);
    res
}

/// The shown rows after a save: the added rows after the others, without the
/// deleted rows, and in the first row of each identifier every cell that has
/// an edit set to the value of its first edit.
pub fn patch_rows(
    rows: Vec<Row<u128, String>>,
    added: Vec<Row<u128, String>>,
    deleted: &Vec<u128>,
    edits: &Vec<ColumnIdentity>,
) -> (res: Vec<Row<u128, String>>)
    ensures
        ({
            let kept = (rows@ + added@).filter(not_deleted(deleted@));
            &&& res@.len() == kept.len()
            &&& forall|i: int|
                0 <= i < kept.len() ==> (#[trigger] res@[i]).id == kept[i].id && res@[i].columns@ == if row_index(kept, kept[i].id) == Some(i) {
                    kept[i].columns@.map_values(patched_cell(edits@, kept[i].id))
                } else {
                    kept[i].columns@
                }
        }),
        (forall|i: int| 0 <= i < rows@.len() ==> #[trigger] rows@[i].well_formed()) && (forall|i: int|
            0 <= i < added@.len() ==> #[trigger] added@[i].well_formed()) ==> forall|i: int|
            0 <= i < res@.len() ==> #[trigger] res@[i].well_formed(),
{
    let ghost all = rows@ + added@;
    let ghost first_rows = rows@;
    let ghost more_rows = added@;
    let mut rest = rows;
    let mut added = added;
    rest.append(&mut added);
    let ghost kept = all.filter(not_deleted(deleted@));
    let mut res: Vec<Row<u128, String>> = Vec::new();
    let mut seen: Vec<u128> = Vec::new();
    let n = rest.len();
    let mut k: usize = 0;
    assert(all.skip(0) =~= all);
    assert(all.take(0) =~= Seq::<Row<u128, String>>::empty());
    while k < n
        invariant
            n == all.len(),
            k <= n,
            rest@ == all.skip(k as int),
            res@.len() == all.take(k as int).filter(not_deleted(deleted@)).len(),
            seen@ == all.take(k as int).filter(not_deleted(deleted@)).map_values(|r: Row<u128, String>| r.id),
            forall|i: int|
                0 <= i < res@.len() ==> {
                    let ks = all.take(k as int).filter(not_deleted(deleted@));
                    (#[trigger] res@[i]).id == ks[i].id && res@[i].columns@ == if row_index(ks, ks[i].id) == Some(i) {
                        ks[i].columns@.map_values(patched_cell(edits@, ks[i].id))
                    } else {
                        ks[i].columns@
                    }
                },
        decreases n - k,
    {
        let row = rest.remove(0);
        assert(all.skip(k as int).remove(0) =~= all.skip(k + 1));
        let ghost ks = all.take(k as int).filter(not_deleted(deleted@));
        assert(all.take(k + 1) =~= all.take(k as int).push(row));
        proof {
            all.take(k as int).lemma_filter_push(row, not_deleted(deleted@));
        }
        if !contains_id(deleted, row.id) {
            let ghost ks2 = ks.push(row);
            let first = !contains_id(&seen, row.id);
            proof {
                lemma_row_index(ks2, row.id);
                lemma_row_index(ks, row.id);
                if first {
                    assert forall|j: int| 0 <= j < ks.len() implies ks[j].id != row.id by {
                        assert(seen@[j] == ks[j].id);
                    }
                    assert(row_index(ks2, row.id) == Some(ks.len() as int)) by {
                        match row_index(ks2, row.id) {
                            Some(t) => {
                                if t < ks.len() {
                                    assert(ks2[t] == ks[t]);
                                }
                            },
                            None => {
                                assert(ks2[ks.len() as int] == row);
                            },
                        }
                    }
                } else {
                    let j = choose|j: int| 0 <= j < seen@.len() && seen@[j] == row.id;
                    assert(ks[j].id == row.id);
                    assert(ks2[j] == ks[j]);
                    match row_index(ks2, row.id) {
                        Some(t) => {
                            assert(t <= j);
                        },
                        None => {},
                    }
                }
                assert forall|i: int| 0 <= i < ks.len() implies row_index(ks2, ks2[i].id) == Some(i) <==> row_index(ks, ks[i].id) == Some(i) by {
                    lemma_row_index(ks2, ks2[i].id);
                    lemma_row_index(ks, ks[i].id);
                    assert(ks2[i] == ks[i]);
                    match row_index(ks, ks[i].id) {
                        Some(t) => {
                            assert(ks2[t] == ks[t]);
                            match row_index(ks2, ks2[i].id) {
                                Some(u) => {
                                    if u < t {
                                        assert(ks2[u] == ks[u]);
                                    }
                                },
                                None => {},
                            }
                        },
                        None => {},
                    }
                }
            }
            let id = row.id;
            let Row { id: _, columns } = row;
            let columns = if first {
                patch_cells(columns, edits, id)
            } else {
                columns
            };
            seen.push(id);
            res.push(Row { id, columns });
            assert(ks2.map_values(|r: Row<u128, String>| r.id) =~= ks.map_values(|r: Row<u128, String>| r.id).push(id));
        }
        k = k + 1;
    }
    assert(all.take(n as int) =~= all);
    proof {
        if (forall|i: int| 0 <= i < first_rows.len() ==> #[trigger] first_rows[i].well_formed()) && (forall|i: int|
            0 <= i < more_rows.len() ==> #[trigger] more_rows[i].well_formed()) {
            assert forall|i: int| 0 <= i < res@.len() implies #[trigger] res@[i].well_formed() by {
                let r = kept[i];
                assert(kept.contains(r));
                all.lemma_filter_contains_rev(not_deleted(deleted@), r);
                let j = choose|j: int| 0 <= j < all.len() && all[j] == r;
                if j < first_rows.len() {
                    assert(all[j] == first_rows[j]);
                } else {
                    assert(all[j] == more_rows[j - first_rows.len()]);
                }
                assert(r.well_formed());
                let cols = r.columns@;
                let out = res@[i].columns@;
                assert(out.len() == cols.len());
                assert forall|a: int| 0 <= a < out.len() implies #[trigger] out[a].0@ == cols[a].0@ by {
                    if row_index(kept, r.id) == Some(i) {
                        assert(out[a] == patched_cell(edits@, r.id)(cols[a]));
                    }
                }
                assert forall|a: int, b: int|
                    0 <= a < out.len() && 0 <= b < out.len() && a != b implies #[trigger] out[a].0@ != #[trigger] out[b].0@ by {
                    assert(out[a].0@ == cols[a].0@);
                    assert(out[b].0@ == cols[b].0@);
                }
            }
        }
    }
    res
}

/// The edit is not of the row `id`.
pub open spec fn edit_not_of(id: u128) -> spec_fn(ColumnIdentity) -> bool {
    |c: ColumnIdentity| c.row_id != id
}

impl SheetEdits {
    /// The delete button of a shown row: when the row has edited cells they
    /// are dropped; otherwise the row is marked or unmarked for deletion
    /// (see `delete_row`).
    pub fn remove_row_edits(&mut self, id: u128, collapsed_ids: &Vec<(u128, Vec<u128>)>)
        ensures
            (exists|k: int| 0 <= k < old(self).modified_columns@.len() && #[trigger] old(self).modified_columns@[k].row_id == id)
                ==> final(self).modified_columns@ == old(self).modified_columns@.filter(edit_not_of(id))
                && final(self).expanded_deleted_rows == old(self).expanded_deleted_rows
                && final(self).collapsed_deleted_rows == old(self).collapsed_deleted_rows,
            !(exists|k: int| 0 <= k < old(self).modified_columns@.len() && #[trigger] old(self).modified_columns@[k].row_id == id)
                ==> final(self).modified_columns == old(self).modified_columns && (if is_collapsed_id(collapsed_ids@, id) {
                final(self).expanded_deleted_rows@ == old(self).expanded_deleted_rows@ && (old(self).collapsed_deleted_rows@.contains(id)
                    ==> final(self).collapsed_deleted_rows@ == old(self).collapsed_deleted_rows@.filter(other_than(id)))
                    && (!old(self).collapsed_deleted_rows@.contains(id) ==> final(self).collapsed_deleted_rows@
                    == old(self).collapsed_deleted_rows@.push(id))
            } else {
                final(self).collapsed_deleted_rows@ == old(self).collapsed_deleted_rows@ && (old(self).expanded_deleted_rows@.contains(id)
                    ==> final(self).expanded_deleted_rows@ == old(self).expanded_deleted_rows@.filter(other_than(id)))
                    && (!old(self).expanded_deleted_rows@.contains(id) ==> final(self).expanded_deleted_rows@
                    == old(self).expanded_deleted_rows@.push(id))
            }),
            final(self).sheet_name == old(self).sheet_name,
            final(self).added_rows == old(self).added_rows,
            final(self).modified_primary_columns == old(self).modified_primary_columns,
            final(self).deleted_primary_columns == old(self).deleted_primary_columns,
            final(self).edit_mode == old(self).edit_mode,
    {
        let mut any = false;
        let mut k: usize = 0;
        while k < self.modified_columns.len()
            invariant
                k <= self.modified_columns@.len(),
                any == exists|j: int| 0 <= j < k && #[trigger] self.modified_columns@[j].row_id == id,
            decreases self.modified_columns@.len() - k,
        {
            if self.modified_columns[k].row_id == id {
                any = true;
            }
            k = k + 1;
        }
        if any {
            let mut kept: Vec<ColumnIdentity> = Vec::new();
            let ghost all = self.modified_columns@;
            let mut k: usize = 0;
            assert(all.take(0) =~= Seq::<ColumnIdentity>::empty());
            while k < self.modified_columns.len()
                invariant
                    all == self.modified_columns@,
                    k <= all.len(),
                    kept@ == all.take(k as int).filter(edit_not_of(id)),
                decreases all.len() - k,
            {
                assert(all.take(k + 1) =~= all.take(k as int).push(all[k as int]));
                proof {
                    all.take(k as int).lemma_filter_push(all[k as int], edit_not_of(id));
                }
                if self.modified_columns[k].row_id != id {
                    kept.push(self.modified_columns[k].copy());
                }
                k = k + 1;
            }
            assert(all.take(all.len() as int) =~= all);
            self.modified_columns = kept;
        } else {
            self.delete_row(id, collapsed_ids);
        }
    }
}

/// The header is among `headers`.
pub open spec fn lists_header(headers: Seq<String>, h: Seq<char>) -> bool {
    exists|i: int| 0 <= i < headers.len() && #[trigger] headers[i]@ == h
}

/// The headers of a list of texts, as characters.
pub open spec fn texts_view(texts: Seq<String>) -> Seq<Seq<char>> {
    texts.map_values(|t: String| t@)
}

/// The headers of the primary row's cells that are not primary headers:
/// those of the edited primary cells, then those of the existing cells, each
/// once, leaving out the primary headers.
pub fn extra_primary_headers(
    modified: &Vec<(String, Column<String>)>,
    existing: &Vec<(String, Column<String>)>,
    primary_headers: &[String],
) -> (res: Vec<String>)
    ensures
        texts_view(res@).no_duplicates(),
        forall|h: Seq<char>|
            #[trigger] lists_header(res@, h) <==> (column_of_header(modified@, h) || column_of_header(existing@, h))
                && !lists_header(primary_headers@, h),
{
    let mut res: Vec<String> = Vec::new();
    let mut k: usize = 0;
    while k < modified.len()
        invariant
            k <= modified@.len(),
            texts_view(res@).no_duplicates(),
            forall|h: Seq<char>|
                #[trigger] lists_header(res@, h) <==> (exists|j: int| 0 <= j < k && #[trigger] modified@[j].0@ == h)
                    && !lists_header(primary_headers@, h),
        decreases modified@.len() - k,
    {
        add_extra_header(&mut res, &modified[k].0, primary_headers);
        k = k + 1;
    }
    let ghost from_modified = res@;
    let mut k: usize = 0;
    while k < existing.len()
        invariant
            k <= existing@.len(),
            texts_view(res@).no_duplicates(),
            forall|h: Seq<char>|
                #[trigger] lists_header(res@, h) <==> (column_of_header(modified@, h) || exists|j: int| 0 <= j < k && #[trigger] existing@[j].0@ == h)
                    && !lists_header(primary_headers@, h),
        decreases existing@.len() - k,
    {
        add_extra_header(&mut res, &existing[k].0, primary_headers);
        k = k + 1;
    }
    res
}

/// Adds the header unless it is listed already or is a primary header.
fn add_extra_header(res: &mut Vec<String>, h: &String, primary_headers: &[String])
    requires
        texts_view(old(res)@).no_duplicates(),
    ensures
        texts_view(final(res)@).no_duplicates(),
        forall|x: Seq<char>|
            #[trigger] lists_header(final(res)@, x) <==> lists_header(old(res)@, x) || (x == h@ && !lists_header(primary_headers@, x)),
{
    let mut listed = false;
    let mut i: usize = 0;
    while i < res.len()
        invariant
            i <= res@.len(),
            listed == exists|j: int| 0 <= j < i && #[trigger] res@[j]@ == h@,
        decreases res@.len() - i,
    {
        if res[i] == *h {
            listed = true;
        }
        i = i + 1;
    }
    let mut primary = false;
    let mut i: usize = 0;
    while i < primary_headers.len()
        invariant
            i <= primary_headers@.len(),
            primary == exists|j: int| 0 <= j < i && #[trigger] primary_headers@[j]@ == h@,
        decreases primary_headers@.len() - i,
    {
        if primary_headers[i] == *h {
            primary = true;
        }
        i = i + 1;
    }
    if !listed && !primary {
        let ghost before = res@;
        res.push(h.clone());
        assert(texts_view(res@) =~= texts_view(before).push(h@));
        assert forall|x: Seq<char>|
            #[trigger] lists_header(res@, x) <==> lists_header(before, x) || (x == h@ && !lists_header(primary_headers@, x)) by {
            if lists_header(res@, x) {
                let j = choose|j: int| 0 <= j < res@.len() && #[trigger] res@[j]@ == x;
                if j < before.len() {
                    assert(before[j]@ == x);
                }
            }
            if lists_header(before, x) {
                let j = choose|j: int| 0 <= j < before.len() && #[trigger] before[j]@ == x;
                assert(res@[j]@ == x);
            }
            if x == h@ {
                assert(res@[before.len() as int]@ == x);
            }
        }
    }
}

/// The cell of an imported primary row changes the shown primary row: the
/// shown row has a cell under its header, with another value.
pub open spec fn changes_cell(old: Seq<(String, Column<String>)>) -> spec_fn((String, Column<String>)) -> bool {
    |e: (String, Column<String>)| match column_of(old, e.0@) {
        Some(c) => !values_equal(c.value, e.1.value),
        None => false,
    }
}

/// The cells of an imported primary row that change the shown primary row
/// `old` (see `changes_cell`), in order.
pub fn imported_primary_changes(
    imported: Vec<(String, Column<String>)>,
    old: &Vec<(String, Column<String>)>,
) -> (res: Vec<(String, Column<String>)>)
    ensures
        res@ == imported@.filter(changes_cell(old@)),
{
    let ghost all = imported@;
    let mut rest = imported;
    let mut kept: Vec<(String, Column<String>)> = Vec::new();
    let n = rest.len();
    let mut k: usize = 0;
    assert(all.skip(0) =~= all);
    assert(all.take(0) =~= Seq::<(String, Column<String>)>::empty());
    while k < n
        invariant
            n == all.len(),
            k <= n,
            rest@ == all.skip(k as int),
            kept@ == all.take(k as int).filter(changes_cell(old@)),
        decreases n - k,
    {
        let entry = rest.remove(0);
        assert(all.skip(k as int).remove(0) =~= all.skip(k + 1));
        assert(all.take(k + 1) =~= all.take(k as int).push(all[k as int]));
        proof {
            all.take(k as int).lemma_filter_push(all[k as int], changes_cell(old@));
            lemma_header_index(old@, entry.0@);
        }
        let changed = match find_column(old, &entry.0) {
            Some(i) => !same_value(&old[i].1.value, &entry.1.value),
            None => false,
        };
        if changed {
            kept.push(entry);
        }
        k = k + 1;
    }
    assert(all.take(n as int) =~= all);
    kept
}

/// The edits that setting the cell under `header` of the shown row `row_id`
/// to `value` makes: one for each row that the row stands for when it is a
/// collapsed row, else one for the row itself.
pub fn edits_of_cell(
    collapsed_ids: &Vec<(u128, Vec<u128>)>,
    row_id: u128,
    header: &String,
    value: &ColumnValue<String>,
) -> (res: Vec<ColumnIdentity>)
    ensures
        match members_of(collapsed_ids@, row_id) {
            Some(m) => res@ == m.map_values(|x: u128| ColumnIdentity { row_id: x, header: *header, value: *value }),
            None => res@ == seq![ColumnIdentity { row_id, header: *header, value: *value }],
        },
{
    match collapsed_members(collapsed_ids, row_id) {
        Some(members) => {
            let mut res: Vec<ColumnIdentity> = Vec::new();
            let mut i: usize = 0;
            while i < members.len()
                invariant
                    i <= members@.len(),
                    res@ == members@.take(i as int).map_values(
                        |x: u128| ColumnIdentity { row_id: x, header: *header, value: *value },
                    ),
                decreases members@.len() - i,
            {
                let e = ColumnIdentity { row_id: members[i], header: header.clone(), value: value.copy() };
                res.push(e);
                assert(members@.take(i + 1) =~= members@.take(i as int).push(members@[i as int]));
                assert(res@ =~= members@.take(i + 1).map_values(
                    |x: u128| ColumnIdentity { row_id: x, header: *header, value: *value },
                ));
                i = i + 1;
            }
            assert(members@.take(members@.len() as int) =~= members@);
            res
        },
        None => {
            let mut res: Vec<ColumnIdentity> = Vec::new();
            res.push(ColumnIdentity { row_id, header: header.clone(), value: value.copy() });
            assert(res@ =~= seq![ColumnIdentity { row_id, header: *header, value: *value }]);
            res
        },
    }
}

/// The row whose edits a shown row displays: the first row a collapsed row
/// stands for (the row itself when it stands for none), else the row.
pub open spec fn edited_row_of(collapsed_ids: Seq<(u128, Vec<u128>)>, row_id: u128) -> u128 {
    match members_of(collapsed_ids, row_id) {
        Some(m) => if m.len() > 0 {
            m[0]
        } else {
            row_id
        },
        None => row_id,
    }
}

/// The pending value of the cell under `header` of a shown row: the value
/// of the first edit of that cell in the row it displays (see
/// `edited_row_of`).
pub fn pending_edit(
    modified: &Vec<ColumnIdentity>,
    collapsed_ids: &Vec<(u128, Vec<u128>)>,
    row_id: u128,
    header: &String,
) -> (res: Option<ColumnValue<String>>)
    ensures
        res == (match first_edit_for(modified@, edited_row_of(collapsed_ids@, row_id), header@) {
            Some(e) => Some(e.value),
            None => None,
        }),
{
    let id = match collapsed_members(collapsed_ids, row_id) {
        Some(members) => if members.len() > 0 {
            members[0]
        } else {
            row_id
        },
        None => row_id,
    };
    match find_edit(modified, id, header) {
        Some(k) => Some(modified[k].value.copy()),
        None => None,
    }
}

/// The saves that a save of the edits makes: renaming when a new name is
/// given that differs from the current one, and each other save when it
/// has something to send.
#[derive(Clone, Copy, Debug, PartialEq, Eq, Structural)]
pub struct SaveTasks {
    pub rename: bool,
    pub delete_rows: bool,
    pub add_rows: bool,
    pub update_columns: bool,
    pub save_columns: bool,
    pub delete_columns: bool,
}

/// Decides which saves are worth making (see `SaveTasks`).
pub fn save_tasks(
    new_name: &String,
    current_name: &String,
    deleted_rows: &Vec<u128>,
    added_rows: &Vec<Row<u128, String>>,
    updates: &Vec<ColumnIdentity>,
    inserts: &Vec<ColumnIdentity>,
    deleted_columns: &Vec<String>,
) -> (res: SaveTasks)
    ensures
        res.rename == (new_name@.len() > 0 && new_name@ != current_name@),
        res.delete_rows == (deleted_rows@.len() > 0),
        res.add_rows == (added_rows@.len() > 0),
        res.update_columns == (updates@.len() > 0),
        res.save_columns == (inserts@.len() > 0),
        res.delete_columns == (deleted_columns@.len() > 0),
{
    SaveTasks {
        rename: !new_name.as_str().is_empty() && *new_name != *current_name,
        delete_rows: !deleted_rows.is_empty(),
        add_rows: !added_rows.is_empty(),
        update_columns: !updates.is_empty(),
        save_columns: !inserts.is_empty(),
        delete_columns: !deleted_columns.is_empty(),
    }
}

/// The value a cell edit starts from: the cell's value when the row has
/// one, else a placeholder of the column's kind (`"empty"`, zero, or
/// `today`), or `"EMPTY"` for a column of no known kind.
pub fn edit_start_value(cell: Option<&Column<String>>, kind: Option<&ColumnConfig>, today: Date) -> (res: ColumnValue<String>)
    ensures
        match cell {
            Some(c) => res == c.value,
            None => match kind {
                Some(ColumnConfig::String(_)) => res matches ColumnValue::String(s) && s@ == "empty"@,
                Some(ColumnConfig::Float(_)) => res == ColumnValue::<String>::Float(0),
                Some(ColumnConfig::Date(_)) => res == ColumnValue::<String>::Date(today),
                None => res matches ColumnValue::String(s) && s@ == "EMPTY"@,
            },
        },
{
    match cell {
        Some(c) => c.value.copy(),
        None => match kind {
            Some(ColumnConfig::String(_)) => ColumnValue::String(String::from_str("empty")),
            Some(ColumnConfig::Float(_)) => ColumnValue::Float(0),
            Some(ColumnConfig::Date(_)) => ColumnValue::Date(today),
            None => ColumnValue::String(String::from_str("EMPTY")),
        },
    }
}

/// What leaving or entering edit mode does with the pending edits: drop
/// them at once when there are none, else ask first.
#[derive(Clone, Copy, Debug, PartialEq, Eq, Structural)]
pub enum CancelStep {
    Revert,
    Confirm,
}

/// Pressing the edit button: edit mode flips, and the pending edits are
/// dropped (see `CancelStep`).
pub fn edit_toggle(on_edit: bool, changed: bool) -> (res: (bool, CancelStep))
    ensures
        res.0 == !on_edit,
        res.1 == (if changed {
            CancelStep::Confirm
        } else {
            CancelStep::Revert
        }),
{
    (!on_edit, if changed {
        CancelStep::Confirm
    } else {
        CancelStep::Revert
    })
}

/// The value an input of a new row starts with, by the kind of its column:
/// the empty text, `today`, or zero.
pub fn initial_input(kind: &ColumnConfig, today: Date) -> (res: ColumnValue<String>)
    ensures
        match kind {
            ColumnConfig::String(_) => res matches ColumnValue::String(s) && s@.len() == 0,
            ColumnConfig::Date(_) => res == ColumnValue::<String>::Date(today),
            ColumnConfig::Float(_) => res == ColumnValue::<String>::Float(0),
        },
{
    match kind {
        ColumnConfig::String(_) => ColumnValue::String(String::new()),
        ColumnConfig::Date(_) => ColumnValue::Date(today),
        ColumnConfig::Float(_) => ColumnValue::Float(0),
    }
}

/// Entered values as basic cells.
pub open spec fn entered_cells(values: Seq<(String, ColumnValue<String>)>) -> Seq<(String, Column<String>)> {
    values.map_values(|e: (String, ColumnValue<String>)| (e.0, Column { is_basic: true, value: e.1 }))
}

/// Calculated numbers as calculated cells.
pub open spec fn calculated_cells(values: Seq<(String, u64)>) -> Seq<(String, Column<String>)> {
    values.map_values(|e: (String, u64)| (e.0, Column { is_basic: false, value: ColumnValue::Float(e.1) }))
}

/// The row added from the input line: the entered values as basic cells,
/// then the calculated numbers as calculated cells, each set in turn (a
/// later cell with the same header replaces an earlier one).
pub fn input_row(id: u128, entered: Vec<(String, ColumnValue<String>)>, calculated: Vec<(String, u64)>) -> (res: Row<
    u128,
    String,
>)
    ensures
        res.id == id,
        res.columns@ == with_cells(with_cells(Seq::empty(), entered_cells(entered@)), calculated_cells(calculated@)),
        res.well_formed(),
{
    let ghost e = entered@;
    let ghost c = calculated@;
    let mut cells: Vec<(String, Column<String>)> = Vec::new();
    let mut rest = entered;
    let n = rest.len();
    let mut k: usize = 0;
    assert(e.skip(0) =~= e);
    assert(entered_cells(e.take(0)) =~= Seq::<(String, Column<String>)>::empty());
    while k < n
        invariant
            n == e.len(),
            k <= n,
            rest@ == e.skip(k as int),
            cells@ == with_cells(Seq::empty(), entered_cells(e.take(k as int))),
            crate::models::distinct_headers(cells@),
        decreases n - k,
    {
        let (h, v) = rest.remove(0);
        assert(e.skip(k as int).remove(0) =~= e.skip(k + 1));
        assert(entered_cells(e.take(k + 1)).drop_last() =~= entered_cells(e.take(k as int)));
        let ghost before = cells@;
        let column = Column { is_basic: true, value: v };
        proof {
            crate::models::lemma_with_cell_distinct(before, h, column);
        }
        crate::models::set_column(&mut cells, h, column);
        k = k + 1;
    }
    assert(e.take(n as int) =~= e);
    let ghost base = cells@;
    let mut rest = calculated;
    let m = rest.len();
    let mut k: usize = 0;
    assert(c.skip(0) =~= c);
    assert(calculated_cells(c.take(0)) =~= Seq::<(String, Column<String>)>::empty());
    while k < m
        invariant
            m == c.len(),
            k <= m,
            rest@ == c.skip(k as int),
            cells@ == with_cells(base, calculated_cells(c.take(k as int))),
            crate::models::distinct_headers(cells@),
        decreases m - k,
    {
        let (h, b) = rest.remove(0);
        assert(c.skip(k as int).remove(0) =~= c.skip(k + 1));
        assert(calculated_cells(c.take(k + 1)).drop_last() =~= calculated_cells(c.take(k as int)));
        let ghost before = cells@;
        let column = Column { is_basic: false, value: ColumnValue::Float(b) };
        proof {
            crate::models::lemma_with_cell_distinct(before, h, column);
        }
        crate::models::set_column(&mut cells, h, column);
        k = k + 1;
    }
    assert(c.take(m as int) =~= c);
    Row { id, columns: cells }
}

/// The cells the primary row shows while it is edited: its cells with the
/// edited cells set over them (an edited cell replaces the cell under its
/// header, or is added).
pub fn merged_primary_cells(
    old: &Vec<(String, Column<String>)>,
    edited: &Vec<(String, Column<String>)>,
) -> (res: Vec<(String, Column<String>)>)
    ensures
        res@ == with_cells(old@, edited@),
{
    let mut res = copy_columns(old);
    let updates = copy_columns(edited);
    set_columns(&mut res, updates);
    res
}

} // verus!
