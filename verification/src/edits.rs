use vstd::prelude::*;
use crate::models::{Column, ColumnValue, Row, set_column, with_cell};
use crate::sorting::{RowsSort, insertion_sort, lemma_sort_permutes};

verus! {

broadcast use vstd::seq_lib::group_seq_properties;

/// The position of the first row whose identifier is `id`.
pub open spec fn row_index<I>(rows: Seq<Row<I, String>>, id: I) -> Option<int> where I: crate::models::IdMarker
    decreases rows.len(),
{
    if rows.len() == 0 {
        None
    } else if rows[0].id == id {
        Some(0)
    } else {
        match row_index(rows.drop_first(), id) {
            Some(i) => Some(i + 1),
            None => None,
        }
    }
}

/// `row_index` is the first position holding `id`.
pub proof fn lemma_row_index(rows: Seq<Row<u128, String>>, id: u128)
    ensures
        match row_index(rows, id) {
            Some(i) => 0 <= i < rows.len() && rows[i].id == id && forall|j: int|
                0 <= j < i ==> rows[j].id != id,
            None => forall|j: int| 0 <= j < rows.len() ==> rows[j].id != id,
        },
    decreases rows.len(),
{
    if rows.len() > 0 {
        lemma_row_index(rows.drop_first(), id);
        if rows[0].id != id {
            match row_index(rows.drop_first(), id) {
                Some(i) => {
                    assert forall|j: int| 0 <= j < i + 1 implies rows[j].id != id by {
                        if j > 0 {
                            assert(rows[j] == rows.drop_first()[j - 1]);
                        }
                    }
                },
                None => {
                    assert forall|j: int| 0 <= j < rows.len() implies rows[j].id != id by {
                        if j > 0 {
                            assert(rows[j] == rows.drop_first()[j - 1]);
                        }
                    }
                },
            }
        }
    }
}

/// Finds the first row whose identifier is `id`.
pub fn position_of_row(rows: &Vec<Row<u128, String>>, id: u128) -> (res: Option<usize>)
    ensures
        match res {
            Some(i) => row_index(rows@, id) == Some(i as int),
            None => row_index(rows@, id) is None,
        },
{
    let mut i: usize = 0;
    while i < rows.len()
        invariant
            i <= rows@.len(),
            forall|j: int| 0 <= j < i ==> rows@[j].id != id,
        decreases rows@.len() - i,
    {
        if rows[i].id == id {
            proof {
                lemma_row_index(rows@, id);
            }
            return Some(i);
        }
        i = i + 1;
    }
    proof {
        lemma_row_index(rows@, id);
    }
    None
}

/// The rows `begin..stop` that an edit of the row at `index` reaches, with
/// `top` rows above it and `down` rows below it (when given), in a list of
/// `len` rows. Without `top` the edit starts at the row; without `down` it
/// ends at the row; `down` alone reaches `down - 1` rows below the row, `top`
/// and `down` together reach `down` rows below it; `down` at least `len`
/// reaches the last row.
pub open spec fn edit_bounds(len: int, index: int, top: Option<usize>, down: Option<usize>) -> (int, int) {
    let begin = match top {
        Some(up) => if up > index {
            0
        } else {
            index - up
        },
        None => index,
    };
    let stop = match down {
        None => index + 1,
        Some(d) => if d >= len {
            len
        } else {
            match top {
                Some(_) => index + d + 1,
                None => index + d,
            }
        },
    };
    (begin, stop)
}

/// The edit of the row at `index` stays inside the list: the rows it
/// reaches below the row exist, and `down` is not zero for the first row
/// when no `top` is given.
pub open spec fn edit_in_bounds(len: int, index: int, top: Option<usize>, down: Option<usize>) -> bool {
    match down {
        None => true,
        Some(d) => d >= len || match top {
            Some(_) => index + d + 1 <= len,
            None => index + d <= len && !(d == 0 && index == 0),
        },
    }
}

/// `edited` is `rows` with the cell under `header` set to `column` in each
/// row, row by row.
pub open spec fn rows_with_cell(
    rows: Seq<Row<u128, String>>,
    edited: Seq<Row<u128, String>>,
    header: String,
    column: Column<String>,
) -> bool {
    &&& edited.len() == rows.len()
    &&& forall|t: int|
        0 <= t < rows.len() ==> (#[trigger] edited[t]).id == rows[t].id && edited[t].columns@
            == with_cell(rows[t].columns@, header, column)
}

/// `result` is `rows` after the edit: the reached rows (see `edit_bounds`)
/// taken out from the last to the first and given the cell `value` under
/// `header`, put after the other rows, and everything sorted by `keys`; or,
/// when no row has the identifier, `rows` sorted by `keys`.
pub open spec fn is_column_edit(
    rows: Seq<Row<u128, String>>,
    id: u128,
    header: String,
    value: ColumnValue<String>,
    top: Option<usize>,
    down: Option<usize>,
    keys: Seq<String>,
    result: Seq<Row<u128, String>>,
) -> bool {
    match row_index(rows, id) {
        Some(i) => {
            let b = edit_bounds(rows.len() as int, i, top, down).0;
            let e = edit_bounds(rows.len() as int, i, top, down).1;
            exists|edited: Seq<Row<u128, String>>|
                #[trigger] rows_with_cell(
                    rows.subrange(b, e).reverse(),
                    edited,
                    header,
                    Column { is_basic: true, value },
                ) && result == insertion_sort(rows.take(b) + rows.skip(e) + edited, keys)
        },
        None => result == insertion_sort(rows, keys),
    }
}

/// Sets the cell under `header` to `value` in the row `id` and in the rows
/// above and below it that `top` and `down` reach (see `edit_bounds`). The
/// edited rows are taken out, from the last to the first, set, and put after
/// the other rows, and all rows are sorted by the priorities. When no row
/// has the identifier, the rows are only sorted.
pub fn edit_column_range(
    rows: &mut Vec<Row<u128, String>>,
    id: u128,
    header: &String,
    value: &ColumnValue<String>,
    top: Option<usize>,
    down: Option<usize>,
    priorities: &[String],
)
    requires
        match row_index(old(rows)@, id) {
            Some(i) => edit_in_bounds(old(rows)@.len() as int, i, top, down),
            None => true,
        },
    ensures
        is_column_edit(old(rows)@, id, *header, *value, top, down, priorities@, final(rows)@),
{
    let ghost orig = rows@;
    let found = position_of_row(rows, id);
    proof {
        lemma_row_index(orig, id);
    }
    let index = match found {
        Some(index) => index,
        None => {
            rows.sort_rows(priorities);
            assert(is_column_edit(orig, id, *header, *value, top, down, priorities@, rows@));
            return;
        },
    };
    let len = rows.len();
    let begin: usize = match top {
        Some(up) => if up > index {
            0
        } else {
            index - up
        },
        None => index,
    };
    let stop: usize = match down {
        None => index + 1,
        Some(d) => if d >= len {
            len
        } else {
            match top {
                Some(_) => index + d + 1,
                None => index + d,
            }
        },
    };
    assert((begin as int, stop as int) == edit_bounds(len as int, index as int, top, down));
    let mut removed = take_range(rows, begin, stop);
    let ghost taken = removed@;
    let mut edited = set_cell_in_rows(removed, header, value);
    let ghost done = edited@;
    let ghost kept = rows@;
    rows.append(&mut edited);
    rows.sort_rows(priorities);
    proof {
        assert(row_index(orig, id) == Some(index as int));
        assert(rows_with_cell(
            orig.subrange(begin as int, stop as int).reverse(),
            done,
            *header,
            Column { is_basic: true, value: *value },
        ));
        assert(rows@ == insertion_sort(orig.take(begin as int) + orig.skip(stop as int) + done, priorities@));
        let b = edit_bounds(orig.len() as int, index as int, top, down).0;
        let e = edit_bounds(orig.len() as int, index as int, top, down).1;
        assert(b == begin && e == stop);
        assert(rows_with_cell(
            orig.subrange(b, e).reverse(),
            done,
            *header,
            Column { is_basic: true, value: *value },
        ) && rows@ == insertion_sort(orig.take(b) + orig.skip(e) + done, priorities@));
        assert(is_column_edit(orig, id, *header, *value, top, down, priorities@, rows@));
    }
}

/// The identifiers of the rows.
pub open spec fn id_set(rows: Seq<Row<u128, String>>) -> Set<u128> {
    Set::new(|x: u128| exists|j: int| 0 <= j < rows.len() && (#[trigger] rows[j]).id == x)
}

/// Two lists with the same rows, as multisets, have the same identifiers.
proof fn lemma_id_set_of_permutation(a: Seq<Row<u128, String>>, b: Seq<Row<u128, String>>)
    requires
        a.to_multiset() == b.to_multiset(),
    ensures
        id_set(a) == id_set(b),
{
    assert forall|x: u128| id_set(a).contains(x) implies id_set(b).contains(x) by {
        let j = choose|j: int| 0 <= j < a.len() && (#[trigger] a[j]).id == x;
        assert(a.contains(a[j]));
        vstd::seq_lib::to_multiset_contains(a, a[j]);
        vstd::seq_lib::to_multiset_contains(b, a[j]);
        assert(b.contains(a[j]));
        let k = choose|k: int| 0 <= k < b.len() && b[k] == a[j];
        assert(b[k].id == x);
    }
    assert forall|x: u128| id_set(b).contains(x) implies id_set(a).contains(x) by {
        let j = choose|j: int| 0 <= j < b.len() && (#[trigger] b[j]).id == x;
        assert(b.contains(b[j]));
        vstd::seq_lib::to_multiset_contains(a, b[j]);
        vstd::seq_lib::to_multiset_contains(b, b[j]);
        assert(a.contains(b[j]));
        let k = choose|k: int| 0 <= k < a.len() && a[k] == b[j];
        assert(a[k].id == x);
    }
    assert(id_set(a) =~= id_set(b));
}

/// Editing a range of cells keeps the rows: as many rows come out as went
/// in, and they carry the same identifiers.
pub proof fn lemma_column_edit_keeps_rows(
    rows: Seq<Row<u128, String>>,
    id: u128,
    header: String,
    value: ColumnValue<String>,
    top: Option<usize>,
    down: Option<usize>,
    keys: Seq<String>,
    result: Seq<Row<u128, String>>,
)
    requires
        match row_index(rows, id) {
            Some(i) => edit_in_bounds(rows.len() as int, i, top, down),
            None => true,
        },
        is_column_edit(rows, id, header, value, top, down, keys, result),
    ensures
        result.len() == rows.len(),
        id_set(result) == id_set(rows),
{
    lemma_row_index(rows, id);
    match row_index(rows, id) {
        Some(i) => {
            let b = edit_bounds(rows.len() as int, i, top, down).0;
            let e = edit_bounds(rows.len() as int, i, top, down).1;
            let column = Column { is_basic: true, value };
            let edited = choose|edited: Seq<Row<u128, String>>|
                #[trigger] rows_with_cell(rows.subrange(b, e).reverse(), edited, header, column)
                    && result == insertion_sort(rows.take(b) + rows.skip(e) + edited, keys);
            let n = rows.len();
            assert(0 <= b <= e <= n);
            let mid = rows.take(b) + rows.skip(e) + edited;
            lemma_sort_permutes(mid, keys);
            assert(mid.len() == n);
            lemma_id_set_of_permutation(result, mid);
            let rev = rows.subrange(b, e).reverse();
            assert forall|x: u128| id_set(mid).contains(x) implies id_set(rows).contains(x) by {
                let k = choose|k: int| 0 <= k < mid.len() && (#[trigger] mid[k]).id == x;
                if k < b {
                    assert(mid[k] == rows[k]);
                } else if k < b + (n - e) {
                    assert(mid[k] == rows[k - b + e]);
                } else {
                    let t = k - (b + (n - e));
                    assert(mid[k] == edited[t]);
                    assert(edited[t].id == rev[t].id);
                    assert(rev[t] == rows[e - 1 - t]);
                    assert(rows[e - 1 - t].id == x);
                }
            }
            assert forall|x: u128| id_set(rows).contains(x) implies id_set(mid).contains(x) by {
                let j = choose|j: int| 0 <= j < rows.len() && (#[trigger] rows[j]).id == x;
                if j < b {
                    assert(mid[j] == rows[j]);
                } else if j >= e {
                    assert(mid[b + j - e] == rows[j]);
                } else {
                    let t = e - 1 - j;
                    let k = b + (n - e) + t;
                    assert(mid[k] == edited[t]);
                    assert(edited[t].id == rev[t].id);
                    assert(rev[t] == rows[j]);
                    assert(mid[k].id == x);
                }
            }
            assert(id_set(mid) =~= id_set(rows));
        },
        None => {
            lemma_sort_permutes(rows, keys);
            lemma_id_set_of_permutation(result, rows);
        },
    }
}

/// The result holds the row `r` with the cell under `header` set to
/// `column` (and its identifier kept).
pub open spec fn holds_edited(
    result: Seq<Row<u128, String>>,
    r: Row<u128, String>,
    header: String,
    column: Column<String>,
) -> bool {
    exists|t: int|
        0 <= t < result.len() && #[trigger] result[t].id == r.id && result[t].columns@ == with_cell(
            r.columns@,
            header,
            column,
        )
}

/// What sorting holds is what it was given.
proof fn lemma_sorted_holds(mid: Seq<Row<u128, String>>, keys: Seq<String>, x: Row<u128, String>)
    requires
        mid.contains(x),
    ensures
        insertion_sort(mid, keys).contains(x),
{
    lemma_sort_permutes(mid, keys);
    vstd::seq_lib::to_multiset_contains(mid, x);
    vstd::seq_lib::to_multiset_contains(insertion_sort(mid, keys), x);
}

/// Which rows an edit reaches, stated by position: the row `id` itself
/// (unless `down` is `Some(0)` without `top`, which reaches no row);
/// with `top = Some(u)` the `u` rows above it (as far as the first row);
/// with `down = Some(d)` the rows below it, `d` of them when `top` is
/// given and `d - 1` when not, and every row down to the last when `d` is
/// at least the number of rows. Each reached row comes out with the cell
/// set; with no `top` the rows above it, and with no `down` the rows below
/// it, come out as they were.
pub proof fn lemma_column_edit_reach(
    rows: Seq<Row<u128, String>>,
    id: u128,
    header: String,
    value: ColumnValue<String>,
    top: Option<usize>,
    down: Option<usize>,
    keys: Seq<String>,
    result: Seq<Row<u128, String>>,
    i: int,
)
    requires
        row_index(rows, id) == Some(i),
        edit_in_bounds(rows.len() as int, i, top, down),
        is_column_edit(rows, id, header, value, top, down, keys, result),
    ensures
        rows[i].id == id,
        !(top is None && down == Some(0usize)) ==> holds_edited(result, rows[i], header, Column { is_basic: true, value }),
        top matches Some(u) ==> forall|j: int|
            0 <= j <= i && i - u <= j ==> holds_edited(result, #[trigger] rows[j], header, Column { is_basic: true, value }),
        down matches Some(d) && d >= rows.len() ==> forall|j: int|
            i <= j < rows.len() ==> holds_edited(result, #[trigger] rows[j], header, Column { is_basic: true, value }),
        (match down {
            Some(d) => d < rows.len() && top is Some ==> forall|j: int|
                i <= j <= i + d ==> holds_edited(result, #[trigger] rows[j], header, Column { is_basic: true, value }),
            None => true,
        }),
        (match down {
            Some(d) => d < rows.len() && top is None ==> forall|j: int|
                i <= j < i + d ==> holds_edited(result, #[trigger] rows[j], header, Column { is_basic: true, value }),
            None => true,
        }),
        top is None ==> forall|j: int| 0 <= j < i ==> result.contains(#[trigger] rows[j]),
        down is None ==> forall|j: int| i < j < rows.len() ==> result.contains(#[trigger] rows[j]),
{
    lemma_row_index(rows, id);
    let n = rows.len() as int;
    let b = edit_bounds(n, i, top, down).0;
    let e = edit_bounds(n, i, top, down).1;
    let column = Column { is_basic: true, value };
    let edited = choose|edited: Seq<Row<u128, String>>|
        #[trigger] rows_with_cell(rows.subrange(b, e).reverse(), edited, header, column) && result
            == insertion_sort(rows.take(b) + rows.skip(e) + edited, keys);
    let mid = rows.take(b) + rows.skip(e) + edited;
    let rev = rows.subrange(b, e).reverse();
    assert(0 <= b <= i <= e <= n);
    assert forall|j: int| b <= j < e implies holds_edited(result, #[trigger] rows[j], header, column) by {
        let t = e - 1 - j;
        let k = b + (n - e) + t;
        assert(mid[k] == edited[t]);
        assert(rev[t] == rows[j]);
        assert(mid.contains(edited[t]));
        lemma_sorted_holds(mid, keys, edited[t]);
        let w = choose|w: int| 0 <= w < result.len() && result[w] == edited[t];
        assert(result[w].id == rows[j].id);
    }
    assert forall|j: int| 0 <= j < b implies result.contains(#[trigger] rows[j]) by {
        assert(mid[j] == rows[j]);
        lemma_sorted_holds(mid, keys, rows[j]);
    }
    assert forall|j: int| e <= j < n implies result.contains(#[trigger] rows[j]) by {
        assert(mid[b + j - e] == rows[j]);
        lemma_sorted_holds(mid, keys, rows[j]);
    }
}

/// Takes the rows `begin..stop` out of `rows`, from the last to the first.
fn take_range(rows: &mut Vec<Row<u128, String>>, begin: usize, stop: usize) -> (res: Vec<Row<u128, String>>)
    requires
        begin <= stop <= old(rows)@.len(),
    ensures
        final(rows)@ == old(rows)@.take(begin as int) + old(rows)@.skip(stop as int),
        res@ == old(rows)@.subrange(begin as int, stop as int).reverse(),
{
    let ghost orig = rows@;
    let mut removed: Vec<Row<u128, String>> = Vec::new();
    let mut j: usize = stop;
    assert(orig.subrange(stop as int, stop as int).reverse() =~= Seq::<Row<u128, String>>::empty());
    assert(orig.take(stop as int) + orig.skip(stop as int) =~= orig);
    while j > begin
        invariant
            begin <= j <= stop <= orig.len(),
            rows@ == orig.take(j as int) + orig.skip(stop as int),
            removed@ == orig.subrange(j as int, stop as int).reverse(),
        decreases j,
    {
        let row = rows.remove(j - 1);
        assert(orig.subrange(j - 1, stop as int).reverse() =~= orig.subrange(
            j as int,
            stop as int,
        ).reverse().push(orig[j - 1]));
        assert((orig.take(j as int) + orig.skip(stop as int)).remove(j - 1) =~= orig.take(j - 1)
            + orig.skip(stop as int));
        removed.push(row);
        j = j - 1;
    }
    removed
}

/// Sets the cell under `header` to `value` (a basic cell) in every row.
fn set_cell_in_rows(rows: Vec<Row<u128, String>>, header: &String, value: &ColumnValue<String>) -> (res: Vec<Row<u128, String>>)
    ensures
        rows_with_cell(rows@, res@, *header, Column { is_basic: true, value: *value }),
{
    let ghost taken = rows@;
    let mut removed = rows;
    let column = Column { is_basic: true, value: value.copy() };
    let mut edited: Vec<Row<u128, String>> = Vec::new();
    let n = removed.len();
    let mut k: usize = 0;
    assert(taken.skip(0) =~= taken);
    while k < n
        invariant
            n == taken.len(),
            k <= n,
            removed@ == taken.skip(k as int),
            column == (Column { is_basic: true, value: *value }),
            edited@.len() == k,
            forall|t: int|
                0 <= t < k ==> (#[trigger] edited@[t]).id == taken[t].id && edited@[t].columns@
                    == with_cell(taken[t].columns@, *header, column),
        decreases n - k,
    {
        let row = removed.remove(0);
        assert(taken.skip(k as int).remove(0) =~= taken.skip(k + 1));
        let Row { id: row_id, columns } = row;
        let mut columns = columns;
        set_column(&mut columns, header.clone(), column.copy());
        edited.push(Row { id: row_id, columns });
        k = k + 1;
    }
    edited
}

/// The row does not have the identifier `id`.
pub open spec fn row_other_than(id: u128) -> spec_fn(Row<u128, String>) -> bool {
    |r: Row<u128, String>| r.id != id
}

/// The rows whose identifier is not `id`, in order.
pub fn without_row(rows: Vec<Row<u128, String>>, id: u128) -> (res: Vec<Row<u128, String>>)
    ensures
        res@ == rows@.filter(row_other_than(id)),
{
    let ghost all = rows@;
    let mut rest = rows;
    let mut kept: Vec<Row<u128, String>> = Vec::new();
    let n = rest.len();
    let mut k: usize = 0;
    assert(all.skip(0) =~= all);
    assert(all.take(0) =~= Seq::<Row<u128, String>>::empty());
    while k < n
        invariant
            n == all.len(),
            k <= n,
            rest@ == all.skip(k as int),
            kept@ == all.take(k as int).filter(row_other_than(id)),
        decreases n - k,
    {
        let row = rest.remove(0);
        assert(all.skip(k as int).remove(0) =~= all.skip(k + 1));
        assert(all.take(k + 1) =~= all.take(k as int).push(all[k as int]));
        proof {
            all.take(k as int).lemma_filter_push(all[k as int], row_other_than(id));
        }
        if row.id != id {
            kept.push(row);
        }
        k = k + 1;
    }
    assert(all.take(n as int) =~= all);
    kept
}

/// The identifier is not `id`.
pub open spec fn other_than(id: u128) -> spec_fn(u128) -> bool {
    |x: u128| x != id
}

/// The list holds `id`.
pub fn contains_id(ids: &Vec<u128>, id: u128) -> (res: bool)
    ensures
        res == ids@.contains(id),
{
    let mut i: usize = 0;
    while i < ids.len()
        invariant
            i <= ids@.len(),
            forall|j: int| 0 <= j < i ==> ids@[j] != id,
        decreases ids@.len() - i,
    {
        if ids[i] == id {
            assert(ids@[i as int] == id);
            return true;
        }
        i = i + 1;
    }
    false
}

/// The identifiers other than `id`, in order.
pub fn without_id(ids: &Vec<u128>, id: u128) -> (res: Vec<u128>)
    ensures
        res@ == ids@.filter(other_than(id)),
{
    let mut kept: Vec<u128> = Vec::new();
    let mut k: usize = 0;
    assert(ids@.take(0) =~= Seq::<u128>::empty());
    while k < ids.len()
        invariant
            k <= ids@.len(),
            kept@ == ids@.take(k as int).filter(other_than(id)),
        decreases ids@.len() - k,
    {
        assert(ids@.take(k + 1) =~= ids@.take(k as int).push(ids@[k as int]));
        proof {
            ids@.take(k as int).lemma_filter_push(ids@[k as int], other_than(id));
        }
        if ids[k] != id {
            kept.push(ids[k]);
        }
        k = k + 1;
    }
    assert(ids@.take(ids@.len() as int) =~= ids@);
    kept
}

/// Marks or unmarks a row for deletion: the identifier is removed (every
/// occurrence) when the list holds it, and added at the end otherwise.
pub fn toggle_id(ids: &mut Vec<u128>, id: u128)
    ensures
        old(ids)@.contains(id) ==> final(ids)@ == old(ids)@.filter(other_than(id)),
        !old(ids)@.contains(id) ==> final(ids)@ == old(ids)@.push(id),
{
    if contains_id(ids, id) {
        let kept = without_id(ids, id);
        *ids = kept;
    } else {
        ids.push(id);
    }
}

/// Toggling an identifier that the list does not hold, and toggling it
/// again, gives the list back.
pub proof fn lemma_toggle_twice(ids: Seq<u128>, id: u128)
    requires
        !ids.contains(id),
    ensures
        ids.push(id).filter(other_than(id)) == ids,
{
    let p = other_than(id);
    ids.lemma_filter_push(id, p);
    lemma_filter_all(ids, p);
}

/// Filtering by a predicate that every element meets changes nothing.
proof fn lemma_filter_all(s: Seq<u128>, p: spec_fn(u128) -> bool)
    requires
        forall|i: int| 0 <= i < s.len() ==> p(s[i]),
    ensures
        s.filter(p) == s,
    decreases s.len(),
{
    if s.len() > 0 {
        lemma_filter_all(s.drop_last(), p);
        s.drop_last().lemma_filter_push(s.last(), p);
        assert(s.drop_last().push(s.last()) =~= s);
    } else {
        reveal(Seq::filter);
    }
}

} // verus!
