use vstd::prelude::*;
use crate::models::{Column, ColumnValue, IdMarker, Row, ValueView, find_column, lemma_header_index, set_column, with_cells};
use crate::client_models::IdentityDiffsOps;
use crate::ids::new_id;
use crate::sorting::{RowsSort, insertion_sort};
use itertools::Itertools;

verus! {

broadcast use vstd::seq_lib::group_seq_properties, vstd::seq_lib::group_filter_ensures;

/// The keyed row has the key `k`.
pub open spec fn has_key<V>(k: Seq<char>) -> spec_fn((String, V)) -> bool {
    |p: (String, V)| p.0@ == k
}

/// How many of the keyed rows have the key `k`.
pub open spec fn key_count<V>(items: Seq<(String, V)>, k: Seq<char>) -> nat {
    items.filter(has_key(k)).len()
}

/// The key of the keyed row occurs at least twice in `items`.
pub open spec fn is_repeated_in<V>(items: Seq<(String, V)>) -> spec_fn((String, V)) -> bool {
    |p: (String, V)| key_count(items, p.0@) >= 2
}

/// The key of the keyed row occurs at most once in `items`.
pub open spec fn is_unique_in<V>(items: Seq<(String, V)>) -> spec_fn((String, V)) -> bool {
    |p: (String, V)| key_count(items, p.0@) < 2
}

/// The rows of a keyed list, without their keys.
pub open spec fn rows_of<V>(items: Seq<(String, V)>) -> Seq<V> {
    items.map_values(|p: (String, V)| p.1)
}

/// The keyed rows whose key occurs at least twice, in order.
pub open spec fn repeated_part<V>(items: Seq<(String, V)>) -> Seq<(String, V)> {
    items.filter(is_repeated_in(items))
}

/// The rows whose key occurs once, in order.
pub open spec fn unique_part<V>(items: Seq<(String, V)>) -> Seq<V> {
    rows_of(items.filter(is_unique_in(items)))
}

/// Counts the keyed rows whose key is `k`.
fn count_key<V>(items: &Vec<(String, V)>, k: &String) -> (res: usize)
    ensures
        res == key_count(items@, k@),
{
    let mut c: usize = 0;
    let mut i: usize = 0;
    let ghost p = has_key::<V>(k@);
    assert(items@.take(0) =~= Seq::<(String, V)>::empty());
    while i < items.len()
        invariant
            i <= items@.len(),
            c == items@.take(i as int).filter(p).len(),
            p == has_key::<V>(k@),
        decreases items@.len() - i,
    {
        assert(items@.take(i + 1) =~= items@.take(i as int).push(items@[i as int]));
        proof {
            items@.take(i as int).lemma_filter_push(items@[i as int], p);
            items@.take(i as int).lemma_filter_len(p);
        }
        let hit = items[i].0 == *k;
        if hit {
            c = c + 1;
        }
        i = i + 1;
    }
    assert(items@.take(items@.len() as int) =~= items@);
    c
}

/// Splits the keyed rows into those whose key occurs at least twice (with
/// their keys) and those whose key occurs once, keeping their order.
pub fn split_repeated<V>(items: Vec<(String, V)>) -> (res: (Vec<(String, V)>, Vec<V>))
    ensures
        res.0@ == repeated_part(items@),
        res.1@ == unique_part(items@),
{
    let ghost all = items@;
    let mut counts: Vec<usize> = Vec::new();
    let mut i: usize = 0;
    while i < items.len()
        invariant
            items@ == all,
            i <= items@.len(),
            counts@.len() == i,
            forall|j: int| 0 <= j < i ==> counts@[j] == key_count(all, #[trigger] all[j].0@),
        decreases items@.len() - i,
    {
        let c = count_key(&items, &items[i].0);
        counts.push(c);
        i = i + 1;
    }
    let ghost rp = is_repeated_in(all);
    let ghost up = is_unique_in(all);
    let mut repeated: Vec<(String, V)> = Vec::new();
    let mut unique: Vec<V> = Vec::new();
    let mut rest = items;
    let n = rest.len();
    let mut k: usize = 0;
    assert(all.skip(0) =~= all);
    assert(all.take(0) =~= Seq::<(String, V)>::empty());
    while k < n
        invariant
            n == all.len(),
            k <= n,
            counts@.len() == n,
            forall|j: int| 0 <= j < n ==> counts@[j] == key_count(all, #[trigger] all[j].0@),
            rest@ == all.skip(k as int),
            rp == is_repeated_in(all),
            up == is_unique_in(all),
            repeated@ == all.take(k as int).filter(rp),
            unique@ == rows_of(all.take(k as int).filter(up)),
        decreases n - k,
    {
        let item = rest.remove(0);
        assert(all.skip(k as int).remove(0) =~= all.skip(k + 1));
        assert(all.take(k + 1) =~= all.take(k as int).push(all[k as int]));
        proof {
            all.take(k as int).lemma_filter_push(all[k as int], rp);
            all.take(k as int).lemma_filter_push(all[k as int], up);
        }
        let ghost before = all.take(k as int).filter(up);
        assert(rows_of(before.push(all[k as int])) =~= rows_of(before).push(all[k as int].1));
        if counts[k] >= 2 {
            repeated.push(item);
        } else {
            unique.push(item.1);
        }
        k = k + 1;
    }
    assert(all.take(n as int) =~= all);
    (repeated, unique)
}

/// Keeping what one predicate holds of and what its negation holds of
/// splits a sequence without loss.
proof fn lemma_filter_complement<A>(s: Seq<A>, p: spec_fn(A) -> bool, q: spec_fn(A) -> bool)
    requires
        forall|x: A| #[trigger] q(x) == !p(x),
    ensures
        s.filter(p).len() + s.filter(q).len() == s.len(),
    decreases s.len(),
{
    if s.len() > 0 {
        reveal(Seq::filter);
        lemma_filter_complement(s.drop_last(), p, q);
        assert(q(s.last()) == !p(s.last()));
    }
}

/// Splitting loses no row: every keyed row is either among the repeated
/// ones or among the unique ones, never both.
pub proof fn lemma_split_repeated_partition<V>(items: Seq<(String, V)>)
    ensures
        repeated_part(items).len() + unique_part(items).len() == items.len(),
        forall|x: (String, V)| #[trigger] is_repeated_in(items)(x) != is_unique_in(items)(x),
{
    lemma_filter_complement(items, is_repeated_in(items), is_unique_in(items));
}

/// `Itertools::into_group_map_by` on the keyed rows, by key, followed by
/// `HashMap::into_values`. The crate pushes each row, in input order, onto
/// the list of its key in a `HashMap`; the contract claims that each list is
/// the rows of one key in input order, that every key has a list and that no
/// two lists share a key. The order of the lists is that of the hash map
/// and is left unsaid.
#[verifier::external_body]
fn group_by_key<V>(items: Vec<(String, V)>) -> (res: Vec<Vec<(String, V)>>)
    ensures
        forall|g: int|
            0 <= g < res@.len() ==> (#[trigger] res@[g])@.len() > 0 && res@[g]@ == items@.filter(
                has_key(res@[g]@[0].0@),
            ),
        forall|i: int|
            0 <= i < items@.len() ==> exists|g: int|
                0 <= g < res@.len() && (#[trigger] res@[g])@[0].0@ == (#[trigger] items@[i]).0@,
        forall|g: int, h: int|
            0 <= g < h < res@.len() ==> (#[trigger] res@[g])@[0].0@ != (#[trigger] res@[h])@[0].0@,
{
    items.into_iter().into_group_map_by(|p| p.0.clone()).into_values().collect()
}

/// `groups` holds the rows of `items` grouped by the keys `keys`: group `g`
/// is the rows of key `keys[g]`, in order, and is not empty; every key of
/// `items` has a group; no two groups share a key.
pub open spec fn is_grouping<V>(items: Seq<(String, V)>, groups: Seq<Vec<V>>, keys: Seq<Seq<char>>) -> bool {
    &&& keys.len() == groups.len()
    &&& forall|g: int|
        0 <= g < groups.len() ==> (#[trigger] groups[g])@.len() > 0 && groups[g]@ == rows_of(
            items.filter(has_key(keys[g])),
        )
    &&& forall|i: int| 0 <= i < items.len() ==> keys.contains((#[trigger] items[i]).0@)
    &&& forall|g: int, h: int| 0 <= g < h < keys.len() ==> #[trigger] keys[g] != #[trigger] keys[h]
}

/// The number of rows in all the groups.
pub open spec fn total_len<V>(groups: Seq<Vec<V>>) -> nat
    decreases groups.len(),
{
    if groups.len() == 0 {
        0
    } else {
        total_len(groups.drop_last()) + groups.last()@.len()
    }
}

/// The keyed row has one of the keys `ks`.
pub open spec fn key_in<V>(ks: Seq<Seq<char>>) -> spec_fn((String, V)) -> bool {
    |p: (String, V)| ks.contains(p.0@)
}

/// Keeping what either of two exclusive predicates holds of keeps as many
/// elements as keeping each in turn.
proof fn lemma_filter_disjoint_union<A>(
    s: Seq<A>,
    p: spec_fn(A) -> bool,
    q: spec_fn(A) -> bool,
    r: spec_fn(A) -> bool,
)
    requires
        forall|x: A| #[trigger] r(x) == (p(x) || q(x)),
        forall|x: A| !(#[trigger] p(x) && q(x)),
    ensures
        s.filter(r).len() == s.filter(p).len() + s.filter(q).len(),
    decreases s.len(),
{
    reveal(Seq::filter);
    if s.len() > 0 {
        lemma_filter_disjoint_union(s.drop_last(), p, q, r);
        assert(r(s.last()) == (p(s.last()) || q(s.last())));
        assert(!(p(s.last()) && q(s.last())));
    }
}

/// Keeping what a predicate holds of keeps everything when it holds of
/// every element, and nothing when it holds of none.
proof fn lemma_filter_len_extremes<A>(s: Seq<A>, p: spec_fn(A) -> bool)
    ensures
        (forall|i: int| 0 <= i < s.len() ==> #[trigger] p(s[i])) ==> s.filter(p).len() == s.len(),
        (forall|x: A| !#[trigger] p(x)) ==> s.filter(p).len() == 0,
    decreases s.len(),
{
    reveal(Seq::filter);
    if s.len() > 0 {
        lemma_filter_len_extremes(s.drop_last(), p);
        if forall|i: int| 0 <= i < s.len() ==> #[trigger] p(s[i]) {
            assert forall|i: int| 0 <= i < s.drop_last().len() implies #[trigger] p(s.drop_last()[i]) by {
                assert(s.drop_last()[i] == s[i]);
            }
            assert(p(s[s.len() - 1]));
        }
    }
}

/// The first `n` groups hold as many rows as have one of the first `n`
/// keys.
proof fn lemma_groups_count<V>(items: Seq<(String, V)>, groups: Seq<Vec<V>>, keys: Seq<Seq<char>>, n: int)
    requires
        is_grouping(items, groups, keys),
        0 <= n <= groups.len(),
    ensures
        total_len(groups.take(n)) == items.filter(key_in(keys.take(n))).len(),
    decreases n,
{
    if n == 0 {
        assert(groups.take(0) =~= Seq::<Vec<V>>::empty());
        assert forall|x: (String, V)| !#[trigger] key_in::<V>(keys.take(0))(x) by {
            assert(keys.take(0) =~= Seq::<Seq<char>>::empty());
        }
        lemma_filter_len_extremes(items, key_in::<V>(keys.take(0)));
    } else {
        lemma_groups_count(items, groups, keys, n - 1);
        assert(groups.take(n).drop_last() =~= groups.take(n - 1));
        assert(groups.take(n).last() == groups[n - 1]);
        let k = keys[n - 1];
        assert(groups[n - 1]@ == rows_of(items.filter(has_key(k))));
        let before = key_in::<V>(keys.take(n - 1));
        let here = has_key::<V>(k);
        let all = key_in::<V>(keys.take(n));
        assert forall|x: (String, V)| #[trigger] all(x) == (before(x) || here(x)) by {
            if all(x) {
                let j = choose|j: int| 0 <= j < keys.take(n).len() && #[trigger] keys.take(n)[j] == x.0@;
                if j < n - 1 {
                    assert(keys.take(n - 1)[j] == x.0@);
                }
            }
            if before(x) {
                let j = choose|j: int| 0 <= j < keys.take(n - 1).len() && #[trigger] keys.take(n - 1)[j] == x.0@;
                assert(keys.take(n)[j] == x.0@);
            }
            if here(x) {
                assert(keys.take(n)[n - 1] == x.0@);
            }
        }
        assert forall|x: (String, V)| !(#[trigger] before(x) && here(x)) by {
            if before(x) && here(x) {
                let j = choose|j: int| 0 <= j < keys.take(n - 1).len() && #[trigger] keys.take(n - 1)[j] == x.0@;
                assert(keys[j] == keys[n - 1]);
            }
        }
        lemma_filter_disjoint_union(items, before, here, all);
    }
}

/// Grouping loses no row and repeats none: the groups hold as many rows
/// as were grouped.
pub proof fn lemma_grouping_keeps_rows<V>(items: Seq<(String, V)>, groups: Seq<Vec<V>>, keys: Seq<Seq<char>>)
    requires
        is_grouping(items, groups, keys),
    ensures
        total_len(groups) == items.len(),
{
    lemma_groups_count(items, groups, keys, groups.len() as int);
    assert(groups.take(groups.len() as int) =~= groups);
    assert(keys.take(groups.len() as int) =~= keys);
    assert forall|i: int| 0 <= i < items.len() implies #[trigger] key_in::<V>(keys)(items[i]) by {
        assert(keys.contains(items[i].0@));
    }
    lemma_filter_len_extremes(items, key_in::<V>(keys));
}

/// Groups the keyed rows by key: each group holds the rows of one key, in
/// input order; every row is in the group of its key; no two groups share a
/// key. The order of the groups is left to the grouping.
pub fn stack_rows<V>(items: Vec<(String, V)>) -> (res: Vec<Vec<V>>)
    ensures
        exists|keys: Seq<Seq<char>>| #[trigger] is_grouping(items@, res@, keys),
{
    let groups = group_by_key(items);
    let ghost keys = groups@.map_values(|g: Vec<(String, V)>| g@[0].0@);
    let ghost gs = groups@;
    let mut groups = groups;
    let mut res: Vec<Vec<V>> = Vec::new();
    let mut g: usize = 0;
    let n = groups.len();
    assert(gs.skip(0) =~= gs);
    while g < n
        invariant
            n == gs.len(),
            g <= n,
            groups@ == gs.skip(g as int),
            res@.len() == g,
            forall|j: int|
                0 <= j < g ==> (#[trigger] res@[j])@ == rows_of(gs[j]@) && res@[j]@.len() > 0,
            forall|j: int| 0 <= j < n ==> (#[trigger] gs[j])@.len() > 0,
        decreases n - g,
    {
        let group = groups.remove(0);
        assert(gs.skip(g as int).remove(0) =~= gs.skip(g + 1));
        let ghost gv = group@;
        let mut group = group;
        let mut rows: Vec<V> = Vec::new();
        let m = group.len();
        let mut k: usize = 0;
        assert(gv.skip(0) =~= gv);
        while k < m
            invariant
                m == gv.len(),
                k <= m,
                group@ == gv.skip(k as int),
                rows@ == rows_of(gv.take(k as int)),
            decreases m - k,
        {
            let (_, row) = group.remove(0);
            assert(gv.skip(k as int).remove(0) =~= gv.skip(k + 1));
            assert(rows_of(gv.take(k + 1)) =~= rows_of(gv.take(k as int)).push(gv[k as int].1));
            rows.push(row);
            k = k + 1;
        }
        assert(gv.take(m as int) =~= gv);
        res.push(rows);
        g = g + 1;
    }
    assert(keys.len() == res@.len());
    assert forall|j: int| 0 <= j < res@.len() implies (#[trigger] res@[j])@.len() > 0
        && res@[j]@ == rows_of(items@.filter(has_key(keys[j]))) by {
        assert(keys[j] == gs[j]@[0].0@);
    }
    assert forall|i: int| 0 <= i < items@.len() implies keys.contains((#[trigger] items@[i]).0@) by {
        let h = choose|h: int| 0 <= h < gs.len() && (#[trigger] gs[h])@[0].0@ == items@[i].0@;
        assert(keys[h] == gs[h]@[0].0@);
    }
    assert forall|a: int, b: int| 0 <= a < b < keys.len() implies #[trigger] keys[a] != #[trigger] keys[b] by {
        assert(keys[a] == gs[a]@[0].0@);
        assert(keys[b] == gs[b]@[0].0@);
    }
    assert(is_grouping(items@, res@, keys));
    res
}

/// The values under `title` of the rows that have a cell there, in order.
pub open spec fn values_under<I: IdMarker>(rows: Seq<Row<I, String>>, title: Seq<char>) -> Seq<ValueView>
    decreases rows.len(),
{
    if rows.len() == 0 {
        Seq::empty()
    } else {
        let rest = values_under(rows.drop_last(), title);
        match rows.last().cell(title) {
            Some(c) => rest.push(c.value@),
            None => rest,
        }
    }
}

/// The `n`-th (from 0) value under `title` among the rows that have a cell
/// there: the value a collapsed row takes for `IdentityDiffsOps::Nth(n)`.
pub fn nth_value<I: IdMarker>(rows: &Vec<Row<I, String>>, title: &String, n: usize) -> (res: Option<
    ColumnValue<String>,
>)
    ensures
        match res {
            Some(v) => n < values_under(rows@, title@).len() && v@ == values_under(rows@, title@)[n as int],
            None => n >= values_under(rows@, title@).len(),
        },
{
    let mut count: usize = 0;
    let mut i: usize = 0;
    assert(rows@.take(0) =~= Seq::<Row<I, String>>::empty());
    while i < rows.len()
        invariant
            i <= rows@.len(),
            count == values_under(rows@.take(i as int), title@).len(),
            count <= n,
            values_under(rows@.take(i as int), title@).len() <= i,
            forall|j: int|
                0 <= j < count ==> values_under(rows@, title@).len() > j && #[trigger] values_under(
                    rows@,
                    title@,
                )[j] == values_under(rows@.take(i as int), title@)[j],
        decreases rows@.len() - i,
    {
        assert(rows@.take(i + 1).drop_last() =~= rows@.take(i as int));
        let found = find_column(&rows[i].columns, title);
        proof {
            lemma_header_index(rows@[i as int].columns@, title@);
            lemma_values_under_prefix(rows@, title@, i + 1);
        }
        match found {
            Some(k) => {
                if count == n {
                    return Some(rows[i].columns[k].1.value.copy());
                }
                count = count + 1;
            },
            None => {},
        }
        i = i + 1;
    }
    assert(rows@.take(rows@.len() as int) =~= rows@);
    None
}

/// The values of a prefix of the rows are a prefix of the values.
proof fn lemma_values_under_prefix<I: IdMarker>(rows: Seq<Row<I, String>>, title: Seq<char>, k: int)
    requires
        0 <= k <= rows.len(),
    ensures
        values_under(rows.take(k), title).len() <= values_under(rows, title).len(),
        forall|j: int|
            0 <= j < values_under(rows.take(k), title).len() ==> #[trigger] values_under(rows, title)[j]
                == values_under(rows.take(k), title)[j],
    decreases rows.len() - k,
{
    if k < rows.len() {
        lemma_values_under_prefix(rows, title, k + 1);
        assert(rows.take(k + 1).drop_last() =~= rows.take(k));
    } else {
        assert(rows.take(k) =~= rows);
    }
}

/// The identifiers of the rows, in order.
pub fn ids_of(rows: &Vec<Row<u128, String>>) -> (res: Vec<u128>)
    ensures
        res@ == rows@.map_values(|r: Row<u128, String>| r.id),
{
    let mut res: Vec<u128> = Vec::new();
    let mut i: usize = 0;
    while i < rows.len()
        invariant
            i <= rows@.len(),
            res@ == rows@.take(i as int).map_values(|r: Row<u128, String>| r.id),
        decreases rows@.len() - i,
    {
        res.push(rows[i].id);
        assert(rows@.take(i + 1) =~= rows@.take(i as int).push(rows@[i as int]));
        assert(res@ =~= rows@.take(i + 1).map_values(|r: Row<u128, String>| r.id));
        i = i + 1;
    }
    assert(rows@.take(rows@.len() as int) =~= rows@);
    res
}

/// The rows shown after collapsing: the collapsed rows sorted by the
/// priorities, then the rows that were not collapsed, in their order.
pub fn finish_collapse(
    collapsed: Vec<Row<u128, String>>,
    unique: Vec<Row<u128, String>>,
    priorities: &[String],
) -> (res: Vec<Row<u128, String>>)
    ensures
        res@ == insertion_sort(collapsed@, priorities@) + unique@,
{
    let mut collapsed = collapsed;
    let mut unique = unique;
    collapsed.sort_rows(priorities);
    collapsed.append(&mut unique);
    collapsed
}

/// The cells of a collapsed row, from the value each rule gave (`None`
/// when a rule gave none): the headers of the rules with a value, set in
/// turn.
pub open spec fn present_cells(
    rules: Seq<(String, IdentityDiffsOps)>,
    values: Seq<Option<ColumnValue<String>>>,
) -> Seq<(String, Column<String>)>
    decreases values.len(),
{
    if values.len() == 0 || rules.len() == 0 {
        Seq::empty()
    } else {
        let rest = present_cells(rules.drop_last(), values.drop_last());
        match values.last() {
            Some(v) => rest.push((rules.last().0, Column { is_basic: true, value: v })),
            None => rest,
        }
    }
}

/// The cells of a collapsed row: each rule's value, when it gave one, set
/// as a basic cell under the rule's header, in the order of the rules.
pub fn collapsed_cells(
    rules: &Vec<(String, IdentityDiffsOps)>,
    values: Vec<Option<ColumnValue<String>>>,
) -> (res: Vec<(String, Column<String>)>)
    requires
        values@.len() == rules@.len(),
    ensures
        res@ == with_cells(Seq::empty(), present_cells(rules@, values@)),
{
    let ghost vs = values@;
    let mut rest = values;
    let mut cells: Vec<(String, Column<String>)> = Vec::new();
    let n = rest.len();
    let mut k: usize = 0;
    assert(vs.skip(0) =~= vs);
    while k < n
        invariant
            n == vs.len(),
            n == rules@.len(),
            k <= n,
            rest@ == vs.skip(k as int),
            cells@ == with_cells(Seq::empty(), present_cells(rules@.take(k as int), vs.take(k as int))),
        decreases n - k,
    {
        let v = rest.remove(0);
        assert(vs.skip(k as int).remove(0) =~= vs.skip(k + 1));
        assert(rules@.take(k + 1).drop_last() =~= rules@.take(k as int));
        assert(vs.take(k + 1).drop_last() =~= vs.take(k as int));
        assert(vs.take(k + 1).last() == v);
        assert(rules@.take(k + 1).last() == rules@[k as int]);
        match v {
            Some(value) => {
                let ghost before = present_cells(rules@.take(k as int), vs.take(k as int));
                let entry = (rules[k].0.clone(), Column { is_basic: true, value });
                proof {
                    assert(present_cells(rules@.take(k + 1), vs.take(k + 1)) == before.push(entry));
                    assert(before.push(entry).drop_last() =~= before);
                }
                set_column(&mut cells, entry.0, entry.1);
            },
            None => {},
        }
        k = k + 1;
    }
    assert(vs.take(n as int) =~= vs);
    assert(rules@.take(n as int) =~= rules@);
    cells
}

/// The rows after collapsing, with fresh ids: for group `g` the collapsed
/// row with the id `members[g].0` and the cells `columns[g]`.
pub open spec fn collapsed_rows(
    members: Seq<(u128, Vec<u128>)>,
    columns: Seq<Vec<(String, Column<String>)>>,
) -> Seq<Row<u128, String>> {
    Seq::new(members.len(), |g: int| Row { id: members[g].0, columns: columns[g] })
}

/// Makes one collapsed row per group, with a fresh id and the group's
/// cells, and lists for each the rows it stands for; the rows shown are the
/// collapsed rows sorted by the priorities, then the unique rows.
pub fn collapse_groups(
    groups: Vec<Vec<Row<u128, String>>>,
    columns: Vec<Vec<(String, Column<String>)>>,
    unique: Vec<Row<u128, String>>,
    priorities: &[String],
) -> (res: (Vec<Row<u128, String>>, Vec<(u128, Vec<u128>)>))
    requires
        columns@.len() == groups@.len(),
    ensures
        res.1@.len() == groups@.len(),
        forall|g: int|
            0 <= g < groups@.len() ==> (#[trigger] res.1@[g]).1@ == groups@[g]@.map_values(
                |r: Row<u128, String>| r.id,
            ) && (res.1@[g].0 >> 76u128) & 0xfu128 == 4u128,
        res.0@ == insertion_sort(collapsed_rows(res.1@, columns@), priorities@) + unique@,
{
    let ghost gs = groups@;
    let ghost cs = columns@;
    let mut groups = groups;
    let mut columns = columns;
    let mut collapsed: Vec<Row<u128, String>> = Vec::new();
    let mut members: Vec<(u128, Vec<u128>)> = Vec::new();
    let n = groups.len();
    let mut k: usize = 0;
    assert(gs.skip(0) =~= gs);
    assert(cs.skip(0) =~= cs);
    while k < n
        invariant
            n == gs.len(),
            n == cs.len(),
            k <= n,
            groups@ == gs.skip(k as int),
            columns@ == cs.skip(k as int),
            members@.len() == k,
            collapsed@.len() == k,
            forall|g: int|
                0 <= g < k ==> (#[trigger] members@[g]).1@ == gs[g]@.map_values(|r: Row<u128, String>| r.id)
                    && (members@[g].0 >> 76u128) & 0xfu128 == 4u128,
            forall|g: int| 0 <= g < k ==> #[trigger] collapsed@[g] == (Row { id: members@[g].0, columns: cs[g] }),
        decreases n - k,
    {
        let group = groups.remove(0);
        let cells = columns.remove(0);
        assert(gs.skip(k as int).remove(0) =~= gs.skip(k + 1));
        assert(cs.skip(k as int).remove(0) =~= cs.skip(k + 1));
        let id = new_id();
        let ids = ids_of(&group);
        collapsed.push(Row { id, columns: cells });
        members.push((id, ids));
        k = k + 1;
    }
    assert(collapsed@ =~= collapsed_rows(members@, cs));
    let shown = finish_collapse(collapsed, unique, priorities);
    (shown, members)
}

} // verus!
