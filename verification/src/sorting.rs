use vstd::prelude::*;
use crate::models::{IdMarker, Row};
use crate::order::{
    Order, compare_rows, row_order, row_order_from, lemma_row_order_reverse, value_kind, is_nan_value, value_order,
    lemma_value_order_chain,
};

verus! {

broadcast use vstd::seq_lib::group_seq_properties, vstd::seq_lib::group_to_multiset_ensures;

/// Sorting of a list of rows by prioritized headers.
pub trait RowsSort {
    fn sort_rows(&mut self, keys: &[String]);
}

/// Inserts `x` into `s` after every element that is not greater than `x`
/// counting from the end: `x` moves left past the trailing elements that
/// are greater than it, and stops at the first one that is not.
pub open spec fn sorted_insert<I: IdMarker>(
    s: Seq<Row<I, String>>,
    x: Row<I, String>,
    keys: Seq<String>,
) -> Seq<Row<I, String>>
    decreases s.len(),
{
    if s.len() == 0 {
        seq![x]
    } else if row_order(s.last(), x, keys) == Order::Greater {
        sorted_insert(s.drop_last(), x, keys).push(s.last())
    } else {
        s.push(x)
    }
}

/// Stable insertion sort of `s` by `row_order`.
pub open spec fn insertion_sort<I: IdMarker>(s: Seq<Row<I, String>>, keys: Seq<String>) -> Seq<
    Row<I, String>,
>
    decreases s.len(),
{
    if s.len() == 0 {
        s
    } else {
        sorted_insert(insertion_sort(s.drop_last(), keys), s.last(), keys)
    }
}

/// `row_order` is transitive on the rows of `s`: it is then a total
/// preorder on them (it is always antisymmetric, see
/// `lemma_row_order_reverse`).
pub open spec fn order_is_transitive_on<I: IdMarker>(s: Seq<Row<I, String>>, keys: Seq<String>) -> bool {
    forall|a: Row<I, String>, b: Row<I, String>, c: Row<I, String>|
        s.contains(a) && s.contains(b) && s.contains(c) && #[trigger] row_order(a, b, keys)
            != Order::Greater && #[trigger] row_order(b, c, keys) != Order::Greater
            ==> row_order(a, c, keys) != Order::Greater
}

/// No element of `s` is greater than a later one.
pub open spec fn is_sorted_by<I: IdMarker>(s: Seq<Row<I, String>>, keys: Seq<String>) -> bool {
    forall|i: int, j: int|
        0 <= i < j < s.len() ==> row_order(#[trigger] s[i], #[trigger] s[j], keys) != Order::Greater
}

/// Under each header `keys[i]` the row has a value of the kind `kinds[i]`,
/// and no NaN.
pub open spec fn row_fits<I: IdMarker>(r: Row<I, String>, keys: Seq<String>, kinds: Seq<int>) -> bool {
    forall|i: int|
        0 <= i < keys.len() ==> match #[trigger] r.cell(keys[i]@) {
            Some(c) => value_kind(c.value) == kinds[i] && !is_nan_value(c.value),
            None => false,
        }
}

/// For rows that fit the same kinds, the order from header `i` on chains:
/// not greater and not greater is not greater.
proof fn lemma_row_order_chain<I: IdMarker>(
    a: Row<I, String>,
    b: Row<I, String>,
    c: Row<I, String>,
    keys: Seq<String>,
    kinds: Seq<int>,
    i: int,
)
    requires
        row_fits(a, keys, kinds),
        row_fits(b, keys, kinds),
        row_fits(c, keys, kinds),
        0 <= i,
        row_order_from(a, b, keys, i) != Order::Greater,
        row_order_from(b, c, keys, i) != Order::Greater,
    ensures
        row_order_from(a, c, keys, i) != Order::Greater,
    decreases keys.len() - i,
{
    if i < keys.len() {
        let k = keys[i]@;
        assert(a.cell(k) is Some && b.cell(k) is Some && c.cell(k) is Some);
        let x = a.cell(k)->0.value;
        let y = b.cell(k)->0.value;
        let z = c.cell(k)->0.value;
        lemma_value_order_chain(x, y, z);
        if value_order(x, y) == Some(Order::Equal) && value_order(y, z) == Some(Order::Equal) {
            lemma_row_order_chain(a, b, c, keys, kinds, i + 1);
        }
    }
}

/// The elements of `s` that are equal to `z` in the order.
pub open spec fn equal_to<I: IdMarker>(s: Seq<Row<I, String>>, z: Row<I, String>, keys: Seq<String>) -> Seq<
    Row<I, String>,
> {
    s.filter(|y: Row<I, String>| row_order(y, z, keys) == Order::Equal)
}

/// The insertion point found by scanning from the end splits `s` as
/// `sorted_insert` does.
proof fn lemma_sorted_insert_at<I: IdMarker>(
    s: Seq<Row<I, String>>,
    x: Row<I, String>,
    keys: Seq<String>,
    p: int,
)
    requires
        0 <= p <= s.len(),
        p == 0 || row_order(s[p - 1], x, keys) != Order::Greater,
        forall|j: int| p <= j < s.len() ==> row_order(#[trigger] s[j], x, keys) == Order::Greater,
    ensures
        sorted_insert(s, x, keys) == s.take(p).push(x) + s.skip(p),
    decreases s.len(),
{
    if p == s.len() {
        assert(s.skip(p) =~= Seq::<Row<I, String>>::empty());
        assert(s.take(p) =~= s);
        assert(s.take(p).push(x) + s.skip(p) =~= s.push(x));
    } else {
        lemma_sorted_insert_at(s.drop_last(), x, keys, p);
        assert(s.drop_last().take(p) =~= s.take(p));
        assert(s.drop_last().skip(p).push(s.last()) =~= s.skip(p));
        assert((s.take(p).push(x) + s.drop_last().skip(p)).push(s.last()) =~= s.take(p).push(x)
            + s.skip(p));
    }
}

/// Inserting adds exactly `x` to the multiset of elements.
pub proof fn lemma_sorted_insert_multiset<I: IdMarker>(
    s: Seq<Row<I, String>>,
    x: Row<I, String>,
    keys: Seq<String>,
)
    ensures
        sorted_insert(s, x, keys).to_multiset() == s.to_multiset().insert(x),
        sorted_insert(s, x, keys).len() == s.len() + 1,
    decreases s.len(),
{
    if s.len() == 0 {
        assert(seq![x] =~= Seq::<Row<I, String>>::empty().push(x));
    } else if row_order(s.last(), x, keys) == Order::Greater {
        lemma_sorted_insert_multiset(s.drop_last(), x, keys);
        assert(s.drop_last().push(s.last()) =~= s);
        assert(s.to_multiset() == s.drop_last().to_multiset().insert(s.last()));
        assert(sorted_insert(s, x, keys).to_multiset() =~= s.to_multiset().insert(x));
    }
}

/// Sorting rearranges the rows: the result holds exactly the rows of the
/// input, each as often as the input does.
pub proof fn lemma_sort_permutes<I: IdMarker>(s: Seq<Row<I, String>>, keys: Seq<String>)
    ensures
        insertion_sort(s, keys).to_multiset() == s.to_multiset(),
        insertion_sort(s, keys).len() == s.len(),
    decreases s.len(),
{
    if s.len() > 0 {
        lemma_sort_permutes(s.drop_last(), keys);
        lemma_sorted_insert_multiset(insertion_sort(s.drop_last(), keys), s.last(), keys);
        assert(s.drop_last().push(s.last()) =~= s);
    }
}

/// Under a transitive order, inserting into a sorted sequence keeps it
/// sorted.
proof fn lemma_sorted_insert_sorted<I: IdMarker>(
    s: Seq<Row<I, String>>,
    x: Row<I, String>,
    keys: Seq<String>,
    all: Seq<Row<I, String>>,
)
    requires
        is_sorted_by(s, keys),
        order_is_transitive_on(all, keys),
        forall|i: int| 0 <= i < s.len() ==> all.contains(#[trigger] s[i]),
        all.contains(x),
    ensures
        is_sorted_by(sorted_insert(s, x, keys), keys),
    decreases s.len(),
{
    if s.len() == 0 {
    } else if row_order(s.last(), x, keys) == Order::Greater {
        let t = s.drop_last();
        assert(is_sorted_by(t, keys));
        lemma_sorted_insert_sorted(t, x, keys, all);
        let r = sorted_insert(t, x, keys);
        lemma_sorted_insert_multiset(t, x, keys);
        lemma_row_order_reverse(s.last(), x, keys, 0);
        assert forall|i: int| 0 <= i < r.len() implies row_order(r[i], s.last(), keys)
            != Order::Greater by {
            assert(r.to_multiset().count(r[i]) > 0);
            assert(t.to_multiset().insert(x).count(r[i]) > 0);
            if r[i] != x {
                assert(t.to_multiset().count(r[i]) > 0);
                assert(t.contains(r[i]));
                let k = choose|k: int| 0 <= k < t.len() && t[k] == r[i];
                assert(s[k] == t[k]);
            }
        }
        assert(is_sorted_by(r.push(s.last()), keys)) by {
            assert forall|i: int, j: int| 0 <= i < j < r.len() + 1 implies row_order(
                #[trigger] r.push(s.last())[i],
                #[trigger] r.push(s.last())[j],
                keys,
            ) != Order::Greater by {
                if j < r.len() {
                    assert(r.push(s.last())[i] == r[i]);
                    assert(r.push(s.last())[j] == r[j]);
                } else {
                    assert(r.push(s.last())[i] == r[i]);
                }
            }
        }
    } else {
        assert forall|i: int, j: int| 0 <= i < j < s.len() + 1 implies row_order(
            #[trigger] s.push(x)[i],
            #[trigger] s.push(x)[j],
            keys,
        ) != Order::Greater by {
            if j < s.len() {
                assert(s.push(x)[i] == s[i]);
                assert(s.push(x)[j] == s[j]);
            } else {
                assert(s.push(x)[i] == s[i]);
                if i < s.len() - 1 {
                    assert(row_order(s[i], s[s.len() - 1], keys) != Order::Greater);
                    assert(all.contains(s[i]));
                    assert(all.contains(s.last()));
                } else {
                    assert(s[i] == s.last());
                }
            }
        }
    }
}

/// Sorting with an order that is transitive on the input yields a sorted
/// sequence.
pub proof fn lemma_sort_sorted<I: IdMarker>(s: Seq<Row<I, String>>, keys: Seq<String>)
    requires
        order_is_transitive_on(s, keys),
    ensures
        is_sorted_by(insertion_sort(s, keys), keys),
    decreases s.len(),
{
    if s.len() > 0 {
        let t = s.drop_last();
        assert(order_is_transitive_on(t, keys)) by {
            assert forall|a: Row<I, String>| t.contains(a) implies s.contains(a) by {
                let k = choose|k: int| 0 <= k < t.len() && t[k] == a;
                assert(s[k] == a);
            }
        }
        lemma_sort_sorted(t, keys);
        lemma_sort_permutes(t, keys);
        let u = insertion_sort(t, keys);
        assert forall|i: int| 0 <= i < u.len() implies s.contains(#[trigger] u[i]) by {
            assert(u.to_multiset().count(u[i]) > 0);
            assert(t.to_multiset().count(u[i]) > 0);
            assert(t.contains(u[i]));
            let k = choose|k: int| 0 <= k < t.len() && t[k] == u[i];
            assert(s[k] == u[i]);
        }
        assert(s.contains(s.last())) by {
            assert(s[s.len() - 1] == s.last());
        }
        lemma_sorted_insert_sorted(u, s.last(), keys, s);
    }
}

/// Under a transitive order, inserting `x` keeps the relative order of the
/// elements equal to `z`, and puts `x` after them when it is equal to `z`.
proof fn lemma_sorted_insert_stable<I: IdMarker>(
    s: Seq<Row<I, String>>,
    x: Row<I, String>,
    z: Row<I, String>,
    keys: Seq<String>,
    all: Seq<Row<I, String>>,
)
    requires
        order_is_transitive_on(all, keys),
        forall|i: int| 0 <= i < s.len() ==> all.contains(#[trigger] s[i]),
        all.contains(x),
        all.contains(z),
    ensures
        equal_to(sorted_insert(s, x, keys), z, keys) == equal_to(s.push(x), z, keys),
    decreases s.len(),
{
    let p = |y: Row<I, String>| row_order(y, z, keys) == Order::Equal;
    if s.len() == 0 {
        assert(seq![x] =~= Seq::<Row<I, String>>::empty().push(x));
    } else if row_order(s.last(), x, keys) == Order::Greater {
        let t = s.drop_last();
        let l = s.last();
        assert(all.contains(l)) by {
            assert(s[s.len() - 1] == l);
        }
        lemma_sorted_insert_stable(t, x, z, keys, all);
        let r = sorted_insert(t, x, keys);
        r.lemma_filter_push(l, p);
        t.lemma_filter_push(x, p);
        s.lemma_filter_push(x, p);
        assert(t.push(l) =~= s);
        t.lemma_filter_push(l, p);
        assert(s.filter(p) == if p(l) {
            t.filter(p).push(l)
        } else {
            t.filter(p)
        });
        if p(x) && p(l) {
            // l > x, x ~ z and l ~ z cannot all hold.
            lemma_row_order_reverse(x, z, keys, 0);
            lemma_row_order_reverse(l, x, keys, 0);
            assert(row_order(l, z, keys) != Order::Greater);
            assert(row_order(z, x, keys) != Order::Greater);
            assert(row_order(l, x, keys) != Order::Greater);
            assert(false);
        }
    } else {
    }
}

/// Sorting is stable: under an order that is transitive on the input, the
/// rows equal to any given row of the input keep their relative order.
pub proof fn lemma_sort_stable<I: IdMarker>(s: Seq<Row<I, String>>, z: Row<I, String>, keys: Seq<String>)
    requires
        order_is_transitive_on(s, keys),
        s.contains(z),
    ensures
        equal_to(insertion_sort(s, keys), z, keys) == equal_to(s, z, keys),
{
    lemma_sort_stable_within(s, z, keys, s);
}

proof fn lemma_sort_stable_within<I: IdMarker>(
    s: Seq<Row<I, String>>,
    z: Row<I, String>,
    keys: Seq<String>,
    all: Seq<Row<I, String>>,
)
    requires
        order_is_transitive_on(all, keys),
        forall|i: int| 0 <= i < s.len() ==> all.contains(#[trigger] s[i]),
        all.contains(z),
    ensures
        equal_to(insertion_sort(s, keys), z, keys) == equal_to(s, z, keys),
    decreases s.len(),
{
    let p = |y: Row<I, String>| row_order(y, z, keys) == Order::Equal;
    if s.len() > 0 {
        let t = s.drop_last();
        lemma_sort_stable_within(t, z, keys, all);
        lemma_sort_permutes(t, keys);
        let u = insertion_sort(t, keys);
        assert forall|i: int| 0 <= i < u.len() implies all.contains(#[trigger] u[i]) by {
            assert(u.to_multiset().count(u[i]) > 0);
            assert(t.to_multiset().count(u[i]) > 0);
            assert(t.contains(u[i]));
            let k = choose|k: int| 0 <= k < t.len() && t[k] == u[i];
            assert(s[k] == u[i]);
        }
        assert(all.contains(s.last())) by {
            assert(s[s.len() - 1] == s.last());
        }
        lemma_sorted_insert_stable(u, s.last(), z, keys, all);
        u.lemma_filter_push(s.last(), p);
        assert(t.push(s.last()) =~= s);
        t.lemma_filter_push(s.last(), p);
    }
}

/// Moves `x` into its place in `sorted`, scanning from the end.
fn insert_sorted<I: IdMarker>(sorted: &mut Vec<Row<I, String>>, x: Row<I, String>, keys: &[String])
    ensures
        final(sorted)@ == sorted_insert(old(sorted)@, x, keys@),
{
    let mut p: usize = sorted.len();
    while p > 0 && compare_rows(&sorted[p - 1], &x, keys) == Order::Greater
        invariant
            p <= sorted@.len(),
            sorted@ == old(sorted)@,
            forall|j: int| p <= j < sorted@.len() ==> row_order(#[trigger] sorted@[j], x, keys@)
                == Order::Greater,
        decreases p,
    {
        p = p - 1;
    }
    proof {
        lemma_sorted_insert_at(sorted@, x, keys@, p as int);
        assert(sorted@.insert(p as int, x) =~= sorted@.take(p as int).push(x) + sorted@.skip(
            p as int,
        ));
    }
    sorted.insert(p, x);
}

impl RowsSort for Vec<Row<u128, String>> {
    /// Sorts the rows stably by the headers `keys`, in priority order (see
    /// `row_order`): the result is `insertion_sort` of the rows, which holds
    /// the same rows, is sorted, and keeps equal rows in their order, when
    /// the order is transitive on the rows (see the lemmas of this module).
    fn sort_rows(&mut self, keys: &[String])
        ensures
            final(self)@ == insertion_sort(old(self)@, keys@),
    {
        let ghost input = self@;
        let mut pending: Vec<Row<u128, String>> = Vec::new();
        std::mem::swap(&mut pending, self);
        let mut done: Vec<Row<u128, String>> = Vec::new();
        let mut i: usize = 0;
        let n = pending.len();
        assert(input.take(0) =~= Seq::<Row<u128, String>>::empty());
        assert(input.skip(0) =~= input);
        while i < n
            invariant
                n == input.len(),
                i <= n,
                done@ == insertion_sort(input.take(i as int), keys@),
                pending@ == input.skip(i as int),
            decreases n - i,
        {
            let x = pending.remove(0);
            assert(input.take(i + 1).drop_last() =~= input.take(i as int));
            assert(input.skip(i as int).remove(0) =~= input.skip(i + 1));
            insert_sorted(&mut done, x, keys);
            i = i + 1;
        }
        assert(input.take(n as int) =~= input);
        *self = done;
    }
}

/// Rows that hold, under every priority header, a value of one kind per
/// header (`kinds`) and no NaN are ordered transitively, so sorting them
/// puts them in priority order.
pub proof fn lemma_sort_sorts_fitting_rows<I: IdMarker>(s: Seq<Row<I, String>>, keys: Seq<String>, kinds: Seq<int>)
    requires
        forall|r: Row<I, String>| s.contains(r) ==> row_fits(r, keys, kinds),
    ensures
        order_is_transitive_on(s, keys),
        is_sorted_by(insertion_sort(s, keys), keys),
{
    assert forall|a: Row<I, String>, b: Row<I, String>, c: Row<I, String>|
        s.contains(a) && s.contains(b) && s.contains(c) && #[trigger] row_order(a, b, keys) != Order::Greater
            && #[trigger] row_order(b, c, keys) != Order::Greater implies row_order(a, c, keys) != Order::Greater by {
        lemma_row_order_chain(a, b, c, keys, kinds, 0);
    }
    lemma_sort_sorted(s, keys);
}

/// Sorting rows that are already in order changes nothing.
pub proof fn lemma_sort_of_sorted<I: IdMarker>(s: Seq<Row<I, String>>, keys: Seq<String>)
    requires
        is_sorted_by(s, keys),
    ensures
        insertion_sort(s, keys) == s,
    decreases s.len(),
{
    if s.len() > 0 {
        let t = s.drop_last();
        assert(is_sorted_by(t, keys)) by {
            assert forall|i: int, j: int| 0 <= i < j < t.len() implies row_order(
                #[trigger] t[i],
                #[trigger] t[j],
                keys,
            ) != Order::Greater by {
                assert(t[i] == s[i] && t[j] == s[j]);
            }
        }
        lemma_sort_of_sorted(t, keys);
        if t.len() > 0 {
            assert(t.last() == s[s.len() - 2]);
            assert(row_order(s[s.len() - 2], s[s.len() - 1], keys) != Order::Greater);
        }
        assert(t.push(s.last()) =~= s);
    }
}

/// Sorting twice gives what sorting once gives, when the order is
/// transitive on the rows.
pub proof fn lemma_sort_idempotent<I: IdMarker>(s: Seq<Row<I, String>>, keys: Seq<String>)
    requires
        order_is_transitive_on(s, keys),
    ensures
        insertion_sort(insertion_sort(s, keys), keys) == insertion_sort(s, keys),
{
    lemma_sort_sorted(s, keys);
    lemma_sort_of_sorted(insertion_sort(s, keys), keys);
}

} // verus!
