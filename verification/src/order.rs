//! Sorting, with equals kept in the order in which they stood.
use vstd::prelude::*;

verus! {

/// A total order that may rank different values alike.
pub trait Ranked: Sized {
    /// Whether a value ranks before another or with it.
    spec fn at_most(self, other: Self) -> bool;

    proof fn total(a: Self, b: Self)
        ensures
            a.at_most(b) || b.at_most(a),
    ;

    proof fn transitive(a: Self, b: Self, c: Self)
        requires
            a.at_most(b),
            b.at_most(c),
        ensures
            a.at_most(c),
    ;

    fn ranks_at_most(&self, other: &Self) -> (yes: bool)
        ensures
            yes == (*self).at_most(*other),
    ;
}

/// A value put in its place: behind all that rank before it or with it.
pub open spec fn placed<T: Ranked>(items: Seq<T>, item: T) -> Seq<T>
    decreases items.len(),
{
    if items.len() == 0 || items.last().at_most(item) {
        items.push(item)
    } else {
        placed(items.drop_last(), item).push(items.last())
    }
}

/// The values in order, those that rank alike as they stood.
pub open spec fn sorted<T: Ranked>(items: Seq<T>) -> Seq<T>
    decreases items.len(),
{
    if items.len() == 0 {
        Seq::empty()
    } else {
        placed(sorted(items.drop_last()), items.last())
    }
}

/// Whether no value ranks after one behind it.
pub open spec fn in_order<T: Ranked>(items: Seq<T>) -> bool {
    forall|i: int, j: int| 0 <= i <= j < items.len() ==> items[i].at_most(items[j])
}

proof fn lemma_placed<T: Ranked>(items: Seq<T>, item: T)
    requires
        in_order(items),
    ensures
        in_order(placed(items, item)),
        placed(items, item).to_multiset() == items.to_multiset().insert(item),
        placed(items, item).len() == items.len() + 1,
    decreases items.len(),
{
    broadcast use vstd::seq_lib::group_to_multiset_ensures;

    let result = placed(items, item);
    T::total(item, item);
    if items.len() == 0 || items.last().at_most(item) {
        assert forall|i: int, j: int| 0 <= i <= j < result.len() implies result[i].at_most(
            result[j],
        ) by {
            if j == items.len() && i < items.len() {
                assert(items[i].at_most(items[items.len() - 1]));
                T::transitive(items[i], items.last(), item);
            }
        }
    } else {
        let shorter = items.drop_last();
        lemma_placed(shorter, item);
        let inner = placed(shorter, item);
        T::total(items.last(), item);
        T::total(items.last(), items.last());
        assert(items == shorter.push(items.last()));
        assert forall|i: int| 0 <= i < inner.len() implies (#[trigger] inner[i]).at_most(
            items.last(),
        ) by {
            assert(inner.to_multiset().contains(inner[i]));
            if inner[i] != item {
                assert(shorter.to_multiset().contains(inner[i]));
                assert(shorter.contains(inner[i]));
                let k = choose|k: int| 0 <= k < shorter.len() && shorter[k] == inner[i];
                assert(items[k].at_most(items[items.len() - 1]));
            }
        }
        assert forall|i: int, j: int| 0 <= i <= j < result.len() implies result[i].at_most(
            result[j],
        ) by {
            if j < inner.len() {
                assert(inner[i].at_most(inner[j]));
            }
        }
        assert(result.to_multiset() =~= items.to_multiset().insert(item));
    }
}

/// Sorting puts in order what it is given, and neither adds nor loses any of it.
pub proof fn law_sorting_orders_and_keeps<T: Ranked>(items: Seq<T>)
    ensures
        in_order(sorted(items)),
        sorted(items).to_multiset() == items.to_multiset(),
        sorted(items).len() == items.len(),
    decreases items.len(),
{
    broadcast use vstd::seq_lib::group_to_multiset_ensures;

    if items.len() > 0 {
        law_sorting_orders_and_keeps(items.drop_last());
        lemma_placed(sorted(items.drop_last()), items.last());
        assert(items == items.drop_last().push(items.last()));
    } else {
        assert(sorted(items) =~= items);
    }
}

fn place<T: Ranked>(items: &mut Vec<T>, item: T)
    ensures
        final(items)@ == placed(old(items)@, item),
{
    let mut at: usize = items.len();
    let ghost whole = items@;
    assert(whole.take(whole.len() as int) == whole);
    assert(placed(whole, item) + whole.skip(whole.len() as int) == placed(whole, item));
    while at > 0 && !items[at - 1].ranks_at_most(&item)
        invariant
            items@ == whole,
            at <= whole.len(),
            placed(whole, item) == placed(whole.take(at as int), item) + whole.skip(at as int),
        decreases at,
    {
        proof {
            let shown = whole.take(at as int);
            assert(shown.drop_last() == whole.take(at - 1));
            assert(shown.last() == whole[at - 1]);
            assert(placed(whole.take(at - 1), item).push(whole[at - 1]) + whole.skip(at as int)
                == placed(whole.take(at - 1), item) + whole.skip(at - 1));
        }
        at -= 1;
    }
    items.insert(at, item);
    proof {
        let shown = whole.take(at as int);
        assert(at > 0 ==> shown.last() == whole[at - 1]);
        assert(placed(shown, item) == shown.push(item));
        assert(items@ == shown.push(item) + whole.skip(at as int));
    }
}

/// Sorts a list.
pub fn sort<T: Ranked>(items: Vec<T>) -> (result: Vec<T>)
    ensures
        result@ == sorted(items@),
{
    let mut rest: Vec<T> = items;
    let mut result: Vec<T> = Vec::new();
    let ghost whole = items@;
    while rest.len() > 0
        invariant
            result@.len() + rest@.len() == whole.len(),
            rest@ == whole.skip(result@.len() as int),
            result@ == sorted(whole.take(result@.len() as int)),
        decreases rest@.len(),
    {
        let ghost done = result@.len() as int;
        let item: T = rest.remove(0);
        assert(item == whole[done]);
        assert(whole.take(done + 1).drop_last() == whole.take(done));
        assert(rest@ == whole.skip(done + 1));
        place(&mut result, item);
        proof {
            assert(whole.take(done + 1).last() == item);
            lemma_placed_length(sorted(whole.take(done)), item);
        }
    }
    assert(whole.take(whole.len() as int) == whole);
    result
}

proof fn lemma_placed_length<T: Ranked>(items: Seq<T>, item: T)
    ensures
        placed(items, item).len() == items.len() + 1,
    decreases items.len(),
{
    if items.len() > 0 && !items.last().at_most(item) {
        lemma_placed_length(items.drop_last(), item);
    }
}

/// A value put in its place by a relation.
pub open spec fn placed_by<V>(items: Seq<V>, item: V, at_most: spec_fn(V, V) -> bool) -> Seq<V>
    decreases items.len(),
{
    if items.len() == 0 || at_most(items.last(), item) {
        items.push(item)
    } else {
        placed_by(items.drop_last(), item, at_most).push(items.last())
    }
}

/// The values in order by a relation, those that rank alike as they stood.
pub open spec fn sorted_by<V>(items: Seq<V>, at_most: spec_fn(V, V) -> bool) -> Seq<V>
    decreases items.len(),
{
    if items.len() == 0 {
        Seq::empty()
    } else {
        placed_by(sorted_by(items.drop_last(), at_most), items.last(), at_most)
    }
}

proof fn lemma_placed_views<T: Ranked, V>(
    items: Seq<T>,
    item: T,
    view: spec_fn(T) -> V,
    at_most: spec_fn(V, V) -> bool,
)
    requires
        forall|a: T, b: T| #[trigger] a.at_most(b) == at_most(view(a), view(b)),
    ensures
        placed(items, item).map_values(view) == placed_by(
            items.map_values(view),
            view(item),
            at_most,
        ),
    decreases items.len(),
{
    let seen = items.map_values(view);
    if items.len() == 0 || items.last().at_most(item) {
        assert(items.len() > 0 ==> seen.last() == view(items.last()));
        assert(items.push(item).map_values(view) == seen.push(view(item)));
    } else {
        lemma_placed_views(items.drop_last(), item, view, at_most);
        assert(items.drop_last().map_values(view) == seen.drop_last());
        assert(seen.last() == view(items.last()));
        let inner = placed(items.drop_last(), item);
        assert(inner.push(items.last()).map_values(view) == inner.map_values(view).push(
            view(items.last()),
        ));
    }
}

/// Sorting values sorts what is seen of them, where their rank can be seen.
pub proof fn lemma_sorted_views<T: Ranked, V>(
    items: Seq<T>,
    view: spec_fn(T) -> V,
    at_most: spec_fn(V, V) -> bool,
)
    requires
        forall|a: T, b: T| #[trigger] a.at_most(b) == at_most(view(a), view(b)),
    ensures
        sorted(items).map_values(view) == sorted_by(items.map_values(view), at_most),
    decreases items.len(),
{
    if items.len() > 0 {
        lemma_sorted_views(items.drop_last(), view, at_most);
        assert(items.drop_last().map_values(view) == items.map_values(view).drop_last());
        lemma_placed_views(sorted(items.drop_last()), items.last(), view, at_most);
    } else {
        assert(sorted(items).map_values(view) == Seq::<V>::empty());
    }
}

proof fn lemma_placed_by_keeps<V>(
    items: Seq<V>,
    item: V,
    at_most: spec_fn(V, V) -> bool,
    good: spec_fn(V) -> bool,
)
    requires
        forall|i: int| 0 <= i < items.len() ==> good(#[trigger] items[i]),
        good(item),
    ensures
        forall|i: int|
            0 <= i < placed_by(items, item, at_most).len() ==> good(
                #[trigger] placed_by(items, item, at_most)[i],
            ),
    decreases items.len(),
{
    if items.len() > 0 && !at_most(items.last(), item) {
        assert forall|i: int| 0 <= i < items.drop_last().len() implies good(
            #[trigger] items.drop_last()[i],
        ) by {
            assert(good(items[i]));
        }
        lemma_placed_by_keeps(items.drop_last(), item, at_most, good);
        let inner = placed_by(items.drop_last(), item, at_most);
        let all = placed_by(items, item, at_most);
        assert(good(items[items.len() - 1]));
        assert forall|i: int| 0 <= i < all.len() implies good(#[trigger] all[i]) by {
            if i < inner.len() {
                assert(good(inner[i]));
            }
        }
    } else {
        let all = placed_by(items, item, at_most);
        assert forall|i: int| 0 <= i < all.len() implies good(#[trigger] all[i]) by {
            if i < items.len() {
                assert(good(items[i]));
            }
        }
    }
}

/// What holds of every value holds of every value once they are sorted.
pub proof fn lemma_sorted_by_keeps<V>(
    items: Seq<V>,
    at_most: spec_fn(V, V) -> bool,
    good: spec_fn(V) -> bool,
)
    requires
        forall|i: int| 0 <= i < items.len() ==> good(#[trigger] items[i]),
    ensures
        forall|i: int|
            0 <= i < sorted_by(items, at_most).len() ==> good(
                #[trigger] sorted_by(items, at_most)[i],
            ),
    decreases items.len(),
{
    if items.len() > 0 {
        assert forall|i: int| 0 <= i < items.drop_last().len() implies good(
            #[trigger] items.drop_last()[i],
        ) by {
            assert(good(items[i]));
        }
        lemma_sorted_by_keeps(items.drop_last(), at_most, good);
        assert(good(items[items.len() - 1]));
        lemma_placed_by_keeps(sorted_by(items.drop_last(), at_most), items.last(), at_most, good);
    }
}

/// Whether no value ranks after one behind it, by a relation.
pub open spec fn in_order_by<V>(items: Seq<V>, at_most: spec_fn(V, V) -> bool) -> bool {
    forall|i: int, j: int|
        0 <= i <= j < items.len() ==> at_most(#[trigger] items[i], #[trigger] items[j])
}

proof fn lemma_placed_by_orders<V>(items: Seq<V>, item: V, at_most: spec_fn(V, V) -> bool)
    requires
        in_order_by(items, at_most),
        forall|a: V, b: V| #[trigger] at_most(a, b) || at_most(b, a),
        forall|a: V, b: V, c: V| #[trigger]
            at_most(a, b) && #[trigger] at_most(b, c) ==> at_most(a, c),
    ensures
        in_order_by(placed_by(items, item, at_most), at_most),
    decreases items.len(),
{
    let all = placed_by(items, item, at_most);
    assert(at_most(item, item) || at_most(item, item));
    if items.len() == 0 || at_most(items.last(), item) {
        assert forall|i: int, j: int| 0 <= i <= j < all.len() implies at_most(
            #[trigger] all[i],
            #[trigger] all[j],
        ) by {
            if j < items.len() {
                assert(at_most(items[i], items[j]));
            } else if i < items.len() {
                assert(at_most(items[i], items[items.len() - 1]));
            }
        }
    } else {
        let less = items.drop_last();
        let last = items.last();
        assert(at_most(last, item) || at_most(item, last));
        assert(at_most(items[items.len() - 1], items[items.len() - 1]));
        assert forall|i: int, j: int| 0 <= i <= j < less.len() implies at_most(
            #[trigger] less[i],
            #[trigger] less[j],
        ) by {
            assert(at_most(items[i], items[j]));
        }
        lemma_placed_by_orders(less, item, at_most);
        let good = |value: V| at_most(value, last);
        assert forall|i: int| 0 <= i < less.len() implies good(#[trigger] less[i]) by {
            assert(at_most(items[i], items[items.len() - 1]));
        }
        lemma_placed_by_keeps(less, item, at_most, good);
        let inner = placed_by(less, item, at_most);
        assert forall|i: int, j: int| 0 <= i <= j < all.len() implies at_most(
            #[trigger] all[i],
            #[trigger] all[j],
        ) by {
            if j < inner.len() {
                assert(at_most(inner[i], inner[j]));
            } else if i < inner.len() {
                assert(good(inner[i]));
            }
        }
    }
}

/// Sorting by a relation that ranks any two values, and whose ranks follow on one
/// another, puts values in order.
pub proof fn lemma_sorted_by_orders<V>(items: Seq<V>, at_most: spec_fn(V, V) -> bool)
    requires
        forall|a: V, b: V| #[trigger] at_most(a, b) || at_most(b, a),
        forall|a: V, b: V, c: V| #[trigger]
            at_most(a, b) && #[trigger] at_most(b, c) ==> at_most(a, c),
    ensures
        in_order_by(sorted_by(items, at_most), at_most),
    decreases items.len(),
{
    if items.len() > 0 {
        lemma_sorted_by_orders(items.drop_last(), at_most);
        lemma_placed_by_orders(sorted_by(items.drop_last(), at_most), items.last(), at_most);
    }
}

/// Sorting leaves a list that is in order as it is; so values that rank alike keep
/// the order in which they stood.
pub proof fn law_an_ordered_list_stays<T: Ranked>(items: Seq<T>)
    requires
        in_order(items),
    ensures
        sorted(items) == items,
    decreases items.len(),
{
    if items.len() > 0 {
        let less = items.drop_last();
        assert forall|i: int, j: int| 0 <= i <= j < less.len() implies less[i].at_most(
            less[j],
        ) by {
            assert(items[i].at_most(items[j]));
        }
        law_an_ordered_list_stays(less);
        if less.len() > 0 {
            assert(items[items.len() - 2].at_most(items[items.len() - 1]));
        }
        assert(less.push(items.last()) == items);
    } else {
        assert(sorted(items) == items);
    }
}

proof fn lemma_placed_by_members<V>(items: Seq<V>, item: V, at_most: spec_fn(V, V) -> bool)
    ensures
        placed_by(items, item, at_most).len() == items.len() + 1,
        placed_by(items, item, at_most).to_multiset() == items.to_multiset().insert(item),
    decreases items.len(),
{
    broadcast use vstd::seq_lib::group_to_multiset_ensures;

    if items.len() > 0 && !at_most(items.last(), item) {
        let less = items.drop_last();
        lemma_placed_by_members(less, item, at_most);
        assert(items == less.push(items.last()));
        assert(less.to_multiset().insert(item).insert(items.last())
            == less.to_multiset().insert(items.last()).insert(item));
    }
}

/// Sorting by a relation loses nothing, adds nothing and doubles nothing, and
/// leaves a list that is in order as it is.
pub proof fn law_sorting_by_keeps_all<V>(items: Seq<V>, at_most: spec_fn(V, V) -> bool)
    ensures
        sorted_by(items, at_most).to_multiset() == items.to_multiset(),
        sorted_by(items, at_most).len() == items.len(),
        in_order_by(items, at_most) ==> sorted_by(items, at_most) == items,
    decreases items.len(),
{
    broadcast use vstd::seq_lib::group_to_multiset_ensures;

    if items.len() > 0 {
        let less = items.drop_last();
        law_sorting_by_keeps_all(less, at_most);
        lemma_placed_by_members(sorted_by(less, at_most), items.last(), at_most);
        assert(items == less.push(items.last()));
        if in_order_by(items, at_most) {
            assert forall|i: int, j: int| 0 <= i <= j < less.len() implies at_most(
                #[trigger] less[i],
                #[trigger] less[j],
            ) by {
                assert(at_most(items[i], items[j]));
            }
            if less.len() > 0 {
                assert(at_most(items[items.len() - 2], items[items.len() - 1]));
            }
        }
    } else {
        assert(sorted_by(items, at_most) == items);
    }
}

/// A sorted list holds just what was sorted.
pub proof fn law_sorting_by_keeps_members<V>(
    items: Seq<V>,
    at_most: spec_fn(V, V) -> bool,
    value: V,
)
    ensures
        sorted_by(items, at_most).contains(value) <==> items.contains(value),
{
    broadcast use vstd::seq_lib::group_to_multiset_ensures;

    law_sorting_by_keeps_all(items, at_most);
    assert(items.contains(value) <==> items.to_multiset().count(value) > 0);
    assert(sorted_by(items, at_most).contains(value) <==> sorted_by(
        items,
        at_most,
    ).to_multiset().count(value) > 0);
}

} // verus!
