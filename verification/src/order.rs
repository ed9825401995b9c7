//! Stable sorting of lists whose elements are compared by a rank.

use vstd::prelude::*;

verus! {

/// Elements that can be put in order by a strict weak ordering.
pub trait Ranked: Sized {
    /// Whether this element comes strictly before `other`.
    spec fn precedes(&self, other: &Self) -> bool;

    /// Whether this element comes strictly before `other`.
    fn before(&self, other: &Self) -> (r: bool)
        ensures
            r == self.precedes(other),
    ;

    /// No element comes before itself, and not being preceded carries over.
    proof fn ordering(a: Self, b: Self, c: Self)
        ensures
            !a.precedes(&a),
            a.precedes(&b) ==> !b.precedes(&a),
            !b.precedes(&a) && !c.precedes(&b) ==> !c.precedes(&a),
            a.precedes(&b) && !c.precedes(&b) ==> a.precedes(&c),
            !b.precedes(&a) && b.precedes(&c) ==> a.precedes(&c),
    ;
}

/// Whether position `p` of the list goes before position `q`: by rank, and by position
/// where the ranks are equal.
pub open spec fn goes_before<T: Ranked>(items: Seq<T>, p: int, q: int) -> bool {
    items[p].precedes(&items[q]) || (!items[q].precedes(&items[p]) && p < q)
}

/// Whether `order` lists each of the positions `0..n` once.
pub open spec fn lists_each_once(order: Seq<usize>, n: nat) -> bool {
    &&& order.len() == n
    &&& forall|i: int| 0 <= i < n ==> (#[trigger] order[i]) < n
    &&& forall|i: int, j: int|
        #![trigger order[i], order[j]]
        0 <= i < j < n ==> order[i] != order[j]
}

/// Whether `order` is the stable sorting of `items`.
pub open spec fn is_stable_order<T: Ranked>(items: Seq<T>, order: Seq<usize>) -> bool {
    &&& lists_each_once(order, items.len())
    &&& forall|i: int, j: int|
        #![trigger order[i], order[j]]
        0 <= i < j < order.len() ==> goes_before(items, order[i] as int, order[j] as int)
}

/// Of two positions one goes before the other, and going before carries over.
pub proof fn goes_before_is_total<T: Ranked>(items: Seq<T>, p: int, q: int, r: int)
    ensures
        p != q ==> goes_before(items, p, q) || goes_before(items, q, p),
        !(goes_before(items, p, q) && goes_before(items, q, p)),
        goes_before(items, p, q) && goes_before(items, q, r) ==> goes_before(items, p, r),
{
    let a = items[p];
    let b = items[q];
    let c = items[r];
    T::ordering(a, b, c);
    T::ordering(b, a, c);
    T::ordering(a, c, b);
    T::ordering(c, b, a);
    T::ordering(b, c, a);
    T::ordering(c, a, b);
}

/// Whether `order` is the stable sorting of the first `n` of the items.
pub open spec fn orders_first<T: Ranked>(items: Seq<T>, order: Seq<usize>, n: nat) -> bool {
    &&& lists_each_once(order, n)
    &&& forall|i: int, j: int|
        #![trigger order[i], order[j]]
        0 <= i < j < order.len() ==> goes_before(items, order[i] as int, order[j] as int)
}

/// Putting the next position right after the last one that it does not precede keeps the
/// order.
proof fn placing_keeps_order<T: Ranked>(items: Seq<T>, order: Seq<usize>, at: int, k: usize)
    requires
        orders_first(items, order, k as nat),
        k < items.len(),
        0 <= at <= order.len(),
        at > 0 ==> !items[k as int].precedes(&items[order[at - 1] as int]),
        forall|i: int|
            at <= i < order.len() ==> items[k as int].precedes(
                &items[(#[trigger] order[i]) as int],
            ),
    ensures
        orders_first(items, order.insert(at, k), k as nat + 1),
{
    let after = order.insert(at, k);
    if at > 0 {
        let last = order[at - 1] as int;
        assert(goes_before(items, last, k as int));
        assert forall|i: int| 0 <= i < at implies goes_before(
            items,
            (#[trigger] order[i]) as int,
            k as int,
        ) by {
            if i < at - 1 {
                assert(goes_before(items, order[i] as int, order[at - 1] as int));
                goes_before_is_total(items, order[i] as int, last, k as int);
            }
        }
    }
    assert forall|i: int| 0 <= i < after.len() implies (#[trigger] after[i]) < k + 1 by {
        if i < at {
            assert(after[i] == order[i]);
        } else if i > at {
            assert(after[i] == order[i - 1]);
        }
    }
    assert forall|i: int, j: int|
        #![trigger after[i], after[j]]
        0 <= i < j < after.len() implies after[i] != after[j] && goes_before(
        items,
        after[i] as int,
        after[j] as int,
    ) by {
        let a = if i < at {
            i
        } else {
            i - 1
        };
        let b = if j < at {
            j
        } else {
            j - 1
        };
        if i != at && j != at {
            assert(after[i] == order[a]);
            assert(after[j] == order[b]);
        } else if j == at {
            assert(after[i] == order[i]);
            assert(goes_before(items, order[i] as int, k as int));
        } else {
            assert(after[j] == order[b]);
            assert(items[k as int].precedes(&items[order[b] as int]));
        }
    }
}

/// The place right after the last position that position `k` does not precede.
proof fn place_for<T: Ranked>(items: Seq<T>, order: Seq<usize>, k: usize, from: int) -> (at: int)
    requires
        orders_first(items, order, k as nat),
        0 <= from <= order.len(),
        forall|i: int|
            from <= i < order.len() ==> items[k as int].precedes(
                &items[(#[trigger] order[i]) as int],
            ),
    ensures
        0 <= at <= from,
        at > 0 ==> !items[k as int].precedes(&items[order[at - 1] as int]),
        forall|i: int|
            at <= i < order.len() ==> items[k as int].precedes(
                &items[(#[trigger] order[i]) as int],
            ),
    decreases from,
{
    if from > 0 && items[k as int].precedes(&items[order[from - 1] as int]) {
        place_for(items, order, k, from - 1)
    } else {
        from
    }
}

/// The first `n` of the items have a stable sorting.
proof fn first_items_can_be_sorted<T: Ranked>(items: Seq<T>, n: nat) -> (order: Seq<usize>)
    requires
        n <= items.len() <= usize::MAX,
    ensures
        orders_first(items, order, n),
    decreases n,
{
    if n == 0 {
        Seq::empty()
    } else {
        let k = (n - 1) as usize;
        let order = first_items_can_be_sorted(items, (n - 1) as nat);
        let at = place_for(items, order, k, order.len() as int);
        placing_keeps_order(items, order, at, k);
        order.insert(at, k)
    }
}

/// Sorting is a rearrangement: some list of each position once arranges the items in their
/// sorted order, so nothing is lost, added or repeated.
pub proof fn sorting_rearranges<T: Ranked>(items: Seq<T>) -> (order: Seq<usize>)
    requires
        items.len() <= usize::MAX,
    ensures
        is_stable_order(items, order),
        stably_sorted(items) == arranged(items, order),
{
    let found = first_items_can_be_sorted(items, items.len());
    assert(is_stable_order(items, found));
    choose|order: Seq<usize>| is_stable_order(items, order)
}

/// The positions of `items` in stable sorted order.
pub fn stable_order<T: Ranked>(items: &Vec<T>) -> (order: Vec<usize>)
    ensures
        is_stable_order(items@, order@),
{
    let mut order: Vec<usize> = Vec::new();
    let mut k: usize = 0;
    while k < items.len()
        invariant
            k <= items@.len(),
            orders_first(items@, order@, k as nat),
        decreases items.len() - k,
    {
        let mut at: usize = order.len();
        while at > 0 && items[k].before(&items[order[at - 1]])
            invariant
                k < items@.len(),
                at <= order@.len(),
                orders_first(items@, order@, k as nat),
                forall|i: int|
                    at <= i < order@.len() ==> items@[k as int].precedes(
                        &items@[(#[trigger] order@[i]) as int],
                    ),
            decreases at,
        {
            at = at - 1;
        }
        proof {
            placing_keeps_order(items@, order@, at as int, k);
        }
        order.insert(at, k);
        k = k + 1;
    }
    order
}

/// A list has one stable sorting only.
pub proof fn stable_order_is_unique<T: Ranked>(items: Seq<T>, a: Seq<usize>, b: Seq<usize>)
    requires
        is_stable_order(items, a),
        is_stable_order(items, b),
    ensures
        a == b,
{
    let n = items.len() as int;
    assert forall|i: int| 0 <= i < n implies a[i] == b[i] by {
        orders_agree_up_to(items, a, b, i);
    }
    assert(a =~= b);
}

/// Every position below `n` occurs in a list of each position once.
pub proof fn every_position_occurs(order: Seq<usize>, n: nat, p: usize) -> (i: int)
    requires
        lists_each_once(order, n),
        p < n,
    ensures
        0 <= i < n,
        order[i] == p,
{
    if forall|i: int| 0 <= i < n ==> order[i] != p {
        let images = order.to_set();
        order.unique_seq_to_set();
        let bound = vstd::set_lib::set_int_range(0, n as int);
        vstd::set_lib::lemma_int_range(0, n as int);
        let ints = images.map(|u: usize| u as int);
        vstd::set_lib::lemma_map_size(images, ints, |u: usize| u as int);
        assert(ints.subset_of(bound.remove(p as int)));
        vstd::set_lib::lemma_len_subset(ints, bound.remove(p as int));
        assert(false);
        0
    } else {
        choose|i: int| 0 <= i < n && order[i] == p
    }
}

/// Two stable sortings agree at each position.
proof fn orders_agree_up_to<T: Ranked>(items: Seq<T>, a: Seq<usize>, b: Seq<usize>, i: int)
    requires
        is_stable_order(items, a),
        is_stable_order(items, b),
        0 <= i < items.len(),
    ensures
        a[i] == b[i],
    decreases i,
{
    let n = items.len();
    assert forall|k: int| 0 <= k < i implies a[k] == b[k] by {
        orders_agree_up_to(items, a, b, k);
    }
    if a[i] != b[i] {
        let ja = every_position_occurs(a, n, b[i]);
        let jb = every_position_occurs(b, n, a[i]);
        assert(ja > i) by {
            if ja < i {
                assert(a[ja] == b[ja]);
            }
        }
        assert(jb > i) by {
            if jb < i {
                assert(a[jb] == b[jb]);
            }
        }
        assert(goes_before(items, a[i] as int, a[ja] as int));
        assert(goes_before(items, b[i] as int, b[jb] as int));
        goes_before_is_total(items, a[i] as int, b[i] as int, a[i] as int);
    }
}

/// The elements of `items` in the given order.
pub open spec fn arranged<T>(items: Seq<T>, order: Seq<usize>) -> Seq<T> {
    Seq::new(order.len(), |i: int| items[order[i] as int])
}

/// The stable sorting of `items`.
pub open spec fn stably_sorted<T: Ranked>(items: Seq<T>) -> Seq<T> {
    arranged(items, choose|order: Seq<usize>| is_stable_order(items, order))
}

/// Puts the elements in the given order.
fn arrange<T>(items: Vec<T>, order: &Vec<usize>) -> (r: Vec<T>)
    requires
        lists_each_once(order@, items@.len()),
    ensures
        r@ == arranged(items@, order@),
{
    let ghost all = items@;
    let mut slots: Vec<Option<T>> = Vec::new();
    for x in it: items
        invariant
            it.seq() == all,
            slots@.len() == it.index(),
            forall|j: int| 0 <= j < it.index() ==> #[trigger] slots@[j] == Some(all[j]),
    {
        slots.push(Some(x));
    }
    let mut out: Vec<T> = Vec::new();
    for i in 0..order.len()
        invariant
            lists_each_once(order@, all.len()),
            slots@.len() == all.len(),
            out@ == arranged(all, order@.take(i as int)),
            forall|j: int|
                i <= j < order@.len() ==> slots@[(#[trigger] order@[j]) as int] == Some(
                    all[order@[j] as int],
                ),
    {
        let k: usize = order[i];
        let slot = slots[k].take();
        match slot {
            Some(x) => {
                out.push(x);
            },
            None => {},
        }
        assert(out@ =~= arranged(all, order@.take(i as int + 1)));
    }
    assert(order@.take(order@.len() as int) =~= order@);
    out
}

/// Two lists of the same elements in which each precedes all that follow are one list.
pub proof fn strict_sortings_agree<T: Ranked>(a: Seq<T>, b: Seq<T>)
    requires
        forall|x: T| a.contains(x) <==> #[trigger] b.contains(x),
        forall|i: int, j: int|
            #![trigger a[i], a[j]]
            0 <= i < j < a.len() ==> a[i].precedes(&a[j]),
        forall|i: int, j: int|
            #![trigger b[i], b[j]]
            0 <= i < j < b.len() ==> b[i].precedes(&b[j]),
    ensures
        a == b,
{
    if a.len() < b.len() {
        strict_sortings_agree_up_to(a, b, a.len() as int);
        let x = b[a.len() as int];
        assert(b.contains(x));
        let i = a.index_of(x);
        T::ordering(x, x, x);
        assert(b[i].precedes(&b[a.len() as int]));
    } else if b.len() < a.len() {
        strict_sortings_agree_up_to(a, b, b.len() as int);
        let x = a[b.len() as int];
        assert(a.contains(x));
        assert(b.contains(x));
        let i = b.index_of(x);
        T::ordering(x, x, x);
        assert(a[i].precedes(&a[b.len() as int]));
    } else {
        strict_sortings_agree_up_to(a, b, a.len() as int);
        assert(a =~= b);
    }
}

proof fn strict_sortings_agree_up_to<T: Ranked>(a: Seq<T>, b: Seq<T>, n: int)
    requires
        forall|x: T| a.contains(x) <==> #[trigger] b.contains(x),
        forall|i: int, j: int|
            #![trigger a[i], a[j]]
            0 <= i < j < a.len() ==> a[i].precedes(&a[j]),
        forall|i: int, j: int|
            #![trigger b[i], b[j]]
            0 <= i < j < b.len() ==> b[i].precedes(&b[j]),
        0 <= n <= a.len(),
        n <= b.len(),
    ensures
        forall|i: int| 0 <= i < n ==> a[i] == b[i],
    decreases n,
{
    if n > 0 {
        strict_sortings_agree_up_to(a, b, n - 1);
        let x = a[n - 1];
        let y = b[n - 1];
        assert(a.contains(x) && b.contains(y));
        assert(b.contains(x) && a.contains(y));
        let i = b.index_of(x);
        let j = a.index_of(y);
        T::ordering(x, y, x);
        T::ordering(y, x, y);
        if i < n - 1 {
            assert(a[i] == x);
            assert(a[i].precedes(&a[n - 1]));
        }
        if j < n - 1 {
            assert(b[j] == y);
            assert(b[j].precedes(&b[n - 1]));
        }
        if x != y {
            assert(i > n - 1 && j > n - 1);
            assert(b[n - 1].precedes(&b[i]));
            assert(a[n - 1].precedes(&a[j]));
        }
    }
}

/// Sorts the elements by rank, keeping equals in their order.
pub fn stable_sort<T: Ranked>(items: Vec<T>) -> (r: Vec<T>)
    ensures
        r@ == stably_sorted(items@),
        r@.len() == items@.len(),
        forall|x: T| r@.contains(x) <==> #[trigger] items@.contains(x),
        forall|i: int, j: int|
            #![trigger r@[i], r@[j]]
            0 <= i < j < r@.len() ==> !r@[j].precedes(&r@[i]),
{
    let order = stable_order(&items);
    let n: usize = items.len();
    proof {
        assert(items@.len() == n);
        let chosen = choose|order: Seq<usize>| is_stable_order(items@, order);
        stable_order_is_unique(items@, order@, chosen);
        a_stable_order_sorts(items@, order@);
    }
    arrange(items, &order)
}

/// Arranging a list by its stable order keeps the length, keeps exactly the elements, and
/// leaves no element after one that it precedes.
pub proof fn a_stable_order_sorts<T: Ranked>(items: Seq<T>, order: Seq<usize>)
    requires
        is_stable_order(items, order),
        items.len() <= usize::MAX,
    ensures
        arranged(items, order).len() == items.len(),
        forall|x: T| arranged(items, order).contains(x) <==> #[trigger] items.contains(x),
        forall|i: int, j: int|
            #![trigger arranged(items, order)[i], arranged(items, order)[j]]
            0 <= i < j < items.len() ==> !arranged(items, order)[j].precedes(
                &arranged(items, order)[i],
            ),
{
    let sorted = arranged(items, order);
    assert forall|x: T| sorted.contains(x) <==> #[trigger] items.contains(x) by {
        if items.contains(x) {
            let p = choose|p: int| 0 <= p < items.len() && items[p] == x;
            let i = every_position_occurs(order, items.len(), p as usize);
            assert(sorted[i] == x);
        }
        if sorted.contains(x) {
            let i = choose|i: int| 0 <= i < sorted.len() && sorted[i] == x;
            assert(items[order[i] as int] == x);
        }
    }
    assert forall|i: int, j: int|
        #![trigger sorted[i], sorted[j]]
        0 <= i < j < items.len() implies !sorted[j].precedes(&sorted[i]) by {
        assert(goes_before(items, order[i] as int, order[j] as int));
        T::ordering(sorted[i], sorted[j], sorted[i]);
    }
}

} // verus!
