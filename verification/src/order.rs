//! Orders and stable sorting, as the device list uses them.

use vstd::prelude::*;

use crate::text::{bytes_less, bytes_lt};

verus! {

/// How one value stands to another.
#[derive(Clone, Copy, Debug, PartialEq, Eq, Structural)]
pub enum Order {
    Less,
    Equal,
    Greater,
}

/// How many elements at the front of `sorted` go before `x`.
pub open spec fn count_before<A>(sorted: Seq<A>, x: A, less: spec_fn(A, A) -> bool) -> int
    decreases sorted.len(),
{
    if sorted.len() == 0 || !less(sorted[0], x) {
        0
    } else {
        1 + count_before(sorted.drop_first(), x, less)
    }
}

/// The elements of `items` sorted by `less`, elements of which neither
/// goes before the other staying in the order they have in `items`.
pub open spec fn stable_sorted<A>(items: Seq<A>, less: spec_fn(A, A) -> bool) -> Seq<A>
    decreases items.len(),
{
    if items.len() == 0 {
        items
    } else {
        let rest = stable_sorted(items.drop_first(), less);
        rest.insert(count_before(rest, items[0], less), items[0])
    }
}

/// The count of elements that go before `x` lies within the sequence.
pub proof fn lemma_count_before_bounds<A>(sorted: Seq<A>, x: A, less: spec_fn(A, A) -> bool)
    ensures
        0 <= count_before(sorted, x, less) <= sorted.len(),
    decreases sorted.len(),
{
    if sorted.len() > 0 && less(sorted[0], x) {
        lemma_count_before_bounds(sorted.drop_first(), x, less);
    }
}

/// Sorting neither adds nor drops an element.
pub proof fn lemma_stable_sorted_len<A>(items: Seq<A>, less: spec_fn(A, A) -> bool)
    ensures
        stable_sorted(items, less).len() == items.len(),
    decreases items.len(),
{
    if items.len() > 0 {
        lemma_stable_sorted_len(items.drop_first(), less);
        lemma_count_before_bounds(stable_sorted(items.drop_first(), less), items[0], less);
    }
}

/// Sorting keeps every element, as often as it occurs.
pub proof fn lemma_stable_sorted_permutes<A>(items: Seq<A>, less: spec_fn(A, A) -> bool)
    ensures
        stable_sorted(items, less).to_multiset() == items.to_multiset(),
    decreases items.len(),
{
    broadcast use vstd::seq_lib::group_to_multiset_ensures;

    if items.len() > 0 {
        let tail = items.drop_first();
        let rest = stable_sorted(tail, less);
        lemma_stable_sorted_permutes(tail, less);
        let p = count_before(rest, items[0], less);
        lemma_count_before_bounds(rest, items[0], less);
        let out = rest.insert(p, items[0]);
        assert(out.remove(p) =~= rest);
        assert(out.remove(p).to_multiset() =~= out.to_multiset().remove(out[p]));
        assert(items.remove(0) =~= tail);
        assert(items.remove(0).to_multiset() =~= items.to_multiset().remove(items[0]));
        assert(out.to_multiset().count(items[0]) > 0) by {
            assert(out[p] == items[0]);
            assert(out.contains(items[0]));
        }
        assert(items.to_multiset().count(items[0]) > 0) by {
            assert(items.contains(items[0]));
        }
        assert(out.to_multiset() =~= items.to_multiset());
    }
}

/// Whether `less` never holds both ways between two values.
pub open spec fn asymmetric<A>(less: spec_fn(A, A) -> bool) -> bool {
    forall|a: A, b: A| #[trigger] less(a, b) ==> !less(b, a)
}

/// Whether not going before carries over: if `a` does not go before `b`
/// and `b` does not go before `c`, then `a` does not go before `c`.
pub open spec fn negatively_transitive<A>(less: spec_fn(A, A) -> bool) -> bool {
    forall|a: A, b: A, c: A|
        #![trigger less(a, b), less(b, c)]
        !less(a, b) && !less(b, c) ==> !less(a, c)
}

/// Whether no element goes before one that stands earlier.
pub open spec fn ordered_by<A>(items: Seq<A>, less: spec_fn(A, A) -> bool) -> bool {
    forall|i: int, j: int| 0 <= i < j < items.len() ==> !less(#[trigger] items[j], #[trigger] items[i])
}

/// The elements counted as going before `x` do go before it, and the
/// element that follows them does not.
pub proof fn lemma_count_before_split<A>(sorted: Seq<A>, x: A, less: spec_fn(A, A) -> bool)
    ensures
        forall|i: int| 0 <= i < count_before(sorted, x, less) ==> less(#[trigger] sorted[i], x),
        count_before(sorted, x, less) < sorted.len() ==> !less(
            sorted[count_before(sorted, x, less)],
            x,
        ),
    decreases sorted.len(),
{
    lemma_count_before_bounds(sorted, x, less);
    if sorted.len() > 0 && less(sorted[0], x) {
        let rest = sorted.drop_first();
        lemma_count_before_split(rest, x, less);
        lemma_count_before_bounds(rest, x, less);
        assert forall|i: int| 0 <= i < count_before(sorted, x, less) implies less(
            #[trigger] sorted[i],
            x,
        ) by {
            if i > 0 {
                assert(sorted[i] == rest[i - 1]);
            }
        }
        if count_before(sorted, x, less) < sorted.len() {
            assert(sorted[count_before(sorted, x, less)] == rest[count_before(rest, x, less)]);
        }
    }
}

/// Sorting orders: under an order that is asymmetric and in which not
/// going before carries over, no element of the result goes before one
/// that stands earlier in it.
pub proof fn lemma_stable_sorted_ordered<A>(items: Seq<A>, less: spec_fn(A, A) -> bool)
    requires
        asymmetric(less),
        negatively_transitive(less),
    ensures
        ordered_by(stable_sorted(items, less), less),
    decreases items.len(),
{
    if items.len() > 0 {
        let x = items[0];
        let rest = stable_sorted(items.drop_first(), less);
        lemma_stable_sorted_ordered(items.drop_first(), less);
        let p = count_before(rest, x, less);
        lemma_count_before_bounds(rest, x, less);
        lemma_count_before_split(rest, x, less);
        let out = rest.insert(p, x);
        assert forall|q: int| p <= q < rest.len() implies !less(#[trigger] rest[q], x) by {
            if q > p {
                assert(!less(rest[q], rest[p]));
                assert(!less(rest[p], x));
            }
        }
        assert forall|i: int, j: int| 0 <= i < j < out.len() implies !less(
            #[trigger] out[j],
            #[trigger] out[i],
        ) by {
            if j < p {
                assert(out[i] == rest[i] && out[j] == rest[j]);
            } else if j == p {
                assert(out[i] == rest[i]);
                assert(less(rest[i], x));
            } else {
                assert(out[j] == rest[j - 1]);
                if i < p {
                    assert(out[i] == rest[i]);
                    assert(!less(rest[j - 1], rest[i]));
                } else if i == p {
                    assert(!less(rest[j - 1], x));
                } else {
                    assert(out[i] == rest[i - 1]);
                    assert(!less(rest[j - 1], rest[i - 1]));
                }
            }
        }
    }
}

/// While the elements scanned so far all go before `x`, the count of
/// elements that go before `x` is what the rest of the scan adds to them.
pub proof fn lemma_count_before_step<A>(sorted: Seq<A>, x: A, less: spec_fn(A, A) -> bool, p: int)
    requires
        0 <= p < sorted.len(),
        less(sorted[p], x),
    ensures
        count_before(sorted.skip(p), x, less) == 1 + count_before(sorted.skip(p + 1), x, less),
{
    assert(sorted.skip(p)[0] == sorted[p]);
    assert(sorted.skip(p).drop_first() =~= sorted.skip(p + 1));
}

/// The scan ends where an element does not go before `x`, or at the end.
pub proof fn lemma_count_before_stop<A>(sorted: Seq<A>, x: A, less: spec_fn(A, A) -> bool, p: int)
    requires
        0 <= p <= sorted.len(),
        p < sorted.len() ==> !less(sorted[p], x),
    ensures
        count_before(sorted.skip(p), x, less) == 0,
{
    if p < sorted.len() {
        assert(sorted.skip(p)[0] == sorted[p]);
    }
}

/// How two texts stand in byte order.
pub open spec fn bytes_order(a: Seq<u8>, b: Seq<u8>) -> Order {
    if bytes_lt(a, b) {
        Order::Less
    } else if bytes_lt(b, a) {
        Order::Greater
    } else {
        Order::Equal
    }
}

/// How two texts stand in byte order.
pub fn order_bytes(a: &[u8], b: &[u8]) -> (order: Order)
    ensures
        order == bytes_order(a@, b@),
{
    if bytes_less(a, b) {
        Order::Less
    } else if bytes_less(b, a) {
        Order::Greater
    } else {
        Order::Equal
    }
}

} // verus!
