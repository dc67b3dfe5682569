//! The hide-completed visibility filter: which actual indices of the store
//! are currently displayed, and the maps between actual index and visible
//! position.

use vstd::prelude::*;
use crate::item::{Backlog, BacklogItem, ItemModel};
use crate::item::clone_chars;

verus! {

/// An item passes the filter unless hiding is on and the item is done.
pub open spec fn item_visible(it: ItemModel, hide_completed: bool) -> bool {
    !hide_completed || !it.done
}

/// The actual indices of the items passing the filter, in store order.
pub open spec fn visible_indices_spec(items: Seq<ItemModel>, hide_completed: bool) -> Seq<int>
    decreases items.len(),
{
    if items.len() == 0 {
        Seq::empty()
    } else {
        let prefix = visible_indices_spec(items.drop_last(), hide_completed);
        if item_visible(items.last(), hide_completed) {
            prefix.push(items.len() - 1)
        } else {
            prefix
        }
    }
}

/// A sequence of machine indices read as mathematical integers.
pub open spec fn as_ints(s: Seq<usize>) -> Seq<int> {
    s.map_values(|u: usize| u as int)
}

/// Every listed index is in range and names a visible item, and the listing
/// is strictly increasing (visible order preserves store order).
pub proof fn lemma_visible_indices_shape(items: Seq<ItemModel>, hide_completed: bool)
    ensures
        forall|p: int|
            0 <= p < visible_indices_spec(items, hide_completed).len() ==> {
                let a = #[trigger] visible_indices_spec(items, hide_completed)[p];
                0 <= a < items.len() && item_visible(items[a], hide_completed)
            },
        forall|p: int, q: int|
            0 <= p < q < visible_indices_spec(items, hide_completed).len()
                ==> #[trigger] visible_indices_spec(items, hide_completed)[p]
                    < #[trigger] visible_indices_spec(items, hide_completed)[q],
    decreases items.len(),
{
    if items.len() > 0 {
        let sub = items.drop_last();
        lemma_visible_indices_shape(sub, hide_completed);
        let prefix = visible_indices_spec(sub, hide_completed);
        let vis = visible_indices_spec(items, hide_completed);
        assert forall|p: int|
            0 <= p < vis.len() implies {
            let a = #[trigger] vis[p];
            0 <= a < items.len() && item_visible(items[a], hide_completed)
        } by {
            if p < prefix.len() {
                assert(vis[p] == prefix[p]);
                assert(sub[prefix[p]] == items[prefix[p]]);
            } else {
                assert(vis[p] == items.len() - 1);
            }
        }
        assert forall|p: int, q: int|
            0 <= p < q < vis.len() implies #[trigger] vis[p] < #[trigger] vis[q] by {
            if q < prefix.len() {
                assert(vis[p] == prefix[p] && vis[q] == prefix[q]);
            } else {
                assert(vis[q] == items.len() - 1);
                assert(vis[p] == prefix[p]);
                assert(prefix[p] < sub.len());
            }
        }
    }
}

/// An index is listed if and only if it names a visible item.
pub proof fn lemma_visible_indices_complete(items: Seq<ItemModel>, hide_completed: bool, i: int)
    requires
        0 <= i < items.len(),
    ensures
        item_visible(items[i], hide_completed)
            <==> visible_indices_spec(items, hide_completed).contains(i),
    decreases items.len(),
{
    let vis = visible_indices_spec(items, hide_completed);
    lemma_visible_indices_shape(items, hide_completed);
    if i == items.len() - 1 {
        if item_visible(items[i], hide_completed) {
            assert(vis.last() == i);
            assert(vis.contains(i));
        }
    } else {
        lemma_visible_indices_complete(items.drop_last(), hide_completed, i);
        let prefix = visible_indices_spec(items.drop_last(), hide_completed);
        assert(items.drop_last()[i] == items[i]);
        if item_visible(items[i], hide_completed) {
            let p = choose|p: int| 0 <= p < prefix.len() && prefix[p] == i;
            assert(vis[p] == i);
            assert(vis.contains(i));
        } else {
            if vis.contains(i) {
                let p = choose|p: int| 0 <= p < vis.len() && vis[p] == i;
                if p < prefix.len() {
                    assert(prefix[p] == i);
                    assert(prefix.contains(i));
                }
            }
        }
    }
}

/// Extending the store by one item appends its index to the listing when it
/// is visible and leaves the listing unchanged when it is not.
pub proof fn lemma_visible_indices_take_step(items: Seq<ItemModel>, hide_completed: bool, i: int)
    requires
        0 <= i < items.len(),
    ensures
        visible_indices_spec(items.take(i + 1), hide_completed)
            == if item_visible(items[i], hide_completed) {
                visible_indices_spec(items.take(i), hide_completed).push(i)
            } else {
                visible_indices_spec(items.take(i), hide_completed)
            },
{
    let t = items.take(i + 1);
    assert(t.len() == i + 1);
    assert(t.last() == items[i]);
    assert(t.drop_last() =~= items.take(i));
}

/// The whole store, taken as a prefix, is the store itself.
pub proof fn lemma_take_all(items: Seq<ItemModel>)
    ensures
        items.take(items.len() as int) =~= items,
{
}

/// Collects the actual indices of the items passing the filter, in store
/// order.
#[verifier::loop_isolation(false)]
pub fn visible_indices(backlog: &Backlog, hide_completed: bool) -> (r: Vec<usize>)
    ensures
        as_ints(r@) == visible_indices_spec(backlog@, hide_completed),
{
    let ghost all = backlog@;
    let mut r: Vec<usize> = Vec::new();
    let mut i: usize = 0;
    while i < backlog.items.len()
        invariant
            i <= backlog.items.len(),
            all == backlog@,
            as_ints(r@) == visible_indices_spec(all.take(i as int), hide_completed),
        decreases backlog.items.len() - i,
    {
        proof {
            lemma_visible_indices_take_step(all, hide_completed, i as int);
        }
        if !hide_completed || !backlog.items[i].done {
            r.push(i);
            proof {
                assert(as_ints(r@) =~= visible_indices_spec(
                    all.take(i + 1 as int),
                    hide_completed,
                ));
            }
        } else {
            proof {
                assert(as_ints(r@) =~= visible_indices_spec(
                    all.take(i + 1 as int),
                    hide_completed,
                ));
            }
        }
        i = i + 1;
    }
    proof {
        lemma_take_all(all);
    }
    r
}

/// Converts a visible position to the actual store index it stands for, or
/// nothing when the position is outside the visible set.
pub fn visible_to_actual(backlog: &Backlog, hide_completed: bool, visible_idx: usize) -> (r:
    Option<usize>)
    ensures
        ({
            let vis = visible_indices_spec(backlog@, hide_completed);
            match r {
                Some(a) => visible_idx < vis.len() && a as int == vis[visible_idx as int],
                None => visible_idx >= vis.len(),
            }
        }),
{
    let vis = visible_indices(backlog, hide_completed);
    if visible_idx < vis.len() {
        Some(vis[visible_idx])
    } else {
        None
    }
}

/// Converts an actual store index to its position within the visible set, or
/// nothing when the index is hidden or out of range.
#[verifier::loop_isolation(false)]
pub fn actual_to_visible(backlog: &Backlog, hide_completed: bool, actual_idx: usize) -> (r: Option<
    usize,
>)
    ensures
        ({
            let vis = visible_indices_spec(backlog@, hide_completed);
            match r {
                Some(p) => p < vis.len() && vis[p as int] == actual_idx as int,
                None => forall|q: int| 0 <= q < vis.len() ==> vis[q] != actual_idx as int,
            }
        }),
{
    let ghost vis = visible_indices_spec(backlog@, hide_completed);
    let v = visible_indices(backlog, hide_completed);
    let mut p: usize = 0;
    while p < v.len()
        invariant
            p <= v.len(),
            as_ints(v@) == vis,
            forall|q: int| 0 <= q < p ==> vis[q] != actual_idx as int,
        decreases v.len() - p,
    {
        if v[p] == actual_idx {
            return Some(p);
        }
        p = p + 1;
    }
    None
}

/// A hidden index has no visible position, and a visible index's position
/// leads back to that same index: the two maps invert each other on the
/// visible set.
pub proof fn lemma_visible_actual_round_trip(items: Seq<ItemModel>, hide_completed: bool, i: int)
    requires
        0 <= i < items.len(),
    ensures
        item_visible(items[i], hide_completed) ==> exists|p: int|
            0 <= p < visible_indices_spec(items, hide_completed).len()
                && #[trigger] visible_indices_spec(items, hide_completed)[p] == i,
        !item_visible(items[i], hide_completed) ==> forall|p: int|
            0 <= p < visible_indices_spec(items, hide_completed).len()
                ==> #[trigger] visible_indices_spec(items, hide_completed)[p] != i,
{
    lemma_visible_indices_complete(items, hide_completed, i);
    let vis = visible_indices_spec(items, hide_completed);
    if item_visible(items[i], hide_completed) {
        let p = choose|p: int| 0 <= p < vis.len() && vis[p] == i;
        assert(0 <= p < vis.len() && vis[p] == i);
    } else {
        assert(forall|p: int| 0 <= p < vis.len() ==> vis[p] != i) by {
            assert(!vis.contains(i));
        }
    }
}

/// Pairs each visible item with its actual index, in store order, for the
/// renderer.
#[verifier::loop_isolation(false)]
pub fn visible_items(backlog: &Backlog, hide_completed: bool) -> (r: Vec<(usize, BacklogItem)>)
    ensures
        ({
            let vis = visible_indices_spec(backlog@, hide_completed);
            &&& r@.len() == vis.len()
            &&& forall|p: int|
                0 <= p < r@.len() ==> #[trigger] r@[p].0 as int == vis[p] && r@[p].1@ == backlog@[vis[p]]
        }),
{
    let ghost vis = visible_indices_spec(backlog@, hide_completed);
    proof {
        lemma_visible_indices_shape(backlog@, hide_completed);
    }
    let idxs = visible_indices(backlog, hide_completed);
    let mut r: Vec<(usize, BacklogItem)> = Vec::new();
    let mut p: usize = 0;
    while p < idxs.len()
        invariant
            p <= idxs.len(),
            as_ints(idxs@) == vis,
            forall|q: int|
                0 <= q < vis.len() ==> 0 <= #[trigger] vis[q] < backlog@.len(),
            r@.len() == p,
            forall|q: int|
                0 <= q < p ==> #[trigger] r@[q].0 as int == vis[q] && r@[q].1@ == backlog@[vis[q]],
        decreases idxs.len() - p,
    {
        let a = idxs[p];
        proof {
            assert(as_ints(idxs@)[p as int] == idxs@[p as int] as int);
            assert(a as int == vis[p as int]);
            assert(0 <= vis[p as int] < backlog@.len());
            assert(backlog@.len() == backlog.items@.len());
        }
        let it = BacklogItem {
            description: clone_chars(&backlog.items[a].description),
            created_at: backlog.items[a].created_at,
            done: backlog.items[a].done,
        };
        proof {
            assert(it@ == backlog@[a as int]);
        }
        r.push((a, it));
        proof {
            assert(r@[p as int].0 == a && r@[p as int].1 == it);
        }
        p = p + 1;
    }
    r
}

} // verus!
