//! Orders and cycles of a directed graph whose nodes are `0..n` and whose
//! edges are pairs `(from, to)`.

use vstd::prelude::*;

verus! {

/// `order` lists each of the nodes `0..n` exactly once.
pub open spec fn is_permutation(order: Seq<int>, n: nat) -> bool {
    &&& order.len() == n
    &&& forall|k: int| 0 <= k < order.len() ==> 0 <= #[trigger] order[k] < n
    &&& forall|j: int, k: int| 0 <= j < k < order.len() ==> order[j] != order[k]
    &&& forall|node: int| 0 <= node < n ==> order.contains(node)
}

/// `a` stands somewhere before `b` in `order`.
pub open spec fn precedes(order: Seq<int>, a: int, b: int) -> bool {
    exists|i: int, j: int| 0 <= i < j < order.len() && order[i] == a && order[j] == b
}

/// Every edge of `edges` leads from an earlier node of `order` to a later one.
pub open spec fn respects(order: Seq<int>, edges: Seq<(int, int)>) -> bool {
    forall|e: int| 0 <= e < edges.len() ==> precedes(order, (#[trigger] edges[e]).0, edges[e].1)
}

/// `order` is a topological order of the graph with nodes `0..n` and the
/// edges `edges`.
pub open spec fn is_topological_order(order: Seq<int>, n: nat, edges: Seq<(int, int)>) -> bool {
    is_permutation(order, n) && respects(order, edges)
}

/// `walk` follows one edge or more, each from a node of the walk to the next.
pub open spec fn is_walk(edges: Seq<(int, int)>, walk: Seq<int>) -> bool {
    &&& walk.len() >= 2
    &&& forall|k: int| 0 <= k < walk.len() - 1 ==> edges.contains((walk[k], #[trigger] walk[k + 1]))
}

/// Some walk leads from `node` back to `node`. A self loop is such a walk.
pub open spec fn on_cycle(edges: Seq<(int, int)>, node: int) -> bool {
    exists|walk: Seq<int>| #[trigger] is_walk(edges, walk) && walk.first() == node && walk.last() == node
}

/// No node lies on a cycle.
pub open spec fn is_acyclic(edges: Seq<(int, int)>) -> bool {
    forall|node: int| !on_cycle(edges, node)
}

/// In an order without repetition that respects the edges, the first node of
/// a walk precedes each later node of it.
proof fn lemma_walk_goes_forward(order: Seq<int>, n: nat, edges: Seq<(int, int)>, walk: Seq<int>, k: int)
    requires
        is_topological_order(order, n, edges),
        is_walk(edges, walk),
        1 <= k < walk.len(),
    ensures
        precedes(order, walk[0], walk[k]),
    decreases k,
{
    let e = choose|e: int| 0 <= e < edges.len() && edges[e] == (walk[k - 1], walk[k - 1 + 1]);
    assert(edges.contains((walk[k - 1], walk[k - 1 + 1])));
    assert(precedes(order, edges[e].0, edges[e].1));
    if k > 1 {
        lemma_walk_goes_forward(order, n, edges, walk, k - 1);
        let (i1, j1) = choose|i: int, j: int|
            0 <= i < j < order.len() && order[i] == walk[0] && order[j] == walk[k - 1];
        let (i2, j2) = choose|i: int, j: int|
            0 <= i < j < order.len() && order[i] == walk[k - 1] && order[j] == walk[k];
        assert(j1 == i2);
        assert(0 <= i1 < j2 < order.len() && order[i1] == walk[0] && order[j2] == walk[k]);
    }
}

/// A graph that has a topological order has no cycle.
pub proof fn lemma_ordered_graph_is_acyclic(order: Seq<int>, n: nat, edges: Seq<(int, int)>)
    requires
        is_topological_order(order, n, edges),
    ensures
        is_acyclic(edges),
{
    assert forall|node: int| !on_cycle(edges, node) by {
        if on_cycle(edges, node) {
            let walk = choose|walk: Seq<int>| #[trigger]
                is_walk(edges, walk) && walk.first() == node && walk.last() == node;
            lemma_walk_goes_forward(order, n, edges, walk, walk.len() - 1);
            let (i, j) = choose|i: int, j: int|
                0 <= i < j < order.len() && order[i] == node && order[j] == node;
            assert(order[i] != order[j]);
        }
    }
}

/// Removing the place of the last node from an order of `0..n` leaves an
/// order of `0..n - 1`.
proof fn lemma_permutation_without_last(order: Seq<int>, n: nat, place: int)
    requires
        n > 0,
        is_permutation(order, n),
        0 <= place < order.len(),
        order[place] == n - 1,
    ensures
        is_permutation(order.remove(place), (n - 1) as nat),
{
    let rest = order.remove(place);
    assert forall|k: int| 0 <= k < rest.len() implies 0 <= #[trigger] rest[k] < n - 1 by {
        if k < place {
            assert(rest[k] == order[k]);
        } else {
            assert(rest[k] == order[k + 1]);
        }
    }
    assert forall|j: int, k: int| 0 <= j < k < rest.len() implies rest[j] != rest[k] by {
        let j0 = if j < place { j } else { j + 1 };
        let k0 = if k < place { k } else { k + 1 };
        assert(rest[j] == order[j0] && rest[k] == order[k0]);
    }
    assert forall|node: int| 0 <= node < n - 1 implies rest.contains(node) by {
        assert(order.contains(node));
        let at = choose|at: int| 0 <= at < order.len() && order[at] == node;
        if at < place {
            assert(rest[at] == node);
        } else {
            assert(rest[at - 1] == node);
        }
    }
}

/// The items picked by an order of their indices are the same items, each as
/// often as before.
pub proof fn lemma_permutation_keeps_items<T>(items: Seq<T>, order: Seq<int>)
    requires
        is_permutation(order, items.len()),
    ensures
        order.map_values(|index: int| items[index]).to_multiset() == items.to_multiset(),
    decreases items.len(),
{
    let chosen = order.map_values(|index: int| items[index]);
    if items.len() == 0 {
        assert(chosen == items);
    } else {
        let n = items.len();
        assert(order.contains(n - 1));
        let place = choose|place: int| 0 <= place < order.len() && order[place] == n - 1;
        let rest = order.remove(place);
        let fewer = items.drop_last();
        lemma_permutation_without_last(order, n, place);
        lemma_permutation_keeps_items(fewer, rest);
        let chosen_rest = rest.map_values(|index: int| fewer[index]);
        assert(chosen_rest == chosen.remove(place)) by {
            assert forall|k: int| 0 <= k < chosen_rest.len() implies chosen_rest[k] == chosen.remove(place)[k] by {
                assert(0 <= rest[k] < n - 1);
                assert(fewer[rest[k]] == items[rest[k]]);
            }
        }
        vstd::seq_lib::to_multiset_remove(chosen, place);
        vstd::seq_lib::to_multiset_build(fewer, items.last());
        assert(fewer.push(items.last()) == items);
        assert(chosen[place] == items.last());
        assert(chosen.to_multiset() == chosen.remove(place).to_multiset().insert(chosen[place])) by {
            vstd::seq_lib::to_multiset_contains(chosen, chosen[place]);
            assert(chosen.contains(chosen[place]));
            assert(chosen.to_multiset() =~= chosen.to_multiset().remove(chosen[place]).insert(chosen[place]));
        }
    }
}

} // verus!
