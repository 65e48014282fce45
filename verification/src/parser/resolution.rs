//! What resolving a set of units means: the dependency graph that the units
//! declare, the ways in which resolving can end, and what holds of each.

use crate::parser::graph::toposort_of;
use crate::parser::order::{
    is_acyclic, is_permutation, is_topological_order, is_walk, lemma_ordered_graph_is_acyclic,
    lemma_permutation_keeps_items, on_cycle, precedes,
};
use crate::unit::errors::{GraphBuildError, UnitLoadError};
use crate::unit::types::{UnitFile, UnitFileView};
use vstd::prelude::*;

verus! {

/// The views of the units, in their order.
pub open spec fn views(units: Seq<UnitFile>) -> Seq<UnitFileView> {
    units.map_values(|unit: UnitFile| unit@)
}

/// The names of the units, in their order.
pub open spec fn unit_names(units: Seq<UnitFileView>) -> Seq<Seq<char>> {
    units.map_values(|unit: UnitFileView| unit.unit.unit_name)
}

/// The node that `name` denotes: the index of the last unit that carries the
/// name, or `-1` where no unit does. Of two units with one name the later one
/// shadows the earlier.
pub open spec fn node_of(names: Seq<Seq<char>>, name: Seq<char>) -> int
    decreases names.len(),
{
    if names.len() == 0 {
        -1
    } else if names.last() == name {
        names.len() - 1
    } else {
        node_of(names.drop_last(), name)
    }
}

/// No two units carry the same name.
pub open spec fn names_are_unique(units: Seq<UnitFileView>) -> bool {
    forall|i: int, j: int|
        0 <= i < j < units.len() ==> (#[trigger] units[i]).unit.unit_name != (#[trigger] units[j]).unit.unit_name
}

/// The names that a unit declares, those it must come before and then those
/// it must come after.
pub open spec fn declared(unit: UnitFileView) -> Seq<Seq<char>> {
    unit.dependency.needs_before + unit.dependency.needs_after
}

/// The first place at or after `from` of a name in `names_declared` that no
/// unit carries.
pub open spec fn first_unknown(names: Seq<Seq<char>>, names_declared: Seq<Seq<char>>, from: int) -> Option<int>
    decreases names_declared.len() - from,
{
    if from < 0 || from >= names_declared.len() {
        None
    } else if node_of(names, names_declared[from]) < 0 {
        Some(from)
    } else {
        first_unknown(names, names_declared, from + 1)
    }
}

/// The first unit at or after `from` that declares a name which no unit
/// carries, with the place of the first such name among those it declares.
pub open spec fn first_missing(units: Seq<UnitFileView>, from: int) -> Option<(int, int)>
    decreases units.len() - from,
{
    if from < 0 || from >= units.len() {
        None
    } else {
        match first_unknown(unit_names(units), declared(units[from]), 0) {
            Some(place) => Some((from, place)),
            None => first_missing(units, from + 1),
        }
    }
}

/// An edge from `node` to each of `targets`: `node` comes before them.
pub open spec fn before_edges(names: Seq<Seq<char>>, node: int, targets: Seq<Seq<char>>) -> Seq<(int, int)> {
    Seq::new(targets.len(), |k: int| (node, node_of(names, targets[k])))
}

/// An edge from each of `sources` to `node`: `node` comes after them.
pub open spec fn after_edges(names: Seq<Seq<char>>, node: int, sources: Seq<Seq<char>>) -> Seq<(int, int)> {
    Seq::new(sources.len(), |k: int| (node_of(names, sources[k]), node))
}

/// The edges that one unit declares. They start and end at the node that the
/// unit's name denotes.
pub open spec fn unit_edges(names: Seq<Seq<char>>, unit: UnitFileView) -> Seq<(int, int)> {
    let node = node_of(names, unit.unit.unit_name);
    before_edges(names, node, unit.dependency.needs_before) + after_edges(
        names,
        node,
        unit.dependency.needs_after,
    )
}

/// The edges that the first `count` units declare, unit by unit.
pub open spec fn edges_through(units: Seq<UnitFileView>, count: int) -> Seq<(int, int)>
    decreases count,
{
    if count <= 0 {
        Seq::empty()
    } else {
        edges_through(units, count - 1) + unit_edges(unit_names(units), units[count - 1])
    }
}

/// The edges of the dependency graph of `units`, parallel edges included.
pub open spec fn dependency_edges(units: Seq<UnitFileView>) -> Seq<(int, int)> {
    edges_through(units, units.len() as int)
}

/// How resolving a set of units ends.
pub enum Resolution {
    /// The units are ordered: the indices of the units, in the order found.
    Ordered(Seq<int>),
    /// The unit with index `unit` declares, at `place` among the names it
    /// declares, a name that no unit carries.
    Missing { unit: int, place: int },
    /// The constraints form a cycle on which the unit with this index lies.
    Cyclic(int),
}

/// How resolving `units` ends: with the first missing dependency if there is
/// one, and with what the topological sort of the dependency graph gives
/// otherwise.
pub open spec fn resolution(units: Seq<UnitFileView>) -> Resolution {
    match first_missing(units, 0) {
        Some((unit, place)) => Resolution::Missing { unit, place },
        None => match toposort_of(units.len(), dependency_edges(units)) {
            Ok(order) => Resolution::Ordered(order),
            Err(node) => Resolution::Cyclic(node),
        },
    }
}

/// `outcome` is a right end of resolving `units`: the first missing
/// dependency where there is one; else a unit on a cycle where there is a
/// cycle; else a topological order of the dependency graph.
pub open spec fn is_sound(units: Seq<UnitFileView>, outcome: Resolution) -> bool {
    match outcome {
        Resolution::Missing { unit, place } => first_missing(units, 0) == Some((unit, place)),
        Resolution::Cyclic(node) => {
            &&& first_missing(units, 0) is None
            &&& 0 <= node < units.len()
            &&& on_cycle(dependency_edges(units), node)
        },
        Resolution::Ordered(order) => {
            &&& first_missing(units, 0) is None
            &&& is_topological_order(order, units.len(), dependency_edges(units))
        },
    }
}

/// The units of `units` picked by the indices of `order`.
pub open spec fn picked(units: Seq<UnitFileView>, order: Seq<int>) -> Seq<UnitFileView> {
    order.map_values(|index: int| units[index])
}

/// `result` reports `outcome`: the units in the order found, each unchanged;
/// or the missing dependency, with the name of the declaring unit and the
/// name that is missing; or the cycle, with the name of the unit found on it.
pub open spec fn reports(
    units: Seq<UnitFileView>,
    outcome: Resolution,
    result: Result<Vec<UnitFile>, GraphBuildError>,
) -> bool {
    match outcome {
        Resolution::Ordered(order) => {
            &&& result matches Ok(ordered)
            &&& views(ordered@) == picked(units, order)
        },
        Resolution::Missing { unit, place } => {
            &&& result matches Err(GraphBuildError::LoadError(UnitLoadError::MissingDependency(name, dependency)))
            &&& name@ == units[unit].unit.unit_name
            &&& dependency@ == declared(units[unit])[place]
        },
        Resolution::Cyclic(node) => {
            &&& result matches Err(GraphBuildError::DependencyCycle(name))
            &&& name@ == units[node].unit.unit_name
        },
    }
}

/// Every name that a unit declares is the name of some unit.
pub open spec fn all_known(units: Seq<UnitFileView>) -> bool {
    forall|i: int, k: int|
        0 <= i < units.len() && 0 <= k < declared(units[i]).len() ==> unit_names(units).contains(
            #[trigger] declared(units[i])[k],
        )
}

/// The units can be ordered: every declared name is known, and the
/// constraints form no cycle.
pub open spec fn is_resolvable(units: Seq<UnitFileView>) -> bool {
    all_known(units) && is_acyclic(dependency_edges(units))
}

/// In `ordered`, a unit named `first` stands before a unit named `second`.
pub open spec fn stands_before(ordered: Seq<UnitFileView>, first: Seq<char>, second: Seq<char>) -> bool {
    exists|p: int, q: int|
        0 <= p < q < ordered.len() && (#[trigger] ordered[p]).unit.unit_name == first
            && (#[trigger] ordered[q]).unit.unit_name == second
}

/// `ordered` keeps every constraint that `units` declare: each unit stands
/// before the units it must come before, and after those it must come after.
pub open spec fn keeps_constraints(units: Seq<UnitFileView>, ordered: Seq<UnitFileView>) -> bool {
    forall|i: int|
        0 <= i < units.len() ==> {
            &&& forall|k: int|
                0 <= k < (#[trigger] units[i]).dependency.needs_before.len() ==> stands_before(
                    ordered,
                    units[i].unit.unit_name,
                    #[trigger] units[i].dependency.needs_before[k],
                )
            &&& forall|k: int|
                0 <= k < units[i].dependency.needs_after.len() ==> stands_before(
                    ordered,
                    #[trigger] units[i].dependency.needs_after[k],
                    units[i].unit.unit_name,
                )
        }
}

/// `ordered` holds the units of `units`, each as often as `units` does, in an
/// order that keeps every declared constraint.
pub open spec fn is_ordering_of(ordered: Seq<UnitFileView>, units: Seq<UnitFileView>) -> bool {
    ordered.to_multiset() == units.to_multiset() && keeps_constraints(units, ordered)
}

/// What resolving `units` returns.
///
/// The result is that of [`resolution`], reported as [`reports`] says, and it
/// is sound. So the units come back ordered exactly when they can be ordered,
/// and then as an ordering of the input; a missing dependency is reported
/// exactly when some declared name is unknown; a cycle exactly when all names
/// are known and the constraints form a cycle.
pub open spec fn resolves(units: Seq<UnitFile>, result: Result<Vec<UnitFile>, GraphBuildError>) -> bool {
    &&& reports(views(units), resolution(views(units)), result)
    &&& is_sound(views(units), resolution(views(units)))
    &&& (result is Ok) <==> is_resolvable(views(units))
    &&& result matches Ok(ordered) ==> is_ordering_of(views(ordered@), views(units))
    &&& (result matches Err(GraphBuildError::LoadError(_))) <==> !all_known(views(units))
    &&& (result matches Err(GraphBuildError::DependencyCycle(_))) <==> all_known(views(units)) && !is_acyclic(
        dependency_edges(views(units)),
    )
    &&& units.len() == 0 ==> (result matches Ok(ordered) && ordered@.len() == 0)
}

/// `node_of` gives `-1` or the index of a unit that carries the name, and no
/// unit after that index carries it.
pub proof fn lemma_node_of(names: Seq<Seq<char>>, name: Seq<char>)
    ensures
        -1 <= node_of(names, name) < names.len(),
        node_of(names, name) >= 0 ==> names[node_of(names, name)] == name,
        forall|i: int| node_of(names, name) < i < names.len() ==> names[i] != name,
    decreases names.len(),
{
    if names.len() > 0 && names.last() != name {
        let shorter = names.drop_last();
        lemma_node_of(shorter, name);
        assert forall|i: int| node_of(names, name) < i < names.len() implies names[i] != name by {
            if i < shorter.len() {
                assert(shorter[i] == names[i]);
            }
        }
    }
}

/// Where the names are unique, the name of each unit denotes that unit.
pub proof fn lemma_unique_name_denotes_its_unit(units: Seq<UnitFileView>, i: int)
    requires
        names_are_unique(units),
        0 <= i < units.len(),
    ensures
        node_of(unit_names(units), units[i].unit.unit_name) == i,
{
    let names = unit_names(units);
    let node = node_of(names, units[i].unit.unit_name);
    lemma_node_of(names, units[i].unit.unit_name);
    assert(names[i] == units[i].unit.unit_name);
    if node > i {
        assert(names[node] == units[node].unit.unit_name);
    }
}

/// A name is known exactly when it denotes a node.
pub proof fn lemma_known_names_denote(names: Seq<Seq<char>>, name: Seq<char>)
    ensures
        names.contains(name) <==> node_of(names, name) >= 0,
{
    lemma_node_of(names, name);
    if names.contains(name) {
        let i = choose|i: int| 0 <= i < names.len() && names[i] == name;
        assert(node_of(names, name) >= i);
    }
}

/// Where every name is known from `from` on, no place from `from` on is
/// unknown; and a first unknown place holds an unknown name.
proof fn lemma_first_unknown(names: Seq<Seq<char>>, names_declared: Seq<Seq<char>>, from: int)
    requires
        0 <= from,
    ensures
        match first_unknown(names, names_declared, from) {
            Some(place) => from <= place < names_declared.len() && !names.contains(names_declared[place]),
            None => forall|k: int| from <= k < names_declared.len() ==> names.contains(#[trigger] names_declared[k]),
        },
    decreases names_declared.len() - from,
{
    if from < names_declared.len() {
        lemma_known_names_denote(names, names_declared[from]);
        lemma_first_unknown(names, names_declared, from + 1);
    }
}

/// As [`lemma_first_unknown`], for the units from `from` on.
proof fn lemma_first_missing(units: Seq<UnitFileView>, from: int)
    requires
        0 <= from,
    ensures
        match first_missing(units, from) {
            Some((unit, place)) => {
                &&& from <= unit < units.len()
                &&& 0 <= place < declared(units[unit]).len()
                &&& !unit_names(units).contains(declared(units[unit])[place])
            },
            None => forall|i: int, k: int|
                from <= i < units.len() && 0 <= k < declared(units[i]).len() ==> unit_names(units).contains(
                    #[trigger] declared(units[i])[k],
                ),
        },
    decreases units.len() - from,
{
    if from < units.len() {
        lemma_first_unknown(unit_names(units), declared(units[from]), 0);
        lemma_first_missing(units, from + 1);
    }
}

/// A dependency is missing exactly when some declared name is unknown.
pub proof fn lemma_missing_iff_unknown(units: Seq<UnitFileView>)
    ensures
        first_missing(units, 0) is None <==> all_known(units),
{
    lemma_first_missing(units, 0);
}

/// Each edge that one of the first `count` units declares is an edge of the
/// graph of these units.
proof fn lemma_unit_edges_in_graph(units: Seq<UnitFileView>, count: int, i: int, e: int)
    requires
        0 <= i < count <= units.len(),
        0 <= e < unit_edges(unit_names(units), units[i]).len(),
    ensures
        edges_through(units, count).contains(unit_edges(unit_names(units), units[i])[e]),
    decreases count,
{
    let earlier = edges_through(units, count - 1);
    let last = unit_edges(unit_names(units), units[count - 1]);
    if i == count - 1 {
        assert((earlier + last)[earlier.len() + e] == last[e]);
    } else {
        lemma_unit_edges_in_graph(units, count - 1, i, e);
        let at = choose|at: int| 0 <= at < earlier.len() && earlier[at] == unit_edges(unit_names(units), units[i])[e];
        assert((earlier + last)[at] == earlier[at]);
    }
}

/// Where `a` precedes `b` in an order of the units, a unit named as unit `a`
/// stands before a unit named as unit `b` among the units picked by it.
proof fn lemma_precedes_by_name(units: Seq<UnitFileView>, order: Seq<int>, a: int, b: int)
    requires
        is_permutation(order, units.len()),
        precedes(order, a, b),
    ensures
        stands_before(picked(units, order), units[a].unit.unit_name, units[b].unit.unit_name),
{
    let (p, q) = choose|p: int, q: int| 0 <= p < q < order.len() && order[p] == a && order[q] == b;
    let ordered = picked(units, order);
    assert(ordered[p] == units[a] && ordered[q] == units[b]);
}

/// The units picked by a topological order of their dependency graph are an
/// ordering of the units.
pub proof fn lemma_topological_order_is_ordering(units: Seq<UnitFileView>, order: Seq<int>)
    requires
        is_topological_order(order, units.len(), dependency_edges(units)),
    ensures
        is_ordering_of(picked(units, order), units),
{
    let ordered = picked(units, order);
    let names = unit_names(units);
    let edges = dependency_edges(units);
    lemma_permutation_keeps_items(units, order);
    assert(ordered == order.map_values(|index: int| units[index]));
    assert forall|i: int| 0 <= i < units.len() implies {
        &&& forall|k: int|
            0 <= k < (#[trigger] units[i]).dependency.needs_before.len() ==> stands_before(
                ordered,
                units[i].unit.unit_name,
                #[trigger] units[i].dependency.needs_before[k],
            )
        &&& forall|k: int|
            0 <= k < units[i].dependency.needs_after.len() ==> stands_before(
                ordered,
                #[trigger] units[i].dependency.needs_after[k],
                units[i].unit.unit_name,
            )
    } by {
        let unit = units[i];
        let node = node_of(names, unit.unit.unit_name);
        let before = unit.dependency.needs_before;
        let after = unit.dependency.needs_after;
        assert forall|k: int| 0 <= k < before.len() implies stands_before(
            ordered,
            unit.unit.unit_name,
            #[trigger] before[k],
        ) by {
            let target = node_of(names, before[k]);
            assert(unit_edges(names, unit)[k] == (node, target));
            lemma_unit_edges_in_graph(units, units.len() as int, i, k);
            let e = choose|e: int| 0 <= e < edges.len() && edges[e] == (node, target);
            assert(precedes(order, edges[e].0, edges[e].1));
            lemma_node_of(names, unit.unit.unit_name);
            lemma_node_of(names, before[k]);
            lemma_precedes_by_name(units, order, node, target);
        }
        assert forall|k: int| 0 <= k < after.len() implies stands_before(
            ordered,
            #[trigger] after[k],
            unit.unit.unit_name,
        ) by {
            let source = node_of(names, after[k]);
            assert(unit_edges(names, unit)[before.len() + k] == (source, node));
            lemma_unit_edges_in_graph(units, units.len() as int, i, before.len() + k);
            let e = choose|e: int| 0 <= e < edges.len() && edges[e] == (source, node);
            assert(precedes(order, edges[e].0, edges[e].1));
            lemma_node_of(names, unit.unit.unit_name);
            lemma_node_of(names, after[k]);
            lemma_precedes_by_name(units, order, source, node);
        }
    }
}

/// A sound end of resolving is an order exactly when the units can be
/// ordered, a missing dependency exactly when a declared name is unknown, and
/// a cycle in the remaining case.
pub proof fn lemma_sound_outcome(units: Seq<UnitFileView>, outcome: Resolution)
    requires
        is_sound(units, outcome),
    ensures
        outcome is Ordered <==> is_resolvable(units),
        outcome is Missing <==> !all_known(units),
        outcome is Cyclic <==> all_known(units) && !is_acyclic(dependency_edges(units)),
{
    lemma_missing_iff_unknown(units);
    match outcome {
        Resolution::Ordered(order) => {
            lemma_ordered_graph_is_acyclic(order, units.len(), dependency_edges(units));
        },
        Resolution::Cyclic(node) => {},
        Resolution::Missing { unit, place } => {},
    }
}

/// No units can always be ordered.
pub proof fn lemma_no_units_are_resolvable(units: Seq<UnitFileView>)
    requires
        units.len() == 0,
    ensures
        is_resolvable(units),
{
    let edges = dependency_edges(units);
    assert(edges.len() == 0);
    assert forall|node: int| !on_cycle(edges, node) by {
        if on_cycle(edges, node) {
            let walk = choose|walk: Seq<int>| #[trigger]
                is_walk(edges, walk) && walk.first() == node && walk.last() == node;
            assert(edges.contains((walk[0], walk[0int + 1])));
        }
    }
}

/// A result that reports a sound resolution of `units` is what resolving
/// `units` returns.
pub proof fn lemma_sound_report_resolves(units: Seq<UnitFile>, result: Result<Vec<UnitFile>, GraphBuildError>)
    requires
        reports(views(units), resolution(views(units)), result),
        is_sound(views(units), resolution(views(units))),
    ensures
        resolves(units, result),
{
    let all = views(units);
    lemma_sound_outcome(all, resolution(all));
    if units.len() == 0 {
        lemma_no_units_are_resolvable(all);
    }
    match resolution(all) {
        Resolution::Ordered(order) => {
            lemma_topological_order_is_ordering(all, order);
            assert(views(result->Ok_0@).len() == order.len());
        },
        Resolution::Cyclic(node) => {},
        Resolution::Missing { unit, place } => {},
    }
}

/// Resolving is deterministic: two results of resolving the same units agree
/// in kind, in the units they order and in the names they report.
pub proof fn lemma_resolving_is_deterministic(
    units: Seq<UnitFile>,
    first: Result<Vec<UnitFile>, GraphBuildError>,
    again: Seq<UnitFile>,
    second: Result<Vec<UnitFile>, GraphBuildError>,
)
    requires
        resolves(units, first),
        resolves(again, second),
        views(units) == views(again),
    ensures
        match first {
            Ok(ordered) => second matches Ok(other) && views(ordered@) == views(other@),
            Err(GraphBuildError::DependencyCycle(name)) => second matches Err(GraphBuildError::DependencyCycle(other))
                && name@ == other@,
            Err(GraphBuildError::LoadError(UnitLoadError::MissingDependency(name, dependency))) => {
                &&& second matches Err(
                    GraphBuildError::LoadError(UnitLoadError::MissingDependency(other_name, other_dependency)),
                )
                &&& name@ == other_name@
                &&& dependency@ == other_dependency@
            },
            Err(GraphBuildError::LoadError(_)) => false,
        },
{
}

} // verus!
