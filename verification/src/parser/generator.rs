//! The dependency resolver: from a set of units to one order in which every
//! declared before/after constraint holds.

use crate::parser::graph::{
    graph_add_edge, graph_add_node, graph_edges, graph_new, graph_node_weight, graph_nodes,
    graph_toposort, indices,
};
use crate::parser::resolution::{
    after_edges, before_edges, declared, dependency_edges, edges_through, first_missing,
    first_unknown, lemma_node_of, lemma_sound_report_resolves, names_are_unique, node_of, picked,
    resolves, unit_edges, unit_names, views,
};
use crate::unit::errors::{GraphBuildError, UnitLoadError};
use crate::unit::types::UnitFile;
use petgraph::graph::Graph;
use petgraph::Directed;
use vstd::prelude::*;

verus! {

/// The index of the last unit named `name`, if any unit is.
pub fn find_unit(units: &[UnitFile], name: &String) -> (found: Option<usize>)
    ensures
        match found {
            Some(index) => index == node_of(unit_names(views(units@)), name@),
            None => node_of(unit_names(views(units@)), name@) == -1,
        },
{
    let ghost names = unit_names(views(units@));
    let mut i: usize = units.len();
    assert(names.take(i as int) == names);
    while i > 0
        invariant
            i <= units.len(),
            names == unit_names(views(units@)),
            node_of(names, name@) == node_of(names.take(i as int), name@),
        decreases i,
    {
        i = i - 1;
        assert(names.take(i + 1).last() == units@[i as int].unit.unit_name@);
        assert(names.take(i + 1).drop_last() == names.take(i as int));
        if units[i].unit.unit_name == *name {
            return Some(i);
        }
    }
    assert(names.take(0).len() == 0);
    None
}

/// Tells whether no two units carry the same name. Where two do, the later
/// one shadows the earlier in every constraint that names them.
pub fn has_unique_names(units: &[UnitFile]) -> (unique: bool)
    ensures
        unique == names_are_unique(views(units@)),
{
    let ghost all = views(units@);
    let ghost names = unit_names(all);
    for i in 0..units.len()
        invariant
            all == views(units@),
            names == unit_names(all),
            forall|a: int| 0 <= a < i ==> node_of(names, #[trigger] names[a]) == a,
    {
        proof {
            lemma_node_of(names, names[i as int]);
            assert(names[i as int] == all[i as int].unit.unit_name);
        }
        let last = find_unit(units, &units[i].unit.unit_name).unwrap();
        if last != i {
            assert(all[i as int].unit.unit_name == all[last as int].unit.unit_name) by {
                assert(names[last as int] == all[last as int].unit.unit_name);
            }
            return false;
        }
    }
    assert forall|a: int, b: int| 0 <= a < b < all.len() implies (#[trigger] all[a]).unit.unit_name != (
    #[trigger] all[b]).unit.unit_name by {
        lemma_node_of(names, names[a]);
        assert(names[a] == all[a].unit.unit_name);
        assert(names[b] == all[b].unit.unit_name);
    }
    true
}

/// The dependency graph of `units`: one node for each unit, in their order,
/// and the edges that the units declare, unit by unit. It fails at the first
/// declared name that no unit carries.
pub(crate) fn build_dependency_graph(units: &[UnitFile]) -> (built: Result<
    Graph<usize, (), Directed, usize>,
    GraphBuildError,
>)
    ensures
        match first_missing(views(units@), 0) {
            None => {
                &&& built matches Ok(graph)
                &&& graph_nodes(graph) == Seq::new(units@.len(), |i: int| i as usize)
                &&& graph_edges(graph) == dependency_edges(views(units@))
            },
            Some((unit, place)) => {
                &&& built matches Err(GraphBuildError::LoadError(UnitLoadError::MissingDependency(name, dependency)))
                &&& name@ == views(units@)[unit].unit.unit_name
                &&& dependency@ == declared(views(units@)[unit])[place]
            },
        },
{
    let ghost all = views(units@);
    let ghost names = unit_names(all);
    let mut graph = graph_new();
    for i in 0..units.len()
        invariant
            graph_nodes(graph) == Seq::new(i as nat, |i: int| i as usize),
            graph_edges(graph) == Seq::<(int, int)>::empty(),
    {
        let _ = graph_add_node(&mut graph, i);
    }
    for i in 0..units.len()
        invariant
            all == views(units@),
            names == unit_names(all),
            graph_nodes(graph) == Seq::new(units@.len(), |i: int| i as usize),
            graph_edges(graph) == edges_through(all, i as int),
            first_missing(all, 0) == first_missing(all, i as int),
    {
        let unit = &units[i];
        let ghost unit_view = all[i as int];
        proof {
            lemma_node_of(names, unit_view.unit.unit_name);
            assert(names[i as int] == unit_view.unit.unit_name);
        }
        let from = find_unit(units, &unit.unit.unit_name).unwrap();
        assert(from < names.len() == units@.len());
        let ghost before = unit_view.dependency.needs_before;
        let ghost after = unit_view.dependency.needs_after;
        let ghost wanted = declared(unit_view);
        for k in 0..unit.dependency.needs_before.len()
            invariant
                all == views(units@),
                names == unit_names(all),
                unit_view == units@[i as int]@,
                unit_view == all[i as int],
                before == unit_view.dependency.needs_before,
                wanted == declared(unit_view),
                from == node_of(names, unit_view.unit.unit_name),
                from < units@.len(),
                0 <= i < units@.len(),
                unit == units@[i as int],
                graph_nodes(graph) == Seq::new(units@.len(), |i: int| i as usize),
                graph_edges(graph) == edges_through(all, i as int) + before_edges(
                    names,
                    from as int,
                    before,
                ).take(k as int),
                first_missing(all, 0) == first_missing(all, i as int),
                first_unknown(names, wanted, 0) == first_unknown(names, wanted, k as int),
        {
            let dep = &unit.dependency.needs_before[k];
            assert(wanted[k as int] == dep@);
            proof {
                lemma_node_of(names, dep@);
            }
            match find_unit(units, dep) {
                Some(to) => {
                    graph_add_edge(&mut graph, from, to);
                    assert(before_edges(names, from as int, before).take(k + 1)
                        == before_edges(names, from as int, before).take(k as int).push(
                        (from as int, to as int),
                    ));
                },
                None => {
                    return Err(
                        GraphBuildError::LoadError(
                            UnitLoadError::MissingDependency(unit.unit.unit_name.clone(), dep.clone()),
                        ),
                    );
                },
            }
        }
        let ghost offset = before.len() as int;
        for k in 0..unit.dependency.needs_after.len()
            invariant
                all == views(units@),
                names == unit_names(all),
                unit_view == units@[i as int]@,
                unit_view == all[i as int],
                before == unit_view.dependency.needs_before,
                after == unit_view.dependency.needs_after,
                wanted == declared(unit_view),
                offset == before.len(),
                from == node_of(names, unit_view.unit.unit_name),
                from < units@.len(),
                0 <= i < units@.len(),
                unit == units@[i as int],
                graph_nodes(graph) == Seq::new(units@.len(), |i: int| i as usize),
                graph_edges(graph) == edges_through(all, i as int) + before_edges(
                    names,
                    from as int,
                    before,
                ) + after_edges(names, from as int, after).take(k as int),
                first_missing(all, 0) == first_missing(all, i as int),
                first_unknown(names, wanted, 0) == first_unknown(names, wanted, offset + k),
        {
            let dep = &unit.dependency.needs_after[k];
            assert(wanted[offset + k] == dep@);
            proof {
                lemma_node_of(names, dep@);
            }
            match find_unit(units, dep) {
                Some(to) => {
                    graph_add_edge(&mut graph, to, from);
                    assert(after_edges(names, from as int, after).take(k + 1) == after_edges(
                        names,
                        from as int,
                        after,
                    ).take(k as int).push((to as int, from as int)));
                },
                None => {
                    return Err(
                        GraphBuildError::LoadError(
                            UnitLoadError::MissingDependency(unit.unit.unit_name.clone(), dep.clone()),
                        ),
                    );
                },
            }
        }
        assert(graph_edges(graph) == edges_through(all, i + 1)) by {
            assert(before_edges(names, from as int, before).take(before.len() as int)
                == before_edges(names, from as int, before));
            assert(after_edges(names, from as int, after).take(after.len() as int) == after_edges(
                names,
                from as int,
                after,
            ));
            assert(graph_edges(graph) == edges_through(all, i as int) + unit_edges(names, unit_view));
        }
    }
    Ok(graph)
}

/// The units in the order that the sort gave, each a copy of the unit with
/// that index; or, where the sort found a unit on a cycle, the error that
/// names this unit.
pub fn order_units(units: &[UnitFile], sorted: Result<Vec<usize>, usize>) -> (result: Result<
    Vec<UnitFile>,
    GraphBuildError,
>)
    requires
        match sorted {
            Ok(order) => forall|k: int| 0 <= k < order@.len() ==> order@[k] < units@.len(),
            Err(index) => index < units@.len(),
        },
    ensures
        match sorted {
            Ok(order) => {
                &&& result matches Ok(ordered)
                &&& views(ordered@) == picked(views(units@), indices(order@))
            },
            Err(index) => {
                &&& result matches Err(GraphBuildError::DependencyCycle(name))
                &&& name@ == units@[index as int].unit.unit_name@
            },
        },
{
    match sorted {
        Err(index) => Err(GraphBuildError::DependencyCycle(units[index].unit.unit_name.clone())),
        Ok(order) => {
            let mut ordered: Vec<UnitFile> = Vec::new();
            for k in 0..order.len()
                invariant
                    forall|k: int| 0 <= k < order@.len() ==> order@[k] < units@.len(),
                    views(ordered@) == picked(views(units@), indices(order@)).take(k as int),
            {
                let ghost earlier = ordered@;
                ordered.push(units[order[k]].clone());
                assert(views(ordered@) == views(earlier).push(units@[order@[k as int] as int]@));
                assert(picked(views(units@), indices(order@)).take(k + 1) == picked(
                    views(units@),
                    indices(order@),
                ).take(k as int).push(views(units@)[order@[k as int] as int]));
            }
            assert(views(ordered@) == picked(views(units@), indices(order@)));
            Ok(ordered)
        },
    }
}

/// Resolves `units` into one order in which each unit stands before the
/// units it must come before and after those it must come after.
///
/// The names of the units are the keys: a dependency on a name is one on the
/// last unit with that name. The first declared name that no unit carries
/// ends the resolution with that missing dependency; a cycle among the
/// constraints ends it with a unit on the cycle. Otherwise every unit comes
/// out once, unchanged.
pub fn generate_unit_list(units: &[UnitFile]) -> (result: Result<Vec<UnitFile>, GraphBuildError>)
    ensures
        resolves(units@, result),
{
    let graph = match build_dependency_graph(units) {
        Ok(graph) => graph,
        Err(error) => {
            let result = Err(error);
            proof {
                lemma_sound_report_resolves(units@, result);
            }
            return result;
        },
    };
    let sorted = graph_toposort(&graph);
    let chosen = match sorted {
        Err(node) => Err(graph_node_weight(&graph, node)),
        Ok(nodes) => {
            let mut chosen: Vec<usize> = Vec::new();
            for k in 0..nodes.len()
                invariant
                    graph_nodes(graph) == Seq::new(units@.len(), |i: int| i as usize),
                    forall|k: int| 0 <= k < nodes@.len() ==> 0 <= #[trigger] indices(nodes@)[k] < units@.len(),
                    chosen@ == nodes@.take(k as int),
            {
                assert(indices(nodes@)[k as int] == nodes@[k as int]);
                chosen.push(graph_node_weight(&graph, nodes[k]));
                assert(nodes@.take(k + 1) == nodes@.take(k as int).push(nodes@[k as int]));
            }
            assert(chosen@ == nodes@);
            assert forall|k: int| 0 <= k < chosen@.len() implies chosen@[k] < units@.len() by {
                assert(indices(nodes@)[k] == nodes@[k]);
            }
            Ok(chosen)
        },
    };
    let result = order_units(units, chosen);
    proof {
        lemma_sound_report_resolves(units@, result);
    }
    result
}

/// Resolves `units`: the same as [`generate_unit_list`].
pub fn generate(units: &[UnitFile]) -> (result: Result<Vec<UnitFile>, GraphBuildError>)
    ensures
        resolves(units@, result),
{
    generate_unit_list(units)
}

/// Resolves what the loader gave: the units it loaded are resolved as
/// [`generate`] does, and a failure of the loader is passed on as it is.
pub fn load_and_generate(loaded: Result<Vec<UnitFile>, UnitLoadError>) -> (result: Result<
    Vec<UnitFile>,
    GraphBuildError,
>)
    ensures
        match loaded {
            Ok(units) => resolves(units@, result),
            Err(error) => result == Err::<Vec<UnitFile>, GraphBuildError>(GraphBuildError::LoadError(error)),
        },
{
    match loaded {
        Ok(units) => generate(units.as_slice()),
        Err(error) => Err(GraphBuildError::from(error)),
    }
}

} // verus!
