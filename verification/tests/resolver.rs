use std::collections::HashMap;
use std::path::PathBuf;

use unit_resolver::parser::generator::{
    find_unit, generate, generate_unit_list, has_unique_names, load_and_generate, order_units,
};
use unit_resolver::unit::errors::{GraphBuildError, UnitLoadError};
use unit_resolver::unit::types::{
    DependencySection, ServiceSection, TodoSection, UnitFile, UnitSection, UnitType,
};

fn service(name: &str, before: &[&str], after: &[&str]) -> UnitFile {
    UnitFile {
        unit: UnitSection {
            unit_name: name.to_string(),
            description: Some(format!("the {} unit", name)),
            unit_type: UnitType::Service,
        },
        todo: TodoSection {
            path: format!("/usr/bin/{}", name),
            args: vec!["--run".to_string(), name.to_string()],
            env: HashMap::from([("UNIT".to_string(), name.to_string())]),
        },
        service: Some(ServiceSection {
            command_on_restart: Some("restart".to_string()),
            command_on_stop: None,
        }),
        target: None,
        dependency: DependencySection {
            needs_before: before.iter().map(|s| s.to_string()).collect(),
            needs_after: after.iter().map(|s| s.to_string()).collect(),
        },
    }
}

fn names(units: &[UnitFile]) -> Vec<String> {
    units.iter().map(|u| u.unit.unit_name.clone()).collect()
}

fn place(order: &[String], name: &str) -> usize {
    order.iter().position(|n| n == name).unwrap()
}

#[test]
fn chain_is_ordered_exactly() {
    let units = vec![service("A", &["B"], &[]), service("B", &["C"], &[]), service("C", &[], &[])];
    let ordered = generate(&units).unwrap();
    assert_eq!(names(&ordered), vec!["A", "B", "C"]);
}

#[test]
fn chain_given_backwards_is_reordered() {
    let units = vec![service("C", &[], &[]), service("B", &["C"], &[]), service("A", &["B"], &[])];
    let ordered = generate(&units).unwrap();
    assert_eq!(names(&ordered), vec!["A", "B", "C"]);
}

#[test]
fn chain_declared_with_after_is_ordered_exactly() {
    let units = vec![service("C", &[], &["B"]), service("A", &[], &[]), service("B", &[], &["A"])];
    let ordered = generate(&units).unwrap();
    assert_eq!(names(&ordered), vec!["A", "B", "C"]);
}

#[test]
fn redundant_declaration_is_harmless() {
    let units = vec![service("A", &["B"], &[]), service("B", &[], &["A"])];
    let ordered = generate(&units).unwrap();
    assert_eq!(names(&ordered), vec!["A", "B"]);
}

#[test]
fn repeated_names_in_a_list_are_harmless() {
    let units = vec![service("B", &[], &["A", "A", "A"]), service("A", &["B", "B"], &[])];
    let ordered = generate(&units).unwrap();
    assert_eq!(names(&ordered), vec!["A", "B"]);
}

#[test]
fn two_unit_cycle_is_reported() {
    let units = vec![service("X", &["Y"], &[]), service("Y", &["X"], &[])];
    match generate(&units) {
        Err(GraphBuildError::DependencyCycle(name)) => assert!(name == "X" || name == "Y"),
        other => panic!("expected a cycle, got {:?}", other),
    }
}

#[test]
fn self_dependency_is_a_cycle() {
    let units = vec![service("A", &[], &[]), service("X", &["X"], &[])];
    match generate(&units) {
        Err(GraphBuildError::DependencyCycle(name)) => assert_eq!(name, "X"),
        other => panic!("expected a cycle, got {:?}", other),
    }
}

#[test]
fn cycle_behind_a_free_unit_names_a_unit_on_it() {
    let units = vec![
        service("free", &[], &[]),
        service("P", &["Q"], &[]),
        service("Q", &["R"], &[]),
        service("R", &["P"], &[]),
        service("tail", &[], &["R"]),
    ];
    match generate(&units) {
        Err(GraphBuildError::DependencyCycle(name)) => {
            assert!(name == "P" || name == "Q" || name == "R")
        }
        other => panic!("expected a cycle, got {:?}", other),
    }
}

#[test]
fn missing_dependency_is_reported_with_both_names() {
    let units = vec![service("X", &["ghost"], &[])];
    match generate(&units) {
        Err(GraphBuildError::LoadError(UnitLoadError::MissingDependency(unit, dependency))) => {
            assert_eq!(unit, "X");
            assert_eq!(dependency, "ghost");
        }
        other => panic!("expected a missing dependency, got {:?}", other),
    }
}

#[test]
fn missing_after_dependency_is_reported() {
    let units = vec![service("A", &[], &[]), service("X", &["A"], &["phantom"])];
    match generate(&units) {
        Err(GraphBuildError::LoadError(UnitLoadError::MissingDependency(unit, dependency))) => {
            assert_eq!(unit, "X");
            assert_eq!(dependency, "phantom");
        }
        other => panic!("expected a missing dependency, got {:?}", other),
    }
}

#[test]
fn first_missing_dependency_wins() {
    let units = vec![
        service("A", &["B"], &[]),
        service("B", &["first", "second"], &["third"]),
        service("C", &["fourth"], &[]),
    ];
    match generate(&units) {
        Err(GraphBuildError::LoadError(UnitLoadError::MissingDependency(unit, dependency))) => {
            assert_eq!(unit, "B");
            assert_eq!(dependency, "first");
        }
        other => panic!("expected a missing dependency, got {:?}", other),
    }
}

#[test]
fn missing_dependency_comes_before_a_cycle() {
    let units = vec![service("X", &["Y"], &[]), service("Y", &["X", "ghost"], &[])];
    match generate(&units) {
        Err(GraphBuildError::LoadError(UnitLoadError::MissingDependency(unit, dependency))) => {
            assert_eq!(unit, "Y");
            assert_eq!(dependency, "ghost");
        }
        other => panic!("expected a missing dependency, got {:?}", other),
    }
}

#[test]
fn no_units_give_an_empty_order() {
    let units: Vec<UnitFile> = Vec::new();
    let ordered = generate(&units).unwrap();
    assert!(ordered.is_empty());
}

#[test]
fn single_unit_comes_back() {
    let units = vec![service("only", &[], &[])];
    let ordered = generate(&units).unwrap();
    assert_eq!(names(&ordered), vec!["only"]);
}

#[test]
fn diamond_is_a_permutation_that_keeps_every_constraint() {
    let units = vec![
        service("sink", &[], &["left", "right"]),
        service("right", &[], &["source"]),
        service("left", &["sink"], &[]),
        service("source", &["left"], &[]),
        service("aside", &[], &[]),
    ];
    let ordered = generate(&units).unwrap();
    let order = names(&ordered);
    let mut sorted = order.clone();
    sorted.sort();
    assert_eq!(sorted, vec!["aside", "left", "right", "sink", "source"]);
    assert!(place(&order, "left") < place(&order, "sink"));
    assert!(place(&order, "right") < place(&order, "sink"));
    assert!(place(&order, "source") < place(&order, "right"));
    assert!(place(&order, "source") < place(&order, "left"));
}

#[test]
fn resolving_twice_gives_the_same_order() {
    let units = vec![
        service("d", &[], &[]),
        service("c", &[], &["a"]),
        service("b", &[], &[]),
        service("a", &["b"], &[]),
        service("e", &[], &["d"]),
    ];
    let first = names(&generate(&units).unwrap());
    let second = names(&generate(&units).unwrap());
    assert_eq!(first, second);
    let copies: Vec<UnitFile> = units.iter().map(|u| u.clone()).collect();
    let third = names(&generate(&copies).unwrap());
    assert_eq!(first, third);
}

#[test]
fn units_come_back_whole() {
    let units = vec![service("B", &[], &["A"]), service("A", &[], &[])];
    let ordered = generate(&units).unwrap();
    assert_eq!(names(&ordered), vec!["A", "B"]);
    let b = &ordered[1];
    assert_eq!(b.unit.description.as_deref(), Some("the B unit"));
    assert_eq!(b.unit.unit_type, UnitType::Service);
    assert_eq!(b.todo.path, "/usr/bin/B");
    assert_eq!(b.todo.args, vec!["--run", "B"]);
    assert_eq!(b.todo.env.get("UNIT").map(|s| s.as_str()), Some("B"));
    assert_eq!(b.todo.env.len(), 1);
    let section = b.service.as_ref().unwrap();
    assert_eq!(section.command_on_restart.as_deref(), Some("restart"));
    assert_eq!(section.command_on_stop, None);
    assert!(b.target.is_none());
    assert!(b.dependency.needs_before.is_empty());
    assert_eq!(b.dependency.needs_after, vec!["A"]);
}

#[test]
fn later_unit_shadows_an_earlier_one_of_the_same_name() {
    let mut first = service("twin", &[], &[]);
    first.unit.description = Some("first".to_string());
    let mut second = service("twin", &[], &[]);
    second.unit.description = Some("second".to_string());
    let units = vec![first, service("user", &["twin"], &[]), second];
    assert_eq!(find_unit(&units, &"twin".to_string()), Some(2));
    let ordered = generate(&units).unwrap();
    assert_eq!(ordered.len(), 3);
    let user = ordered.iter().position(|u| u.unit.unit_name == "user").unwrap();
    let shadowing =
        ordered.iter().position(|u| u.unit.description.as_deref() == Some("second")).unwrap();
    assert!(user < shadowing);
}

#[test]
fn generate_unit_list_and_generate_agree() {
    let units = vec![service("B", &[], &["A"]), service("A", &[], &[]), service("C", &[], &["B"])];
    assert_eq!(names(&generate_unit_list(&units).unwrap()), names(&generate(&units).unwrap()));
    assert_eq!(names(&generate_unit_list(&units).unwrap()), vec!["A", "B", "C"]);
}

#[test]
fn find_unit_gives_the_last_index_or_nothing() {
    let units = vec![service("a", &[], &[]), service("b", &[], &[]), service("a", &[], &[])];
    assert_eq!(find_unit(&units, &"a".to_string()), Some(2));
    assert_eq!(find_unit(&units, &"b".to_string()), Some(1));
    assert_eq!(find_unit(&units, &"c".to_string()), None);
    assert_eq!(find_unit(&units, &"".to_string()), None);
    assert_eq!(find_unit(&[], &"a".to_string()), None);
}

#[test]
fn order_units_picks_the_units_by_index() {
    let units = vec![service("zero", &[], &[]), service("one", &[], &[]), service("two", &[], &[])];
    let ordered = order_units(&units, Ok(vec![2, 0, 1])).unwrap();
    assert_eq!(names(&ordered), vec!["two", "zero", "one"]);
    let repeated = order_units(&units, Ok(vec![1, 1])).unwrap();
    assert_eq!(names(&repeated), vec!["one", "one"]);
    let none = order_units(&units, Ok(Vec::new())).unwrap();
    assert!(none.is_empty());
}

#[test]
fn order_units_names_the_unit_on_the_cycle() {
    let units = vec![service("zero", &[], &[]), service("one", &[], &[])];
    match order_units(&units, Err(1)) {
        Err(GraphBuildError::DependencyCycle(name)) => assert_eq!(name, "one"),
        other => panic!("expected a cycle, got {:?}", other),
    }
}

#[test]
fn load_and_generate_resolves_what_was_loaded() {
    let units = vec![service("B", &[], &["A"]), service("A", &[], &[])];
    let ordered = load_and_generate(Ok(units)).unwrap();
    assert_eq!(names(&ordered), vec!["A", "B"]);
}

#[test]
fn load_and_generate_passes_a_load_failure_on() {
    let failure = UnitLoadError::ReadDirError(
        PathBuf::from("/etc/units"),
        std::io::Error::new(std::io::ErrorKind::NotFound, "gone"),
    );
    match load_and_generate(Err(failure)) {
        Err(GraphBuildError::LoadError(UnitLoadError::ReadDirError(path, error))) => {
            assert_eq!(path, PathBuf::from("/etc/units"));
            assert_eq!(error.kind(), std::io::ErrorKind::NotFound);
        }
        other => panic!("expected the load failure, got {:?}", other),
    }
}

#[test]
fn load_failure_converts_into_a_resolution_failure() {
    let wrapped = GraphBuildError::from(UnitLoadError::MissingDependency(
        "X".to_string(),
        "ghost".to_string(),
    ));
    assert!(matches!(
        wrapped,
        GraphBuildError::LoadError(UnitLoadError::MissingDependency(ref unit, ref dependency))
            if unit == "X" && dependency == "ghost"
    ));
    let other: GraphBuildError = UnitLoadError::InvalidExtension.into();
    assert!(matches!(other, GraphBuildError::LoadError(UnitLoadError::InvalidExtension)));
}

#[test]
fn unique_names_are_told_from_repeated_ones() {
    assert!(has_unique_names(&[]));
    assert!(has_unique_names(&[service("a", &[], &[])]));
    assert!(has_unique_names(&[service("a", &[], &[]), service("b", &[], &[]), service("c", &[], &[])]));
    assert!(!has_unique_names(&[service("a", &[], &[]), service("b", &[], &[]), service("a", &[], &[])]));
    assert!(!has_unique_names(&[service("a", &[], &[]), service("a", &[], &[])]));
    assert!(has_unique_names(&[service("a", &[], &[]), service("A", &[], &[])]));
}

#[test]
fn crate_root_offers_the_resolver() {
    let units = vec![service("late", &[], &["early"]), service("early", &[], &[])];
    let ordered = unit_resolver::generate(&units).unwrap();
    assert_eq!(names(&ordered), vec!["early", "late"]);
    let again = unit_resolver::generate_unit_list(&units).unwrap();
    assert_eq!(names(&again), vec!["early", "late"]);
}
