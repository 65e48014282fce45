use std::collections::HashMap;

use unit_resolver::unit::text::{blank, same_text};
use unit_resolver::unit::types::{
    clone_optional_text, clone_texts, DependencySection, ServiceSection, TargetSection,
    TodoSection, UnitFile, UnitSection, UnitType,
};

fn target(name: &str) -> UnitFile {
    UnitFile {
        unit: UnitSection {
            unit_name: name.to_string(),
            description: None,
            unit_type: UnitType::Target,
        },
        todo: TodoSection { path: "/bin/true".to_string(), args: Vec::new(), env: HashMap::new() },
        service: None,
        target: Some(TargetSection { is_runnable_once: true }),
        dependency: DependencySection::default(),
    }
}

#[test]
fn well_formed_target_is_valid() {
    assert_eq!(target("multi-user").validate(), Ok(()));
}

#[test]
fn well_formed_service_is_valid() {
    let mut unit = target("sshd");
    unit.unit.unit_type = UnitType::Service;
    unit.target = None;
    unit.service = Some(ServiceSection { command_on_restart: None, command_on_stop: None });
    unit.dependency.needs_before = vec!["multi-user".to_string()];
    unit.dependency.needs_after = vec!["network".to_string()];
    assert_eq!(unit.validate(), Ok(()));
}

#[test]
fn both_sections_present_is_valid() {
    let mut unit = target("both");
    unit.service = Some(ServiceSection { command_on_restart: None, command_on_stop: None });
    assert_eq!(unit.validate(), Ok(()));
    unit.unit.unit_type = UnitType::Service;
    assert_eq!(unit.validate(), Ok(()));
}

#[test]
fn empty_name_fails_validation() {
    assert_eq!(target("").validate(), Err(vec!["Unit name cannot be empty".to_string()]));
}

#[test]
fn blank_name_fails_validation() {
    assert_eq!(target(" \t\n").validate(), Err(vec!["Unit name cannot be empty".to_string()]));
}

#[test]
fn blank_path_fails_validation() {
    let mut unit = target("t");
    unit.todo.path = "   ".to_string();
    assert_eq!(unit.validate(), Err(vec!["Todo path cannot be empty".to_string()]));
}

#[test]
fn service_without_its_section_fails_validation() {
    let mut unit = target("svc");
    unit.unit.unit_type = UnitType::Service;
    assert_eq!(
        unit.validate(),
        Err(vec!["Service unit requires [service] section".to_string()])
    );
}

#[test]
fn target_without_its_section_fails_validation() {
    let mut unit = target("tgt");
    unit.target = None;
    unit.service = Some(ServiceSection { command_on_restart: None, command_on_stop: None });
    assert_eq!(unit.validate(), Err(vec!["Target unit requires [target] section".to_string()]));
}

#[test]
fn blank_dependency_names_fail_validation_one_by_one() {
    let mut unit = target("t");
    unit.dependency.needs_before = vec!["a".to_string(), "".to_string(), " ".to_string()];
    unit.dependency.needs_after = vec!["\t".to_string(), "b".to_string()];
    assert_eq!(
        unit.validate(),
        Err(vec![
            "Dependency name cannot be empty".to_string(),
            "Dependency name cannot be empty".to_string(),
            "Dependency name cannot be empty".to_string(),
        ])
    );
}

#[test]
fn every_violation_is_reported_in_order() {
    let mut unit = target("  ");
    unit.todo.path = String::new();
    unit.target = None;
    unit.dependency.needs_after = vec![String::new()];
    assert_eq!(
        unit.validate(),
        Err(vec![
            "Unit name cannot be empty".to_string(),
            "Todo path cannot be empty".to_string(),
            "Target unit requires [target] section".to_string(),
            "Dependency name cannot be empty".to_string(),
        ])
    );
}

#[test]
fn name_with_surrounding_space_is_valid() {
    assert_eq!(target("  padded  ").validate(), Ok(()));
}

#[test]
fn blank_knows_white_space() {
    assert!(blank(""));
    assert!(blank(" "));
    assert!(blank(" \t\r\n"));
    assert!(blank("\u{3000}\u{2028}\u{a0}"));
    assert!(!blank("a"));
    assert!(!blank("  a  "));
    assert!(!blank("\u{200b}"));
    assert!(!blank("_"));
}

#[test]
fn same_text_compares_character_by_character() {
    assert!(same_text("", ""));
    assert!(same_text("service", "service"));
    assert!(same_text("gr\u{fc}n", "gr\u{fc}n"));
    assert!(!same_text("service", "servicE"));
    assert!(!same_text("service", "services"));
    assert!(!same_text("services", "service"));
    assert!(!same_text("", "a"));
    assert!(!same_text("a", ""));
}

#[test]
fn unit_type_has_a_lower_case_text() {
    assert_eq!(UnitType::Service.as_str(), "service");
    assert_eq!(UnitType::Target.as_str(), "target");
}

#[test]
fn unit_type_is_named_by_its_exact_text() {
    assert_eq!(UnitType::from_text("service"), Some(UnitType::Service));
    assert_eq!(UnitType::from_text("target"), Some(UnitType::Target));
    assert_eq!(UnitType::from_text("Service"), None);
    assert_eq!(UnitType::from_text("TARGET"), None);
    assert_eq!(UnitType::from_text(""), None);
    assert_eq!(UnitType::from_text("service "), None);
    assert_eq!(UnitType::from_text("socket"), None);
}

#[test]
fn unit_type_text_round_trips() {
    for unit_type in [UnitType::Service, UnitType::Target] {
        assert_eq!(UnitType::from_text(unit_type.as_str()), Some(unit_type));
    }
}

#[test]
fn default_dependency_section_is_empty() {
    let section = DependencySection::default();
    assert!(section.needs_before.is_empty());
    assert!(section.needs_after.is_empty());
}

#[test]
fn clones_keep_every_field() {
    let mut unit = target("t");
    unit.unit.description = Some("a target".to_string());
    unit.todo.args = vec!["-x".to_string(), "".to_string()];
    unit.todo.env.insert("K".to_string(), "V".to_string());
    unit.service = Some(ServiceSection {
        command_on_restart: None,
        command_on_stop: Some("halt".to_string()),
    });
    unit.dependency.needs_before = vec!["b".to_string()];
    unit.dependency.needs_after = vec!["a1".to_string(), "a2".to_string()];
    let copy = unit.clone();
    assert_eq!(copy.unit.unit_name, "t");
    assert_eq!(copy.unit.description.as_deref(), Some("a target"));
    assert_eq!(copy.unit.unit_type, UnitType::Target);
    assert_eq!(copy.todo.path, "/bin/true");
    assert_eq!(copy.todo.args, vec!["-x", ""]);
    assert_eq!(copy.todo.env, unit.todo.env);
    let section = copy.service.as_ref().unwrap();
    assert_eq!(section.command_on_restart, None);
    assert_eq!(section.command_on_stop.as_deref(), Some("halt"));
    assert!(copy.target.as_ref().unwrap().is_runnable_once);
    assert_eq!(copy.dependency.needs_before, vec!["b"]);
    assert_eq!(copy.dependency.needs_after, vec!["a1", "a2"]);
}

#[test]
fn text_copies_are_equal_to_their_source() {
    assert_eq!(clone_optional_text(&None), None);
    assert_eq!(clone_optional_text(&Some("x".to_string())), Some("x".to_string()));
    assert_eq!(clone_texts(&Vec::new()), Vec::<String>::new());
    let items = vec!["a".to_string(), "".to_string(), "c".to_string()];
    assert_eq!(clone_texts(&items), items);
}
