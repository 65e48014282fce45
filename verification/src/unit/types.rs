//! The typed form of one unit definition.

use crate::unit::text::{blank, is_blank, same_text};
use std::collections::HashMap;
use vstd::prelude::*;

verus! {

/// What kind of thing a unit describes.
#[derive(Debug, PartialEq, Eq, Clone, Copy, Structural)]
pub enum UnitType {
    Service,
    Target,
}

impl UnitType {
    /// The textual form of the type: its name in lower case.
    pub open spec fn text(self) -> Seq<char> {
        match self {
            UnitType::Service => "service"@,
            UnitType::Target => "target"@,
        }
    }

    /// The type that `text` names, if it is the textual form of one.
    pub open spec fn named(text: Seq<char>) -> Option<UnitType> {
        if text == "service"@ {
            Some(UnitType::Service)
        } else if text == "target"@ {
            Some(UnitType::Target)
        } else {
            None
        }
    }

    /// The textual form of the type.
    pub fn as_str(&self) -> (text: &'static str)
        ensures
            text@ == self.text(),
    {
        match self {
            UnitType::Service => "service",
            UnitType::Target => "target",
        }
    }

    /// The type whose textual form is `text`. The match is exact: upper case
    /// letters name no type.
    pub fn from_text(text: &str) -> (unit_type: Option<UnitType>)
        ensures
            unit_type == Self::named(text@),
    {
        if same_text(text, "service") {
            Some(UnitType::Service)
        } else if same_text(text, "target") {
            Some(UnitType::Target)
        } else {
            None
        }
    }
}

/// The textual form of a type names that type, and only it does.
pub proof fn lemma_text_names_type(unit_type: UnitType)
    ensures
        UnitType::named(unit_type.text()) == Some(unit_type),
{
    reveal_strlit("service");
    reveal_strlit("target");
    assert("service"@.len() != "target"@.len());
}

/// The `[unit]` table: identity of the unit.
#[derive(Debug)]
pub struct UnitSection {
    pub unit_name: String,
    pub description: Option<String>,
    pub unit_type: UnitType,
}

/// The `[todo]` table: what an external supervisor is to run. It is carried
/// along and never interpreted here.
#[derive(Debug)]
pub struct TodoSection {
    pub path: String,
    pub args: Vec<String>,
    pub env: HashMap<String, String>,
}

/// The `[service]` table.
#[derive(Debug)]
pub struct ServiceSection {
    pub command_on_restart: Option<String>,
    pub command_on_stop: Option<String>,
}

/// The `[target]` table.
#[derive(Debug)]
pub struct TargetSection {
    pub is_runnable_once: bool,
}

/// The `[dependency]` table: the names of the units that this unit must come
/// before, and of those it must come after.
#[derive(Debug)]
pub struct DependencySection {
    pub needs_before: Vec<String>,
    pub needs_after: Vec<String>,
}

/// One unit definition.
#[derive(Debug)]
pub struct UnitFile {
    pub unit: UnitSection,
    pub todo: TodoSection,
    pub service: Option<ServiceSection>,
    pub target: Option<TargetSection>,
    pub dependency: DependencySection,
}

/// The characters of each string of `items`.
pub open spec fn texts(items: Seq<String>) -> Seq<Seq<char>> {
    items.map_values(|s: String| s@)
}

/// The characters of an optional string.
pub open spec fn optional_text(item: Option<String>) -> Option<Seq<char>> {
    match item {
        Some(s) => Some(s@),
        None => None,
    }
}

/// A [`UnitSection`] as plain values.
pub struct UnitSectionView {
    pub unit_name: Seq<char>,
    pub description: Option<Seq<char>>,
    pub unit_type: UnitType,
}

/// A [`TodoSection`] as plain values. The environment stays the map from
/// name to value that it is.
pub struct TodoSectionView {
    pub path: Seq<char>,
    pub args: Seq<Seq<char>>,
    pub env: Map<String, String>,
}

/// A [`ServiceSection`] as plain values.
pub struct ServiceSectionView {
    pub command_on_restart: Option<Seq<char>>,
    pub command_on_stop: Option<Seq<char>>,
}

/// A [`DependencySection`] as plain values.
pub struct DependencySectionView {
    pub needs_before: Seq<Seq<char>>,
    pub needs_after: Seq<Seq<char>>,
}

/// A [`UnitFile`] as plain values. Of the target section it holds the flag.
pub struct UnitFileView {
    pub unit: UnitSectionView,
    pub todo: TodoSectionView,
    pub service: Option<ServiceSectionView>,
    pub target: Option<bool>,
    pub dependency: DependencySectionView,
}

impl View for UnitSection {
    type V = UnitSectionView;

    open spec fn view(&self) -> UnitSectionView {
        UnitSectionView {
            unit_name: self.unit_name@,
            description: optional_text(self.description),
            unit_type: self.unit_type,
        }
    }
}

impl View for TodoSection {
    type V = TodoSectionView;

    open spec fn view(&self) -> TodoSectionView {
        TodoSectionView { path: self.path@, args: texts(self.args@), env: self.env@ }
    }
}

impl View for ServiceSection {
    type V = ServiceSectionView;

    open spec fn view(&self) -> ServiceSectionView {
        ServiceSectionView {
            command_on_restart: optional_text(self.command_on_restart),
            command_on_stop: optional_text(self.command_on_stop),
        }
    }
}

impl View for DependencySection {
    type V = DependencySectionView;

    open spec fn view(&self) -> DependencySectionView {
        DependencySectionView {
            needs_before: texts(self.needs_before@),
            needs_after: texts(self.needs_after@),
        }
    }
}

impl View for UnitFile {
    type V = UnitFileView;

    open spec fn view(&self) -> UnitFileView {
        UnitFileView {
            unit: self.unit@,
            todo: self.todo@,
            service: match self.service {
                Some(s) => Some(s@),
                None => None,
            },
            target: match self.target {
                Some(t) => Some(t.is_runnable_once),
                None => None,
            },
            dependency: self.dependency@,
        }
    }
}

/// A copy of an optional string.
pub fn clone_optional_text(item: &Option<String>) -> (copy: Option<String>)
    ensures
        copy == *item,
{
    match item {
        Some(s) => Some(s.clone()),
        None => None,
    }
}

/// A copy of a list of strings.
pub fn clone_texts(items: &Vec<String>) -> (copy: Vec<String>)
    ensures
        copy@ == items@,
{
    let mut copy: Vec<String> = Vec::new();
    for i in 0..items.len()
        invariant
            copy@ == items@.take(i as int),
    {
        copy.push(items[i].clone());
        assert(items@.take(i + 1) == items@.take(i as int).push(items@[i as int]));
    }
    copy
}

impl Clone for UnitSection {
    fn clone(&self) -> (copy: Self)
        ensures
            copy@ == self@,
    {
        UnitSection {
            unit_name: self.unit_name.clone(),
            description: clone_optional_text(&self.description),
            unit_type: self.unit_type,
        }
    }
}

impl Clone for TodoSection {
    fn clone(&self) -> (copy: Self)
        ensures
            copy@ == self@,
    {
        TodoSection {
            path: self.path.clone(),
            args: clone_texts(&self.args),
            env: self.env.clone(),
        }
    }
}

impl Clone for ServiceSection {
    fn clone(&self) -> (copy: Self)
        ensures
            copy@ == self@,
    {
        ServiceSection {
            command_on_restart: clone_optional_text(&self.command_on_restart),
            command_on_stop: clone_optional_text(&self.command_on_stop),
        }
    }
}

impl Clone for TargetSection {
    fn clone(&self) -> (copy: Self)
        ensures
            copy == *self,
    {
        TargetSection { is_runnable_once: self.is_runnable_once }
    }
}

impl Clone for DependencySection {
    fn clone(&self) -> (copy: Self)
        ensures
            copy@ == self@,
    {
        DependencySection {
            needs_before: clone_texts(&self.needs_before),
            needs_after: clone_texts(&self.needs_after),
        }
    }
}

impl Default for DependencySection {
    fn default() -> (empty: Self)
        ensures
            empty.needs_before@.len() == 0,
            empty.needs_after@.len() == 0,
    {
        DependencySection { needs_before: Vec::new(), needs_after: Vec::new() }
    }
}

impl Clone for UnitFile {
    fn clone(&self) -> (copy: Self)
        ensures
            copy@ == self@,
    {
        UnitFile {
            unit: self.unit.clone(),
            todo: self.todo.clone(),
            service: match &self.service {
                Some(s) => Some(s.clone()),
                None => None,
            },
            target: match &self.target {
                Some(t) => Some(t.clone()),
                None => None,
            },
            dependency: self.dependency.clone(),
        }
    }
}

/// How many of `names` are blank.
pub open spec fn blank_count(names: Seq<Seq<char>>) -> nat
    decreases names.len(),
{
    if names.len() == 0 {
        0
    } else {
        blank_count(names.drop_last()) + if is_blank(names.last()) {
            1nat
        } else {
            0nat
        }
    }
}

impl UnitFileView {
    /// The rules that a unit must obey: its name and the path to run are not
    /// blank, the section that its type calls for is present, and no name
    /// that it declares is blank.
    pub open spec fn is_valid(self) -> bool {
        &&& !is_blank(self.unit.unit_name)
        &&& !is_blank(self.todo.path)
        &&& self.unit.unit_type == UnitType::Service ==> self.service is Some
        &&& self.unit.unit_type == UnitType::Target ==> self.target is Some
        &&& forall|k: int|
            0 <= k < self.dependency.needs_before.len() ==> !is_blank(#[trigger] self.dependency.needs_before[k])
        &&& forall|k: int|
            0 <= k < self.dependency.needs_after.len() ==> !is_blank(#[trigger] self.dependency.needs_after[k])
    }

    /// The message for a blank unit name, if the name is blank.
    pub open spec fn name_violations(self) -> Seq<Seq<char>> {
        if is_blank(self.unit.unit_name) {
            seq!["Unit name cannot be empty"@]
        } else {
            seq![]
        }
    }

    /// The message for a blank path, if the path is blank.
    pub open spec fn path_violations(self) -> Seq<Seq<char>> {
        if is_blank(self.todo.path) {
            seq!["Todo path cannot be empty"@]
        } else {
            seq![]
        }
    }

    /// The message for the section that the unit's type calls for, if that
    /// section is absent.
    pub open spec fn section_violations(self) -> Seq<Seq<char>> {
        match self.unit.unit_type {
            UnitType::Service => if self.service is None {
                seq!["Service unit requires [service] section"@]
            } else {
                seq![]
            },
            UnitType::Target => if self.target is None {
                seq!["Target unit requires [target] section"@]
            } else {
                seq![]
            },
        }
    }

    /// One message for each blank name that the unit declares.
    pub open spec fn dependency_violations(self) -> Seq<Seq<char>> {
        Seq::new(
            blank_count(self.dependency.needs_before + self.dependency.needs_after),
            |i: int| "Dependency name cannot be empty"@,
        )
    }

    /// Every rule that the unit breaks, as a message: name, path, section,
    /// then the declared names.
    pub open spec fn violations(self) -> Seq<Seq<char>> {
        self.name_violations() + self.path_violations() + self.section_violations()
            + self.dependency_violations()
    }
}

/// No name of `names` is blank exactly when the count of blank names is zero.
pub proof fn lemma_blank_count_zero(names: Seq<Seq<char>>)
    ensures
        blank_count(names) == 0 <==> forall|k: int| 0 <= k < names.len() ==> !is_blank(#[trigger] names[k]),
    decreases names.len(),
{
    if names.len() > 0 {
        let shorter = names.drop_last();
        lemma_blank_count_zero(shorter);
        if blank_count(names) == 0 {
            assert forall|k: int| 0 <= k < names.len() implies !is_blank(#[trigger] names[k]) by {
                if k < shorter.len() {
                    assert(shorter[k] == names[k]);
                }
            }
        } else if !is_blank(names.last()) {
            let k = choose|k: int| 0 <= k < shorter.len() && is_blank(#[trigger] shorter[k]);
            assert(names[k] == shorter[k]);
        }
    }
}

/// A unit is valid exactly when it breaks no rule.
pub proof fn lemma_valid_iff_no_violation(unit: UnitFileView)
    ensures
        unit.is_valid() <==> unit.violations().len() == 0,
{
    let before = unit.dependency.needs_before;
    let after = unit.dependency.needs_after;
    let names = before + after;
    lemma_blank_count_zero(names);
    if blank_count(names) == 0 {
        assert forall|k: int| 0 <= k < before.len() implies !is_blank(#[trigger] before[k]) by {
            assert(names[k] == before[k]);
        }
        assert forall|k: int| 0 <= k < after.len() implies !is_blank(#[trigger] after[k]) by {
            assert(names[before.len() + k] == after[k]);
        }
    } else {
        let k = choose|k: int| 0 <= k < names.len() && is_blank(#[trigger] names[k]);
        if k < before.len() {
            assert(names[k] == before[k]);
        } else {
            assert(names[k] == after[k - before.len()]);
        }
    }
}

impl UnitFile {
    /// Checks the unit against every rule and reports all that it breaks,
    /// not only the first.
    pub fn validate(&self) -> (result: Result<(), Vec<String>>)
        ensures
            (result is Ok) <==> self@.is_valid(),
            result matches Err(errors) ==> texts(errors@) == self@.violations(),
    {
        let ghost unit = self@;
        let ghost before = unit.dependency.needs_before;
        let ghost after = unit.dependency.needs_after;
        let ghost head = unit.name_violations() + unit.path_violations() + unit.section_violations();
        let mut errors: Vec<String> = Vec::new();
        assert(texts(errors@) == Seq::<Seq<char>>::empty());

        if blank(self.unit.unit_name.as_str()) {
            errors.push("Unit name cannot be empty".to_string());
        }
        assert(texts(errors@) == unit.name_violations());

        if blank(self.todo.path.as_str()) {
            errors.push("Todo path cannot be empty".to_string());
        }
        assert(texts(errors@) == unit.name_violations() + unit.path_violations());

        match self.unit.unit_type {
            UnitType::Service => {
                if self.service.is_none() {
                    errors.push("Service unit requires [service] section".to_string());
                }
            },
            UnitType::Target => {
                if self.target.is_none() {
                    errors.push("Target unit requires [target] section".to_string());
                }
            },
        }
        assert(texts(errors@) == head);

        for k in 0..self.dependency.needs_before.len()
            invariant
                unit == self@,
                before == unit.dependency.needs_before,
                texts(errors@) == head + Seq::new(
                    blank_count(before.take(k as int)),
                    |i: int| "Dependency name cannot be empty"@,
                ),
        {
            let ghost count = blank_count(before.take(k as int));
            let ghost earlier = errors@;
            assert(before.take(k + 1).drop_last() == before.take(k as int));
            assert(before.take(k + 1).last() == self.dependency.needs_before@[k as int]@);
            if blank(self.dependency.needs_before[k].as_str()) {
                errors.push("Dependency name cannot be empty".to_string());
                assert(texts(errors@) == texts(earlier).push("Dependency name cannot be empty"@));
                assert(Seq::new(count + 1, |i: int| "Dependency name cannot be empty"@) == Seq::new(
                    count,
                    |i: int| "Dependency name cannot be empty"@,
                ).push("Dependency name cannot be empty"@));
            }
        }
        assert(before.take(before.len() as int) == before);
        for k in 0..self.dependency.needs_after.len()
            invariant
                unit == self@,
                before == unit.dependency.needs_before,
                after == unit.dependency.needs_after,
                texts(errors@) == head + Seq::new(
                    blank_count(before + after.take(k as int)),
                    |i: int| "Dependency name cannot be empty"@,
                ),
        {
            let ghost count = blank_count(before + after.take(k as int));
            let ghost earlier = errors@;
            assert((before + after.take(k + 1)).drop_last() == before + after.take(k as int));
            assert((before + after.take(k + 1)).last() == self.dependency.needs_after@[k as int]@);
            if blank(self.dependency.needs_after[k].as_str()) {
                errors.push("Dependency name cannot be empty".to_string());
                assert(texts(errors@) == texts(earlier).push("Dependency name cannot be empty"@));
                assert(Seq::new(count + 1, |i: int| "Dependency name cannot be empty"@) == Seq::new(
                    count,
                    |i: int| "Dependency name cannot be empty"@,
                ).push("Dependency name cannot be empty"@));
            }
        }
        assert(after.take(after.len() as int) == after);
        assert(texts(errors@) == unit.violations());
        proof {
            lemma_valid_iff_no_violation(unit);
        }
        if errors.is_empty() {
            Ok(())
        } else {
            Err(errors)
        }
    }
}

} // verus!
