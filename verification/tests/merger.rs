use writeme::converter::{
    copy_contributors, copy_dependencies, copy_text, same_optional_text, Contributor,
    Contributors, ConverterOutput, Dependencies, Dependency, License, Repository,
    RepositoryPlatform,
};
use writeme::merger::{
    same_contributor, Choices, FieldMerge, MergePlan, Mergeable, Merger, TextField,
};

fn text(s: &str) -> Option<String> {
    Some(s.to_string())
}

fn person(name: &str) -> Contributor {
    Contributor { name: text(name), email: text(&format!("{}@x", name)), url: None }
}

fn no_choices() -> Choices {
    Choices { name: None, description: None, version: None, contributors: None }
}

fn record(name: Option<&str>, description: Option<&str>, version: Option<&str>) -> ConverterOutput {
    let mut r = ConverterOutput::empty();
    r.name = name.map(|s| s.to_string());
    r.description = description.map(|s| s.to_string());
    r.version = version.map(|s| s.to_string());
    r
}

fn full_record() -> ConverterOutput {
    ConverterOutput {
        source_config_file_path: text("package.json"),
        name: text("app"),
        description: text("An app"),
        version: text("1.0.0"),
        contributors: Some(vec![person("alice")]),
        repository: Some(Repository {
            url: "https://github.com/o/app".to_string(),
            platform: RepositoryPlatform::Github,
            name: text("app"),
        }),
        license: Some(License { kind: "MIT".to_string(), holder: None, year: text("2020") }),
        dependencies: Some(vec![Dependency { name: "react".to_string(), version: None }]),
    }
}

#[test]
fn field_without_values_is_absent() {
    let merger = Merger::new();
    let values: Vec<Option<String>> = vec![None, None];
    assert_eq!(merger.merge_field("name", values), FieldMerge::Absent);
    let values: Vec<Option<String>> = vec![];
    assert_eq!(merger.merge_field("name", values), FieldMerge::Absent);
}

#[test]
fn field_with_one_value_needs_no_choice() {
    let merger = Merger::new();
    let outcome = merger.merge_field("name", vec![None, text("A"), None]);
    assert_eq!(outcome, FieldMerge::Single("A".to_string()));
    assert!(!outcome.is_conflict());
    assert_eq!(outcome.settle(Some(5)), text("A"));
}

#[test]
fn field_with_two_values_is_a_conflict() {
    let merger = Merger::new();
    let outcome = merger.merge_field("description", vec![text("d1"), None, text("d2")]);
    assert_eq!(
        outcome,
        FieldMerge::Conflict {
            label: "Found conflicting values for field description, select one:".to_string(),
            candidates: vec!["d1".to_string(), "d2".to_string()],
        }
    );
    assert!(outcome.is_conflict());
}

#[test]
fn equal_values_still_ask_but_show_once() {
    let merger = Merger::new();
    let outcome = merger.merge_field("version", vec![text("1.0"), text("1.0")]);
    assert_eq!(
        outcome,
        FieldMerge::Conflict {
            label: "Found conflicting values for field version, select one:".to_string(),
            candidates: vec!["1.0".to_string()],
        }
    );
    assert_eq!(outcome.settle(Some(0)), text("1.0"));
    let outcome = merger.merge_field("v", vec![text("b"), text("a"), text("b"), text("a"), text("c")]);
    match outcome {
        FieldMerge::Conflict { label: _, candidates } => {
            assert_eq!(candidates, vec!["b".to_string(), "a".to_string(), "c".to_string()]);
        },
        _ => panic!("a conflict was expected"),
    }
}

#[test]
fn selection_picks_a_candidate() {
    let conflict = || FieldMerge::Conflict {
        label: "?".to_string(),
        candidates: vec!["a".to_string(), "b".to_string(), "c".to_string()],
    };
    assert_eq!(conflict().settle(Some(0)), text("a"));
    assert_eq!(conflict().settle(Some(1)), text("b"));
    assert_eq!(conflict().settle(Some(2)), text("c"));
}

#[test]
fn missing_or_wrong_selection_takes_the_first() {
    let conflict = || FieldMerge::Conflict {
        label: "?".to_string(),
        candidates: vec!["a".to_string(), "b".to_string()],
    };
    assert_eq!(conflict().settle(None), text("a"));
    assert_eq!(conflict().settle(Some(2)), text("a"));
    assert_eq!(conflict().settle(Some(usize::MAX)), text("a"));
    let absent: FieldMerge<String> = FieldMerge::Absent;
    assert_eq!(absent.settle(Some(0)), None);
    let nothing: FieldMerge<String> =
        FieldMerge::Conflict { label: "?".to_string(), candidates: vec![] };
    assert_eq!(nothing.settle(Some(0)), None);
}

#[test]
fn fields_are_merged_independently() {
    let merger = Merger::new();
    let records = vec![
        record(Some("A"), None, None),
        record(None, Some("d1"), None),
        record(None, Some("d2"), None),
    ];
    let plan = merger.plan(&records);
    assert_eq!(plan.name, FieldMerge::Single("A".to_string()));
    assert!(plan.description.is_conflict());
    assert_eq!(plan.version, FieldMerge::Absent);
    assert_eq!(plan.contributors, FieldMerge::Absent);
    assert_eq!(
        plan.description,
        FieldMerge::Conflict {
            label: "Found conflicting values for field description, select one:".to_string(),
            candidates: vec!["d1".to_string(), "d2".to_string()],
        }
    );
    let first = merger.merge(
        records.clone(),
        &Choices { name: Some(1), description: Some(0), version: Some(1), contributors: Some(1) },
    );
    assert_eq!(first, record(Some("A"), Some("d1"), None));
    let second = merger.merge(records, &Choices { description: Some(1), ..no_choices() });
    assert_eq!(second, record(Some("A"), Some("d2"), None));
}

#[test]
fn choices_of_different_fields_do_not_constrain_each_other() {
    let merger = Merger::new();
    let records = vec![record(Some("a"), Some("about a"), Some("1")), record(
        Some("b"),
        Some("about b"),
        Some("2"),
    )];
    let choices = Choices { name: Some(0), description: Some(1), version: None, contributors: None };
    assert_eq!(merger.merge(records, &choices), record(Some("a"), Some("about b"), Some("1")));
}

#[test]
fn merge_is_idempotent() {
    let merger = Merger::new();
    let a = record(Some("a"), Some("about"), None);
    let mut b = record(Some("b"), None, Some("2"));
    b.contributors = Some(vec![person("bob")]);
    let choices = Choices { name: Some(1), ..no_choices() };
    let once = merger.merge(vec![a, b], &choices);
    let mut expected = record(Some("b"), Some("about"), Some("2"));
    expected.contributors = Some(vec![person("bob")]);
    assert_eq!(once, expected);
    let plan = merger.plan(&vec![once.clone()]);
    assert!(!plan.name.is_conflict());
    assert!(!plan.description.is_conflict());
    assert!(!plan.version.is_conflict());
    assert!(!plan.contributors.is_conflict());
    let wild = Choices { name: Some(7), description: Some(7), version: Some(7), contributors: Some(7) };
    assert_eq!(merger.merge(vec![once.clone()], &wild), once);
}

#[test]
fn merged_record_has_the_four_fields_only() {
    let merger = Merger::new();
    let merged = merger.merge(vec![full_record()], &no_choices());
    assert_eq!(merged.source_config_file_path, None);
    assert_eq!(merged.repository, None);
    assert_eq!(merged.license, None);
    assert_eq!(merged.dependencies, None);
    assert_eq!(merged.name, text("app"));
    assert_eq!(merged.description, text("An app"));
    assert_eq!(merged.version, text("1.0.0"));
    assert_eq!(merged.contributors, Some(vec![person("alice")]));
}

#[test]
fn merge_leaves_sources_untouched() {
    let merger = Merger::new();
    let records = vec![full_record(), record(Some("other"), None, None)];
    let before = records.clone();
    let plan = merger.plan(&records);
    assert_eq!(records, before);
    assert_eq!(records[0].source_config_file_path, text("package.json"));
    assert!(plan.name.is_conflict());
}

#[test]
fn merging_nothing_gives_the_empty_record() {
    let merger = Merger::new();
    assert_eq!(merger.merge(vec![], &no_choices()), ConverterOutput::empty());
}

#[test]
fn contributor_lists_are_merged_like_texts() {
    let merger = Merger::new();
    let mut a = ConverterOutput::empty();
    a.contributors = Some(vec![person("alice"), person("bob")]);
    let mut b = ConverterOutput::empty();
    b.contributors = Some(vec![person("bob")]);
    let mut c = ConverterOutput::empty();
    c.contributors = Some(vec![person("alice"), person("bob")]);
    let records = vec![a, ConverterOutput::empty(), b, c];
    let plan = merger.plan(&records);
    assert_eq!(
        plan.contributors,
        FieldMerge::Conflict {
            label: "Found conflicting values for field contributors, select one:".to_string(),
            candidates: vec![vec![person("alice"), person("bob")], vec![person("bob")]],
        }
    );
    let picked = merger.merge(records.clone(), &Choices { contributors: Some(1), ..no_choices() });
    assert_eq!(picked.contributors, Some(vec![person("bob")]));
    let defaulted = merger.merge(records, &no_choices());
    assert_eq!(defaulted.contributors, Some(vec![person("alice"), person("bob")]));
}

#[test]
fn plan_settles_into_the_record() {
    let plan = MergePlan {
        name: FieldMerge::Single("n".to_string()),
        description: FieldMerge::Absent,
        version: FieldMerge::Conflict {
            label: "?".to_string(),
            candidates: vec!["1".to_string(), "2".to_string()],
        },
        contributors: FieldMerge::Absent,
    };
    let settled = plan.settle(&Choices { version: Some(1), ..no_choices() });
    assert_eq!(settled, record(Some("n"), None, Some("2")));
}

#[test]
fn values_compare_and_copy() {
    let a = "x".to_string();
    assert!(a.same(&"x".to_string()));
    assert!(!a.same(&"y".to_string()));
    assert_eq!(a.duplicate(), a);
    let list = vec![person("alice"), person("bob")];
    assert!(list.same(&vec![person("alice"), person("bob")]));
    assert!(!list.same(&vec![person("bob"), person("alice")]));
    assert!(!list.same(&vec![person("alice")]));
    assert_eq!(list.duplicate(), list);
    assert_eq!(copy_contributors(&list), list);
    assert_eq!(copy_text(&text("t")), text("t"));
    assert_eq!(copy_text(&None), None);
}

#[test]
fn contributors_compare_in_every_field() {
    let base = person("alice");
    assert!(same_contributor(&base, &person("alice")));
    let mut other = person("alice");
    other.url = text("https://alice.example");
    assert!(!same_contributor(&base, &other));
    let mut other = person("alice");
    other.email = None;
    assert!(!same_contributor(&base, &other));
    assert!(!same_contributor(&base, &person("bob")));
}

#[test]
fn text_fields_have_labels() {
    assert_eq!(TextField::Name.label(), "name");
    assert_eq!(TextField::Description.label(), "description");
    assert_eq!(TextField::Version.label(), "version");
}

#[test]
fn records_can_be_copied() {
    let r = full_record();
    assert_eq!(r.clone(), r);
}

#[test]
fn identity_is_name_and_email() {
    let base = person("alice");
    let mut with_url = person("alice");
    with_url.url = text("https://alice.example");
    assert!(base.same_identity(&with_url));
    assert!(base.same_identity(&person("alice")));
    assert!(!base.same_identity(&person("Alice")));
    let mut other_mail = person("alice");
    other_mail.email = text("ALICE@x");
    assert!(!base.same_identity(&other_mail));
    let mut no_mail = person("alice");
    no_mail.email = None;
    assert!(!base.same_identity(&no_mail));
    assert!(no_mail.same_identity(&no_mail.clone()));
}

#[test]
fn optional_texts_compare() {
    assert!(same_optional_text(&text("a"), &text("a")));
    assert!(same_optional_text(&None, &None));
    assert!(!same_optional_text(&text("a"), &text("b")));
    assert!(!same_optional_text(&text("a"), &None));
    assert!(!same_optional_text(&None, &text("")));
}

#[test]
fn lists_can_be_copied() {
    let people: Contributors = vec![person("alice"), person("bob")];
    assert_eq!(copy_contributors(&people), people);
    let needs: Dependencies = vec![
        Dependency { name: "react".to_string(), version: text("^18") },
        Dependency { name: "vue".to_string(), version: None },
    ];
    assert_eq!(copy_dependencies(&needs), needs);
    assert_eq!(copy_dependencies(&vec![]), vec![]);
}
