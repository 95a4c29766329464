use xtask::catalog::{
    copy_optional, copy_strings, position_before, Catalog, SnapshotCase, SnapshotError,
};

fn three_cases() -> Vec<SnapshotCase> {
    vec![
        SnapshotCase::new("basic-log", "snapshots/basic-log", "snapshots/basic-log/expected.out"),
        SnapshotCase::new("panic-demo", "snapshots/panic-demo", "snapshots/panic-demo/expected.out"),
        SnapshotCase::new("alloc", "snapshots/alloc", "snapshots/alloc/expected.out")
            .with_feature("alloc")
            .with_target("thumbv7m-none-eabi"),
    ]
}

#[test]
fn case_holds_what_it_was_made_with() {
    let case = SnapshotCase::new("basic-log", "fixtures/basic", "goldens/basic.out");
    assert_eq!(case.name, "basic-log");
    assert_eq!(case.fixture, "fixtures/basic");
    assert_eq!(case.golden, "goldens/basic.out");
    assert!(case.features.is_empty());
    assert_eq!(case.target, None);
}

#[test]
fn case_builders_add_configuration() {
    let case = SnapshotCase::new("a", "f", "g")
        .with_feature("alloc")
        .with_feature("ip_in_core")
        .with_target("thumbv6m-none-eabi");
    assert_eq!(case.features, vec!["alloc".to_string(), "ip_in_core".to_string()]);
    assert_eq!(case.target, Some("thumbv6m-none-eabi".to_string()));
    assert_eq!(case.name, "a");
}

#[test]
fn duplicate_is_an_equal_case() {
    let case = SnapshotCase::new("a", "f", "g").with_feature("x").with_target("t");
    assert_eq!(case.duplicate(), case);
}

#[test]
fn copies_are_equal() {
    let strings = vec!["a".to_string(), "b".to_string()];
    assert_eq!(copy_strings(&strings), strings);
    assert_eq!(copy_optional(&Some("x".to_string())), Some("x".to_string()));
    assert_eq!(copy_optional(&None), None);
}

#[test]
fn catalog_keeps_the_declared_order() {
    let catalog = Catalog::new(three_cases()).expect("distinct names");
    assert_eq!(catalog.len(), 3);
    assert_eq!(
        catalog.names(),
        vec!["basic-log".to_string(), "panic-demo".to_string(), "alloc".to_string()]
    );
    assert_eq!(catalog.cases(), &three_cases());
}

#[test]
fn catalog_refuses_a_repeated_name() {
    let mut cases = three_cases();
    cases.push(SnapshotCase::new("panic-demo", "elsewhere", "elsewhere/expected.out"));
    cases.push(SnapshotCase::new("basic-log", "elsewhere", "elsewhere/expected.out"));
    assert_eq!(
        Catalog::new(cases).err(),
        Some(SnapshotError::DuplicateCase("panic-demo".to_string()))
    );
}

#[test]
fn empty_catalog_is_a_catalog() {
    let catalog = Catalog::new(Vec::new()).expect("nothing repeats");
    assert_eq!(catalog.len(), 0);
    assert!(catalog.names().is_empty());
    assert_eq!(catalog.select(None), Ok(Vec::new()));
}

#[test]
fn lookup_finds_by_exact_name() {
    let catalog = Catalog::new(three_cases()).expect("distinct names");
    let found = catalog.lookup("panic-demo").expect("a known name");
    assert_eq!(found.fixture, "snapshots/panic-demo");
    assert!(catalog.contains("alloc"));
}

#[test]
fn lookup_rejects_what_is_not_in_the_catalog() {
    let catalog = Catalog::new(three_cases()).expect("distinct names");
    assert_eq!(
        catalog.lookup("missing").err(),
        Some(SnapshotError::UnknownCase("missing".to_string()))
    );
    assert_eq!(
        catalog.lookup("Basic-Log").err(),
        Some(SnapshotError::UnknownCase("Basic-Log".to_string()))
    );
    assert_eq!(catalog.lookup("").err(), Some(SnapshotError::UnknownCase(String::new())));
    assert!(!catalog.contains("basic"));
}

#[test]
fn select_all_or_one() {
    let catalog = Catalog::new(three_cases()).expect("distinct names");
    assert_eq!(catalog.select(None), Ok(three_cases()));
    let one = catalog.select(Some("alloc")).expect("a known name");
    assert_eq!(one.len(), 1);
    assert_eq!(one[0], three_cases().remove(2));
    assert_eq!(
        catalog.select(Some("nope")),
        Err(SnapshotError::UnknownCase("nope".to_string()))
    );
}

#[test]
fn position_before_finds_the_first_of_a_name() {
    let cases = three_cases();
    assert_eq!(position_before(&cases, 3, &"panic-demo".to_string()), Some(1));
    assert_eq!(position_before(&cases, 1, &"panic-demo".to_string()), None);
    assert_eq!(position_before(&cases, 0, &"basic-log".to_string()), None);
}

#[test]
fn firmware_catalog_lists_the_pinned_examples() {
    let catalog = Catalog::firmware();
    assert_eq!(
        catalog.names(),
        vec![
            "log",
            "bitflags",
            "timestamp",
            "panic",
            "assert",
            "assert-eq",
            "assert-ne",
            "unwrap",
            "defmt-test",
            "hints",
            "hints_inner",
            "dbg",
        ]
    );
    let case = catalog.lookup("assert-eq").expect("a firmware example");
    assert_eq!(case.fixture, "firmware/qemu/assert-eq");
    assert_eq!(case.golden, "firmware/qemu/assert-eq/expected.out");
    assert!(case.features.is_empty());
    assert_eq!(case.target, None);
}

#[test]
fn errors_say_what_is_wrong() {
    assert_eq!(
        SnapshotError::UnknownCase("nope".to_string()).message(),
        "unknown snapshot case: nope"
    );
    assert_eq!(
        SnapshotError::DuplicateCase("log".to_string()).message(),
        "duplicate snapshot case: log"
    );
}
