use xtask::dispatch::{is_listed, missing_targets, should_uninstall, Category, TestCommand};

#[test]
fn everything_runs_the_categories_in_order_without_the_macro_tests() {
    assert_eq!(
        TestCommand::TestAll.categories(),
        vec![
            Category::Host,
            Category::Cross,
            Category::Snapshot { overwrite: false, single: None },
            Category::Backcompat,
            Category::Book,
            Category::Lint,
        ]
    );
}

#[test]
fn each_command_runs_its_category() {
    assert_eq!(TestCommand::TestBackcompat.categories(), vec![Category::Backcompat]);
    assert_eq!(TestCommand::TestBook.categories(), vec![Category::Book]);
    assert_eq!(TestCommand::TestCross.categories(), vec![Category::Cross]);
    assert_eq!(TestCommand::TestHost.categories(), vec![Category::Host]);
    assert_eq!(TestCommand::TestLint.categories(), vec![Category::Lint]);
    assert_eq!(TestCommand::TestUi.categories(), vec![Category::Ui]);
    assert_eq!(
        TestCommand::TestSnapshot { overwrite: true, single: Some("log".to_string()) }.categories(),
        vec![Category::Snapshot { overwrite: true, single: Some("log".to_string()) }]
    );
}

#[test]
fn only_what_is_built_for_other_targets_needs_them() {
    assert!(TestCommand::TestAll.needs_targets());
    assert!(TestCommand::TestCross.needs_targets());
    assert!(TestCommand::TestSnapshot { overwrite: false, single: None }.needs_targets());
    assert!(!TestCommand::TestBackcompat.needs_targets());
    assert!(!TestCommand::TestBook.needs_targets());
    assert!(!TestCommand::TestHost.needs_targets());
    assert!(!TestCommand::TestLint.needs_targets());
    assert!(!TestCommand::TestUi.needs_targets());
}

#[test]
fn targets_are_removed_only_if_some_were_added_and_none_are_kept() {
    assert!(should_uninstall(false, 2));
    assert!(!should_uninstall(true, 2));
    assert!(!should_uninstall(false, 0));
    assert!(!should_uninstall(true, 0));
}

#[test]
fn missing_targets_are_the_required_ones_not_installed() {
    let required = vec!["a".to_string(), "b".to_string(), "c".to_string()];
    let installed = vec!["x".to_string(), "b".to_string()];
    assert_eq!(missing_targets(&required, &installed), vec!["a".to_string(), "c".to_string()]);
    assert_eq!(missing_targets(&required, &required), Vec::<String>::new());
    assert_eq!(missing_targets(&required, &Vec::new()), required);
    assert!(is_listed(&installed, &"b".to_string()));
    assert!(!is_listed(&installed, &"a".to_string()));
}
