use xtask::plan::{
    book, cross, host, lint, owned_pairs, owned_words, push_library_checks, push_step, ui, Step,
};
use xtask::runner::Invocation;

fn step(context: &str, tool: &str, args: &[&str], cwd: Option<&str>, env: &[(&str, &str)]) -> Step {
    Step {
        context: context.to_string(),
        command: Invocation {
            tool: tool.to_string(),
            args: args.iter().map(|a| a.to_string()).collect(),
            cwd: cwd.map(|c| c.to_string()),
            env: env.iter().map(|(k, v)| (k.to_string(), v.to_string())).collect(),
        },
    }
}

#[test]
fn host_plan_without_denied_warnings() {
    let plan = host(false);
    assert_eq!(plan.heading, "host");
    assert_eq!(
        plan.steps,
        vec![
            step("host", "cargo", &["check"], None, &[]),
            step("host", "cargo", &["check", "--features", "unstable-test"], None, &[]),
            step("host", "cargo", &["check", "--features", "alloc"], None, &[]),
            step("host", "cargo", &["check", "--features", "ip_in_core"], None, &[]),
            step("host", "cargo", &["test", "--features", "unstable-test"], None, &[]),
            step("host", "cargo", &["test", "--features", "unstable-test,alloc"], None, &[]),
        ]
    );
}

#[test]
fn host_plan_denies_warnings_in_checks_only() {
    let deny: [(&str, &str); 1] = [("RUSTFLAGS", "--deny warnings")];
    let plan = host(true);
    assert_eq!(
        plan.steps,
        vec![
            step("host", "cargo", &["check"], None, &deny),
            step("host", "cargo", &["check", "--features", "unstable-test"], None, &deny),
            step("host", "cargo", &["check", "--features", "alloc"], None, &deny),
            step("host", "cargo", &["check", "--features", "ip_in_core"], None, &deny),
            step("host", "cargo", &["test", "--features", "unstable-test"], None, &[]),
            step("host", "cargo", &["test", "--features", "unstable-test,alloc"], None, &[]),
        ]
    );
}

#[test]
fn cross_plan_checks_each_target_then_the_firmware() {
    let plan = cross();
    assert_eq!(plan.heading, "cross");
    let mut expected: Vec<Step> = Vec::new();
    for target in ["thumbv6m-none-eabi", "thumbv8m.base-none-eabi", "riscv32i-unknown-none-elf"] {
        expected.push(step(
            "cross",
            "cargo",
            &["check", "--target", target, "-p", "defmt"],
            None,
            &[],
        ));
        expected.push(step(
            "cross",
            "cargo",
            &["check", "--target", target, "-p", "defmt", "--features", "alloc"],
            None,
            &[],
        ));
        expected.push(step(
            "cross",
            "cargo",
            &["check", "--target", target, "-p", "defmt", "--features", "ip_in_core"],
            None,
            &[],
        ));
    }
    expected.push(step(
        "cross",
        "cargo",
        &[
            "check",
            "--target",
            "thumbv6m-none-eabi",
            "--workspace",
            "--exclude",
            "defmt-itm",
            "--exclude",
            "firmware",
        ],
        Some("firmware"),
        &[],
    ));
    expected.push(step(
        "cross",
        "cargo",
        &["check", "--target", "thumbv7em-none-eabi"],
        Some("firmware"),
        &[],
    ));
    expected.push(step(
        "cross",
        "cargo",
        &["check", "--target", "thumbv6m-none-eabi", "--features", "print-defmt"],
        Some("firmware/panic-probe"),
        &[],
    ));
    expected.push(step(
        "cross",
        "cargo",
        &["check", "--target", "thumbv6m-none-eabi", "--features", "print-rtt"],
        Some("firmware/panic-probe"),
        &[],
    ));
    expected.push(step(
        "lint",
        "cargo",
        &["clippy", "--target", "thumbv7m-none-eabi", "--", "-D", "warnings"],
        Some("firmware/"),
        &[],
    ));
    assert_eq!(plan.steps.len(), 14);
    assert_eq!(plan.steps, expected);
}

#[test]
fn book_plan_builds_then_tests_the_book() {
    let plan = book();
    assert_eq!(plan.heading, "book");
    assert_eq!(
        plan.steps,
        vec![
            step("book", "cargo", &["clean"], None, &[]),
            step(
                "book",
                "cargo",
                &["build", "-p", "defmt", "-p", "defmt-decoder", "--features", "unstable-test"],
                None,
                &[],
            ),
            step("book", "cargo", &["build", "-p", "cortex-m"], Some("firmware"), &[]),
            step(
                "book",
                "mdbook",
                &[
                    "test",
                    "-L",
                    "../target/debug",
                    "-L",
                    "../target/debug/deps",
                    "-L",
                    "../firmware/target/debug",
                    "-L",
                    "../firmware/target/debug/deps",
                ],
                Some("book"),
                &[("CARGO_CRATE_NAME", "krate")],
            ),
        ]
    );
}

#[test]
fn lint_plan_formats_both_workspaces_then_lints() {
    let plan = lint();
    assert_eq!(plan.heading, "lint");
    assert_eq!(
        plan.steps,
        vec![
            step("lint", "cargo", &["fmt", "--", "--check"], None, &[]),
            step("lint", "cargo", &["fmt", "--", "--check"], Some("firmware/"), &[]),
            step("lint", "cargo", &["clippy", "--", "-D", "warnings"], None, &[]),
        ]
    );
}

#[test]
fn ui_plan_runs_under_the_lint_heading() {
    let plan = ui();
    assert_eq!(plan.heading, "lint");
    assert_eq!(
        plan.steps,
        vec![step("ui", "cargo", &["test"], Some("firmware/defmt-test/macros"), &[])]
    );
}

#[test]
fn push_step_appends_one_step() {
    let mut steps = vec![step("a", "b", &[], None, &[])];
    push_step(&mut steps, "ctx", "tool", &["x", "y"], Some("dir"), &[("K", "V")]);
    assert_eq!(
        steps,
        vec![
            step("a", "b", &[], None, &[]),
            step("ctx", "tool", &["x", "y"], Some("dir"), &[("K", "V")]),
        ]
    );
}

#[test]
fn push_library_checks_appends_three() {
    let mut steps: Vec<Step> = Vec::new();
    push_library_checks(&mut steps, "t");
    assert_eq!(
        steps,
        vec![
            step("cross", "cargo", &["check", "--target", "t", "-p", "defmt"], None, &[]),
            step(
                "cross",
                "cargo",
                &["check", "--target", "t", "-p", "defmt", "--features", "alloc"],
                None,
                &[],
            ),
            step(
                "cross",
                "cargo",
                &["check", "--target", "t", "-p", "defmt", "--features", "ip_in_core"],
                None,
                &[],
            ),
        ]
    );
}

#[test]
fn owned_copies_keep_order() {
    assert_eq!(owned_words(&["a", "b"]), vec!["a".to_string(), "b".to_string()]);
    assert_eq!(
        owned_pairs(&[("K", "V"), ("L", "W")]),
        vec![("K".to_string(), "V".to_string()), ("L".to_string(), "W".to_string())]
    );
}
