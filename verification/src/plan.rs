//! The fixed command lists of the other test categories.
//!
//! Each category is a heading and a list of steps; a step is a command and the
//! context under which its failure is logged. Running them is the caller's
//! part.

use vstd::prelude::*;
use crate::catalog::strings_view;
use crate::runner::{env_view, Invocation, InvocationView};

verus! {

/// The mathematical content of a step.
pub struct StepView {
    pub context: Seq<char>,
    pub command: InvocationView,
}

/// One command of a category, and the context that its failure is logged under.
#[derive(Debug, PartialEq, Eq)]
pub struct Step {
    pub context: String,
    pub command: Invocation,
}

impl View for Step {
    type V = StepView;

    open spec fn view(&self) -> StepView {
        StepView { context: self.context@, command: self.command@ }
    }
}

/// The steps held by a vector of steps.
pub open spec fn steps_view(steps: Seq<Step>) -> Seq<StepView> {
    Seq::new(steps.len(), |i: int| steps[i]@)
}

/// The mathematical content of a plan.
pub struct PlanView {
    pub heading: Seq<char>,
    pub steps: Seq<StepView>,
}

/// A category of tests: the heading it is announced under, and its steps in
/// the order in which they run.
#[derive(Debug, PartialEq, Eq)]
pub struct Plan {
    pub heading: String,
    pub steps: Vec<Step>,
}

impl View for Plan {
    type V = PlanView;

    open spec fn view(&self) -> PlanView {
        PlanView { heading: self.heading@, steps: steps_view(self.steps@) }
    }
}

/// The strings held by a slice of string slices.
pub open spec fn words_view(words: Seq<&str>) -> Seq<Seq<char>> {
    Seq::new(words.len(), |i: int| words[i]@)
}

/// The step that runs `tool` with `args` in `cwd` under `env`.
pub open spec fn step_of(
    context: Seq<char>,
    tool: Seq<char>,
    args: Seq<Seq<char>>,
    cwd: Option<Seq<char>>,
    env: Seq<(Seq<char>, Seq<char>)>,
) -> StepView {
    StepView { context, command: InvocationView { tool, args, cwd, env } }
}

/// Owned copies of `words`.
pub fn owned_words(words: &[&str]) -> (owned: Vec<String>)
    ensures
        strings_view(owned@) == words_view(words@),
{
    let mut owned: Vec<String> = Vec::new();
    let mut i: usize = 0;
    while i < words.len()
        invariant
            i <= words@.len(),
            owned@.len() == i,
            forall|j: int| 0 <= j < i ==> (#[trigger] owned@[j])@ == words@[j]@,
        decreases words@.len() - i,
    {
        owned.push(String::from_str(words[i]));
        i = i + 1;
    }
    proof {
        assert(strings_view(owned@) =~= words_view(words@));
    }
    owned
}

/// The variables held by a slice of pairs of string slices.
pub open spec fn pairs_view(pairs: Seq<(&str, &str)>) -> Seq<(Seq<char>, Seq<char>)> {
    Seq::new(pairs.len(), |i: int| (pairs[i].0@, pairs[i].1@))
}

/// The content of an optional string slice.
pub open spec fn place_view(place: Option<&str>) -> Option<Seq<char>> {
    match place {
        Some(s) => Some(s@),
        None => None,
    }
}

/// Owned copies of `pairs`.
pub fn owned_pairs(pairs: &[(&str, &str)]) -> (owned: Vec<(String, String)>)
    ensures
        env_view(owned@) == pairs_view(pairs@),
{
    let mut owned: Vec<(String, String)> = Vec::new();
    let mut i: usize = 0;
    while i < pairs.len()
        invariant
            i <= pairs@.len(),
            owned@.len() == i,
            forall|j: int|
                0 <= j < i ==> (#[trigger] owned@[j]).0@ == pairs@[j].0@ && owned@[j].1@
                    == pairs@[j].1@,
        decreases pairs@.len() - i,
    {
        let pair = pairs[i];
        owned.push((String::from_str(pair.0), String::from_str(pair.1)));
        i = i + 1;
    }
    proof {
        assert(env_view(owned@) =~= pairs_view(pairs@));
    }
    owned
}

/// Appends to `steps` the step that runs `tool` with `args` in `cwd` under `env`.
pub fn push_step(
    steps: &mut Vec<Step>,
    context: &str,
    tool: &str,
    args: &[&str],
    cwd: Option<&str>,
    env: &[(&str, &str)],
)
    ensures
        steps_view(final(steps)@) == steps_view(old(steps)@).push(
            step_of(context@, tool@, words_view(args@), place_view(cwd), pairs_view(env@)),
        ),
{
    let place = match cwd {
        Some(dir) => Some(String::from_str(dir)),
        None => None,
    };
    let step = Step {
        context: String::from_str(context),
        command: Invocation {
            tool: String::from_str(tool),
            args: owned_words(args),
            cwd: place,
            env: owned_pairs(env),
        },
    };
    steps.push(step);
    proof {
        assert(steps_view(steps@) =~= steps_view(old(steps)@).push(step@));
    }
}

/// The environment of the host checks: warnings are errors where asked for.
pub open spec fn host_env(deny_warnings: bool) -> Seq<(Seq<char>, Seq<char>)> {
    if deny_warnings {
        seq![("RUSTFLAGS"@, "--deny warnings"@)]
    } else {
        Seq::empty()
    }
}

/// The host category: checks with each feature under `host_env`, then the
/// tests, which never run under it.
pub open spec fn host_plan(deny_warnings: bool) -> PlanView {
    let env = host_env(deny_warnings);
    PlanView {
        heading: "host"@,
        steps: seq![
            step_of("host"@, "cargo"@, seq!["check"@], None, env),
            step_of("host"@, "cargo"@, seq!["check"@, "--features"@, "unstable-test"@], None, env),
            step_of("host"@, "cargo"@, seq!["check"@, "--features"@, "alloc"@], None, env),
            step_of("host"@, "cargo"@, seq!["check"@, "--features"@, "ip_in_core"@], None, env),
            step_of(
                "host"@,
                "cargo"@,
                seq!["test"@, "--features"@, "unstable-test"@],
                None,
                Seq::empty(),
            ),
            step_of(
                "host"@,
                "cargo"@,
                seq!["test"@, "--features"@, "unstable-test,alloc"@],
                None,
                Seq::empty(),
            ),
        ],
    }
}

/// The plan of the host category.
pub fn host(deny_warnings: bool) -> (plan: Plan)
    ensures
        plan@ == host_plan(deny_warnings),
{
    let rustflags: [(&str, &str); 1] = [("RUSTFLAGS", "--deny warnings")];
    let none: [(&str, &str); 0] = [];
    let env: &[(&str, &str)] = if deny_warnings {
        &rustflags
    } else {
        &none
    };
    proof {
        assert(pairs_view(env@) =~= host_env(deny_warnings));
    }
    let mut steps: Vec<Step> = Vec::new();
    push_step(&mut steps, "host", "cargo", &["check"], None, env);
    push_step(&mut steps, "host", "cargo", &["check", "--features", "unstable-test"], None, env);
    push_step(&mut steps, "host", "cargo", &["check", "--features", "alloc"], None, env);
    push_step(&mut steps, "host", "cargo", &["check", "--features", "ip_in_core"], None, env);
    push_step(&mut steps, "host", "cargo", &["test", "--features", "unstable-test"], None, &none);
    push_step(
        &mut steps,
        "host",
        "cargo",
        &["test", "--features", "unstable-test,alloc"],
        None,
        &none,
    );
    let plan = Plan { heading: String::from_str("host"), steps };
    proof {
        let want = host_plan(deny_warnings);
        assert(plan@.steps.len() == want.steps.len());
        assert forall|i: int| 0 <= i < want.steps.len() implies plan@.steps[i] == want.steps[i] by {
            assert(plan@.steps[i].command.args =~= want.steps[i].command.args);
            assert(plan@.steps[i].command.env =~= want.steps[i].command.env);
        }
        assert(plan@.steps =~= want.steps);
    }
    plan
}

/// The targets that the library is checked for.
pub open spec fn cross_targets() -> Seq<Seq<char>> {
    seq!["thumbv6m-none-eabi"@, "thumbv8m.base-none-eabi"@, "riscv32i-unknown-none-elf"@]
}

/// The checks of the library for one target: plain, and with each feature.
pub open spec fn library_checks(target: Seq<char>) -> Seq<StepView> {
    seq![
        step_of(
            "cross"@,
            "cargo"@,
            seq!["check"@, "--target"@, target, "-p"@, "defmt"@],
            None,
            Seq::empty(),
        ),
        step_of(
            "cross"@,
            "cargo"@,
            seq!["check"@, "--target"@, target, "-p"@, "defmt"@, "--features"@, "alloc"@],
            None,
            Seq::empty(),
        ),
        step_of(
            "cross"@,
            "cargo"@,
            seq!["check"@, "--target"@, target, "-p"@, "defmt"@, "--features"@, "ip_in_core"@],
            None,
            Seq::empty(),
        ),
    ]
}

/// The checks of the library for each of `targets`, target by target.
pub open spec fn library_checks_for(targets: Seq<Seq<char>>) -> Seq<StepView>
    decreases targets.len(),
{
    if targets.len() == 0 {
        Seq::empty()
    } else {
        library_checks_for(targets.drop_last()) + library_checks(targets.last())
    }
}

/// The checks of the firmware workspace. The last one is a lint, and is logged
/// as one.
pub open spec fn firmware_checks() -> Seq<StepView> {
    seq![
        step_of(
            "cross"@,
            "cargo"@,
            seq![
                "check"@,
                "--target"@,
                "thumbv6m-none-eabi"@,
                "--workspace"@,
                "--exclude"@,
                "defmt-itm"@,
                "--exclude"@,
                "firmware"@,
            ],
            Some("firmware"@),
            Seq::empty(),
        ),
        step_of(
            "cross"@,
            "cargo"@,
            seq!["check"@, "--target"@, "thumbv7em-none-eabi"@],
            Some("firmware"@),
            Seq::empty(),
        ),
        step_of(
            "cross"@,
            "cargo"@,
            seq!["check"@, "--target"@, "thumbv6m-none-eabi"@, "--features"@, "print-defmt"@],
            Some("firmware/panic-probe"@),
            Seq::empty(),
        ),
        step_of(
            "cross"@,
            "cargo"@,
            seq!["check"@, "--target"@, "thumbv6m-none-eabi"@, "--features"@, "print-rtt"@],
            Some("firmware/panic-probe"@),
            Seq::empty(),
        ),
        step_of(
            "lint"@,
            "cargo"@,
            seq!["clippy"@, "--target"@, "thumbv7m-none-eabi"@, "--"@, "-D"@, "warnings"@],
            Some("firmware/"@),
            Seq::empty(),
        ),
    ]
}

/// The cross category: the library for every target, then the firmware.
pub open spec fn cross_plan() -> PlanView {
    PlanView {
        heading: "cross"@,
        steps: library_checks_for(cross_targets()) + firmware_checks(),
    }
}

/// Appends the checks of the library for `target`.
pub fn push_library_checks(steps: &mut Vec<Step>, target: &str)
    ensures
        steps_view(final(steps)@) == steps_view(old(steps)@) + library_checks(target@),
{
    let none: [(&str, &str); 0] = [];
    push_step(steps, "cross", "cargo", &["check", "--target", target, "-p", "defmt"], None, &none);
    push_step(
        steps,
        "cross",
        "cargo",
        &["check", "--target", target, "-p", "defmt", "--features", "alloc"],
        None,
        &none,
    );
    push_step(
        steps,
        "cross",
        "cargo",
        &["check", "--target", target, "-p", "defmt", "--features", "ip_in_core"],
        None,
        &none,
    );
    proof {
        let got = steps_view(steps@);
        let base = steps_view(old(steps)@);
        let want = library_checks(target@);
        assert(got.len() == base.len() + 3);
        assert forall|i: int| 0 <= i < 3 implies got[base.len() + i] == want[i] by {
            assert(got[base.len() + i].command.args =~= want[i].command.args);
            assert(got[base.len() + i].command.env =~= want[i].command.env);
        }
        assert(got =~= base + want);
    }
}

/// The plan of the cross category.
pub fn cross() -> (plan: Plan)
    ensures
        plan@ == cross_plan(),
{
    let targets: [&str; 3] = [
        "thumbv6m-none-eabi",
        "thumbv8m.base-none-eabi",
        "riscv32i-unknown-none-elf",
    ];
    let none: [(&str, &str); 0] = [];
    let ghost all = words_view(targets@);
    proof {
        assert(all =~= cross_targets());
    }
    let mut steps: Vec<Step> = Vec::new();
    let mut i: usize = 0;
    proof {
        assert(steps_view(steps@) =~= library_checks_for(all.take(0)));
    }
    while i < 3
        invariant
            i <= 3,
            targets@.len() == 3,
            all == words_view(targets@),
            steps_view(steps@) == library_checks_for(all.take(i as int)),
        decreases 3 - i,
    {
        push_library_checks(&mut steps, targets[i]);
        proof {
            let next = all.take(i + 1);
            assert(next.drop_last() == all.take(i as int));
            assert(next.last() == targets@[i as int]@);
        }
        i = i + 1;
    }
    proof {
        assert(all.take(3) == all);
    }
    let ghost base = steps_view(steps@);
    push_step(
        &mut steps,
        "cross",
        "cargo",
        &[
            "check",
            "--target",
            "thumbv6m-none-eabi",
            "--workspace",
            "--exclude",
            "defmt-itm",
            "--exclude",
            "firmware",
        ],
        Some("firmware"),
        &none,
    );
    push_step(
        &mut steps,
        "cross",
        "cargo",
        &["check", "--target", "thumbv7em-none-eabi"],
        Some("firmware"),
        &none,
    );
    push_step(
        &mut steps,
        "cross",
        "cargo",
        &["check", "--target", "thumbv6m-none-eabi", "--features", "print-defmt"],
        Some("firmware/panic-probe"),
        &none,
    );
    push_step(
        &mut steps,
        "cross",
        "cargo",
        &["check", "--target", "thumbv6m-none-eabi", "--features", "print-rtt"],
        Some("firmware/panic-probe"),
        &none,
    );
    push_step(
        &mut steps,
        "lint",
        "cargo",
        &["clippy", "--target", "thumbv7m-none-eabi", "--", "-D", "warnings"],
        Some("firmware/"),
        &none,
    );
    proof {
        let got = steps_view(steps@);
        let want = firmware_checks();
        assert(got.len() == base.len() + 5);
        assert forall|k: int| 0 <= k < 5 implies got[base.len() + k] == want[k] by {
            assert(got[base.len() + k].command.args =~= want[k].command.args);
            assert(got[base.len() + k].command.env =~= want[k].command.env);
        }
        assert(got =~= base + want);
    }
    Plan { heading: String::from_str("cross"), steps }
}

/// The book category: a clean build of what the book's examples link
/// against, then the book's own tests.
pub open spec fn book_plan() -> PlanView {
    PlanView {
        heading: "book"@,
        steps: seq![
            step_of("book"@, "cargo"@, seq!["clean"@], None, Seq::empty()),
            step_of(
                "book"@,
                "cargo"@,
                seq![
                    "build"@,
                    "-p"@,
                    "defmt"@,
                    "-p"@,
                    "defmt-decoder"@,
                    "--features"@,
                    "unstable-test"@,
                ],
                None,
                Seq::empty(),
            ),
            step_of(
                "book"@,
                "cargo"@,
                seq!["build"@, "-p"@, "cortex-m"@],
                Some("firmware"@),
                Seq::empty(),
            ),
            step_of(
                "book"@,
                "mdbook"@,
                seq![
                    "test"@,
                    "-L"@,
                    "../target/debug"@,
                    "-L"@,
                    "../target/debug/deps"@,
                    "-L"@,
                    "../firmware/target/debug"@,
                    "-L"@,
                    "../firmware/target/debug/deps"@,
                ],
                Some("book"@),
                seq![("CARGO_CRATE_NAME"@, "krate"@)],
            ),
        ],
    }
}

/// The plan of the book category.
pub fn book() -> (plan: Plan)
    ensures
        plan@ == book_plan(),
{
    let none: [(&str, &str); 0] = [];
    let mut steps: Vec<Step> = Vec::new();
    push_step(&mut steps, "book", "cargo", &["clean"], None, &none);
    push_step(
        &mut steps,
        "book",
        "cargo",
        &["build", "-p", "defmt", "-p", "defmt-decoder", "--features", "unstable-test"],
        None,
        &none,
    );
    push_step(&mut steps, "book", "cargo", &["build", "-p", "cortex-m"], Some("firmware"), &none);
    // The logging macros read this variable, and only the build tool sets it.
    push_step(
        &mut steps,
        "book",
        "mdbook",
        &[
            "test",
            "-L",
            "../target/debug",
            "-L",
            "../target/debug/deps",
            "-L",
            "../firmware/target/debug",
            "-L",
            "../firmware/target/debug/deps",
        ],
        Some("book"),
        &[("CARGO_CRATE_NAME", "krate")],
    );
    let plan = Plan { heading: String::from_str("book"), steps };
    proof {
        let want = book_plan();
        assert(plan@.steps.len() == want.steps.len());
        assert forall|i: int| 0 <= i < want.steps.len() implies plan@.steps[i] == want.steps[i] by {
            assert(plan@.steps[i].command.args =~= want.steps[i].command.args);
            assert(plan@.steps[i].command.env =~= want.steps[i].command.env);
        }
        assert(plan@.steps =~= want.steps);
    }
    plan
}

/// The lint category: formatting of both workspaces, then the linter.
pub open spec fn lint_plan() -> PlanView {
    PlanView {
        heading: "lint"@,
        steps: seq![
            step_of("lint"@, "cargo"@, seq!["fmt"@, "--"@, "--check"@], None, Seq::empty()),
            step_of(
                "lint"@,
                "cargo"@,
                seq!["fmt"@, "--"@, "--check"@],
                Some("firmware/"@),
                Seq::empty(),
            ),
            step_of(
                "lint"@,
                "cargo"@,
                seq!["clippy"@, "--"@, "-D"@, "warnings"@],
                None,
                Seq::empty(),
            ),
        ],
    }
}

/// The plan of the lint category.
pub fn lint() -> (plan: Plan)
    ensures
        plan@ == lint_plan(),
{
    let none: [(&str, &str); 0] = [];
    let mut steps: Vec<Step> = Vec::new();
    push_step(&mut steps, "lint", "cargo", &["fmt", "--", "--check"], None, &none);
    push_step(&mut steps, "lint", "cargo", &["fmt", "--", "--check"], Some("firmware/"), &none);
    push_step(&mut steps, "lint", "cargo", &["clippy", "--", "-D", "warnings"], None, &none);
    let plan = Plan { heading: String::from_str("lint"), steps };
    proof {
        let want = lint_plan();
        assert(plan@.steps.len() == want.steps.len());
        assert forall|i: int| 0 <= i < want.steps.len() implies plan@.steps[i] == want.steps[i] by {
            assert(plan@.steps[i].command.args =~= want.steps[i].command.args);
            assert(plan@.steps[i].command.env =~= want.steps[i].command.env);
        }
        assert(plan@.steps =~= want.steps);
    }
    plan
}

/// The category of the test macros' own tests. It is announced under the
/// heading of the lints and logged under a context of its own.
pub open spec fn ui_plan() -> PlanView {
    PlanView {
        heading: "lint"@,
        steps: seq![
            step_of(
                "ui"@,
                "cargo"@,
                seq!["test"@],
                Some("firmware/defmt-test/macros"@),
                Seq::empty(),
            ),
        ],
    }
}

/// The plan of the test macros' own tests.
pub fn ui() -> (plan: Plan)
    ensures
        plan@ == ui_plan(),
{
    let none: [(&str, &str); 0] = [];
    let mut steps: Vec<Step> = Vec::new();
    push_step(&mut steps, "ui", "cargo", &["test"], Some("firmware/defmt-test/macros"), &none);
    let plan = Plan { heading: String::from_str("lint"), steps };
    proof {
        let want = ui_plan();
        assert(plan@.steps[0].command.args =~= want.steps[0].command.args);
        assert(plan@.steps[0].command.env =~= want.steps[0].command.env);
        assert(plan@.steps =~= want.steps);
    }
    plan
}

} // verus!
