//! What each command of the harness sets in motion.

use vstd::prelude::*;
use crate::catalog::{optional_view, strings_view};

verus! {

/// The commands of the harness.
#[derive(Debug, PartialEq, Eq)]
pub enum TestCommand {
    TestAll,
    TestBackcompat,
    TestBook,
    TestCross,
    TestHost,
    TestLint,
    TestUi,
    /// Run the snapshot cases, or write their goldens anew.
    TestSnapshot {
        /// Write the goldens instead of comparing with them.
        overwrite: bool,
        /// The single case to run.
        single: Option<String>,
    },
}

/// A category of tests.
#[derive(Debug, PartialEq, Eq)]
pub enum Category {
    Host,
    Cross,
    Snapshot { overwrite: bool, single: Option<String> },
    Backcompat,
    Book,
    Lint,
    Ui,
}

/// The mathematical content of a command.
pub enum CommandView {
    TestAll,
    TestBackcompat,
    TestBook,
    TestCross,
    TestHost,
    TestLint,
    TestUi,
    TestSnapshot { overwrite: bool, single: Option<Seq<char>> },
}

/// The mathematical content of a category.
pub enum CategoryView {
    Host,
    Cross,
    Snapshot { overwrite: bool, single: Option<Seq<char>> },
    Backcompat,
    Book,
    Lint,
    Ui,
}

impl View for TestCommand {
    type V = CommandView;

    open spec fn view(&self) -> CommandView {
        match self {
            TestCommand::TestAll => CommandView::TestAll,
            TestCommand::TestBackcompat => CommandView::TestBackcompat,
            TestCommand::TestBook => CommandView::TestBook,
            TestCommand::TestCross => CommandView::TestCross,
            TestCommand::TestHost => CommandView::TestHost,
            TestCommand::TestLint => CommandView::TestLint,
            TestCommand::TestUi => CommandView::TestUi,
            TestCommand::TestSnapshot { overwrite, single } => CommandView::TestSnapshot {
                overwrite: *overwrite,
                single: optional_view(*single),
            },
        }
    }
}

impl View for Category {
    type V = CategoryView;

    open spec fn view(&self) -> CategoryView {
        match self {
            Category::Host => CategoryView::Host,
            Category::Cross => CategoryView::Cross,
            Category::Snapshot { overwrite, single } => CategoryView::Snapshot {
                overwrite: *overwrite,
                single: optional_view(*single),
            },
            Category::Backcompat => CategoryView::Backcompat,
            Category::Book => CategoryView::Book,
            Category::Lint => CategoryView::Lint,
            Category::Ui => CategoryView::Ui,
        }
    }
}

/// The categories held by a vector of categories.
pub open spec fn categories_view(categories: Seq<Category>) -> Seq<CategoryView> {
    Seq::new(categories.len(), |i: int| categories[i]@)
}

/// Whether a command runs anything that is built for another target, so that
/// the targets have to be installed first.
pub open spec fn needs_targets(command: CommandView) -> bool {
    command is TestAll || command is TestCross || command is TestSnapshot
}

/// The categories that a command runs, in order. Everything at once checks
/// all snapshot cases against their goldens, and leaves out the test macros'
/// own tests.
pub open spec fn categories_of(command: CommandView) -> Seq<CategoryView> {
    match command {
        CommandView::TestAll => seq![
            CategoryView::Host,
            CategoryView::Cross,
            CategoryView::Snapshot { overwrite: false, single: None },
            CategoryView::Backcompat,
            CategoryView::Book,
            CategoryView::Lint,
        ],
        CommandView::TestBackcompat => seq![CategoryView::Backcompat],
        CommandView::TestBook => seq![CategoryView::Book],
        CommandView::TestCross => seq![CategoryView::Cross],
        CommandView::TestHost => seq![CategoryView::Host],
        CommandView::TestLint => seq![CategoryView::Lint],
        CommandView::TestUi => seq![CategoryView::Ui],
        CommandView::TestSnapshot { overwrite, single } => seq![
            CategoryView::Snapshot { overwrite, single },
        ],
    }
}

impl TestCommand {
    /// Whether the targets have to be installed before the command runs.
    pub fn needs_targets(&self) -> (needed: bool)
        ensures
            needed == needs_targets(self@),
    {
        match self {
            TestCommand::TestAll => true,
            TestCommand::TestCross => true,
            TestCommand::TestSnapshot { .. } => true,
            _ => false,
        }
    }

    /// The categories that the command runs, in order.
    pub fn categories(self) -> (categories: Vec<Category>)
        ensures
            categories_view(categories@) == categories_of(self@),
    {
        let mut categories: Vec<Category> = Vec::new();
        match self {
            TestCommand::TestAll => {
                categories.push(Category::Host);
                categories.push(Category::Cross);
                categories.push(Category::Snapshot { overwrite: false, single: None });
                categories.push(Category::Backcompat);
                categories.push(Category::Book);
                categories.push(Category::Lint);
            },
            TestCommand::TestBackcompat => {
                categories.push(Category::Backcompat);
            },
            TestCommand::TestBook => {
                categories.push(Category::Book);
            },
            TestCommand::TestCross => {
                categories.push(Category::Cross);
            },
            TestCommand::TestHost => {
                categories.push(Category::Host);
            },
            TestCommand::TestLint => {
                categories.push(Category::Lint);
            },
            TestCommand::TestUi => {
                categories.push(Category::Ui);
            },
            TestCommand::TestSnapshot { overwrite, single } => {
                categories.push(Category::Snapshot { overwrite, single });
            },
        }
        proof {
            assert(categories_view(categories@) =~= categories_of(self@));
        }
        categories
    }
}

/// Whether the targets that were installed for this invocation are removed
/// again at its end: only where some were installed and nobody asked to keep
/// them.
pub fn should_uninstall(keep_targets: bool, installed: usize) -> (remove: bool)
    ensures
        remove == (!keep_targets && installed > 0),
{
    !keep_targets && installed > 0
}

/// Whether `name` is among `names`.
pub open spec fn has_name(names: Seq<Seq<char>>, name: Seq<char>) -> bool {
    exists|i: int| 0 <= i < names.len() && names[i] == name
}

/// Those of `required` that are not among `installed`, in the order of
/// `required`.
pub open spec fn missing_from(required: Seq<Seq<char>>, installed: Seq<Seq<char>>) -> Seq<
    Seq<char>,
>
    decreases required.len(),
{
    if required.len() == 0 {
        Seq::empty()
    } else {
        let before = missing_from(required.drop_last(), installed);
        if has_name(installed, required.last()) {
            before
        } else {
            before.push(required.last())
        }
    }
}

/// Whether `name` is among `names`.
pub fn is_listed(names: &Vec<String>, name: &String) -> (listed: bool)
    ensures
        listed == has_name(strings_view(names@), name@),
{
    let mut i: usize = 0;
    while i < names.len()
        invariant
            i <= names@.len(),
            forall|j: int| 0 <= j < i ==> names@[j]@ != name@,
        decreases names@.len() - i,
    {
        if names[i] == *name {
            proof {
                assert(strings_view(names@)[i as int] == name@);
            }
            return true;
        }
        i = i + 1;
    }
    proof {
        assert forall|j: int| 0 <= j < names@.len() implies strings_view(names@)[j] != name@ by {
            assert(names@[j]@ != name@);
        }
    }
    false
}

/// The targets that have to be installed: those that are required and not
/// there yet.
pub fn missing_targets(required: &Vec<String>, installed: &Vec<String>) -> (missing: Vec<String>)
    ensures
        strings_view(missing@) == missing_from(strings_view(required@), strings_view(installed@)),
{
    let ghost wanted = strings_view(required@);
    let ghost there = strings_view(installed@);
    let mut missing: Vec<String> = Vec::new();
    let mut i: usize = 0;
    proof {
        assert(strings_view(missing@) =~= missing_from(wanted.take(0), there));
    }
    while i < required.len()
        invariant
            i <= required@.len(),
            wanted == strings_view(required@),
            there == strings_view(installed@),
            strings_view(missing@) == missing_from(wanted.take(i as int), there),
        decreases required@.len() - i,
    {
        proof {
            let next = wanted.take(i + 1);
            assert(next.drop_last() == wanted.take(i as int));
            assert(next.last() == required@[i as int]@);
        }
        if !is_listed(installed, &required[i]) {
            let ghost before = strings_view(missing@);
            missing.push(required[i].clone());
            proof {
                assert(strings_view(missing@) =~= before.push(required@[i as int]@));
            }
        }
        i = i + 1;
    }
    proof {
        assert(wanted.take(i as int) == wanted);
    }
    missing
}

} // verus!
