//! The closed catalog of snapshot cases.
//!
//! A catalog is made once, from a list of cases whose names are all different,
//! and is never extended afterwards.

use vstd::prelude::*;

verus! {

/// The mathematical content of a case.
pub struct CaseView {
    pub name: Seq<char>,
    pub fixture: Seq<char>,
    pub golden: Seq<char>,
    pub features: Seq<Seq<char>>,
    pub target: Option<Seq<char>>,
}

/// The strings held by a vector of strings.
pub open spec fn strings_view(strings: Seq<String>) -> Seq<Seq<char>> {
    Seq::new(strings.len(), |i: int| strings[i]@)
}

/// The content of an optional string.
pub open spec fn optional_view(text: Option<String>) -> Option<Seq<char>> {
    match text {
        Some(s) => Some(s@),
        None => None,
    }
}

/// One entry of the catalog: a fixture to build and run, and the golden that
/// its output is held against.
#[derive(Debug, PartialEq, Eq)]
pub struct SnapshotCase {
    /// The unique name, which is also what is given on the command line.
    pub name: String,
    /// The directory that holds the buildable fixture.
    pub fixture: String,
    /// The path of the expected output.
    pub golden: String,
    /// Feature flags to build the fixture with.
    pub features: Vec<String>,
    /// The target to build for, where it is not the host.
    pub target: Option<String>,
}

impl View for SnapshotCase {
    type V = CaseView;

    open spec fn view(&self) -> CaseView {
        CaseView {
            name: self.name@,
            fixture: self.fixture@,
            golden: self.golden@,
            features: strings_view(self.features@),
            target: optional_view(self.target),
        }
    }
}

/// A copy of a list of strings.
pub fn copy_strings(strings: &Vec<String>) -> (copy: Vec<String>)
    ensures
        strings_view(copy@) == strings_view(strings@),
{
    let mut copy: Vec<String> = Vec::new();
    let mut i: usize = 0;
    while i < strings.len()
        invariant
            i <= strings@.len(),
            copy@.len() == i,
            forall|j: int| 0 <= j < i ==> (#[trigger] copy@[j])@ == strings@[j]@,
        decreases strings@.len() - i,
    {
        copy.push(strings[i].clone());
        i = i + 1;
    }
    proof {
        assert(strings_view(copy@) =~= strings_view(strings@));
    }
    copy
}

/// A copy of an optional string.
pub fn copy_optional(text: &Option<String>) -> (copy: Option<String>)
    ensures
        optional_view(copy) == optional_view(*text),
{
    match text {
        Some(s) => Some(s.clone()),
        None => None,
    }
}

impl SnapshotCase {
    /// A case with no features, built for the host.
    pub fn new(name: &str, fixture: &str, golden: &str) -> (case: SnapshotCase)
        ensures
            case@ == (CaseView {
                name: name@,
                fixture: fixture@,
                golden: golden@,
                features: Seq::empty(),
                target: None,
            }),
    {
        let case = SnapshotCase {
            name: String::from_str(name),
            fixture: String::from_str(fixture),
            golden: String::from_str(golden),
            features: Vec::new(),
            target: None,
        };
        proof {
            assert(strings_view(case.features@) =~= Seq::<Seq<char>>::empty());
        }
        case
    }

    /// The same case, built with one more feature.
    pub fn with_feature(self, feature: &str) -> (case: SnapshotCase)
        ensures
            case@ == (CaseView { features: self@.features.push(feature@), ..self@ }),
    {
        let ghost before = strings_view(self.features@);
        let mut features = self.features;
        features.push(String::from_str(feature));
        proof {
            assert(strings_view(features@) =~= before.push(feature@));
        }
        SnapshotCase {
            name: self.name,
            fixture: self.fixture,
            golden: self.golden,
            features,
            target: self.target,
        }
    }

    /// The same case, built for `target`.
    pub fn with_target(self, target: &str) -> (case: SnapshotCase)
        ensures
            case@ == (CaseView { target: Some(target@), ..self@ }),
    {
        SnapshotCase {
            name: self.name,
            fixture: self.fixture,
            golden: self.golden,
            features: self.features,
            target: Some(String::from_str(target)),
        }
    }

    /// A copy of the case.
    pub fn duplicate(&self) -> (copy: SnapshotCase)
        ensures
            copy@ == self@,
    {
        SnapshotCase {
            name: self.name.clone(),
            fixture: self.fixture.clone(),
            golden: self.golden.clone(),
            features: copy_strings(&self.features),
            target: copy_optional(&self.target),
        }
    }
}

/// The cases held by a vector of cases.
pub open spec fn cases_view(cases: Seq<SnapshotCase>) -> Seq<CaseView> {
    Seq::new(cases.len(), |i: int| cases[i]@)
}

/// The names of `cases`, in order.
pub open spec fn names_of(cases: Seq<CaseView>) -> Seq<Seq<char>> {
    Seq::new(cases.len(), |i: int| cases[i].name)
}

/// Whether no two of `cases` share a name.
pub open spec fn distinct_names(cases: Seq<CaseView>) -> bool {
    forall|i: int, j: int|
        0 <= i < j < cases.len() ==> (#[trigger] cases[i]).name != (#[trigger] cases[j]).name
}

/// Whether the case at `index` bears the name of an earlier case.
pub open spec fn repeats_at(cases: Seq<CaseView>, index: int) -> bool {
    exists|i: int| 0 <= i < index && (#[trigger] cases[i]).name == cases[index].name
}

/// The first case of `cases` that is called `name`, if there is one.
pub open spec fn find_case(cases: Seq<CaseView>, name: Seq<char>) -> Option<CaseView>
    decreases cases.len(),
{
    if cases.len() == 0 {
        None
    } else if cases[0].name == name {
        Some(cases[0])
    } else {
        find_case(cases.drop_first(), name)
    }
}

/// `find_case` finds a case exactly when one of that name is in the list, and
/// what it finds is in the list under that name.
pub proof fn lemma_find_case(cases: Seq<CaseView>, name: Seq<char>)
    ensures
        find_case(cases, name) is None <==> forall|i: int|
            0 <= i < cases.len() ==> (#[trigger] cases[i]).name != name,
        find_case(cases, name) matches Some(c) ==> c.name == name && exists|i: int|
            0 <= i < cases.len() && #[trigger] cases[i] == c,
    decreases cases.len(),
{
    if cases.len() == 0 {
    } else if cases[0].name == name {
        assert(cases[0] == cases[0]);
    } else {
        let rest = cases.drop_first();
        lemma_find_case(rest, name);
        match find_case(rest, name) {
            None => {
                assert forall|i: int| 0 <= i < cases.len() implies (#[trigger] cases[i]).name
                    != name by {
                    if i > 0 {
                        assert(rest[i - 1] == cases[i]);
                    }
                }
            },
            Some(c) => {
                let i = choose|i: int| 0 <= i < rest.len() && #[trigger] rest[i] == c;
                assert(cases[i + 1] == c);
            },
        }
    }
}

/// In a list of distinct names, the case found under the name of an entry is
/// that entry.
pub proof fn lemma_find_member(cases: Seq<CaseView>, index: int)
    requires
        distinct_names(cases),
        0 <= index < cases.len(),
    ensures
        find_case(cases, cases[index].name) == Some(cases[index]),
{
    let name = cases[index].name;
    lemma_find_case(cases, name);
    match find_case(cases, name) {
        None => {
            assert(cases[index].name != name);
        },
        Some(c) => {
            let i = choose|i: int| 0 <= i < cases.len() && #[trigger] cases[i] == c;
            if i < index {
                assert(cases[i].name != cases[index].name);
            } else if index < i {
                assert(cases[index].name != cases[i].name);
            }
        },
    }
}

/// Why a catalog or a selection from it is refused.
#[derive(Debug, PartialEq, Eq)]
pub enum SnapshotError {
    /// No case of the catalog bears the requested name.
    UnknownCase(String),
    /// Two cases offered to a catalog bear the same name.
    DuplicateCase(String),
}

/// The mathematical content of an error.
pub enum ErrorView {
    UnknownCase(Seq<char>),
    DuplicateCase(Seq<char>),
}

impl View for SnapshotError {
    type V = ErrorView;

    open spec fn view(&self) -> ErrorView {
        match self {
            SnapshotError::UnknownCase(name) => ErrorView::UnknownCase(name@),
            SnapshotError::DuplicateCase(name) => ErrorView::DuplicateCase(name@),
        }
    }
}

/// What an error says to a reader.
pub open spec fn error_message(error: ErrorView) -> Seq<char> {
    match error {
        ErrorView::UnknownCase(name) => "unknown snapshot case: "@ + name,
        ErrorView::DuplicateCase(name) => "duplicate snapshot case: "@ + name,
    }
}

impl SnapshotError {
    /// The error as a line of text.
    pub fn message(&self) -> (text: String)
        ensures
            text@ == error_message(self@),
    {
        match self {
            SnapshotError::UnknownCase(name) => {
                let mut text = String::from_str("unknown snapshot case: ");
                text.append(name.as_str());
                text
            },
            SnapshotError::DuplicateCase(name) => {
                let mut text = String::from_str("duplicate snapshot case: ");
                text.append(name.as_str());
                text
            },
        }
    }
}

/// The fixed, ordered set of cases.
#[derive(Debug)]
pub struct Catalog {
    cases: Vec<SnapshotCase>,
}

impl View for Catalog {
    type V = Seq<CaseView>;

    closed spec fn view(&self) -> Seq<CaseView> {
        cases_view(self.cases@)
    }
}

/// The position of the first case before `end` that is called `name`.
pub fn position_before(cases: &Vec<SnapshotCase>, end: usize, name: &String) -> (found: Option<
    usize,
>)
    requires
        end <= cases@.len(),
    ensures
        found is None <==> forall|i: int| 0 <= i < end ==> (#[trigger] cases@[i])@.name != name@,
        found matches Some(at) ==> at < end && cases@[at as int]@.name == name@ && forall|i: int|
            0 <= i < at ==> (#[trigger] cases@[i])@.name != name@,
{
    let mut i: usize = 0;
    while i < end
        invariant
            i <= end <= cases@.len(),
            forall|j: int| 0 <= j < i ==> (#[trigger] cases@[j])@.name != name@,
        decreases end - i,
    {
        if cases[i].name == *name {
            return Some(i);
        }
        i = i + 1;
    }
    None
}

impl Catalog {
    #[verifier::type_invariant]
    spec fn inv(self) -> bool {
        distinct_names(cases_view(self.cases@))
    }

    /// Makes the catalog of `cases`, in the order given. It is refused when two
    /// cases share a name; the error then names the first case that repeats an
    /// earlier one.
    pub fn new(cases: Vec<SnapshotCase>) -> (made: Result<Catalog, SnapshotError>)
        ensures
            made is Ok <==> distinct_names(cases_view(cases@)),
            made matches Ok(catalog) ==> catalog@ == cases_view(cases@),
            made matches Err(error) ==> exists|at: int|
                {
                    &&& 0 <= at < cases@.len()
                    &&& #[trigger] repeats_at(cases_view(cases@), at)
                    &&& forall|k: int| 0 <= k < at ==> !repeats_at(cases_view(cases@), k)
                    &&& error@ == ErrorView::DuplicateCase(cases@[at]@.name)
                },
    {
        let ghost all = cases_view(cases@);
        let mut j: usize = 0;
        while j < cases.len()
            invariant
                j <= cases@.len(),
                all == cases_view(cases@),
                forall|k: int| 0 <= k < j ==> !repeats_at(all, k),
            decreases cases@.len() - j,
        {
            match position_before(&cases, j, &cases[j].name) {
                Some(at) => {
                    let name = cases[j].name.clone();
                    proof {
                        assert(all[at as int].name == all[j as int].name);
                        assert(repeats_at(all, j as int));
                        assert(!distinct_names(all));
                    }
                    return Err(SnapshotError::DuplicateCase(name));
                },
                None => {
                    proof {
                        assert forall|i: int| 0 <= i < j implies (#[trigger] all[i]).name
                            != all[j as int].name by {
                            assert(cases@[i]@.name != cases@[j as int]@.name);
                        }
                    }
                },
            }
            j = j + 1;
        }
        proof {
            assert forall|a: int, b: int| 0 <= a < b < all.len() implies (#[trigger] all[a]).name
                != (#[trigger] all[b]).name by {
                assert(!repeats_at(all, b));
            }
        }
        Ok(Catalog { cases })
    }

    /// The number of cases.
    pub fn len(&self) -> (count: usize)
        ensures
            count == self@.len(),
            distinct_names(self@),
    {
        proof {
            use_type_invariant(self);
        }
        self.cases.len()
    }

    /// The cases, in their declared order.
    pub fn cases(&self) -> (cases: &Vec<SnapshotCase>)
        ensures
            cases_view(cases@) == self@,
            distinct_names(self@),
    {
        proof {
            use_type_invariant(self);
        }
        &self.cases
    }

    /// The names of all cases, in their declared order.
    pub fn names(&self) -> (names: Vec<String>)
        ensures
            strings_view(names@) == names_of(self@),
    {
        let mut names: Vec<String> = Vec::new();
        let mut i: usize = 0;
        while i < self.cases.len()
            invariant
                i <= self.cases@.len(),
                names@.len() == i,
                forall|j: int| 0 <= j < i ==> (#[trigger] names@[j])@ == self.cases@[j]@.name,
            decreases self.cases@.len() - i,
        {
            names.push(self.cases[i].name.clone());
            i = i + 1;
        }
        proof {
            assert(strings_view(names@) =~= names_of(self@));
        }
        names
    }

    /// Looks a case up by its exact name.
    pub fn lookup(&self, name: &str) -> (found: Result<&SnapshotCase, SnapshotError>)
        ensures
            match found {
                Ok(case) => find_case(self@, name@) == Some(case@),
                Err(error) => find_case(self@, name@) is None && error@ == ErrorView::UnknownCase(
                    name@,
                ),
            },
    {
        let wanted = String::from_str(name);
        let ghost all = self@;
        let mut i: usize = 0;
        proof {
            assert(all.skip(0) == all);
        }
        while i < self.cases.len()
            invariant
                i <= self.cases@.len(),
                all == cases_view(self.cases@),
                wanted@ == name@,
                find_case(all, name@) == find_case(all.skip(i as int), name@),
            decreases self.cases@.len() - i,
        {
            proof {
                let rest = all.skip(i as int);
                assert(rest[0] == self.cases@[i as int]@);
                assert(rest.drop_first() == all.skip(i + 1));
            }
            if self.cases[i].name == wanted {
                return Ok(&self.cases[i]);
            }
            i = i + 1;
        }
        Err(SnapshotError::UnknownCase(wanted))
    }

    /// Whether the catalog holds a case of that name.
    pub fn contains(&self, name: &str) -> (known: bool)
        ensures
            known == find_case(self@, name@) is Some,
    {
        match self.lookup(name) {
            Ok(_) => true,
            Err(_) => false,
        }
    }

    /// The cases that a run attempts, in order: the one that is named, or all
    /// of them where none is named.
    pub fn select(&self, single: Option<&str>) -> (chosen: Result<Vec<SnapshotCase>, SnapshotError>)
        ensures
            match chosen {
                Ok(cases) => Some(cases_view(cases@)) == selection(self@, optional_name(single)),
                Err(error) => selection(self@, optional_name(single)) is None && optional_name(
                    single,
                ) == Some(error@->UnknownCase_0) && error@ is UnknownCase,
            },
            chosen matches Ok(cases) ==> distinct_names(cases_view(cases@)),
    {
        proof {
            use_type_invariant(self);
        }
        match single {
            Some(name) => {
                match self.lookup(name) {
                    Ok(case) => {
                        let mut cases: Vec<SnapshotCase> = Vec::new();
                        cases.push(case.duplicate());
                        proof {
                            assert(cases_view(cases@) =~= seq![case@]);
                        }
                        Ok(cases)
                    },
                    Err(error) => Err(error),
                }
            },
            None => {
                let mut cases: Vec<SnapshotCase> = Vec::new();
                let mut i: usize = 0;
                while i < self.cases.len()
                    invariant
                        i <= self.cases@.len(),
                        cases@.len() == i,
                        forall|j: int| 0 <= j < i ==> (#[trigger] cases@[j])@ == self.cases@[j]@,
                    decreases self.cases@.len() - i,
                {
                    cases.push(self.cases[i].duplicate());
                    i = i + 1;
                }
                proof {
                    assert(cases_view(cases@) =~= self@);
                }
                Ok(cases)
            },
        }
    }
}

/// The content of an optional name.
pub open spec fn optional_name(name: Option<&str>) -> Option<Seq<char>> {
    match name {
        Some(s) => Some(s@),
        None => None,
    }
}

/// The cases that a run of `catalog` attempts: all of them, or the single one
/// that `single` names; nothing where that name is unknown.
pub open spec fn selection(catalog: Seq<CaseView>, single: Option<Seq<char>>) -> Option<
    Seq<CaseView>,
> {
    match single {
        None => Some(catalog),
        Some(name) => match find_case(catalog, name) {
            Some(case) => Some(seq![case]),
            None => None,
        },
    }
}

/// The names of the firmware examples whose output is pinned, in the order
/// in which they run.
pub open spec fn firmware_names() -> Seq<Seq<char>> {
    seq![
        "log"@,
        "bitflags"@,
        "timestamp"@,
        "panic"@,
        "assert"@,
        "assert-eq"@,
        "assert-ne"@,
        "unwrap"@,
        "defmt-test"@,
        "hints"@,
        "hints_inner"@,
        "dbg"@,
    ]
}

/// The case of the firmware example called `name`: its fixture is the
/// directory of that name under the snapshot tests directory, and its golden
/// lies in that directory.
pub open spec fn firmware_case(name: Seq<char>) -> CaseView {
    CaseView {
        name,
        fixture: "firmware/qemu/"@ + name,
        golden: "firmware/qemu/"@ + name + "/expected.out"@,
        features: Seq::empty(),
        target: None,
    }
}

/// The cases of the firmware examples.
pub open spec fn firmware_cases() -> Seq<CaseView> {
    Seq::new(firmware_names().len(), |i: int| firmware_case(firmware_names()[i]))
}

/// No two firmware examples share a name.
pub proof fn lemma_firmware_names_distinct()
    ensures
        distinct_names(firmware_cases()),
{
    reveal_strlit("log");
    reveal_strlit("bitflags");
    reveal_strlit("timestamp");
    reveal_strlit("panic");
    reveal_strlit("assert");
    reveal_strlit("assert-eq");
    reveal_strlit("assert-ne");
    reveal_strlit("unwrap");
    reveal_strlit("defmt-test");
    reveal_strlit("hints");
    reveal_strlit("hints_inner");
    reveal_strlit("dbg");
    let names = firmware_names();
    assert(names[0].len() == 3 && names[0][0] == 'l');
    assert(names[1].len() == 8);
    assert(names[2].len() == 9 && names[2][8] == 'p');
    assert(names[3].len() == 5 && names[3][0] == 'p');
    assert(names[4].len() == 6 && names[4][0] == 'a');
    assert(names[5].len() == 9 && names[5][8] == 'q');
    assert(names[6].len() == 9 && names[6][8] == 'e');
    assert(names[7].len() == 6 && names[7][0] == 'u');
    assert(names[8].len() == 10);
    assert(names[9].len() == 5 && names[9][0] == 'h');
    assert(names[10].len() == 11);
    assert(names[11].len() == 3 && names[11][0] == 'd');
    let cases = firmware_cases();
    assert forall|i: int, j: int| 0 <= i < j < cases.len() implies (#[trigger] cases[i]).name != (
    #[trigger] cases[j]).name by {
        assert(cases[i].name == names[i]);
        assert(cases[j].name == names[j]);
    }
}

impl Catalog {
    /// The catalog of the firmware examples.
    pub fn firmware() -> (catalog: Catalog)
        ensures
            catalog@ == firmware_cases(),
            distinct_names(catalog@),
    {
        let names: [&str; 12] = [
            "log",
            "bitflags",
            "timestamp",
            "panic",
            "assert",
            "assert-eq",
            "assert-ne",
            "unwrap",
            "defmt-test",
            "hints",
            "hints_inner",
            "dbg",
        ];
        let ghost wanted = firmware_names();
        proof {
            assert(Seq::new(12, |i: int| names@[i]@) =~= wanted);
        }
        let mut cases: Vec<SnapshotCase> = Vec::new();
        let mut i: usize = 0;
        while i < 12
            invariant
                i <= 12,
                names@.len() == 12,
                wanted == firmware_names(),
                forall|j: int| 0 <= j < 12 ==> (#[trigger] names@[j])@ == wanted[j],
                cases@.len() == i,
                forall|j: int| 0 <= j < i ==> (#[trigger] cases@[j])@ == firmware_case(wanted[j]),
            decreases 12 - i,
        {
            let name = names[i];
            let mut fixture = String::from_str("firmware/qemu/");
            fixture.append(name);
            let mut golden = fixture.clone();
            golden.append("/expected.out");
            let case = SnapshotCase::new(name, fixture.as_str(), golden.as_str());
            cases.push(case);
            i = i + 1;
        }
        proof {
            assert(cases_view(cases@) =~= firmware_cases());
            lemma_firmware_names_distinct();
        }
        Catalog { cases }
    }
}

} // verus!
