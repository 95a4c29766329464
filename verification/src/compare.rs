//! Exact, line-by-line comparison of masked output with a golden.

use vstd::prelude::*;
use crate::lines::{
    bytes_equal, copy_bytes, join_lines, lemma_join_split, lemma_split_join, lines_view, split,
    split_lines, well_formed,
};
use crate::diff::{changes_view, diff, edit_script, Change, ChangeView};
use crate::normalize::NormalizedOutput;

verus! {

/// The line at `index`, if there is one.
pub open spec fn line_at(lines: Seq<Seq<u8>>, index: int) -> Option<Seq<u8>> {
    if 0 <= index < lines.len() {
        Some(lines[index])
    } else {
        None
    }
}

/// Whether `expected` and `actual` hold the same lines before `index`.
pub open spec fn agree_before(expected: Seq<Seq<u8>>, actual: Seq<Seq<u8>>, index: int) -> bool {
    &&& 0 <= index <= expected.len()
    &&& index <= actual.len()
    &&& forall|j: int| 0 <= j < index ==> expected[j] == actual[j]
}

/// Whether `index` is the first line at which `expected` and `actual` differ:
/// they agree before it, and at it they hold different lines or one of them
/// has ended while the other has not.
pub open spec fn differ_at(expected: Seq<Seq<u8>>, actual: Seq<Seq<u8>>, index: int) -> bool {
    &&& agree_before(expected, actual, index)
    &&& line_at(expected, index) != line_at(actual, index)
}

/// Where two texts first differ.
pub struct DiffView {
    pub index: int,
    pub expected: Option<Seq<u8>>,
    pub actual: Option<Seq<u8>>,
}

/// The first difference between `expected` and `actual`, if they differ.
pub open spec fn first_difference(expected: Seq<Seq<u8>>, actual: Seq<Seq<u8>>) -> Option<
    DiffView,
>
    decreases expected.len(),
{
    if expected.len() == 0 && actual.len() == 0 {
        None
    } else if expected.len() == 0 || actual.len() == 0 || expected[0] != actual[0] {
        Some(DiffView { index: 0, expected: line_at(expected, 0), actual: line_at(actual, 0) })
    } else {
        match first_difference(expected.skip(1), actual.skip(1)) {
            None => None,
            Some(d) => Some(
                DiffView { index: d.index + 1, expected: d.expected, actual: d.actual },
            ),
        }
    }
}

/// `first_difference` finds nothing exactly when the two are equal, and else
/// reports the first index at which they differ, with the lines found there.
pub proof fn lemma_first_difference(expected: Seq<Seq<u8>>, actual: Seq<Seq<u8>>)
    ensures
        first_difference(expected, actual) is None <==> expected == actual,
        first_difference(expected, actual) matches Some(d) ==> {
            &&& differ_at(expected, actual, d.index)
            &&& d.expected == line_at(expected, d.index)
            &&& d.actual == line_at(actual, d.index)
        },
    decreases expected.len(),
{
    if expected.len() == 0 && actual.len() == 0 {
        assert(expected =~= actual);
    } else if expected.len() == 0 || actual.len() == 0 || expected[0] != actual[0] {
    } else {
        let e = expected.skip(1);
        let a = actual.skip(1);
        lemma_first_difference(e, a);
        match first_difference(e, a) {
            None => {
                assert(expected =~= seq![expected[0]] + e);
                assert(actual =~= seq![actual[0]] + a);
            },
            Some(d) => {
                assert forall|j: int| 0 <= j < d.index + 1 implies expected[j] == actual[j] by {
                    if j > 0 {
                        assert(e[j - 1] == a[j - 1]);
                    }
                }
                assert(line_at(e, d.index) == line_at(expected, d.index + 1));
                assert(line_at(a, d.index) == line_at(actual, d.index + 1));
                if expected == actual {
                    assert(e == a);
                }
            },
        }
    }
}

/// Where the actual output first departs from the golden: the index of the
/// line, and the line each side holds there (`None` where a side has ended).
#[derive(Debug, PartialEq, Eq)]
pub struct LineDiff {
    pub index: usize,
    pub expected: Option<Vec<u8>>,
    pub actual: Option<Vec<u8>>,
}

/// The content of an optional line.
pub open spec fn line_view(line: Option<Vec<u8>>) -> Option<Seq<u8>> {
    match line {
        Some(bytes) => Some(bytes@),
        None => None,
    }
}

impl View for LineDiff {
    type V = DiffView;

    open spec fn view(&self) -> DiffView {
        DiffView {
            index: self.index as int,
            expected: line_view(self.expected),
            actual: line_view(self.actual),
        }
    }
}

/// A copy of the line at `index`, if there is one.
pub fn copy_line(lines: &Vec<Vec<u8>>, index: usize) -> (line: Option<Vec<u8>>)
    ensures
        line_view(line) == line_at(lines_view(lines@), index as int),
{
    if index < lines.len() {
        Some(copy_bytes(lines[index].as_slice()))
    } else {
        None
    }
}

/// Finds the first line at which `actual` departs from `expected`.
pub fn diff_lines(expected: &Vec<Vec<u8>>, actual: &Vec<Vec<u8>>) -> (diff: Option<LineDiff>)
    ensures
        diff is None <==> lines_view(expected@) == lines_view(actual@),
        diff matches Some(d) ==> {
            &&& differ_at(lines_view(expected@), lines_view(actual@), d@.index)
            &&& d@.expected == line_at(lines_view(expected@), d@.index)
            &&& d@.actual == line_at(lines_view(actual@), d@.index)
        },
        match diff {
            Some(d) => Some(d@),
            None => None,
        } == first_difference(lines_view(expected@), lines_view(actual@)),
{
    let ghost e = lines_view(expected@);
    let ghost a = lines_view(actual@);
    let mut i: usize = 0;
    while i < expected.len() && i < actual.len() && bytes_equal(
        expected[i].as_slice(),
        actual[i].as_slice(),
    )
        invariant
            e == lines_view(expected@),
            a == lines_view(actual@),
            agree_before(e, a, i as int),
        decreases expected@.len() - i,
    {
        i = i + 1;
    }
    proof {
        lemma_first_difference(e, a);
    }
    if i == expected.len() && i == actual.len() {
        proof {
            assert(e =~= a);
        }
        None
    } else {
        let diff = LineDiff {
            index: i,
            expected: copy_line(expected, i),
            actual: copy_line(actual, i),
        };
        proof {
            if i < expected.len() && i < actual.len() {
                assert(e[i as int] == expected@[i as int]@);
                assert(a[i as int] == actual@[i as int]@);
            }
            assert(differ_at(e, a, i as int));
            lemma_unique_difference(e, a, i as int);
        }
        Some(diff)
    }
}

/// There is at most one first difference.
pub proof fn lemma_unique_difference(expected: Seq<Seq<u8>>, actual: Seq<Seq<u8>>, index: int)
    requires
        differ_at(expected, actual, index),
    ensures
        first_difference(expected, actual) matches Some(d) && d.index == index,
{
    lemma_first_difference(expected, actual);
    match first_difference(expected, actual) {
        None => {
            assert(line_at(expected, index) == line_at(actual, index));
        },
        Some(d) => {
            if d.index < index {
                assert(expected[d.index] == actual[d.index]);
            } else if index < d.index {
                assert(expected[index] == actual[index]);
            }
        },
    }
}

/// The mathematical content of a difference.
pub struct DifferenceView {
    pub first: DiffView,
    pub changes: Seq<ChangeView>,
}

/// How the actual output departs from the golden: where it first does, and
/// the whole edit script from the golden to the output.
#[derive(Debug, PartialEq, Eq)]
pub struct Difference {
    pub first: LineDiff,
    pub changes: Vec<Change>,
}

impl View for Difference {
    type V = DifferenceView;

    open spec fn view(&self) -> DifferenceView {
        DifferenceView { first: self.first@, changes: changes_view(self.changes@) }
    }
}

/// The verdict of a comparison.
#[derive(Debug, PartialEq, Eq)]
pub enum Comparison {
    /// The output is the golden, byte for byte.
    Same,
    /// The output departs from the golden.
    Different(Difference),
}

/// The content of a verdict.
pub open spec fn comparison_view(comparison: Comparison) -> Option<DifferenceView> {
    match comparison {
        Comparison::Same => None,
        Comparison::Different(d) => Some(d@),
    }
}

/// What comparing the golden text `golden` with the lines `actual` gives:
/// nothing where they are the same, else their first difference and the edit
/// script between them.
pub open spec fn compare_spec(golden: Seq<u8>, actual: Seq<Seq<u8>>) -> Option<DifferenceView> {
    match first_difference(split_lines(golden), actual) {
        None => None,
        Some(first) => Some(
            DifferenceView { first, changes: edit_script(split_lines(golden), actual) },
        ),
    }
}

/// Comparison is exact: it finds nothing exactly when the golden is the text
/// that the actual lines spell out.
pub proof fn lemma_compare_exact(golden: Seq<u8>, actual: Seq<Seq<u8>>)
    requires
        well_formed(actual),
    ensures
        compare_spec(golden, actual) is None <==> golden == join_lines(actual),
{
    lemma_first_difference(split_lines(golden), actual);
    lemma_join_split(golden);
    lemma_split_join(actual);
}

/// Compares the masked output with the text of the golden.
pub fn compare(golden: &[u8], actual: &NormalizedOutput) -> (verdict: Comparison)
    ensures
        comparison_view(verdict) == compare_spec(golden@, actual@.lines),
        verdict is Same <==> golden@ == join_lines(actual@.lines),
{
    let expected = split(golden);
    let lines = actual.lines();
    proof {
        lemma_compare_exact(golden@, actual@.lines);
    }
    match diff_lines(&expected, lines) {
        None => Comparison::Same,
        Some(first) => Comparison::Different(Difference { first, changes: diff(&expected, lines) }),
    }
}

} // verus!
