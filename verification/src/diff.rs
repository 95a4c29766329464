//! A full line-level difference between two texts.
//!
//! The difference is an edit script: the lines of both texts in order, each
//! marked as kept, removed or added. Of all such scripts it keeps as many
//! lines as any can, which is the length of a longest common subsequence.

use vstd::prelude::*;
use crate::lines::{
    append_bytes, bytes_equal, copy_bytes, is_terminated, lines_view, NEWLINE,
};

verus! {

/// The mathematical content of a change.
pub enum ChangeView {
    Keep(Seq<u8>),
    Remove(Seq<u8>),
    Add(Seq<u8>),
}

/// One line of an edit script.
#[derive(Debug, PartialEq, Eq)]
pub enum Change {
    /// The line stands in both texts.
    Keep(Vec<u8>),
    /// The line stands in the expected text only.
    Remove(Vec<u8>),
    /// The line stands in the actual text only.
    Add(Vec<u8>),
}

impl View for Change {
    type V = ChangeView;

    open spec fn view(&self) -> ChangeView {
        match self {
            Change::Keep(line) => ChangeView::Keep(line@),
            Change::Remove(line) => ChangeView::Remove(line@),
            Change::Add(line) => ChangeView::Add(line@),
        }
    }
}

/// The changes held by a vector of changes.
pub open spec fn changes_view(changes: Seq<Change>) -> Seq<ChangeView> {
    Seq::new(changes.len(), |i: int| changes[i]@)
}

/// The length of a longest common subsequence of `a` and `b`.
pub open spec fn lcs_len(a: Seq<Seq<u8>>, b: Seq<Seq<u8>>) -> nat
    decreases a.len() + b.len(),
{
    if a.len() == 0 || b.len() == 0 {
        0
    } else if a.last() == b.last() {
        1 + lcs_len(a.drop_last(), b.drop_last())
    } else if lcs_len(a, b.drop_last()) >= lcs_len(a.drop_last(), b) {
        lcs_len(a, b.drop_last())
    } else {
        lcs_len(a.drop_last(), b)
    }
}

/// The edit script that turns `a` into `b`. Where a line can be removed or
/// added with equal gain, the removal comes first.
pub open spec fn edit_script(a: Seq<Seq<u8>>, b: Seq<Seq<u8>>) -> Seq<ChangeView>
    decreases a.len() + b.len(),
{
    if a.len() == 0 && b.len() == 0 {
        Seq::empty()
    } else if a.len() == 0 {
        edit_script(a, b.drop_last()).push(ChangeView::Add(b.last()))
    } else if b.len() == 0 {
        edit_script(a.drop_last(), b).push(ChangeView::Remove(a.last()))
    } else if a.last() == b.last() {
        edit_script(a.drop_last(), b.drop_last()).push(ChangeView::Keep(a.last()))
    } else if lcs_len(a, b.drop_last()) >= lcs_len(a.drop_last(), b) {
        edit_script(a, b.drop_last()).push(ChangeView::Add(b.last()))
    } else {
        edit_script(a.drop_last(), b).push(ChangeView::Remove(a.last()))
    }
}

/// The text that a script starts from: its kept and removed lines.
pub open spec fn old_side(script: Seq<ChangeView>) -> Seq<Seq<u8>>
    decreases script.len(),
{
    if script.len() == 0 {
        Seq::empty()
    } else {
        match script.last() {
            ChangeView::Keep(line) => old_side(script.drop_last()).push(line),
            ChangeView::Remove(line) => old_side(script.drop_last()).push(line),
            ChangeView::Add(_) => old_side(script.drop_last()),
        }
    }
}

/// The text that a script arrives at: its kept and added lines.
pub open spec fn new_side(script: Seq<ChangeView>) -> Seq<Seq<u8>>
    decreases script.len(),
{
    if script.len() == 0 {
        Seq::empty()
    } else {
        match script.last() {
            ChangeView::Keep(line) => new_side(script.drop_last()).push(line),
            ChangeView::Add(line) => new_side(script.drop_last()).push(line),
            ChangeView::Remove(_) => new_side(script.drop_last()),
        }
    }
}

/// The number of lines that a script keeps.
pub open spec fn kept(script: Seq<ChangeView>) -> nat
    decreases script.len(),
{
    if script.len() == 0 {
        0
    } else {
        kept(script.drop_last()) + if script.last() is Keep {
            1nat
        } else {
            0nat
        }
    }
}

/// A common subsequence is no longer than either sequence.
pub proof fn lemma_lcs_bound(a: Seq<Seq<u8>>, b: Seq<Seq<u8>>)
    ensures
        lcs_len(a, b) <= a.len(),
        lcs_len(a, b) <= b.len(),
    decreases a.len() + b.len(),
{
    if a.len() > 0 && b.len() > 0 {
        lemma_lcs_bound(a.drop_last(), b.drop_last());
        lemma_lcs_bound(a, b.drop_last());
        lemma_lcs_bound(a.drop_last(), b);
    }
}

/// The script leads from `a` to `b`, keeps as many lines as a longest common
/// subsequence has, and mentions every other line once.
pub proof fn lemma_edit_script(a: Seq<Seq<u8>>, b: Seq<Seq<u8>>)
    ensures
        old_side(edit_script(a, b)) == a,
        new_side(edit_script(a, b)) == b,
        kept(edit_script(a, b)) == lcs_len(a, b),
        edit_script(a, b).len() == a.len() + b.len() - lcs_len(a, b),
    decreases a.len() + b.len(),
{
    lemma_lcs_bound(a, b);
    let script = edit_script(a, b);
    if a.len() == 0 && b.len() == 0 {
        assert(a =~= Seq::<Seq<u8>>::empty());
        assert(b =~= Seq::<Seq<u8>>::empty());
    } else if a.len() == 0 {
        lemma_edit_script(a, b.drop_last());
        assert(script.drop_last() == edit_script(a, b.drop_last()));
        assert(b.drop_last().push(b.last()) =~= b);
    } else if b.len() == 0 {
        lemma_edit_script(a.drop_last(), b);
        assert(script.drop_last() == edit_script(a.drop_last(), b));
        assert(a.drop_last().push(a.last()) =~= a);
    } else if a.last() == b.last() {
        lemma_edit_script(a.drop_last(), b.drop_last());
        assert(script.drop_last() == edit_script(a.drop_last(), b.drop_last()));
        assert(a.drop_last().push(a.last()) =~= a);
        assert(b.drop_last().push(b.last()) =~= b);
    } else if lcs_len(a, b.drop_last()) >= lcs_len(a.drop_last(), b) {
        lemma_edit_script(a, b.drop_last());
        assert(script.drop_last() == edit_script(a, b.drop_last()));
        assert(b.drop_last().push(b.last()) =~= b);
    } else {
        lemma_edit_script(a.drop_last(), b);
        assert(script.drop_last() == edit_script(a.drop_last(), b));
        assert(a.drop_last().push(a.last()) =~= a);
    }
}

/// A text compared with itself is kept whole.
pub proof fn lemma_lcs_same(a: Seq<Seq<u8>>)
    ensures
        lcs_len(a, a) == a.len(),
    decreases a.len(),
{
    if a.len() > 0 {
        lemma_lcs_same(a.drop_last());
    }
}

/// A script that keeps every line of both texts exists only for equal texts:
/// the script changes nothing exactly when the texts are the same.
pub proof fn lemma_unchanged(a: Seq<Seq<u8>>, b: Seq<Seq<u8>>)
    ensures
        kept(edit_script(a, b)) == edit_script(a, b).len() <==> a == b,
{
    lemma_edit_script(a, b);
    lemma_lcs_bound(a, b);
    if a == b {
        lemma_lcs_same(a);
    } else if kept(edit_script(a, b)) == edit_script(a, b).len() {
        lemma_all_kept(edit_script(a, b));
    }
}

/// A script of kept lines only starts from and arrives at the same text.
pub proof fn lemma_all_kept(script: Seq<ChangeView>)
    requires
        kept(script) == script.len(),
    ensures
        old_side(script) == new_side(script),
    decreases script.len(),
{
    if script.len() > 0 {
        lemma_kept_bound(script.drop_last());
        lemma_all_kept(script.drop_last());
    }
}

/// A script keeps no more lines than it has.
pub proof fn lemma_kept_bound(script: Seq<ChangeView>)
    ensures
        kept(script) <= script.len(),
    decreases script.len(),
{
    if script.len() > 0 {
        lemma_kept_bound(script.drop_last());
    }
}

/// Whether `c` can be had from `a` by leaving lines out.
pub open spec fn is_subsequence(c: Seq<Seq<u8>>, a: Seq<Seq<u8>>) -> bool
    decreases a.len(),
{
    if c.len() == 0 {
        true
    } else if a.len() == 0 {
        false
    } else if c.last() == a.last() {
        is_subsequence(c.drop_last(), a.drop_last()) || is_subsequence(c, a.drop_last())
    } else {
        is_subsequence(c, a.drop_last())
    }
}

/// The lines that a script keeps, in order.
pub open spec fn kept_lines(script: Seq<ChangeView>) -> Seq<Seq<u8>>
    decreases script.len(),
{
    if script.len() == 0 {
        Seq::empty()
    } else {
        match script.last() {
            ChangeView::Keep(line) => kept_lines(script.drop_last()).push(line),
            _ => kept_lines(script.drop_last()),
        }
    }
}

/// A subsequence stays one when its last line is left out.
pub proof fn lemma_subsequence_shorter(c: Seq<Seq<u8>>, a: Seq<Seq<u8>>)
    requires
        is_subsequence(c, a),
        c.len() > 0,
    ensures
        is_subsequence(c.drop_last(), a),
        is_subsequence(c.drop_last(), a.drop_last()),
    decreases a.len(),
{
    if c.last() == a.last() && is_subsequence(c.drop_last(), a.drop_last()) {
    } else {
        lemma_subsequence_shorter(c, a.drop_last());
    }
}

/// No common subsequence of two texts is longer than `lcs_len` says.
pub proof fn lemma_lcs_longest(c: Seq<Seq<u8>>, a: Seq<Seq<u8>>, b: Seq<Seq<u8>>)
    requires
        is_subsequence(c, a),
        is_subsequence(c, b),
    ensures
        c.len() <= lcs_len(a, b),
    decreases a.len() + b.len(),
{
    if c.len() > 0 {
        if a.last() == b.last() {
            lemma_subsequence_shorter(c, a);
            lemma_subsequence_shorter(c, b);
            lemma_lcs_longest(c.drop_last(), a.drop_last(), b.drop_last());
        } else if c.last() != a.last() {
            lemma_lcs_longest(c, a.drop_last(), b);
        } else {
            lemma_lcs_longest(c, a, b.drop_last());
        }
    }
}

/// The lines that the script keeps are a common subsequence of both texts,
/// and there are as many of them as any common subsequence has.
pub proof fn lemma_kept_is_longest(a: Seq<Seq<u8>>, b: Seq<Seq<u8>>)
    ensures
        is_subsequence(kept_lines(edit_script(a, b)), a),
        is_subsequence(kept_lines(edit_script(a, b)), b),
        kept_lines(edit_script(a, b)).len() == lcs_len(a, b),
    decreases a.len() + b.len(),
{
    let script = edit_script(a, b);
    if a.len() == 0 && b.len() == 0 {
    } else if a.len() == 0 {
        lemma_kept_is_longest(a, b.drop_last());
        assert(script.drop_last() == edit_script(a, b.drop_last()));
        lemma_lcs_bound(a, b.drop_last());
    } else if b.len() == 0 {
        lemma_kept_is_longest(a.drop_last(), b);
        assert(script.drop_last() == edit_script(a.drop_last(), b));
        lemma_lcs_bound(a.drop_last(), b);
    } else if a.last() == b.last() {
        lemma_kept_is_longest(a.drop_last(), b.drop_last());
        assert(script.drop_last() == edit_script(a.drop_last(), b.drop_last()));
        let inner = kept_lines(script.drop_last());
        assert(kept_lines(script).drop_last() == inner);
    } else if lcs_len(a, b.drop_last()) >= lcs_len(a.drop_last(), b) {
        lemma_kept_is_longest(a, b.drop_last());
        assert(script.drop_last() == edit_script(a, b.drop_last()));
    } else {
        lemma_kept_is_longest(a.drop_last(), b);
        assert(script.drop_last() == edit_script(a.drop_last(), b));
    }
}

/// Whether the first `rows` rows of `table` hold the lengths of the longest
/// common subsequences of the prefixes of `a` and `b`: the cell in row `i`
/// and column `j` is for the first `i + 1` lines of `a` and the first `j + 1`
/// lines of `b`.
pub open spec fn is_table(
    table: Seq<Vec<usize>>,
    a: Seq<Seq<u8>>,
    b: Seq<Seq<u8>>,
    rows: int,
) -> bool {
    &&& table.len() == rows
    &&& forall|i: int|
        0 <= i < rows ==> is_row(#[trigger] table[i]@, a.take(i + 1), b, b.len() as int)
}

/// Whether `row` holds, in its first `columns` cells, the lengths for `a` and
/// the prefixes of `b`.
pub open spec fn is_row(row: Seq<usize>, a: Seq<Seq<u8>>, b: Seq<Seq<u8>>, columns: int) -> bool {
    &&& row.len() == columns
    &&& forall|j: int| 0 <= j < columns ==> #[trigger] row[j] == lcs_len(a, b.take(j + 1))
}

/// The length for the first `i` lines of `a` and the first `j` lines of `b`.
fn cell(
    table: &Vec<Vec<usize>>,
    i: usize,
    j: usize,
    Ghost(a): Ghost<Seq<Seq<u8>>>,
    Ghost(b): Ghost<Seq<Seq<u8>>>,
) -> (length: usize)
    requires
        i <= table@.len(),
        j <= b.len(),
        is_table(table@, a, b, table@.len() as int),
    ensures
        length == lcs_len(a.take(i as int), b.take(j as int)),
{
    if i == 0 || j == 0 {
        0
    } else {
        let row = &table[i - 1];
        proof {
            assert(is_row(table@[i - 1]@, a.take(i as int), b, b.len() as int));
        }
        row[j - 1]
    }
}

/// Fills the table of lengths for `expected` and `actual`.
fn fill_table(expected: &Vec<Vec<u8>>, actual: &Vec<Vec<u8>>) -> (table: Vec<Vec<usize>>)
    ensures
        is_table(
            table@,
            lines_view(expected@),
            lines_view(actual@),
            expected@.len() as int,
        ),
{
    let ghost a = lines_view(expected@);
    let ghost b = lines_view(actual@);
    let n = expected.len();
    let m = actual.len();
    let mut table: Vec<Vec<usize>> = Vec::new();
    let mut i: usize = 0;
    while i < n
        invariant
            i <= n,
            n == expected@.len(),
            m == actual@.len(),
            a == lines_view(expected@),
            b == lines_view(actual@),
            is_table(table@, a, b, i as int),
        decreases n - i,
    {
        let ghost upper = a.take(i as int);
        let ghost here = a.take(i + 1);
        proof {
            assert(here.drop_last() == upper);
            assert(here.last() == expected@[i as int]@);
        }
        let mut row: Vec<usize> = Vec::new();
        let mut j: usize = 0;
        while j < m
            invariant
                j <= m,
                i < n,
                n == expected@.len(),
                m == actual@.len(),
                a == lines_view(expected@),
                b == lines_view(actual@),
                upper == a.take(i as int),
                here == a.take(i + 1),
                here.drop_last() == upper,
                here.last() == expected@[i as int]@,
                is_table(table@, a, b, i as int),
                is_row(row@, here, b, j as int),
            decreases m - j,
        {
            let ghost left_b = b.take(j as int);
            let ghost this_b = b.take(j + 1);
            proof {
                assert(this_b.drop_last() == left_b);
                assert(this_b.last() == actual@[j as int]@);
                lemma_lcs_bound(here, this_b);
                lemma_lcs_bound(upper, left_b);
            }
            let diagonal = cell(&table, i, j, Ghost(a), Ghost(b));
            let above = cell(&table, i, j + 1, Ghost(a), Ghost(b));
            let left = if j == 0 {
                0
            } else {
                row[j - 1]
            };
            proof {
                if j == 0 {
                    assert(left_b.len() == 0);
                }
                assert(left == lcs_len(here, left_b));
            }
            let value = if bytes_equal(expected[i].as_slice(), actual[j].as_slice()) {
                diagonal + 1
            } else if left >= above {
                left
            } else {
                above
            };
            let ghost before = row@;
            row.push(value);
            proof {
                assert(value == lcs_len(here, this_b));
                assert forall|k: int| 0 <= k < j + 1 implies #[trigger] row@[k] == lcs_len(
                    here,
                    b.take(k + 1),
                ) by {
                    if k < j {
                        assert(row@[k] == before[k]);
                    }
                }
            }
            j = j + 1;
        }
        let ghost rows_before = table@;
        table.push(row);
        proof {
            assert forall|k: int| 0 <= k < i + 1 implies is_row(
                #[trigger] table@[k]@,
                a.take(k + 1),
                b,
                b.len() as int,
            ) by {
                if k < i {
                    assert(table@[k] == rows_before[k]);
                }
            }
        }
        i = i + 1;
    }
    table
}

/// The edit script that turns `expected` into `actual`.
pub fn diff(expected: &Vec<Vec<u8>>, actual: &Vec<Vec<u8>>) -> (script: Vec<Change>)
    ensures
        changes_view(script@) == edit_script(lines_view(expected@), lines_view(actual@)),
{
    let ghost a = lines_view(expected@);
    let ghost b = lines_view(actual@);
    let table = fill_table(expected, actual);
    let mut backwards: Vec<Change> = Vec::new();
    let mut i: usize = expected.len();
    let mut j: usize = actual.len();
    proof {
        assert(a.take(i as int) == a);
        assert(b.take(j as int) == b);
        assert(changes_view(backwards@).reverse() =~= Seq::<ChangeView>::empty());
        assert(edit_script(a, b) + Seq::<ChangeView>::empty() =~= edit_script(a, b));
    }
    while i > 0 || j > 0
        invariant
            i <= expected@.len(),
            j <= actual@.len(),
            a == lines_view(expected@),
            b == lines_view(actual@),
            is_table(table@, a, b, expected@.len() as int),
            edit_script(a, b) == edit_script(a.take(i as int), b.take(j as int)) + changes_view(
                backwards@,
            ).reverse(),
        decreases i + j,
    {
        let ghost here_a = a.take(i as int);
        let ghost here_b = b.take(j as int);
        let ghost done = changes_view(backwards@);
        proof {
            if i > 0 {
                assert(here_a.drop_last() == a.take(i - 1));
                assert(here_a.last() == expected@[i - 1]@);
            }
            if j > 0 {
                assert(here_b.drop_last() == b.take(j - 1));
                assert(here_b.last() == actual@[j - 1]@);
            }
        }
        let add = if i == 0 {
            true
        } else if j == 0 {
            false
        } else if bytes_equal(expected[i - 1].as_slice(), actual[j - 1].as_slice()) {
            let line = copy_bytes(expected[i - 1].as_slice());
            backwards.push(Change::Keep(line));
            proof {
                let change = ChangeView::Keep(here_a.last());
                assert(changes_view(backwards@) =~= done.push(change));
                assert(done.push(change).reverse() =~= seq![change] + done.reverse());
                assert(edit_script(here_a, here_b) == edit_script(
                    here_a.drop_last(),
                    here_b.drop_last(),
                ).push(change));
                assert(edit_script(here_a.drop_last(), here_b.drop_last()).push(change)
                    + done.reverse() =~= edit_script(here_a.drop_last(), here_b.drop_last()) + (
                seq![change] + done.reverse()));
            }
            i = i - 1;
            j = j - 1;
            continue ;
        } else {
            let left = cell(&table, i, j - 1, Ghost(a), Ghost(b));
            let above = cell(&table, i - 1, j, Ghost(a), Ghost(b));
            left >= above
        };
        if add {
            let line = copy_bytes(actual[j - 1].as_slice());
            backwards.push(Change::Add(line));
            proof {
                let change = ChangeView::Add(here_b.last());
                assert(changes_view(backwards@) =~= done.push(change));
                assert(done.push(change).reverse() =~= seq![change] + done.reverse());
                assert(edit_script(here_a, here_b) == edit_script(here_a, here_b.drop_last()).push(
                    change,
                ));
                assert(edit_script(here_a, here_b.drop_last()).push(change) + done.reverse()
                    =~= edit_script(here_a, here_b.drop_last()) + (seq![change] + done.reverse()));
            }
            j = j - 1;
        } else {
            let line = copy_bytes(expected[i - 1].as_slice());
            backwards.push(Change::Remove(line));
            proof {
                let change = ChangeView::Remove(here_a.last());
                assert(changes_view(backwards@) =~= done.push(change));
                assert(done.push(change).reverse() =~= seq![change] + done.reverse());
                assert(edit_script(here_a, here_b) == edit_script(here_a.drop_last(), here_b).push(
                    change,
                ));
                assert(edit_script(here_a.drop_last(), here_b).push(change) + done.reverse()
                    =~= edit_script(here_a.drop_last(), here_b) + (seq![change] + done.reverse()));
            }
            i = i - 1;
        }
    }
    proof {
        assert(a.take(0) =~= Seq::<Seq<u8>>::empty());
        assert(b.take(0) =~= Seq::<Seq<u8>>::empty());
        assert(edit_script(a.take(0), b.take(0)) =~= Seq::<ChangeView>::empty());
        assert(Seq::<ChangeView>::empty() + changes_view(backwards@).reverse() =~= changes_view(
            backwards@,
        ).reverse());
    }
    reversed(backwards)
}

/// The changes of `changes` in reverse order.
fn reversed(changes: Vec<Change>) -> (turned: Vec<Change>)
    ensures
        changes_view(turned@) == changes_view(changes@).reverse(),
{
    let ghost all = changes_view(changes@);
    let mut rest = changes;
    let mut turned: Vec<Change> = Vec::new();
    proof {
        assert(changes_view(turned@) + all.reverse() =~= all.reverse());
    }
    while rest.len() > 0
        invariant
            changes_view(turned@) + changes_view(rest@).reverse() == all.reverse(),
        decreases rest@.len(),
    {
        let ghost left = changes_view(rest@);
        let ghost done = changes_view(turned@);
        let last = rest.pop();
        match last {
            Some(change) => {
                turned.push(change);
                proof {
                    let shorter = changes_view(rest@);
                    assert(shorter =~= left.drop_last());
                    assert(changes_view(turned@) =~= done.push(change@));
                    assert(left.reverse() =~= seq![change@] + shorter.reverse());
                    assert(done.push(change@) + shorter.reverse() =~= done + (seq![change@]
                        + shorter.reverse()));
                }
            },
            None => {},
        }
    }
    proof {
        assert(changes_view(rest@).reverse() =~= Seq::<ChangeView>::empty());
        assert(changes_view(turned@) + Seq::<ChangeView>::empty() =~= changes_view(turned@));
    }
    turned
}

/// The byte that marks a change in a rendered script: a space for a kept
/// line, a minus for a removed one, a plus for an added one.
pub open spec fn marker_of(change: ChangeView) -> u8 {
    match change {
        ChangeView::Keep(_) => 32u8,
        ChangeView::Remove(_) => 45u8,
        ChangeView::Add(_) => 43u8,
    }
}

/// The line that a change holds.
pub open spec fn line_of(change: ChangeView) -> Seq<u8> {
    match change {
        ChangeView::Keep(line) => line,
        ChangeView::Remove(line) => line,
        ChangeView::Add(line) => line,
    }
}

/// One change as text: its marker, its line, and a terminator where the line
/// has none of its own.
pub open spec fn render_change(change: ChangeView) -> Seq<u8> {
    let line = line_of(change);
    if is_terminated(line) {
        seq![marker_of(change)] + line
    } else {
        seq![marker_of(change)] + line + seq![NEWLINE]
    }
}

/// A script as text, change after change.
pub open spec fn render_script(script: Seq<ChangeView>) -> Seq<u8>
    decreases script.len(),
{
    if script.len() == 0 {
        Seq::empty()
    } else {
        render_script(script.drop_last()) + render_change(script.last())
    }
}

/// Renders a script as text for a reader.
pub fn render(script: &Vec<Change>) -> (text: Vec<u8>)
    ensures
        text@ == render_script(changes_view(script@)),
{
    let ghost all = changes_view(script@);
    let mut text: Vec<u8> = Vec::new();
    let mut i: usize = 0;
    proof {
        assert(text@ =~= render_script(all.take(0)));
    }
    while i < script.len()
        invariant
            i <= script@.len(),
            all == changes_view(script@),
            text@ == render_script(all.take(i as int)),
        decreases script@.len() - i,
    {
        let ghost before = text@;
        let (marker, line) = match &script[i] {
            Change::Keep(line) => (32u8, line),
            Change::Remove(line) => (45u8, line),
            Change::Add(line) => (43u8, line),
        };
        text.push(marker);
        append_bytes(&mut text, line.as_slice());
        let terminated = line.len() > 0 && line[line.len() - 1] == NEWLINE;
        if !terminated {
            text.push(NEWLINE);
        }
        proof {
            let next = all.take(i + 1);
            assert(next.drop_last() == all.take(i as int));
            assert(next.last() == script@[i as int]@);
            assert(line@ == line_of(next.last()));
            assert(marker == marker_of(next.last()));
            assert(terminated == is_terminated(line@));
            assert(text@ =~= before + render_change(next.last()));
        }
        i = i + 1;
    }
    proof {
        assert(all.take(i as int) == all);
    }
    text
}

} // verus!
