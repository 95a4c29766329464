//! Text as a sequence of lines.
//!
//! A line keeps its terminator, so the concatenation of the lines of a text is
//! the text itself, byte for byte. Only the last line of a text may lack a
//! terminator.

use vstd::prelude::*;

verus! {

/// The line terminator.
pub const NEWLINE: u8 = 10;

/// The lines held by a vector of byte vectors.
pub open spec fn lines_view(lines: Seq<Vec<u8>>) -> Seq<Seq<u8>> {
    Seq::new(lines.len(), |i: int| lines[i]@)
}

/// Length of the first line of `text`, terminator included; 0 for the empty text.
pub open spec fn line_len(text: Seq<u8>) -> nat
    decreases text.len(),
{
    if text.len() == 0 {
        0
    } else if text[0] == NEWLINE {
        1
    } else {
        1 + line_len(text.skip(1))
    }
}

/// The lines of `text`, each with its terminator.
pub open spec fn split_lines(text: Seq<u8>) -> Seq<Seq<u8>>
    decreases text.len(),
{
    if text.len() == 0 {
        Seq::empty()
    } else {
        let n = line_len(text) as int;
        if 0 < n < text.len() {
            seq![text.take(n)] + split_lines(text.skip(n))
        } else {
            seq![text]
        }
    }
}

/// The text that a sequence of lines spells out.
pub open spec fn join_lines(lines: Seq<Seq<u8>>) -> Seq<u8> {
    lines.flatten()
}

/// A single line: not empty, and no terminator before its last byte.
pub open spec fn is_line(line: Seq<u8>) -> bool {
    &&& line.len() > 0
    &&& forall|i: int| 0 <= i < line.len() - 1 ==> line[i] != NEWLINE
}

/// Whether `line` ends with the terminator.
pub open spec fn is_terminated(line: Seq<u8>) -> bool {
    line.len() > 0 && line.last() == NEWLINE
}

/// Lines as `split_lines` produces them: every element is a line, and all but
/// the last are terminated.
pub open spec fn well_formed(lines: Seq<Seq<u8>>) -> bool {
    &&& forall|i: int| 0 <= i < lines.len() ==> is_line(#[trigger] lines[i])
    &&& forall|i: int| 0 <= i < lines.len() - 1 ==> is_terminated(#[trigger] lines[i])
}

/// The first line of a non-empty text is a line of that text.
pub proof fn lemma_line_len(text: Seq<u8>)
    requires
        text.len() > 0,
    ensures
        1 <= line_len(text) <= text.len(),
        is_line(text.take(line_len(text) as int)),
        line_len(text) < text.len() ==> is_terminated(text.take(line_len(text) as int)),
        !is_terminated(text.take(line_len(text) as int)) ==> line_len(text) == text.len(),
    decreases text.len(),
{
    if text[0] != NEWLINE {
        let rest = text.skip(1);
        if rest.len() > 0 {
            lemma_line_len(rest);
            let n = line_len(text) as int;
            let head = text.take(n);
            let inner = rest.take(n - 1);
            assert forall|i: int| 0 <= i < head.len() - 1 implies head[i] != NEWLINE by {
                if i > 0 {
                    assert(head[i] == inner[i - 1]);
                }
            }
            assert(head.last() == inner.last());
        }
    }
}

/// Splitting a text gives well-formed lines.
pub proof fn lemma_split_well_formed(text: Seq<u8>)
    ensures
        well_formed(split_lines(text)),
    decreases text.len(),
{
    if text.len() > 0 {
        lemma_line_len(text);
        let n = line_len(text) as int;
        if n < text.len() {
            lemma_split_well_formed(text.skip(n));
            let rest = split_lines(text.skip(n));
            let all = split_lines(text);
            assert(all == seq![text.take(n)] + rest);
            assert forall|i: int| 0 <= i < all.len() implies is_line(#[trigger] all[i]) by {
                if i > 0 {
                    assert(all[i] == rest[i - 1]);
                }
            }
            assert forall|i: int| 0 <= i < all.len() - 1 implies is_terminated(
                #[trigger] all[i],
            ) by {
                if i > 0 {
                    assert(all[i] == rest[i - 1]);
                }
            }
        } else {
            assert(text.take(n) == text);
        }
    }
}

/// The lines of a text spell out that text.
pub proof fn lemma_join_split(text: Seq<u8>)
    ensures
        join_lines(split_lines(text)) == text,
    decreases text.len(),
{
    if text.len() > 0 {
        lemma_line_len(text);
        let n = line_len(text) as int;
        if n < text.len() {
            lemma_join_split(text.skip(n));
            let all = split_lines(text);
            assert(all.drop_first() == split_lines(text.skip(n)));
            assert(text == text.take(n) + text.skip(n));
        } else {
            let all = split_lines(text);
            assert(all.drop_first() == Seq::<Seq<u8>>::empty());
            assert(all.drop_first().flatten() == Seq::<u8>::empty());
            assert(text + Seq::<u8>::empty() == text);
        }
    }
}

/// A line followed by more text is the first line of the whole, provided the
/// line is terminated or nothing follows it.
pub proof fn lemma_line_len_of_line(line: Seq<u8>, rest: Seq<u8>)
    requires
        is_line(line),
        is_terminated(line) || rest.len() == 0,
    ensures
        line_len(line + rest) == line.len(),
    decreases line.len(),
{
    let text = line + rest;
    assert(text[0] == line[0]);
    if line.len() == 1 {
        if text[0] != NEWLINE {
            assert(line.last() == line[0]);
            assert(text.skip(1) == Seq::<u8>::empty());
            assert(line_len(text.skip(1)) == 0);
        }
    } else {
        assert(text[0] == line[0]);
        let tail = line.skip(1);
        assert(text.skip(1) == tail + rest);
        assert(tail.last() == line.last());
        assert forall|i: int| 0 <= i < tail.len() - 1 implies tail[i] != NEWLINE by {
            assert(tail[i] == line[i + 1]);
        }
        lemma_line_len_of_line(tail, rest);
    }
}

/// Well-formed lines are the lines of the text they spell out.
pub proof fn lemma_split_join(lines: Seq<Seq<u8>>)
    requires
        well_formed(lines),
    ensures
        split_lines(join_lines(lines)) == lines,
    decreases lines.len(),
{
    if lines.len() > 0 {
        let first = lines.first();
        let others = lines.drop_first();
        assert(is_line(first));
        assert forall|i: int| 0 <= i < others.len() implies is_line(#[trigger] others[i]) by {
            assert(others[i] == lines[i + 1]);
        }
        assert forall|i: int| 0 <= i < others.len() - 1 implies is_terminated(
            #[trigger] others[i],
        ) by {
            assert(others[i] == lines[i + 1]);
        }
        lemma_split_join(others);
        let rest = join_lines(others);
        let text = join_lines(lines);
        assert(text == first + rest);
        if others.len() == 0 {
            assert(rest.len() == 0);
            lemma_line_len_of_line(first, rest);
            assert(text == first);
            assert(split_lines(text) == seq![text]);
            assert(lines == seq![first]);
        } else {
            assert(is_terminated(first));
            assert(is_line(others[0]));
            assert(rest == others.first() + others.drop_first().flatten());
            assert(rest.len() > 0);
            lemma_line_len_of_line(first, rest);
            let n = first.len() as int;
            assert(text.take(n) == first);
            assert(text.skip(n) == rest);
            assert(lines == seq![first] + others);
        }
    } else {
        assert(lines == Seq::<Seq<u8>>::empty());
    }
}

/// Copies the bytes of `text` from `from` up to `to`.
pub fn copy_range(text: &[u8], from: usize, to: usize) -> (bytes: Vec<u8>)
    requires
        from <= to <= text@.len(),
    ensures
        bytes@ == text@.subrange(from as int, to as int),
{
    let mut bytes: Vec<u8> = Vec::new();
    let mut i: usize = from;
    while i < to
        invariant
            from <= i <= to <= text@.len(),
            bytes@ == text@.subrange(from as int, i as int),
        decreases to - i,
    {
        bytes.push(text[i]);
        i = i + 1;
    }
    bytes
}

/// Measures the line of `text` that starts at `from`, terminator included.
pub fn measure_line(text: &[u8], from: usize) -> (len: usize)
    requires
        from <= text@.len(),
    ensures
        len == line_len(text@.skip(from as int)),
        from + len <= text@.len(),
{
    let mut i: usize = from;
    while i < text.len() && text[i] != NEWLINE
        invariant
            from <= i <= text@.len(),
            line_len(text@.skip(from as int)) == (i - from) + line_len(text@.skip(i as int)),
        decreases text@.len() - i,
    {
        proof {
            assert(text@.skip(i as int).skip(1) == text@.skip(i + 1));
        }
        i = i + 1;
    }
    if i < text.len() {
        i + 1 - from
    } else {
        i - from
    }
}

/// Splits `text` into its lines.
pub fn split(text: &[u8]) -> (lines: Vec<Vec<u8>>)
    ensures
        lines_view(lines@) == split_lines(text@),
        well_formed(lines_view(lines@)),
{
    let mut lines: Vec<Vec<u8>> = Vec::new();
    let mut start: usize = 0;
    proof {
        assert(text@.skip(0) == text@);
        assert(lines_view(lines@) + split_lines(text@) == split_lines(text@));
    }
    while start < text.len()
        invariant
            start <= text@.len(),
            split_lines(text@) == lines_view(lines@) + split_lines(text@.skip(start as int)),
        decreases text@.len() - start,
    {
        let len = measure_line(text, start);
        let line = copy_range(text, start, start + len);
        proof {
            let rest = text@.skip(start as int);
            lemma_line_len(rest);
            assert(rest.take(len as int) == line@);
            assert(rest.skip(len as int) == text@.skip(start + len));
            if len == rest.len() {
                assert(rest.take(len as int) == rest);
                assert(split_lines(text@.skip(start + len)) == Seq::<Seq<u8>>::empty());
            }
            assert(split_lines(rest) == seq![line@] + split_lines(text@.skip(start + len)));
            assert(lines_view(lines@.push(line)) == lines_view(lines@) + seq![line@]);
        }
        lines.push(line);
        start = start + len;
    }
    proof {
        assert(split_lines(text@.skip(start as int)) == Seq::<Seq<u8>>::empty());
        lemma_split_well_formed(text@);
    }
    lines
}

/// Appends `bytes` to `out`.
pub fn append_bytes(out: &mut Vec<u8>, bytes: &[u8])
    ensures
        final(out)@ == old(out)@ + bytes@,
{
    let mut j: usize = 0;
    while j < bytes.len()
        invariant
            j <= bytes@.len(),
            out@ == old(out)@ + bytes@.take(j as int),
        decreases bytes@.len() - j,
    {
        out.push(bytes[j]);
        j = j + 1;
    }
    proof {
        assert(bytes@.take(j as int) == bytes@);
    }
}

/// Concatenates `lines` into one text.
pub fn join(lines: &Vec<Vec<u8>>) -> (text: Vec<u8>)
    ensures
        text@ == join_lines(lines_view(lines@)),
{
    let mut text: Vec<u8> = Vec::new();
    let mut i: usize = 0;
    while i < lines.len()
        invariant
            i <= lines@.len(),
            text@ == join_lines(lines_view(lines@).take(i as int)),
        decreases lines@.len() - i,
    {
        let line = &lines[i];
        append_bytes(&mut text, line.as_slice());
        proof {
            let all = lines_view(lines@);
            assert(all.take(i + 1) == all.take(i as int).push(line@));
            all.take(i as int).lemma_flatten_push(line@);
        }
        i = i + 1;
    }
    proof {
        let all = lines_view(lines@);
        assert(all.take(i as int) == all);
    }
    text
}

/// Whether two byte strings are the same.
pub fn bytes_equal(a: &[u8], b: &[u8]) -> (same: bool)
    ensures
        same == (a@ == b@),
{
    if a.len() != b.len() {
        return false;
    }
    let mut i: usize = 0;
    while i < a.len()
        invariant
            i <= a@.len(),
            a@.len() == b@.len(),
            forall|j: int| 0 <= j < i ==> a@[j] == b@[j],
        decreases a@.len() - i,
    {
        if a[i] != b[i] {
            return false;
        }
        i = i + 1;
    }
    proof {
        assert(a@ =~= b@);
    }
    true
}

/// A copy of `bytes`.
pub fn copy_bytes(bytes: &[u8]) -> (copy: Vec<u8>)
    ensures
        copy@ == bytes@,
{
    let copy = copy_range(bytes, 0, bytes.len());
    proof {
        assert(bytes@.subrange(0, bytes@.len() as int) == bytes@);
    }
    copy
}

} // verus!
