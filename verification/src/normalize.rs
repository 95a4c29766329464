//! Masking of volatile fragments in captured output.
//!
//! A rule replaces every occurrence of a literal pattern by a placeholder.
//! Neither may hold a line terminator, and neither may be empty, so masking a
//! line always gives exactly one line.

use vstd::prelude::*;
use crate::lines::{
    append_bytes, copy_bytes, is_line, is_terminated, join, join_lines, lines_view, well_formed,
    NEWLINE,
};
use crate::output::{CapturedOutput, OutputView};

verus! {

/// Bytes that can stand in a rule: at least one, and no line terminator.
pub open spec fn is_fragment(bytes: Seq<u8>) -> bool {
    &&& bytes.len() > 0
    &&& forall|i: int| 0 <= i < bytes.len() ==> bytes[i] != NEWLINE
}

/// Whether `text` begins with `pattern`.
pub open spec fn starts_with(text: Seq<u8>, pattern: Seq<u8>) -> bool {
    pattern.len() <= text.len() && text.take(pattern.len() as int) == pattern
}

/// Whether `pattern` occurs in `text` at some position.
pub open spec fn occurs_in(text: Seq<u8>, pattern: Seq<u8>) -> bool {
    exists|i: int| 0 <= i <= text.len() && #[trigger] starts_with(text.skip(i), pattern)
}

/// `text` with every occurrence of `pattern` replaced by `replacement`,
/// scanning from the left and never matching inside an earlier match.
pub open spec fn replace_all(text: Seq<u8>, pattern: Seq<u8>, replacement: Seq<u8>) -> Seq<u8>
    decreases text.len(),
{
    if pattern.len() == 0 || text.len() == 0 {
        text
    } else if starts_with(text, pattern) {
        replacement + replace_all(text.skip(pattern.len() as int), pattern, replacement)
    } else {
        seq![text[0]] + replace_all(text.skip(1), pattern, replacement)
    }
}

/// The mathematical content of a rule.
pub struct RuleView {
    pub pattern: Seq<u8>,
    pub replacement: Seq<u8>,
}

/// Whether a rule's pattern and replacement are both fragments.
pub open spec fn is_rule(rule: RuleView) -> bool {
    is_fragment(rule.pattern) && is_fragment(rule.replacement)
}

/// `line` after applying `rules` one after the other, first rule first.
pub open spec fn mask_line(rules: Seq<RuleView>, line: Seq<u8>) -> Seq<u8>
    decreases rules.len(),
{
    if rules.len() == 0 {
        line
    } else {
        mask_line(
            rules.drop_first(),
            replace_all(line, rules[0].pattern, rules[0].replacement),
        )
    }
}

/// Every line of `lines` masked by `rules`.
pub open spec fn mask_lines(rules: Seq<RuleView>, lines: Seq<Seq<u8>>) -> Seq<Seq<u8>> {
    Seq::new(lines.len(), |i: int| mask_line(rules, lines[i]))
}

/// The rules held by a vector of rules.
pub open spec fn rules_view(rules: Seq<MaskRule>) -> Seq<RuleView> {
    Seq::new(rules.len(), |i: int| rules[i]@)
}

/// Text without a terminator stays without one, and stays non-empty.
pub proof fn lemma_replace_plain(text: Seq<u8>, pattern: Seq<u8>, replacement: Seq<u8>)
    requires
        is_fragment(pattern),
        is_fragment(replacement),
        forall|i: int| 0 <= i < text.len() ==> text[i] != NEWLINE,
    ensures
        forall|i: int|
            0 <= i < replace_all(text, pattern, replacement).len() ==> replace_all(
                text,
                pattern,
                replacement,
            )[i] != NEWLINE,
        text.len() > 0 ==> replace_all(text, pattern, replacement).len() > 0,
    decreases text.len(),
{
    let out = replace_all(text, pattern, replacement);
    if text.len() > 0 {
        if starts_with(text, pattern) {
            let rest = replace_all(text.skip(pattern.len() as int), pattern, replacement);
            lemma_replace_plain(text.skip(pattern.len() as int), pattern, replacement);
            assert forall|i: int| 0 <= i < out.len() implies out[i] != NEWLINE by {
                if i < replacement.len() {
                    assert(out[i] == replacement[i]);
                } else {
                    assert(out[i] == rest[i - replacement.len()]);
                }
            }
        } else {
            let rest = replace_all(text.skip(1), pattern, replacement);
            lemma_replace_plain(text.skip(1), pattern, replacement);
            assert forall|i: int| 0 <= i < out.len() implies out[i] != NEWLINE by {
                if i == 0 {
                    assert(out[i] == text[0]);
                } else {
                    assert(out[i] == rest[i - 1]);
                }
            }
        }
    }
}

/// A terminator at the end of a text is left where it is.
pub proof fn lemma_replace_terminated(body: Seq<u8>, pattern: Seq<u8>, replacement: Seq<u8>)
    requires
        is_fragment(pattern),
        forall|i: int| 0 <= i < body.len() ==> body[i] != NEWLINE,
    ensures
        replace_all(body + seq![NEWLINE], pattern, replacement) == replace_all(
            body,
            pattern,
            replacement,
        ) + seq![NEWLINE],
    decreases body.len(),
{
    let text = body + seq![NEWLINE];
    let p = pattern.len() as int;
    if starts_with(text, pattern) {
        if p > body.len() {
            assert(text.take(p)[body.len() as int] == NEWLINE);
            assert(pattern[body.len() as int] != NEWLINE);
        }
        assert(body.take(p) == text.take(p));
        assert(text.skip(p) == body.skip(p) + seq![NEWLINE]);
        lemma_replace_terminated(body.skip(p), pattern, replacement);
        assert(replacement + (replace_all(body.skip(p), pattern, replacement) + seq![NEWLINE])
            == (replacement + replace_all(body.skip(p), pattern, replacement)) + seq![NEWLINE]);
    } else if body.len() == 0 {
        assert(text.skip(1) == Seq::<u8>::empty());
        assert(replace_all(text.skip(1), pattern, replacement) == Seq::<u8>::empty());
        assert(replace_all(body, pattern, replacement) == Seq::<u8>::empty());
        assert(text == seq![text[0]] + Seq::<u8>::empty());
    } else {
        if starts_with(body, pattern) {
            assert(text.take(p) == body.take(p));
        }
        assert(text[0] == body[0]);
        assert(text.skip(1) == body.skip(1) + seq![NEWLINE]);
        lemma_replace_terminated(body.skip(1), pattern, replacement);
        assert(seq![body[0]] + (replace_all(body.skip(1), pattern, replacement) + seq![NEWLINE])
            == (seq![body[0]] + replace_all(body.skip(1), pattern, replacement)) + seq![NEWLINE]);
    }
}

/// Replacing inside a line gives one line, terminated exactly when the line was.
pub proof fn lemma_replace_keeps_line(line: Seq<u8>, pattern: Seq<u8>, replacement: Seq<u8>)
    requires
        is_line(line),
        is_fragment(pattern),
        is_fragment(replacement),
    ensures
        is_line(replace_all(line, pattern, replacement)),
        is_terminated(replace_all(line, pattern, replacement)) == is_terminated(line),
{
    let masked = replace_all(line, pattern, replacement);
    if is_terminated(line) {
        let body = line.drop_last();
        assert(line == body + seq![NEWLINE]);
        assert forall|i: int| 0 <= i < body.len() implies body[i] != NEWLINE by {
            assert(body[i] == line[i]);
        }
        lemma_replace_terminated(body, pattern, replacement);
        lemma_replace_plain(body, pattern, replacement);
        let inner = replace_all(body, pattern, replacement);
        assert(masked == inner + seq![NEWLINE]);
        assert forall|i: int| 0 <= i < masked.len() - 1 implies masked[i] != NEWLINE by {
            assert(masked[i] == inner[i]);
        }
        assert(masked.last() == NEWLINE);
    } else {
        assert forall|i: int| 0 <= i < line.len() implies line[i] != NEWLINE by {
            if i == line.len() - 1 {
                assert(line[i] == line.last());
            }
        }
        lemma_replace_plain(line, pattern, replacement);
        assert(masked.last() == masked[masked.len() - 1]);
    }
}

/// A text in which the pattern does not occur is left as it is.
pub proof fn lemma_replace_without_match(text: Seq<u8>, pattern: Seq<u8>, replacement: Seq<u8>)
    requires
        !occurs_in(text, pattern),
    ensures
        replace_all(text, pattern, replacement) == text,
    decreases text.len(),
{
    if pattern.len() > 0 && text.len() > 0 {
        assert(text.skip(0) == text);
        assert(!starts_with(text.skip(0), pattern));
        let rest = text.skip(1);
        assert forall|i: int| 0 <= i <= rest.len() implies !#[trigger] starts_with(
            rest.skip(i),
            pattern,
        ) by {
            assert(rest.skip(i) == text.skip(i + 1));
        }
        lemma_replace_without_match(rest, pattern, replacement);
        assert(seq![text[0]] + rest == text);
    }
}

/// Masking a line gives one line, terminated exactly when the line was.
pub proof fn lemma_mask_keeps_line(rules: Seq<RuleView>, line: Seq<u8>)
    requires
        is_line(line),
        valid_rules(rules),
    ensures
        is_line(mask_line(rules, line)),
        is_terminated(mask_line(rules, line)) == is_terminated(line),
    decreases rules.len(),
{
    if rules.len() > 0 {
        assert(is_rule(rules[0]));
        lemma_replace_keeps_line(line, rules[0].pattern, rules[0].replacement);
        let rest = rules.drop_first();
        assert forall|i: int| 0 <= i < rest.len() implies is_rule(#[trigger] rest[i]) by {
            assert(rest[i] == rules[i + 1]);
        }
        lemma_mask_keeps_line(rest, replace_all(line, rules[0].pattern, rules[0].replacement));
    }
}

/// Masking keeps the number of lines and their well-formedness.
pub proof fn lemma_mask_keeps_lines(rules: Seq<RuleView>, lines: Seq<Seq<u8>>)
    requires
        well_formed(lines),
        valid_rules(rules),
    ensures
        mask_lines(rules, lines).len() == lines.len(),
        well_formed(mask_lines(rules, lines)),
{
    let masked = mask_lines(rules, lines);
    assert forall|i: int| 0 <= i < masked.len() implies is_line(#[trigger] masked[i]) by {
        assert(is_line(lines[i]));
        lemma_mask_keeps_line(rules, lines[i]);
    }
    assert forall|i: int| 0 <= i < masked.len() - 1 implies is_terminated(
        #[trigger] masked[i],
    ) by {
        assert(is_line(lines[i]));
        assert(is_terminated(lines[i]));
        lemma_mask_keeps_line(rules, lines[i]);
    }
}

/// One masking rule: a literal pattern and the placeholder that takes its place.
#[derive(Debug)]
pub struct MaskRule {
    pattern: Vec<u8>,
    replacement: Vec<u8>,
}

impl View for MaskRule {
    type V = RuleView;

    closed spec fn view(&self) -> RuleView {
        RuleView { pattern: self.pattern@, replacement: self.replacement@ }
    }
}

/// Whether `bytes` can stand in a rule.
pub fn check_fragment(bytes: &[u8]) -> (ok: bool)
    ensures
        ok == is_fragment(bytes@),
{
    if bytes.len() == 0 {
        return false;
    }
    let mut i: usize = 0;
    while i < bytes.len()
        invariant
            i <= bytes@.len(),
            forall|j: int| 0 <= j < i ==> bytes@[j] != NEWLINE,
        decreases bytes@.len() - i,
    {
        if bytes[i] == NEWLINE {
            return false;
        }
        i = i + 1;
    }
    true
}

/// Whether `pattern` stands in `text` at position `at`.
pub fn matches_at(text: &[u8], at: usize, pattern: &[u8]) -> (hit: bool)
    requires
        at <= text@.len(),
    ensures
        hit == starts_with(text@.skip(at as int), pattern@),
{
    if pattern.len() > text.len() - at {
        return false;
    }
    let ghost tail = text@.skip(at as int);
    let n = text.len();
    let mut k: usize = 0;
    while k < pattern.len()
        invariant
            k <= pattern@.len(),
            n == text@.len(),
            at + pattern@.len() <= n,
            tail == text@.skip(at as int),
            forall|j: int| 0 <= j < k ==> text@[at + j] == pattern@[j],
        decreases pattern@.len() - k,
    {
        if text[at + k] != pattern[k] {
            proof {
                assert(tail.take(pattern@.len() as int)[k as int] == text@[at + k]);
            }
            return false;
        }
        k = k + 1;
    }
    proof {
        assert(tail.take(pattern@.len() as int) =~= pattern@);
    }
    true
}

impl MaskRule {
    #[verifier::type_invariant]
    spec fn inv(self) -> bool {
        is_fragment(self.pattern@) && is_fragment(self.replacement@)
    }

    /// Makes a rule, if both parts are fragments.
    pub fn new(pattern: &[u8], replacement: &[u8]) -> (rule: Option<MaskRule>)
        ensures
            rule is Some <==> is_fragment(pattern@) && is_fragment(replacement@),
            rule matches Some(r) ==> r@.pattern == pattern@ && r@.replacement == replacement@,
    {
        if check_fragment(pattern) && check_fragment(replacement) {
            Some(MaskRule { pattern: copy_bytes(pattern), replacement: copy_bytes(replacement) })
        } else {
            None
        }
    }

    /// The pattern that the rule looks for.
    pub fn pattern(&self) -> (pattern: &Vec<u8>)
        ensures
            pattern@ == self@.pattern,
            is_rule(self@),
    {
        proof {
            use_type_invariant(self);
        }
        &self.pattern
    }

    /// The placeholder that the rule puts in.
    pub fn replacement(&self) -> (replacement: &Vec<u8>)
        ensures
            replacement@ == self@.replacement,
            is_rule(self@),
    {
        proof {
            use_type_invariant(self);
        }
        &self.replacement
    }

    /// Replaces every occurrence of the pattern in `text`.
    pub fn apply(&self, text: &[u8]) -> (masked: Vec<u8>)
        ensures
            masked@ == replace_all(text@, self@.pattern, self@.replacement),
            is_rule(self@),
    {
        proof {
            use_type_invariant(self);
        }
        let ghost p = self.pattern@;
        let ghost r = self.replacement@;
        let mut masked: Vec<u8> = Vec::new();
        let mut i: usize = 0;
        proof {
            assert(text@.skip(0) == text@);
            assert(masked@ + replace_all(text@, p, r) == replace_all(text@, p, r));
        }
        while i < text.len()
            invariant
                i <= text@.len(),
                p == self.pattern@,
                r == self.replacement@,
                p.len() > 0,
                replace_all(text@, p, r) == masked@ + replace_all(text@.skip(i as int), p, r),
            decreases text@.len() - i,
        {
            let ghost tail = text@.skip(i as int);
            let ghost before = masked@;
            if matches_at(text, i, self.pattern.as_slice()) {
                append_bytes(&mut masked, self.replacement.as_slice());
                proof {
                    assert(tail.skip(p.len() as int) == text@.skip(i + p.len()));
                    assert(before + (r + replace_all(tail.skip(p.len() as int), p, r)) == (before
                        + r) + replace_all(tail.skip(p.len() as int), p, r));
                }
                i = i + self.pattern.len();
            } else {
                masked.push(text[i]);
                proof {
                    assert(tail.skip(1) == text@.skip(i + 1));
                    assert(tail[0] == text@[i as int]);
                    let rest = replace_all(tail.skip(1), p, r);
                    assert(before + (seq![tail[0]] + rest) == before.push(tail[0]) + rest);
                }
                i = i + 1;
            }
        }
        proof {
            assert(replace_all(text@.skip(i as int), p, r) == Seq::<u8>::empty());
            assert(masked@ + Seq::<u8>::empty() == masked@);
        }
        masked
    }
}

/// Output after masking: what is compared with a golden and what becomes one.
#[derive(Debug)]
pub struct NormalizedOutput {
    lines: Vec<Vec<u8>>,
    exit_status: i32,
}

impl View for NormalizedOutput {
    type V = OutputView;

    closed spec fn view(&self) -> OutputView {
        OutputView { lines: lines_view(self.lines@), exit_status: self.exit_status }
    }
}

impl NormalizedOutput {
    #[verifier::type_invariant]
    spec fn inv(self) -> bool {
        well_formed(lines_view(self.lines@))
    }

    /// The masked lines, each with its terminator.
    pub fn lines(&self) -> (lines: &Vec<Vec<u8>>)
        ensures
            lines_view(lines@) == self@.lines,
            well_formed(self@.lines),
    {
        proof {
            use_type_invariant(self);
        }
        &self.lines
    }

    /// The exit status of the process that printed the output.
    pub fn exit_status(&self) -> (status: i32)
        ensures
            status == self@.exit_status,
    {
        self.exit_status
    }

    /// The masked text as it is stored in a golden.
    pub fn to_bytes(&self) -> (text: Vec<u8>)
        ensures
            text@ == join_lines(self@.lines),
            well_formed(self@.lines),
    {
        proof {
            use_type_invariant(self);
        }
        join(&self.lines)
    }
}

/// Whether every rule of the list is a rule.
pub open spec fn valid_rules(rules: Seq<RuleView>) -> bool {
    forall|i: int| 0 <= i < rules.len() ==> is_rule(#[trigger] rules[i])
}

/// The placeholder that stands for the root of the workspace: `<ROOT>`.
pub open spec fn root_placeholder() -> Seq<u8> {
    seq![60u8, 82u8, 79u8, 79u8, 84u8, 62u8]
}

/// The rules for a machine on which the workspace lies at `root`.
pub open spec fn root_rules(root: Seq<u8>) -> Seq<RuleView> {
    if is_fragment(root) {
        seq![RuleView { pattern: root, replacement: root_placeholder() }]
    } else {
        Seq::empty()
    }
}

/// The fixed list of masking rules, applied to every case alike.
#[derive(Debug)]
pub struct Normalizer {
    rules: Vec<MaskRule>,
}

impl View for Normalizer {
    type V = Seq<RuleView>;

    closed spec fn view(&self) -> Seq<RuleView> {
        rules_view(self.rules@)
    }
}

impl Normalizer {
    #[verifier::type_invariant]
    spec fn inv(self) -> bool {
        valid_rules(rules_view(self.rules@))
    }

    /// A normalizer without rules, which masks nothing.
    pub fn new() -> (normalizer: Normalizer)
        ensures
            normalizer@ == Seq::<RuleView>::empty(),
    {
        let normalizer = Normalizer { rules: Vec::new() };
        proof {
            assert(normalizer@ =~= Seq::<RuleView>::empty());
        }
        normalizer
    }

    /// The masks for a machine on which the workspace lies at `root`: the
    /// root reads `<ROOT>` everywhere. A root that cannot stand in a rule
    /// gives a normalizer without rules.
    pub fn for_root(root: &[u8]) -> (normalizer: Normalizer)
        ensures
            normalizer@ == root_rules(root@),
            valid_rules(normalizer@),
    {
        let placeholder: [u8; 6] = [60, 82, 79, 79, 84, 62];
        proof {
            assert(placeholder@ =~= root_placeholder());
        }
        match MaskRule::new(root, placeholder.as_slice()) {
            Some(rule) => {
                let normalizer = Normalizer::new().with_rule(rule);
                proof {
                    assert(normalizer@ =~= root_rules(root@));
                }
                normalizer
            },
            None => {
                let normalizer = Normalizer::new();
                let _ = normalizer.rules();
                normalizer
            },
        }
    }

    /// The same normalizer with `rule` applied after the rules it has.
    pub fn with_rule(self, rule: MaskRule) -> (normalizer: Normalizer)
        ensures
            normalizer@ == self@.push(rule@),
            valid_rules(normalizer@),
    {
        proof {
            use_type_invariant(&self);
            use_type_invariant(&rule);
        }
        let ghost before = self@;
        let mut rules = self.rules;
        rules.push(rule);
        proof {
            assert(rules_view(rules@) =~= before.push(rule@));
            assert forall|i: int| 0 <= i < rules@.len() implies is_rule(
                #[trigger] rules_view(rules@)[i],
            ) by {
                if i < before.len() {
                    assert(rules_view(rules@)[i] == before[i]);
                }
            }
        }
        Normalizer { rules }
    }

    /// The rules, in the order in which they are applied.
    pub fn rules(&self) -> (rules: &Vec<MaskRule>)
        ensures
            rules_view(rules@) == self@,
            valid_rules(self@),
    {
        proof {
            use_type_invariant(self);
        }
        &self.rules
    }

    /// Masks one line.
    pub fn mask(&self, line: &[u8]) -> (masked: Vec<u8>)
        ensures
            masked@ == mask_line(self@, line@),
            valid_rules(self@),
    {
        proof {
            use_type_invariant(self);
        }
        let ghost rules = self@;
        let mut current = copy_bytes(line);
        let mut i: usize = 0;
        proof {
            assert(rules.skip(0) == rules);
        }
        while i < self.rules.len()
            invariant
                i <= self.rules@.len(),
                rules == rules_view(self.rules@),
                mask_line(rules, line@) == mask_line(rules.skip(i as int), current@),
            decreases self.rules@.len() - i,
        {
            let next = self.rules[i].apply(current.as_slice());
            proof {
                let rest = rules.skip(i as int);
                assert(rest[0] == self.rules@[i as int]@);
                assert(rest.drop_first() == rules.skip(i + 1));
            }
            current = next;
            i = i + 1;
        }
        proof {
            assert(rules.skip(i as int).len() == 0);
        }
        current
    }

    /// Masks every line of `captured`. The number of lines and the exit status
    /// stay as they are.
    pub fn normalize(&self, captured: &CapturedOutput) -> (normalized: NormalizedOutput)
        ensures
            normalized@ == normalize_spec(self@, captured@),
            normalized@.lines.len() == captured@.lines.len(),
            well_formed(normalized@.lines),
            valid_rules(self@),
    {
        proof {
            use_type_invariant(self);
        }
        let ghost rules = self@;
        let raw = captured.lines();
        let mut lines: Vec<Vec<u8>> = Vec::new();
        let mut i: usize = 0;
        while i < raw.len()
            invariant
                i <= raw@.len(),
                rules == self@,
                lines@.len() == i,
                forall|j: int| 0 <= j < i ==> (#[trigger] lines@[j])@ == mask_line(rules, raw@[j]@),
            decreases raw@.len() - i,
        {
            let masked = self.mask(raw[i].as_slice());
            lines.push(masked);
            i = i + 1;
        }
        proof {
            assert(lines_view(lines@) =~= mask_lines(rules, lines_view(raw@)));
            lemma_mask_keeps_lines(rules, captured@.lines);
        }
        NormalizedOutput { lines, exit_status: captured.exit_status() }
    }
}

/// What normalizing `captured` with `rules` gives.
pub open spec fn normalize_spec(rules: Seq<RuleView>, captured: OutputView) -> OutputView {
    OutputView { lines: mask_lines(rules, captured.lines), exit_status: captured.exit_status }
}

/// Determinism: normalizing depends on nothing but the rules and the captured
/// output. Two runs that print the same and exit alike normalize to the same
/// output, line for line.
pub proof fn lemma_normalize_deterministic(
    rules: Seq<RuleView>,
    first: OutputView,
    second: OutputView,
)
    requires
        first.lines == second.lines,
        first.exit_status == second.exit_status,
    ensures
        normalize_spec(rules, first) == normalize_spec(rules, second),
        normalize_spec(rules, first).lines.len() == first.lines.len(),
{
}

} // verus!
