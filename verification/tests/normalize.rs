use xtask::lines::append_bytes;
use xtask::normalize::{check_fragment, matches_at, MaskRule, Normalizer};
use xtask::output::CapturedOutput;

fn rule(pattern: &[u8], replacement: &[u8]) -> MaskRule {
    MaskRule::new(pattern, replacement).expect("a valid rule")
}

#[test]
fn rule_replaces_every_occurrence() {
    let home = rule(b"/home/ann", b"<HOME>");
    assert_eq!(
        home.apply(b"/home/ann/a.rs and /home/ann/b.rs\n"),
        b"<HOME>/a.rs and <HOME>/b.rs\n".to_vec()
    );
}

#[test]
fn rule_matches_leftmost_and_never_inside_a_match() {
    let pair = rule(b"aa", b"b");
    assert_eq!(pair.apply(b"aaa"), b"ba".to_vec());
    assert_eq!(pair.apply(b"aaaa"), b"bb".to_vec());
    assert_eq!(pair.apply(b"a"), b"a".to_vec());
}

#[test]
fn rule_does_not_rescan_what_it_put_in() {
    let grow = rule(b"a", b"aa");
    assert_eq!(grow.apply(b"aba"), b"aabaa".to_vec());
}

#[test]
fn rule_leaves_text_without_the_pattern_alone() {
    let home = rule(b"/home/ann", b"<HOME>");
    assert_eq!(home.apply(b"INFO hello\n"), b"INFO hello\n".to_vec());
    assert_eq!(home.apply(b""), Vec::<u8>::new());
    assert_eq!(home.apply(b"/home/an"), b"/home/an".to_vec());
}

#[test]
fn rule_keeps_its_parts() {
    let home = rule(b"/home/ann", b"<HOME>");
    assert_eq!(home.pattern(), &b"/home/ann".to_vec());
    assert_eq!(home.replacement(), &b"<HOME>".to_vec());
}

#[test]
fn rule_needs_fragments() {
    assert!(MaskRule::new(b"", b"x").is_none());
    assert!(MaskRule::new(b"x", b"").is_none());
    assert!(MaskRule::new(b"a\nb", b"x").is_none());
    assert!(MaskRule::new(b"x", b"a\n").is_none());
    assert!(MaskRule::new(b"x", b"y").is_some());
}

#[test]
fn fragments_are_not_empty_and_hold_no_terminator() {
    assert!(check_fragment(b"abc"));
    assert!(!check_fragment(b""));
    assert!(!check_fragment(b"\n"));
    assert!(!check_fragment(b"ab\n"));
}

#[test]
fn matches_at_looks_at_one_position() {
    assert!(matches_at(b"hello world", 6, b"world"));
    assert!(!matches_at(b"hello world", 5, b"world"));
    assert!(!matches_at(b"hello world", 7, b"world"));
    assert!(matches_at(b"hello", 5, b""));
    assert!(!matches_at(b"hello", 5, b"o"));
}

#[test]
fn append_bytes_appends() {
    let mut out = b"ab".to_vec();
    append_bytes(&mut out, b"cd");
    assert_eq!(out, b"abcd".to_vec());
}

#[test]
fn rules_apply_in_order() {
    let first_then_second = Normalizer::new()
        .with_rule(rule(b"a", b"b"))
        .with_rule(rule(b"b", b"c"));
    assert_eq!(first_then_second.mask(b"ab\n"), b"cc\n".to_vec());
    let second_then_first = Normalizer::new()
        .with_rule(rule(b"b", b"c"))
        .with_rule(rule(b"a", b"b"));
    assert_eq!(second_then_first.mask(b"ab\n"), b"bc\n".to_vec());
}

#[test]
fn normalizer_lists_its_rules_in_order() {
    let normalizer = Normalizer::new().with_rule(rule(b"a", b"b")).with_rule(rule(b"b", b"c"));
    assert_eq!(normalizer.rules().len(), 2);
    assert_eq!(normalizer.rules()[0].pattern(), &b"a".to_vec());
    assert_eq!(normalizer.rules()[1].pattern(), &b"b".to_vec());
    assert_eq!(normalizer.mask(b"ab"), b"cc".to_vec());
}

#[test]
fn normalizer_without_rules_changes_nothing() {
    let captured = CapturedOutput::new(0, b"INFO hello\nWARN bye");
    let normalized = Normalizer::new().normalize(&captured);
    assert_eq!(normalized.lines(), captured.lines());
    assert_eq!(normalized.to_bytes(), b"INFO hello\nWARN bye".to_vec());
}

#[test]
fn normalize_keeps_line_count_and_exit_status() {
    let captured = CapturedOutput::new(101, b"at /work/src/main.rs:3\n\nat /work/src/lib.rs:9");
    let normalizer = Normalizer::new().with_rule(rule(b"/work", b"<ROOT>"));
    let normalized = normalizer.normalize(&captured);
    assert_eq!(normalized.lines().len(), captured.lines().len());
    assert_eq!(normalized.exit_status(), 101);
    assert_eq!(
        normalized.lines(),
        &vec![
            b"at <ROOT>/src/main.rs:3\n".to_vec(),
            b"\n".to_vec(),
            b"at <ROOT>/src/lib.rs:9".to_vec(),
        ]
    );
}

#[test]
fn normalize_gives_the_same_for_the_same() {
    let normalizer = Normalizer::new().with_rule(rule(b"0x2000", b"<ADDR>"));
    let first = normalizer.normalize(&CapturedOutput::new(0, b"sp=0x2000\npc=0x2000\n"));
    let second = normalizer.normalize(&CapturedOutput::new(0, b"sp=0x2000\npc=0x2000\n"));
    assert_eq!(first.to_bytes(), second.to_bytes());
    assert_eq!(first.to_bytes(), b"sp=<ADDR>\npc=<ADDR>\n".to_vec());
}

#[test]
fn masking_removes_what_differs_between_machines() {
    let ann = Normalizer::new().with_rule(rule(b"/home/ann/defmt", b"<ROOT>"));
    let bob = Normalizer::new().with_rule(rule(b"/Users/bob/src/defmt", b"<ROOT>"));
    let on_ann = ann.normalize(&CapturedOutput::new(0, b"panicked at /home/ann/defmt/a.rs\n"));
    let on_bob = bob.normalize(&CapturedOutput::new(0, b"panicked at /Users/bob/src/defmt/a.rs\n"));
    assert_eq!(on_ann.to_bytes(), on_bob.to_bytes());
}

#[test]
fn captured_output_reports_its_status() {
    let ok = CapturedOutput::new(0, b"x\n");
    assert!(ok.succeeded());
    assert_eq!(ok.exit_status(), 0);
    let bad = CapturedOutput::new(101, b"x\n");
    assert!(!bad.succeeded());
    assert_eq!(bad.to_bytes(), b"x\n".to_vec());
}

#[test]
fn for_root_masks_the_root_of_the_workspace() {
    let normalizer = Normalizer::for_root(b"/home/ann/defmt");
    assert_eq!(normalizer.rules().len(), 1);
    assert_eq!(normalizer.rules()[0].replacement(), &b"<ROOT>".to_vec());
    assert_eq!(
        normalizer.mask(b"panicked at /home/ann/defmt/src/main.rs:7\n"),
        b"panicked at <ROOT>/src/main.rs:7\n".to_vec()
    );
}

#[test]
fn for_root_without_a_usable_root_masks_nothing() {
    assert!(Normalizer::for_root(b"").rules().is_empty());
    assert!(Normalizer::for_root(b"/odd\npath").rules().is_empty());
}
