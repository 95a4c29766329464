use xtask::compare::{compare, copy_line, diff_lines, Comparison, LineDiff};
use xtask::diff::{diff, render, Change};
use xtask::lines::split;
use xtask::normalize::Normalizer;
use xtask::output::CapturedOutput;

fn lines_of(text: &[u8]) -> Vec<Vec<u8>> {
    split(text)
}

#[test]
fn equal_texts_compare_the_same() {
    let actual = Normalizer::new().normalize(&CapturedOutput::new(0, b"INFO hello\n"));
    assert_eq!(compare(b"INFO hello\n", &actual), Comparison::Same);
}

#[test]
fn comparison_is_exact_about_whitespace_and_terminators() {
    let actual = Normalizer::new().normalize(&CapturedOutput::new(0, b"INFO hello\n"));
    assert!(matches!(compare(b"INFO hello", &actual), Comparison::Different(_)));
    assert!(matches!(compare(b"INFO hello \n", &actual), Comparison::Different(_)));
    assert!(matches!(compare(b"INFO hello\n\n", &actual), Comparison::Different(_)));
    assert!(matches!(compare(b"", &actual), Comparison::Different(_)));
}

#[test]
fn first_difference_names_index_and_both_lines() {
    let expected = lines_of(b"a\nb\nc\n");
    let actual = lines_of(b"a\nB\nc\n");
    assert_eq!(
        diff_lines(&expected, &actual),
        Some(LineDiff {
            index: 1,
            expected: Some(b"b\n".to_vec()),
            actual: Some(b"B\n".to_vec()),
        })
    );
}

#[test]
fn first_difference_where_one_side_ends() {
    let expected = lines_of(b"a\nb\n");
    let actual = lines_of(b"a\n");
    assert_eq!(
        diff_lines(&expected, &actual),
        Some(LineDiff { index: 1, expected: Some(b"b\n".to_vec()), actual: None })
    );
    assert_eq!(
        diff_lines(&actual, &expected),
        Some(LineDiff { index: 1, expected: None, actual: Some(b"b\n".to_vec()) })
    );
}

#[test]
fn no_difference_between_equal_lines() {
    let lines = lines_of(b"a\nb\n");
    assert_eq!(diff_lines(&lines, &lines_of(b"a\nb\n")), None);
    let none: Vec<Vec<u8>> = Vec::new();
    assert_eq!(diff_lines(&none, &none), None);
}

#[test]
fn copy_line_copies_or_finds_nothing() {
    let lines = lines_of(b"a\nb\n");
    assert_eq!(copy_line(&lines, 1), Some(b"b\n".to_vec()));
    assert_eq!(copy_line(&lines, 2), None);
}

#[test]
fn mismatch_carries_first_difference_and_script() {
    let actual = Normalizer::new().normalize(&CapturedOutput::new(0, b"a\nx\nc\n"));
    let verdict = compare(b"a\nb\nc\n", &actual);
    match verdict {
        Comparison::Different(difference) => {
            assert_eq!(difference.first.index, 1);
            assert_eq!(difference.first.expected, Some(b"b\n".to_vec()));
            assert_eq!(difference.first.actual, Some(b"x\n".to_vec()));
            assert_eq!(
                difference.changes,
                vec![
                    Change::Keep(b"a\n".to_vec()),
                    Change::Remove(b"b\n".to_vec()),
                    Change::Add(b"x\n".to_vec()),
                    Change::Keep(b"c\n".to_vec()),
                ]
            );
        }
        Comparison::Same => panic!("the texts differ"),
    }
}

#[test]
fn script_of_equal_texts_keeps_everything() {
    let lines = lines_of(b"a\nb\n");
    assert_eq!(
        diff(&lines, &lines_of(b"a\nb\n")),
        vec![Change::Keep(b"a\n".to_vec()), Change::Keep(b"b\n".to_vec())]
    );
}

#[test]
fn script_of_nothing_is_empty() {
    let none: Vec<Vec<u8>> = Vec::new();
    assert!(diff(&none, &none).is_empty());
}

#[test]
fn script_from_nothing_adds_and_to_nothing_removes() {
    let none: Vec<Vec<u8>> = Vec::new();
    let lines = lines_of(b"a\nb\n");
    assert_eq!(
        diff(&none, &lines),
        vec![Change::Add(b"a\n".to_vec()), Change::Add(b"b\n".to_vec())]
    );
    assert_eq!(
        diff(&lines, &none),
        vec![Change::Remove(b"a\n".to_vec()), Change::Remove(b"b\n".to_vec())]
    );
}

#[test]
fn script_keeps_a_longest_common_subsequence() {
    let expected = lines_of(b"a\nb\nc\nd\ne\n");
    let actual = lines_of(b"b\nx\nd\ne\nf\n");
    let script = diff(&expected, &actual);
    let kept: Vec<&Change> = script.iter().filter(|c| matches!(c, Change::Keep(_))).collect();
    assert_eq!(kept.len(), 3);
    assert_eq!(
        script,
        vec![
            Change::Remove(b"a\n".to_vec()),
            Change::Keep(b"b\n".to_vec()),
            Change::Remove(b"c\n".to_vec()),
            Change::Add(b"x\n".to_vec()),
            Change::Keep(b"d\n".to_vec()),
            Change::Keep(b"e\n".to_vec()),
            Change::Add(b"f\n".to_vec()),
        ]
    );
}

#[test]
fn script_leads_from_expected_to_actual() {
    let expected = lines_of(b"one\ntwo\nthree\nfour\n");
    let actual = lines_of(b"zero\none\nthree\nfive\nfour");
    let script = diff(&expected, &actual);
    let mut old_side: Vec<Vec<u8>> = Vec::new();
    let mut new_side: Vec<Vec<u8>> = Vec::new();
    for change in &script {
        match change {
            Change::Keep(line) => {
                old_side.push(line.clone());
                new_side.push(line.clone());
            }
            Change::Remove(line) => old_side.push(line.clone()),
            Change::Add(line) => new_side.push(line.clone()),
        }
    }
    assert_eq!(old_side, expected);
    assert_eq!(new_side, actual);
}

#[test]
fn render_marks_each_line() {
    let script = vec![
        Change::Keep(b"a\n".to_vec()),
        Change::Remove(b"b\n".to_vec()),
        Change::Add(b"x".to_vec()),
    ];
    assert_eq!(render(&script), b" a\n-b\n+x\n".to_vec());
    assert!(render(&Vec::new()).is_empty());
}
