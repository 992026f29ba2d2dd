use rtrim::{collect_trailing_lines, rewrite_lines, strip_terminator, trim_line, DiffLine};

fn raw(lines: &[&str]) -> Vec<Vec<u8>> {
    lines.iter().map(|l| l.as_bytes().to_vec()).collect()
}

fn joined(out: &[Vec<u8>]) -> Vec<u8> {
    out.concat()
}

#[test]
fn terminators_are_stripped() {
    assert_eq!(strip_terminator(b"abc\n"), b"abc".to_vec());
    assert_eq!(strip_terminator(b"abc\r\n"), b"abc".to_vec());
    assert_eq!(strip_terminator(b"abc"), b"abc".to_vec());
    assert_eq!(strip_terminator(b"abc\r"), b"abc\r".to_vec());
    assert_eq!(strip_terminator(b"\n"), Vec::<u8>::new());
}

#[test]
fn trim_removes_only_trailing_spaces_and_tabs() {
    assert_eq!(trim_line(&b"foo \t \t".to_vec()), b"foo".to_vec());
    assert_eq!(trim_line(&b"  foo".to_vec()), b"  foo".to_vec());
    assert_eq!(trim_line(&b" \t ".to_vec()), Vec::<u8>::new());
    assert_eq!(trim_line(&b"foo\r".to_vec()), b"foo\r".to_vec());
}

#[test]
fn staged_trailing_space_is_trimmed_end_to_end() {
    let diff = vec![
        DiffLine { path: "a.txt".to_string(), new_lineno: Some(1), content: b"foo \n".to_vec() },
        DiffLine { path: "a.txt".to_string(), new_lineno: Some(2), content: b"bar\n".to_vec() },
    ];
    let m = collect_trailing_lines(&diff);
    assert_eq!(m.paths(), vec!["a.txt".to_string()]);
    let out = rewrite_lines(&raw(&["foo \n", "bar\n"]), &m.files[0].lines, b"\n");
    assert_eq!(joined(&out), b"foo\nbar\n".to_vec());
}

#[test]
fn exactly_lines_three_and_seven_are_trimmed() {
    let input = raw(&["1 \n", "2 \n", "3 \n", "4 \n", "5 \n", "6 \n", "7 \t\n", "8 \n", "9 \n"]);
    let out = rewrite_lines(&input, &vec![3, 7], b"\n");
    assert_eq!(joined(&out), b"1 \n2 \n3\n4 \n5 \n6 \n7\n8 \n9 \n".to_vec());
}

#[test]
fn empty_queue_keeps_content() {
    let input = raw(&["a \n", "b\t\n", "c\n"]);
    let out = rewrite_lines(&input, &Vec::new(), b"\n");
    assert_eq!(joined(&out), b"a \nb\t\nc\n".to_vec());
}

#[test]
fn empty_queue_normalizes_terminators_only() {
    let input = raw(&["a \r\n", "b"]);
    let out = rewrite_lines(&input, &Vec::new(), b"\n");
    assert_eq!(joined(&out), b"a \nb\n".to_vec());
}

#[test]
fn last_line_gains_terminator() {
    let input = raw(&["x\n", "y  "]);
    let out = rewrite_lines(&input, &vec![2], b"\r\n");
    assert_eq!(joined(&out), b"x\r\ny\r\n".to_vec());
}

#[test]
fn queue_beyond_end_of_file_is_ignored() {
    let input = raw(&["a \n", "b \n"]);
    let out = rewrite_lines(&input, &vec![2, 9], b"\n");
    assert_eq!(joined(&out), b"a \nb\n".to_vec());
}

#[test]
fn empty_file_stays_empty() {
    let out = rewrite_lines(&Vec::new(), &vec![1], b"\n");
    assert!(out.is_empty());
}

#[test]
fn second_run_changes_nothing() {
    let input = raw(&["foo \n", "bar\t\n", "baz\n"]);
    let first = rewrite_lines(&input, &vec![1, 2], b"\n");
    let second = rewrite_lines(&first, &Vec::new(), b"\n");
    assert_eq!(first, second);
    let diff: Vec<DiffLine> = first
        .iter()
        .enumerate()
        .map(|(i, l)| DiffLine { path: "f".to_string(), new_lineno: Some(i as u32 + 1), content: l.clone() })
        .collect();
    assert!(collect_trailing_lines(&diff).is_empty());
}

#[test]
fn non_utf8_line_that_is_not_queued_is_kept() {
    let input = vec![vec![0xffu8, 0x20, 0x0a], b"ok \n".to_vec()];
    let out = rewrite_lines(&input, &vec![2], b"\n");
    assert_eq!(joined(&out), vec![0xff, 0x20, 0x0a, b'o', b'k', 0x0a]);
}
