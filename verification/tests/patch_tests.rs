use xuflow_core::patch::{
    apply_hunk, find_hunk_position, parse_hunk_header, parse_range, parse_unified_diff,
    patch_file_content,
};

#[test]
fn test_parse_hunk_header_basic() {
    let hunk = parse_hunk_header("@@ -10,7 +10,6 @@").unwrap();
    assert_eq!(hunk.old_start, 10);
    assert_eq!(hunk.old_count, 7);
    assert_eq!(hunk.new_start, 10);
    assert_eq!(hunk.new_count, 6);
}

#[test]
fn test_parse_hunk_header_no_count() {
    let hunk = parse_hunk_header("@@ -1 +1,3 @@").unwrap();
    assert_eq!(hunk.old_start, 1);
    assert_eq!(hunk.old_count, 1);
    assert_eq!(hunk.new_start, 1);
    assert_eq!(hunk.new_count, 3);
}

#[test]
fn test_parse_hunk_header_context() {
    let hunk = parse_hunk_header("@@ -15,4 +15,5 @@ fn main() {").unwrap();
    assert_eq!(hunk.old_start, 15);
    assert_eq!(hunk.old_count, 4);
    assert_eq!(hunk.new_start, 15);
    assert_eq!(hunk.new_count, 5);
}

#[test]
fn test_parse_unified_diff_single_hunk() {
    let diff = "--- a/foo.txt\n+++ b/foo.txt\n@@ -1,3 +1,3 @@\n line1\n-line2\n+line2_new\n line3\n";
    let (path, hunks) = parse_unified_diff(diff).unwrap();
    assert_eq!(path.unwrap(), "foo.txt");
    assert_eq!(hunks.len(), 1);
    assert_eq!(hunks[0].lines.len(), 4);
}

#[test]
fn test_parse_unified_diff_multi_hunk() {
    let diff = "@@ -1,3 +1,3 @@\n a\n-b\n+c\n d\n@@ -10,2 +10,3 @@\n x\n-y\n+z\n w\n";
    let (_path, hunks) = parse_unified_diff(diff).unwrap();
    assert_eq!(hunks.len(), 2);
}

#[test]
fn test_parse_unified_diff_no_hunks() {
    let diff = "just some text\nwithout hunks\n";
    let result = parse_unified_diff(diff);
    assert!(result.is_err());
}

#[test]
fn test_find_hunk_position_exact() {
    let file_lines: Vec<String> = vec![
        "line1".into(), "line2".into(), "line3".into(), "line4".into(),
    ];
    let diff = "@@ -2,2 +2,2 @@\n line2\n line3\n";
    let (_, hunks) = parse_unified_diff(diff).unwrap();
    let pos = find_hunk_position(&file_lines, &hunks[0]);
    assert_eq!(pos, Some(1));
}

#[test]
fn test_find_hunk_position_offset() {
    let file_lines: Vec<String> = vec![
        "line0".into(), "line1".into(), "line2".into(), "line3".into(),
        "line4".into(),
    ];
    let diff = "@@ -5,3 +5,3 @@\n line1\n line2\n line3\n";
    let (_, hunks) = parse_unified_diff(diff).unwrap();
    let pos = find_hunk_position(&file_lines, &hunks[0]);
    assert_eq!(pos, Some(1));
}

#[test]
fn test_apply_hunk_simple() {
    let mut file_lines: Vec<String> = vec![
        "line1".into(), "old_line".into(), "line3".into(),
    ];
    let diff = "@@ -2,1 +2,1 @@\n-old_line\n+new_line\n";
    let (_, hunks) = parse_unified_diff(diff).unwrap();
    apply_hunk(&mut file_lines, &hunks[0], 1);
    assert_eq!(file_lines, vec!["line1", "new_line", "line3"]);
}

#[test]
fn test_apply_hunk_add_lines() {
    let mut file_lines: Vec<String> = vec![
        "line1".into(), "line2".into(),
    ];
    let diff = "@@ -1,1 +1,3 @@\n line1\n+line1.5\n+line1.8\n";
    let (_, hunks) = parse_unified_diff(diff).unwrap();
    apply_hunk(&mut file_lines, &hunks[0], 0);
    assert_eq!(file_lines, vec!["line1", "line1.5", "line1.8", "line2"]);
}

// ── further cases ─────────────────────────────────────────────

#[test]
fn parse_range_errors_and_plus_sign() {
    assert_eq!(parse_range("+7,2"), Ok((7, 2)));
    assert_eq!(parse_range("12"), Ok((12, 1)));
    assert_eq!(parse_range("x,2"), Err("无效行号: x".to_string()));
    assert_eq!(parse_range("3,"), Err("无效行数: ".to_string()));
    assert_eq!(parse_range(""), Err("无效行号: ".to_string()));
}

#[test]
fn parse_hunk_header_errors() {
    assert_eq!(parse_hunk_header("no markers").err().unwrap(), "hunk header 缺少开头的 @@");
    assert_eq!(parse_hunk_header("@@ -1 +1").err().unwrap(), "hunk header 缺少结尾的 @@");
    assert_eq!(parse_hunk_header("@@ -1 @@").err().unwrap(), "hunk header 缺少行号范围");
}

#[test]
fn parse_unified_diff_bad_header_message() {
    let err = parse_unified_diff("@@ -a +1 @@\n x\n").err().unwrap();
    assert_eq!(err, "无法解析 hunk header '@@ -a +1 @@': 无效行号: a");
}

#[test]
fn parse_unified_diff_unprefixed_line_is_context() {
    let (path, hunks) = parse_unified_diff("+++ a/src/x.rs\r\n@@ -1 +1 @@\r\nplain\r\n\r\n-gone\n").unwrap();
    assert_eq!(path.unwrap(), "src/x.rs");
    assert_eq!(hunks[0].lines.len(), 2);
    assert_eq!(hunks[0].lines[0].prefix, ' ');
    assert_eq!(hunks[0].lines[0].content, "plain");
    assert_eq!(hunks[0].lines[1].prefix, '-');
    assert_eq!(hunks[0].lines[1].content, "gone");
}

#[test]
fn find_prefers_earlier_on_tie_and_ignores_trailing_space() {
    // search starts at index 2; both index 1 and 3 match "a"
    let file_lines: Vec<String> = vec!["x".into(), "a  ".into(), "y".into(), "a".into()];
    let (_, hunks) = parse_unified_diff("@@ -3 +3 @@\n a\n").unwrap();
    assert_eq!(find_hunk_position(&file_lines, &hunks[0]), Some(1));
}

#[test]
fn find_gives_up_outside_window() {
    let mut file_lines: Vec<String> = Vec::new();
    for i in 0..20 {
        file_lines.push(format!("l{}", i));
    }
    let (_, hunks) = parse_unified_diff("@@ -1 +1 @@\n l12\n").unwrap();
    assert_eq!(find_hunk_position(&file_lines, &hunks[0]), None);
    let (_, hunks) = parse_unified_diff("@@ -1 +1 @@\n l5\n").unwrap();
    assert_eq!(find_hunk_position(&file_lines, &hunks[0]), Some(5));
}

#[test]
fn patch_content_applies_all_hunks_and_keeps_newline() {
    let original = "a\nb\nc\nd\ne\nf\n";
    let (_, hunks) =
        parse_unified_diff("@@ -1,2 +1,2 @@\n a\n-b\n+B\n@@ -5,2 +5,3 @@\n e\n+E\n f\n").unwrap();
    let (text, n) = patch_file_content(original, &hunks).unwrap();
    assert_eq!(text, "a\nB\nc\nd\ne\nE\nf\n");
    assert_eq!(n, 2);
}

#[test]
fn patch_content_is_all_or_nothing() {
    let (_, hunks) = parse_unified_diff("@@ -1 +1 @@\n-a\n+A\n@@ -2 +2 @@\n zzz\n").unwrap();
    let err = patch_file_content("a\nb", &hunks).err().unwrap();
    assert_eq!(
        err,
        "无法定位 hunk '@@ -2 +2 @@'：文件中未找到匹配的上下文行。请确认文件内容是否与 diff 预期一致。"
    );
}

#[test]
fn hunks_match_their_old_side() {
    let file_lines: Vec<String> = vec!["a".into(), "b".into(), "d".into()];
    let (_, hunks) = parse_unified_diff("@@ -1,3 +1,3 @@\n a\n-b\n+c\n d\n").unwrap();
    assert_eq!(find_hunk_position(&file_lines, &hunks[0]), Some(0));
    let other: Vec<String> = vec!["a".into(), "x".into(), "d".into()];
    assert_eq!(find_hunk_position(&other, &hunks[0]), None);
}
