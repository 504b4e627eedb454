use gh_agent::diff::{commentable_lines, parse_patch, LineKind};

#[test]
fn hunk_scenario_records_and_commentable_lines() {
    let hunks = parse_patch("@@ -1,2 +1,3 @@\n context\n-old\n+new1\n+new2");
    assert_eq!(hunks.len(), 1);
    let h = &hunks[0];
    assert_eq!((h.old_start, h.old_count, h.new_start, h.new_count), (1, 2, 1, 3));
    assert_eq!(h.lines.len(), 4);
    assert_eq!(h.lines[0].kind, LineKind::Context);
    assert_eq!(h.lines[0].content, "context");
    assert_eq!((h.lines[0].old_line, h.lines[0].new_line), (Some(1), Some(1)));
    assert_eq!(h.lines[1].kind, LineKind::Delete);
    assert_eq!(h.lines[1].content, "old");
    assert_eq!((h.lines[1].old_line, h.lines[1].new_line), (Some(2), None));
    assert_eq!(h.lines[2].kind, LineKind::Add);
    assert_eq!(h.lines[2].content, "new1");
    assert_eq!((h.lines[2].old_line, h.lines[2].new_line), (None, Some(2)));
    assert_eq!(h.lines[3].kind, LineKind::Add);
    assert_eq!(h.lines[3].content, "new2");
    assert_eq!((h.lines[3].old_line, h.lines[3].new_line), (None, Some(3)));
    let mut cl = commentable_lines(&hunks);
    cl.sort();
    assert_eq!(cl, vec![1, 2, 3]);
}

#[test]
fn empty_patch_has_no_hunks() {
    assert!(parse_patch("").is_empty());
    assert!(commentable_lines(&parse_patch("")).is_empty());
}

#[test]
fn omitted_counts_default_to_one() {
    let hunks = parse_patch("@@ -3 +4 @@ fn main\n-a\n+b");
    assert_eq!(hunks.len(), 1);
    assert_eq!(hunks[0].header, "@@ -3 +4 @@ fn main");
    assert_eq!((hunks[0].old_start, hunks[0].old_count), (3, 1));
    assert_eq!((hunks[0].new_start, hunks[0].new_count), (4, 1));
    assert_eq!(hunks[0].lines[0].old_line, Some(3));
    assert_eq!(hunks[0].lines[1].new_line, Some(4));
}

#[test]
fn line_numbers_ascend_in_each_hunk() {
    let patch = "@@ -10,3 +20,4 @@\n a\n-b\n+c\n+d\n e\n@@ -40,2 +50,2 @@\n x\n-y\n+z";
    let hunks = parse_patch(patch);
    assert_eq!(hunks.len(), 2);
    for h in &hunks {
        let news: Vec<u64> = h.lines.iter().filter_map(|l| l.new_line).collect();
        let olds: Vec<u64> = h.lines.iter().filter_map(|l| l.old_line).collect();
        assert_eq!(news[0], h.new_start);
        assert_eq!(olds[0], h.old_start);
        assert!(news.windows(2).all(|w| w[0] < w[1]));
        assert!(olds.windows(2).all(|w| w[0] < w[1]));
    }
    let news: Vec<u64> = hunks[0].lines.iter().filter_map(|l| l.new_line).collect();
    assert_eq!(news, vec![20, 21, 22, 23]);
    let olds: Vec<u64> = hunks[0].lines.iter().filter_map(|l| l.old_line).collect();
    assert_eq!(olds, vec![10, 11, 12]);
}

#[test]
fn delete_lines_are_not_commentable() {
    let hunks = parse_patch("@@ -1,3 +1,1 @@\n keep\n-gone1\n-gone2");
    let cl = commentable_lines(&hunks);
    assert_eq!(cl, vec![1]);
    assert!(hunks[0].lines[1].new_line.is_none());
    assert!(hunks[0].lines[2].new_line.is_none());
}

#[test]
fn metadata_lines_are_skipped() {
    let patch = "diff --git a/f b/f\nindex 123..456 100644\n--- a/f\n+++ b/f\n@@ -1 +1 @@\n-a\n\\ No newline at end of file\n+b\n\\ No newline at end of file";
    let hunks = parse_patch(patch);
    assert_eq!(hunks.len(), 1);
    assert_eq!(hunks[0].lines.len(), 2);
    assert_eq!(hunks[0].lines[0].content, "a");
    assert_eq!(hunks[0].lines[1].content, "b");
}

#[test]
fn malformed_header_is_skipped_until_next_header() {
    let patch = "@@ -x,2 +1,2 @@\n a\n b\n@@ -5,1 +6,1 @@\n c";
    let hunks = parse_patch(patch);
    assert_eq!(hunks.len(), 1);
    assert_eq!(hunks[0].old_start, 5);
    assert_eq!(hunks[0].lines.len(), 1);
    assert_eq!(hunks[0].lines[0].new_line, Some(6));
}

#[test]
fn crlf_endings_and_blank_context_lines() {
    let hunks = parse_patch("@@ -1,2 +1,2 @@\r\n a\r\n\r\n");
    assert_eq!(hunks.len(), 1);
    assert_eq!(hunks[0].header, "@@ -1,2 +1,2 @@");
    assert_eq!(hunks[0].lines.len(), 2);
    assert_eq!(hunks[0].lines[0].content, "a");
    assert_eq!(hunks[0].lines[1].content, "");
    assert_eq!(hunks[0].lines[1].new_line, Some(2));
}

#[test]
fn parsing_twice_gives_identical_hunks() {
    let patch = "@@ -1,2 +1,3 @@\n context\n-old\n+new1\n+new2";
    assert_eq!(format!("{:?}", parse_patch(patch)), format!("{:?}", parse_patch(patch)));
}

#[test]
fn header_numbers_beyond_64_bits_are_malformed() {
    let hunks = parse_patch("@@ -18446744073709551616,1 +1 @@\n a\n@@ -1 +1 @@\n b");
    assert_eq!(hunks.len(), 1);
    assert_eq!(hunks[0].lines[0].content, "b");
}

#[test]
fn hunk_closes_where_a_counter_would_overflow() {
    let hunks = parse_patch("@@ -1 +18446744073709551614 @@\n+a\n+b\n+c");
    assert_eq!(hunks.len(), 1);
    assert_eq!(hunks[0].lines.len(), 1);
    assert_eq!(hunks[0].lines[0].new_line, Some(18446744073709551614));
}
