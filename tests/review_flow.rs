use gh_agent::classify::SemChange;
use gh_agent::github::PrFile;
use gh_agent::review::{
    assemble_review, commentable_by_file, default_body, prepare_review, suggestion_review,
    validate_comments, CommentInput,
};
use gh_agent::select::{select_diff_files, select_search_paths, sem_inputs_from_pairs, smart_files};

fn file(name: &str, patch: Option<&str>) -> PrFile {
    PrFile {
        filename: name.to_string(),
        status: "modified".to_string(),
        additions: 1,
        deletions: 1,
        patch: patch.map(|p| p.to_string()),
    }
}

fn comment(path: &str, line: u64) -> CommentInput {
    CommentInput { path: path.to_string(), line, body: "nit".to_string(), start_line: None }
}

#[test]
fn comments_are_checked_against_the_diff() {
    let files = vec![file("x.rs", Some("@@ -1,2 +1,3 @@\n context\n-old\n+new1\n+new2"))];
    let v = validate_comments(&files, &[comment("x.rs", 2), comment("x.rs", 9), comment("y.rs", 1)]);
    assert_eq!(v.comments.len(), 1);
    assert_eq!((v.comments[0].path.as_str(), v.comments[0].line), ("x.rs", 2));
    assert_eq!(
        v.warnings,
        vec![
            "SKIP: x.rs:9 is not a commentable line (not in diff)".to_string(),
            "SKIP: y.rs is not a changed file in this PR".to_string(),
        ]
    );
    let none = validate_comments(&[file("z.rs", None)], &[comment("z.rs", 1)]);
    assert!(none.comments.is_empty());
    assert!(assemble_review("sha".to_string(), default_body(), none.comments).is_none());
    let review = assemble_review("sha".to_string(), default_body(), v.comments).unwrap();
    assert_eq!(review.event, "COMMENT");
    assert_eq!(review.body, "Review from gh-agent");
}

#[test]
fn suggestions_are_fenced_blocks() {
    let one = suggestion_review("sha".to_string(), "a.rs", 3, 3, "let x = 1;");
    assert_eq!(one.body, "Suggestion from gh-agent");
    assert_eq!(one.comments[0].body, "```suggestion\nlet x = 1;\n```");
    assert_eq!((one.comments[0].line, one.comments[0].start_line), (3, None));
    let span = suggestion_review("sha".to_string(), "a.rs", 3, 5, "x");
    assert_eq!((span.comments[0].line, span.comments[0].start_line), (5, Some(3)));
}

fn sem(path: &str, before: Option<&str>, after: Option<&str>) -> SemChange {
    SemChange {
        change_type: "modified".to_string(),
        entity_type: "function".to_string(),
        entity_name: "f".to_string(),
        file_path: path.to_string(),
        old_file_path: None,
        before_content: before.map(|s| s.to_string()),
        after_content: after.map(|s| s.to_string()),
    }
}

#[test]
fn files_worth_reading_are_sorted_and_unique() {
    let changes = vec![
        sem("b.rs", None, Some("fn b() {}")),
        sem("a.rs", Some("const X = 1;"), Some("const X = 2;")),
        sem("b.rs", None, Some("fn c() {}")),
        sem("c.rs", Some("fn gone() {}"), None),
    ];
    assert_eq!(smart_files(&changes), vec!["a.rs", "b.rs"]);
}

#[test]
fn diff_file_selection() {
    let files = vec![file("src/a.rs", None), file("Cargo.lock", None), file("dist/x.js", None), file("src/b.rs", None)];
    let (shown, skipped) = select_diff_files(&files, &[], false, &[], false);
    let names: Vec<&str> = shown.iter().map(|f| f.filename.as_str()).collect();
    assert_eq!((names, skipped), (vec!["src/a.rs", "src/b.rs"], 2));
    let (shown, skipped) = select_diff_files(&files, &["a.rs".to_string()], false, &[], false);
    assert_eq!((shown.len(), skipped), (1, 0));
    let (shown, _) = select_diff_files(&files, &[], true, &["src/b.rs".to_string()], false);
    assert_eq!(shown[0].filename, "src/b.rs");
    let (shown, skipped) = select_diff_files(&files, &[], false, &[], true);
    assert_eq!((shown.len(), skipped), (4, 0));
    assert_eq!(select_search_paths(&files, &[], false), vec!["src/a.rs", "src/b.rs"]);
}

#[test]
fn engine_inputs_use_engine_status_words() {
    let pairs = vec![
        ("a.rs".to_string(), "removed".to_string(), Some("x".to_string()), None),
        ("b.rs".to_string(), "changed".to_string(), None, Some("y".to_string())),
    ];
    let inputs = sem_inputs_from_pairs(&pairs);
    assert_eq!(inputs[0].status, "deleted");
    assert_eq!(inputs[1].status, "modified");
    assert_eq!(inputs[1].after_content.as_deref(), Some("y"));
    assert!(inputs[0].old_file_path.is_none());
}

const SCENARIO: &str = "@@ -1,2 +1,3 @@\n context\n-old\n+new1\n+new2";

#[test]
fn commentable_map_of_the_scenario_patch() {
    let map = commentable_by_file(&[file("f.rs", Some(SCENARIO))]);
    assert_eq!(map.len(), 1);
    assert_eq!(map[0].0, "f.rs");
    let mut lines = map[0].1.clone();
    lines.sort();
    assert_eq!(lines, vec![1, 2, 3]);
}

#[test]
fn review_keeps_only_commentable_comments() {
    let files = vec![file("f.rs", Some(SCENARIO))];
    let comments = vec![
        CommentInput { path: "f.rs".to_string(), line: 3, body: "a".to_string(), start_line: None },
        CommentInput { path: "f.rs".to_string(), line: 4, body: "b".to_string(), start_line: None },
        CommentInput { path: "x.rs".to_string(), line: 1, body: "c".to_string(), start_line: None },
    ];
    let (review, warnings) = prepare_review("sha".to_string(), default_body(), &files, &comments);
    let review = review.unwrap();
    assert_eq!(review.body, "Review from gh-agent");
    assert_eq!(review.comments.len(), 1);
    let c = &review.comments[0];
    assert_eq!((c.path.as_str(), c.line, c.body.as_str(), c.start_line), ("f.rs", 3, "a", None));
    assert_eq!(warnings.len(), 2);
    let only_deleted = vec![CommentInput { path: "f.rs".to_string(), line: 9, body: "d".to_string(), start_line: None }];
    let (none, w) = prepare_review("sha".to_string(), default_body(), &files, &only_deleted);
    assert!(none.is_none());
    assert_eq!(w, vec!["SKIP: f.rs:9 is not a commentable line (not in diff)".to_string()]);
}
