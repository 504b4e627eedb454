use gh_agent::classify::SemChange;
use gh_agent::diff::parse_patch;
use gh_agent::format::{format_hunk, format_line_numbered_diff, format_metadata, format_stat_table};
use gh_agent::github::{PrFile, PullRequest};
use gh_agent::report::{
    format_sem_listing, format_smart_output, smart_review_text, EngineRun, SemOutput, SemSummary,
};
use gh_agent::select::smart_review_inputs;

const SCENARIO: &str = "@@ -1,2 +1,3 @@\n context\n-old\n+new1\n+new2";

fn pr_file(name: &str, status: &str, additions: u64, deletions: u64, patch: Option<&str>) -> PrFile {
    PrFile {
        filename: name.to_string(),
        status: status.to_string(),
        additions,
        deletions,
        patch: patch.map(|p| p.to_string()),
    }
}

fn sem(change_type: &str, kind: &str, name: &str, path: &str, before: Option<&str>, after: Option<&str>) -> SemChange {
    SemChange {
        change_type: change_type.to_string(),
        entity_type: kind.to_string(),
        entity_name: name.to_string(),
        file_path: path.to_string(),
        old_file_path: None,
        before_content: before.map(|s| s.to_string()),
        after_content: after.map(|s| s.to_string()),
    }
}

#[test]
fn hunk_rows_carry_new_line_numbers() {
    let hunks = parse_patch(SCENARIO);
    assert_eq!(
        format_hunk(&hunks[0]),
        "@@ -1,2 +1,3 @@\n   1 |  context\n     | -old\n   2 | +new1\n   3 | +new2"
    );
}

#[test]
fn file_diff_renderings() {
    let f = pr_file("src/a.rs", "modified", 2, 1, Some(SCENARIO));
    assert_eq!(
        format_line_numbered_diff(&f),
        "--- a/src/a.rs\n+++ b/src/a.rs\n@@ -1,2 +1,3 @@\n   1 |  context\n     | -old\n   2 | +new1\n   3 | +new2"
    );
    let gone = pr_file("x.rs", "removed", 0, 7, None);
    assert_eq!(format_line_numbered_diff(&gone), "deleted: x.rs (7 lines)");
    let none = pr_file("x.rs", "modified", 0, 0, None);
    assert_eq!(format_line_numbered_diff(&none), "--- a/x.rs\n+++ b/x.rs\n(no diff)");
    let empty = pr_file("x.rs", "modified", 0, 0, Some(""));
    assert_eq!(format_line_numbered_diff(&empty), "--- a/x.rs\n+++ b/x.rs\n(no diff)");
}

#[test]
fn metadata_header() {
    let pr = PullRequest {
        number: 42,
        title: "Fix bug".to_string(),
        body: None,
        state: "OPEN".to_string(),
        additions: 10,
        deletions: 3,
        changed_files: 2,
        head_ref: "fix".to_string(),
        base_ref: "main".to_string(),
        head_sha: "abc".to_string(),
        files: vec![],
    };
    assert_eq!(format_metadata(&pr), "#42 Fix bug  [OPEN]\nmain \u{2190} fix  +10 -3  2 files");
}

#[test]
fn stat_table_rows() {
    let files = vec![
        pr_file("a.rs", "modified", 12, 0, None),
        pr_file("b.rs", "added", 1234, 5, None),
    ];
    assert_eq!(
        format_stat_table(&files),
        "  modified   +12    0  a.rs\n     added  +1234   -5  b.rs"
    );
    assert_eq!(format_stat_table(&[]), "");
}

#[test]
fn smart_report_lists_each_category() {
    let parsed = SemOutput {
        summary: Some(SemSummary { added: 1, modified: 1, deleted: 1, renamed: 0, moved: 0, file_count: 3 }),
        changes: Some(vec![
            sem("deleted", "function", "old", "src/x.rs", Some("fn old() {}"), None),
            sem("added", "function", "add", "src/lib.rs", None, Some("fn add() {}")),
            sem("modified", "constant", "DEBUG", "src/cfg.rs", Some("const DEBUG = false;"), Some("const DEBUG = true;")),
        ]),
    };
    let expected = [
        "Smart Review: 3 changes across 3 files\n".to_string(),
        "MECHANICAL (skip \u{2014} 1 changes):".to_string(),
        "  \u{2296} x.rs old \u{2014} deleted".to_string(),
        String::new(),
        "NEW LOGIC (read these \u{2014} 1 changes):".to_string(),
        format!("  \u{2295} {:<20} {} \u{2014} {}", "lib.rs", "add", "function"),
        String::new(),
        "BEHAVIORAL CHANGES (verify \u{2014} 1 changes):".to_string(),
        format!("  \u{2206} {:<20} {:<30} {}", "cfg.rs", "DEBUG", "false \u{2192} true"),
        String::new(),
    ]
    .join("\n");
    assert_eq!(format_smart_output(&parsed), expected);
}

#[test]
fn smart_report_groups_repeated_removals() {
    let before = "a1\na2\na3\na4\na5\na6\na7\na8\na9\nunused";
    let after = "a1\na2\na3\na4\na5\na6\na7\na8\na9";
    let parsed = SemOutput {
        summary: None,
        changes: Some(vec![
            sem("modified", "function", "p", "src/p.rs", Some(before), Some(after)),
            sem("modified", "function", "q", "src/q.rs", Some(before), Some(after)),
            sem("modified", "function", "r", "lib/r.rs", Some(before), Some(after)),
        ]),
    };
    assert_eq!(
        format_smart_output(&parsed),
        "MECHANICAL (skip \u{2014} 3 changes):\n  \u{2296} unused removed from p.rs, q.rs, r.rs\n"
    );
}

#[test]
fn smart_report_without_changes() {
    let parsed = SemOutput { summary: None, changes: None };
    assert_eq!(format_smart_output(&parsed), "No semantic changes found.");
}

#[test]
fn plain_semantic_listing() {
    let mut renamed = sem("renamed", "function", "b", "src/new.rs", None, None);
    renamed.old_file_path = Some("src/old.rs".to_string());
    let parsed = SemOutput {
        summary: Some(SemSummary { added: 1, modified: 2, deleted: 0, renamed: 0, moved: 0, file_count: 2 }),
        changes: Some(vec![sem("added", "function", "add", "src/lib.rs", None, None), renamed]),
    };
    let expected = format!(
        "Semantic: 1 added, 2 modified across 2 files\n\n  \u{2295} {:<12} {:<35} {}\n  \u{21bb} {:<12} {:<35} {}",
        "function", "add", "src/lib.rs", "function", "b (from src/old.rs)", "src/new.rs"
    );
    assert_eq!(format_sem_listing(&parsed), expected);
}

#[test]
fn each_change_is_claimed_by_one_rendered_group() {
    let base = "a1\na2\na3\na4\na5\na6\na7\na8\na9";
    let both = format!("{base}\nalpha\nbeta");
    let one = format!("{base}\nalpha");
    let parsed = SemOutput {
        summary: None,
        changes: Some(vec![
            sem("modified", "function", "p", "src/p.rs", Some(&both), Some(base)),
            sem("modified", "function", "q", "src/q.rs", Some(&both), Some(base)),
            sem("modified", "function", "r", "src/r.rs", Some(&one), Some(base)),
        ]),
    };
    assert_eq!(
        format_smart_output(&parsed),
        "MECHANICAL (skip \u{2014} 3 changes):\n  \u{2296} alpha removed from p.rs, q.rs, r.rs\n"
    );
}

#[test]
fn large_groups_show_a_file_count() {
    let before = "a1\na2\na3\na4\na5\na6\na7\na8\na9\nunused";
    let after = "a1\na2\na3\na4\na5\na6\na7\na8\na9";
    let changes: Vec<SemChange> = ["a", "b", "c", "d"]
        .iter()
        .map(|n| sem("modified", "function", n, &format!("src/{n}.rs"), Some(before), Some(after)))
        .collect();
    let parsed = SemOutput { summary: None, changes: Some(changes) };
    assert_eq!(
        format_smart_output(&parsed),
        "MECHANICAL (skip \u{2014} 4 changes):\n  \u{2296} unused removed from 4 files\n"
    );
}

#[test]
fn unclaimed_mechanical_changes_list_their_tokens() {
    let parsed = SemOutput {
        summary: None,
        changes: Some(vec![sem(
            "renamed",
            "function",
            "f",
            "src/f.rs",
            Some("a1\na2\na3\na4\na5\na6\na7\na8\na9\nold"),
            Some("a1\na2\na3\na4\na5\na6\na7\na8\na9\nnew"),
        )]),
    };
    let expected = format!(
        "MECHANICAL (skip \u{2014} 1 changes):\n  \u{21bb} {:<20} {:<30} (-old +new)\n",
        "f.rs", "f"
    );
    assert_eq!(format_smart_output(&parsed), expected);
}

#[test]
fn a_change_is_listed_under_the_first_group_that_holds_it() {
    let base = "a1\na2\na3\na4\na5\na6\na7\na8\na9";
    let with = |extra: &str| format!("{base}\n{extra}");
    let parsed = SemOutput {
        summary: None,
        changes: Some(vec![
            sem("modified", "function", "a", "src/a.rs", Some(&with("aaa\nbbb")), Some(base)),
            sem("modified", "function", "b", "src/b.rs", Some(&with("aaa")), Some(base)),
            sem("modified", "function", "c", "src/c.rs", Some(&with("aaa")), Some(base)),
            sem("modified", "function", "d", "src/d.rs", Some(&with("bbb\nccc")), Some(base)),
            sem("modified", "function", "e", "src/e.rs", Some(&with("ccc")), Some(base)),
        ]),
    };
    assert_eq!(
        format_smart_output(&parsed),
        "MECHANICAL (skip \u{2014} 5 changes):\n  \u{2296} aaa removed from a.rs, b.rs, c.rs\n  \u{2296} bbb removed from d.rs\n  \u{2296} ccc removed from e.rs\n"
    );
}

#[test]
fn smart_review_answers_for_each_engine_outcome() {
    assert_eq!(smart_review_text(&EngineRun::NothingToAnalyze), "No files to analyze.");
    assert_eq!(
        smart_review_text(&EngineRun::Failed("sem not found".to_string())),
        "Smart analysis failed: sem not found"
    );
    let done = EngineRun::Finished(SemOutput { summary: None, changes: None });
    assert_eq!(smart_review_text(&done), "No semantic changes found.");
    assert!(smart_review_inputs(&[]).is_none());
    let pairs = vec![("a.rs".to_string(), "added".to_string(), None, Some("x".to_string()))];
    let inputs = smart_review_inputs(&pairs).unwrap();
    assert_eq!((inputs.len(), inputs[0].status.as_str()), (1, "added"));
}
