use gh_agent::github::{CodeSearchItem, CodeSearchRepo, TextMatch};
use gh_agent::search::{extract_search_keyword, format_matches, grep_files, match_lines, SearchMatch};
use gh_agent::select::{code_search_matches, merge_search_paths};

fn files() -> Vec<(String, String)> {
    vec![("a.rs".to_string(), "Hello\nworld\nHELLO there".to_string())]
}

#[test]
fn grep_ignores_case_and_keeps_context() {
    let m = grep_files(&files(), "hello", false, 1);
    assert_eq!(m.len(), 2);
    assert_eq!((m[0].line, m[0].column), (1, 1));
    assert!(m[0].context_before.is_empty());
    assert_eq!(m[0].context_after, vec!["world".to_string()]);
    assert_eq!((m[1].line, m[1].column), (3, 1));
    assert_eq!(m[1].context_before, vec!["world".to_string()]);
    assert!(m[1].context_after.is_empty());
    assert_eq!(
        format_matches(&m),
        "a.rs:1:Hello\na.rs:2- world\na.rs:2- world\na.rs:3:HELLO there\n\n2 matches across 1 files"
    );
}

#[test]
fn grep_case_sensitive_and_columns() {
    assert!(grep_files(&files(), "hello", true, 0).is_empty());
    let m = grep_files(&[("b.rs".to_string(), "xxhello".to_string())], "hello", true, 0);
    assert_eq!(m[0].column, 3);
    let lower = grep_files(&[("c.rs".to_string(), "xxHELLO".to_string())], "HeLLo", false, 0);
    assert_eq!(lower.len(), 1);
    assert_eq!(lower[0].text, "xxHELLO");
}

#[test]
fn no_matches_message() {
    let none: Vec<SearchMatch> = vec![];
    assert_eq!(format_matches(&none), "No matches found.");
}

#[test]
fn files_are_separated_and_counted() {
    let mk = |f: &str, line: usize| SearchMatch {
        file: f.to_string(),
        line,
        column: 1,
        text: "t".to_string(),
        context_before: vec![],
        context_after: vec![],
    };
    let m = vec![mk("a", 1), mk("b", 2), mk("a", 3)];
    assert_eq!(format_matches(&m), "a:1:t\n\nb:2:t\n\na:3:t\n\n3 matches across 2 files");
}

#[test]
fn search_keywords() {
    assert_eq!(extract_search_keyword("console.log($$$)"), "console.log");
    assert_eq!(extract_search_keyword("$A + $B"), "$A");
    assert_eq!(extract_search_keyword("  foo  "), "foo");
    assert_eq!(extract_search_keyword(""), "");
}

fn item(path: &str, fragment: &str) -> CodeSearchItem {
    CodeSearchItem {
        name: path.to_string(),
        path: path.to_string(),
        repository: CodeSearchRepo { full_name: "o/r".to_string() },
        html_url: String::new(),
        text_matches: Some(vec![TextMatch { fragment: fragment.to_string(), matches: vec![] }]),
    }
}

#[test]
fn code_search_fragments_become_matches() {
    let items = vec![item("lib/z.rs", "foo\nbar Foo"), item("src/a.rs", "foo"), item("Cargo.lock", "foo")];
    let pr = vec!["src/a.rs".to_string()];
    let m = code_search_matches(&items, &pr, "foo", false, false);
    assert_eq!(m.len(), 2);
    assert_eq!((m[0].file.as_str(), m[0].line, m[0].column), ("lib/z.rs", 1, 1));
    assert_eq!((m[1].line, m[1].column), (2, 5));
    let all = code_search_matches(&items, &pr, "foo", false, true);
    assert_eq!(all.len(), 3);
}

#[test]
fn search_paths_are_merged_sorted() {
    let items = vec![item("lib/z.rs", ""), item("src/a.rs", ""), item("dist/x.js", "")];
    let pr = vec!["src/b.rs".to_string(), "src/a.rs".to_string()];
    assert_eq!(merge_search_paths(&pr, &items, false), vec!["lib/z.rs", "src/a.rs", "src/b.rs"]);
    assert_eq!(
        merge_search_paths(&pr, &items, true),
        vec!["dist/x.js", "lib/z.rs", "src/a.rs", "src/b.rs"]
    );
}

#[test]
fn hits_are_decided_on_the_given_compared_lines() {
    let lines = vec!["Alpha".to_string(), "beta".to_string(), "gamma".to_string()];
    let hays = vec!["zzz".to_string(), "xalpha".to_string(), "gamma".to_string()];
    let m = match_lines(&"f.rs".to_string(), &lines, &hays, "alpha", 1);
    assert_eq!(m.len(), 1);
    assert_eq!((m[0].line, m[0].column), (2, 2));
    assert_eq!(m[0].text, "beta");
    assert_eq!(m[0].context_before, vec!["Alpha".to_string()]);
    assert_eq!(m[0].context_after, vec!["gamma".to_string()]);
}

#[test]
fn columns_count_utf8_bytes() {
    let m = grep_files(&[("u.rs".to_string(), "\u{e9}x".to_string())], "x", true, 0);
    assert_eq!(m[0].column, 3);
    let folded = grep_files(&[("u.rs".to_string(), "\u{c9}X".to_string())], "x", false, 0);
    assert_eq!(folded[0].column, 3);
    let items = vec![item("lib/u.rs", "\u{e9}\u{e9} foo")];
    let hits = code_search_matches(&items, &vec![], "foo", true, false);
    assert_eq!(hits[0].column, 6);
}
