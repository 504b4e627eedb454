use gh_agent::diff::parse_patch;
use gh_agent::github::{
    attach_patches, code_search_url, decode_file_content, map_change_type, parse_raw_diff,
    split_repo, ContentError, FileContent, PrFile,
};
use gh_agent::noise::{is_noise_file, NoiseRules};

#[test]
fn repositories_split_at_first_slash() {
    assert_eq!(split_repo("octo/repo"), Some(("octo".to_string(), "repo".to_string())));
    assert_eq!(split_repo("a/b/c"), Some(("a".to_string(), "b/c".to_string())));
    assert_eq!(split_repo("noslash"), None);
}

#[test]
fn change_types_map_to_status_words() {
    assert_eq!(map_change_type("ADDED"), "added");
    assert_eq!(map_change_type("DELETED"), "removed");
    assert_eq!(map_change_type("REMOVED"), "removed");
    assert_eq!(map_change_type("CHANGED"), "modified");
    assert_eq!(map_change_type("RENAMED"), "renamed");
    assert_eq!(map_change_type("COPIED"), "copied");
    assert_eq!(map_change_type("Weird_TYPE"), "weird_type");
}

fn content(s: Option<&str>) -> FileContent {
    FileContent { content: s.map(|c| c.to_string()), encoding: Some("base64".to_string()) }
}

#[test]
fn file_contents_decode_from_base64() {
    assert_eq!(decode_file_content(&content(Some("aGVs\nbG8=\n"))), Ok("hello".to_string()));
    assert_eq!(decode_file_content(&content(None)), Ok(String::new()));
    assert_eq!(decode_file_content(&content(Some("!!!"))), Err(ContentError::Base64));
    assert_eq!(decode_file_content(&content(Some("/w=="))), Err(ContentError::NotUtf8));
}

#[test]
fn code_search_url_is_percent_encoded() {
    assert_eq!(
        code_search_url("https://api.github.com", "fn main", "o/r", Some("src/")),
        "https://api.github.com/search/code?q=fn%20main%20repo%3Ao%2Fr%20path%3Asrc%2F&per_page=100"
    );
    assert_eq!(
        code_search_url("", "x", "o/r", None),
        "/search/code?q=x%20repo%3Ao%2Fr&per_page=100"
    );
}

const RAW: &str = "diff --git a/x.rs b/x.rs\nindex 1..2 100644\n--- a/x.rs\n+++ b/x.rs\n@@ -1 +1 @@\n-a\n+b\ndiff --git a/y.rs b/y.rs\nnew file mode 100644\n--- /dev/null\n+++ b/y.rs\n@@ -0,0 +1 @@\n+c\ndiff --git a/z.rs b/z.rs\ndeleted file mode 100644\n--- a/z.rs\n+++ /dev/null\n@@ -1 +0,0 @@\n-d\n";

#[test]
fn raw_diff_splits_per_file() {
    let patches = parse_raw_diff(RAW);
    assert_eq!(
        patches,
        vec![
            ("x.rs".to_string(), "@@ -1 +1 @@\n-a\n+b".to_string()),
            ("y.rs".to_string(), "@@ -0,0 +1 @@\n+c".to_string()),
        ]
    );
    assert_eq!(parse_patch(&patches[0].1).len(), 1);
    assert!(parse_raw_diff("").is_empty());
}

#[test]
fn patches_attach_by_file_name() {
    let files = vec![
        PrFile { filename: "y.rs".to_string(), status: "added".to_string(), additions: 1, deletions: 0, patch: None },
        PrFile { filename: "q.rs".to_string(), status: "modified".to_string(), additions: 1, deletions: 1, patch: None },
    ];
    let out = attach_patches(files, &parse_raw_diff(RAW));
    assert_eq!(out[0].patch.as_deref(), Some("@@ -0,0 +1 @@\n+c"));
    assert_eq!(out[1].patch, None);
}

#[test]
fn noise_rules() {
    assert!(is_noise_file("Cargo.lock"));
    assert!(is_noise_file("web/package-lock.json"));
    assert!(is_noise_file("static/app.min.js"));
    assert!(is_noise_file("dist/index.js"));
    assert!(!is_noise_file("src/dist/index.js"));
    assert!(!is_noise_file("src/main.rs"));
    assert!(!is_noise_file(""));
    let custom = NoiseRules { exact: vec![], suffixes: vec![".snap".to_string()], prefixes: vec![] };
    assert!(custom.is_noise("tests/x.snap"));
    assert!(!custom.is_noise("Cargo.lock"));
}
