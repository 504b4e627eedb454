use gh_agent::classify::{
    categorize_change, extract_value_change, is_short_value, jaccard_similarity, token_diff,
    tokenize, ChangeCategory, SemChange,
};
use gh_agent::patterns::detect_patterns;

fn change(before: Option<&str>, after: Option<&str>) -> SemChange {
    SemChange {
        change_type: "modified".to_string(),
        entity_type: "function".to_string(),
        entity_name: "f".to_string(),
        file_path: "src/a.rs".to_string(),
        old_file_path: None,
        before_content: before.map(|s| s.to_string()),
        after_content: after.map(|s| s.to_string()),
    }
}

#[test]
fn new_entity_is_new_logic_with_zero_similarity() {
    let c = categorize_change(&change(None, Some("fn add() {}")));
    assert_eq!(c.category, ChangeCategory::NewLogic);
    assert_eq!(c.sim_shared, 0);
    assert!(c.sim_union > 0);
    assert!(c.removed_tokens.is_empty() && c.added_tokens.is_empty());
}

#[test]
fn constant_flip_is_behavioral_with_value_change() {
    let c = categorize_change(&change(Some("const DEBUG = false;"), Some("const DEBUG = true;")));
    assert_eq!(c.value_change, Some(("false".to_string(), "true".to_string())));
    assert_eq!(c.category, ChangeCategory::Behavioral);
    assert_eq!(c.removed_tokens, vec!["false;".to_string()]);
    assert_eq!(c.added_tokens, vec!["true;".to_string()]);
    assert_eq!((c.sim_shared, c.sim_union), (3, 5));
}

#[test]
fn deleted_and_absent_entities_are_mechanical() {
    let d = categorize_change(&change(Some("fn gone() {}"), None));
    assert_eq!(d.category, ChangeCategory::Mechanical);
    assert_eq!((d.sim_shared, d.sim_union), (1, 1));
    let n = categorize_change(&change(None, None));
    assert_eq!(n.category, ChangeCategory::Mechanical);
    assert_eq!((n.sim_shared, n.sim_union), (1, 1));
}

#[test]
fn text_is_fully_similar_to_itself() {
    assert_eq!(jaccard_similarity("a b c", "a b c"), (3, 3));
    assert_eq!(jaccard_similarity("x x", "x x"), (1, 1));
    assert_eq!(jaccard_similarity("   ", "   "), (1, 1));
}

#[test]
fn jaccard_counts_shared_and_union_tokens() {
    assert_eq!(jaccard_similarity("a b c", "b c d"), (2, 4));
    assert_eq!(jaccard_similarity("", "a"), (0, 1));
}

#[test]
fn similarity_thresholds_are_strict() {
    let at_point_eight = categorize_change(&change(Some("a\nb\nc\nd"), Some("a\nb\nc\nd\ne")));
    assert_eq!((at_point_eight.sim_shared, at_point_eight.sim_union), (4, 5));
    assert_eq!(at_point_eight.category, ChangeCategory::Behavioral);
    let above = categorize_change(&change(Some("a\nb\nc\nd\ne"), Some("a\nb\nc\nd\ne\nf")));
    assert_eq!(above.category, ChangeCategory::Mechanical);
    let half = categorize_change(&change(Some("a\nb\nc\nd"), Some("a\nb\ne\nf\ng\nh")));
    assert_eq!((half.sim_shared, half.sim_union), (2, 8));
    assert_eq!(half.category, ChangeCategory::NewLogic);
    let mid = categorize_change(&change(Some("a\nb\nc\nd"), Some("a\nb\nc\ne")));
    assert_eq!((mid.sim_shared, mid.sim_union), (3, 5));
    assert_eq!(mid.category, ChangeCategory::Behavioral);
}

#[test]
fn tokens_collapse_duplicates_in_first_seen_order() {
    assert_eq!(tokenize(" b a\tb\n c "), vec!["b", "a", "c"]);
    let (removed, added) = token_diff("x y z", "y w");
    assert_eq!(removed, vec!["x", "z"]);
    assert_eq!(added, vec!["w"]);
}

#[test]
fn value_change_edges() {
    assert_eq!(extract_value_change("x = 1", "x = 1;"), None);
    assert_eq!(
        extract_value_change("  retries: 3 ", "retries: 5"),
        Some(("retries: 3".to_string(), "retries: 5".to_string()))
    );
    assert_eq!(extract_value_change("a\nb\nc", "a\nb\nd"), None);
    assert!(is_short_value("a\nb"));
    assert!(!is_short_value("a\nb\nc"));
    assert!(!is_short_value(&"x".repeat(200)));
    assert!(is_short_value(&"x".repeat(199)));
    assert_eq!(
        extract_value_change("let a = b = 1;;", "let a = b = 2"),
        Some(("b = 1".to_string(), "b = 2".to_string()))
    );
}

fn mechanical(path: &str, removed: &[&str]) -> gh_agent::classify::CategorizedChange {
    gh_agent::classify::CategorizedChange {
        category: ChangeCategory::Mechanical,
        change_type: "modified".to_string(),
        entity_type: "function".to_string(),
        entity_name: "f".to_string(),
        file_path: path.to_string(),
        sim_shared: 9,
        sim_union: 10,
        removed_tokens: removed.iter().map(|s| s.to_string()).collect(),
        added_tokens: vec![],
        value_change: None,
    }
}

#[test]
fn repeated_removed_token_forms_one_group() {
    let changes = vec![
        mechanical("a.rs", &["unused", "lonely"]),
        mechanical("b.rs", &["unused"]),
        mechanical("c.rs", &["unused"]),
    ];
    let groups = detect_patterns(&changes);
    assert_eq!(groups.len(), 1);
    assert_eq!(groups[0].token, "unused");
    assert_eq!(groups[0].members, vec![0, 1, 2]);
}

#[test]
fn short_tokens_and_other_categories_do_not_group() {
    let mut other = mechanical("c.rs", &["import"]);
    other.category = ChangeCategory::Behavioral;
    let changes = vec![
        mechanical("a.rs", &["ab", "import"]),
        mechanical("b.rs", &["ab"]),
        other,
    ];
    assert!(detect_patterns(&changes).is_empty());
}

#[test]
fn larger_groups_come_first_ties_in_first_seen_order() {
    let changes = vec![
        mechanical("a.rs", &["beta", "alpha"]),
        mechanical("b.rs", &["beta", "alpha", "gamma"]),
        mechanical("c.rs", &["gamma"]),
        mechanical("d.rs", &["gamma"]),
    ];
    let groups = detect_patterns(&changes);
    let tokens: Vec<&str> = groups.iter().map(|g| g.token.as_str()).collect();
    assert_eq!(tokens, vec!["gamma", "beta", "alpha"]);
    assert_eq!(groups[0].members, vec![1, 2, 3]);
}

#[test]
fn classifying_twice_gives_identical_results() {
    let c = change(Some("const DEBUG = false;"), Some("const DEBUG = true;"));
    assert_eq!(format!("{:?}", categorize_change(&c)), format!("{:?}", categorize_change(&c)));
}

#[test]
fn token_length_counts_utf8_bytes() {
    let changes = vec![
        mechanical("a.rs", &["\u{e9}\u{e9}", "\u{e9}"]),
        mechanical("b.rs", &["\u{e9}\u{e9}", "\u{e9}"]),
    ];
    let groups = detect_patterns(&changes);
    assert_eq!(groups.len(), 1);
    assert_eq!(groups[0].token, "\u{e9}\u{e9}");
    assert_eq!(groups[0].members, vec![0, 1]);
}
