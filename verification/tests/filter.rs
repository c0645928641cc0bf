//! Ranking contexts against a query.

use kctx::filter::{field_score, filter, lowered_score, rank, subsequence_score, weigh, Match};
use kctx::kubeconfig::{AuthMethod, ContextEntry};

fn entry(name: &str, cluster: &str, namespace: Option<&str>, source: &str) -> ContextEntry {
    ContextEntry {
        name: name.to_string(),
        cluster: cluster.to_string(),
        user: None,
        namespace: namespace.map(str::to_string),
        server: None,
        cluster_missing: false,
        source: source.to_string(),
        current_in_source: false,
        active: false,
        ambiguous: false,
        auth_method: AuthMethod::Unspecified,
    }
}

fn fixtures() -> Vec<ContextEntry> {
    vec![
        entry(
            "production-eu",
            "prod-cluster",
            Some("payments"),
            "/k/prod.yaml",
        ),
        entry(
            "staging",
            "staging-cluster",
            Some("development"),
            "/k/staging.yaml",
        ),
        entry("kind-local", "kind-kind", None, "/k/config"),
    ]
}

fn names(entries: &[ContextEntry], query: &str) -> Vec<String> {
    filter(entries, query)
        .into_iter()
        .map(|m| entries[m.index].name.clone())
        .collect()
}

#[test]
fn empty_query_keeps_every_entry_in_order() {
    let entries = fixtures();
    assert_eq!(
        names(&entries, ""),
        vec!["production-eu", "staging", "kind-local"]
    );
    assert_eq!(
        names(&entries, "   "),
        vec!["production-eu", "staging", "kind-local"]
    );
}

#[test]
fn matches_substrings_case_insensitively() {
    let entries = fixtures();
    assert_eq!(names(&entries, "PROD"), vec!["production-eu"]);
    assert_eq!(names(&entries, "stag"), vec!["staging"]);
}

#[test]
fn matches_subsequences() {
    let entries = fixtures();
    assert_eq!(names(&entries, "pdeu"), vec!["production-eu"]);
    assert_eq!(names(&entries, "kndlcl"), vec!["kind-local"]);
}

#[test]
fn no_match_returns_nothing() {
    let entries = fixtures();
    assert!(filter(&entries, "zzz").is_empty());
}

#[test]
fn context_name_matches_outrank_other_fields() {
    let entries = vec![
        entry("alpha", "payments-cluster", None, "/k/a.yaml"),
        entry("payments-ctx", "other", None, "/k/b.yaml"),
    ];
    // "payments" hits alpha's cluster exactly, but a name match still wins.
    assert_eq!(names(&entries, "payments"), vec!["payments-ctx", "alpha"]);
}

#[test]
fn exact_and_prefix_matches_outrank_late_ones() {
    let entries = vec![
        entry("eu-prod", "c", None, "/k/a.yaml"),
        entry("prod", "c", None, "/k/b.yaml"),
        entry("prod-eu", "c", None, "/k/c.yaml"),
    ];
    assert_eq!(names(&entries, "prod"), vec!["prod", "prod-eu", "eu-prod"]);
}

#[test]
fn tighter_subsequences_rank_higher() {
    let entries = vec![
        entry("p-r-o-b-e-u", "c", None, "/k/a.yaml"),
        entry("prodeu", "c", None, "/k/b.yaml"),
    ];
    assert_eq!(names(&entries, "peu"), vec!["prodeu", "p-r-o-b-e-u"]);
}

#[test]
fn namespace_and_source_file_are_searchable() {
    let entries = fixtures();
    assert_eq!(names(&entries, "development"), vec!["staging"]);
    assert_eq!(names(&entries, "config"), vec!["kind-local"]);
}

#[test]
fn missing_namespace_never_matches() {
    let entries = vec![entry("a", "c", None, "/k/a.yaml")];
    assert!(filter(&entries, "-").is_empty());
}

#[test]
fn every_quality_tier_has_its_score() {
    assert_eq!(lowered_score("prod", "prod"), Some(900));
    assert_eq!(lowered_score("prod-eu", "prod"), Some(700));
    assert_eq!(lowered_score("eu-prod", "prod"), Some(497));
    assert_eq!(lowered_score("prodeu", "peu"), Some(297));
    assert_eq!(lowered_score("prod", "x"), None);
    // The start of a substring is counted in bytes, a subsequence in characters.
    assert_eq!(lowered_score("üprod", "prod"), Some(498));
    assert_eq!(subsequence_score("üpxd", "pd"), Some(-3));
    // A late substring loses no more than a hundred points.
    let late = format!("{}prod", "x".repeat(300));
    assert_eq!(lowered_score(&late, "prod"), Some(400));
}

#[test]
fn scattered_subsequences_are_penalised_up_to_a_limit() {
    assert_eq!(subsequence_score("abc", "abc"), Some(0));
    assert_eq!(subsequence_score("xabc", "abc"), Some(-2));
    assert_eq!(subsequence_score("axbxc", "abc"), Some(-2));
    assert_eq!(subsequence_score("acb", "abc"), None);
    assert_eq!(subsequence_score("abc", ""), Some(0));
    let far = format!("a{}b", "x".repeat(400));
    assert_eq!(subsequence_score(&far, "ab"), Some(-150));
    let late = format!("{}ab", "x".repeat(400));
    assert_eq!(subsequence_score(&late, "ab"), Some(-200));
}

#[test]
fn fields_are_scored_without_regard_to_case() {
    assert_eq!(field_score("PROD", "prod"), Some(900));
    assert_eq!(field_score("ÜBER", "über"), Some(900));
    assert_eq!(field_score("", ""), None);
}

#[test]
fn fields_are_weighed_by_kind() {
    assert_eq!(weigh(Some(100), Some(900), Some(900), Some(900)), Some(4100));
    assert_eq!(weigh(None, Some(100), Some(900), None), Some(3100));
    assert_eq!(weigh(None, None, Some(100), Some(900)), Some(2100));
    assert_eq!(weigh(None, None, None, Some(700)), Some(1700));
    assert_eq!(weigh(None, None, None, None), None);
}

#[test]
fn equal_scores_keep_their_order() {
    let ranked = rank(&vec![Some(5), None, Some(9), Some(5)]);
    assert_eq!(
        ranked,
        vec![
            Match { index: 2, score: 9 },
            Match { index: 0, score: 5 },
            Match { index: 3, score: 5 },
        ]
    );
}

#[test]
fn typing_only_narrows_what_is_found() {
    let entries = fixtures();
    let mut query = String::new();
    let mut before: Vec<usize> = filter(&entries, &query).iter().map(|m| m.index).collect();
    for character in " Pr d-E".chars() {
        query.push(character);
        let after: Vec<usize> = filter(&entries, &query).iter().map(|m| m.index).collect();
        assert!(after.iter().all(|index| before.contains(index)), "{query:?}");
        before = after;
    }
}
