//! The interactive state: list, cursor, query and snapshot cache.

use kctx::app::{AppState, InputMode, InspectionKey, InspectionView, CACHE_TTL};
use kctx::kubeconfig::{AuthMethod, ContextCatalog, ContextEntry};
use kctx::kubernetes::inspection::Inspection;

fn entry(name: &str) -> ContextEntry {
    ContextEntry {
        name: name.to_string(),
        cluster: format!("{name}-cluster"),
        user: None,
        namespace: None,
        server: None,
        cluster_missing: false,
        source: "/k/config".to_string(),
        current_in_source: false,
        active: false,
        ambiguous: false,
        auth_method: AuthMethod::Unspecified,
    }
}

fn state() -> AppState {
    AppState::new(ContextCatalog {
        entries: vec![entry("alpha"), entry("beta"), entry("gamma")],
        ..ContextCatalog::default()
    })
}

fn snapshot(entry: &ContextEntry) -> Inspection {
    Inspection::pending(entry, entry.effective_namespace())
}

#[test]
fn starts_on_the_active_context() {
    let state = AppState::new(ContextCatalog {
        entries: vec![entry("alpha"), entry("beta")],
        active_name: Some("beta".to_string()),
        active_index: Some(1),
        ..ContextCatalog::default()
    });

    assert_eq!(state.selected().unwrap().name, "beta");
}

#[test]
fn cursor_is_clamped_to_the_visible_list() {
    let mut state = state();

    state.move_cursor(-5);
    assert_eq!(state.cursor(), 0);
    state.move_cursor(99);
    assert_eq!(state.cursor(), 2);
    assert_eq!(state.selected().unwrap().name, "gamma");
}

#[test]
fn typing_narrows_the_list() {
    let mut state = state();

    state.push_query_char('b');
    assert_eq!(state.visible_len(), 1);
    assert_eq!(state.selected().unwrap().name, "beta");

    state.pop_query_char();
    assert_eq!(state.visible_len(), 3);
}

#[test]
fn cursor_follows_the_selected_context_while_filtering() {
    let mut state = state();
    state.move_cursor(2);
    assert_eq!(state.selected().unwrap().name, "gamma");

    // "gamma" still matches "amm", so the cursor must stay on it rather than reset.
    state.set_query("amm");
    assert_eq!(state.selected().unwrap().name, "gamma");
}

#[test]
fn cursor_resets_when_the_selected_context_is_filtered_away() {
    let mut state = state();
    state.move_cursor(2);

    // "alp" matches nothing in "beta" or "gamma", so the cursor cannot stay where it was.
    state.set_query("alp");
    assert_eq!(state.visible_len(), 1);
    assert_eq!(state.cursor(), 0);
    assert_eq!(state.selected().unwrap().name, "alpha");
}

#[test]
fn nothing_is_selected_when_nothing_matches() {
    let mut state = state();
    state.set_query("zzz");

    assert_eq!(state.visible_len(), 0);
    assert!(state.selected().is_none());
    state.move_cursor(1);
    assert_eq!(state.cursor(), 0);
}

#[test]
fn nothing_is_inspected_while_the_details_pane_is_closed() {
    let state = state();

    assert!(!state.details_open);
    assert!(state.inspection_due().is_none());
    assert_eq!(state.inspection_view(), InspectionView::Idle);
}

#[test]
fn opening_the_pane_makes_an_inspection_due_exactly_once() {
    let mut state = state();
    state.details_open = true;

    let entry = state
        .inspection_due()
        .expect("the selection should be due")
        .clone();
    assert_eq!(entry.name, "alpha");

    state.mark_in_flight(&entry);
    assert!(
        state.inspection_due().is_none(),
        "must not fetch the same context twice"
    );
    assert_eq!(state.inspection_view(), InspectionView::Connecting);
}

#[test]
fn a_stored_snapshot_is_served_from_the_cache() {
    let mut state = state();
    state.details_open = true;
    let entry = state.selected().unwrap().clone();

    state.mark_in_flight(&entry);
    state.store_inspection(snapshot(&entry), InspectionKey::of(&entry));

    assert!(matches!(state.inspection_view(), InspectionView::Ready(_)));
    assert!(
        state.inspection_due().is_none(),
        "a fresh snapshot must not be refetched"
    );
}

#[test]
fn refreshing_drops_the_cached_snapshot() {
    let mut state = state();
    state.details_open = true;
    let entry = state.selected().unwrap().clone();
    state.store_inspection(snapshot(&entry), InspectionKey::of(&entry));

    state.invalidate_selected();

    assert_eq!(state.inspection_view(), InspectionView::Idle);
    assert!(state.inspection_due().is_some());
}

#[test]
fn each_context_is_cached_separately() {
    let mut state = state();
    state.details_open = true;
    let alpha = state.selected().unwrap().clone();
    state.store_inspection(snapshot(&alpha), InspectionKey::of(&alpha));

    state.move_cursor(1);
    assert_eq!(state.selected().unwrap().name, "beta");
    assert_eq!(
        state.inspection_view(),
        InspectionView::Idle,
        "beta has no snapshot yet"
    );

    state.move_cursor(-1);
    assert!(matches!(state.inspection_view(), InspectionView::Ready(_)));
}

#[test]
fn identical_context_names_from_different_files_are_distinct_cache_entries() {
    let mut first = entry("dup");
    first.source = "/k/a.yaml".to_string();
    let mut second = entry("dup");
    second.source = "/k/b.yaml".to_string();

    assert_ne!(InspectionKey::of(&first), InspectionKey::of(&second));

    let mut state = AppState::new(ContextCatalog {
        entries: vec![first.clone(), second],
        ..ContextCatalog::default()
    });
    state.details_open = true;
    state.store_inspection(snapshot(&first), InspectionKey::of(&first));

    assert!(matches!(state.inspection_view(), InspectionView::Ready(_)));
    state.move_cursor(1);
    assert_eq!(state.inspection_view(), InspectionView::Idle);
}

#[test]
fn clearing_reports_whether_it_changed_anything() {
    let mut state = state();
    assert!(!state.clear_query());

    state.push_query_char('b');
    assert!(state.clear_query());
    assert_eq!(state.query(), "");
    assert_eq!(state.visible_len(), 3);
}

#[test]
fn a_snapshot_expires_exactly_at_its_lifetime() {
    let mut state = state();
    state.details_open = true;
    let entry = state.selected().unwrap().clone();
    let stored = 5_000;
    let expired = stored + CACHE_TTL;
    state.store_inspection_at(snapshot(&entry), InspectionKey::of(&entry), stored);

    for now in [0, stored, expired - 1] {
        assert!(matches!(
            state.inspection_view_at(now),
            InspectionView::Ready(_)
        ));
        assert!(state.inspection_due_at(now).is_none());
        assert!(state.cached_snapshot_at(&entry, now).is_some());
    }
    assert_eq!(state.inspection_view_at(expired), InspectionView::Idle);
    assert_eq!(state.inspection_due_at(expired).unwrap().name, "alpha");
    assert!(state.cached_snapshot_at(&entry, expired).is_none());

    // A stale snapshot that is being fetched again is shown as connecting and not due.
    state.mark_in_flight(&entry);
    assert_eq!(
        state.inspection_view_at(expired),
        InspectionView::Connecting
    );
    assert!(state.inspection_due_at(expired).is_none());

    // Stored again, it lives from then on.
    state.store_inspection_at(snapshot(&entry), InspectionKey::of(&entry), expired);
    assert!(matches!(
        state.inspection_view_at(expired + CACHE_TTL - 1),
        InspectionView::Ready(_)
    ));
    assert_eq!(
        state.inspection_view_at(expired + CACHE_TTL),
        InspectionView::Idle
    );
    assert_eq!(CACHE_TTL, 30_000_000_000);
}

#[test]
fn storing_one_snapshot_makes_no_other_younger() {
    let mut state = state();
    let alpha = entry("alpha");
    let beta = entry("beta");
    state.store_inspection_at(snapshot(&alpha), InspectionKey::of(&alpha), 0);
    state.store_inspection_at(snapshot(&beta), InspectionKey::of(&beta), 10);

    assert!(state.cached_snapshot_at(&alpha, CACHE_TTL).is_none());
    assert!(state.cached_snapshot_at(&beta, CACHE_TTL).is_some());
    state.invalidate_selected();
    assert!(state.cached_snapshot_at(&alpha, 0).is_none());
    assert!(state.cached_snapshot_at(&beta, CACHE_TTL + 9).is_some());
    assert!(state.cached_snapshot_at(&beta, CACHE_TTL + 10).is_none());
}

#[test]
fn refreshing_without_a_selection_changes_nothing() {
    let mut state = state();
    let alpha = entry("alpha");
    state.store_inspection_at(snapshot(&alpha), InspectionKey::of(&alpha), 0);
    state.set_query("zzz");
    state.invalidate_selected();
    assert!(state.cached_snapshot_at(&alpha, 0).is_some());
}

#[test]
fn a_cached_snapshot_is_found_by_context_alone() {
    let mut state = state();
    let alpha = entry("alpha");
    assert!(state.cached_snapshot(&alpha).is_none());
    state.store_inspection(snapshot(&alpha), InspectionKey::of(&alpha));
    assert_eq!(state.cached_snapshot(&alpha).unwrap().context, "alpha");
    assert!(state.cached_snapshot(&entry("beta")).is_none());

    // Another namespace is another snapshot.
    let mut elsewhere = entry("alpha");
    elsewhere.namespace = Some("kube-system".to_string());
    assert!(state.cached_snapshot(&elsewhere).is_none());
}

#[test]
fn storing_again_replaces_the_older_snapshot() {
    let mut state = state();
    let alpha = entry("alpha");
    state.store_inspection(snapshot(&alpha), InspectionKey::of(&alpha));
    let mut newer = snapshot(&alpha);
    newer.namespace = "newer".to_string();
    state.store_inspection(newer, InspectionKey::of(&alpha));

    assert_eq!(state.inspections.len(), 1);
    assert_eq!(state.cached_snapshot(&alpha).unwrap().namespace, "newer");
}

#[test]
fn keys_compare_paths_by_their_components() {
    let mut one = entry("a");
    one.source = "/k/config".to_string();
    let mut two = entry("a");
    two.source = "/k//./config".to_string();
    assert_eq!(InspectionKey::of(&one), InspectionKey::of(&two));
}

#[test]
fn typing_and_deleting_restores_the_list() {
    let mut state = state();
    state.set_query("a");
    let before: Vec<String> = state.visible().iter().map(|e| e.name.clone()).collect();
    state.push_query_char('l');
    state.pop_query_char();
    let after: Vec<String> = state.visible().iter().map(|e| e.name.clone()).collect();
    assert_eq!(state.query(), "a");
    assert_eq!(before, after);
}

#[test]
fn the_cursor_jumps_to_either_end() {
    let mut state = state();
    state.cursor_to_end();
    assert_eq!(state.cursor(), 2);
    state.cursor_to_start();
    assert_eq!(state.cursor(), 0);
    state.set_query("zzz");
    state.cursor_to_end();
    assert_eq!(state.cursor(), 0);
    state.move_cursor(isize::MIN);
    assert_eq!(state.cursor(), 0);
    state.set_query("");
    state.move_cursor(isize::MAX);
    assert_eq!(state.cursor(), 2);
}

#[test]
fn the_input_mode_is_kept_until_it_is_set() {
    let mut state = state();
    assert_eq!(state.mode(), InputMode::Normal);
    assert_eq!(InputMode::default(), InputMode::Normal);
    state.set_mode(InputMode::Search);
    assert_eq!(state.mode(), InputMode::Search);
}
