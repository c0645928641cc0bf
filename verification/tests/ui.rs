//! Keys, the context list and the details pane.

use kctx::app::{AppState, InputMode, InspectionKey, InspectionView};
use kctx::kubeconfig::{AuthMethod, ContextCatalog, ContextEntry};
use kctx::kubernetes::health::{NodeSummary, Observation, PodStats, Severity};
use kctx::kubernetes::inspection::{Availability, Inspection, ServerVersion};
use kctx::kubernetes::ConnectionState;
use kctx::time::Duration;
use kctx::ui::contexts::{
    empty_notice, flagged, header, highlighted, hints, row, search, titles, ContextsView,
};
use kctx::ui::inspection::{observation_line, pane, status_line};
use kctx::ui::{handle_key, Action, Color, KeyCode, KeyEvent, Line, Style};

fn entry(name: &str) -> ContextEntry {
    ContextEntry {
        name: name.to_string(),
        cluster: format!("{name}-cluster"),
        user: None,
        namespace: None,
        server: None,
        cluster_missing: false,
        source: "/k/config".to_string(),
        current_in_source: false,
        active: false,
        ambiguous: false,
        auth_method: AuthMethod::Unspecified,
    }
}

fn state() -> AppState {
    AppState::new(ContextCatalog {
        entries: vec![entry("alpha"), entry("beta"), entry("gamma")],
        ..ContextCatalog::default()
    })
}

fn press(state: &mut AppState, code: KeyCode) -> Action {
    handle_key(
        state,
        KeyEvent {
            code,
            control: false,
        },
    )
}

fn control(state: &mut AppState, character: char) -> Action {
    handle_key(
        state,
        KeyEvent {
            code: KeyCode::Char(character),
            control: true,
        },
    )
}

fn type_char(state: &mut AppState, character: char) -> Action {
    press(state, KeyCode::Char(character))
}

#[test]
fn arrows_and_jk_navigate_in_normal_mode() {
    let mut state = state();

    assert_eq!(press(&mut state, KeyCode::Down), Action::Continue);
    assert_eq!(state.selected().unwrap().name, "beta");
    type_char(&mut state, 'j');
    assert_eq!(state.selected().unwrap().name, "gamma");
    type_char(&mut state, 'k');
    assert_eq!(state.selected().unwrap().name, "beta");
    press(&mut state, KeyCode::Up);
    assert_eq!(state.selected().unwrap().name, "alpha");
}

#[test]
fn q_quits_in_normal_mode_but_is_text_in_search_mode() {
    let mut state = state();
    assert_eq!(type_char(&mut state, 'q'), Action::Cancel);

    let mut state = self::state();
    type_char(&mut state, '/');
    assert_eq!(type_char(&mut state, 'q'), Action::Continue);
    assert_eq!(state.query(), "q");
}

#[test]
fn typing_a_letter_starts_a_search() {
    let mut state = state();

    type_char(&mut state, 'b');
    assert_eq!(state.mode(), InputMode::Search);
    assert_eq!(state.query(), "b");
    assert_eq!(state.selected().unwrap().name, "beta");

    // In search mode j and k are literal text, not navigation.
    type_char(&mut state, 'j');
    assert_eq!(state.query(), "bj");
    assert_eq!(state.visible_len(), 0);
}

#[test]
fn slash_enters_search_mode_without_adding_a_character() {
    let mut state = state();
    type_char(&mut state, '/');

    assert_eq!(state.mode(), InputMode::Search);
    assert_eq!(state.query(), "");
    assert_eq!(state.visible_len(), 3);
}

#[test]
fn escape_clears_the_filter_then_cancels() {
    let mut state = state();
    type_char(&mut state, 'b');

    assert_eq!(press(&mut state, KeyCode::Esc), Action::Continue);
    assert_eq!(state.query(), "");
    assert_eq!(state.mode(), InputMode::Normal);
    assert_eq!(press(&mut state, KeyCode::Esc), Action::Cancel);
}

#[test]
fn backspacing_out_of_a_query_returns_to_normal_mode() {
    let mut state = state();
    type_char(&mut state, 'b');

    press(&mut state, KeyCode::Backspace);
    assert_eq!(state.query(), "");
    assert_eq!(state.mode(), InputMode::Normal);
    // Normal-mode commands work again.
    assert_eq!(type_char(&mut state, 'q'), Action::Cancel);
}

#[test]
fn enter_selects_and_ctrl_c_cancels() {
    let mut state = state();
    assert_eq!(press(&mut state, KeyCode::Enter), Action::Select);

    assert_eq!(control(&mut state, 'c'), Action::Cancel);
}

#[test]
fn i_toggles_the_details_pane() {
    let mut state = state();
    assert!(!state.details_open);

    type_char(&mut state, 'i');
    assert!(state.details_open);
    type_char(&mut state, 'i');
    assert!(!state.details_open);
}

#[test]
fn home_end_and_g_jump_to_the_ends_of_the_list() {
    let mut state = state();

    press(&mut state, KeyCode::End);
    assert_eq!(state.selected().unwrap().name, "gamma");
    press(&mut state, KeyCode::Home);
    assert_eq!(state.selected().unwrap().name, "alpha");
    type_char(&mut state, 'G');
    assert_eq!(state.selected().unwrap().name, "gamma");
    type_char(&mut state, 'g');
    assert_eq!(state.selected().unwrap().name, "alpha");
}

#[test]
fn control_keys_move_and_scroll() {
    let mut state = state();
    assert_eq!(control(&mut state, 'n'), Action::Continue);
    assert_eq!(state.cursor(), 1);
    assert_eq!(control(&mut state, 'p'), Action::Continue);
    assert_eq!(state.cursor(), 0);
    assert_eq!(control(&mut state, 'd'), Action::ScrollDetails(5));
    assert_eq!(control(&mut state, 'u'), Action::ScrollDetails(-5));
    // Anything else with the control key does nothing, text included.
    assert_eq!(control(&mut state, 'x'), Action::Continue);
    assert_eq!(state.query(), "");
    assert_eq!(press(&mut state, KeyCode::PageDown), Action::Continue);
    assert_eq!(state.cursor(), 2);
    press(&mut state, KeyCode::PageUp);
    assert_eq!(state.cursor(), 0);
    assert_eq!(press(&mut state, KeyCode::Other), Action::Continue);
}

#[test]
fn r_drops_the_snapshot_of_the_selection() {
    let mut state = state();
    let alpha = state.selected().unwrap().clone();
    state.store_inspection(
        Inspection::pending(&alpha, "default"),
        InspectionKey::of(&alpha),
    );
    assert!(state.cached_snapshot(&alpha).is_some());
    assert_eq!(type_char(&mut state, 'r'), Action::Continue);
    assert!(state.cached_snapshot(&alpha).is_none());
}

// -------------------------------------------------------------------------------------------------
// The context list
// -------------------------------------------------------------------------------------------------

fn listed(name: &str, cluster: &str, namespace: Option<&str>, active: bool) -> ContextEntry {
    ContextEntry {
        name: name.to_string(),
        cluster: cluster.to_string(),
        user: Some("user".to_string()),
        namespace: namespace.map(str::to_string),
        server: Some("https://example.com".to_string()),
        cluster_missing: false,
        source: "/k/config".to_string(),
        current_in_source: active,
        active,
        ambiguous: false,
        auth_method: AuthMethod::Token,
    }
}

fn list_state() -> AppState {
    AppState::new(ContextCatalog {
        entries: vec![
            listed("production-eu", "prod-cluster", Some("payments"), true),
            listed("staging", "stg-cluster", None, false),
        ],
        active_name: Some("production-eu".to_string()),
        active_index: Some(0),
        ..ContextCatalog::default()
    })
}

fn cells(entry: &ContextEntry, flag: bool) -> Vec<String> {
    row(entry, flag, &None).iter().map(Line::text).collect()
}

/// Everything the screen says, one line each.
fn render_list(state: &AppState) -> Vec<String> {
    let mut lines = vec![header(state).text(), titles().join("  ")];
    for entry in state.visible() {
        lines.push(cells(entry, flagged(state.cached_snapshot(entry))).join("  "));
    }
    if let Some(notice) = empty_notice(state) {
        lines.push(notice.text());
    }
    if state.details_open {
        lines.extend(pane_text(
            state.selected(),
            state.inspection_view(),
            0,
            34,
        ));
    }
    lines.push(search(state).text());
    lines.push(hints(state).text());
    lines
}

#[test]
fn renders_every_column_of_every_context() {
    let lines = render_list(&list_state());
    let screen = lines.join("\n");

    assert!(screen.contains("Kubernetes Contexts (2)"), "{screen}");
    assert!(screen.contains("CONTEXT"), "{screen}");
    assert!(screen.contains("production-eu"), "{screen}");
    assert!(screen.contains("prod-cluster"), "{screen}");
    assert!(screen.contains("payments"), "{screen}");
    assert!(screen.contains("/k/config"), "{screen}");
    assert!(screen.contains("staging"), "{screen}");
}

#[test]
fn the_active_context_is_marked_and_unset_namespaces_show_a_dash() {
    let state = list_state();
    let visible = state.visible();
    let production = cells(visible[0], false);
    let staging = cells(visible[1], false);

    assert!(production[0].contains('*'), "{production:?}");
    assert!(!staging[0].contains('*'), "{staging:?}");
    // The namespace column of the staging row holds the unset marker.
    assert_eq!(production[3], "payments");
    assert_eq!(staging[3], "-");
}

#[test]
fn hints_follow_the_input_mode() {
    let mut state = list_state();
    assert!(render_list(&state).join("\n").contains("q quit"));

    state.set_mode(InputMode::Search);
    state.push_query_char('p');
    let screen = render_list(&state).join("\n");
    assert!(screen.contains("type to filter"), "{screen}");
    assert!(screen.contains("/ p"), "{screen}");
    assert!(screen.contains("(1/2)"), "{screen}");

    state.set_mode(InputMode::Normal);
    assert_eq!(search(&state).text(), " filter p");
    state.details_open = true;
    assert!(hints(&state).text().contains("i close"));
    state.details_open = false;
    assert!(hints(&state).text().contains("i inspect"));
}

#[test]
fn the_details_pane_shows_local_facts_and_no_credentials() {
    let mut state = list_state();
    state.details_open = true;
    let screen = render_list(&state).join("\n");

    assert!(screen.contains("Details"), "{screen}");
    assert!(screen.contains("https://example.com"), "{screen}");
    assert!(
        screen.contains("token"),
        "auth method should be described: {screen}"
    );
}

#[test]
fn an_empty_result_set_says_so() {
    let mut state = list_state();
    state.set_query("zzzz");
    let screen = render_list(&state).join("\n");

    assert!(screen.contains("no context matches"), "{screen}");
    assert!(screen.contains("(0/2)"), "{screen}");
    assert_eq!(highlighted(&state), None);
    assert_eq!(highlighted(&list_state()), Some(0));
}

#[test]
fn rows_are_styled_by_what_they_mark() {
    let entry = listed("prod", "c", None, true);
    let row = row(&entry, true, &Some("/k".to_string()));
    assert_eq!(row[0].text(), "*!");
    assert_eq!(row[0].spans[0].style, Style::bold_colored(Color::Green));
    assert_eq!(row[0].spans[1].style, Style::bold_colored(Color::Red));
    assert_eq!(row[1].spans[0].style, Style::colored(Color::Green));
    assert_eq!(row[4].text(), "~/config");
    assert_eq!(row[4].spans[0].style, Style::dim());
}

#[test]
fn only_trouble_is_flagged() {
    let entry = entry("a");
    let mut snapshot = Inspection::pending(&entry, "default");
    assert!(!flagged(None));
    assert!(!flagged(Some(&snapshot)));
    snapshot.observations.push(Observation {
        severity: Severity::Info,
        text: "fyi".to_string(),
    });
    assert!(!flagged(Some(&snapshot)));
    snapshot.observations.push(Observation {
        severity: Severity::Warning,
        text: "careful".to_string(),
    });
    assert!(flagged(Some(&snapshot)));
}

#[test]
fn scrolling_is_clamped_and_starts_over_with_the_selection() {
    let mut view = ContextsView::default();
    let alpha = entry("alpha");
    let beta = entry("beta");
    view.follow(Some(&alpha));
    view.rendered(7);
    view.scroll_details(5);
    assert_eq!(view.details_scroll, 5);
    view.scroll_details(5);
    assert_eq!(view.details_scroll, 7);
    view.follow(Some(&alpha));
    assert_eq!(view.details_scroll, 7);
    view.scroll_details(-100);
    assert_eq!(view.details_scroll, 0);
    view.scroll_details(i32::MAX);
    assert_eq!(view.details_scroll, 7);
    view.follow(Some(&beta));
    assert_eq!(view.details_scroll, 0);
    view.follow(None);
    assert_eq!(view.details_context, "");
}

// -------------------------------------------------------------------------------------------------
// The details pane
// -------------------------------------------------------------------------------------------------

fn detailed() -> ContextEntry {
    ContextEntry {
        name: "production-eu".to_string(),
        cluster: "prod-cluster".to_string(),
        user: Some("prod-user".to_string()),
        namespace: Some("payments".to_string()),
        server: Some("https://prod.example.com".to_string()),
        cluster_missing: false,
        source: "/k/prod.yaml".to_string(),
        current_in_source: false,
        active: false,
        ambiguous: false,
        // An exec plugin: only the command name may ever appear on screen.
        auth_method: AuthMethod::Exec("aws".to_string()),
    }
}

fn snapshot(entry: &ContextEntry) -> Inspection {
    let mut snapshot = Inspection::pending(entry, "payments");
    snapshot.state = ConnectionState::Connected;
    snapshot.latency = Some(Duration::from_millis(34));
    snapshot.version = Availability::Read(ServerVersion {
        git_version: "v1.30.2".to_string(),
        platform: "linux/amd64".to_string(),
    });
    snapshot.nodes = Availability::Read(NodeSummary {
        total: 5,
        ready: 4,
        control_plane: 1,
        versions: vec!["v1.30.2".to_string()],
        platforms: vec!["linux/amd64".to_string()],
        truncated: false,
    });
    snapshot.workloads.pods = Availability::Read(PodStats {
        total: 42,
        ready: 39,
        ..PodStats::default()
    });
    // A read-only account that cannot list Deployments must still see the rest.
    snapshot.workloads.deployments = Availability::Denied;
    snapshot.observations = vec![Observation {
        severity: Severity::Problem,
        text: "2 Pods not Ready (api-1, api-2)".to_string(),
    }];
    snapshot
}

/// The title and the visible lines of the pane.
fn pane_text(
    entry: Option<&ContextEntry>,
    view: InspectionView<'_>,
    scroll: u16,
    height: u16,
) -> Vec<String> {
    let pane = pane(entry, view, scroll, height, &None);
    let mut lines = vec![pane.title.clone()];
    lines.extend(
        pane.lines
            .iter()
            .skip(pane.offset as usize)
            .take(height as usize - 2)
            .map(Line::text),
    );
    lines
}

fn render(entry: Option<&ContextEntry>, view: InspectionView<'_>) -> String {
    render_scrolled(entry, view, 0, 34)
}

fn render_scrolled(
    entry: Option<&ContextEntry>,
    view: InspectionView<'_>,
    scroll: u16,
    height: u16,
) -> String {
    pane_text(entry, view, scroll, height).join("\n")
}

#[test]
fn the_idle_pane_shows_local_facts_and_invites_inspection() {
    let entry = detailed();
    let screen = render(Some(&entry), InspectionView::Idle);

    assert!(screen.contains("production-eu"), "{screen}");
    assert!(screen.contains("prod-cluster"), "{screen}");
    assert!(screen.contains("https://prod.example.com"), "{screen}");
    assert!(screen.contains("payments"), "{screen}");
    assert!(screen.contains("press i to inspect"), "{screen}");
    // Nothing live has been read, so no cluster sections appear.
    assert!(!screen.contains("Kubernetes"), "{screen}");
    assert!(!screen.contains("Problems"), "{screen}");
}

#[test]
fn only_the_auth_method_is_shown_never_a_credential() {
    let entry = detailed();
    let screen = render(Some(&entry), InspectionView::Idle);

    assert!(screen.contains("exec plugin (aws)"), "{screen}");
    for forbidden in ["token", "get-token", "certificate-data", "password"] {
        assert!(
            !screen.contains(forbidden),
            "{forbidden} leaked into {screen}"
        );
    }
}

#[test]
fn an_in_flight_request_says_it_is_connecting() {
    let entry = detailed();
    let screen = render(Some(&entry), InspectionView::Connecting);

    assert!(screen.contains("Connecting..."), "{screen}");
}

#[test]
fn a_ready_snapshot_shows_live_information() {
    let entry = detailed();
    let snapshot = snapshot(&entry);
    let screen = render(Some(&entry), InspectionView::Ready(&snapshot));

    assert!(screen.contains("Connected"), "{screen}");
    assert!(screen.contains("v1.30.2"), "{screen}");
    assert!(screen.contains("34 ms"), "{screen}");
    assert!(screen.contains("4/5"), "{screen}");
    assert!(screen.contains("42 total, 39 Ready"), "{screen}");
    assert!(screen.contains("2 Pods not Ready"), "{screen}");
}

#[test]
fn forbidden_sections_say_why_they_are_empty() {
    let entry = detailed();
    let snapshot = snapshot(&entry);
    let screen = render(Some(&entry), InspectionView::Ready(&snapshot));

    assert!(screen.contains("permission denied"), "{screen}");
    // ...while the sections that were readable are still shown.
    assert!(screen.contains("42 total"), "{screen}");
}

#[test]
fn a_failed_connection_reports_the_reason() {
    let entry = detailed();
    let mut snapshot = Inspection::pending(&entry, "payments");
    snapshot.state = ConnectionState::TimedOut;
    snapshot.message = Some("timed out after 8.0s".to_string());

    let screen = render(Some(&entry), InspectionView::Ready(&snapshot));

    assert!(screen.contains("Timed out"), "{screen}");
    assert!(screen.contains("timed out after 8.0s"), "{screen}");
    assert!(screen.contains("not checked"), "{screen}");
    // An unread cluster has no *observed* problems, which is not the same as being healthy.
    assert!(screen.contains("not determined"), "{screen}");
    assert!(!screen.contains("none observed"), "{screen}");
}

#[test]
fn kubeconfig_oddities_are_pointed_out() {
    let mut entry = detailed();
    entry.cluster_missing = true;
    entry.ambiguous = true;

    let screen = render(Some(&entry), InspectionView::Idle);

    assert!(screen.contains("not defined in this file"), "{screen}");
    assert!(screen.contains("defines this context name too"), "{screen}");
    assert!(
        screen.contains("cluster \"prod-cluster\" is not defined in this file"),
        "{screen}"
    );
}

#[test]
fn a_pane_too_short_for_its_content_can_be_scrolled() {
    let entry = detailed();
    let snapshot = snapshot(&entry);

    // Twelve rows cannot show everything, so the problems are below the fold...
    let top = render_scrolled(Some(&entry), InspectionView::Ready(&snapshot), 0, 12);
    assert!(top.contains("Cluster"), "{top}");
    assert!(!top.contains("2 Pods not Ready"), "{top}");
    // ...and the title says how far the pane can be scrolled.
    assert!(top.contains("Details  1/"), "{top}");

    // Scrolling down reaches them, and over-scrolling is clamped to the last screenful
    // rather than showing an empty pane.
    let scrolled = render_scrolled(Some(&entry), InspectionView::Ready(&snapshot), 999, 12);
    assert!(scrolled.contains("2 Pods not Ready"), "{scrolled}");
    assert!(scrolled.contains("Problems"), "{scrolled}");
}

#[test]
fn short_content_is_not_marked_scrollable() {
    let entry = detailed();
    let screen = render_scrolled(Some(&entry), InspectionView::Idle, 0, 34);

    assert!(screen.contains(" Details "), "{screen}");
    assert!(!screen.contains("Details  1/"), "{screen}");
}

#[test]
fn an_empty_selection_does_not_panic() {
    let screen = render(None, InspectionView::Idle);
    assert!(screen.contains("nothing selected"), "{screen}");
}

#[test]
fn the_pane_lists_every_section_in_order() {
    let entry = detailed();
    let snapshot = snapshot(&entry);
    let pane = pane(
        Some(&entry),
        InspectionView::Ready(&snapshot),
        3,
        20,
        &Some("/k".to_string()),
    );
    let lines: Vec<String> = pane.lines.iter().map(Line::text).collect();
    assert_eq!(
        lines,
        vec![
            "production-eu",
            "",
            "Cluster       prod-cluster",
            "Server        https://prod.example.com",
            "Namespace     payments",
            "User          prod-user",
            "Auth          exec plugin (aws)",
            "Source        ~/prod.yaml",
            "",
            "Status        Connected",
            "Kubernetes    v1.30.2 (linux/amd64)",
            "Latency       34 ms",
            "",
            "Nodes",
            "Ready         4/5 (1 control plane)",
            "Versions      v1.30.2",
            "Platforms     linux/amd64",
            "",
            "Namespace payments",
            "Phase         not checked",
            "Pods          42 total, 39 Ready",
            "Deployments   unavailable (permission denied)",
            "StatefulSets  not checked",
            "DaemonSets    not checked",
            "Jobs          not checked",
            "CronJobs      not checked",
            "",
            "Problems",
            "  2 Pods not Ready (api-1, api-2)",
        ]
    );
    assert_eq!(pane.overflow, 11);
    assert_eq!(pane.offset, 3);
    assert_eq!(pane.title, " Details  4/12 ");
}

#[test]
fn colours_follow_state_and_severity() {
    let color = |state| status_line(state, &None).spans[1].style;
    assert_eq!(
        color(ConnectionState::Connected),
        Style::colored(Color::Green)
    );
    assert_eq!(
        color(ConnectionState::Connecting),
        Style::colored(Color::Cyan)
    );
    assert_eq!(
        color(ConnectionState::TimedOut),
        Style::colored(Color::Yellow)
    );
    assert_eq!(
        color(ConnectionState::PermissionDenied),
        Style::colored(Color::Yellow)
    );
    assert_eq!(
        color(ConnectionState::Unavailable),
        Style::colored(Color::Red)
    );
    let shade = |severity| {
        observation_line(&Observation {
            severity,
            text: "x".to_string(),
        })
        .spans[1]
            .style
    };
    assert_eq!(shade(Severity::Problem), Style::colored(Color::Red));
    assert_eq!(shade(Severity::Warning), Style::colored(Color::Yellow));
    assert_eq!(shade(Severity::Info), Style::colored(Color::Blue));
}
