//! Failures, timeouts and taking a snapshot step by step.

use kctx::kubeconfig::{AuthMethod, ContextEntry};
use kctx::kubernetes::client::{ClientSetup, Timeouts};
use kctx::kubernetes::health::{
    Condition, ContainerStatus, Deployment, Namespace, Observation, Pod, PodStats, Severity,
};
use kctx::kubernetes::inspection::{
    most_severe_first, read_cronjobs, read_daemonsets, read_deployments, read_jobs,
    read_namespace, read_nodes, read_pods, read_statefulsets, Availability, Inspection, Outcome,
    Sections, ServerVersion, LIST_LIMIT,
};
use kctx::kubernetes::read::Listing;
use kctx::kubernetes::{
    classify, describe, error_chain, judge, looks_like_timeout, looks_like_tls, timeout_message,
    timeout_text, ConnectionState, Failure, InspectError,
};
use kctx::time::Duration;

fn api_error(code: u16, message: &str) -> Failure {
    Failure::Api {
        code,
        message: message.to_string(),
        reason: "Forbidden".to_string(),
    }
}

fn transport(message: &str) -> Failure {
    Failure::Other(vec![
        format!("ServiceError: {message}"),
        message.to_string(),
    ])
}

fn context() -> ContextEntry {
    ContextEntry {
        name: "ctx".to_string(),
        cluster: "c".to_string(),
        user: Some("u".to_string()),
        namespace: Some("apps".to_string()),
        server: Some("https://cluster.example.com:6443".to_string()),
        cluster_missing: false,
        source: "/k/config".to_string(),
        current_in_source: false,
        active: false,
        ambiguous: false,
        auth_method: AuthMethod::Token,
    }
}

fn version() -> ServerVersion {
    ServerVersion {
        git_version: "v1.30.2".to_string(),
        platform: "linux/amd64".to_string(),
    }
}

fn ready(status: &str) -> Vec<Condition> {
    vec![Condition {
        kind: "Ready".to_string(),
        status: status.to_string(),
    }]
}

fn empty<T>() -> Result<Listing<T>, Failure> {
    Ok(Listing::new(Vec::new(), None))
}

/// A namespace where Nodes are forbidden, CronJobs are broken and Pods are unhealthy.
fn sections() -> Sections {
    let pods = vec![
        Pod {
            name: Some("web-1".to_string()),
            phase: Some("Running".to_string()),
            conditions: ready("True"),
            containers: Vec::new(),
            init_containers: Vec::new(),
        },
        Pod {
            name: Some("web-2".to_string()),
            phase: Some("Running".to_string()),
            conditions: ready("False"),
            containers: vec![ContainerStatus {
                waiting_reason: Some("CrashLoopBackOff".to_string()),
                restart_count: 31,
            }],
            init_containers: Vec::new(),
        },
    ];
    let deployments = vec![Deployment {
        name: Some("web".to_string()),
        replicas: Some(3),
        available_replicas: Some(2),
    }];
    Sections {
        nodes: read_nodes(Err(api_error(
            403,
            "nodes is forbidden: cannot list resource \"nodes\"",
        ))),
        namespace: read_namespace(Ok(Namespace {
            name: Some("apps".to_string()),
            phase: Some("Active".to_string()),
        })),
        pods: read_pods(Ok(Listing::new(pods, None))),
        deployments: read_deployments(Ok(Listing::new(deployments, Some("")))),
        statefulsets: read_statefulsets(empty()),
        daemonsets: read_daemonsets(empty()),
        jobs: read_jobs(empty()),
        cronjobs: read_cronjobs(Err(api_error(500, "etcd is unhappy"))),
    }
}

/// Inspect a cluster that answers as given.
fn inspect(
    entry: &ContextEntry,
    namespace_override: Option<&str>,
    answer: Result<ServerVersion, Failure>,
    sections: Sections,
) -> Inspection {
    let mut snapshot = Inspection::start(entry, namespace_override);
    snapshot.connect(
        "https://cluster.example.com:6443/".to_string(),
        "apps".to_string(),
        namespace_override.is_some(),
    );
    match snapshot.probe(answer, Duration::from_millis(34)) {
        Ok(()) => {
            snapshot.fill(sections);
            snapshot.finish(Outcome::Complete);
        }
        Err(error) => snapshot.finish(Outcome::Failed(error)),
    }
    snapshot
}

#[test]
fn unauthorized_becomes_an_authentication_failure() {
    let error = classify(&api_error(401, "Unauthorized"));
    assert!(matches!(error, InspectError::AuthenticationFailed));
    assert_eq!(error.state(), ConnectionState::AuthenticationFailed);
}

#[test]
fn forbidden_becomes_a_permission_error_that_keeps_the_server_message() {
    let error = classify(&api_error(
        403,
        "pods is forbidden: cannot list resource \"pods\"",
    ));
    assert!(error.is_permission_denied());
    assert_eq!(error.state(), ConnectionState::PermissionDenied);
    assert!(error.to_string().contains("cannot list resource"));
}

#[test]
fn other_status_codes_stay_api_errors() {
    let error = classify(&api_error(500, "internal error"));
    assert_eq!(error.state(), ConnectionState::ApiError);
    assert!(!error.is_permission_denied());
    assert_eq!(error.to_string(), "Kubernetes API error: internal error");
}

#[test]
fn a_status_without_text_still_produces_a_message() {
    let error = classify(&api_error(403, ""));
    assert!(error.to_string().contains("Forbidden"), "{error:?}");
    assert_eq!(describe("", ""), "no detail provided");
}

#[test]
fn transport_timeouts_are_recognised() {
    let error = classify(&transport("connection timed out"));
    assert_eq!(error.state(), ConnectionState::TimedOut);
    assert_eq!(error.to_string(), "timed out");
}

#[test]
fn certificate_failures_are_recognised_as_tls_errors() {
    let error = classify(&transport("invalid peer certificate: UnknownIssuer"));
    assert_eq!(error.state(), ConnectionState::TlsError);
}

#[test]
fn anything_else_is_unavailable() {
    let error = classify(&transport("connection refused"));
    assert_eq!(error.state(), ConnectionState::Unavailable);
    assert!(error.to_string().contains("connection refused"));
    assert_eq!(
        error.to_string(),
        "cluster is unreachable: ServiceError: connection refused: connection refused"
    );
}

#[test]
fn states_render_the_strings_the_ui_promises() {
    assert_eq!(ConnectionState::Connecting.to_string(), "Connecting...");
    assert_eq!(ConnectionState::Connected.to_string(), "Connected");
    assert_eq!(ConnectionState::Unavailable.to_string(), "Unavailable");
    assert_eq!(
        ConnectionState::AuthenticationFailed.to_string(),
        "Authentication failed"
    );
    assert_eq!(
        ConnectionState::PermissionDenied.to_string(),
        "Permission denied"
    );
    assert_eq!(ConnectionState::TimedOut.to_string(), "Timed out");
    assert_eq!(ConnectionState::TlsError.to_string(), "TLS error");
    assert_eq!(ConnectionState::ApiError.to_string(), "API error");
}

#[test]
fn overall_budget_never_exceeds_the_per_request_limits() {
    let timeouts = Timeouts::with_overall(Duration::from_secs(1));
    assert_eq!(timeouts.connect, Duration::from_secs(1));
    assert_eq!(timeouts.request, Duration::from_secs(1));
    assert_eq!(timeouts.overall, Duration::from_secs(1));
}

#[test]
fn a_generous_budget_keeps_the_default_limits() {
    let timeouts = Timeouts::with_overall(Duration::from_secs(60));
    assert_eq!(timeouts.connect, Duration::from_secs(3));
    assert_eq!(timeouts.request, Duration::from_secs(5));
    assert_eq!(timeouts.overall, Duration::from_secs(60));
    assert_eq!(Timeouts::default().overall, Duration::from_secs(8));
}

#[test]
fn a_pending_snapshot_describes_the_context_without_touching_the_network() {
    let entry = context();
    let snapshot = Inspection::pending(&entry, entry.effective_namespace());

    assert_eq!(snapshot.context, "ctx");
    assert_eq!(snapshot.namespace, "apps");
    assert_eq!(snapshot.state, ConnectionState::Connecting);
    assert_eq!(snapshot.version, Availability::NotChecked);
    assert!(!snapshot.has_problems());
}

#[test]
fn an_unreachable_cluster_yields_a_snapshot_rather_than_an_error() {
    let snapshot = inspect(
        &context(),
        None,
        Err(transport("connection refused")),
        sections(),
    );

    assert_eq!(snapshot.state, ConnectionState::Unavailable);
    assert!(snapshot.message.is_some());
    // Nothing was attempted beyond the probe.
    assert_eq!(snapshot.nodes, Availability::NotChecked);
    assert_eq!(snapshot.workloads.pods, Availability::NotChecked);
    assert_eq!(snapshot.latency, None);
}

#[test]
fn an_inspection_that_outlives_its_budget_times_out() {
    let mut snapshot = Inspection::start(&context(), None);
    snapshot.finish(Outcome::Elapsed(Duration::from_secs(8)));
    assert_eq!(snapshot.state, ConnectionState::TimedOut);
    assert_eq!(snapshot.message.as_deref(), Some("timed out after 8.0s"));
}

#[test]
fn the_namespace_override_wins_over_the_context_namespace() {
    let snapshot = inspect(
        &context(),
        Some("kube-system"),
        Err(transport("connection refused")),
        sections(),
    );
    assert_eq!(snapshot.namespace, "kube-system");

    // Without one, what the client resolved counts.
    let mut entry = context();
    entry.namespace = None;
    assert_eq!(Inspection::start(&entry, None).namespace, "default");
    let snapshot = inspect(&entry, None, Ok(version()), sections());
    assert_eq!(snapshot.namespace, "apps");
}

#[test]
fn a_namespace_override_changes_the_paths_that_are_read() {
    let mut snapshot = Inspection::start(&context(), Some("kube-system"));
    snapshot.connect("https://c".to_string(), "apps".to_string(), true);
    assert!(snapshot
        .probe(Ok(version()), Duration::from_millis(1))
        .is_ok());

    let plan = snapshot.plan();
    assert_eq!(plan.namespace.name, "kube-system");
    for request in [
        &plan.pods,
        &plan.deployments,
        &plan.statefulsets,
        &plan.daemonsets,
        &plan.jobs,
        &plan.cronjobs,
    ] {
        assert_eq!(request.namespace, "kube-system");
        assert_eq!(request.limit, LIST_LIMIT);
    }
    assert_eq!(plan.nodes.limit, LIST_LIMIT);

    let mut sections = sections();
    sections.pods = read_pods(Ok(Listing::new(
        vec![Pod {
            name: Some("kube-proxy".to_string()),
            phase: Some("Running".to_string()),
            conditions: ready("True"),
            containers: Vec::new(),
            init_containers: Vec::new(),
        }],
        None,
    )));
    snapshot.fill(sections);
    snapshot.finish(Outcome::Complete);

    assert_eq!(snapshot.namespace, "kube-system");
    assert_eq!(snapshot.workloads.pods.value().unwrap().total, 1);
}

#[test]
fn a_client_is_built_from_the_context_and_its_own_file() {
    let setup = ClientSetup::new(
        &context(),
        Timeouts::with_overall(Duration::from_secs(4)),
    );
    assert_eq!(setup.source, "/k/config");
    assert_eq!(setup.context, "ctx");
    assert_eq!(setup.connect_timeout, Duration::from_secs(3));
    assert_eq!(setup.read_timeout, Duration::from_secs(4));
    assert_eq!(setup.write_timeout, Duration::from_secs(4));
    assert!(!setup.retry);
}

#[test]
fn availability_reports_permission_problems_separately_from_failures() {
    let error = Failure::Api {
        code: 403,
        message: "nodes is forbidden".to_string(),
        reason: String::new(),
    };
    assert_eq!(
        Availability::<PodStats>::from_error(&error),
        Availability::Denied
    );

    let error = transport("boom");
    assert!(matches!(
        Availability::<PodStats>::from_error(&error),
        Availability::Unavailable(_)
    ));
}

#[test]
fn observations_are_sorted_most_severe_first() {
    let observations = vec![
        Observation {
            severity: Severity::Info,
            text: "info".into(),
        },
        Observation {
            severity: Severity::Problem,
            text: "problem".into(),
        },
        Observation {
            severity: Severity::Warning,
            text: "warning".into(),
        },
    ];
    let observations = most_severe_first(&observations);

    let texts: Vec<&str> = observations.iter().map(|o| o.text.as_str()).collect();
    assert_eq!(texts, vec!["problem", "warning", "info"]);
}

#[test]
fn equal_severities_keep_their_order() {
    let note = |severity, text: &str| Observation {
        severity,
        text: text.to_string(),
    };
    let sorted = most_severe_first(&vec![
        note(Severity::Warning, "first"),
        note(Severity::Problem, "urgent"),
        note(Severity::Warning, "second"),
    ]);
    let texts: Vec<&str> = sorted.iter().map(|o| o.text.as_str()).collect();
    assert_eq!(texts, vec!["urgent", "first", "second"]);
}

#[test]
fn insufficient_permissions_degrade_one_section_not_the_whole_snapshot() {
    let snapshot = inspect(&context(), None, Ok(version()), sections());

    // The cluster answered, so the snapshot is Connected despite the forbidden Nodes.
    assert_eq!(
        snapshot.state,
        ConnectionState::Connected,
        "{:?}",
        snapshot.message
    );
    assert_eq!(snapshot.namespace, "apps");
    assert!(snapshot.latency.is_some());

    let version = snapshot
        .version
        .value()
        .expect("version should be readable");
    assert_eq!(version.git_version, "v1.30.2");
    assert_eq!(version.platform, "linux/amd64");

    // Forbidden vs. broken are reported differently.
    assert_eq!(snapshot.nodes, Availability::Denied);
    assert_eq!(snapshot.nodes.describe(), "unavailable (permission denied)");
    assert!(
        matches!(snapshot.workloads.cronjobs, Availability::Unavailable(_)),
        "{:?}",
        snapshot.workloads.cronjobs
    );

    // Everything readable is still there.
    let pods = snapshot
        .workloads
        .pods
        .value()
        .expect("pods should be readable");
    assert_eq!(pods.total, 2);
    assert_eq!(pods.ready, 1);
    let deployments = snapshot.workloads.deployments.value().unwrap();
    assert_eq!(deployments.degraded, 1);
    assert_eq!(
        snapshot.namespace_status.value().unwrap().phase.as_deref(),
        Some("Active")
    );
}

#[test]
fn problems_are_reported_as_plain_observations() {
    let snapshot = inspect(&context(), None, Ok(version()), sections());
    let texts: Vec<&str> = snapshot
        .observations
        .iter()
        .map(|o| o.text.as_str())
        .collect();

    assert!(texts.contains(&"1 Pod not Ready (web-2)"), "{texts:?}");
    assert!(
        texts.contains(&"1 Pod in CrashLoopBackOff (web-2)"),
        "{texts:?}"
    );
    assert!(
        texts.contains(&"deployment web has 2/3 available replicas"),
        "{texts:?}"
    );
    assert!(
        texts.contains(&"1 Pod with more than 5 container restarts (highest 31)"),
        "{texts:?}"
    );
    assert!(snapshot.has_problems());
    // Problems come before informational notes.
    assert_eq!(snapshot.observations[0].severity, Severity::Problem);
}

#[test]
fn a_rejected_token_is_reported_as_an_authentication_failure() {
    let snapshot = inspect(
        &context(),
        None,
        Err(api_error(401, "Unauthorized")),
        sections(),
    );

    assert_eq!(snapshot.state, ConnectionState::AuthenticationFailed);
    assert_eq!(snapshot.message.as_deref(), Some("authentication failed"));
    assert_eq!(snapshot.workloads.pods, Availability::NotChecked);
}

#[test]
fn a_forbidden_version_does_not_stop_the_inspection() {
    let snapshot = inspect(&context(), None, Err(api_error(403, "no")), sections());
    assert_eq!(snapshot.state, ConnectionState::Connected);
    assert_eq!(snapshot.version, Availability::Denied);
    assert_eq!(snapshot.latency, Some(Duration::from_millis(34)));
    assert!(snapshot.workloads.pods.value().is_some());
}

#[test]
fn a_snapshot_of_a_healthy_namespace_has_nothing_to_report() {
    let quiet = Sections {
        nodes: read_nodes(empty()),
        namespace: read_namespace(Ok(Namespace {
            name: Some("apps".to_string()),
            phase: Some("Active".to_string()),
        })),
        pods: read_pods(empty()),
        deployments: read_deployments(empty()),
        statefulsets: read_statefulsets(empty()),
        daemonsets: read_daemonsets(empty()),
        jobs: read_jobs(empty()),
        cronjobs: read_cronjobs(empty()),
    };
    let snapshot = inspect(&context(), None, Ok(version()), quiet);

    assert_eq!(snapshot.state, ConnectionState::Connected);
    assert!(
        snapshot.observations.is_empty(),
        "{:?}",
        snapshot.observations
    );
    assert!(!snapshot.has_problems());
}

#[test]
fn every_failure_is_worded_and_implies_a_state() {
    let detail = || "why".to_string();
    let cases = vec![
        (
            classify(&Failure::Config(detail())),
            ConnectionState::Unavailable,
            "kubeconfig is not usable for this context: why",
        ),
        (
            InspectError::Unavailable(detail()),
            ConnectionState::Unavailable,
            "cluster is unreachable: why",
        ),
        (
            classify(&Failure::Auth),
            ConnectionState::AuthenticationFailed,
            "authentication failed",
        ),
        (
            InspectError::PermissionDenied(detail()),
            ConnectionState::PermissionDenied,
            "permission denied: why",
        ),
        (
            InspectError::TimedOut(Duration::zero()),
            ConnectionState::TimedOut,
            "timed out",
        ),
        (
            classify(&Failure::Tls(detail())),
            ConnectionState::TlsError,
            "TLS error: why",
        ),
        (
            InspectError::Api(detail()),
            ConnectionState::ApiError,
            "Kubernetes API error: why",
        ),
    ];
    for (error, state, message) in cases {
        assert_eq!(error.state(), state);
        assert_eq!(error.to_string(), message);
    }
}

#[test]
fn timeouts_are_quoted_with_one_decimal_place() {
    assert_eq!(
        timeout_message(Duration::from_millis(300)),
        "timed out after 0.3s"
    );
    assert_eq!(
        timeout_message(Duration::from_secs(8)),
        "timed out after 8.0s"
    );
    assert_eq!(timeout_message(Duration::zero()), "timed out");
    assert_eq!(timeout_text("1.5"), "timed out after 1.5s");
}

#[test]
fn transport_failures_are_judged_by_their_words() {
    assert!(looks_like_timeout("operation timed out"));
    assert!(looks_like_timeout("connect timeout"));
    assert!(looks_like_timeout("deadline has elapsed"));
    assert!(looks_like_timeout("Timeout"));
    assert!(!looks_like_timeout("refused"));
    for words in [
        "bad certificate",
        "tls handshake eof",
        "handshake failure",
        "unknownissuer",
        "invalid peer",
    ] {
        assert!(looks_like_tls(words), "{words}");
    }
    assert!(looks_like_tls("invalid peer certificate: UnknownIssuer"));
    assert!(looks_like_tls("TLS Handshake EOF"));
    assert!(!looks_like_tls("refused"));
    // A timeout during the handshake is a timeout.
    assert_eq!(
        judge(
            "TLS handshake timed out".to_string(),
            "tls handshake timed out"
        ),
        InspectError::TimedOut(Duration::zero())
    );
    assert_eq!(
        judge("Bad Certificate".to_string(), "bad certificate"),
        InspectError::Tls("Bad Certificate".to_string())
    );
    // Words are recognised whatever their case.
    assert_eq!(
        classify(&transport("Connection TIMED OUT")).state(),
        ConnectionState::TimedOut
    );
}

#[test]
fn repeated_causes_are_said_once() {
    let parts: Vec<String> = ["a", "a", "b", "a"].iter().map(|s| s.to_string()).collect();
    assert_eq!(error_chain(&parts), "a: b: a");
}

#[test]
fn listings_know_whether_they_are_complete() {
    assert!(!Listing::<u8>::new(vec![1], None).truncated);
    assert!(!Listing::<u8>::new(vec![1], Some("")).truncated);
    let cut = Listing::<u8>::new(vec![1], Some("next"));
    assert!(cut.truncated);
    assert_eq!(cut.items, vec![1]);
    assert_eq!(LIST_LIMIT, 500);
}

#[test]
fn sections_describe_themselves() {
    assert_eq!(Availability::Read(1).describe(), "available");
    assert_eq!(
        Availability::<u8>::Unavailable("boom".to_string()).describe(),
        "unavailable (boom)"
    );
    assert_eq!(Availability::<u8>::default().describe(), "not checked");
    assert_eq!(Availability::<u8>::Denied.value(), None);
}
