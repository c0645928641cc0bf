//! What goes to stdout.

use kctx::kubeconfig::{AuthMethod, ContextCatalog, ContextEntry};
use kctx::kubernetes::health::{
    CronJobStats, DaemonSetStats, JobStats, NamespaceSummary, NodeSummary, Observation, PodStats,
    ReplicaStats, Severity,
};
use kctx::kubernetes::inspection::{Availability, Inspection, ServerVersion};
use kctx::kubernetes::ConnectionState;
use kctx::output::{inspection_text, list_tsv, problems_placeholder, ContextJson};
use kctx::time::Duration;

fn context(name: &str, namespace: Option<&str>, active: bool) -> ContextEntry {
    ContextEntry {
        name: name.to_string(),
        cluster: format!("{name}-cluster"),
        user: Some(format!("{name}-user")),
        namespace: namespace.map(str::to_string),
        server: Some("https://example.com".to_string()),
        cluster_missing: false,
        source: "/home/u/.kube/config".to_string(),
        current_in_source: active,
        active,
        ambiguous: false,
        auth_method: AuthMethod::Token,
    }
}

fn catalog() -> ContextCatalog {
    ContextCatalog {
        entries: vec![
            context("prod", Some("payments"), true),
            context("staging", None, false),
        ],
        active_name: Some("prod".to_string()),
        active_index: Some(0),
        ..ContextCatalog::default()
    }
}

fn entry() -> ContextEntry {
    ContextEntry {
        name: "production-eu".to_string(),
        cluster: "prod-cluster".to_string(),
        user: Some("prod-user".to_string()),
        namespace: Some("payments".to_string()),
        server: Some("https://prod.example.com".to_string()),
        cluster_missing: false,
        source: "/k/prod.yaml".to_string(),
        current_in_source: true,
        active: true,
        ambiguous: false,
        auth_method: AuthMethod::Exec("aws".to_string()),
    }
}

fn connected(entry: &ContextEntry) -> Inspection {
    let mut snapshot = Inspection::pending(entry, "payments");
    snapshot.state = ConnectionState::Connected;
    snapshot.latency = Some(Duration::from_millis(34));
    snapshot.version = Availability::Read(ServerVersion {
        git_version: "v1.30.2".to_string(),
        platform: "linux/amd64".to_string(),
    });
    snapshot.nodes = Availability::Read(NodeSummary {
        total: 5,
        ready: 5,
        control_plane: 1,
        versions: vec!["v1.30.2".to_string()],
        platforms: vec!["linux/amd64".to_string()],
        truncated: false,
    });
    snapshot.workloads.pods = Availability::Read(PodStats {
        total: 42,
        ready: 39,
        pending: 1,
        ..PodStats::default()
    });
    snapshot.workloads.deployments = Availability::Denied;
    snapshot.observations = vec![Observation {
        severity: Severity::Problem,
        text: "2 Pods not Ready (api-1, api-2)".to_string(),
    }];
    snapshot
}

#[test]
fn tsv_has_stable_columns_and_no_header() {
    let rendered = list_tsv(&catalog());
    let lines: Vec<&str> = rendered.lines().collect();

    assert_eq!(
        lines[0],
        "prod\tprod-cluster\tpayments\t/home/u/.kube/config\t*"
    );
    assert_eq!(
        lines[1],
        "staging\tstaging-cluster\t-\t/home/u/.kube/config\t-"
    );
    assert_eq!(lines.len(), 2);
}

#[test]
fn every_record_splits_into_its_five_fields() {
    let rendered = list_tsv(&catalog());
    assert!(rendered.ends_with('\n'));
    for (line, entry) in rendered.lines().zip(catalog().entries.iter()) {
        let fields: Vec<&str> = line.split('\t').collect();
        assert_eq!(fields.len(), 5);
        assert_eq!(fields[0], entry.name);
    }
    assert_eq!(list_tsv(&ContextCatalog::default()), "");
}

#[test]
fn inspection_text_covers_every_section() {
    let entry = entry();
    let rendered = inspection_text(&connected(&entry));

    for expected in [
        "production-eu",
        "  Cluster      prod-cluster",
        "  Server       https://prod.example.com",
        "  Auth         exec plugin (aws)",
        "  Status       Connected",
        "  Kubernetes   v1.30.2 (linux/amd64)",
        "  Latency      34 ms",
        "  Count        5 total, 5 Ready, 1 control plane",
        "Namespace payments",
        "  Pods         42 total, 39 Ready, 1 Pending",
        "  StatefulSets not checked",
        "Problems",
        "  2 Pods not Ready (api-1, api-2)",
    ] {
        assert!(
            rendered.contains(expected),
            "missing {expected:?} in:\n{rendered}"
        );
    }
}

#[test]
fn forbidden_sections_are_labelled_rather_than_omitted() {
    let entry = entry();
    let rendered = inspection_text(&connected(&entry));

    assert!(
        rendered.contains("  Deployments  unavailable (permission denied)"),
        "{rendered}"
    );
}

#[test]
fn plain_text_output_carries_no_ansi_escapes() {
    let entry = entry();
    let rendered = inspection_text(&connected(&entry));

    assert!(
        !rendered.contains('\u{1b}'),
        "stdout output must stay pipe-friendly"
    );
}

#[test]
fn an_unreached_cluster_does_not_claim_to_be_problem_free() {
    let entry = entry();
    let mut snapshot = Inspection::pending(&entry, "payments");
    snapshot.state = ConnectionState::Unavailable;
    snapshot.message = Some("cluster is unreachable: connection refused".to_string());

    let rendered = inspection_text(&snapshot);

    assert!(rendered.contains("Status       Unavailable"), "{rendered}");
    assert!(rendered.contains("connection refused"), "{rendered}");
    assert!(rendered.contains("not determined"), "{rendered}");
    assert!(!rendered.contains("none observed"), "{rendered}");
}

#[test]
fn a_full_snapshot_is_rendered_line_by_line() {
    let entry = entry();
    let mut snapshot = connected(&entry);
    snapshot.namespace_status = Availability::Read(NamespaceSummary {
        name: "payments".to_string(),
        phase: None,
    });
    snapshot.workloads.pods = Availability::Read(PodStats {
        total: 3,
        ready: 1,
        failed: 2,
        ..PodStats::default()
    });
    snapshot.workloads.deployments = Availability::Read(ReplicaStats {
        total: 2,
        desired: 5,
        available: 4,
        degraded: 1,
        truncated: false,
    });
    snapshot.workloads.statefulsets = Availability::Read(ReplicaStats {
        total: 1,
        desired: 1,
        available: -1,
        degraded: 1,
        truncated: false,
    });
    snapshot.workloads.daemonsets = Availability::Read(DaemonSetStats {
        total: 1,
        desired: 3,
        ready: 3,
        degraded: 0,
        truncated: false,
    });
    snapshot.workloads.jobs = Availability::Read(JobStats {
        total: 6,
        active: 1,
        failed: 2,
        complete: 3,
        truncated: false,
    });
    snapshot.workloads.cronjobs = Availability::Read(CronJobStats {
        total: 2,
        suspended: 1,
        never_scheduled: 0,
        truncated: false,
    });
    snapshot.observations = Vec::new();
    assert_eq!(
        inspection_text(&snapshot),
        "production-eu\n\
         \n\
         Context\n\
         \x20 Cluster      prod-cluster\n\
         \x20 Server       https://prod.example.com\n\
         \x20 Namespace    payments\n\
         \x20 Auth         exec plugin (aws)\n\
         \x20 Status       Connected\n\
         \x20 Kubernetes   v1.30.2 (linux/amd64)\n\
         \x20 Latency      34 ms\n\
         \n\
         Nodes\n\
         \x20 Count        5 total, 5 Ready, 1 control plane\n\
         \x20 Versions     v1.30.2\n\
         \x20 Platforms    linux/amd64\n\
         \n\
         Namespace payments\n\
         \x20 Phase        -\n\
         \x20 Pods         3 total, 1 Ready, 2 Failed\n\
         \x20 Deployments  2 total, 4/5 available replicas\n\
         \x20 StatefulSets 1 total, -1/1 ready replicas\n\
         \x20 DaemonSets   1 total, 3/3 Pods ready\n\
         \x20 Jobs         6 total, 1 active, 3 complete, 2 failed\n\
         \x20 CronJobs     2 total, 1 suspended\n\
         \n\
         Problems\n\
         \x20 none observed\n"
    );
}

#[test]
fn the_placeholder_depends_on_whether_anything_answered() {
    let entry = entry();
    assert_eq!(problems_placeholder(&connected(&entry)), "none observed");
    assert_eq!(
        problems_placeholder(&Inspection::pending(&entry, "payments")),
        "not determined: nothing could be read"
    );
}

#[test]
fn exposed_contexts_carry_absolute_paths_and_no_credentials() {
    let mut entry = entry();
    let json = ContextJson::new(&entry, "/work");
    assert_eq!(json.name, "production-eu");
    assert_eq!(json.cluster, "prod-cluster");
    assert_eq!(json.user, Some("prod-user"));
    assert_eq!(json.namespace, Some("payments"));
    assert_eq!(json.server, Some("https://prod.example.com"));
    assert_eq!(json.source, "/k/prod.yaml");
    assert!(json.active && json.current_in_source && !json.ambiguous);
    assert_eq!(*json.auth, AuthMethod::Exec("aws".to_string()));

    entry.source = "prod.yaml".to_string();
    assert_eq!(ContextJson::new(&entry, "/work").source, "/work/prod.yaml");
}
