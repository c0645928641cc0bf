//! Interpreting resource objects.

use kctx::kubernetes::health::{
    daemonsets_fit, deployments_fit, join_names, observe_cronjobs, observe_daemonsets,
    observe_deployments, observe_jobs, observe_namespace, observe_nodes, observe_pods,
    observe_statefulsets, plural, statefulsets_fit, Condition, ContainerStatus, CronJob, DaemonSet,
    DaemonSetStatus, Deployment, Job, JobStatus, Namespace, Node, NodeInfo, Observation, Pod,
    Severity, StatefulSet, NAME_LIMIT,
};

fn text(s: &str) -> Option<String> {
    Some(s.to_string())
}

fn condition(kind: &str, status: &str) -> Condition {
    Condition {
        kind: kind.to_string(),
        status: status.to_string(),
    }
}

fn node(name: &str, ready: &str, version: &str, control_plane: bool) -> Node {
    let mut labels = Vec::new();
    if control_plane {
        labels.push("node-role.kubernetes.io/control-plane".to_string());
    }
    Node {
        name: text(name),
        labels,
        conditions: vec![condition("Ready", ready)],
        info: Some(NodeInfo {
            kubelet_version: version.to_string(),
            architecture: "amd64".to_string(),
            operating_system: "linux".to_string(),
        }),
    }
}

fn pod(name: &str, phase: &str, ready: &str) -> Pod {
    Pod {
        name: text(name),
        phase: text(phase),
        conditions: vec![condition("Ready", ready)],
        containers: Vec::new(),
        init_containers: Vec::new(),
    }
}

fn container(waiting: Option<&str>, restarts: i32) -> ContainerStatus {
    ContainerStatus {
        waiting_reason: waiting.map(str::to_string),
        restart_count: restarts,
    }
}

fn pod_with_container(name: &str, phase: &str, waiting: Option<&str>, restarts: i32) -> Pod {
    let mut pod = pod(name, phase, "False");
    pod.containers = vec![container(waiting, restarts)];
    pod
}

fn deployment(name: &str, desired: i32, available: i32) -> Deployment {
    Deployment {
        name: text(name),
        replicas: Some(desired),
        available_replicas: Some(available),
    }
}

fn texts(observations: &[Observation]) -> Vec<&str> {
    observations.iter().map(|o| o.text.as_str()).collect()
}

#[test]
fn healthy_objects_produce_no_observations() {
    let (nodes, node_observations) = observe_nodes(
        &[
            node("a", "True", "v1.30.1", true),
            node("b", "True", "v1.30.1", false),
        ],
        false,
    );
    let (pods, pod_observations) = observe_pods(
        &[pod("x", "Running", "True"), pod("y", "Running", "True")],
        false,
    );
    let (deployments, deployment_observations) =
        observe_deployments(&[deployment("api", 3, 3)], false);

    assert_eq!(nodes.total, 2);
    assert_eq!(nodes.ready, 2);
    assert_eq!(nodes.control_plane, 1);
    assert_eq!(nodes.versions, vec!["v1.30.1"]);
    assert_eq!(nodes.platforms, vec!["linux/amd64"]);
    assert_eq!(pods.ready, 2);
    assert_eq!(deployments.desired, 3);
    assert_eq!(deployments.available, 3);

    assert!(node_observations.is_empty(), "{node_observations:?}");
    assert!(pod_observations.is_empty(), "{pod_observations:?}");
    assert!(
        deployment_observations.is_empty(),
        "{deployment_observations:?}"
    );
}

#[test]
fn not_ready_nodes_are_named() {
    let (summary, observations) = observe_nodes(
        &[
            node("a", "True", "v1.30.1", false),
            node("b", "False", "v1.30.1", false),
        ],
        false,
    );

    assert_eq!(summary.ready, 1);
    assert_eq!(observations.len(), 1);
    assert_eq!(observations[0].severity, Severity::Problem);
    assert_eq!(observations[0].text, "1 of 2 Nodes not Ready (b)");
}

#[test]
fn node_pressure_conditions_are_reported() {
    let node = Node {
        name: text("a"),
        labels: Vec::new(),
        conditions: vec![
            condition("Ready", "True"),
            condition("MemoryPressure", "True"),
            condition("DiskPressure", "False"),
        ],
        info: None,
    };
    let (_, observations) = observe_nodes(&[node], false);

    assert_eq!(observations.len(), 1);
    assert_eq!(observations[0].text, "1 Node(s) report MemoryPressure (a)");
    assert_eq!(observations[0].severity, Severity::Warning);
}

#[test]
fn kubelet_version_skew_is_noted() {
    let (summary, observations) = observe_nodes(
        &[
            node("a", "True", "v1.30.1", false),
            node("b", "True", "v1.29.4", false),
        ],
        false,
    );

    assert_eq!(summary.versions, vec!["v1.29.4", "v1.30.1"]);
    assert_eq!(observations.len(), 1);
    assert_eq!(observations[0].severity, Severity::Info);
    assert!(observations[0]
        .text
        .contains("2 different kubelet versions"));
}

#[test]
fn many_broken_nodes_are_summarised_not_enumerated() {
    let nodes: Vec<Node> = (0..6)
        .map(|i| node(&format!("n{i}"), "False", "v1.30.1", false))
        .collect();
    let (_, observations) = observe_nodes(&nodes, false);

    assert_eq!(
        observations[0].text,
        "6 of 6 Nodes not Ready (n0, n1, n2, +3 more)"
    );
}

#[test]
fn pod_phases_and_readiness_are_counted() {
    let pods = vec![
        pod("running", "Running", "True"),
        pod("pending", "Pending", "False"),
        pod("done", "Succeeded", "False"),
        pod("failed", "Failed", "False"),
    ];
    let (stats, observations) = observe_pods(&pods, false);

    assert_eq!(stats.total, 4);
    assert_eq!(stats.ready, 1);
    assert_eq!(stats.running, 1);
    assert_eq!(stats.pending, 1);
    assert_eq!(stats.succeeded, 1);
    assert_eq!(stats.failed, 1);

    let texts = texts(&observations);
    // "done" completed successfully, so it must not be counted as not-Ready.
    assert!(
        texts.contains(&"2 Pods not Ready (pending, failed)"),
        "{texts:?}"
    );
    assert!(texts.contains(&"1 Pod Pending"), "{texts:?}");
    assert!(texts.contains(&"1 Pod Failed"), "{texts:?}");
}

#[test]
fn crashloop_and_image_pull_failures_are_reported_by_reason() {
    let pods = vec![
        pod_with_container("a", "Running", Some("CrashLoopBackOff"), 0),
        pod_with_container("b", "Pending", Some("ImagePullBackOff"), 0),
        pod_with_container("c", "Pending", Some("ErrImagePull"), 0),
        // A benign waiting reason must not be reported.
        pod_with_container("d", "Pending", Some("ContainerCreating"), 0),
    ];
    let (_, observations) = observe_pods(&pods, false);
    let texts = texts(&observations);

    assert!(
        texts.contains(&"1 Pod in CrashLoopBackOff (a)"),
        "{texts:?}"
    );
    assert!(
        texts.contains(&"1 Pod in ImagePullBackOff (b)"),
        "{texts:?}"
    );
    assert!(texts.contains(&"1 Pod in ErrImagePull (c)"), "{texts:?}");
    assert!(
        !texts.iter().any(|text| text.contains("ContainerCreating")),
        "{texts:?}"
    );
}

#[test]
fn excessive_restarts_are_reported_as_a_bounded_count() {
    let pods = vec![
        pod_with_container("a", "Running", None, 47),
        pod_with_container("b", "Running", None, 12),
        // At the threshold, not above it.
        pod_with_container("c", "Running", None, 5),
    ];
    let (_, observations) = observe_pods(&pods, false);
    let restarts = observations
        .iter()
        .find(|o| o.text.contains("restarts"))
        .unwrap();

    assert_eq!(
        restarts.text,
        "2 Pods with more than 5 container restarts (highest 47)"
    );
    assert_eq!(restarts.severity, Severity::Warning);
}

#[test]
fn init_container_failures_are_seen_too() {
    let mut pod = pod("init-broken", "Pending", "False");
    pod.init_containers = vec![container(Some("ImagePullBackOff"), 0)];
    let (_, observations) = observe_pods(&[pod], false);

    assert!(
        observations
            .iter()
            .any(|o| o.text.contains("ImagePullBackOff")),
        "{observations:?}"
    );
}

#[test]
fn degraded_deployments_are_named_with_their_ratio() {
    let (stats, observations) =
        observe_deployments(&[deployment("api", 3, 2), deployment("web", 2, 2)], false);

    assert_eq!(stats.total, 2);
    assert_eq!(stats.degraded, 1);
    assert_eq!(observations.len(), 1);
    assert_eq!(
        observations[0].text,
        "deployment api has 2/3 available replicas"
    );
    assert_eq!(observations[0].severity, Severity::Problem);
}

#[test]
fn deployments_without_status_count_as_fully_unavailable() {
    let fresh = Deployment {
        name: text("fresh"),
        replicas: Some(2),
        available_replicas: None,
    };
    let (stats, observations) = observe_deployments(&[fresh], false);

    assert_eq!(stats.available, 0);
    assert_eq!(
        observations[0].text,
        "deployment fresh has 0/2 available replicas"
    );
}

#[test]
fn many_degraded_deployments_are_capped() {
    let deployments: Vec<Deployment> =
        (0..5).map(|i| deployment(&format!("d{i}"), 2, 1)).collect();
    let (_, observations) = observe_deployments(&deployments, false);

    assert_eq!(observations.len(), NAME_LIMIT + 1);
    assert_eq!(
        observations.last().unwrap().text,
        "2 further Deployments are degraded"
    );
}

#[test]
fn statefulsets_report_ready_replicas() {
    let statefulset = StatefulSet {
        name: text("db"),
        replicas: Some(3),
        ready_replicas: Some(1),
    };
    let (stats, observations) = observe_statefulsets(&[statefulset], false);

    assert_eq!(stats.degraded, 1);
    assert_eq!(
        observations[0].text,
        "statefulset db has 1/3 ready replicas"
    );
}

fn daemonset(name: &str, desired: i32, ready: i32, misscheduled: i32) -> DaemonSet {
    DaemonSet {
        name: text(name),
        status: Some(DaemonSetStatus {
            desired_number_scheduled: desired,
            number_ready: ready,
            number_misscheduled: misscheduled,
        }),
    }
}

#[test]
fn daemonsets_report_missing_and_misscheduled_pods() {
    let (stats, observations) = observe_daemonsets(&[daemonset("agent", 5, 3, 1)], false);
    let texts = texts(&observations);

    assert_eq!(stats.desired, 5);
    assert_eq!(stats.ready, 3);
    assert_eq!(stats.degraded, 1);
    assert!(
        texts.contains(&"daemonset agent has 3/5 Pods ready"),
        "{texts:?}"
    );
    assert!(
        texts.contains(&"daemonset agent has 1 misscheduled Pod(s)"),
        "{texts:?}"
    );
}

fn job(name: &str, succeeded: Option<i32>, failed: Option<i32>, conditions: Vec<Condition>) -> Job {
    Job {
        name: text(name),
        status: Some(JobStatus {
            active: None,
            succeeded,
            failed,
            conditions,
        }),
    }
}

#[test]
fn failed_jobs_are_reported_from_counts_or_conditions() {
    let by_count = job("import", None, Some(1), Vec::new());
    let by_condition = job("export", None, None, vec![condition("Failed", "True")]);
    let healthy = job("ok", Some(1), None, Vec::new());

    let (stats, observations) = observe_jobs(&[by_count, by_condition, healthy], false);

    assert_eq!(stats.total, 3);
    assert_eq!(stats.failed, 2);
    assert_eq!(stats.complete, 1);
    assert_eq!(observations[0].text, "2 Jobs failed (import, export)");
}

#[test]
fn suspended_cronjobs_are_noted_as_information() {
    let suspended = CronJob {
        name: text("nightly"),
        suspend: Some(true),
        has_run: false,
    };
    let active = CronJob {
        name: text("hourly"),
        suspend: None,
        has_run: true,
    };

    let (stats, observations) = observe_cronjobs(&[suspended, active], false);

    assert_eq!(stats.total, 2);
    assert_eq!(stats.suspended, 1);
    assert_eq!(stats.never_scheduled, 1);
    assert_eq!(observations[0].text, "1 CronJob is suspended (nightly)");
    assert_eq!(observations[0].severity, Severity::Info);
}

#[test]
fn a_terminating_namespace_is_a_warning() {
    let namespace = Namespace {
        name: text("doomed"),
        phase: text("Terminating"),
    };
    let (summary, observations) = observe_namespace(&namespace);

    assert_eq!(summary.phase.as_deref(), Some("Terminating"));
    assert_eq!(observations[0].text, "Namespace doomed is Terminating");
    assert_eq!(observations[0].severity, Severity::Warning);
}

#[test]
fn an_active_namespace_is_silent() {
    let namespace = Namespace {
        name: text("default"),
        phase: text("Active"),
    };
    let (_, observations) = observe_namespace(&namespace);

    assert!(observations.is_empty(), "{observations:?}");

    // Neither is one whose phase is unknown.
    let unknown = Namespace {
        name: None,
        phase: None,
    };
    let (summary, observations) = observe_namespace(&unknown);
    assert_eq!(summary.name, "<unnamed>");
    assert!(observations.is_empty(), "{observations:?}");
}

#[test]
fn truncated_listings_say_so_instead_of_pretending_to_be_complete() {
    let (_, observations) = observe_pods(&[pod("a", "Running", "True")], true);
    assert_eq!(
        observations.last().unwrap().text,
        "only the first 1 Pods were inspected"
    );

    let (_, observations) = observe_nodes(&[node("a", "True", "v1.30.1", false)], true);
    assert_eq!(
        observations.last().unwrap().text,
        "only the first 1 Nodes were inspected"
    );
}

#[test]
fn objects_without_names_do_not_panic() {
    let nameless = Pod {
        name: None,
        phase: text("Pending"),
        conditions: Vec::new(),
        containers: Vec::new(),
        init_containers: Vec::new(),
    };
    let (stats, observations) = observe_pods(&[nameless], false);

    assert_eq!(stats.pending, 1);
    assert!(
        observations[0].text.contains("<unnamed>"),
        "{observations:?}"
    );
}

#[test]
fn a_pod_with_several_broken_containers_is_one_pod() {
    let mut broken = pod("a", "Running", "False");
    broken.containers = vec![
        container(Some("CrashLoopBackOff"), 3),
        container(Some("CrashLoopBackOff"), 9),
    ];
    let (_, observations) = observe_pods(&[broken], false);
    assert_eq!(
        texts(&observations),
        vec![
            "1 Pod not Ready (a)",
            "1 Pod in CrashLoopBackOff (a)",
            "1 Pod with more than 5 container restarts (highest 9)",
        ]
    );
}

#[test]
fn pressure_is_reported_in_alphabetical_order() {
    let node = Node {
        name: text("a"),
        labels: vec!["node-role.kubernetes.io/master".to_string()],
        conditions: vec![
            condition("Ready", "True"),
            condition("PIDPressure", "True"),
            condition("NetworkUnavailable", "True"),
            condition("MemoryPressure", "True"),
            condition("DiskPressure", "True"),
        ],
        info: None,
    };
    let (summary, observations) = observe_nodes(&[node], false);
    assert_eq!(summary.control_plane, 1);
    assert_eq!(
        texts(&observations),
        vec![
            "1 Node(s) report DiskPressure (a)",
            "1 Node(s) report MemoryPressure (a)",
            "1 Node(s) report NetworkUnavailable (a)",
            "1 Node(s) report PIDPressure (a)",
        ]
    );
}

#[test]
fn a_misscheduled_pod_degrades_its_daemonset() {
    let (stats, observations) = observe_daemonsets(
        &[
            daemonset("stray", 2, 2, 1),
            daemonset("fine", 1, 1, 0),
            DaemonSet {
                name: text("new"),
                status: None,
            },
        ],
        true,
    );
    assert_eq!(stats.total, 3);
    assert_eq!(stats.desired, 3);
    assert_eq!(stats.ready, 3);
    assert_eq!(stats.degraded, 1);
    assert_eq!(
        texts(&observations),
        vec![
            "daemonset stray has 1 misscheduled Pod(s)",
            "only the first 3 DaemonSets were inspected",
        ]
    );
    assert_eq!(observations[0].severity, Severity::Warning);
}

#[test]
fn replica_sums_that_do_not_fit_are_told_apart() {
    assert!(deployments_fit(&[deployment("a", i32::MAX, 0)]));
    assert!(!deployments_fit(&[
        deployment("a", i32::MAX, 0),
        deployment("b", 1, 0)
    ]));
    assert!(!statefulsets_fit(&[
        StatefulSet {
            name: None,
            replicas: Some(0),
            ready_replicas: Some(i32::MIN),
        },
        StatefulSet {
            name: None,
            replicas: Some(0),
            ready_replicas: Some(-1),
        },
    ]));
    assert!(daemonsets_fit(&[daemonset("a", 5, 3, 1)]));
}

#[test]
fn running_and_finished_jobs_are_counted() {
    let running = Job {
        name: text("busy"),
        status: Some(JobStatus {
            active: Some(2),
            succeeded: None,
            failed: Some(0),
            conditions: vec![condition("Complete", "True")],
        }),
    };
    let unknown = Job {
        name: text("new"),
        status: None,
    };
    let (stats, observations) = observe_jobs(&[running, unknown], true);
    assert_eq!(stats.active, 1);
    assert_eq!(stats.complete, 1);
    assert_eq!(stats.failed, 0);
    assert_eq!(
        texts(&observations),
        vec!["only the first 2 Jobs were inspected"]
    );
}

#[test]
fn names_are_listed_up_to_a_limit() {
    let names: Vec<String> = ["a", "b", "c"].iter().map(|s| s.to_string()).collect();
    assert_eq!(join_names(&names), "a, b, c");
    assert_eq!(join_names(&Vec::new()), "");
    let four: Vec<String> = ["a", "b", "c", "d"].iter().map(|s| s.to_string()).collect();
    assert_eq!(join_names(&four), "a, b, c, +1 more");
    assert_eq!(plural(1), "");
    assert_eq!(plural(0), "s");
    assert_eq!(plural(2), "s");
}

#[test]
fn several_suspended_cronjobs_are_worded_in_the_plural() {
    let suspended = |name: &str| CronJob {
        name: text(name),
        suspend: Some(true),
        has_run: true,
    };
    let (_, observations) = observe_cronjobs(&[suspended("a"), suspended("b")], true);
    assert_eq!(
        texts(&observations),
        vec![
            "2 CronJobs are suspended (a, b)",
            "only the first 2 CronJobs were inspected",
        ]
    );
}

#[test]
fn node_order_does_not_change_the_summary() {
    let first = || node("a", "True", "v1.30.1", true);
    let second = || node("b", "False", "v1.29.4", false);
    let third = || node("c", "True", "v1.30.1", false);
    let (one, _) = observe_nodes(&[first(), second(), third()], true);
    let (other, _) = observe_nodes(&[third(), first(), second()], true);
    assert_eq!(one, other);
    assert_eq!(one.versions, vec!["v1.29.4", "v1.30.1"]);
    assert_eq!(one.platforms, vec!["linux/amd64"]);
}
