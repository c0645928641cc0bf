//! Commands, their failures and logging.

use kctx::cli::{
    current_name, inspect_target, inspection_exit, require_contexts, resolve, selection_line,
    warnings, Cli, CliError, Command, PrintKind, EXIT_CANCELLED,
};
use kctx::kubeconfig::{AuthMethod, ContextCatalog, ContextEntry, KubeconfigError};
use kctx::kubernetes::ConnectionState;
use kctx::logging::{check_log_file, destination, filter};

fn entry(name: &str, source: &str) -> ContextEntry {
    ContextEntry {
        name: name.to_string(),
        cluster: "c".to_string(),
        user: None,
        namespace: None,
        server: None,
        cluster_missing: false,
        source: source.to_string(),
        current_in_source: false,
        active: false,
        ambiguous: false,
        auth_method: AuthMethod::Unspecified,
    }
}

fn catalog() -> ContextCatalog {
    ContextCatalog {
        entries: vec![
            entry("prod", "/k/a.yaml"),
            entry("dup", "/k/a.yaml"),
            entry("dup", "/k/b.yaml"),
        ],
        ..ContextCatalog::default()
    }
}

#[test]
fn a_single_context_is_resolved_by_name() {
    let catalog = catalog();
    assert_eq!(
        resolve(&catalog, "prod", None).unwrap().source,
        "/k/a.yaml"
    );
    assert_eq!(
        resolve(&catalog, "dup", Some("/k//b.yaml")).unwrap().source,
        "/k/b.yaml"
    );
}

#[test]
fn an_ambiguous_name_is_not_guessed() {
    let catalog = catalog();
    let error = resolve(&catalog, "dup", None).unwrap_err();
    assert_eq!(
        error.to_string(),
        "context \"dup\" is defined by 2 kubeconfigs; disambiguate with --source:\n  /k/a.yaml\n  /k/b.yaml"
    );
}

#[test]
fn an_unknown_name_comes_with_suggestions() {
    let catalog = catalog();
    assert_eq!(
        resolve(&catalog, "PRO", None).unwrap_err().to_string(),
        "no context named \"PRO\"; did you mean: prod"
    );
    assert_eq!(
        resolve(&catalog, "zz\t", None).unwrap_err().to_string(),
        "no context named \"zz\\t\" was found (try `kctx list`)"
    );
    // The right name in the wrong file is unknown, too.
    assert_eq!(
        resolve(&catalog, "prod", Some("/k/b.yaml")).unwrap_err(),
        CliError::Unknown {
            name: "prod".to_string(),
            suggestions: vec!["prod".to_string()],
        }
    );
}

#[test]
fn inspecting_defaults_to_the_effective_context() {
    let mut catalog = catalog();
    assert_eq!(
        inspect_target(&catalog, None, None).unwrap_err().to_string(),
        "no current context is set; name one: `kctx inspect <context>`"
    );
    catalog.active_name = Some("ghost".to_string());
    assert_eq!(
        inspect_target(&catalog, None, None).unwrap_err().to_string(),
        "the current context \"ghost\" is not defined by any discovered kubeconfig"
    );
    catalog.active_index = Some(0);
    assert_eq!(inspect_target(&catalog, None, None).unwrap().name, "prod");
    assert_eq!(
        inspect_target(&catalog, Some("dup"), Some("/k/b.yaml"))
            .unwrap()
            .source,
        "/k/b.yaml"
    );
}

#[test]
fn nothing_discovered_is_a_failure_of_its_own() {
    assert_eq!(
        require_contexts(&ContextCatalog::default())
            .unwrap_err()
            .to_string(),
        "no Kubernetes contexts found (looked at $KUBECONFIG and ~/.kube)"
    );
    assert_eq!(require_contexts(&catalog()), Ok(()));
}

#[test]
fn the_current_context_is_named_even_if_undefined() {
    let mut catalog = catalog();
    assert_eq!(
        current_name(&catalog).unwrap_err().to_string(),
        "no current context is set in any discovered kubeconfig"
    );
    catalog.active_name = Some("ghost".to_string());
    assert_eq!(current_name(&catalog), Ok("ghost"));
}

#[test]
fn unusable_files_are_warned_about_but_not_unrelated_ones() {
    let mut catalog = catalog();
    catalog.problems = vec![
        KubeconfigError::Inaccessible {
            path: "/k/x".to_string(),
            source: "denied".to_string(),
        },
        KubeconfigError::NotKubeconfig {
            path: "/k/y".to_string(),
        },
        KubeconfigError::Invalid {
            path: "/k/z".to_string(),
            message: "line 3".to_string(),
        },
    ];
    assert_eq!(
        warnings(&catalog),
        vec![
            "kctx: warning: cannot read kubeconfig /k/x: denied",
            "kctx: warning: invalid kubeconfig /k/z: line 3",
        ]
    );
}

#[test]
fn a_selection_prints_what_was_asked_for() {
    let entry = entry("prod", "/k/a.yaml");
    assert_eq!(
        selection_line(&entry, PrintKind::Path).as_deref(),
        Some("/k/a.yaml")
    );
    assert_eq!(
        selection_line(&entry, PrintKind::Context).as_deref(),
        Some("prod")
    );
    assert_eq!(selection_line(&entry, PrintKind::Kubeconfig), None);
}

#[test]
fn without_a_command_a_context_is_selected_interactively() {
    let cli = Cli {
        command: None,
        log_file: None,
        log_level: None,
    };
    match cli.into_command() {
        Command::Select {
            context: None,
            source: None,
            print: PrintKind::Kubeconfig,
        } => {}
        other => panic!("unexpected default {other:?}"),
    }
    let cli = Cli {
        command: Some(Command::List { json: true }),
        log_file: None,
        log_level: None,
    };
    assert!(matches!(cli.into_command(), Command::List { json: true }));
}

#[test]
fn exit_codes_tell_scripts_what_happened() {
    assert_eq!(inspection_exit(ConnectionState::Connected), 0);
    assert_eq!(inspection_exit(ConnectionState::TimedOut), 1);
    assert_eq!(EXIT_CANCELLED, 130);
}

#[test]
fn the_command_line_wins_over_the_environment_for_logs() {
    assert_eq!(destination(Some("/a"), Some("/b")).as_deref(), Some("/a"));
    assert_eq!(destination(None, Some("/b")).as_deref(), Some("/b"));
    assert_eq!(destination(None, None), None);
    assert_eq!(filter(Some("debug"), Some("trace")), "debug");
    assert_eq!(filter(None, Some("trace")), "trace");
    assert_eq!(filter(None, None), "warn,kctx=debug");
}

#[test]
fn logs_only_go_to_plain_files() {
    assert_eq!(check_log_file("/l", None), Ok(()));
    assert_eq!(check_log_file("/l", Some(true)), Ok(()));
    assert_eq!(
        check_log_file("/l", Some(false)).unwrap_err(),
        "/l is not a regular file; refusing to log there"
    );
}
