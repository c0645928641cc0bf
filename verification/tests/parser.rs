//! Resolving the contexts of a kubeconfig.

use kctx::kubeconfig::parser::{
    auth_method, entries_from, load, summarise, AuthInfo, Cluster, Context, ExecConfig, Kubeconfig,
    LoadedKubeconfig, NamedAuthInfo, NamedCluster, NamedContext, ReadFailure,
};
use kctx::kubeconfig::{AuthMethod, ContextCatalog, ContextEntry, KubeconfigError};

const MULTI: &str = r#"
apiVersion: v1
kind: Config
current-context: prod
clusters:
  - name: prod-cluster
    cluster:
      server: https://prod.example.com
  - name: staging-cluster
    cluster:
      server: https://staging.example.com
users:
  - name: prod-user
    user:
      token: super-secret-token
  - name: staging-user
    user:
      exec:
        apiVersion: client.authentication.k8s.io/v1beta1
        command: /usr/local/bin/aws
        args: ["eks", "get-token", "--role", "arn:secret"]
contexts:
  - name: prod
    context:
      cluster: prod-cluster
      user: prod-user
      namespace: payments
  - name: staging
    context:
      cluster: staging-cluster
      user: staging-user
  - name: orphan
    context:
      cluster: gone-cluster
      user: prod-user
"#;

/// Parse a document as the client does, and hand over what the library looks at.
fn parse(contents: &str) -> Result<Kubeconfig, ReadFailure> {
    let parsed = kube::config::Kubeconfig::from_yaml(contents)
        .map_err(|error| ReadFailure::Unusable(error.to_string()))?;
    Ok(Kubeconfig {
        current_context: parsed.current_context.clone(),
        contexts: parsed
            .contexts
            .iter()
            .map(|named| NamedContext {
                name: named.name.clone(),
                context: named.context.as_ref().map(|context| Context {
                    cluster: context.cluster.clone(),
                    user: context.user.clone(),
                    namespace: context.namespace.clone(),
                }),
            })
            .collect(),
        clusters: parsed
            .clusters
            .iter()
            .map(|named| NamedCluster {
                name: named.name.clone(),
                cluster: named.cluster.as_ref().map(|cluster| Cluster {
                    server: cluster.server.clone(),
                }),
            })
            .collect(),
        auth_infos: parsed
            .auth_infos
            .iter()
            .map(|named| NamedAuthInfo {
                name: named.name.clone(),
                auth_info: named.auth_info.as_ref().map(|info| AuthInfo {
                    plugin: info.exec.as_ref().map(|exec| ExecConfig {
                        command: exec.command.clone(),
                        args: exec.args.clone().unwrap_or_default(),
                    }),
                    auth_provider: info.auth_provider.as_ref().map(|p| p.name.clone()),
                    token: info.token.as_ref().map(|_| "super-secret-token".to_string()),
                    token_file: info.token_file.clone(),
                    client_certificate: info.client_certificate.clone(),
                    client_certificate_data: info.client_certificate_data.clone(),
                    username: info.username.clone(),
                }),
            })
            .collect(),
    })
}

fn loaded(contents: &str) -> Result<LoadedKubeconfig, KubeconfigError> {
    load("/k/config", parse(contents))
}

fn no_credentials() -> AuthInfo {
    AuthInfo {
        plugin: None,
        auth_provider: None,
        token: None,
        token_file: None,
        client_certificate: None,
        client_certificate_data: None,
        username: None,
    }
}

#[test]
fn parses_multiple_contexts_clusters_and_users() {
    let loaded = loaded(MULTI).unwrap();

    assert_eq!(loaded.current_context.as_deref(), Some("prod"));
    assert_eq!(loaded.entries.len(), 3);

    let prod = &loaded.entries[0];
    assert_eq!(prod.name, "prod");
    assert_eq!(prod.cluster, "prod-cluster");
    assert_eq!(prod.user.as_deref(), Some("prod-user"));
    assert_eq!(prod.namespace.as_deref(), Some("payments"));
    assert_eq!(prod.server.as_deref(), Some("https://prod.example.com"));
    assert!(prod.current_in_source);
    assert_eq!(prod.auth_method, AuthMethod::Token);
}

#[test]
fn contexts_without_namespace_default_lazily() {
    let loaded = loaded(MULTI).unwrap();
    let staging = &loaded.entries[1];

    assert_eq!(staging.namespace, None);
    assert_eq!(staging.effective_namespace(), "default");
    assert!(!staging.current_in_source);
}

#[test]
fn exec_auth_records_only_the_command_file_name() {
    let loaded = loaded(MULTI).unwrap();

    assert_eq!(
        loaded.entries[1].auth_method,
        AuthMethod::Exec("aws".into())
    );
    // Nothing derived from the entry may leak the exec args.
    let rendered = format!("{:?}", loaded.entries[1]);
    assert!(!rendered.contains("arn:secret"), "{rendered}");
    assert!(!rendered.contains("eks"), "{rendered}");
}

#[test]
fn secrets_never_reach_the_context_model() {
    let loaded = loaded(MULTI).unwrap();
    let rendered = format!("{:?}", loaded.entries);
    assert!(!rendered.contains("super-secret-token"), "{rendered}");
}

#[test]
fn missing_cluster_reference_is_flagged_not_fatal() {
    let loaded = loaded(MULTI).unwrap();
    let orphan = &loaded.entries[2];

    assert!(orphan.cluster_missing);
    assert_eq!(orphan.server, None);
}

#[test]
fn malformed_yaml_is_reported_as_invalid() {
    let error = loaded("clusters: [\n  - name: broken\n    cluster: {server\n").unwrap_err();

    match error {
        KubeconfigError::Invalid { path: reported, .. } => assert_eq!(reported, "/k/config"),
        other => panic!("expected an invalid-kubeconfig error, got {other:?}"),
    }
}

#[test]
fn parse_errors_never_quote_the_file_contents() {
    // The YAML parser appends an excerpt around the failure, which can sit right next to a
    // credential. The reported message must keep the position and drop the excerpt.
    let error = loaded(
        "apiVersion: v1\nkind: Config\nusers:\n  - name: u\n    user:\n      token: SUPER-SECRET-TOKEN\n      broken: [\n",
    )
    .unwrap_err();
    let rendered = error.to_string();

    assert!(!rendered.contains("SUPER-SECRET-TOKEN"), "{rendered}");
    assert!(
        !rendered.contains('\n'),
        "message must stay a single line: {rendered}"
    );
    assert!(
        rendered.contains("line"),
        "position information is still useful: {rendered}"
    );
}

#[test]
fn missing_file_is_reported_as_inaccessible() {
    let error = load(
        "/k/absent",
        Err(ReadFailure::Unreadable("No such file or directory".to_string())),
    )
    .unwrap_err();

    assert!(
        matches!(error, KubeconfigError::Inaccessible { .. }),
        "{error:?}"
    );
    assert_eq!(
        error.to_string(),
        "cannot read kubeconfig /k/absent: No such file or directory"
    );
}

#[test]
fn yaml_without_contexts_or_clusters_is_not_a_kubeconfig() {
    let error = loaded("some: unrelated\nyaml: document\n").unwrap_err();

    assert!(
        matches!(error, KubeconfigError::NotKubeconfig { .. }),
        "{error:?}"
    );
    assert_eq!(error.to_string(), "/k/config is not a kubeconfig");
}

#[test]
fn multi_document_files_are_merged() {
    let loaded = loaded(
        r#"
apiVersion: v1
kind: Config
clusters:
  - name: one
    cluster:
      server: https://one.example.com
contexts:
  - name: first
    context:
      cluster: one
---
apiVersion: v1
kind: Config
contexts:
  - name: second
    context:
      cluster: one
"#,
    )
    .unwrap();
    let names: Vec<&str> = loaded
        .entries
        .iter()
        .map(|entry| entry.name.as_str())
        .collect();

    assert_eq!(names, vec!["first", "second"]);
}

#[test]
fn an_empty_namespace_counts_as_none() {
    let kubeconfig = Kubeconfig {
        current_context: None,
        contexts: vec![
            NamedContext {
                name: "hollow".to_string(),
                context: None,
            },
            NamedContext {
                name: "blank".to_string(),
                context: Some(Context {
                    cluster: "c".to_string(),
                    user: None,
                    namespace: Some(String::new()),
                }),
            },
        ],
        clusters: Vec::new(),
        auth_infos: Vec::new(),
    };
    let entries = entries_from(&kubeconfig, "/k/config");
    // An entry without a context is left out.
    assert_eq!(entries.len(), 1);
    assert_eq!(entries[0].name, "blank");
    assert_eq!(entries[0].namespace, None);
    assert_eq!(entries[0].source, "/k/config");
    assert_eq!(entries[0].auth_method, AuthMethod::Unspecified);
    assert!(entries[0].cluster_missing);
    assert!(!entries[0].active && !entries[0].ambiguous);
}

#[test]
fn credentials_are_described_by_precedence() {
    let secret = || Some("secret".to_string());
    assert_eq!(auth_method(None), AuthMethod::Unspecified);
    assert_eq!(auth_method(Some(&no_credentials())), AuthMethod::Unspecified);

    let mut info = no_credentials();
    info.username = secret();
    assert_eq!(auth_method(Some(&info)), AuthMethod::BasicAuth);
    info.client_certificate_data = secret();
    assert_eq!(auth_method(Some(&info)), AuthMethod::ClientCertificate);
    info.client_certificate_data = None;
    info.client_certificate = secret();
    assert_eq!(auth_method(Some(&info)), AuthMethod::ClientCertificate);
    info.token_file = secret();
    assert_eq!(auth_method(Some(&info)), AuthMethod::TokenFile);
    info.token = secret();
    assert_eq!(auth_method(Some(&info)), AuthMethod::Token);
    info.auth_provider = Some("gcp".to_string());
    assert_eq!(
        auth_method(Some(&info)),
        AuthMethod::AuthProvider("gcp".to_string())
    );
    info.plugin = Some(ExecConfig {
        command: None,
        args: Vec::new(),
    });
    assert_eq!(
        auth_method(Some(&info)),
        AuthMethod::Exec("unknown".to_string())
    );
    info.plugin = Some(ExecConfig {
        command: Some("..".to_string()),
        args: Vec::new(),
    });
    assert_eq!(auth_method(Some(&info)), AuthMethod::Exec("..".to_string()));
}

#[test]
fn methods_are_worded_for_humans() {
    assert_eq!(AuthMethod::Unspecified.to_string(), "none");
    assert_eq!(AuthMethod::Token.to_string(), "token");
    assert_eq!(AuthMethod::TokenFile.to_string(), "token file");
    assert_eq!(
        AuthMethod::ClientCertificate.to_string(),
        "client certificate"
    );
    assert_eq!(AuthMethod::BasicAuth.to_string(), "basic auth");
    assert_eq!(
        AuthMethod::AuthProvider("gcp".to_string()).to_string(),
        "auth provider (gcp)"
    );
    assert_eq!(
        AuthMethod::Exec("aws".to_string()).to_string(),
        "exec plugin (aws)"
    );
}

#[test]
fn messages_are_cut_to_their_first_line() {
    assert_eq!(summarise("  bad value at line 3 \n   token: x\n"), "bad value at line 3");
    assert_eq!(summarise("one\r\ntwo"), "one");
    assert_eq!(summarise(""), "");
}

fn context(name: &str, source: &str) -> ContextEntry {
    ContextEntry {
        name: name.to_string(),
        cluster: "c".to_string(),
        user: None,
        namespace: None,
        server: None,
        cluster_missing: false,
        source: source.to_string(),
        current_in_source: false,
        active: false,
        ambiguous: false,
        auth_method: AuthMethod::Unspecified,
    }
}

fn file(path: &str, current: Option<&str>, names: &[&str]) -> Result<LoadedKubeconfig, KubeconfigError> {
    Ok(LoadedKubeconfig {
        path: path.to_string(),
        current_context: current.map(str::to_string),
        entries: names.iter().map(|name| context(name, path)).collect(),
    })
}

#[test]
fn the_first_file_that_sets_a_current_context_wins() {
    let catalog = ContextCatalog::load(vec![
        file("/k/a", None, &["one"]),
        Err(KubeconfigError::NotKubeconfig {
            path: "/k/broken".to_string(),
        }),
        file("/k/b", Some("two"), &["two", "one"]),
        file("/k/c", Some("one"), &["two"]),
    ]);
    assert_eq!(catalog.active_name.as_deref(), Some("two"));
    // The first definition of the name is the effective one.
    assert_eq!(catalog.active_index, Some(1));
    let active: Vec<bool> = catalog.entries.iter().map(|e| e.active).collect();
    assert_eq!(active, vec![false, true, false, false]);
    assert_eq!(catalog.active().unwrap().source, "/k/b");
    // A broken file blocks nothing.
    assert_eq!(catalog.sources, vec!["/k/a", "/k/b", "/k/c"]);
    assert_eq!(catalog.problems.len(), 1);
    assert!(catalog.entries.iter().all(|e| e.ambiguous));
}

#[test]
fn names_are_ambiguous_only_across_files() {
    let catalog = ContextCatalog::load(vec![
        file("/k/a", Some("ghost"), &["twice", "twice", "shared"]),
        file("/k/b", None, &["shared", "single"]),
    ]);
    let flags: Vec<bool> = catalog.entries.iter().map(|e| e.ambiguous).collect();
    assert_eq!(flags, vec![false, false, true, true, false]);
    // A current context nobody defines leaves no context active.
    assert_eq!(catalog.active_name.as_deref(), Some("ghost"));
    assert_eq!(catalog.active_index, None);
    assert!(catalog.active().is_none());
    assert_eq!(catalog.find_all("twice").len(), 2);
    assert!(catalog.find_all("nobody").is_empty());
}

#[test]
fn similar_names_are_suggested() {
    let catalog = ContextCatalog::load(vec![file(
        "/k/a",
        None,
        &["Production-EU", "staging", "prod"],
    )]);
    assert_eq!(catalog.suggestions("prod"), vec!["Production-EU", "prod"]);
    // A name that contains a context name is similar too.
    assert_eq!(catalog.suggestions("STAGING-2"), vec!["staging"]);
    assert!(catalog.suggestions("zzz").is_empty());
}
