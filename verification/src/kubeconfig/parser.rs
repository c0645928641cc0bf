//! Turning a parsed kubeconfig into [`ContextEntry`] values.
//!
//! The YAML itself is read by the caller, which hands over the documents' contexts, clusters and
//! users as plain values, or says why there are none.

use vstd::prelude::*;

use crate::kubeconfig::{AuthMethod, ContextEntry, KubeconfigError};
use crate::paths;
use crate::text;
use crate::text::{copy_optional, line_one, same_text, trim};

verus! {

/// One successfully parsed kubeconfig file.
#[derive(Debug)]
pub struct LoadedKubeconfig {
    /// The file it was read from.
    pub path: String,
    /// `current-context` as set by this file, if any.
    pub current_context: Option<String>,
    /// Contexts defined by this file.
    pub entries: Vec<ContextEntry>,
}

/// The parts of a kubeconfig that contexts are resolved against.
#[derive(Debug)]
pub struct Kubeconfig {
    /// The `current-context` the file sets, if any.
    pub current_context: Option<String>,
    /// The contexts, in file order.
    pub contexts: Vec<NamedContext>,
    /// The clusters, in file order.
    pub clusters: Vec<NamedCluster>,
    /// The users, in file order.
    pub auth_infos: Vec<NamedAuthInfo>,
}

/// An entry of the `contexts` list.
#[derive(Debug)]
pub struct NamedContext {
    /// The name of the context.
    pub name: String,
    /// The context itself, where the entry has one.
    pub context: Option<Context>,
}

/// A context: which cluster, user and namespace it stands for.
#[derive(Debug)]
pub struct Context {
    /// Name of the cluster.
    pub cluster: String,
    /// Name of the user, if any.
    pub user: Option<String>,
    /// Namespace, if any.
    pub namespace: Option<String>,
}

/// An entry of the `clusters` list.
#[derive(Debug)]
pub struct NamedCluster {
    /// The name of the cluster.
    pub name: String,
    /// The cluster itself, where the entry has one.
    pub cluster: Option<Cluster>,
}

/// A cluster.
#[derive(Debug)]
pub struct Cluster {
    /// URL of the API server, if set.
    pub server: Option<String>,
}

/// An entry of the `users` list.
#[derive(Debug)]
pub struct NamedAuthInfo {
    /// The name of the user.
    pub name: String,
    /// The credentials, where the entry has them.
    pub auth_info: Option<AuthInfo>,
}

/// How a user authenticates. Of the credentials only their presence is ever looked at.
#[derive(Debug)]
pub struct AuthInfo {
    /// Credential plugin.
    pub plugin: Option<ExecConfig>,
    /// Name of the legacy `auth-provider` plugin.
    pub auth_provider: Option<String>,
    /// Inline bearer token.
    pub token: Option<String>,
    /// File holding a bearer token.
    pub token_file: Option<String>,
    /// File holding a client certificate.
    pub client_certificate: Option<String>,
    /// Inline client certificate.
    pub client_certificate_data: Option<String>,
    /// Basic auth user name.
    pub username: Option<String>,
}

/// A credential plugin.
#[derive(Debug)]
pub struct ExecConfig {
    /// The command to run, if set.
    pub command: Option<String>,
    /// The arguments of the command.
    pub args: Vec<String>,
}

/// Why a kubeconfig could not be read.
#[derive(Debug)]
pub enum ReadFailure {
    /// The file could not be opened or read, with the system's message.
    Unreadable(String),
    /// The file is not usable as written, with the parser's message.
    Unusable(String),
}

/// A parser message reduced to its first line.
pub open spec fn summary(message: Seq<char>) -> Seq<char> {
    text::trimmed(text::first_line(message))
}

/// Reduce a parser message to its first line.
///
/// The YAML parser helpfully appends an excerpt of the offending document, which may quote a
/// line holding a token or a certificate. Position information is kept, file content is not.
pub fn summarise(message: &str) -> (r: String)
    ensures
        r@ == summary(message@),
{
    trim(line_one(message).as_str())
}

/// Map a read failure onto our error taxonomy.
pub fn classify(path: &str, failure: ReadFailure) -> (r: KubeconfigError)
    ensures
        match failure {
            ReadFailure::Unreadable(source) => r matches KubeconfigError::Inaccessible {
                path: file,
                source: cause,
            } && file@ == path@ && cause == source,
            ReadFailure::Unusable(message) => r matches KubeconfigError::Invalid {
                path: file,
                message: shown,
            } && file@ == path@ && shown@ == summary(message@),
        },
{
    match failure {
        ReadFailure::Unreadable(source) => KubeconfigError::Inaccessible {
            path: path.to_owned(),
            source,
        },
        ReadFailure::Unusable(message) => KubeconfigError::Invalid {
            path: path.to_owned(),
            message: summarise(message.as_str()),
        },
    }
}

/// Check what was read from a single kubeconfig file and resolve its contexts.
pub fn load(path: &str, read: Result<Kubeconfig, ReadFailure>) -> (r: Result<
    LoadedKubeconfig,
    KubeconfigError,
>)
    ensures
        match read {
            Ok(kubeconfig) => if kubeconfig.contexts@.len() == 0 && kubeconfig.clusters@.len()
                == 0 {
                r matches Err(KubeconfigError::NotKubeconfig { path: file }) && file@ == path@
            } else {
                r matches Ok(loaded) && {
                    &&& loaded.path@ == path@
                    &&& loaded.current_context == kubeconfig.current_context
                    &&& resolved(kubeconfig, path@, loaded.entries@)
                }
            },
            Err(ReadFailure::Unreadable(source)) => r matches Err(
                KubeconfigError::Inaccessible { path: file, source: cause },
            ) && file@ == path@ && cause == source,
            Err(ReadFailure::Unusable(message)) => r matches Err(
                KubeconfigError::Invalid { path: file, message: shown },
            ) && file@ == path@ && shown@ == summary(message@),
        },
{
    let kubeconfig = match read {
        Ok(kubeconfig) => kubeconfig,
        Err(failure) => {
            return Err(classify(path, failure));
        },
    };
    if kubeconfig.contexts.len() == 0 && kubeconfig.clusters.len() == 0 {
        return Err(KubeconfigError::NotKubeconfig { path: path.to_owned() });
    }
    let entries = entries_from(&kubeconfig, path);
    Ok(LoadedKubeconfig { path: path.to_owned(), current_context: kubeconfig.current_context, entries })
}

/// The first cluster entry, at `from` or later, with a name.
pub open spec fn next_cluster(
    clusters: Seq<NamedCluster>,
    name: Seq<char>,
    from: int,
) -> Option<Cluster>
    decreases clusters.len() - from,
{
    if from >= clusters.len() {
        None
    } else if clusters[from].name@ == name {
        clusters[from].cluster
    } else {
        next_cluster(clusters, name, from + 1)
    }
}

/// The cluster a name refers to: that of the first entry with the name.
pub open spec fn cluster_named(clusters: Seq<NamedCluster>, name: Seq<char>) -> Option<Cluster> {
    next_cluster(clusters, name, 0)
}

/// The first user entry, at `from` or later, with a name.
pub open spec fn next_user(
    users: Seq<NamedAuthInfo>,
    name: Seq<char>,
    from: int,
) -> Option<AuthInfo>
    decreases users.len() - from,
{
    if from >= users.len() {
        None
    } else if users[from].name@ == name {
        users[from].auth_info
    } else {
        next_user(users, name, from + 1)
    }
}

/// The credentials a user name refers to: those of the first entry with the name.
pub open spec fn user_named(users: Seq<NamedAuthInfo>, name: Option<String>) -> Option<AuthInfo> {
    match name {
        Some(name) => next_user(users, name@, 0),
        None => None,
    }
}

/// Whether `entry` is what the context of `named` resolves to.
pub open spec fn entry_of(
    kubeconfig: Kubeconfig,
    path: Seq<char>,
    named: NamedContext,
    context: Context,
    entry: ContextEntry,
) -> bool {
    let cluster = cluster_named(kubeconfig.clusters@, context.cluster@);
    &&& entry.name == named.name
    &&& entry.cluster == context.cluster
    &&& entry.user == context.user
    &&& entry.namespace == (if text::optional(context.namespace) == Some(Seq::<char>::empty()) {
        None
    } else {
        context.namespace
    })
    &&& entry.server == (match cluster {
        Some(cluster) => cluster.server,
        None => None,
    })
    &&& entry.cluster_missing == (cluster is None)
    &&& entry.source@ == path
    &&& entry.current_in_source == (text::optional(kubeconfig.current_context) == Some(
        named.name@,
    ))
    &&& !entry.active
    &&& !entry.ambiguous
    &&& is_method_of(user_named(kubeconfig.auth_infos@, context.user), entry.auth_method)
}

/// The entries of the `contexts` list that hold a context.
pub open spec fn filled(contexts: Seq<NamedContext>) -> Seq<NamedContext> {
    contexts.filter(|named: NamedContext| named.context is Some)
}

/// Whether `entries` are what the contexts of a kubeconfig resolve to, in file order.
pub open spec fn resolved(
    kubeconfig: Kubeconfig,
    path: Seq<char>,
    entries: Seq<ContextEntry>,
) -> bool {
    let contexts = filled(kubeconfig.contexts@);
    &&& entries.len() == contexts.len()
    &&& forall|i: int|
        0 <= i < entries.len() ==> entry_of(
            kubeconfig,
            path,
            contexts[i],
            contexts[i].context->0,
            #[trigger] entries[i],
        )
}

fn find_cluster<'a>(clusters: &'a Vec<NamedCluster>, name: &str) -> (r: Option<&'a Cluster>)
    ensures
        match r {
            Some(cluster) => cluster_named(clusters@, name@) == Some(*cluster),
            None => cluster_named(clusters@, name@) is None,
        },
{
    let mut i: usize = 0;
    while i < clusters.len()
        invariant
            i <= clusters@.len(),
            cluster_named(clusters@, name@) == next_cluster(clusters@, name@, i as int),
        decreases clusters@.len() - i,
    {
        if same_text(clusters[i].name.as_str(), name) {
            return match &clusters[i].cluster {
                Some(cluster) => Some(cluster),
                None => None,
            };
        }
        i = i + 1;
    }
    None
}

fn find_user<'a>(users: &'a Vec<NamedAuthInfo>, name: &Option<String>) -> (r: Option<&'a AuthInfo>)
    ensures
        match r {
            Some(user) => user_named(users@, *name) == Some(*user),
            None => user_named(users@, *name) is None,
        },
{
    let wanted = match name {
        Some(name) => name,
        None => {
            return None;
        },
    };
    let mut i: usize = 0;
    while i < users.len()
        invariant
            i <= users@.len(),
            *name == Some(*wanted),
            user_named(users@, *name) == next_user(users@, wanted@, i as int),
        decreases users@.len() - i,
    {
        if same_text(users[i].name.as_str(), wanted.as_str()) {
            return match &users[i].auth_info {
                Some(user) => Some(user),
                None => None,
            };
        }
        i = i + 1;
    }
    None
}

fn nonempty(value: &Option<String>) -> (r: Option<String>)
    ensures
        r == (if text::optional(*value) == Some(Seq::<char>::empty()) {
            None
        } else {
            *value
        }),
{
    match value {
        Some(s) => {
            if s.as_str().is_empty() {
                proof {
                    assert(s@ == Seq::<char>::empty());
                }
                None
            } else {
                Some(s.clone())
            }
        },
        None => None,
    }
}

/// Resolve every context in `kubeconfig` against its clusters and users.
pub fn entries_from(kubeconfig: &Kubeconfig, path: &str) -> (r: Vec<ContextEntry>)
    ensures
        resolved(*kubeconfig, path@, r@),
{
    let mut entries: Vec<ContextEntry> = Vec::new();
    let ghost all = kubeconfig.contexts@;
    let ghost has_context = |named: NamedContext| named.context is Some;
    proof {
        reveal(Seq::filter);
    }
    for i in 0..kubeconfig.contexts.len()
        invariant
            all == kubeconfig.contexts@,
            has_context == (|named: NamedContext| named.context is Some),
            entries@.len() == all.take(i as int).filter(has_context).len(),
            forall|k: int|
                0 <= k < entries@.len() ==> entry_of(
                    *kubeconfig,
                    path@,
                    all.take(i as int).filter(has_context)[k],
                    all.take(i as int).filter(has_context)[k].context->0,
                    #[trigger] entries@[k],
                ),
    {
        proof {
            reveal(Seq::filter);
            assert(all.take(i + 1).drop_last() == all.take(i as int));
        }
        let named = &kubeconfig.contexts[i];
        if let Some(context) = &named.context {
            let cluster = find_cluster(&kubeconfig.clusters, context.cluster.as_str());
            let auth_info = find_user(&kubeconfig.auth_infos, &context.user);
            let current: bool = match &kubeconfig.current_context {
                Some(current) => same_text(current.as_str(), named.name.as_str()),
                None => false,
            };
            let entry = ContextEntry {
                name: named.name.clone(),
                cluster: context.cluster.clone(),
                user: copy_optional(&context.user),
                namespace: nonempty(&context.namespace),
                server: match cluster {
                    Some(cluster) => copy_optional(&cluster.server),
                    None => None,
                },
                cluster_missing: cluster.is_none(),
                source: path.to_owned(),
                current_in_source: current,
                active: false,
                ambiguous: false,
                auth_method: auth_method(auth_info),
            };
            entries.push(entry);
        }
    }
    proof {
        assert(all.take(all.len() as int) == all);
    }
    entries
}

/// The name a credential plugin is known by: the file name of its command.
pub open spec fn plugin_name(command: Option<String>) -> Seq<char> {
    match command {
        Some(command) => match paths::file_name_of(command@) {
            Some(name) => name,
            None => command@,
        },
        None => "unknown"@,
    }
}

/// Whether a method is the one a user entry authenticates with.
///
/// The precedence mirrors what a client actually uses: exec and auth-provider plugins take
/// over credential acquisition, then bearer tokens, then client certificates, then basic auth.
pub open spec fn is_method_of(auth_info: Option<AuthInfo>, method: AuthMethod) -> bool {
    match auth_info {
        None => method is Unspecified,
        Some(info) => if info.plugin is Some {
            method matches AuthMethod::Exec(name) && name@ == plugin_name(info.plugin->0.command)
        } else if info.auth_provider is Some {
            method matches AuthMethod::AuthProvider(name) && name == info.auth_provider->0
        } else if info.token is Some {
            method is Token
        } else if info.token_file is Some {
            method is TokenFile
        } else if info.client_certificate is Some || info.client_certificate_data is Some {
            method is ClientCertificate
        } else if info.username is Some {
            method is BasicAuth
        } else {
            method is Unspecified
        },
    }
}

/// Describe how a user entry authenticates, without capturing any secret material.
pub fn auth_method(auth_info: Option<&AuthInfo>) -> (r: AuthMethod)
    ensures
        match auth_info {
            Some(info) => is_method_of(Some(*info), r),
            None => is_method_of(None, r),
        },
{
    let info = match auth_info {
        Some(info) => info,
        None => {
            return AuthMethod::Unspecified;
        },
    };
    if let Some(plugin) = &info.plugin {
        // Only the command's file name is kept: args and env routinely carry secrets.
        let command: String = match &plugin.command {
            Some(command) => match paths::file_name(command.as_str()) {
                Some(name) => name,
                None => command.clone(),
            },
            None => "unknown".to_owned(),
        };
        return AuthMethod::Exec(command);
    }
    if let Some(provider) = &info.auth_provider {
        return AuthMethod::AuthProvider(provider.clone());
    }
    if info.token.is_some() {
        return AuthMethod::Token;
    }
    if info.token_file.is_some() {
        return AuthMethod::TokenFile;
    }
    if info.client_certificate.is_some() || info.client_certificate_data.is_some() {
        return AuthMethod::ClientCertificate;
    }
    if info.username.is_some() {
        return AuthMethod::BasicAuth;
    }
    AuthMethod::Unspecified
}

/// Secrets never reach the context model: what a method can be does not depend on the value of a
/// token, a certificate, a user name or a plugin argument, only on which of them are present.
pub proof fn lemma_secrets_do_not_matter(a: AuthInfo, b: AuthInfo, method: AuthMethod)
    requires
        a.plugin is Some <==> b.plugin is Some,
        a.plugin is Some ==> a.plugin->0.command == b.plugin->0.command,
        a.auth_provider == b.auth_provider,
        a.token is Some <==> b.token is Some,
        a.token_file is Some <==> b.token_file is Some,
        a.client_certificate is Some <==> b.client_certificate is Some,
        a.client_certificate_data is Some <==> b.client_certificate_data is Some,
        a.username is Some <==> b.username is Some,
    ensures
        is_method_of(Some(a), method) <==> is_method_of(Some(b), method),
{
}

/// A reported parser message never spans lines: nothing after the first line feed survives.
pub proof fn lemma_summary_is_one_line(message: Seq<char>)
    ensures
        !summary(message).contains('\n'),
{
    text::lemma_first_line(message);
    text::lemma_trimmed_within(text::first_line(message));
}

} // verus!
