//! What holds of reading kubeconfigs into a catalog.

use vstd::prelude::*;

use crate::kubeconfig;
use crate::kubeconfig::parser;
use crate::kubeconfig::parser::{
    AuthInfo, Kubeconfig, LoadedKubeconfig, NamedAuthInfo, NamedCluster, NamedContext, ReadFailure,
};
use crate::kubeconfig::{AuthMethod, ContextCatalog, ContextEntry, KubeconfigError, LoadResult};
use crate::laws::paths as path_laws;
use crate::paths;
use crate::text;

verus! {

// ---------------------------------------------------------------------------------------------
// Contexts
// ---------------------------------------------------------------------------------------------
/// Whether the cluster at a place of a list is the first one with a name.
pub open spec fn first_cluster(clusters: Seq<NamedCluster>, name: Seq<char>, k: int) -> bool {
    &&& 0 <= k < clusters.len()
    &&& clusters[k].name@ == name
    &&& forall|i: int| 0 <= i < k ==> (#[trigger] clusters[i]).name@ != name
}

/// Whether the user at a place of a list is the first one with a name.
pub open spec fn first_user(users: Seq<NamedAuthInfo>, name: Seq<char>, k: int) -> bool {
    &&& 0 <= k < users.len()
    &&& users[k].name@ == name
    &&& forall|i: int| 0 <= i < k ==> (#[trigger] users[i]).name@ != name
}

/// A cluster that is found by its name is the content of the first entry of the list with that
/// name; none is found exactly if no entry has the name or the first that has it holds nothing.
pub proof fn lemma_cluster_is_found_by_name(clusters: Seq<NamedCluster>, name: Seq<char>)
    ensures
        match parser::cluster_named(clusters, name) {
            Some(cluster) => exists|k: int| #[trigger]
                first_cluster(clusters, name, k) && clusters[k].cluster == Some(cluster),
            None => {
                ||| forall|i: int|
                    0 <= i < clusters.len() ==> (#[trigger] clusters[i]).name@ != name
                ||| exists|k: int| #[trigger]
                    first_cluster(clusters, name, k) && clusters[k].cluster is None
            },
        },
        forall|k: int| #[trigger]
            first_cluster(clusters, name, k) ==> parser::cluster_named(clusters, name)
                == clusters[k].cluster,
{
    cluster_from(clusters, name, 0);
}

proof fn cluster_from(clusters: Seq<NamedCluster>, name: Seq<char>, from: int)
    requires
        0 <= from <= clusters.len(),
        forall|i: int| 0 <= i < from ==> (#[trigger] clusters[i]).name@ != name,
    ensures
        ({
            ||| parser::next_cluster(clusters, name, from) is None && forall|i: int|
                0 <= i < clusters.len() ==> (#[trigger] clusters[i]).name@ != name
            ||| exists|k: int| #[trigger]
                first_cluster(clusters, name, k) && parser::next_cluster(clusters, name, from)
                    == clusters[k].cluster
        }),
    decreases clusters.len() - from,
{
    if from < clusters.len() {
        if clusters[from].name@ == name {
            assert(first_cluster(clusters, name, from));
        } else {
            cluster_from(clusters, name, from + 1);
        }
    }
}

/// A user that is found by its name is the content of the first entry of the list with that name;
/// none is found exactly if no name is given, no entry has it or the first that has it holds
/// nothing.
pub proof fn lemma_user_is_found_by_name(users: Seq<NamedAuthInfo>, name: Option<String>)
    ensures
        match parser::user_named(users, name) {
            Some(info) => name is Some && exists|k: int| #[trigger]
                first_user(users, name->0@, k) && users[k].auth_info == Some(info),
            None => {
                ||| name is None
                ||| forall|i: int|
                    0 <= i < users.len() ==> (#[trigger] users[i]).name@ != name->0@
                ||| exists|k: int| #[trigger]
                    first_user(users, name->0@, k) && users[k].auth_info is None
            },
        },
        forall|k: int|
            name is Some && #[trigger] first_user(users, name->0@, k) ==> parser::user_named(
                users,
                name,
            ) == users[k].auth_info,
{
    if let Some(name) = name {
        user_from(users, name@, 0);
    }
}

proof fn user_from(users: Seq<NamedAuthInfo>, name: Seq<char>, from: int)
    requires
        0 <= from <= users.len(),
        forall|i: int| 0 <= i < from ==> (#[trigger] users[i]).name@ != name,
    ensures
        ({
            ||| parser::next_user(users, name, from) is None && forall|i: int|
                0 <= i < users.len() ==> (#[trigger] users[i]).name@ != name
            ||| exists|k: int| #[trigger]
                first_user(users, name, k) && parser::next_user(users, name, from)
                    == users[k].auth_info
        }),
    decreases users.len() - from,
{
    if from < users.len() {
        if users[from].name@ == name {
            assert(first_user(users, name, from));
        } else {
            user_from(users, name, from + 1);
        }
    }
}

/// The contexts of a file are those with content, in order, each with what it says of itself: its
/// names, its namespace unless that is empty, the file, and whether the file makes it current.
/// None is active or ambiguous yet.
pub proof fn lemma_contexts_of_a_file(
    file: &Kubeconfig,
    path: &str,
    entries: Vec<ContextEntry>,
    i: int,
)
    requires
        call_ensures(parser::entries_from, (file, path), entries),
        0 <= i < entries@.len(),
    ensures
        ({
            let contexts = file.contexts@.filter(|named: NamedContext| named.context is Some);
            let context = contexts[i].context->0;
            &&& entries@.len() == contexts.len()
            &&& entries@[i].name@ == contexts[i].name@
            &&& entries@[i].cluster@ == context.cluster@
            &&& entries@[i].user == context.user
            &&& match context.namespace {
                Some(namespace) => if namespace@.len() > 0 {
                    entries@[i].namespace == Some(namespace)
                } else {
                    entries@[i].namespace is None
                },
                None => entries@[i].namespace is None,
            }
            &&& entries@[i].source@ == path@
            &&& entries@[i].current_in_source <==> (file.current_context matches Some(current)
                && current@ == contexts[i].name@)
            &&& !entries@[i].active
            &&& !entries@[i].ambiguous
        }),
{
    let contexts = parser::filled(file.contexts@);
    assert(contexts == file.contexts@.filter(|named: NamedContext| named.context is Some));
    let context = contexts[i].context->0;
    assert(parser::entry_of(*file, path@, contexts[i], context, entries@[i]));
    if let Some(namespace) = context.namespace {
        assert(namespace@.len() == 0 ==> namespace@ == Seq::<char>::empty());
    }
}

/// The server of a context is that of the first cluster of its file with the name that the context
/// gives; its cluster is missing exactly if there is no such entry or that entry holds none.
pub proof fn lemma_context_has_the_server_of_its_cluster(
    file: &Kubeconfig,
    path: &str,
    entries: Vec<ContextEntry>,
    i: int,
)
    requires
        call_ensures(parser::entries_from, (file, path), entries),
        0 <= i < entries@.len(),
    ensures
        entries@[i].cluster_missing <==> {
            ||| forall|j: int|
                0 <= j < file.clusters@.len() ==> (#[trigger] file.clusters@[j]).name@
                    != entries@[i].cluster@
            ||| exists|k: int| #[trigger]
                first_cluster(file.clusters@, entries@[i].cluster@, k)
                    && file.clusters@[k].cluster is None
        },
        forall|k: int| #[trigger]
            first_cluster(file.clusters@, entries@[i].cluster@, k) && file.clusters@[k].cluster is Some
                ==> entries@[i].server == file.clusters@[k].cluster->0.server,
        entries@[i].cluster_missing ==> entries@[i].server is None,
{
    let contexts = parser::filled(file.contexts@);
    let context = contexts[i].context->0;
    assert(parser::entry_of(*file, path@, contexts[i], context, entries@[i]));
    lemma_cluster_is_found_by_name(file.clusters@, context.cluster@);
}

/// The method of a context is that of the first user of its file with the name that the context
/// gives, and unspecified without one.
pub proof fn lemma_context_has_the_method_of_its_user(
    file: &Kubeconfig,
    path: &str,
    entries: Vec<ContextEntry>,
    i: int,
)
    requires
        call_ensures(parser::entries_from, (file, path), entries),
        0 <= i < entries@.len(),
    ensures
        entries@[i].user is None ==> entries@[i].auth_method is Unspecified,
        entries@[i].user is Some && (forall|j: int|
            0 <= j < file.auth_infos@.len() ==> (#[trigger] file.auth_infos@[j]).name@
                != entries@[i].user->0@) ==> entries@[i].auth_method is Unspecified,
        forall|k: int|
            entries@[i].user is Some && #[trigger] first_user(
                file.auth_infos@,
                entries@[i].user->0@,
                k,
            ) ==> parser::is_method_of(file.auth_infos@[k].auth_info, entries@[i].auth_method),
{
    let contexts = parser::filled(file.contexts@);
    let context = contexts[i].context->0;
    assert(parser::entry_of(*file, path@, contexts[i], context, entries@[i]));
    lemma_user_is_found_by_name(file.auth_infos@, context.user);
}

/// Of the ways in which a user may authenticate, the first in this order counts: a plugin, a
/// provider, a token, a token file, a certificate, a user name.
pub proof fn lemma_method_precedence(info: &AuthInfo, method: AuthMethod)
    requires
        call_ensures(parser::auth_method, (Some(info),), method),
    ensures
        method is Exec <==> info.plugin is Some,
        method is AuthProvider <==> info.plugin is None && info.auth_provider is Some,
        method is Token <==> info.plugin is None && info.auth_provider is None
            && info.token is Some,
        method is TokenFile <==> info.plugin is None && info.auth_provider is None
            && info.token is None && info.token_file is Some,
        method is ClientCertificate <==> info.plugin is None && info.auth_provider is None
            && info.token is None && info.token_file is None && (info.client_certificate is Some
            || info.client_certificate_data is Some),
        method is BasicAuth <==> info.plugin is None && info.auth_provider is None
            && info.token is None && info.token_file is None && info.client_certificate is None
            && info.client_certificate_data is None && info.username is Some,
        method matches AuthMethod::AuthProvider(name) ==> info.auth_provider == Some(name),
{
}

/// A plugin is named by the file name of its command, without the directory and without arguments;
/// one without a command is unknown.
pub proof fn lemma_plugin_name(
    info: &AuthInfo,
    method: AuthMethod,
    dir: Seq<char>,
    name: Seq<char>,
)
    requires
        call_ensures(parser::auth_method, (Some(info),), method),
        name.len() > 0,
        !name.contains('/'),
        name != seq!['.'],
        name != seq!['.', '.'],
    ensures
        info.plugin is Some && info.plugin->0.command is Some && (info.plugin->0.command->0@ == dir
            + seq!['/'] + name || info.plugin->0.command->0@ == name) ==> (
        method matches AuthMethod::Exec(shown) && shown@ == name),
        info.plugin is Some && info.plugin->0.command is Some && paths::file_name_of(
            info.plugin->0.command->0@,
        ) is None ==> (method matches AuthMethod::Exec(shown) && shown@
            == info.plugin->0.command->0@),
        info.plugin is Some && info.plugin->0.command is None ==> (
        method matches AuthMethod::Exec(shown) && shown@ == "unknown"@),
{
    path_laws::lemma_file_name(dir, name);
}

/// A message is summarised by its first line, without the white space around it.
pub proof fn lemma_summary(line: Seq<char>, rest: Seq<char>)
    requires
        !line.contains('\n'),
    ensures
        line.len() == 0 || line.last() != '\r' ==> parser::summary(line + seq!['\n'] + rest)
            == text::trimmed(line),
        parser::summary(line) == text::trimmed(line),
{
    crate::laws::text::lemma_first_line(line, rest);
}

/// A file is loaded exactly if it could be read and parsed and has a context or a cluster. It keeps
/// its path and its current context, and its contexts are resolved within it. A file that holds
/// neither is no kubeconfig; of one that could not be read the cause is kept, of one that could not
/// be parsed the first line of the message.
pub proof fn lemma_loading(
    path: &str,
    read: Result<Kubeconfig, ReadFailure>,
    r: Result<LoadedKubeconfig, KubeconfigError>,
)
    requires
        call_ensures(parser::load, (path, read), r),
    ensures
        r is Ok <==> read is Ok && (read->Ok_0.contexts@.len() > 0 || read->Ok_0.clusters@.len()
            > 0),
        r matches Ok(loaded) ==> {
            &&& loaded.path@ == path@
            &&& loaded.current_context == read->Ok_0.current_context
            &&& parser::resolved(read->Ok_0, path@, loaded.entries@)
            &&& forall|i: int|
                0 <= i < loaded.entries@.len() ==> !(#[trigger] loaded.entries@[i]).active
        },
        read is Ok && r is Err ==> r->Err_0 is NotKubeconfig && r->Err_0->NotKubeconfig_path@
            == path@,
        read matches Err(ReadFailure::Unreadable(cause)) ==> (
        r matches Err(KubeconfigError::Inaccessible { path: file, source }) && file@ == path@
            && source == cause),
        read matches Err(ReadFailure::Unusable(message)) ==> (
        r matches Err(KubeconfigError::Invalid { path: file, message: shown }) && file@ == path@
            && shown@ == text::trimmed(text::first_line(message@))),
{
    if let Ok(loaded) = r {
        let file = read->Ok_0;
        let contexts = parser::filled(file.contexts@);
        assert forall|i: int| 0 <= i < loaded.entries@.len() implies !(
        #[trigger] loaded.entries@[i]).active by {
            assert(parser::entry_of(
                file,
                path@,
                contexts[i],
                contexts[i].context->0,
                loaded.entries@[i],
            ));
        }
    }
}

// ---------------------------------------------------------------------------------------------
// The catalog
// ---------------------------------------------------------------------------------------------
/// The catalog of two lists of files is that of the first and then that of the second: contexts,
/// sources and problems follow each other in the order of the files. A file that loaded adds its
/// contexts and its path, one that did not adds a problem.
pub proof fn lemma_files_add_up(a: Seq<LoadResult>, b: Seq<LoadResult>)
    ensures
        kubeconfig::all_entries(a + b) == kubeconfig::all_entries(a) + kubeconfig::all_entries(b),
        kubeconfig::all_sources(a + b) == kubeconfig::all_sources(a) + kubeconfig::all_sources(b),
        kubeconfig::all_problems(a + b) == kubeconfig::all_problems(a) + kubeconfig::all_problems(
            b,
        ),
        a.len() == 1 ==> match a[0] {
            Ok(loaded) => {
                &&& kubeconfig::all_entries(a) == loaded.entries@
                &&& kubeconfig::all_sources(a) == seq![loaded.path]
                &&& kubeconfig::all_problems(a).len() == 0
            },
            Err(problem) => {
                &&& kubeconfig::all_entries(a).len() == 0
                &&& kubeconfig::all_sources(a).len() == 0
                &&& kubeconfig::all_problems(a) == seq![problem]
            },
        },
        a.len() == 0 ==> kubeconfig::all_entries(a).len() == 0 && kubeconfig::all_sources(a).len()
            == 0 && kubeconfig::all_problems(a).len() == 0,
    decreases b.len(),
{
    if b.len() > 0 {
        lemma_files_add_up(a, b.drop_last());
        assert((a + b).drop_last() == a + b.drop_last());
        assert((a + b).last() == b.last());
        if let Ok(loaded) = b.last() {
            assert(kubeconfig::all_entries(a) + (kubeconfig::all_entries(b.drop_last())
                + loaded.entries@) == kubeconfig::all_entries(a) + kubeconfig::all_entries(
                b.drop_last(),
            ) + loaded.entries@);
        }
        assert(kubeconfig::all_entries(a + b) == kubeconfig::all_entries(a)
            + kubeconfig::all_entries(b));
        assert(kubeconfig::all_sources(a + b) == kubeconfig::all_sources(a)
            + kubeconfig::all_sources(b));
        assert(kubeconfig::all_problems(a + b) == kubeconfig::all_problems(a)
            + kubeconfig::all_problems(b));
    } else {
        assert(a + b == a);
        assert(kubeconfig::all_entries(a + b) == kubeconfig::all_entries(a)
            + kubeconfig::all_entries(b));
        assert(kubeconfig::all_sources(a + b) == kubeconfig::all_sources(a)
            + kubeconfig::all_sources(b));
        assert(kubeconfig::all_problems(a + b) == kubeconfig::all_problems(a)
            + kubeconfig::all_problems(b));
    }
    if a.len() == 1 {
        reveal_with_fuel(kubeconfig::all_entries, 2);
        reveal_with_fuel(kubeconfig::all_sources, 2);
        reveal_with_fuel(kubeconfig::all_problems, 2);
        assert(a.drop_last().len() == 0);
        assert(a.last() == a[0]);
        if let Ok(loaded) = a[0] {
            assert(kubeconfig::all_entries(a) == loaded.entries@);
        }
    }
}

/// The current context is that of the first file that loaded and sets one.
pub proof fn lemma_current_context(results: Seq<LoadResult>)
    ensures
        match kubeconfig::first_current(results) {
            Some(name) => exists|k: int|
                0 <= k < results.len() && (#[trigger] results[k] matches Ok(loaded)
                    && loaded.current_context == Some(name)) && forall|i: int|
                    0 <= i < k ==> (#[trigger] results[i] matches Ok(earlier)
                        ==> earlier.current_context is None),
            None => forall|i: int|
                0 <= i < results.len() ==> (#[trigger] results[i] matches Ok(loaded)
                    ==> loaded.current_context is None),
        },
    decreases results.len(),
{
    if results.len() > 0 {
        let before = results.drop_last();
        lemma_current_context(before);
        let last = results.len() - 1;
        assert(results[last] == results.last());
        assert forall|i: int| 0 <= i < last implies #[trigger] results[i] == before[i] by {}
        match kubeconfig::first_current(before) {
            Some(name) => {
                let k = choose|k: int|
                    0 <= k < before.len() && (#[trigger] before[k] matches Ok(loaded)
                        && loaded.current_context == Some(name)) && forall|i: int|
                        0 <= i < k ==> (#[trigger] before[i] matches Ok(earlier)
                            ==> earlier.current_context is None);
                assert(results[k] == before[k]);
            },
            None => {},
        }
    }
}

/// Whether an entry is the first of a list with the name of the current context.
pub open spec fn effective(entries: Seq<ContextEntry>, current: Option<String>, i: int) -> bool {
    &&& 0 <= i < entries.len()
    &&& current matches Some(name) && entries[i].name@ == name@ && forall|j: int|
        0 <= j < i ==> (#[trigger] entries[j]).name@ != name@
}

/// Of contexts that are not active yet, exactly the effective one becomes so: the first with the
/// name of the current context. A context is ambiguous exactly if another file has one of the same
/// name. Nothing else about it changes.
pub proof fn lemma_marks(entries: Seq<ContextEntry>, current: Option<String>, i: int)
    requires
        0 <= i < entries.len(),
        !entries[i].active,
    ensures
        kubeconfig::marked(entries, current, i).active <==> effective(entries, current, i),
        kubeconfig::marked(entries, current, i).ambiguous <==> exists|j: int|
            0 <= j < entries.len() && (#[trigger] entries[j]).name@ == entries[i].name@
                && !paths::same_location(entries[j].source@, entries[i].source@),
        kubeconfig::marked(entries, current, i) == (ContextEntry {
            active: kubeconfig::marked(entries, current, i).active,
            ambiguous: kubeconfig::marked(entries, current, i).ambiguous,
            ..entries[i]
        }),
{
    if let Some(name) = current {
        named_from(entries, name@, 0);
    }
    if exists|j: int|
        0 <= j < entries.len() && (#[trigger] entries[j]).name@ == entries[i].name@
            && !paths::same_location(entries[j].source@, entries[i].source@) {
        let j = choose|j: int|
            0 <= j < entries.len() && (#[trigger] entries[j]).name@ == entries[i].name@
                && !paths::same_location(entries[j].source@, entries[i].source@);
        assert(kubeconfig::clash(entries[i], entries[j]));
    }
}

proof fn named_from(entries: Seq<ContextEntry>, name: Seq<char>, from: int)
    requires
        0 <= from <= entries.len(),
        forall|i: int| 0 <= i < from ==> (#[trigger] entries[i]).name@ != name,
    ensures
        match kubeconfig::next_named(entries, name, from) {
            Some(k) => {
                &&& 0 <= k < entries.len()
                &&& entries[k].name@ == name
                &&& forall|i: int| 0 <= i < k ==> (#[trigger] entries[i]).name@ != name
            },
            None => forall|i: int|
                0 <= i < entries.len() ==> (#[trigger] entries[i]).name@ != name,
        },
    decreases entries.len() - from,
{
    if from < entries.len() && entries[from].name@ != name {
        named_from(entries, name, from + 1);
    }
}

/// The effective context is the first with the name of the current context, and there is none
/// exactly if no context has that name or none is current.
pub proof fn lemma_effective_context(entries: Seq<ContextEntry>, current: Option<String>)
    ensures
        match kubeconfig::effective_index(entries, current) {
            Some(i) => effective(entries, current, i),
            None => forall|i: int|
                0 <= i < entries.len() && current is Some ==> (#[trigger] entries[i]).name@
                    != current->0@,
        },
{
    if let Some(name) = current {
        named_from(entries, name@, 0);
    }
}

/// A catalog holds the contexts, sources and problems of its files in order, with the effective
/// context marked and the ambiguous ones, and knows which context is current.
pub proof fn lemma_catalog(results: Vec<LoadResult>, r: ContextCatalog, i: int)
    requires
        call_ensures(ContextCatalog::load, (results,), r),
        forall|k: int|
            0 <= k < kubeconfig::all_entries(results@).len() ==> !(
            #[trigger] kubeconfig::all_entries(results@)[k]).active,
        0 <= i < r.entries@.len(),
    ensures
        ({
            let fresh = kubeconfig::all_entries(results@);
            let current = kubeconfig::first_current(results@);
            &&& r.entries@.len() == fresh.len()
            &&& r.entries@[i].name@ == fresh[i].name@
            &&& r.entries@[i].source@ == fresh[i].source@
            &&& r.entries@[i].active <==> effective(fresh, current, i)
            &&& r.entries@[i].ambiguous <==> exists|j: int|
                0 <= j < fresh.len() && (#[trigger] fresh[j]).name@ == fresh[i].name@
                    && !paths::same_location(fresh[j].source@, fresh[i].source@)
            &&& r.entries@[i] == (ContextEntry {
                active: r.entries@[i].active,
                ambiguous: r.entries@[i].ambiguous,
                ..fresh[i]
            })
            &&& r.active_name == current
            &&& (r.active_index is Some && r.active_index->0 == i) <==> r.entries@[i].active
            &&& r.sources@ == kubeconfig::all_sources(results@)
            &&& r.problems@ == kubeconfig::all_problems(results@)
        }),
{
    let fresh = kubeconfig::all_entries(results@);
    lemma_marks(fresh, kubeconfig::first_current(results@), i);
    assert(r.entries@[i] == kubeconfig::marked(fresh, kubeconfig::first_current(results@), i));
    lemma_effective_context(fresh, kubeconfig::first_current(results@));
}

/// What can be asked of a catalog: the contexts of a name, the active context and the names that
/// look alike.
pub proof fn lemma_catalog_queries(
    catalog: &ContextCatalog,
    name: &str,
    all: Vec<&ContextEntry>,
    active: Option<&ContextEntry>,
    alike: Vec<&str>,
)
    requires
        catalog.wf(),
        call_ensures(ContextCatalog::find_all, (catalog, name), all),
        call_ensures(ContextCatalog::active, (catalog,), active),
        call_ensures(ContextCatalog::suggestions, (catalog, name), alike),
    ensures
        all@.map_values(|entry: &ContextEntry| *entry) == catalog.entries@.filter(
            |entry: ContextEntry| entry.name@ == name@,
        ),
        active is Some <==> catalog.active_index is Some,
        active matches Some(entry) ==> *entry
            == catalog.entries@[catalog.active_index->0 as int],
        alike@.map_values(|candidate: &str| candidate@) == catalog.entries@.map_values(
            |entry: ContextEntry| entry.name@,
        ).filter(
            |other: Seq<char>|
                kubeconfig::look_alike(text::lowered(other), text::lowered(name@)),
        ),
{
    assert(kubeconfig::names(catalog.entries@) == catalog.entries@.map_values(
        |entry: ContextEntry| entry.name@,
    ));
}

/// How a context authenticates, in words.
pub proof fn lemma_method_words(method: &AuthMethod, r: String)
    requires
        call_ensures(AuthMethod::to_string, (method,), r),
    ensures
        method is Unspecified ==> r@ == "none"@,
        method is Token ==> r@ == "token"@,
        method is TokenFile ==> r@ == "token file"@,
        method is ClientCertificate ==> r@ == "client certificate"@,
        method is BasicAuth ==> r@ == "basic auth"@,
        method matches AuthMethod::AuthProvider(name) ==> r@ == "auth provider ("@ + name@ + ")"@,
        method matches AuthMethod::Exec(command) ==> r@ == "exec plugin ("@ + command@ + ")"@,
{
}

/// Contexts of a name are all that have it, in order.
pub proof fn lemma_contexts_of_a_name(entries: Seq<ContextEntry>, name: Seq<char>, i: int)
    requires
        0 <= i < entries.len(),
    ensures
        kubeconfig::named(entries, name).contains(entries[i]) <==> entries[i].name@ == name,
        kubeconfig::named(entries, name).len() <= entries.len(),
        kubeconfig::names(entries).len() == entries.len(),
        kubeconfig::names(entries)[i] == entries[i].name@,
{
    let wanted = |entry: ContextEntry| entry.name@ == name;
    entries.lemma_filter_len(wanted);
    crate::laws::health::filtered_holds(entries, wanted);
    if entries[i].name@ == name {
        entries.lemma_filter_contains(wanted, i);
    }
}

/// Two names look alike exactly if one of them holds the other.
pub proof fn lemma_look_alike(a: Seq<char>, b: Seq<char>)
    ensures
        kubeconfig::look_alike(a, b) <==> {
            ||| exists|front: Seq<char>, back: Seq<char>| a == #[trigger] (front + b + back)
            ||| exists|front: Seq<char>, back: Seq<char>| b == #[trigger] (front + a + back)
        },
{
    crate::laws::text::lemma_occurs_within(a, b);
    crate::laws::text::lemma_occurs_within(b, a);
}

/// The namespace of a context is `default` unless it sets one.
pub proof fn lemma_namespace_of_a_context(entry: &ContextEntry, r: &str)
    requires
        call_ensures(ContextEntry::effective_namespace, (entry,), r),
    ensures
        entry.namespace matches Some(namespace) ==> r@ == namespace@,
        entry.namespace is None ==> r@ == "default"@,
{
}

/// Marking ambiguity marks exactly the contexts whose name another file has too; finding the
/// active context marks the first with the name of the current one. Neither changes anything else.
pub proof fn lemma_marking(
    marked: &mut ContextCatalog,
    resolved: &mut ContextCatalog,
    i: int,
)
    requires
        call_ensures(ContextCatalog::mark_ambiguous, (marked,), ()),
        call_ensures(ContextCatalog::resolve_active, (resolved,), ()),
        0 <= i < old(marked).entries@.len(),
        0 <= i < old(resolved).entries@.len(),
        !old(resolved).entries@[i].active,
    ensures
        final(marked).entries@.len() == old(marked).entries@.len(),
        final(marked).entries@[i].ambiguous <==> exists|j: int|
            0 <= j < old(marked).entries@.len() && (#[trigger] old(marked).entries@[j]).name@
                == old(marked).entries@[i].name@ && !paths::same_location(
                old(marked).entries@[j].source@,
                old(marked).entries@[i].source@,
            ),
        final(marked).entries@[i] == (ContextEntry {
            ambiguous: final(marked).entries@[i].ambiguous,
            ..old(marked).entries@[i]
        }),
        final(marked).active_name == old(marked).active_name,
        final(resolved).entries@.len() == old(resolved).entries@.len(),
        final(resolved).entries@[i].active <==> effective(
            old(resolved).entries@,
            old(resolved).active_name,
            i,
        ),
        final(resolved).entries@[i] == (ContextEntry {
            active: final(resolved).entries@[i].active,
            ..old(resolved).entries@[i]
        }),
        final(resolved).active_name == old(resolved).active_name,
{
    let before = old(marked).entries@;
    assert(final(marked).entries@[i].ambiguous == kubeconfig::ambiguous_among(before, before[i]));
    if exists|j: int|
        0 <= j < before.len() && (#[trigger] before[j]).name@ == before[i].name@
            && !paths::same_location(before[j].source@, before[i].source@) {
        let j = choose|j: int|
            0 <= j < before.len() && (#[trigger] before[j]).name@ == before[i].name@
                && !paths::same_location(before[j].source@, before[i].source@);
        assert(kubeconfig::clash(before[i], before[j]));
    }
    lemma_effective_context(old(resolved).entries@, old(resolved).active_name);
    assert(final(resolved).entries@[i].active == (kubeconfig::effective_index(
        old(resolved).entries@,
        old(resolved).active_name,
    ) == Some(i)));
}

/// A failure to read keeps its cause, a failure to parse the first line of its message, each with
/// the file.
pub proof fn lemma_read_failures(
    path: &str,
    failure: ReadFailure,
    r: KubeconfigError,
    message: &str,
    short: String,
)
    requires
        call_ensures(parser::classify, (path, failure), r),
        call_ensures(parser::summarise, (message,), short),
    ensures
        failure matches ReadFailure::Unreadable(cause) ==> (
        r matches KubeconfigError::Inaccessible { path: file, source } && file@ == path@ && source
            == cause),
        failure matches ReadFailure::Unusable(text) ==> (
        r matches KubeconfigError::Invalid { path: file, message: shown } && file@ == path@
            && shown@ == text::trimmed(text::first_line(text@))),
        short@ == text::trimmed(text::first_line(message@)),
{
}

/// Names are compared by which holds the other.
pub proof fn lemma_similar(candidate: &str, needle: &str, r: bool)
    requires
        call_ensures(kubeconfig::similar, (candidate, needle), r),
    ensures
        r <==> text::occurs(candidate@, needle@) || text::occurs(needle@, candidate@),
{
}

} // verus!
