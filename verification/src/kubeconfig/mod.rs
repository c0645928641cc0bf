//! The local context model: contexts, their kubeconfig files and the effective context.
//!
//! This layer is entirely local: files are read and parsed by the caller, and nothing here
//! opens a socket or writes to the user's files.

pub mod discovery;
pub mod parser;

use vstd::prelude::*;

use crate::paths;
use crate::text;
use crate::text::{contains, copy_optional, same_text, to_lowercase};
use self::parser::LoadedKubeconfig;

verus! {

/// How a context authenticates, as far as it can be told from the kubeconfig.
///
/// Only non-sensitive descriptors are kept: the auth-provider name and the exec command's
/// file name. Tokens, passwords, certificate data and exec args/env are never captured.
#[derive(Debug, PartialEq, Eq)]
pub enum AuthMethod {
    /// No credentials configured for this user entry (or no user entry at all).
    Unspecified,
    /// Inline bearer token.
    Token,
    /// Bearer token read from a file.
    TokenFile,
    /// Client certificate / key pair.
    ClientCertificate,
    /// HTTP basic auth.
    BasicAuth,
    /// Legacy `auth-provider` plugin, by provider name.
    AuthProvider(String),
    /// `exec` credential plugin, by command file name only.
    Exec(String),
}

impl Clone for AuthMethod {
    fn clone(&self) -> (r: Self)
        ensures
            r == *self,
    {
        match self {
            AuthMethod::Unspecified => AuthMethod::Unspecified,
            AuthMethod::Token => AuthMethod::Token,
            AuthMethod::TokenFile => AuthMethod::TokenFile,
            AuthMethod::ClientCertificate => AuthMethod::ClientCertificate,
            AuthMethod::BasicAuth => AuthMethod::BasicAuth,
            AuthMethod::AuthProvider(name) => AuthMethod::AuthProvider(name.clone()),
            AuthMethod::Exec(command) => AuthMethod::Exec(command.clone()),
        }
    }
}

impl AuthMethod {
    /// How the method is shown.
    pub open spec fn shown(self) -> Seq<char> {
        match self {
            AuthMethod::Unspecified => "none"@,
            AuthMethod::Token => "token"@,
            AuthMethod::TokenFile => "token file"@,
            AuthMethod::ClientCertificate => "client certificate"@,
            AuthMethod::BasicAuth => "basic auth"@,
            AuthMethod::AuthProvider(name) => "auth provider ("@ + name@ + ")"@,
            AuthMethod::Exec(command) => "exec plugin ("@ + command@ + ")"@,
        }
    }

    /// The method as text.
    pub fn to_string(&self) -> (r: String)
        ensures
            r@ == self.shown(),
    {
        match self {
            AuthMethod::Unspecified => "none".to_owned(),
            AuthMethod::Token => "token".to_owned(),
            AuthMethod::TokenFile => "token file".to_owned(),
            AuthMethod::ClientCertificate => "client certificate".to_owned(),
            AuthMethod::BasicAuth => "basic auth".to_owned(),
            AuthMethod::AuthProvider(name) => {
                let mut out = "auth provider (".to_owned();
                out.append(name.as_str());
                out.append(")");
                out
            },
            AuthMethod::Exec(command) => {
                let mut out = "exec plugin (".to_owned();
                out.append(command.as_str());
                out.append(")");
                out
            },
        }
    }
}

/// A single context, resolved against the clusters and users of its own kubeconfig file.
#[derive(Debug)]
pub struct ContextEntry {
    /// Context name as written in the kubeconfig.
    pub name: String,
    /// Referenced cluster name.
    pub cluster: String,
    /// Referenced user name, if the context has one.
    pub user: Option<String>,
    /// Namespace configured on the context, if any.
    pub namespace: Option<String>,
    /// API server URL of the referenced cluster, if that cluster is defined in the same file.
    pub server: Option<String>,
    /// True when the context references a cluster that the file does not define.
    pub cluster_missing: bool,
    /// The kubeconfig file this context came from.
    pub source: String,
    /// True when this context is the `current-context` of its own file.
    pub current_in_source: bool,
    /// True when this is the effective context of the whole discovered chain.
    pub active: bool,
    /// True when another discovered file defines a context with the same name.
    pub ambiguous: bool,
    /// Authentication method descriptor (never contains secrets).
    pub auth_method: AuthMethod,
}

impl Clone for ContextEntry {
    fn clone(&self) -> (r: Self)
        ensures
            r == *self,
    {
        ContextEntry {
            name: self.name.clone(),
            cluster: self.cluster.clone(),
            user: copy_optional(&self.user),
            namespace: copy_optional(&self.namespace),
            server: copy_optional(&self.server),
            cluster_missing: self.cluster_missing,
            source: self.source.clone(),
            current_in_source: self.current_in_source,
            active: self.active,
            ambiguous: self.ambiguous,
            auth_method: self.auth_method.clone(),
        }
    }
}

impl ContextEntry {
    /// The namespace requests default to: the configured one, else `default`.
    pub open spec fn namespace_text(self) -> Seq<char> {
        text::text_or(self.namespace, "default"@)
    }

    /// The namespace requests should default to: the configured one, else `default`.
    pub fn effective_namespace(&self) -> (r: &str)
        ensures
            r@ == self.namespace_text(),
    {
        match &self.namespace {
            Some(namespace) => namespace.as_str(),
            None => "default",
        }
    }
}

/// Something that went wrong with one kubeconfig file. Never fatal: other files still load.
#[derive(Debug)]
pub enum KubeconfigError {
    /// The file could not be opened or read.
    Inaccessible {
        /// Offending file.
        path: String,
        /// Underlying I/O error.
        source: String,
    },
    /// The file could be read but is not valid kubeconfig YAML.
    Invalid {
        /// Offending file.
        path: String,
        /// Parser message (never contains file contents).
        message: String,
    },
    /// The file parsed as YAML but has neither contexts nor clusters.
    NotKubeconfig {
        /// Offending file.
        path: String,
    },
}

impl KubeconfigError {
    /// How the problem is reported.
    pub open spec fn shown(self) -> Seq<char> {
        match self {
            KubeconfigError::Inaccessible { path, source } => "cannot read kubeconfig "@ + path@
                + ": "@ + source@,
            KubeconfigError::Invalid { path, message } => "invalid kubeconfig "@ + path@ + ": "@
                + message@,
            KubeconfigError::NotKubeconfig { path } => path@ + " is not a kubeconfig"@,
        }
    }

    /// The problem as text.
    pub fn to_string(&self) -> (r: String)
        ensures
            r@ == self.shown(),
    {
        match self {
            KubeconfigError::Inaccessible { path, source } => {
                let mut out = "cannot read kubeconfig ".to_owned();
                out.append(path.as_str());
                out.append(": ");
                out.append(source.as_str());
                out
            },
            KubeconfigError::Invalid { path, message } => {
                let mut out = "invalid kubeconfig ".to_owned();
                out.append(path.as_str());
                out.append(": ");
                out.append(message.as_str());
                out
            },
            KubeconfigError::NotKubeconfig { path } => {
                let mut out = path.clone();
                out.append(" is not a kubeconfig");
                out
            },
        }
    }
}

/// What became of one candidate file.
pub type LoadResult = Result<LoadedKubeconfig, KubeconfigError>;

/// The contexts of all files that loaded, in discovery order.
pub open spec fn all_entries(results: Seq<LoadResult>) -> Seq<ContextEntry>
    decreases results.len(),
{
    if results.len() == 0 {
        Seq::empty()
    } else {
        let before = all_entries(results.drop_last());
        match results.last() {
            Ok(loaded) => before + loaded.entries@,
            Err(_) => before,
        }
    }
}

/// The `current-context` of the first file that sets one.
pub open spec fn first_current(results: Seq<LoadResult>) -> Option<String>
    decreases results.len(),
{
    if results.len() == 0 {
        None
    } else {
        let before = first_current(results.drop_last());
        match results.last() {
            Ok(loaded) if before is None => loaded.current_context,
            _ => before,
        }
    }
}

/// The files that loaded, in discovery order.
pub open spec fn all_sources(results: Seq<LoadResult>) -> Seq<String>
    decreases results.len(),
{
    if results.len() == 0 {
        Seq::empty()
    } else {
        let before = all_sources(results.drop_last());
        match results.last() {
            Ok(loaded) => before.push(loaded.path),
            Err(_) => before,
        }
    }
}

/// The files that did not load, in discovery order.
pub open spec fn all_problems(results: Seq<LoadResult>) -> Seq<KubeconfigError>
    decreases results.len(),
{
    if results.len() == 0 {
        Seq::empty()
    } else {
        let before = all_problems(results.drop_last());
        match results.last() {
            Ok(_) => before,
            Err(problem) => before.push(problem),
        }
    }
}

/// Whether two contexts have the same name but come from different files.
pub open spec fn clash(a: ContextEntry, b: ContextEntry) -> bool {
    &&& a.name@ == b.name@
    &&& !paths::same_location(a.source@, b.source@)
}

/// Whether another file defines a context with the name of this one.
pub open spec fn ambiguous_among(entries: Seq<ContextEntry>, entry: ContextEntry) -> bool {
    exists|j: int| 0 <= j < entries.len() && clash(entry, #[trigger] entries[j])
}

/// The first context, at `from` or later, with a given name.
pub open spec fn next_named(entries: Seq<ContextEntry>, name: Seq<char>, from: int) -> Option<int>
    decreases entries.len() - from,
{
    if from >= entries.len() {
        None
    } else if entries[from].name@ == name {
        Some(from)
    } else {
        next_named(entries, name, from + 1)
    }
}

/// The first context with a given name.
pub open spec fn first_named(entries: Seq<ContextEntry>, name: Seq<char>) -> Option<int> {
    next_named(entries, name, 0)
}

/// The first definition of the effective context, if a name is set and defined.
pub open spec fn effective_index(entries: Seq<ContextEntry>, name: Option<String>) -> Option<int> {
    match name {
        Some(name) => first_named(entries, name@),
        None => None,
    }
}

/// A context with its flags set for the collection it is part of.
pub open spec fn marked(
    entries: Seq<ContextEntry>,
    name: Option<String>,
    i: int,
) -> ContextEntry {
    ContextEntry {
        ambiguous: ambiguous_among(entries, entries[i]),
        active: entries[i].active || effective_index(entries, name) == Some(i),
        ..entries[i]
    }
}

/// Everything discovered locally: contexts, which one is effective, and per-file problems.
#[derive(Debug)]
pub struct ContextCatalog {
    /// All contexts, in discovery order.
    pub entries: Vec<ContextEntry>,
    /// Effective `current-context` name for the discovered chain, if any file sets one.
    pub active_name: Option<String>,
    /// Index into [`Self::entries`] of the effective context, if it is actually defined.
    pub active_index: Option<usize>,
    /// Files that failed to load. One broken file never blocks the others.
    pub problems: Vec<KubeconfigError>,
    /// Files that loaded successfully, in discovery order.
    pub sources: Vec<String>,
}

impl Default for ContextCatalog {
    fn default() -> (r: Self)
        ensures
            r.entries@ == Seq::<ContextEntry>::empty(),
            r.active_name is None,
            r.active_index is None,
            r.problems@ == Seq::<KubeconfigError>::empty(),
            r.sources@ == Seq::<String>::empty(),
    {
        ContextCatalog {
            entries: Vec::new(),
            active_name: None,
            active_index: None,
            problems: Vec::new(),
            sources: Vec::new(),
        }
    }
}

impl ContextCatalog {
    /// The effective context, where there is one, is among the contexts.
    pub open spec fn wf(self) -> bool {
        self.active_index is Some ==> self.active_index->0 < self.entries@.len()
    }

    /// Gather what became of every candidate file and resolve the effective context.
    ///
    /// Follows client-go's merge semantics for `current-context`: the first file in the chain
    /// that sets it wins, and the first definition of a duplicated context name wins.
    pub fn load(results: Vec<LoadResult>) -> (r: Self)
        ensures
            r.wf(),
            r.entries@.len() == all_entries(results@).len(),
            forall|i: int|
                0 <= i < r.entries@.len() ==> #[trigger] r.entries@[i] == marked(
                    all_entries(results@),
                    first_current(results@),
                    i,
                ),
            r.active_name == first_current(results@),
            match r.active_index {
                Some(index) => effective_index(all_entries(results@), r.active_name) == Some(
                    index as int,
                ),
                None => effective_index(all_entries(results@), r.active_name) is None,
            },
            r.problems@ == all_problems(results@),
            r.sources@ == all_sources(results@),
    {
        let ghost given = results@;
        let mut results = results;
        let mut catalog = ContextCatalog::default();
        let count: usize = results.len();
        for i in 0..count
            invariant
                count == given.len(),
                results@ == given.skip(i as int),
                catalog.active_index is None,
                catalog.active_name == first_current(given.take(i as int)),
                catalog.entries@ == all_entries(given.take(i as int)),
                catalog.sources@ == all_sources(given.take(i as int)),
                catalog.problems@ == all_problems(given.take(i as int)),
        {
            let result = results.remove(0);
            proof {
                assert(given.take(i + 1).drop_last() == given.take(i as int));
                assert(given.take(i + 1).last() == given[i as int]);
                assert(given.skip(i as int).remove(0) == given.skip(i + 1));
            }
            match result {
                Ok(loaded) => {
                    let mut loaded = loaded;
                    if catalog.active_name.is_none() {
                        catalog.active_name = copy_optional(&loaded.current_context);
                    }
                    catalog.entries.append(&mut loaded.entries);
                    catalog.sources.push(loaded.path);
                },
                Err(problem) => {
                    catalog.problems.push(problem);
                },
            }
        }
        proof {
            assert(given.take(count as int) == given);
        }
        catalog.mark_ambiguous();
        proof {
            lemma_flags_keep_names(all_entries(given), catalog.entries@, 0);
            assert(effective_index(catalog.entries@, catalog.active_name) == effective_index(
                all_entries(given),
                catalog.active_name,
            ));
        }
        catalog.resolve_active();
        catalog
    }

    /// Flag every context name that occurs in more than one file.
    pub fn mark_ambiguous(&mut self)
        ensures
            final(self).entries@.len() == old(self).entries@.len(),
            forall|i: int|
                0 <= i < old(self).entries@.len() ==> #[trigger] final(self).entries@[i] == (
                ContextEntry {
                    ambiguous: ambiguous_among(old(self).entries@, old(self).entries@[i]),
                    ..old(self).entries@[i]
                }),
            final(self).active_name == old(self).active_name,
            final(self).active_index == old(self).active_index,
            final(self).problems == old(self).problems,
            final(self).sources == old(self).sources,
    {
        let ghost given = self.entries@;
        let count: usize = self.entries.len();
        let mut flags: Vec<bool> = Vec::new();
        for i in 0..count
            invariant
                self.entries@ == given,
                count == given.len(),
                flags@.len() == i,
                forall|k: int| 0 <= k < i ==> #[trigger] flags@[k] == ambiguous_among(given, given[k]),
        {
            let flag: bool = self.clashes(i);
            flags.push(flag);
        }
        for i in 0..count
            invariant
                count == given.len(),
                flags@.len() == count,
                forall|k: int|
                    0 <= k < count ==> #[trigger] flags@[k] == ambiguous_among(given, given[k]),
                self.entries@.len() == count,
                forall|k: int|
                    0 <= k < i ==> #[trigger] self.entries@[k] == (ContextEntry {
                        ambiguous: ambiguous_among(given, given[k]),
                        ..given[k]
                    }),
                forall|k: int| i <= k < count ==> #[trigger] self.entries@[k] == given[k],
                self.active_name == old(self).active_name,
                self.active_index == old(self).active_index,
                self.problems == old(self).problems,
                self.sources == old(self).sources,
        {
            let flag: bool = flags[i];
            self.entries[i].ambiguous = flag;
        }
    }

    /// Whether another file defines a context with the name of the context at `index`.
    fn clashes(&self, index: usize) -> (r: bool)
        requires
            index < self.entries@.len(),
        ensures
            r == ambiguous_among(self.entries@, self.entries@[index as int]),
    {
        let entry = &self.entries[index];
        for j in 0..self.entries.len()
            invariant
                *entry == self.entries@[index as int],
                forall|k: int| 0 <= k < j ==> !clash(*entry, #[trigger] self.entries@[k]),
        {
            let other = &self.entries[j];
            if same_text(entry.name.as_str(), other.name.as_str()) && !paths::same_path(
                entry.source.as_str(),
                other.source.as_str(),
            ) {
                proof {
                    assert(clash(*entry, self.entries@[j as int]));
                }
                return true;
            }
        }
        false
    }

    /// Point `active_index` at the first definition of the effective context name, where one is
    /// set.
    pub fn resolve_active(&mut self)
        ensures
            old(self).active_name is None ==> *final(self) == *old(self),
            old(self).active_name is Some ==> {
                &&& final(self).wf()
                &&& match final(self).active_index {
                    Some(index) => effective_index(old(self).entries@, old(self).active_name)
                        == Some(index as int),
                    None => effective_index(old(self).entries@, old(self).active_name) is None,
                }
            },
            final(self).entries@.len() == old(self).entries@.len(),
            forall|i: int|
                0 <= i < old(self).entries@.len() ==> #[trigger] final(self).entries@[i] == (
                ContextEntry {
                    active: old(self).entries@[i].active || effective_index(
                        old(self).entries@,
                        old(self).active_name,
                    ) == Some(i),
                    ..old(self).entries@[i]
                }),
            final(self).active_name == old(self).active_name,
            final(self).problems == old(self).problems,
            final(self).sources == old(self).sources,
    {
        let found: Option<usize> = match &self.active_name {
            Some(name) => self.position(name.as_str()),
            None => {
                return;
            },
        };
        self.active_index = found;
        if let Some(index) = found {
            self.entries[index].active = true;
        }
    }

    /// The position of the first context with a name.
    fn position(&self, name: &str) -> (r: Option<usize>)
        ensures
            match r {
                Some(index) => first_named(self.entries@, name@) == Some(index as int) && index
                    < self.entries@.len(),
                None => first_named(self.entries@, name@) is None,
            },
    {
        let mut i: usize = 0;
        while i < self.entries.len()
            invariant
                i <= self.entries@.len(),
                first_named(self.entries@, name@) == next_named(self.entries@, name@, i as int),
            decreases self.entries@.len() - i,
        {
            if same_text(self.entries[i].name.as_str(), name) {
                return Some(i);
            }
            i = i + 1;
        }
        None
    }

    /// All entries with the given context name, in discovery order.
    pub fn find_all(&self, name: &str) -> (r: Vec<&ContextEntry>)
        ensures
            r@.map_values(|entry: &ContextEntry| *entry) == named(self.entries@, name@),
    {
        let mut found: Vec<&ContextEntry> = Vec::new();
        let ghost wanted = |entry: ContextEntry| entry.name@ == name@;
        let ghost plain = |entry: &ContextEntry| *entry;
        proof {
            reveal(Seq::filter);
        }
        for i in 0..self.entries.len()
            invariant
                wanted == (|entry: ContextEntry| entry.name@ == name@),
                plain == (|entry: &ContextEntry| *entry),
                found@.map_values(plain) == self.entries@.take(i as int).filter(wanted),
        {
            let entry = &self.entries[i];
            proof {
                reveal(Seq::filter);
                assert(self.entries@.take(i + 1).drop_last() == self.entries@.take(i as int));
                assert(found@.push(entry).map_values(plain) == found@.map_values(plain).push(
                    *entry,
                ));
            }
            if same_text(entry.name.as_str(), name) {
                found.push(entry);
            }
        }
        proof {
            assert(self.entries@.take(self.entries@.len() as int) == self.entries@);
        }
        found
    }

    /// The effective context, if one is set and defined.
    pub fn active(&self) -> (r: Option<&ContextEntry>)
        requires
            self.wf(),
        ensures
            match self.active_index {
                Some(index) => r == Some(&self.entries@[index as int]),
                None => r is None,
            },
    {
        match self.active_index {
            Some(index) => Some(&self.entries[index]),
            None => None,
        }
    }

    /// Context names similar enough to `name` to suggest as a typo correction.
    pub fn suggestions(&self, name: &str) -> (r: Vec<&str>)
        ensures
            r@.map_values(|candidate: &str| candidate@) == names(self.entries@).filter(
                |candidate: Seq<char>| look_alike(text::lowered(candidate), text::lowered(name@)),
            ),
    {
        let needle = to_lowercase(name);
        let mut found: Vec<&str> = Vec::new();
        let ghost all = names(self.entries@);
        let ghost wanted = |candidate: Seq<char>|
            look_alike(text::lowered(candidate), text::lowered(name@));
        let ghost plain = |candidate: &str| candidate@;
        proof {
            reveal(Seq::filter);
        }
        for i in 0..self.entries.len()
            invariant
                needle@ == text::lowered(name@),
                all == names(self.entries@),
                wanted == (|candidate: Seq<char>|
                    look_alike(text::lowered(candidate), text::lowered(name@))),
                plain == (|candidate: &str| candidate@),
                found@.map_values(plain) == all.take(i as int).filter(wanted),
        {
            let candidate = self.entries[i].name.as_str();
            proof {
                reveal(Seq::filter);
                assert(all.take(i + 1).drop_last() == all.take(i as int));
                assert(all.take(i + 1).last() == candidate@);
                assert(found@.push(candidate).map_values(plain) == found@.map_values(plain).push(
                    candidate@,
                ));
            }
            if similar(to_lowercase(candidate).as_str(), needle.as_str()) {
                found.push(candidate);
            }
        }
        proof {
            assert(all.take(all.len() as int) == all);
        }
        found
    }
}

/// The contexts with a name, in order.
pub open spec fn named(entries: Seq<ContextEntry>, name: Seq<char>) -> Seq<ContextEntry> {
    entries.filter(|entry: ContextEntry| entry.name@ == name)
}

/// The names of the contexts, in order.
pub open spec fn names(entries: Seq<ContextEntry>) -> Seq<Seq<char>> {
    Seq::new(entries.len(), |i: int| entries[i].name@)
}

/// Whether one of two texts stands within the other.
pub open spec fn look_alike(candidate: Seq<char>, needle: Seq<char>) -> bool {
    text::occurs(candidate, needle) || text::occurs(needle, candidate)
}

/// Whether a context name in lower case is similar enough to a needle in lower case.
pub fn similar(candidate: &str, needle: &str) -> (r: bool)
    ensures
        r == look_alike(candidate@, needle@),
{
    contains(candidate, needle) || contains(needle, candidate)
}

/// Setting flags changes neither names nor files, so a name is found where it was.
proof fn lemma_flags_keep_names(before: Seq<ContextEntry>, after: Seq<ContextEntry>, from: int)
    requires
        before.len() == after.len(),
        0 <= from,
        forall|i: int| 0 <= i < before.len() ==> before[i].name@ == #[trigger] after[i].name@,
    ensures
        forall|name: Seq<char>|
            #![trigger next_named(after, name, from)]
            next_named(before, name, from) == next_named(after, name, from),
    decreases before.len() - from,
{
    if from < before.len() {
        lemma_flags_keep_names(before, after, from + 1);
        assert(before[from].name@ == after[from].name@);
        assert forall|name: Seq<char>|
            #![trigger next_named(after, name, from)]
            next_named(before, name, from) == next_named(after, name, from) by {
            assert(next_named(after, name, from + 1) == next_named(before, name, from + 1));
        }
    }
}

/// One broken file never blocks the others: what loads is the same as if the broken files were
/// not there.
pub proof fn lemma_broken_files_block_nothing(results: Seq<LoadResult>)
    ensures
        ({
            let loaded = results.filter(|result: LoadResult| result is Ok);
            &&& all_entries(results) == all_entries(loaded)
            &&& all_sources(results) == all_sources(loaded)
            &&& first_current(results) == first_current(loaded)
            &&& all_problems(loaded).len() == 0
        }),
    decreases results.len(),
{
    reveal(Seq::filter);
    let works = |result: LoadResult| result is Ok;
    if results.len() > 0 {
        lemma_broken_files_block_nothing(results.drop_last());
        let before = results.drop_last().filter(works);
        if results.last() is Ok {
            assert(results.filter(works) == before.push(results.last()));
            assert(before.push(results.last()).drop_last() == before);
        }
    }
}

/// Whether a file loaded and sets a `current-context`.
pub open spec fn sets_current(result: LoadResult) -> bool {
    result is Ok && result->Ok_0.current_context is Some
}

/// The first file in the chain that sets `current-context` wins.
pub proof fn lemma_first_setting_wins(results: Seq<LoadResult>, i: int)
    requires
        0 <= i < results.len(),
        sets_current(results[i]),
        forall|j: int| 0 <= j < i ==> !sets_current(#[trigger] results[j]),
    ensures
        first_current(results) == results[i]->Ok_0.current_context,
    decreases results.len(),
{
    let before = results.drop_last();
    if i < before.len() {
        lemma_first_setting_wins(before, i);
    } else {
        lemma_none_set(before);
    }
}

proof fn lemma_none_set(results: Seq<LoadResult>)
    requires
        forall|j: int| 0 <= j < results.len() ==> !sets_current(#[trigger] results[j]),
    ensures
        first_current(results) is None,
    decreases results.len(),
{
    if results.len() > 0 {
        assert(!sets_current(results[results.len() - 1]));
        let before = results.drop_last();
        assert forall|j: int| 0 <= j < before.len() implies !sets_current(#[trigger] before[j]) by {
            assert(!sets_current(results[j]));
        }
        lemma_none_set(before);
    }
}

/// Of freshly parsed contexts exactly the first definition of the effective name becomes active.
pub proof fn lemma_one_active(entries: Seq<ContextEntry>, name: Option<String>, i: int)
    requires
        0 <= i < entries.len(),
        !entries[i].active,
    ensures
        marked(entries, name, i).active <==> {
            &&& name is Some
            &&& entries[i].name@ == name->0@
            &&& forall|j: int| 0 <= j < i ==> #[trigger] entries[j].name@ != name->0@
        },
{
    if name is Some {
        lemma_next_named(entries, name->0@, 0);
    }
}

/// What the first position of a name is.
pub proof fn lemma_next_named(entries: Seq<ContextEntry>, name: Seq<char>, from: int)
    requires
        0 <= from,
    ensures
        match next_named(entries, name, from) {
            Some(index) => {
                &&& from <= index < entries.len()
                &&& entries[index].name@ == name
                &&& forall|j: int| from <= j < index ==> #[trigger] entries[j].name@ != name
            },
            None => forall|j: int|
                from <= j < entries.len() ==> #[trigger] entries[j].name@ != name,
        },
    decreases entries.len() - from,
{
    if from < entries.len() && entries[from].name@ != name {
        lemma_next_named(entries, name, from + 1);
    }
}

/// Ambiguity is mutual: a flagged context has a flagged namesake in another file.
pub proof fn lemma_ambiguity_is_mutual(entries: Seq<ContextEntry>, i: int)
    requires
        0 <= i < entries.len(),
        ambiguous_among(entries, entries[i]),
    ensures
        exists|j: int|
            {
                &&& 0 <= j < entries.len()
                &&& clash(entries[i], #[trigger] entries[j])
                &&& ambiguous_among(entries, entries[j])
            },
{
    let j = choose|j: int| 0 <= j < entries.len() && clash(entries[i], #[trigger] entries[j]);
    assert(clash(entries[j], entries[i]));
    assert(ambiguous_among(entries, entries[j]));
}

} // verus!
