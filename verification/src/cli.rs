//! Command line surface. Only implemented functionality is exposed here.

use vstd::prelude::*;

use crate::kubeconfig;
use crate::kubeconfig::{ContextCatalog, ContextEntry, KubeconfigError};
use crate::kubernetes::ConnectionState;
use crate::paths;
use crate::paths::same_path;
use crate::text;
use crate::text::{join, number, quoted};

verus! {

/// Exit code used when the user cancels an interactive selection.
pub const EXIT_CANCELLED: u8 = 130;

/// How long an inspection may take unless told otherwise, in seconds.
pub const DEFAULT_TIMEOUT: u64 = 8;

// ---------------------------------------------------------------------------------------------
// Commands
// ---------------------------------------------------------------------------------------------
/// Fast Kubernetes context switcher and read-only cluster inspector.
///
/// kctx never modifies Kubernetes resources and never writes to your kubeconfig files.
#[derive(Debug)]
pub struct Cli {
    /// What to do. Defaults to `select`.
    pub command: Option<Command>,
    /// Write debug logs to this file (logs never go to the terminal).
    pub log_file: Option<String>,
    /// Log filter used with --log-file, e.g. `debug` or `kctx=trace`.
    pub log_level: Option<String>,
}

/// Implemented subcommands.
#[derive(Debug)]
pub enum Command {
    /// List discovered contexts (tab-separated: name, cluster, namespace, source, active).
    List {
        /// Emit JSON instead of tab-separated records.
        json: bool,
    },
    /// Print the effective context name.
    Current {
        /// Emit JSON instead of a bare name.
        json: bool,
    },
    /// Select a context and print a KUBECONFIG value for a shell wrapper to export.
    ///
    /// Without an argument this opens the interactive selector on stderr, leaving stdout for
    /// the result.
    Select {
        /// Context to select. Omit to choose interactively.
        context: Option<String>,
        /// Disambiguate a context name defined by more than one kubeconfig.
        source: Option<String>,
        /// What to print on stdout.
        print: PrintKind,
    },
    /// Inspect a context through the Kubernetes API, read-only.
    ///
    /// Defaults to the effective context. Exits non-zero when the cluster could not be reached,
    /// while still reporting whatever was readable.
    Inspect {
        /// Context to inspect. Omit to inspect the current one.
        context: Option<String>,
        /// Disambiguate a context name defined by more than one kubeconfig.
        source: Option<String>,
        /// Namespace to inspect instead of the context's own.
        namespace: Option<String>,
        /// Give up after this many seconds.
        timeout: u64,
        /// Emit JSON instead of text.
        json: bool,
    },
}

/// What `kctx select` writes to stdout.
#[derive(Debug, Clone, Copy, PartialEq, Eq, Structural)]
pub enum PrintKind {
    /// A `KUBECONFIG` value: the generated current-context overlay plus the source file.
    Kubeconfig,
    /// Only the kubeconfig file that defines the context.
    Path,
    /// Only the context name.
    Context,
}

impl Cli {
    /// The command to run: the one given, else an interactive selection.
    pub fn into_command(self) -> (r: Command)
        ensures
            r == (match self.command {
                Some(command) => command,
                None => Command::Select {
                    context: None,
                    source: None,
                    print: PrintKind::Kubeconfig,
                },
            }),
    {
        match self.command {
            Some(command) => command,
            None => Command::Select { context: None, source: None, print: PrintKind::Kubeconfig },
        }
    }
}

// ---------------------------------------------------------------------------------------------
// Failures
// ---------------------------------------------------------------------------------------------
/// Why a command cannot do what it was asked.
#[derive(Debug, PartialEq, Eq)]
pub enum CliError {
    /// Nothing was discovered.
    NoContexts,
    /// No file sets a current context.
    NoCurrent,
    /// No file sets a current context, and none was named.
    NothingToInspect,
    /// The current context is not defined by any file.
    UndefinedCurrent {
        /// The name.
        name: String,
    },
    /// No context has the name, with names that are similar.
    Unknown {
        /// The name.
        name: String,
        /// Similar names.
        suggestions: Vec<String>,
    },
    /// More than one context has the name, with the files that define them.
    Ambiguous {
        /// The name.
        name: String,
        /// The files.
        sources: Vec<String>,
    },
}

/// How a name that is not defined is reported, given the name in quotes.
pub open spec fn unknown_shown(quoted: Seq<char>, suggestions: Seq<Seq<char>>) -> Seq<char> {
    if suggestions.len() == 0 {
        "no context named "@ + quoted + " was found (try `kctx list`)"@
    } else {
        "no context named "@ + quoted + "; did you mean: "@ + text::joined(suggestions, ", "@)
    }
}

/// How a name that is defined more than once is reported, given the name in quotes.
pub open spec fn ambiguous_shown(quoted: Seq<char>, sources: Seq<Seq<char>>) -> Seq<char> {
    "context "@ + quoted + " is defined by "@ + text::decimal(sources.len())
        + " kubeconfigs; disambiguate with --source:\n  "@ + text::joined(sources, "\n  "@)
}

/// How an undefined current context is reported, given its name in quotes.
pub open spec fn undefined_current_shown(quoted: Seq<char>) -> Seq<char> {
    "the current context "@ + quoted + " is not defined by any discovered kubeconfig"@
}

/// Word an unknown name, given the name in quotes.
pub fn unknown_text(quoted: &str, suggestions: &Vec<String>) -> (r: String)
    ensures
        r@ == unknown_shown(quoted@, text::texts(suggestions@)),
{
    let mut out = "no context named ".to_owned();
    out.append(quoted);
    if suggestions.len() == 0 {
        out.append(" was found (try `kctx list`)");
    } else {
        out.append("; did you mean: ");
        out.append(join(suggestions, ", ").as_str());
    }
    out
}

/// Word an ambiguous name, given the name in quotes.
pub fn ambiguous_text(quoted: &str, sources: &Vec<String>) -> (r: String)
    ensures
        r@ == ambiguous_shown(quoted@, text::texts(sources@)),
{
    let mut out = "context ".to_owned();
    out.append(quoted);
    out.append(" is defined by ");
    out.append(number(sources.len()).as_str());
    out.append(" kubeconfigs; disambiguate with --source:\n  ");
    out.append(join(sources, "\n  ").as_str());
    out
}

/// Word an undefined current context, given its name in quotes.
pub fn undefined_current_text(quoted: &str) -> (r: String)
    ensures
        r@ == undefined_current_shown(quoted@),
{
    let mut out = "the current context ".to_owned();
    out.append(quoted);
    out.append(" is not defined by any discovered kubeconfig");
    out
}

impl CliError {
    /// How the failure is reported.
    pub open spec fn shown(self) -> Seq<char> {
        match self {
            CliError::NoContexts =>
                "no Kubernetes contexts found (looked at $KUBECONFIG and ~/.kube)"@,
            CliError::NoCurrent => "no current context is set in any discovered kubeconfig"@,
            CliError::NothingToInspect =>
                "no current context is set; name one: `kctx inspect <context>`"@,
            CliError::UndefinedCurrent { name } => undefined_current_shown(
                text::between_quotes(name@),
            ),
            CliError::Unknown { name, suggestions } => unknown_shown(
                text::between_quotes(name@),
                text::texts(suggestions@),
            ),
            CliError::Ambiguous { name, sources } => ambiguous_shown(
                text::between_quotes(name@),
                text::texts(sources@),
            ),
        }
    }

    /// The failure as text.
    pub fn to_string(&self) -> (r: String)
        ensures
            r@ == self.shown(),
    {
        match self {
            CliError::NoContexts =>
                "no Kubernetes contexts found (looked at $KUBECONFIG and ~/.kube)".to_owned(),
            CliError::NoCurrent =>
                "no current context is set in any discovered kubeconfig".to_owned(),
            CliError::NothingToInspect =>
                "no current context is set; name one: `kctx inspect <context>`".to_owned(),
            CliError::UndefinedCurrent { name } => undefined_current_text(
                quoted(name.as_str()).as_str(),
            ),
            CliError::Unknown { name, suggestions } => unknown_text(
                quoted(name.as_str()).as_str(),
                suggestions,
            ),
            CliError::Ambiguous { name, sources } => ambiguous_text(
                quoted(name.as_str()).as_str(),
                sources,
            ),
        }
    }
}

// ---------------------------------------------------------------------------------------------
// Choosing a context
// ---------------------------------------------------------------------------------------------
/// Whether a context has a name and, where one is asked for, comes from a file.
pub open spec fn fits(entry: ContextEntry, name: Seq<char>, source: Option<Seq<char>>) -> bool {
    entry.name@ == name && match source {
        Some(source) => paths::same_location(entry.source@, source),
        None => true,
    }
}

/// The contexts with a name and, where one is asked for, from a file.
pub open spec fn fitting(
    entries: Seq<ContextEntry>,
    name: Seq<char>,
    source: Option<Seq<char>>,
) -> Seq<ContextEntry> {
    entries.filter(|entry: ContextEntry| fits(entry, name, source))
}

/// The text of an optional argument.
pub open spec fn argument(value: Option<&str>) -> Option<Seq<char>> {
    match value {
        Some(value) => Some(value@),
        None => None,
    }
}

/// The files contexts come from.
pub open spec fn sources_of(entries: Seq<ContextEntry>) -> Seq<Seq<char>> {
    Seq::new(entries.len(), |i: int| entries[i].source@)
}

/// The names of contexts similar enough to a name.
pub open spec fn suggested(entries: Seq<ContextEntry>, name: Seq<char>) -> Seq<Seq<char>> {
    kubeconfig::names(entries).filter(
        |candidate: Seq<char>|
            kubeconfig::look_alike(text::lowered(candidate), text::lowered(name)),
    )
}

/// Whether `r` is exactly the one context with a name, or the failure to name one.
pub open spec fn resolves(
    entries: Seq<ContextEntry>,
    name: Seq<char>,
    source: Option<Seq<char>>,
    r: Result<&ContextEntry, CliError>,
) -> bool {
    let found = fitting(entries, name, source);
    if found.len() == 1 {
        r == Ok::<&ContextEntry, CliError>(&found[0])
    } else if found.len() == 0 {
        r matches Err(CliError::Unknown { name: given, suggestions }) && given@ == name
            && text::texts(suggestions@) == suggested(entries, name)
    } else {
        r matches Err(CliError::Ambiguous { name: given, sources }) && given@ == name
            && text::texts(sources@) == sources_of(found)
    }
}

fn owned(list: &Vec<&str>) -> (r: Vec<String>)
    ensures
        text::texts(r@) == list@.map_values(|item: &str| item@),
{
    let mut out: Vec<String> = Vec::new();
    for i in 0..list.len()
        invariant
            out@.len() == i,
            forall|k: int| 0 <= k < i ==> (#[trigger] out@[k])@ == list@[k]@,
    {
        out.push(list[i].to_owned());
    }
    out
}

fn keep_fitting<'a>(catalog: &'a ContextCatalog, name: &str, source: Option<&str>) -> (r: Vec<
    &'a ContextEntry,
>)
    ensures
        r@.map_values(|entry: &ContextEntry| *entry) == fitting(
            catalog.entries@,
            name@,
            argument(source),
        ),
{
    let candidates = catalog.find_all(name);
    let mut kept: Vec<&'a ContextEntry> = Vec::new();
    let ghost plain = |entry: &ContextEntry| *entry;
    let ghost all = candidates@.map_values(plain);
    let ghost wanted = |entry: ContextEntry| fits(entry, name@, argument(source));
    proof {
        reveal(Seq::filter);
        assert(kept@.map_values(plain) == all.take(0).filter(wanted));
        lemma_find_all_named(catalog.entries@, name@);
        assert forall|i: int| 0 <= i < all.len() implies (#[trigger] all[i]).name@ == name@ by {
            assert(all[i] == kubeconfig::named(catalog.entries@, name@)[i]);
        }
    }
    for i in 0..candidates.len()
        invariant
            plain == (|entry: &ContextEntry| *entry),
            all == candidates@.map_values(plain),
            forall|k: int| 0 <= k < all.len() ==> (#[trigger] all[k]).name@ == name@,
            wanted == (|entry: ContextEntry| fits(entry, name@, argument(source))),
            kept@.map_values(plain) == all.take(i as int).filter(wanted),
    {
        let entry = candidates[i];
        proof {
            reveal(Seq::filter);
            assert(all.take(i + 1).drop_last() == all.take(i as int));
            assert(all.take(i + 1).last() == *entry);
            assert(all[i as int].name@ == name@);
            assert(kept@.push(entry).map_values(plain) == kept@.map_values(plain).push(*entry));
        }
        let keep: bool = match source {
            Some(source) => same_path(entry.source.as_str(), source),
            None => true,
        };
        if keep {
            kept.push(entry);
        }
    }
    proof {
        assert(all.take(all.len() as int) == all);
        lemma_filter_twice(catalog.entries@, name@, argument(source));
    }
    kept
}

proof fn lemma_find_all_named(entries: Seq<ContextEntry>, name: Seq<char>)
    ensures
        forall|i: int|
            0 <= i < kubeconfig::named(entries, name).len() ==> (#[trigger] kubeconfig::named(
                entries,
                name,
            )[i]).name@ == name,
    decreases entries.len(),
{
    reveal(Seq::filter);
    if entries.len() > 0 {
        lemma_find_all_named(entries.drop_last(), name);
    }
}

proof fn lemma_filter_twice(
    entries: Seq<ContextEntry>,
    name: Seq<char>,
    source: Option<Seq<char>>,
)
    ensures
        kubeconfig::named(entries, name).filter(
            |entry: ContextEntry| fits(entry, name, source),
        ) == fitting(entries, name, source),
    decreases entries.len(),
{
    reveal(Seq::filter);
    if entries.len() > 0 {
        lemma_filter_twice(entries.drop_last(), name, source);
        let before = kubeconfig::named(entries.drop_last(), name);
        assert(before.push(entries.last()).drop_last() == before);
    }
}

/// Find exactly one context by name, refusing to guess between identically named ones.
pub fn resolve<'a>(catalog: &'a ContextCatalog, name: &str, source: Option<&str>) -> (r: Result<
    &'a ContextEntry,
    CliError,
>)
    ensures
        resolves(catalog.entries@, name@, argument(source), r),
{
    let candidates = keep_fitting(catalog, name, source);
    let ghost found = fitting(catalog.entries@, name@, argument(source));
    let ghost plain = |entry: &ContextEntry| *entry;
    proof {
        assert(candidates@.map_values(plain) == found);
        assert(candidates@.map_values(plain).len() == candidates@.len());
    }
    if candidates.len() == 1 {
        proof {
            assert(found[0] == *candidates@[0]);
        }
        return Ok(candidates[0]);
    }
    if candidates.len() == 0 {
        let suggestions = owned(&catalog.suggestions(name));
        return Err(CliError::Unknown { name: name.to_owned(), suggestions });
    }
    let mut sources: Vec<String> = Vec::new();
    for i in 0..candidates.len()
        invariant
            plain == (|entry: &ContextEntry| *entry),
            candidates@.map_values(plain) == found,
            sources@.len() == i,
            forall|k: int| 0 <= k < i ==> (#[trigger] sources@[k])@ == found[k].source@,
    {
        proof {
            assert(found[i as int] == *candidates@[i as int]);
        }
        sources.push(candidates[i].source.clone());
    }
    proof {
        assert(text::texts(sources@) == sources_of(found));
    }
    Err(CliError::Ambiguous { name: name.to_owned(), sources })
}

/// The context to inspect: the one named, else the effective one.
pub fn inspect_target<'a>(
    catalog: &'a ContextCatalog,
    name: Option<&str>,
    source: Option<&str>,
) -> (r: Result<&'a ContextEntry, CliError>)
    requires
        catalog.wf(),
    ensures
        match name {
            Some(name) => resolves(catalog.entries@, name@, argument(source), r),
            None => match catalog.active_index {
                Some(index) => r == Ok::<&ContextEntry, CliError>(
                    &catalog.entries@[index as int],
                ),
                None => match catalog.active_name {
                    Some(name) => r matches Err(CliError::UndefinedCurrent { name: given })
                        && given == name,
                    None => r == Err::<&ContextEntry, CliError>(CliError::NothingToInspect),
                },
            },
        },
{
    match name {
        Some(name) => resolve(catalog, name, source),
        None => match catalog.active() {
            Some(entry) => Ok(entry),
            None => match &catalog.active_name {
                Some(name) => Err(CliError::UndefinedCurrent { name: name.clone() }),
                None => Err(CliError::NothingToInspect),
            },
        },
    }
}

/// Refuse to list or choose among no contexts at all.
pub fn require_contexts(catalog: &ContextCatalog) -> (r: Result<(), CliError>)
    ensures
        if catalog.entries@.len() == 0 {
            r == Err::<(), CliError>(CliError::NoContexts)
        } else {
            r is Ok
        },
{
    if catalog.entries.len() == 0 {
        Err(CliError::NoContexts)
    } else {
        Ok(())
    }
}

/// The name of the effective context, defined or not.
pub fn current_name(catalog: &ContextCatalog) -> (r: Result<&str, CliError>)
    ensures
        match catalog.active_name {
            Some(name) => r matches Ok(shown) && shown@ == name@,
            None => r == Err::<&str, CliError>(CliError::NoCurrent),
        },
{
    match &catalog.active_name {
        Some(name) => Ok(name.as_str()),
        None => Err(CliError::NoCurrent),
    }
}

// ---------------------------------------------------------------------------------------------
// Results
// ---------------------------------------------------------------------------------------------
/// The warnings about kubeconfigs that could not be used. "Not a kubeconfig" is expected while
/// scanning `~/.kube` and is not worth a warning.
pub open spec fn warnings_shown(problems: Seq<KubeconfigError>) -> Seq<Seq<char>>
    decreases problems.len(),
{
    if problems.len() == 0 {
        Seq::empty()
    } else {
        let before = warnings_shown(problems.drop_last());
        if problems.last() is NotKubeconfig {
            before
        } else {
            before.push("kctx: warning: "@ + problems.last().shown())
        }
    }
}

/// Warn about kubeconfigs that could not be used. Never fatal: stderr only.
pub fn warnings(catalog: &ContextCatalog) -> (r: Vec<String>)
    ensures
        text::texts(r@) == warnings_shown(catalog.problems@),
{
    let mut lines: Vec<String> = Vec::new();
    proof {
        assert(text::texts(lines@) == warnings_shown(catalog.problems@.take(0)));
    }
    for i in 0..catalog.problems.len()
        invariant
            text::texts(lines@) == warnings_shown(catalog.problems@.take(i as int)),
    {
        let problem = &catalog.problems[i];
        let ghost before = text::texts(lines@);
        proof {
            assert(catalog.problems@.take(i + 1).drop_last() == catalog.problems@.take(i as int));
        }
        let expected: bool = match problem {
            KubeconfigError::NotKubeconfig { .. } => true,
            _ => false,
        };
        if !expected {
            let mut line = "kctx: warning: ".to_owned();
            line.append(problem.to_string().as_str());
            lines.push(line);
            proof {
                assert(text::texts(lines@) == before.push(line@));
            }
        }
    }
    proof {
        assert(catalog.problems@.take(catalog.problems@.len() as int) == catalog.problems@);
    }
    lines
}

/// The line a selection prints, where that needs no overlay file.
pub fn selection_line(entry: &ContextEntry, print: PrintKind) -> (r: Option<String>)
    ensures
        text::optional(r) == (match print {
            PrintKind::Kubeconfig => None,
            PrintKind::Path => Some(entry.source@),
            PrintKind::Context => Some(entry.name@),
        }),
{
    match print {
        PrintKind::Kubeconfig => None,
        PrintKind::Path => Some(entry.source.clone()),
        PrintKind::Context => Some(entry.name.clone()),
    }
}

/// The exit code of an inspection: a snapshot of an unreachable cluster is still worth printing,
/// but scripts need to know.
pub fn inspection_exit(state: ConnectionState) -> (r: u8)
    ensures
        r == (if state == ConnectionState::Connected {
            0u8
        } else {
            1u8
        }),
{
    if state == ConnectionState::Connected {
        0
    } else {
        1
    }
}

/// A name resolves to a context only where that is the single context it can mean: among
/// identically named ones nothing is guessed.
pub proof fn lemma_resolve_never_guesses(
    entries: Seq<ContextEntry>,
    name: Seq<char>,
    source: Option<Seq<char>>,
    r: Result<&ContextEntry, CliError>,
    i: int,
    j: int,
)
    requires
        resolves(entries, name, source, r),
        0 <= i < j < entries.len(),
        fits(entries[i], name, source),
        fits(entries[j], name, source),
    ensures
        r is Err,
{
    lemma_two_fitting(entries, name, source, i, j);
}

proof fn lemma_two_fitting(
    entries: Seq<ContextEntry>,
    name: Seq<char>,
    source: Option<Seq<char>>,
    i: int,
    j: int,
)
    requires
        0 <= i < j < entries.len(),
        fits(entries[i], name, source),
        fits(entries[j], name, source),
    ensures
        fitting(entries, name, source).len() >= 2,
    decreases entries.len(),
{
    reveal(Seq::filter);
    if j < entries.len() - 1 {
        lemma_two_fitting(entries.drop_last(), name, source, i, j);
    } else {
        lemma_one_fitting(entries.drop_last(), name, source, i);
    }
}

proof fn lemma_one_fitting(
    entries: Seq<ContextEntry>,
    name: Seq<char>,
    source: Option<Seq<char>>,
    i: int,
)
    requires
        0 <= i < entries.len(),
        fits(entries[i], name, source),
    ensures
        fitting(entries, name, source).len() >= 1,
    decreases entries.len(),
{
    reveal(Seq::filter);
    if i < entries.len() - 1 {
        lemma_one_fitting(entries.drop_last(), name, source, i);
    }
}

} // verus!
