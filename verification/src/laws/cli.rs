//! What holds of the command line.

use vstd::prelude::*;

use crate::cli;
use crate::cli::{Cli, CliError, Command, PrintKind};
use crate::kubeconfig;
use crate::kubeconfig::{ContextCatalog, ContextEntry, KubeconfigError};
use crate::kubernetes::ConnectionState;
use crate::laws::health as health_laws;
use crate::logging;
use crate::paths;
use crate::text;
use crate::time::Duration;

verus! {

/// Whether a context is one that was asked for: it has the name, and comes from the file if one
/// was given.
pub open spec fn asked_for(entry: ContextEntry, name: &str, source: Option<&str>) -> bool {
    &&& entry.name@ == name@
    &&& source matches Some(source) ==> paths::same_location(entry.source@, source@)
}

/// A name resolves to the one context that fits it. If none fits, the contexts that look alike are
/// suggested; if several fit, nothing is guessed and all their files are named.
pub proof fn lemma_resolving(
    catalog: &ContextCatalog,
    name: &str,
    source: Option<&str>,
    r: Result<&ContextEntry, CliError>,
)
    requires
        call_ensures(cli::resolve, (catalog, name, source), r),
    ensures
        ({
            let fitting = catalog.entries@.filter(
                |entry: ContextEntry| asked_for(entry, name, source),
            );
            &&& r is Ok <==> fitting.len() == 1
            &&& r matches Ok(entry) ==> *entry == fitting[0]
            &&& fitting.len() == 0 <==> r is Err && r->Err_0 is Unknown
            &&& fitting.len() > 1 <==> r is Err && r->Err_0 is Ambiguous
            &&& r matches Err(CliError::Unknown { name: given, suggestions }) ==> {
                &&& given@ == name@
                &&& text::texts(suggestions@) == catalog.entries@.map_values(
                    |entry: ContextEntry| entry.name@,
                ).filter(
                    |other: Seq<char>|
                        kubeconfig::look_alike(text::lowered(other), text::lowered(name@)),
                )
            }
            &&& r matches Err(CliError::Ambiguous { name: given, sources }) ==> {
                &&& given@ == name@
                &&& text::texts(sources@) == fitting.map_values(
                    |entry: ContextEntry| entry.source@,
                )
            }
        }),
{
    health_laws::same_filter(
        catalog.entries@,
        |entry: ContextEntry| cli::fits(entry, name@, cli::argument(source)),
        |entry: ContextEntry| asked_for(entry, name, source),
    );
    let found = cli::fitting(catalog.entries@, name@, cli::argument(source));
    assert(kubeconfig::names(catalog.entries@) == catalog.entries@.map_values(
        |entry: ContextEntry| entry.name@,
    ));
    assert(cli::sources_of(found) == found.map_values(|entry: ContextEntry| entry.source@));
}

/// What is inspected is the context that was named, else the active one; if none is active, the
/// error tells a current context that no file defines from none at all.
pub proof fn lemma_inspect_target(
    catalog: &ContextCatalog,
    name: Option<&str>,
    source: Option<&str>,
    r: Result<&ContextEntry, CliError>,
    named: Result<&ContextEntry, CliError>,
)
    requires
        catalog.wf(),
        call_ensures(cli::inspect_target, (catalog, name, source), r),
        name is Some ==> call_ensures(cli::resolve, (catalog, name->0, source), named),
    ensures
        name is Some ==> (r is Ok <==> named is Ok) && (r is Ok ==> r->Ok_0 == named->Ok_0),
        name is None && catalog.active_index is Some ==> r is Ok && *r->Ok_0
            == catalog.entries@[catalog.active_index->0 as int],
        name is None && catalog.active_index is None ==> match catalog.active_name {
            Some(current) => r == Err::<&ContextEntry, CliError>(
                CliError::UndefinedCurrent { name: current },
            ),
            None => r == Err::<&ContextEntry, CliError>(CliError::NothingToInspect),
        },
{
    if name is Some {
        let found = cli::fitting(catalog.entries@, name->0@, cli::argument(source));
        assert(cli::resolves(catalog.entries@, name->0@, cli::argument(source), r));
        assert(cli::resolves(catalog.entries@, name->0@, cli::argument(source), named));
    }
}

/// An empty catalog is an error, and so is asking for the current context where none is set.
pub proof fn lemma_requirements(
    catalog: &ContextCatalog,
    any: Result<(), CliError>,
    current: Result<&str, CliError>,
)
    requires
        call_ensures(cli::require_contexts, (catalog,), any),
        call_ensures(cli::current_name, (catalog,), current),
    ensures
        any is Ok <==> catalog.entries@.len() > 0,
        any matches Err(error) ==> error is NoContexts,
        current is Ok <==> catalog.active_name is Some,
        current matches Ok(name) ==> name@ == catalog.active_name->0@,
        current matches Err(error) ==> error is NoCurrent,
{
}

/// Each file that could not be read or parsed is warned of, in order; files that are no kubeconfigs
/// are passed over.
pub proof fn lemma_warnings(catalog: &ContextCatalog, r: Vec<String>)
    requires
        call_ensures(cli::warnings, (catalog,), r),
    ensures
        text::texts(r@) == catalog.problems@.filter(
            |problem: KubeconfigError| !(problem is NotKubeconfig),
        ).map_values(|problem: KubeconfigError| "kctx: warning: "@ + problem.shown()),
{
    warned(catalog.problems@);
}

proof fn warned(problems: Seq<KubeconfigError>)
    ensures
        cli::warnings_shown(problems) == problems.filter(
            |problem: KubeconfigError| !(problem is NotKubeconfig),
        ).map_values(|problem: KubeconfigError| "kctx: warning: "@ + problem.shown()),
    decreases problems.len(),
{
    reveal(Seq::filter);
    let kept = |problem: KubeconfigError| !(problem is NotKubeconfig);
    let line = |problem: KubeconfigError| "kctx: warning: "@ + problem.shown();
    if problems.len() > 0 {
        warned(problems.drop_last());
        let before = problems.drop_last().filter(kept);
        assert(before.push(problems.last()).map_values(line) == before.map_values(line).push(
            line(problems.last()),
        ));
    } else {
        assert(problems.filter(kept).map_values(line).len() == 0);
    }
}

/// A problem says which file it is about and why.
pub proof fn lemma_problems(problem: &KubeconfigError, r: String)
    requires
        call_ensures(KubeconfigError::to_string, (problem,), r),
    ensures
        problem matches KubeconfigError::Inaccessible { path, source } ==> r@
            == "cannot read kubeconfig "@ + path@ + ": "@ + source@,
        problem matches KubeconfigError::Invalid { path, message } ==> r@
            == "invalid kubeconfig "@ + path@ + ": "@ + message@,
        problem matches KubeconfigError::NotKubeconfig { path } ==> r@ == path@
            + " is not a kubeconfig"@,
{
}

/// Selecting prints the file or the name of the context as asked, and nothing of its own for a
/// kubeconfig.
pub proof fn lemma_selection(entry: &ContextEntry, print: PrintKind, r: Option<String>)
    requires
        call_ensures(cli::selection_line, (entry, print), r),
    ensures
        r is None <==> print is Kubeconfig,
        print is Path ==> r->0@ == entry.source@,
        print is Context ==> r->0@ == entry.name@,
{
}

/// An inspection succeeds exactly if it connected.
pub proof fn lemma_exit(state: ConnectionState, r: u8)
    requires
        call_ensures(cli::inspection_exit, (state,), r),
    ensures
        r == 0 <==> state is Connected,
        r == 0 || r == 1,
{
}

/// Without a command, a context is selected and its kubeconfig printed.
pub proof fn lemma_command(cli: Cli, r: Command)
    requires
        call_ensures(Cli::into_command, (cli,), r),
    ensures
        cli.command matches Some(command) ==> r == command,
        cli.command is None ==> r == (Command::Select {
            context: None,
            source: None,
            print: PrintKind::Kubeconfig,
        }),
{
}

/// What an error says names what it is about: with suggestions where there are some, and with one
/// file a line where several define a context.
pub proof fn lemma_error_texts(
    quoted: &str,
    list: &Vec<String>,
    unknown: String,
    ambiguous: String,
    undefined: String,
)
    requires
        call_ensures(cli::unknown_text, (quoted, list), unknown),
        call_ensures(cli::ambiguous_text, (quoted, list), ambiguous),
        call_ensures(cli::undefined_current_text, (quoted,), undefined),
    ensures
        list@.len() == 0 ==> unknown@ == "no context named "@ + quoted@
            + " was found (try `kctx list`)"@,
        list@.len() > 0 ==> unknown@ == "no context named "@ + quoted@ + "; did you mean: "@
            + text::joined(text::texts(list@), ", "@),
        ambiguous@ == "context "@ + quoted@ + " is defined by "@ + text::decimal(list@.len())
            + " kubeconfigs; disambiguate with --source:\n  "@ + text::joined(
            text::texts(list@),
            "\n  "@,
        ),
        undefined@ == "the current context "@ + quoted@
            + " is not defined by any discovered kubeconfig"@,
{
}

/// An error says the text of its kind, with the name of the context in quotes.
pub proof fn lemma_errors(
    error: &CliError,
    r: String,
    list: Vec<String>,
    quoted: &str,
    unknown: String,
    ambiguous: String,
    undefined: String,
)
    requires
        call_ensures(CliError::to_string, (error,), r),
        call_ensures(cli::unknown_text, (quoted, &list), unknown),
        call_ensures(cli::ambiguous_text, (quoted, &list), ambiguous),
        call_ensures(cli::undefined_current_text, (quoted,), undefined),
    ensures
        error is NoContexts ==> r@
            == "no Kubernetes contexts found (looked at $KUBECONFIG and ~/.kube)"@,
        error is NoCurrent ==> r@ == "no current context is set in any discovered kubeconfig"@,
        error is NothingToInspect ==> r@
            == "no current context is set; name one: `kctx inspect <context>`"@,
        error matches CliError::UndefinedCurrent { name } ==> (quoted@ == text::between_quotes(name@)
            ==> r@ == undefined@),
        error matches CliError::Unknown { name, suggestions } ==> (quoted@ == text::between_quotes(
            name@,
        ) && list == suggestions ==> r@ == unknown@),
        error matches CliError::Ambiguous { name, sources } ==> (quoted@ == text::between_quotes(
            name@,
        ) && list == sources ==> r@ == ambiguous@),
{
}

/// What was given on the command line counts before the environment, for where to log and for what
/// to log; a log file that exists has to be a regular file.
pub proof fn lemma_logging(
    given: Option<&str>,
    from_env: Option<&str>,
    destination: Option<String>,
    filter: String,
    path: &str,
    regular: Option<bool>,
    check: Result<(), String>,
)
    requires
        call_ensures(logging::destination, (given, from_env), destination),
        call_ensures(logging::filter, (given, from_env), filter),
        call_ensures(logging::check_log_file, (path, regular), check),
    ensures
        given matches Some(value) ==> destination is Some && destination->0@ == value@ && filter@
            == value@,
        given is None && from_env is Some ==> destination is Some && destination->0@
            == from_env->0@ && filter@ == from_env->0@,
        given is None && from_env is None ==> destination is None && filter@ == "warn,kctx=debug"@,
        check is Err <==> regular == Some(false),
        check matches Err(message) ==> message@ == path@
            + " is not a regular file; refusing to log there"@,
{
}

/// Spans of time are counted in nanoseconds: a second has a thousand milliseconds of a million
/// each.
pub proof fn lemma_spans(
    secs: u64,
    nanos: u32,
    made: Option<Duration>,
    whole: Duration,
    millis: Duration,
    span: &Duration,
    in_millis: u128,
    in_secs: u64,
    rest: u32,
    empty: bool,
    other: Duration,
    below: bool,
    least: Duration,
)
    requires
        call_ensures(Duration::new, (secs, nanos), made),
        call_ensures(Duration::from_secs, (secs,), whole),
        call_ensures(Duration::from_millis, (secs,), millis),
        call_ensures(Duration::as_millis, (span,), in_millis),
        call_ensures(Duration::as_secs, (span,), in_secs),
        call_ensures(Duration::subsec_nanos, (span,), rest),
        call_ensures(Duration::is_zero, (span,), empty),
        call_ensures(Duration::is_below, (span, other), below),
        call_ensures(Duration::min, (*span, other), least),
    ensures
        made is Some <==> nanos < 1_000_000_000,
        made matches Some(span) ==> span@ == secs * 1_000_000_000 + nanos,
        whole@ == secs * 1_000_000_000,
        millis@ == secs * 1_000_000,
        in_millis * 1_000_000 <= span@ < (in_millis + 1) * 1_000_000,
        span@ == in_secs * 1_000_000_000 + rest,
        rest < 1_000_000_000,
        empty <==> span@ == 0,
        below <==> span@ < other@,
        least@ <= span@ && least@ <= other@,
        least == *span || least == other,
{
}

/// Leaving without a selection ends with the status of an interrupted command, and an inspection
/// may take eight seconds unless told otherwise.
pub proof fn lemma_cli_defaults(status: u8, seconds: u64)
    requires
        status == cli::EXIT_CANCELLED,
        seconds == cli::DEFAULT_TIMEOUT,
    ensures
        status == 128 + 2,
        seconds == 8,
{
}

} // verus!
