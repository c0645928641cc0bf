//! Where diagnostic logs go.
//!
//! No logger is installed unless a log file is requested, so by default kctx emits nothing but
//! its own deliberate output. Log records are only ever written to that file — never to stdout
//! (reserved for machine-readable results) or stderr (used by the TUI).

use vstd::prelude::*;

use crate::text;

verus! {

/// The log file to use: the one on the command line, else the one of the environment.
pub open spec fn destination_of(log_file: Option<&str>, from_env: Option<&str>) -> Option<
    Seq<char>,
> {
    match log_file {
        Some(path) => Some(path@),
        None => match from_env {
            Some(path) => Some(path@),
            None => None,
        },
    }
}

/// The log file to use; none keeps logging disabled.
///
/// `--log-file` wins over the environment variable.
pub fn destination(log_file: Option<&str>, from_env: Option<&str>) -> (r: Option<String>)
    ensures
        text::optional(r) == destination_of(log_file, from_env),
{
    match log_file {
        Some(path) => Some(path.to_owned()),
        None => match from_env {
            Some(path) => Some(path.to_owned()),
            None => None,
        },
    }
}

/// The filter to log with: the level on the command line, else the usable one of the environment,
/// else quiet for dependencies and verbose for us.
pub fn filter(level: Option<&str>, from_env: Option<&str>) -> (r: String)
    ensures
        r@ == (match level {
            Some(level) => level@,
            None => match from_env {
                Some(filter) => filter@,
                None => "warn,kctx=debug"@,
            },
        }),
{
    match level {
        Some(level) => level.to_owned(),
        None => match from_env {
            Some(filter) => filter.to_owned(),
            None => "warn,kctx=debug".to_owned(),
        },
    }
}

/// Refuse a log destination that exists and is anything but a plain file.
///
/// Refusing symbolic links, fifos and device nodes keeps an inherited `$KCTX_LOG_FILE` from
/// appending somewhere it has no business appending. `regular_file` is `None` where nothing
/// exists yet, which is the ordinary case: the file is about to be created.
pub fn check_log_file(path: &str, regular_file: Option<bool>) -> (r: Result<(), String>)
    ensures
        match r {
            Ok(_) => regular_file != Some(false),
            Err(message) => regular_file == Some(false) && message@ == path@
                + " is not a regular file; refusing to log there"@,
        },
{
    match regular_file {
        Some(false) => {
            let mut message = path.to_owned();
            message.append(" is not a regular file; refusing to log there");
            Err(message)
        },
        _ => Ok(()),
    }
}

} // verus!
