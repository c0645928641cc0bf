//! How a client is configured: which context of which file, and the timeouts imposed on it.

use vstd::prelude::*;

use crate::kubeconfig::ContextEntry;
use crate::time::{Duration, NANOS_PER_SEC};

verus! {

/// Timeouts applied to every cluster interaction.
#[derive(Debug, Clone, Copy, PartialEq, Eq, Structural)]
pub struct Timeouts {
    /// TCP + TLS connection establishment.
    pub connect: Duration,
    /// Waiting for a single response.
    pub request: Duration,
    /// Upper bound for a whole inspection, however many requests it makes.
    pub overall: Duration,
}

/// The smaller of two spans in nanoseconds.
pub open spec fn shorter(a: nat, b: nat) -> nat {
    if a <= b {
        a
    } else {
        b
    }
}

impl Default for Timeouts {
    fn default() -> (r: Self)
        ensures
            r.connect@ == 3 * NANOS_PER_SEC,
            r.request@ == 5 * NANOS_PER_SEC,
            r.overall@ == 8 * NANOS_PER_SEC,
    {
        Timeouts {
            connect: Duration::from_secs(3),
            request: Duration::from_secs(5),
            overall: Duration::from_secs(8),
        }
    }
}

impl Timeouts {
    /// Scale the defaults to an overall budget, keeping the per-request limits proportionate: no
    /// single step may take longer than the whole.
    pub fn with_overall(overall: Duration) -> (r: Self)
        ensures
            r.overall == overall,
            r.connect@ == shorter((3 * NANOS_PER_SEC) as nat, overall@),
            r.request@ == shorter((5 * NANOS_PER_SEC) as nat, overall@),
            r.connect@ <= r.overall@,
            r.request@ <= r.overall@,
    {
        let default = Timeouts::default();
        Timeouts {
            connect: default.connect.min(overall),
            request: default.request.min(overall),
            overall,
        }
    }
}

/// What a client is built from.
#[derive(Debug)]
pub struct ClientSetup {
    /// The kubeconfig to read. No other file is.
    pub source: String,
    /// The context of that file to use, whatever its own current context is.
    pub context: String,
    /// How long establishing a connection may take.
    pub connect_timeout: Duration,
    /// How long waiting for a response may take.
    pub read_timeout: Duration,
    /// How long sending a request may take.
    pub write_timeout: Duration,
    /// Whether transient failures are retried.
    pub retry: bool,
}

impl ClientSetup {
    /// How a client for `entry` is built: from the kubeconfig file that defines it.
    ///
    /// Only that one file is read, so a context is always resolved against the clusters and users
    /// it was written next to, independent of whatever else is on `$KUBECONFIG`. Retrying
    /// transient failures would multiply the time a broken cluster keeps the user waiting; the
    /// inspection reports the failure instead.
    pub fn new(entry: &ContextEntry, timeouts: Timeouts) -> (r: Self)
        ensures
            r.source@ == entry.source@,
            r.context@ == entry.name@,
            r.connect_timeout == timeouts.connect,
            r.read_timeout == timeouts.request,
            r.write_timeout == timeouts.request,
            !r.retry,
    {
        ClientSetup {
            source: entry.source.clone(),
            context: entry.name.clone(),
            connect_timeout: timeouts.connect,
            read_timeout: timeouts.request,
            write_timeout: timeouts.request,
            retry: false,
        }
    }
}

} // verus!
