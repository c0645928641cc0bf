//! Read-only Kubernetes access and the analysis built on top of it.
//!
//! Layering: [`client`] holds the timeouts of a connection, [`read`] what a capped list request
//! returns, [`inspection`] turns the answers of a cluster into a snapshot, and [`health`]
//! interprets resource objects. The requests themselves are made by the caller, which hands over
//! objects and failures as plain values.

pub mod client;
pub mod health;
pub mod inspection;
pub mod read;

use vstd::prelude::*;

use crate::text;
use crate::text::{contains, dedup, join, to_lowercase};
use crate::time;
use crate::time::Duration;

verus! {

/// How an attempt to reach a cluster ended.
#[derive(Debug, Clone, Copy, PartialEq, Eq, Structural)]
pub enum ConnectionState {
    /// A request is in flight.
    Connecting,
    /// The API server answered.
    Connected,
    /// The API server could not be reached.
    Unavailable,
    /// Credentials were rejected (HTTP 401) or could not be obtained.
    AuthenticationFailed,
    /// Credentials are valid but lack the necessary permissions (HTTP 403).
    PermissionDenied,
    /// The request did not complete within the timeout.
    TimedOut,
    /// The TLS handshake or certificate validation failed.
    TlsError,
    /// The API server answered with an unexpected error.
    ApiError,
}

impl ConnectionState {
    /// How the state is shown.
    pub open spec fn shown(self) -> Seq<char> {
        match self {
            ConnectionState::Connecting => "Connecting..."@,
            ConnectionState::Connected => "Connected"@,
            ConnectionState::Unavailable => "Unavailable"@,
            ConnectionState::AuthenticationFailed => "Authentication failed"@,
            ConnectionState::PermissionDenied => "Permission denied"@,
            ConnectionState::TimedOut => "Timed out"@,
            ConnectionState::TlsError => "TLS error"@,
            ConnectionState::ApiError => "API error"@,
        }
    }

    /// The state as text.
    pub fn to_string(&self) -> (r: String)
        ensures
            r@ == self.shown(),
    {
        match self {
            ConnectionState::Connecting => "Connecting...".to_owned(),
            ConnectionState::Connected => "Connected".to_owned(),
            ConnectionState::Unavailable => "Unavailable".to_owned(),
            ConnectionState::AuthenticationFailed => "Authentication failed".to_owned(),
            ConnectionState::PermissionDenied => "Permission denied".to_owned(),
            ConnectionState::TimedOut => "Timed out".to_owned(),
            ConnectionState::TlsError => "TLS error".to_owned(),
            ConnectionState::ApiError => "API error".to_owned(),
        }
    }
}

/// Why a read against a cluster failed.
///
/// Messages are built from our own classification plus the server's own error text; kctx never
/// forwards credential material, exec-plugin output or raw response bodies into them.
#[derive(Debug, PartialEq, Eq)]
pub enum InspectError {
    /// The context's kubeconfig could not be turned into a client configuration.
    Config(String),
    /// The API server could not be reached.
    Unavailable(String),
    /// Credentials were rejected or could not be obtained.
    AuthenticationFailed,
    /// The credentials lack permission for this read.
    PermissionDenied(String),
    /// The request outlived its timeout. An empty span means the transport reported the timeout
    /// itself, so no budget can be quoted.
    TimedOut(Duration),
    /// TLS handshake or certificate validation failure.
    Tls(String),
    /// Anything else the API server reported.
    Api(String),
}

impl Clone for InspectError {
    fn clone(&self) -> (r: Self)
        ensures
            r == *self,
    {
        match self {
            InspectError::Config(message) => InspectError::Config(message.clone()),
            InspectError::Unavailable(message) => InspectError::Unavailable(message.clone()),
            InspectError::AuthenticationFailed => InspectError::AuthenticationFailed,
            InspectError::PermissionDenied(message) => InspectError::PermissionDenied(
                message.clone(),
            ),
            InspectError::TimedOut(budget) => InspectError::TimedOut(*budget),
            InspectError::Tls(message) => InspectError::Tls(message.clone()),
            InspectError::Api(message) => InspectError::Api(message.clone()),
        }
    }
}

/// A timeout worded with its budget, where one is known.
pub open spec fn timeout_shown(timeout: Duration) -> Seq<char> {
    if timeout@ == 0 {
        "timed out"@
    } else {
        timeout_after(time::seconds_written(timeout.whole(), timeout.beyond()))
    }
}

/// A timeout worded with its budget in seconds.
pub open spec fn timeout_after(seconds: Seq<char>) -> Seq<char> {
    "timed out after "@ + seconds + "s"@
}

/// Word a timeout whose budget in seconds is already written out.
pub fn timeout_text(seconds: &str) -> (r: String)
    ensures
        r@ == timeout_after(seconds@),
{
    let mut out = "timed out after ".to_owned();
    out.append(seconds);
    out.append("s");
    out
}

/// Word a timeout with its budget when one is known.
pub fn timeout_message(timeout: Duration) -> (r: String)
    ensures
        r@ == timeout_shown(timeout),
{
    if timeout.is_zero() {
        "timed out".to_owned()
    } else {
        timeout_text(timeout.seconds().as_str())
    }
}

impl InspectError {
    /// The connection state this failure implies.
    pub open spec fn implied(self) -> ConnectionState {
        match self {
            InspectError::Config(_) => ConnectionState::Unavailable,
            InspectError::Unavailable(_) => ConnectionState::Unavailable,
            InspectError::AuthenticationFailed => ConnectionState::AuthenticationFailed,
            InspectError::PermissionDenied(_) => ConnectionState::PermissionDenied,
            InspectError::TimedOut(_) => ConnectionState::TimedOut,
            InspectError::Tls(_) => ConnectionState::TlsError,
            InspectError::Api(_) => ConnectionState::ApiError,
        }
    }

    /// The connection state this failure implies.
    pub fn state(&self) -> (r: ConnectionState)
        ensures
            r == self.implied(),
    {
        match self {
            InspectError::Config(_) => ConnectionState::Unavailable,
            InspectError::Unavailable(_) => ConnectionState::Unavailable,
            InspectError::AuthenticationFailed => ConnectionState::AuthenticationFailed,
            InspectError::PermissionDenied(_) => ConnectionState::PermissionDenied,
            InspectError::TimedOut(_) => ConnectionState::TimedOut,
            InspectError::Tls(_) => ConnectionState::TlsError,
            InspectError::Api(_) => ConnectionState::ApiError,
        }
    }

    /// True when the failure is specifically a permissions problem, which inspection degrades
    /// around instead of giving up.
    pub fn is_permission_denied(&self) -> (r: bool)
        ensures
            r == (self is PermissionDenied),
    {
        match self {
            InspectError::PermissionDenied(_) => true,
            _ => false,
        }
    }

    /// How the failure is reported.
    pub open spec fn shown(self) -> Seq<char> {
        match self {
            InspectError::Config(message) => "kubeconfig is not usable for this context: "@
                + message@,
            InspectError::Unavailable(message) => "cluster is unreachable: "@ + message@,
            InspectError::AuthenticationFailed => "authentication failed"@,
            InspectError::PermissionDenied(message) => "permission denied: "@ + message@,
            InspectError::TimedOut(budget) => timeout_shown(budget),
            InspectError::Tls(message) => "TLS error: "@ + message@,
            InspectError::Api(message) => "Kubernetes API error: "@ + message@,
        }
    }

    /// The failure as text.
    pub fn to_string(&self) -> (r: String)
        ensures
            r@ == self.shown(),
    {
        match self {
            InspectError::Config(message) => labelled(
                "kubeconfig is not usable for this context: ",
                message,
            ),
            InspectError::Unavailable(message) => labelled("cluster is unreachable: ", message),
            InspectError::AuthenticationFailed => "authentication failed".to_owned(),
            InspectError::PermissionDenied(message) => labelled("permission denied: ", message),
            InspectError::TimedOut(budget) => timeout_message(*budget),
            InspectError::Tls(message) => labelled("TLS error: ", message),
            InspectError::Api(message) => labelled("Kubernetes API error: ", message),
        }
    }
}

fn labelled(label: &str, message: &String) -> (r: String)
    ensures
        r@ == label@ + message@,
{
    let mut out = label.to_owned();
    out.append(message.as_str());
    out
}

/// How a request to a cluster failed, as the client reports it.
#[derive(Debug)]
pub enum Failure {
    /// The API server answered with a status other than success.
    Api {
        /// HTTP status code.
        code: u16,
        /// The server's message.
        message: String,
        /// The server's machine-readable reason.
        reason: String,
    },
    /// Credentials could not be obtained.
    Auth,
    /// TLS could not be set up, with the reason.
    Tls(String),
    /// No usable configuration, with the reason.
    Config(String),
    /// Anything else: the message of the error and of each of its causes, outermost first.
    Other(Vec<String>),
}

/// The server's message, else its machine-readable reason.
pub open spec fn described(message: Seq<char>, reason: Seq<char>) -> Seq<char> {
    if message.len() > 0 {
        message
    } else if reason.len() > 0 {
        reason
    } else {
        "no detail provided"@
    }
}

/// Prefer the server's message, fall back to its machine-readable reason.
pub fn describe(message: &str, reason: &str) -> (r: String)
    ensures
        r@ == described(message@, reason@),
{
    if !message.is_empty() {
        message.to_owned()
    } else if !reason.is_empty() {
        reason.to_owned()
    } else {
        "no detail provided".to_owned()
    }
}

/// An error and its causes in one line, each repeated message once.
pub open spec fn chained(parts: Seq<Seq<char>>) -> Seq<char> {
    text::joined(text::squeezed(parts), ": "@)
}

/// Flatten the messages of an error and its causes into one line.
pub fn error_chain(parts: &Vec<String>) -> (r: String)
    ensures
        r@ == chained(text::texts(parts@)),
{
    join(&dedup(parts), ": ")
}

/// Whether a lowercase message speaks of a timeout.
pub open spec fn timeout_words(message: Seq<char>) -> bool {
    ||| text::occurs(message, "timed out"@)
    ||| text::occurs(message, "timeout"@)
    ||| text::occurs(message, "deadline has elapsed"@)
}

/// Whether a lowercase message speaks of certificates or the handshake.
pub open spec fn tls_words(message: Seq<char>) -> bool {
    ||| text::occurs(message, "certificate"@)
    ||| text::occurs(message, "tls handshake"@)
    ||| text::occurs(message, "handshake failure"@)
    ||| text::occurs(message, "unknownissuer"@)
    ||| text::occurs(message, "invalid peer"@)
}

fn has_timeout_words(lowered: &str) -> (r: bool)
    ensures
        r == timeout_words(lowered@),
{
    contains(lowered, "timed out") || contains(lowered, "timeout") || contains(
        lowered,
        "deadline has elapsed",
    )
}

fn has_tls_words(lowered: &str) -> (r: bool)
    ensures
        r == tls_words(lowered@),
{
    contains(lowered, "certificate") || contains(lowered, "tls handshake") || contains(
        lowered,
        "handshake failure",
    ) || contains(lowered, "unknownissuer") || contains(lowered, "invalid peer")
}

/// Whether a message speaks of a timeout, in whatever case. Connect/read timeouts arrive as I/O
/// errors from the hyper stack rather than as failures of their own kind.
pub fn looks_like_timeout(message: &str) -> (r: bool)
    ensures
        r == timeout_words(text::lowered(message@)),
{
    has_timeout_words(to_lowercase(message).as_str())
}

/// Whether a message speaks of certificates or the handshake, in whatever case. Such failures
/// surface through the connector as opaque service errors.
pub fn looks_like_tls(message: &str) -> (r: bool)
    ensures
        r == tls_words(text::lowered(message@)),
{
    has_tls_words(to_lowercase(message).as_str())
}

/// Whether an error is what a message of a transport failure amounts to, given the message in
/// lower case.
pub open spec fn judged(chain: Seq<char>, lowered: Seq<char>, error: InspectError) -> bool {
    if timeout_words(lowered) {
        error matches InspectError::TimedOut(budget) && budget@ == 0
    } else if tls_words(lowered) {
        error matches InspectError::Tls(message) && message@ == chain
    } else {
        error matches InspectError::Unavailable(message) && message@ == chain
    }
}

/// Judge a transport failure by its message, given the message in lower case as well.
pub fn judge(chain: String, lowered: &str) -> (r: InspectError)
    ensures
        judged(chain@, lowered@, r),
{
    if has_timeout_words(lowered) {
        // The transport reported the timeout itself, so no budget is known.
        InspectError::TimedOut(Duration::zero())
    } else if has_tls_words(lowered) {
        InspectError::Tls(chain)
    } else {
        InspectError::Unavailable(chain)
    }
}

/// Whether an error is what a failure amounts to.
pub open spec fn classified(failure: Failure, error: InspectError) -> bool {
    match failure {
        Failure::Api { code, message, reason } => if code == 401 {
            error is AuthenticationFailed
        } else if code == 403 {
            error matches InspectError::PermissionDenied(shown) && shown@ == described(
                message@,
                reason@,
            )
        } else {
            error matches InspectError::Api(shown) && shown@ == described(message@, reason@)
        },
        Failure::Auth => error is AuthenticationFailed,
        Failure::Tls(source) => error matches InspectError::Tls(shown) && shown == source,
        Failure::Config(source) => error matches InspectError::Config(shown) && shown == source,
        Failure::Other(parts) => judged(
            chained(text::texts(parts@)),
            text::lowered(chained(text::texts(parts@))),
            error,
        ),
    }
}

/// Map a failed request onto [`InspectError`].
///
/// HTTP status codes are authoritative where present; otherwise the error chain is inspected
/// for timeout and TLS signals, since those surface through the transport stack rather than as
/// failures of their own kind.
pub fn classify(failure: &Failure) -> (r: InspectError)
    ensures
        classified(*failure, r),
{
    match failure {
        Failure::Api { code, message, reason } => {
            if *code == 401 {
                InspectError::AuthenticationFailed
            } else if *code == 403 {
                InspectError::PermissionDenied(describe(message.as_str(), reason.as_str()))
            } else {
                InspectError::Api(describe(message.as_str(), reason.as_str()))
            }
        },
        // Credential acquisition failed (bad token file, failing exec plugin, ...). The source
        // text can quote plugin output, so it is deliberately not included.
        Failure::Auth => InspectError::AuthenticationFailed,
        Failure::Tls(source) => InspectError::Tls(source.clone()),
        Failure::Config(source) => InspectError::Config(source.clone()),
        Failure::Other(parts) => {
            let chain = error_chain(parts);
            let lowered = to_lowercase(chain.as_str());
            judge(chain, lowered.as_str())
        },
    }
}

/// A failure to obtain credentials is reported without a word of its own: whatever a plugin
/// printed, the report is the same.
pub proof fn lemma_auth_failures_say_nothing(error: InspectError)
    requires
        classified(Failure::Auth, error),
    ensures
        error.shown() == "authentication failed"@,
        error.implied() == ConnectionState::AuthenticationFailed,
{
}

/// Only the status codes for refused permission count as a permissions problem: no failure but an
/// answer with code 403 does, and each such answer does.
pub proof fn lemma_denied_iff_forbidden(failure: Failure, error: InspectError)
    requires
        classified(failure, error),
    ensures
        error is PermissionDenied <==> (failure matches Failure::Api { code, .. } && code == 403),
{
}

} // verus!
