//! Startup configuration and listener tuning rules.
//!
//! The relay reads its upstream endpoint once at process start; a missing
//! value is a fatal startup error. The listener is bound with a fixed set
//! of concurrency-friendly socket options; only the reuse-port option is
//! best-effort, every other socket step is mandatory.

use vstd::prelude::*;

verus! {

/// Backlog requested when marking the server socket listening.
pub const LISTEN_BACKLOG: u32 = 1024;

/// Socket and HTTP-layer options the listener must be built with.
pub struct ListenerSettings {
    /// TCP port the listener binds.
    pub port: u16,
    /// Maximum number of pending, not-yet-accepted connections.
    pub backlog: u32,
    /// Allow several independent listeners to share the port (best effort).
    pub reuse_port: bool,
    /// Allow rebinding the address promptly (mandatory).
    pub reuse_addr: bool,
    /// Disable Nagle's algorithm on accepted connections.
    pub tcp_nodelay: bool,
    /// Serve HTTP/1.1 framing only, no upgrade negotiation.
    pub http1_only: bool,
    /// Flush pipelined responses as soon as they are ready.
    pub pipeline_flush: bool,
}

/// The one listener configuration the relay ever uses for a given port.
pub open spec fn listener_settings_spec(port: u16) -> ListenerSettings {
    ListenerSettings {
        port: port,
        backlog: LISTEN_BACKLOG,
        reuse_port: true,
        reuse_addr: true,
        tcp_nodelay: true,
        http1_only: true,
        pipeline_flush: true,
    }
}

/// Builds the listener configuration for `port`.
pub fn listener_settings(port: u16) -> (r: ListenerSettings)
    ensures
        r == listener_settings_spec(port),
{
    ListenerSettings {
        port: port,
        backlog: LISTEN_BACKLOG,
        reuse_port: true,
        reuse_addr: true,
        tcp_nodelay: true,
        http1_only: true,
        pipeline_flush: true,
    }
}

/// One step of preparing the server socket.
pub enum SocketStep {
    SetReusePort,
    SetReuseAddr,
    Bind,
    Listen,
}

/// Whether failure of a socket step must abort startup. Only the
/// reuse-port option is best effort.
pub open spec fn step_fatal_spec(step: SocketStep) -> bool {
    match step {
        SocketStep::SetReusePort => false,
        SocketStep::SetReuseAddr => true,
        SocketStep::Bind => true,
        SocketStep::Listen => true,
    }
}

/// Decides whether a failed socket step aborts startup.
pub fn step_is_fatal(step: &SocketStep) -> (r: bool)
    ensures
        r == step_fatal_spec(*step),
{
    match step {
        SocketStep::SetReusePort => false,
        SocketStep::SetReuseAddr => true,
        SocketStep::Bind => true,
        SocketStep::Listen => true,
    }
}

/// Why the process refused to start.
#[derive(Debug)]
pub enum StartupError {
    /// The upstream endpoint environment value was absent.
    MissingExternalUrl,
}

impl StartupError {
    /// Message naming the missing resource, for the fatal startup report.
    pub fn text(&self) -> (r: &'static str)
        ensures
            r@ == startup_error_text_spec(*self),
    {
        match self {
            StartupError::MissingExternalUrl => "Set EXTERNAL_URL env variable",
        }
    }
}

/// The fatal startup message for each startup error.
pub open spec fn startup_error_text_spec(e: StartupError) -> Seq<char> {
    match e {
        StartupError::MissingExternalUrl => "Set EXTERNAL_URL env variable"@,
    }
}

/// Process-wide relay configuration: the single immutable upstream
/// endpoint and the listener options.
pub struct RelayConfig {
    /// Absolute URL of the upstream the proxy route calls.
    pub external_url: String,
    /// How the inbound listener is to be bound and tuned.
    pub listener: ListenerSettings,
}

/// What startup decides from the optional upstream endpoint value and the
/// chosen port: refuse to serve exactly when the endpoint is absent.
pub open spec fn startup_config_spec(url: Option<Seq<char>>, port: u16) -> Result<
    ListenerSettings,
    StartupError,
> {
    match url {
        Option::Some(_) => Result::Ok(listener_settings_spec(port)),
        Option::None => Result::Err(StartupError::MissingExternalUrl),
    }
}

/// Validates the upstream endpoint read at process start and fixes the
/// listener configuration. Returns an error, and therefore no
/// configuration to bind with, exactly when the endpoint is absent.
pub fn startup_config(url: Option<String>, port: u16) -> (r: Result<RelayConfig, StartupError>)
    ensures
        match url {
            Option::Some(u) => r matches Ok(c) && c.external_url@ == u@ && c.listener
                == listener_settings_spec(port),
            Option::None => r matches Err(e) && e == StartupError::MissingExternalUrl,
        },
{
    match url {
        Option::Some(u) => Result::Ok(
            RelayConfig { external_url: u, listener: listener_settings(port) },
        ),
        Option::None => Result::Err(StartupError::MissingExternalUrl),
    }
}

/// An absent upstream endpoint always refuses startup: no listener
/// configuration is ever produced for it, whatever the port.
pub proof fn lemma_unset_url_refuses_startup(port: u16)
    ensures
        startup_config_spec(Option::None, port) is Err,
{
}

} // verus!
