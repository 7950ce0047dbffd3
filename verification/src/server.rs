//! The lifecycle core of the forwarding server.
//!
//! The server proper owns a listening socket, an accept loop and one relay
//! task per accepted connection; none of that lives here. This module holds
//! what the loop decides with: the tri-state lifecycle, the count of relay
//! tasks in flight, and the configuration each relay task gets a copy of.
//! The caller drives the machine — it binds, accepts and joins — and calls
//! one transition method at each step, broadcasting the state's code to its
//! observers after every transition.

use vstd::prelude::*;

use crate::auth::{AuthView, Authentication};
use crate::target_addr::{SocketAddress, TargetAddr, TargetAddrView};

verus! {

/// The server's lifecycle state. A server starts out Stopped, is Started
/// while its accept loop runs, and is Stopping from the moment the stop
/// signal fires until the last relay task has been joined.
#[derive(Clone, Copy, PartialEq, Eq, Structural, Debug)]
pub enum ForwardServerState {
    Started,
    Stopping,
    Stopped,
}

impl ForwardServerState {
    /// The value broadcast to observers for this state.
    pub open spec fn spec_code(self) -> u8 {
        match self {
            ForwardServerState::Stopped => 0,
            ForwardServerState::Started => 1,
            ForwardServerState::Stopping => 2,
        }
    }

    /// The value broadcast to observers on each transition into this state.
    pub fn code(&self) -> (r: u8)
        ensures
            r == self.spec_code(),
    {
        match self {
            ForwardServerState::Stopped => 0,
            ForwardServerState::Started => 1,
            ForwardServerState::Stopping => 2,
        }
    }
}

/// Immutable configuration of a forwarding server: where to listen, which
/// proxy to relay through and with which credentials, and the target the
/// proxy is asked to connect to.
pub struct ForwardServerConfig {
    pub bind_addr: SocketAddress,
    pub proxy: TargetAddr,
    pub proxy_auth: Authentication,
    pub target: TargetAddr,
}

/// Ghost model of a configuration.
pub struct ConfigView {
    pub bind_addr: SocketAddress,
    pub proxy: TargetAddrView,
    pub proxy_auth: AuthView,
    pub target: TargetAddrView,
}

impl View for ForwardServerConfig {
    type V = ConfigView;

    open spec fn view(&self) -> ConfigView {
        ConfigView {
            bind_addr: self.bind_addr,
            proxy: self.proxy@,
            proxy_auth: self.proxy_auth@,
            target: self.target@,
        }
    }
}

/// Ghost model of the server: its lifecycle state, how many relay tasks are
/// in flight, and its configuration.
pub struct ServerView {
    pub state: ForwardServerState,
    pub tasks: nat,
    pub config: ConfigView,
}

/// What a start request does: a Stopped server proceeds to Started, any
/// other state is left untouched and the request is a no-op.
pub open spec fn spec_start_requested(v: ServerView) -> (ServerView, bool) {
    if v.state is Stopped {
        (ServerView { state: ForwardServerState::Started, ..v }, true)
    } else {
        (v, false)
    }
}

/// What accepting a connection does: one more relay task is in flight.
pub open spec fn spec_connection_accepted(v: ServerView) -> ServerView {
    ServerView { tasks: v.tasks + 1, ..v }
}

/// What the stop signal (or a fatal accept error) does: the accept loop is
/// left and the server is Stopping until its tasks are joined.
pub open spec fn spec_stop_requested(v: ServerView) -> ServerView {
    ServerView { state: ForwardServerState::Stopping, ..v }
}

/// What joining every relay task does: the task set is empty and the server
/// is Stopped.
pub open spec fn spec_tasks_drained(v: ServerView) -> ServerView {
    ServerView { state: ForwardServerState::Stopped, tasks: 0, ..v }
}

/// The lifecycle core of the forwarding server. The task count mirrors the
/// set of join handles the caller holds: a Stopped server has none.
pub struct ForwardServer {
    state: ForwardServerState,
    tasks: usize,
    config: ForwardServerConfig,
}

impl View for ForwardServer {
    type V = ServerView;

    closed spec fn view(&self) -> ServerView {
        ServerView { state: self.state, tasks: self.tasks as nat, config: self.config@ }
    }
}

impl ForwardServer {
    /// The task set is empty exactly when the server is Stopped.
    pub open spec fn wf(self) -> bool {
        self@.state is Stopped ==> self@.tasks == 0
    }

    /// A new server: Stopped, no relay task, the given configuration.
    pub fn new(config: ForwardServerConfig) -> (r: ForwardServer)
        ensures
            r@.state is Stopped,
            r@.tasks == 0,
            r@.config == config@,
            r.wf(),
    {
        ForwardServer { state: ForwardServerState::Stopped, tasks: 0, config }
    }

    /// Instantaneous read of the lifecycle state.
    pub fn query_state(&self) -> (r: ForwardServerState)
        ensures
            r == self@.state,
    {
        self.state
    }

    /// The address the accept loop must bind.
    pub fn bind_addr(&self) -> (r: SocketAddress)
        ensures
            r == self@.config.bind_addr,
    {
        self.config.bind_addr
    }

    /// A start request. Only a Stopped server proceeds (and must then bind
    /// and run the accept loop); in any other state this is a no-op and no
    /// second listener may be opened.
    pub fn start_requested(&mut self) -> (proceed: bool)
        requires
            old(self).wf(),
        ensures
            final(self)@ == spec_start_requested(old(self)@).0,
            proceed == spec_start_requested(old(self)@).1,
            final(self).wf(),
    {
        match self.state {
            ForwardServerState::Stopped => {
                self.state = ForwardServerState::Started;
                true
            },
            _ => false,
        }
    }

    /// A connection was accepted: one relay task more is in flight, and the
    /// task gets its own copies of the proxy address, the credentials and
    /// the target to hand to the handshake.
    pub fn connection_accepted(&mut self) -> (plan: (TargetAddr, Authentication, TargetAddr))
        requires
            old(self)@.state is Started,
            old(self)@.tasks < usize::MAX,
        ensures
            final(self)@ == spec_connection_accepted(old(self)@),
            final(self).wf(),
            plan.0@ == old(self)@.config.proxy,
            plan.1@ == old(self)@.config.proxy_auth,
            plan.2@ == old(self)@.config.target,
    {
        self.tasks = self.tasks + 1;
        (self.config.proxy.clone(), self.config.proxy_auth.clone(), self.config.target.clone())
    }

    /// The stop signal fired, or the accept call failed fatally: the accept
    /// loop is left and the server is Stopping until its tasks are joined.
    pub fn stop_requested(&mut self)
        requires
            old(self)@.state is Started,
        ensures
            final(self)@ == spec_stop_requested(old(self)@),
            final(self).wf(),
    {
        self.state = ForwardServerState::Stopping;
    }

    /// Every relay task has been joined and the handles dropped: the server
    /// settles at Stopped with an empty task set.
    pub fn tasks_drained(&mut self)
        requires
            !(old(self)@.state is Stopped),
        ensures
            final(self)@ == spec_tasks_drained(old(self)@),
            final(self).wf(),
    {
        self.tasks = 0;
        self.state = ForwardServerState::Stopped;
    }
}

/// Accepting `n` connections in a row.
pub open spec fn spec_accept_n(v: ServerView, n: nat) -> ServerView
    decreases n,
{
    if n == 0 {
        v
    } else {
        spec_connection_accepted(spec_accept_n(v, (n - 1) as nat))
    }
}

/// Accepting connections only grows the task count; the state and the
/// configuration stay as they are.
pub proof fn lemma_accept_n(v: ServerView, n: nat)
    ensures
        spec_accept_n(v, n).state == v.state,
        spec_accept_n(v, n).config == v.config,
        spec_accept_n(v, n).tasks == v.tasks + n,
    decreases n,
{
    if n > 0 {
        lemma_accept_n(v, (n - 1) as nat);
    }
}

/// Law: a start request in any state but Stopped changes nothing and does
/// not proceed — no second bind, no error.
pub proof fn lemma_start_is_noop_unless_stopped(v: ServerView)
    requires
        !(v.state is Stopped),
    ensures
        spec_start_requested(v) == (v, false),
{
}

/// Law: the lifecycle of one full run. Starting a Stopped server proceeds
/// and enters Started; accepting any number of connections keeps it
/// Started; the stop signal moves it through Stopping; and only once every
/// relay task is drained does it settle at Stopped, with no task left and
/// the configuration as it was.
pub proof fn lemma_lifecycle(v: ServerView, accepts: nat)
    requires
        v.state is Stopped,
    ensures
        ({
            let started = spec_start_requested(v).0;
            let running = spec_accept_n(started, accepts);
            let stopping = spec_stop_requested(running);
            let stopped = spec_tasks_drained(stopping);
            spec_start_requested(v).1 && started.state is Started && running.state is Started
                && running.tasks == v.tasks + accepts && stopping.state is Stopping
                && stopping.tasks == running.tasks && stopped.state is Stopped && stopped.tasks
                == 0 && stopped.config == v.config
        }),
{
    let started = spec_start_requested(v).0;
    lemma_accept_n(started, accepts);
}

} // verus!
