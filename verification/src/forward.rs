//! A single port forward: what it is, where it came from and how it is doing.
use crate::key::{ForwardKey, KeyView};
use vstd::prelude::*;

verus! {

/// Local identifier of a forward. Each manager hands out its own.
#[derive(Clone, Copy, Debug, PartialEq, Eq, Hash, Structural)]
pub struct ForwardId(pub u64);

/// Where a forward originated from. Keeps panel-managed forwards apart from settings-managed
/// ones, so that a settings edit does not clobber manual entries.
#[derive(Clone, Copy, Debug, PartialEq, Eq, Structural)]
pub enum ForwardSource {
    Manual,
    Settings,
}

#[derive(Debug, PartialEq, Eq)]
pub enum ForwardState {
    /// Not yet known to be listening, or awaiting (re)connection.
    Pending,
    /// The forwarding process is running.
    Active,
    /// The forward failed to establish, for instance because its local port is in use.
    Failed(String),
}

/// How the connection to the remote host is doing.
#[derive(Clone, Copy, Debug, PartialEq, Eq, Structural)]
pub enum ConnectionState {
    Connecting,
    Connected,
    HeartbeatMissed,
    Reconnecting,
    Disconnected,
}

/// The state of a forward, with the message of a failure as plain characters.
#[verifier::ext_equal]
pub enum StateView {
    Pending,
    Active,
    Failed(Seq<char>),
}

impl View for ForwardState {
    type V = StateView;

    open spec fn view(&self) -> StateView {
        match self {
            ForwardState::Pending => StateView::Pending,
            ForwardState::Active => StateView::Active,
            ForwardState::Failed(message) => StateView::Failed(message@),
        }
    }
}

impl Clone for ForwardState {
    fn clone(&self) -> (r: Self)
        ensures
            r@ == self@,
    {
        match self {
            ForwardState::Pending => ForwardState::Pending,
            ForwardState::Active => ForwardState::Active,
            ForwardState::Failed(message) => ForwardState::Failed(message.clone()),
        }
    }
}

/// A single runtime port forward and the child process backing it.
pub struct ActiveForward<C> {
    pub id: ForwardId,
    pub local_host: String,
    pub local_port: u16,
    pub remote_host: String,
    pub remote_port: u16,
    pub source: ForwardSource,
    /// When `true`, a child process of this manager carries the forward. When `false`, the SSH
    /// control master itself carries it (a connect-time static forward), so it is only
    /// displayed and no child is ever spawned or killed for it.
    pub managed: bool,
    pub state: ForwardState,
    /// Dropping this kills the tunnel.
    pub child: Option<C>,
}

/// What a forward is.
#[verifier::ext_equal]
#[verifier::reject_recursive_types(C)]
pub struct ForwardView<C> {
    pub id: nat,
    pub key: KeyView,
    pub source: ForwardSource,
    pub managed: bool,
    pub state: StateView,
    pub child: Option<C>,
}

impl<C> View for ActiveForward<C> {
    type V = ForwardView<C>;

    open spec fn view(&self) -> ForwardView<C> {
        ForwardView {
            id: self.id.0 as nat,
            key: KeyView {
                local_host: self.local_host@,
                local_port: self.local_port,
                remote_host: self.remote_host@,
                remote_port: self.remote_port,
            },
            source: self.source,
            managed: self.managed,
            state: self.state@,
            child: self.child,
        }
    }
}

impl<C> ActiveForward<C> {
    /// The endpoints of the forward.
    pub fn key(&self) -> (key: ForwardKey)
        ensures
            key@ == self@.key,
            key.local_host@ == self.local_host@,
            key.local_port == self.local_port,
            key.remote_host@ == self.remote_host@,
            key.remote_port == self.remote_port,
    {
        ForwardKey {
            local_host: self.local_host.clone(),
            local_port: self.local_port,
            remote_host: self.remote_host.clone(),
            remote_port: self.remote_port,
        }
    }
}

/// A snapshot of a forward for display, without the child process.
#[derive(Debug)]
pub struct ForwardDisplay {
    pub id: ForwardId,
    pub local_host: String,
    pub local_port: u16,
    pub remote_host: String,
    pub remote_port: u16,
    pub source: ForwardSource,
    pub managed: bool,
    pub state: ForwardState,
}

/// What a snapshot of a forward shows.
#[verifier::ext_equal]
pub struct DisplayView {
    pub id: nat,
    pub key: KeyView,
    pub source: ForwardSource,
    pub managed: bool,
    pub state: StateView,
}

impl View for ForwardDisplay {
    type V = DisplayView;

    open spec fn view(&self) -> DisplayView {
        DisplayView {
            id: self.id.0 as nat,
            key: KeyView {
                local_host: self.local_host@,
                local_port: self.local_port,
                remote_host: self.remote_host@,
                remote_port: self.remote_port,
            },
            source: self.source,
            managed: self.managed,
            state: self.state@,
        }
    }
}

impl<C> ActiveForward<C> {
    /// A snapshot of the forward.
    pub fn display(&self) -> (r: ForwardDisplay)
        ensures
            r@ == self@.display(),
            r.id == self.id,
            r.local_host@ == self.local_host@,
            r.local_port == self.local_port,
            r.remote_host@ == self.remote_host@,
            r.remote_port == self.remote_port,
            r.source == self.source,
            r.managed == self.managed,
            r.state@ == self.state@,
    {
        ForwardDisplay {
            id: self.id,
            local_host: self.local_host.clone(),
            local_port: self.local_port,
            remote_host: self.remote_host.clone(),
            remote_port: self.remote_port,
            source: self.source,
            managed: self.managed,
            state: self.state.clone(),
        }
    }
}

impl<C> ForwardView<C> {
    /// The forward as a snapshot shows it.
    pub open spec fn display(self) -> DisplayView {
        DisplayView {
            id: self.id,
            key: self.key,
            source: self.source,
            managed: self.managed,
            state: self.state,
        }
    }
}

} // verus!
