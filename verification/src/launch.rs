//! Tunnel processes, and the steps that lead to one.
use crate::forward::{ForwardId, ForwardSource};
use crate::key::{ForwardKey, KeyView};
use crate::model::{RespawnView, TunnelView};
use crate::text;
use vstd::prelude::*;

verus! {

/// What a tunnel process (`ssh -N -L`) is to connect.
#[derive(Debug)]
pub struct Tunnel {
    pub local_port: u16,
    pub remote_host: String,
    pub remote_port: u16,
}

impl View for Tunnel {
    type V = TunnelView;

    open spec fn view(&self) -> TunnelView {
        TunnelView {
            local_port: self.local_port,
            remote_host: self.remote_host@,
            remote_port: self.remote_port,
        }
    }
}

impl Tunnel {
    /// The list of forwards from which the command line of the process is built. It has one
    /// entry, so that ending the process ends exactly this forward.
    pub fn command_forwards(&self) -> (r: Vec<(u16, String, u16)>)
        ensures
            r@.len() == 1,
            r@[0].0 == self.local_port,
            r@[0].1@ == self.remote_host@,
            r@[0].2 == self.remote_port,
    {
        vec![(self.local_port, self.remote_host.clone(), self.remote_port)]
    }
}

impl ForwardKey {
    /// The tunnel that carries a forward with these endpoints.
    pub fn tunnel(&self) -> (r: Tunnel)
        ensures
            r@ == self@.tunnel(),
            r.local_port == self.local_port,
            r.remote_host@ == self.remote_host@,
            r.remote_port == self.remote_port,
    {
        Tunnel {
            local_port: self.local_port,
            remote_host: self.remote_host.clone(),
            remote_port: self.remote_port,
        }
    }
}

/// A forward that needs a new tunnel process.
#[derive(Debug)]
pub struct Respawn {
    pub id: ForwardId,
    pub tunnel: Tunnel,
}

impl View for Respawn {
    type V = RespawnView;

    open spec fn view(&self) -> RespawnView {
        RespawnView { id: self.id.0 as nat, tunnel: self.tunnel@ }
    }
}

/// The needed tunnel processes, as plain values.
pub open spec fn respawn_views(respawns: Seq<Respawn>) -> Seq<RespawnView> {
    respawns.map_values(|r: Respawn| r@)
}

/// A forward on its way to being added.
///
/// `next_action` says what has to be done for it. Once that is a spawn, the outcome of the spawn
/// goes to `ForwardManager::add_forward` together with the launch.
#[derive(Debug)]
pub struct ForwardLaunch {
    local_port: Option<u16>,
    local_host: String,
    remote_host: String,
    remote_port: u16,
    source: ForwardSource,
}

/// What has to be done next for a launch.
#[derive(Debug)]
pub enum LaunchAction {
    /// Find a free local port.
    AllocatePort,
    /// Spawn the process for this tunnel.
    Spawn(Tunnel),
}

/// A launch, as plain values. The local port is missing until one is allocated.
#[verifier::ext_equal]
pub struct LaunchView {
    pub local_port: Option<u16>,
    pub local_host: Seq<char>,
    pub remote_host: Seq<char>,
    pub remote_port: u16,
    pub source: ForwardSource,
}

impl View for ForwardLaunch {
    type V = LaunchView;

    closed spec fn view(&self) -> LaunchView {
        LaunchView {
            local_port: self.local_port,
            local_host: self.local_host@,
            remote_host: self.remote_host@,
            remote_port: self.remote_port,
            source: self.source,
        }
    }
}

impl LaunchView {
    /// The launch of a forward whose requested local port is `local_port`, where 0 stands for
    /// any free port.
    pub open spec fn requested(
        local_port: u16,
        local_host: Seq<char>,
        remote_host: Seq<char>,
        remote_port: u16,
        source: ForwardSource,
    ) -> Self {
        LaunchView {
            local_port: if local_port == 0 {
                None
            } else {
                Some(local_port)
            },
            local_host,
            remote_host,
            remote_port,
            source,
        }
    }

    /// The launch of a forward to a detected port: from the same local port if that is free.
    pub open spec fn detected(remote_port: u16, local_port_free: bool) -> Self {
        Self::requested(
            if local_port_free {
                remote_port
            } else {
                0
            },
            "127.0.0.1"@,
            "localhost"@,
            remote_port,
            ForwardSource::Manual,
        )
    }

    /// The endpoints of the forward, once its local port is known.
    pub open spec fn key(self) -> KeyView {
        KeyView {
            local_host: self.local_host,
            local_port: self.local_port->0,
            remote_host: self.remote_host,
            remote_port: self.remote_port,
        }
    }
}

/// What a launch is, is all that it holds.
proof fn lemma_view_is_faithful(launch: ForwardLaunch)
    ensures
        launch@.local_port == launch.local_port,
        launch@.local_host == launch.local_host@,
        launch@.remote_host == launch.remote_host@,
        launch@.remote_port == launch.remote_port,
        launch@.source == launch.source,
{
}

impl ForwardLaunch {
    /// Starts the launch of a forward. A `local_port` of 0 means "allocate a free local port".
    pub fn new(
        local_port: u16,
        local_host: String,
        remote_host: String,
        remote_port: u16,
        source: ForwardSource,
    ) -> (r: Self)
        ensures
            r@ == LaunchView::requested(
                local_port,
                local_host@,
                remote_host@,
                remote_port,
                source,
            ),
            r@.local_port == (if local_port == 0 {
                None
            } else {
                Some(local_port)
            }),
            r@.local_host == local_host@,
            r@.remote_host == remote_host@,
            r@.remote_port == remote_port,
            r@.source == source,
    {
        let local_port = if local_port == 0 {
            None
        } else {
            Some(local_port)
        };
        ForwardLaunch { local_port, local_host, remote_host, remote_port, source }
    }

    /// What has to be done next.
    pub fn next_action(&self) -> (r: LaunchAction)
        ensures
            match r {
                LaunchAction::AllocatePort => self@.local_port is None,
                LaunchAction::Spawn(tunnel) => {
                    &&& self@.local_port == Some(tunnel.local_port)
                    &&& tunnel.remote_host@ == self@.remote_host
                    &&& tunnel.remote_port == self@.remote_port
                    &&& tunnel@ == self@.key().tunnel()
                },
            },
    {
        match self.local_port {
            None => LaunchAction::AllocatePort,
            Some(local_port) => LaunchAction::Spawn(
                Tunnel {
                    local_port,
                    remote_host: self.remote_host.clone(),
                    remote_port: self.remote_port,
                },
            ),
        }
    }

    /// Takes the outcome of the allocation of a local port. If there is no port, there is no
    /// launch any more.
    pub fn port_allocated<E>(self, allocated: Result<u16, E>) -> (r: Result<Self, E>)
        ensures
            match allocated {
                Ok(port) => r is Ok && r->Ok_0@ == (LaunchView { local_port: Some(port), ..self@ }),
                Err(error) => r is Err && r->Err_0 == error,
            },
    {
        match allocated {
            Ok(port) => Ok(
                ForwardLaunch {
                    local_port: Some(port),
                    local_host: self.local_host,
                    remote_host: self.remote_host,
                    remote_port: self.remote_port,
                    source: self.source,
                },
            ),
            Err(error) => Err(error),
        }
    }

    /// The endpoints of the forward and where it comes from.
    pub(crate) fn into_key(self) -> (r: (ForwardKey, ForwardSource))
        requires
            self@.local_port is Some,
        ensures
            r.0@ == self@.key(),
            r.1 == self@.source,
    {
        (
            ForwardKey {
                local_host: self.local_host,
                local_port: self.local_port.unwrap(),
                remote_host: self.remote_host,
                remote_port: self.remote_port,
            },
            self.source,
        )
    }
}

/// A line that a tunnel process printed tells that it could not bind its local port.
pub open spec fn tells_bind_failure(line: Seq<char>) -> bool {
    let low = text::lowered(line);
    ||| text::has_substring(low, "address already in use"@)
    ||| text::has_substring(low, "cannot listen to port"@)
    ||| text::has_substring(low, "bind:"@)
    ||| text::has_substring(low, "permission denied"@)
}

/// Whether a line that a tunnel process printed tells that it could not bind its local port.
pub fn is_bind_failure(line: &str) -> (b: bool)
    ensures
        b == tells_bind_failure(line@),
{
    let low = text::lower_chars(line);
    text::contains_text(&low, "address already in use") || text::contains_text(
        &low,
        "cannot listen to port",
    ) || text::contains_text(&low, "bind:") || text::contains_text(&low, "permission denied")
}

} // verus!
