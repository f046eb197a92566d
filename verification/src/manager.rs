//! The manager of the forwards of one remote connection.
use crate::detect::{DetectedRow, ListeningPort, PortView};
use crate::forward::{
    ActiveForward, ConnectionState, DisplayView, ForwardDisplay, ForwardId, ForwardSource,
    ForwardState, ForwardView, StateView,
};
use crate::key::{compute_forward_diff, ForwardKey, KeySet, KeyView, SshPortForwardOption};
use crate::launch::{is_bind_failure, ForwardLaunch, LaunchView, Respawn};
use crate::effects;
use crate::laws;
use crate::model::{ManagerView, RespawnView};
use crate::seqs;
use crate::settings::RemoteConnectionOptions;
use std::collections::HashSet;
use vstd::prelude::*;

verus! {

broadcast use vstd::std_specs::hash::group_hash_axioms;

/// Owns the set of runtime forwards for a single remote connection and keeps them in sync with
/// the connection's lifecycle.
///
/// `C` is the handle of a tunnel process: as long as the manager holds it the process lives, and
/// dropping it ends the process. The manager never starts a process itself. Its operations say
/// which tunnels are needed, and take the outcome of starting one.
pub struct ForwardManager<C> {
    forwards: Vec<ActiveForward<C>>,
    next_id: u64,
    connection_state: ConnectionState,
    /// Remote listening ports last reported by the remote server.
    detected: Vec<ListeningPort>,
    /// Remote ports that were auto-forwarded already, so that they are not retried forever.
    auto_forwarded: HashSet<u16>,
    polling: bool,
}

/// What a change of the connection led to.
pub struct ConnectionChange {
    /// The connection is in another state than before.
    pub changed: bool,
    /// The tunnels that have to be spawned again.
    pub respawns: Vec<Respawn>,
}

/// What reconciling with settings led to.
pub struct Reconciliation {
    /// The forwards that have to be launched.
    pub to_add: Vec<ForwardKey>,
    /// Forwards were removed.
    pub changed: bool,
}

/// What switching polling on or off led to.
pub struct PollingChange {
    /// Polling has to be started.
    pub start: bool,
    /// Detected ports were forgotten.
    pub cleared: bool,
}

/// The forwards, as plain values.
pub open spec fn forward_views<C>(forwards: Seq<ActiveForward<C>>) -> Seq<ForwardView<C>> {
    forwards.map_values(|f: ActiveForward<C>| f@)
}

/// The snapshots, as plain values.
pub open spec fn display_views(rows: Seq<ForwardDisplay>) -> Seq<DisplayView> {
    rows.map_values(|r: ForwardDisplay| r@)
}

impl<C> View for ForwardManager<C> {
    type V = ManagerView<C>;

    closed spec fn view(&self) -> ManagerView<C> {
        ManagerView {
            forwards: forward_views(self.forwards@),
            next_id: self.next_id as nat,
            connection: self.connection_state,
            detected: crate::detect::port_views(self.detected@),
            auto_forwarded: self.auto_forwarded@,
            polling: self.polling,
        }
    }
}

/// The endpoints of the forwards that were to be launched.
pub open spec fn launch_keys<C, E>(outcomes: Seq<(ForwardKey, Result<C, E>)>) -> Seq<KeyView> {
    outcomes.map_values(|o: (ForwardKey, Result<C, E>)| o.0@)
}

/// The children that launches led to.
pub open spec fn launch_children<C, E>(outcomes: Seq<(ForwardKey, Result<C, E>)>) -> Seq<
    Option<C>,
> {
    outcomes.map_values(
        |o: (ForwardKey, Result<C, E>)|
            match o.1 {
                Ok(child) => Some(child),
                Err(_) => None,
            },
    )
}

/// The tunnels that were to be respawned.
pub open spec fn outcome_respawns<C>(outcomes: Seq<(Respawn, Result<C, String>)>) -> Seq<
    RespawnView,
> {
    outcomes.map_values(|o: (Respawn, Result<C, String>)| o.0@)
}

/// The children, or the messages of failures, that respawns led to.
pub open spec fn outcome_children<C>(outcomes: Seq<(Respawn, Result<C, String>)>) -> Seq<
    Result<C, Seq<char>>,
> {
    outcomes.map_values(
        |o: (Respawn, Result<C, String>)|
            match o.1 {
                Ok(child) => Ok::<C, Seq<char>>(child),
                Err(message) => Err(message@),
            },
    )
}

/// Keeps the forwards that `keep` accepts, in order, and drops the others.
fn retain<C, F: Fn(&ActiveForward<C>) -> bool>(
    forwards: Vec<ActiveForward<C>>,
    keep: F,
    Ghost(kept_by): Ghost<spec_fn(ForwardView<C>) -> bool>,
) -> (r: Vec<ActiveForward<C>>)
    requires
        forall|f: ActiveForward<C>| #[trigger] keep.requires((&f,)),
        forall|f: ActiveForward<C>, b: bool| #[trigger]
            keep.ensures((&f,), b) ==> b == kept_by(f@),
    ensures
        forward_views(r@) == forward_views(forwards@).filter(kept_by),
{
    let ghost all = forward_views(forwards@);
    let mut kept: Vec<ActiveForward<C>> = Vec::new();
    assert(all.take(0).filter(kept_by) =~= Seq::empty()) by {
        reveal(Seq::filter);
    }
    for forward in iter: forwards
        invariant
            iter.seq() == forwards@,
            all == forward_views(forwards@),
            forall|f: ActiveForward<C>| #[trigger] keep.requires((&f,)),
            forall|f: ActiveForward<C>, b: bool| #[trigger]
                keep.ensures((&f,), b) ==> b == kept_by(f@),
            forward_views(kept@) == all.take(iter.index() as int).filter(kept_by),
    {
        let ghost i = iter.index() as int;
        let ghost before = kept@;
        proof {
            seqs::lemma_filter_take(all, kept_by, i);
        }
        if keep(&forward) {
            kept.push(forward);
            assert(forward_views(kept@) == forward_views(before).push(all[i]));
        }
    }
    assert(all.take(all.len() as int) == all);
    kept
}

/// What a manager is, is all that it holds.
proof fn lemma_view_is_faithful<C>(m: ForwardManager<C>)
    ensures
        m@.forwards.len() == m.forwards@.len(),
        forall|i: int| 0 <= i < m.forwards@.len() ==> #[trigger] m@.forwards[i] == m.forwards@[i]@,
        m@.next_id == m.next_id,
        m@.connection == m.connection_state,
        m@.detected.len() == m.detected@.len(),
        forall|i: int| 0 <= i < m.detected@.len() ==> #[trigger] m@.detected[i] == m.detected@[i]@,
        m@.auto_forwarded == m.auto_forwarded@,
        m@.polling == m.polling,
{
}

impl<C> ForwardManager<C> {
    /// The number of forwards.
    pub fn forwards_len(&self) -> (n: usize)
        ensures
            n == self@.forwards.len(),
    {
        self.forwards.len()
    }

    /// Whether identifiers are left for so many more forwards.
    pub fn has_free_ids(&self, count: usize) -> (b: bool)
        ensures
            b == (self@.next_id + count <= u64::MAX),
    {
        count as u64 <= u64::MAX - self.next_id
    }

    /// Removes the forward `id`. Dropping its child kills the tunnel.
    pub fn remove_forward(&mut self, id: ForwardId)
        requires
            old(self)@.wf(),
        ensures
            final(self)@ == old(self)@.without(id.0 as nat),
            final(self)@.wf(),
    {
        let mut forwards: Vec<ActiveForward<C>> = Vec::new();
        std::mem::swap(&mut forwards, &mut self.forwards);
        proof {
            laws::law_without_wf(old(self)@, id.0 as nat);
        }
        let keep = |forward: &ActiveForward<C>| -> (b: bool)
            ensures
                b == (forward@.id != id.0),
        {
            forward.id != id
        };
        let ghost kept_by = ManagerView::<C>::other_than(id.0 as nat);
        self.forwards = retain(forwards, keep, Ghost(kept_by));
    }

    /// Where the forward `id` stands.
    fn position(&self, id: ForwardId) -> (r: Option<usize>)
        ensures
            match r {
                Some(i) => i < self.forwards@.len() && self.forwards@[i as int].id == id,
                None => forall|i: int|
                    0 <= i < self.forwards@.len() ==> (#[trigger] self.forwards@[i]).id != id,
            },
    {
        let mut i: usize = 0;
        while i < self.forwards.len()
            invariant
                i <= self.forwards@.len(),
                forall|j: int| 0 <= j < i ==> (#[trigger] self.forwards@[j]).id != id,
            decreases self.forwards@.len() - i,
        {
            if self.forwards[i].id == id {
                return Some(i);
            }
            i += 1;
        }
        None
    }

    /// Stores a freshly spawned child against `id` and marks the forward active. If there is no
    /// such forward any more, the child is dropped.
    pub fn attach_child(&mut self, id: ForwardId, child: C)
        requires
            old(self)@.wf(),
            !old(self)@.is_master_owned(id.0 as nat),
        ensures
            final(self)@ == old(self)@.with_child(id.0 as nat, child),
            final(self)@.wf(),
    {
        proof {
            laws::law_with_child_wf(old(self)@, id.0 as nat, child);
        }
        let ghost before = self@;
        match self.position(id) {
            Some(i) => {
                assert(before.forwards[i as int].id == id.0);
                self.forwards[i].child = Some(child);
                self.forwards[i].state = ForwardState::Active;
            },
            None => {
                assert forall|j: int| 0 <= j < before.forwards.len() implies (
                #[trigger] before.forwards[j]).id != id.0 by {
                    assert(self.forwards@[j].id != id);
                }
            },
        }
        assert(self@ =~~= before.with_child(id.0 as nat, child));
    }

    /// Marks the forward `id` as failed and drops its child.
    pub fn mark_failed(&mut self, id: ForwardId, message: String)
        requires
            old(self)@.wf(),
            !old(self)@.is_master_owned(id.0 as nat),
        ensures
            final(self)@ == old(self)@.with_failure(id.0 as nat, message@),
            final(self)@.wf(),
    {
        proof {
            laws::law_with_failure_wf(old(self)@, id.0 as nat, message@);
        }
        let ghost before = self@;
        let ghost text = message@;
        match self.position(id) {
            Some(i) => {
                assert(before.forwards[i as int].id == id.0);
                self.forwards[i].child = None;
                self.forwards[i].state = ForwardState::Failed(message);
            },
            None => {
                assert forall|j: int| 0 <= j < before.forwards.len() implies (
                #[trigger] before.forwards[j]).id != id.0 by {
                    assert(self.forwards@[j].id != id);
                }
            },
        }
        assert(self@ =~~= before.with_failure(id.0 as nat, text));
    }

    /// Takes the outcome of respawning the tunnel of the forward `id`.
    fn on_respawned(&mut self, id: ForwardId, spawned: Result<C, String>)
        requires
            old(self)@.wf(),
            !old(self)@.is_master_owned(id.0 as nat),
        ensures
            final(self)@ == match spawned {
                Ok(child) => old(self)@.with_child(id.0 as nat, child),
                Err(message) => old(self)@.with_failure(id.0 as nat, message@),
            },
            final(self)@.wf(),
    {
        match spawned {
            Ok(child) => self.attach_child(id, child),
            Err(message) => self.mark_failed(id, message),
        }
    }

    /// Takes a line that the tunnel of the forward `id` printed on its standard error. Returns
    /// whether the line tells that the tunnel failed.
    pub fn on_stderr_line(&mut self, id: ForwardId, line: String) -> (failed: bool)
        requires
            old(self)@.wf(),
            !old(self)@.is_master_owned(id.0 as nat),
        ensures
            failed == crate::launch::tells_bind_failure(line@),
            final(self)@ == if failed {
                old(self)@.with_failure(id.0 as nat, line@)
            } else {
                old(self)@
            },
            final(self)@.wf(),
    {
        if is_bind_failure(line.as_str()) {
            self.mark_failed(id, line);
            true
        } else {
            false
        }
    }

    /// Whether the forward `id` belongs to the control master.
    pub fn is_master_owned(&self, id: ForwardId) -> (b: bool)
        requires
            self@.wf(),
        ensures
            b == self@.is_master_owned(id.0 as nat),
    {
        match self.position(id) {
            Some(i) => {
                assert(self@.forwards[i as int].id == id.0);
                !self.forwards[i].managed
            },
            None => {
                assert forall|j: int| 0 <= j < self@.forwards.len() implies (
                #[trigger] self@.forwards[j]).id != id.0 by {
                    assert(self.forwards@[j].id != id);
                }
                false
            },
        }
    }

    /// Drops every child and marks every forward pending.
    fn teardown_children(&mut self)
        ensures
            final(self)@ == old(self)@.torn_down(),
    {
        let ghost before = self@;
        let mut i: usize = 0;
        while i < self.forwards.len()
            invariant
                i <= self.forwards@.len(),
                self@.forwards.len() == before.forwards.len(),
                forall|j: int|
                    0 <= j < i ==> #[trigger] self@.forwards[j] == before.forwards[j].torn_down(),
                forall|j: int|
                    i <= j < self@.forwards.len() ==> #[trigger] self@.forwards[j]
                        == before.forwards[j],
                self@ == (ManagerView { forwards: self@.forwards, ..before }),
            decreases self.forwards@.len() - i,
        {
            let ghost last = self@;
            self.forwards[i].child = None;
            self.forwards[i].state = ForwardState::Pending;
            assert(self@.forwards == last.forwards.update(
                i as int,
                last.forwards[i as int].torn_down(),
            ));
            i += 1;
        }
        assert(self@.forwards =~= before.torn_down().forwards);
    }

    /// Marks the forwards of the control master active, which re-applies them on reconnection,
    /// and lists the tunnels that have to be spawned again.
    fn respawn_dead(&mut self) -> (respawns: Vec<Respawn>)
        ensures
            final(self)@ == old(self)@.revived(),
            crate::launch::respawn_views(respawns@) == old(self)@.respawns(),
    {
        let ghost before = self@;
        let ghost dead = ManagerView::<C>::dead();
        let ghost respawn = |f: ForwardView<C>| f.respawn();
        let mut respawns: Vec<Respawn> = Vec::new();
        let mut i: usize = 0;
        assert(before.forwards.take(0).filter(dead) =~= Seq::empty()) by {
            reveal(Seq::filter);
        }
        while i < self.forwards.len()
            invariant
                i <= self.forwards@.len(),
                dead == ManagerView::<C>::dead(),
                respawn == (|f: ForwardView<C>| f.respawn()),
                self@.forwards.len() == before.forwards.len(),
                forall|j: int|
                    0 <= j < i ==> #[trigger] self@.forwards[j] == before.forwards[j].revived(),
                forall|j: int|
                    i <= j < self@.forwards.len() ==> #[trigger] self@.forwards[j]
                        == before.forwards[j],
                self@ == (ManagerView { forwards: self@.forwards, ..before }),
                crate::launch::respawn_views(respawns@) == before.forwards.take(
                    i as int,
                ).filter(dead).map_values(respawn),
            decreases self.forwards@.len() - i,
        {
            let ghost last = self@;
            let ghost listed = respawns@;
            proof {
                seqs::lemma_filter_take(before.forwards, dead, i as int);
                assert(last.forwards[i as int] == before.forwards[i as int]);
            }
            if self.forwards[i].managed {
                if self.forwards[i].child.is_none() {
                    respawns.push(
                        Respawn { id: self.forwards[i].id, tunnel: self.forwards[i].key().tunnel() },
                    );
                    assert(crate::launch::respawn_views(respawns@)
                        == crate::launch::respawn_views(listed).push(
                        before.forwards[i as int].respawn(),
                    ));
                }
            } else {
                self.forwards[i].state = ForwardState::Active;
            }
            assert(self@.forwards == last.forwards.update(
                i as int,
                last.forwards[i as int].revived(),
            ));
            i += 1;
        }
        assert(self@.forwards =~= before.revived().forwards);
        assert(before.forwards.take(before.forwards.len() as int) == before.forwards);
        respawns
    }

    /// Follows a change of the connection. Losing the connection drops every child. Regaining it
    /// brings up the forwards of the control master; the tunnels listed have to be spawned again,
    /// and their outcomes go to `on_all_respawned`.
    pub fn on_connection_state(&mut self, new_state: ConnectionState) -> (r: ConnectionChange)
        requires
            old(self)@.wf(),
        ensures
            final(self)@ == old(self)@.on_connection(new_state),
            final(self)@.wf(),
            r.changed == (new_state != old(self)@.connection),
            crate::launch::respawn_views(r.respawns@) == old(self)@.respawns_on(new_state),
            r.respawns@.len() == old(self)@.respawns_on(new_state).len(),
            forall|k: int|
                0 <= k < r.respawns@.len() ==> !final(self)@.is_master_owned(
                    (#[trigger] r.respawns@[k]).id.0 as nat,
                ),
    {
        proof {
            laws::law_on_connection_wf(old(self)@, new_state);
        }
        let old_state = self.connection_state;
        if old_state == new_state {
            let respawns: Vec<Respawn> = Vec::new();
            assert(crate::launch::respawn_views(respawns@) =~= Seq::empty());
            return ConnectionChange { changed: false, respawns };
        }
        self.connection_state = new_state;
        let ghost moved = self@;
        match new_state {
            ConnectionState::Connected => {
                assert(moved.respawns() == old(self)@.respawns());
                let respawns = self.respawn_dead();
                assert forall|k: int| 0 <= k < respawns@.len() implies !self@.is_master_owned(
                    (#[trigger] respawns@[k]).id.0 as nat,
                ) by {
                    assert(crate::launch::respawn_views(respawns@)[k].id == respawns@[k].id.0);
                    laws::law_respawns_are_managed(old(self)@, k);
                }
                ConnectionChange { changed: true, respawns }
            },
            ConnectionState::Connecting
            | ConnectionState::Reconnecting
            | ConnectionState::HeartbeatMissed
            | ConnectionState::Disconnected => {
                if old_state == ConnectionState::Connected {
                    self.teardown_children();
                }
                let respawns: Vec<Respawn> = Vec::new();
                assert(crate::launch::respawn_views(respawns@) =~= Seq::empty());
                ConnectionChange { changed: true, respawns }
            },
        }
    }

    /// Adds a forward that `child` carries, under the next identifier.
    fn push_launched(&mut self, key: ForwardKey, source: ForwardSource, child: C) -> (id: ForwardId)
        requires
            old(self)@.wf(),
            old(self)@.next_id < u64::MAX,
        ensures
            id.0 == old(self)@.next_id,
            final(self)@ == old(self)@.with_forward(key@, source, child),
            final(self)@.wf(),
    {
        proof {
            laws::law_with_forward_wf(old(self)@, key@, source, child);
        }
        let ghost before = self@;
        let ghost key_view = key@;
        let id = ForwardId(self.next_id);
        self.next_id = self.next_id + 1;
        self.forwards.push(
            ActiveForward {
                id,
                local_host: key.local_host,
                local_port: key.local_port,
                remote_host: key.remote_host,
                remote_port: key.remote_port,
                source,
                managed: true,
                state: ForwardState::Active,
                child: Some(child),
            },
        );
        assert(self@ =~~= before.with_forward(key_view, source, child));
        id
    }

    /// Adds the forward of a launch, given the outcome of spawning its tunnel. Returns the
    /// assigned id, or the error that the spawn gave. The forward may later transition to
    /// [`ForwardState::Failed`] if the tunnel can't bind.
    pub fn add_forward<E>(&mut self, launch: ForwardLaunch, spawned: Result<C, E>) -> (r: Result<
        ForwardId,
        E,
    >)
        requires
            old(self)@.wf(),
            old(self)@.next_id < u64::MAX,
            launch@.local_port is Some,
        ensures
            match spawned {
                Ok(child) => {
                    &&& r is Ok
                    &&& r->Ok_0.0 == old(self)@.next_id
                    &&& final(self)@ == old(self)@.with_forward(
                        launch@.key(),
                        launch@.source,
                        child,
                    )
                    &&& final(self)@.forwards == old(self)@.forwards.push(
                        ForwardView {
                            id: old(self)@.next_id,
                            key: KeyView {
                                local_host: launch@.local_host,
                                local_port: launch@.local_port->0,
                                remote_host: launch@.remote_host,
                                remote_port: launch@.remote_port,
                            },
                            source: launch@.source,
                            managed: true,
                            state: StateView::Active,
                            child: Some(child),
                        },
                    )
                },
                Err(error) => {
                    &&& r is Err
                    &&& r->Err_0 == error
                    &&& final(self)@ == old(self)@.id_spent()
                },
            },
            final(self)@.wf(),
    {
        match spawned {
            Ok(child) => {
                let (key, source) = launch.into_key();
                Ok(self.push_launched(key, source, child))
            },
            Err(error) => {
                self.next_id = self.next_id + 1;
                Err(error)
            },
        }
    }

    /// Starts the launch of a forward to a detected remote port. Prefers binding the same local
    /// port, but falls back to an automatically-allocated one if that is already in use.
    pub fn forward_detected(&self, remote_port: u16, local_port_free: bool) -> (r: ForwardLaunch)
        ensures
            r@ == LaunchView::detected(remote_port, local_port_free),
            r@.local_port is Some <==> local_port_free && remote_port != 0,
            r@.local_port is Some ==> r@.local_port->0 == remote_port,
            r@.remote_host == "localhost"@,
            r@.remote_port == remote_port,
    {
        let local_port: u16 = if local_port_free {
            remote_port
        } else {
            0
        };
        ForwardLaunch::new(
            local_port,
            "127.0.0.1".to_string(),
            "localhost".to_string(),
            remote_port,
            ForwardSource::Manual,
        )
    }

    /// Adds a forward that settings ask for, given the outcome of spawning its tunnel. Returns
    /// the assigned id, if the tunnel is there.
    fn add_settings_forward<E>(&mut self, key: ForwardKey, spawned: Result<C, E>) -> (r: Result<
        ForwardId,
        E,
    >)
        requires
            old(self)@.wf(),
            spawned is Ok ==> old(self)@.next_id < u64::MAX,
        ensures
            match spawned {
                Ok(child) => {
                    &&& r is Ok
                    &&& r->Ok_0.0 == old(self)@.next_id
                    &&& final(self)@ == old(self)@.with_forward(
                        key@,
                        ForwardSource::Settings,
                        child,
                    )
                },
                Err(error) => {
                    &&& r is Err
                    &&& r->Err_0 == error
                    &&& final(self)@ == old(self)@
                },
            },
            final(self)@.wf(),
    {
        match spawned {
            Ok(child) => Ok(self.push_launched(key, ForwardSource::Settings, child)),
            Err(error) => Err(error),
        }
    }

    /// Adds the forwards that settings ask for, given the outcome of spawning each tunnel.
    /// Returns, for each, the assigned id or the error that the spawn gave.
    pub fn add_settings_forwards<E>(&mut self, outcomes: Vec<(ForwardKey, Result<C, E>)>) -> (r: Vec<
        Result<ForwardId, E>,
    >)
        requires
            old(self)@.wf(),
            old(self)@.with_launched(
                launch_keys(outcomes@),
                launch_children(outcomes@),
            ).next_id <= u64::MAX,
        ensures
            final(self)@ == old(self)@.with_launched(
                launch_keys(outcomes@),
                launch_children(outcomes@),
            ),
            r@.len() == outcomes@.len(),
            forall|i: int|
                0 <= i < r@.len() ==> match (#[trigger] outcomes@[i]).1 {
                    Ok(_) => {
                        &&& r@[i] is Ok
                        &&& r@[i]->Ok_0.0 == old(self)@.with_launched(
                            launch_keys(outcomes@).take(i),
                            launch_children(outcomes@).take(i),
                        ).next_id
                    },
                    Err(error) => r@[i] is Err && r@[i]->Err_0 == error,
                },
            final(self)@.wf(),
    {
        let ghost before = self@;
        let ghost keys = launch_keys(outcomes@);
        let ghost children = launch_children(outcomes@);
        let mut results: Vec<Result<ForwardId, E>> = Vec::new();
        proof {
            laws::lemma_launched_none(before, keys.take(0), children.take(0));
        }
        for outcome in iter: outcomes
            invariant
                iter.seq() == outcomes@,
                before.wf(),
                before.with_launched(keys, children).next_id <= u64::MAX,
                keys == launch_keys(outcomes@),
                children == launch_children(outcomes@),
                self@ == before.with_launched(
                    keys.take(iter.index() as int),
                    children.take(iter.index() as int),
                ),
                results@.len() == iter.index(),
                forall|i: int|
                    0 <= i < results@.len() ==> match (#[trigger] outcomes@[i]).1 {
                        Ok(_) => {
                            &&& results@[i] is Ok
                            &&& results@[i]->Ok_0.0 == before.with_launched(
                                keys.take(i),
                                children.take(i),
                            ).next_id
                        },
                        Err(error) => results@[i] is Err && results@[i]->Err_0 == error,
                    },
        {
            let ghost i = iter.index() as int;
            proof {
                laws::law_launched_wf(before, keys.take(i), children.take(i));
                laws::lemma_launched_grows(before, keys, children, i + 1);
                laws::lemma_launched_step(before, keys.take(i + 1), children.take(i + 1));
                assert(keys.take(i + 1).drop_last() == keys.take(i));
                assert(children.take(i + 1).drop_last() == children.take(i));
                assert(keys.take(i + 1).last() == outcomes@[i].0@);
                assert(children.take(i + 1).last() == children[i]);
            }
            let (key, spawned) = outcome;
            let result = self.add_settings_forward(key, spawned);
            results.push(result);
        }
        proof {
            assert(keys.take(keys.len() as int) == keys);
            assert(children.take(children.len() as int) == children);
            laws::law_launched_wf(before, keys, children);
        }
        results
    }

    /// Takes the outcomes of respawning tunnels.
    pub fn on_all_respawned(&mut self, outcomes: Vec<(Respawn, Result<C, String>)>)
        requires
            old(self)@.wf(),
            forall|k: int|
                0 <= k < outcomes@.len() ==> !old(self)@.is_master_owned(
                    (#[trigger] outcomes@[k]).0.id.0 as nat,
                ),
        ensures
            final(self)@ == old(self)@.with_respawned(
                outcome_respawns(outcomes@),
                outcome_children(outcomes@),
            ),
            final(self)@.wf(),
    {
        let ghost before = self@;
        let ghost respawns = outcome_respawns(outcomes@);
        let ghost children = outcome_children(outcomes@);
        assert(forall|k: int|
            0 <= k < respawns.len() ==> (#[trigger] respawns[k]).id == outcomes@[k].0.id.0);
        for outcome in iter: outcomes
            invariant
                iter.seq() == outcomes@,
                before.wf(),
                respawns == outcome_respawns(outcomes@),
                children == outcome_children(outcomes@),
                forall|k: int|
                    0 <= k < respawns.len() ==> !before.is_master_owned(
                        (#[trigger] respawns[k]).id,
                    ),
                self@ == before.with_respawned(
                    respawns.take(iter.index() as int),
                    children.take(iter.index() as int),
                ),
        {
            let ghost i = iter.index() as int;
            proof {
                laws::law_respawned_wf(before, respawns.take(i), children.take(i));
                assert(respawns.take(i + 1).drop_last() == respawns.take(i));
                assert(children.take(i + 1).drop_last() == children.take(i));
                assert(respawns.take(i + 1).last() == respawns[i]);
                assert(children.take(i + 1).last() == children[i]);
                assert(!before.is_master_owned(respawns[i].id));
            }
            let (respawn, spawned) = outcome;
            self.on_respawned(respawn.id, spawned);
        }
        proof {
            assert(respawns.take(respawns.len() as int) == respawns);
            assert(children.take(children.len() as int) == children);
            laws::law_respawned_wf(before, respawns, children);
        }
    }

    /// The endpoints of the forwards from settings; with `managed_only`, of those that children
    /// of this manager carry.
    fn settings_keys(&self, managed_only: bool) -> (r: KeySet)
        ensures
            forall|k: KeyView| #[trigger]
                r@.contains(k) <==> exists|i: int|
                    0 <= i < self@.forwards.len() && (#[trigger] self@.forwards[i]).source
                        == ForwardSource::Settings && (managed_only ==> self@.forwards[i].managed)
                        && self@.forwards[i].key == k,
    {
        let mut keys: Vec<ForwardKey> = Vec::new();
        let mut i: usize = 0;
        while i < self.forwards.len()
            invariant
                i <= self.forwards@.len(),
                forall|k: KeyView| #[trigger]
                    crate::key::key_views(keys@).contains(k) <==> exists|j: int|
                        0 <= j < i && (#[trigger] self@.forwards[j]).source
                            == ForwardSource::Settings && (managed_only
                            ==> self@.forwards[j].managed) && self@.forwards[j].key == k,
            decreases self.forwards@.len() - i,
        {
            let ghost listed = keys@;
            assert(self@.forwards[i as int] == self.forwards@[i as int]@);
            if self.forwards[i].source == ForwardSource::Settings && (!managed_only
                || self.forwards[i].managed) {
                let key = self.forwards[i].key();
                let ghost key_view = key@;
                keys.push(key);
                assert(crate::key::key_views(keys@) == crate::key::key_views(listed).push(key_view));
                assert forall|k: KeyView| #[trigger]
                    crate::key::key_views(keys@).contains(k) <==> crate::key::key_views(
                        listed,
                    ).contains(k) || k == key_view by {
                    seqs::lemma_push_contains(crate::key::key_views(listed), key_view, k);
                }
            }
            i += 1;
        }
        KeySet::from_keys(keys)
    }
}

/// The endpoints that settings ask for.
fn desired_keys(configured: &Option<Vec<SshPortForwardOption>>) -> (r: KeySet)
    ensures
        r.order() == seqs::distinct(crate::settings::forward_keys(*configured)),
        r@ == crate::settings::forward_keys(*configured).to_set(),
{
    let mut keys: Vec<ForwardKey> = Vec::new();
    match configured {
        Some(options) => {
            let mut i: usize = 0;
            while i < options.len()
                invariant
                    i <= options@.len(),
                    crate::key::key_views(keys@) == crate::key::option_keys(options@).take(
                        i as int,
                    ),
                decreases options@.len() - i,
            {
                let ghost listed = keys@;
                keys.push(ForwardKey::from_option(&options[i]));
                assert(crate::key::key_views(keys@) == crate::key::key_views(listed).push(
                    crate::key::option_keys(options@)[i as int],
                ));
                i += 1;
            }
        },
        None => {},
    }
    assert(crate::key::key_views(keys@) =~= crate::settings::forward_keys(*configured));
    KeySet::from_keys(keys)
}

impl<C> ForwardManager<C> {
    /// Records the connect-time static forwards (applied as `-L` on the SSH master) as
    /// display-only rows, so that no duplicate children are spawned for them.
    fn seed_master_owned(
        connection_state: ConnectionState,
        options: &RemoteConnectionOptions,
    ) -> (r: Self)
        requires
            options.master_keys().len() < u64::MAX,
        ensures
            r@ == ManagerView::<C>::seeded(connection_state, options.master_keys()),
    {
        let connected = connection_state == ConnectionState::Connected;
        let ghost keys = options.master_keys();
        let mut forwards: Vec<ActiveForward<C>> = Vec::new();
        let mut next_id: u64 = 1;
        match options {
            RemoteConnectionOptions::Ssh(ssh) => match &ssh.port_forwards {
                Some(port_forwards) => {
                    let mut i: usize = 0;
                    while i < port_forwards.len()
                        invariant
                            i <= port_forwards@.len() < u64::MAX,
                            next_id == i + 1,
                            connected == (connection_state == ConnectionState::Connected),
                            keys == crate::key::option_keys(port_forwards@),
                            forwards@.len() == i,
                            forall|j: int|
                                0 <= j < i ==> #[trigger] forward_views(forwards@)[j]
                                    == ForwardView::<C>::master_owned(
                                    (j + 1) as nat,
                                    keys[j],
                                    connection_state,
                                ),
                        decreases port_forwards@.len() - i,
                    {
                        let ghost listed = forwards@;
                        let key = ForwardKey::from_option(&port_forwards[i]);
                        let id = ForwardId(next_id);
                        next_id = next_id + 1;
                        forwards.push(
                            ActiveForward {
                                id,
                                local_host: key.local_host,
                                local_port: key.local_port,
                                remote_host: key.remote_host,
                                remote_port: key.remote_port,
                                source: ForwardSource::Settings,
                                managed: false,
                                state: if connected {
                                    ForwardState::Active
                                } else {
                                    ForwardState::Pending
                                },
                                child: None,
                            },
                        );
                        assert(forall|j: int|
                            0 <= j < i ==> #[trigger] forward_views(forwards@)[j]
                                == forward_views(listed)[j]);
                        i += 1;
                    }
                },
                None => {},
            },
            RemoteConnectionOptions::Other => {},
        }
        let r = ForwardManager {
            forwards,
            next_id,
            connection_state,
            detected: Vec::new(),
            auto_forwarded: HashSet::new(),
            polling: false,
        };
        assert(r@ =~~= ManagerView::<C>::seeded(connection_state, keys));
        r
    }

    /// A manager for a connection, reconciled with the forwards that settings ask for now. The
    /// tunnels of those that have to be launched are then spawned, and the outcomes go to
    /// `add_settings_forwards`.
    pub fn new(
        connection_state: ConnectionState,
        options: &RemoteConnectionOptions,
        configured: Option<Vec<SshPortForwardOption>>,
    ) -> (r: (Self, Reconciliation))
        requires
            options.master_keys().len() < u64::MAX,
        ensures
            ({
                let seeded = ManagerView::<C>::seeded(connection_state, options.master_keys());
                &&& r.0@ == seeded
                &&& !r.1.changed
                &&& crate::key::key_views(r.1.to_add@) == if options is Ssh {
                    seeded.missing(crate::settings::forward_keys(configured))
                } else {
                    Seq::empty()
                }
            }),
            r.0@.wf(),
    {
        let mut manager = Self::seed_master_owned(connection_state, options);
        proof {
            laws::law_seeded_wf::<C>(connection_state, options.master_keys());
            laws::law_master_owned_survives(
                manager@,
                crate::settings::forward_keys(configured),
            );
        }
        let reconciliation = manager.reconcile_with_settings(Some(options), configured);
        (manager, reconciliation)
    }

    /// Brings the live set of forwards in line with the current settings: removes the settings
    /// forwards that were deleted and lists those that were added. The tunnels of those are then
    /// spawned, and the outcomes go to `add_settings_forwards`. Manual (panel-added) and
    /// master-owned forwards are left untouched.
    ///
    /// `configured` holds the forwards that settings give for the connection, as
    /// `settings_lookup` names it. Nothing happens if the remote connection is gone or is not an
    /// SSH connection.
    pub fn reconcile_with_settings(
        &mut self,
        options: Option<&RemoteConnectionOptions>,
        configured: Option<Vec<SshPortForwardOption>>,
    ) -> (r: Reconciliation)
        requires
            old(self)@.wf(),
        ensures
            ({
                let desired = crate::settings::forward_keys(configured);
                if options matches Some(o) && o is Ssh {
                    &&& final(self)@ == old(self)@.pruned(desired)
                    &&& crate::key::key_views(r.to_add@) == old(self)@.missing(desired)
                    &&& r.changed == (final(self)@.forwards.len() != old(self)@.forwards.len())
                    &&& forall|j: int|
                        0 <= j < r.to_add@.len() ==> configured is Some && exists|i: int|
                            {
                                let option = #[trigger] configured->0@[i];
                                let key = #[trigger] r.to_add@[j];
                                &&& 0 <= i < configured->0@.len()
                                &&& key.local_port == option.local_port
                                &&& key.remote_port == option.remote_port
                                &&& key.local_host@ == (match option.local_host {
                                    Some(host) => host@,
                                    None => "localhost"@,
                                })
                                &&& key.remote_host@ == (match option.remote_host {
                                    Some(host) => host@,
                                    None => "localhost"@,
                                })
                            }
                } else {
                    &&& final(self)@ == old(self)@
                    &&& r.to_add@.len() == 0
                    &&& !r.changed
                }
            }),
            final(self)@.wf(),
    {
        match options {
            Some(RemoteConnectionOptions::Ssh(_)) => {},
            _ => {
                return Reconciliation { to_add: Vec::new(), changed: false };
            },
        }
        let ghost before = self@;
        let ghost desired_list = crate::settings::forward_keys(configured);
        let desired = desired_keys(&configured);
        let existing = self.settings_keys(false);
        let managed = self.settings_keys(true);
        let (to_add, to_remove) = compute_forward_diff(&desired, &existing, &managed);
        proof {
            laws::law_pruned_wf(before, desired_list);
            seqs::lemma_filter_agree(
                desired.order(),
                crate::key::not_in(existing@),
                before.lacks_settings_key(),
            );
        }
        let count: usize = self.forwards.len();
        let mut forwards: Vec<ActiveForward<C>> = Vec::new();
        std::mem::swap(&mut forwards, &mut self.forwards);
        let keep = |forward: &ActiveForward<C>| -> (b: bool)
            ensures
                b == !(forward@.is_settings_managed() && to_remove@.contains(forward@.key)),
        {
            !(forward.source == ForwardSource::Settings && forward.managed && to_remove.contains(
                &forward.key(),
            ))
        };
        let ghost kept_by = |f: ForwardView<C>|
            !(f.is_settings_managed() && to_remove@.contains(f.key));
        self.forwards = retain(forwards, keep, Ghost(kept_by));
        proof {
            seqs::lemma_filter_agree(
                before.forwards,
                kept_by,
                ManagerView::<C>::survives(desired_list),
            );
        }
        proof {
            effects::law_to_add_stems_from_settings(before, configured, to_add@);
        }
        Reconciliation { to_add, changed: self.forwards.len() != count }
    }
}

impl<C> ForwardManager<C> {
    /// The remote ports that forwards lead to.
    fn forwarded_ports(&self) -> (r: HashSet<u16>)
        ensures
            forall|p: u16| #[trigger] r@.contains(p) <==> self@.forwards_to(p),
    {
        let mut ports: HashSet<u16> = HashSet::new();
        let mut i: usize = 0;
        while i < self.forwards.len()
            invariant
                i <= self.forwards@.len(),
                forall|p: u16| #[trigger]
                    ports@.contains(p) <==> exists|j: int|
                        0 <= j < i && (#[trigger] self@.forwards[j]).key.remote_port == p,
            decreases self.forwards@.len() - i,
        {
            assert(self@.forwards[i as int].key.remote_port
                == self.forwards@[i as int].remote_port);
            ports.insert(self.forwards[i].remote_port);
            i += 1;
        }
        ports
    }

    /// Takes a report of the remote host's listening ports. Returns the ports that are to be
    /// forwarded automatically: none unless `auto_forward` is set. No port is returned twice,
    /// neither for one report that names it several times (as for a server that listens on IPv4
    /// and IPv6) nor for a later one. Each is then handed to `forward_detected`.
    pub fn on_detected(&mut self, ports: Vec<ListeningPort>, auto_forward: bool) -> (r: Vec<u16>)
        requires
            old(self)@.wf(),
        ensures
            final(self)@ == old(self)@.reported(crate::detect::port_views(ports@), auto_forward),
            r@ == if auto_forward {
                old(self)@.auto_ports(crate::detect::port_views(ports@))
            } else {
                Seq::empty()
            },
            forall|p: u16| #[trigger]
                r@.contains(p) <==> {
                    &&& auto_forward
                    &&& exists|i: int|
                        0 <= i < ports@.len() && (#[trigger] ports@[i]).port % 0x1_0000 == p
                    &&& forall|i: int|
                        0 <= i < old(self)@.forwards.len() ==> (
                        #[trigger] old(self)@.forwards[i]).key.remote_port != p
                    &&& !old(self)@.auto_forwarded.contains(p)
                },
            r@.no_duplicates(),
            forall|p: u16| #[trigger]
                final(self)@.auto_forwarded.contains(p) <==> old(self)@.auto_forwarded.contains(p)
                    || r@.contains(p),
            final(self)@.wf(),
    {
        proof {
            effects::law_auto_forward_exactly(self@, crate::detect::port_views(ports@));
            effects::law_report_is_kept(
                self@,
                crate::detect::port_views(ports@),
                auto_forward,
            );
            let views = crate::detect::port_views(ports@);
            effects::law_report_views(ports@);
            assert forall|p: u16| #[trigger] self@.auto_ports(views).contains(p) <==> {
                &&& exists|i: int|
                    0 <= i < ports@.len() && (#[trigger] ports@[i]).port % 0x1_0000 == p
                &&& forall|i: int|
                    0 <= i < self@.forwards.len() ==> (
                    #[trigger] self@.forwards[i]).key.remote_port != p
                &&& !self@.auto_forwarded.contains(p)
            } by {
                if exists|i: int|
                    0 <= i < ports@.len() && (#[trigger] ports@[i]).port % 0x1_0000 == p {
                    let i = choose|i: int|
                        0 <= i < ports@.len() && (#[trigger] ports@[i]).port % 0x1_0000 == p;
                    assert(views[i].port % 0x1_0000 == p);
                }
                if exists|i: int|
                    0 <= i < views.len() && (#[trigger] views[i]).port % 0x1_0000 == p {
                    let i = choose|i: int|
                        0 <= i < views.len() && (#[trigger] views[i]).port % 0x1_0000 == p;
                    assert(ports@[i].port % 0x1_0000 == p);
                }
            }
        }
        let ghost before = self@;
        let ghost views = crate::detect::port_views(ports@);
        self.detected = ports;
        let mut to_forward: Vec<u16> = Vec::new();
        if auto_forward {
            let forwarded = self.forwarded_ports();
            let ghost numbers = views.map_values(|p: PortView| p.number());
            let ghost new = before.is_new_port();
            let mut i: usize = 0;
            assert(seqs::distinct(numbers.take(0)).filter(new) =~= Seq::empty()) by {
                reveal(Seq::filter);
            }
            assert(before.auto_forwarded.union(to_forward@.to_set()) =~= before.auto_forwarded);
            while i < self.detected.len()
                invariant
                    i <= self.detected@.len(),
                    views == crate::detect::port_views(self.detected@),
                    numbers == views.map_values(|p: PortView| p.number()),
                    new == before.is_new_port(),
                    self@ == (ManagerView {
                        detected: views,
                        auto_forwarded: before.auto_forwarded.union(to_forward@.to_set()),
                        ..before
                    }),
                    forall|p: u16| #[trigger] forwarded@.contains(p) <==> before.forwards_to(p),
                    to_forward@ == seqs::distinct(numbers.take(i as int)).filter(new),
                decreases self.detected@.len() - i,
            {
                let ghost seen = seqs::distinct(numbers.take(i as int));
                let ghost listed = to_forward@;
                let port: u16 = self.detected[i].number();
                proof {
                    assert(numbers[i as int] == port);
                    seqs::lemma_distinct_take(numbers, i as int);
                    seqs::lemma_filter_push(seen, new, port);
                    seqs::lemma_filter_contains(seen, new, port);
                }
                if !forwarded.contains(&port) && !self.auto_forwarded.contains(&port) {
                    self.auto_forwarded.insert(port);
                    to_forward.push(port);
                    assert forall|p: u16| #[trigger]
                        to_forward@.contains(p) <==> listed.contains(p) || p == port by {
                        seqs::lemma_push_contains(listed, port, p);
                    }
                    assert(self@.auto_forwarded =~= before.auto_forwarded.union(
                        to_forward@.to_set(),
                    ));
                }
                i += 1;
            }
            assert(numbers.take(numbers.len() as int) == numbers);
        }
        to_forward
    }

    /// Takes the reply of the remote host to a query for its listening ports. A failed query
    /// changes nothing. Returns the ports that are to be forwarded automatically.
    pub fn on_poll_reply<E>(
        &mut self,
        reply: Result<Vec<ListeningPort>, E>,
        auto_forward: bool,
    ) -> (r: Vec<u16>)
        requires
            old(self)@.wf(),
        ensures
            match reply {
                Ok(ports) => {
                    let views = crate::detect::port_views(ports@);
                    &&& final(self)@ == old(self)@.reported(views, auto_forward)
                    &&& r@ == if auto_forward {
                        old(self)@.auto_ports(views)
                    } else {
                        Seq::empty()
                    }
                },
                Err(_) => final(self)@ == old(self)@ && r@.len() == 0,
            },
            final(self)@.wf(),
    {
        match reply {
            Ok(ports) => self.on_detected(ports, auto_forward),
            Err(_) => Vec::new(),
        }
    }

    /// The detected ports without a forward.
    pub fn detected_rows(&self) -> (r: Vec<DetectedRow>)
        ensures
            crate::detect::row_views(r@) == self@.detected_rows(),
    {
        let forwarded = self.forwarded_ports();
        let ghost views = self@.detected;
        let ghost shown = self@.is_unforwarded();
        let ghost row = |p: PortView| p.row();
        let mut rows: Vec<DetectedRow> = Vec::new();
        let mut i: usize = 0;
        assert(views.take(0).filter(shown) =~= Seq::empty()) by {
            reveal(Seq::filter);
        }
        while i < self.detected.len()
            invariant
                i <= self.detected@.len(),
                views == crate::detect::port_views(self.detected@),
                shown == self@.is_unforwarded(),
                row == (|p: PortView| p.row()),
                forall|p: u16| #[trigger] forwarded@.contains(p) <==> self@.forwards_to(p),
                crate::detect::row_views(rows@) == views.take(i as int).filter(shown).map_values(
                    row,
                ),
            decreases self.detected@.len() - i,
        {
            let ghost listed = rows@;
            proof {
                seqs::lemma_filter_take(views, shown, i as int);
                assert(views[i as int] == self.detected@[i as int]@);
            }
            if !forwarded.contains(&self.detected[i].number()) {
                rows.push(self.detected[i].row());
                assert(crate::detect::row_views(rows@) == crate::detect::row_views(listed).push(
                    views[i as int].row(),
                ));
            }
            i += 1;
        }
        assert(views.take(views.len() as int) == views);
        rows
    }

    /// Snapshots of the forwards.
    pub fn display_rows(&self) -> (r: Vec<ForwardDisplay>)
        ensures
            display_views(r@) == self@.display_rows(),
            r@.len() == self@.forwards.len(),
            forall|i: int|
                0 <= i < r@.len() ==> {
                    let f = self@.forwards[i];
                    let row = #[trigger] r@[i];
                    &&& row.id.0 == f.id
                    &&& row.local_host@ == f.key.local_host
                    &&& row.local_port == f.key.local_port
                    &&& row.remote_host@ == f.key.remote_host
                    &&& row.remote_port == f.key.remote_port
                    &&& row.source == f.source
                    &&& row.managed == f.managed
                    &&& row.state@ == f.state
                },
    {
        let mut rows: Vec<ForwardDisplay> = Vec::new();
        let mut i: usize = 0;
        while i < self.forwards.len()
            invariant
                i <= self.forwards@.len(),
                display_views(rows@) == self@.display_rows().take(i as int),
            decreases self.forwards@.len() - i,
        {
            let ghost listed = rows@;
            rows.push(self.forwards[i].display());
            assert(display_views(rows@) == display_views(listed).push(
                self@.display_rows()[i as int],
            ));
            i += 1;
        }
        assert forall|i: int| 0 <= i < rows@.len() implies display_views(rows@)[i] == (
        #[trigger] rows@[i])@ by {
        }
        rows
    }

    /// Starts or stops polling the remote host for listening ports. The panel drives this from
    /// its active state, so that nothing is polled while it is hidden.
    pub fn set_polling(&mut self, enabled: bool) -> (r: PollingChange)
        requires
            old(self)@.wf(),
        ensures
            final(self)@ == old(self)@.with_polling(enabled),
            r.start == (enabled && !old(self)@.polling),
            r.cleared == (!enabled && old(self)@.detected.len() > 0),
            final(self)@.wf(),
    {
        let ghost before = self@;
        let start = enabled && !self.polling;
        let cleared = !enabled && !self.detected.is_empty();
        self.polling = enabled;
        if cleared {
            self.detected.clear();
        }
        assert(self@.detected =~= before.with_polling(enabled).detected);
        PollingChange { start, cleared }
    }
}

} // verus!
