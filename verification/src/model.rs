//! What a forward manager is, as mathematics: its state and what each operation makes of it.
use crate::detect::{PortView, RowView};
use crate::forward::{ConnectionState, DisplayView, ForwardSource, ForwardView, StateView};
use crate::key::KeyView;
use crate::seqs;
use vstd::prelude::*;

verus! {

/// What a tunnel process connects.
#[verifier::ext_equal]
pub struct TunnelView {
    pub local_port: u16,
    pub remote_host: Seq<char>,
    pub remote_port: u16,
}

/// A forward that needs a new tunnel process.
#[verifier::ext_equal]
pub struct RespawnView {
    pub id: nat,
    pub tunnel: TunnelView,
}

impl KeyView {
    /// The tunnel that carries a forward with these endpoints.
    pub open spec fn tunnel(self) -> TunnelView {
        TunnelView {
            local_port: self.local_port,
            remote_host: self.remote_host,
            remote_port: self.remote_port,
        }
    }
}

impl<C> ForwardView<C> {
    /// A forward that the control master carries.
    pub open spec fn master_owned(id: nat, key: KeyView, connection: ConnectionState) -> Self {
        ForwardView {
            id,
            key,
            source: ForwardSource::Settings,
            managed: false,
            state: Self::master_state(connection),
            child: None,
        }
    }

    /// How a forward of the control master does: it is up exactly while the connection is.
    pub open spec fn master_state(connection: ConnectionState) -> StateView {
        if connection == ConnectionState::Connected {
            StateView::Active
        } else {
            StateView::Pending
        }
    }

    /// A forward that `child` carries.
    pub open spec fn launched(id: nat, key: KeyView, source: ForwardSource, child: C) -> Self {
        ForwardView { id, key, source, managed: true, state: StateView::Active, child: Some(child) }
    }

    /// The forward with `child` to carry it.
    pub open spec fn attached(self, child: C) -> Self {
        ForwardView { state: StateView::Active, child: Some(child), ..self }
    }

    /// The forward after it failed with `message`.
    pub open spec fn failed(self, message: Seq<char>) -> Self {
        ForwardView { state: StateView::Failed(message), child: None, ..self }
    }

    /// The forward after its tunnel was spawned again, or could not be.
    pub open spec fn respawned(self, outcome: Result<C, Seq<char>>) -> Self {
        match outcome {
            Ok(child) => self.attached(child),
            Err(message) => self.failed(message),
        }
    }

    /// The forward after the connection was lost.
    pub open spec fn torn_down(self) -> Self {
        ForwardView { state: StateView::Pending, child: None, ..self }
    }

    /// The forward after the connection came up: the control master brings up its own.
    pub open spec fn revived(self) -> Self {
        if self.managed {
            self
        } else {
            ForwardView { state: StateView::Active, ..self }
        }
    }

    /// A child process of this manager is to carry the forward, and none does.
    pub open spec fn is_dead(self) -> bool {
        self.managed && self.child is None
    }

    /// The forward comes from settings, and a child process of this manager is to carry it.
    pub open spec fn is_settings_managed(self) -> bool {
        self.source == ForwardSource::Settings && self.managed
    }

    /// The new tunnel process that the forward needs.
    pub open spec fn respawn(self) -> RespawnView {
        RespawnView { id: self.id, tunnel: self.key.tunnel() }
    }

    /// What holds of each forward while the connection is in the given state: a managed forward
    /// is active exactly while a child carries it; one of the control master comes from settings,
    /// has no child, and is up exactly while the connection is.
    pub open spec fn wf(self, connection: ConnectionState) -> bool {
        if self.managed {
            self.child is Some <==> self.state is Active
        } else {
            &&& self.source == ForwardSource::Settings
            &&& self.child is None
            &&& self.state == Self::master_state(connection)
        }
    }
}

/// The launches that led to a child.
pub open spec fn has_child<C>() -> spec_fn((KeyView, Option<C>)) -> bool {
    |launch: (KeyView, Option<C>)| launch.1 is Some
}

/// What was to be launched, each with what became of it.
pub open spec fn launch_pairs<C>(keys: Seq<KeyView>, children: Seq<Option<C>>) -> Seq<
    (KeyView, Option<C>),
> {
    Seq::new(keys.len(), |i: int| (keys[i], children[i]))
}

/// The keys that got a child, each with it, in order.
pub open spec fn launched_pairs<C>(keys: Seq<KeyView>, children: Seq<Option<C>>) -> Seq<
    (KeyView, Option<C>),
> {
    launch_pairs(keys, children).filter(has_child())
}

/// The keys that got no child.
pub open spec fn unlaunched<C>(keys: Seq<KeyView>, children: Seq<Option<C>>) -> Seq<KeyView>
    decreases keys.len(),
{
    if keys.len() == 0 {
        keys
    } else {
        let before = unlaunched(keys.drop_last(), children.drop_last());
        if children.last() is None {
            before.push(keys.last())
        } else {
            before
        }
    }
}

/// The state of a forward manager.
#[verifier::ext_equal]
#[verifier::reject_recursive_types(C)]
pub struct ManagerView<C> {
    pub forwards: Seq<ForwardView<C>>,
    /// The identifier that the next forward gets.
    pub next_id: nat,
    pub connection: ConnectionState,
    /// The listening ports of the last report.
    pub detected: Seq<PortView>,
    /// The remote ports that were forwarded automatically.
    pub auto_forwarded: Set<u16>,
    pub polling: bool,
}

impl<C> ManagerView<C> {
    /// Identifiers are positive, below the next one, and no two forwards share one.
    pub open spec fn ids_ok(self) -> bool {
        &&& self.next_id >= 1
        &&& forall|i: int|
            0 <= i < self.forwards.len() ==> 1 <= (#[trigger] self.forwards[i]).id < self.next_id
        &&& forall|i: int, j: int|
            0 <= i < j < self.forwards.len() ==> (#[trigger] self.forwards[i]).id != (
            #[trigger] self.forwards[j]).id
    }

    /// What holds of every manager.
    pub open spec fn wf(self) -> bool {
        &&& self.ids_ok()
        &&& forall|i: int|
            0 <= i < self.forwards.len() ==> (#[trigger] self.forwards[i]).wf(self.connection)
    }

    /// A forward has this identifier.
    pub open spec fn has_id(self, id: nat) -> bool {
        exists|i: int| 0 <= i < self.forwards.len() && (#[trigger] self.forwards[i]).id == id
    }

    /// A forward with this identifier belongs to the control master.
    pub open spec fn is_master_owned(self, id: nat) -> bool {
        exists|i: int|
            0 <= i < self.forwards.len() && (#[trigger] self.forwards[i]).id == id
                && !self.forwards[i].managed
    }

    /// A manager that knows only the forwards of the control master.
    pub open spec fn seeded(connection: ConnectionState, keys: Seq<KeyView>) -> Self {
        ManagerView {
            forwards: Seq::new(
                keys.len(),
                |i: int| ForwardView::master_owned((i + 1) as nat, keys[i], connection),
            ),
            next_id: keys.len() + 1,
            connection,
            detected: Seq::empty(),
            auto_forwarded: Set::empty(),
            polling: false,
        }
    }

    /// With one forward more, which `child` carries.
    pub open spec fn with_forward(self, key: KeyView, source: ForwardSource, child: C) -> Self {
        ManagerView {
            forwards: self.forwards.push(ForwardView::launched(self.next_id, key, source, child)),
            next_id: self.next_id + 1,
            ..self
        }
    }

    /// With the next identifier given away and no forward for it.
    pub open spec fn id_spent(self) -> Self {
        ManagerView { next_id: self.next_id + 1, ..self }
    }

    /// Without the forward `id`.
    pub open spec fn without(self, id: nat) -> Self {
        ManagerView { forwards: self.forwards.filter(Self::other_than(id)), ..self }
    }

    /// The forwards that `without` keeps.
    pub open spec fn other_than(id: nat) -> spec_fn(ForwardView<C>) -> bool {
        |f: ForwardView<C>| f.id != id
    }

    /// With `child` to carry the forward `id`.
    pub open spec fn with_child(self, id: nat, child: C) -> Self {
        ManagerView {
            forwards: self.forwards.map_values(
                |f: ForwardView<C>|
                    if f.id == id {
                        f.attached(child)
                    } else {
                        f
                    },
            ),
            ..self
        }
    }

    /// After the forward `id` failed with `message`.
    pub open spec fn with_failure(self, id: nat, message: Seq<char>) -> Self {
        ManagerView {
            forwards: self.forwards.map_values(
                |f: ForwardView<C>|
                    if f.id == id {
                        f.failed(message)
                    } else {
                        f
                    },
            ),
            ..self
        }
    }

    /// With no child left, and every forward pending.
    pub open spec fn torn_down(self) -> Self {
        ManagerView {
            forwards: self.forwards.map_values(|f: ForwardView<C>| f.torn_down()),
            ..self
        }
    }

    /// With the forwards of the control master up.
    pub open spec fn revived(self) -> Self {
        ManagerView {
            forwards: self.forwards.map_values(|f: ForwardView<C>| f.revived()),
            ..self
        }
    }

    /// The forwards that need a child process.
    pub open spec fn dead() -> spec_fn(ForwardView<C>) -> bool {
        |f: ForwardView<C>| f.is_dead()
    }

    /// What has to be spawned to bring every dead forward up, in order.
    pub open spec fn respawns(self) -> Seq<RespawnView> {
        self.forwards.filter(Self::dead()).map_values(|f: ForwardView<C>| f.respawn())
    }

    /// After the connection changed to `connection`. Losing it takes every child down; regaining
    /// it brings the forwards of the control master up.
    pub open spec fn on_connection(self, connection: ConnectionState) -> Self {
        let moved = ManagerView { connection, ..self };
        if connection == self.connection {
            self
        } else if connection == ConnectionState::Connected {
            moved.revived()
        } else if self.connection == ConnectionState::Connected {
            moved.torn_down()
        } else {
            moved
        }
    }

    /// What has to be spawned when the connection changes to `connection`.
    pub open spec fn respawns_on(self, connection: ConnectionState) -> Seq<RespawnView> {
        if connection != self.connection && connection == ConnectionState::Connected {
            self.respawns()
        } else {
            Seq::empty()
        }
    }

    /// A forward from settings has these endpoints.
    pub open spec fn has_settings_key(self, key: KeyView) -> bool {
        exists|i: int|
            0 <= i < self.forwards.len() && (#[trigger] self.forwards[i]).source
                == ForwardSource::Settings && self.forwards[i].key == key
    }

    /// The endpoints that no forward from settings has.
    pub open spec fn lacks_settings_key(self) -> spec_fn(KeyView) -> bool {
        |k: KeyView| !self.has_settings_key(k)
    }

    /// The endpoints that `desired` asks for and that no forward from settings has, in order.
    pub open spec fn missing(self, desired: Seq<KeyView>) -> Seq<KeyView> {
        seqs::distinct(desired).filter(self.lacks_settings_key())
    }

    /// The forwards that settings have no say in: manual ones and those of the control master.
    pub open spec fn spared() -> spec_fn(ForwardView<C>) -> bool {
        |f: ForwardView<C>| !f.is_settings_managed()
    }

    /// The forwards that survive when settings ask for `desired`: all but the managed ones from
    /// settings whose endpoints are no longer asked for.
    pub open spec fn survives(desired: Seq<KeyView>) -> spec_fn(ForwardView<C>) -> bool {
        |f: ForwardView<C>| !f.is_settings_managed() || desired.contains(f.key)
    }

    /// Without the managed forwards from settings that `desired` no longer asks for.
    pub open spec fn pruned(self, desired: Seq<KeyView>) -> Self {
        ManagerView { forwards: self.forwards.filter(Self::survives(desired)), ..self }
    }

    /// With a forward from settings for each of `keys` that got a child, in order and under
    /// consecutive identifiers.
    pub open spec fn with_launched(self, keys: Seq<KeyView>, children: Seq<Option<C>>) -> Self {
        let got = launched_pairs(keys, children);
        ManagerView {
            forwards: self.forwards + Seq::new(
                got.len(),
                |j: int|
                    ForwardView::launched(
                        (self.next_id + j) as nat,
                        got[j].0,
                        ForwardSource::Settings,
                        got[j].1->0,
                    ),
            ),
            next_id: self.next_id + got.len(),
            ..self
        }
    }

    /// After the outcomes of respawning tunnels: a child for each that is up, a failure for each
    /// that is not.
    pub open spec fn with_respawned(
        self,
        respawns: Seq<RespawnView>,
        outcomes: Seq<Result<C, Seq<char>>>,
    ) -> Self
        decreases respawns.len(),
    {
        if respawns.len() == 0 {
            self
        } else {
            let before = self.with_respawned(respawns.drop_last(), outcomes.drop_last());
            match outcomes.last() {
                Ok(child) => before.with_child(respawns.last().id, child),
                Err(message) => before.with_failure(respawns.last().id, message),
            }
        }
    }

    /// A forward leads to the remote port `port`.
    pub open spec fn forwards_to(self, port: u16) -> bool {
        exists|i: int|
            0 <= i < self.forwards.len() && (#[trigger] self.forwards[i]).key.remote_port == port
    }

    /// The ports that no forward leads to and that were not forwarded automatically before.
    pub open spec fn is_new_port(self) -> spec_fn(u16) -> bool {
        |p: u16| !self.forwards_to(p) && !self.auto_forwarded.contains(p)
    }

    /// The ports of a report that are to be forwarded automatically, each once, where the report
    /// first names it.
    pub open spec fn auto_ports(self, ports: Seq<PortView>) -> Seq<u16> {
        seqs::distinct(ports.map_values(|p: PortView| p.number())).filter(self.is_new_port())
    }

    /// After a report of listening ports.
    pub open spec fn reported(self, ports: Seq<PortView>, auto_forward: bool) -> Self {
        ManagerView {
            detected: ports,
            auto_forwarded: if auto_forward {
                self.auto_forwarded.union(self.auto_ports(ports).to_set())
            } else {
                self.auto_forwarded
            },
            ..self
        }
    }

    /// The reported ports that no forward leads to.
    pub open spec fn is_unforwarded(self) -> spec_fn(PortView) -> bool {
        |p: PortView| !self.forwards_to(p.number())
    }

    /// The rows that show the detected ports without a forward, in order.
    pub open spec fn detected_rows(self) -> Seq<RowView> {
        self.detected.filter(self.is_unforwarded()).map_values(|p: PortView| p.row())
    }

    /// The rows that show the forwards, in order.
    pub open spec fn display_rows(self) -> Seq<DisplayView> {
        self.forwards.map_values(|f: ForwardView<C>| f.display())
    }

    /// After polling was switched on or off. Switching it off forgets the last report.
    pub open spec fn with_polling(self, enabled: bool) -> Self {
        ManagerView {
            polling: enabled,
            detected: if enabled {
                self.detected
            } else {
                Seq::empty()
            },
            ..self
        }
    }
}

/// An operation of a forward manager.
#[verifier::reject_recursive_types(C)]
pub enum Operation<C> {
    /// A forward is added.
    Add { key: KeyView, source: ForwardSource, child: C },
    /// A forward could not be added.
    SpendId,
    Remove { id: nat },
    Attach { id: nat, child: C },
    Fail { id: nat, message: Seq<char> },
    Connection { connection: ConnectionState },
    /// Settings are reconciled with; what they ask for anew is then launched.
    Prune { desired: Seq<KeyView> },
    /// What settings asked for anew was launched, with or without success.
    Launch { keys: Seq<KeyView>, children: Seq<Option<C>> },
    /// Tunnels were spawned again, with or without success.
    Respawn { respawns: Seq<RespawnView>, outcomes: Seq<Result<C, Seq<char>>> },
    Report { ports: Seq<PortView>, auto_forward: bool },
    Polling { enabled: bool },
}

impl<C> ManagerView<C> {
    /// The operation can be performed: there is an outcome for each tunnel, and the control
    /// master's forwards have no tunnel of their own.
    pub open spec fn accepts(self, op: Operation<C>) -> bool {
        match op {
            Operation::Attach { id, .. } => !self.is_master_owned(id),
            Operation::Fail { id, .. } => !self.is_master_owned(id),
            Operation::Launch { keys, children } => keys.len() == children.len(),
            Operation::Respawn { respawns, outcomes } => {
                &&& respawns.len() == outcomes.len()
                &&& forall|k: int|
                    0 <= k < respawns.len() ==> !self.is_master_owned((#[trigger] respawns[k]).id)
            },
            _ => true,
        }
    }

    /// The manager after an operation.
    pub open spec fn after(self, op: Operation<C>) -> Self {
        match op {
            Operation::Add { key, source, child } => self.with_forward(key, source, child),
            Operation::SpendId => self.id_spent(),
            Operation::Remove { id } => self.without(id),
            Operation::Attach { id, child } => self.with_child(id, child),
            Operation::Fail { id, message } => self.with_failure(id, message),
            Operation::Connection { connection } => self.on_connection(connection),
            Operation::Prune { desired } => self.pruned(desired),
            Operation::Launch { keys, children } => self.with_launched(keys, children),
            Operation::Respawn { respawns, outcomes } => self.with_respawned(respawns, outcomes),
            Operation::Report { ports, auto_forward } => self.reported(ports, auto_forward),
            Operation::Polling { enabled } => self.with_polling(enabled),
        }
    }

    /// The operations can be performed one after the other.
    pub open spec fn accepts_all(self, ops: Seq<Operation<C>>) -> bool
        decreases ops.len(),
    {
        ops.len() == 0 || (self.accepts_all(ops.drop_last()) && self.after_all(
            ops.drop_last(),
        ).accepts(ops.last()))
    }

    /// The manager after a number of operations, one after the other.
    pub open spec fn after_all(self, ops: Seq<Operation<C>>) -> Self
        decreases ops.len(),
    {
        if ops.len() == 0 {
            self
        } else {
            self.after_all(ops.drop_last()).after(ops.last())
        }
    }

    /// `later` can stem from this manager: no identifier was given back, no automatically
    /// forwarded port was forgotten, and each forward that was there before the next identifier
    /// was given out is still what it was, but for its state and its child.
    pub open spec fn leads_to(self, later: Self) -> bool {
        &&& self.next_id <= later.next_id
        &&& self.auto_forwarded.subset_of(later.auto_forwarded)
        &&& forall|i: int|
            0 <= i < later.forwards.len() && (#[trigger] later.forwards[i]).id < self.next_id
                ==> self.has_kin(later.forwards[i])
    }

    /// A forward of this manager is `f`, but for its state and its child.
    pub open spec fn has_kin(self, f: ForwardView<C>) -> bool {
        exists|i: int|
            0 <= i < self.forwards.len() && (#[trigger] self.forwards[i]).id == f.id
                && self.forwards[i].key == f.key && self.forwards[i].source == f.source
                && self.forwards[i].managed == f.managed
    }
}

} // verus!
