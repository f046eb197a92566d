//! What comes of each operation, told by its inputs and what it leaves behind.
use crate::detect::{DetectedRow, ListeningPort, PortView, RowView};
use crate::forward::{
    ActiveForward, ConnectionState, DisplayView, ForwardDisplay, ForwardSource, ForwardView,
    StateView,
};
use crate::key::{ForwardKey, KeyView, SshPortForwardOption};
use crate::launch::{LaunchView, Respawn};
use crate::laws;
use crate::manager;
use crate::model::{ManagerView, RespawnView, TunnelView};
use crate::panel;
use crate::panel::{
    BodyView, DockPosition, FormView, ForwardForm, PanelBody, PanelView, PortsPanel, RemoteClient,
};
use crate::polling::PollAction;
use crate::rows::{DetectedLine, ForwardRow, StatusColor, StatusIcon};
use crate::seqs;
use crate::settings::RemoteConnectionOptions;
use crate::text;
use vstd::prelude::*;

verus! {

/// Settings name the endpoints of a forward: both ports are taken as they are written, whatever
/// the hosts, and a host that is left out is `localhost`.
pub proof fn law_option_endpoints(option: SshPortForwardOption)
    ensures
        option.key().local_port == option.local_port,
        option.key().remote_port == option.remote_port,
        option.local_host is Some ==> option.key().local_host == option.local_host->0@,
        option.local_host is None ==> option.key().local_host == "localhost"@,
        option.remote_host is Some ==> option.key().remote_host == option.remote_host->0@,
        option.remote_host is None ==> option.key().remote_host == "localhost"@,
{
}

/// A list in settings stands for one forward per entry, in order, and a missing list for none.
pub proof fn law_configured_forwards(configured: Option<Vec<SshPortForwardOption>>)
    ensures
        configured is None ==> crate::settings::forward_keys(configured).len() == 0,
        configured matches Some(list) ==> {
            let keys = crate::settings::forward_keys(configured);
            &&& keys.len() == list@.len()
            &&& forall|i: int|
                0 <= i < list@.len() ==> {
                    &&& (#[trigger] keys[i]).local_port == list@[i].local_port
                    &&& keys[i].remote_port == list@[i].remote_port
                    &&& keys[i].local_host == (match list@[i].local_host {
                        Some(host) => host@,
                        None => "localhost"@,
                    })
                    &&& keys[i].remote_host == (match list@[i].remote_host {
                        Some(host) => host@,
                        None => "localhost"@,
                    })
                }
        },
{
}

/// The control master carries the forwards that an SSH connection was made with, and no others.
pub proof fn law_master_forwards(options: RemoteConnectionOptions)
    ensures
        options matches RemoteConnectionOptions::Ssh(ssh) ==> options.master_keys()
            == crate::settings::forward_keys(ssh.port_forwards),
        options is Other ==> options.master_keys().len() == 0,
{
}

/// A new manager shows the forwards of the control master, numbered from one, and knows nothing
/// else.
pub proof fn law_new_manager<C>(connection: ConnectionState, keys: Seq<KeyView>)
    ensures
        ({
            let m = ManagerView::<C>::seeded(connection, keys);
            &&& m.forwards.len() == keys.len()
            &&& m.next_id == keys.len() + 1
            &&& m.connection == connection
            &&& m.detected.len() == 0
            &&& forall|p: u16| !m.auto_forwarded.contains(p)
            &&& !m.polling
            &&& forall|i: int|
                0 <= i < keys.len() ==> {
                    let f = #[trigger] m.forwards[i];
                    &&& f.id == i + 1
                    &&& f.key == keys[i]
                    &&& f.source == ForwardSource::Settings
                    &&& !f.managed
                    &&& f.child is None
                    &&& f.state is Active <==> connection == ConnectionState::Connected
                    &&& f.state is Pending <==> connection != ConnectionState::Connected
                }
        }),
{
}

/// What every manager is like: identifiers are positive, below the next one and not shared; a
/// managed forward is active exactly while it has a child; a forward of the control master stems
/// from settings, has no child and is active exactly while the connection is up.
pub proof fn law_manager_invariant<C>(m: ManagerView<C>, i: int, j: int)
    requires
        m.wf(),
        0 <= i < m.forwards.len(),
        0 <= j < m.forwards.len(),
    ensures
        1 <= m.forwards[i].id < m.next_id,
        i != j ==> m.forwards[i].id != m.forwards[j].id,
        m.forwards[i].managed ==> (m.forwards[i].child is Some <==> m.forwards[i].state is Active),
        !m.forwards[i].managed ==> {
            &&& m.forwards[i].source == ForwardSource::Settings
            &&& m.forwards[i].child is None
            &&& m.forwards[i].state is Active <==> m.connection == ConnectionState::Connected
            &&& m.forwards[i].state is Pending <==> m.connection != ConnectionState::Connected
        },
{
    assert(m.forwards[i].wf(m.connection));
    if i < j {
        assert(m.forwards[i].id != m.forwards[j].id);
    } else if j < i {
        assert(m.forwards[j].id != m.forwards[i].id);
    }
}

/// A forward belongs to the control master exactly if it is there and is not managed.
pub proof fn law_master_owned<C>(m: ManagerView<C>, i: int)
    requires
        m.wf(),
        0 <= i < m.forwards.len(),
    ensures
        m.is_master_owned(m.forwards[i].id) <==> !m.forwards[i].managed,
        forall|id: nat| #[trigger]
            m.is_master_owned(id) ==> exists|j: int|
                0 <= j < m.forwards.len() && (#[trigger] m.forwards[j]).id == id,
{
    if m.is_master_owned(m.forwards[i].id) {
        let j = choose|j: int|
            0 <= j < m.forwards.len() && (#[trigger] m.forwards[j]).id == m.forwards[i].id
                && !m.forwards[j].managed;
        law_manager_invariant(m, i, j);
    }
}

/// Adding a forward appends exactly one: with the endpoints and the source that were given, active
/// and carried by the given child, under the next identifier. Nothing else changes.
pub proof fn law_add_appends<C>(
    m: ManagerView<C>,
    key: KeyView,
    source: ForwardSource,
    child: C,
)
    ensures
        ({
            let after = m.with_forward(key, source, child);
            let f = after.forwards.last();
            &&& after.forwards.len() == m.forwards.len() + 1
            &&& forall|i: int|
                0 <= i < m.forwards.len() ==> #[trigger] after.forwards[i] == m.forwards[i]
            &&& f.id == m.next_id
            &&& f.key.local_host == key.local_host
            &&& f.key.local_port == key.local_port
            &&& f.key.remote_host == key.remote_host
            &&& f.key.remote_port == key.remote_port
            &&& f.source == source
            &&& f.managed
            &&& f.state is Active
            &&& f.child == Some(child)
            &&& after.next_id == m.next_id + 1
            &&& after.connection == m.connection
            &&& after.detected == m.detected
            &&& after.auto_forwarded == m.auto_forwarded
            &&& after.polling == m.polling
        }),
{
}

/// A forward that could not be added leaves nothing behind but a spent identifier.
pub proof fn law_failed_add_spends_an_id<C>(m: ManagerView<C>)
    ensures
        m.id_spent().next_id == m.next_id + 1,
        m.id_spent().forwards == m.forwards,
        m.id_spent().connection == m.connection,
        m.id_spent().detected == m.detected,
        m.id_spent().auto_forwarded == m.auto_forwarded,
        m.id_spent().polling == m.polling,
{
}

/// A launch asks for the endpoints that it was given. The local port 0 stands for any free one.
pub proof fn law_launch_asks_for_its_endpoints(
    local_port: u16,
    local_host: Seq<char>,
    remote_host: Seq<char>,
    remote_port: u16,
    source: ForwardSource,
)
    ensures
        ({
            let launch = LaunchView::requested(
                local_port,
                local_host,
                remote_host,
                remote_port,
                source,
            );
            &&& local_port == 0 ==> launch.local_port is None
            &&& local_port != 0 ==> launch.local_port == Some(local_port)
            &&& launch.local_host == local_host
            &&& launch.remote_host == remote_host
            &&& launch.remote_port == remote_port
            &&& launch.source == source
        }),
{
}

/// A detected port is forwarded from the same local port if that is free and otherwise from any
/// free one, to `localhost` on the remote side, as a manual forward.
pub proof fn law_detected_launch(remote_port: u16, local_port_free: bool)
    ensures
        ({
            let launch = LaunchView::detected(remote_port, local_port_free);
            &&& launch.local_port is Some <==> local_port_free && remote_port != 0
            &&& launch.local_port is Some ==> launch.local_port->0 == remote_port
            &&& launch.local_host == "127.0.0.1"@
            &&& launch.remote_host == "localhost"@
            &&& launch.remote_port == remote_port
            &&& launch.source == ForwardSource::Manual
        }),
{
}

/// The forward that a launch leads to has the endpoints of the launch, and so has its tunnel.
pub proof fn law_launch_endpoints(launch: LaunchView)
    requires
        launch.local_port is Some,
    ensures
        launch.key().local_host == launch.local_host,
        launch.key().local_port == launch.local_port->0,
        launch.key().remote_host == launch.remote_host,
        launch.key().remote_port == launch.remote_port,
        launch.key().tunnel().local_port == launch.local_port->0,
        launch.key().tunnel().remote_host == launch.remote_host,
        launch.key().tunnel().remote_port == launch.remote_port,
{
}

/// The tunnel of a forward leads from its local port to its remote host and port.
pub proof fn law_tunnel_endpoints(key: KeyView)
    ensures
        key.tunnel().local_port == key.local_port,
        key.tunnel().remote_host == key.remote_host,
        key.tunnel().remote_port == key.remote_port,
{
}

/// After a lost connection, a forward that was added gets back the very tunnel that was spawned
/// when it was added.
pub proof fn law_added_tunnel_comes_back<C>(
    m: ManagerView<C>,
    launch: LaunchView,
    child: C,
    lost: ConnectionState,
)
    requires
        m.wf(),
        m.connection == ConnectionState::Connected,
        lost != ConnectionState::Connected,
        launch.local_port is Some,
    ensures
        ({
            let added = m.with_forward(launch.key(), launch.source, child);
            let respawns = added.on_connection(lost).respawns_on(ConnectionState::Connected);
            &&& respawns.len() > 0
            &&& respawns.last().id == m.next_id
            &&& respawns.last().tunnel.local_port == launch.local_port->0
            &&& respawns.last().tunnel.remote_host == launch.remote_host
            &&& respawns.last().tunnel.remote_port == launch.remote_port
        }),
{
    let added = m.with_forward(launch.key(), launch.source, child);
    let down = added.on_connection(lost);
    let dead = ManagerView::<C>::dead();
    let f = down.forwards.last();
    assert(f == added.forwards.last().torn_down());
    assert(down.forwards == down.forwards.drop_last().push(f));
    seqs::lemma_filter_push(down.forwards.drop_last(), dead, f);
    assert(down.forwards.filter(dead).last() == f);
}

/// Removing a forward takes out exactly that one. The others keep their places and everything
/// else stays as it is; an unknown identifier changes nothing.
pub proof fn law_remove_takes_out_one<C>(m: ManagerView<C>, id: nat)
    requires
        m.wf(),
    ensures
        forall|i: int|
            0 <= i < m.forwards.len() && (#[trigger] m.forwards[i]).id == id ==> m.without(
                id,
            ).forwards == m.forwards.remove(i),
        (forall|i: int| 0 <= i < m.forwards.len() ==> (#[trigger] m.forwards[i]).id != id)
            ==> m.without(id).forwards == m.forwards,
        m.without(id).next_id == m.next_id,
        m.without(id).connection == m.connection,
        m.without(id).detected == m.detected,
        m.without(id).auto_forwarded == m.auto_forwarded,
        m.without(id).polling == m.polling,
{
    let keep = ManagerView::<C>::other_than(id);
    assert forall|i: int| 0 <= i < m.forwards.len() && (#[trigger] m.forwards[i]).id
        == id implies m.without(id).forwards == m.forwards.remove(i) by {
        assert forall|j: int| 0 <= j < m.forwards.len() && j != i implies keep(
            #[trigger] m.forwards[j],
        ) by {
            if j < i {
                assert(m.forwards[j].id != m.forwards[i].id);
            } else {
                assert(m.forwards[i].id != m.forwards[j].id);
            }
        }
        lemma_filter_but_one(m.forwards, keep, i);
    }
    if forall|i: int| 0 <= i < m.forwards.len() ==> (#[trigger] m.forwards[i]).id != id {
        seqs::lemma_filter_all(m.forwards, keep);
    }
}

/// A filter that rejects one element alone takes out that one.
proof fn lemma_filter_but_one<A>(s: Seq<A>, keep: spec_fn(A) -> bool, i: int)
    requires
        0 <= i < s.len(),
        !keep(s[i]),
        forall|j: int| 0 <= j < s.len() && j != i ==> keep(#[trigger] s[j]),
    ensures
        s.filter(keep) == s.remove(i),
    decreases s.len(),
{
    let t = s.drop_last();
    assert(s == t.push(s.last()));
    seqs::lemma_filter_push(t, keep, s.last());
    if i == s.len() - 1 {
        seqs::lemma_filter_all(t, keep);
        assert(s.remove(i) =~= t);
    } else {
        assert forall|j: int| 0 <= j < t.len() && j != i implies keep(#[trigger] t[j]) by {
            assert(t[j] == s[j]);
        }
        lemma_filter_but_one(t, keep, i);
        assert(keep(s[s.len() - 1]));
        assert(s.remove(i) =~= t.remove(i).push(s.last()));
    }
}

/// A child makes its forward active and changes nothing else.
pub proof fn law_child_makes_active<C>(m: ManagerView<C>, id: nat, child: C)
    ensures
        ({
            let after = m.with_child(id, child);
            &&& after.forwards.len() == m.forwards.len()
            &&& forall|i: int|
                0 <= i < m.forwards.len() ==> {
                    let f = #[trigger] after.forwards[i];
                    &&& m.forwards[i].id != id ==> f == m.forwards[i]
                    &&& m.forwards[i].id == id ==> {
                        &&& f.id == id
                        &&& f.key == m.forwards[i].key
                        &&& f.source == m.forwards[i].source
                        &&& f.managed == m.forwards[i].managed
                        &&& f.state is Active
                        &&& f.child == Some(child)
                    }
                }
            &&& after.next_id == m.next_id
            &&& after.connection == m.connection
            &&& after.detected == m.detected
            &&& after.auto_forwarded == m.auto_forwarded
            &&& after.polling == m.polling
        }),
{
}

/// A failure takes the child of its forward, keeps the message, and changes nothing else.
pub proof fn law_failure_takes_child<C>(m: ManagerView<C>, id: nat, message: Seq<char>)
    ensures
        ({
            let after = m.with_failure(id, message);
            &&& after.forwards.len() == m.forwards.len()
            &&& forall|i: int|
                0 <= i < m.forwards.len() ==> {
                    let f = #[trigger] after.forwards[i];
                    &&& m.forwards[i].id != id ==> f == m.forwards[i]
                    &&& m.forwards[i].id == id ==> {
                        &&& f.id == id
                        &&& f.key == m.forwards[i].key
                        &&& f.source == m.forwards[i].source
                        &&& f.managed == m.forwards[i].managed
                        &&& f.state == StateView::Failed(message)
                        &&& f.child is None
                    }
                }
            &&& after.next_id == m.next_id
            &&& after.connection == m.connection
            &&& after.detected == m.detected
            &&& after.auto_forwarded == m.auto_forwarded
            &&& after.polling == m.polling
        }),
{
}

/// A change of the connection. Losing it leaves every forward pending and without a child.
/// Regaining it leaves managed forwards as they are and makes those of the control master active.
/// Any other change leaves all forwards as they are. No forward gets another identity.
pub proof fn law_connection_change<C>(m: ManagerView<C>, connection: ConnectionState)
    ensures
        ({
            let after = m.on_connection(connection);
            let up = ConnectionState::Connected;
            &&& after.connection == connection
            &&& after.next_id == m.next_id
            &&& after.detected == m.detected
            &&& after.auto_forwarded == m.auto_forwarded
            &&& after.polling == m.polling
            &&& after.forwards.len() == m.forwards.len()
            &&& forall|i: int|
                0 <= i < m.forwards.len() ==> {
                    let f = m.forwards[i];
                    let g = #[trigger] after.forwards[i];
                    &&& g.id == f.id
                    &&& g.key == f.key
                    &&& g.source == f.source
                    &&& g.managed == f.managed
                    &&& m.connection == up && connection != up ==> g.state is Pending
                        && g.child is None
                    &&& m.connection != up && connection == up ==> g.child == f.child && (
                    if f.managed {
                        g.state == f.state
                    } else {
                        g.state is Active
                    })
                    &&& (m.connection == up <==> connection == up) ==> g == f
                }
        }),
{
}

/// Tunnels are asked for again exactly when the connection comes up: one for each managed forward
/// without a child, in order, under the identifier and with the endpoints of the forward.
pub proof fn law_respawn_list<C>(m: ManagerView<C>, connection: ConnectionState)
    ensures
        m.connection == ConnectionState::Connected || connection != ConnectionState::Connected
            ==> m.respawns_on(connection).len() == 0,
        m.connection != ConnectionState::Connected && connection == ConnectionState::Connected
            ==> m.respawns_on(connection) == m.forwards.filter(
            |f: ForwardView<C>| f.managed && f.child is None,
        ).map_values(
            |f: ForwardView<C>|
                RespawnView {
                    id: f.id,
                    tunnel: TunnelView {
                        local_port: f.key.local_port,
                        remote_host: f.key.remote_host,
                        remote_port: f.key.remote_port,
                    },
                },
        ),
{
    let managed_dead = |f: ForwardView<C>| f.managed && f.child is None;
    seqs::lemma_filter_agree(m.forwards, ManagerView::<C>::dead(), managed_dead);
    if m.connection != ConnectionState::Connected && connection == ConnectionState::Connected {
        assert(m.respawns_on(connection) =~= m.forwards.filter(managed_dead).map_values(
            |f: ForwardView<C>|
                RespawnView {
                    id: f.id,
                    tunnel: TunnelView {
                        local_port: f.key.local_port,
                        remote_host: f.key.remote_host,
                        remote_port: f.key.remote_port,
                    },
                },
        ));
    }
}

/// One outcome of a respawn more: its forward, and no other, gets the child or the failure.
pub proof fn law_one_more_respawn<C>(
    m: ManagerView<C>,
    respawns: Seq<RespawnView>,
    outcomes: Seq<Result<C, Seq<char>>>,
    respawn: RespawnView,
    outcome: Result<C, Seq<char>>,
)
    requires
        respawns.len() == outcomes.len(),
    ensures
        m.with_respawned(Seq::empty(), Seq::empty()) == m,
        ({
            let before = m.with_respawned(respawns, outcomes);
            let after = m.with_respawned(respawns.push(respawn), outcomes.push(outcome));
            &&& after.forwards.len() == before.forwards.len()
            &&& forall|i: int|
                0 <= i < before.forwards.len() ==> {
                    let f = before.forwards[i];
                    let g = #[trigger] after.forwards[i];
                    &&& g.id == f.id
                    &&& g.key == f.key
                    &&& g.source == f.source
                    &&& g.managed == f.managed
                    &&& f.id != respawn.id ==> g == f
                    &&& f.id == respawn.id && outcome is Ok ==> g.state is Active && g.child
                        == Some(outcome->Ok_0)
                    &&& f.id == respawn.id && outcome is Err ==> g.state == StateView::Failed(
                        outcome->Err_0,
                    ) && g.child is None
                }
            &&& after.next_id == before.next_id
            &&& after.connection == before.connection
            &&& after.detected == before.detected
            &&& after.auto_forwarded == before.auto_forwarded
            &&& after.polling == before.polling
        }),
{
    assert(respawns.push(respawn).drop_last() == respawns);
    assert(outcomes.push(outcome).drop_last() == outcomes);
}

/// One launch for settings more: with a child it appends one forward from settings with exactly
/// the endpoints that were asked for, under the next identifier; without one it changes nothing.
pub proof fn law_one_more_launch<C>(
    m: ManagerView<C>,
    keys: Seq<KeyView>,
    children: Seq<Option<C>>,
    key: KeyView,
    child: Option<C>,
)
    requires
        keys.len() == children.len(),
    ensures
        m.with_launched(Seq::empty(), Seq::empty()) == m,
        ({
            let before = m.with_launched(keys, children);
            let after = m.with_launched(keys.push(key), children.push(child));
            &&& child is None ==> after == before
            &&& child is Some ==> {
                let f = after.forwards.last();
                &&& after.forwards.len() == before.forwards.len() + 1
                &&& forall|i: int|
                    0 <= i < before.forwards.len() ==> #[trigger] after.forwards[i]
                        == before.forwards[i]
                &&& f.id == before.next_id
                &&& f.key == key
                &&& f.source == ForwardSource::Settings
                &&& f.managed
                &&& f.state is Active
                &&& f.child == child
                &&& after.next_id == before.next_id + 1
                &&& after.connection == before.connection
                &&& after.detected == before.detected
                &&& after.auto_forwarded == before.auto_forwarded
                &&& after.polling == before.polling
            }
        }),
{
    laws::lemma_launched_none(m, Seq::empty(), Seq::empty());
    laws::lemma_launched_step(m, keys.push(key), children.push(child));
    assert(keys.push(key).drop_last() == keys);
    assert(children.push(child).drop_last() == children);
}

/// Reconciling with settings drops exactly the managed forwards from settings that are no longer
/// asked for. The others keep their order, and everything else stays as it is.
pub proof fn law_prune_drops_deleted<C>(m: ManagerView<C>, desired: Seq<KeyView>)
    ensures
        m.pruned(desired).forwards == m.forwards.filter(
            |f: ForwardView<C>|
                f.source == ForwardSource::Manual || !f.managed || desired.contains(f.key),
        ),
        forall|f: ForwardView<C>| #[trigger]
            m.pruned(desired).forwards.contains(f) <==> m.forwards.contains(f) && (f.source
                == ForwardSource::Manual || !f.managed || desired.contains(f.key)),
        m.pruned(desired).next_id == m.next_id,
        m.pruned(desired).connection == m.connection,
        m.pruned(desired).detected == m.detected,
        m.pruned(desired).auto_forwarded == m.auto_forwarded,
        m.pruned(desired).polling == m.polling,
{
    let stays = |f: ForwardView<C>|
        f.source == ForwardSource::Manual || !f.managed || desired.contains(f.key);
    seqs::lemma_filter_agree(m.forwards, ManagerView::<C>::survives(desired), stays);
    assert forall|f: ForwardView<C>| #[trigger]
        m.pruned(desired).forwards.contains(f) <==> m.forwards.contains(f) && stays(f) by {
        seqs::lemma_filter_contains(m.forwards, stays, f);
    }
}

/// The forwards to launch for settings are exactly those that are asked for and that no forward
/// from settings has the endpoints of, each once.
pub proof fn law_missing_forwards<C>(m: ManagerView<C>, desired: Seq<KeyView>)
    ensures
        forall|k: KeyView| #[trigger]
            m.missing(desired).contains(k) <==> desired.contains(k) && forall|i: int|
                0 <= i < m.forwards.len() ==> !((#[trigger] m.forwards[i]).key == k
                    && m.forwards[i].source == ForwardSource::Settings),
        m.missing(desired).no_duplicates(),
{
    let all = seqs::distinct(desired);
    let lacks = m.lacks_settings_key();
    seqs::lemma_distinct(desired);
    assert forall|k: KeyView| #[trigger]
        m.missing(desired).contains(k) <==> desired.contains(k) && forall|i: int|
            0 <= i < m.forwards.len() ==> !((#[trigger] m.forwards[i]).key == k
                && m.forwards[i].source == ForwardSource::Settings) by {
        seqs::lemma_filter_contains(all, lacks, k);
    }
    seqs::lemma_filter_no_duplicates(all, lacks);
}

/// The forwards to launch for settings come in the order in which they are first asked for.
pub proof fn law_missing_forwards_in_order<C>(
    m: ManagerView<C>,
    desired: Seq<KeyView>,
    a: int,
    b: int,
)
    requires
        0 <= a < b < m.missing(desired).len(),
    ensures
        exists|i: int|
            0 <= i < desired.len() && #[trigger] desired[i] == m.missing(desired)[a] && (forall|
                j: int,
            | 0 <= j <= i ==> #[trigger] desired[j] != m.missing(desired)[b]),
{
    seqs::lemma_distinct_filter_order(desired, m.lacks_settings_key(), a, b);
}

/// A report leads to exactly the forwards that are due: a port is forwarded automatically if and
/// only if the report names it, no forward leads to it, and it was not forwarded automatically
/// before. Each comes once.
pub proof fn law_auto_forward_exactly<C>(m: ManagerView<C>, ports: Seq<PortView>)
    ensures
        forall|p: u16| #[trigger]
            m.auto_ports(ports).contains(p) <==> {
                &&& exists|i: int| 0 <= i < ports.len() && (#[trigger] ports[i]).port % 0x1_0000 == p
                &&& forall|i: int|
                    0 <= i < m.forwards.len() ==> (#[trigger] m.forwards[i]).key.remote_port != p
                &&& !m.auto_forwarded.contains(p)
            },
        m.auto_ports(ports).no_duplicates(),
{
    let numbers = ports.map_values(|p: PortView| p.number());
    let all = seqs::distinct(numbers);
    let new = m.is_new_port();
    seqs::lemma_distinct(numbers);
    assert forall|i: int| 0 <= i < ports.len() implies (#[trigger] ports[i]).port % 0x1_0000
        == numbers[i] by {
    }
    assert forall|p: u16| #[trigger] m.auto_ports(ports).contains(p) <==> {
        &&& exists|i: int| 0 <= i < ports.len() && (#[trigger] ports[i]).port % 0x1_0000 == p
        &&& forall|i: int|
            0 <= i < m.forwards.len() ==> (#[trigger] m.forwards[i]).key.remote_port != p
        &&& !m.auto_forwarded.contains(p)
    } by {
        seqs::lemma_filter_contains(all, new, p);
        if numbers.contains(p) {
            let i = choose|i: int| 0 <= i < numbers.len() && numbers[i] == p;
            assert(ports[i].port % 0x1_0000 == p);
        }
        if exists|i: int| 0 <= i < ports.len() && (#[trigger] ports[i]).port % 0x1_0000 == p {
            let i = choose|i: int|
                0 <= i < ports.len() && (#[trigger] ports[i]).port % 0x1_0000 == p;
            assert(numbers[i] == p);
        }
    }
    seqs::lemma_filter_no_duplicates(all, new);
}

/// Ports are forwarded automatically in the order in which the report first names them.
pub proof fn law_auto_forward_in_order<C>(m: ManagerView<C>, ports: Seq<PortView>, a: int, b: int)
    requires
        0 <= a < b < m.auto_ports(ports).len(),
    ensures
        exists|i: int|
            0 <= i < ports.len() && (#[trigger] ports[i]).port % 0x1_0000 == m.auto_ports(ports)[a]
                && (forall|j: int|
                0 <= j <= i ==> (#[trigger] ports[j]).port % 0x1_0000 != m.auto_ports(ports)[b]),
{
    let numbers = ports.map_values(|p: PortView| p.number());
    seqs::lemma_distinct_filter_order(numbers, m.is_new_port(), a, b);
    let i = choose|i: int|
        0 <= i < numbers.len() && #[trigger] numbers[i] == m.auto_ports(ports)[a] && (forall|
            j: int,
        | 0 <= j <= i ==> #[trigger] numbers[j] != m.auto_ports(ports)[b]);
    assert(ports[i].port % 0x1_0000 == m.auto_ports(ports)[a]);
    assert forall|j: int| 0 <= j <= i implies (#[trigger] ports[j]).port % 0x1_0000
        != m.auto_ports(ports)[b] by {
        assert(numbers[j] != m.auto_ports(ports)[b]);
    }
}

/// A report is kept as it came in. With automatic forwarding the forwarded ports are remembered,
/// without it none is. Nothing else changes.
pub proof fn law_report_is_kept<C>(m: ManagerView<C>, ports: Seq<PortView>, auto_forward: bool)
    ensures
        ({
            let after = m.reported(ports, auto_forward);
            &&& after.detected == ports
            &&& forall|p: u16| #[trigger]
                after.auto_forwarded.contains(p) <==> m.auto_forwarded.contains(p) || (auto_forward
                    && m.auto_ports(ports).contains(p))
            &&& after.forwards == m.forwards
            &&& after.next_id == m.next_id
            &&& after.connection == m.connection
            &&& after.polling == m.polling
        }),
{
}

/// Polling is switched as asked. Switching it off forgets the last report, switching it on keeps
/// it. Nothing else changes.
pub proof fn law_polling_switch<C>(m: ManagerView<C>, enabled: bool)
    ensures
        ({
            let after = m.with_polling(enabled);
            &&& after.polling == enabled
            &&& enabled ==> after.detected == m.detected
            &&& !enabled ==> after.detected.len() == 0
            &&& after.forwards == m.forwards
            &&& after.next_id == m.next_id
            &&& after.connection == m.connection
            &&& after.auto_forwarded == m.auto_forwarded
        }),
{
}

/// The rows of detected ports: one for each entry of the last report whose port no forward leads
/// to, in order, with the port, the address and the process of the entry.
pub proof fn law_detected_rows_follow_report<C>(m: ManagerView<C>)
    ensures
        m.detected_rows() == m.detected.filter(
            |p: PortView|
                forall|i: int|
                    0 <= i < m.forwards.len() ==> (#[trigger] m.forwards[i]).key.remote_port
                        != p.port % 0x1_0000,
        ).map_values(
            |p: PortView|
                RowView {
                    port: (p.port % 0x1_0000) as u16,
                    address: p.address,
                    process_name: p.process_name,
                },
        ),
{
    let free = |p: PortView|
        forall|i: int|
            0 <= i < m.forwards.len() ==> (#[trigger] m.forwards[i]).key.remote_port != p.port
                % 0x1_0000;
    assert forall|k: int| 0 <= k < m.detected.len() implies (m.is_unforwarded())(
        #[trigger] m.detected[k],
    ) == free(m.detected[k]) by {
        let p = m.detected[k];
        assert(p.number() == p.port % 0x1_0000);
    }
    seqs::lemma_filter_agree(m.detected, m.is_unforwarded(), free);
    assert(m.detected_rows() =~= m.detected.filter(free).map_values(
        |p: PortView|
            RowView {
                port: (p.port % 0x1_0000) as u16,
                address: p.address,
                process_name: p.process_name,
            },
    ));
}

/// A snapshot shows each forward as it is, in order.
pub proof fn law_snapshot<C>(m: ManagerView<C>)
    ensures
        m.display_rows().len() == m.forwards.len(),
        forall|i: int|
            0 <= i < m.forwards.len() ==> {
                let row = #[trigger] m.display_rows()[i];
                &&& row.id == m.forwards[i].id
                &&& row.key.local_host == m.forwards[i].key.local_host
                &&& row.key.local_port == m.forwards[i].key.local_port
                &&& row.key.remote_host == m.forwards[i].key.remote_host
                &&& row.key.remote_port == m.forwards[i].key.remote_port
                &&& row.source == m.forwards[i].source
                &&& row.managed == m.forwards[i].managed
                &&& row.state == m.forwards[i].state
            },
{
}

/// What the row of a forward says: where to open it on this machine, both endpoints, how it does,
/// whether it comes from settings, why it failed; and only managed forwards can be removed.
pub proof fn law_forward_row(d: DisplayView)
    ensures
        ({
            let row = d.row();
            let local_port = text::decimal(d.key.local_port as nat);
            let remote_port = text::decimal(d.key.remote_port as nat);
            &&& row.id == d.id
            &&& row.local_url == "http://127.0.0.1:"@ + local_port
            &&& row.label == d.key.local_host + ":"@ + local_port + " → "@ + (d.key.remote_host
                + ":"@ + remote_port)
            &&& row.icon == StatusIcon::Check <==> d.state is Active
            &&& row.icon == StatusIcon::ArrowCircle <==> d.state is Pending
            &&& row.icon == StatusIcon::XCircle <==> d.state is Failed
            &&& row.color == StatusColor::Success <==> d.state is Active
            &&& row.color == StatusColor::Muted <==> d.state is Pending
            &&& row.color == StatusColor::Error <==> d.state is Failed
            &&& d.source == ForwardSource::Settings ==> row.note == Some("via settings"@)
            &&& d.source == ForwardSource::Manual ==> row.note is None
            &&& d.state is Failed ==> row.failure == Some(d.state->Failed_0)
            &&& !(d.state is Failed) ==> row.failure is None
            &&& row.removable == d.managed
        }),
{
}

/// What the row of a detected port says: the name of the process, if there is one, and where it
/// listens.
pub proof fn law_detected_line(row: RowView)
    ensures
        row.line().port == row.port,
        row.process_name is Some && row.process_name->0.len() > 0 ==> row.line().label
            == row.process_name->0 + " — "@ + (row.address + ":"@ + text::decimal(
            row.port as nat,
        )),
        row.process_name is None || row.process_name->0.len() == 0 ==> row.line().label
            == row.address + ":"@ + text::decimal(row.port as nat),
{
}

/// What the panel shows of a manager: a row for each forward and for each detected port, in order;
/// a notice exactly if there is no forward, a heading exactly if there is a detected port.
pub proof fn law_body_shows_all<C>(m: ManagerView<C>)
    ensures
        m.body() matches BodyView::Ports { empty_notice, forwards, detected_heading, detected } && {
            &&& m.forwards.len() == 0 ==> empty_notice == Some("No forwarded ports."@)
            &&& m.forwards.len() > 0 ==> empty_notice is None
            &&& forwards.len() == m.forwards.len()
            &&& forall|i: int|
                0 <= i < forwards.len() ==> #[trigger] forwards[i] == m.display_rows()[i].row()
            &&& m.detected_rows().len() > 0 ==> detected_heading == Some("Detected ports"@)
            &&& m.detected_rows().len() == 0 ==> detected_heading is None
            &&& detected.len() == m.detected_rows().len()
            &&& forall|i: int|
                0 <= i < detected.len() ==> #[trigger] detected[i] == m.detected_rows()[i].line()
        },
{
}

/// Without a manager the panel shows only where forwarding is available, with one what that shows.
pub proof fn law_panel_body<C>(p: PanelView<C>)
    ensures
        p.manager is None ==> p.body() == BodyView::Unavailable(
            "Port forwarding is available for SSH remote projects."@,
        ),
        p.manager is Some ==> p.body() == p.manager->0.body(),
{
}

/// A new panel has no manager, nothing written in its form, and is docked at the bottom.
pub proof fn law_new_panel<C>()
    ensures
        PanelView::<C>::blank().manager is None,
        PanelView::<C>::blank().form.local_port.len() == 0,
        PanelView::<C>::blank().form.remote_host.len() == 0,
        PanelView::<C>::blank().form.remote_port.len() == 0,
        PanelView::<C>::blank().position == DockPosition::Bottom,
{
}

/// A panel without a manager gets one exactly for an SSH connection that does not share the
/// network interface. The manager starts with the forwards of the control master, and what settings
/// ask for beyond those is to be launched. The form and the place of the panel stay.
pub proof fn law_manager_for_ssh<C>(
    p: PanelView<C>,
    remote: Option<RemoteClient>,
    configured: Seq<KeyView>,
)
    ensures
        ({
            let after = p.ensured(remote);
            let wanted = p.manager is None && remote is Some && remote->0.options is Ssh
                && !remote->0.shares_network_interface;
            &&& p.creates_manager(remote) == wanted
            &&& !wanted ==> after == p
            &&& wanted ==> {
                &&& after.manager == Some(
                    ManagerView::<C>::seeded(
                        remote->0.connection_state,
                        remote->0.options.master_keys(),
                    ),
                )
                &&& PanelView::<C>::initial_launches(remote->0, configured)
                    == after.manager->0.missing(configured)
                &&& forall|k: KeyView| #[trigger]
                    PanelView::<C>::initial_launches(remote->0, configured).contains(k)
                        <==> configured.contains(k) && !remote->0.options.master_keys().contains(k)
                &&& PanelView::<C>::initial_launches(remote->0, configured).no_duplicates()
            }
            &&& after.form == p.form
            &&& after.position == p.position
        }),
{
    if remote is Some {
        let keys = remote->0.options.master_keys();
        let m = ManagerView::<C>::seeded(remote->0.connection_state, keys);
        law_missing_forwards(m, configured);
        assert forall|k: KeyView| #[trigger]
            PanelView::<C>::initial_launches(remote->0, configured).contains(k)
                <==> configured.contains(k) && !keys.contains(k) by {
            if keys.contains(k) {
                let i = choose|i: int| 0 <= i < keys.len() && keys[i] == k;
                assert(m.forwards[i].key == k);
            }
            if !m.missing(configured).contains(k) && configured.contains(k) {
                let i = choose|i: int|
                    0 <= i < m.forwards.len() && (#[trigger] m.forwards[i]).key == k
                        && m.forwards[i].source == ForwardSource::Settings;
                assert(keys[i] == k);
            }
        }
    }
}

/// The form asks for a forward exactly if it names a remote port. A local port that it names is
/// taken; where it names none, or zero, any free one is, whatever else it says. A host that it
/// names is taken without the white space around it; where it names none, it is `localhost`.
pub proof fn law_form_launch(form: FormView)
    ensures
        form.launch() is Some <==> panel::port_of(form.remote_port) is Some,
        form.launch() matches Some(launch) ==> {
            &&& launch.local_port is Some <==> panel::port_of(form.local_port) is Some
                && panel::port_of(form.local_port) != Some(0u16)
            &&& launch.local_port is Some ==> launch.local_port == panel::port_of(form.local_port)
            &&& launch.local_host == "127.0.0.1"@
            &&& text::trimmed(form.remote_host).len() == 0 ==> launch.remote_host == "localhost"@
            &&& text::trimmed(form.remote_host).len() > 0 ==> launch.remote_host == text::trimmed(
                form.remote_host,
            )
            &&& Some(launch.remote_port) == panel::port_of(form.remote_port)
            &&& launch.source == ForwardSource::Manual
        },
{
}

/// A field that holds nothing but white space names no port, so a form whose local port is blank
/// has one allocated.
pub proof fn law_blank_local_port_is_allocated(form: FormView)
    requires
        laws::blank(form.local_port),
    ensures
        panel::port_of(form.local_port) is None,
        form.launch() matches Some(launch) ==> launch.local_port is None,
{
    law_trimmed(form.local_port);
    lemma_blank_trims_away(form.local_port);
}

/// White space alone is trimmed away.
proof fn lemma_blank_trims_away(s: Seq<char>)
    requires
        laws::blank(s),
    ensures
        text::trimmed(s).len() == 0,
    decreases s.len(),
{
    if s.len() > 0 {
        assert(text::is_white_space(s[0]));
        let rest = s.drop_first();
        assert forall|i: int| 0 <= i < rest.len() implies text::is_white_space(
            #[trigger] rest[i],
        ) by {
            assert(rest[i] == s[i + 1]);
        }
        lemma_blank_trims_away(rest);
    }
}

/// Using the form clears both ports and leaves the host.
pub proof fn law_form_is_cleared(form: FormView)
    ensures
        form.used().local_port.len() == 0,
        form.used().remote_port.len() == 0,
        form.used().remote_host == form.remote_host,
{
}

/// Leading white space comes off, and nothing else.
proof fn lemma_trimmed_start(s: Seq<char>)
    ensures
        exists|before: Seq<char>| #[trigger]
            laws::blank(before) && s == before + text::trimmed_start(s),
        text::trimmed_start(s).len() > 0 ==> !text::is_white_space(text::trimmed_start(s).first()),
    decreases s.len(),
{
    if s.len() > 0 && text::is_white_space(s.first()) {
        let rest = s.drop_first();
        lemma_trimmed_start(rest);
        let pad = choose|before: Seq<char>| #[trigger]
            laws::blank(before) && rest == before + text::trimmed_start(rest);
        let before = seq![s.first()] + pad;
        assert forall|i: int| 0 <= i < before.len() implies text::is_white_space(
            #[trigger] before[i],
        ) by {
            if i > 0 {
                assert(before[i] == pad[i - 1]);
            }
        }
        assert(laws::blank(before));
        assert(s =~= seq![s.first()] + rest);
        assert(seq![s.first()] + (pad + text::trimmed_start(rest)) =~= before
            + text::trimmed_start(rest));
    } else {
        let before = Seq::<char>::empty();
        assert(laws::blank(before));
        assert(s =~= before + text::trimmed_start(s));
    }
}

/// Trailing white space comes off, and nothing else.
proof fn lemma_trimmed_end(s: Seq<char>)
    ensures
        exists|after: Seq<char>| #[trigger]
            laws::blank(after) && s == text::trimmed_end(s) + after,
        text::trimmed_end(s).len() > 0 ==> !text::is_white_space(text::trimmed_end(s).last()),
    decreases s.len(),
{
    if s.len() > 0 && text::is_white_space(s.last()) {
        let rest = s.drop_last();
        lemma_trimmed_end(rest);
        let pad = choose|after: Seq<char>| #[trigger]
            laws::blank(after) && rest == text::trimmed_end(rest) + after;
        let after = pad.push(s.last());
        assert forall|i: int| 0 <= i < after.len() implies text::is_white_space(
            #[trigger] after[i],
        ) by {
            if i < pad.len() {
                assert(after[i] == pad[i]);
            }
        }
        assert(laws::blank(after));
        assert(s =~= rest.push(s.last()));
        assert((text::trimmed_end(rest) + pad).push(s.last()) =~= text::trimmed_end(rest) + after);
    } else {
        let after = Seq::<char>::empty();
        assert(laws::blank(after));
        assert(s =~= text::trimmed_end(s) + after);
    }
}

/// Trimming takes white space off both ends and nothing else: what is left neither starts nor ends
/// with it.
pub proof fn law_trimmed(s: Seq<char>)
    ensures
        exists|before: Seq<char>, after: Seq<char>|
            #[trigger] laws::blank(before) && #[trigger] laws::blank(after) && s == before
                + text::trimmed(s) + after,
        text::trimmed(s).len() > 0 ==> {
            &&& !text::is_white_space(text::trimmed(s).first())
            &&& !text::is_white_space(text::trimmed(s).last())
        },
{
    let t = text::trimmed_start(s);
    lemma_trimmed_start(s);
    lemma_trimmed_end(t);
    let before = choose|before: Seq<char>| #[trigger] laws::blank(before) && s == before + t;
    let after = choose|after: Seq<char>| #[trigger]
        laws::blank(after) && t == text::trimmed_end(t) + after;
    assert(s =~= before + text::trimmed(s) + after);
    if text::trimmed(s).len() > 0 {
        assert(text::trimmed(s).first() == t.first());
    }
}

/// A text writes a number exactly if it consists of decimal digits, at least one, which a plus sign
/// may precede; and then the digits stand for that number.
pub proof fn law_written_number(s: Seq<char>, n: nat)
    ensures
        text::unsigned_value(s) == Some(n) <==> exists|digits: Seq<char>|
            {
                &&& #[trigger] text::all_digits(digits)
                &&& digits.len() > 0
                &&& text::digits_value(digits) == n
                &&& s == digits || s == seq!['+'] + digits
            },
{
    if text::unsigned_value(s) == Some(n) {
        if s.first() == '+' {
            let digits = s.drop_first();
            assert(text::all_digits(digits));
            assert(s =~= seq!['+'] + digits);
        } else {
            assert(text::all_digits(s));
        }
    }
    if exists|digits: Seq<char>|
        {
            &&& #[trigger] text::all_digits(digits)
            &&& digits.len() > 0
            &&& text::digits_value(digits) == n
            &&& s == digits || s == seq!['+'] + digits
        } {
        let digits = choose|digits: Seq<char>|
            {
                &&& #[trigger] text::all_digits(digits)
                &&& digits.len() > 0
                &&& text::digits_value(digits) == n
                &&& s == digits || s == seq!['+'] + digits
            };
        if s == digits {
            assert(text::is_digit(digits[0]));
            assert(s.first() != '+');
        } else {
            assert(s.drop_first() =~= digits);
        }
    }
}

/// A text names a port exactly if, without the white space around it, it is a decimal number of at
/// most 65535, which a plus sign may precede; and then that number is the port.
pub proof fn law_named_port(s: Seq<char>, port: u16)
    ensures
        panel::port_of(s) == Some(port) <==> exists|digits: Seq<char>|
            {
                &&& #[trigger] text::all_digits(digits)
                &&& digits.len() > 0
                &&& text::digits_value(digits) == port
                &&& text::trimmed(s) == digits || text::trimmed(s) == seq!['+'] + digits
            },
{
    law_written_number(text::trimmed(s), port as nat);
}

/// Every digit text consists of the ten decimal digits alone.
pub proof fn law_all_digits(s: Seq<char>)
    ensures
        text::all_digits(s) <==> forall|i: int| 0 <= i < s.len() ==> '0' <= #[trigger] s[i] <= '9',
{
    if text::all_digits(s) {
        assert forall|i: int| 0 <= i < s.len() implies '0' <= #[trigger] s[i] <= '9' by {
            assert(text::is_digit(s[i]));
        }
    }
    if forall|i: int| 0 <= i < s.len() ==> '0' <= #[trigger] s[i] <= '9' {
        assert forall|i: int| 0 <= i < s.len() implies text::is_digit(#[trigger] s[i]) by {
        }
    }
}

/// Digits are the ten decimal ones, and a digit further to the right counts a tenth.
pub proof fn law_digits(s: Seq<char>, c: char)
    requires
        text::is_digit(c),
    ensures
        '0' <= c <= '9',
        text::digits_value(Seq::empty()) == 0,
        text::digits_value(s.push(c)) == 10 * text::digits_value(s) + (c as int - '0' as int),
        text::all_digits(s.push(c)) <==> text::all_digits(s),
{
    assert(s.push(c).drop_last() == s);
    if text::all_digits(s) {
        assert forall|i: int| 0 <= i < s.push(c).len() implies text::is_digit(
            #[trigger] s.push(c)[i],
        ) by {
            if i < s.len() {
                assert(s.push(c)[i] == s[i]);
            }
        }
    }
    if text::all_digits(s.push(c)) {
        assert forall|i: int| 0 <= i < s.len() implies text::is_digit(#[trigger] s[i]) by {
            assert(s.push(c)[i] == s[i]);
        }
    }
}

/// A number written in decimal consists of digits, stands for the number, and has no leading zero.
pub proof fn law_decimal(n: nat)
    ensures
        text::decimal(n).len() > 0,
        text::all_digits(text::decimal(n)),
        text::digits_value(text::decimal(n)) == n,
        n > 0 ==> text::decimal(n).first() != '0',
        n == 0 ==> text::decimal(n).len() == 1,
    decreases n,
{
    laws::lemma_decimal(n);
    if n >= 10 {
        law_decimal(n / 10);
        assert(text::decimal(n).first() == text::decimal(n / 10).first());
    }
}

/// Lowering the case changes the ASCII capital letters, each into its small one, and no other
/// character.
pub proof fn law_lowered(s: Seq<char>)
    ensures
        text::lowered(s).len() == s.len(),
        forall|i: int|
            0 <= i < s.len() ==> {
                let low = #[trigger] text::lowered(s)[i];
                &&& 'A' <= s[i] <= 'Z' ==> low as int == s[i] as int + ('a' as int - 'A' as int)
                &&& !('A' <= s[i] <= 'Z') ==> low == s[i]
            },
{
}

/// A text contains another exactly if it is that one with something before and after it.
pub proof fn law_contains_text(s: Seq<char>, pattern: Seq<char>)
    ensures
        text::has_substring(s, pattern) <==> exists|before: Seq<char>, after: Seq<char>|
            s == #[trigger] (before + pattern + after),
{
    if text::has_substring(s, pattern) {
        let i = choose|i: int|
            0 <= i && i + pattern.len() <= s.len() && #[trigger] s.subrange(i, i + pattern.len())
                == pattern;
        let before = s.take(i);
        let after = s.skip((i + pattern.len()) as int);
        assert(s =~= before + s.subrange(i, i + pattern.len()) + after);
        assert(s == before + pattern + after);
    }
    if exists|before: Seq<char>, after: Seq<char>| s == #[trigger] (before + pattern + after) {
        let (before, after) = choose|before: Seq<char>, after: Seq<char>|
            s == #[trigger] (before + pattern + after);
        let i = before.len() as int;
        assert(s.subrange(i, i + pattern.len()) =~= pattern);
    }
}

/// A line tells a bind failure exactly if one of four phrases stands in it, in whatever case.
pub proof fn law_bind_failure_phrases(line: Seq<char>)
    ensures
        crate::launch::tells_bind_failure(line) <==> exists|
            before: Seq<char>,
            phrase: Seq<char>,
            after: Seq<char>,
        |
            line == #[trigger] (before + phrase + after) && (text::lowered(phrase)
                == "address already in use"@ || text::lowered(phrase) == "cannot listen to port"@
                || text::lowered(phrase) == "bind:"@ || text::lowered(phrase)
                == "permission denied"@),
{
    let low = text::lowered(line);
    assert forall|p: Seq<char>| #[trigger] text::has_substring(low, p) implies exists|
        before: Seq<char>,
        phrase: Seq<char>,
        after: Seq<char>,
    | line == #[trigger] (before + phrase + after) && text::lowered(phrase) == p by {
        let i = choose|i: int|
            0 <= i && i + p.len() <= low.len() && #[trigger] low.subrange(i, i + p.len()) == p;
        let before = line.take(i);
        let phrase = line.subrange(i, i + p.len());
        let after = line.skip((i + p.len()) as int);
        assert(line =~= before + phrase + after);
        assert(text::lowered(phrase) =~= low.subrange(i, i + p.len()));
    }
    assert forall|before: Seq<char>, phrase: Seq<char>, after: Seq<char>|
        line == #[trigger] (before + phrase + after) implies text::has_substring(
        low,
        text::lowered(phrase),
    ) by {
        let i = before.len() as int;
        assert(low.subrange(i, i + text::lowered(phrase).len()) =~= text::lowered(phrase));
    }
}

/// The remote host is asked exactly if the last wait is over and the connection is up; otherwise
/// there is another wait.
pub proof fn law_poll_step(last: PollAction, connection: Option<ConnectionState>)
    ensures
        last.then_do(connection) is Query <==> last is Sleep && connection is Some
            && connection->0 is Connected,
        last.then_do(connection) is Sleep <==> !(last.then_do(connection) is Query),
{
}

/// What the plain values of a forward say is what the forward holds, its child included.
pub proof fn law_forward_view<C>(f: ActiveForward<C>)
    ensures
        f@.id == f.id.0,
        f@.key.local_host == f.local_host@,
        f@.key.local_port == f.local_port,
        f@.key.remote_host == f.remote_host@,
        f@.key.remote_port == f.remote_port,
        f@.source == f.source,
        f@.managed == f.managed,
        f@.child == f.child,
        f.state is Pending ==> f@.state is Pending,
        f.state is Active ==> f@.state is Active,
        f.state is Failed ==> f@.state == StateView::Failed(f.state->Failed_0@),
{
}

/// What the plain values of a snapshot say is what the snapshot holds.
pub proof fn law_display_view(d: ForwardDisplay)
    ensures
        d@.id == d.id.0,
        d@.key.local_host == d.local_host@,
        d@.key.local_port == d.local_port,
        d@.key.remote_host == d.remote_host@,
        d@.key.remote_port == d.remote_port,
        d@.source == d.source,
        d@.managed == d.managed,
        d.state is Pending ==> d@.state is Pending,
        d.state is Active ==> d@.state is Active,
        d.state is Failed ==> d@.state == StateView::Failed(d.state->Failed_0@),
{
}

/// What the plain values of keys say is what the keys hold, one by one.
pub proof fn law_key_views(keys: Seq<ForwardKey>)
    ensures
        crate::key::key_views(keys).len() == keys.len(),
        forall|i: int|
            0 <= i < keys.len() ==> {
                let k = #[trigger] crate::key::key_views(keys)[i];
                &&& k == keys[i]@
                &&& k.local_host == keys[i].local_host@
                &&& k.local_port == keys[i].local_port
                &&& k.remote_host == keys[i].remote_host@
                &&& k.remote_port == keys[i].remote_port
            },
{
}

/// What the plain values of a text that may be missing say is what it holds.
pub proof fn law_text_view(t: Option<String>)
    ensures
        crate::detect::text_view(t) is Some <==> t is Some,
        t is Some ==> crate::detect::text_view(t)->0 == t->0@,
{
}

/// What the plain values of a report say is what the report holds, entry by entry.
pub proof fn law_report_views(ports: Seq<ListeningPort>)
    ensures
        crate::detect::port_views(ports).len() == ports.len(),
        forall|i: int|
            0 <= i < ports.len() ==> {
                let p = #[trigger] crate::detect::port_views(ports)[i];
                &&& p.port == ports[i].port
                &&& p.address == ports[i].address@
                &&& p.process_name is Some <==> ports[i].process_name is Some
                &&& p.process_name is Some ==> p.process_name->0 == ports[i].process_name->0@
            },
        forall|i: int|
            0 <= i < ports.len() ==> (#[trigger] ports[i]).port == crate::detect::port_views(
                ports,
            )[i].port,
{
}

/// What the plain values of rows of detected ports say is what the rows hold, one by one.
pub proof fn law_row_views(rows: Seq<DetectedRow>)
    ensures
        crate::detect::row_views(rows).len() == rows.len(),
        forall|i: int|
            0 <= i < rows.len() ==> {
                let r = #[trigger] crate::detect::row_views(rows)[i];
                &&& r.port == rows[i].port
                &&& r.address == rows[i].address@
                &&& r.process_name is Some <==> rows[i].process_name is Some
                &&& r.process_name is Some ==> r.process_name->0 == rows[i].process_name->0@
            },
{
}

/// What the plain values of snapshots say is what the snapshots hold, one by one.
pub proof fn law_display_views(rows: Seq<ForwardDisplay>)
    ensures
        manager::display_views(rows).len() == rows.len(),
        forall|i: int|
            0 <= i < rows.len() ==> #[trigger] manager::display_views(rows)[i] == rows[i]@,
{
}

/// What the plain values of needed tunnels say is what they hold, one by one.
pub proof fn law_respawn_views(respawns: Seq<Respawn>)
    ensures
        crate::launch::respawn_views(respawns).len() == respawns.len(),
        forall|i: int|
            0 <= i < respawns.len() ==> {
                let r = #[trigger] crate::launch::respawn_views(respawns)[i];
                &&& r.id == respawns[i].id.0
                &&& r.tunnel.local_port == respawns[i].tunnel.local_port
                &&& r.tunnel.remote_host == respawns[i].tunnel.remote_host@
                &&& r.tunnel.remote_port == respawns[i].tunnel.remote_port
            },
{
}

/// What was to be launched and what became of it, one by one.
pub proof fn law_launch_outcomes<C, E>(outcomes: Seq<(ForwardKey, Result<C, E>)>)
    ensures
        manager::launch_keys(outcomes).len() == outcomes.len(),
        manager::launch_children(outcomes).len() == outcomes.len(),
        forall|i: int|
            0 <= i < outcomes.len() ==> {
                &&& (#[trigger] manager::launch_keys(outcomes)[i]).local_host
                    == outcomes[i].0.local_host@
                &&& manager::launch_keys(outcomes)[i].local_port == outcomes[i].0.local_port
                &&& manager::launch_keys(outcomes)[i].remote_host == outcomes[i].0.remote_host@
                &&& manager::launch_keys(outcomes)[i].remote_port == outcomes[i].0.remote_port
            },
        forall|i: int|
            0 <= i < outcomes.len() ==> {
                let child = #[trigger] manager::launch_children(outcomes)[i];
                &&& child is Some <==> outcomes[i].1 is Ok
                &&& child is Some ==> child->0 == outcomes[i].1->Ok_0
            },
{
}

/// What was to be spawned again and what became of it, one by one.
pub proof fn law_respawn_results<C>(outcomes: Seq<(Respawn, Result<C, String>)>)
    ensures
        manager::outcome_respawns(outcomes).len() == outcomes.len(),
        manager::outcome_children(outcomes).len() == outcomes.len(),
        forall|i: int|
            0 <= i < outcomes.len() ==> (#[trigger] manager::outcome_respawns(outcomes)[i]).id
                == outcomes[i].0.id.0,
        forall|i: int|
            0 <= i < outcomes.len() ==> {
                let child = #[trigger] manager::outcome_children(outcomes)[i];
                &&& child is Ok <==> outcomes[i].1 is Ok
                &&& child is Ok ==> child->Ok_0 == outcomes[i].1->Ok_0
                &&& child is Err ==> child->Err_0 == outcomes[i].1->Err_0@
            },
{
}

/// What the plain values of a row say is what the row holds.
pub proof fn law_forward_row_view(row: ForwardRow)
    ensures
        row@.id == row.id.0,
        row@.local_url == row.local_url@,
        row@.icon == row.icon,
        row@.color == row.color,
        row@.label == row.label@,
        row@.note is Some <==> row.note is Some,
        row.note is Some ==> row@.note->0 == row.note->0@,
        row@.failure is Some <==> row.failure is Some,
        row.failure is Some ==> row@.failure->0 == row.failure->0@,
        row@.removable == row.removable,
{
}

/// What the plain values of a line say is what the line holds.
pub proof fn law_detected_line_view(line: DetectedLine)
    ensures
        line@.port == line.port,
        line@.label == line.label@,
{
}

/// What the plain values of a form say is what is written in it.
pub proof fn law_form_view(form: ForwardForm)
    ensures
        form@.local_port == form.local_port@,
        form@.remote_host == form.remote_host@,
        form@.remote_port == form.remote_port@,
{
}

/// What the plain values of a panel say is what the panel holds.
pub proof fn law_panel_view<C>(p: PortsPanel<C>)
    ensures
        p@.manager is Some <==> p.manager is Some,
        p.manager is Some ==> p@.manager->0 == p.manager->0@,
        p@.form == p.form@,
        p@.position == p.position,
{
}

/// What the plain values of a body say is what the body holds.
pub proof fn law_body_view(body: PanelBody)
    ensures
        body matches PanelBody::Unavailable(notice) ==> body@ == BodyView::Unavailable(notice@),
        body matches PanelBody::Ports { empty_notice, forwards, detected_heading, detected } ==> (
        body@ matches BodyView::Ports {
            empty_notice: notice,
            forwards: rows,
            detected_heading: heading,
            detected: lines,
        } && {
            &&& notice is Some <==> empty_notice is Some
            &&& notice is Some ==> notice->0 == empty_notice->0@
            &&& rows.len() == forwards@.len()
            &&& forall|i: int| 0 <= i < rows.len() ==> #[trigger] rows[i] == forwards@[i]@
            &&& heading is Some <==> detected_heading is Some
            &&& heading is Some ==> heading->0 == detected_heading->0@
            &&& lines.len() == detected@.len()
            &&& forall|i: int| 0 <= i < lines.len() ==> #[trigger] lines[i] == detected@[i]@
        }),
{
}

/// Each forward to launch for settings has the ports of an entry in them and its hosts, with
/// `localhost` for a host that is left out; and each entry is launched unless a forward from
/// settings has its endpoints already.
pub proof fn law_to_add_stems_from_settings<C>(
    m: ManagerView<C>,
    configured: Option<Vec<SshPortForwardOption>>,
    to_add: Seq<ForwardKey>,
)
    requires
        crate::key::key_views(to_add) == m.missing(crate::settings::forward_keys(configured)),
    ensures
        configured is None ==> to_add.len() == 0,
        forall|j: int|
            0 <= j < to_add.len() ==> configured is Some && exists|i: int|
                {
                    let option = #[trigger] configured->0@[i];
                    let key = #[trigger] to_add[j];
                    &&& 0 <= i < configured->0@.len()
                    &&& key.local_port == option.local_port
                    &&& key.remote_port == option.remote_port
                    &&& key.local_host@ == (match option.local_host {
                        Some(host) => host@,
                        None => "localhost"@,
                    })
                    &&& key.remote_host@ == (match option.remote_host {
                        Some(host) => host@,
                        None => "localhost"@,
                    })
                },
        configured is Some ==> forall|i: int|
            0 <= i < configured->0@.len() ==> {
                let option = #[trigger] configured->0@[i];
                let key = KeyView {
                    local_host: match option.local_host {
                        Some(host) => host@,
                        None => "localhost"@,
                    },
                    local_port: option.local_port,
                    remote_host: match option.remote_host {
                        Some(host) => host@,
                        None => "localhost"@,
                    },
                    remote_port: option.remote_port,
                };
                (exists|j: int| 0 <= j < to_add.len() && (#[trigger] to_add[j])@ == key) <==> (
                forall|n: int|
                    0 <= n < m.forwards.len() ==> !((#[trigger] m.forwards[n]).key == key
                        && m.forwards[n].source == ForwardSource::Settings))
            },
{
    let keys = crate::settings::forward_keys(configured);
    let views = crate::key::key_views(to_add);
    law_configured_forwards(configured);
    law_missing_forwards(m, keys);
    law_key_views(to_add);
    assert forall|j: int| 0 <= j < to_add.len() implies configured is Some && exists|i: int|
        {
            let option = #[trigger] configured->0@[i];
            let key = #[trigger] to_add[j];
            &&& 0 <= i < configured->0@.len()
            &&& key.local_port == option.local_port
            &&& key.remote_port == option.remote_port
            &&& key.local_host@ == (match option.local_host {
                Some(host) => host@,
                None => "localhost"@,
            })
            &&& key.remote_host@ == (match option.remote_host {
                Some(host) => host@,
                None => "localhost"@,
            })
        } by {
        assert(views.contains(views[j]));
        let i = choose|i: int| 0 <= i < keys.len() && keys[i] == views[j];
        assert(keys[i] == to_add[j]@);
        let option = configured->0@[i];
    }
    if to_add.len() > 0 {
        assert(views.contains(views[0]));
    }
    if configured is Some {
        assert forall|i: int| 0 <= i < configured->0@.len() implies {
            let option = #[trigger] configured->0@[i];
            let key = KeyView {
                local_host: match option.local_host {
                    Some(host) => host@,
                    None => "localhost"@,
                },
                local_port: option.local_port,
                remote_host: match option.remote_host {
                    Some(host) => host@,
                    None => "localhost"@,
                },
                remote_port: option.remote_port,
            };
            (exists|j: int| 0 <= j < to_add.len() && (#[trigger] to_add[j])@ == key) <==> (forall|
                n: int,
            |
                0 <= n < m.forwards.len() ==> !((#[trigger] m.forwards[n]).key == key
                    && m.forwards[n].source == ForwardSource::Settings))
        } by {
            let option = configured->0@[i];
            let key = KeyView {
                local_host: match option.local_host {
                    Some(host) => host@,
                    None => "localhost"@,
                },
                local_port: option.local_port,
                remote_host: match option.remote_host {
                    Some(host) => host@,
                    None => "localhost"@,
                },
                remote_port: option.remote_port,
            };
            assert(keys[i] == key);
            assert(keys.contains(key));
            if views.contains(key) {
                let j = choose|j: int| 0 <= j < views.len() && views[j] == key;
                assert(to_add[j]@ == key);
            }
            if exists|j: int| 0 <= j < to_add.len() && (#[trigger] to_add[j])@ == key {
                let j = choose|j: int| 0 <= j < to_add.len() && (#[trigger] to_add[j])@ == key;
                assert(views[j] == key);
            }
        }
    }
}

} // verus!
