use ports_panel::detect::ListeningPort;
use ports_panel::forward::{ConnectionState, ForwardDisplay, ForwardId, ForwardSource, ForwardState};
use ports_panel::key::SshPortForwardOption;
use ports_panel::launch::{ForwardLaunch, LaunchAction};
use ports_panel::manager::ForwardManager;
use ports_panel::settings::{RemoteConnectionOptions, SshConnectionOptions};
use std::cell::RefCell;
use std::rc::Rc;

type Log = Rc<RefCell<Vec<&'static str>>>;

/// A stand-in for a tunnel process that notes when it is killed.
struct Tunnel {
    name: &'static str,
    killed: Log,
}

impl Drop for Tunnel {
    fn drop(&mut self) {
        self.killed.borrow_mut().push(self.name);
    }
}

fn tunnel(name: &'static str, killed: &Log) -> Tunnel {
    Tunnel { name, killed: killed.clone() }
}

fn option(local_port: u16, remote_port: u16) -> SshPortForwardOption {
    SshPortForwardOption { local_host: None, local_port, remote_host: None, remote_port }
}

fn ssh(forwards: Vec<SshPortForwardOption>) -> RemoteConnectionOptions {
    RemoteConnectionOptions::Ssh(SshConnectionOptions {
        host: "example".to_string(),
        port: None,
        username: None,
        port_forwards: Some(forwards),
    })
}

fn manager(forwards: Vec<SshPortForwardOption>) -> ForwardManager<Tunnel> {
    ForwardManager::new(ConnectionState::Connected, &ssh(forwards), None).0
}

fn launch(local_port: u16, remote_port: u16) -> ForwardLaunch {
    ForwardLaunch::new(
        local_port,
        "127.0.0.1".to_string(),
        "localhost".to_string(),
        remote_port,
        ForwardSource::Manual,
    )
}

fn add(manager: &mut ForwardManager<Tunnel>, port: u16, child: Tunnel) -> ForwardId {
    manager.add_forward::<()>(launch(port, port), Ok(child)).unwrap()
}

fn state(manager: &ForwardManager<Tunnel>, id: ForwardId) -> ForwardState {
    let rows: Vec<ForwardDisplay> = manager.display_rows();
    rows.into_iter().find(|row| row.id == id).unwrap().state
}

fn listening(port: u32) -> ListeningPort {
    ListeningPort { port, address: "0.0.0.0".to_string(), process_name: None }
}

#[test]
fn a_launch_allocates_a_port_only_for_port_zero() {
    let fixed = launch(8080, 80);
    match fixed.next_action() {
        LaunchAction::Spawn(t) => {
            assert_eq!((t.local_port, t.remote_host.as_str(), t.remote_port), (8080, "localhost", 80));
        }
        LaunchAction::AllocatePort => panic!("the port is known"),
    }
    let open = launch(0, 80);
    assert!(matches!(open.next_action(), LaunchAction::AllocatePort));
    let settled = open.port_allocated::<String>(Ok(49152)).unwrap();
    match settled.next_action() {
        LaunchAction::Spawn(t) => assert_eq!(t.local_port, 49152),
        LaunchAction::AllocatePort => panic!("the port was allocated"),
    }
    let refused = launch(0, 80).port_allocated(Err("no port"));
    assert_eq!(refused.err(), Some("no port"));
}

#[test]
fn added_forwards_get_increasing_ids_and_failures_spend_one() {
    let killed = Log::default();
    let mut m = manager(Vec::new());
    assert!(m.has_free_ids(1));
    assert!(m.has_free_ids(1_000_000));
    assert!(!m.has_free_ids(usize::MAX));
    let first = add(&mut m, 80, tunnel("first", &killed));
    assert_eq!(first, ForwardId(1));
    let refused = m.add_forward(launch(81, 81), Err("spawn failed"));
    assert_eq!(refused, Err("spawn failed"));
    assert_eq!(m.forwards_len(), 1);
    let third = add(&mut m, 82, tunnel("third", &killed));
    assert_eq!(third, ForwardId(3));
    let rows = m.display_rows();
    assert_eq!(rows.len(), 2);
    assert_eq!(rows[0].local_host, "127.0.0.1");
    assert_eq!(rows[0].local_port, 80);
    assert_eq!(rows[0].remote_host, "localhost");
    assert_eq!(rows[0].remote_port, 80);
    assert_eq!(rows[0].source, ForwardSource::Manual);
    assert!(rows[0].managed);
    assert_eq!(rows[0].state, ForwardState::Active);
    assert!(killed.borrow().is_empty());
}

#[test]
fn removing_a_forward_kills_exactly_its_tunnel() {
    let killed = Log::default();
    let mut m = manager(vec![option(1, 1)]);
    let a = add(&mut m, 80, tunnel("a", &killed));
    let b = add(&mut m, 81, tunnel("b", &killed));
    m.remove_forward(a);
    assert_eq!(*killed.borrow(), vec!["a"]);
    assert_eq!(m.forwards_len(), 2);
    m.remove_forward(a);
    assert_eq!(m.forwards_len(), 2);
    assert_eq!(state(&m, b), ForwardState::Active);
    m.remove_forward(b);
    assert_eq!(*killed.borrow(), vec!["a", "b"]);
    m.remove_forward(ForwardId(1));
    assert_eq!(m.forwards_len(), 0);
}

#[test]
fn stderr_lines_can_fail_a_forward() {
    let killed = Log::default();
    let mut m = manager(Vec::new());
    let id = add(&mut m, 80, tunnel("a", &killed));
    assert!(!m.on_stderr_line(id, "Warning: Permanently added host".to_string()));
    assert_eq!(state(&m, id), ForwardState::Active);
    let line = "bind: Address already in use".to_string();
    assert!(m.on_stderr_line(id, line.clone()));
    assert_eq!(state(&m, id), ForwardState::Failed(line.clone()));
    assert_eq!(*killed.borrow(), vec!["a"]);
    m.remove_forward(id);
    assert!(m.on_stderr_line(id, line));
    assert_eq!(m.forwards_len(), 0);
    // A child for a forward that is gone is killed at once.
    m.attach_child(id, tunnel("late", &killed));
    assert_eq!(*killed.borrow(), vec!["a", "late"]);
}

#[test]
fn a_lost_connection_comes_back() {
    let killed = Log::default();
    let mut m = manager(vec![option(1, 1)]);
    let a = add(&mut m, 80, tunnel("a", &killed));
    let b = add(&mut m, 81, tunnel("b", &killed));
    m.mark_failed(b, "broken".to_string());
    assert!(m.is_master_owned(ForwardId(1)));
    assert!(!m.is_master_owned(a));
    assert!(!m.is_master_owned(ForwardId(99)));

    let same = m.on_connection_state(ConnectionState::Connected);
    assert!(!same.changed);
    assert!(same.respawns.is_empty());

    let lost = m.on_connection_state(ConnectionState::HeartbeatMissed);
    assert!(lost.changed);
    assert!(lost.respawns.is_empty());
    assert_eq!(*killed.borrow(), vec!["b", "a"]);
    for row in m.display_rows() {
        assert_eq!(row.state, ForwardState::Pending);
    }
    for between in [ConnectionState::Reconnecting, ConnectionState::Disconnected, ConnectionState::Connecting] {
        let change = m.on_connection_state(between);
        assert!(change.changed);
        assert!(change.respawns.is_empty());
    }
    let back = m.on_connection_state(ConnectionState::Connected);
    assert!(back.changed);
    let ids: Vec<ForwardId> = back.respawns.iter().map(|respawn| respawn.id).collect();
    assert_eq!(ids, vec![a, b]);
    assert_eq!(back.respawns[0].tunnel.command_forwards(), vec![(80, "localhost".to_string(), 80)]);
    assert_eq!(state(&m, ForwardId(1)), ForwardState::Active);
    assert_eq!(state(&m, a), ForwardState::Pending);
    let mut respawns = back.respawns.into_iter();
    m.on_all_respawned(vec![
        (respawns.next().unwrap(), Ok(tunnel("a2", &killed))),
        (respawns.next().unwrap(), Err("gone".to_string())),
    ]);
    assert_eq!(state(&m, a), ForwardState::Active);
    assert_eq!(state(&m, b), ForwardState::Failed("gone".to_string()));
    assert_eq!(*killed.borrow(), vec!["b", "a"]);
}

#[test]
fn a_tunnel_spawned_while_disconnected_is_not_respawned() {
    let killed = Log::default();
    let mut m: ForwardManager<Tunnel> =
        ForwardManager::new(ConnectionState::Connecting, &ssh(vec![option(1, 1)]), None).0;
    assert_eq!(state(&m, ForwardId(1)), ForwardState::Pending);
    let a = add(&mut m, 80, tunnel("a", &killed));
    let change = m.on_connection_state(ConnectionState::Connected);
    assert!(change.respawns.is_empty());
    assert_eq!(state(&m, a), ForwardState::Active);
    assert_eq!(state(&m, ForwardId(1)), ForwardState::Active);
}

#[test]
fn connect_time_forwards_are_shown_and_not_launched_again() {
    let configured = vec![option(3000, 3000), option(3000, 3000), option(5173, 5173)];
    let (m, reconciliation): (ForwardManager<Tunnel>, _) = ForwardManager::new(
        ConnectionState::Connected,
        &ssh(vec![option(3000, 3000)]),
        Some(configured),
    );
    assert!(!reconciliation.changed);
    assert_eq!(reconciliation.to_add.len(), 1);
    assert_eq!(reconciliation.to_add[0].local_port, 5173);
    let rows = m.display_rows();
    assert_eq!(rows.len(), 1);
    assert_eq!(rows[0].id, ForwardId(1));
    assert_eq!(rows[0].source, ForwardSource::Settings);
    assert!(!rows[0].managed);

    let (other, nothing): (ForwardManager<Tunnel>, _) = ForwardManager::new(
        ConnectionState::Connected,
        &RemoteConnectionOptions::Other,
        Some(vec![option(1, 1)]),
    );
    assert_eq!(other.forwards_len(), 0);
    assert!(nothing.to_add.is_empty());
}

#[test]
fn reconciling_follows_settings_and_spares_other_forwards() {
    let killed = Log::default();
    let options = ssh(vec![option(3000, 3000)]);
    let mut m = manager(vec![option(3000, 3000)]);
    let manual = add(&mut m, 9000, tunnel("manual", &killed));

    let first = m.reconcile_with_settings(Some(&options), Some(vec![option(8080, 8080), option(8081, 8081)]));
    assert!(!first.changed);
    let ports: Vec<u16> = first.to_add.iter().map(|key| key.local_port).collect();
    assert_eq!(ports, vec![8080, 8081]);
    let mut keys = first.to_add.into_iter();
    let outcomes = vec![
        (keys.next().unwrap(), Ok(tunnel("8080", &killed))),
        (keys.next().unwrap(), Err("no")),
    ];
    assert_eq!(m.add_settings_forwards(outcomes), vec![Ok(ForwardId(3)), Err("no")]);

    // What failed is asked for again; what runs is not.
    let second = m.reconcile_with_settings(Some(&options), Some(vec![option(8080, 8080), option(8081, 8081)]));
    assert!(!second.changed);
    assert_eq!(second.to_add.len(), 1);
    assert_eq!(second.to_add[0].local_port, 8081);

    // A remote connection that is gone, or is no SSH connection, changes nothing.
    for gone in [None, Some(&RemoteConnectionOptions::Other)] {
        let nothing = m.reconcile_with_settings(gone, None);
        assert!(!nothing.changed);
        assert!(nothing.to_add.is_empty());
    }
    assert_eq!(m.forwards_len(), 3);

    let third = m.reconcile_with_settings(Some(&options), None);
    assert!(third.changed);
    assert!(third.to_add.is_empty());
    assert_eq!(*killed.borrow(), vec!["8080"]);
    let left: Vec<ForwardId> = m.display_rows().iter().map(|row| row.id).collect();
    assert_eq!(left, vec![ForwardId(1), manual]);
}

#[test]
fn detected_ports_prefer_the_same_local_port() {
    let m = manager(Vec::new());
    match m.forward_detected(8080, true).next_action() {
        LaunchAction::Spawn(t) => {
            assert_eq!(t.command_forwards(), vec![(8080, "localhost".to_string(), 8080)]);
        }
        LaunchAction::AllocatePort => panic!("the port is free"),
    }
    assert!(matches!(m.forward_detected(8080, false).next_action(), LaunchAction::AllocatePort));
    assert!(matches!(m.forward_detected(0, true).next_action(), LaunchAction::AllocatePort));
    let mut m = manager(Vec::new());
    let killed = Log::default();
    let detected = m.forward_detected(8080, true);
    m.add_forward::<()>(detected, Ok(tunnel("d", &killed))).unwrap();
    let rows = m.display_rows();
    assert_eq!(rows[0].local_host, "127.0.0.1");
    assert_eq!(rows[0].source, ForwardSource::Manual);
}

#[test]
fn ports_are_forwarded_automatically_once() {
    let killed = Log::default();
    let mut m = manager(Vec::new());
    add(&mut m, 80, tunnel("a", &killed));
    assert!(m.on_detected(vec![listening(80), listening(8080)], false).is_empty());
    let first = m.on_detected(vec![listening(80), listening(8080), listening(8080), listening(0x1_0000 + 22)], true);
    assert_eq!(first, vec![8080, 22]);
    let second = m.on_detected(vec![listening(8080), listening(81)], true);
    assert_eq!(second, vec![81]);
    assert!(m.on_poll_reply(Err("offline"), true).is_empty());
    assert_eq!(m.detected_rows().len(), 2);
    let third = m.on_poll_reply::<()>(Ok(vec![listening(81), listening(82)]), true);
    assert_eq!(third, vec![82]);
}

#[test]
fn a_port_on_two_addresses_is_forwarded_once_and_shown_twice() {
    let mut m = manager(Vec::new());
    let mut on_ipv6 = listening(5173);
    on_ipv6.address = "::".to_string();
    assert_eq!(m.on_detected(vec![listening(5173), on_ipv6], true), vec![5173]);
    let addresses: Vec<String> = m.detected_rows().into_iter().map(|row| row.address).collect();
    assert_eq!(addresses, vec!["0.0.0.0", "::"]);
    assert!(m.on_detected(vec![listening(5173)], true).is_empty());
}

#[test]
fn detected_rows_leave_out_forwarded_ports() {
    let killed = Log::default();
    let mut m = manager(Vec::new());
    let mut named = listening(0x1_0000 + 8080);
    named.process_name = Some("node".to_string());
    m.on_detected(vec![listening(80), named], false);
    let id = add(&mut m, 80, tunnel("a", &killed));
    let rows = m.detected_rows();
    assert_eq!(rows.len(), 1);
    assert_eq!(rows[0].port, 8080);
    assert_eq!(rows[0].address, "0.0.0.0");
    assert_eq!(rows[0].process_name.as_deref(), Some("node"));
    m.remove_forward(id);
    assert_eq!(m.detected_rows().len(), 2);
}

#[test]
fn polling_is_started_once_and_stopping_forgets_ports() {
    let mut m = manager(Vec::new());
    let on = m.set_polling(true);
    assert!(on.start && !on.cleared);
    let again = m.set_polling(true);
    assert!(!again.start && !again.cleared);
    m.on_detected(vec![listening(80)], false);
    let off = m.set_polling(false);
    assert!(!off.start && off.cleared);
    assert!(m.detected_rows().is_empty());
    let off = m.set_polling(false);
    assert!(!off.start && !off.cleared);
    assert!(m.set_polling(true).start);
}

#[test]
fn each_outcome_reaches_its_own_forward() {
    let killed = Log::default();
    let mut m = manager(vec![option(1, 1)]);
    let ids: Vec<ForwardId> =
        [("a", 10), ("b", 20), ("c", 30)].map(|(name, port)| add(&mut m, port, tunnel(name, &killed))).into();
    m.on_connection_state(ConnectionState::Reconnecting);
    assert_eq!(*killed.borrow(), vec!["a", "b", "c"]);
    let back = m.on_connection_state(ConnectionState::Connected);
    let outcomes = back.respawns.into_iter().enumerate().map(|(i, respawn)| {
        let outcome = if i == 1 { Err("busy".to_string()) } else { Ok(tunnel("new", &killed)) };
        (respawn, outcome)
    });
    m.on_all_respawned(outcomes.collect());
    let states: Vec<ForwardState> = m.display_rows().into_iter().map(|row| row.state).collect();
    let failed = ForwardState::Failed("busy".to_string());
    assert_eq!(states, vec![ForwardState::Active, ForwardState::Active, failed, ForwardState::Active]);
    assert_eq!(m.display_rows().iter().skip(1).map(|row| row.id).collect::<Vec<_>>(), ids);
}

#[test]
fn launched_forwards_get_consecutive_ids_in_order() {
    let killed = Log::default();
    let mut m = manager(Vec::new());
    let configured = vec![option(1, 1), option(2, 2), option(3, 3)];
    let asked = m.reconcile_with_settings(Some(&ssh(Vec::new())), Some(configured));
    let outcomes: Vec<_> = asked
        .to_add
        .into_iter()
        .map(|key| {
            let outcome = if key.local_port == 2 { Err(()) } else { Ok(tunnel("t", &killed)) };
            (key, outcome)
        })
        .collect();
    assert_eq!(m.add_settings_forwards(outcomes), vec![Ok(ForwardId(1)), Err(()), Ok(ForwardId(2))]);
    let ports: Vec<(u64, u16)> = m.display_rows().iter().map(|row| (row.id.0, row.local_port)).collect();
    assert_eq!(ports, vec![(1, 1), (2, 3)]);
}
