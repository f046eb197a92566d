use ports_panel::detect::{DetectedRow, ListeningPort};
use ports_panel::forward::{ConnectionState, ForwardDisplay, ForwardId, ForwardSource, ForwardState};
use ports_panel::key::SshPortForwardOption;
use ports_panel::launch::LaunchAction;
use ports_panel::panel::{DockPosition, PanelBody, PortsPanel, RemoteClient, PORTS_PANEL_KEY};
use ports_panel::polling::{next_poll_action, PollAction, PORT_POLL_INTERVAL_SECS};
use ports_panel::rows::{StatusColor, StatusIcon};
use ports_panel::settings::{RemoteConnectionOptions, SshConnectionOptions};

fn client(shares_network_interface: bool) -> RemoteClient {
    RemoteClient {
        shares_network_interface,
        connection_state: ConnectionState::Connected,
        options: RemoteConnectionOptions::Ssh(SshConnectionOptions {
            host: "example".to_string(),
            port: None,
            username: None,
            port_forwards: None,
        }),
    }
}

fn display(state: ForwardState, source: ForwardSource, managed: bool) -> ForwardDisplay {
    ForwardDisplay {
        id: ForwardId(7),
        local_host: "127.0.0.1".to_string(),
        local_port: 8080,
        remote_host: "db".to_string(),
        remote_port: 5432,
        source,
        managed,
        state,
    }
}

#[test]
fn forward_rows_show_the_state() {
    let active = display(ForwardState::Active, ForwardSource::Manual, true).row();
    assert_eq!(active.id, ForwardId(7));
    assert_eq!(active.local_url, "http://127.0.0.1:8080");
    assert_eq!(active.label, "127.0.0.1:8080 → db:5432");
    assert_eq!((active.icon, active.color), (StatusIcon::Check, StatusColor::Success));
    assert_eq!(active.note, None);
    assert_eq!(active.failure, None);
    assert!(active.removable);

    let pending = display(ForwardState::Pending, ForwardSource::Settings, false).row();
    assert_eq!((pending.icon, pending.color), (StatusIcon::ArrowCircle, StatusColor::Muted));
    assert_eq!(pending.note.as_deref(), Some("via settings"));
    assert!(!pending.removable);

    let failed = display(ForwardState::Failed("in use".to_string()), ForwardSource::Manual, true).row();
    assert_eq!((failed.icon, failed.color), (StatusIcon::XCircle, StatusColor::Error));
    assert_eq!(failed.failure.as_deref(), Some("in use"));
}

#[test]
fn detected_lines_name_the_process() {
    for (name, label) in [
        (None, "0.0.0.0:22"),
        (Some(""), "0.0.0.0:22"),
        (Some("sshd"), "sshd — 0.0.0.0:22"),
    ] {
        let row = DetectedRow {
            port: 22,
            address: "0.0.0.0".to_string(),
            process_name: name.map(|n: &str| n.to_string()),
        };
        let line = row.line();
        assert_eq!(line.port, 22);
        assert_eq!(line.label, label);
    }
}

#[test]
fn a_manager_is_created_for_remotes_that_need_forwarding() {
    let (mut panel, none): (PortsPanel<u8>, _) = PortsPanel::new(None, None);
    assert!(none.is_none());
    assert!(!panel.shows_add_form());
    assert!(matches!(panel.position(), DockPosition::Bottom));
    match panel.body() {
        PanelBody::Unavailable(notice) => {
            assert_eq!(notice, "Port forwarding is available for SSH remote projects.");
        }
        PanelBody::Ports { .. } => panic!("there is no manager"),
    }
    assert!(panel.ensure_manager(Some(&client(true)), None).is_none());
    assert!(!panel.shows_add_form());
    let mut other = client(false);
    other.options = RemoteConnectionOptions::Other;
    assert!(panel.ensure_manager(Some(&other), None).is_none());
    assert!(!panel.shows_add_form());
    let configured = vec![SshPortForwardOption {
        local_host: None,
        local_port: 1,
        remote_host: None,
        remote_port: 2,
    }];
    let created = panel.ensure_manager(Some(&client(false)), Some(configured)).unwrap();
    assert_eq!(created.to_add.len(), 1);
    assert!(panel.shows_add_form());
    assert!(panel.ensure_manager(Some(&client(false)), None).is_none());
}

#[test]
fn the_form_asks_for_a_forward_and_is_cleared() {
    let (mut panel, _): (PortsPanel<u8>, _) = PortsPanel::new(None, None);
    panel.form.remote_port = "80".to_string();
    assert!(panel.add_from_form().is_none());
    assert_eq!(panel.form.remote_port, "80");

    panel.ensure_manager(Some(&client(false)), None);
    panel.form.local_port = "x".to_string();
    let launch = panel.add_from_form().unwrap();
    assert!(matches!(launch.next_action(), LaunchAction::AllocatePort));
    assert_eq!(panel.form.remote_port, "");
    assert_eq!(panel.form.local_port, "");
    assert!(panel.add_from_form().is_none());

    panel.form.local_port = " 8080".to_string();
    panel.form.remote_host = " db ".to_string();
    panel.form.remote_port = "5432 ".to_string();
    let launch = panel.add_from_form().unwrap();
    match launch.next_action() {
        LaunchAction::Spawn(t) => {
            assert_eq!(t.command_forwards(), vec![(8080, "db".to_string(), 5432)]);
        }
        LaunchAction::AllocatePort => panic!("the form names a port"),
    }
    assert_eq!(panel.form.remote_host, " db ");

    panel.form.remote_host = "  ".to_string();
    panel.form.remote_port = "nope".to_string();
    assert!(panel.add_from_form().is_none());
    assert_eq!(panel.form.remote_port, "nope");
    panel.form.remote_port = "1".to_string();
    panel.form.local_port = "2".to_string();
    match panel.add_from_form().unwrap().next_action() {
        LaunchAction::Spawn(t) => assert_eq!(t.remote_host, "localhost"),
        LaunchAction::AllocatePort => panic!("the form names a port"),
    }
}

#[test]
fn the_body_shows_forwards_and_detected_ports() {
    let (mut panel, _): (PortsPanel<u8>, _) = PortsPanel::new(Some(&client(false)), None);
    match panel.body() {
        PanelBody::Ports { empty_notice, forwards, detected_heading, detected } => {
            assert_eq!(empty_notice.as_deref(), Some("No forwarded ports."));
            assert!(forwards.is_empty());
            assert_eq!(detected_heading, None);
            assert!(detected.is_empty());
        }
        PanelBody::Unavailable(_) => panic!("there is a manager"),
    }
    panel.form.local_port = "8080".to_string();
    panel.form.remote_port = "80".to_string();
    let launch = panel.add_from_form().unwrap();
    let manager = panel.manager.as_mut().unwrap();
    manager.add_forward::<()>(launch, Ok(1)).unwrap();
    manager.on_detected(
        vec![
            ListeningPort { port: 80, address: "::".to_string(), process_name: None },
            ListeningPort { port: 22, address: "::".to_string(), process_name: Some("sshd".to_string()) },
        ],
        false,
    );
    match panel.body() {
        PanelBody::Ports { empty_notice, forwards, detected_heading, detected } => {
            assert_eq!(empty_notice, None);
            assert_eq!(forwards.len(), 1);
            assert_eq!(forwards[0].label, "127.0.0.1:8080 → localhost:80");
            assert_eq!(detected_heading.as_deref(), Some("Detected ports"));
            assert_eq!(detected.len(), 1);
            assert_eq!(detected[0].label, "sshd — :::22");
        }
        PanelBody::Unavailable(_) => panic!("there is a manager"),
    }
}

#[test]
fn ports_are_polled_while_the_panel_is_shown() {
    let (mut panel, _): (PortsPanel<u8>, _) = PortsPanel::new(None, None);
    assert!(panel.set_active(true).is_none());
    panel.ensure_manager(Some(&client(false)), None);
    assert!(panel.set_active(true).unwrap().start);
    assert!(!panel.set_active(false).unwrap().start);

    assert_eq!(PORT_POLL_INTERVAL_SECS, 3);
    let up = Some(ConnectionState::Connected);
    assert_eq!(next_poll_action(PollAction::Sleep, up), PollAction::Query);
    assert_eq!(next_poll_action(PollAction::Query, up), PollAction::Sleep);
    assert_eq!(next_poll_action(PollAction::Sleep, None), PollAction::Sleep);
    assert_eq!(
        next_poll_action(PollAction::Sleep, Some(ConnectionState::Reconnecting)),
        PollAction::Sleep
    );
}

#[test]
fn the_panel_can_be_docked_elsewhere() {
    let (mut panel, _): (PortsPanel<u8>, _) = PortsPanel::new(None, None);
    panel.set_position(DockPosition::Right);
    assert_eq!(panel.position(), DockPosition::Right);
    assert_eq!(PORTS_PANEL_KEY, "PortsPanel");
}
