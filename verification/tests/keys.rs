use ports_panel::key::{compute_forward_diff, ForwardKey, KeySet, SshPortForwardOption};
use ports_panel::settings::{
    settings_lookup, PortsPanelSettings, PortsPanelSettingsContent, RemoteConnectionOptions,
    SshConnectionOptions,
};

fn key(local_port: u16, remote_port: u16) -> ForwardKey {
    ForwardKey {
        local_host: "localhost".to_string(),
        local_port,
        remote_host: "localhost".to_string(),
        remote_port,
    }
}

#[test]
fn test_compute_forward_diff() {
    let a = key(3000, 3000);
    let b = key(8080, 8080);
    let c = key(5173, 5173);

    // `a` is master-owned (existing, not managed); `b` is managed; `c` is new.
    let existing = KeySet::from_keys(vec![a.clone(), b.clone()]);
    let managed = KeySet::from_keys(vec![b.clone()]);
    let desired = KeySet::from_keys(vec![a.clone(), c.clone()]);

    let (to_add, to_remove) = compute_forward_diff(&desired, &existing, &managed);

    // `c` is newly desired; `a` already exists (master-owned) so isn't re-added.
    assert_eq!(to_add, vec![c]);
    // `b` (managed) is no longer desired, so its child is torn down.
    assert_eq!(to_remove.keys(), &vec![b]);
    // `a` is removed from neither: it isn't managed, so we can't cancel it.
    assert!(!to_remove.contains(&a));
}

#[test]
fn a_key_set_holds_each_key_once() {
    let set = KeySet::from_keys(vec![key(1, 2), key(3, 4), key(1, 2), key(3, 5)]);
    assert_eq!(set.keys(), &vec![key(1, 2), key(3, 4), key(3, 5)]);
    assert!(set.contains(&key(3, 5)));
    assert!(!set.contains(&key(2, 1)));
    assert!(KeySet::from_keys(Vec::new()).keys().is_empty());
}

#[test]
fn keys_differ_in_any_endpoint() {
    let base = key(1, 2);
    let mut other = base.clone();
    assert!(base.same(&other));
    other.local_host = "127.0.0.1".to_string();
    assert!(!base.same(&other));
    let mut other = base.clone();
    other.remote_host = "db".to_string();
    assert!(!base.same(&other));
    assert!(!base.same(&key(3, 2)));
    assert!(!base.same(&key(1, 3)));
}

#[test]
fn missing_hosts_are_localhost() {
    let option = SshPortForwardOption {
        local_host: None,
        local_port: 80,
        remote_host: Some("db".to_string()),
        remote_port: 5432,
    };
    let made = ForwardKey::from_option(&option);
    assert_eq!(made.local_host, "localhost");
    assert_eq!(made.local_port, 80);
    assert_eq!(made.remote_host, "db");
    assert_eq!(made.remote_port, 5432);
    let tunnel = made.tunnel();
    assert_eq!(tunnel.command_forwards(), vec![(80, "db".to_string(), 5432)]);
}

#[test]
fn auto_forwarding_is_off_unless_asked_for() {
    assert!(!PortsPanelSettings::from_settings(None).auto_forward);
    for (content, expected) in [(None, false), (Some(false), false), (Some(true), true)] {
        let settings = PortsPanelSettings::from_settings(Some(PortsPanelSettingsContent {
            auto_forward: content,
        }));
        assert_eq!(settings.auto_forward, expected);
    }
}

#[test]
fn settings_are_looked_up_for_ssh_connections_only() {
    assert!(settings_lookup(None).is_none());
    assert!(settings_lookup(Some(&RemoteConnectionOptions::Other)).is_none());
    let options = RemoteConnectionOptions::Ssh(SshConnectionOptions {
        host: "example".to_string(),
        port: Some(2222),
        username: Some("me".to_string()),
        port_forwards: None,
    });
    let lookup = settings_lookup(Some(&options)).unwrap();
    assert_eq!(lookup.host, "example");
    assert_eq!(lookup.port, Some(2222));
    assert_eq!(lookup.username.as_deref(), Some("me"));
}
