//! Settings of the panel and of the connection that it manages forwards for.
use crate::key::{KeyView, SshPortForwardOption};
use vstd::prelude::*;

verus! {

/// Settings for the ports panel.
#[derive(Debug)]
pub struct PortsPanelSettings {
    pub auto_forward: bool,
}

/// The part of a settings file that concerns the ports panel.
#[derive(Debug)]
pub struct PortsPanelSettingsContent {
    pub auto_forward: Option<bool>,
}

impl PortsPanelSettings {
    /// The settings that a settings file gives. Ports are forwarded automatically only where the
    /// file says so.
    pub fn from_settings(ports_panel: Option<PortsPanelSettingsContent>) -> (r: Self)
        ensures
            r.auto_forward <==> (ports_panel matches Some(content) && content.auto_forward == Some(
                true,
            )),
    {
        match ports_panel {
            Some(content) => PortsPanelSettings {
                auto_forward: content.auto_forward.unwrap_or(false),
            },
            None => PortsPanelSettings { auto_forward: false },
        }
    }
}

/// How an SSH connection was made.
#[derive(Debug)]
pub struct SshConnectionOptions {
    pub host: String,
    pub port: Option<u16>,
    pub username: Option<String>,
    /// The forwards that were applied to the control master when it connected.
    pub port_forwards: Option<Vec<SshPortForwardOption>>,
}

/// How a remote connection was made.
#[derive(Debug)]
pub enum RemoteConnectionOptions {
    Ssh(SshConnectionOptions),
    Other,
}

/// The connection whose settings are to be looked up.
#[derive(Debug)]
pub struct SettingsLookup {
    pub host: String,
    pub port: Option<u16>,
    pub username: Option<String>,
}

/// The forwards of a list that may be missing.
pub open spec fn forward_keys(options: Option<Vec<SshPortForwardOption>>) -> Seq<KeyView> {
    match options {
        Some(list) => crate::key::option_keys(list@),
        None => Seq::empty(),
    }
}

impl RemoteConnectionOptions {
    /// The forwards that the control master carries.
    pub open spec fn master_keys(self) -> Seq<KeyView> {
        match self {
            RemoteConnectionOptions::Ssh(ssh) => forward_keys(ssh.port_forwards),
            RemoteConnectionOptions::Other => Seq::empty(),
        }
    }
}

/// The connection whose settings to look up in order to reconcile forwards with them. There is
/// none if the remote connection is gone or is not an SSH connection.
pub fn settings_lookup(options: Option<&RemoteConnectionOptions>) -> (r: Option<SettingsLookup>)
    ensures
        match options {
            Some(RemoteConnectionOptions::Ssh(ssh)) => {
                &&& r is Some
                &&& r->0.host@ == ssh.host@
                &&& r->0.port == ssh.port
                &&& crate::detect::text_view(r->0.username) == crate::detect::text_view(
                    ssh.username,
                )
            },
            _ => r is None,
        },
{
    match options {
        Some(RemoteConnectionOptions::Ssh(ssh)) => Some(
            SettingsLookup {
                host: ssh.host.clone(),
                port: ssh.port,
                username: crate::detect::clone_text(&ssh.username),
            },
        ),
        _ => None,
    }
}

} // verus!
