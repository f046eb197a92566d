//! The ports panel: the form that adds forwards, and what the panel shows.
use crate::forward::{ConnectionState, ForwardSource};
use crate::key::{KeyView, SshPortForwardOption};
use crate::launch::{ForwardLaunch, LaunchView};
use crate::manager::{ForwardManager, PollingChange, Reconciliation};
use crate::model::ManagerView;
use crate::rows::{DetectedLine, DetectedLineView, ForwardRow, ForwardRowView};
use crate::settings::RemoteConnectionOptions;
use crate::text;
use vstd::prelude::*;

verus! {

/// Names the panel where its position and size are stored.
pub const PORTS_PANEL_KEY: &'static str = "PortsPanel";

/// The port that `text` names: white space around it does not count.
pub open spec fn port_of(text: Seq<char>) -> Option<u16> {
    match text::unsigned_value(text::trimmed(text)) {
        Some(n) => if n <= 0xffff {
            Some(n as u16)
        } else {
            None
        },
        None => None,
    }
}

/// The port that `text` names, if it names one.
pub fn parse_port(text: &str) -> (r: Option<u16>)
    ensures
        r == port_of(text@),
{
    let trimmed = text::trim(text);
    text::parse_u16(&text::chars_of(trimmed.as_str()))
}

/// What is written in the form that adds a forward.
#[derive(Debug)]
pub struct ForwardForm {
    pub local_port: String,
    pub remote_host: String,
    pub remote_port: String,
}

/// The form, as plain values.
#[verifier::ext_equal]
pub struct FormView {
    pub local_port: Seq<char>,
    pub remote_host: Seq<char>,
    pub remote_port: Seq<char>,
}

impl View for ForwardForm {
    type V = FormView;

    open spec fn view(&self) -> FormView {
        FormView {
            local_port: self.local_port@,
            remote_host: self.remote_host@,
            remote_port: self.remote_port@,
        }
    }
}

impl FormView {
    /// A form in which nothing is written.
    pub open spec fn blank() -> Self {
        FormView {
            local_port: Seq::empty(),
            remote_host: Seq::empty(),
            remote_port: Seq::empty(),
        }
    }

    /// The local port that the form asks for: any free one where it names none.
    pub open spec fn requested_local_port(self) -> u16 {
        match port_of(self.local_port) {
            Some(port) => port,
            None => 0,
        }
    }

    /// The remote host that the form asks for: `localhost` where it names none.
    pub open spec fn requested_host(self) -> Seq<char> {
        let host = text::trimmed(self.remote_host);
        if host.len() == 0 {
            "localhost"@
        } else {
            host
        }
    }

    /// The launch that the form asks for. There is none unless it names a remote port.
    pub open spec fn launch(self) -> Option<LaunchView> {
        match port_of(self.remote_port) {
            Some(remote_port) => Some(
                LaunchView::requested(
                    self.requested_local_port(),
                    "127.0.0.1"@,
                    self.requested_host(),
                    remote_port,
                    ForwardSource::Manual,
                ),
            ),
            None => None,
        }
    }

    /// The form after it was used: the ports are cleared, the host stays.
    pub open spec fn used(self) -> Self {
        FormView { local_port: Seq::empty(), remote_port: Seq::empty(), ..self }
    }
}

impl ForwardForm {
    /// The launch that the form asks for.
    pub fn launch(&self) -> (r: Option<ForwardLaunch>)
        ensures
            r is Some <==> self@.launch() is Some,
            r is Some ==> r->0@ == self@.launch()->0,
            r is Some <==> port_of(self.remote_port@) is Some,
            r matches Some(launch) ==> {
                &&& launch@.local_port is Some <==> port_of(self.local_port@) is Some && port_of(
                    self.local_port@,
                ) != Some(0u16)
                &&& launch@.local_port is Some ==> launch@.local_port == port_of(self.local_port@)
                &&& launch@.local_host == "127.0.0.1"@
                &&& launch@.remote_host == if text::trimmed(self.remote_host@).len() == 0 {
                    "localhost"@
                } else {
                    text::trimmed(self.remote_host@)
                }
                &&& Some(launch@.remote_port) == port_of(self.remote_port@)
                &&& launch@.source == ForwardSource::Manual
            },
    {
        let remote_port: u16 = match parse_port(self.remote_port.as_str()) {
            Some(port) => port,
            None => {
                return None;
            },
        };
        let local_port: u16 = parse_port(self.local_port.as_str()).unwrap_or(0);
        let host = text::trim(self.remote_host.as_str());
        let remote_host: String = if host.as_str().is_empty() {
            "localhost".to_string()
        } else {
            host
        };
        Some(
            ForwardLaunch::new(
                local_port,
                "127.0.0.1".to_string(),
                remote_host,
                remote_port,
                ForwardSource::Manual,
            ),
        )
    }
}

/// The remote client of a project.
#[derive(Debug)]
pub struct RemoteClient {
    /// The remote side is reached through the network interface of this machine.
    pub shares_network_interface: bool,
    pub connection_state: ConnectionState,
    pub options: RemoteConnectionOptions,
}

/// Where a panel is docked.
#[derive(Clone, Copy, Debug, PartialEq, Eq, Structural)]
pub enum DockPosition {
    Left,
    Bottom,
    Right,
}

/// What the panel shows below its form.
#[derive(Debug)]
pub enum PanelBody {
    /// Only a notice: there is nothing to manage forwards for.
    Unavailable(String),
    /// The forwards, or a notice in their place, and the detected ports under a heading.
    Ports {
        empty_notice: Option<String>,
        forwards: Vec<ForwardRow>,
        detected_heading: Option<String>,
        detected: Vec<DetectedLine>,
    },
}

/// What the panel shows, as plain values.
#[verifier::ext_equal]
pub enum BodyView {
    Unavailable(Seq<char>),
    Ports {
        empty_notice: Option<Seq<char>>,
        forwards: Seq<ForwardRowView>,
        detected_heading: Option<Seq<char>>,
        detected: Seq<DetectedLineView>,
    },
}

impl View for PanelBody {
    type V = BodyView;

    open spec fn view(&self) -> BodyView {
        match self {
            PanelBody::Unavailable(notice) => BodyView::Unavailable(notice@),
            PanelBody::Ports { empty_notice, forwards, detected_heading, detected } =>
                BodyView::Ports {
                    empty_notice: crate::detect::text_view(*empty_notice),
                    forwards: forwards@.map_values(|r: ForwardRow| r@),
                    detected_heading: crate::detect::text_view(*detected_heading),
                    detected: detected@.map_values(|l: DetectedLine| l@),
                },
        }
    }
}

impl<C> ManagerView<C> {
    /// What the panel shows of the manager.
    pub open spec fn body(self) -> BodyView {
        BodyView::Ports {
            empty_notice: if self.forwards.len() == 0 {
                Some("No forwarded ports."@)
            } else {
                None
            },
            forwards: self.display_rows().map_values(|d: crate::forward::DisplayView| d.row()),
            detected_heading: if self.detected_rows().len() > 0 {
                Some("Detected ports"@)
            } else {
                None
            },
            detected: self.detected_rows().map_values(|r: crate::detect::RowView| r.line()),
        }
    }
}

/// The ports panel of a project.
pub struct PortsPanel<C> {
    /// Present once the project has an SSH remote connection that needs forwarding.
    pub manager: Option<ForwardManager<C>>,
    pub form: ForwardForm,
    pub position: DockPosition,
}

/// The panel, as plain values.
#[verifier::ext_equal]
#[verifier::reject_recursive_types(C)]
pub struct PanelView<C> {
    pub manager: Option<ManagerView<C>>,
    pub form: FormView,
    pub position: DockPosition,
}

impl<C> View for PortsPanel<C> {
    type V = PanelView<C>;

    open spec fn view(&self) -> PanelView<C> {
        PanelView {
            manager: match self.manager {
                Some(manager) => Some(manager@),
                None => None,
            },
            form: self.form@,
            position: self.position,
        }
    }
}

/// The remote client needs forwarding: there is one, it is an SSH remote connection, and it does
/// not share the network interface of this machine.
pub open spec fn needs_forwarding(remote: Option<RemoteClient>) -> bool {
    remote matches Some(client) && client.options is Ssh && !client.shares_network_interface
}

impl<C> PanelView<C> {
    /// What holds of every panel.
    pub open spec fn wf(self) -> bool {
        self.manager matches Some(manager) ==> manager.wf()
    }

    /// A panel without a manager and with a blank form.
    pub open spec fn blank() -> Self {
        PanelView { manager: None, form: FormView::blank(), position: DockPosition::Bottom }
    }

    /// The panel lacks a manager, and `remote` needs forwarding.
    pub open spec fn creates_manager(self, remote: Option<RemoteClient>) -> bool {
        self.manager is None && needs_forwarding(remote)
    }

    /// The panel after it looked at the project's remote client. A manager that it has stays.
    pub open spec fn ensured(self, remote: Option<RemoteClient>) -> Self {
        if self.creates_manager(remote) {
            PanelView {
                manager: Some(
                    ManagerView::seeded(
                        remote->0.connection_state,
                        remote->0.options.master_keys(),
                    ),
                ),
                ..self
            }
        } else {
            self
        }
    }

    /// The forwards to launch after a manager was created for `remote`: those that settings ask
    /// for and that the control master does not carry.
    pub open spec fn initial_launches(remote: RemoteClient, configured: Seq<KeyView>) -> Seq<
        KeyView,
    > {
        ManagerView::<C>::seeded(remote.connection_state, remote.options.master_keys()).missing(
            configured,
        )
    }

    /// What the panel shows below its form.
    pub open spec fn body(self) -> BodyView {
        match self.manager {
            Some(manager) => manager.body(),
            None => BodyView::Unavailable(
                "Port forwarding is available for SSH remote projects."@,
            ),
        }
    }
}

/// The remote client can be managed: identifiers are left for the forwards of its control master.
pub open spec fn fits(remote: Option<RemoteClient>) -> bool {
    remote matches Some(client) ==> client.options.master_keys().len() < u64::MAX
}

impl<C> PortsPanel<C> {
    /// A panel for a project with the given remote client, if any. If that makes it create a
    /// manager, the second result says which forwards have to be launched.
    pub fn new(
        remote: Option<&RemoteClient>,
        configured: Option<Vec<SshPortForwardOption>>,
    ) -> (r: (Self, Option<Reconciliation>))
        requires
            remote matches Some(client) ==> fits(Some(*client)),
        ensures
            ({
                let blank = PanelView::<C>::blank();
                let client = match remote {
                    Some(c) => Some(*c),
                    None => None,
                };
                &&& r.0@ == blank.ensured(client)
                &&& r.1 is Some <==> blank.creates_manager(client)
                &&& r.1 matches Some(reconciliation) ==> {
                    &&& !reconciliation.changed
                    &&& crate::key::key_views(reconciliation.to_add@)
                        == PanelView::<C>::initial_launches(
                        client->0,
                        crate::settings::forward_keys(configured),
                    )
                }
            }),
            r.0@.wf(),
    {
        let mut panel = PortsPanel {
            manager: None,
            form: ForwardForm {
                local_port: String::new(),
                remote_host: String::new(),
                remote_port: String::new(),
            },
            position: DockPosition::Bottom,
        };
        assert(panel@ =~~= PanelView::<C>::blank());
        let reconciliation = panel.ensure_manager(remote, configured);
        (panel, reconciliation)
    }

    /// Creates the forward manager once the project has an SSH remote connection. Local projects
    /// have no remote client, other kinds of remote connection are not forwarded for, and remotes
    /// that share the host network interface don't need forwarding. If a manager is created, the
    /// result says which forwards have to be launched.
    pub fn ensure_manager(
        &mut self,
        remote: Option<&RemoteClient>,
        configured: Option<Vec<SshPortForwardOption>>,
    ) -> (r: Option<Reconciliation>)
        requires
            old(self)@.wf(),
            remote matches Some(client) ==> fits(Some(*client)),
        ensures
            ({
                let client = match remote {
                    Some(c) => Some(*c),
                    None => None,
                };
                &&& final(self)@ == old(self)@.ensured(client)
                &&& r is Some <==> old(self)@.creates_manager(client)
                &&& r matches Some(reconciliation) ==> {
                    &&& !reconciliation.changed
                    &&& crate::key::key_views(reconciliation.to_add@)
                        == PanelView::<C>::initial_launches(
                        client->0,
                        crate::settings::forward_keys(configured),
                    )
                }
            }),
            final(self)@.wf(),
    {
        if self.manager.is_some() {
            return None;
        }
        match remote {
            None => None,
            Some(client) => {
                match &client.options {
                    RemoteConnectionOptions::Ssh(_) => {},
                    RemoteConnectionOptions::Other => {
                        return None;
                    },
                }
                if client.shares_network_interface {
                    return None;
                }
                let (manager, reconciliation) = ForwardManager::new(
                    client.connection_state,
                    &client.options,
                    configured,
                );
                self.manager = Some(manager);
                Some(reconciliation)
            },
        }
    }

    /// Takes what is written in the form: returns the launch of the forward that it asks for and
    /// clears the ports. Nothing happens without a manager, or if the form names no remote port.
    pub fn add_from_form(&mut self) -> (r: Option<ForwardLaunch>)
        requires
            old(self)@.wf(),
        ensures
            r is Some <==> old(self)@.manager is Some && old(self)@.form.launch() is Some,
            r is Some ==> r->0@ == old(self)@.form.launch()->0,
            r is Some <==> old(self)@.manager is Some && port_of(old(self)@.form.remote_port) is Some,
            r matches Some(launch) ==> {
                &&& launch@.local_port is Some <==> port_of(old(self)@.form.local_port) is Some && port_of(
                    old(self)@.form.local_port,
                ) != Some(0u16)
                &&& launch@.local_port is Some ==> launch@.local_port == port_of(old(self)@.form.local_port)
                &&& launch@.local_host == "127.0.0.1"@
                &&& launch@.remote_host == if text::trimmed(old(self)@.form.remote_host).len() == 0 {
                    "localhost"@
                } else {
                    text::trimmed(old(self)@.form.remote_host)
                }
                &&& Some(launch@.remote_port) == port_of(old(self)@.form.remote_port)
                &&& launch@.source == ForwardSource::Manual
            },
            final(self)@ == if r is Some {
                PanelView { form: old(self)@.form.used(), ..old(self)@ }
            } else {
                old(self)@
            },
            final(self)@.wf(),
    {
        let ghost before = self@;
        if self.manager.is_none() {
            return None;
        }
        match self.form.launch() {
            None => None,
            Some(launch) => {
                self.form.local_port = String::new();
                self.form.remote_port = String::new();
                assert(self@.form =~= before.form.used());
                Some(launch)
            },
        }
    }

    /// Whether the panel shows the form that adds forwards.
    pub fn shows_add_form(&self) -> (b: bool)
        ensures
            b == self@.manager is Some,
    {
        self.manager.is_some()
    }

    /// What the panel shows below its form.
    pub fn body(&self) -> (r: PanelBody)
        ensures
            r@ == self@.body(),
    {
        match &self.manager {
            None => PanelBody::Unavailable(
                "Port forwarding is available for SSH remote projects.".to_string(),
            ),
            Some(manager) => manager.body(),
        }
    }

    /// Follows the panel being shown or hidden: ports are polled only while it is shown.
    pub fn set_active(&mut self, active: bool) -> (r: Option<PollingChange>)
        requires
            old(self)@.wf(),
        ensures
            match old(self)@.manager {
                Some(manager) => {
                    &&& final(self)@ == (PanelView {
                        manager: Some(manager.with_polling(active)),
                        ..old(self)@
                    })
                    &&& r is Some
                    &&& r->0.start == (active && !manager.polling)
                    &&& r->0.cleared == (!active && manager.detected.len() > 0)
                },
                None => final(self)@ == old(self)@ && r is None,
            },
            final(self)@.wf(),
    {
        match &mut self.manager {
            Some(manager) => Some(manager.set_polling(active)),
            None => None,
        }
    }

    /// Where the panel is docked.
    pub fn position(&self) -> (r: DockPosition)
        ensures
            r == self@.position,
    {
        self.position
    }

    /// Docks the panel elsewhere.
    pub fn set_position(&mut self, position: DockPosition)
        ensures
            final(self)@ == (PanelView { position, ..old(self)@ }),
    {
        self.position = position;
    }
}

impl<C> ForwardManager<C> {
    /// What the panel shows of the manager.
    pub fn body(&self) -> (r: PanelBody)
        ensures
            r@ == self@.body(),
    {
        let rows = self.display_rows();
        let ports = self.detected_rows();
        let ghost body = self@.body();
        assert(rows@.len() == self@.display_rows().len()) by {
            assert(crate::manager::display_views(rows@).len() == rows@.len());
        }
        assert(ports@.len() == self@.detected_rows().len()) by {
            assert(crate::detect::row_views(ports@).len() == ports@.len());
        }
        let mut forwards: Vec<ForwardRow> = Vec::new();
        let mut i: usize = 0;
        while i < rows.len()
            invariant
                i <= rows@.len(),
                forwards@.len() == i,
                forall|j: int|
                    0 <= j < i ==> (#[trigger] forwards@[j])@ == crate::manager::display_views(
                        rows@,
                    )[j].row(),
            decreases rows@.len() - i,
        {
            forwards.push(rows[i].row());
            i += 1;
        }
        let mut detected: Vec<DetectedLine> = Vec::new();
        let mut k: usize = 0;
        while k < ports.len()
            invariant
                k <= ports@.len(),
                detected@.len() == k,
                forall|j: int|
                    0 <= j < k ==> (#[trigger] detected@[j])@ == crate::detect::row_views(
                        ports@,
                    )[j].line(),
            decreases ports@.len() - k,
        {
            detected.push(ports[k].line());
            k += 1;
        }
        let r = PanelBody::Ports {
            empty_notice: if rows.is_empty() {
                Some("No forwarded ports.".to_string())
            } else {
                None
            },
            forwards,
            detected_heading: if !ports.is_empty() {
                Some("Detected ports".to_string())
            } else {
                None
            },
            detected,
        };
        assert(r@ =~~= body);
        r
    }
}

} // verus!
