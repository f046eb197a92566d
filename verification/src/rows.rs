//! The rows that the panel shows.
use crate::detect::{DetectedRow, RowView};
use crate::forward::{DisplayView, ForwardDisplay, ForwardId, ForwardSource, ForwardState, StateView};
use crate::text;
use vstd::prelude::*;
use vstd::string::*;

verus! {

#[derive(Clone, Copy, Debug, PartialEq, Eq, Structural)]
pub enum StatusIcon {
    Check,
    ArrowCircle,
    XCircle,
}

#[derive(Clone, Copy, Debug, PartialEq, Eq, Structural)]
pub enum StatusColor {
    Success,
    Muted,
    Error,
}

/// The row of a forward.
#[derive(Debug)]
pub struct ForwardRow {
    pub id: ForwardId,
    /// Where the forward can be opened in a browser on this machine.
    pub local_url: String,
    pub icon: StatusIcon,
    pub color: StatusColor,
    pub label: String,
    /// A note on where the forward comes from.
    pub note: Option<String>,
    /// Why the forward failed.
    pub failure: Option<String>,
    /// The row has a button that removes the forward.
    pub removable: bool,
}

/// The row of a detected port.
#[derive(Debug)]
pub struct DetectedLine {
    pub port: u16,
    pub label: String,
}

/// A row of a forward, as plain values.
#[verifier::ext_equal]
pub struct ForwardRowView {
    pub id: nat,
    pub local_url: Seq<char>,
    pub icon: StatusIcon,
    pub color: StatusColor,
    pub label: Seq<char>,
    pub note: Option<Seq<char>>,
    pub failure: Option<Seq<char>>,
    pub removable: bool,
}

/// A row of a detected port, as plain values.
#[verifier::ext_equal]
pub struct DetectedLineView {
    pub port: u16,
    pub label: Seq<char>,
}

impl View for ForwardRow {
    type V = ForwardRowView;

    open spec fn view(&self) -> ForwardRowView {
        ForwardRowView {
            id: self.id.0 as nat,
            local_url: self.local_url@,
            icon: self.icon,
            color: self.color,
            label: self.label@,
            note: crate::detect::text_view(self.note),
            failure: crate::detect::text_view(self.failure),
            removable: self.removable,
        }
    }
}

impl View for DetectedLine {
    type V = DetectedLineView;

    open spec fn view(&self) -> DetectedLineView {
        DetectedLineView { port: self.port, label: self.label@ }
    }
}

/// A host and a port, with a colon between them.
pub open spec fn endpoint(host: Seq<char>, port: u16) -> Seq<char> {
    host + ":"@ + text::decimal(port as nat)
}

impl DisplayView {
    /// The row that shows the forward.
    pub open spec fn row(self) -> ForwardRowView {
        ForwardRowView {
            id: self.id,
            local_url: "http://127.0.0.1:"@ + text::decimal(self.key.local_port as nat),
            icon: match self.state {
                StateView::Active => StatusIcon::Check,
                StateView::Pending => StatusIcon::ArrowCircle,
                StateView::Failed(_) => StatusIcon::XCircle,
            },
            color: match self.state {
                StateView::Active => StatusColor::Success,
                StateView::Pending => StatusColor::Muted,
                StateView::Failed(_) => StatusColor::Error,
            },
            label: endpoint(self.key.local_host, self.key.local_port) + " → "@ + endpoint(
                self.key.remote_host,
                self.key.remote_port,
            ),
            note: if self.source == ForwardSource::Settings {
                Some("via settings"@)
            } else {
                None
            },
            failure: match self.state {
                StateView::Failed(message) => Some(message),
                _ => None,
            },
            removable: self.managed,
        }
    }
}

impl RowView {
    /// The row that shows the port: with the name of the process, if there is one.
    pub open spec fn line(self) -> DetectedLineView {
        DetectedLineView {
            port: self.port,
            label: match self.process_name {
                Some(name) => if name.len() > 0 {
                    name + " — "@ + endpoint(self.address, self.port)
                } else {
                    endpoint(self.address, self.port)
                },
                None => endpoint(self.address, self.port),
            },
        }
    }
}

/// A host and a port, with a colon between them.
fn endpoint_text(host: &String, port: u16) -> (r: String)
    ensures
        r@ == endpoint(host@, port),
{
    host.clone().concat(":").concat(text::decimal_text(port).as_str())
}

impl ForwardDisplay {
    /// The row that shows the forward.
    pub fn row(&self) -> (r: ForwardRow)
        ensures
            r@ == self@.row(),
    {
        let (icon, color, failure): (StatusIcon, StatusColor, Option<String>) = match &self.state {
            ForwardState::Active => (StatusIcon::Check, StatusColor::Success, None),
            ForwardState::Pending => (StatusIcon::ArrowCircle, StatusColor::Muted, None),
            ForwardState::Failed(message) => (
                StatusIcon::XCircle,
                StatusColor::Error,
                Some(message.clone()),
            ),
        };
        let from = endpoint_text(&self.local_host, self.local_port);
        let to = endpoint_text(&self.remote_host, self.remote_port);
        ForwardRow {
            id: self.id,
            local_url: "http://127.0.0.1:".to_string().concat(
                text::decimal_text(self.local_port).as_str(),
            ),
            icon,
            color,
            label: from.concat(" → ").concat(to.as_str()),
            note: if self.source == ForwardSource::Settings {
                Some("via settings".to_string())
            } else {
                None
            },
            failure,
            removable: self.managed,
        }
    }
}

impl DetectedRow {
    /// The row that shows the port.
    pub fn line(&self) -> (r: DetectedLine)
        ensures
            r@ == self@.line(),
    {
        let place = endpoint_text(&self.address, self.port);
        let label: String = match &self.process_name {
            Some(name) => if !name.as_str().is_empty() {
                name.clone().concat(" — ").concat(place.as_str())
            } else {
                place
            },
            None => place,
        };
        DetectedLine { port: self.port, label }
    }
}

} // verus!
