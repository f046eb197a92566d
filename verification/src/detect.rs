//! Listening ports that the remote host reports.
use vstd::prelude::*;

verus! {

/// A port on which something listens on the remote host.
#[derive(Debug)]
pub struct ListeningPort {
    pub port: u32,
    pub address: String,
    pub process_name: Option<String>,
}

/// A detected port for which no forward exists yet.
#[derive(Debug)]
pub struct DetectedRow {
    pub port: u16,
    pub address: String,
    pub process_name: Option<String>,
}

/// What a report says of one port.
#[verifier::ext_equal]
pub struct PortView {
    pub port: u32,
    pub address: Seq<char>,
    pub process_name: Option<Seq<char>>,
}

/// What a row says of one port.
#[verifier::ext_equal]
pub struct RowView {
    pub port: u16,
    pub address: Seq<char>,
    pub process_name: Option<Seq<char>>,
}

/// The characters of a text that may be missing.
pub open spec fn text_view(text: Option<String>) -> Option<Seq<char>> {
    match text {
        Some(t) => Some(t@),
        None => None,
    }
}

impl View for ListeningPort {
    type V = PortView;

    open spec fn view(&self) -> PortView {
        PortView {
            port: self.port,
            address: self.address@,
            process_name: text_view(self.process_name),
        }
    }
}

impl View for DetectedRow {
    type V = RowView;

    open spec fn view(&self) -> RowView {
        RowView {
            port: self.port,
            address: self.address@,
            process_name: text_view(self.process_name),
        }
    }
}

impl PortView {
    /// The port number: the low sixteen bits of the number in the report.
    pub open spec fn number(self) -> u16 {
        (self.port % 0x1_0000) as u16
    }

    /// The row that shows the port.
    pub open spec fn row(self) -> RowView {
        RowView { port: self.number(), address: self.address, process_name: self.process_name }
    }
}

/// The reports of `ports`, as plain values.
pub open spec fn port_views(ports: Seq<ListeningPort>) -> Seq<PortView> {
    ports.map_values(|p: ListeningPort| p@)
}

/// The rows, as plain values.
pub open spec fn row_views(rows: Seq<DetectedRow>) -> Seq<RowView> {
    rows.map_values(|r: DetectedRow| r@)
}

/// A copy of a text that may be missing.
pub fn clone_text(text: &Option<String>) -> (r: Option<String>)
    ensures
        text_view(r) == text_view(*text),
{
    match text {
        Some(t) => Some(t.clone()),
        None => None,
    }
}

impl ListeningPort {
    /// The port number: the low sixteen bits of the number in the report.
    pub fn number(&self) -> (r: u16)
        ensures
            r == self@.number(),
            r == self.port % 0x1_0000,
    {
        (self.port % 0x1_0000) as u16
    }

    /// The row that shows the port.
    pub fn row(&self) -> (r: DetectedRow)
        ensures
            r@ == self@.row(),
            r.port == self.port % 0x1_0000,
            r.address@ == self.address@,
            r.process_name is Some <==> self.process_name is Some,
            r.process_name is Some ==> r.process_name->0@ == self.process_name->0@,
    {
        DetectedRow {
            port: self.number(),
            address: self.address.clone(),
            process_name: clone_text(&self.process_name),
        }
    }
}

} // verus!
