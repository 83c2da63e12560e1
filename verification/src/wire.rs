//! Wire frames of the RPC transport: each response frame carries a port and
//! one kind of payload, and converts losslessly to the packet the scheduler
//! routes.
use crate::packet::Packet;
use crate::packet::PacketView;
use vstd::prelude::*;

verus! {

/// Bracket signal codes on the wire.
pub const SIGNAL_CLOSE: i32 = 0;

pub const SIGNAL_OPEN_BRACKET: i32 = 1;

pub const SIGNAL_CLOSE_BRACKET: i32 = 2;

/// The payload of one response frame.
#[derive(Debug)]
pub enum WireData {
    /// A self-describing encoded value.
    Encoded(Vec<u8>),
    /// A hard error.
    ErrorText(String),
    /// A recoverable error carried as a value.
    ExceptionText(String),
    /// Diagnostic-only traffic.
    Test(Vec<u8>),
    /// The reserved catch-all.
    Invalid(bool),
    /// A framing signal: close, open bracket, close bracket.
    Signal(i32),
}

/// The model of a frame payload.
pub enum WireDataView {
    Encoded(Seq<u8>),
    ErrorText(Seq<char>),
    ExceptionText(Seq<char>),
    Test(Seq<u8>),
    Invalid(bool),
    Signal(i32),
}

impl View for WireData {
    type V = WireDataView;

    open spec fn view(&self) -> WireDataView {
        match self {
            WireData::Encoded(b) => WireDataView::Encoded(b@),
            WireData::ErrorText(m) => WireDataView::ErrorText(m@),
            WireData::ExceptionText(m) => WireDataView::ExceptionText(m@),
            WireData::Test(b) => WireDataView::Test(b@),
            WireData::Invalid(b) => WireDataView::Invalid(*b),
            WireData::Signal(s) => WireDataView::Signal(*s),
        }
    }
}

/// One response frame: a port and its payload, if any.
#[derive(Debug)]
pub struct OutputKind {
    pub port: String,
    pub data: Option<WireData>,
}

/// The packet a frame payload denotes, if any: encoded values become data,
/// the two error kinds keep their message, the reserved payload is invalid
/// (and so acts as a hard error), signals map to their bracket packets, an
/// unknown signal or a missing payload is a hard error, and a diagnostic
/// frame denotes nothing — consumers discard it.
pub open spec fn wire_to_packet(d: Option<WireDataView>) -> Option<PacketView> {
    match d {
        Some(WireDataView::Encoded(b)) => Some(PacketView::Data(b)),
        Some(WireDataView::ErrorText(m)) => Some(PacketView::Error(m)),
        Some(WireDataView::ExceptionText(m)) => Some(PacketView::Exception(m)),
        Some(WireDataView::Test(_)) => None,
        Some(WireDataView::Invalid(_)) => Some(PacketView::Invalid),
        Some(WireDataView::Signal(s)) => if s == SIGNAL_CLOSE {
            Some(PacketView::Done)
        } else if s == SIGNAL_OPEN_BRACKET {
            Some(PacketView::OpenBracket)
        } else if s == SIGNAL_CLOSE_BRACKET {
            Some(PacketView::CloseBracket)
        } else {
            Some(PacketView::Error("Sent an invalid signal"@))
        },
        None => Some(PacketView::Error("Response received without output"@)),
    }
}

/// Converts one received frame payload into the packet it denotes, or
/// nothing for a diagnostic frame, which is dropped from the stream.
pub fn output_kind_into_packet(data: Option<WireData>) -> (r: Option<Packet>)
    ensures
        match r {
            Some(p) => wire_to_packet(match data {
                Some(d) => Some(d@),
                None => None,
            }) == Some(p@),
            None => wire_to_packet(match data {
                Some(d) => Some(d@),
                None => None,
            }) is None,
        },
{
    match data {
        Some(WireData::Encoded(b)) => Some(Packet::Data(b)),
        Some(WireData::ErrorText(m)) => Some(Packet::Error(m)),
        Some(WireData::ExceptionText(m)) => Some(Packet::Exception(m)),
        Some(WireData::Test(_)) => None,
        Some(WireData::Invalid(_)) => Some(Packet::Invalid),
        Some(WireData::Signal(s)) => {
            if s == SIGNAL_CLOSE {
                Some(Packet::Done)
            } else if s == SIGNAL_OPEN_BRACKET {
                Some(Packet::OpenBracket)
            } else if s == SIGNAL_CLOSE_BRACKET {
                Some(Packet::CloseBracket)
            } else {
                Some(Packet::Error(String::from_str("Sent an invalid signal")))
            }
        },
        None => Some(Packet::Error(String::from_str("Response received without output"))),
    }
}

/// Converts a packet into the frame payload that carries it.
pub fn packet_into_wire(p: Packet) -> (r: WireData)
    ensures
        wire_to_packet(Some(r@)) == Some(p@),
{
    match p {
        Packet::Data(b) => WireData::Encoded(b),
        Packet::Error(m) => WireData::ErrorText(m),
        Packet::Exception(m) => WireData::ExceptionText(m),
        Packet::Done => WireData::Signal(SIGNAL_CLOSE),
        Packet::OpenBracket => WireData::Signal(SIGNAL_OPEN_BRACKET),
        Packet::CloseBracket => WireData::Signal(SIGNAL_CLOSE_BRACKET),
        Packet::Invalid => WireData::Invalid(true),
    }
}

/// The kinds of hosted things the listing wire message can carry.
pub const KIND_COMPONENT: i32 = 0;

pub const KIND_SCHEMATIC: i32 = 1;

/// A listing wire message: a hosted component or schematic with its ports.
#[derive(Debug)]
pub struct WireComponent {
    pub name: String,
    pub kind: i32,
    pub inputs: Vec<crate::signature::PortSignature>,
    pub outputs: Vec<crate::signature::PortSignature>,
    pub providers: Vec<crate::signature::ProviderSignature>,
}

/// Interprets a listing wire message: a component kind becomes a component
/// signature, a schematic kind a schematic signature with its providers, and
/// any other kind is rejected.
pub fn hosted_type_from_wire(value: WireComponent) -> (r: Result<
    crate::signature::HostedType,
    String,
>)
    ensures
        value.kind != KIND_COMPONENT && value.kind != KIND_SCHEMATIC ==> {
            &&& r matches Err(m) && m@ == "Invalid component kind"@
        },
        value.kind == KIND_COMPONENT ==> {
            &&& r matches Ok(crate::signature::HostedType::Component(c)) && c.name@ == value.name@
                && c.inputs == value.inputs && c.outputs == value.outputs
        },
        value.kind == KIND_SCHEMATIC ==> {
            &&& r matches Ok(crate::signature::HostedType::Schematic(s)) && s.name@ == value.name@
                && s.inputs == value.inputs && s.outputs == value.outputs && s.providers
                == value.providers
        },
{
    if value.kind == KIND_COMPONENT {
        Ok(
            crate::signature::HostedType::Component(
                crate::signature::ComponentSignature {
                    name: value.name,
                    inputs: value.inputs,
                    outputs: value.outputs,
                },
            ),
        )
    } else if value.kind == KIND_SCHEMATIC {
        Ok(
            crate::signature::HostedType::Schematic(
                crate::signature::SchematicSignature {
                    name: value.name,
                    inputs: value.inputs,
                    outputs: value.outputs,
                    providers: value.providers,
                },
            ),
        )
    } else {
        Err(String::from_str("Invalid component kind"))
    }
}

} // verus!
