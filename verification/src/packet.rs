//! Packets and addressable entities. A packet is one unit of data or control
//! on a port; entities name the origin and target of an invocation and
//! serialize as compact URIs.
use vstd::prelude::*;

verus! {

/// One unit of traffic on a port.
#[derive(Debug)]
pub enum Packet {
    /// An opaque, self-describing encoded value.
    Data(Vec<u8>),
    /// A recoverable error carried as a value.
    Exception(String),
    /// A hard error; aborts the downstream path for this invocation.
    Error(String),
    /// Opens a bracketed sub-stream.
    OpenBracket,
    /// Closes a bracketed sub-stream.
    CloseBracket,
    /// Producer-side end of stream for the port.
    Done,
    /// Reserved catch-all; consumers treat it as an error.
    Invalid,
}

/// The mathematical model of a packet.
pub enum PacketView {
    Data(Seq<u8>),
    Exception(Seq<char>),
    Error(Seq<char>),
    OpenBracket,
    CloseBracket,
    Done,
    Invalid,
}

impl View for Packet {
    type V = PacketView;

    open spec fn view(&self) -> PacketView {
        match self {
            Packet::Data(b) => PacketView::Data(b@),
            Packet::Exception(m) => PacketView::Exception(m@),
            Packet::Error(m) => PacketView::Error(m@),
            Packet::OpenBracket => PacketView::OpenBracket,
            Packet::CloseBracket => PacketView::CloseBracket,
            Packet::Done => PacketView::Done,
            Packet::Invalid => PacketView::Invalid,
        }
    }
}

impl DeepView for Packet {
    type V = PacketView;

    open spec fn deep_view(&self) -> PacketView {
        self@
    }
}

impl Packet {
    /// A copy with the same model; fan-out clones packets by value.
    pub fn duplicate(&self) -> (r: Packet)
        ensures
            r@ == self@,
    {
        match self {
            Packet::Data(b) => Packet::Data(b.clone()),
            Packet::Exception(m) => Packet::Exception(m.clone()),
            Packet::Error(m) => Packet::Error(m.clone()),
            Packet::OpenBracket => Packet::OpenBracket,
            Packet::CloseBracket => Packet::CloseBracket,
            Packet::Done => Packet::Done,
            Packet::Invalid => Packet::Invalid,
        }
    }

    /// Whether this packet hard-errors its downstream path (`Invalid` is
    /// treated as an error by consumers).
    pub fn is_fatal(&self) -> (r: bool)
        ensures
            r == packet_fatal(self@),
    {
        match self {
            Packet::Error(_) => true,
            Packet::Invalid => true,
            _ => false,
        }
    }
}

/// Whether a packet hard-errors its downstream path.
pub open spec fn packet_fatal(p: PacketView) -> bool {
    p is Error || p is Invalid
}

/// A packet tagged with the port it travels on.
#[derive(Debug)]
pub struct PortPacket {
    pub port: String,
    pub packet: Packet,
}

impl View for PortPacket {
    type V = (Seq<char>, PacketView);

    open spec fn view(&self) -> (Seq<char>, PacketView) {
        (self.port@, self.packet@)
    }
}

impl DeepView for PortPacket {
    type V = (Seq<char>, PacketView);

    open spec fn deep_view(&self) -> (Seq<char>, PacketView) {
        (self.port@, self.packet@)
    }
}

/// An addressable endpoint: the origin or target of an invocation.
#[derive(Debug)]
pub enum Entity {
    /// A named component.
    Component(String),
    /// A named schematic.
    Schematic(String),
    /// A provider by id.
    Provider(String),
    /// An external client by tag.
    Client(String),
}

/// The model of an entity's compact URI.
pub open spec fn entity_url_view(e: Entity) -> Seq<char> {
    match e {
        Entity::Component(n) => "cmpt://"@ + n@,
        Entity::Schematic(n) => "schm://"@ + n@,
        Entity::Provider(n) => "prvd://"@ + n@,
        Entity::Client(n) => "clnt://"@ + n@,
    }
}

impl Entity {
    /// An entity for the named component.
    pub fn component(name: &str) -> (r: Entity)
        ensures
            r matches Entity::Component(n) && n@ == name@,
    {
        Entity::Component(name.to_owned())
    }

    /// An entity for the named schematic.
    pub fn schematic(name: &str) -> (r: Entity)
        ensures
            r matches Entity::Schematic(n) && n@ == name@,
    {
        Entity::Schematic(name.to_owned())
    }

    /// The compact URI of this entity.
    pub fn url(&self) -> (r: String)
        ensures
            r@ == entity_url_view(*self),
    {
        match self {
            Entity::Component(n) => String::from_str("cmpt://").concat(n.as_str()),
            Entity::Schematic(n) => String::from_str("schm://").concat(n.as_str()),
            Entity::Provider(n) => String::from_str("prvd://").concat(n.as_str()),
            Entity::Client(n) => String::from_str("clnt://").concat(n.as_str()),
        }
    }

    /// The component name, if this entity addresses a component.
    pub fn component_name(&self) -> (r: Option<&String>)
        ensures
            match r {
                Some(n) => self matches Entity::Component(m) && m == n,
                None => !(self matches Entity::Component(_)),
            },
    {
        match self {
            Entity::Component(n) => Some(n),
            _ => None,
        }
    }
}

/// An invocation: one concrete execution of a schematic or component. The
/// id is a sequence number fresh within the issuing network.
#[derive(Debug)]
pub struct Invocation {
    pub id: u64,
    pub origin: Entity,
    pub target: Entity,
    pub payload: Vec<(String, Vec<u8>)>,
    pub network_id: String,
}

} // verus!
