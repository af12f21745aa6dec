//! The description of a protocol version: its packets in both directions,
//! each with its fields and their kinds.

use vstd::prelude::*;

verus! {

/// How an integer field is written.
#[derive(Clone, Copy, Debug, PartialEq, Eq, Structural)]
pub enum IntType {
    I8,
    U8,
    U16,
    I16,
    I32,
    I64,
    VarInt,
    /// Written like a varint, and sometimes absent.
    OptVarInt,
}

/// How a real field is written.
#[derive(Clone, Copy, Debug, PartialEq, Eq, Structural)]
pub enum FloatType {
    F32,
    F64,
}

/// Where the length of an array or buffer comes from.
#[derive(Clone, Debug, PartialEq, Eq)]
pub enum CountType {
    /// An integer written before the elements.
    Typed(IntType),
    /// Always the same.
    Fixed(u32),
    /// The value of another field of the packet.
    Named(String),
}

/// One member of a bit field.
#[derive(Clone, Debug, PartialEq, Eq)]
pub struct BitField {
    pub name: String,
    pub size: u32,
    pub signed: bool,
}

/// The kind of a packet field.
#[derive(Debug, PartialEq, Eq)]
pub enum PacketField {
    Native,
    Bool,
    Int(IntType),
    Float(FloatType),
    UUID,
    String,
    Position,
    NBT,
    Slot,
    OptionalNBT,
    /// Everything up to the end of the packet.
    RestBuffer,
    EntityMetadata,
    Option(Box<PacketField>),
    Array { count: CountType, value: Box<PacketField> },
    Buffer(CountType),
    BitField(Vec<BitField>),
    /// Named fields, in the order in which they are written.
    Container(Vec<(String, PacketField)>),
    /// One of several fields, chosen by the value of another field.
    Switch { compare_to: String, fields: Vec<(String, PacketField)> },
    /// Packet names and their ids.
    Mappings(Vec<(String, u32)>),
    CompareTo(String),
    /// A type that is defined by name elsewhere.
    DefinedType(String),
}

/// A packet of one version.
#[derive(Debug, PartialEq, Eq)]
pub struct Packet {
    pub name: String,
    pub fields: Vec<(String, PacketField)>,
}

/// The packets of one version. The position of a packet in its list is its
/// id on the wire.
#[derive(Debug, PartialEq, Eq)]
pub struct Version {
    pub to_client: Vec<Packet>,
    pub to_server: Vec<Packet>,
}

impl PacketField {
    /// The fields of a container, or `None` for any other kind.
    pub fn into_container(self) -> (r: Option<Vec<(String, PacketField)>>)
        ensures
            r == match self {
                PacketField::Container(v) => Some(v),
                _ => None,
            },
    {
        match self {
            PacketField::Container(v) => Some(v),
            _ => None,
        }
    }

    /// The field that a comparison names, or `None` for any other kind.
    pub fn into_compare(self) -> (r: Option<String>)
        ensures
            r == match self {
                PacketField::CompareTo(v) => Some(v),
                _ => None,
            },
    {
        match self {
            PacketField::CompareTo(v) => Some(v),
            _ => None,
        }
    }

    /// The name of a defined type, or `None` for any other kind.
    pub fn into_defined(self) -> (r: Option<String>)
        ensures
            r == match self {
                PacketField::DefinedType(v) => Some(v),
                _ => None,
            },
    {
        match self {
            PacketField::DefinedType(v) => Some(v),
            _ => None,
        }
    }
}

} // verus!
