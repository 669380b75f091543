//! Bodies: parts, groups of parts, and how groups connect.
use vstd::prelude::*;
use crate::defs::DefinitionDetails;
use crate::defs::MaterialDefinitionId;

verus! {

/// What a body part can do or is for, one flag each.
#[derive(Debug, Clone, Copy, PartialEq, Eq, Hash, Structural)]
pub struct PartFlag {
    pub bits: u32,
}

impl PartFlag {
    pub const STANCE: u32 = 2;
    pub const MANIPULATE: u32 = 4;
    pub const ORGAN: u32 = 8;
    pub const LIMB: u32 = 16;
    pub const SKELETON: u32 = 32;
    pub const NERVOUS: u32 = 64;
    pub const THOUGHT: u32 = 128;
    pub const FLIGHT: u32 = 256;
    pub const HEAR: u32 = 512;
    pub const SIGHT: u32 = 1024;
    pub const SMELL: u32 = 2048;
    pub const EATING: u32 = 4096;
    pub const CIRCULATION: u32 = 8192;
    pub const RESPITORY: u32 = 16384;

    /// No flag.
    pub fn empty() -> (r: PartFlag)
        ensures
            r.bits == 0,
    {
        PartFlag { bits: 0 }
    }

    /// The flags of both sets.
    pub fn union(self, other: PartFlag) -> (r: PartFlag)
        ensures
            r.bits == self.bits | other.bits,
    {
        PartFlag { bits: self.bits | other.bits }
    }

    /// Whether every flag of `other` is set.
    pub fn contains(&self, other: PartFlag) -> (r: bool)
        ensures
            r == (self.bits & other.bits == other.bits),
    {
        self.bits & other.bits == other.bits
    }
}

/// How two body parts relate, one flag each.
#[derive(Debug, Clone, Copy, PartialEq, Eq, Hash, Structural)]
pub struct PartRelation {
    pub bits: u32,
}

impl PartRelation {
    pub const INSIDE: u32 = 2;
    pub const OUTSIDE: u32 = 4;
    pub const CONNECTED: u32 = 8;

    pub fn from_bits(bits: u32) -> (r: PartRelation)
        ensures
            r.bits == bits,
    {
        PartRelation { bits }
    }

    /// The flags of both sets.
    pub fn union(self, other: PartRelation) -> (r: PartRelation)
        ensures
            r.bits == self.bits | other.bits,
    {
        PartRelation { bits: self.bits | other.bits }
    }
}

/// The tissues a body layer can be made of.
#[derive(Clone, Copy, Debug, PartialEq, Eq, Structural)]
pub enum TissueKind {
    Bone,
    Fat,
    Nervous,
    Sinew,
    Skin,
    Scale,
    Chitin,
    Fur,
}

/// A layer of a body part: a tissue of some hardness and warmth.
#[derive(Clone, Copy, Debug, PartialEq, Eq, Structural)]
pub enum PartLayerKind {
    Tissue { kind: TissueKind, hardness: u32, warmth: u32 },
}

/// A layer of a body part, of a material and thickness.
#[derive(Debug, Clone, Copy)]
pub struct PartLayer {
    pub material: MaterialDefinitionId,
    pub kind: PartLayerKind,
    pub thickness: u32,
}

/// Refers to a part definition by name.
#[derive(Debug, Clone)]
pub struct PartRef {
    pub name: String,
}

impl PartRef {
    pub fn from_name(name: &str) -> (r: PartRef)
        ensures
            r.name@ == name@,
    {
        PartRef { name: name.to_owned() }
    }
}

/// A body part.
#[derive(Debug)]
pub struct PartDefinition {
    pub details: DefinitionDetails,
    pub id: usize,
    pub group: Option<String>,
    pub category: Option<String>,
    pub relative_size: u32,
    pub flags: PartFlag,
    pub layers: Vec<PartLayer>,
}

/// How a part of a group attaches to another part, or to nothing.
#[derive(Debug)]
pub struct PartConnection {
    pub from: PartRef,
    pub to: Option<PartRef>,
    pub relation: PartRelation,
}

/// A group of parts and how they attach to each other.
#[derive(Debug)]
pub struct PartGroupDefinition {
    pub details: DefinitionDetails,
    pub id: usize,
    pub parts: Vec<PartConnection>,
}

/// A part of a named group.
#[derive(Debug, Clone)]
pub struct PartGroupConnectionLink {
    pub group: String,
    pub part: PartRef,
}

impl PartGroupConnectionLink {
    pub fn new(group: &str, part: PartRef) -> (r: PartGroupConnectionLink)
        ensures
            r.group@ == group@,
            r.part == part,
    {
        PartGroupConnectionLink { group: group.to_owned(), part }
    }
}

impl From<(String, PartRef)> for PartGroupConnectionLink {
    fn from(pair: (String, PartRef)) -> (r: PartGroupConnectionLink) {
        let (group, part) = pair;
        PartGroupConnectionLink { group, part }
    }
}

impl vstd::std_specs::convert::FromSpecImpl<(String, PartRef)> for PartGroupConnectionLink {
    open spec fn obeys_from_spec() -> bool {
        true
    }

    open spec fn from_spec(pair: (String, PartRef)) -> PartGroupConnectionLink {
        PartGroupConnectionLink { group: pair.0, part: pair.1 }
    }
}

/// Joins a part of one group to a part of another.
#[derive(Debug, Clone)]
pub struct PartGroupConnection {
    pub relation: PartRelation,
    pub left: PartGroupConnectionLink,
    pub right: PartGroupConnectionLink,
}

impl PartGroupConnection {
    pub fn new(left: (String, PartRef), right: (String, PartRef), relation: PartRelation) -> (r:
        PartGroupConnection)
        ensures
            r.left.group == left.0,
            r.left.part == left.1,
            r.right.group == right.0,
            r.right.part == right.1,
            r.relation == relation,
    {
        PartGroupConnection {
            left: PartGroupConnectionLink::from(left),
            right: PartGroupConnectionLink::from(right),
            relation,
        }
    }
}

/// A body: its named groups of parts and the connections between groups.
#[derive(Debug)]
pub struct BodyDefinition {
    pub details: DefinitionDetails,
    pub id: usize,
    pub groups: Vec<(String, String)>,
    pub connections: Vec<PartGroupConnection>,
}

/// The state of a body part.
#[derive(Debug, Default, Copy, Clone)]
pub struct PartState;

/// One entry of a body definition file.
#[derive(Debug)]
pub enum BodyDefProxy {
    Body(BodyDefinition),
    Part(PartDefinition),
    PartGroup(PartGroupDefinition),
}

} // verus!
