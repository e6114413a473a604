use crate::network::{ActorId, ObjectId};
use vstd::prelude::*;

verus! {

/// A stable player identity: the key that the caller gives each distinct platform id.
#[derive(Clone, Copy, PartialEq, Eq, Structural, PartialOrd, Ord, Debug, Hash)]
pub struct PlayerId(pub u64);

/// Three single-precision components, kept as their IEEE-754 bit patterns.
#[derive(Clone, Copy, PartialEq, Eq, Structural, Debug)]
pub struct Vector3f {
    pub x: u32,
    pub y: u32,
    pub z: u32,
}

/// A single-precision quaternion, kept as IEEE-754 bit patterns.
#[derive(Clone, Copy, PartialEq, Eq, Structural, Debug)]
pub struct Quaternion {
    pub x: u32,
    pub y: u32,
    pub z: u32,
    pub w: u32,
}

/// An actor's physical state at one instant.
#[derive(Clone, Copy, PartialEq, Eq, Structural, Debug)]
pub struct RigidBody {
    pub sleeping: bool,
    pub location: Vector3f,
    pub rotation: Quaternion,
    pub linear_velocity: Option<Vector3f>,
    pub angular_velocity: Option<Vector3f>,
}

/// A reference from one actor to another.
#[derive(Clone, Copy, PartialEq, Eq, Structural, Debug)]
pub struct ActiveActor {
    pub active: bool,
    pub actor: ActorId,
}

/// A decoded attribute value. Kinds that no reconstruction reads are kept as `Other`.
#[derive(Clone, Copy, PartialEq, Eq, Structural, Debug)]
pub enum Attribute {
    Boolean(bool),
    Byte(u8),
    Int(i32),
    /// A single-precision value as its IEEE-754 bit pattern.
    Float(u32),
    RigidBody(RigidBody),
    ActiveActor(ActiveActor),
    UniqueId(PlayerId),
    Other,
}

/// Why a step of the reconstruction failed.
#[derive(Clone, Copy, PartialEq, Eq, Structural, Debug)]
pub enum ProcessError {
    /// A spawn names a live actor id under another object type.
    Conflict { actor_id: ActorId, existing: ObjectId, requested: ObjectId },
    /// An update or delete names an actor id that is not live.
    NotFound(ActorId),
}

impl Attribute {
    /// The byte that this value holds, if it is a byte.
    pub fn byte(&self) -> (r: Option<u8>)
        ensures
            r == (match *self {
                Attribute::Byte(b) => Some(b),
                _ => None,
            }),
    {
        match self {
            Attribute::Byte(b) => Some(*b),
            _ => None,
        }
    }

    /// The integer that this value holds, if it is an integer.
    pub fn integer(&self) -> (r: Option<i32>)
        ensures
            r == (match *self {
                Attribute::Int(i) => Some(i),
                _ => None,
            }),
    {
        match self {
            Attribute::Int(i) => Some(*i),
            _ => None,
        }
    }

    /// The rigid body that this value holds, if it is one.
    pub fn rigid_body(&self) -> (r: Option<RigidBody>)
        ensures
            r == (match *self {
                Attribute::RigidBody(rb) => Some(rb),
                _ => None,
            }),
    {
        match self {
            Attribute::RigidBody(rb) => Some(*rb),
            _ => None,
        }
    }

    /// The actor that this value refers to, if it is an actor reference.
    pub fn active_actor(&self) -> (r: Option<ActorId>)
        ensures
            r == (match *self {
                Attribute::ActiveActor(a) => Some(a.actor),
                _ => None,
            }),
    {
        match self {
            Attribute::ActiveActor(a) => Some(a.actor),
            _ => None,
        }
    }

    /// The player that this value identifies, if it is a player id.
    pub fn unique_id(&self) -> (r: Option<PlayerId>)
        ensures
            r == (match *self {
                Attribute::UniqueId(p) => Some(p),
                _ => None,
            }),
    {
        match self {
            Attribute::UniqueId(p) => Some(*p),
            _ => None,
        }
    }
}

} // verus!
