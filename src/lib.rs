//! Reconstruction of per-frame ball, player and match telemetry from a replay's
//! replicated actor events, with the bit-level primitive decoders they rely on.
pub mod actors;
pub mod attributes;
pub mod bits;
pub mod boost;
pub mod links;
pub mod network;
pub mod processor;
pub mod timeline;

pub use actors::{ActorState, ActorStateModeler};
pub use attributes::{ActiveActor, Attribute, PlayerId, ProcessError, Quaternion, RigidBody, Vector3f};
pub use boost::boost_step;
pub use network::{
    normalize_object, ActorId, Frame, NewActor, ObjectId, Rotation, SpawnTrajectory, StreamId,
    Trajectory, UpdatedAttribute, Vector,
};
pub use processor::{KnownObjects, ReplayProcessor};
pub use timeline::{BallData, BallFrame, MetadataFrame, PlayerData, PlayerFrame, ReplayData};
