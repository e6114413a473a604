use replay_actors::{
    boost_step, ActiveActor, ActorId, Attribute, BallFrame, Frame, MetadataFrame, NewActor,
    ObjectId, PlayerFrame, PlayerId, ProcessError, Quaternion, ReplayProcessor, RigidBody,
    StreamId, Trajectory, UpdatedAttribute, Vector3f,
};

const BALL: i32 = 0;
const RIGID_BODY: i32 = 1;
const CAR: i32 = 2;
const PRI: i32 = 3;
const UNIQUE_ID: i32 = 4;
const PLAYER_REPLICATION: i32 = 5;
const BOOST: i32 = 6;
const VEHICLE: i32 = 7;
const BOOST_AMOUNT: i32 = 8;
const ACTIVE: i32 = 9;
const GAME: i32 = 10;
const SECONDS: i32 = 11;

fn objects() -> Vec<String> {
    [
        "Archetypes.Ball.Ball_Default",
        "TAGame.RBActor_TA:ReplicatedRBState",
        "Archetypes.Car.Car_Default",
        "TAGame.Default__PRI_TA",
        "Engine.PlayerReplicationInfo:UniqueId",
        "Engine.Pawn:PlayerReplicationInfo",
        "Archetypes.CarComponents.CarComponent_Boost",
        "TAGame.CarComponent_TA:Vehicle",
        "TAGame.CarComponent_Boost_TA:ReplicatedBoostAmount",
        "TAGame.CarComponent_TA:ReplicatedActive",
        "Archetypes.GameEvent.GameEvent_Soccar",
        "TAGame.GameEvent_Soccar_TA:SecondsRemaining",
    ]
    .iter()
    .map(|s| s.to_string())
    .collect()
}

fn spawn(actor: i32, object: i32) -> NewActor {
    NewActor {
        actor_id: ActorId(actor),
        name_id: None,
        object_id: ObjectId(object),
        initial_trajectory: Trajectory { location: None, rotation: None },
    }
}

fn update(actor: i32, attribute: i32, value: Attribute) -> UpdatedAttribute {
    UpdatedAttribute {
        actor_id: ActorId(actor),
        stream_id: StreamId(0),
        object_id: ObjectId(attribute),
        attribute: value,
    }
}

fn link(actor: i32) -> Attribute {
    Attribute::ActiveActor(ActiveActor { active: true, actor: ActorId(actor) })
}

fn body(x: u32) -> RigidBody {
    RigidBody {
        sleeping: false,
        location: Vector3f { x, y: 0, z: 0 },
        rotation: Quaternion { x: 0, y: 0, z: 0, w: 0 },
        linear_velocity: None,
        angular_velocity: None,
    }
}

fn frame(time: u64, new_actors: Vec<NewActor>, deleted: Vec<i32>, updated: Vec<UpdatedAttribute>) -> Frame {
    Frame {
        time,
        delta: 33_000,
        new_actors,
        deleted_actors: deleted.into_iter().map(ActorId).collect(),
        updated_actors: updated,
    }
}

#[test]
fn three_frame_ball_and_player_scenario() {
    let frames = vec![
        frame(
            0,
            vec![spawn(1, BALL), spawn(2, PRI)],
            vec![],
            vec![update(2, UNIQUE_ID, Attribute::UniqueId(PlayerId(77)))],
        ),
        frame(
            33_000,
            vec![spawn(3, CAR), spawn(4, BOOST)],
            vec![],
            vec![
                update(1, RIGID_BODY, Attribute::RigidBody(body(11))),
                update(3, RIGID_BODY, Attribute::RigidBody(body(22))),
                update(3, PLAYER_REPLICATION, link(2)),
                update(4, VEHICLE, link(3)),
                update(4, BOOST_AMOUNT, Attribute::Byte(200)),
            ],
        ),
        frame(66_000, vec![], vec![1], vec![]),
    ];
    let data = ReplayProcessor::new(&objects()).get_data(&frames).unwrap();
    assert_eq!(
        data.ball_data.frames,
        vec![BallFrame::Empty, BallFrame::Data { rigid_body: body(11) }, BallFrame::Empty]
    );
    assert_eq!(data.players.len(), 1);
    assert_eq!(data.players[0].0, PlayerId(77));
    let player = &data.players[0].1.frames;
    assert_eq!(player.len(), 3);
    assert_eq!(player[0], PlayerFrame::Empty);
    assert_eq!(player[1], PlayerFrame::Data { rigid_body: body(22), boost_amount: 0 });
    assert_eq!(player[2], PlayerFrame::Data { rigid_body: body(22), boost_amount: 0 });
    assert_eq!(
        data.frame_metadata,
        vec![
            MetadataFrame { time: 0, seconds_remaining: None },
            MetadataFrame { time: 33_000, seconds_remaining: None },
            MetadataFrame { time: 66_000, seconds_remaining: None },
        ]
    );
}

#[test]
fn late_player_is_padded_to_frame_count() {
    let mut frames = Vec::new();
    for i in 0..10u64 {
        let mut new_actors = vec![];
        let mut updated = vec![];
        if i == 4 {
            new_actors.push(spawn(2, PRI));
            updated.push(update(2, UNIQUE_ID, Attribute::UniqueId(PlayerId(5))));
        }
        frames.push(frame(i * 1000, new_actors, vec![], updated));
    }
    let data = ReplayProcessor::new(&objects()).get_data(&frames).unwrap();
    assert_eq!(data.ball_data.frames.len(), 10);
    assert_eq!(data.frame_metadata.len(), 10);
    assert_eq!(data.players.len(), 1);
    assert_eq!(data.players[0].1.frames.len(), 10);
    assert!(data.players[0].1.frames.iter().all(|f| *f == PlayerFrame::Empty));
}

#[test]
fn game_clock_and_boost_depletion() {
    let frames = vec![
        frame(
            0,
            vec![spawn(9, GAME), spawn(2, PRI), spawn(3, CAR), spawn(4, BOOST)],
            vec![],
            vec![
                update(9, SECONDS, Attribute::Int(300)),
                update(2, UNIQUE_ID, Attribute::UniqueId(PlayerId(1))),
                update(3, PLAYER_REPLICATION, link(2)),
                update(3, RIGID_BODY, Attribute::RigidBody(body(1))),
                update(4, VEHICLE, link(3)),
                update(4, BOOST_AMOUNT, Attribute::Byte(10)),
            ],
        ),
        frame(
            1000,
            vec![],
            vec![],
            vec![update(9, SECONDS, Attribute::Int(120)), update(4, BOOST_AMOUNT, Attribute::Byte(100))],
        ),
        frame(2000, vec![], vec![], vec![update(4, ACTIVE, Attribute::Byte(1))]),
    ];
    let data = ReplayProcessor::new(&objects()).get_data(&frames).unwrap();
    assert_eq!(data.frame_metadata[0].seconds_remaining, None);
    assert_eq!(data.frame_metadata[1].seconds_remaining, Some(120));
    assert_eq!(data.frame_metadata[2].seconds_remaining, Some(120));
    let player = &data.players[0].1.frames;
    assert_eq!(player[0], PlayerFrame::Data { rigid_body: body(1), boost_amount: 0 });
    assert_eq!(player[1], PlayerFrame::Data { rigid_body: body(1), boost_amount: 100_000_000 });
    assert_eq!(
        player[2],
        PlayerFrame::Data { rigid_body: body(1), boost_amount: 100_000_000 - 33_000 * 8000 / 93 }
    );
}

#[test]
fn conflicting_spawn_fails_the_run() {
    let frames = vec![
        frame(0, vec![spawn(1, BALL)], vec![], vec![]),
        frame(1, vec![spawn(1, CAR)], vec![], vec![]),
    ];
    assert_eq!(
        ReplayProcessor::new(&objects()).get_data(&frames),
        Err(ProcessError::Conflict { actor_id: ActorId(1), existing: ObjectId(BALL), requested: ObjectId(CAR) })
    );
}

#[test]
fn boost_without_history_keeps_carried_amount() {
    assert_eq!(boost_step(100, None, None, 0, 33_333), 0);
    assert_eq!(boost_step(100, None, Some(7), 0, 33_333), 7);
}

#[test]
fn boost_snaps_to_new_sample() {
    assert_eq!(boost_step(100, Some(50), Some(50_000_000), 0, 33_333), 100_000_000);
    assert_eq!(boost_step(200, Some(100), Some(1), 3, 93_000), 192_000_000);
}

#[test]
fn boost_depletes_while_active_and_stops_at_zero() {
    assert_eq!(boost_step(100, Some(100), Some(50_000_000), 1, 93_000), 42_000_000);
    assert_eq!(boost_step(100, Some(100), Some(50_000_000), 1, 930_000), 0);
    assert_eq!(boost_step(100, Some(100), Some(50_000_000), 2, 930_000), 50_000_000);
}

#[test]
fn reused_car_id_gives_empty_record() {
    let frames = vec![
        frame(
            0,
            vec![spawn(2, PRI), spawn(3, CAR), spawn(4, BOOST)],
            vec![],
            vec![
                update(2, UNIQUE_ID, Attribute::UniqueId(PlayerId(1))),
                update(3, PLAYER_REPLICATION, link(2)),
                update(3, RIGID_BODY, Attribute::RigidBody(body(1))),
                update(4, VEHICLE, link(3)),
                update(4, BOOST_AMOUNT, Attribute::Byte(10)),
            ],
        ),
        frame(
            1000,
            vec![spawn(3, CAR), spawn(5, BOOST)],
            vec![3, 4],
            vec![update(3, RIGID_BODY, Attribute::RigidBody(body(9)))],
        ),
        frame(2000, vec![], vec![], vec![update(5, VEHICLE, link(3))]),
    ];
    let data = ReplayProcessor::new(&objects()).get_data(&frames).unwrap();
    let player = &data.players[0].1.frames;
    assert_eq!(player[0], PlayerFrame::Data { rigid_body: body(1), boost_amount: 0 });
    assert_eq!(player[1], PlayerFrame::Empty);
    assert_eq!(player[2], PlayerFrame::Empty);
}
