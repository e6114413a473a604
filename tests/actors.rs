use replay_actors::{
    ActiveActor, ActorId, ActorStateModeler, Attribute, Frame, NewActor, ObjectId, ProcessError,
    StreamId, Trajectory, UpdatedAttribute,
};

fn spawn(actor: i32, object: i32) -> NewActor {
    NewActor {
        actor_id: ActorId(actor),
        name_id: None,
        object_id: ObjectId(object),
        initial_trajectory: Trajectory { location: None, rotation: None },
    }
}

fn update(actor: i32, attribute: i32, value: Attribute) -> UpdatedAttribute {
    UpdatedAttribute {
        actor_id: ActorId(actor),
        stream_id: StreamId(0),
        object_id: ObjectId(attribute),
        attribute: value,
    }
}

#[test]
fn spawn_same_type_twice_is_idempotent() {
    let mut m = ActorStateModeler::new();
    assert_eq!(m.new_actor(&spawn(1, 10)), Ok(()));
    assert_eq!(m.update_attribute(&update(1, 5, Attribute::Byte(3))), Ok(None));
    assert_eq!(m.new_actor(&spawn(1, 10)), Ok(()));
    assert_eq!(m.actor_ids_of_type(ObjectId(10)), vec![ActorId(1)]);
    let state = m.get_actor_state(ActorId(1)).unwrap();
    assert_eq!(state.attributes.get(&5), Some(&Attribute::Byte(3)));
}

#[test]
fn spawn_other_type_conflicts() {
    let mut m = ActorStateModeler::new();
    assert_eq!(m.new_actor(&spawn(1, 10)), Ok(()));
    assert_eq!(
        m.new_actor(&spawn(1, 11)),
        Err(ProcessError::Conflict {
            actor_id: ActorId(1),
            existing: ObjectId(10),
            requested: ObjectId(11),
        })
    );
    assert_eq!(m.actor_ids_of_type(ObjectId(11)), Vec::<ActorId>::new());
    assert_eq!(m.get_actor_state(ActorId(1)).unwrap().object_id, ObjectId(10));
}

#[test]
fn update_returns_previous_value() {
    let mut m = ActorStateModeler::new();
    m.new_actor(&spawn(4, 2)).unwrap();
    assert_eq!(m.update_attribute(&update(4, 7, Attribute::Int(9))), Ok(None));
    assert_eq!(
        m.update_attribute(&update(4, 7, Attribute::Int(8))),
        Ok(Some(Attribute::Int(9)))
    );
    assert_eq!(
        m.update_attribute(&update(5, 7, Attribute::Int(8))),
        Err(ProcessError::NotFound(ActorId(5)))
    );
}

#[test]
fn delete_removes_state_and_index() {
    let mut m = ActorStateModeler::new();
    m.new_actor(&spawn(1, 10)).unwrap();
    m.new_actor(&spawn(2, 10)).unwrap();
    m.new_actor(&spawn(3, 10)).unwrap();
    let removed = m.delete_actor(ActorId(2)).unwrap();
    assert_eq!(removed.object_id, ObjectId(10));
    assert_eq!(m.actor_ids_of_type(ObjectId(10)), vec![ActorId(1), ActorId(3)]);
    assert!(matches!(m.get_actor_state(ActorId(2)), Err(ProcessError::NotFound(ActorId(2)))));
    assert!(matches!(m.delete_actor(ActorId(2)), Err(ProcessError::NotFound(ActorId(2)))));
}

#[test]
fn empty_type_lists_nothing() {
    let m = ActorStateModeler::new();
    assert_eq!(m.actor_ids_of_type(ObjectId(3)), Vec::<ActorId>::new());
}

#[test]
fn frame_deletes_before_spawns_before_updates() {
    let mut m = ActorStateModeler::new();
    m.new_actor(&spawn(1, 10)).unwrap();
    let frame = Frame {
        time: 0,
        delta: 0,
        new_actors: vec![spawn(1, 11)],
        deleted_actors: vec![ActorId(1)],
        updated_actors: vec![update(
            1,
            3,
            Attribute::ActiveActor(ActiveActor { active: true, actor: ActorId(9) }),
        )],
    };
    assert_eq!(m.process_frame(&frame), Ok(()));
    assert_eq!(m.actor_ids_of_type(ObjectId(10)), Vec::<ActorId>::new());
    assert_eq!(m.actor_ids_of_type(ObjectId(11)), vec![ActorId(1)]);
    let state = m.get_actor_state(ActorId(1)).unwrap();
    assert_eq!(
        state.attributes.get(&3),
        Some(&Attribute::ActiveActor(ActiveActor { active: true, actor: ActorId(9) }))
    );
}

#[test]
fn frame_stops_at_unknown_actor() {
    let mut m = ActorStateModeler::new();
    let frame = Frame {
        time: 0,
        delta: 0,
        new_actors: vec![],
        deleted_actors: vec![ActorId(8)],
        updated_actors: vec![],
    };
    assert_eq!(m.process_frame(&frame), Err(ProcessError::NotFound(ActorId(8))));
}
