use crate::actors::{frame_step, ActorState, ActorStateModeler, ActorView, StoreView};
use crate::attributes::{Attribute, PlayerId, ProcessError, RigidBody};
use crate::boost::{boost_step, next_boost};
use crate::links::{
    apply_links, apply_players, forget_link, lemma_apply_players_keeps, link_target, player_keys,
    player_target, record_link, sweep, unique_players, upsert_player,
};
use crate::network::{ActorId, Frame, ObjectId, UpdatedAttribute};
use crate::timeline::{
    frame_for, lemma_frame_for_present, player_ids, BallFrame, MetadataFrame, PlayerFrame, ReplayData,
};
use std::collections::HashMap;
use vstd::prelude::*;
use vstd::std_specs::hash::group_hash_axioms;

verus! {

broadcast use group_hash_axioms;

/// The object ids of the names that the reconstruction reads, where the replay's object
/// table has them.
pub struct KnownObjects {
    pub ball_types: Vec<ObjectId>,
    pub boost_type: Option<ObjectId>,
    pub jump_type: Option<ObjectId>,
    pub double_jump_type: Option<ObjectId>,
    pub dodge_type: Option<ObjectId>,
    pub car_type: Option<ObjectId>,
    pub player_type: Option<ObjectId>,
    pub game_type: Option<ObjectId>,
    pub player_replication_key: Option<ObjectId>,
    pub unique_id_key: Option<ObjectId>,
    pub vehicle_key: Option<ObjectId>,
    pub rigid_body_key: Option<ObjectId>,
    pub boost_amount_key: Option<ObjectId>,
    pub component_active_key: Option<ObjectId>,
    pub seconds_remaining_key: Option<ObjectId>,
}

/// The id of `name` in the object table: its last index, as a later entry replaces an
/// earlier one of the same name.
pub open spec fn object_id_of(objects: Seq<String>, name: Seq<char>) -> Option<ObjectId>
    decreases objects.len(),
{
    if objects.len() == 0 {
        None
    } else if objects.last()@ == name {
        Some(ObjectId((objects.len() - 1) as i32))
    } else {
        object_id_of(objects.drop_last(), name)
    }
}

/// Looks a name up in the object table.
pub fn find_object(objects: &Vec<String>, name: &str) -> (r: Option<ObjectId>)
    requires
        objects@.len() <= i32::MAX,
    ensures
        r == object_id_of(objects@, name@),
{
    let target = name.to_owned();
    let mut found: Option<ObjectId> = None;
    let mut i: usize = 0;
    while i < objects.len()
        invariant
            i <= objects@.len(),
            objects@.len() <= i32::MAX,
            target@ == name@,
            found == object_id_of(objects@.take(i as int), name@),
        decreases objects.len() - i,
    {
        assert(objects@.take(i as int + 1).drop_last() =~= objects@.take(i as int));
        if objects[i] == target {
            found = Some(ObjectId(i as i32));
        }
        i += 1;
    }
    assert(objects@.take(i as int) =~= objects@);
    found
}

/// `s` with `o` appended where there is one.
pub open spec fn seq_push_found(s: Seq<ObjectId>, o: Option<ObjectId>) -> Seq<ObjectId> {
    match o {
        Some(x) => s.push(x),
        None => s,
    }
}

/// The ids of the ball types that the object table has, in a fixed order of preference.
pub open spec fn ball_type_ids(objects: Seq<String>) -> Seq<ObjectId> {
    seq_push_found(
        seq_push_found(
        seq_push_found(
        seq_push_found(
        seq_push_found(
        Seq::empty(),
        object_id_of(objects, "Archetypes.Ball.Ball_Default"@),
    ),
        object_id_of(objects, "Archetypes.Ball.Ball_Basketball"@),
    ),
        object_id_of(objects, "Archetypes.Ball.Ball_Puck"@),
    ),
        object_id_of(objects, "Archetypes.Ball.CubeBall"@),
    ),
        object_id_of(objects, "Archetypes.Ball.Ball_Breakout"@),
    )
}

/// Appends `o` where there is one.
fn push_found(v: &mut Vec<ObjectId>, o: Option<ObjectId>)
    ensures
        final(v)@ == seq_push_found(old(v)@, o),
{
    match o {
        Some(x) => v.push(x),
        None => {},
    }
}

/// The object ids that the reconstruction reads, as the object table resolves them.
pub open spec fn resolves(objects: Seq<String>, k: KnownObjects) -> bool {
    &&& k.ball_types@ == ball_type_ids(objects)
    &&& k.boost_type == object_id_of(objects, "Archetypes.CarComponents.CarComponent_Boost"@)
    &&& k.jump_type == object_id_of(objects, "Archetypes.CarComponents.CarComponent_Jump"@)
    &&& k.double_jump_type == object_id_of(objects, "Archetypes.CarComponents.CarComponent_DoubleJump"@)
    &&& k.dodge_type == object_id_of(objects, "Archetypes.CarComponents.CarComponent_Dodge"@)
    &&& k.car_type == object_id_of(objects, "Archetypes.Car.Car_Default"@)
    &&& k.player_type == object_id_of(objects, "TAGame.Default__PRI_TA"@)
    &&& k.game_type == object_id_of(objects, "Archetypes.GameEvent.GameEvent_Soccar"@)
    &&& k.rigid_body_key == object_id_of(objects, "TAGame.RBActor_TA:ReplicatedRBState"@)
    &&& k.boost_amount_key == object_id_of(objects, "TAGame.CarComponent_Boost_TA:ReplicatedBoostAmount"@)
    &&& k.component_active_key == object_id_of(objects, "TAGame.CarComponent_TA:ReplicatedActive"@)
    &&& k.player_replication_key == object_id_of(objects, "Engine.Pawn:PlayerReplicationInfo"@)
    &&& k.unique_id_key == object_id_of(objects, "Engine.PlayerReplicationInfo:UniqueId"@)
    &&& k.vehicle_key == object_id_of(objects, "TAGame.CarComponent_TA:Vehicle"@)
    &&& k.seconds_remaining_key == object_id_of(objects, "TAGame.GameEvent_Soccar_TA:SecondsRemaining"@)
}

impl KnownObjects {
    /// Resolves the names that the reconstruction reads against the object table.
    pub fn new(objects: &Vec<String>) -> (r: KnownObjects)
        requires
            objects@.len() <= i32::MAX,
        ensures
            resolves(objects@, r),
    {
        let mut ball_types: Vec<ObjectId> = Vec::new();
        push_found(&mut ball_types, find_object(objects, "Archetypes.Ball.Ball_Default"));
        push_found(&mut ball_types, find_object(objects, "Archetypes.Ball.Ball_Basketball"));
        push_found(&mut ball_types, find_object(objects, "Archetypes.Ball.Ball_Puck"));
        push_found(&mut ball_types, find_object(objects, "Archetypes.Ball.CubeBall"));
        push_found(&mut ball_types, find_object(objects, "Archetypes.Ball.Ball_Breakout"));
        KnownObjects {
            ball_types,
            boost_type: find_object(objects, "Archetypes.CarComponents.CarComponent_Boost"),
            jump_type: find_object(objects, "Archetypes.CarComponents.CarComponent_Jump"),
            double_jump_type: find_object(objects, "Archetypes.CarComponents.CarComponent_DoubleJump"),
            dodge_type: find_object(objects, "Archetypes.CarComponents.CarComponent_Dodge"),
            car_type: find_object(objects, "Archetypes.Car.Car_Default"),
            player_type: find_object(objects, "TAGame.Default__PRI_TA"),
            game_type: find_object(objects, "Archetypes.GameEvent.GameEvent_Soccar"),
            player_replication_key: find_object(objects, "Engine.Pawn:PlayerReplicationInfo"),
            unique_id_key: find_object(objects, "Engine.PlayerReplicationInfo:UniqueId"),
            vehicle_key: find_object(objects, "TAGame.CarComponent_TA:Vehicle"),
            rigid_body_key: find_object(objects, "TAGame.RBActor_TA:ReplicatedRBState"),
            boost_amount_key: find_object(
                objects,
                "TAGame.CarComponent_Boost_TA:ReplicatedBoostAmount",
            ),
            component_active_key: find_object(objects, "TAGame.CarComponent_TA:ReplicatedActive"),
            seconds_remaining_key: find_object(
                objects,
                "TAGame.GameEvent_Soccar_TA:SecondsRemaining",
            ),
        }
    }
}

/// The processing state of one replay: the live actors, the links between them, and the
/// timeline built so far.
pub struct ReplayProcessor {
    pub objects: KnownObjects,
    pub actor_state: ActorStateModeler,
    pub replay_data: ReplayData,
    pub ball_actor_id: Option<ActorId>,
    /// Each known player's replication actor, in the order the players were first seen.
    pub player_to_actor_id: Vec<(PlayerId, ActorId)>,
    pub player_actor_to_car_actor: HashMap<i32, ActorId>,
    pub car_actor_to_boost_actor: HashMap<i32, ActorId>,
    pub car_actor_to_jump_actor: HashMap<i32, ActorId>,
    pub car_actor_to_double_jump_actor: HashMap<i32, ActorId>,
    pub car_actor_to_dodge_actor: HashMap<i32, ActorId>,
}

impl ReplayProcessor {
    /// The actor that an update links to, under `attribute` on an actor of type `source`.
    fn linked_actor(
        &self,
        update: &UpdatedAttribute,
        attribute: Option<ObjectId>,
        source: Option<ObjectId>,
    ) -> (r: Option<ActorId>)
        ensures
            r == link_target(self.actor_state.actors(), *update, attribute, source),
    {
        let (a, src) = match (attribute, source) {
            (Some(a), Some(src)) => (a, src),
            _ => return None,
        };
        if update.object_id != a {
            return None;
        }
        let state = match self.actor_state.get_actor_state(update.actor_id) {
            Ok(s) => s,
            Err(_) => return None,
        };
        if state.object_id != src {
            return None;
        }
        match state.attributes.get(&a.0) {
            Some(v) => v.active_actor(),
            None => None,
        }
    }

    /// The player that an update identifies, under `attribute` on an actor of type `source`.
    fn linked_player(
        &self,
        update: &UpdatedAttribute,
        attribute: Option<ObjectId>,
        source: Option<ObjectId>,
    ) -> (r: Option<PlayerId>)
        ensures
            r == player_target(self.actor_state.actors(), *update, attribute, source),
    {
        let (a, src) = match (attribute, source) {
            (Some(a), Some(src)) => (a, src),
            _ => return None,
        };
        if update.object_id != a {
            return None;
        }
        let state = match self.actor_state.get_actor_state(update.actor_id) {
            Ok(s) => s,
            Err(_) => return None,
        };
        if state.object_id != src {
            return None;
        }
        match state.attributes.get(&a.0) {
            Some(v) => v.unique_id(),
            None => None,
        }
    }

    /// Maintains the links between actors from a frame's updates, then drops the links
    /// keyed by the frame's deleted actors. Links whose target was deleted stay until a
    /// later update replaces them.
    pub fn update_links(&mut self, frame: &Frame)
        requires
            unique_players(old(self).player_to_actor_id@),
        ensures
            final(self).actor_state == old(self).actor_state,
            final(self).replay_data == old(self).replay_data,
            final(self).ball_actor_id == old(self).ball_actor_id,
            final(self).objects == old(self).objects,
            unique_players(final(self).player_to_actor_id@),
            final(self).player_to_actor_id@ == apply_players(
                old(self).player_to_actor_id@,
                old(self).actor_state.actors(),
                frame.updated_actors@,
                old(self).objects.unique_id_key,
                old(self).objects.player_type,
            ),
            final(self).player_actor_to_car_actor@ == sweep(
                apply_links(
                old(self).player_actor_to_car_actor@,
                old(self).actor_state.actors(),
                frame.updated_actors@,
                old(self).objects.player_replication_key,
                old(self).objects.car_type,
            ),
                frame.deleted_actors@,
            ),
            final(self).car_actor_to_boost_actor@ == sweep(
                apply_links(
                old(self).car_actor_to_boost_actor@,
                old(self).actor_state.actors(),
                frame.updated_actors@,
                old(self).objects.vehicle_key,
                old(self).objects.boost_type,
            ),
                frame.deleted_actors@,
            ),
            final(self).car_actor_to_jump_actor@ == sweep(
                apply_links(
                old(self).car_actor_to_jump_actor@,
                old(self).actor_state.actors(),
                frame.updated_actors@,
                old(self).objects.vehicle_key,
                old(self).objects.jump_type,
            ),
                frame.deleted_actors@,
            ),
            final(self).car_actor_to_double_jump_actor@ == sweep(
                apply_links(
                old(self).car_actor_to_double_jump_actor@,
                old(self).actor_state.actors(),
                frame.updated_actors@,
                old(self).objects.vehicle_key,
                old(self).objects.double_jump_type,
            ),
                frame.deleted_actors@,
            ),
            final(self).car_actor_to_dodge_actor@ == sweep(
                apply_links(
                old(self).car_actor_to_dodge_actor@,
                old(self).actor_state.actors(),
                frame.updated_actors@,
                old(self).objects.vehicle_key,
                old(self).objects.dodge_type,
            ),
                frame.deleted_actors@,
            ),
    {
        let mut i: usize = 0;
        while i < frame.updated_actors.len()
            invariant
                i <= frame.updated_actors@.len(),
                self.actor_state == old(self).actor_state,
                self.replay_data == old(self).replay_data,
                self.ball_actor_id == old(self).ball_actor_id,
                self.objects == old(self).objects,
                unique_players(self.player_to_actor_id@),
                self.player_to_actor_id@ == apply_players(
                    old(self).player_to_actor_id@,
                    old(self).actor_state.actors(),
                    frame.updated_actors@.take(i as int),
                    old(self).objects.unique_id_key,
                    old(self).objects.player_type,
                ),
                self.player_actor_to_car_actor@ == apply_links(
                    old(self).player_actor_to_car_actor@,
                    old(self).actor_state.actors(),
                    frame.updated_actors@.take(i as int),
                    old(self).objects.player_replication_key,
                    old(self).objects.car_type,
                ),
                self.car_actor_to_boost_actor@ == apply_links(
                    old(self).car_actor_to_boost_actor@,
                    old(self).actor_state.actors(),
                    frame.updated_actors@.take(i as int),
                    old(self).objects.vehicle_key,
                    old(self).objects.boost_type,
                ),
                self.car_actor_to_jump_actor@ == apply_links(
                    old(self).car_actor_to_jump_actor@,
                    old(self).actor_state.actors(),
                    frame.updated_actors@.take(i as int),
                    old(self).objects.vehicle_key,
                    old(self).objects.jump_type,
                ),
                self.car_actor_to_double_jump_actor@ == apply_links(
                    old(self).car_actor_to_double_jump_actor@,
                    old(self).actor_state.actors(),
                    frame.updated_actors@.take(i as int),
                    old(self).objects.vehicle_key,
                    old(self).objects.double_jump_type,
                ),
                self.car_actor_to_dodge_actor@ == apply_links(
                    old(self).car_actor_to_dodge_actor@,
                    old(self).actor_state.actors(),
                    frame.updated_actors@.take(i as int),
                    old(self).objects.vehicle_key,
                    old(self).objects.dodge_type,
                ),
            decreases frame.updated_actors.len() - i,
        {
            assert(frame.updated_actors@.take(i as int + 1).drop_last() =~= frame.updated_actors@.take(
                i as int,
            ));
            let u = &frame.updated_actors[i];
            let t = self.linked_actor(u, self.objects.player_replication_key, self.objects.car_type);
            record_link(&mut self.player_actor_to_car_actor, t, u.actor_id);
            let t = self.linked_actor(u, self.objects.vehicle_key, self.objects.boost_type);
            record_link(&mut self.car_actor_to_boost_actor, t, u.actor_id);
            let t = self.linked_actor(u, self.objects.vehicle_key, self.objects.jump_type);
            record_link(&mut self.car_actor_to_jump_actor, t, u.actor_id);
            let t = self.linked_actor(u, self.objects.vehicle_key, self.objects.double_jump_type);
            record_link(&mut self.car_actor_to_double_jump_actor, t, u.actor_id);
            let t = self.linked_actor(u, self.objects.vehicle_key, self.objects.dodge_type);
            record_link(&mut self.car_actor_to_dodge_actor, t, u.actor_id);
            let p = self.linked_player(u, self.objects.unique_id_key, self.objects.player_type);
            match p {
                Some(p) => upsert_player(&mut self.player_to_actor_id, p, u.actor_id),
                None => {},
            }
            i += 1;
        }
        assert(frame.updated_actors@.take(i as int) =~= frame.updated_actors@);
        let mut j: usize = 0;
        while j < frame.deleted_actors.len()
            invariant
                j <= frame.deleted_actors@.len(),
                self.actor_state == old(self).actor_state,
                self.replay_data == old(self).replay_data,
                self.ball_actor_id == old(self).ball_actor_id,
                self.objects == old(self).objects,
                unique_players(self.player_to_actor_id@),
                self.player_to_actor_id@ == apply_players(
                    old(self).player_to_actor_id@,
                    old(self).actor_state.actors(),
                    frame.updated_actors@,
                    old(self).objects.unique_id_key,
                    old(self).objects.player_type,
                ),
                self.player_actor_to_car_actor@ == sweep(
                    apply_links(
                        old(self).player_actor_to_car_actor@,
                        old(self).actor_state.actors(),
                        frame.updated_actors@,
                        old(self).objects.player_replication_key,
                        old(self).objects.car_type,
                    ),
                    frame.deleted_actors@.take(j as int),
                ),
                self.car_actor_to_boost_actor@ == sweep(
                    apply_links(
                        old(self).car_actor_to_boost_actor@,
                        old(self).actor_state.actors(),
                        frame.updated_actors@,
                        old(self).objects.vehicle_key,
                        old(self).objects.boost_type,
                    ),
                    frame.deleted_actors@.take(j as int),
                ),
                self.car_actor_to_jump_actor@ == sweep(
                    apply_links(
                        old(self).car_actor_to_jump_actor@,
                        old(self).actor_state.actors(),
                        frame.updated_actors@,
                        old(self).objects.vehicle_key,
                        old(self).objects.jump_type,
                    ),
                    frame.deleted_actors@.take(j as int),
                ),
                self.car_actor_to_double_jump_actor@ == sweep(
                    apply_links(
                        old(self).car_actor_to_double_jump_actor@,
                        old(self).actor_state.actors(),
                        frame.updated_actors@,
                        old(self).objects.vehicle_key,
                        old(self).objects.double_jump_type,
                    ),
                    frame.deleted_actors@.take(j as int),
                ),
                self.car_actor_to_dodge_actor@ == sweep(
                    apply_links(
                        old(self).car_actor_to_dodge_actor@,
                        old(self).actor_state.actors(),
                        frame.updated_actors@,
                        old(self).objects.vehicle_key,
                        old(self).objects.dodge_type,
                    ),
                    frame.deleted_actors@.take(j as int),
                ),
            decreases frame.deleted_actors.len() - j,
        {
            assert(frame.deleted_actors@.take(j as int + 1).drop_last() =~= frame.deleted_actors@.take(
                j as int,
            ));
            let d = frame.deleted_actors[j];
            forget_link(&mut self.player_actor_to_car_actor, d);
            forget_link(&mut self.car_actor_to_boost_actor, d);
            forget_link(&mut self.car_actor_to_jump_actor, d);
            forget_link(&mut self.car_actor_to_double_jump_actor, d);
            forget_link(&mut self.car_actor_to_dodge_actor, d);
            j += 1;
        }
        assert(frame.deleted_actors@.take(j as int) =~= frame.deleted_actors@);
    }

    /// The first live actor of the first ball type, in table order, that has one.
    pub fn find_ball_actor(&self) -> (r: Option<ActorId>)
        ensures
            r == first_of_types(self.actor_state.store().index, self.objects.ball_types@),
    {
        let types = &self.objects.ball_types;
        let mut i: usize = types.len();
        let mut found: Option<ActorId> = None;
        while i > 0
            invariant
                i <= types@.len(),
                found == first_of_types(self.actor_state.store().index, types@.skip(i as int)),
            decreases i,
        {
            let ids = self.actor_state.actor_ids_of_type(types[i - 1]);
            assert(types@.skip(i - 1).drop_first() =~= types@.skip(i as int));
            if ids.len() > 0 {
                found = Some(ids[0]);
            }
            i -= 1;
        }
        assert(types@.skip(0) =~= types@);
        found
    }

    /// Keeps the ball slot: a tracked ball is dropped where the frame deletes it; an empty
    /// slot takes the first live ball, unless the frame deleted that id.
    pub fn update_ball_id(&mut self, frame: &Frame)
        ensures
            final(self).ball_actor_id == next_ball(
                old(self).ball_actor_id,
                frame.deleted_actors@,
                first_of_types(old(self).actor_state.store().index, old(self).objects.ball_types@),
            ),
            final(self).actor_state == old(self).actor_state,
            final(self).replay_data == old(self).replay_data,
            final(self).objects == old(self).objects,
            final(self).player_to_actor_id == old(self).player_to_actor_id,
            final(self).player_actor_to_car_actor == old(self).player_actor_to_car_actor,
            final(self).car_actor_to_boost_actor == old(self).car_actor_to_boost_actor,
            final(self).car_actor_to_jump_actor == old(self).car_actor_to_jump_actor,
            final(self).car_actor_to_double_jump_actor == old(self).car_actor_to_double_jump_actor,
            final(self).car_actor_to_dodge_actor == old(self).car_actor_to_dodge_actor,
    {
        let candidate = match self.ball_actor_id {
            Some(a) => Some(a),
            None => self.find_ball_actor(),
        };
        self.ball_actor_id = match candidate {
            Some(a) => if contains_actor(&frame.deleted_actors, a) {
                None
            } else {
                Some(a)
            },
            None => None,
        };
    }

    /// Runs the boost model over every live boost component for a frame that lasted
    /// `delta` microseconds.
    pub fn update_boost_amounts(&mut self, delta: u32)
        requires
            old(self).actor_state.wf(),
        ensures
            final(self).actor_state.wf(),
            forall|o: ObjectId| #[trigger]
                final(self).actor_state.ids_of_type(o) == old(self).actor_state.ids_of_type(o),
            final(self).actor_state.actors() == boosted_all(
                old(self).actor_state.actors(),
                old(self).objects,
                delta,
            ),
            final(self).replay_data == old(self).replay_data,
            final(self).ball_actor_id == old(self).ball_actor_id,
            final(self).objects == old(self).objects,
            final(self).player_to_actor_id == old(self).player_to_actor_id,
            final(self).player_actor_to_car_actor == old(self).player_actor_to_car_actor,
            final(self).car_actor_to_boost_actor == old(self).car_actor_to_boost_actor,
            final(self).car_actor_to_jump_actor == old(self).car_actor_to_jump_actor,
            final(self).car_actor_to_double_jump_actor == old(self).car_actor_to_double_jump_actor,
            final(self).car_actor_to_dodge_actor == old(self).car_actor_to_dodge_actor,
    {
        let ghost m0 = self.actor_state.actors();
        let boost_type = match self.objects.boost_type {
            Some(t) => t,
            None => {
                assert(self.actor_state.actors() =~= boosted_all(m0, self.objects, delta));
                return;
            },
        };
        let ids = self.actor_state.actor_ids_of_type(boost_type);
        let mut i: usize = 0;
        while i < ids.len()
            invariant
                i <= ids@.len(),
                self.actor_state.wf(),
                self.objects == old(self).objects,
                self.objects.boost_type == Some(boost_type),
                m0 == old(self).actor_state.actors(),
                old(self).actor_state.wf(),
                ids@ == old(self).actor_state.ids_of_type(boost_type),
                ids@.no_duplicates(),
                forall|o: ObjectId| #[trigger]
                    self.actor_state.ids_of_type(o) == old(self).actor_state.ids_of_type(o),
                self.actor_state.actors().dom() == m0.dom(),
                forall|k: i32| #[trigger]
                    m0.contains_key(k) ==> self.actor_state.actors()[k] == if ids@.take(
                        i as int,
                    ).contains(ActorId(k)) {
                        boosted(m0[k], self.objects, delta)
                    } else {
                        m0[k]
                    },
                self.replay_data == old(self).replay_data,
                self.ball_actor_id == old(self).ball_actor_id,
                self.player_to_actor_id == old(self).player_to_actor_id,
                self.player_actor_to_car_actor == old(self).player_actor_to_car_actor,
                self.car_actor_to_boost_actor == old(self).car_actor_to_boost_actor,
                self.car_actor_to_jump_actor == old(self).car_actor_to_jump_actor,
                self.car_actor_to_double_jump_actor == old(self).car_actor_to_double_jump_actor,
                self.car_actor_to_dodge_actor == old(self).car_actor_to_dodge_actor,
            decreases ids.len() - i,
        {
            let id = ids[i];
            assert(old(self).actor_state.ids_of_type(boost_type).contains(id));
            assert(ids@[i as int] == id);
            let ghost before = self.actor_state.actors();
            assert(!ids@.take(i as int).contains(id)) by {
                if ids@.take(i as int).contains(id) {
                    let j = choose|j: int| 0 <= j < i && #[trigger] ids@.take(i as int)[j] == id;
                    assert(ids@[j] == ids@[i as int]);
                }
            }
            assert(m0.contains_key(id.0));
            assert(before.contains_key(id.0));
            assert(before[id.0] == m0[id.0]) by {
                assert(id == ActorId(id.0));
            }
            let (sample, active, carried, last) = match self.actor_state.get_actor_state(id) {
                Ok(state) => (
                    byte_of(state, self.objects.boost_amount_key),
                    byte_of(state, self.objects.component_active_key),
                    state.boost_amount,
                    state.last_boost_sample,
                ),
                Err(_) => (0, 0, None, None),
            };
            let amount = boost_step(sample, last, carried, active, delta);
            self.actor_state.set_boost(id, amount, sample);
            assert forall|k: i32| #[trigger]
                m0.contains_key(k) implies self.actor_state.actors()[k] == if ids@.take(
                    i as int + 1,
                ).contains(ActorId(k)) {
                    boosted(m0[k], self.objects, delta)
                } else {
                    m0[k]
                } by {
                assert(ids@.take(i as int + 1) =~= ids@.take(i as int).push(id));
                if k == id.0 {
                    assert(ActorId(k) == id);
                    assert(ids@.take(i as int + 1)[i as int] == id);
                    assert(self.actor_state.actors()[k] =~= boosted(m0[k], self.objects, delta));
                } else {
                    assert(ActorId(k) != id);
                    if ids@.take(i as int + 1).contains(ActorId(k)) {
                        let j = choose|j: int|
                            0 <= j < i + 1 && #[trigger] ids@.take(i as int + 1)[j] == ActorId(k);
                        assert(j < i);
                        assert(ids@.take(i as int)[j] == ActorId(k));
                    }
                    if ids@.take(i as int).contains(ActorId(k)) {
                        let j = choose|j: int|
                            0 <= j < i && #[trigger] ids@.take(i as int)[j] == ActorId(k);
                        assert(ids@.take(i as int + 1)[j] == ActorId(k));
                    }
                }
            }
            i += 1;
        }
        assert(ids@.take(i as int) =~= ids@);
        assert forall|k: i32| m0.contains_key(k) implies (ids@.contains(ActorId(k)) <==> m0[k].object_id
            == boost_type) by {
            if m0[k].object_id == boost_type {
                assert(old(self).actor_state.ids_of_type(m0[k].object_id).contains(ActorId(k)));
            }
        }
        assert(self.actor_state.actors() =~= boosted_all(m0, self.objects, delta));
    }
}

/// Whether a list of actor ids holds `a`.
fn contains_actor(ids: &Vec<ActorId>, a: ActorId) -> (r: bool)
    ensures
        r == ids@.contains(a),
{
    let mut i: usize = 0;
    while i < ids.len()
        invariant
            i <= ids@.len(),
            forall|j: int| 0 <= j < i ==> ids@[j] != a,
        decreases ids.len() - i,
    {
        if ids[i] == a {
            assert(ids@[i as int] == a);
            return true;
        }
        i += 1;
    }
    false
}

/// The byte that an actor holds under `key`, or zero where it holds none.
fn byte_of(state: &ActorState, key: Option<ObjectId>) -> (r: u8)
    ensures
        r == byte_attr(state@, key),
{
    match key {
        Some(k) => match state.attributes.get(&k.0) {
            Some(v) => match v.byte() {
                Some(b) => b,
                None => 0,
            },
            None => 0,
        },
        None => 0,
    }
}

/// The first live actor of the first type in `types` that has one.
pub open spec fn first_of_types(index: Map<ObjectId, Seq<ActorId>>, types: Seq<ObjectId>) -> Option<
    ActorId,
>
    decreases types.len(),
{
    if types.len() == 0 {
        None
    } else if index[types[0]].len() > 0 {
        Some(index[types[0]][0])
    } else {
        first_of_types(index, types.drop_first())
    }
}

/// The ball slot after a frame: a tracked ball stays unless deleted; an empty slot takes
/// the ball found, unless the frame deleted that id.
pub open spec fn next_ball(
    current: Option<ActorId>,
    deleted: Seq<ActorId>,
    found: Option<ActorId>,
) -> Option<ActorId> {
    let candidate = match current {
        Some(a) => Some(a),
        None => found,
    };
    match candidate {
        Some(a) => if deleted.contains(a) {
            None
        } else {
            Some(a)
        },
        None => None,
    }
}

/// The byte that an actor holds under `key`, or zero where it holds none.
pub open spec fn byte_attr(v: ActorView, key: Option<ObjectId>) -> u8 {
    match key {
        Some(k) => if v.attributes.contains_key(k.0) {
            match v.attributes[k.0] {
                Attribute::Byte(b) => b,
                _ => 0,
            }
        } else {
            0
        },
        None => 0,
    }
}

/// A boost component after one frame of the boost model.
pub open spec fn boosted(v: ActorView, objects: KnownObjects, delta: u32) -> ActorView {
    let sample = byte_attr(v, objects.boost_amount_key);
    ActorView {
        boost_amount: Some(
            next_boost(
                sample,
                v.last_boost_sample,
                v.boost_amount,
                byte_attr(v, objects.component_active_key),
                delta,
            ) as u64,
        ),
        last_boost_sample: Some(sample),
        ..v
    }
}

/// Every live boost component after one frame of the boost model; other actors as they
/// were.
pub open spec fn boosted_all(m: Map<i32, ActorView>, objects: KnownObjects, delta: u32) -> Map<
    i32,
    ActorView,
> {
    Map::new(
        |k: i32| m.contains_key(k),
        |k: i32|
            if objects.boost_type == Some(m[k].object_id) {
                boosted(m[k], objects, delta)
            } else {
                m[k]
            },
    )
}

/// The rigid body that a live actor holds under `key`.
pub open spec fn rigid_body_of(actors: Map<i32, ActorView>, a: ActorId, key: Option<ObjectId>) -> Option<
    RigidBody,
> {
    match key {
        Some(k) => if actors.contains_key(a.0) && actors[a.0].attributes.contains_key(k.0) {
            match actors[a.0].attributes[k.0] {
                Attribute::RigidBody(rb) => Some(rb),
                _ => None,
            }
        } else {
            None
        },
        None => None,
    }
}

/// The ball's record: its rigid body where a ball is tracked, live and has one.
pub open spec fn ball_record(actors: Map<i32, ActorView>, ball: Option<ActorId>, key: Option<ObjectId>) -> BallFrame {
    match ball {
        Some(a) => match rigid_body_of(actors, a, key) {
            Some(rb) => BallFrame::Data { rigid_body: rb },
            None => BallFrame::Empty,
        },
        None => BallFrame::Empty,
    }
}

/// The clock that the first live game-rules actor reports, where it reports one in the
/// range of a byte.
pub open spec fn seconds_of(st: StoreView, objects: KnownObjects) -> Option<u8> {
    match (objects.game_type, objects.seconds_remaining_key) {
        (Some(g), Some(k)) => if st.index[g].len() > 0 {
            let v = st.actors[st.index[g][0].0];
            if v.attributes.contains_key(k.0) {
                match v.attributes[k.0] {
                    Attribute::Int(i) => if 0 <= i <= 255 {
                        Some(i as u8)
                    } else {
                        None
                    },
                    _ => None,
                }
            } else {
                None
            }
        } else {
            None
        },
        _ => None,
    }
}

/// Whether a live actor holds, under `key`, a reference to `target`.
pub open spec fn refers_to(
    actors: Map<i32, ActorView>,
    a: ActorId,
    key: Option<ObjectId>,
    target: ActorId,
) -> bool {
    match key {
        Some(k) => actors.contains_key(a.0) && actors[a.0].attributes.contains_key(k.0) && match actors[a.0].attributes[k.0] {
            Attribute::ActiveActor(r) => r.actor == target,
            _ => false,
        },
        None => false,
    }
}

/// A player's record: the car's rigid body and the boost carried by the car's boost
/// component, where the chain from the player's actor to both resolves. A link is followed
/// only while the actor it leads to still refers back along it (the car to the player's
/// actor, the boost component to the car), so an id reused by an unrelated actor yields
/// an empty record.
pub open spec fn player_record(
    actors: Map<i32, ActorView>,
    cars: Map<i32, ActorId>,
    boosts: Map<i32, ActorId>,
    player_actor: ActorId,
    objects: KnownObjects,
) -> PlayerFrame {
    if cars.contains_key(player_actor.0) && refers_to(
        actors,
        cars[player_actor.0],
        objects.player_replication_key,
        player_actor,
    ) {
        let car = cars[player_actor.0];
        match rigid_body_of(actors, car, objects.rigid_body_key) {
            Some(rb) => if boosts.contains_key(car.0) && refers_to(
                actors,
                boosts[car.0],
                objects.vehicle_key,
                car,
            ) {
                match actors[boosts[car.0].0].boost_amount {
                    Some(b) => PlayerFrame::Data { rigid_body: rb, boost_amount: b },
                    None => PlayerFrame::Empty,
                }
            } else {
                PlayerFrame::Empty
            },
            None => PlayerFrame::Empty,
        }
    } else {
        PlayerFrame::Empty
    }
}

proof fn lemma_frame_for_listed(list: Seq<(PlayerId, PlayerFrame)>, p: PlayerId)
    requires
        frame_for(list, p) is Some,
    ensures
        exists|i: int| 0 <= i < list.len() && #[trigger] list[i].0 == p,
    decreases list.len(),
{
    if list.last().0 == p {
        assert(list[list.len() - 1].0 == p);
    } else {
        lemma_frame_for_listed(list.drop_last(), p);
        let i = choose|i: int| 0 <= i < list.len() - 1 && #[trigger] list.drop_last()[i].0 == p;
        assert(list[i].0 == p);
    }
}

impl ReplayProcessor {
    /// A fresh processing run over a replay whose object table is `objects`.
    pub fn new(objects: &Vec<String>) -> (r: ReplayProcessor)
        requires
            objects@.len() <= i32::MAX,
        ensures
            r.wf(),
            resolves(objects@, r.objects),
            r.state() == initial_state(),
            r.replay_data.frame_metadata@.len() == 0,
            r.replay_data.ball_data.frames@.len() == 0,
            r.replay_data.players@.len() == 0,
    {
        let actor_state = ActorStateModeler::new();
        assert(actor_state.store().index =~= initial_state().store.index);
        let r = ReplayProcessor {
            objects: KnownObjects::new(objects),
            actor_state,
            replay_data: ReplayData::new(),
            ball_actor_id: None,
            player_to_actor_id: Vec::new(),
            player_actor_to_car_actor: HashMap::new(),
            car_actor_to_boost_actor: HashMap::new(),
            car_actor_to_jump_actor: HashMap::new(),
            car_actor_to_double_jump_actor: HashMap::new(),
            car_actor_to_dodge_actor: HashMap::new(),
        };
        assert(r.state().players =~= initial_state().players);
        r
    }

    /// The store is consistent, each player is known once, and every timeline sequence
    /// holds one record per frame processed, for known players only.
    pub open spec fn wf(&self) -> bool {
        &&& self.wf_core()
        &&& forall|k: int| #![trigger self.player_to_actor_id@[k]]
            0 <= k < self.player_to_actor_id@.len() ==> player_ids(self.replay_data.players@).contains(
                self.player_to_actor_id@[k].0,
            )
    }

    /// All of `wf` but that every known player is in the timeline, which holds again once
    /// the frame's records are appended.
    pub open spec fn wf_core(&self) -> bool {
        &&& self.actor_state.wf()
        &&& self.replay_data.wf()
        &&& unique_players(self.player_to_actor_id@)
        &&& self.replay_data.ball_data.frames@.len() == self.replay_data.frame_metadata@.len()
        &&& forall|i: int| #![trigger self.replay_data.players@[i]]
            0 <= i < self.replay_data.players@.len() ==> self.replay_data.players@[i].1.frames@.len()
                == self.replay_data.frame_metadata@.len() && player_keys(
                self.player_to_actor_id@,
            ).contains(self.replay_data.players@[i].0)
    }

    /// The match data of the current frame.
    pub fn get_metadata_frame(&self, time: u64) -> (r: MetadataFrame)
        requires
            self.actor_state.wf(),
        ensures
            r == (MetadataFrame { time, seconds_remaining: seconds_of(self.actor_state.store(), self.objects) }),
    {
        let seconds = match (self.objects.game_type, self.objects.seconds_remaining_key) {
            (Some(g), Some(k)) => {
                let ids = self.actor_state.actor_ids_of_type(g);
                if ids.len() > 0 {
                    assert(self.actor_state.ids_of_type(g).contains(ids@[0]));
                    match self.actor_state.get_actor_state(ids[0]) {
                        Ok(state) => match state.attributes.get(&k.0) {
                            Some(v) => match v.integer() {
                                Some(i) => if 0 <= i && i <= 255 {
                                    Some(i as u8)
                                } else {
                                    None
                                },
                                None => None,
                            },
                            None => None,
                        },
                        Err(_) => None,
                    }
                } else {
                    None
                }
            },
            _ => None,
        };
        MetadataFrame::new(time, seconds)
    }

    /// Whether a live actor holds, under `key`, a reference to `target`.
    fn refers(&self, a: ActorId, key: Option<ObjectId>, target: ActorId) -> (r: bool)
        ensures
            r == refers_to(self.actor_state.actors(), a, key, target),
    {
        match key {
            Some(k) => match self.actor_state.get_actor_state(a) {
                Ok(state) => match state.attributes.get(&k.0) {
                    Some(v) => match v.active_actor() {
                        Some(t) => t == target,
                        None => false,
                    },
                    None => false,
                },
                Err(_) => false,
            },
            None => false,
        }
    }

    /// The rigid body that a live actor holds under the rigid-body attribute.
    fn rigid_body(&self, actor_id: ActorId) -> (r: Option<RigidBody>)
        ensures
            r == rigid_body_of(self.actor_state.actors(), actor_id, self.objects.rigid_body_key),
    {
        match self.objects.rigid_body_key {
            Some(k) => match self.actor_state.get_actor_state(actor_id) {
                Ok(state) => match state.attributes.get(&k.0) {
                    Some(v) => v.rigid_body(),
                    None => None,
                },
                Err(_) => None,
            },
            None => None,
        }
    }

    /// The ball's record of the current frame.
    pub fn get_ball_frame(&self) -> (r: BallFrame)
        ensures
            r == ball_record(self.actor_state.actors(), self.ball_actor_id, self.objects.rigid_body_key),
    {
        match self.ball_actor_id {
            Some(a) => match self.rigid_body(a) {
                Some(rb) => BallFrame::from_data(&rb),
                None => BallFrame::Empty,
            },
            None => BallFrame::Empty,
        }
    }

    /// A player's record of the current frame, from the player's replication actor.
    pub fn get_frame_for_player(&self, player_actor: ActorId) -> (r: PlayerFrame)
        ensures
            r == player_record(
                self.actor_state.actors(),
                self.player_actor_to_car_actor@,
                self.car_actor_to_boost_actor@,
                player_actor,
                self.objects,
            ),
    {
        let car = match self.player_actor_to_car_actor.get(&player_actor.0) {
            Some(c) => *c,
            None => return PlayerFrame::Empty,
        };
        if !self.refers(car, self.objects.player_replication_key, player_actor) {
            return PlayerFrame::Empty;
        }
        let rigid_body = match self.rigid_body(car) {
            Some(rb) => rb,
            None => return PlayerFrame::Empty,
        };
        let boost = match self.car_actor_to_boost_actor.get(&car.0) {
            Some(b) => *b,
            None => return PlayerFrame::Empty,
        };
        if !self.refers(boost, self.objects.vehicle_key, car) {
            return PlayerFrame::Empty;
        }
        match self.actor_state.get_actor_state(boost) {
            Ok(state) => match state.boost_amount {
                Some(amount) => PlayerFrame::from_data(rigid_body, amount),
                None => PlayerFrame::Empty,
            },
            Err(_) => PlayerFrame::Empty,
        }
    }

    /// One record per known player, in the order the players were first seen.
    pub fn get_player_frames(&self) -> (r: Vec<(PlayerId, PlayerFrame)>)
        ensures
            r@.len() == self.player_to_actor_id@.len(),
            forall|i: int| #![trigger r@[i]]
                0 <= i < r@.len() ==> r@[i] == (
                    self.player_to_actor_id@[i].0,
                    player_record(
                        self.actor_state.actors(),
                        self.player_actor_to_car_actor@,
                        self.car_actor_to_boost_actor@,
                        self.player_to_actor_id@[i].1,
                        self.objects,
                    ),
                ),
    {
        let mut r: Vec<(PlayerId, PlayerFrame)> = Vec::new();
        let mut i: usize = 0;
        while i < self.player_to_actor_id.len()
            invariant
                i <= self.player_to_actor_id@.len(),
                r@.len() == i,
                forall|j: int| #![trigger r@[j]]
                    0 <= j < i ==> r@[j] == (
                        self.player_to_actor_id@[j].0,
                        player_record(
                            self.actor_state.actors(),
                            self.player_actor_to_car_actor@,
                            self.car_actor_to_boost_actor@,
                            self.player_to_actor_id@[j].1,
                            self.objects,
                        ),
                    ),
            decreases self.player_to_actor_id.len() - i,
        {
            let (p, a) = self.player_to_actor_id[i];
            r.push((p, self.get_frame_for_player(a)));
            i += 1;
        }
        r
    }

    /// Appends the current frame's records to the timeline: the match data, the ball, and
    /// one record per known player.
    pub fn add_frame_to_replay_data(&mut self, time: u64)
        requires
            old(self).wf_core(),
            old(self).replay_data.frame_metadata@.len() < usize::MAX,
        ensures
            final(self).wf(),
            final(self).replay_data.frame_metadata@ == old(self).replay_data.frame_metadata@.push(
                MetadataFrame { time, seconds_remaining: seconds_of(old(self).actor_state.store(), old(self).objects) },
            ),
            final(self).replay_data.ball_data.frames@ == old(self).replay_data.ball_data.frames@.push(
                ball_record(
                    old(self).actor_state.actors(),
                    old(self).ball_actor_id,
                    old(self).objects.rigid_body_key,
                ),
            ),
            final(self).actor_state == old(self).actor_state,
            final(self).ball_actor_id == old(self).ball_actor_id,
            final(self).objects == old(self).objects,
            final(self).player_to_actor_id == old(self).player_to_actor_id,
            final(self).player_actor_to_car_actor == old(self).player_actor_to_car_actor,
            final(self).car_actor_to_boost_actor == old(self).car_actor_to_boost_actor,
            final(self).car_actor_to_jump_actor == old(self).car_actor_to_jump_actor,
            final(self).car_actor_to_double_jump_actor == old(self).car_actor_to_double_jump_actor,
            final(self).car_actor_to_dodge_actor == old(self).car_actor_to_dodge_actor,
            records_appended(
                old(self).replay_data,
                final(self).replay_data,
                old(self).state(),
                old(self).objects,
                Seq::empty(),
            ),
            forall|j: int| #![trigger final(self).replay_data.players@[j]]
                old(self).replay_data.players@.len() <= j < final(self).replay_data.players@.len()
                    ==> !player_ids(old(self).replay_data.players@).contains(
                    final(self).replay_data.players@[j].0,
                ),
    {
        let metadata_frame = self.get_metadata_frame(time);
        let ball_frame = self.get_ball_frame();
        let player_frames = self.get_player_frames();
        let ghost list = player_frames@;
        let ghost keys = self.player_to_actor_id@;
        let ghost before = self.replay_data;
        let ghost n = before.frame_metadata@.len() + 1;
        assert forall|a: int, b: int|
            0 <= a < list.len() && 0 <= b < list.len() && a != b implies #[trigger] list[a].0
                != #[trigger] list[b].0 by {
            assert(list[a].0 == keys[a].0 && list[b].0 == keys[b].0);
        }
        self.replay_data.add_frame(metadata_frame, ball_frame, player_frames);
        proof {
            assert(before.ball_data.frames@ + Seq::new(0, |_i: int| BallFrame::Empty)
                =~= before.ball_data.frames@);
            let after = self.replay_data;
            assert forall|i: int| #![trigger after.players@[i]]
                0 <= i < after.players@.len() implies after.players@[i].1.frames@.len() == n
                    && player_keys(keys).contains(after.players@[i].0) by {
                let p = after.players@[i].0;
                if i < before.players@.len() {
                    assert(before.players@[i].1.frames@.len() == n - 1);
                    assert(player_keys(keys).contains(p));
                    let j = choose|j: int| 0 <= j < player_keys(keys).len() && player_keys(keys)[j] == p;
                    assert(list[j].0 == p);
                    lemma_frame_for_present(list, j);
                } else {
                    lemma_frame_for_listed(list, p);
                    let j = choose|j: int| 0 <= j < list.len() && #[trigger] list[j].0 == p;
                    assert(player_keys(keys)[j] == p);
                }
            }
            let v = old(self).state();
            assert forall|j: int| #![trigger after.players@[j]]
                0 <= j < after.players@.len() implies frame_for(list, after.players@[j].0) == Some(
                    player_frame_of(v, self.objects, after.players@[j].0),
                ) by {
                let p = after.players@[j].0;
                assert(player_keys(keys).contains(p));
                let k = choose|k: int| 0 <= k < player_keys(keys).len() && player_keys(keys)[k] == p;
                assert(keys[k].0 == p);
                let c = choose|c: int| 0 <= c < keys.len() && keys[c].0 == p;
                assert(c == k);
                assert(list[k].0 == p);
                lemma_frame_for_present(list, k);
            }
            assert forall|j: int| #![trigger after.players@[j]]
                0 <= j < before.players@.len() implies after.players@[j].1.frames@
                    == before.players@[j].1.frames@.push(
                    player_frame_of(v, self.objects, after.players@[j].0),
                ) by {}
            assert forall|j: int| #![trigger after.players@[j]]
                before.players@.len() <= j < after.players@.len() implies after.players@[j].1.frames@
                    == Seq::new(before.frame_metadata@.len(), |_i: int| PlayerFrame::Empty).push(
                    player_frame_of(v, self.objects, after.players@[j].0),
                ) && !player_ids(before.players@).contains(after.players@[j].0) by {
                assert(Seq::<PlayerFrame>::empty() + Seq::new(
                    before.frame_metadata@.len(),
                    |_i: int| PlayerFrame::Empty,
                ) =~= Seq::new(before.frame_metadata@.len(), |_i: int| PlayerFrame::Empty));
                if player_ids(before.players@).contains(after.players@[j].0) {
                    let k = choose|k: int|
                        0 <= k < player_ids(before.players@).len() && player_ids(before.players@)[k]
                            == after.players@[j].0;
                    assert(after.players@[k].0 == before.players@[k].0);
                }
            }
            assert forall|k: int| #![trigger keys[k]]
                0 <= k < keys.len() implies player_ids(after.players@).contains(keys[k].0) by {
                assert(list[k].0 == keys[k].0);
            }
        }
    }

    /// Processes one frame: its actor events, then the links, the ball slot and the boost
    /// model, then the frame's records. An actor event that contradicts the store fails the
    /// frame.
    pub fn process_frame(&mut self, frame: &Frame) -> (r: Result<(), ProcessError>)
        requires
            old(self).wf(),
            old(self).replay_data.frame_metadata@.len() < usize::MAX,
        ensures
            final(self).wf(),
            final(self).objects == old(self).objects,
            match proc_step(old(self).state(), *frame, old(self).objects) {
                Ok(v) => {
                    &&& r is Ok
                    &&& final(self).state() == v
                    &&& final(self).replay_data.frame_metadata@ == old(
                        self,
                    ).replay_data.frame_metadata@.push(metadata_record(v, old(self).objects, frame.time))
                    &&& final(self).replay_data.ball_data.frames@ == old(
                        self,
                    ).replay_data.ball_data.frames@.push(ball_frame_of(v, old(self).objects))
                    &&& records_appended(old(self).replay_data, final(self).replay_data, v, old(self).objects, old(self).player_to_actor_id@)
                },
                Err(e) => r == Err::<(), ProcessError>(e),
            },
    {
        let ghost s0 = self.state();
        match self.actor_state.process_frame(frame) {
            Ok(()) => {},
            Err(e) => return Err(e),
        }
        let ghost mid = *self;
        self.update_links(frame);
        self.update_ball_id(frame);
        let ghost before_boost = *self;
        self.update_boost_amounts(frame.delta);
        proof {
            assert(self.actor_state.store().index =~= before_boost.actor_state.store().index);
            assert forall|i: int| #![trigger self.replay_data.players@[i]]
                0 <= i < self.replay_data.players@.len() implies player_keys(
                    self.player_to_actor_id@,
                ).contains(self.replay_data.players@[i].0) by {
                assert(mid.replay_data.players@[i] == self.replay_data.players@[i]);
                lemma_apply_players_keeps(
                    mid.player_to_actor_id@,
                    mid.actor_state.actors(),
                    frame.updated_actors@,
                    mid.objects.unique_id_key,
                    mid.objects.player_type,
                    self.replay_data.players@[i].0,
                );
            }
            assert(self.state() == proc_step(s0, *frame, self.objects)->Ok_0);
        }
        self.add_frame_to_replay_data(frame.time);
        Ok(())
    }

    /// Processes every frame in order and hands back the timeline. Each frame's records are
    /// those of the state after that frame: the match data, the ball, and every player, the
    /// ones not yet known at a frame with an empty record there.
    pub fn get_data(self, frames: &Vec<Frame>) -> (r: Result<ReplayData, ProcessError>)
        requires
            self.wf(),
            self.replay_data.frame_metadata@.len() == 0,
            self.player_to_actor_id@.len() == 0,
        ensures
            match run_states(self.state(), frames@, self.objects) {
                Ok(states) => r matches Ok(d) && timeline_of(d, states, frames@, self.objects),
                Err(e) => r == Err::<ReplayData, ProcessError>(e),
            },
    {
        let ghost v0 = self.state();
        let ghost objects = self.objects;
        let ghost mut states: Seq<ProcessorView> = Seq::empty();
        let mut processor = self;
        let mut i: usize = 0;
        while i < frames.len()
            invariant
                i <= frames@.len(),
                processor.wf(),
                processor.objects == objects,
                v0 == self.state(),
                objects == self.objects,
                v0.players.len() == 0,
                processor.replay_data.frame_metadata@.len() == i,
                run_states(v0, frames@.take(i as int), objects) == Ok::<
                    Seq<ProcessorView>,
                    ProcessError,
                >(states),
                states.len() == i,
                processor.state() == last_state(v0, states),
                timeline_of(processor.replay_data, states, frames@.take(i as int), objects),
                forall|k: int, q: PlayerId|
                    0 <= k < i && #[trigger] player_keys(states[k].players).contains(q)
                        ==> player_keys(processor.player_to_actor_id@).contains(q),
            decreases frames.len() - i,
        {
            assert(frames@.take(i as int + 1).drop_last() =~= frames@.take(i as int));
            assert(frames@.take(i as int + 1).last() == frames@[i as int]);
            let ghost before = processor;
            match processor.process_frame(&frames[i]) {
                Ok(()) => {},
                Err(e) => {
                    proof {
                        lemma_run_states_stops(v0, frames@, objects, i as nat);
                    }
                    return Err(e);
                },
            }
            proof {
                let v = processor.state();
                let ns = states.push(v);
                let f = frames@.take(i as int + 1);
                let s1 = frame_step(before.state().store, frames@[i as int]).0;
                assert forall|q: PlayerId| #[trigger]
                    player_keys(before.player_to_actor_id@).contains(q) implies player_keys(
                        processor.player_to_actor_id@,
                    ).contains(q) by {
                    lemma_apply_players_keeps(
                        before.player_to_actor_id@,
                        s1.actors,
                        frames@[i as int].updated_actors@,
                        objects.unique_id_key,
                        objects.player_type,
                        q,
                    );
                }
                assert forall|k: int, q: PlayerId|
                    0 <= k < i + 1 && #[trigger] player_keys(ns[k].players).contains(q)
                        implies player_keys(processor.player_to_actor_id@).contains(q) by {
                    if k < i {
                        assert(ns[k] == states[k]);
                    }
                }
                lemma_timeline_step(
                    before.replay_data,
                    processor.replay_data,
                    states,
                    v,
                    frames@.take(i as int),
                    frames@[i as int],
                    objects,
                    before.player_to_actor_id@,
                );
                assert(f =~= frames@.take(i as int).push(frames@[i as int]));
                states = ns;
            }
            i += 1;
        }
        assert(frames@.take(i as int) =~= frames@);
        Ok(processor.replay_data)
    }
}

/// The processing state as mathematical values.
pub struct ProcessorView {
    pub store: StoreView,
    pub ball: Option<ActorId>,
    pub players: Seq<(PlayerId, ActorId)>,
    pub cars: Map<i32, ActorId>,
    pub boosts: Map<i32, ActorId>,
    pub jumps: Map<i32, ActorId>,
    pub double_jumps: Map<i32, ActorId>,
    pub dodges: Map<i32, ActorId>,
}

impl ReplayProcessor {
    /// The processing state, without the timeline.
    pub open spec fn state(&self) -> ProcessorView {
        ProcessorView {
            store: self.actor_state.store(),
            ball: self.ball_actor_id,
            players: self.player_to_actor_id@,
            cars: self.player_actor_to_car_actor@,
            boosts: self.car_actor_to_boost_actor@,
            jumps: self.car_actor_to_jump_actor@,
            double_jumps: self.car_actor_to_double_jump_actor@,
            dodges: self.car_actor_to_dodge_actor@,
        }
    }
}

/// The processing state before any frame: no actors, no links, no ball, no players.
pub open spec fn initial_state() -> ProcessorView {
    ProcessorView {
        store: StoreView {
            actors: Map::empty(),
            index: Map::new(|o: ObjectId| true, |o: ObjectId| Seq::empty()),
        },
        ball: None,
        players: Seq::empty(),
        cars: Map::empty(),
        boosts: Map::empty(),
        jumps: Map::empty(),
        double_jumps: Map::empty(),
        dodges: Map::empty(),
    }
}

/// The processing state after one frame: its actor events, the links, the ball slot and
/// the boost model; the first failing actor event instead.
pub open spec fn proc_step(v: ProcessorView, f: Frame, objects: KnownObjects) -> Result<
    ProcessorView,
    ProcessError,
> {
    let (s1, e) = frame_step(v.store, f);
    match e {
        Some(e) => Err(e),
        None => Ok(
            ProcessorView {
                store: StoreView {
                    actors: boosted_all(s1.actors, objects, f.delta),
                    index: s1.index,
                },
                ball: next_ball(v.ball, f.deleted_actors@, first_of_types(s1.index, objects.ball_types@)),
                players: apply_players(
                    v.players,
                    s1.actors,
                    f.updated_actors@,
                    objects.unique_id_key,
                    objects.player_type,
                ),
                cars: sweep(
                    apply_links(v.cars, s1.actors, f.updated_actors@, objects.player_replication_key, objects.car_type),
                    f.deleted_actors@,
                ),
                boosts: sweep(
                    apply_links(v.boosts, s1.actors, f.updated_actors@, objects.vehicle_key, objects.boost_type),
                    f.deleted_actors@,
                ),
                jumps: sweep(
                    apply_links(v.jumps, s1.actors, f.updated_actors@, objects.vehicle_key, objects.jump_type),
                    f.deleted_actors@,
                ),
                double_jumps: sweep(
                    apply_links(v.double_jumps, s1.actors, f.updated_actors@, objects.vehicle_key, objects.double_jump_type),
                    f.deleted_actors@,
                ),
                dodges: sweep(
                    apply_links(v.dodges, s1.actors, f.updated_actors@, objects.vehicle_key, objects.dodge_type),
                    f.deleted_actors@,
                ),
            },
        ),
    }
}

/// The state before the first frame still to run.
pub open spec fn last_state(v0: ProcessorView, states: Seq<ProcessorView>) -> ProcessorView {
    if states.len() == 0 {
        v0
    } else {
        states.last()
    }
}

/// The states after each frame in turn; the first failing frame's error instead.
pub open spec fn run_states(v0: ProcessorView, frames: Seq<Frame>, objects: KnownObjects) -> Result<
    Seq<ProcessorView>,
    ProcessError,
>
    decreases frames.len(),
{
    if frames.len() == 0 {
        Ok(Seq::empty())
    } else {
        match run_states(v0, frames.drop_last(), objects) {
            Err(e) => Err(e),
            Ok(states) => match proc_step(last_state(v0, states), frames.last(), objects) {
                Err(e) => Err(e),
                Ok(v) => Ok(states.push(v)),
            },
        }
    }
}

/// The match data recorded for a state.
pub open spec fn metadata_record(v: ProcessorView, objects: KnownObjects, time: u64) -> MetadataFrame {
    MetadataFrame { time, seconds_remaining: seconds_of(v.store, objects) }
}

/// The ball's record for a state.
pub open spec fn ball_frame_of(v: ProcessorView, objects: KnownObjects) -> BallFrame {
    ball_record(v.store.actors, v.ball, objects.rigid_body_key)
}

/// A player's record for a state: empty where the player is not known yet.
pub open spec fn player_frame_of(v: ProcessorView, objects: KnownObjects, p: PlayerId) -> PlayerFrame {
    if player_keys(v.players).contains(p) {
        let k = choose|k: int| 0 <= k < v.players.len() && v.players[k].0 == p;
        player_record(v.store.actors, v.cars, v.boosts, v.players[k].1, objects)
    } else {
        PlayerFrame::Empty
    }
}

/// The players' records of one frame appended: each player already in the timeline gets
/// the record of state `v`; each player new to it gets empty records for the earlier
/// frames, then that record.
pub open spec fn records_appended(
    before: ReplayData,
    after: ReplayData,
    v: ProcessorView,
    objects: KnownObjects,
    known_before: Seq<(PlayerId, ActorId)>,
) -> bool {
    &&& after.players@.len() >= before.players@.len()
    &&& forall|j: int| #![trigger after.players@[j]]
        0 <= j < before.players@.len() ==> after.players@[j].0 == before.players@[j].0
            && after.players@[j].1.frames@ == before.players@[j].1.frames@.push(
            player_frame_of(v, objects, after.players@[j].0),
        )
    &&& forall|j: int| #![trigger after.players@[j]]
        before.players@.len() <= j < after.players@.len() ==> !player_keys(known_before).contains(
            after.players@[j].0,
        ) && after.players@[j].1.frames@ == Seq::new(
            before.frame_metadata@.len(),
            |_i: int| PlayerFrame::Empty,
        ).push(player_frame_of(v, objects, after.players@[j].0))
}

/// A timeline holds, for each frame, the records of the state after it: the frame's time
/// and clock, the ball, and every player it lists; and it lists every player known at the
/// end.
pub open spec fn timeline_of(
    d: ReplayData,
    states: Seq<ProcessorView>,
    frames: Seq<Frame>,
    objects: KnownObjects,
) -> bool {
    &&& states.len() == frames.len()
    &&& d.frame_metadata@.len() == frames.len()
    &&& d.ball_data.frames@.len() == frames.len()
    &&& forall|i: int| #![trigger d.frame_metadata@[i]]
        0 <= i < frames.len() ==> d.frame_metadata@[i] == metadata_record(states[i], objects, frames[i].time)
    &&& forall|i: int| #![trigger d.ball_data.frames@[i]]
        0 <= i < frames.len() ==> d.ball_data.frames@[i] == ball_frame_of(states[i], objects)
    &&& forall|j: int| #![trigger d.players@[j]]
        0 <= j < d.players@.len() ==> d.players@[j].1.frames@.len() == frames.len()
    &&& forall|j: int, i: int|
        0 <= j < d.players@.len() && 0 <= i < frames.len() ==> #[trigger] d.players@[j].1.frames@[i]
            == player_frame_of(states[i], objects, d.players@[j].0)
    &&& frames.len() > 0 ==> forall|q: PlayerId| #[trigger]
        player_keys(states.last().players).contains(q) ==> player_ids(d.players@).contains(q)
}

proof fn lemma_run_states_stops(
    v0: ProcessorView,
    frames: Seq<Frame>,
    objects: KnownObjects,
    i: nat,
)
    requires
        i < frames.len(),
        run_states(v0, frames.take(i as int + 1), objects) is Err,
    ensures
        run_states(v0, frames, objects) == run_states(v0, frames.take(i as int + 1), objects),
    decreases frames.len() - i,
{
    if i + 1 < frames.len() {
        assert(frames.take(i as int + 2).drop_last() =~= frames.take(i as int + 1));
        lemma_run_states_stops(v0, frames, objects, i + 1);
    } else {
        assert(frames.take(i as int + 1) =~= frames);
    }
}

proof fn lemma_timeline_step(
    before: ReplayData,
    after: ReplayData,
    states: Seq<ProcessorView>,
    v: ProcessorView,
    frames: Seq<Frame>,
    f: Frame,
    objects: KnownObjects,
    known_before: Seq<(PlayerId, ActorId)>,
)
    requires
        timeline_of(before, states, frames, objects),
        after.frame_metadata@ == before.frame_metadata@.push(metadata_record(v, objects, f.time)),
        after.ball_data.frames@ == before.ball_data.frames@.push(ball_frame_of(v, objects)),
        records_appended(before, after, v, objects, known_before),
        forall|k: int, q: PlayerId|
            0 <= k < states.len() && #[trigger] player_keys(states[k].players).contains(q)
                ==> player_keys(known_before).contains(q),
        forall|q: PlayerId| #[trigger]
            player_keys(v.players).contains(q) ==> player_ids(after.players@).contains(q),
    ensures
        timeline_of(after, states.push(v), frames.push(f), objects),
{
    let ns = states.push(v);
    let nf = frames.push(f);
    let n = frames.len() as int;
    assert forall|i: int| #![trigger after.frame_metadata@[i]]
        0 <= i < nf.len() implies after.frame_metadata@[i] == metadata_record(ns[i], objects, nf[i].time) by {
        if i < n {
            assert(before.frame_metadata@[i] == metadata_record(states[i], objects, frames[i].time));
        }
    }
    assert forall|i: int| #![trigger after.ball_data.frames@[i]]
        0 <= i < nf.len() implies after.ball_data.frames@[i] == ball_frame_of(ns[i], objects) by {
        if i < n {
            assert(before.ball_data.frames@[i] == ball_frame_of(states[i], objects));
        }
    }
    assert forall|j: int, i: int|
        0 <= j < after.players@.len() && 0 <= i < nf.len() implies #[trigger] after.players@[j].1.frames@[i]
            == player_frame_of(ns[i], objects, after.players@[j].0) by {
        let p = after.players@[j].0;
        if j < before.players@.len() {
            if i < n {
                assert(before.players@[j].1.frames@[i] == player_frame_of(states[i], objects, p));
            }
        } else {
            if i < n {
                assert(!player_keys(states[i].players).contains(p));
            }
        }
    }
    assert forall|j: int| #![trigger after.players@[j]]
        0 <= j < after.players@.len() implies after.players@[j].1.frames@.len() == nf.len() by {
        if j < before.players@.len() {
            assert(before.players@[j].1.frames@.len() == n);
        }
    }
}

/// In a timeline, a player has one record per frame, and an empty one at every frame
/// where the player was not known yet.
pub proof fn lemma_timeline_padding(
    d: ReplayData,
    states: Seq<ProcessorView>,
    frames: Seq<Frame>,
    objects: KnownObjects,
    j: int,
    i: int,
)
    requires
        timeline_of(d, states, frames, objects),
        0 <= j < d.players@.len(),
        0 <= i < frames.len(),
        !player_keys(states[i].players).contains(d.players@[j].0),
    ensures
        d.players@[j].1.frames@.len() == frames.len(),
        d.players@[j].1.frames@[i] == PlayerFrame::Empty,
{
}

} // verus!
