use crate::actors::ActorView;
use crate::attributes::{Attribute, PlayerId};
use crate::network::{ActorId, ObjectId, UpdatedAttribute};
use std::collections::HashMap;
use vstd::prelude::*;
use vstd::std_specs::hash::group_hash_axioms;

verus! {

broadcast use group_hash_axioms;

/// The actor that an update links to, where the update sets `attribute` on a live actor of
/// type `source` and that actor now holds an actor reference under it.
pub open spec fn link_target(
    actors: Map<i32, ActorView>,
    u: UpdatedAttribute,
    attribute: Option<ObjectId>,
    source: Option<ObjectId>,
) -> Option<ActorId> {
    match (attribute, source) {
        (Some(a), Some(src)) => if u.object_id == a && actors.contains_key(u.actor_id.0)
            && actors[u.actor_id.0].object_id == src && actors[u.actor_id.0].attributes.contains_key(
            a.0,
        ) {
            match actors[u.actor_id.0].attributes[a.0] {
                Attribute::ActiveActor(r) => Some(r.actor),
                _ => None,
            }
        } else {
            None
        },
        _ => None,
    }
}

/// The player that an update identifies, where the update sets `attribute` on a live actor
/// of type `source` and that actor now holds a player id under it.
pub open spec fn player_target(
    actors: Map<i32, ActorView>,
    u: UpdatedAttribute,
    attribute: Option<ObjectId>,
    source: Option<ObjectId>,
) -> Option<PlayerId> {
    match (attribute, source) {
        (Some(a), Some(src)) => if u.object_id == a && actors.contains_key(u.actor_id.0)
            && actors[u.actor_id.0].object_id == src && actors[u.actor_id.0].attributes.contains_key(
            a.0,
        ) {
            match actors[u.actor_id.0].attributes[a.0] {
                Attribute::UniqueId(p) => Some(p),
                _ => None,
            }
        } else {
            None
        },
        _ => None,
    }
}

/// A link map after a frame's updates: each update that links its actor to a target maps
/// the target to that actor, replacing any earlier entry.
pub open spec fn apply_links(
    m: Map<i32, ActorId>,
    actors: Map<i32, ActorView>,
    ups: Seq<UpdatedAttribute>,
    attribute: Option<ObjectId>,
    source: Option<ObjectId>,
) -> Map<i32, ActorId>
    decreases ups.len(),
{
    if ups.len() == 0 {
        m
    } else {
        let m1 = apply_links(m, actors, ups.drop_last(), attribute, source);
        match link_target(actors, ups.last(), attribute, source) {
            Some(t) => m1.insert(t.0, ups.last().actor_id),
            None => m1,
        }
    }
}

/// A link map without the entries keyed by deleted actors.
pub open spec fn sweep(m: Map<i32, ActorId>, deleted: Seq<ActorId>) -> Map<i32, ActorId>
    decreases deleted.len(),
{
    if deleted.len() == 0 {
        m
    } else {
        sweep(m, deleted.drop_last()).remove(deleted.last().0)
    }
}

/// Whether a list of player entries holds each player once.
pub open spec fn unique_players(s: Seq<(PlayerId, ActorId)>) -> bool {
    forall|i: int, j: int|
        0 <= i < s.len() && 0 <= j < s.len() && i != j ==> #[trigger] s[i].0 != #[trigger] s[j].0
}

/// The player entries with `p` mapped to `a`: in place where `p` is known, else at the end.
pub open spec fn upsert(s: Seq<(PlayerId, ActorId)>, p: PlayerId, a: ActorId) -> Seq<
    (PlayerId, ActorId),
> {
    if exists|i: int| 0 <= i < s.len() && s[i].0 == p {
        s.update(choose|i: int| 0 <= i < s.len() && s[i].0 == p, (p, a))
    } else {
        s.push((p, a))
    }
}

/// The player entries after a frame's updates.
pub open spec fn apply_players(
    s: Seq<(PlayerId, ActorId)>,
    actors: Map<i32, ActorView>,
    ups: Seq<UpdatedAttribute>,
    attribute: Option<ObjectId>,
    source: Option<ObjectId>,
) -> Seq<(PlayerId, ActorId)>
    decreases ups.len(),
{
    if ups.len() == 0 {
        s
    } else {
        let s1 = apply_players(s, actors, ups.drop_last(), attribute, source);
        match player_target(actors, ups.last(), attribute, source) {
            Some(p) => upsert(s1, p, ups.last().actor_id),
            None => s1,
        }
    }
}

/// Maps `target`, where there is one, to `actor`.
pub(crate) fn record_link(map: &mut HashMap<i32, ActorId>, target: Option<ActorId>, actor: ActorId)
    ensures
        final(map)@ == match target {
            Some(t) => old(map)@.insert(t.0, actor),
            None => old(map)@,
        },
{
    match target {
        Some(t) => {
            map.insert(t.0, actor);
        },
        None => {},
    }
}

/// Removes the entry keyed by a deleted actor.
pub(crate) fn forget_link(map: &mut HashMap<i32, ActorId>, actor: ActorId)
    ensures
        final(map)@ == old(map)@.remove(actor.0),
{
    map.remove(&actor.0);
}

/// Maps player `p` to actor `a`, in place where `p` is known, else at the end.
pub(crate) fn upsert_player(players: &mut Vec<(PlayerId, ActorId)>, p: PlayerId, a: ActorId)
    requires
        unique_players(old(players)@),
    ensures
        final(players)@ == upsert(old(players)@, p, a),
        unique_players(final(players)@),
{
    let mut idx: usize = 0;
    while idx < players.len() && players[idx].0 != p
        invariant
            idx <= players@.len(),
            forall|i: int| 0 <= i < idx ==> players@[i].0 != p,
        decreases players.len() - idx,
    {
        idx += 1;
    }
    let ghost s = players@;
    if idx < players.len() {
        players.set(idx, (p, a));
        proof {
            let c = choose|i: int| 0 <= i < s.len() && s[i].0 == p;
            assert(c == idx);
        }
    } else {
        players.push((p, a));
    }
}

/// The players of a list of player entries.
pub open spec fn player_keys(s: Seq<(PlayerId, ActorId)>) -> Seq<PlayerId> {
    s.map_values(|e: (PlayerId, ActorId)| e.0)
}

proof fn lemma_upsert_keeps(s: Seq<(PlayerId, ActorId)>, p: PlayerId, a: ActorId, q: PlayerId)
    requires
        player_keys(s).contains(q),
    ensures
        player_keys(upsert(s, p, a)).contains(q),
{
    let i = choose|i: int| 0 <= i < player_keys(s).len() && player_keys(s)[i] == q;
    let u = upsert(s, p, a);
    if exists|j: int| 0 <= j < s.len() && s[j].0 == p {
        let c = choose|j: int| 0 <= j < s.len() && s[j].0 == p;
        assert(player_keys(u)[i] == q);
    } else {
        assert(player_keys(u)[i] == q);
    }
}

pub(crate) proof fn lemma_apply_players_keeps(
    s: Seq<(PlayerId, ActorId)>,
    actors: Map<i32, ActorView>,
    ups: Seq<UpdatedAttribute>,
    attribute: Option<ObjectId>,
    source: Option<ObjectId>,
    q: PlayerId,
)
    requires
        player_keys(s).contains(q),
    ensures
        player_keys(apply_players(s, actors, ups, attribute, source)).contains(q),
    decreases ups.len(),
{
    if ups.len() > 0 {
        lemma_apply_players_keeps(s, actors, ups.drop_last(), attribute, source, q);
        let s1 = apply_players(s, actors, ups.drop_last(), attribute, source);
        match player_target(actors, ups.last(), attribute, source) {
            Some(p) => lemma_upsert_keeps(s1, p, ups.last().actor_id, q),
            None => {},
        }
    }
}

} // verus!
