use crate::attributes::{Attribute, ProcessError};
use crate::network::{ActorId, Frame, NewActor, ObjectId, UpdatedAttribute};
use std::collections::HashMap;
use vstd::prelude::*;
use vstd::std_specs::hash::group_hash_axioms;

verus! {

broadcast use group_hash_axioms;

/// What an actor holds, as mathematical values.
pub struct ActorView {
    pub attributes: Map<i32, Attribute>,
    pub boost_amount: Option<u64>,
    pub last_boost_sample: Option<u8>,
    pub object_id: ObjectId,
    pub name_id: Option<i32>,
}

/// One live actor: the last value seen of each attribute, keyed by the attribute's object
/// id, and the values that the reconstruction derives for it.
#[derive(Debug)]
pub struct ActorState {
    pub attributes: HashMap<i32, Attribute>,
    /// The boost amount carried between frames, in millionths of a unit.
    pub boost_amount: Option<u64>,
    /// The sampled boost byte that `boost_amount` was last reconciled with.
    pub last_boost_sample: Option<u8>,
    pub object_id: ObjectId,
    pub name_id: Option<i32>,
}

impl View for ActorState {
    type V = ActorView;

    open spec fn view(&self) -> ActorView {
        ActorView {
            attributes: self.attributes@,
            boost_amount: self.boost_amount,
            last_boost_sample: self.last_boost_sample,
            object_id: self.object_id,
            name_id: self.name_id,
        }
    }
}

/// The state of an actor that has just spawned.
pub open spec fn fresh_actor(na: NewActor) -> ActorView {
    ActorView {
        attributes: Map::empty(),
        boost_amount: None,
        last_boost_sample: None,
        object_id: na.object_id,
        name_id: na.name_id,
    }
}

/// A spawn: a fresh actor where the id is free, nothing where it is live under the same
/// type, a conflict where it is live under another.
pub open spec fn spawn_step(m: Map<i32, ActorView>, na: NewActor) -> Result<
    Map<i32, ActorView>,
    ProcessError,
> {
    let id = na.actor_id.0;
    if !m.contains_key(id) {
        Ok(m.insert(id, fresh_actor(na)))
    } else if m[id].object_id == na.object_id {
        Ok(m)
    } else {
        Err(
            ProcessError::Conflict {
                actor_id: na.actor_id,
                existing: m[id].object_id,
                requested: na.object_id,
            },
        )
    }
}

/// An attribute update: the new value replaces the old one of a live actor.
pub open spec fn update_step(m: Map<i32, ActorView>, u: UpdatedAttribute) -> Result<
    Map<i32, ActorView>,
    ProcessError,
> {
    let id = u.actor_id.0;
    if m.contains_key(id) {
        Ok(
            m.insert(
                id,
                ActorView { attributes: m[id].attributes.insert(u.object_id.0, u.attribute), ..m[id] },
            ),
        )
    } else {
        Err(ProcessError::NotFound(u.actor_id))
    }
}

/// A deletion: a live actor goes away.
pub open spec fn delete_step(m: Map<i32, ActorView>, id: ActorId) -> Result<
    Map<i32, ActorView>,
    ProcessError,
> {
    if m.contains_key(id.0) {
        Ok(m.remove(id.0))
    } else {
        Err(ProcessError::NotFound(id))
    }
}

/// The live actors and, for each type, its live actors in the order they spawned.
pub struct StoreView {
    pub actors: Map<i32, ActorView>,
    pub index: Map<ObjectId, Seq<ActorId>>,
}

/// A spawn on the whole store: a fresh id is also listed last under its type.
pub open spec fn spawn_store(st: StoreView, na: NewActor) -> Result<StoreView, ProcessError> {
    match spawn_step(st.actors, na) {
        Err(e) => Err(e),
        Ok(m) => Ok(
            StoreView {
                actors: m,
                index: if st.actors.contains_key(na.actor_id.0) {
                    st.index
                } else {
                    st.index.insert(na.object_id, st.index[na.object_id].push(na.actor_id))
                },
            },
        ),
    }
}

/// An attribute update on the whole store; the type lists stay as they are.
pub open spec fn update_store(st: StoreView, u: UpdatedAttribute) -> Result<StoreView, ProcessError> {
    match update_step(st.actors, u) {
        Err(e) => Err(e),
        Ok(m) => Ok(StoreView { actors: m, index: st.index }),
    }
}

/// A deletion on the whole store: the id also leaves its type's list.
pub open spec fn delete_store(st: StoreView, id: ActorId) -> Result<StoreView, ProcessError> {
    match delete_step(st.actors, id) {
        Err(e) => Err(e),
        Ok(m) => {
            let o = st.actors[id.0].object_id;
            Ok(StoreView { actors: m, index: st.index.insert(o, without(st.index[o], id)) })
        },
    }
}

/// The deletions applied in order up to the first failure: the store they leave, and the
/// failure if there is one.
pub open spec fn delete_all(st: StoreView, ids: Seq<ActorId>) -> (StoreView, Option<ProcessError>)
    decreases ids.len(),
{
    if ids.len() == 0 {
        (st, None)
    } else {
        let (s1, e) = delete_all(st, ids.drop_last());
        if e is Some {
            (s1, e)
        } else {
            match delete_store(s1, ids.last()) {
                Ok(s2) => (s2, None),
                Err(e2) => (s1, Some(e2)),
            }
        }
    }
}

/// The spawns applied in order up to the first failure: the store they leave, and the
/// failure if there is one.
pub open spec fn spawn_all(st: StoreView, news: Seq<NewActor>) -> (StoreView, Option<ProcessError>)
    decreases news.len(),
{
    if news.len() == 0 {
        (st, None)
    } else {
        let (s1, e) = spawn_all(st, news.drop_last());
        if e is Some {
            (s1, e)
        } else {
            match spawn_store(s1, news.last()) {
                Ok(s2) => (s2, None),
                Err(e2) => (s1, Some(e2)),
            }
        }
    }
}

/// The updates applied in order up to the first failure: the store they leave, and the
/// failure if there is one.
pub open spec fn update_all(st: StoreView, ups: Seq<UpdatedAttribute>) -> (
    StoreView,
    Option<ProcessError>,
)
    decreases ups.len(),
{
    if ups.len() == 0 {
        (st, None)
    } else {
        let (s1, e) = update_all(st, ups.drop_last());
        if e is Some {
            (s1, e)
        } else {
            match update_store(s1, ups.last()) {
                Ok(s2) => (s2, None),
                Err(e2) => (s1, Some(e2)),
            }
        }
    }
}

/// A frame's events: deletions, then spawns, then attribute updates, up to the first
/// failure. The store they leave, and the failure if there is one.
pub open spec fn frame_step(st: StoreView, f: Frame) -> (StoreView, Option<ProcessError>) {
    let (s1, e1) = delete_all(st, f.deleted_actors@);
    if e1 is Some {
        (s1, e1)
    } else {
        let (s2, e2) = spawn_all(s1, f.new_actors@);
        if e2 is Some {
            (s2, e2)
        } else {
            update_all(s2, f.updated_actors@)
        }
    }
}

/// The ids of `s` other than `a`, in order.
pub open spec fn without(s: Seq<ActorId>, a: ActorId) -> Seq<ActorId>
    decreases s.len(),
{
    if s.len() == 0 {
        s
    } else {
        let r = without(s.drop_last(), a);
        if s.last() == a {
            r
        } else {
            r.push(s.last())
        }
    }
}

proof fn lemma_push_contains(s: Seq<ActorId>, x: ActorId)
    ensures
        forall|y: ActorId| #[trigger] s.push(x).contains(y) <==> (s.contains(y) || y == x),
{
    assert forall|y: ActorId| #[trigger] s.push(x).contains(y) <==> (s.contains(y) || y == x) by {
        if s.push(x).contains(y) {
            let i = choose|i: int| 0 <= i < s.len() + 1 && s.push(x)[i] == y;
            if i < s.len() {
                assert(s[i] == y);
            }
        }
        if s.contains(y) {
            let i = choose|i: int| 0 <= i < s.len() && s[i] == y;
            assert(s.push(x)[i] == y);
        }
        if y == x {
            assert(s.push(x)[s.len() as int] == y);
        }
    }
}

proof fn lemma_push_no_duplicates(s: Seq<ActorId>, x: ActorId)
    requires
        s.no_duplicates(),
        !s.contains(x),
    ensures
        s.push(x).no_duplicates(),
{
    let q = s.push(x);
    assert forall|i: int, j: int| 0 <= i < q.len() && 0 <= j < q.len() && i != j implies q[i]
        != q[j] by {
        if i < s.len() {
            assert(q[i] == s[i]);
            assert(s.contains(s[i]));
        }
        if j < s.len() {
            assert(q[j] == s[j]);
            assert(s.contains(s[j]));
        }
    }
}

proof fn lemma_without(s: Seq<ActorId>, a: ActorId)
    ensures
        forall|x: ActorId| #[trigger] without(s, a).contains(x) <==> (s.contains(x) && x != a),
        s.no_duplicates() ==> without(s, a).no_duplicates(),
    decreases s.len(),
{
    if s.len() > 0 {
        let p = s.drop_last();
        lemma_without(p, a);
        assert(s =~= p.push(s.last()));
        lemma_push_contains(p, s.last());
        let r = without(p, a);
        if s.last() != a {
            lemma_push_contains(r, s.last());
        }
        assert forall|x: ActorId| #[trigger] without(s, a).contains(x) <==> (s.contains(x) && x
            != a) by {}
        if s.no_duplicates() {
            assert(p.no_duplicates()) by {
                assert forall|i: int, j: int|
                    0 <= i < p.len() && 0 <= j < p.len() && i != j implies p[i] != p[j] by {
                    assert(p[i] == s[i] && p[j] == s[j]);
                }
            }
            assert(!p.contains(s.last())) by {
                if p.contains(s.last()) {
                    let i = choose|i: int| 0 <= i < p.len() && p[i] == s.last();
                    assert(s[i] == s[s.len() - 1]);
                }
            }
            if s.last() != a {
                lemma_push_no_duplicates(r, s.last());
            }
        }
    }
}

impl ActorState {
    /// The empty state of an actor that has just spawned.
    pub fn new(new_actor: &NewActor) -> (r: ActorState)
        ensures
            r@ == fresh_actor(*new_actor),
    {
        ActorState {
            attributes: HashMap::new(),
            boost_amount: None,
            last_boost_sample: None,
            object_id: new_actor.object_id,
            name_id: new_actor.name_id,
        }
    }

    /// Records a new value of an attribute and hands back the one it replaces.
    pub fn update_attribute(&mut self, update: &UpdatedAttribute) -> (r: Option<Attribute>)
        ensures
            final(self)@ == (ActorView {
                attributes: old(self)@.attributes.insert(update.object_id.0, update.attribute),
                ..old(self)@
            }),
            r == (if old(self)@.attributes.contains_key(update.object_id.0) {
                Some(old(self)@.attributes[update.object_id.0])
            } else {
                None
            }),
    {
        self.attributes.insert(update.object_id.0, update.attribute)
    }
}

/// The live actors of one replay, and for each object type the ids of its live actors in
/// the order they spawned.
pub struct ActorStateModeler {
    actor_states: HashMap<i32, ActorState>,
    actor_ids_by_type: HashMap<i32, Vec<ActorId>>,
}

impl ActorStateModeler {
    /// The live actors, by id.
    pub closed spec fn actors(&self) -> Map<i32, ActorView> {
        Map::new(|k: i32| self.actor_states@.contains_key(k), |k: i32| self.actor_states@[k]@)
    }

    /// The live actors of a type, in the order they spawned.
    pub closed spec fn ids_of_type(&self, o: ObjectId) -> Seq<ActorId> {
        if self.actor_ids_by_type@.contains_key(o.0) {
            self.actor_ids_by_type@[o.0]@
        } else {
            Seq::empty()
        }
    }

    /// The whole store as mathematical values.
    pub open spec fn store(&self) -> StoreView {
        StoreView {
            actors: self.actors(),
            index: Map::new(|o: ObjectId| true, |o: ObjectId| self.ids_of_type(o)),
        }
    }

    /// The type index lists exactly the live actors of each type, each once.
    pub open spec fn wf(&self) -> bool {
        &&& forall|o: ObjectId, a: ActorId| #[trigger]
            self.ids_of_type(o).contains(a) ==> self.actors().contains_key(a.0) && self.actors()[a.0].object_id == o
        &&& forall|k: i32| #[trigger]
            self.actors().contains_key(k) ==> self.ids_of_type(self.actors()[k].object_id).contains(
                ActorId(k),
            )
        &&& forall|o: ObjectId| #[trigger] self.ids_of_type(o).no_duplicates()
    }

    /// A store with no live actors.
    pub fn new() -> (r: ActorStateModeler)
        ensures
            r.wf(),
            r.actors() == Map::<i32, ActorView>::empty(),
            forall|o: ObjectId| #[trigger] r.ids_of_type(o) == Seq::<ActorId>::empty(),
    {
        let r = ActorStateModeler { actor_states: HashMap::new(), actor_ids_by_type: HashMap::new() };
        assert(r.actors() =~= Map::<i32, ActorView>::empty());
        r
    }

    /// The live actors of a type, in the order they spawned; empty where there are none.
    pub fn actor_ids_of_type(&self, object_id: ObjectId) -> (r: Vec<ActorId>)
        ensures
            r@ == self.ids_of_type(object_id),
    {
        match self.actor_ids_by_type.get(&object_id.0) {
            Some(ids) => ids.clone(),
            None => Vec::new(),
        }
    }

    /// The state of a live actor.
    pub fn get_actor_state(&self, actor_id: ActorId) -> (r: Result<&ActorState, ProcessError>)
        ensures
            self.actors().contains_key(actor_id.0) ==> r is Ok && r->Ok_0@ == self.actors()[actor_id.0],
            !self.actors().contains_key(actor_id.0) ==> r == Err::<&ActorState, ProcessError>(
                ProcessError::NotFound(actor_id),
            ),
    {
        match self.actor_states.get(&actor_id.0) {
            Some(s) => Ok(s),
            None => Err(ProcessError::NotFound(actor_id)),
        }
    }

    /// Spawns an actor: a fresh state where the id is free; nothing where it is live under
    /// the same type; a conflict, and nothing changed, where it is live under another.
    pub fn new_actor(&mut self, new_actor: &NewActor) -> (r: Result<(), ProcessError>)
        requires
            old(self).wf(),
        ensures
            final(self).wf(),
            match spawn_step(old(self).actors(), *new_actor) {
                Ok(m) => r is Ok && final(self).actors() == m,
                Err(e) => r == Err::<(), ProcessError>(e) && final(self).actors() == old(self).actors(),
            },
            old(self).actors().contains_key(new_actor.actor_id.0) ==> forall|o: ObjectId| #[trigger]
                final(self).ids_of_type(o) == old(self).ids_of_type(o),
            !old(self).actors().contains_key(new_actor.actor_id.0) ==> forall|o: ObjectId| #[trigger]
                final(self).ids_of_type(o) == if o == new_actor.object_id {
                    old(self).ids_of_type(o).push(new_actor.actor_id)
                } else {
                    old(self).ids_of_type(o)
                },
    {
        let id = new_actor.actor_id.0;
        match self.actor_states.get(&id) {
            Some(state) => {
                if state.object_id != new_actor.object_id {
                    return Err(
                        ProcessError::Conflict {
                            actor_id: new_actor.actor_id,
                            existing: state.object_id,
                            requested: new_actor.object_id,
                        },
                    );
                }
                Ok(())
            },
            None => {
                let ghost old_actors = self.actors();
                let ghost old_self = *self;
                let o = new_actor.object_id.0;
                let mut ids = match self.actor_ids_by_type.remove(&o) {
                    Some(v) => v,
                    None => Vec::new(),
                };
                assert(ids@ == old_self.ids_of_type(new_actor.object_id));
                proof {
                    lemma_push_contains(ids@, new_actor.actor_id);
                }
                ids.push(new_actor.actor_id);
                self.actor_ids_by_type.insert(o, ids);
                self.actor_states.insert(id, ActorState::new(new_actor));
                assert(self.actors() =~= old_actors.insert(id, fresh_actor(*new_actor)));
                assert forall|ob: ObjectId| #[trigger]
                    self.ids_of_type(ob) == if ob == new_actor.object_id {
                        old_self.ids_of_type(ob).push(new_actor.actor_id)
                    } else {
                        old_self.ids_of_type(ob)
                    } by {
                    if ob.0 == o {
                        assert(ob == new_actor.object_id);
                    }
                }
                assert forall|ob: ObjectId, a: ActorId| #[trigger]
                    self.ids_of_type(ob).contains(a) implies self.actors().contains_key(a.0)
                        && self.actors()[a.0].object_id == ob by {
                    if ob == new_actor.object_id {
                        let s = old_self.ids_of_type(ob);
                        let i = choose|i: int| 0 <= i < s.len() + 1 && s.push(new_actor.actor_id)[i] == a;
                        if i < s.len() {
                            assert(s[i] == a);
                            assert(s.contains(a));
                        }
                    } else {
                        assert(old_self.ids_of_type(ob).contains(a));
                    }
                }
                assert forall|k: i32| #[trigger]
                    self.actors().contains_key(k) implies self.ids_of_type(self.actors()[k].object_id).contains(
                        ActorId(k),
                    ) by {
                    let ob = self.actors()[k].object_id;
                    if k == id {
                        let s = old_self.ids_of_type(ob);
                        assert(s.push(new_actor.actor_id)[s.len() as int] == ActorId(k));
                    } else {
                        assert(old_actors.contains_key(k));
                        assert(old_self.ids_of_type(ob).contains(ActorId(k)));
                        if ob == new_actor.object_id {
                            let s = old_self.ids_of_type(ob);
                            let i = choose|i: int| 0 <= i < s.len() && s[i] == ActorId(k);
                            assert(s.push(new_actor.actor_id)[i] == ActorId(k));
                        }
                    }
                }
                assert forall|ob: ObjectId| #[trigger] self.ids_of_type(ob).no_duplicates() by {
                    if ob == new_actor.object_id {
                        lemma_push_no_duplicates(old_self.ids_of_type(ob), new_actor.actor_id);
                    }
                }
                Ok(())
            },
        }
    }

    /// Records a new attribute value on a live actor and hands back the one it replaces;
    /// `NotFound`, and nothing changed, where the actor is not live.
    pub fn update_attribute(&mut self, update: &UpdatedAttribute) -> (r: Result<
        Option<Attribute>,
        ProcessError,
    >)
        requires
            old(self).wf(),
        ensures
            final(self).wf(),
            forall|o: ObjectId| #[trigger] final(self).ids_of_type(o) == old(self).ids_of_type(o),
            match update_step(old(self).actors(), *update) {
                Ok(m) => final(self).actors() == m && r == Ok::<Option<Attribute>, ProcessError>(
                    if old(self).actors()[update.actor_id.0].attributes.contains_key(
                        update.object_id.0,
                    ) {
                        Some(old(self).actors()[update.actor_id.0].attributes[update.object_id.0])
                    } else {
                        None
                    },
                ),
                Err(e) => r == Err::<Option<Attribute>, ProcessError>(e) && final(self).actors()
                    == old(self).actors(),
            },
    {
        let id = update.actor_id.0;
        let ghost old_actors = self.actors();
        let ghost old_self = *self;
        if !self.actor_states.contains_key(&id) {
            return Err(ProcessError::NotFound(update.actor_id));
        }
        match self.actor_states.remove(&id) {
            Some(mut state) => {
                let prev = state.update_attribute(update);
                self.actor_states.insert(id, state);
                assert(self.actors() =~= update_step(old_actors, *update)->Ok_0);
                assert forall|o: ObjectId| #[trigger]
                    self.ids_of_type(o) == old_self.ids_of_type(o) by {}
                assert forall|k: i32| #[trigger]
                    self.actors().contains_key(k) implies self.ids_of_type(self.actors()[k].object_id).contains(
                        ActorId(k),
                    ) by {
                    assert(old_actors.contains_key(k));
                }
                Ok(prev)
            },
            None => Err(ProcessError::NotFound(update.actor_id)),
        }
    }

    /// Removes a live actor from the store and from its type's list, handing back its last
    /// state; `NotFound`, and nothing changed, where the actor is not live.
    pub fn delete_actor(&mut self, actor_id: ActorId) -> (r: Result<ActorState, ProcessError>)
        requires
            old(self).wf(),
        ensures
            final(self).wf(),
            match delete_step(old(self).actors(), actor_id) {
                Ok(m) => final(self).actors() == m && r is Ok && r->Ok_0@ == old(self).actors()[actor_id.0],
                Err(e) => r == Err::<ActorState, ProcessError>(e) && final(self).actors() == old(
                    self,
                ).actors(),
            },
            old(self).actors().contains_key(actor_id.0) ==> forall|o: ObjectId| #[trigger]
                final(self).ids_of_type(o) == if o == old(self).actors()[actor_id.0].object_id {
                    without(old(self).ids_of_type(o), actor_id)
                } else {
                    old(self).ids_of_type(o)
                },
            !old(self).actors().contains_key(actor_id.0) ==> forall|o: ObjectId| #[trigger]
                final(self).ids_of_type(o) == old(self).ids_of_type(o),
    {
        let ghost old_actors = self.actors();
        let ghost old_self = *self;
        if !self.actor_states.contains_key(&actor_id.0) {
            return Err(ProcessError::NotFound(actor_id));
        }
        let state = match self.actor_states.remove(&actor_id.0) {
            Some(s) => s,
            None => return Err(ProcessError::NotFound(actor_id)),
        };
        let o = state.object_id;
        assert(old_actors.contains_key(actor_id.0));
        assert(old_self.ids_of_type(o).contains(ActorId(actor_id.0)));
        let ids = match self.actor_ids_by_type.remove(&o.0) {
            Some(v) => v,
            None => Vec::new(),
        };
        assert(ids@ == old_self.ids_of_type(o));
        let mut kept: Vec<ActorId> = Vec::new();
        let mut i: usize = 0;
        while i < ids.len()
            invariant
                i <= ids.len(),
                kept@ == without(ids@.take(i as int), actor_id),
            decreases ids.len() - i,
        {
            assert(ids@.take(i as int + 1).drop_last() =~= ids@.take(i as int));
            if ids[i] != actor_id {
                kept.push(ids[i]);
            }
            i += 1;
        }
        assert(ids@.take(ids.len() as int) =~= ids@);
        proof {
            lemma_without(ids@, actor_id);
        }
        self.actor_ids_by_type.insert(o.0, kept);
        assert(self.actors() =~= old_actors.remove(actor_id.0));
        assert forall|ob: ObjectId| #[trigger]
            self.ids_of_type(ob) == if ob == o {
                without(old_self.ids_of_type(ob), actor_id)
            } else {
                old_self.ids_of_type(ob)
            } by {
            if ob.0 == o.0 {
                assert(ob == o);
            }
        }
        assert forall|ob: ObjectId, a: ActorId| #[trigger]
            self.ids_of_type(ob).contains(a) implies self.actors().contains_key(a.0)
                && self.actors()[a.0].object_id == ob by {
            assert(old_self.ids_of_type(ob).contains(a));
            if ob == o {
                assert(a != actor_id);
                if a.0 == actor_id.0 {
                    assert(a == ActorId(a.0));
                }
            } else if a.0 == actor_id.0 {
                assert(old_actors[a.0].object_id == ob);
            }
        }
        assert forall|k: i32| #[trigger]
            self.actors().contains_key(k) implies self.ids_of_type(self.actors()[k].object_id).contains(
                ActorId(k),
            ) by {
            assert(old_actors.contains_key(k));
            assert(old_self.ids_of_type(old_actors[k].object_id).contains(ActorId(k)));
        }
        Ok(state)
    }

    /// Stores the boost amount carried to the next frame for a live actor, with the sampled
    /// byte it was reconciled with.
    pub fn set_boost(&mut self, actor_id: ActorId, amount: u64, sample: u8)
        requires
            old(self).wf(),
            old(self).actors().contains_key(actor_id.0),
        ensures
            final(self).wf(),
            forall|o: ObjectId| #[trigger] final(self).ids_of_type(o) == old(self).ids_of_type(o),
            final(self).actors() == old(self).actors().insert(
                actor_id.0,
                ActorView {
                    boost_amount: Some(amount),
                    last_boost_sample: Some(sample),
                    ..old(self).actors()[actor_id.0]
                },
            ),
    {
        let ghost old_actors = self.actors();
        let ghost old_self = *self;
        match self.actor_states.remove(&actor_id.0) {
            Some(mut state) => {
                state.boost_amount = Some(amount);
                state.last_boost_sample = Some(sample);
                self.actor_states.insert(actor_id.0, state);
            },
            None => {},
        }
        assert(self.actors() =~= old_actors.insert(
            actor_id.0,
            ActorView {
                boost_amount: Some(amount),
                last_boost_sample: Some(sample),
                ..old_actors[actor_id.0]
            },
        ));
        assert forall|o: ObjectId| #[trigger] self.ids_of_type(o) == old_self.ids_of_type(o) by {}
        assert forall|k: i32| #[trigger]
            self.actors().contains_key(k) implies self.ids_of_type(self.actors()[k].object_id).contains(
                ActorId(k),
            ) by {
            assert(old_actors.contains_key(k));
        }
    }

    /// Applies a frame's events in their fixed order: deletions, then spawns, then attribute
    /// updates. The first event that fails ends the frame with its error, and the events
    /// after it are not applied.
    pub fn process_frame(&mut self, frame: &Frame) -> (r: Result<(), ProcessError>)
        requires
            old(self).wf(),
        ensures
            final(self).wf(),
            final(self).store() == frame_step(old(self).store(), *frame).0,
            r == match frame_step(old(self).store(), *frame).1 {
                None => Ok::<(), ProcessError>(()),
                Some(e) => Err(e),
            },
    {
        let ghost s0 = self.store();
        let mut i: usize = 0;
        while i < frame.deleted_actors.len()
            invariant
                self.wf(),
                i <= frame.deleted_actors.len(),
                old(self).store() == s0,
                delete_all(s0, frame.deleted_actors@.take(i as int)) == (self.store(), None::<ProcessError>),
            decreases frame.deleted_actors.len() - i,
        {
            assert(frame.deleted_actors@.take(i as int + 1).drop_last() =~= frame.deleted_actors@.take(i as int));
            assert(frame.deleted_actors@.take(i as int + 1).last() == frame.deleted_actors@[i as int]);
            let ghost before = self.store();
            let ghost old_self = *self;
            match self.delete_actor(frame.deleted_actors[i]) {
                Ok(_) => {
                    assert(self.store().actors == delete_store(before, frame.deleted_actors@[i as int])->Ok_0.actors);
                    assert(self.store().index =~= delete_store(before, frame.deleted_actors@[i as int])->Ok_0.index);
                    assert(self.store() == delete_store(before, frame.deleted_actors@[i as int])->Ok_0);
                },
                Err(e) => {
                    proof {
                        assert(self.store().index =~= before.index);
                        assert(self.store() == before);
                        assert(delete_store(before, frame.deleted_actors@[i as int]) == Err::<
                            StoreView,
                            ProcessError,
                        >(e));
                        assert(delete_all(s0, frame.deleted_actors@.take(i as int + 1)) == (
                            before,
                            Some(e),
                        ));
                        lemma_delete_all_stops(s0, frame.deleted_actors@, i as nat);
                    }
                    return Err(e);
                },
            }
            i += 1;
        }
        assert(frame.deleted_actors@.take(i as int) =~= frame.deleted_actors@);
        let ghost s1 = self.store();
        let mut j: usize = 0;
        while j < frame.new_actors.len()
            invariant
                self.wf(),
                j <= frame.new_actors.len(),
                old(self).store() == s0,
                delete_all(s0, frame.deleted_actors@) == (s1, None::<ProcessError>),
                spawn_all(s1, frame.new_actors@.take(j as int)) == (self.store(), None::<ProcessError>),
            decreases frame.new_actors.len() - j,
        {
            assert(frame.new_actors@.take(j as int + 1).drop_last() =~= frame.new_actors@.take(j as int));
            assert(frame.new_actors@.take(j as int + 1).last() == frame.new_actors@[j as int]);
            let ghost before = self.store();
            let ghost old_self = *self;
            match self.new_actor(&frame.new_actors[j]) {
                Ok(_) => {
                    assert(self.store().actors == spawn_store(before, frame.new_actors@[j as int])->Ok_0.actors);
                    assert(self.store().index =~= spawn_store(before, frame.new_actors@[j as int])->Ok_0.index);
                    assert(self.store() == spawn_store(before, frame.new_actors@[j as int])->Ok_0);
                },
                Err(e) => {
                    proof {
                        assert(self.store().index =~= before.index);
                        assert(self.store() == before);
                        assert(spawn_store(before, frame.new_actors@[j as int]) == Err::<
                            StoreView,
                            ProcessError,
                        >(e));
                        assert(spawn_all(s1, frame.new_actors@.take(j as int + 1)) == (
                            before,
                            Some(e),
                        ));
                        lemma_spawn_all_stops(s1, frame.new_actors@, j as nat);
                    }
                    return Err(e);
                },
            }
            j += 1;
        }
        assert(frame.new_actors@.take(j as int) =~= frame.new_actors@);
        let ghost s2 = self.store();
        let mut k: usize = 0;
        while k < frame.updated_actors.len()
            invariant
                self.wf(),
                k <= frame.updated_actors.len(),
                old(self).store() == s0,
                delete_all(s0, frame.deleted_actors@) == (s1, None::<ProcessError>),
                spawn_all(s1, frame.new_actors@) == (s2, None::<ProcessError>),
                update_all(s2, frame.updated_actors@.take(k as int)) == (self.store(), None::<ProcessError>),
            decreases frame.updated_actors.len() - k,
        {
            assert(frame.updated_actors@.take(k as int + 1).drop_last() =~= frame.updated_actors@.take(k as int));
            assert(frame.updated_actors@.take(k as int + 1).last() == frame.updated_actors@[k as int]);
            let ghost before = self.store();
            let ghost old_self = *self;
            match self.update_attribute(&frame.updated_actors[k]) {
                Ok(_) => {
                    assert(self.store().actors == update_store(before, frame.updated_actors@[k as int])->Ok_0.actors);
                    assert(self.store().index =~= update_store(before, frame.updated_actors@[k as int])->Ok_0.index);
                    assert(self.store() == update_store(before, frame.updated_actors@[k as int])->Ok_0);
                },
                Err(e) => {
                    proof {
                        assert(self.store().index =~= before.index);
                        assert(self.store() == before);
                        assert(update_store(before, frame.updated_actors@[k as int]) == Err::<
                            StoreView,
                            ProcessError,
                        >(e));
                        assert(update_all(s2, frame.updated_actors@.take(k as int + 1)) == (
                            before,
                            Some(e),
                        ));
                        lemma_update_all_stops(s2, frame.updated_actors@, k as nat);
                    }
                    return Err(e);
                },
            }
            k += 1;
        }
        assert(frame.updated_actors@.take(k as int) =~= frame.updated_actors@);
        Ok(())
    }
}

proof fn lemma_delete_all_stops(st: StoreView, evs: Seq<ActorId>, i: nat)
    requires
        i < evs.len(),
        delete_all(st, evs.take(i as int + 1)).1 is Some,
    ensures
        delete_all(st, evs) == delete_all(st, evs.take(i as int + 1)),
    decreases evs.len() - i,
{
    if i + 1 < evs.len() {
        assert(evs.take(i as int + 2).drop_last() =~= evs.take(i as int + 1));
        lemma_delete_all_stops(st, evs, i + 1);
    } else {
        assert(evs.take(i as int + 1) =~= evs);
    }
}

proof fn lemma_spawn_all_stops(st: StoreView, evs: Seq<NewActor>, i: nat)
    requires
        i < evs.len(),
        spawn_all(st, evs.take(i as int + 1)).1 is Some,
    ensures
        spawn_all(st, evs) == spawn_all(st, evs.take(i as int + 1)),
    decreases evs.len() - i,
{
    if i + 1 < evs.len() {
        assert(evs.take(i as int + 2).drop_last() =~= evs.take(i as int + 1));
        lemma_spawn_all_stops(st, evs, i + 1);
    } else {
        assert(evs.take(i as int + 1) =~= evs);
    }
}

proof fn lemma_update_all_stops(st: StoreView, evs: Seq<UpdatedAttribute>, i: nat)
    requires
        i < evs.len(),
        update_all(st, evs.take(i as int + 1)).1 is Some,
    ensures
        update_all(st, evs) == update_all(st, evs.take(i as int + 1)),
    decreases evs.len() - i,
{
    if i + 1 < evs.len() {
        assert(evs.take(i as int + 2).drop_last() =~= evs.take(i as int + 1));
        lemma_update_all_stops(st, evs, i + 1);
    } else {
        assert(evs.take(i as int + 1) =~= evs);
    }
}


/// Spawning an id again under the type it already has changes nothing and succeeds;
/// spawning it under any other type is a conflict.
pub proof fn lemma_spawn_idempotent(st: StoreView, na: NewActor, other: ObjectId)
    requires
        spawn_store(st, na) is Ok,
    ensures
        spawn_store(spawn_store(st, na)->Ok_0, na) == spawn_store(st, na),
        other != na.object_id ==> spawn_store(
            spawn_store(st, na)->Ok_0,
            NewActor { object_id: other, ..na },
        ) == Err::<StoreView, ProcessError>(
            ProcessError::Conflict {
                actor_id: na.actor_id,
                existing: na.object_id,
                requested: other,
            },
        ),
{
}

/// After a deletion the id is in no type's list and has no state, so a lookup of it is
/// `NotFound`.
pub proof fn lemma_deleted_actor_gone(before: ActorStateModeler, after: ActorStateModeler, id: ActorId)
    requires
        before.wf(),
        after.wf(),
        delete_store(before.store(), id) == Ok::<StoreView, ProcessError>(after.store()),
    ensures
        !after.actors().contains_key(id.0),
        forall|o: ObjectId| !(#[trigger] after.ids_of_type(o).contains(id)),
{
}

} // verus!
