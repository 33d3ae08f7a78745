//! The entity registry: the registered entities, their parents and their
//! twin data, with the validation done before any change.
use crate::json::JsonObject;
use crate::json::JsonValue;
use crate::text::chars_of;
use crate::text::free_of;
use crate::text::same_text;
use crate::topics::EntityTopicId;
use crate::topics::TopicIdError;
use crate::topics::topic_id_check;
use vstd::prelude::*;

verus! {

/// The kind of an entity.
#[derive(Debug, Clone, Copy, PartialEq, Eq, Structural)]
pub enum EntityType {
    MainDevice,
    ChildDevice,
    Service,
}

/// The entity type named `main`, `child-device` or `service`.
pub open spec fn entity_type_named(s: Seq<char>) -> Option<EntityType> {
    if s == "main"@ {
        Some(EntityType::MainDevice)
    } else if s == "child-device"@ {
        Some(EntityType::ChildDevice)
    } else if s == "service"@ {
        Some(EntityType::Service)
    } else {
        None
    }
}

impl EntityType {
    /// Reads an entity type by its name.
    pub fn parse(s: &str) -> (r: Option<EntityType>)
        ensures
            r == entity_type_named(s@),
    {
        if same_text(s, "main") {
            Some(EntityType::MainDevice)
        } else if same_text(s, "child-device") {
            Some(EntityType::ChildDevice)
        } else if same_text(s, "service") {
            Some(EntityType::Service)
        } else {
            None
        }
    }
}

/// A twin fragment key is non-empty, holds no `/` and does not start with `@`.
pub open spec fn valid_twin_key(k: Seq<char>) -> bool {
    k.len() > 0 && free_of(k, '/') && k[0] != '@'
}

/// Whether `k` may be used as a twin fragment key.
pub fn is_valid_twin_key(k: &str) -> (r: bool)
    ensures
        r == valid_twin_key(k@),
{
    let cs = chars_of(k);
    if cs.len() == 0 || cs[0] == '@' {
        return false;
    }
    let mut i: usize = 0;
    while i < cs.len()
        invariant
            cs@ == k@,
            i <= cs.len(),
            forall|j: int| 0 <= j < i ==> k@[j] != '/',
        decreases cs.len() - i,
    {
        if cs[i] == '/' {
            return false;
        }
        i = i + 1;
    }
    true
}

/// The registry record of an entity.
#[derive(Debug)]
pub struct EntityMetadata {
    pub topic_id: EntityTopicId,
    pub external_id: Option<String>,
    pub entity_type: EntityType,
    pub parent: Option<EntityTopicId>,
    pub health_endpoint: Option<String>,
    pub twin_data: JsonObject,
}

/// A request to register an entity.
#[derive(Debug)]
pub struct EntityRegistrationMessage {
    pub topic_id: EntityTopicId,
    pub external_id: Option<String>,
    pub entity_type: EntityType,
    pub parent: Option<EntityTopicId>,
    pub health_endpoint: Option<String>,
    pub twin_data: JsonObject,
}

/// Why the registry refused a request.
#[derive(Debug)]
pub enum EntityStoreError {
    /// An entity with this id is registered already.
    EntityAlreadyRegistered(EntityTopicId),
    /// No entity with this id is registered.
    UnknownEntity(EntityTopicId),
    /// The declared parent is not registered.
    NoParent(EntityTopicId),
    /// A twin fragment key is not allowed.
    InvalidTwinData(String),
}

impl EntityStoreError {
    /// The message of a refused twin key.
    pub fn message(&self) -> (r: Option<String>)
        ensures
            match self {
                EntityStoreError::InvalidTwinData(k) => r is Some && r->Some_0@ == "Invalid twin key: '"@
                    + k@ + "'. Keys that are empty, containing '/' or starting with '@' are not allowed"@,
                _ => r is None,
            },
    {
        match self {
            EntityStoreError::InvalidTwinData(k) => {
                let mut r = "Invalid twin key: '".to_owned();
                r.append(k.as_str());
                r.append("'. Keys that are empty, containing '/' or starting with '@' are not allowed");
                Some(r)
            },
            _ => None,
        }
    }
}

pub open spec fn parent_view(p: Option<EntityTopicId>) -> Option<Seq<char>> {
    match p {
        Some(p) => Some(p@),
        None => None,
    }
}

pub open spec fn ids_of(s: Seq<EntityMetadata>) -> Seq<Seq<char>> {
    s.map_values(|e: EntityMetadata| e.topic_id@)
}

pub open spec fn is_registered(s: Seq<EntityMetadata>, id: Seq<char>) -> bool {
    exists|i: int| 0 <= i < s.len() && #[trigger] id_at(s, i) == id
}

pub open spec fn index_of_id(s: Seq<EntityMetadata>, id: Seq<char>) -> int {
    choose|i: int| 0 <= i < s.len() && #[trigger] id_at(s, i) == id
}

pub open spec fn id_at(s: Seq<EntityMetadata>, i: int) -> Seq<char> {
    s[i].topic_id@
}

/// The parent of entity `i`, if any, comes before it.
pub open spec fn parent_before(s: Seq<EntityMetadata>, i: int) -> bool {
    s[i].parent is Some ==> exists|j: int| 0 <= j < i && #[trigger] id_at(s, j) == s[i].parent->Some_0@
}

/// No id twice, and each parent registered before its children.
pub open spec fn store_wf(s: Seq<EntityMetadata>) -> bool {
    &&& forall|i: int, j: int|
        0 <= i < s.len() && 0 <= j < s.len() && #[trigger] id_at(s, i) == #[trigger] id_at(s, j)
            ==> i == j
    &&& forall|i: int| 0 <= i < s.len() ==> #[trigger] parent_before(s, i)
}

/// All keys of a twin data object are allowed.
pub open spec fn all_keys_valid(m: Map<Seq<char>, JsonValue>) -> bool {
    forall|k: Seq<char>| #[trigger] m.contains_key(k) ==> valid_twin_key(k)
}

/// The registered entities.
pub struct EntityStore {
    entities: Vec<EntityMetadata>,
}

impl View for EntityStore {
    type V = Seq<EntityMetadata>;

    closed spec fn view(&self) -> Seq<EntityMetadata> {
        self.entities@
    }
}

proof fn lemma_index_of(s: Seq<EntityMetadata>, i: int)
    requires
        store_wf(s),
        0 <= i < s.len(),
    ensures
        is_registered(s, s[i].topic_id@),
        index_of_id(s, s[i].topic_id@) == i,
{
    assert(id_at(s, i) == s[i].topic_id@);
    let k = index_of_id(s, s[i].topic_id@);
    assert(id_at(s, k) == id_at(s, i));
}

/// The first key of `m`'s entries that is not allowed.
fn first_invalid_key(o: &JsonObject) -> (r: Option<String>)
    ensures
        match r {
            Some(k) => o@.contains_key(k@) && !valid_twin_key(k@),
            None => all_keys_valid(o@),
        },
{
    let es = o.as_entries();
    let mut i: usize = 0;
    while i < es.len()
        invariant
            crate::json::entries_map(es@) == o@,
            i <= es@.len(),
            forall|j: int| 0 <= j < i ==> valid_twin_key((#[trigger] es@[j]).0@),
        decreases es@.len() - i,
    {
        if !is_valid_twin_key(es[i].0.as_str()) {
            assert(crate::json::has_key(es@, es@[i as int].0@));
            return Some(es[i].0.clone());
        }
        i = i + 1;
    }
    assert forall|k: Seq<char>| #[trigger] o@.contains_key(k) implies valid_twin_key(k) by {
        let j = choose|j: int| 0 <= j < es@.len() && (#[trigger] es@[j]).0@ == k;
    }
    None
}

impl EntityStore {
    pub open spec fn wf(&self) -> bool {
        store_wf(self@)
    }

    /// An empty registry.
    pub fn new() -> (r: EntityStore)
        ensures
            r.wf(),
            r@ == Seq::<EntityMetadata>::empty(),
    {
        EntityStore { entities: Vec::new() }
    }

    fn find(&self, id: &EntityTopicId) -> (r: Option<usize>)
        ensures
            match r {
                Some(i) => i < self@.len() && id_at(self@, i as int) == id@,
                None => !is_registered(self@, id@),
            },
    {
        let mut i: usize = 0;
        while i < self.entities.len()
            invariant
                i <= self@.len(),
                forall|j: int| 0 <= j < i ==> #[trigger] id_at(self@, j) != id@,
            decreases self@.len() - i,
        {
            if self.entities[i].topic_id.same_as(id) {
                return Some(i);
            }
            i = i + 1;
        }
        None
    }

    /// Registers an entity. Refused, with no change, when the id is taken,
    /// when the declared parent is not registered, or when a twin key is not
    /// allowed. Returns the ids of the entities registered.
    pub fn register(&mut self, msg: EntityRegistrationMessage) -> (r: Result<
        Vec<EntityTopicId>,
        EntityStoreError,
    >)
        requires
            old(self).wf(),
        ensures
            final(self).wf(),
            is_registered(old(self)@, msg.topic_id@) ==> r is Err && r->Err_0
                is EntityAlreadyRegistered && final(self)@ == old(self)@,
            !is_registered(old(self)@, msg.topic_id@) && msg.parent is Some && !is_registered(
                old(self)@,
                msg.parent->Some_0@,
            ) ==> r is Err && r->Err_0 is NoParent && final(self)@ == old(self)@,
            !is_registered(old(self)@, msg.topic_id@) && (msg.parent is None || is_registered(
                old(self)@,
                msg.parent->Some_0@,
            )) ==> if all_keys_valid(msg.twin_data@) {
                r is Ok && r->Ok_0@.len() == 1 && r->Ok_0@[0]@ == msg.topic_id@ && final(self)@
                    == old(self)@.push(
                    EntityMetadata {
                        topic_id: msg.topic_id,
                        external_id: msg.external_id,
                        entity_type: msg.entity_type,
                        parent: msg.parent,
                        health_endpoint: msg.health_endpoint,
                        twin_data: msg.twin_data,
                    },
                )
            } else {
                r is Err && r->Err_0 is InvalidTwinData && msg.twin_data@.contains_key(
                    r->Err_0->InvalidTwinData_0@,
                ) && !valid_twin_key(r->Err_0->InvalidTwinData_0@) && final(self)@ == old(self)@
            },
    {
        if let Some(_) = self.find(&msg.topic_id) {
            return Err(EntityStoreError::EntityAlreadyRegistered(msg.topic_id));
        }
        if let Some(p) = &msg.parent {
            if self.find(p).is_none() {
                return Err(EntityStoreError::NoParent(p.duplicate()));
            }
        }
        if let Some(k) = first_invalid_key(&msg.twin_data) {
            return Err(EntityStoreError::InvalidTwinData(k));
        }
        let id = msg.topic_id.duplicate();
        let e = EntityMetadata {
            topic_id: msg.topic_id,
            external_id: msg.external_id,
            entity_type: msg.entity_type,
            parent: msg.parent,
            health_endpoint: msg.health_endpoint,
            twin_data: msg.twin_data,
        };
        let ghost s0 = self@;
        self.entities.push(e);
        proof {
            let s = self@;
            let n = s0.len() as int;
            assert(s == s0.push(s[n]));
            assert forall|i: int| 0 <= i < n implies #[trigger] s[i] == s0[i] by {}
            assert forall|i: int, j: int|
                0 <= i < s.len() && 0 <= j < s.len() && #[trigger] id_at(s, i) == #[trigger] id_at(
                    s,
                    j,
                ) implies i == j by {
                if i < n {
                    assert(id_at(s0, i) == id_at(s, i));
                }
                if j < n {
                    assert(id_at(s0, j) == id_at(s, j));
                }
            }
            assert forall|i: int| 0 <= i < s.len() implies #[trigger] parent_before(s, i) by {
                if i < n {
                    assert(parent_before(s0, i));
                    if s[i].parent is Some {
                        let j = choose|j: int| 0 <= j < i && #[trigger] id_at(s0, j) == s0[i].parent->Some_0@;
                        assert(id_at(s, j) == id_at(s0, j));
                    }
                } else if s[i].parent is Some {
                    let j = choose|j: int| 0 <= j < s0.len() && #[trigger] id_at(s0, j) == s[i].parent->Some_0@;
                    assert(id_at(s, j) == id_at(s0, j));
                }
            }
        }
        let mut r: Vec<EntityTopicId> = Vec::new();
        r.push(id);
        Ok(r)
    }

    /// The record of an entity, if registered.
    pub fn get(&self, id: &EntityTopicId) -> (r: Option<&EntityMetadata>)
        requires
            self.wf(),
        ensures
            match r {
                Some(e) => is_registered(self@, id@) && *e == self@[index_of_id(self@, id@)],
                None => !is_registered(self@, id@),
            },
    {
        match self.find(id) {
            Some(i) => {
                proof {
                    lemma_index_of(self@, i as int);
                }
                Some(&self.entities[i])
            },
            None => None,
        }
    }

    /// The twin data of an entity.
    pub fn get_twin_fragments(&self, id: &EntityTopicId) -> (r: Result<&JsonObject, EntityStoreError>)
        requires
            self.wf(),
        ensures
            match r {
                Ok(o) => is_registered(self@, id@) && *o == self@[index_of_id(self@, id@)].twin_data,
                Err(e) => !is_registered(self@, id@) && e is UnknownEntity && e->UnknownEntity_0@ == id@,
            },
    {
        match self.get(id) {
            Some(e) => Ok(&e.twin_data),
            None => Err(EntityStoreError::UnknownEntity(id.duplicate())),
        }
    }

    /// One twin fragment of an entity, if set.
    pub fn get_twin_fragment(&self, id: &EntityTopicId, key: &str) -> (r: Result<
        Option<&JsonValue>,
        EntityStoreError,
    >)
        requires
            self.wf(),
        ensures
            match r {
                Ok(v) => is_registered(self@, id@) && ({
                    let m = self@[index_of_id(self@, id@)].twin_data@;
                    match v {
                        Some(v) => m.contains_key(key@) && *v == m[key@],
                        None => !m.contains_key(key@),
                    }
                }),
                Err(e) => !is_registered(self@, id@) && e is UnknownEntity && e->UnknownEntity_0@ == id@,
            },
    {
        match self.get(id) {
            Some(e) => Ok(e.twin_data.get(key)),
            None => Err(EntityStoreError::UnknownEntity(id.duplicate())),
        }
    }

    /// Replaces the twin data of entity `i`; returns the previous one.
    fn swap_twin(&mut self, i: usize, twin: JsonObject) -> (prev: JsonObject)
        requires
            old(self).wf(),
            i < old(self)@.len(),
        ensures
            final(self).wf(),
            final(self)@.len() == old(self)@.len(),
            forall|j: int| 0 <= j < old(self)@.len() && j != i ==> #[trigger] final(self)@[j] == old(self)@[j],
            final(self)@[i as int].topic_id == old(self)@[i as int].topic_id,
            final(self)@[i as int].external_id == old(self)@[i as int].external_id,
            final(self)@[i as int].entity_type == old(self)@[i as int].entity_type,
            final(self)@[i as int].parent == old(self)@[i as int].parent,
            final(self)@[i as int].health_endpoint == old(self)@[i as int].health_endpoint,
            final(self)@[i as int].twin_data == twin,
            prev == old(self)@[i as int].twin_data,
    {
        let ghost s0 = self@;
        let e = self.entities.remove(i);
        let EntityMetadata { topic_id, external_id, entity_type, parent, health_endpoint, twin_data } =
            e;
        let e2 = EntityMetadata {
            topic_id,
            external_id,
            entity_type,
            parent,
            health_endpoint,
            twin_data: twin,
        };
        self.entities.insert(i, e2);
        proof {
            let s = self@;
            assert(s =~= s0.update(i as int, e2));
            assert forall|a: int| 0 <= a < s.len() implies #[trigger] id_at(s, a) == id_at(s0, a) by {}
            assert forall|a: int, b: int|
                0 <= a < s.len() && 0 <= b < s.len() && #[trigger] id_at(s, a) == #[trigger] id_at(s, b)
                    implies a == b by {
                assert(id_at(s0, a) == id_at(s, a));
                assert(id_at(s0, b) == id_at(s, b));
            }
            assert forall|a: int| 0 <= a < s.len() implies #[trigger] parent_before(s, a) by {
                assert(parent_before(s0, a));
                if s[a].parent is Some {
                    let j = choose|j: int| 0 <= j < a && #[trigger] id_at(s0, j) == s0[a].parent->Some_0@;
                    assert(id_at(s, j) == id_at(s0, j));
                }
            }
        }
        twin_data
    }

    /// Sets one twin fragment of an entity; a `Null` value deletes it. A key
    /// that is not allowed is refused before anything changes.
    pub fn set_twin_fragment(&mut self, id: &EntityTopicId, key: String, value: JsonValue) -> (r:
        Result<(), EntityStoreError>)
        requires
            old(self).wf(),
        ensures
            final(self).wf(),
            !valid_twin_key(key@) ==> r is Err && r->Err_0 is InvalidTwinData
                && r->Err_0->InvalidTwinData_0@ == key@ && final(self)@ == old(self)@,
            valid_twin_key(key@) && !is_registered(old(self)@, id@) ==> r is Err && r->Err_0
                is UnknownEntity && final(self)@ == old(self)@,
            valid_twin_key(key@) && is_registered(old(self)@, id@) ==> r is Ok && ({
                let i = index_of_id(old(self)@, id@);
                &&& final(self)@.len() == old(self)@.len()
                &&& forall|j: int| 0 <= j < old(self)@.len() && j != i ==> #[trigger] final(self)@[j] == old(self)@[j]
                &&& final(self)@[i].topic_id == old(self)@[i].topic_id
                &&& final(self)@[i].parent == old(self)@[i].parent
                &&& final(self)@[i].twin_data@ == if value is Null {
                    old(self)@[i].twin_data@.remove(key@)
                } else {
                    old(self)@[i].twin_data@.insert(key@, value)
                }
            }),
    {
        if !is_valid_twin_key(key.as_str()) {
            return Err(EntityStoreError::InvalidTwinData(key));
        }
        let i = match self.find(id) {
            Some(i) => i,
            None => {
                return Err(EntityStoreError::UnknownEntity(id.duplicate()));
            },
        };
        proof {
            lemma_index_of(self@, i as int);
        }
        let prev = self.swap_twin(i, JsonObject::new());
        let twin = match value {
            JsonValue::Null => prev.without(key.as_str()),
            v => prev.with(key, v),
        };
        self.swap_twin(i, twin);
        Ok(())
    }
}

pub open spec fn tid_views(v: Seq<EntityTopicId>) -> Seq<Seq<char>> {
    v.map_values(|t: EntityTopicId| t@)
}

/// Whether entity `e` stays when the entities in `gone` are deleted.
pub open spec fn stays(gone: Seq<Seq<char>>) -> spec_fn(EntityMetadata) -> bool {
    |e: EntityMetadata| !gone.contains(e.topic_id@)
}

/// `gone` holds every child of an entity it holds.
pub open spec fn closed_under_children(s: Seq<EntityMetadata>, gone: Seq<Seq<char>>) -> bool {
    forall|i: int|
        0 <= i < s.len() && (#[trigger] s[i]).parent is Some && gone.contains(s[i].parent->Some_0@)
            ==> gone.contains(id_at(s, i))
}

/// `gone` holds `root` and entities whose parent it holds, nothing else.
pub open spec fn reached_from(s: Seq<EntityMetadata>, gone: Seq<Seq<char>>, root: Seq<char>) -> bool {
    forall|x: Seq<char>|
        #[trigger] gone.contains(x) ==> x == root || exists|i: int|
            0 <= i < s.len() && #[trigger] id_at(s, i) == x && s[i].parent is Some && gone.contains(
                s[i].parent->Some_0@,
            )
}

/// `gone` is the entity `root` with all its descendants, when registered.
pub open spec fn is_subtree(s: Seq<EntityMetadata>, gone: Seq<Seq<char>>, root: Seq<char>) -> bool {
    &&& gone.no_duplicates()
    &&& !is_registered(s, root) ==> gone.len() == 0
    &&& is_registered(s, root) ==> {
        &&& gone.contains(root)
        &&& closed_under_children(s, gone)
        &&& reached_from(s, gone, root)
        &&& forall|x: Seq<char>| #[trigger] gone.contains(x) ==> is_registered(s, x)
    }
}

fn contains_id(v: &Vec<EntityTopicId>, x: &EntityTopicId) -> (r: bool)
    ensures
        r == tid_views(v@).contains(x@),
{
    let mut i: usize = 0;
    while i < v.len()
        invariant
            i <= v@.len(),
            forall|j: int| 0 <= j < i ==> (#[trigger] v@[j])@ != x@,
        decreases v@.len() - i,
    {
        if v[i].same_as(x) {
            assert(tid_views(v@)[i as int] == x@);
            return true;
        }
        i = i + 1;
    }
    assert forall|j: int| 0 <= j < tid_views(v@).len() implies tid_views(v@)[j] != x@ by {
        assert(tid_views(v@)[j] == v@[j]@);
    }
    false
}

proof fn lemma_filter_within<A>(s: Seq<A>, p: spec_fn(A) -> bool)
    ensures
        forall|k: int| 0 <= k < s.filter(p).len() ==> s.contains(#[trigger] s.filter(p)[k]),
    decreases s.len(),
{
    reveal(Seq::filter);
    if s.len() > 0 {
        let t = s.drop_last();
        lemma_filter_within(t, p);
        assert forall|k: int| 0 <= k < s.filter(p).len() implies s.contains(#[trigger] s.filter(p)[k]) by {
            if k < t.filter(p).len() {
                assert(s.filter(p)[k] == t.filter(p)[k]);
                assert(t.contains(t.filter(p)[k]));
                let j = choose|j: int| 0 <= j < t.len() && t[j] == t.filter(p)[k];
                assert(s[j] == t[j]);
            } else {
                assert(s.filter(p)[k] == s.last());
                assert(s[s.len() - 1] == s.last());
            }
        }
    }
}

proof fn lemma_prefix_wf(s: Seq<EntityMetadata>, gone: Seq<Seq<char>>)
    requires
        store_wf(s),
        closed_under_children(s, gone),
        s.len() > 0,
    ensures
        store_wf(s.drop_last()),
        closed_under_children(s.drop_last(), gone),
{
    let t = s.drop_last();
    assert forall|i: int| 0 <= i < t.len() implies #[trigger] id_at(t, i) == id_at(s, i) by {}
    assert forall|i: int| 0 <= i < t.len() implies #[trigger] parent_before(t, i) by {
        assert(parent_before(s, i));
        if t[i].parent is Some {
            let j = choose|j: int| 0 <= j < i && #[trigger] id_at(s, j) == s[i].parent->Some_0@;
            assert(id_at(t, j) == id_at(s, j));
        }
    }
    assert forall|i: int|
        0 <= i < t.len() && (#[trigger] t[i]).parent is Some && gone.contains(t[i].parent->Some_0@)
            implies gone.contains(id_at(t, i)) by {
        assert(s[i] == t[i]);
    }
}

/// Deleting a set closed under children keeps the registry well formed.
proof fn lemma_filter_wf(s: Seq<EntityMetadata>, gone: Seq<Seq<char>>)
    requires
        store_wf(s),
        closed_under_children(s, gone),
    ensures
        store_wf(s.filter(stays(gone))),
    decreases s.len(),
{
    reveal(Seq::filter);
    let p = stays(gone);
    if s.len() > 0 {
        let t = s.drop_last();
        lemma_prefix_wf(s, gone);
        lemma_filter_wf(t, gone);
        let ft = t.filter(p);
        let last = s.last();
        let n = s.len() - 1;
        assert(s[n] == last);
        if p(last) {
            let fs = ft.push(last);
            assert(s.filter(p) == fs);
            lemma_filter_within(t, p);
            let m = ft.len() as int;
            assert forall|a: int| 0 <= a < m implies #[trigger] id_at(fs, a) == id_at(ft, a) by {}
            assert forall|a: int| 0 <= a < m implies id_at(fs, a) != id_at(s, n) by {
                assert(t.contains(ft[a]));
                let j = choose|j: int| 0 <= j < t.len() && t[j] == ft[a];
                assert(id_at(s, j) == id_at(ft, a));
            }
            assert forall|a: int, b: int|
                0 <= a < fs.len() && 0 <= b < fs.len() && #[trigger] id_at(fs, a) == #[trigger] id_at(
                    fs,
                    b,
                ) implies a == b by {
                if a < m && b < m {
                    assert(id_at(ft, a) == id_at(ft, b));
                } else if a < m {
                    assert(id_at(fs, b) == id_at(s, n));
                } else if b < m {
                    assert(id_at(fs, a) == id_at(s, n));
                }
            }
            assert forall|a: int| 0 <= a < fs.len() implies #[trigger] parent_before(fs, a) by {
                if a < m {
                    assert(parent_before(ft, a));
                    if fs[a].parent is Some {
                        let j = choose|j: int| 0 <= j < a && #[trigger] id_at(ft, j) == ft[a].parent->Some_0@;
                        assert(id_at(fs, j) == id_at(ft, j));
                    }
                } else if last.parent is Some {
                    assert(parent_before(s, n));
                    let j = choose|j: int| 0 <= j < n && #[trigger] id_at(s, j) == last.parent->Some_0@;
                    assert(!gone.contains(last.parent->Some_0@));
                    assert(t[j] == s[j]);
                    assert(p(t[j]));
                    t.lemma_filter_contains(p, j);
                    let k = choose|k: int| 0 <= k < ft.len() && ft[k] == t[j];
                    assert(id_at(fs, k) == id_at(ft, k));
                }
            }
        } else {
            assert(s.filter(p) == ft);
        }
    }
}

impl EntityStore {
    /// The ids of entity `root` and of all its descendants.
    pub fn subtree(&self, root: &EntityTopicId) -> (r: Vec<EntityTopicId>)
        requires
            self.wf(),
        ensures
            is_subtree(self@, tid_views(r@), root@),
    {
        let ghost s = self@;
        let mut r: Vec<EntityTopicId> = Vec::new();
        if self.find(root).is_none() {
            assert(tid_views(r@) =~= Seq::<Seq<char>>::empty());
            return r;
        }
        r.push(root.duplicate());
        assert(tid_views(r@) =~= seq![root@]);
        assert(tid_views(r@)[0] == root@);
        let mut i: usize = 0;
        while i < self.entities.len()
            invariant
                s == self@,
                store_wf(s),
                is_registered(s, root@),
                i <= s.len(),
                tid_views(r@).no_duplicates(),
                tid_views(r@).contains(root@),
                forall|x: Seq<char>|
                    #[trigger] tid_views(r@).contains(x) ==> x == root@ || exists|j: int|
                        0 <= j < i && #[trigger] id_at(s, j) == x,
                forall|j: int|
                    0 <= j < i && (#[trigger] s[j]).parent is Some && tid_views(r@).contains(
                        s[j].parent->Some_0@,
                    ) ==> tid_views(r@).contains(id_at(s, j)),
                reached_from(s, tid_views(r@), root@),
                forall|x: Seq<char>| #[trigger] tid_views(r@).contains(x) ==> is_registered(s, x),
            decreases s.len() - i,
        {
            let e = &self.entities[i];
            let parent_in = match &e.parent {
                Some(p) => contains_id(&r, p),
                None => false,
            };
            if parent_in && !contains_id(&r, &e.topic_id) {
                let ghost r0 = tid_views(r@);
                r.push(e.topic_id.duplicate());
                proof {
                    let r1 = tid_views(r@);
                    let x = id_at(s, i as int);
                    assert(r1 =~= r0.push(x));
                    assert forall|y: Seq<char>| r0.contains(y) implies #[trigger] r1.contains(y) by {
                        let k = choose|k: int| 0 <= k < r0.len() && r0[k] == y;
                        assert(r1[k] == y);
                    }
                    assert(r1[r0.len() as int] == x);
                    assert(r1.contains(x));
                    assert forall|y: Seq<char>| #[trigger] r1.contains(y) implies y == x || r0.contains(y) by {
                        let k = choose|k: int| 0 <= k < r1.len() && r1[k] == y;
                        if k < r0.len() {
                            assert(r0[k] == y);
                        }
                    }
                    assert(is_registered(s, x));
                    assert forall|j: int|
                        0 <= j < i + 1 && (#[trigger] s[j]).parent is Some && r1.contains(
                            s[j].parent->Some_0@,
                        ) implies r1.contains(id_at(s, j)) by {
                        if j < i as int {
                            if s[j].parent->Some_0@ == x {
                                assert(parent_before(s, j));
                                let k = choose|k: int| 0 <= k < j && #[trigger] id_at(s, k) == s[j].parent->Some_0@;
                                assert(id_at(s, k) == id_at(s, i as int));
                            }
                        }
                    }
                    assert forall|y: Seq<char>|
                        #[trigger] r1.contains(y) implies y == root@ || exists|j: int|
                            0 <= j < i + 1 && #[trigger] id_at(s, j) == y by {
                        if y != x {
                            assert(r0.contains(y));
                        }
                    }
                    assert forall|y: Seq<char>|
                        #[trigger] r1.contains(y) implies y == root@ || exists|j: int|
                            0 <= j < s.len() && #[trigger] id_at(s, j) == y && s[j].parent is Some
                                && r1.contains(s[j].parent->Some_0@) by {
                        if y != x {
                            assert(r0.contains(y));
                            if y != root@ {
                                let j = choose|j: int|
                                    0 <= j < s.len() && #[trigger] id_at(s, j) == y && s[j].parent is Some
                                        && r0.contains(s[j].parent->Some_0@);
                                assert(r1.contains(s[j].parent->Some_0@));
                            }
                        } else {
                            assert(id_at(s, i as int) == y);
                            assert(r1.contains(s[i as int].parent->Some_0@));
                        }
                    }
                    assert(r1.no_duplicates()) by {
                        assert forall|a: int, b: int|
                            0 <= a < r1.len() && 0 <= b < r1.len() && a != b implies r1[a] != r1[b] by {
                            if a < r0.len() && b < r0.len() {
                                assert(r0[a] == r1[a] && r0[b] == r1[b]);
                            } else if a < r0.len() {
                                assert(r0[a] == r1[a]);
                                assert(r0.contains(r1[a]));
                            } else if b < r0.len() {
                                assert(r0[b] == r1[b]);
                                assert(r0.contains(r1[b]));
                            }
                        }
                    }
                }
            } else {
                proof {
                    let r0 = tid_views(r@);
                    if s[i as int].parent is Some && r0.contains(s[i as int].parent->Some_0@) {
                        assert(parent_in);
                    }
                }
            }
            i = i + 1;
        }
        r
    }
}

impl EntityStore {
    /// Deregisters an entity and all its descendants; returns their ids,
    /// none when the entity is not registered.
    pub fn delete(&mut self, id: &EntityTopicId) -> (r: Vec<EntityTopicId>)
        requires
            old(self).wf(),
        ensures
            final(self).wf(),
            is_subtree(old(self)@, tid_views(r@), id@),
            final(self)@ == old(self)@.filter(stays(tid_views(r@))),
    {
        let r = self.subtree(id);
        let ghost s0 = self@;
        let ghost gone = tid_views(r@);
        let ghost p = stays(gone);
        proof {
            if !is_registered(s0, id@) {
                assert forall|i: int|
                    0 <= i < s0.len() && (#[trigger] s0[i]).parent is Some && gone.contains(
                        s0[i].parent->Some_0@,
                    ) implies gone.contains(id_at(s0, i)) by {
                    let k = choose|k: int| 0 <= k < gone.len() && gone[k] == s0[i].parent->Some_0@;
                }
            }
            lemma_filter_wf(s0, gone);
            assert(s0.take(0) =~= Seq::<EntityMetadata>::empty());
            reveal(Seq::filter);
            assert(s0.skip(0) =~= s0);
        }
        let mut i: usize = 0;
        let ghost mut j: int = 0;
        while i < self.entities.len()
            invariant
                gone == tid_views(r@),
                p == stays(gone),
                0 <= j <= s0.len(),
                self@ == s0.take(j).filter(p) + s0.skip(j),
                i == s0.take(j).filter(p).len(),
            decreases self@.len() - i,
        {
            let ghost kept = s0.take(j).filter(p);
            proof {
                s0.take(j).lemma_filter_len(p);
                assert(self@[i as int] == s0[j]);
                reveal(Seq::filter);
                assert(s0.take(j + 1).drop_last() =~= s0.take(j));
                assert(s0.take(j + 1).last() == s0[j]);
            }
            if contains_id(&r, &self.entities[i].topic_id) {
                self.entities.remove(i);
                proof {
                    assert(!p(s0[j]));
                    assert(s0.take(j + 1).filter(p) == kept);
                    assert(self@ =~= kept + s0.skip(j + 1));
                }
            } else {
                proof {
                    assert(p(s0[j]));
                    assert(s0.take(j + 1).filter(p) == kept.push(s0[j]));
                    assert(self@ =~= kept.push(s0[j]) + s0.skip(j + 1));
                }
                i = i + 1;
            }
            proof {
                j = j + 1;
            }
        }
        proof {
            assert(j == s0.len());
            assert(s0.take(j) =~= s0);
            assert(self@ =~= s0.filter(p));
        }
        r
    }

    /// Replaces all twin data of an entity. Any key that is not allowed
    /// refuses the whole request before anything changes.
    pub fn set_twin_fragments(&mut self, id: &EntityTopicId, fragments: JsonObject) -> (r: Result<
        (),
        EntityStoreError,
    >)
        requires
            old(self).wf(),
        ensures
            final(self).wf(),
            !all_keys_valid(fragments@) ==> r is Err && r->Err_0 is InvalidTwinData
                && fragments@.contains_key(r->Err_0->InvalidTwinData_0@) && !valid_twin_key(
                r->Err_0->InvalidTwinData_0@,
            ) && final(self)@ == old(self)@,
            all_keys_valid(fragments@) && !is_registered(old(self)@, id@) ==> r is Err && r->Err_0
                is UnknownEntity && final(self)@ == old(self)@,
            all_keys_valid(fragments@) && is_registered(old(self)@, id@) ==> r is Ok && ({
                let i = index_of_id(old(self)@, id@);
                &&& final(self)@.len() == old(self)@.len()
                &&& forall|j: int| 0 <= j < old(self)@.len() && j != i ==> #[trigger] final(self)@[j] == old(self)@[j]
                &&& final(self)@[i].topic_id == old(self)@[i].topic_id
                &&& final(self)@[i].parent == old(self)@[i].parent
                &&& final(self)@[i].twin_data == fragments
            }),
    {
        if let Some(k) = first_invalid_key(&fragments) {
            return Err(EntityStoreError::InvalidTwinData(k));
        }
        let i = match self.find(id) {
            Some(i) => i,
            None => {
                return Err(EntityStoreError::UnknownEntity(id.duplicate()));
            },
        };
        proof {
            lemma_index_of(self@, i as int);
        }
        self.swap_twin(i, fragments);
        Ok(())
    }

    /// The ids of the registered entities that pass the filters, in the
    /// order they were registered: under `root`, the entity and its
    /// descendants; under `parent`, its children; under a type, the
    /// entities of that type.
    pub fn list(&self, filters: &ListFilters) -> (r: Vec<EntityTopicId>)
        requires
            self.wf(),
        ensures
            match filters.root {
                None => tid_views(r@) == ids_of(self@.filter(passes(*filters, None))),
                Some(root) => exists|gone: Seq<Seq<char>>|
                    is_subtree(self@, gone, root@) && tid_views(r@) == ids_of(
                        self@.filter(passes(*filters, Some(gone))),
                    ),
            },
    {
        let root_set = match &filters.root {
            Some(root) => Some(self.subtree(root)),
            None => None,
        };
        let ghost within: Option<Seq<Seq<char>>> = match &root_set {
            Some(v) => Some(tid_views(v@)),
            None => None,
        };
        let ghost s = self@;
        let ghost p = passes(*filters, within);
        let mut out: Vec<EntityTopicId> = Vec::new();
        let mut i: usize = 0;
        proof {
            reveal(Seq::filter);
            assert(s.take(0) =~= Seq::<EntityMetadata>::empty());
            assert(tid_views(out@) =~= ids_of(s.take(0).filter(p)));
        }
        while i < self.entities.len()
            invariant
                s == self@,
                i <= s.len(),
                p == passes(*filters, within),
                within == match &root_set {
                    Some(v) => Some(tid_views(v@)),
                    None => None::<Seq<Seq<char>>>,
                },
                match &filters.root {
                    Some(root) => root_set is Some && is_subtree(s, tid_views(root_set->Some_0@), root@),
                    None => root_set is None,
                },
                tid_views(out@) == ids_of(s.take(i as int).filter(p)),
            decreases s.len() - i,
        {
            let e = &self.entities[i];
            let ok_root = match &root_set {
                Some(v) => contains_id(v, &e.topic_id),
                None => true,
            };
            let ok_parent = match &filters.parent {
                Some(want) => match &e.parent {
                    Some(got) => got.same_as(want),
                    None => false,
                },
                None => true,
            };
            let ok_type = match filters.entity_type {
                Some(t) => t == e.entity_type,
                None => true,
            };
            let ghost before = out@;
            proof {
                reveal(Seq::filter);
                assert(s.take(i + 1).drop_last() =~= s.take(i as int));
                assert(s.take(i + 1).last() == s[i as int]);
            }
            if ok_root && ok_parent && ok_type {
                out.push(e.topic_id.duplicate());
                proof {
                    assert(p(s[i as int]));
                    assert(tid_views(out@) =~= tid_views(before).push(s[i as int].topic_id@));
                    assert(ids_of(s.take(i as int).filter(p).push(s[i as int])) =~= ids_of(
                        s.take(i as int).filter(p),
                    ).push(s[i as int].topic_id@));
                }
            } else {
                proof {
                    assert(!p(s[i as int]));
                }
            }
            i = i + 1;
        }
        proof {
            assert(s.take(i as int) =~= s);
        }
        out
    }
}

/// Whether an entity passes the parent and type filters and, when given,
/// belongs to the set `within`.
pub open spec fn passes(f: ListFilters, within: Option<Seq<Seq<char>>>) -> spec_fn(EntityMetadata) -> bool {
    |e: EntityMetadata|
        (match within {
            Some(w) => w.contains(e.topic_id@),
            None => true,
        }) && (match f.parent {
            Some(p) => e.parent is Some && e.parent->Some_0@ == p@,
            None => true,
        }) && (match f.entity_type {
            Some(t) => e.entity_type == t,
            None => true,
        })
}

/// Filters of an entity listing.
#[derive(Debug)]
pub struct ListFilters {
    pub root: Option<EntityTopicId>,
    pub parent: Option<EntityTopicId>,
    pub entity_type: Option<EntityType>,
}

/// The query parameters of an entity listing, as given.
#[derive(Debug, Default)]
pub struct ListParams {
    pub root: Option<String>,
    pub parent: Option<String>,
    pub entity_type: Option<String>,
}

/// Why listing parameters were refused.
#[derive(Debug, PartialEq, Eq)]
pub enum InputValidationError {
    /// No entity type has this name.
    InvalidEntityType(String),
    /// Not an entity topic identifier.
    InvalidEntityTopic(TopicIdError),
    /// The two parameters cannot be given together.
    IncompatibleParams(String, String),
}

/// A parameter that is given and not empty.
pub open spec fn given(p: Option<String>) -> Option<Seq<char>> {
    match p {
        Some(s) => if s@.len() > 0 {
            Some(s@)
        } else {
            None
        },
        None => None,
    }
}

fn parse_id_param(p: &Option<String>) -> (r: Result<Option<EntityTopicId>, InputValidationError>)
    ensures
        match given(*p) {
            None => r is Ok && r->Ok_0 is None,
            Some(s) => match topic_id_check(s) {
                Some(e) => r is Err && r->Err_0 == InputValidationError::InvalidEntityTopic(e),
                None => r is Ok && r->Ok_0 is Some && r->Ok_0->Some_0@ == s,
            },
        },
{
    match p {
        Some(s) => {
            if s.as_str().unicode_len() == 0 {
                return Ok(None);
            }
            match EntityTopicId::parse(s.as_str()) {
                Ok(id) => Ok(Some(id)),
                Err(e) => Err(InputValidationError::InvalidEntityTopic(e)),
            }
        },
        None => Ok(None),
    }
}

impl ListFilters {
    /// Reads the listing parameters; empty ones count as not given. `root`
    /// and `parent` exclude each other.
    pub fn try_from(params: ListParams) -> (r: Result<ListFilters, InputValidationError>)
        ensures
            ({
                let root = given(params.root);
                let parent = given(params.parent);
                let ty = given(params.entity_type);
                if root is Some && topic_id_check(root->Some_0) is Some {
                    r is Err && r->Err_0 == InputValidationError::InvalidEntityTopic(
                        topic_id_check(root->Some_0)->Some_0,
                    )
                } else if parent is Some && topic_id_check(parent->Some_0) is Some {
                    r is Err && r->Err_0 == InputValidationError::InvalidEntityTopic(
                        topic_id_check(parent->Some_0)->Some_0,
                    )
                } else if ty is Some && entity_type_named(ty->Some_0) is None {
                    r is Err && r->Err_0 is InvalidEntityType && r->Err_0->InvalidEntityType_0@
                        == ty->Some_0
                } else if root is Some && parent is Some {
                    r is Err && r->Err_0 is IncompatibleParams && r->Err_0->IncompatibleParams_0@
                        == "root"@ && r->Err_0->IncompatibleParams_1@ == "parent"@
                } else {
                    r is Ok && parent_view(r->Ok_0.root) == root && parent_view(r->Ok_0.parent)
                        == parent && r->Ok_0.entity_type == match ty {
                        Some(t) => entity_type_named(t),
                        None => None::<EntityType>,
                    }
                }
            }),
    {
        let root = parse_id_param(&params.root)?;
        let parent = parse_id_param(&params.parent)?;
        let entity_type = match &params.entity_type {
            Some(t) => {
                if t.as_str().unicode_len() == 0 {
                    None
                } else {
                    match EntityType::parse(t.as_str()) {
                        Some(ty) => Some(ty),
                        None => {
                            return Err(InputValidationError::InvalidEntityType(t.clone()));
                        },
                    }
                }
            },
            None => None,
        };
        if root.is_some() && parent.is_some() {
            return Err(
                InputValidationError::IncompatibleParams("root".to_owned(), "parent".to_owned()),
            );
        }
        Ok(ListFilters { root, parent, entity_type })
    }
}

} // verus!
