//! JSON documents as plain values. Command payloads and twin data are JSON;
//! the logic reads and writes the top-level fields of objects.
use crate::text::same_text;
use vstd::prelude::*;

verus! {

/// A JSON value. A number keeps its literal text.
#[derive(Debug, PartialEq)]
pub enum JsonValue {
    Null,
    Bool(bool),
    Number(String),
    Str(String),
    Array(Vec<JsonValue>),
    Object(JsonObject),
}

/// A JSON object: string keys, each at most once, in insertion order.
#[derive(Debug, PartialEq)]
pub struct JsonObject {
    entries: Vec<(String, JsonValue)>,
}

/// `k` is the key of some entry of `s`.
pub open spec fn has_key(s: Seq<(String, JsonValue)>, k: Seq<char>) -> bool {
    exists|i: int| 0 <= i < s.len() && (#[trigger] s[i]).0@ == k
}

/// No key occurs twice in `s`.
pub open spec fn unique_keys(s: Seq<(String, JsonValue)>) -> bool {
    forall|i: int, j: int|
        0 <= i < s.len() && 0 <= j < s.len() && (#[trigger] s[i]).0@ == (#[trigger] s[j]).0@ ==> i == j
}

/// The entries of `s` as a map from key to value.
pub open spec fn entries_map(s: Seq<(String, JsonValue)>) -> Map<Seq<char>, JsonValue> {
    Map::new(
        |k: Seq<char>| has_key(s, k),
        |k: Seq<char>| s[choose|i: int| 0 <= i < s.len() && (#[trigger] s[i]).0@ == k].1,
    )
}

/// With unique keys, the map holds each entry's value under its key.
pub proof fn lemma_entries_map_at(s: Seq<(String, JsonValue)>, i: int)
    requires
        unique_keys(s),
        0 <= i < s.len(),
    ensures
        entries_map(s).contains_key(s[i].0@),
        entries_map(s)[s[i].0@] == s[i].1,
{
    let k = s[i].0@;
    assert(has_key(s, k));
    let j = choose|j: int| 0 <= j < s.len() && (#[trigger] s[j]).0@ == k;
    assert(s[j].0@ == s[i].0@);
}

impl View for JsonObject {
    type V = Map<Seq<char>, JsonValue>;

    closed spec fn view(&self) -> Map<Seq<char>, JsonValue> {
        entries_map(self.entries@)
    }
}

/// The string held under `k` in `m`, if that value is a JSON string.
pub open spec fn text_at(m: Map<Seq<char>, JsonValue>, k: Seq<char>) -> Option<Seq<char>> {
    if m.contains_key(k) {
        match m[k] {
            JsonValue::Str(s) => Some(s@),
            _ => None,
        }
    } else {
        None
    }
}

impl JsonObject {
    #[verifier::type_invariant]
    closed spec fn inv(&self) -> bool {
        unique_keys(self.entries@)
    }

    /// The empty object.
    pub fn new() -> (r: JsonObject)
        ensures
            r@ == Map::<Seq<char>, JsonValue>::empty(),
    {
        let r = JsonObject { entries: Vec::new() };
        assert(r@ =~= Map::<Seq<char>, JsonValue>::empty());
        r
    }

    /// The entries, in insertion order.
    pub fn as_entries(&self) -> (r: &Vec<(String, JsonValue)>)
        ensures
            unique_keys(r@),
            entries_map(r@) == self@,
    {
        proof {
            use_type_invariant(self);
        }
        &self.entries
    }

    /// The value under `k`, if any.
    pub fn get(&self, k: &str) -> (r: Option<&JsonValue>)
        ensures
            match r {
                Some(v) => self@.contains_key(k@) && *v == self@[k@],
                None => !self@.contains_key(k@),
            },
    {
        proof {
            use_type_invariant(self);
        }
        match index_in(&self.entries, k) {
            Some(i) => {
                proof {
                    lemma_entries_map_at(self.entries@, i as int);
                }
                Some(&self.entries[i].1)
            },
            None => None,
        }
    }

    /// The string under `k`, if the value there is a JSON string.
    pub fn get_text(&self, k: &str) -> (r: Option<&String>)
        ensures
            match r {
                Some(s) => text_at(self@, k@) == Some(s@),
                None => text_at(self@, k@) is None,
            },
    {
        match self.get(k) {
            Some(JsonValue::Str(s)) => Some(s),
            _ => None,
        }
    }

    /// Sets the value under `k`, replacing any previous one.
    pub fn insert(&mut self, k: String, v: JsonValue)
        ensures
            final(self)@ == old(self)@.insert(k@, v),
    {
        let mut taken = JsonObject::new();
        std::mem::swap(self, &mut taken);
        *self = taken.with(k, v);
    }

    /// This object with `k` set to `v`.
    pub fn with(self, k: String, v: JsonValue) -> (r: JsonObject)
        ensures
            r@ == self@.insert(k@, v),
    {
        proof {
            use_type_invariant(&self);
        }
        let ghost old_entries = self.entries@;
        let JsonObject { entries: mut entries } = self;
        let ghost key = k@;
        let ghost val = v;
        match index_in(&entries, k.as_str()) {
            Some(i) => {
                entries.set(i, (k, v));
                proof {
                    let s = entries@;
                    assert(unique_keys(s)) by {
                        assert forall|a: int, b: int|
                            0 <= a < s.len() && 0 <= b < s.len() && (#[trigger] s[a]).0@ == (
                            #[trigger] s[b]).0@ implies a == b by {
                            assert(old_entries[a].0@ == s[a].0@);
                            assert(old_entries[b].0@ == s[b].0@);
                        }
                    }
                    lemma_entries_map_at(s, i as int);
                    assert forall|k2: Seq<char>| k2 != key implies has_key(s, k2) == has_key(
                        old_entries,
                        k2,
                    ) && (has_key(s, k2) ==> entries_map(s)[k2] == entries_map(old_entries)[k2]) by {
                        if has_key(old_entries, k2) {
                            let j = choose|j: int|
                                0 <= j < old_entries.len() && (#[trigger] old_entries[j]).0@ == k2;
                            assert(s[j] == old_entries[j]);
                            lemma_entries_map_at(s, j);
                            lemma_entries_map_at(old_entries, j);
                        }
                        if has_key(s, k2) {
                            let j = choose|j: int| 0 <= j < s.len() && (#[trigger] s[j]).0@ == k2;
                            assert(s[j] == old_entries[j]);
                        }
                    }
                    assert(entries_map(s) =~= entries_map(old_entries).insert(key, val));
                }
            },
            None => {
                entries.push((k, v));
                proof {
                    let s = entries@;
                    let n = old_entries.len() as int;
                    assert(unique_keys(s)) by {
                        assert forall|a: int, b: int|
                            0 <= a < s.len() && 0 <= b < s.len() && (#[trigger] s[a]).0@ == (
                            #[trigger] s[b]).0@ implies a == b by {
                            if a < n && b == n {
                                assert(old_entries[a].0@ == key);
                            } else if b < n && a == n {
                                assert(old_entries[b].0@ == key);
                            }
                        }
                    }
                    lemma_entries_map_at(s, n);
                    assert forall|k2: Seq<char>| k2 != key implies has_key(s, k2) == has_key(
                        old_entries,
                        k2,
                    ) && (has_key(s, k2) ==> entries_map(s)[k2] == entries_map(old_entries)[k2]) by {
                        if has_key(old_entries, k2) {
                            let j = choose|j: int|
                                0 <= j < old_entries.len() && (#[trigger] old_entries[j]).0@ == k2;
                            assert(s[j] == old_entries[j]);
                            lemma_entries_map_at(s, j);
                            lemma_entries_map_at(old_entries, j);
                        }
                        if has_key(s, k2) {
                            let j = choose|j: int| 0 <= j < s.len() && (#[trigger] s[j]).0@ == k2;
                            assert(j != n);
                            assert(s[j] == old_entries[j]);
                        }
                    }
                    assert(entries_map(s) =~= entries_map(old_entries).insert(key, val));
                }
            },
        }
        JsonObject { entries }
    }

    /// This object without key `k`.
    pub fn without(self, k: &str) -> (r: JsonObject)
        ensures
            r@ == self@.remove(k@),
    {
        proof {
            use_type_invariant(&self);
        }
        let ghost s0 = self.entries@;
        let JsonObject { entries: mut entries } = self;
        match index_in(&entries, k) {
            Some(i) => {
                entries.remove(i);
                proof {
                    let s = entries@;
                    let ii = i as int;
                    assert forall|a: int| 0 <= a < s.len() implies #[trigger] s[a] == s0[
                        if a < ii {
                            a
                        } else {
                            a + 1
                        }
                    ] by {}
                    assert(unique_keys(s)) by {
                        assert forall|a: int, b: int|
                            0 <= a < s.len() && 0 <= b < s.len() && (#[trigger] s[a]).0@ == (
                            #[trigger] s[b]).0@ implies a == b by {
                            let a0 = if a < ii { a } else { a + 1 };
                            let b0 = if b < ii { b } else { b + 1 };
                            assert(s0[a0] == s[a]);
                            assert(s0[b0] == s[b]);
                        }
                    }
                    assert(!has_key(s, k@)) by {
                        if has_key(s, k@) {
                            let j = choose|j: int| 0 <= j < s.len() && (#[trigger] s[j]).0@ == k@;
                            let j0 = if j < ii { j } else { j + 1 };
                            assert(s0[j0] == s[j]);
                        }
                    }
                    assert forall|k2: Seq<char>| k2 != k@ implies has_key(s, k2) == has_key(s0, k2)
                        && (has_key(s, k2) ==> entries_map(s)[k2] == entries_map(s0)[k2]) by {
                        if has_key(s0, k2) {
                            let j = choose|j: int| 0 <= j < s0.len() && (#[trigger] s0[j]).0@ == k2;
                            assert(j != ii);
                            let j1 = if j < ii { j } else { j - 1 };
                            assert(s[j1] == s0[j]);
                            lemma_entries_map_at(s, j1);
                            lemma_entries_map_at(s0, j);
                        }
                        if has_key(s, k2) {
                            let j = choose|j: int| 0 <= j < s.len() && (#[trigger] s[j]).0@ == k2;
                            let j0 = if j < ii { j } else { j + 1 };
                            assert(s0[j0] == s[j]);
                        }
                    }
                    assert(entries_map(s) =~= entries_map(s0).remove(k@));
                }
                JsonObject { entries }
            },
            None => {
                assert(entries_map(s0) =~= entries_map(s0).remove(k@));
                JsonObject { entries }
            },
        }
    }

    /// Whether the object has no keys.
    pub fn is_empty(&self) -> (r: bool)
        ensures
            r == (self@ == Map::<Seq<char>, JsonValue>::empty()),
    {
        proof {
            use_type_invariant(self);
        }
        if self.entries.len() == 0 {
            assert(self@ =~= Map::<Seq<char>, JsonValue>::empty());
            true
        } else {
            proof {
                lemma_entries_map_at(self.entries@, 0);
            }
            assert(self@.contains_key(self.entries@[0].0@));
            false
        }
    }

    /// Sets every key of `other` to its value there; other keys keep theirs.
    pub fn merge(&mut self, other: JsonObject)
        ensures
            final(self)@ == old(self)@.union_prefer_right(other@),
    {
        proof {
            use_type_invariant(&other);
        }
        let ghost target = old(self)@.union_prefer_right(other@);
        let mut rest = other.entries;
        while rest.len() > 0
            invariant
                unique_keys(rest@),
                self@.union_prefer_right(entries_map(rest@)) == target,
            decreases rest.len(),
        {
            let ghost before = rest@;
            let ghost cur = self@;
            let (k, v) = rest.pop().unwrap();
            proof {
                let n = before.len() - 1;
                assert(rest@ =~= before.drop_last());
                assert(unique_keys(rest@)) by {
                    assert forall|a: int, b: int|
                        0 <= a < rest@.len() && 0 <= b < rest@.len() && (#[trigger] rest@[a]).0@ == (
                        #[trigger] rest@[b]).0@ implies a == b by {
                        assert(before[a] == rest@[a]);
                        assert(before[b] == rest@[b]);
                    }
                }
                lemma_entries_map_at(before, n);
                assert forall|k2: Seq<char>| k2 != k@ implies has_key(before, k2) == has_key(
                    rest@,
                    k2,
                ) && (has_key(before, k2) ==> entries_map(before)[k2] == entries_map(rest@)[k2]) by {
                    if has_key(rest@, k2) {
                        let j = choose|j: int| 0 <= j < rest@.len() && (#[trigger] rest@[j]).0@ == k2;
                        assert(before[j] == rest@[j]);
                        lemma_entries_map_at(before, j);
                        lemma_entries_map_at(rest@, j);
                    }
                    if has_key(before, k2) {
                        let j = choose|j: int| 0 <= j < before.len() && (#[trigger] before[j]).0@ == k2;
                        assert(j != n);
                        assert(before[j] == rest@[j]);
                    }
                }
                assert(!has_key(rest@, k@)) by {
                    if has_key(rest@, k@) {
                        let j = choose|j: int| 0 <= j < rest@.len() && (#[trigger] rest@[j]).0@ == k@;
                        assert(before[j] == rest@[j]);
                        assert(before[n].0@ == k@);
                    }
                }
                assert(cur.insert(k@, v).union_prefer_right(entries_map(rest@)) =~= cur.union_prefer_right(
                    entries_map(before),
                ));
            }
            self.insert(k, v);
        }
        proof {
            assert(entries_map(rest@) =~= Map::<Seq<char>, JsonValue>::empty());
            assert(self@.union_prefer_right(entries_map(rest@)) =~= self@);
        }
    }
}

fn index_in(entries: &Vec<(String, JsonValue)>, k: &str) -> (r: Option<usize>)
    ensures
        match r {
            Some(i) => i < entries@.len() && entries@[i as int].0@ == k@,
            None => !has_key(entries@, k@),
        },
{
    let mut i: usize = 0;
    while i < entries.len()
        invariant
            i <= entries@.len(),
            forall|j: int| 0 <= j < i ==> (#[trigger] entries@[j]).0@ != k@,
        decreases entries@.len() - i,
    {
        if same_text(entries[i].0.as_str(), k) {
            return Some(i);
        }
        i = i + 1;
    }
    None
}

} // verus!
