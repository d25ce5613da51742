//! A small key-value store addressed by content, and a counter of
//! rate-limited retries.
use vstd::prelude::*;
use crate::external::{sha256, sha256_digest};
use crate::text::{hex_upper, hex_upper_of, is_upper_hex_char, lemma_hex_upper_shape, string_from};

verus! {

broadcast use vstd::string::group_string_axioms;

/// The key under which a value is stored: the SHA-256 digest of its UTF-8
/// bytes in upper-case hexadecimal.
pub open spec fn content_key(value: Seq<char>) -> Seq<char> {
    hex_upper(sha256_digest(vstd::utf8::encode_utf8(value)))
}

/// The map that a list of entries with distinct keys stands for.
pub open spec fn entries_map(s: Seq<(Seq<char>, Seq<char>)>) -> Map<Seq<char>, Seq<char>>
    decreases s.len(),
{
    if s.len() == 0 {
        Map::<Seq<char>, Seq<char>>::empty()
    } else {
        entries_map(s.drop_last()).insert(s.last().0, s.last().1)
    }
}

/// No key occurs twice.
pub open spec fn keys_distinct(s: Seq<(Seq<char>, Seq<char>)>) -> bool {
    forall|i: int, j: int| 0 <= i < j < s.len() ==> s[i].0 != s[j].0
}

/// The view of the entries of a store.
pub open spec fn entries_view(v: Seq<(String, String)>) -> Seq<(Seq<char>, Seq<char>)> {
    v.map_values(|e: (String, String)| (e.0@, e.1@))
}

proof fn lemma_entries_map(s: Seq<(Seq<char>, Seq<char>)>)
    requires
        keys_distinct(s),
    ensures
        forall|i: int| 0 <= i < s.len() ==> #[trigger] entries_map(s).contains_key(s[i].0) && entries_map(s)[s[i].0] == s[i].1,
        forall|k: Seq<char>| entries_map(s).contains_key(k) ==> exists|i: int| 0 <= i < s.len() && s[i].0 == k,
    decreases s.len(),
{
    if s.len() > 0 {
        let init = s.drop_last();
        assert(keys_distinct(init)) by {
            assert forall|i: int, j: int| 0 <= i < j < init.len() implies init[i].0 != init[j].0 by {
                assert(init[i] == s[i] && init[j] == s[j]);
            }
        }
        lemma_entries_map(init);
        assert forall|i: int| 0 <= i < s.len() implies #[trigger] entries_map(s).contains_key(s[i].0) && entries_map(s)[s[i].0] == s[i].1 by {
            if i < s.len() - 1 {
                assert(init[i] == s[i]);
                assert(entries_map(init).contains_key(init[i].0));
                assert(s[i].0 != s[s.len() - 1].0);
            }
        }
        assert forall|k: Seq<char>| entries_map(s).contains_key(k) implies exists|i: int| 0 <= i < s.len() && s[i].0 == k by {
            if k != s.last().0 {
                assert(entries_map(init).contains_key(k));
                let i = choose|i: int| 0 <= i < init.len() && init[i].0 == k;
                assert(s[i] == init[i]);
            } else {
                assert(s[s.len() - 1].0 == k);
            }
        }
    }
}

proof fn lemma_map_from_entries(s: Seq<(Seq<char>, Seq<char>)>, m: Map<Seq<char>, Seq<char>>)
    requires
        keys_distinct(s),
        forall|i: int| 0 <= i < s.len() ==> #[trigger] m.contains_key(s[i].0) && m[s[i].0] == s[i].1,
        forall|k: Seq<char>| m.contains_key(k) ==> exists|i: int| 0 <= i < s.len() && s[i].0 == k,
    ensures
        entries_map(s) == m,
{
    lemma_entries_map(s);
    assert forall|k: Seq<char>| #[trigger] entries_map(s).contains_key(k) == m.contains_key(k) by {
        if m.contains_key(k) {
            let i = choose|i: int| 0 <= i < s.len() && s[i].0 == k;
            assert(entries_map(s).contains_key(s[i].0));
        }
        if entries_map(s).contains_key(k) {
            let i = choose|i: int| 0 <= i < s.len() && s[i].0 == k;
            assert(m.contains_key(s[i].0));
        }
    }
    assert forall|k: Seq<char>| entries_map(s).contains_key(k) implies #[trigger] entries_map(s)[k] == m[k] by {
        let i = choose|i: int| 0 <= i < s.len() && s[i].0 == k;
        assert(entries_map(s)[s[i].0] == s[i].1);
    }
    assert(entries_map(s) =~= m);
}

/// Values stored under the upper-case hexadecimal SHA-256 of their text.
pub struct KVStore {
    store: Vec<(String, String)>,
}

impl KVStore {
    #[verifier::type_invariant]
    spec fn wf(self) -> bool {
        keys_distinct(entries_view(self.store@))
    }

    /// The contents of the store.
    pub closed spec fn contents(self) -> Map<Seq<char>, Seq<char>> {
        entries_map(entries_view(self.store@))
    }

    /// An empty store.
    pub fn new() -> (s: KVStore)
        ensures
            s.contents() == Map::<Seq<char>, Seq<char>>::empty(),
    {
        let s = KVStore { store: Vec::new() };
        assert(entries_view(s.store@) =~= Seq::<(Seq<char>, Seq<char>)>::empty());
        s
    }

    fn find(&self, key: &str) -> (k: Option<usize>)
        ensures
            match k {
                Some(i) => i < self.store.len() && self.store@[i as int].0@ == key@,
                None => forall|i: int| 0 <= i < self.store.len() ==> self.store@[i].0@ != key@,
            },
    {
        let mut i: usize = 0;
        while i < self.store.len()
            invariant
                i <= self.store.len(),
                forall|j: int| 0 <= j < i ==> self.store@[j].0@ != key@,
            decreases self.store.len() - i,
        {
            if self.store[i].0.as_str().to_owned() == key.to_owned() {
                return Some(i);
            }
            i = i + 1;
        }
        None
    }

    /// Stores `value` under its key (`content_key`), and answers the key.
    pub fn put(&mut self, value: String) -> (key: String)
        ensures
            key@ == content_key(value@),
            key@.len() == 64,
            forall|i: int| 0 <= i < key@.len() ==> is_upper_hex_char(#[trigger] key@[i]),
            final(self).contents() == old(self).contents().insert(key@, value@),
            final(self).contents() == apply_write(old(self).contents(), KvWrite::Put(value@)),
    {
        proof {
            use_type_invariant(&*self);
        }
        let digest = sha256(value.as_str().as_bytes());
        proof {
            lemma_hex_upper_shape(digest@);
        }
        let key_chars = hex_upper_of(&digest);
        let key = string_from(&key_chars);
        let ghost before = entries_view(self.store@);
        let ghost kv = key@;
        let ghost vv = value@;
        proof {
            lemma_entries_map(before);
        }
        let found = self.find(key.as_str());
        let mut entries: Vec<(String, String)> = Vec::new();
        std::mem::swap(&mut entries, &mut self.store);
        match found {
            Some(i) => {
                entries.set(i, (key.clone(), value));
                let ghost after = entries_view(entries@);
                assert(after =~= before.update(i as int, (kv, vv)));
                assert(keys_distinct(after)) by {
                    assert forall|a: int, b: int| 0 <= a < b < after.len() implies after[a].0 != after[b].0 by {
                        assert(after[a].0 == before[a].0 && after[b].0 == before[b].0);
                    }
                }
                proof {
                    let m = entries_map(before).insert(kv, vv);
                    assert forall|j: int| 0 <= j < after.len() implies #[trigger] m.contains_key(after[j].0) && m[after[j].0] == after[j].1 by {
                        if j != i {
                            assert(after[j] == before[j]);
                            assert(entries_map(before).contains_key(before[j].0));
                            assert(before[j].0 != before[i as int].0);
                        }
                    }
                    assert forall|k: Seq<char>| m.contains_key(k) implies exists|j: int| 0 <= j < after.len() && after[j].0 == k by {
                        if k != kv {
                            let j = choose|j: int| 0 <= j < before.len() && before[j].0 == k;
                            assert(after[j].0 == k);
                        } else {
                            assert(after[i as int].0 == k);
                        }
                    }
                    lemma_map_from_entries(after, m);
                }
            },
            None => {
                entries.push((key.clone(), value));
                let ghost after = entries_view(entries@);
                assert(after =~= before.push((kv, vv)));
                assert(after.drop_last() =~= before);
                assert(keys_distinct(after)) by {
                    assert forall|a: int, b: int| 0 <= a < b < after.len() implies after[a].0 != after[b].0 by {
                        if b < before.len() {
                            assert(after[a].0 == before[a].0 && after[b].0 == before[b].0);
                        } else {
                            assert(after[a] == before[a]);
                        }
                    }
                }
            },
        }
        self.store = entries;
        key
    }

    /// The value stored under `key`, if any.
    pub fn get(&self, key: &str) -> (v: Option<String>)
        ensures
            match v {
                Some(v) => self.contents().contains_key(key@) && self.contents()[key@] == v@,
                None => !self.contents().contains_key(key@),
            },
    {
        proof {
            use_type_invariant(self);
            lemma_entries_map(entries_view(self.store@));
        }
        match self.find(key) {
            Some(i) => {
                let ghost ev = entries_view(self.store@);
                assert(ev[i as int].0 == key@);
                assert(entries_map(ev).contains_key(ev[i as int].0));
                assert(ev[i as int].1 == self.store@[i as int].1@);
                Some(self.store[i].1.clone())
            },
            None => {
                proof {
                    if self.contents().contains_key(key@) {
                        let j = choose|j: int| 0 <= j < entries_view(self.store@).len() && entries_view(self.store@)[j].0 == key@;
                        assert(self.store@[j].0@ == key@);
                    }
                }
                None
            },
        }
    }

    /// Removes the value stored under `key`, if any.
    pub fn delete(&mut self, key: &str)
        ensures
            final(self).contents() == old(self).contents().remove(key@),
            final(self).contents() == apply_write(old(self).contents(), KvWrite::Delete(key@)),
    {
        proof {
            use_type_invariant(&*self);
        }
        let ghost before = entries_view(self.store@);
        proof {
            lemma_entries_map(before);
        }
        match self.find(key) {
            Some(i) => {
                let mut entries: Vec<(String, String)> = Vec::new();
                std::mem::swap(&mut entries, &mut self.store);
                entries.remove(i);
                let ghost after = entries_view(entries@);
                assert(after =~= before.remove(i as int));
                assert(keys_distinct(after)) by {
                    assert forall|a: int, b: int| 0 <= a < b < after.len() implies after[a].0 != after[b].0 by {
                        let a0 = if a < i { a } else { a + 1 };
                        let b0 = if b < i { b } else { b + 1 };
                        assert(after[a] == before[a0] && after[b] == before[b0]);
                    }
                }
                proof {
                    let m = entries_map(before).remove(key@);
                    assert forall|j: int| 0 <= j < after.len() implies #[trigger] m.contains_key(after[j].0) && m[after[j].0] == after[j].1 by {
                        let j0 = if j < i { j } else { j + 1 };
                        assert(after[j] == before[j0]);
                        assert(entries_map(before).contains_key(before[j0].0));
                        assert(before[j0].0 != before[i as int].0);
                    }
                    assert forall|k: Seq<char>| m.contains_key(k) implies exists|j: int| 0 <= j < after.len() && after[j].0 == k by {
                        let j0 = choose|j: int| 0 <= j < before.len() && before[j].0 == k;
                        assert(j0 != i);
                        let j = if j0 < i { j0 } else { j0 - 1 };
                        assert(after[j] == before[j0]);
                    }
                    lemma_map_from_entries(after, m);
                }
                self.store = entries;
            },
            None => {
                assert(old(self).contents().remove(key@) =~= old(self).contents()) by {
                    if entries_map(before).contains_key(key@) {
                        let j = choose|j: int| 0 <= j < before.len() && before[j].0 == key@;
                        assert(self.store@[j].0@ == key@);
                    }
                }
            },
        }
    }
}

/// A write to the store: putting a value, or deleting a key.
pub enum KvWrite {
    Put(Seq<char>),
    Delete(Seq<char>),
}

/// The key a write touches.
pub open spec fn write_key(w: KvWrite) -> Seq<char> {
    match w {
        KvWrite::Put(v) => content_key(v),
        KvWrite::Delete(k) => k,
    }
}

/// The contents after one write.
pub open spec fn apply_write(m: Map<Seq<char>, Seq<char>>, w: KvWrite) -> Map<Seq<char>, Seq<char>> {
    match w {
        KvWrite::Put(v) => m.insert(content_key(v), v),
        KvWrite::Delete(k) => m.remove(k),
    }
}

/// The contents after the writes `ws`, in order.
pub open spec fn apply_writes(m: Map<Seq<char>, Seq<char>>, ws: Seq<KvWrite>) -> Map<Seq<char>, Seq<char>>
    decreases ws.len(),
{
    if ws.len() == 0 {
        m
    } else {
        apply_write(apply_writes(m, ws.drop_last()), ws.last())
    }
}

proof fn lemma_untouched_key(m: Map<Seq<char>, Seq<char>>, ws: Seq<KvWrite>, k: Seq<char>)
    requires
        forall|i: int| 0 <= i < ws.len() ==> write_key(#[trigger] ws[i]) != k,
    ensures
        apply_writes(m, ws).contains_key(k) == m.contains_key(k),
        apply_writes(m, ws)[k] == m[k],
    decreases ws.len(),
{
    if ws.len() > 0 {
        assert forall|i: int| 0 <= i < ws.drop_last().len() implies write_key(#[trigger] ws.drop_last()[i]) != k by {
            assert(ws.drop_last()[i] == ws[i]);
        }
        lemma_untouched_key(m, ws.drop_last(), k);
        assert(write_key(ws[ws.len() - 1]) != k);
    }
}

/// What `put` stored stays readable: after putting `value` under its key
/// (64 upper-case hexadecimal characters), any number of puts and deletes
/// of other keys leave `value` under that key; deleting the key then leaves
/// nothing under it.
pub proof fn law_put_survives_other_writes(
    m: Map<Seq<char>, Seq<char>>,
    value: Seq<char>,
    ws: Seq<KvWrite>,
)
    requires
        forall|i: int| 0 <= i < ws.len() ==> write_key(#[trigger] ws[i]) != content_key(value),
    ensures
        apply_writes(apply_write(m, KvWrite::Put(value)), ws).contains_key(content_key(value)),
        apply_writes(apply_write(m, KvWrite::Put(value)), ws)[content_key(value)] == value,
        !apply_write(
            apply_writes(apply_write(m, KvWrite::Put(value)), ws),
            KvWrite::Delete(content_key(value)),
        ).contains_key(content_key(value)),
{
    lemma_untouched_key(apply_write(m, KvWrite::Put(value)), ws, content_key(value));
}

/// A value put into the store can be read back under the key `put`
/// answered, and putting it leaves every other key as it was.
pub proof fn law_get_after_put(m: Map<Seq<char>, Seq<char>>, value: Seq<char>, other: Seq<char>)
    ensures
        m.insert(content_key(value), value).contains_key(content_key(value)),
        m.insert(content_key(value), value)[content_key(value)] == value,
        other != content_key(value) ==> (m.insert(content_key(value), value).contains_key(other)
            == m.contains_key(other) && m.insert(content_key(value), value)[other] == m[other]),
{
}

/// After a key is deleted the store holds nothing under it, and every other
/// key is as it was.
pub proof fn law_get_after_delete(m: Map<Seq<char>, Seq<char>>, key: Seq<char>, other: Seq<char>)
    ensures
        !m.remove(key).contains_key(key),
        other != key ==> (m.remove(key).contains_key(other) == m.contains_key(other) && m.remove(
            key,
        )[other] == m[other]),
{
}

/// Putting the same value twice answers the same key: the key depends on
/// the value alone.
pub proof fn law_put_key_deterministic(v1: Seq<char>, v2: Seq<char>)
    requires
        v1 == v2,
    ensures
        content_key(v1) == content_key(v2),
{
}

/// A counter of back-offs.
pub struct LockCount {
    pub count: i64,
}

impl LockCount {
    /// Counts one more back-off.
    pub fn inc(&mut self)
        requires
            old(self).count < i64::MAX,
        ensures
            final(self).count == old(self).count + 1,
    {
        self.count = self.count + 1;
    }
}

} // verus!
