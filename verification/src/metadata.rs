//! The title page entries under keys that have no field of their own.

use crate::types::{clone_spans, spans_eq, spans_view, LineContent, SpanView};
use vstd::prelude::*;

verus! {

/// A map from key to spans, kept as a list of entries in which a later
/// entry replaces an earlier one under the same key. Two maps are equal
/// where they hold the same spans under the same keys, in whatever order
/// the entries were made.
#[derive(Clone, Eq, Debug)]
pub struct Metadata {
    entries: Vec<(String, Vec<LineContent>)>,
}

/// The map that a list of entries stands for.
pub closed spec fn entries_map(s: Seq<(String, Vec<LineContent>)>) -> Map<
    Seq<char>,
    Seq<SpanView>,
>
    decreases s.len(),
{
    if s.len() == 0 {
        Map::empty()
    } else {
        entries_map(s.drop_last()).insert(s.last().0@, spans_view(s.last().1@))
    }
}

/// Whether one of the keys `keys` is the text `k`.
pub open spec fn names(keys: Seq<String>, k: Seq<char>) -> bool {
    exists|i: int| 0 <= i < keys.len() && (#[trigger] keys[i])@ == k
}

proof fn lemma_entries_map_push(s: Seq<(String, Vec<LineContent>)>, e: (String, Vec<LineContent>))
    ensures
        entries_map(s.push(e)) == entries_map(s).insert(e.0@, spans_view(e.1@)),
{
    assert(s.push(e).drop_last() == s);
}

impl View for Metadata {
    type V = Map<Seq<char>, Seq<SpanView>>;

    closed spec fn view(&self) -> Map<Seq<char>, Seq<SpanView>> {
        entries_map(self.entries@)
    }
}

impl PartialEq for Metadata {
    fn eq(&self, other: &Self) -> (r: bool) {
        let r: bool = self.is_part_of(other) && other.is_part_of(self);
        proof {
            if r {
                assert(self@ =~= other@);
            }
        }
        r
    }
}

impl vstd::std_specs::cmp::PartialEqSpecImpl for Metadata {
    open spec fn obeys_eq_spec() -> bool {
        true
    }

    open spec fn eq_spec(&self, other: &Self) -> bool {
        self@ == other@
    }
}

impl Default for Metadata {
    fn default() -> (r: Self)
        ensures
            r@ == Map::<Seq<char>, Seq<SpanView>>::empty(),
    {
        Metadata { entries: Vec::new() }
    }
}

impl Metadata {
    /// The map without any key.
    pub fn new() -> (r: Self)
        ensures
            r@ == Map::<Seq<char>, Seq<SpanView>>::empty(),
    {
        Metadata { entries: Vec::new() }
    }

    /// The spans under `key`, if there are any.
    pub fn get(&self, key: &str) -> (r: Option<&Vec<LineContent>>)
        ensures
            match r {
                Some(spans) => self@.contains_key(key@) && self@[key@] == spans_view(spans@),
                None => !self@.contains_key(key@),
            },
    {
        let wanted: String = key.to_owned();
        let mut i: usize = self.entries.len();
        assert(self.entries@.subrange(0, i as int) == self.entries@);
        while i > 0
            invariant
                i <= self.entries.len(),
                wanted@ == key@,
                self@.contains_key(key@) == entries_map(
                    self.entries@.subrange(0, i as int),
                ).contains_key(key@),
                self@.contains_key(key@) ==> self@[key@] == entries_map(
                    self.entries@.subrange(0, i as int),
                )[key@],
            decreases i,
        {
            i -= 1;
            proof {
                lemma_entries_map_push(
                    self.entries@.subrange(0, i as int),
                    self.entries@[i as int],
                );
                assert(self.entries@.subrange(0, i + 1) == self.entries@.subrange(
                    0,
                    i as int,
                ).push(self.entries@[i as int]));
            }
            if self.entries[i].0 == wanted {
                return Some(&self.entries[i].1);
            }
        }
        None
    }

    /// Whether there are spans under `key`.
    pub fn contains_key(&self, key: &str) -> (r: bool)
        ensures
            r == self@.contains_key(key@),
    {
        self.get(key).is_some()
    }

    /// Takes away what stands under `key`.
    pub fn remove(&mut self, key: &str)
        ensures
            final(self)@ == old(self)@.remove(key@),
    {
        let wanted: String = key.to_owned();
        let mut kept: Vec<(String, Vec<LineContent>)> = Vec::new();
        let mut i: usize = 0;
        assert(entries_map(kept@) =~= entries_map(self.entries@.subrange(0, 0)).remove(key@));
        while i < self.entries.len()
            invariant
                i <= self.entries.len(),
                wanted@ == key@,
                self.entries == old(self).entries,
                entries_map(kept@) == entries_map(self.entries@.subrange(0, i as int)).remove(
                    key@,
                ),
            decreases self.entries.len() - i,
        {
            proof {
                lemma_entries_map_push(
                    self.entries@.subrange(0, i as int),
                    self.entries@[i as int],
                );
                assert(self.entries@.subrange(0, i + 1) == self.entries@.subrange(
                    0,
                    i as int,
                ).push(self.entries@[i as int]));
            }
            if self.entries[i].0 != wanted {
                let e: (String, Vec<LineContent>) = (
                    self.entries[i].0.clone(),
                    clone_spans(&self.entries[i].1),
                );
                proof {
                    lemma_entries_map_push(kept@, e);
                    assert(entries_map(kept@.push(e)) =~= entries_map(
                        self.entries@.subrange(0, i + 1),
                    ).remove(key@));
                }
                kept.push(e);
            } else {
                assert(entries_map(kept@) =~= entries_map(
                    self.entries@.subrange(0, i + 1),
                ).remove(key@));
            }
            i += 1;
        }
        assert(self.entries@.subrange(0, self.entries.len() as int) == self.entries@);
        self.entries = kept;
    }

    /// Puts `value` under `key`, in place of what stood there.
    pub fn insert(&mut self, key: String, value: Vec<LineContent>)
        ensures
            final(self)@ == old(self)@.insert(key@, spans_view(value@)),
    {
        self.remove(key.as_str());
        proof {
            lemma_entries_map_push(self.entries@, (key, value));
            assert(old(self)@.remove(key@).insert(key@, spans_view(value@)) =~= old(self)@.insert(
                key@,
                spans_view(value@),
            ));
        }
        self.entries.push((key, value));
    }

    /// The keys of the map, each once.
    pub fn keys(&self) -> (r: Vec<String>)
        ensures
            forall|k: Seq<char>| #[trigger] self@.contains_key(k) <==> names(r@, k),
            forall|i: int, j: int|
                0 <= i < j < r.len() ==> (#[trigger] r[i])@ != (#[trigger] r[j])@,
    {
        let mut r: Vec<String> = Vec::new();
        let mut i: usize = 0;
        assert(self.entries@.subrange(0, 0) =~= Seq::<(String, Vec<LineContent>)>::empty());
        while i < self.entries.len()
            invariant
                i <= self.entries.len(),
                forall|k: Seq<char>|
                    #[trigger] entries_map(self.entries@.subrange(0, i as int)).contains_key(k)
                        <==> names(r@, k),
                forall|a: int, b: int|
                    0 <= a < b < r.len() ==> (#[trigger] r[a])@ != (#[trigger] r[b])@,
            decreases self.entries.len() - i,
        {
            let ghost before = entries_map(self.entries@.subrange(0, i as int));
            let ghost after = entries_map(self.entries@.subrange(0, i + 1));
            let ghost old_r = r@;
            let ghost key = self.entries@[i as int].0@;
            proof {
                lemma_entries_map_push(
                    self.entries@.subrange(0, i as int),
                    self.entries@[i as int],
                );
                assert(self.entries@.subrange(0, i + 1) == self.entries@.subrange(
                    0,
                    i as int,
                ).push(self.entries@[i as int]));
            }
            let mut known: bool = false;
            let mut j: usize = 0;
            while j < r.len()
                invariant
                    j <= r.len(),
                    i < self.entries.len(),
                    r@ == old_r,
                    key == self.entries@[i as int].0@,
                    known == names(r@.subrange(0, j as int), key),
                decreases r.len() - j,
            {
                let ghost head = r@.subrange(0, j as int);
                let ghost next = r@.subrange(0, j + 1);
                proof {
                    if names(head, key) {
                        let m = choose|m: int| 0 <= m < head.len() && (#[trigger] head[m])@ == key;
                        assert(next[m]@ == key);
                    }
                    if names(next, key) {
                        let m = choose|m: int| 0 <= m < next.len() && (#[trigger] next[m])@ == key;
                        if m < j {
                            assert(head[m]@ == key);
                        }
                    }
                }
                if r[j] == self.entries[i].0 {
                    known = true;
                    assert(next[j as int]@ == key);
                }
                j += 1;
            }
            assert(r@.subrange(0, r.len() as int) == r@);
            if !known {
                let name: String = self.entries[i].0.clone();
                r.push(name);
                assert forall|k: Seq<char>| #[trigger] after.contains_key(k) <==> names(r@, k) by {
                    if before.contains_key(k) {
                        let m = choose|m: int| 0 <= m < old_r.len() && (#[trigger] old_r[m])@ == k;
                        assert(r@[m]@ == k);
                    }
                    if k == key {
                        assert(r@[old_r.len() as int]@ == k);
                    }
                    if names(r@, k) {
                        let m = choose|m: int| 0 <= m < r@.len() && (#[trigger] r@[m])@ == k;
                        if m < old_r.len() {
                            assert(old_r[m]@ == k);
                        }
                    }
                }
                assert forall|a: int, b: int| 0 <= a < b < r.len() implies (#[trigger] r[a])@ != (
                #[trigger] r[b])@ by {
                    if b == old_r.len() {
                        assert(old_r[a]@ == r[a]@);
                    }
                }
            } else {
                assert forall|k: Seq<char>| #[trigger] after.contains_key(k) <==> names(r@, k) by {}
            }
            i += 1;
        }
        assert(self.entries@.subrange(0, self.entries.len() as int) == self.entries@);
        r
    }

    /// Whether `other` holds, under every key of this map, what this map
    /// holds under it.
    pub fn is_part_of(&self, other: &Self) -> (r: bool)
        ensures
            r == forall|k: Seq<char>| #[trigger]
                self@.contains_key(k) ==> other@.contains_key(k) && other@[k] == self@[k],
    {
        let keys: Vec<String> = self.keys();
        let mut i: usize = 0;
        while i < keys.len()
            invariant
                i <= keys.len(),
                forall|k: Seq<char>| #[trigger] self@.contains_key(k) <==> names(keys@, k),
                forall|j: int|
                    0 <= j < i ==> other@.contains_key((#[trigger] keys[j])@) && other@[keys[j]@]
                        == self@[keys[j]@],
            decreases keys.len() - i,
        {
            assert(names(keys@, keys[i as int]@));
            assert(self@.contains_key(keys[i as int]@));
            let same: bool = match (self.get(keys[i].as_str()), other.get(keys[i].as_str())) {
                (Some(a), Some(b)) => spans_eq(a, b),
                _ => false,
            };
            if !same {
                return false;
            }
            i += 1;
        }
        assert forall|k: Seq<char>| #[trigger] self@.contains_key(k) implies other@.contains_key(k)
            && other@[k] == self@[k] by {
            assert(names(keys@, k));
            let j = choose|j: int| 0 <= j < keys@.len() && (#[trigger] keys@[j])@ == k;
            assert(other@.contains_key(keys[j]@));
        }
        true
    }

    /// A copy of the map.
    pub fn copy(&self) -> (r: Self)
        ensures
            r@ == self@,
    {
        let mut entries: Vec<(String, Vec<LineContent>)> = Vec::new();
        let mut i: usize = 0;
        while i < self.entries.len()
            invariant
                i <= self.entries.len(),
                entries_map(entries@) == entries_map(self.entries@.subrange(0, i as int)),
            decreases self.entries.len() - i,
        {
            let e: (String, Vec<LineContent>) = (
                self.entries[i].0.clone(),
                clone_spans(&self.entries[i].1),
            );
            proof {
                lemma_entries_map_push(entries@, e);
                lemma_entries_map_push(
                    self.entries@.subrange(0, i as int),
                    self.entries@[i as int],
                );
                assert(self.entries@.subrange(0, i + 1) == self.entries@.subrange(
                    0,
                    i as int,
                ).push(self.entries@[i as int]));
            }
            entries.push(e);
            i += 1;
        }
        assert(self.entries@.subrange(0, self.entries.len() as int) == self.entries@);
        Metadata { entries }
    }
}

} // verus!
