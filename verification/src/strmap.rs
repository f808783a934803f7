//! An ordered string-to-string mapping with unique keys: the representation
//! behind query parameters and header maps. Insertion keeps the first
//! position of a key (last write wins on the value); iteration order is the
//! order in which keys first arrived.
use vstd::prelude::*;
use crate::text::str_eq;
use crate::kvseq::kv_unique;
use crate::kvseq::kv_contains_key;
use crate::kvseq::kv_lookup;
use crate::kvseq::kv_key_index;
use crate::kvseq::kv_insert;
use crate::kvseq::kv_extend;
use crate::kvseq::lemma_kv_first_match;
use crate::kvseq::lemma_kv_no_match;

verus! {

/// A key/value sequence, viewed as character sequences.
#[derive(Debug, PartialEq, Eq)]
pub struct StringMap {
    entries: Vec<(String, String)>,
}

impl View for StringMap {
    type V = Seq<(Seq<char>, Seq<char>)>;

    closed spec fn view(&self) -> Seq<(Seq<char>, Seq<char>)> {
        self.entries@.map(|_i, p: (String, String)| (p.0@, p.1@))
    }
}

impl StringMap {
    /// Every key occurs at most once.
    pub open spec fn wf(&self) -> bool {
        kv_unique(self@)
    }

    /// Creates an empty map.
    pub fn new() -> (r: StringMap)
        ensures
            r@ == Seq::<(Seq<char>, Seq<char>)>::empty(),
            r.wf(),
    {
        let r = StringMap { entries: Vec::new() };
        assert(r@ =~= Seq::<(Seq<char>, Seq<char>)>::empty());
        r
    }

    /// The number of entries.
    pub fn len(&self) -> (r: usize)
        ensures
            r == self@.len(),
    {
        self.entries.len()
    }

    /// True when the map has no entries.
    pub fn is_empty(&self) -> (r: bool)
        ensures
            r == (self@.len() == 0),
    {
        self.entries.is_empty()
    }

    /// Drops every entry.
    pub fn clear(&mut self)
        ensures
            final(self)@ == Seq::<(Seq<char>, Seq<char>)>::empty(),
            final(self).wf(),
    {
        self.entries.clear();
        assert(self@ =~= Seq::<(Seq<char>, Seq<char>)>::empty());
    }

    /// The entry at a position, in iteration order.
    pub fn entry_at(&self, i: usize) -> (r: &(String, String))
        requires
            i < self@.len(),
        ensures
            (r.0@, r.1@) == self@[i as int],
    {
        &self.entries[i]
    }

    /// Whether the key is present.
    pub fn contains_key(&self, key: &str) -> (r: bool)
        ensures
            r == kv_contains_key(self@, key@),
    {
        let mut i: usize = 0;
        while i < self.entries.len()
            invariant
                i <= self@.len(),
                self@.len() == self.entries@.len(),
                forall|j: int| 0 <= j < i ==> (#[trigger] self@[j]).0 != key@,
            decreases self@.len() - i,
        {
            if str_eq(self.entries[i].0.as_str(), key) {
                assert(self@[i as int].0 == key@);
                return true;
            }
            assert(self@[i as int].0 != key@);
            i = i + 1;
        }
        proof {
            lemma_kv_no_match(self@, key@);
        }
        false
    }

    /// The value stored under the key, if any.
    pub fn get(&self, key: &str) -> (r: Option<&String>)
        ensures
            match r {
                Some(v) => kv_lookup(self@, key@) == Some(v@),
                None => kv_lookup(self@, key@) is None,
            },
    {
        let mut i: usize = 0;
        while i < self.entries.len()
            invariant
                i <= self@.len(),
                self@.len() == self.entries@.len(),
                forall|j: int| 0 <= j < i ==> (#[trigger] self@[j]).0 != key@,
            decreases self@.len() - i,
        {
            if str_eq(self.entries[i].0.as_str(), key) {
                proof {
                    lemma_kv_first_match(self@, key@, i as int);
                }
                return Some(&self.entries[i].1);
            }
            assert(self@[i as int].0 != key@);
            i = i + 1;
        }
        proof {
            lemma_kv_no_match(self@, key@);
        }
        None
    }

    /// Stores the value under the key: an existing entry keeps its position
    /// and takes the new value; a new key is appended at the end.
    #[verifier::loop_isolation(false)]
    pub fn insert(&mut self, key: String, value: String)
        requires
            old(self).wf(),
        ensures
            final(self).wf(),
            final(self)@ == kv_insert(old(self)@, key@, value@),
    {
        let mut i: usize = 0;
        while i < self.entries.len()
            invariant
                i <= self@.len(),
                self@.len() == self.entries@.len(),
                self@ == old(self)@,
                forall|j: int| 0 <= j < i ==> (#[trigger] self@[j]).0 != key@,
            decreases self@.len() - i,
        {
            if str_eq(self.entries[i].0.as_str(), key.as_str()) {
                proof {
                    lemma_kv_first_match(self@, key@, i as int);
                }
                self.entries[i] = (key, value);
                assert(self@ =~= kv_insert(old(self)@, key@, value@));
                assert forall|a: int, b: int|
                    0 <= a < b < self@.len() implies (#[trigger] self@[a]).0 != (
                #[trigger] self@[b]).0 by {
                    assert(old(self)@[a].0 == self@[a].0);
                    assert(old(self)@[b].0 == self@[b].0);
                }
                return ;
            }
            assert(self@[i as int].0 != key@);
            i = i + 1;
        }
        proof {
            lemma_kv_no_match(self@, key@);
        }
        self.entries.push((key, value));
        assert(self@ =~= kv_insert(old(self)@, key@, value@));
        assert forall|a: int, b: int|
            0 <= a < b < self@.len() implies (#[trigger] self@[a]).0 != (#[trigger] self@[b]).0 by {
            if b < self@.len() - 1 {
                assert(old(self)@[a].0 == self@[a].0);
                assert(old(self)@[b].0 == self@[b].0);
            } else {
                assert(old(self)@[a].0 == self@[a].0);
                assert(!kv_contains_key(old(self)@, key@));
            }
        }
    }

    /// Takes the entry with the key out of the map and returns its value.
    #[verifier::loop_isolation(false)]
    pub fn remove(&mut self, key: &str) -> (r: Option<String>)
        requires
            old(self).wf(),
        ensures
            final(self).wf(),
            match r {
                Some(v) => kv_contains_key(old(self)@, key@) && kv_lookup(old(self)@, key@)
                    == Some(v@) && final(self)@ == old(self)@.remove(
                    kv_key_index(old(self)@, key@),
                ),
                None => !kv_contains_key(old(self)@, key@) && final(self)@ == old(self)@,
            },
    {
        let mut i: usize = 0;
        while i < self.entries.len()
            invariant
                i <= self@.len(),
                self@.len() == self.entries@.len(),
                self@ == old(self)@,
                forall|j: int| 0 <= j < i ==> (#[trigger] self@[j]).0 != key@,
            decreases self@.len() - i,
        {
            if str_eq(self.entries[i].0.as_str(), key) {
                proof {
                    lemma_kv_first_match(self@, key@, i as int);
                }
                let (_, v) = self.entries.remove(i);
                assert(self@ =~= old(self)@.remove(i as int));
                assert forall|a: int, b: int|
                    0 <= a < b < self@.len() implies (#[trigger] self@[a]).0 != (
                #[trigger] self@[b]).0 by {
                    let oa = if a < i { a } else { a + 1 };
                    let ob = if b < i { b } else { b + 1 };
                    assert(old(self)@[oa].0 == self@[a].0);
                    assert(old(self)@[ob].0 == self@[b].0);
                }
                return Some(v);
            }
            assert(self@[i as int].0 != key@);
            i = i + 1;
        }
        proof {
            lemma_kv_no_match(self@, key@);
        }
        None
    }

    /// Folds every entry of another map into this one, in the other map's
    /// order, overwriting values of shared keys.
    #[verifier::loop_isolation(false)]
    pub fn extend(&mut self, other: &StringMap)
        requires
            old(self).wf(),
        ensures
            final(self).wf(),
            final(self)@ == kv_extend(old(self)@, other@),
    {
        let mut i: usize = 0;
        assert(other@.skip(0) =~= other@);
        while i < other.len()
            invariant
                i <= other@.len(),
                self.wf(),
                kv_extend(self@, other@.skip(i as int)) == kv_extend(old(self)@, other@),
            decreases other@.len() - i,
        {
            let e = other.entry_at(i);
            let ghost pre = self@;
            let k = e.0.clone();
            let v = e.1.clone();
            self.insert(k, v);
            proof {
                assert(other@.skip(i as int)[0] == other@[i as int]);
                assert(other@.skip(i as int).drop_first() =~= other@.skip(i as int + 1));
            }
            i = i + 1;
        }
        proof {
            assert(other@.skip(other@.len() as int) =~= Seq::<(Seq<char>, Seq<char>)>::empty());
        }
    }

    /// The keys, in iteration order.
    pub fn keys(&self) -> (r: Vec<String>)
        ensures
            r@.len() == self@.len(),
            forall|i: int| 0 <= i < r@.len() ==> (#[trigger] r@[i])@ == self@[i].0,
    {
        let mut out: Vec<String> = Vec::new();
        let mut i: usize = 0;
        while i < self.entries.len()
            invariant
                i <= self@.len(),
                self@.len() == self.entries@.len(),
                out@.len() == i,
                forall|j: int| 0 <= j < i ==> (#[trigger] out@[j])@ == self@[j].0,
            decreases self@.len() - i,
        {
            out.push(self.entries[i].0.clone());
            i = i + 1;
        }
        out
    }
}

impl Clone for StringMap {
    /// A clone carries the same entries.
    fn clone(&self) -> (r: Self)
        ensures
            r@ == self@,
    {
        let mut entries: Vec<(String, String)> = Vec::new();
        let mut i: usize = 0;
        while i < self.entries.len()
            invariant
                i <= self@.len(),
                self@.len() == self.entries@.len(),
                entries@.len() == i,
                forall|j: int|
                    0 <= j < i ==> ((#[trigger] entries@[j]).0@, entries@[j].1@) == self@[j],
            decreases self@.len() - i,
        {
            let k = self.entries[i].0.clone();
            let v = self.entries[i].1.clone();
            entries.push((k, v));
            i = i + 1;
        }
        let r = StringMap { entries };
        assert(r@ =~= self@);
        r
    }
}

} // verus!
