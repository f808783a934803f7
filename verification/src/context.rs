//! Per-request metadata passed from middleware to handlers: a small map
//! from string keys to tagged values, insertion order irrelevant.
use vstd::prelude::*;
use crate::text::str_eq;
use crate::kvseq::kv_unique;
use crate::kvseq::kv_contains_key;
use crate::kvseq::kv_lookup;
use crate::kvseq::kv_key_index;
use crate::kvseq::kv_insert;
use crate::kvseq::lemma_kv_first_match;
use crate::kvseq::lemma_kv_no_match;

verus! {

/// A value a middleware can leave for the handler: one of a few plain
/// shapes instead of a runtime type-identity check.
#[derive(Debug, PartialEq, Eq)]
pub enum CtxValue {
    Text(String),
    Int(i64),
    Uint(u64),
    Flag(bool),
    Bytes(Vec<u8>),
}

/// The per-request metadata map.
#[derive(Debug)]
pub struct RequestContext {
    entries: Vec<(String, CtxValue)>,
}

impl View for RequestContext {
    type V = Seq<(Seq<char>, CtxValue)>;

    closed spec fn view(&self) -> Seq<(Seq<char>, CtxValue)> {
        self.entries@.map(|_i, p: (String, CtxValue)| (p.0@, p.1))
    }
}

impl RequestContext {
    /// Every key occurs at most once.
    pub open spec fn wf(&self) -> bool {
        kv_unique(self@)
    }

    /// Creates an empty context.
    pub fn new() -> (r: RequestContext)
        ensures
            r@ == Seq::<(Seq<char>, CtxValue)>::empty(),
            r.wf(),
    {
        let r = RequestContext { entries: Vec::new() };
        assert(r@ =~= Seq::<(Seq<char>, CtxValue)>::empty());
        r
    }

    /// Stores a value under a key, replacing any earlier value.
    #[verifier::loop_isolation(false)]
    pub fn set(&mut self, key: &str, value: CtxValue)
        requires
            old(self).wf(),
        ensures
            final(self).wf(),
            final(self)@ == kv_insert(old(self)@, key@, value),
    {
        let mut i: usize = 0;
        while i < self.entries.len()
            invariant
                i <= self@.len(),
                self@.len() == self.entries@.len(),
                self@ == old(self)@,
                forall|j: int| 0 <= j < i ==> (#[trigger] self@[j]).0 != key@,
            decreases self@.len() - i,
        {
            if str_eq(self.entries[i].0.as_str(), key) {
                proof {
                    lemma_kv_first_match(self@, key@, i as int);
                }
                self.entries[i] = (key.to_string(), value);
                assert(self@ =~= kv_insert(old(self)@, key@, value));
                assert forall|a: int, b: int|
                    0 <= a < b < self@.len() implies (#[trigger] self@[a]).0 != (
                #[trigger] self@[b]).0 by {
                    assert(old(self)@[a].0 == self@[a].0);
                    assert(old(self)@[b].0 == self@[b].0);
                }
                return ;
            }
            assert(self@[i as int].0 != key@);
            i = i + 1;
        }
        proof {
            lemma_kv_no_match(self@, key@);
        }
        self.entries.push((key.to_string(), value));
        assert(self@ =~= kv_insert(old(self)@, key@, value));
        assert forall|a: int, b: int|
            0 <= a < b < self@.len() implies (#[trigger] self@[a]).0 != (#[trigger] self@[b]).0 by {
            if b < self@.len() - 1 {
                assert(old(self)@[a].0 == self@[a].0);
                assert(old(self)@[b].0 == self@[b].0);
            } else {
                assert(old(self)@[a].0 == self@[a].0);
                assert(!kv_contains_key(old(self)@, key@));
            }
        }
    }

    /// The value stored under the key, if any.
    #[verifier::loop_isolation(false)]
    pub fn get(&self, key: &str) -> (r: Option<&CtxValue>)
        ensures
            match r {
                Some(v) => kv_lookup(self@, key@) == Some(*v),
                None => kv_lookup(self@, key@) is None,
            },
    {
        let mut i: usize = 0;
        while i < self.entries.len()
            invariant
                i <= self@.len(),
                self@.len() == self.entries@.len(),
                forall|j: int| 0 <= j < i ==> (#[trigger] self@[j]).0 != key@,
            decreases self@.len() - i,
        {
            if str_eq(self.entries[i].0.as_str(), key) {
                proof {
                    lemma_kv_first_match(self@, key@, i as int);
                }
                return Some(&self.entries[i].1);
            }
            assert(self@[i as int].0 != key@);
            i = i + 1;
        }
        proof {
            lemma_kv_no_match(self@, key@);
        }
        None
    }

    /// Takes the entry with the key out of the context and returns its value.
    #[verifier::loop_isolation(false)]
    pub fn remove(&mut self, key: &str) -> (r: Option<CtxValue>)
        requires
            old(self).wf(),
        ensures
            final(self).wf(),
            match r {
                Some(v) => kv_contains_key(old(self)@, key@) && kv_lookup(old(self)@, key@)
                    == Some(v) && final(self)@ == old(self)@.remove(
                    kv_key_index(old(self)@, key@),
                ),
                None => !kv_contains_key(old(self)@, key@) && final(self)@ == old(self)@,
            },
    {
        let mut i: usize = 0;
        while i < self.entries.len()
            invariant
                i <= self@.len(),
                self@.len() == self.entries@.len(),
                self@ == old(self)@,
                forall|j: int| 0 <= j < i ==> (#[trigger] self@[j]).0 != key@,
            decreases self@.len() - i,
        {
            if str_eq(self.entries[i].0.as_str(), key) {
                proof {
                    lemma_kv_first_match(self@, key@, i as int);
                }
                let (_, v) = self.entries.remove(i);
                assert(self@ =~= old(self)@.remove(i as int));
                assert forall|a: int, b: int|
                    0 <= a < b < self@.len() implies (#[trigger] self@[a]).0 != (
                #[trigger] self@[b]).0 by {
                    let oa = if a < i { a } else { a + 1 };
                    let ob = if b < i { b } else { b + 1 };
                    assert(old(self)@[oa].0 == self@[a].0);
                    assert(old(self)@[ob].0 == self@[b].0);
                }
                return Some(v);
            }
            assert(self@[i as int].0 != key@);
            i = i + 1;
        }
        proof {
            lemma_kv_no_match(self@, key@);
        }
        None
    }

    /// Whether the key is present.
    #[verifier::loop_isolation(false)]
    pub fn contains_key(&self, key: &str) -> (r: bool)
        ensures
            r == kv_contains_key(self@, key@),
    {
        let mut i: usize = 0;
        while i < self.entries.len()
            invariant
                i <= self@.len(),
                self@.len() == self.entries@.len(),
                forall|j: int| 0 <= j < i ==> (#[trigger] self@[j]).0 != key@,
            decreases self@.len() - i,
        {
            if str_eq(self.entries[i].0.as_str(), key) {
                assert(self@[i as int].0 == key@);
                return true;
            }
            assert(self@[i as int].0 != key@);
            i = i + 1;
        }
        proof {
            lemma_kv_no_match(self@, key@);
        }
        false
    }

    /// The keys, in insertion order.
    #[verifier::loop_isolation(false)]
    pub fn keys(&self) -> (r: Vec<String>)
        ensures
            r@.len() == self@.len(),
            forall|i: int| 0 <= i < r@.len() ==> (#[trigger] r@[i])@ == self@[i].0,
    {
        let mut out: Vec<String> = Vec::new();
        let mut i: usize = 0;
        while i < self.entries.len()
            invariant
                i <= self@.len(),
                self@.len() == self.entries@.len(),
                out@.len() == i,
                forall|j: int| 0 <= j < i ==> (#[trigger] out@[j])@ == self@[j].0,
            decreases self@.len() - i,
        {
            out.push(self.entries[i].0.clone());
            i = i + 1;
        }
        out
    }

    /// Drops every entry.
    pub fn clear(&mut self)
        ensures
            final(self)@ == Seq::<(Seq<char>, CtxValue)>::empty(),
            final(self).wf(),
    {
        self.entries.clear();
        assert(self@ =~= Seq::<(Seq<char>, CtxValue)>::empty());
    }

    /// True when the context has no entries.
    pub fn is_empty(&self) -> (r: bool)
        ensures
            r == (self@.len() == 0),
    {
        self.entries.is_empty()
    }
}

} // verus!
