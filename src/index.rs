//! A map from texts to integers: a hash table of buckets, keyed by a
//! deterministic hash of each text's UTF-8 bytes.

use std::collections::HashMap;
use vstd::prelude::*;
use vstd::std_specs::hash::obeys_key_model;

verus! {

broadcast use vstd::std_specs::hash::group_hash_axioms;

pub const HASH_OFFSET: u64 = 0xcbf2_9ce4_8422_2325;

pub const HASH_PRIME: u64 = 0x0000_0100_0000_01b3;

/// FNV-1a over a byte sequence.
pub open spec fn bytes_hash(b: Seq<u8>) -> u64
    decreases b.len(),
{
    if b.len() == 0 {
        HASH_OFFSET
    } else {
        (bytes_hash(b.drop_last()) ^ (b.last() as u64)).wrapping_mul(HASH_PRIME)
    }
}

/// The hash of a text: that of its UTF-8 encoding.
pub open spec fn text_hash(s: Seq<char>) -> u64 {
    bytes_hash(vstd::utf8::encode_utf8(s))
}

pub fn hash_text(s: &str) -> (r: u64)
    ensures
        r == text_hash(s@),
{
    let b = s.as_bytes();
    let mut h: u64 = HASH_OFFSET;
    let mut i: usize = 0;
    while i < b.len()
        invariant
            0 <= i <= b@.len(),
            b@ == vstd::utf8::encode_utf8(s@),
            h == bytes_hash(b@.subrange(0, i as int)),
        decreases b@.len() - i,
    {
        assert(b@.subrange(0, i + 1).drop_last() =~= b@.subrange(0, i as int));
        h = (h ^ (b[i] as u64)).wrapping_mul(HASH_PRIME);
        i += 1;
    }
    assert(b@.subrange(0, b@.len() as int) =~= b@);
    h
}

/// A finite map from texts to integers.
pub struct TextIndex {
    buckets: HashMap<u64, Vec<(String, u64)>>,
    contents: Ghost<Map<Seq<char>, u64>>,
}

impl View for TextIndex {
    type V = Map<Seq<char>, u64>;

    closed spec fn view(&self) -> Map<Seq<char>, u64> {
        self.contents@
    }
}

impl TextIndex {
    pub closed spec fn wf(&self) -> bool {
        &&& obeys_key_model::<u64>()
        &&& forall|h: u64, i: int|
            #![trigger self.buckets@[h]@[i]]
            self.buckets@.contains_key(h) && 0 <= i < self.buckets@[h]@.len() ==> {
                let e = self.buckets@[h]@[i];
                &&& text_hash(e.0@) == h
                &&& self.contents@.contains_key(e.0@)
                &&& self.contents@[e.0@] == e.1
            }
        &&& forall|s: Seq<char>|
            #[trigger] self.contents@.contains_key(s) ==> self.buckets@.contains_key(text_hash(s))
                && exists|i: int|
                0 <= i < self.buckets@[text_hash(s)]@.len() && #[trigger] self.buckets@[text_hash(
                    s,
                )]@[i].0@ == s
        &&& forall|h: u64, i: int, j: int|
            #![trigger self.buckets@[h]@[i], self.buckets@[h]@[j]]
            self.buckets@.contains_key(h) && 0 <= i < self.buckets@[h]@.len() && 0 <= j
                < self.buckets@[h]@.len() && i != j ==> self.buckets@[h]@[i].0@
                != self.buckets@[h]@[j].0@
    }

    pub fn new() -> (r: TextIndex)
        ensures
            r.wf(),
            r@ == Map::<Seq<char>, u64>::empty(),
    {
        TextIndex { buckets: HashMap::new(), contents: Ghost(Map::empty()) }
    }

    /// The integer that `s` maps to, if any.
    pub fn get(&self, s: &String) -> (r: Option<u64>)
        requires
            self.wf(),
        ensures
            r == (if self@.contains_key(s@) {
                Some(self@[s@])
            } else {
                None
            }),
    {
        let h = hash_text(s.as_str());
        match self.buckets.get(&h) {
            None => {
                assert(!self@.contains_key(s@));
                None
            },
            Some(b) => {
                let mut i: usize = 0;
                while i < b.len()
                    invariant
                        self.wf(),
                        h == text_hash(s@),
                        self.buckets@.contains_key(h),
                        b@ == self.buckets@[h]@,
                        0 <= i <= b@.len(),
                        forall|j: int| 0 <= j < i ==> b@[j].0@ != s@,
                    decreases b@.len() - i,
                {
                    if b[i].0 == *s {
                        assert(self.buckets@[h]@[i as int].0@ == s@);
                        return Some(b[i].1);
                    }
                    i += 1;
                }
                assert(!self@.contains_key(s@));
                None
            },
        }
    }

    /// Adds `s`, which is not present yet, with the integer `v`.
    pub fn insert(&mut self, s: String, v: u64)
        requires
            old(self).wf(),
            !old(self)@.contains_key(s@),
        ensures
            final(self).wf(),
            final(self)@ == old(self)@.insert(s@, v),
    {
        let h = hash_text(s.as_str());
        let ghost old_buckets = self.buckets@;
        let mut b = match self.buckets.remove(&h) {
            Some(b) => b,
            None => Vec::new(),
        };
        proof {
            if old_buckets.contains_key(h) {
                assert(b@ == old_buckets[h]@);
            } else {
                assert(b@.len() == 0);
            }
        }
        let ghost text = s@;
        b.push((s, v));
        let ghost nb = b@;
        self.buckets.insert(h, b);
        self.contents = Ghost(self.contents@.insert(text, v));
        proof {
            assert(self.buckets@[h]@ == nb);
            assert forall|h2: u64, i: int|
                #![trigger self.buckets@[h2]@[i]]
                self.buckets@.contains_key(h2) && 0 <= i < self.buckets@[h2]@.len() implies {
                let e = self.buckets@[h2]@[i];
                &&& text_hash(e.0@) == h2
                &&& self.contents@.contains_key(e.0@)
                &&& self.contents@[e.0@] == e.1
            } by {
                if h2 == h && i < nb.len() - 1 {
                    assert(self.buckets@[h2]@[i] == old_buckets[h]@[i]);
                    assert(texts_differ(old_buckets[h]@[i].0@, text));
                }
            }
            assert forall|t: Seq<char>| #[trigger] self.contents@.contains_key(t) implies
                self.buckets@.contains_key(text_hash(t)) && exists|i: int|
                0 <= i < self.buckets@[text_hash(t)]@.len() && #[trigger] self.buckets@[text_hash(
                    t,
                )]@[i].0@ == t by {
                if t == text {
                    assert(self.buckets@[h]@[nb.len() - 1].0@ == t);
                } else {
                    let i = choose|i: int|
                        0 <= i < old_buckets[text_hash(t)]@.len()
                            && #[trigger] old_buckets[text_hash(t)]@[i].0@ == t;
                    assert(self.buckets@[text_hash(t)]@[i].0@ == t);
                }
            }
            assert forall|h2: u64, i: int, j: int|
                #![trigger self.buckets@[h2]@[i], self.buckets@[h2]@[j]]
                self.buckets@.contains_key(h2) && 0 <= i < self.buckets@[h2]@.len() && 0 <= j
                    < self.buckets@[h2]@.len() && i != j implies self.buckets@[h2]@[i].0@
                != self.buckets@[h2]@[j].0@ by {
                if h2 == h {
                    let last = nb.len() - 1;
                    if i < last && j < last {
                        assert(old_buckets[h]@[i] == self.buckets@[h2]@[i]);
                        assert(old_buckets[h]@[j] == self.buckets@[h2]@[j]);
                    } else if i < last {
                        assert(old_buckets[h]@[i] == self.buckets@[h2]@[i]);
                    } else if j < last {
                        assert(old_buckets[h]@[j] == self.buckets@[h2]@[j]);
                    }
                }
            }
        }
    }
    /// Drops `s` from the map, if present.
    #[verifier::rlimit(60)]
    pub fn remove(&mut self, s: &String)
        requires
            old(self).wf(),
        ensures
            final(self).wf(),
            final(self)@ == old(self)@.remove(s@),
    {
        let h = hash_text(s.as_str());
        let ghost old_buckets = self.buckets@;
        match self.buckets.remove(&h) {
            None => {
                assert(self.buckets@ =~= old_buckets);
                assert(!self@.contains_key(s@));
                assert(self@.remove(s@) =~= self@);
            },
            Some(mut b) => {
                assert(b@ == old_buckets[h]@);
                let mut i: usize = 0;
                let mut found = false;
                while i < b.len() && !found
                    invariant
                        old_buckets.contains_key(h),
                        b@ == old_buckets[h]@,
                        0 <= i <= b@.len(),
                        forall|j: int| 0 <= j < i ==> b@[j].0@ != s@,
                        found ==> i < b@.len() && b@[i as int].0@ == s@,
                    decreases b@.len() - i + (if found { 0int } else { 1int }),
                {
                    if b[i].0 == *s {
                        found = true;
                    } else {
                        i += 1;
                    }
                }
                if found {
                    b.remove(i);
                }
                let ghost nb = b@;
                self.buckets.insert(h, b);
                self.contents = Ghost(self.contents@.remove(s@));
                proof {
                    assert(self.buckets@ == old_buckets.insert(h, self.buckets@[h]));
                    assert(self.buckets@[h]@ == nb);
                    if !found {
                        assert(nb == old_buckets[h]@);
                        if old(self)@.contains_key(s@) {
                            let k = choose|k: int|
                                0 <= k < old_buckets[text_hash(s@)]@.len()
                                    && #[trigger] old_buckets[text_hash(s@)]@[k].0@ == s@;
                            assert(nb[k].0@ != s@);
                        }
                    }
                    assert forall|h2: u64, k: int|
                        #![trigger self.buckets@[h2]@[k]]
                        self.buckets@.contains_key(h2) && 0 <= k < self.buckets@[h2]@.len() implies {
                        let e = self.buckets@[h2]@[k];
                        &&& text_hash(e.0@) == h2
                        &&& self.contents@.contains_key(e.0@)
                        &&& self.contents@[e.0@] == e.1
                    } by {
                        if h2 == h {
                            let k0 = if found && k >= i { k + 1 } else { k };
                            assert(self.buckets@[h2]@[k] == old_buckets[h]@[k0]);
                            if found {
                                assert(k0 != i);
                                assert(old_buckets[h]@[k0].0@ != old_buckets[h]@[i as int].0@);
                            }
                        }
                    }
                    assert forall|t: Seq<char>| #[trigger] self.contents@.contains_key(t) implies
                        self.buckets@.contains_key(text_hash(t)) && exists|k: int|
                        0 <= k < self.buckets@[text_hash(t)]@.len() && #[trigger] self.buckets@[text_hash(
                            t,
                        )]@[k].0@ == t by {
                        let k = choose|k: int|
                            0 <= k < old_buckets[text_hash(t)]@.len()
                                && #[trigger] old_buckets[text_hash(t)]@[k].0@ == t;
                        if text_hash(t) == h && found {
                            assert(k != i);
                            if k < i {
                                assert(self.buckets@[h]@[k].0@ == t);
                            } else {
                                assert(self.buckets@[h]@[k - 1].0@ == t);
                            }
                        } else {
                            assert(self.buckets@[text_hash(t)]@[k].0@ == t);
                        }
                    }
                    assert forall|h2: u64, k: int, l: int|
                        #![trigger self.buckets@[h2]@[k], self.buckets@[h2]@[l]]
                        self.buckets@.contains_key(h2) && 0 <= k < self.buckets@[h2]@.len() && 0
                            <= l < self.buckets@[h2]@.len() && k != l implies self.buckets@[h2]@[k].0@
                        != self.buckets@[h2]@[l].0@ by {
                        if h2 == h {
                            let k0 = if found && k >= i { k + 1 } else { k };
                            let l0 = if found && l >= i { l + 1 } else { l };
                            assert(self.buckets@[h2]@[k] == old_buckets[h]@[k0]);
                            assert(self.buckets@[h2]@[l] == old_buckets[h]@[l0]);
                        }
                    }
                }
            },
        }
    }
}

spec fn texts_differ(a: Seq<char>, b: Seq<char>) -> bool {
    a != b
}

} // verus!
