//! The in-memory snapshot that selection runs on: an arena of stable file
//! identities with secondary maps of attributes, refreshed from the latest
//! listing.

use crate::arena::{
    arena_insert, arena_insert_count, arena_insert_limit, arena_issued, arena_key_list, arena_keys,
    arena_new, arena_remove, KeyArena,
};
use crate::catalog::{Catalog, RowView};
use crate::data::{RelativePath, UnixTimestamp};
use crate::index::TextIndex;
use std::collections::hash_map::RandomState;
use std::collections::{HashMap, HashSet};
use vstd::prelude::*;
use vstd::std_specs::hash::{builds_valid_hashers, obeys_key_model};

verus! {

broadcast use vstd::std_specs::hash::group_hash_axioms;

/// A file identity, minted by the snapshot's arena.
#[derive(Debug, PartialEq, Eq, Structural, Clone, Copy, Hash)]
pub struct FileKey(pub u64);

/// Which of a file's times a filter looks at.
#[derive(Debug, PartialEq, Eq, Structural, Clone, Copy)]
pub enum TimeKind {
    Mtime,
    Atime,
    Ctime,
}

/// A file's access, modification and status-change times.
#[derive(Debug, PartialEq, Eq, Structural, Clone, Copy)]
pub struct Time {
    pub atime: UnixTimestamp,
    pub mtime: UnixTimestamp,
    pub ctime: UnixTimestamp,
}

impl Time {
    pub open spec fn spec_select(&self, kind: TimeKind) -> UnixTimestamp {
        match kind {
            TimeKind::Mtime => self.mtime,
            TimeKind::Atime => self.atime,
            TimeKind::Ctime => self.ctime,
        }
    }

    pub fn select(&self, kind: TimeKind) -> (r: UnixTimestamp)
        ensures
            r == self.spec_select(kind),
    {
        match kind {
            TimeKind::Mtime => self.mtime,
            TimeKind::Atime => self.atime,
            TimeKind::Ctime => self.ctime,
        }
    }
}

/// Which secondary maps a filter reads.
#[derive(Debug, PartialEq, Eq, Structural, Clone, Copy)]
pub struct StorageFlags {
    pub relapath: bool,
    pub filetime: bool,
}

impl StorageFlags {
    pub fn none() -> (r: StorageFlags)
        ensures
            !r.relapath && !r.filetime,
    {
        StorageFlags { relapath: false, filetime: false }
    }

    pub fn relapath() -> (r: StorageFlags)
        ensures
            r.relapath && !r.filetime,
    {
        StorageFlags { relapath: true, filetime: false }
    }

    pub fn filetime() -> (r: StorageFlags)
        ensures
            !r.relapath && r.filetime,
    {
        StorageFlags { relapath: false, filetime: true }
    }
}

/// The snapshot as values.
pub struct StorageView {
    /// The live identities.
    pub keys: Set<u64>,
    pub path_of: Map<u64, Seq<char>>,
    pub time_of: Map<u64, Time>,
    pub tags_of: Map<u64, Set<i64>>,
    /// The identity of each relative path.
    pub key_of: Map<Seq<char>, u64>,
    /// Every identity ever minted, live or retired.
    pub issued: Set<u64>,
    /// How many identities were ever minted.
    pub minted: nat,
}

/// Every live identity has an entry in each secondary map, no other
/// identity has one, and paths and identities correspond one to one.
pub open spec fn view_wf(v: StorageView) -> bool {
    &&& v.keys.finite()
    &&& v.keys.subset_of(v.issued)
    &&& v.path_of.dom() == v.keys
    &&& v.time_of.dom() == v.keys
    &&& v.tags_of.dom() == v.keys
    &&& forall|p: Seq<char>| #[trigger]
        v.key_of.contains_key(p) ==> v.keys.contains(v.key_of[p]) && v.path_of[v.key_of[p]] == p
    &&& forall|k: u64| #[trigger]
        v.keys.contains(k) ==> v.key_of.contains_key(v.path_of[k]) && v.key_of[v.path_of[k]] == k
}

/// The paths of a listing.
pub open spec fn listing_paths(l: Seq<(Seq<char>, Time)>) -> Set<Seq<char>> {
    Set::new(|p: Seq<char>| exists|i: int| 0 <= i < l.len() && #[trigger] l[i].0 == p)
}

/// Whether `t` is the time of the first entry of the listing for `p`.
pub open spec fn first_time(l: Seq<(Seq<char>, Time)>, p: Seq<char>, t: Time) -> bool {
    exists|i: int|
        0 <= i < l.len() && #[trigger] l[i].0 == p && l[i].1 == t && forall|j: int|
            0 <= j < i ==> l[j].0 != p
}

/// The tags that a catalog gives a path: those of its row, or none.
pub open spec fn catalog_tags(rows: Map<Seq<char>, RowView>, p: Seq<char>) -> Set<i64> {
    if rows.contains_key(p) {
        rows[p].tags
    } else {
        Set::empty()
    }
}

/// What a refresh from `s0` with listing `l` and catalog rows `rows` makes:
/// the listed paths and no others; a path already present keeps its
/// identity and attributes; a new path gets an identity that was not live,
/// the catalog's tags and its first listed time. No identity is ever minted
/// twice.
pub open spec fn refreshed(
    s0: StorageView,
    s1: StorageView,
    l: Seq<(Seq<char>, Time)>,
    rows: Map<Seq<char>, RowView>,
) -> bool {
    &&& view_wf(s1)
    &&& s1.key_of.dom() == listing_paths(l)
    &&& s0.issued.subset_of(s1.issued)
    &&& s1.minted <= s0.minted + l.len()
    &&& forall|p: Seq<char>| #[trigger]
        s1.key_of.contains_key(p) && s0.key_of.contains_key(p) ==> {
            let k = s0.key_of[p];
            &&& s1.key_of[p] == k
            &&& s1.path_of[k] == s0.path_of[k]
            &&& s1.time_of[k] == s0.time_of[k]
            &&& s1.tags_of[k] == s0.tags_of[k]
        }
    &&& forall|p: Seq<char>| #[trigger]
        s1.key_of.contains_key(p) && !s0.key_of.contains_key(p) ==> {
            let k = s1.key_of[p];
            &&& !s0.keys.contains(k)
            &&& !s0.issued.contains(k)
            &&& s1.tags_of[k] == catalog_tags(rows, p)
            &&& first_time(l, p, s1.time_of[k])
        }
}

pub struct Storage {
    paths: KeyArena,
    relative_paths: HashMap<u64, RelativePath>,
    times: HashMap<u64, Time>,
    tags: HashMap<u64, Vec<i64>>,
    relative_keys: TextIndex,
    minted: u64,
}

impl View for Storage {
    type V = StorageView;

    closed spec fn view(&self) -> StorageView {
        StorageView {
            keys: arena_keys(self.paths),
            path_of: self.relative_paths@.map_values(|p: RelativePath| p@),
            time_of: self.times@,
            tags_of: self.tags@.map_values(|t: Vec<i64>| t@.to_set()),
            key_of: self.relative_keys@,
            issued: arena_issued(self.paths),
            minted: arena_insert_count(self.paths),
        }
    }
}

impl Storage {
    pub closed spec fn wf(&self) -> bool {
        &&& view_wf(self@)
        &&& self.relative_keys.wf()
        &&& self.minted as nat == arena_insert_count(self.paths)
        &&& obeys_key_model::<u64>()
        &&& builds_valid_hashers::<RandomState>()
    }

    pub fn new() -> (r: Storage)
        ensures
            r.wf(),
            r@.keys == Set::<u64>::empty(),
            r@.key_of == Map::<Seq<char>, u64>::empty(),
            r@.minted == 0,
    {
        let r = Storage {
            paths: arena_new(),
            relative_paths: HashMap::new(),
            times: HashMap::new(),
            tags: HashMap::new(),
            relative_keys: TextIndex::new(),
            minted: 0,
        };
        assert(r@.path_of.dom() =~= r@.keys);
        assert(r@.time_of.dom() =~= r@.keys);
        assert(r@.tags_of.dom() =~= r@.keys);
        r
    }
    /// Mints an identity for a path that has none.
    fn mint(&mut self, path: &RelativePath, time: Time, tags: Vec<i64>) -> (k: u64)
        requires
            old(self).wf(),
            !old(self)@.key_of.contains_key(path@),
            old(self)@.keys.len() < u32::MAX - 1,
            old(self)@.minted < arena_insert_limit(),
        ensures
            final(self).wf(),
            !old(self)@.keys.contains(k),
            !old(self)@.issued.contains(k),
            final(self)@.issued == old(self)@.issued.insert(k),
            final(self)@.minted == old(self)@.minted + 1,
            final(self)@.keys == old(self)@.keys.insert(k),
            final(self)@.path_of == old(self)@.path_of.insert(k, path@),
            final(self)@.time_of == old(self)@.time_of.insert(k, time),
            final(self)@.tags_of == old(self)@.tags_of.insert(k, tags@.to_set()),
            final(self)@.key_of == old(self)@.key_of.insert(path@, k),
    {
        let k = arena_insert(&mut self.paths);
        self.minted = self.minted + 1;
        let ghost tag_set = tags@.to_set();
        self.tags.insert(k, tags);
        self.relative_keys.insert(path.as_string().clone(), k);
        self.relative_paths.insert(k, path.copy());
        self.times.insert(k, time);
        proof {
            let v0 = old(self)@;
            let v = self@;
            assert(v.path_of =~= v0.path_of.insert(k, path@));
            assert(v.tags_of =~= v0.tags_of.insert(k, tag_set));
            assert(v.path_of.dom() =~= v.keys);
            assert(v.time_of.dom() =~= v.keys);
            assert(v.tags_of.dom() =~= v.keys);
            assert forall|p: Seq<char>| #[trigger] v.key_of.contains_key(p) implies v.keys.contains(
                v.key_of[p],
            ) && v.path_of[v.key_of[p]] == p by {
                if p != path@ {
                    assert(v0.key_of.contains_key(p));
                    assert(v0.keys.contains(v0.key_of[p]));
                }
            }
            assert forall|j: u64| #[trigger] v.keys.contains(j) implies v.key_of.contains_key(
                v.path_of[j],
            ) && v.key_of[v.path_of[j]] == j by {
                if j != k {
                    assert(v0.keys.contains(j));
                    assert(v0.key_of.contains_key(v0.path_of[j]));
                    assert(v0.path_of[j] != path@);
                }
            }
        }
        k
    }

    /// Retires a live identity: it leaves the arena and every map.
    fn retire(&mut self, k: u64)
        requires
            old(self).wf(),
            old(self)@.keys.contains(k),
        ensures
            final(self).wf(),
            final(self)@.issued == old(self)@.issued,
            final(self)@.minted == old(self)@.minted,
            final(self)@.keys == old(self)@.keys.remove(k),
            final(self)@.path_of == old(self)@.path_of.remove(k),
            final(self)@.time_of == old(self)@.time_of.remove(k),
            final(self)@.tags_of == old(self)@.tags_of.remove(k),
            final(self)@.key_of == old(self)@.key_of.remove(old(self)@.path_of[k]),
    {
        arena_remove(&mut self.paths, k);
        self.times.remove(&k);
        self.tags.remove(&k);
        match self.relative_paths.remove(&k) {
            Some(path) => {
                self.relative_keys.remove(path.as_string());
            },
            None => {},
        }
        proof {
            let v0 = old(self)@;
            let v = self@;
            let p = v0.path_of[k];
            assert(old(self).relative_paths@.contains_key(k));
            assert(v.path_of =~= v0.path_of.remove(k));
            assert(v.tags_of =~= v0.tags_of.remove(k));
            assert(v.key_of == v0.key_of.remove(p));
            assert(v.path_of.dom() =~= v.keys);
            assert(v.time_of.dom() =~= v.keys);
            assert(v.tags_of.dom() =~= v.keys);
            assert forall|q: Seq<char>| #[trigger] v.key_of.contains_key(q) implies v.keys.contains(
                v.key_of[q],
            ) && v.path_of[v.key_of[q]] == q by {
                assert(v0.key_of.contains_key(q));
                assert(v0.key_of[q] != k);
            }
            assert forall|j: u64| #[trigger] v.keys.contains(j) implies v.key_of.contains_key(
                v.path_of[j],
            ) && v.key_of[v.path_of[j]] == j by {
                assert(v0.keys.contains(j));
                assert(v0.key_of.contains_key(v0.path_of[j]));
                assert(v0.path_of[j] != p);
            }
        }
    }
    /// Refreshes the snapshot from a listing: a path already present keeps
    /// its identity; a new path gets a new identity, with its tags from the
    /// catalog; an identity whose path is not listed is retired from every
    /// map. Runs in time linear in the listing plus the snapshot.
    #[verifier::rlimit(80)]
    pub fn refresh(&mut self, listing: &Vec<(RelativePath, Time)>, catalog: &Catalog)
        requires
            old(self).wf(),
            catalog.wf(),
            old(self)@.keys.len() + listing@.len() < u32::MAX - 1,
            old(self)@.minted + listing@.len() <= arena_insert_limit(),
        ensures
            final(self).wf(),
            refreshed(old(self)@, final(self)@, entries_view(listing@), catalog.rows()),
    {
        let ghost s0 = self@;
        let ghost l = entries_view(listing@);
        let mut visited: HashSet<u64> = HashSet::new();
        let mut i: usize = 0;
        while i < listing.len()
            invariant
                self.wf(),
                catalog.wf(),
                s0 == old(self)@,
                view_wf(s0),
                l == entries_view(listing@),
                0 <= i <= listing@.len(),
                self@.keys.len() <= s0.keys.len() + i,
                s0.keys.len() + listing@.len() < u32::MAX - 1,
                self@.minted <= s0.minted + i,
                s0.minted + listing@.len() <= arena_insert_limit(),
                s0.issued.subset_of(self@.issued),
                forall|p: Seq<char>| #[trigger]
                    self@.key_of.contains_key(p) <==> s0.key_of.contains_key(p) || listing_paths(
                        l.subrange(0, i as int),
                    ).contains(p),
                forall|p: Seq<char>| #[trigger]
                    s0.key_of.contains_key(p) ==> {
                        let k = s0.key_of[p];
                        &&& self@.key_of[p] == k
                        &&& self@.path_of[k] == s0.path_of[k]
                        &&& self@.time_of[k] == s0.time_of[k]
                        &&& self@.tags_of[k] == s0.tags_of[k]
                    },
                forall|p: Seq<char>| #[trigger]
                    self@.key_of.contains_key(p) && !s0.key_of.contains_key(p) ==> {
                        let k = self@.key_of[p];
                        &&& !s0.keys.contains(k)
                        &&& !s0.issued.contains(k)
                        &&& self@.tags_of[k] == catalog_tags(catalog.rows(), p)
                        &&& first_time(l, p, self@.time_of[k])
                    },
                forall|k: u64| #[trigger]
                    visited@.contains(k) <==> self@.keys.contains(k) && listing_paths(
                        l.subrange(0, i as int),
                    ).contains(self@.path_of[k]),
            decreases listing@.len() - i,
        {
            let ghost before = self@;
            let ghost prefix = l.subrange(0, i as int);
            let ghost p = l[i as int].0;
            proof {
                lemma_listing_paths_push(l, i as int);
                assert(l[i as int] == (listing@[i as int].0@, listing@[i as int].1));
            }
            let entry = &listing[i];
            match self.relative_keys.get(entry.0.as_string()) {
                Some(k) => {
                    visited.insert(k);
                    proof {
                        assert(self@.key_of.contains_key(p) && self@.key_of[p] == k);
                        assert(self@.keys.contains(k) && self@.path_of[k] == p);
                        assert forall|j: u64| #[trigger]
                            visited@.contains(j) <==> self@.keys.contains(j) && listing_paths(
                                l.subrange(0, i + 1),
                            ).contains(self@.path_of[j]) by {
                            if self@.keys.contains(j) && self@.path_of[j] == p {
                                assert(self@.key_of[self@.path_of[j]] == j);
                            }
                        }
                    }
                },
                None => {
                    let tags = catalog.get_path_tags(&entry.0);
                    proof {
                        if !catalog.rows().contains_key(p) {
                            assert(tags@.to_set() =~= Set::<i64>::empty());
                        }
                    }
                    let k = self.mint(&entry.0, entry.1, tags);
                    visited.insert(k);
                    proof {
                        assert(!s0.key_of.contains_key(p));
                        assert forall|k0: u64| s0.keys.contains(k0) implies before.keys.contains(k0) by {
                            assert(s0.key_of.contains_key(s0.path_of[k0]));
                            assert(before.key_of[s0.path_of[k0]] == k0);
                            assert(before.key_of.contains_key(s0.path_of[k0]));
                        }
                        assert(!s0.keys.contains(k));
                        assert forall|j: int| 0 <= j < i implies l[j].0 != p by {
                            if l[j].0 == p {
                                assert(prefix[j].0 == p);
                                assert(listing_paths(prefix).contains(p));
                            }
                        }
                        assert(first_time(l, p, self@.time_of[k]));
                        assert forall|q: Seq<char>| #[trigger]
                            s0.key_of.contains_key(q) implies self@.key_of[q] == s0.key_of[q]
                            && self@.path_of[s0.key_of[q]] == s0.path_of[s0.key_of[q]]
                            && self@.time_of[s0.key_of[q]] == s0.time_of[s0.key_of[q]]
                            && self@.tags_of[s0.key_of[q]] == s0.tags_of[s0.key_of[q]] by {
                            assert(before.key_of.contains_key(q));
                            assert(before.keys.contains(before.key_of[q]));
                        }
                        assert forall|q: Seq<char>| #[trigger]
                            self@.key_of.contains_key(q) && !s0.key_of.contains_key(q) implies {
                            let j = self@.key_of[q];
                            &&& !s0.keys.contains(j)
                            &&& !s0.issued.contains(j)
                            &&& self@.tags_of[j] == catalog_tags(catalog.rows(), q)
                            &&& first_time(l, q, self@.time_of[j])
                        } by {
                            if q != p {
                                assert(before.key_of.contains_key(q));
                                assert(before.keys.contains(before.key_of[q]));
                                assert(before.key_of[q] != k);
                                assert(self@.key_of[q] == before.key_of[q]);
                            } else {
                                assert(self@.key_of[q] == k);
                            }
                        }
                        assert forall|j: u64| #[trigger]
                            visited@.contains(j) <==> self@.keys.contains(j) && listing_paths(
                                l.subrange(0, i + 1),
                            ).contains(self@.path_of[j]) by {
                            if self@.keys.contains(j) && self@.path_of[j] == p {
                                assert(self@.key_of[self@.path_of[j]] == j);
                            }
                            if j != k && before.keys.contains(j) {
                                assert(self@.path_of[j] == before.path_of[j]);
                            }
                        }
                    }
                },
            }
            i += 1;
        }
        assert(l.subrange(0, listing@.len() as int) =~= l);
        let ghost mid = self@;
        let all = arena_key_list(&self.paths);
        let mut j: usize = 0;
        while j < all.len()
            invariant
                self.wf(),
                all@.to_set() == mid.keys,
                all@.no_duplicates(),
                view_wf(mid),
                self@.issued == mid.issued,
                self@.minted == mid.minted,
                0 <= j <= all@.len(),
                forall|k: u64| #[trigger]
                    visited@.contains(k) <==> mid.keys.contains(k) && listing_paths(l).contains(
                        mid.path_of[k],
                    ),
                forall|k: u64| #[trigger]
                    self@.keys.contains(k) <==> mid.keys.contains(k) && (visited@.contains(k)
                        || !all@.subrange(0, j as int).contains(k)),
                forall|k: u64| #[trigger]
                    self@.keys.contains(k) ==> self@.path_of[k] == mid.path_of[k]
                        && self@.time_of[k] == mid.time_of[k] && self@.tags_of[k] == mid.tags_of[k],
                forall|p: Seq<char>| #[trigger]
                    self@.key_of.contains_key(p) <==> mid.key_of.contains_key(p) && self@.keys.contains(
                        mid.key_of[p],
                    ),
                forall|p: Seq<char>| #[trigger]
                    self@.key_of.contains_key(p) ==> self@.key_of[p] == mid.key_of[p],
            decreases all@.len() - j,
        {
            let k = all[j];
            let ghost before = self@;
            proof {
                assert(all@.to_set().contains(k));
                if all@.subrange(0, j as int).contains(k) {
                    let m = choose|m: int| 0 <= m < j && all@.subrange(0, j as int)[m] == k;
                    assert(all@[m] == all@[j as int]);
                }
                assert forall|x: u64| #[trigger] all@.subrange(0, j + 1).contains(x) <==> all@.subrange(0, j as int).contains(x) || x == k by {
                    lemma_prefix_contains(all@, j as int, x);
                }
                if visited@.contains(k) {
                    assert(self@.keys.contains(k));
                } else {
                    assert(before.keys.contains(k));
                }
            }
            if !visited.contains(&k) {
                self.retire(k);
                proof {
                    assert(before.path_of[k] == mid.path_of[k]);
                    assert forall|p: Seq<char>| #[trigger]
                        self@.key_of.contains_key(p) <==> mid.key_of.contains_key(p)
                            && self@.keys.contains(mid.key_of[p]) by {
                        if mid.key_of.contains_key(p) && mid.key_of[p] == k {
                            assert(mid.path_of[k] == p);
                        }
                        if before.key_of.contains_key(p) && p != mid.path_of[k] {
                            assert(before.key_of[p] == mid.key_of[p]);
                            assert(mid.path_of[mid.key_of[p]] == p);
                        }
                    }
                }
            }
            j += 1;
        }
        proof {
            assert(all@.subrange(0, all@.len() as int) =~= all@);
            let s1 = self@;
            assert forall|k: u64| self@.keys.contains(k) implies visited@.contains(k) by {
                assert(all@.to_set().contains(k));
            }
            assert forall|p: Seq<char>| #[trigger] s1.key_of.contains_key(p) <==> listing_paths(l).contains(p) by {
                if listing_paths(l).contains(p) {
                    assert(mid.key_of.contains_key(p));
                    assert(mid.keys.contains(mid.key_of[p]));
                    assert(mid.path_of[mid.key_of[p]] == p);
                    assert(all@.to_set().contains(mid.key_of[p]));
                }
                if s1.key_of.contains_key(p) {
                    assert(visited@.contains(mid.key_of[p]));
                    assert(mid.path_of[mid.key_of[p]] == p);
                }
            }
            assert(s1.key_of.dom() =~= listing_paths(l));
            assert forall|p: Seq<char>| #[trigger]
                s1.key_of.contains_key(p) && s0.key_of.contains_key(p) implies {
                let k = s0.key_of[p];
                &&& s1.key_of[p] == k
                &&& s1.path_of[k] == s0.path_of[k]
                &&& s1.time_of[k] == s0.time_of[k]
                &&& s1.tags_of[k] == s0.tags_of[k]
            } by {
                assert(mid.key_of.contains_key(p));
            }
            assert forall|p: Seq<char>| #[trigger]
                s1.key_of.contains_key(p) && !s0.key_of.contains_key(p) implies {
                let k = s1.key_of[p];
                &&& !s0.keys.contains(k)
                &&& !s0.issued.contains(k)
                &&& s1.tags_of[k] == catalog_tags(catalog.rows(), p)
                &&& first_time(l, p, s1.time_of[k])
            } by {
                assert(mid.key_of.contains_key(p));
            }
        }
    }

    /// The live identities.
    pub fn keys(&self) -> (r: Vec<FileKey>)
        requires
            self.wf(),
        ensures
            r@.len() == self@.keys.len(),
            forall|i: int| 0 <= i < r@.len() ==> self@.keys.contains(#[trigger] r@[i].0),
            forall|k: u64| self@.keys.contains(k) ==> exists|i: int| 0 <= i < r@.len() && #[trigger] r@[i].0 == k,
            forall|i: int, j: int| 0 <= i < r@.len() && 0 <= j < r@.len() && i != j ==> r@[i] != r@[j],
    {
        let all = arena_key_list(&self.paths);
        let mut r: Vec<FileKey> = Vec::new();
        let mut i: usize = 0;
        while i < all.len()
            invariant
                0 <= i <= all@.len(),
                r@.len() == i,
                forall|j: int| 0 <= j < i ==> r@[j].0 == all@[j],
            decreases all@.len() - i,
        {
            r.push(FileKey(all[i]));
            i += 1;
        }
        proof {
            all@.unique_seq_to_set();
            assert forall|k: u64| self@.keys.contains(k) implies exists|i: int| 0 <= i < r@.len() && #[trigger] r@[i].0 == k by {
                assert(all@.to_set().contains(k));
                let j = choose|j: int| 0 <= j < all@.len() && all@[j] == k;
                assert(r@[j].0 == k);
            }
            assert forall|i: int| 0 <= i < r@.len() implies self@.keys.contains(#[trigger] r@[i].0) by {
                assert(all@.to_set().contains(all@[i]));
            }
            assert forall|i: int, j: int| 0 <= i < r@.len() && 0 <= j < r@.len() && i != j implies r@[i] != r@[j] by {
                assert(all@[i] != all@[j]);
            }
        }
        r
    }
    /// A well-formed snapshot's view is well formed.
    pub proof fn lemma_view_wf(&self)
        requires
            self.wf(),
        ensures
            view_wf(self@),
    {
    }

    /// How many identities were ever minted.
    pub fn minted(&self) -> (r: u64)
        requires
            self.wf(),
        ensures
            r == self@.minted,
    {
        self.minted
    }

    /// The relative path of an identity; none for one that is not live.
    pub fn relative_path(&self, key: FileKey) -> (r: Option<&RelativePath>)
        requires
            self.wf(),
        ensures
            r is None <==> !self@.keys.contains(key.0),
            r matches Some(p) ==> p@ == self@.path_of[key.0],
    {
        self.relative_paths.get(&key.0)
    }

    /// The times of an identity; none for one that is not live.
    pub fn time(&self, key: FileKey) -> (r: Option<Time>)
        requires
            self.wf(),
        ensures
            r is None <==> !self@.keys.contains(key.0),
            r matches Some(t) ==> t == self@.time_of[key.0],
    {
        match self.times.get(&key.0) {
            Some(t) => Some(*t),
            None => None,
        }
    }

    /// Whether a live identity carries the tag with id `tag`.
    pub fn has_tag(&self, key: FileKey, tag: i64) -> (r: bool)
        requires
            self.wf(),
        ensures
            r == (self@.keys.contains(key.0) && self@.tags_of[key.0].contains(tag)),
    {
        match self.tags.get(&key.0) {
            None => false,
            Some(ids) => {
                assert(self.tags@.contains_key(key.0) && self.tags@[key.0] == *ids);
                assert(self@.tags_of.contains_key(key.0));
                assert(self@.tags_of[key.0] == ids@.to_set());
                let mut i: usize = 0;
                while i < ids.len()
                    invariant
                        self@.keys.contains(key.0),
                        self@.tags_of[key.0] == ids@.to_set(),
                        0 <= i <= ids@.len(),
                        forall|j: int| 0 <= j < i ==> ids@[j] != tag,
                    decreases ids@.len() - i,
                {
                    if ids[i] == tag {
                        assert(ids@.to_set().contains(ids@[i as int]));
                        return true;
                    }
                    i += 1;
                }
                proof {
                    if ids@.to_set().contains(tag) {
                        let j = choose|j: int| 0 <= j < ids@.len() && ids@[j] == tag;
                    }
                }
                false
            },
        }
    }
}

/// Identity stability: a path listed by two successive refreshes has the
/// same identity after both.
pub proof fn lemma_identity_stable(
    s0: StorageView,
    s1: StorageView,
    s2: StorageView,
    l1: Seq<(Seq<char>, Time)>,
    l2: Seq<(Seq<char>, Time)>,
    rows1: Map<Seq<char>, RowView>,
    rows2: Map<Seq<char>, RowView>,
    p: Seq<char>,
)
    requires
        refreshed(s0, s1, l1, rows1),
        refreshed(s1, s2, l2, rows2),
        listing_paths(l1).contains(p),
        listing_paths(l2).contains(p),
    ensures
        s1.key_of.contains_key(p),
        s2.key_of.contains_key(p),
        s2.key_of[p] == s1.key_of[p],
{
    assert(s1.key_of.contains_key(p));
    assert(s2.key_of.contains_key(p));
}

/// Eviction: a path that a refresh no longer lists has no identity after
/// it, and its former identity has no entry left in any map.
pub proof fn lemma_eviction(
    s1: StorageView,
    s2: StorageView,
    l2: Seq<(Seq<char>, Time)>,
    rows: Map<Seq<char>, RowView>,
    p: Seq<char>,
)
    requires
        view_wf(s1),
        refreshed(s1, s2, l2, rows),
        s1.key_of.contains_key(p),
        !listing_paths(l2).contains(p),
    ensures
        !s2.key_of.contains_key(p),
        !s2.keys.contains(s1.key_of[p]),
        !s2.path_of.contains_key(s1.key_of[p]),
        !s2.time_of.contains_key(s1.key_of[p]),
        !s2.tags_of.contains_key(s1.key_of[p]),
{
    let k = s1.key_of[p];
    if s2.keys.contains(k) {
        let q = s2.path_of[k];
        assert(s2.key_of.contains_key(q) && s2.key_of[q] == k);
        if s1.key_of.contains_key(q) {
            assert(s1.key_of[q] == k);
            assert(s1.path_of[k] == q);
            assert(s1.path_of[k] == p);
        } else {
            assert(s1.keys.contains(k));
        }
    }
}

/// A listing as paths with times.
pub open spec fn entries_view(l: Seq<(RelativePath, Time)>) -> Seq<(Seq<char>, Time)> {
    l.map_values(|e: (RelativePath, Time)| (e.0@, e.1))
}

/// No resurrection: a path dropped by one refresh and listed again by a
/// later one gets an identity that differs from the one it had before.
pub proof fn lemma_no_resurrection(
    s0: StorageView,
    s1: StorageView,
    s2: StorageView,
    l1: Seq<(Seq<char>, Time)>,
    l2: Seq<(Seq<char>, Time)>,
    rows1: Map<Seq<char>, RowView>,
    rows2: Map<Seq<char>, RowView>,
    p: Seq<char>,
)
    requires
        view_wf(s0),
        refreshed(s0, s1, l1, rows1),
        refreshed(s1, s2, l2, rows2),
        s0.key_of.contains_key(p),
        !listing_paths(l1).contains(p),
        listing_paths(l2).contains(p),
    ensures
        s2.key_of.contains_key(p),
        s2.key_of[p] != s0.key_of[p],
{
    assert(s0.keys.contains(s0.key_of[p]));
    assert(s1.issued.contains(s0.key_of[p]));
    assert(!s1.key_of.contains_key(p));
    assert(s2.key_of.contains_key(p));
}

/// An element is in a longer prefix when it is in the shorter one or is
/// the element added.
pub proof fn lemma_prefix_contains(s: Seq<u64>, j: int, x: u64)
    requires
        0 <= j < s.len(),
    ensures
        s.subrange(0, j + 1).contains(x) <==> s.subrange(0, j).contains(x) || s[j] == x,
{
    let a = s.subrange(0, j + 1);
    let b = s.subrange(0, j);
    if a.contains(x) {
        let m = choose|m: int| 0 <= m < a.len() && a[m] == x;
        if m < j {
            assert(b[m] == x);
        }
    }
    if b.contains(x) {
        let m = choose|m: int| 0 <= m < b.len() && b[m] == x;
        assert(a[m] == x);
    }
    if s[j] == x {
        assert(a[j] == x);
    }
}

/// One more entry adds its path to the listed paths.
pub proof fn lemma_listing_paths_push(l: Seq<(Seq<char>, Time)>, i: int)
    requires
        0 <= i < l.len(),
    ensures
        listing_paths(l.subrange(0, i + 1)) == listing_paths(l.subrange(0, i)).insert(l[i].0),
{
    let a = l.subrange(0, i + 1);
    let b = l.subrange(0, i);
    assert forall|p: Seq<char>| listing_paths(a).contains(p) <==> listing_paths(b).insert(l[i].0).contains(p) by {
        if listing_paths(a).contains(p) {
            let j = choose|j: int| 0 <= j < a.len() && #[trigger] a[j].0 == p;
            if j < i {
                assert(b[j].0 == p);
            }
        }
        if listing_paths(b).contains(p) {
            let j = choose|j: int| 0 <= j < b.len() && #[trigger] b[j].0 == p;
            assert(a[j].0 == p);
        }
        if p == l[i].0 {
            assert(a[i].0 == p);
        }
    }
    assert(listing_paths(a) =~= listing_paths(b).insert(l[i].0));
}

} // verus!
