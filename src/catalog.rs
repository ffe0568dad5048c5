//! The change-detection store of one root: which relative paths are known,
//! with what timestamps, and which tags each one carries.

use crate::data::{PathId, RelativePath, RootId, Time};
use crate::index::TextIndex;
use vstd::prelude::*;

verus! {

/// What the catalog records of one path.
pub struct RowView {
    pub id: PathId,
    pub time: Time,
    pub tags: Set<i64>,
}

/// A catalog row as held in memory.
pub struct CatalogRow {
    pub id: PathId,
    pub path: RelativePath,
    pub time: Time,
    pub tags: Vec<i64>,
}

impl CatalogRow {
    pub open spec fn row_view(&self) -> RowView {
        RowView { id: self.id, time: self.time, tags: self.tags@.to_set() }
    }
}

#[derive(Debug, PartialEq, Eq, Structural, Clone, Copy)]
pub enum StoreError {
    /// A timestamp update named a path that has no row.
    UnknownPath,
    /// An insert named a path that already has a row.
    DuplicatePath,
    /// A loaded tag name or id is already taken.
    DuplicateTag,
    /// No path id or tag id is left to assign.
    IdsExhausted,
    /// A loaded id is not positive, or is the largest `i64`.
    InvalidId,
}

/// The catalog of one root.
pub struct Catalog {
    root_id: RootId,
    rows: Vec<CatalogRow>,
    by_path: TextIndex,
    tag_names: Vec<String>,
    tag_ids: Vec<i64>,
    by_tag: TextIndex,
    next_path_id: i64,
    next_tag_id: i64,
}

/// The texts of a list of tag names.
pub open spec fn tag_texts(tags: Seq<String>) -> Seq<Seq<char>> {
    tags.map_values(|t: String| t@)
}

/// The tag ids that a list of tag names resolves to in a tag table.
pub open spec fn resolved_tags(names: Seq<Seq<char>>, table: Map<Seq<char>, i64>) -> Set<i64> {
    Set::new(|t: i64| exists|i: int| 0 <= i < names.len() && table[names[i]] == t)
}

impl Catalog {
    pub closed spec fn wf(&self) -> bool {
        &&& self.by_path.wf()
        &&& self.by_tag.wf()
        &&& self.tag_names@.len() == self.tag_ids@.len()
        &&& forall|p: Seq<char>| #[trigger]
            self.by_path@.contains_key(p) ==> self.by_path@[p] < self.rows@.len()
                && self.rows@[self.by_path@[p] as int].path@ == p
        &&& forall|i: int|
            0 <= i < self.rows@.len() ==> self.by_path@.contains_key((#[trigger] self.rows@[i]).path@)
                && self.by_path@[self.rows@[i].path@] == i
        &&& forall|i: int| 0 <= i < self.rows@.len() ==> (#[trigger] self.rows@[i]).path.wf()
        &&& forall|n: Seq<char>| #[trigger]
            self.by_tag@.contains_key(n) ==> self.by_tag@[n] < self.tag_names@.len()
                && self.tag_names@[self.by_tag@[n] as int]@ == n
        &&& forall|i: int|
            0 <= i < self.tag_names@.len() ==> self.by_tag@.contains_key(
                (#[trigger] self.tag_names@[i])@,
            ) && self.by_tag@[self.tag_names@[i]@] == i
        &&& forall|i: int| 0 <= i < self.rows@.len() ==> 0 < (#[trigger] self.rows@[i]).id.0 < self.next_path_id
        &&& forall|i: int| 0 <= i < self.tag_ids@.len() ==> 0 < #[trigger] self.tag_ids@[i] < self.next_tag_id
        &&& 0 < self.next_path_id
        &&& 0 < self.next_tag_id
    }

    /// The rows, by relative path.
    pub closed spec fn rows(&self) -> Map<Seq<char>, RowView> {
        Map::new(
            |p: Seq<char>| self.by_path@.contains_key(p),
            |p: Seq<char>| self.rows@[self.by_path@[p] as int].row_view(),
        )
    }

    /// The tag table: each tag name with its id.
    pub closed spec fn tag_table(&self) -> Map<Seq<char>, i64> {
        Map::new(
            |n: Seq<char>| self.by_tag@.contains_key(n),
            |n: Seq<char>| self.tag_ids@[self.by_tag@[n] as int],
        )
    }

    pub closed spec fn root(&self) -> RootId {
        self.root_id
    }

    /// The id that the next new row gets.
    pub closed spec fn next_path(&self) -> i64 {
        self.next_path_id
    }

    /// The id that the next new tag gets.
    pub closed spec fn next_tag(&self) -> i64 {
        self.next_tag_id
    }

    /// Whether ids are left for one more row carrying `n` new tags.
    pub open spec fn has_room(&self, n: nat) -> bool {
        self.next_path() < i64::MAX && self.next_tag() + n < i64::MAX
    }

    pub fn new(root_id: RootId) -> (r: Catalog)
        ensures
            r.wf(),
            r.root() == root_id,
            r.rows() == Map::<Seq<char>, RowView>::empty(),
            r.tag_table() == Map::<Seq<char>, i64>::empty(),
            r.next_path() == 1,
            r.next_tag() == 1,
    {
        let r = Catalog {
            root_id,
            rows: Vec::new(),
            by_path: TextIndex::new(),
            tag_names: Vec::new(),
            tag_ids: Vec::new(),
            by_tag: TextIndex::new(),
            next_path_id: 1,
            next_tag_id: 1,
        };
        assert(r.rows() =~= Map::<Seq<char>, RowView>::empty());
        assert(r.tag_table() =~= Map::<Seq<char>, i64>::empty());
        r
    }

    pub fn root_id(&self) -> (r: RootId)
        ensures
            r == self.root(),
    {
        self.root_id
    }

    /// The stored timestamps of `path`, if the catalog knows it.
    pub fn lookup(&self, path: &RelativePath) -> (r: Option<Time>)
        requires
            self.wf(),
        ensures
            r == (if self.rows().contains_key(path@) {
                Some(self.rows()[path@].time)
            } else {
                None
            }),
    {
        match self.by_path.get(path.as_string()) {
            None => None,
            Some(i) => {
                assert(self.by_path@.contains_key(path@));
                assert(self.rows().contains_key(path@));
                assert(i == self.by_path@[path@]);
                assert(i < self.rows@.len());
                assert(self.rows()[path@].time == self.rows@[i as int].time);
                let n = self.rows.len();
                assert(i < n);
                let k = i as usize;
                Some(self.rows[k].time)
            },
        }
    }
    /// The position in `rows` of the row of `path`.
    fn position(&self, path: &String) -> (r: Option<usize>)
        requires
            self.wf(),
        ensures
            r is None <==> !self.rows().contains_key(path@),
            r matches Some(i) ==> i < self.rows@.len() && self.by_path@[path@] == i
                && self.rows@[i as int].path@ == path@,
    {
        match self.by_path.get(path) {
            None => None,
            Some(i) => {
                assert(self.by_path@.contains_key(path@));
                let n = self.rows.len();
                assert(i < n);
                Some(i as usize)
            },
        }
    }

    /// Raises the ids that new rows and tags get to at least the given ones,
    /// so that they stay clear of ids that persistent storage already uses
    /// for other roots.
    pub fn reserve_ids(&mut self, next_path: i64, next_tag: i64)
        requires
            old(self).wf(),
        ensures
            final(self).wf(),
            final(self).root() == old(self).root(),
            final(self).rows() == old(self).rows(),
            final(self).tag_table() == old(self).tag_table(),
            final(self).next_path() == if next_path > old(self).next_path() {
                next_path
            } else {
                old(self).next_path()
            },
            final(self).next_tag() == if next_tag > old(self).next_tag() {
                next_tag
            } else {
                old(self).next_tag()
            },
    {
        if next_path > self.next_path_id {
            self.next_path_id = next_path;
        }
        if next_tag > self.next_tag_id {
            self.next_tag_id = next_tag;
        }
        proof {
            assert(self.rows() =~= old(self).rows());
            assert(self.tag_table() =~= old(self).tag_table());
        }
    }

    /// Whether the catalog has a row for `path`.
    pub fn path_exists(&self, path: &RelativePath) -> (r: bool)
        requires
            self.wf(),
        ensures
            r == self.rows().contains_key(path@),
    {
        self.position(path.as_string()).is_some()
    }

    /// Sets the timestamps of a known path; a path without a row is an
    /// error and leaves the catalog as it was.
    pub fn upsert_timestamps(&mut self, path: &RelativePath, time: Time) -> (r: Result<
        (),
        StoreError,
    >)
        requires
            old(self).wf(),
        ensures
            final(self).wf(),
            final(self).root() == old(self).root(),
            final(self).tag_table() == old(self).tag_table(),
            final(self).next_path() == old(self).next_path(),
            final(self).next_tag() == old(self).next_tag(),
            old(self).rows().contains_key(path@) ==> r is Ok && final(self).rows() == old(
                self,
            ).rows().insert(path@, RowView { time, ..old(self).rows()[path@] }),
            !old(self).rows().contains_key(path@) ==> r == Err::<(), _>(StoreError::UnknownPath)
                && *final(self) == *old(self),
    {
        match self.position(path.as_string()) {
            None => Err(StoreError::UnknownPath),
            Some(i) => {
                let ghost old_rows = self.rows@;
                self.rows[i].time = time;
                proof {
                    assert forall|j: int| 0 <= j < self.rows@.len() && j != i implies self.rows@[j]
                        == old_rows[j] by {}
                    assert(self.rows() =~= old(self).rows().insert(
                        path@,
                        RowView { time, ..old(self).rows()[path@] },
                    ));
                    assert(self.tag_table() =~= old(self).tag_table());
                }
                Ok(())
            },
        }
    }
    /// The id of the tag called `name`, if the tag table has one.
    pub fn get_tag_id(&self, name: &String) -> (r: Option<i64>)
        requires
            self.wf(),
        ensures
            r == (if self.tag_table().contains_key(name@) {
                Some(self.tag_table()[name@])
            } else {
                None
            }),
    {
        match self.by_tag.get(name) {
            None => None,
            Some(i) => {
                assert(self.by_tag@.contains_key(name@));
                let n = self.tag_ids.len();
                assert(i < n);
                Some(self.tag_ids[i as usize])
            },
        }
    }

    /// The id of the tag called `name`, added to the tag table if absent.
    fn tag_id_or_insert(&mut self, name: &String) -> (r: i64)
        requires
            old(self).wf(),
            old(self).next_tag() < i64::MAX,
        ensures
            final(self).wf(),
            final(self).rows() == old(self).rows(),
            final(self).root() == old(self).root(),
            final(self).next_path() == old(self).next_path(),
            old(self).next_tag() <= final(self).next_tag() <= old(self).next_tag() + 1,
            final(self).tag_table() == (if old(self).tag_table().contains_key(name@) {
                old(self).tag_table()
            } else {
                old(self).tag_table().insert(name@, r)
            }),
            final(self).tag_table().contains_key(name@),
            final(self).tag_table()[name@] == r,
    {
        match self.get_tag_id(name) {
            Some(id) => id,
            None => {
                let id = self.next_tag_id;
                let pos = self.tag_names.len();
                let ghost old_names = self.tag_names@;
                let ghost old_ids = self.tag_ids@;
                assert(!self.by_tag@.contains_key(name@));
                self.tag_names.push(name.clone());
                self.tag_ids.push(id);
                self.by_tag.insert(name.clone(), pos as u64);
                self.next_tag_id = id + 1;
                proof {
                    assert(self.tag_names@[pos as int]@ == name@);
                    assert forall|n: Seq<char>| #[trigger]
                        self.by_tag@.contains_key(n) implies self.by_tag@[n]
                        < self.tag_names@.len() && self.tag_names@[self.by_tag@[n] as int]@ == n by {
                        if n != name@ {
                            assert(old_names[self.by_tag@[n] as int] == self.tag_names@[self.by_tag@[n] as int]);
                        }
                    }
                    assert forall|i: int|
                        0 <= i < self.tag_names@.len() implies #[trigger] self.by_tag@.contains_key(
                        self.tag_names@[i]@,
                    ) && self.by_tag@[self.tag_names@[i]@] == i by {
                        if i < pos {
                            assert(self.tag_names@[i] == old_names[i]);
                        }
                    }
                    assert forall|i: int| 0 <= i < self.tag_ids@.len() implies 0 < #[trigger] self.tag_ids@[i]
                        < self.next_tag_id by {
                        if i < pos {
                            assert(self.tag_ids@[i] == old_ids[i]);
                        }
                    }
                    assert(self.tag_table() =~= old(self).tag_table().insert(name@, id));
                    assert(self.rows() =~= old(self).rows());
                }
                id
            },
        }
    }
    /// Adds a row for a path that the catalog does not know, with the tags
    /// called `tags`; each tag name is added to the tag table if absent.
    /// A known path, or no ids left, is an error that changes nothing.
    pub fn insert_new(&mut self, path: RelativePath, time: Time, tags: &Vec<String>) -> (r: Result<
        PathId,
        StoreError,
    >)
        requires
            old(self).wf(),
            path.wf(),
        ensures
            final(self).wf(),
            final(self).root() == old(self).root(),
            old(self).rows().contains_key(path@) ==> r == Err::<PathId, _>(
                StoreError::DuplicatePath,
            ) && *final(self) == *old(self),
            !old(self).rows().contains_key(path@) && !old(self).has_room(tags@.len()) ==> r
                == Err::<PathId, _>(StoreError::IdsExhausted) && *final(self) == *old(self),
            !old(self).rows().contains_key(path@) && old(self).has_room(tags@.len()) ==> {
                &&& r == Ok::<_, StoreError>(PathId(old(self).next_path()))
                &&& final(self).rows() == old(self).rows().insert(
                    path@,
                    RowView {
                        id: PathId(old(self).next_path()),
                        time,
                        tags: resolved_tags(tag_texts(tags@), final(self).tag_table()),
                    },
                )
                &&& forall|n: Seq<char>| #[trigger]
                    old(self).tag_table().contains_key(n) ==> final(self).tag_table().contains_key(n)
                        && final(self).tag_table()[n] == old(self).tag_table()[n]
                &&& forall|n: Seq<char>| #[trigger]
                    final(self).tag_table().contains_key(n) <==> old(self).tag_table().contains_key(n)
                        || exists|i: int| 0 <= i < tags@.len() && tags@[i]@ == n
                &&& final(self).next_path() == old(self).next_path() + 1
                &&& final(self).next_tag() <= old(self).next_tag() + tags@.len()
            },
    {
        if self.position(path.as_string()).is_some() {
            return Err(StoreError::DuplicatePath);
        }
        if self.next_path_id == i64::MAX || tags.len() as u64 >= (i64::MAX - self.next_tag_id) as u64 {
            return Err(StoreError::IdsExhausted);
        }
        let ghost start = *self;
        let mut ids: Vec<i64> = Vec::new();
        let mut k: usize = 0;
        while k < tags.len()
            invariant
                self.wf(),
                start.wf(),
                self.rows() == start.rows(),
                self.root() == start.root(),
                self.next_path() == start.next_path(),
                start.next_tag() <= self.next_tag() <= start.next_tag() + k,
                start.next_tag() + tags@.len() < i64::MAX,
                0 <= k <= tags@.len(),
                ids@.len() == k,
                forall|n: Seq<char>| #[trigger]
                    start.tag_table().contains_key(n) ==> self.tag_table().contains_key(n)
                        && self.tag_table()[n] == start.tag_table()[n],
                forall|n: Seq<char>| #[trigger]
                    self.tag_table().contains_key(n) <==> start.tag_table().contains_key(n)
                        || exists|i: int| 0 <= i < k && tags@[i]@ == n,
                forall|j: int|
                    0 <= j < k ==> self.tag_table().contains_key(#[trigger] tags@[j]@)
                        && ids@[j] == self.tag_table()[tags@[j]@],
            decreases tags@.len() - k,
        {
            let ghost before = self.tag_table();
            let id = self.tag_id_or_insert(&tags[k]);
            ids.push(id);
            proof {
                assert forall|n: Seq<char>| #[trigger]
                    self.tag_table().contains_key(n) <==> start.tag_table().contains_key(n)
                        || exists|i: int| 0 <= i < k + 1 && tags@[i]@ == n by {
                    if n == tags@[k as int]@ {
                        assert(0 <= k < k + 1 && tags@[k as int]@ == n);
                    }
                    if !start.tag_table().contains_key(n) && (exists|i: int|
                        0 <= i < k + 1 && tags@[i]@ == n) && n != tags@[k as int]@ {
                        let i = choose|i: int| 0 <= i < k + 1 && tags@[i]@ == n;
                        assert(i < k);
                    }
                }
                assert forall|j: int|
                    0 <= j < k + 1 implies self.tag_table().contains_key(#[trigger] tags@[j]@)
                    && ids@[j] == self.tag_table()[tags@[j]@] by {
                    if j < k {
                        assert(before.contains_key(tags@[j]@));
                    }
                }
            }
            k += 1;
        }
        let ghost table = self.tag_table();
        let id = PathId(self.next_path_id);
        let pos = self.rows.len();
        let ghost old_rows = self.rows@;
        let ghost ids_seq = ids@;
        let text = path.as_string().clone();
        assert(!self.by_path@.contains_key(path@));
        self.rows.push(CatalogRow { id, path, time, tags: ids });
        self.by_path.insert(text, pos as u64);
        self.next_path_id = self.next_path_id + 1;
        proof {
            let names = tag_texts(tags@);
            assert(ids_seq.to_set() =~= resolved_tags(names, self.tag_table())) by {
                assert forall|t: i64| ids_seq.to_set().contains(t) implies resolved_tags(
                    names,
                    self.tag_table(),
                ).contains(t) by {
                    let j = choose|j: int| 0 <= j < ids_seq.len() && ids_seq[j] == t;
                    assert(names[j] == tags@[j]@);
                }
                assert forall|t: i64| resolved_tags(names, self.tag_table()).contains(t) implies ids_seq.to_set().contains(t) by {
                    let j = choose|j: int| 0 <= j < names.len() && self.tag_table()[names[j]] == t;
                    assert(names[j] == tags@[j]@);
                    assert(ids_seq[j] == t);
                }
            }
            assert forall|p: Seq<char>| #[trigger]
                self.by_path@.contains_key(p) implies self.by_path@[p] < self.rows@.len()
                && self.rows@[self.by_path@[p] as int].path@ == p by {
                if p != text@ {
                    assert(old_rows[self.by_path@[p] as int] == self.rows@[self.by_path@[p] as int]);
                }
            }
            assert forall|i: int|
                0 <= i < self.rows@.len() implies #[trigger] self.by_path@.contains_key(
                self.rows@[i].path@,
            ) && self.by_path@[self.rows@[i].path@] == i by {
                if i < pos {
                    assert(self.rows@[i] == old_rows[i]);
                }
            }
            assert forall|i: int| 0 <= i < self.rows@.len() implies (#[trigger] self.rows@[i]).path.wf() by {
                if i < pos {
                    assert(self.rows@[i] == old_rows[i]);
                }
            }
            assert forall|i: int| 0 <= i < self.rows@.len() implies 0 < (#[trigger] self.rows@[i]).id.0
                < self.next_path_id by {
                if i < pos {
                    assert(self.rows@[i] == old_rows[i]);
                }
            }
            assert(self.rows() =~= start.rows().insert(
                path@,
                RowView { id, time, tags: resolved_tags(names, self.tag_table()) },
            )) by {
                assert forall|p: Seq<char>| #[trigger] self.rows().contains_key(p) implies self.rows()[p]
                    == start.rows().insert(
                    path@,
                    RowView { id, time, tags: resolved_tags(names, self.tag_table()) },
                )[p] by {
                    if p != path@ {
                        assert(old_rows[self.by_path@[p] as int] == self.rows@[self.by_path@[p] as int]);
                    }
                }
            }
            assert(self.tag_table() == table);
            assert(forall|n: Seq<char>| #[trigger]
                old(self).tag_table().contains_key(n) ==> self.tag_table().contains_key(n)
                    && self.tag_table()[n] == old(self).tag_table()[n]);
            assert(forall|n: Seq<char>| #[trigger]
                self.tag_table().contains_key(n) <==> old(self).tag_table().contains_key(n)
                    || exists|i: int| 0 <= i < tags@.len() && tags@[i]@ == n);
            assert(self.next_path() == old(self).next_path() + 1);
            assert(self.next_tag() <= old(self).next_tag() + tags@.len());
        }
        Ok(id)
    }
    /// The ids of the tags of `path`; none for an unknown path.
    pub fn get_path_tags(&self, path: &RelativePath) -> (r: Vec<i64>)
        requires
            self.wf(),
        ensures
            self.rows().contains_key(path@) ==> r@.to_set() == self.rows()[path@].tags,
            !self.rows().contains_key(path@) ==> r@.len() == 0,
    {
        match self.position(path.as_string()) {
            None => Vec::new(),
            Some(i) => copy_ids(&self.rows[i].tags),
        }
    }

    /// Adds a tag read back from persistent storage.
    pub fn load_tag(&mut self, name: String, id: i64) -> (r: Result<(), StoreError>)
        requires
            old(self).wf(),
        ensures
            final(self).wf(),
            final(self).root() == old(self).root(),
            final(self).rows() == old(self).rows(),
            final(self).next_path() == old(self).next_path(),
            old(self).tag_table().contains_key(name@) ==> r == Err::<(), _>(
                StoreError::DuplicateTag,
            ) && *final(self) == *old(self),
            !old(self).tag_table().contains_key(name@) && !(0 < id < i64::MAX) ==> r == Err::<
                (),
                _,
            >(StoreError::InvalidId) && *final(self) == *old(self),
            !old(self).tag_table().contains_key(name@) && 0 < id < i64::MAX ==> r is Ok
                && final(self).tag_table() == old(self).tag_table().insert(name@, id)
                && final(self).next_tag() == (if old(self).next_tag() <= id {
                id + 1
            } else {
                old(self).next_tag() as int
            }),
    {
        if self.get_tag_id(&name).is_some() {
            return Err(StoreError::DuplicateTag);
        }
        if id <= 0 || id == i64::MAX {
            return Err(StoreError::InvalidId);
        }
        let pos = self.tag_names.len();
        let ghost old_names = self.tag_names@;
        let ghost old_ids = self.tag_ids@;
        let ghost text = name@;
        self.by_tag.insert(name.clone(), pos as u64);
        self.tag_names.push(name);
        self.tag_ids.push(id);
        if self.next_tag_id <= id {
            self.next_tag_id = id + 1;
        }
        proof {
            assert(self.tag_names@[pos as int]@ == text);
            assert forall|n: Seq<char>| #[trigger]
                self.by_tag@.contains_key(n) implies self.by_tag@[n] < self.tag_names@.len()
                && self.tag_names@[self.by_tag@[n] as int]@ == n by {
                if n != text {
                    assert(old_names[self.by_tag@[n] as int] == self.tag_names@[self.by_tag@[n] as int]);
                }
            }
            assert forall|i: int|
                0 <= i < self.tag_names@.len() implies #[trigger] self.by_tag@.contains_key(
                self.tag_names@[i]@,
            ) && self.by_tag@[self.tag_names@[i]@] == i by {
                if i < pos {
                    assert(self.tag_names@[i] == old_names[i]);
                }
            }
            assert forall|i: int| 0 <= i < self.tag_ids@.len() implies 0 < #[trigger] self.tag_ids@[i]
                < self.next_tag_id by {
                if i < pos {
                    assert(self.tag_ids@[i] == old_ids[i]);
                }
            }
            assert(self.tag_table() =~= old(self).tag_table().insert(text, id));
            assert(self.rows() =~= old(self).rows());
        }
        Ok(())
    }

    /// Adds a row read back from persistent storage.
    pub fn load_row(&mut self, id: PathId, path: RelativePath, time: Time, tags: Vec<i64>) -> (r:
        Result<(), StoreError>)
        requires
            old(self).wf(),
            path.wf(),
        ensures
            final(self).wf(),
            final(self).root() == old(self).root(),
            final(self).tag_table() == old(self).tag_table(),
            final(self).next_tag() == old(self).next_tag(),
            old(self).rows().contains_key(path@) ==> r == Err::<(), _>(StoreError::DuplicatePath)
                && *final(self) == *old(self),
            !old(self).rows().contains_key(path@) && !(0 < id.0 < i64::MAX) ==> r == Err::<(), _>(
                StoreError::InvalidId,
            ) && *final(self) == *old(self),
            !old(self).rows().contains_key(path@) && 0 < id.0 < i64::MAX ==> r is Ok
                && final(self).rows() == old(self).rows().insert(
                path@,
                RowView { id, time, tags: tags@.to_set() },
            ) && final(self).next_path() == (if old(self).next_path() <= id.0 {
                id.0 + 1
            } else {
                old(self).next_path() as int
            }),
    {
        if self.position(path.as_string()).is_some() {
            return Err(StoreError::DuplicatePath);
        }
        if id.0 <= 0 || id.0 == i64::MAX {
            return Err(StoreError::InvalidId);
        }
        let pos = self.rows.len();
        let ghost old_rows = self.rows@;
        let text = path.as_string().clone();
        self.rows.push(CatalogRow { id, path, time, tags });
        self.by_path.insert(text, pos as u64);
        if self.next_path_id <= id.0 {
            self.next_path_id = id.0 + 1;
        }
        proof {
            assert forall|p: Seq<char>| #[trigger]
                self.by_path@.contains_key(p) implies self.by_path@[p] < self.rows@.len()
                && self.rows@[self.by_path@[p] as int].path@ == p by {
                if p != text@ {
                    assert(old_rows[self.by_path@[p] as int] == self.rows@[self.by_path@[p] as int]);
                }
            }
            assert forall|i: int|
                0 <= i < self.rows@.len() implies #[trigger] self.by_path@.contains_key(
                self.rows@[i].path@,
            ) && self.by_path@[self.rows@[i].path@] == i by {
                if i < pos {
                    assert(self.rows@[i] == old_rows[i]);
                }
            }
            assert forall|i: int| 0 <= i < self.rows@.len() implies (#[trigger] self.rows@[i]).path.wf() by {
                if i < pos {
                    assert(self.rows@[i] == old_rows[i]);
                }
            }
            assert forall|i: int| 0 <= i < self.rows@.len() implies 0 < (#[trigger] self.rows@[i]).id.0
                < self.next_path_id by {
                if i < pos {
                    assert(self.rows@[i] == old_rows[i]);
                }
            }
            assert(self.rows() =~= old(self).rows().insert(
                path@,
                RowView { id, time, tags: tags@.to_set() },
            )) by {
                assert forall|p: Seq<char>| #[trigger] self.rows().contains_key(p) implies self.rows()[p]
                    == old(self).rows().insert(
                    path@,
                    RowView { id, time, tags: tags@.to_set() },
                )[p] by {
                    if p != path@ {
                        assert(old_rows[self.by_path@[p] as int] == self.rows@[self.by_path@[p] as int]);
                    }
                }
            }
            assert(self.tag_table() =~= old(self).tag_table());
        }
        Ok(())
    }
    /// A separate catalog with the same rows and tag table.
    pub fn copy(&self) -> (r: Catalog)
        requires
            self.wf(),
        ensures
            r.wf(),
            r.root() == self.root(),
            r.rows() == self.rows(),
            r.tag_table() == self.tag_table(),
            r.next_path() <= self.next_path(),
            r.next_tag() <= self.next_tag(),
    {
        let mut r = Catalog::new(self.root_id);
        let mut i: usize = 0;
        while i < self.tag_names.len()
            invariant
                self.wf(),
                r.wf(),
                r.root() == self.root(),
                r.rows() == Map::<Seq<char>, RowView>::empty(),
                0 <= i <= self.tag_names@.len(),
                r.next_path() == 1,
                r.next_tag() <= self.next_tag(),
                forall|n: Seq<char>| #[trigger]
                    r.tag_table().contains_key(n) <==> exists|j: int|
                        0 <= j < i && self.tag_names@[j]@ == n,
                forall|j: int|
                    0 <= j < i ==> r.tag_table().contains_key(#[trigger] self.tag_names@[j]@)
                        && r.tag_table()[self.tag_names@[j]@] == self.tag_ids@[j],
            decreases self.tag_names@.len() - i,
        {
            let ghost before = r.tag_table();
            let ghost name = self.tag_names@[i as int]@;
            proof {
                if before.contains_key(name) {
                    let j = choose|j: int| 0 <= j < i && self.tag_names@[j]@ == name;
                    assert(self.by_tag@[self.tag_names@[j]@] == j);
                    assert(self.by_tag@[self.tag_names@[i as int]@] == i);
                }
                assert(0 < self.tag_ids@[i as int] < self.next_tag_id);
            }
            let _ = r.load_tag(self.tag_names[i].clone(), self.tag_ids[i]);
            proof {
                assert forall|n: Seq<char>| #[trigger]
                    r.tag_table().contains_key(n) <==> exists|j: int|
                        0 <= j < i + 1 && self.tag_names@[j]@ == n by {
                    if n == name {
                        assert(0 <= i < i + 1 && self.tag_names@[i as int]@ == n);
                    }
                    if n != name && (exists|j: int| 0 <= j < i + 1 && self.tag_names@[j]@ == n) {
                        let j = choose|j: int| 0 <= j < i + 1 && self.tag_names@[j]@ == n;
                        assert(j < i);
                    }
                }
                assert forall|j: int|
                    0 <= j < i + 1 implies r.tag_table().contains_key(#[trigger] self.tag_names@[j]@)
                    && r.tag_table()[self.tag_names@[j]@] == self.tag_ids@[j] by {
                    if j < i {
                        assert(before.contains_key(self.tag_names@[j]@));
                        assert(self.tag_names@[j]@ != name) by {
                            assert(self.by_tag@[self.tag_names@[j]@] == j);
                            assert(self.by_tag@[self.tag_names@[i as int]@] == i);
                        }
                    }
                }
            }
            i += 1;
        }
        assert(r.tag_table() =~= self.tag_table()) by {
            assert forall|n: Seq<char>| #[trigger] self.tag_table().contains_key(n) implies r.tag_table().contains_key(n)
                && r.tag_table()[n] == self.tag_table()[n] by {
                assert(self.by_tag@.contains_key(n));
                let j = self.by_tag@[n] as int;
                assert(self.tag_names@[j]@ == n);
            }
            assert forall|n: Seq<char>| #[trigger] r.tag_table().contains_key(n) implies self.tag_table().contains_key(n) by {
                let j = choose|j: int| 0 <= j < self.tag_names@.len() && self.tag_names@[j]@ == n;
                assert(self.by_tag@.contains_key(self.tag_names@[j]@));
            }
        }
        let mut i: usize = 0;
        while i < self.rows.len()
            invariant
                self.wf(),
                r.wf(),
                r.root() == self.root(),
                r.tag_table() == self.tag_table(),
                0 <= i <= self.rows@.len(),
                r.next_path() <= self.next_path(),
                r.next_tag() <= self.next_tag(),
                forall|p: Seq<char>| #[trigger]
                    r.rows().contains_key(p) <==> exists|j: int| 0 <= j < i && self.rows@[j].path@ == p,
                forall|j: int|
                    0 <= j < i ==> r.rows().contains_key(#[trigger] self.rows@[j].path@)
                        && r.rows()[self.rows@[j].path@] == self.rows@[j].row_view(),
            decreases self.rows@.len() - i,
        {
            let ghost before = r.rows();
            let ghost path = self.rows@[i as int].path@;
            proof {
                if before.contains_key(path) {
                    let j = choose|j: int| 0 <= j < i && self.rows@[j].path@ == path;
                    assert(self.by_path@[self.rows@[j].path@] == j);
                    assert(self.by_path@[self.rows@[i as int].path@] == i);
                }
                assert(0 < self.rows@[i as int].id.0 < self.next_path_id);
                assert(self.rows@[i as int].path.wf());
            }
            let row = &self.rows[i];
            let _ = r.load_row(row.id, row.path.copy(), row.time, copy_ids(&row.tags));
            proof {
                assert forall|p: Seq<char>| #[trigger]
                    r.rows().contains_key(p) <==> exists|j: int| 0 <= j < i + 1 && self.rows@[j].path@ == p by {
                    if p == path {
                        assert(0 <= i < i + 1 && self.rows@[i as int].path@ == p);
                    }
                    if p != path && (exists|j: int| 0 <= j < i + 1 && self.rows@[j].path@ == p) {
                        let j = choose|j: int| 0 <= j < i + 1 && self.rows@[j].path@ == p;
                        assert(j < i);
                    }
                }
                assert forall|j: int|
                    0 <= j < i + 1 implies r.rows().contains_key(#[trigger] self.rows@[j].path@)
                    && r.rows()[self.rows@[j].path@] == self.rows@[j].row_view() by {
                    if j < i {
                        assert(before.contains_key(self.rows@[j].path@));
                        assert(self.rows@[j].path@ != path) by {
                            assert(self.by_path@[self.rows@[j].path@] == j);
                            assert(self.by_path@[self.rows@[i as int].path@] == i);
                        }
                    }
                }
            }
            i += 1;
        }
        assert(r.rows() =~= self.rows()) by {
            assert forall|p: Seq<char>| #[trigger] self.rows().contains_key(p) implies r.rows().contains_key(p)
                && r.rows()[p] == self.rows()[p] by {
                assert(self.by_path@.contains_key(p));
                let j = self.by_path@[p] as int;
                assert(self.rows@[j].path@ == p);
            }
            assert forall|p: Seq<char>| #[trigger] r.rows().contains_key(p) implies self.rows().contains_key(p) by {
                let j = choose|j: int| 0 <= j < self.rows@.len() && self.rows@[j].path@ == p;
                assert(self.by_path@.contains_key(self.rows@[j].path@));
            }
        }
        r
    }
    /// The tag table as (name, id) pairs.
    pub fn tag_entries(&self) -> (r: Vec<(String, i64)>)
        requires
            self.wf(),
        ensures
            forall|i: int|
                0 <= i < r@.len() ==> self.tag_table().contains_key((#[trigger] r@[i]).0@)
                    && self.tag_table()[r@[i].0@] == r@[i].1,
            forall|n: Seq<char>| #[trigger]
                self.tag_table().contains_key(n) ==> exists|i: int| 0 <= i < r@.len() && r@[i].0@ == n,
    {
        let mut r: Vec<(String, i64)> = Vec::new();
        let mut i: usize = 0;
        while i < self.tag_names.len()
            invariant
                self.wf(),
                0 <= i <= self.tag_names@.len(),
                r@.len() == i,
                forall|m: int|
                    0 <= m < i ==> (#[trigger] r@[m]).0@ == self.tag_names@[m]@ && r@[m].1
                        == self.tag_ids@[m],
            decreases self.tag_names@.len() - i,
        {
            r.push((self.tag_names[i].clone(), self.tag_ids[i]));
            i += 1;
        }
        proof {
            assert forall|m: int| 0 <= m < r@.len() implies self.tag_table().contains_key(
                (#[trigger] r@[m]).0@,
            ) && self.tag_table()[r@[m].0@] == r@[m].1 by {
                assert(self.tag_names@[m] == self.tag_names@[m]);
            }
            assert forall|n: Seq<char>| #[trigger]
                self.tag_table().contains_key(n) implies exists|m: int|
                0 <= m < r@.len() && r@[m].0@ == n by {
                let m = self.by_tag@[n] as int;
                assert(r@[m].0@ == n);
            }
        }
        r
    }

    /// How many rows the catalog holds.
    pub fn len(&self) -> (r: usize)
        requires
            self.wf(),
        ensures
            r == self.rows().len(),
    {
        proof {
            self.lemma_rows_len();
        }
        self.rows.len()
    }

    proof fn lemma_rows_len(&self)
        requires
            self.wf(),
        ensures
            self.rows().len() == self.rows@.len(),
            self.rows().dom().finite(),
    {
        let paths = self.rows@.map_values(|r: CatalogRow| r.path@);
        assert(self.rows().dom() =~= paths.to_set()) by {
            assert forall|p: Seq<char>| self.rows().dom().contains(p) implies paths.to_set().contains(p) by {
                let i = self.by_path@[p] as int;
                assert(paths[i] == p);
            }
            assert forall|p: Seq<char>| paths.to_set().contains(p) implies self.rows().dom().contains(p) by {
                let i = choose|i: int| 0 <= i < paths.len() && paths[i] == p;
                assert(self.rows@[i].path@ == p);
            }
        }
        assert(paths.no_duplicates()) by {
            assert forall|i: int, j: int| 0 <= i < paths.len() && 0 <= j < paths.len() && i != j implies paths[i] != paths[j] by {
                assert(self.by_path@[self.rows@[i].path@] == i);
                assert(self.by_path@[self.rows@[j].path@] == j);
            }
        }
        paths.unique_seq_to_set();
    }
}

/// A copy of a list of ids.
pub fn copy_ids(v: &Vec<i64>) -> (r: Vec<i64>)
    ensures
        r@ == v@,
{
    let mut r: Vec<i64> = Vec::new();
    let mut i: usize = 0;
    while i < v.len()
        invariant
            0 <= i <= v@.len(),
            r@ == v@.subrange(0, i as int),
        decreases v@.len() - i,
    {
        r.push(v[i]);
        i += 1;
    }
    assert(r@ =~= v@);
    r
}

} // verus!
