//! The scan coordinator: single-flight control of scan cycles, and the
//! decisions of one incremental cycle over a working copy of the catalog.

use crate::catalog::{resolved_tags, tag_texts, Catalog, RowView, StoreError};
use crate::data::{PathData, PathId, RelativePath, RootData, RootId, Time};
use vstd::prelude::*;

verus! {

/// What a scanned file needs.
#[derive(Debug, PartialEq, Eq, Structural, Clone, Copy)]
pub enum EntryAction {
    /// Known with the same timestamps: nothing to do.
    Unchanged,
    /// Known with other timestamps: they were updated, no hashing.
    UpdateTimestamps,
    /// Not known: its content must be hashed and tagged before insertion.
    Hash,
}

/// What a scanned path at `time` needs, given the catalog rows.
pub open spec fn entry_action(rows: Map<Seq<char>, RowView>, path: Seq<char>, time: Time) -> EntryAction {
    if !rows.contains_key(path) {
        EntryAction::Hash
    } else if rows[path].time == time {
        EntryAction::Unchanged
    } else {
        EntryAction::UpdateTimestamps
    }
}

/// The rows after a scanned entry was handled.
pub open spec fn after_entry(rows: Map<Seq<char>, RowView>, path: Seq<char>, time: Time) -> Map<
    Seq<char>,
    RowView,
> {
    if entry_action(rows, path, time) == EntryAction::UpdateTimestamps {
        rows.insert(path, RowView { time, ..rows[path] })
    } else {
        rows
    }
}

/// A listing as paths with timestamps.
pub open spec fn listing_view(l: Seq<PathData>) -> Seq<(Seq<char>, Time)> {
    l.map_values(|d: PathData| (d.path@, d.time))
}

/// The rows after every entry of a listing was handled, in order.
pub open spec fn scan_rows(rows: Map<Seq<char>, RowView>, l: Seq<(Seq<char>, Time)>) -> Map<
    Seq<char>,
    RowView,
>
    decreases l.len(),
{
    if l.len() == 0 {
        rows
    } else {
        after_entry(scan_rows(rows, l.drop_last()), l.last().0, l.last().1)
    }
}

/// The positions in a listing of the entries that need hashing.
pub open spec fn hash_positions(rows: Map<Seq<char>, RowView>, l: Seq<(Seq<char>, Time)>) -> Seq<
    int,
>
    decreases l.len(),
{
    if l.len() == 0 {
        Seq::empty()
    } else {
        let before = hash_positions(rows, l.drop_last());
        if entry_action(scan_rows(rows, l.drop_last()), l.last().0, l.last().1)
            == EntryAction::Hash {
            before.push(l.len() - 1)
        } else {
            before
        }
    }
}

/// How many entries of a listing had their timestamps updated.
pub open spec fn update_count(rows: Map<Seq<char>, RowView>, l: Seq<(Seq<char>, Time)>) -> nat
    decreases l.len(),
{
    if l.len() == 0 {
        0
    } else {
        update_count(rows, l.drop_last()) + if entry_action(
            scan_rows(rows, l.drop_last()),
            l.last().0,
            l.last().1,
        ) == EntryAction::UpdateTimestamps {
            1nat
        } else {
            0nat
        }
    }
}

/// A catalog write of a scan cycle, to be made durable at commit.
pub enum CatalogOp {
    UpdateTimestamps { path: RelativePath, time: Time },
    Insert { id: PathId, path: RelativePath, time: Time, tags: Vec<i64> },
}

/// A catalog write as values: the path, and its new timestamps or its new
/// row.
pub enum OpView {
    UpdateTimestamps(Seq<char>, Time),
    Insert(Seq<char>, RowView),
}

impl CatalogOp {
    pub open spec fn op_view(&self) -> OpView {
        match self {
            CatalogOp::UpdateTimestamps { path, time } => OpView::UpdateTimestamps(path@, *time),
            CatalogOp::Insert { id, path, time, tags } => OpView::Insert(
                path@,
                RowView { id: *id, time: *time, tags: tags@.to_set() },
            ),
        }
    }
}

/// A list of writes as values.
pub open spec fn ops_view(ops: Seq<CatalogOp>) -> Seq<OpView> {
    ops.map_values(|op: CatalogOp| op.op_view())
}

/// The rows after one write: an update changes the timestamps of a known
/// path only; an insert sets the path's row.
pub open spec fn apply_op(rows: Map<Seq<char>, RowView>, op: OpView) -> Map<Seq<char>, RowView> {
    match op {
        OpView::UpdateTimestamps(p, t) => if rows.contains_key(p) {
            rows.insert(p, RowView { time: t, ..rows[p] })
        } else {
            rows
        },
        OpView::Insert(p, row) => rows.insert(p, row),
    }
}

/// The rows after a list of writes, in order.
pub open spec fn apply_ops(rows: Map<Seq<char>, RowView>, ops: Seq<OpView>) -> Map<
    Seq<char>,
    RowView,
>
    decreases ops.len(),
{
    if ops.len() == 0 {
        rows
    } else {
        apply_op(apply_ops(rows, ops.drop_last()), ops.last())
    }
}

#[derive(Debug, PartialEq, Eq, Structural, Clone, Copy)]
pub enum ScanError {
    /// The store refused a write.
    Store(StoreError),
    /// No more hash jobs can be counted.
    TooManyJobs,
}

/// What the event loop of a cycle does next.
#[derive(Debug, PartialEq, Eq, Structural, Clone, Copy)]
pub enum LoopStep {
    /// Cancelled or failed: drop the working copy, commit nothing.
    Abort,
    /// Wait for the next scanner or hash pool output.
    Wait,
    /// The scanner is exhausted and the hash pool drained: commit.
    Commit,
}

/// One scan cycle: a working copy of the catalog that the cycle's writes go
/// to, the writes themselves, the count of hash jobs whose results have not
/// come back, and whether anything failed.
pub struct ScanCycle {
    work: Catalog,
    scan_done: bool,
    in_flight: u64,
    ops: Vec<CatalogOp>,
    failed: bool,
    base: Ghost<Map<Seq<char>, RowView>>,
}

impl ScanCycle {
    /// The writes, applied to the rows the cycle began with, give the rows
    /// of the working copy.
    pub closed spec fn wf(&self) -> bool {
        &&& self.work.wf()
        &&& apply_ops(self.base@, ops_view(self.ops@)) == self.work.rows()
    }

    /// The rows of the committed catalog that the cycle began with.
    pub closed spec fn base_rows(&self) -> Map<Seq<char>, RowView> {
        self.base@
    }

    /// The writes so far.
    pub closed spec fn ops(&self) -> Seq<OpView> {
        ops_view(self.ops@)
    }

    /// Whether a store or tag error has ended the cycle.
    pub closed spec fn failed(&self) -> bool {
        self.failed
    }

    /// The id that the next new row gets.
    pub closed spec fn next_path(&self) -> i64 {
        self.work.next_path()
    }

    /// The rows of the working copy.
    pub closed spec fn rows(&self) -> Map<Seq<char>, RowView> {
        self.work.rows()
    }

    pub closed spec fn tag_table(&self) -> Map<Seq<char>, i64> {
        self.work.tag_table()
    }

    /// Whether ids are left for one more row carrying `n` new tags.
    pub closed spec fn has_room(&self, n: nat) -> bool {
        self.work.has_room(n)
    }

    pub closed spec fn pending(&self) -> nat {
        self.in_flight as nat
    }

    pub closed spec fn scanner_done(&self) -> bool {
        self.scan_done
    }

    pub closed spec fn op_count(&self) -> nat {
        self.ops@.len()
    }

    /// Starts a cycle on a copy of the committed catalog.
    pub fn begin(committed: &Catalog) -> (r: ScanCycle)
        requires
            committed.wf(),
        ensures
            r.wf(),
            r.rows() == committed.rows(),
            r.tag_table() == committed.tag_table(),
            r.pending() == 0,
            !r.scanner_done(),
            !r.failed(),
            r.op_count() == 0,
            r.ops().len() == 0,
            r.base_rows() == committed.rows(),
            forall|n: nat| committed.has_room(n) ==> #[trigger] r.has_room(n),
    {
        let r = ScanCycle {
            work: committed.copy(),
            scan_done: false,
            in_flight: 0,
            ops: Vec::new(),
            failed: false,
            base: Ghost(committed.rows()),
        };
        assert(ops_view(r.ops@) =~= Seq::<OpView>::empty());
        r
    }

    /// Records a failure outside the cycle's own writes (a tag lookup that
    /// failed): the cycle will abort.
    pub fn fail(&mut self)
        requires
            old(self).wf(),
        ensures
            final(self).wf(),
            final(self).failed(),
            final(self).rows() == old(self).rows(),
            final(self).base_rows() == old(self).base_rows(),
            final(self).ops() == old(self).ops(),
            final(self).pending() == old(self).pending(),
            final(self).scanner_done() == old(self).scanner_done(),
    {
        self.failed = true;
    }

    /// Handles one scanner output: an unknown path is handed to the hash
    /// pool, a known path with other timestamps has them updated at once,
    /// and a known path with the same timestamps is left alone.
    pub fn on_scanned(&mut self, path: &RelativePath, time: Time) -> (r: Result<
        EntryAction,
        ScanError,
    >)
        requires
            old(self).wf(),
        ensures
            final(self).wf(),
            final(self).scanner_done() == old(self).scanner_done(),
            final(self).tag_table() == old(self).tag_table(),
            final(self).base_rows() == old(self).base_rows(),
            final(self).failed() == (old(self).failed() || r is Err),
            forall|n: nat| #[trigger] final(self).has_room(n) == old(self).has_room(n),
            entry_action(old(self).rows(), path@, time) == EntryAction::Hash && old(self).pending()
                == u64::MAX ==> r == Err::<EntryAction, _>(ScanError::TooManyJobs) && final(self).rows() == old(self).rows() && final(self).pending() == old(self).pending()
                && final(self).ops() == old(self).ops() && final(self).op_count() == old(self).op_count(),
            !(entry_action(old(self).rows(), path@, time) == EntryAction::Hash
                && old(self).pending() == u64::MAX) ==> {
                &&& r == Ok::<_, ScanError>(entry_action(old(self).rows(), path@, time))
                &&& final(self).rows() == after_entry(old(self).rows(), path@, time)
                &&& final(self).pending() == old(self).pending() + if entry_action(
                    old(self).rows(),
                    path@,
                    time,
                ) == EntryAction::Hash {
                    1nat
                } else {
                    0nat
                }
                &&& final(self).op_count() == old(self).op_count() + if entry_action(
                    old(self).rows(),
                    path@,
                    time,
                ) == EntryAction::UpdateTimestamps {
                    1nat
                } else {
                    0nat
                }
                &&& final(self).ops() == if entry_action(old(self).rows(), path@, time)
                    == EntryAction::UpdateTimestamps {
                    old(self).ops().push(OpView::UpdateTimestamps(path@, time))
                } else {
                    old(self).ops()
                }
            },
    {
        match self.work.lookup(path) {
            None => {
                if self.in_flight == u64::MAX {
                    self.failed = true;
                    return Err(ScanError::TooManyJobs);
                }
                self.in_flight = self.in_flight + 1;
                Ok(EntryAction::Hash)
            },
            Some(stored) => {
                if stored.same(&time) {
                    Ok(EntryAction::Unchanged)
                } else {
                    let ghost before = self.ops@;
                    let _ = self.work.upsert_timestamps(path, time);
                    self.ops.push(CatalogOp::UpdateTimestamps { path: path.copy(), time });
                    assert(ops_view(self.ops@) =~= ops_view(before).push(
                        OpView::UpdateTimestamps(path@, time),
                    ));
                    assert(ops_view(self.ops@).drop_last() =~= ops_view(before));
                    Ok(EntryAction::UpdateTimestamps)
                }
            },
        }
    }
    /// Handles a finished hash job: the tags found for the content go with
    /// the new row, which is inserted into the working copy as
    /// `Catalog::insert_new` does; an insert the store refuses fails the
    /// cycle.
    pub fn on_hashed(&mut self, path: RelativePath, time: Time, tags: &Vec<String>) -> (r: Result<
        PathId,
        ScanError,
    >)
        requires
            old(self).wf(),
            path.wf(),
        ensures
            final(self).wf(),
            final(self).scanner_done() == old(self).scanner_done(),
            final(self).base_rows() == old(self).base_rows(),
            final(self).failed() == (old(self).failed() || r is Err),
            final(self).pending() == if old(self).pending() > 0 {
                (old(self).pending() - 1) as nat
            } else {
                0nat
            },
            old(self).rows().contains_key(path@) ==> r == Err::<PathId, _>(
                ScanError::Store(StoreError::DuplicatePath),
            ),
            !old(self).rows().contains_key(path@) && !old(self).has_room(tags@.len()) ==> r
                == Err::<PathId, _>(ScanError::Store(StoreError::IdsExhausted)),
            r is Err ==> final(self).rows() == old(self).rows() && final(self).ops() == old(self).ops()
                && final(self).op_count() == old(self).op_count() && final(self).tag_table() == old(
                self,
            ).tag_table(),
            !old(self).rows().contains_key(path@) && old(self).has_room(tags@.len()) ==> {
                let row = RowView {
                    id: PathId(old(self).next_path()),
                    time,
                    tags: resolved_tags(tag_texts(tags@), final(self).tag_table()),
                };
                &&& r == Ok::<_, ScanError>(PathId(old(self).next_path()))
                &&& final(self).rows() == old(self).rows().insert(path@, row)
                &&& final(self).ops() == old(self).ops().push(OpView::Insert(path@, row))
                &&& final(self).op_count() == old(self).op_count() + 1
                &&& forall|n: Seq<char>| #[trigger]
                    old(self).tag_table().contains_key(n) ==> final(self).tag_table().contains_key(n)
                        && final(self).tag_table()[n] == old(self).tag_table()[n]
                &&& forall|n: Seq<char>| #[trigger]
                    final(self).tag_table().contains_key(n) <==> old(self).tag_table().contains_key(n)
                        || exists|i: int| 0 <= i < tags@.len() && tags@[i]@ == n
            },
    {
        if self.in_flight > 0 {
            self.in_flight = self.in_flight - 1;
        }
        let copy = path.copy();
        let ghost before = self.ops@;
        match self.work.insert_new(path, time, tags) {
            Ok(id) => {
                let ids = self.work.get_path_tags(&copy);
                self.ops.push(CatalogOp::Insert { id, path: copy, time, tags: ids });
                proof {
                    let row = self.work.rows()[copy@];
                    assert(ops_view(self.ops@) =~= ops_view(before).push(OpView::Insert(copy@, row)));
                    assert(ops_view(self.ops@).drop_last() =~= ops_view(before));
                }
                Ok(id)
            },
            Err(e) => {
                self.failed = true;
                Err(ScanError::Store(e))
            },
        }
    }

    /// Handles a hash job that failed: the file stays out of the catalog.
    pub fn on_hash_failed(&mut self)
        requires
            old(self).wf(),
        ensures
            final(self).wf(),
            final(self).rows() == old(self).rows(),
            final(self).scanner_done() == old(self).scanner_done(),
            final(self).op_count() == old(self).op_count(),
            final(self).ops() == old(self).ops(),
            final(self).base_rows() == old(self).base_rows(),
            final(self).failed() == old(self).failed(),
            final(self).pending() == if old(self).pending() > 0 {
                (old(self).pending() - 1) as nat
            } else {
                0nat
            },
    {
        if self.in_flight > 0 {
            self.in_flight = self.in_flight - 1;
        }
    }

    /// Records that the scanner has no more output.
    pub fn on_scan_done(&mut self)
        requires
            old(self).wf(),
        ensures
            final(self).wf(),
            final(self).rows() == old(self).rows(),
            final(self).pending() == old(self).pending(),
            final(self).op_count() == old(self).op_count(),
            final(self).ops() == old(self).ops(),
            final(self).base_rows() == old(self).base_rows(),
            final(self).failed() == old(self).failed(),
            final(self).scanner_done(),
    {
        self.scan_done = true;
    }

    /// The next step of the event loop. Cancellation and failure win over
    /// everything; the cycle ends when the scanner is exhausted and no hash
    /// job is out.
    pub fn next_step(&self, cancelled: bool) -> (r: LoopStep)
        ensures
            cancelled || self.failed() ==> r == LoopStep::Abort,
            !cancelled && !self.failed() && self.scanner_done() && self.pending() == 0 ==> r
                == LoopStep::Commit,
            !cancelled && !self.failed() && !(self.scanner_done() && self.pending() == 0) ==> r
                == LoopStep::Wait,
    {
        if cancelled || self.failed {
            LoopStep::Abort
        } else if self.scan_done && self.in_flight == 0 {
            LoopStep::Commit
        } else {
            LoopStep::Wait
        }
    }

    /// Ends the cycle. Unless it was cancelled or failed, the working copy
    /// becomes the committed catalog and the writes to make durable are
    /// returned: applied to the rows the cycle began with, they give the new
    /// rows. A cancelled or failed cycle leaves the committed catalog as it
    /// was and returns no writes.
    pub fn conclude(self, committed: &mut Catalog, cancelled: bool) -> (r: Vec<CatalogOp>)
        requires
            self.wf(),
        ensures
            cancelled || self.failed() ==> *final(committed) == *old(committed) && r@.len() == 0,
            !cancelled && !self.failed() ==> {
                &&& final(committed).wf()
                &&& final(committed).rows() == self.rows()
                &&& final(committed).tag_table() == self.tag_table()
                &&& ops_view(r@) == self.ops()
                &&& apply_ops(self.base_rows(), ops_view(r@)) == final(committed).rows()
            },
    {
        if cancelled || self.failed {
            Vec::new()
        } else {
            *committed = self.work;
            self.ops
        }
    }

    /// Handles a whole listing in order, as `on_scanned` does entry by
    /// entry, and returns the positions of the entries to hash.
    pub fn scan_listing(&mut self, listing: &Vec<PathData>) -> (r: Result<Vec<usize>, ScanError>)
        requires
            old(self).wf(),
        ensures
            final(self).wf(),
            final(self).scanner_done() == old(self).scanner_done(),
            final(self).tag_table() == old(self).tag_table(),
            final(self).base_rows() == old(self).base_rows(),
            final(self).failed() == (old(self).failed() || r is Err),
            forall|n: nat| #[trigger] final(self).has_room(n) == old(self).has_room(n),
            old(self).pending() + listing@.len() <= u64::MAX ==> r is Ok,
            r matches Ok(pos) ==> {
                let l = listing_view(listing@);
                &&& final(self).rows() == scan_rows(old(self).rows(), l)
                &&& pos@.map_values(|k: usize| k as int) == hash_positions(old(self).rows(), l)
                &&& final(self).pending() == old(self).pending() + pos@.len()
                &&& final(self).op_count() == old(self).op_count() + update_count(old(self).rows(), l)
            },
    {
        let ghost start = self.rows();
        let ghost l = listing_view(listing@);
        let mut pos: Vec<usize> = Vec::new();
        let mut i: usize = 0;
        while i < listing.len()
            invariant
                self.wf(),
                self.scanner_done() == old(self).scanner_done(),
                self.tag_table() == old(self).tag_table(),
                forall|n: nat| #[trigger] self.has_room(n) == old(self).has_room(n),
                self.base_rows() == old(self).base_rows(),
                self.failed() == old(self).failed(),
                start == old(self).rows(),
                l == listing_view(listing@),
                0 <= i <= listing@.len(),
                pos@.len() <= i,
                self.rows() == scan_rows(start, l.subrange(0, i as int)),
                pos@.map_values(|k: usize| k as int) == hash_positions(start, l.subrange(0, i as int)),
                self.pending() == old(self).pending() + pos@.len(),
                self.op_count() == old(self).op_count() + update_count(start, l.subrange(0, i as int)),
            decreases listing@.len() - i,
        {
            let ghost prefix = l.subrange(0, i as int);
            let ghost next = l.subrange(0, i + 1);
            assert(next.drop_last() =~= prefix);
            assert(next.last() == (listing@[i as int].path@, listing@[i as int].time));
            let ghost old_pos = pos@;
            let action = self.on_scanned(&listing[i].path, listing[i].time);
            match action {
                Err(e) => {
                    return Err(e);
                },
                Ok(a) => {
                    if a == EntryAction::Hash {
                        pos.push(i);
                        assert(pos@.map_values(|k: usize| k as int) =~= old_pos.map_values(
                            |k: usize| k as int,
                        ).push(i as int));
                    }
                },
            }
            i += 1;
        }
        assert(l.subrange(0, listing@.len() as int) =~= l);
        Ok(pos)
    }
}


/// Every path of the listing is recorded by the rows with the listing's timestamps.
pub open spec fn records_listing(rows: Map<Seq<char>, RowView>, l: Seq<(Seq<char>, Time)>) -> bool {
    forall|i: int| 0 <= i < l.len() ==> rows.contains_key(#[trigger] l[i].0) && rows[l[i].0].time == l[i].1
}

/// No path occurs twice in the listing.
pub open spec fn distinct_paths(l: Seq<(Seq<char>, Time)>) -> bool {
    forall|i: int, j: int| 0 <= i < l.len() && 0 <= j < l.len() && i != j ==> l[i].0 != l[j].0
}

/// Scanning a listing that the rows already record, timestamps included,
/// leaves the rows as they are, hashes nothing and updates nothing.
pub proof fn lemma_unchanged_listing(rows: Map<Seq<char>, RowView>, l: Seq<(Seq<char>, Time)>)
    requires
        records_listing(rows, l),
    ensures
        scan_rows(rows, l) == rows,
        hash_positions(rows, l).len() == 0,
        update_count(rows, l) == 0,
    decreases l.len(),
{
    if l.len() > 0 {
        let d = l.drop_last();
        assert(records_listing(rows, d)) by {
            assert forall|i: int| 0 <= i < d.len() implies rows.contains_key(#[trigger] d[i].0)
                && rows[d[i].0].time == d[i].1 by {
                assert(d[i] == l[i]);
            }
        }
        lemma_unchanged_listing(rows, d);
        assert(l.last() == l[l.len() - 1]);
    }
}

/// Whether the entry at position `i` of the listing needs hashing.
pub open spec fn needs_hash_at(rows: Map<Seq<char>, RowView>, l: Seq<(Seq<char>, Time)>, i: int) -> bool {
    entry_action(scan_rows(rows, l.subrange(0, i)), l[i].0, l[i].1) == EntryAction::Hash
}

/// In a listing with distinct paths, an entry that needs no hashing is
/// recorded with its timestamps once the whole listing was scanned, and an
/// entry that does is listed among the positions to hash.
pub proof fn lemma_scan_outcome(rows: Map<Seq<char>, RowView>, l: Seq<(Seq<char>, Time)>, i: int)
    requires
        distinct_paths(l),
        0 <= i < l.len(),
    ensures
        !needs_hash_at(rows, l, i) ==> scan_rows(rows, l).contains_key(l[i].0) && scan_rows(
            rows,
            l,
        )[l[i].0].time == l[i].1,
        needs_hash_at(rows, l, i) ==> hash_positions(rows, l).contains(i),
        forall|p: Seq<char>| #[trigger]
            rows.contains_key(p) ==> scan_rows(rows, l).contains_key(p),
    decreases l.len(),
{
    let d = l.drop_last();
    let n = l.len() - 1;
    assert(l.subrange(0, n) =~= d);
    if i < n {
        assert(distinct_paths(d)) by {
            assert forall|a: int, b: int|
                0 <= a < d.len() && 0 <= b < d.len() && a != b implies d[a].0 != d[b].0 by {
                assert(d[a] == l[a] && d[b] == l[b]);
            }
        }
        assert(d.subrange(0, i) =~= l.subrange(0, i));
        assert(d[i] == l[i]);
        lemma_scan_outcome(rows, d, i);
        assert(l[n].0 != l[i].0);
        assert(l.last() == l[n]);
        if needs_hash_at(rows, l, i) {
            assert(needs_hash_at(rows, d, i));
            let hp = hash_positions(rows, d);
            let idx = choose|idx: int| 0 <= idx < hp.len() && hp[idx] == i;
            assert(hash_positions(rows, l)[idx] == i);
        }
    } else {
        assert(l.last() == l[n]);
        if n > 0 {
            lemma_scan_outcome(rows, d, 0);
        }
        if needs_hash_at(rows, l, i) {
            assert(hash_positions(rows, l).last() == i);
        }
    }
}

/// Scanning twice over an unmodified tree: if the first cycle inserted every
/// entry that it hashed, with its timestamps, and otherwise kept what the
/// scan recorded, the second cycle hashes nothing, updates nothing and
/// leaves the rows as they are.
pub proof fn lemma_second_scan_idle(
    rows0: Map<Seq<char>, RowView>,
    l: Seq<(Seq<char>, Time)>,
    rows1: Map<Seq<char>, RowView>,
)
    requires
        distinct_paths(l),
        forall|p: Seq<char>| #[trigger]
            scan_rows(rows0, l).contains_key(p) ==> rows1.contains_key(p) && rows1[p].time == scan_rows(
                rows0,
                l,
            )[p].time,
        forall|k: int| #[trigger]
            hash_positions(rows0, l).contains(k) ==> rows1.contains_key(l[k].0) && rows1[l[k].0].time
                == l[k].1,
    ensures
        records_listing(rows1, l),
        scan_rows(rows1, l) == rows1,
        hash_positions(rows1, l).len() == 0,
        update_count(rows1, l) == 0,
{
    assert forall|i: int| 0 <= i < l.len() implies rows1.contains_key(#[trigger] l[i].0)
        && rows1[l[i].0].time == l[i].1 by {
        lemma_scan_outcome(rows0, l, i);
    }
    lemma_unchanged_listing(rows1, l);
}

/// The coordinator's state: idle, or scanning a root, with a record of
/// whether that scan was told to cancel.
pub enum ScanState {
    Idle,
    Scanning { root: RootData, abort_requested: bool },
}

/// Change detection: a known path seen with other timestamps gets them
/// updated and is not hashed; the row keeps its id and tags.
pub proof fn lemma_changed_path_updates(rows: Map<Seq<char>, RowView>, path: Seq<char>, time: Time)
    requires
        rows.contains_key(path),
        rows[path].time != time,
    ensures
        entry_action(rows, path, time) == EntryAction::UpdateTimestamps,
        after_entry(rows, path, time).contains_key(path),
        after_entry(rows, path, time)[path].time == time,
        after_entry(rows, path, time)[path].id == rows[path].id,
        after_entry(rows, path, time)[path].tags == rows[path].tags,
        after_entry(rows, path, time).dom() == rows.dom(),
{
    assert(after_entry(rows, path, time).dom() =~= rows.dom());
}

/// The coordinator's state as values.
pub enum ScanStateView {
    Idle,
    Scanning { root_id: RootId, root_path: Seq<char>, abort_requested: bool },
}

/// Single-flight control of scan cycles: at most one runs at a time, and a
/// request to scan while one runs is dropped, never queued.
pub struct ImageScanner {
    state: ScanState,
}

impl View for ImageScanner {
    type V = ScanStateView;

    closed spec fn view(&self) -> ScanStateView {
        match self.state {
            ScanState::Idle => ScanStateView::Idle,
            ScanState::Scanning { root, abort_requested } => ScanStateView::Scanning {
                root_id: root.id,
                root_path: root.path@,
                abort_requested,
            },
        }
    }
}

/// The state after a request to scan a root.
pub open spec fn after_start(s: ScanStateView, root_id: RootId, root_path: Seq<char>) -> ScanStateView {
    match s {
        ScanStateView::Idle => ScanStateView::Scanning { root_id, root_path, abort_requested: false },
        _ => s,
    }
}

/// Whether a request to scan starts a cycle.
pub open spec fn starts(s: ScanStateView) -> bool {
    s is Idle
}

/// Whether the active root changing to `root_id` cancels the running scan.
pub open spec fn cancels(s: ScanStateView, root_id: RootId) -> bool {
    match s {
        ScanStateView::Scanning { root_id: r, abort_requested, .. } => r != root_id && !abort_requested,
        ScanStateView::Idle => false,
    }
}

/// The state after the active root changed to `root_id`.
pub open spec fn after_root_change(s: ScanStateView, root_id: RootId) -> ScanStateView {
    match s {
        ScanStateView::Scanning { root_id: r, root_path, abort_requested } => ScanStateView::Scanning {
            root_id: r,
            root_path,
            abort_requested: abort_requested || r != root_id,
        },
        ScanStateView::Idle => s,
    }
}

impl ImageScanner {
    pub fn new() -> (r: ImageScanner)
        ensures
            r@ == ScanStateView::Idle,
    {
        ImageScanner { state: ScanState::Idle }
    }

    pub fn is_scanning(&self) -> (r: bool)
        ensures
            r == (self@ is Scanning),
    {
        match self.state {
            ScanState::Idle => false,
            _ => true,
        }
    }

    /// Starts a cycle for `root` if none runs; returns whether it did.
    pub fn start_scan(&mut self, root: RootData) -> (started: bool)
        ensures
            started == starts(old(self)@),
            final(self)@ == after_start(old(self)@, root.id, root.path@),
    {
        match self.state {
            ScanState::Idle => {
                self.state = ScanState::Scanning { root, abort_requested: false };
                true
            },
            _ => false,
        }
    }

    /// Signals cancellation to a running scan of a root other than
    /// `root_id`; returns whether the signal is to be sent now. A scan is
    /// signalled at most once.
    pub fn abort_if_root_differs(&mut self, root_id: RootId) -> (signal: bool)
        ensures
            signal == cancels(old(self)@, root_id),
            final(self)@ == after_root_change(old(self)@, root_id),
    {
        match &mut self.state {
            ScanState::Scanning { root, abort_requested } => {
                if root.id != root_id && !*abort_requested {
                    *abort_requested = true;
                    true
                } else {
                    false
                }
            },
            ScanState::Idle => false,
        }
    }

    /// Whether the running scan was told to cancel.
    pub fn abort_requested(&self) -> (r: bool)
        ensures
            r == (self@ matches ScanStateView::Scanning { abort_requested, .. } && abort_requested),
    {
        match &self.state {
            ScanState::Scanning { abort_requested, .. } => *abort_requested,
            ScanState::Idle => false,
        }
    }

    /// The cycle ended, committed, failed or cancelled: back to idle.
    pub fn finish(&mut self)
        ensures
            final(self)@ == ScanStateView::Idle,
    {
        self.state = ScanState::Idle;
    }
}

/// Single flight: of two requests to scan in a row, whatever the state
/// before, the second starts nothing and changes nothing, and a scan runs.
pub proof fn lemma_single_flight(
    s: ScanStateView,
    first: RootId,
    first_path: Seq<char>,
    second: RootId,
    second_path: Seq<char>,
)
    ensures
        !starts(after_start(s, first, first_path)),
        after_start(after_start(s, first, first_path), second, second_path) == after_start(
            s,
            first,
            first_path,
        ),
        after_start(s, first, first_path) is Scanning,
{
}

/// A root change cancels a running scan of another root, once: repeating
/// the change signals nothing more and changes nothing.
pub proof fn lemma_root_change_cancels_once(s: ScanStateView, root_id: RootId)
    ensures
        (s matches ScanStateView::Scanning { root_id: r, abort_requested: false, .. } && r != root_id)
            ==> cancels(s, root_id),
        !cancels(after_root_change(s, root_id), root_id),
        after_root_change(after_root_change(s, root_id), root_id) == after_root_change(s, root_id),
{
}

} // verus!
