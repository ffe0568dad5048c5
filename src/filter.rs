//! The filter chain that narrows the snapshot's identities, and the picker
//! that chooses one wallpaper per output among what passes.

use crate::catalog::Catalog;
use crate::data::UnixTimestamp;
use crate::storage::{FileKey, Storage, StorageFlags, StorageView, TimeKind};
use std::collections::hash_map::RandomState;
use std::collections::HashSet;
use vstd::prelude::*;
use vstd::std_specs::hash::{builds_valid_hashers, obeys_key_model};

verus! {

broadcast use vstd::std_specs::hash::group_hash_axioms;

/// Whether `needle` occurs in `hay` as a contiguous run of characters.
pub open spec fn contains_text(hay: Seq<char>, needle: Seq<char>) -> bool {
    exists|i: int|
        0 <= i && i + needle.len() <= hay.len() && #[trigger] hay.subrange(i, i + needle.len())
            == needle
}

/// Relies on `str::contains` with a `&str` pattern: true exactly when the
/// pattern matches a sub-slice of the text.
#[verifier::external_body]
fn text_contains(hay: &str, needle: &str) -> (r: bool)
    ensures
        r == contains_text(hay@, needle@),
{
    hay.contains(needle)
}

/// A filter that cannot be built from its configuration.
#[derive(Debug)]
pub enum FilterCreateError {
    Generic(String),
}

impl FilterCreateError {
    pub fn generic(msg: String) -> (r: FilterCreateError)
        ensures
            r matches FilterCreateError::Generic(m) && m@ == msg@,
    {
        FilterCreateError::Generic(msg)
    }

    /// The error's text.
    pub fn message(&self) -> (r: &String)
        ensures
            self matches FilterCreateError::Generic(m) && r@ == m@,
    {
        match self {
            FilterCreateError::Generic(m) => m,
        }
    }
}

/// Excludes what was picked in the last cycle.
pub struct LastShown {
    last: HashSet<u64>,
}

impl LastShown {
    pub closed spec fn shown(&self) -> Set<u64> {
        self.last@
    }

    pub fn new() -> (r: LastShown)
        ensures
            r.shown() == Set::<u64>::empty(),
    {
        LastShown { last: HashSet::new() }
    }
}

/// Keeps files whose chosen time lies in a range; a missing bound is open.
pub struct TimeFilter {
    pub time_kind: TimeKind,
    pub from: Option<UnixTimestamp>,
    pub to: Option<UnixTimestamp>,
}

/// Keeps files whose relative path contains a text.
pub struct FilenameFilter {
    pub contains: String,
}

/// A tag filter by name, before the name is resolved against the catalog.
pub struct TagFilter {
    pub name: String,
}

/// A tag filter resolved to the tag's id.
pub struct TagIdFilter {
    pub unresolved: TagFilter,
    pub id: i64,
}

pub enum Filter {
    LastShown(LastShown),
    FileTime(TimeFilter),
    Filename(FilenameFilter),
    Tag(TagFilter),
    TagId(TagIdFilter),
}

/// Whether a time lies in the range of a time filter.
pub open spec fn in_range(t: UnixTimestamp, from: Option<UnixTimestamp>, to: Option<UnixTimestamp>) -> bool {
    (from matches Some(f) ==> t.0 >= f.0) && (to matches Some(u) ==> t.0 <= u.0)
}

impl Filter {
    /// Whether the filter lets the identity `key` of snapshot `s` through.
    pub open spec fn accepts(&self, key: u64, s: StorageView) -> bool {
        match self {
            Filter::LastShown(f) => !f.shown().contains(key),
            Filter::FileTime(f) => s.keys.contains(key) && in_range(
                s.time_of[key].spec_select(f.time_kind),
                f.from,
                f.to,
            ),
            Filter::Filename(f) => s.keys.contains(key) && contains_text(s.path_of[key], f.contains@),
            Filter::Tag(_) => true,
            Filter::TagId(f) => s.keys.contains(key) && s.tags_of[key].contains(f.id),
        }
    }

    pub open spec fn wf(&self) -> bool {
        &&& obeys_key_model::<u64>()
        &&& builds_valid_hashers::<RandomState>()
    }

    pub fn is_ok(&self, key: FileKey, storage: &Storage) -> (r: bool)
        requires
            storage.wf(),
        ensures
            r == self.accepts(key.0, storage@),
    {
        match self {
            Filter::LastShown(f) => !f.last.contains(&key.0),
            Filter::FileTime(f) => match storage.time(key) {
                None => false,
                Some(t) => {
                    let v = t.select(f.time_kind);
                    let lower = match f.from {
                        Some(from) => v.0 >= from.0,
                        None => true,
                    };
                    let upper = match f.to {
                        Some(to) => v.0 <= to.0,
                        None => true,
                    };
                    lower && upper
                },
            },
            Filter::Filename(f) => match storage.relative_path(key) {
                None => false,
                Some(p) => text_contains(p.as_str(), f.contains.as_str()),
            },
            Filter::Tag(_) => true,
            Filter::TagId(f) => storage.has_tag(key, f.id),
        }
    }

    /// Which secondary maps the filter reads.
    pub fn needed_storages(&self) -> (r: StorageFlags)
        ensures
            r.relapath == (self is Filename),
            r.filetime == (self is FileTime),
    {
        match self {
            Filter::FileTime(_) => StorageFlags::filetime(),
            Filter::Filename(_) => StorageFlags::relapath(),
            _ => StorageFlags::none(),
        }
    }

    /// Tells the filter which identities were just picked: the last-shown
    /// filter remembers exactly those; the others do not change.
    pub fn after_wp_refresh(&mut self, new_wps: &Vec<FileKey>)
        requires
            old(self).wf(),
        ensures
            final(self).wf(),
            *old(self) is LastShown ==> (*final(self) matches Filter::LastShown(f) && f.shown()
                == new_wps@.map_values(|k: FileKey| k.0).to_set()),
            !(*old(self) is LastShown) ==> *final(self) == *old(self),
    {
        match self {
            Filter::LastShown(f) => {
                let mut last: HashSet<u64> = HashSet::new();
                let mut i: usize = 0;
                while i < new_wps.len()
                    invariant
                        obeys_key_model::<u64>(),
                        builds_valid_hashers::<RandomState>(),
                        0 <= i <= new_wps@.len(),
                        last@ == new_wps@.subrange(0, i as int).map_values(|k: FileKey| k.0).to_set(),
                    decreases new_wps@.len() - i,
                {
                    let ghost before = last@;
                    last.insert(new_wps[i].0);
                    proof {
                        let a = new_wps@.subrange(0, i + 1).map_values(|k: FileKey| k.0);
                        let b = new_wps@.subrange(0, i as int).map_values(|k: FileKey| k.0);
                        assert(a =~= b.push(new_wps@[i as int].0));
                        assert(a.to_set() =~= b.to_set().insert(new_wps@[i as int].0)) by {
                            assert forall|x: u64| a.to_set().contains(x) implies b.to_set().insert(new_wps@[i as int].0).contains(x) by {
                                let j = choose|j: int| 0 <= j < a.len() && a[j] == x;
                                if j < i {
                                    assert(b[j] == x);
                                }
                            }
                            assert forall|x: u64| b.to_set().insert(new_wps@[i as int].0).contains(x) implies a.to_set().contains(x) by {
                                if x == new_wps@[i as int].0 {
                                    assert(a[i as int] == x);
                                } else {
                                    let j = choose|j: int| 0 <= j < b.len() && b[j] == x;
                                    assert(a[j] == x);
                                }
                            }
                        }
                    }
                    i += 1;
                }
                assert(new_wps@.subrange(0, new_wps@.len() as int) =~= new_wps@);
                f.last = last;
            },
            _ => {},
        }
    }

    /// Resolves a tag filter's name against the catalog's tag table; an
    /// unknown name is a configuration error. Other filters need nothing.
    pub fn read_ctx(&self, catalog: &Catalog) -> (r: Result<Option<Filter>, FilterCreateError>)
        requires
            catalog.wf(),
        ensures
            !(self is Tag) ==> r matches Ok(None),
            self matches Filter::Tag(t) ==> {
                &&& catalog.tag_table().contains_key(t.name@) ==> (r matches Ok(Some(Filter::TagId(f)))
                    && f.id == catalog.tag_table()[t.name@] && f.unresolved.name@ == t.name@)
                &&& !catalog.tag_table().contains_key(t.name@) ==> (r matches Err(
                    FilterCreateError::Generic(m),
                ) && m@ == seq!['T', 'a', 'g', ' ', 'w', 'i', 't', 'h', ' ', 'n', 'a', 'm', 'e', ' ']
                    + t.name@ + seq![' ', 'd', 'o', 'e', 's', 'n', '\'', 't', ' ', 'e', 'x', 'i', 's', 't'])
            },
    {
        match self {
            Filter::Tag(t) => match catalog.get_tag_id(&t.name) {
                Some(id) => Ok(
                    Some(Filter::TagId(TagIdFilter { unresolved: TagFilter { name: t.name.clone() }, id })),
                ),
                None => {
                    let mut msg = String::from_str("Tag with name ");
                    msg.append(t.name.as_str());
                    msg.append(" doesn't exist");
                    proof {
                        reveal_strlit("Tag with name ");
                        reveal_strlit(" doesn't exist");
                        assert("Tag with name "@ =~= seq!['T', 'a', 'g', ' ', 'w', 'i', 't', 'h', ' ', 'n', 'a', 'm', 'e', ' ']);
                        assert(" doesn't exist"@ =~= seq![' ', 'd', 'o', 'e', 's', 'n', '\'', 't', ' ', 'e', 'x', 'i', 's', 't']);
                    }
                    Err(FilterCreateError::generic(msg))
                },
            },
            _ => Ok(None),
        }
    }
}

/// Whether every filter of the chain lets `key` through.
pub open spec fn all_accept(fs: Seq<Filter>, key: u64, s: StorageView) -> bool {
    forall|i: int| 0 <= i < fs.len() ==> #[trigger] fs[i].accepts(key, s)
}

/// The identities of `keys`, in order, that the whole chain lets through.
pub open spec fn accepted(fs: Seq<Filter>, s: StorageView, keys: Seq<FileKey>) -> Seq<FileKey>
    decreases keys.len(),
{
    if keys.len() == 0 {
        Seq::empty()
    } else {
        let before = accepted(fs, s, keys.drop_last());
        if all_accept(fs, keys.last().0, s) {
            before.push(keys.last())
        } else {
            before
        }
    }
}

/// What a filter becomes once told the identities picked in a cycle.
pub open spec fn after_pick(f: Filter, new: Filter, chosen: Set<u64>) -> bool {
    if f is LastShown {
        new matches Filter::LastShown(l) && l.shown() == chosen
    } else {
        new == f
    }
}

/// The pick for one output among the eligible identities: none when there
/// is none, else the one at the draw's position, counted round.
pub open spec fn pick_spec(eligible: Seq<FileKey>, draw: u64) -> Option<FileKey> {
    if eligible.len() == 0 {
        None
    } else {
        Some(eligible[(draw as int) % (eligible.len() as int)])
    }
}

/// The identities of `keys`, in order, that every filter lets through.
pub fn eligible(filters: &Vec<Filter>, storage: &Storage, keys: &Vec<FileKey>) -> (r: Vec<FileKey>)
    requires
        storage.wf(),
    ensures
        r@ == accepted(filters@, storage@, keys@),
{
    let mut r: Vec<FileKey> = Vec::new();
    let mut i: usize = 0;
    while i < keys.len()
        invariant
            storage.wf(),
            0 <= i <= keys@.len(),
            r@ == accepted(filters@, storage@, keys@.subrange(0, i as int)),
        decreases keys@.len() - i,
    {
        let key = keys[i];
        let mut ok = true;
        let mut j: usize = 0;
        while j < filters.len() && ok
            invariant
                storage.wf(),
                0 <= j <= filters@.len(),
                ok == (forall|m: int| 0 <= m < j ==> #[trigger] filters@[m].accepts(key.0, storage@)),
            decreases filters@.len() - j,
        {
            ok = filters[j].is_ok(key, storage);
            j += 1;
        }
        proof {
            let next = keys@.subrange(0, i + 1);
            assert(next.drop_last() =~= keys@.subrange(0, i as int));
            assert(next.last() == key);
            if ok {
                assert(j == filters@.len());
            } else {
                let m = choose|m: int| 0 <= m < j && !#[trigger] filters@[m].accepts(key.0, storage@);
                assert(!all_accept(filters@, key.0, storage@));
            }
        }
        if ok {
            r.push(key);
        }
        i += 1;
    }
    assert(keys@.subrange(0, keys@.len() as int) =~= keys@);
    r
}

/// Picks one of the eligible identities by a draw.
pub fn pick(eligible: &Vec<FileKey>, draw: u64) -> (r: Option<FileKey>)
    ensures
        r == pick_spec(eligible@, draw),
{
    if eligible.len() == 0 {
        None
    } else {
        Some(eligible[(draw % (eligible.len() as u64)) as usize])
    }
}

/// Every identity that `accepted` keeps is one of `keys` that the whole
/// chain lets through, and each such identity of `keys` is kept.
pub proof fn lemma_accepted(fs: Seq<Filter>, s: StorageView, keys: Seq<FileKey>)
    ensures
        forall|k: FileKey| #[trigger] accepted(fs, s, keys).contains(k) <==> keys.contains(k) && all_accept(fs, k.0, s),
    decreases keys.len(),
{
    if keys.len() > 0 {
        let d = keys.drop_last();
        lemma_accepted(fs, s, d);
        let before = accepted(fs, s, d);
        assert forall|k: FileKey| #[trigger] accepted(fs, s, keys).contains(k) <==> keys.contains(k) && all_accept(fs, k.0, s) by {
            if keys.contains(k) && all_accept(fs, k.0, s) {
                let m = choose|m: int| 0 <= m < keys.len() && keys[m] == k;
                if m < keys.len() - 1 {
                    assert(d[m] == k);
                    assert(d.contains(k));
                    assert(accepted(fs, s, d).contains(k));
                    assert(before.contains(k));
                    let n = choose|n: int| 0 <= n < before.len() && before[n] == k;
                    assert(accepted(fs, s, keys)[n] == k);
                } else {
                    assert(accepted(fs, s, keys).last() == k);
                }
            }
            if accepted(fs, s, keys).contains(k) {
                let n = choose|n: int| 0 <= n < accepted(fs, s, keys).len() && accepted(fs, s, keys)[n] == k;
                if n < before.len() {
                    assert(before[n] == k);
                    assert(before.contains(k));
                    let m = choose|m: int| 0 <= m < d.len() && d[m] == k;
                    assert(keys[m] == k);
                } else {
                    assert(keys[keys.len() - 1] == k);
                }
            }
        }
    }
}

/// The identities picked in a cycle.
pub open spec fn chosen_set(picks: Seq<Option<FileKey>>) -> Set<u64> {
    Set::new(|k: u64| exists|i: int| 0 <= i < picks.len() && picks[i] == Some(FileKey(k)))
}

/// One selection cycle: for each draw, one per output, picks an identity
/// that every filter lets through, or none when there is no such identity;
/// then tells every filter which identities were picked.
pub fn pick_wallpapers(filters: &mut Vec<Filter>, storage: &Storage, draws: &Vec<u64>) -> (r: Vec<
    Option<FileKey>,
>)
    requires
        storage.wf(),
        forall|j: int| 0 <= j < old(filters)@.len() ==> (#[trigger] old(filters)@[j]).wf(),
    ensures
        r@.len() == draws@.len(),
        exists|order: Seq<FileKey>|
            {
                &&& order.len() == storage@.keys.len()
                &&& order.no_duplicates()
                &&& forall|i: int| 0 <= i < order.len() ==> storage@.keys.contains(#[trigger] order[i].0)
                &&& forall|i: int|
                    0 <= i < r@.len() ==> #[trigger] r@[i] == pick_spec(
                        accepted(old(filters)@, storage@, order),
                        draws@[i],
                    )
            },
        forall|i: int|
            0 <= i < r@.len() ==> ((#[trigger] r@[i]) is None <==> forall|k: u64|
                storage@.keys.contains(k) ==> !all_accept(old(filters)@, k, storage@)),
        forall|i: int|
            0 <= i < r@.len() ==> ((#[trigger] r@[i]) matches Some(k) ==> storage@.keys.contains(k.0)
                && all_accept(old(filters)@, k.0, storage@)),
        final(filters)@.len() == old(filters)@.len(),
        forall|j: int|
            0 <= j < final(filters)@.len() ==> after_pick(
                old(filters)@[j],
                #[trigger] final(filters)@[j],
                chosen_set(r@),
            ),
{
    let keys = storage.keys();
    let elig = eligible(filters, storage, &keys);
    proof {
        lemma_accepted(filters@, storage@, keys@);
    }
    let mut picks: Vec<Option<FileKey>> = Vec::new();
    let mut chosen: Vec<FileKey> = Vec::new();
    let mut i: usize = 0;
    while i < draws.len()
        invariant
            0 <= i <= draws@.len(),
            picks@.len() == i,
            forall|m: int| 0 <= m < i ==> #[trigger] picks@[m] == pick_spec(elig@, draws@[m]),
            chosen@.map_values(|k: FileKey| k.0).to_set() == chosen_set(picks@),
        decreases draws@.len() - i,
    {
        let p = pick(&elig, draws[i]);
        let ghost before = picks@;
        let ghost before_chosen = chosen@;
        picks.push(p);
        match p {
            Some(k) => {
                chosen.push(k);
            },
            None => {},
        }
        proof {
            let a = chosen@.map_values(|k: FileKey| k.0);
            let b = before_chosen.map_values(|k: FileKey| k.0);
            assert forall|x: u64| a.to_set().contains(x) <==> chosen_set(picks@).contains(x) by {
                if a.to_set().contains(x) {
                    let j = choose|j: int| 0 <= j < a.len() && a[j] == x;
                    if j < b.len() {
                        assert(b[j] == x);
                        assert(b.to_set().contains(x));
                        let m = choose|m: int| 0 <= m < before.len() && before[m] == Some(FileKey(x));
                        assert(picks@[m] == Some(FileKey(x)));
                    } else {
                        assert(picks@[i as int] == Some(FileKey(x)));
                    }
                }
                if chosen_set(picks@).contains(x) {
                    let m = choose|m: int| 0 <= m < picks@.len() && picks@[m] == Some(FileKey(x));
                    if m < i {
                        assert(before[m] == Some(FileKey(x)));
                        assert(chosen_set(before).contains(x));
                        assert(b.to_set().contains(x));
                        let j = choose|j: int| 0 <= j < b.len() && b[j] == x;
                        assert(a[j] == x);
                    } else {
                        assert(a[a.len() - 1] == x);
                    }
                }
            }
            assert(a.to_set() =~= chosen_set(picks@));
        }
        i += 1;
    }
    let ghost old_filters = filters@;
    let mut j: usize = 0;
    while j < filters.len()
        invariant
            0 <= j <= filters@.len(),
            filters@.len() == old_filters.len(),
            forall|m: int| j <= m < filters@.len() ==> filters@[m] == old_filters[m],
            forall|m: int| 0 <= m < old_filters.len() ==> (#[trigger] old_filters[m]).wf(),
            chosen@.map_values(|k: FileKey| k.0).to_set() == chosen_set(picks@),
            forall|m: int|
                0 <= m < j ==> after_pick(old_filters[m], #[trigger] filters@[m], chosen_set(picks@)),
        decreases filters@.len() - j,
    {
        filters[j].after_wp_refresh(&chosen);
        j += 1;
    }
    proof {
        keys@.unique_seq_to_set();
        assert(keys@.no_duplicates());
        assert forall|m: int| 0 <= m < picks@.len() implies ((#[trigger] picks@[m]) is None <==> forall|k: u64|
            storage@.keys.contains(k) ==> !all_accept(old(filters)@, k, storage@)) by {
            if picks@[m] is None {
                assert forall|k: u64| storage@.keys.contains(k) implies !all_accept(old(filters)@, k, storage@) by {
                    let n = choose|n: int| 0 <= n < keys@.len() && #[trigger] keys@[n].0 == k;
                    if all_accept(old(filters)@, k, storage@) {
                        assert(keys@.contains(keys@[n]));
                        assert(elig@.contains(keys@[n]));
                    }
                }
            } else {
                let k = elig@[(draws@[m] as int) % (elig@.len() as int)];
                assert(elig@.contains(k));
                assert(keys@.contains(k));
            }
        }
        assert forall|m: int| 0 <= m < picks@.len() implies ((#[trigger] picks@[m]) matches Some(k) ==> storage@.keys.contains(k.0)
            && all_accept(old(filters)@, k.0, storage@)) by {
            if picks@[m] is Some {
                let k = elig@[(draws@[m] as int) % (elig@.len() as int)];
                assert(elig@.contains(k));
                let n = choose|n: int| 0 <= n < keys@.len() && keys@[n] == k;
            }
        }
    }
    picks
}

/// Last-shown exclusion: once the filters were told what a cycle picked, a
/// chain that holds a last-shown filter lets none of those identities
/// through, so the next cycle cannot pick any of them again.
pub proof fn lemma_last_shown_excludes(
    before: Seq<Filter>,
    after: Seq<Filter>,
    picks: Seq<Option<FileKey>>,
    s: StorageView,
    j: int,
    k: u64,
)
    requires
        before.len() == after.len(),
        forall|m: int| 0 <= m < before.len() ==> after_pick(before[m], #[trigger] after[m], chosen_set(picks)),
        0 <= j < before.len(),
        before[j] is LastShown,
        chosen_set(picks).contains(k),
    ensures
        !all_accept(after, k, s),
{
    assert(after_pick(before[j], after[j], chosen_set(picks)));
    assert(!after[j].accepts(k, s));
}

} // verus!
