//! The daemon state that request handlers read and change: the wallpaper
//! currently assigned to each output, and whether selection is frozen.

use crate::data::{joined, RootData};
use crate::storage::{FileKey, Storage, StorageView};
use vstd::prelude::*;

verus! {

/// The absolute path shown for a pick: none unless the pick names a live
/// identity and the backend set it.
pub open spec fn shown_path(
    root_path: Seq<char>,
    s: StorageView,
    pick: Option<FileKey>,
    applied: bool,
) -> Option<Seq<char>> {
    match pick {
        Some(k) => if applied && s.keys.contains(k.0) {
            Some(joined(root_path, s.path_of[k.0]))
        } else {
            None
        },
        None => None,
    }
}

/// A request from a client.
#[derive(Debug, PartialEq, Eq, Structural, Clone, Copy)]
pub enum Cmd {
    /// Select some new wallpapers.
    Refresh,
    /// Rescan the wallpaper directory.
    Rescan,
    /// Report the current wallpapers.
    Current,
    /// Stop or resume changing wallpapers.
    ToggleFreeze,
}

/// Which timer a request cuts short.
#[derive(Debug, PartialEq, Eq, Structural, Clone, Copy)]
pub enum Wakeup {
    Nothing,
    Refresh,
    Rescan,
}

/// The answer to a request.
#[derive(Debug)]
pub enum Reply {
    Unit,
    Wps(Vec<(String, Option<String>)>),
    FreezeStatus(bool),
}

pub struct StateInner {
    current_wps: Vec<(String, Option<String>)>,
    frozen: bool,
}

impl StateInner {
    /// Each output with the absolute path of its wallpaper, if it has one.
    pub closed spec fn current(&self) -> Seq<(Seq<char>, Option<Seq<char>>)> {
        self.current_wps@.map_values(
            |e: (String, Option<String>)|
                (
                    e.0@,
                    match e.1 {
                        Some(p) => Some(p@),
                        None => None,
                    },
                ),
        )
    }

    pub closed spec fn is_frozen(&self) -> bool {
        self.frozen
    }

    pub fn new() -> (r: StateInner)
        ensures
            r.current().len() == 0,
            !r.is_frozen(),
    {
        StateInner { current_wps: Vec::new(), frozen: false }
    }

    /// Whether a refresh tick may change the wallpapers.
    pub fn frozen(&self) -> (r: bool)
        ensures
            r == self.is_frozen(),
    {
        self.frozen
    }

    /// Flips the freeze switch and returns its new value.
    pub fn toggle_freeze(&mut self) -> (r: bool)
        ensures
            final(self).is_frozen() == !old(self).is_frozen(),
            r == final(self).is_frozen(),
            final(self).current() == old(self).current(),
    {
        self.frozen = !self.frozen;
        self.frozen
    }

    /// Records a cycle's picks: output `i` shows the absolute path of the
    /// identity picked for it if the backend set it (`applied[i]`), else
    /// nothing. The previous record is replaced.
    pub fn record_selection(
        &mut self,
        root: &RootData,
        storage: &Storage,
        outputs: &Vec<String>,
        picks: &Vec<Option<FileKey>>,
        applied: &Vec<bool>,
    )
        requires
            storage.wf(),
            outputs@.len() == picks@.len(),
            outputs@.len() == applied@.len(),
        ensures
            final(self).is_frozen() == old(self).is_frozen(),
            final(self).current().len() == outputs@.len(),
            forall|i: int|
                0 <= i < outputs@.len() ==> #[trigger] final(self).current()[i] == (
                    outputs@[i]@,
                    shown_path(root.path@, storage@, picks@[i], applied@[i]),
                ),
    {
        let mut wps: Vec<(String, Option<String>)> = Vec::new();
        let mut i: usize = 0;
        while i < outputs.len()
            invariant
                storage.wf(),
                outputs@.len() == picks@.len(),
                outputs@.len() == applied@.len(),
                0 <= i <= outputs@.len(),
                wps@.len() == i,
                forall|m: int|
                    0 <= m < i ==> (#[trigger] wps@[m]).0@ == outputs@[m]@ && match wps@[m].1 {
                        Some(p) => shown_path(root.path@, storage@, picks@[m], applied@[m]) == Some(p@),
                        None => shown_path(root.path@, storage@, picks@[m], applied@[m]) is None,
                    },
            decreases outputs@.len() - i,
        {
            let path = match picks[i] {
                Some(k) => if !applied[i] {
                    None
                } else {
                    match storage.relative_path(k) {
                        Some(rel) => Some(root.root(rel)),
                        None => None,
                    }
                },
                None => None,
            };
            wps.push((outputs[i].clone(), path));
            i += 1;
        }
        self.current_wps = wps;
        proof {
            assert forall|m: int| 0 <= m < outputs@.len() implies #[trigger] self.current()[m] == (
                outputs@[m]@,
                shown_path(root.path@, storage@, picks@[m], applied@[m]),
            ) by {
                let e = self.current_wps@[m];
                match e.1 {
                    Some(p) => {},
                    None => {},
                }
            }
        }
    }

    /// The outputs and their wallpapers, as handed to a client.
    pub fn get_wallpapers(&self) -> (r: Vec<(String, Option<String>)>)
        ensures
            r@.len() == self.current().len(),
            forall|i: int|
                0 <= i < r@.len() ==> (#[trigger] r@[i]).0@ == self.current()[i].0 && match r@[i].1 {
                    Some(p) => self.current()[i].1 == Some(p@),
                    None => self.current()[i].1 is None,
                },
    {
        let mut r: Vec<(String, Option<String>)> = Vec::new();
        let mut i: usize = 0;
        while i < self.current_wps.len()
            invariant
                0 <= i <= self.current_wps@.len(),
                r@.len() == i,
                forall|m: int|
                    0 <= m < i ==> (#[trigger] r@[m]).0@ == self.current()[m].0 && match r@[m].1 {
                        Some(p) => self.current()[m].1 == Some(p@),
                        None => self.current()[m].1 is None,
                    },
            decreases self.current_wps@.len() - i,
        {
            let e = &self.current_wps[i];
            let path = match &e.1 {
                Some(p) => Some(p.clone()),
                None => None,
            };
            r.push((e.0.clone(), path));
            i += 1;
        }
        r
    }
    /// Answers a request: refresh and rescan cut their timer short, the
    /// current wallpapers are reported, and the freeze switch flips.
    pub fn handle(&mut self, cmd: Cmd) -> (r: (Reply, Wakeup))
        ensures
            cmd == Cmd::Refresh ==> (r.0 is Unit && r.1 == Wakeup::Refresh && *final(self) == *old(self)),
            cmd == Cmd::Rescan ==> (r.0 is Unit && r.1 == Wakeup::Rescan && *final(self) == *old(self)),
            cmd == Cmd::Current ==> (r.1 == Wakeup::Nothing && *final(self) == *old(self) && (r.0 matches Reply::Wps(w)
                && w@.len() == old(self).current().len() && forall|i: int|
                0 <= i < w@.len() ==> (#[trigger] w@[i]).0@ == old(self).current()[i].0 && match w@[i].1 {
                    Some(p) => old(self).current()[i].1 == Some(p@),
                    None => old(self).current()[i].1 is None,
                })),
            cmd == Cmd::ToggleFreeze ==> (r.1 == Wakeup::Nothing && final(self).is_frozen() == !old(self).is_frozen()
                && final(self).current() == old(self).current() && r.0 == Reply::FreezeStatus(
                final(self).is_frozen(),
            )),
    {
        match cmd {
            Cmd::Refresh => (Reply::Unit, Wakeup::Refresh),
            Cmd::Rescan => (Reply::Unit, Wakeup::Rescan),
            Cmd::Current => (Reply::Wps(self.get_wallpapers()), Wakeup::Nothing),
            Cmd::ToggleFreeze => {
                let frozen = self.toggle_freeze();
                (Reply::FreezeStatus(frozen), Wakeup::Nothing)
            },
        }
    }
}

} // verus!
