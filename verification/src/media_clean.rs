//! Deleting old entries of the media cache, as a state machine.
//!
//! The run names its next action: tell of the next entry of the cache directory,
//! or remove the entry that was told of. Whoever performs the action tells the
//! run of the outcome.

use crate::media_cache::{expired, MediaCache};
use vstd::prelude::*;

verus! {

/// What is known of an entry of the cache directory.
#[derive(Debug, Clone, Copy)]
pub struct EntryInfo {
    pub is_file: bool,
    /// Nanoseconds since the entry was last modified, where they are known and
    /// the modification does not lie in the future.
    pub age: Option<u128>,
}

/// What a run asks for.
#[derive(Debug, Clone, Copy, PartialEq, Eq, Structural)]
pub enum CleanupAction {
    /// Tell of the next entry of the directory.
    Next,
    /// Remove the entry that was told of last.
    Remove,
    /// Nothing more; so many entries were removed.
    Done { removed: usize },
}

/// Where a run stands.
#[derive(Debug, Clone, Copy, PartialEq, Eq, Structural)]
pub enum CleanupPhase {
    Listing,
    Removing,
    Finished,
}

/// A run: the age up to which entries stay, how many were removed, and where the
/// run stands.
#[derive(Debug, Clone, Copy)]
pub struct CleanupRun {
    max_age: u128,
    removed: usize,
    phase: CleanupPhase,
}

/// What a run holds.
pub struct CleanupView {
    pub max_age: u128,
    pub removed: usize,
    pub phase: CleanupPhase,
}

impl View for CleanupRun {
    type V = CleanupView;

    closed spec fn view(&self) -> CleanupView {
        CleanupView { max_age: self.max_age, removed: self.removed, phase: self.phase }
    }
}

impl CleanupView {
    /// The run that removes what is older than `max_age`. Without a directory
    /// there is nothing to do.
    pub open spec fn begun(dir_exists: bool, max_age: u128) -> Self {
        CleanupView {
            max_age,
            removed: 0,
            phase: if dir_exists {
                CleanupPhase::Listing
            } else {
                CleanupPhase::Finished
            },
        }
    }

    /// The run after it was told of the next entry, or that there is none.
    pub open spec fn after_entry(self, entry: Option<EntryInfo>) -> Self {
        CleanupView {
            phase: match entry {
                Some(info) => if expired(info.is_file, info.age, self.max_age) {
                    CleanupPhase::Removing
                } else {
                    CleanupPhase::Listing
                },
                None => CleanupPhase::Finished,
            },
            ..self
        }
    }

    /// The run after the entry was removed, or could not be.
    pub open spec fn after_removal(self, succeeded: bool) -> Self {
        CleanupView {
            removed: if succeeded {
                (self.removed + 1) as usize
            } else {
                self.removed
            },
            phase: CleanupPhase::Listing,
            ..self
        }
    }

    /// What the run asks for.
    pub open spec fn action(self) -> CleanupAction {
        match self.phase {
            CleanupPhase::Listing => CleanupAction::Next,
            CleanupPhase::Removing => CleanupAction::Remove,
            CleanupPhase::Finished => CleanupAction::Done { removed: self.removed },
        }
    }
}

impl CleanupRun {
    /// The run that removes what is older than `max_age`, in nanoseconds.
    pub fn begin(dir_exists: bool, max_age: u128) -> (run: Self)
        ensures
            run@ == CleanupView::begun(dir_exists, max_age),
    {
        CleanupRun {
            max_age,
            removed: 0,
            phase: if dir_exists {
                CleanupPhase::Listing
            } else {
                CleanupPhase::Finished
            },
        }
    }

    /// What the run asks for.
    pub fn action(&self) -> (action: CleanupAction)
        ensures
            action == self@.action(),
    {
        match self.phase {
            CleanupPhase::Listing => CleanupAction::Next,
            CleanupPhase::Removing => CleanupAction::Remove,
            CleanupPhase::Finished => CleanupAction::Done { removed: self.removed },
        }
    }

    /// How many entries were removed so far.
    pub fn removed(&self) -> (removed: usize)
        ensures
            removed == self@.removed,
    {
        self.removed
    }

    /// The next entry of the directory, if there is one.
    pub fn listed(&mut self, entry: Option<EntryInfo>)
        requires
            old(self)@.phase is Listing,
        ensures
            final(self)@ == old(self)@.after_entry(entry),
    {
        self.phase = match entry {
            Some(info) => {
                if MediaCache::is_expired(info.is_file, info.age, self.max_age) {
                    CleanupPhase::Removing
                } else {
                    CleanupPhase::Listing
                }
            },
            None => CleanupPhase::Finished,
        };
    }

    /// The entry was removed, or could not be.
    pub fn tried(&mut self, succeeded: bool)
        requires
            old(self)@.phase is Removing,
            old(self)@.removed < usize::MAX,
        ensures
            final(self)@ == old(self)@.after_removal(succeeded),
    {
        if succeeded {
            self.removed = self.removed + 1;
        }
        self.phase = CleanupPhase::Listing;
    }
}

/// An entry of the cache directory, and whether it can be removed.
pub struct DirEntry {
    pub info: EntryInfo,
    pub removable: bool,
}

/// The entry is removed by a run with the given age: it is a file, older than
/// that, and can be removed.
pub open spec fn goes(entry: DirEntry, max_age: u128) -> bool {
    entry.info.is_file && entry.removable && (entry.info.age matches Some(age) && age > max_age)
}

/// The run after it went through some entries and did with each what it asks
/// for, and the entries that are left.
pub open spec fn swept(run: CleanupView, entries: Seq<DirEntry>) -> (CleanupView, Seq<DirEntry>)
    decreases entries.len(),
{
    if entries.len() == 0 {
        (run, Seq::empty())
    } else {
        let (before, left) = swept(run, entries.drop_last());
        let entry = entries.last();
        let told = before.after_entry(Some(entry.info));
        if told.action() == CleanupAction::Remove {
            (
                told.after_removal(entry.removable),
                if entry.removable {
                    left
                } else {
                    left.push(entry)
                },
            )
        } else {
            (told, left.push(entry))
        }
    }
}

proof fn lemma_swept(max_age: u128, entries: Seq<DirEntry>)
    requires
        entries.len() <= usize::MAX,
    ensures
        ({
            let (run, left) = swept(CleanupView::begun(true, max_age), entries);
            &&& run.max_age == max_age
            &&& run.phase is Listing
            &&& run.removed == entries.filter(|e: DirEntry| goes(e, max_age)).len()
            &&& run.removed <= entries.len()
            &&& left == entries.filter(|e: DirEntry| !goes(e, max_age))
        }),
    decreases entries.len(),
{
    reveal_with_fuel(Seq::filter, 2);
    if entries.len() > 0 {
        lemma_swept(max_age, entries.drop_last());
    }
}

/// Going through a cache directory removes exactly the files that are older than
/// the given age and can be removed, and leaves all other entries, in order; the
/// number of those removed is the answer. Without a directory it is 0.
pub proof fn law_cleanup_removes_exactly_the_old_files(max_age: u128, entries: Seq<DirEntry>)
    requires
        entries.len() <= usize::MAX,
    ensures
        ({
            let (run, left) = swept(CleanupView::begun(true, max_age), entries);
            let removed = entries.filter(|e: DirEntry| goes(e, max_age)).len();
            &&& left == entries.filter(|e: DirEntry| !goes(e, max_age))
            &&& run.action() == CleanupAction::Next
            &&& run.after_entry(None).action() == (CleanupAction::Done {
                removed: removed as usize,
            })
            &&& removed <= entries.len()
        }),
        CleanupView::begun(false, max_age).action() == (CleanupAction::Done { removed: 0 }),
{
    lemma_swept(max_age, entries);
}

} // verus!
