//! The history model: the assembled entry history and a navigable position.

use vstd::prelude::*;
use crate::entry::{Entry, EntryV, entry_views};

verus! {

/// The assembled, randomly navigable history of a feed: an ordered entry
/// sequence and the current position. Loading a feed replaces the sequence
/// wholesale and resets the position; navigation clamps at both ends.
pub struct HistoryModel {
    entries: Vec<Entry>,
    current_index: usize,
}

impl HistoryModel {
    /// The entries, as mathematical values.
    pub closed spec fn entry_seq(self) -> Seq<EntryV> {
        entry_views(self.entries@)
    }

    /// The current position.
    pub closed spec fn index(self) -> int {
        self.current_index as int
    }

    /// Well-formed: the position lies inside the entry sequence, and is zero
    /// when the sequence is empty.
    pub open spec fn wf(self) -> bool {
        if self.entry_seq().len() == 0 {
            self.index() == 0
        } else {
            0 <= self.index() < self.entry_seq().len()
        }
    }

    /// An empty history.
    pub fn new() -> (r: HistoryModel)
        ensures
            r.wf(),
            r.entry_seq() =~= Seq::<EntryV>::empty(),
            r.index() == 0,
    {
        HistoryModel { entries: Vec::new(), current_index: 0 }
    }

    /// Replaces the whole history and resets the position to the first entry.
    pub fn load(&mut self, entries: Vec<Entry>)
        ensures
            final(self).wf(),
            final(self).entry_seq() == entry_views(entries@),
            final(self).index() == 0,
    {
        self.entries = entries;
        self.current_index = 0;
    }

    /// The entry at the current position, or `None` when the history is empty.
    pub fn current(&self) -> (r: Option<Entry>)
        requires
            self.wf(),
        ensures
            match r {
                Some(e) => self.entry_seq().len() > 0 && e@ == self.entry_seq()[self.index()],
                None => self.entry_seq().len() == 0,
            },
    {
        if self.entries.len() > 0 {
            Some(self.entries[self.current_index].clone())
        } else {
            None
        }
    }

    /// Moves one entry forward and returns the new current entry; at the last
    /// entry (or on an empty history) the state is unchanged and the result
    /// is `None`.
    pub fn advance(&mut self) -> (r: Option<Entry>)
        requires
            old(self).wf(),
        ensures
            final(self).wf(),
            final(self).entry_seq() == old(self).entry_seq(),
            match r {
                Some(e) => old(self).index() + 1 < old(self).entry_seq().len()
                    && final(self).index() == old(self).index() + 1
                    && e@ == old(self).entry_seq()[final(self).index()],
                None => old(self).index() + 1 >= old(self).entry_seq().len()
                    && final(self).index() == old(self).index(),
            },
    {
        if self.current_index < self.entries.len() && self.entries.len() - self.current_index > 1 {
            self.current_index = self.current_index + 1;
            Some(self.entries[self.current_index].clone())
        } else {
            None
        }
    }

    /// Moves one entry back and returns the new current entry; at the first
    /// entry (or on an empty history) the state is unchanged and the result
    /// is `None`.
    pub fn retreat(&mut self) -> (r: Option<Entry>)
        requires
            old(self).wf(),
        ensures
            final(self).wf(),
            final(self).entry_seq() == old(self).entry_seq(),
            match r {
                Some(e) => old(self).index() > 0
                    && final(self).index() == old(self).index() - 1
                    && e@ == old(self).entry_seq()[final(self).index()],
                None => old(self).index() == 0 && final(self).index() == old(self).index(),
            },
    {
        if self.current_index > 0 {
            self.current_index = self.current_index - 1;
            Some(self.entries[self.current_index].clone())
        } else {
            None
        }
    }
}

} // verus!
