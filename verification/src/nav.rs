//! The navigation controller.
//!
//! A thin adapter from external triggers — a finished (or failed) feed
//! resolution, "next entry", "previous entry" — to history-model operations
//! and to the notification the presentation collaborator is handed. A
//! rejected boundary move produces no notification; a failed resolution
//! leaves the previously loaded history untouched.

use vstd::prelude::*;
use crate::entry::{Entry, EntryV, entry_views};
use crate::history::HistoryModel;
use crate::resolver::{HistoryAssembly, ResolveError};

verus! {

/// What the presentation collaborator shows for one entry: its inline HTML
/// body when the entry carries one, else its primary link target.
pub enum EntryDisplay {
    Body(String),
    Uri(String),
}

/// What the presentation collaborator is told.
pub enum Notification {
    /// Show this entry: its title, and its body or link target when it has
    /// one.
    EntryChanged { title: String, display: Option<EntryDisplay> },
    /// A feed load failed; the shown history is unchanged.
    ResolveFailed { error: ResolveError },
}

/// An external trigger.
pub enum NavEvent {
    /// A feed resolution completed with this assembly.
    FeedResolved(HistoryAssembly),
    /// A feed resolution failed with this error.
    ResolveFailed(ResolveError),
    /// Move to the next entry.
    NextEntry,
    /// Move to the previous entry.
    PreviousEntry,
}

/// `d` is the display of the entry `e`: its body when present, else its
/// link target, else nothing.
pub open spec fn display_matches(d: Option<EntryDisplay>, e: EntryV) -> bool {
    match e.body_html {
        Some(b) => d matches Some(EntryDisplay::Body(s)) && s@ == b,
        None => match e.uri {
            Some(u) => d matches Some(EntryDisplay::Uri(s)) && s@ == u,
            None => d is None,
        },
    }
}

/// `n` announces the entry `e`.
pub open spec fn notifies_entry(n: Notification, e: EntryV) -> bool {
    n matches Notification::EntryChanged { title, display } && title@ == e.title
        && display_matches(display, e)
}

/// Builds the notification announcing one entry.
fn notify(e: Entry) -> (n: Notification)
    ensures
        notifies_entry(n, e@),
{
    let Entry { uri, title, body_html } = e;
    let display = match body_html {
        Some(b) => Some(EntryDisplay::Body(b)),
        None => match uri {
            Some(u) => Some(EntryDisplay::Uri(u)),
            None => None,
        },
    };
    Notification::EntryChanged { title, display }
}

/// The single owner of all feed and navigation state. Resolutions run
/// outside this type and hand their outcome in as one event; when two
/// resolutions overlap, the one whose outcome arrives last wins, and the
/// history is replaced atomically either way.
pub struct NavigationController {
    pub history: HistoryModel,
}

impl NavigationController {
    /// A controller with no history loaded.
    pub fn new() -> (r: NavigationController)
        ensures
            r.history.wf(),
            r.history.entry_seq().len() == 0,
    {
        NavigationController { history: HistoryModel::new() }
    }

    /// Applies one external trigger to the history and says what the
    /// presentation collaborator is told: the new current entry after a
    /// successful load or an accepted move, the error after a failed load
    /// (with the history untouched), and nothing after a rejected boundary
    /// move.
    pub fn on_event(&mut self, event: NavEvent) -> (r: Option<Notification>)
        requires
            old(self).history.wf(),
        ensures
            final(self).history.wf(),
            match event {
                NavEvent::FeedResolved(assembly) => {
                    &&& final(self).history.entry_seq() == entry_views(assembly.entries@)
                    &&& final(self).history.index() == 0
                    &&& if entry_views(assembly.entries@).len() > 0 {
                        r matches Some(n) && notifies_entry(n, entry_views(assembly.entries@)[0])
                    } else {
                        r is None
                    }
                },
                NavEvent::ResolveFailed(error) => {
                    &&& final(self).history == old(self).history
                    &&& r matches Some(n) && n matches Notification::ResolveFailed { error: e } && e
                        == error
                },
                NavEvent::NextEntry => {
                    &&& final(self).history.entry_seq() == old(self).history.entry_seq()
                    &&& if old(self).history.index() + 1 < old(self).history.entry_seq().len() {
                        &&& final(self).history.index() == old(self).history.index() + 1
                        &&& r matches Some(n) && notifies_entry(
                            n,
                            old(self).history.entry_seq()[final(self).history.index()],
                        )
                    } else {
                        &&& final(self).history.index() == old(self).history.index()
                        &&& r is None
                    }
                },
                NavEvent::PreviousEntry => {
                    &&& final(self).history.entry_seq() == old(self).history.entry_seq()
                    &&& if old(self).history.index() > 0 {
                        &&& final(self).history.index() == old(self).history.index() - 1
                        &&& r matches Some(n) && notifies_entry(
                            n,
                            old(self).history.entry_seq()[final(self).history.index()],
                        )
                    } else {
                        &&& final(self).history.index() == old(self).history.index()
                        &&& r is None
                    }
                },
            },
    {
        match event {
            NavEvent::FeedResolved(assembly) => {
                let HistoryAssembly { entries, first: _, last: _ } = assembly;
                self.history.load(entries);
                match self.history.current() {
                    Some(e) => Some(notify(e)),
                    None => None,
                }
            },
            NavEvent::ResolveFailed(error) => Some(Notification::ResolveFailed { error }),
            NavEvent::NextEntry => match self.history.advance() {
                Some(e) => Some(notify(e)),
                None => None,
            },
            NavEvent::PreviousEntry => match self.history.retreat() {
                Some(e) => Some(notify(e)),
                None => None,
            },
        }
    }
}

} // verus!
