//! The entry type: one syndicated item extracted from a feed document.

use vstd::prelude::*;

verus! {

/// One syndicated item: optional primary link target, title (the empty string
/// when the source had none), and optional inline HTML body.
pub struct Entry {
    pub uri: Option<String>,
    pub title: String,
    pub body_html: Option<String>,
}

/// Mathematical value of an `Entry`: each text field as a character sequence.
pub ghost struct EntryV {
    pub uri: Option<Seq<char>>,
    pub title: Seq<char>,
    pub body_html: Option<Seq<char>>,
}

impl View for Entry {
    type V = EntryV;

    open spec fn view(&self) -> EntryV {
        EntryV {
            uri: match self.uri {
                Some(u) => Some(u@),
                None => None,
            },
            title: self.title@,
            body_html: match self.body_html {
                Some(b) => Some(b@),
                None => None,
            },
        }
    }
}

/// Clones an optional string, keeping its value.
fn clone_opt_string(o: &Option<String>) -> (r: Option<String>)
    ensures
        r == *o,
{
    match o {
        Some(s) => Some(s.clone()),
        None => None,
    }
}

impl Clone for Entry {
    fn clone(&self) -> (r: Self)
        ensures
            r == *self,
    {
        Entry {
            uri: clone_opt_string(&self.uri),
            title: self.title.clone(),
            body_html: clone_opt_string(&self.body_html),
        }
    }
}

/// The entry sequence of a vector of entries, as mathematical values.
pub open spec fn entry_views(s: Seq<Entry>) -> Seq<EntryV> {
    s.map_values(|e: Entry| e@)
}

} // verus!
