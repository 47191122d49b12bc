//! Core of a full-history feed reader.
//!
//! Ordinary readers show only the window of entries a feed document carries.
//! Feeds that implement paging expose older windows as further documents,
//! reachable through Atom `prev-archive` / `next-archive` link relations.
//! This crate holds the verified core that stitches such a chain together:
//! the link-relation extractor, the archive-chain resolver, the navigable
//! history model, and the navigation controller. Fetching documents over the
//! network, parsing raw bytes into a document, and the presentation layer are
//! external collaborators kept outside this crate.

pub mod entry;
pub mod extract;
pub mod history;
pub mod nav;
pub mod resolver;
