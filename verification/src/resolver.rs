//! The archive-chain resolver.
//!
//! Starting from a seed URL, the resolver asks its caller to fetch and parse
//! one document at a time and decides after each document whether the chain
//! continues: it follows a `prev-archive` link exactly when that relation
//! group holds exactly one link whose target has not been visited yet. The
//! fetch itself is the one suspension point of the system and stays with the
//! caller; every decision is made here. Entries accumulate in traversal
//! order: the seed document's entries first, then each older document's.

use vstd::prelude::*;
use crate::entry::{Entry, EntryV, entry_views};
use crate::extract::{
    extract_links, extracted_links, find_relation, group_for, groups_wf, link_views, LinkRelation,
    LinkRelationV, Namespace, PrefixExtensions, RelationGroup,
};

verus! {

/// A parsed feed document, as the external document parser hands it over:
/// its entries, its namespace declarations, and its extension element trees.
pub struct FeedDocument {
    pub namespaces: Vec<Namespace>,
    pub extensions: Vec<PrefixExtensions>,
    pub entries: Vec<Entry>,
}

/// What went wrong at one hop of the chain.
#[derive(Clone, Copy, PartialEq, Eq, Structural, Debug)]
pub enum FailureKind {
    /// The transport could not deliver the document.
    Fetch,
    /// The delivered bytes were not a recognizable feed document.
    InvalidDocument,
}

/// A failed resolution: the kind of failure and the chain position at which
/// it struck, counted in documents fetched successfully before it.
#[derive(Clone, Copy, PartialEq, Eq, Structural, Debug)]
pub struct ResolveError {
    pub kind: FailureKind,
    pub position: usize,
}

/// The assembled history: all entries of the visited documents in traversal
/// order, plus the terminal document's `first` and `last` links when
/// advertised.
pub struct HistoryAssembly {
    pub entries: Vec<Entry>,
    pub first: Option<LinkRelation>,
    pub last: Option<LinkRelation>,
}

/// The sequences of characters of a vector of strings.
pub open spec fn string_views(v: Seq<String>) -> Seq<Seq<char>> {
    v.map_values(|s: String| s@)
}

/// The mathematical value of an optional link relation.
pub open spec fn opt_link_view(o: Option<LinkRelation>) -> Option<LinkRelationV> {
    match o {
        Some(l) => Some(l@),
        None => None,
    }
}

/// The `prev-archive` relation group of a document.
pub open spec fn prev_archive_group(doc: FeedDocument) -> Seq<LinkRelationV> {
    group_for(extracted_links(doc.namespaces@, doc.extensions@), "prev-archive"@)
}

/// The URL the chain continues with after `doc`, given the URLs already
/// visited: the target of the document's single `prev-archive` link, absent
/// when the group is empty (the chain ends normally), holds several links
/// (ambiguous, not followed), or points back at a visited URL (cycle guard).
pub open spec fn follow_target(doc: FeedDocument, visited: Seq<Seq<char>>) -> Option<Seq<char>> {
    let pa = prev_archive_group(doc);
    if pa.len() == 1 && !visited.contains(pa[0].href) {
        Some(pa[0].href)
    } else {
        None
    }
}

/// The first link of the group of `rel` among the extracted links, if any.
pub open spec fn first_link(links: Seq<LinkRelationV>, rel: Seq<char>) -> Option<LinkRelationV> {
    let g = group_for(links, rel);
    if g.len() > 0 {
        Some(g[0])
    } else {
        None
    }
}

/// Does `v` hold a string whose characters are those of `s`?
fn contains_string(v: &Vec<String>, s: &String) -> (r: bool)
    ensures
        r == string_views(v@).contains(s@),
{
    let mut i: usize = 0;
    while i < v.len()
        invariant
            0 <= i <= v@.len(),
            forall|k: int| 0 <= k < i ==> (#[trigger] v@[k]@) != s@,
        decreases v@.len() - i,
    {
        if v[i] == *s {
            proof {
                assert(string_views(v@)[i as int] == s@);
            }
            return true;
        }
        i = i + 1;
    }
    proof {
        assert forall|k: int| 0 <= k < string_views(v@).len() implies string_views(v@)[k]
            != s@ by {
            assert(string_views(v@)[k] == v@[k]@);
        }
    }
    false
}

/// One archive-chain resolution in progress: the URLs fetched so far, the
/// URL whose fetch is outstanding, and the entries accumulated so far.
pub struct Resolver {
    visited: Vec<String>,
    pending: String,
    entries: Vec<Entry>,
}

/// What the resolver decides after one document.
pub enum ResolveStep {
    /// The chain continues: fetch `url` next and hand the document back to
    /// `resolver`.
    FetchNext { resolver: Resolver, url: String },
    /// The chain ended at this document; the history is assembled.
    Complete { assembly: HistoryAssembly },
}

impl Resolver {
    /// The URLs of the documents fetched so far, in fetch order.
    pub closed spec fn visited(self) -> Seq<Seq<char>> {
        string_views(self.visited@)
    }

    /// The URL whose fetch is outstanding.
    pub closed spec fn pending(self) -> Seq<char> {
        self.pending@
    }

    /// The entries accumulated so far, in traversal order.
    pub closed spec fn collected(self) -> Seq<EntryV> {
        entry_views(self.entries@)
    }

    /// Well-formed: no URL was fetched twice, and the outstanding URL is new.
    pub open spec fn wf(self) -> bool {
        &&& self.visited().no_duplicates()
        &&& !self.visited().contains(self.pending())
    }

    /// Starts a resolution at `seed_url`; the caller's first step is to
    /// fetch it.
    pub fn new(seed_url: String) -> (r: Resolver)
        ensures
            r.wf(),
            r.visited() =~= Seq::<Seq<char>>::empty(),
            r.pending() == seed_url@,
            r.collected() =~= Seq::<EntryV>::empty(),
    {
        Resolver { visited: Vec::new(), pending: seed_url, entries: Vec::new() }
    }

    /// The URL the caller is asked to fetch next.
    pub fn pending_url(&self) -> (r: &String)
        ensures
            r@ == self.pending(),
    {
        &self.pending
    }

    /// The error a failed fetch or parse of the outstanding document
    /// surfaces: resolution is all-or-nothing, and the position names the
    /// hop that failed.
    pub fn fail(&self, kind: FailureKind) -> (e: ResolveError)
        ensures
            e.kind == kind,
            e.position == self.visited().len(),
    {
        ResolveError { kind, position: self.visited.len() }
    }

    /// Takes the fetched and parsed document for the outstanding URL and
    /// decides: continue with the target of its single unvisited
    /// `prev-archive` link, or complete the assembly at this terminal
    /// document.
    pub fn on_document(self, doc: FeedDocument) -> (r: ResolveStep)
        requires
            self.wf(),
        ensures
            ({
                let visited2 = self.visited().push(self.pending());
                let collected2 = self.collected() + entry_views(doc.entries@);
                let ex = extracted_links(doc.namespaces@, doc.extensions@);
                match r {
                    ResolveStep::FetchNext { resolver, url } => {
                        &&& follow_target(doc, visited2) == Some(url@)
                        &&& resolver.wf()
                        &&& resolver.visited() == visited2
                        &&& resolver.pending() == url@
                        &&& resolver.collected() == collected2
                    },
                    ResolveStep::Complete { assembly } => {
                        &&& follow_target(doc, visited2) is None
                        &&& entry_views(assembly.entries@) == collected2
                        &&& opt_link_view(assembly.first) == first_link(ex, "first"@)
                        &&& opt_link_view(assembly.last) == first_link(ex, "last"@)
                    },
                }
            }),
    {
        let ghost old_self = self;
        let Resolver { mut visited, pending, mut entries } = self;
        let FeedDocument { namespaces, extensions, entries: mut doc_entries } = doc;
        proof {
            assert(entry_views(entries@ + doc_entries@) =~= entry_views(entries@) + entry_views(
                doc_entries@,
            ));
        }
        entries.append(&mut doc_entries);
        visited.push(pending);
        let ghost visited2 = string_views(visited@);
        proof {
            assert(visited2 =~= old_self.visited().push(old_self.pending()));
            assert forall|i: int, j: int| 0 <= i < j < visited2.len() implies visited2[i]
                != visited2[j] by {
                if j < visited2.len() - 1 {
                    assert(old_self.visited()[i] != old_self.visited()[j]);
                } else {
                    assert(!old_self.visited().contains(old_self.pending()));
                    assert(old_self.visited()[i] == visited2[i]);
                }
            }
        }
        let groups = extract_links(&namespaces, &extensions);
        let ghost ex = extracted_links(namespaces@, extensions@);
        if let Some(g) = find_relation(&groups, &"prev-archive".to_owned()) {
            proof {
                let i = choose|i: int|
                    0 <= i < groups@.len() && groups@[i] == *g && (#[trigger] groups@[i].relation@)
                        == "prev-archive"@;
                assert(link_views(g.links@) == group_for(ex, "prev-archive"@));
            }
            if g.links.len() == 1 {
                proof {
                    assert(link_views(g.links@)[0] == g.links@[0]@);
                }
                let href = g.links[0].href.clone();
                if !contains_string(&visited, &href) {
                    let url = href.clone();
                    let resolver = Resolver { visited, pending: href, entries };
                    return ResolveStep::FetchNext { resolver, url };
                }
            }
        } else {
            proof {
                if group_for(ex, "prev-archive"@).len() > 0 {
                    assert(exists|i: int|
                        0 <= i < groups@.len() && (#[trigger] groups@[i].relation@)
                            == "prev-archive"@);
                    let i = choose|i: int|
                        0 <= i < groups@.len() && (#[trigger] groups@[i].relation@)
                            == "prev-archive"@;
                    assert(false);
                }
            }
        }
        let first = terminal_link(&groups, &"first".to_owned(), Ghost(ex));
        let last = terminal_link(&groups, &"last".to_owned(), Ghost(ex));
        ResolveStep::Complete { assembly: HistoryAssembly { entries, first, last } }
    }
}

/// The first link of the group of `rel`, cloned out of an extraction result.
fn terminal_link(
    groups: &Vec<RelationGroup>,
    rel: &String,
    ex: Ghost<Seq<LinkRelationV>>,
) -> (r: Option<LinkRelation>)
    requires
        groups_wf(groups@, ex@),
    ensures
        opt_link_view(r) == first_link(ex@, rel@),
{
    match find_relation(groups, rel) {
        Some(g) => {
            proof {
                let i = choose|i: int|
                    0 <= i < groups@.len() && groups@[i] == *g && (#[trigger] groups@[i].relation@)
                        == rel@;
                assert(link_views(g.links@) == group_for(ex@, rel@));
                assert(link_views(g.links@)[0] == g.links@[0]@);
            }
            Some(g.links[0].clone())
        },
        None => {
            proof {
                if group_for(ex@, rel@).len() > 0 {
                    let i = choose|i: int|
                        0 <= i < groups@.len() && (#[trigger] groups@[i].relation@) == rel@;
                    assert(false);
                }
            }
            None
        },
    }
}

/// Mathematical value of a `HistoryAssembly`.
pub ghost struct AssemblyV {
    pub entries: Seq<EntryV>,
    pub first: Option<LinkRelationV>,
    pub last: Option<LinkRelationV>,
}

/// The mathematical value of an assembly.
pub open spec fn assembly_view(a: HistoryAssembly) -> AssemblyV {
    AssemblyV {
        entries: entry_views(a.entries@),
        first: opt_link_view(a.first),
        last: opt_link_view(a.last),
    }
}

/// One document at its URL, in a table of already fetched documents.
pub struct DocRecord {
    pub url: String,
    pub doc: FeedDocument,
}

/// The URLs of a document table, in order.
pub open spec fn record_urls(docs: Seq<DocRecord>) -> Seq<Seq<char>> {
    docs.map_values(|r: DocRecord| r.url@)
}

/// The first record stored at `url`, if any.
pub open spec fn find_record(docs: Seq<DocRecord>, url: Seq<char>) -> Option<DocRecord>
    decreases docs.len(),
{
    if docs.len() == 0 {
        None
    } else if docs[0].url@ == url {
        Some(docs[0])
    } else {
        find_record(docs.drop_first(), url)
    }
}

proof fn lemma_find_record_contains(docs: Seq<DocRecord>, u: Seq<char>)
    requires
        find_record(docs, u) is Some,
    ensures
        record_urls(docs).contains(u),
    decreases docs.len(),
{
    if docs.len() == 0 {
    } else if docs[0].url@ == u {
        assert(record_urls(docs)[0] == u);
    } else {
        lemma_find_record_contains(docs.drop_first(), u);
        let k = choose|k: int|
            0 <= k < record_urls(docs.drop_first()).len() && record_urls(docs.drop_first())[k] == u;
        assert(record_urls(docs)[k + 1] == docs[k + 1].url@);
        assert(docs.drop_first()[k] == docs[k + 1]);
    }
}

/// Removing a record stored at another URL does not change what lookup of
/// `u` finds.
proof fn lemma_find_record_remove(docs: Seq<DocRecord>, i: int, u: Seq<char>)
    requires
        0 <= i < docs.len(),
        docs[i].url@ != u,
    ensures
        find_record(docs.remove(i), u) == find_record(docs, u),
    decreases i,
{
    if i == 0 {
        assert(docs.remove(0) =~= docs.drop_first());
    } else {
        assert(docs.remove(i)[0] == docs[0]);
        if docs[0].url@ == u {
        } else {
            lemma_find_record_remove(docs.drop_first(), i - 1, u);
            assert(docs.remove(i).drop_first() =~= docs.drop_first().remove(i - 1));
        }
    }
}

/// Looks the first record at `url` up and says where it stands.
fn lookup_record(docs: &Vec<DocRecord>, url: &String) -> (r: Option<usize>)
    ensures
        match r {
            Some(i) => i < docs@.len() && docs@[i as int].url@ == url@ && find_record(docs@, url@)
                == Some(docs@[i as int]),
            None => find_record(docs@, url@) is None,
        },
{
    proof {
        assert(docs@.skip(0) =~= docs@);
    }
    let mut i: usize = 0;
    while i < docs.len()
        invariant
            0 <= i <= docs@.len(),
            find_record(docs@, url@) == find_record(docs@.skip(i as int), url@),
        decreases docs@.len() - i,
    {
        proof {
            assert(docs@.skip(i as int)[0] == docs@[i as int]);
            assert(docs@.skip(i as int).drop_first() =~= docs@.skip(i as int + 1));
        }
        if docs[i].url == *url {
            return Some(i);
        }
        i = i + 1;
    }
    proof {
        assert(docs@.skip(docs@.len() as int) =~= Seq::<DocRecord>::empty());
    }
    None
}

/// What resolving `url` against the table yields: a fetch failure when the
/// table holds no document at the URL asked for, otherwise the document's
/// entries appended and the chain followed as `follow_target` dictates. One
/// unit of fuel is spent per document; `resolve_from` evaluates this with
/// fuel `docs.len() + 1`, which the cycle guard makes sufficient.
pub open spec fn chain_from(
    docs: Seq<DocRecord>,
    visited: Seq<Seq<char>>,
    collected: Seq<EntryV>,
    url: Seq<char>,
    fuel: nat,
) -> Result<AssemblyV, ResolveError>
    decreases fuel,
{
    if fuel == 0 {
        arbitrary()
    } else {
        match find_record(docs, url) {
            None => Err(
                ResolveError { kind: FailureKind::Fetch, position: visited.len() as usize },
            ),
            Some(rec) => {
                let visited2 = visited.push(url);
                let collected2 = collected + entry_views(rec.doc.entries@);
                let ex = extracted_links(rec.doc.namespaces@, rec.doc.extensions@);
                match follow_target(rec.doc, visited2) {
                    Some(next) => chain_from(docs, visited2, collected2, next, (fuel - 1) as nat),
                    None => Ok(
                        AssemblyV {
                            entries: collected2,
                            first: first_link(ex, "first"@),
                            last: first_link(ex, "last"@),
                        },
                    ),
                }
            },
        }
    }
}

impl Resolver {
    /// Resolves the whole archive chain seeded at `seed_url` against a table
    /// of already fetched documents, consuming the documents it visits. This
    /// is the live fetch loop made pure: the outcome is exactly
    /// `chain_from`, all-or-nothing — a missing document fails the whole
    /// resolution with the position of the failing hop, and no partial
    /// history comes back.
    pub fn resolve_from(seed_url: String, docs: Vec<DocRecord>) -> (r: Result<
        HistoryAssembly,
        ResolveError,
    >)
        ensures
            ({
                let outcome = chain_from(
                    docs@,
                    Seq::empty(),
                    Seq::empty(),
                    seed_url@,
                    (docs@.len() + 1) as nat,
                );
                match r {
                    Ok(a) => outcome == Ok::<AssemblyV, ResolveError>(assembly_view(a)),
                    Err(e) => outcome == Err::<AssemblyV, ResolveError>(e),
                }
            }),
    {
        let ghost orig = docs@;
        let ghost seedv = seed_url@;
        let ghost fuel0 = (orig.len() + 1) as nat;
        let mut table = docs;
        let mut resolver = Resolver::new(seed_url);
        loop
            invariant
                orig == docs@,
                seedv == seed_url@,
                fuel0 == orig.len() + 1,
                resolver.wf(),
                forall|i: int|
                    0 <= i < resolver.visited().len() ==> record_urls(orig).contains(
                        #[trigger] resolver.visited()[i],
                    ),
                resolver.visited().len() <= orig.len(),
                forall|u: Seq<char>|
                    !resolver.visited().contains(u) ==> #[trigger] find_record(table@, u)
                        == find_record(orig, u),
                chain_from(orig, Seq::empty(), Seq::empty(), seedv, fuel0) == chain_from(
                    orig,
                    resolver.visited(),
                    resolver.collected(),
                    resolver.pending(),
                    (fuel0 - resolver.visited().len()) as nat,
                ),
            decreases orig.len() - resolver.visited().len(),
        {
            let url = resolver.pending_url().clone();
            let ghost visited_pre = resolver.visited();
            let ghost collected_pre = resolver.collected();
            let ghost pending_pre = resolver.pending();
            let ghost fuel_now = (fuel0 - visited_pre.len()) as nat;
            proof {
                assert(visited_pre.len() <= orig.len());
                assert(fuel_now >= 1);
                assert(find_record(table@, pending_pre) == find_record(orig, pending_pre));
            }
            match lookup_record(&table, &url) {
                None => {
                    proof {
                        assert(find_record(orig, pending_pre) is None);
                        assert(chain_from(orig, visited_pre, collected_pre, pending_pre, fuel_now)
                            == Err::<AssemblyV, ResolveError>(
                            ResolveError {
                                kind: FailureKind::Fetch,
                                position: visited_pre.len() as usize,
                            },
                        ));
                    }
                    let e = resolver.fail(FailureKind::Fetch);
                    proof {
                        assert(e == ResolveError {
                            kind: FailureKind::Fetch,
                            position: visited_pre.len() as usize,
                        });
                    }
                    return Err(e);
                },
                Some(i) => {
                    let ghost docs_pre = table@;
                    let rec = table.remove(i);
                    let ghost recg = rec;
                    proof {
                        assert(find_record(orig, pending_pre) == Some(recg));
                        lemma_find_record_contains(orig, pending_pre);
                    }
                    match resolver.on_document(rec.doc) {
                        ResolveStep::FetchNext { resolver: next, url: next_url } => {
                            proof {
                                let visited2 = visited_pre.push(pending_pre);
                                assert(next.visited() == visited2);
                                assert forall|k: int|
                                    0 <= k < visited2.len() implies record_urls(orig).contains(
                                    #[trigger] visited2[k],
                                ) by {
                                    if k < visited2.len() - 1 {
                                        assert(visited2[k] == visited_pre[k]);
                                    } else {
                                        assert(visited2[k] == pending_pre);
                                    }
                                }
                                broadcast use vstd::seq_lib::seq_to_set_is_finite;

                                record_urls(orig).lemma_cardinality_of_set();
                                lemma_visited_bounded(visited2, record_urls(orig).to_set());
                                assert forall|u: Seq<char>| !visited2.contains(u) implies #[trigger] find_record(
                                    table@,
                                    u,
                                ) == find_record(orig, u) by {
                                    assert forall|k: int|
                                        0 <= k < visited_pre.len() implies visited2.contains(
                                        visited_pre[k],
                                    ) by {
                                        assert(visited2[k] == visited_pre[k]);
                                    }
                                    assert(!visited_pre.contains(u));
                                    assert(recg.url@ == pending_pre && visited2.contains(
                                        pending_pre,
                                    )) by {
                                        assert(visited2[visited2.len() - 1] == pending_pre);
                                    }
                                    lemma_find_record_remove(docs_pre, i as int, u);
                                }
                                assert(follow_target(recg.doc, visited2) == Some(next_url@));
                                assert(next.collected() == collected_pre + entry_views(
                                    recg.doc.entries@,
                                ));
                                assert(chain_from(
                                    orig,
                                    visited_pre,
                                    collected_pre,
                                    pending_pre,
                                    fuel_now,
                                ) == chain_from(
                                    orig,
                                    visited2,
                                    collected_pre + entry_views(recg.doc.entries@),
                                    next_url@,
                                    (fuel_now - 1) as nat,
                                ));
                                assert((fuel0 - next.visited().len()) as nat == (fuel_now
                                    - 1) as nat);
                            }
                            resolver = next;
                        },
                        ResolveStep::Complete { assembly } => {
                            proof {
                                let visited2 = visited_pre.push(pending_pre);
                                let collected2 = collected_pre + entry_views(recg.doc.entries@);
                                let ex = extracted_links(
                                    recg.doc.namespaces@,
                                    recg.doc.extensions@,
                                );
                                assert(follow_target(recg.doc, visited2) is None);
                                assert(chain_from(
                                    orig,
                                    visited_pre,
                                    collected_pre,
                                    pending_pre,
                                    fuel_now,
                                ) == Ok::<AssemblyV, ResolveError>(
                                    AssemblyV {
                                        entries: collected2,
                                        first: first_link(ex, "first"@),
                                        last: first_link(ex, "last"@),
                                    },
                                ));
                                assert(assembly_view(assembly) == AssemblyV {
                                    entries: collected2,
                                    first: first_link(ex, "first"@),
                                    last: first_link(ex, "last"@),
                                });
                            }
                            return Ok(assembly);
                        },
                    }
                },
            }
        }
    }
}

/// A `prev-archive` group with any number of links other than exactly one —
/// absent, or ambiguous — is never followed: the chain terminates at that
/// document.
pub proof fn lemma_ambiguous_or_absent_group_ends_chain(
    doc: FeedDocument,
    visited: Seq<Seq<char>>,
)
    requires
        prev_archive_group(doc).len() != 1,
    ensures
        follow_target(doc, visited) is None,
{
}

/// A `prev-archive` link that points back at an already visited URL is never
/// followed: the cycle guard terminates the chain.
pub proof fn lemma_visited_target_ends_chain(doc: FeedDocument, visited: Seq<Seq<char>>)
    requires
        prev_archive_group(doc).len() == 1,
        visited.contains(prev_archive_group(doc)[0].href),
    ensures
        follow_target(doc, visited) is None,
{
}

/// A resolution fetches no URL twice. Whenever every fetched URL comes from
/// a finite universe — the documents that exist — the number of fetches is
/// bounded by that universe's size, so even a cyclic archive chain
/// terminates.
pub proof fn lemma_visited_bounded(visited: Seq<Seq<char>>, urls: Set<Seq<char>>)
    requires
        visited.no_duplicates(),
        urls.finite(),
        forall|i: int| 0 <= i < visited.len() ==> urls.contains(#[trigger] visited[i]),
    ensures
        visited.len() <= urls.len(),
{
    visited.unique_seq_to_set();
    assert forall|x: Seq<char>| visited.to_set().contains(x) implies urls.contains(x) by {
        let i = choose|i: int| 0 <= i < visited.len() && visited[i] == x;
        assert(urls.contains(visited[i]));
    }
    assert(visited.to_set().subset_of(urls));
    vstd::set_lib::lemma_len_subset(visited.to_set(), urls);
}

} // verus!
