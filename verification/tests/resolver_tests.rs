use feed_history::entry::Entry;
use feed_history::extract::{
    Attribute, ElementGroup, ExtensionElement, Namespace, PrefixExtensions,
};
use feed_history::resolver::{DocRecord, FailureKind, FeedDocument, ResolveStep, Resolver};

fn attr(name: &str, value: &str) -> Attribute {
    Attribute { name: name.to_string(), value: value.to_string() }
}

fn entry(uri: &str, title: &str) -> Entry {
    Entry { uri: Some(uri.to_string()), title: title.to_string(), body_html: None }
}

/// A document with the given entries and one Atom `link` element per
/// (rel, href) pair.
fn document(entries: Vec<Entry>, links: Vec<(&str, &str)>) -> FeedDocument {
    let elements = links
        .into_iter()
        .map(|(rel, href)| ExtensionElement { attrs: vec![attr("rel", rel), attr("href", href)] })
        .collect();
    FeedDocument {
        namespaces: vec![Namespace {
            prefix: "atom".to_string(),
            uri: "http://www.w3.org/2005/Atom".to_string(),
        }],
        extensions: vec![PrefixExtensions {
            prefix: "atom".to_string(),
            groups: vec![ElementGroup { name: "link".to_string(), elements }],
        }],
        entries,
    }
}

#[test]
fn single_document_without_paging_completes_at_once() {
    let resolver = Resolver::new("https://example/feed".to_string());
    assert_eq!(resolver.pending_url().as_str(), "https://example/feed");
    let doc = document(vec![entry("https://example/1", "one")], vec![]);
    match resolver.on_document(doc) {
        ResolveStep::Complete { assembly } => {
            assert_eq!(assembly.entries.len(), 1);
            assert_eq!(assembly.entries[0].uri.as_deref(), Some("https://example/1"));
            assert!(assembly.first.is_none());
            assert!(assembly.last.is_none());
        }
        ResolveStep::FetchNext { .. } => panic!("chain must end at a document without paging"),
    }
}

#[test]
fn cycle_is_visited_once_each_and_terminates() {
    // A points at B, B points back at A: each is fetched once.
    let resolver = Resolver::new("https://example/A".to_string());
    let doc_a = document(vec![entry("https://example/a1", "a1")], vec![(
        "prev-archive",
        "https://example/B",
    )]);
    let resolver = match resolver.on_document(doc_a) {
        ResolveStep::FetchNext { resolver, url } => {
            assert_eq!(url, "https://example/B");
            resolver
        }
        ResolveStep::Complete { .. } => panic!("the chain must follow the archive link"),
    };
    assert_eq!(resolver.pending_url().as_str(), "https://example/B");
    let doc_b = document(vec![entry("https://example/b1", "b1")], vec![(
        "prev-archive",
        "https://example/A",
    )]);
    match resolver.on_document(doc_b) {
        ResolveStep::Complete { assembly } => {
            assert_eq!(assembly.entries.len(), 2);
            assert_eq!(assembly.entries[0].title, "a1");
            assert_eq!(assembly.entries[1].title, "b1");
        }
        ResolveStep::FetchNext { url, .. } => {
            panic!("the cycle guard must stop the chain, not fetch {url}")
        }
    }
}

#[test]
fn ambiguous_prev_archive_group_is_not_followed() {
    let resolver = Resolver::new("https://example/feed".to_string());
    let doc = document(vec![entry("https://example/1", "one")], vec![
        ("prev-archive", "https://example/older-1"),
        ("prev-archive", "https://example/older-2"),
    ]);
    match resolver.on_document(doc) {
        ResolveStep::Complete { assembly } => {
            assert_eq!(assembly.entries.len(), 1);
        }
        ResolveStep::FetchNext { url, .. } => {
            panic!("an ambiguous group must not be followed, got {url}")
        }
    }
}

#[test]
fn two_document_chain_concatenates_entries_in_traversal_order() {
    let resolver = Resolver::new("https://example/U1".to_string());
    let d1 = document(
        vec![entry("https://example/1", "e1"), entry("https://example/2", "e2")],
        vec![("prev-archive", "https://example/U2")],
    );
    let resolver = match resolver.on_document(d1) {
        ResolveStep::FetchNext { resolver, url } => {
            assert_eq!(url, "https://example/U2");
            resolver
        }
        ResolveStep::Complete { .. } => panic!("the chain must follow the archive link"),
    };
    let d2 = document(
        vec![
            entry("https://example/3", "e3"),
            entry("https://example/4", "e4"),
            entry("https://example/5", "e5"),
        ],
        vec![],
    );
    match resolver.on_document(d2) {
        ResolveStep::Complete { assembly } => {
            let titles: Vec<&str> = assembly.entries.iter().map(|e| e.title.as_str()).collect();
            assert_eq!(titles, ["e1", "e2", "e3", "e4", "e5"]);
        }
        ResolveStep::FetchNext { .. } => panic!("the chain must end at the archive document"),
    }
}

#[test]
fn terminal_first_and_last_links_are_reported() {
    let resolver = Resolver::new("https://example/feed".to_string());
    let doc = document(vec![entry("https://example/1", "one")], vec![
        ("first", "https://example/archive/first"),
        ("last", "https://example/archive/last"),
    ]);
    match resolver.on_document(doc) {
        ResolveStep::Complete { assembly } => {
            assert_eq!(assembly.first.unwrap().href, "https://example/archive/first");
            assert_eq!(assembly.last.unwrap().href, "https://example/archive/last");
        }
        ResolveStep::FetchNext { .. } => panic!("first/last links do not continue the chain"),
    }
}

#[test]
fn fetch_failure_carries_kind_and_position() {
    let resolver = Resolver::new("https://example/A".to_string());
    let e = resolver.fail(FailureKind::Fetch);
    assert_eq!(e.kind, FailureKind::Fetch);
    assert_eq!(e.position, 0);
    let doc = document(vec![], vec![("prev-archive", "https://example/B")]);
    match resolver.on_document(doc) {
        ResolveStep::FetchNext { resolver, .. } => {
            let e = resolver.fail(FailureKind::InvalidDocument);
            assert_eq!(e.kind, FailureKind::InvalidDocument);
            assert_eq!(e.position, 1);
        }
        ResolveStep::Complete { .. } => panic!("the chain must follow the archive link"),
    }
}

#[test]
fn resolve_from_follows_the_chain() {
    let d1 = document(
        vec![entry("https://example/1", "n1"), entry("https://example/2", "n2")],
        vec![("prev-archive", "https://example/U2")],
    );
    let d2 = document(
        vec![
            entry("https://example/3", "o1"),
            entry("https://example/4", "o2"),
            entry("https://example/5", "o3"),
        ],
        vec![],
    );
    let table = vec![
        DocRecord { url: "https://example/U1".to_string(), doc: d1 },
        DocRecord { url: "https://example/U2".to_string(), doc: d2 },
    ];
    let assembly = Resolver::resolve_from("https://example/U1".to_string(), table).unwrap();
    let titles: Vec<&str> = assembly.entries.iter().map(|e| e.title.as_str()).collect();
    assert_eq!(titles, ["n1", "n2", "o1", "o2", "o3"]);
}

#[test]
fn resolve_from_cycle_terminates() {
    let doc_a = document(vec![entry("https://example/a1", "a1")], vec![(
        "prev-archive",
        "https://example/B",
    )]);
    let doc_b = document(vec![entry("https://example/b1", "b1")], vec![(
        "prev-archive",
        "https://example/A",
    )]);
    let table = vec![
        DocRecord { url: "https://example/A".to_string(), doc: doc_a },
        DocRecord { url: "https://example/B".to_string(), doc: doc_b },
    ];
    let assembly = Resolver::resolve_from("https://example/A".to_string(), table).unwrap();
    let titles: Vec<&str> = assembly.entries.iter().map(|e| e.title.as_str()).collect();
    assert_eq!(titles, ["a1", "b1"]);
}

#[test]
fn resolve_from_missing_document_fails_all_or_nothing() {
    let e = match Resolver::resolve_from("https://example/gone".to_string(), Vec::new()) {
        Err(e) => e,
        Ok(_) => panic!("an empty table cannot resolve anything"),
    };
    assert_eq!(e.kind, FailureKind::Fetch);
    assert_eq!(e.position, 0);

    let d1 = document(vec![entry("https://example/1", "n1")], vec![(
        "prev-archive",
        "https://example/missing",
    )]);
    let table = vec![DocRecord { url: "https://example/U1".to_string(), doc: d1 }];
    let e = match Resolver::resolve_from("https://example/U1".to_string(), table) {
        Err(e) => e,
        Ok(_) => panic!("a broken chain must fail the whole resolution"),
    };
    assert_eq!(e.kind, FailureKind::Fetch);
    assert_eq!(e.position, 1);
}
