use feed_history::extract::{
    extract_links, parse_u64, Attribute, ElementGroup, ExtensionElement, Namespace,
    PrefixExtensions,
};

fn attr(name: &str, value: &str) -> Attribute {
    Attribute { name: name.to_string(), value: value.to_string() }
}

fn element(attrs: Vec<Attribute>) -> ExtensionElement {
    ExtensionElement { attrs }
}

fn atom_extensions(prefix: &str, elements: Vec<ExtensionElement>) -> Vec<PrefixExtensions> {
    vec![PrefixExtensions {
        prefix: prefix.to_string(),
        groups: vec![ElementGroup { name: "link".to_string(), elements }],
    }]
}

fn atom_namespace(prefix: &str) -> Vec<Namespace> {
    vec![Namespace {
        prefix: prefix.to_string(),
        uri: "http://www.w3.org/2005/Atom".to_string(),
    }]
}

#[test]
fn no_atom_prefix_yields_empty_mapping() {
    let namespaces = vec![
        Namespace { prefix: "media".to_string(), uri: "http://search.yahoo.com/mrss/".to_string() },
        Namespace { prefix: "dc".to_string(), uri: "http://purl.org/dc/elements/1.1/".to_string() },
    ];
    let extensions = atom_extensions(
        "media",
        vec![element(vec![attr("href", "https://example/a"), attr("rel", "alternate")])],
    );
    let groups = extract_links(&namespaces, &extensions);
    assert_eq!(groups.len(), 0);
}

#[test]
fn empty_inputs_yield_empty_mapping() {
    let groups = extract_links(&Vec::new(), &Vec::new());
    assert_eq!(groups.len(), 0);
}

#[test]
fn link_without_href_contributes_nothing() {
    let namespaces = atom_namespace("atom");
    let extensions = atom_extensions(
        "atom",
        vec![
            element(vec![attr("rel", "prev-archive"), attr("type", "application/atom+xml")]),
            element(vec![attr("href", "https://example/kept")]),
        ],
    );
    let groups = extract_links(&namespaces, &extensions);
    assert_eq!(groups.len(), 1);
    assert_eq!(groups[0].relation, "alternate");
    assert_eq!(groups[0].links.len(), 1);
    assert_eq!(groups[0].links[0].href, "https://example/kept");
}

#[test]
fn missing_rel_is_grouped_under_alternate() {
    let namespaces = atom_namespace("a");
    let extensions = atom_extensions("a", vec![element(vec![attr("href", "https://example/x")])]);
    let groups = extract_links(&namespaces, &extensions);
    assert_eq!(groups.len(), 1);
    assert_eq!(groups[0].relation, "alternate");
    assert_eq!(groups[0].links[0].relation, "alternate");
    assert_eq!(groups[0].links[0].href, "https://example/x");
}

#[test]
fn invalid_length_is_absent_but_link_kept() {
    let namespaces = atom_namespace("atom");
    let extensions = atom_extensions(
        "atom",
        vec![element(vec![
            attr("href", "https://example/enclosure"),
            attr("rel", "enclosure"),
            attr("length", "12MB"),
        ])],
    );
    let groups = extract_links(&namespaces, &extensions);
    assert_eq!(groups.len(), 1);
    assert_eq!(groups[0].relation, "enclosure");
    assert_eq!(groups[0].links.len(), 1);
    assert_eq!(groups[0].links[0].length_bytes, None);
}

#[test]
fn full_link_element_extracts_every_field() {
    let namespaces = atom_namespace("atom");
    let extensions = atom_extensions(
        "atom",
        vec![element(vec![
            attr("href", "https://example/audio.ogg"),
            attr("rel", "enclosure"),
            attr("type", "audio/ogg"),
            attr("hreflang", "en"),
            attr("title", "Episode"),
            attr("length", "1234567"),
        ])],
    );
    let groups = extract_links(&namespaces, &extensions);
    assert_eq!(groups.len(), 1);
    let l = &groups[0].links[0];
    assert_eq!(l.relation, "enclosure");
    assert_eq!(l.href, "https://example/audio.ogg");
    assert_eq!(l.media_type.as_deref(), Some("audio/ogg"));
    assert_eq!(l.language.as_deref(), Some("en"));
    assert_eq!(l.title.as_deref(), Some("Episode"));
    assert_eq!(l.length_bytes, Some(1234567));
}

#[test]
fn encounter_order_is_kept_within_a_relation_group() {
    let namespaces = atom_namespace("atom");
    let extensions = atom_extensions(
        "atom",
        vec![
            element(vec![attr("href", "https://example/1"), attr("rel", "alternate")]),
            element(vec![attr("href", "https://example/2"), attr("rel", "self")]),
            element(vec![attr("href", "https://example/3"), attr("rel", "alternate")]),
        ],
    );
    let groups = extract_links(&namespaces, &extensions);
    assert_eq!(groups.len(), 2);
    let alternate = groups.iter().find(|g| g.relation == "alternate").unwrap();
    assert_eq!(alternate.links.len(), 2);
    assert_eq!(alternate.links[0].href, "https://example/1");
    assert_eq!(alternate.links[1].href, "https://example/3");
    let own = groups.iter().find(|g| g.relation == "self").unwrap();
    assert_eq!(own.links.len(), 1);
    assert_eq!(own.links[0].href, "https://example/2");
}

#[test]
fn links_are_found_under_any_atom_bound_prefix() {
    let namespaces = vec![
        Namespace { prefix: "rss".to_string(), uri: "http://example/not-atom".to_string() },
        Namespace { prefix: "fh".to_string(), uri: "http://www.w3.org/2005/Atom".to_string() },
    ];
    let extensions = vec![PrefixExtensions {
        prefix: "fh".to_string(),
        groups: vec![ElementGroup {
            name: "link".to_string(),
            elements: vec![element(vec![
                attr("rel", "prev-archive"),
                attr("href", "https://example/archive/4"),
            ])],
        }],
    }];
    let groups = extract_links(&namespaces, &extensions);
    assert_eq!(groups.len(), 1);
    assert_eq!(groups[0].relation, "prev-archive");
    assert_eq!(groups[0].links[0].href, "https://example/archive/4");
}

#[test]
fn parse_u64_exact_values() {
    assert_eq!(parse_u64(&"0".to_string()), Some(0));
    assert_eq!(parse_u64(&"1234567".to_string()), Some(1234567));
    assert_eq!(parse_u64(&"0042".to_string()), Some(42));
    assert_eq!(parse_u64(&"18446744073709551615".to_string()), Some(u64::MAX));
}

#[test]
fn parse_u64_rejects_bad_input() {
    assert_eq!(parse_u64(&"".to_string()), None);
    assert_eq!(parse_u64(&"12MB".to_string()), None);
    assert_eq!(parse_u64(&"-3".to_string()), None);
    assert_eq!(parse_u64(&" 7".to_string()), None);
    assert_eq!(parse_u64(&"18446744073709551616".to_string()), None);
    assert_eq!(parse_u64(&"99999999999999999999999".to_string()), None);
}
