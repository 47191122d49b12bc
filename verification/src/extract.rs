//! The link-relation extractor.
//!
//! A feed document carries a mapping of namespace prefixes to URIs and, per
//! prefix, a tree of extension elements. Every prefix bound to the Atom
//! namespace URI may host `link` elements; this module recovers them as typed
//! link relations, grouped by relation name. Malformed input degrades to
//! absent fields and never fails.

use vstd::prelude::*;

verus! {

/// One attribute of an extension element: a name and a value.
pub struct Attribute {
    pub name: String,
    pub value: String,
}

/// One opaque extension element, reduced to its attribute set.
pub struct ExtensionElement {
    pub attrs: Vec<Attribute>,
}

/// All extension elements that share one element name.
pub struct ElementGroup {
    pub name: String,
    pub elements: Vec<ExtensionElement>,
}

/// The extension elements declared under one namespace prefix, grouped by
/// element name.
pub struct PrefixExtensions {
    pub prefix: String,
    pub groups: Vec<ElementGroup>,
}

/// One namespace declaration: a prefix and the URI it is bound to.
pub struct Namespace {
    pub prefix: String,
    pub uri: String,
}

/// A typed hyperlink recovered from an Atom `link` element.
pub struct LinkRelation {
    pub relation: String,
    pub href: String,
    pub media_type: Option<String>,
    pub language: Option<String>,
    pub title: Option<String>,
    pub length_bytes: Option<u64>,
}

/// Mathematical value of a `LinkRelation`.
pub ghost struct LinkRelationV {
    pub relation: Seq<char>,
    pub href: Seq<char>,
    pub media_type: Option<Seq<char>>,
    pub language: Option<Seq<char>>,
    pub title: Option<Seq<char>>,
    pub length_bytes: Option<u64>,
}

impl View for LinkRelation {
    type V = LinkRelationV;

    open spec fn view(&self) -> LinkRelationV {
        LinkRelationV {
            relation: self.relation@,
            href: self.href@,
            media_type: match self.media_type {
                Some(s) => Some(s@),
                None => None,
            },
            language: match self.language {
                Some(s) => Some(s@),
                None => None,
            },
            title: match self.title {
                Some(s) => Some(s@),
                None => None,
            },
            length_bytes: self.length_bytes,
        }
    }
}

/// Clones an optional borrowed string into an owned one, keeping its value.
fn clone_opt_ref(o: Option<&String>) -> (r: Option<String>)
    ensures
        match o {
            Some(s) => r == Some(*s),
            None => r == None::<String>,
        },
{
    match o {
        Some(s) => Some(s.clone()),
        None => None,
    }
}

impl Clone for LinkRelation {
    fn clone(&self) -> (r: Self)
        ensures
            r == *self,
    {
        LinkRelation {
            relation: self.relation.clone(),
            href: self.href.clone(),
            media_type: clone_opt_ref(self.media_type.as_ref()),
            language: clone_opt_ref(self.language.as_ref()),
            title: clone_opt_ref(self.title.as_ref()),
            length_bytes: self.length_bytes,
        }
    }
}

/// All link relations extracted under one relation name, in encounter order.
pub struct RelationGroup {
    pub relation: String,
    pub links: Vec<LinkRelation>,
}

/// The Atom namespace URI.
pub open spec fn atom_ns() -> Seq<char> {
    "http://www.w3.org/2005/Atom"@
}

// ---------------------------------------------------------------------------
// Decimal parsing of the `length` attribute.
// ---------------------------------------------------------------------------

/// A decimal digit.
pub open spec fn is_digit(c: char) -> bool {
    '0' <= c && c <= '9'
}

/// The numeric value of one digit.
pub open spec fn digit_val(c: char) -> nat {
    ((c as int) - ('0' as int)) as nat
}

/// Every character of `s` is a decimal digit.
pub open spec fn all_digits(s: Seq<char>) -> bool {
    forall|i: int| 0 <= i < s.len() ==> is_digit(#[trigger] s[i])
}

/// The value of a digit string read in base ten.
pub open spec fn digits_val(s: Seq<char>) -> nat
    decreases s.len(),
{
    if s.len() == 0 {
        0
    } else {
        digits_val(s.drop_last()) * 10 + digit_val(s.last())
    }
}

/// What the `length` attribute value `s` denotes: its numeric value when `s`
/// is a non-empty string of decimal digits whose value fits in a `u64`,
/// absent otherwise.
pub open spec fn valid_length(s: Seq<char>) -> Option<u64> {
    if s.len() > 0 && all_digits(s) && digits_val(s) <= u64::MAX {
        Some(digits_val(s) as u64)
    } else {
        None
    }
}

/// The value of a digit string never drops when the string is extended.
proof fn lemma_digits_val_prefix_le(s: Seq<char>, k: int)
    requires
        0 <= k <= s.len(),
        all_digits(s),
    ensures
        digits_val(s.take(k)) <= digits_val(s),
    decreases s.len() - k,
{
    if k == s.len() {
        assert(s.take(k) =~= s);
    } else {
        lemma_digits_val_prefix_le(s, k + 1);
        assert(s.take(k + 1).drop_last() =~= s.take(k));
        assert(digits_val(s.take(k + 1)) == digits_val(s.take(k)) * 10 + digit_val(s[k]));
    }
}

/// Parses a non-empty all-digit string as a `u64`; any other input, and any
/// value beyond `u64::MAX`, yields `None`.
pub fn parse_u64(s: &String) -> (r: Option<u64>)
    ensures
        r == valid_length(s@),
{
    let st: &str = s.as_str();
    let n = st.unicode_len();
    if n == 0 {
        return None;
    }
    let mut acc: u64 = 0;
    let mut i: usize = 0;
    while i < n
        invariant
            st@ == s@,
            n == st@.len(),
            0 < n <= usize::MAX,
            0 <= i <= n,
            all_digits(st@.take(i as int)),
            acc == digits_val(st@.take(i as int)),
        decreases n - i,
    {
        let c = st.get_char(i);
        if !('0' <= c && c <= '9') {
            assert(!is_digit(s@[i as int]));
            return None;
        }
        let d: u64 = (c as u64) - ('0' as u64);
        proof {
            assert(s@.take(i as int + 1).drop_last() =~= s@.take(i as int));
            assert(s@.take(i as int + 1).last() == s@[i as int]);
            assert(d == digit_val(s@[i as int]));
        }
        if acc > (u64::MAX - d) / 10 {
            proof {
                assert(digits_val(s@.take(i as int + 1)) > u64::MAX);
                if all_digits(s@) {
                    lemma_digits_val_prefix_le(s@, i as int + 1);
                }
            }
            return None;
        }
        acc = acc * 10 + d;
        i = i + 1;
    }
    proof {
        assert(s@.take(n as int) =~= s@);
    }
    Some(acc)
}

// ---------------------------------------------------------------------------
// First-match lookups in the attribute, prefix and element-name mappings.
// ---------------------------------------------------------------------------

/// The value of the first attribute named `name`, if any.
pub open spec fn find_attr(attrs: Seq<Attribute>, name: Seq<char>) -> Option<Seq<char>>
    decreases attrs.len(),
{
    if attrs.len() == 0 {
        None
    } else if attrs[0].name@ == name {
        Some(attrs[0].value@)
    } else {
        find_attr(attrs.drop_first(), name)
    }
}

/// The first extension entry declared under `prefix`, if any.
pub open spec fn find_prefix(exts: Seq<PrefixExtensions>, prefix: Seq<char>) -> Option<
    PrefixExtensions,
>
    decreases exts.len(),
{
    if exts.len() == 0 {
        None
    } else if exts[0].prefix@ == prefix {
        Some(exts[0])
    } else {
        find_prefix(exts.drop_first(), prefix)
    }
}

/// The first element group named `name`, if any.
pub open spec fn find_group(groups: Seq<ElementGroup>, name: Seq<char>) -> Option<ElementGroup>
    decreases groups.len(),
{
    if groups.len() == 0 {
        None
    } else if groups[0].name@ == name {
        Some(groups[0])
    } else {
        find_group(groups.drop_first(), name)
    }
}

/// Looks an attribute up by name, first match wins.
fn get_attr<'a>(attrs: &'a Vec<Attribute>, name: &String) -> (r: Option<&'a String>)
    ensures
        match r {
            Some(v) => find_attr(attrs@, name@) == Some(v@),
            None => find_attr(attrs@, name@) is None,
        },
{
    proof {
        assert(attrs@.skip(0) =~= attrs@);
    }
    let mut i: usize = 0;
    while i < attrs.len()
        invariant
            0 <= i <= attrs@.len(),
            find_attr(attrs@, name@) == find_attr(attrs@.skip(i as int), name@),
        decreases attrs@.len() - i,
    {
        proof {
            assert(attrs@.skip(i as int)[0] == attrs@[i as int]);
            assert(attrs@.skip(i as int).drop_first() =~= attrs@.skip(i as int + 1));
        }
        if attrs[i].name == *name {
            return Some(&attrs[i].value);
        }
        i = i + 1;
    }
    proof {
        assert(attrs@.skip(attrs@.len() as int) =~= Seq::<Attribute>::empty());
    }
    None
}

/// Looks a prefix up among the extension entries, first match wins.
fn find_prefix_exec<'a>(exts: &'a Vec<PrefixExtensions>, prefix: &String) -> (r: Option<
    &'a PrefixExtensions,
>)
    ensures
        match r {
            Some(pe) => find_prefix(exts@, prefix@) == Some(*pe),
            None => find_prefix(exts@, prefix@) is None,
        },
{
    proof {
        assert(exts@.skip(0) =~= exts@);
    }
    let mut i: usize = 0;
    while i < exts.len()
        invariant
            0 <= i <= exts@.len(),
            find_prefix(exts@, prefix@) == find_prefix(exts@.skip(i as int), prefix@),
        decreases exts@.len() - i,
    {
        proof {
            assert(exts@.skip(i as int)[0] == exts@[i as int]);
            assert(exts@.skip(i as int).drop_first() =~= exts@.skip(i as int + 1));
        }
        if exts[i].prefix == *prefix {
            return Some(&exts[i]);
        }
        i = i + 1;
    }
    proof {
        assert(exts@.skip(exts@.len() as int) =~= Seq::<PrefixExtensions>::empty());
    }
    None
}

/// Looks an element group up by name, first match wins.
fn find_group_exec<'a>(groups: &'a Vec<ElementGroup>, name: &String) -> (r: Option<
    &'a ElementGroup,
>)
    ensures
        match r {
            Some(g) => find_group(groups@, name@) == Some(*g),
            None => find_group(groups@, name@) is None,
        },
{
    proof {
        assert(groups@.skip(0) =~= groups@);
    }
    let mut i: usize = 0;
    while i < groups.len()
        invariant
            0 <= i <= groups@.len(),
            find_group(groups@, name@) == find_group(groups@.skip(i as int), name@),
        decreases groups@.len() - i,
    {
        proof {
            assert(groups@.skip(i as int)[0] == groups@[i as int]);
            assert(groups@.skip(i as int).drop_first() =~= groups@.skip(i as int + 1));
        }
        if groups[i].name == *name {
            return Some(&groups[i]);
        }
        i = i + 1;
    }
    proof {
        assert(groups@.skip(groups@.len() as int) =~= Seq::<ElementGroup>::empty());
    }
    None
}

// ---------------------------------------------------------------------------
// What one element, and a sequence of elements, yields.
// ---------------------------------------------------------------------------

/// The relation name of a link element: its `rel` attribute when present,
/// `"alternate"` otherwise.
pub open spec fn rel_name(e: ExtensionElement) -> Seq<char> {
    match find_attr(e.attrs@, "rel"@) {
        Some(r) => r,
        None => "alternate"@,
    }
}

/// The link relation a `link` element yields: absent when the element has no
/// `href` attribute; otherwise built from `href`, `rel`, `type`, `hreflang`,
/// `title` and `length`, each absent attribute degrading to an absent field.
pub open spec fn link_of(e: ExtensionElement) -> Option<LinkRelationV> {
    match find_attr(e.attrs@, "href"@) {
        None => None,
        Some(h) => Some(
            LinkRelationV {
                relation: rel_name(e),
                href: h,
                media_type: find_attr(e.attrs@, "type"@),
                language: find_attr(e.attrs@, "hreflang"@),
                title: find_attr(e.attrs@, "title"@),
                length_bytes: match find_attr(e.attrs@, "length"@) {
                    Some(l) => valid_length(l),
                    None => None,
                },
            },
        ),
    }
}

/// The link relations a sequence of elements yields, in order, elements
/// without `href` contributing nothing.
pub open spec fn links_of_elements(es: Seq<ExtensionElement>) -> Seq<LinkRelationV>
    decreases es.len(),
{
    if es.len() == 0 {
        Seq::empty()
    } else {
        links_of_elements(es.drop_last()) + match link_of(es.last()) {
            Some(l) => seq![l],
            None => Seq::empty(),
        }
    }
}

proof fn lemma_links_of_elements_append(a: Seq<ExtensionElement>, b: Seq<ExtensionElement>)
    ensures
        links_of_elements(a + b) == links_of_elements(a) + links_of_elements(b),
    decreases b.len(),
{
    if b.len() == 0 {
        assert(a + b =~= a);
        assert(links_of_elements(a) + links_of_elements(b) =~= links_of_elements(a));
    } else {
        lemma_links_of_elements_append(a, b.drop_last());
        assert((a + b).drop_last() =~= a + b.drop_last());
        assert((a + b).last() == b.last());
        assert(links_of_elements(a) + (links_of_elements(b.drop_last()) + match link_of(b.last()) {
            Some(l) => seq![l],
            None => Seq::empty(),
        }) =~= (links_of_elements(a) + links_of_elements(b.drop_last())) + match link_of(b.last()) {
            Some(l) => seq![l],
            None => Seq::empty(),
        });
    }
}

/// Builds the link relation of one element, or nothing when `href` is absent.
pub fn build_link(e: &ExtensionElement) -> (r: Option<LinkRelation>)
    ensures
        match r {
            Some(l) => link_of(*e) == Some(l@),
            None => link_of(*e) is None,
        },
{
    let href = match get_attr(&e.attrs, &"href".to_owned()) {
        Some(h) => h.clone(),
        None => {
            return None;
        },
    };
    let relation = match get_attr(&e.attrs, &"rel".to_owned()) {
        Some(r) => r.clone(),
        None => "alternate".to_owned(),
    };
    let media_type = clone_opt_ref(get_attr(&e.attrs, &"type".to_owned()));
    let language = clone_opt_ref(get_attr(&e.attrs, &"hreflang".to_owned()));
    let title = clone_opt_ref(get_attr(&e.attrs, &"title".to_owned()));
    let length_bytes = match get_attr(&e.attrs, &"length".to_owned()) {
        Some(l) => parse_u64(l),
        None => None,
    };
    Some(LinkRelation { relation, href, media_type, language, title, length_bytes })
}

// ---------------------------------------------------------------------------
// The whole extraction, namespace by namespace.
// ---------------------------------------------------------------------------

/// The `link` extension elements declared under `prefix`: those of the
/// element group named `link` of the first extension entry for `prefix`,
/// empty when either is missing.
pub open spec fn link_elements_for(exts: Seq<PrefixExtensions>, prefix: Seq<char>) -> Seq<
    ExtensionElement,
> {
    match find_prefix(exts, prefix) {
        Some(pe) => match find_group(pe.groups@, "link"@) {
            Some(g) => g.elements@,
            None => Seq::empty(),
        },
        None => Seq::empty(),
    }
}

/// All `link` elements hosted by Atom-bound prefixes, walking the namespace
/// declarations in order.
pub open spec fn atom_link_elements(ns: Seq<Namespace>, exts: Seq<PrefixExtensions>) -> Seq<
    ExtensionElement,
>
    decreases ns.len(),
{
    if ns.len() == 0 {
        Seq::empty()
    } else {
        atom_link_elements(ns.drop_last(), exts) + if ns.last().uri@ == atom_ns() {
            link_elements_for(exts, ns.last().prefix@)
        } else {
            Seq::empty()
        }
    }
}

/// Every link relation the document yields, in encounter order.
pub open spec fn extracted_links(ns: Seq<Namespace>, exts: Seq<PrefixExtensions>) -> Seq<
    LinkRelationV,
> {
    links_of_elements(atom_link_elements(ns, exts))
}

/// The subsequence of `links` whose relation name is `rel`, in order.
pub open spec fn group_for(links: Seq<LinkRelationV>, rel: Seq<char>) -> Seq<LinkRelationV>
    decreases links.len(),
{
    if links.len() == 0 {
        Seq::empty()
    } else {
        group_for(links.drop_last(), rel) + if links.last().relation == rel {
            seq![links.last()]
        } else {
            Seq::empty()
        }
    }
}

/// The mathematical values of a vector of link relations.
pub open spec fn link_views(ls: Seq<LinkRelation>) -> Seq<LinkRelationV> {
    ls.map_values(|l: LinkRelation| l@)
}

/// `gs` is the grouping of `links` by relation name: relation names are
/// unique, each group holds exactly the links of its relation in encounter
/// order and is non-empty, and every relation occurring in `links` has its
/// group.
pub open spec fn groups_wf(gs: Seq<RelationGroup>, links: Seq<LinkRelationV>) -> bool {
    &&& forall|i: int, j: int|
        0 <= i < j < gs.len() ==> #[trigger] gs[i].relation@ != #[trigger] gs[j].relation@
    &&& forall|i: int|
        0 <= i < gs.len() ==> (#[trigger] link_views(gs[i].links@)) == group_for(
            links,
            gs[i].relation@,
        ) && gs[i].links@.len() > 0
    &&& forall|rel: Seq<char>|
        (#[trigger] group_for(links, rel)).len() > 0 ==> exists|i: int|
            0 <= i < gs.len() && (#[trigger] gs[i].relation@) == rel
}

/// Finds the group of a relation name among the groups built so far.
fn find_group_index(gs: &Vec<RelationGroup>, relation: &String) -> (r: Option<usize>)
    ensures
        match r {
            Some(i) => i < gs@.len() && gs@[i as int].relation@ == relation@,
            None => forall|i: int| 0 <= i < gs@.len() ==> (#[trigger] gs@[i].relation@) != relation@,
        },
{
    let mut i: usize = 0;
    while i < gs.len()
        invariant
            0 <= i <= gs@.len(),
            forall|k: int| 0 <= k < i ==> (#[trigger] gs@[k].relation@) != relation@,
        decreases gs@.len() - i,
    {
        if gs[i].relation == *relation {
            return Some(i);
        }
        i = i + 1;
    }
    None
}

/// Appends one link to its relation group, creating the group at the end when
/// the relation is new.
fn insert_link(gs: &mut Vec<RelationGroup>, l: LinkRelation, links: Ghost<Seq<LinkRelationV>>)
    requires
        groups_wf(old(gs)@, links@),
    ensures
        groups_wf(final(gs)@, links@.push(l@)),
{
    let ghost lv = l@;
    let ghost old_gs = gs@;
    proof {
        lemma_group_for_push(links@, lv);
    }
    match find_group_index(gs, &l.relation) {
        Some(i) => {
            let mut g = gs.remove(i);
            g.links.push(l);
            gs.insert(i, g);
            proof {
                assert(gs@ =~= old_gs.update(i as int, g));
                assert(link_views(g.links@) =~= link_views(old_gs[i as int].links@).push(lv));
                assert(forall|k: int|
                    0 <= k < gs@.len() ==> (#[trigger] gs@[k].relation@) == old_gs[k].relation@);
                assert forall|k: int| 0 <= k < gs@.len() implies (#[trigger] link_views(
                    gs@[k].links@,
                )) == group_for(links@.push(lv), gs@[k].relation@) && gs@[k].links@.len() > 0 by {
                    assert(link_views(old_gs[k].links@) == group_for(links@, old_gs[k].relation@));
                    if k == i as int {
                        assert(gs@[k] == g);
                        assert(old_gs[k].relation@ == lv.relation);
                    } else {
                        assert(gs@[k] == old_gs[k]);
                        assert(old_gs[k].relation@ != lv.relation);
                    }
                }
                assert forall|rel: Seq<char>| (#[trigger] group_for(links@.push(lv), rel)).len()
                    > 0 implies exists|k: int|
                    0 <= k < gs@.len() && (#[trigger] gs@[k].relation@) == rel by {
                    if rel == lv.relation {
                        assert(gs@[i as int].relation@ == rel);
                    } else {
                        assert(group_for(links@, rel).len() > 0);
                        let k = choose|k: int|
                            0 <= k < old_gs.len() && (#[trigger] old_gs[k].relation@) == rel;
                        assert(gs@[k].relation@ == rel);
                    }
                }
            }
        },
        None => {
            let relation = l.relation.clone();
            let mut ls: Vec<LinkRelation> = Vec::new();
            ls.push(l);
            gs.push(RelationGroup { relation, links: ls });
            proof {
                let n = old_gs.len() as int;
                assert(link_views(gs@[n].links@) =~= seq![lv]);
                assert(group_for(links@, lv.relation) =~= Seq::<LinkRelationV>::empty());
                assert(link_views(gs@[n].links@) =~= group_for(links@.push(lv), lv.relation));
                assert forall|i: int| 0 <= i < gs@.len() implies (#[trigger] link_views(
                    gs@[i].links@,
                )) == group_for(links@.push(lv), gs@[i].relation@) && gs@[i].links@.len() > 0 by {
                    if i < n {
                        assert(link_views(gs@[i].links@) == group_for(links@, gs@[i].relation@));
                        assert(gs@[i].relation@ != lv.relation);
                    }
                }
                assert forall|rel: Seq<char>| (#[trigger] group_for(links@.push(lv), rel)).len()
                    > 0 implies exists|k: int|
                    0 <= k < gs@.len() && (#[trigger] gs@[k].relation@) == rel by {
                    if rel == lv.relation {
                        assert(gs@[n].relation@ == rel);
                    } else {
                        assert(group_for(links@, rel).len() > 0);
                        let k = choose|k: int|
                            0 <= k < old_gs.len() && (#[trigger] old_gs[k].relation@) == rel;
                        assert(gs@[k].relation@ == rel);
                    }
                }
            }
        },
    }
}

/// Pushing one link extends exactly the group of its relation.
proof fn lemma_group_for_push(links: Seq<LinkRelationV>, l: LinkRelationV)
    ensures
        group_for(links.push(l), l.relation) == group_for(links, l.relation).push(l),
        forall|rel: Seq<char>|
            rel != l.relation ==> #[trigger] group_for(links.push(l), rel) == group_for(links, rel),
{
    assert(links.push(l).drop_last() =~= links);
    assert(links.push(l).last() == l);
    assert(group_for(links, l.relation) + seq![l] =~= group_for(links, l.relation).push(l));
    assert forall|rel: Seq<char>| rel != l.relation implies #[trigger] group_for(links.push(l), rel)
        == group_for(links, rel) by {
        assert(group_for(links, rel) + Seq::<LinkRelationV>::empty() =~= group_for(links, rel));
    }
}

/// Recovers every Atom `link` element of the document and groups the link
/// relations it yields by relation name. Pure: the result is a function of
/// the two mappings alone, characterized by `groups_wf` over
/// `extracted_links`; the returned mapping is empty exactly when no
/// Atom-hosted `link` element with an `href` exists.
pub fn extract_links(namespaces: &Vec<Namespace>, extensions: &Vec<PrefixExtensions>) -> (r: Vec<
    RelationGroup,
>)
    ensures
        groups_wf(r@, extracted_links(namespaces@, extensions@)),
        r@.len() == 0 <==> extracted_links(namespaces@, extensions@).len() == 0,
{
    let mut gs: Vec<RelationGroup> = Vec::new();
    let ghost mut processed: Seq<LinkRelationV> = Seq::empty();
    proof {
        assert(atom_link_elements(namespaces@.take(0), extensions@) =~= Seq::<
            ExtensionElement,
        >::empty());
    }
    let mut i: usize = 0;
    while i < namespaces.len()
        invariant
            0 <= i <= namespaces@.len(),
            processed == extracted_links(namespaces@.take(i as int), extensions@),
            groups_wf(gs@, processed),
        decreases namespaces@.len() - i,
    {
        let ghost contribution: Seq<ExtensionElement> = if namespaces@[i as int].uri@ == atom_ns() {
            link_elements_for(extensions@, namespaces@[i as int].prefix@)
        } else {
            Seq::empty()
        };
        if namespaces[i].uri == "http://www.w3.org/2005/Atom".to_owned() {
            if let Some(pe) = find_prefix_exec(extensions, &namespaces[i].prefix) {
                if let Some(g) = find_group_exec(&pe.groups, &"link".to_owned()) {
                    let elems = &g.elements;
                    proof {
                        assert(elems@ == contribution);
                        assert(links_of_elements(elems@.take(0)) =~= Seq::<LinkRelationV>::empty());
                        assert(processed + links_of_elements(elems@.take(0)) =~= processed);
                    }
                    let ghost before = processed;
                    let mut j: usize = 0;
                    while j < elems.len()
                        invariant
                            0 <= j <= elems@.len(),
                            processed == before + links_of_elements(elems@.take(j as int)),
                            groups_wf(gs@, processed),
                        decreases elems@.len() - j,
                    {
                        proof {
                            assert(elems@.take(j as int + 1).drop_last() =~= elems@.take(j as int));
                            assert(elems@.take(j as int + 1).last() == elems@[j as int]);
                        }
                        match build_link(&elems[j]) {
                            Some(l) => {
                                let ghost lv = l@;
                                insert_link(&mut gs, l, Ghost(processed));
                                proof {
                                    processed = processed.push(lv);
                                    assert(before + links_of_elements(elems@.take(j as int)).push(
                                        lv,
                                    ) =~= (before + links_of_elements(elems@.take(j as int))).push(
                                        lv,
                                    ));
                                    assert(links_of_elements(elems@.take(j as int + 1))
                                        =~= links_of_elements(elems@.take(j as int)).push(lv));
                                }
                            },
                            None => {
                                proof {
                                    assert(links_of_elements(elems@.take(j as int + 1))
                                        =~= links_of_elements(elems@.take(j as int)));
                                }
                            },
                        }
                        j = j + 1;
                    }
                    proof {
                        assert(elems@.take(elems@.len() as int) =~= elems@);
                    }
                } else {
                    proof {
                        assert(contribution =~= Seq::<ExtensionElement>::empty());
                    }
                }
            } else {
                proof {
                    assert(contribution =~= Seq::<ExtensionElement>::empty());
                }
            }
        }
        proof {
            assert(namespaces@.take(i as int + 1).drop_last() =~= namespaces@.take(i as int));
            assert(namespaces@.take(i as int + 1).last() == namespaces@[i as int]);
            assert(atom_link_elements(namespaces@.take(i as int + 1), extensions@)
                == atom_link_elements(namespaces@.take(i as int), extensions@) + contribution);
            lemma_links_of_elements_append(
                atom_link_elements(namespaces@.take(i as int), extensions@),
                contribution,
            );
            if contribution.len() == 0 {
                assert(links_of_elements(contribution) =~= Seq::<LinkRelationV>::empty());
                assert(processed + Seq::<LinkRelationV>::empty() =~= processed);
            }
            assert(processed == extracted_links(namespaces@.take(i as int + 1), extensions@));
        }
        i = i + 1;
    }
    proof {
        assert(namespaces@.take(namespaces@.len() as int) =~= namespaces@);
        let links = extracted_links(namespaces@, extensions@);
        if links.len() > 0 {
            assert(group_for(links, links.last().relation).len() > 0);
        }
        if gs@.len() > 0 {
            assert(link_views(gs@[0].links@) == group_for(links, gs@[0].relation@));
            if links.len() == 0 {
                lemma_group_for_empty(gs@[0].relation@);
            }
        }
    }
    gs
}

/// Looks the group of one relation name up in an extraction result.
pub fn find_relation<'a>(gs: &'a Vec<RelationGroup>, relation: &String) -> (r: Option<
    &'a RelationGroup,
>)
    ensures
        match r {
            Some(g) => exists|i: int|
                0 <= i < gs@.len() && gs@[i] == *g && (#[trigger] gs@[i].relation@) == relation@,
            None => forall|i: int| 0 <= i < gs@.len() ==> (#[trigger] gs@[i].relation@) != relation@,
        },
{
    let mut i: usize = 0;
    while i < gs.len()
        invariant
            0 <= i <= gs@.len(),
            forall|k: int| 0 <= k < i ==> (#[trigger] gs@[k].relation@) != relation@,
        decreases gs@.len() - i,
    {
        if gs[i].relation == *relation {
            return Some(&gs[i]);
        }
        i = i + 1;
    }
    None
}

/// No link relation carries any relation name out of an empty sequence.
proof fn lemma_group_for_empty(rel: Seq<char>)
    ensures
        group_for(Seq::<LinkRelationV>::empty(), rel).len() == 0,
{
}

// ---------------------------------------------------------------------------
// Laws of extraction.
// ---------------------------------------------------------------------------

/// With no prefix bound to the Atom namespace URI, extraction yields nothing:
/// together with the contract of `extract_links`, the returned mapping is
/// empty.
pub proof fn lemma_no_atom_prefix_extracts_nothing(
    ns: Seq<Namespace>,
    exts: Seq<PrefixExtensions>,
)
    requires
        forall|i: int| 0 <= i < ns.len() ==> (#[trigger] ns[i].uri@) != atom_ns(),
    ensures
        extracted_links(ns, exts).len() == 0,
    decreases ns.len(),
{
    if ns.len() == 0 {
    } else {
        lemma_no_atom_prefix_extracts_nothing(ns.drop_last(), exts);
        assert(ns.last().uri@ != atom_ns());
        assert(atom_link_elements(ns, exts) =~= atom_link_elements(ns.drop_last(), exts));
    }
}

/// A link element without an `href` attribute contributes no link relation.
pub proof fn lemma_missing_href_contributes_nothing(es: Seq<ExtensionElement>, e: ExtensionElement)
    requires
        find_attr(e.attrs@, "href"@) is None,
    ensures
        link_of(e) is None,
        links_of_elements(es.push(e)) == links_of_elements(es),
{
    assert(es.push(e).drop_last() =~= es);
    assert(es.push(e).last() == e);
    assert(links_of_elements(es) + Seq::<LinkRelationV>::empty() =~= links_of_elements(es));
}

/// A link element with `href` but without `rel` is grouped under
/// `"alternate"`.
pub proof fn lemma_missing_rel_defaults_to_alternate(e: ExtensionElement)
    requires
        find_attr(e.attrs@, "href"@) is Some,
        find_attr(e.attrs@, "rel"@) is None,
    ensures
        link_of(e) is Some,
        link_of(e).unwrap().relation == "alternate"@,
{
}

/// A `length` attribute that is not a valid unsigned decimal number yields an
/// absent `length_bytes`, and extraction still yields the link relation.
pub proof fn lemma_invalid_length_is_absent(e: ExtensionElement, l: Seq<char>)
    requires
        find_attr(e.attrs@, "href"@) is Some,
        find_attr(e.attrs@, "length"@) == Some(l),
        valid_length(l) is None,
    ensures
        link_of(e) is Some,
        link_of(e).unwrap().length_bytes is None,
{
}

} // verus!
