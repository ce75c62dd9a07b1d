//! Breadcrumb and descendant navigation for a document of the book: ordered
//! (label, href) lists derived from the chapter tree, every href prefixed
//! for the document's output depth and pointed at the emitted `.html` page.

use vstd::prelude::*;
use vstd::string::StringExecFns;
use crate::classify::{dots, swap_md_html, ends_with_md, html_ext, depth_prefix_chars, push_swapped};
use crate::config::TinyConfig;
use crate::strutil::{str_chars, chars_to_string, push_range};

verus! {

/// One entry of the book's table of contents: a display name, the optional
/// source path of its page, its child entries in declared order, the display
/// names of its ancestors from the root down, and whether it is a draft.
pub struct BookNode {
    pub name: String,
    pub path: Option<String>,
    pub children: Vec<BookNode>,
    pub parent_names: Vec<String>,
    pub draft: bool,
}

/// A rendered navigation link.
#[derive(Debug, Clone, PartialEq, Eq)]
pub struct NavLink {
    pub label: String,
    pub href: String,
}

/// One element of a nested bottom-navigation list: a nesting opener or
/// closer, or a link entry.
#[derive(Debug, Clone, PartialEq, Eq)]
pub enum NavItem {
    ListStart,
    ListEnd,
    Entry(NavLink),
}

pub open spec fn link_view(l: NavLink) -> (Seq<char>, Seq<char>) {
    (l.label@, l.href@)
}

pub open spec fn links_view(s: Seq<NavLink>) -> Seq<(Seq<char>, Seq<char>)> {
    s.map_values(|l: NavLink| link_view(l))
}

#[verifier::ext_equal]
pub ghost enum NavItemV {
    ListStart,
    ListEnd,
    Entry { label: Seq<char>, href: Seq<char> },
}

pub open spec fn item_view(it: NavItem) -> NavItemV {
    match it {
        NavItem::ListStart => NavItemV::ListStart,
        NavItem::ListEnd => NavItemV::ListEnd,
        NavItem::Entry(l) => NavItemV::Entry { label: l.label@, href: l.href@ },
    }
}

pub open spec fn items_view(s: Seq<NavItem>) -> Seq<NavItemV> {
    s.map_values(|it: NavItem| item_view(it))
}

pub open spec fn names_view(s: Seq<String>) -> Seq<Seq<char>> {
    s.map_values(|n: String| n@)
}

pub open spec fn cfg_index_view(cfg: TinyConfig) -> Option<Seq<char>> {
    match cfg.index {
        Some(s) => Some(s@),
        None => None,
    }
}

/// The page the Home link points at, before depth-prefixing: the configured
/// index identifier with its extension swapped for (or extended by) `.html`,
/// or nothing when no index page is configured.
pub open spec fn index_target(index: Option<Seq<char>>) -> Seq<char> {
    match index {
        Some(p) => if ends_with_md(p) {
            swap_md_html(p)
        } else {
            p + html_ext()
        },
        None => Seq::empty(),
    }
}

pub open spec fn home_label() -> Seq<char> {
    seq!['H', 'o', 'm', 'e']
}

/// The breadcrumb's leading link: Home, depth-prefixed to the book root.
pub open spec fn home_link(index: Option<Seq<char>>, d: nat) -> (Seq<char>, Seq<char>) {
    (home_label(), dots(d) + index_target(index))
}

/// Whether an extra-navigation target is an absolute web URL, passed
/// through unmodified rather than treated as a book-relative path.
pub open spec fn starts_http(t: Seq<char>) -> bool {
    (t.len() >= 7 && t[0] == 'h' && t[1] == 't' && t[2] == 't' && t[3] == 'p' && t[4] == ':'
        && t[5] == '/' && t[6] == '/') || (t.len() >= 8 && t[0] == 'h' && t[1] == 't' && t[2]
        == 't' && t[3] == 'p' && t[4] == 's' && t[5] == ':' && t[6] == '/' && t[7] == '/')
}

/// The href of one extra-navigation entry: an absolute URL unchanged, a
/// book-relative path depth-prefixed with its extension swapped.
pub open spec fn extra_target(t: Seq<char>, d: nat) -> Seq<char> {
    if starts_http(t) {
        t
    } else {
        dots(d) + swap_md_html(t)
    }
}

/// The links the operator-configured extra navigation contributes, in order.
pub open spec fn extra_links(extras: Seq<(String, String)>, d: nat) -> Seq<(Seq<char>, Seq<char>)> {
    extras.map_values(|e: (String, String)| (e.0@, extra_target(e.1@, d)))
}

/// The first top-level section whose display name is `name`, if any.
pub open spec fn find_section(sections: Seq<BookNode>, name: Seq<char>) -> Option<BookNode>
    decreases sections.len(),
{
    if sections.len() == 0 {
        None
    } else if sections[0].name@ == name {
        Some(sections[0])
    } else {
        find_section(sections.drop_first(), name)
    }
}

/// Append a link unless a string-equal (label, href) pair is already there.
pub open spec fn add_if_new(
    acc: Seq<(Seq<char>, Seq<char>)>,
    l: (Seq<char>, Seq<char>),
) -> Seq<(Seq<char>, Seq<char>)> {
    if acc.contains(l) {
        acc
    } else {
        acc.push(l)
    }
}

/// The links the current document's ancestors contribute: for each recorded
/// ancestor name in order, the matching top-level section's page, skipped
/// when that section has no page, de-duplicated against links already added.
pub open spec fn ancestor_links(
    acc: Seq<(Seq<char>, Seq<char>)>,
    sections: Seq<BookNode>,
    parents: Seq<Seq<char>>,
    d: nat,
) -> Seq<(Seq<char>, Seq<char>)>
    decreases parents.len(),
{
    if parents.len() == 0 {
        acc
    } else {
        let acc1 = match find_section(sections, parents[0]) {
            Some(node) => match node.path {
                Some(p) => add_if_new(acc, (node.name@, dots(d) + swap_md_html(p@))),
                None => acc,
            },
            None => acc,
        };
        ancestor_links(acc1, sections, parents.drop_first(), d)
    }
}

/// The whole breadcrumb: Home, then the extra navigation entries in order,
/// then the ancestors' pages.
pub open spec fn breadcrumb_spec(
    sections: Seq<BookNode>,
    cfg: TinyConfig,
    parents: Seq<Seq<char>>,
    d: nat,
) -> Seq<(Seq<char>, Seq<char>)> {
    ancestor_links(
        seq![home_link(cfg_index_view(cfg), d)] + extra_links(cfg.extra_nav@, d),
        sections,
        parents,
        d,
    )
}

/// The Home link's href for the given configuration and depth.
fn home_href(cfg: &TinyConfig, depth: u8) -> (r: String)
    ensures
        r@ == dots(depth as nat) + index_target(cfg_index_view(*cfg)),
{
    let mut out = depth_prefix_chars(depth);
    match &cfg.index {
        Some(s) => {
            let sc = str_chars(s.as_str());
            let n = sc.len();
            if n >= 3 && sc[n - 3] == '.' && sc[n - 2] == 'm' && sc[n - 1] == 'd' {
                push_range(&mut out, &sc, 0, n - 3);
            } else {
                push_range(&mut out, &sc, 0, n);
                proof {
                    assert(sc@.subrange(0, n as int) =~= sc@);
                }
            }
            out.push('.');
            out.push('h');
            out.push('t');
            out.push('m');
            out.push('l');
            proof {
                assert(out@ =~= dots(depth as nat) + index_target(cfg_index_view(*cfg)));
            }
        },
        None => {
            proof {
                assert(out@ =~= dots(depth as nat) + index_target(cfg_index_view(*cfg)));
            }
        },
    }
    chars_to_string(&out)
}

/// The href of one extra-navigation target.
fn extra_href(target: &String, depth: u8) -> (r: String)
    ensures
        r@ == extra_target(target@, depth as nat),
{
    let tc = str_chars(target.as_str());
    let n = tc.len();
    let http = (n >= 7 && tc[0] == 'h' && tc[1] == 't' && tc[2] == 't' && tc[3] == 'p' && tc[4]
        == ':' && tc[5] == '/' && tc[6] == '/') || (n >= 8 && tc[0] == 'h' && tc[1] == 't' && tc[2]
        == 't' && tc[3] == 'p' && tc[4] == 's' && tc[5] == ':' && tc[6] == '/' && tc[7] == '/');
    proof {
        assert(http == starts_http(target@));
    }
    if http {
        target.clone()
    } else {
        let mut out = depth_prefix_chars(depth);
        push_swapped(&mut out, &tc);
        chars_to_string(&out)
    }
}

/// Whether a string-equal (label, href) pair is already among the links.
fn links_contains(links: &Vec<NavLink>, label: &String, href: &String) -> (b: bool)
    ensures
        b == links_view(links@).contains((label@, href@)),
{
    let n = links.len();
    let mut i: usize = 0;
    while i < n
        invariant
            i <= n,
            n == links@.len(),
            forall|k: int| 0 <= k < i ==> links_view(links@)[k] != (label@, href@),
        decreases n - i,
    {
        let l = &links[i];
        if l.label.eq(label) && l.href.eq(href) {
            proof {
                assert(links_view(links@)[i as int] == (label@, href@));
            }
            return true;
        }
        proof {
            assert(links_view(links@)[i as int] != (label@, href@));
        }
        i = i + 1;
    }
    proof {
        assert(!links_view(links@).contains((label@, href@))) by {
            if links_view(links@).contains((label@, href@)) {
                let k = choose|k: int|
                    0 <= k < links_view(links@).len() && links_view(links@)[k] == (label@, href@);
                assert(false);
            }
        }
    }
    false
}

/// The index of the first top-level section with the given name, if any.
fn find_section_pos(sections: &Vec<BookNode>, name: &String) -> (r: Option<usize>)
    ensures
        match r {
            Some(idx) => idx < sections@.len() && find_section(sections@, name@) == Some(
                sections@[idx as int],
            ),
            None => find_section(sections@, name@) is None,
        },
{
    let n = sections.len();
    let mut i: usize = 0;
    proof {
        assert(sections@.skip(0) =~= sections@);
    }
    while i < n
        invariant
            i <= n,
            n == sections@.len(),
            find_section(sections@, name@) == find_section(sections@.skip(i as int), name@),
        decreases n - i,
    {
        proof {
            assert(sections@.skip(i as int).drop_first() =~= sections@.skip(i as int + 1));
            assert(sections@.skip(i as int)[0] == sections@[i as int]);
        }
        if sections[i].name.eq(name) {
            return Some(i);
        }
        i = i + 1;
    }
    proof {
        assert(sections@.skip(n as int) =~= Seq::<BookNode>::empty());
    }
    None
}

/// Build the breadcrumb links for the document `ch`, emitted `depth`
/// directories below the output root: Home first, then the configured extra
/// navigation in order, then one link per recorded ancestor with a page,
/// never repeating a (label, href) pair the list already holds.
pub fn nav_links(sections: &Vec<BookNode>, cfg: &TinyConfig, ch: &BookNode, depth: u8) -> (r: Vec<
    NavLink,
>)
    ensures
        links_view(r@) == breadcrumb_spec(
            sections@,
            *cfg,
            names_view(ch.parent_names@),
            depth as nat,
        ),
{
    let ghost d = depth as nat;
    let mut links: Vec<NavLink> = Vec::new();
    let home = NavLink { label: String::from_str("Home"), href: home_href(cfg, depth) };
    links.push(home);
    proof {
        reveal_strlit("Home");
        assert("Home"@ =~= home_label());
        assert(links_view(links@) =~= seq![home_link(cfg_index_view(*cfg), d)]);
    }
    let n = cfg.extra_nav.len();
    let mut i: usize = 0;
    while i < n
        invariant
            i <= n,
            n == cfg.extra_nav@.len(),
            d == depth as nat,
            links_view(links@) =~= seq![home_link(cfg_index_view(*cfg), d)] + extra_links(
                cfg.extra_nav@.take(i as int),
                d,
            ),
        decreases n - i,
    {
        let ghost prev = links_view(links@);
        let ghost e = cfg.extra_nav@[i as int];
        let pair = &cfg.extra_nav[i];
        let label = pair.0.clone();
        let href = extra_href(&pair.1, depth);
        links.push(NavLink { label, href });
        proof {
            assert(links_view(links@) =~= prev.push((e.0@, extra_target(e.1@, d))));
            assert(extra_links(cfg.extra_nav@.take(i as int + 1), d) =~= extra_links(
                cfg.extra_nav@.take(i as int),
                d,
            ).push((e.0@, extra_target(e.1@, d))));
            assert(links_view(links@) =~= seq![home_link(cfg_index_view(*cfg), d)] + extra_links(
                cfg.extra_nav@.take(i as int + 1),
                d,
            ));
        }
        i = i + 1;
    }
    proof {
        assert(cfg.extra_nav@.take(n as int) =~= cfg.extra_nav@);
    }
    let ghost base = links_view(links@);
    let ghost parents = names_view(ch.parent_names@);
    let m = ch.parent_names.len();
    let mut j: usize = 0;
    proof {
        assert(parents.skip(0) =~= parents);
    }
    while j < m
        invariant
            j <= m,
            m == ch.parent_names@.len(),
            d == depth as nat,
            parents == names_view(ch.parent_names@),
            ancestor_links(base, sections@, parents, d) == ancestor_links(
                links_view(links@),
                sections@,
                parents.skip(j as int),
                d,
            ),
        decreases m - j,
    {
        let ghost before = links_view(links@);
        let ghost suffix = parents.skip(j as int);
        proof {
            assert(suffix.drop_first() =~= parents.skip(j as int + 1));
            assert(suffix[0] == parents[j as int]);
            assert(parents[j as int] == ch.parent_names@[j as int]@);
        }
        let pname = &ch.parent_names[j];
        match find_section_pos(sections, pname) {
            Some(idx) => {
                let node = &sections[idx];
                match &node.path {
                    Some(p) => {
                        let pc = str_chars(p.as_str());
                        let mut hc = depth_prefix_chars(depth);
                        push_swapped(&mut hc, &pc);
                        let href = chars_to_string(&hc);
                        let label = node.name.clone();
                        if !links_contains(&links, &label, &href) {
                            links.push(NavLink { label, href });
                            proof {
                                assert(links_view(links@) =~= before.push(
                                    (node.name@, dots(d) + swap_md_html(p@)),
                                ));
                            }
                        }
                        proof {
                            assert(links_view(links@) =~= add_if_new(
                                before,
                                (node.name@, dots(d) + swap_md_html(p@)),
                            ));
                        }
                    },
                    None => {},
                }
            },
            None => {},
        }
        proof {
            assert(ancestor_links(base, sections@, parents, d) == ancestor_links(
                links_view(links@),
                sections@,
                parents.skip(j as int + 1),
                d,
            ));
        }
        j = j + 1;
    }
    proof {
        assert(parents.skip(m as int) =~= Seq::<Seq<char>>::empty());
    }
    links
}

/// The bottom-navigation items of one node, as a bulleted entry: a nesting
/// opener, then (when the node has a page) its link followed by its own
/// children's items, then the closer.
pub open spec fn node_items(n: BookNode, d: nat) -> Seq<NavItemV>
    decreases n, 0nat,
        via node_items_dec
{
    seq![NavItemV::ListStart] + (match n.path {
        Some(p) => seq![
            NavItemV::Entry { label: n.name@, href: dots(d) + swap_md_html(p@) },
        ] + descendant_list(n.children@, d, 0),
        None => Seq::empty(),
    }) + seq![NavItemV::ListEnd]
}

/// The bottom-navigation items of the children from index `i` on, in the
/// book's declared order, depth-first.
pub open spec fn descendant_list(children: Seq<BookNode>, d: nat, i: int) -> Seq<NavItemV>
    decreases children, children.len() - i,
{
    if i < 0 || i >= children.len() {
        Seq::empty()
    } else {
        node_items(children[i], d) + descendant_list(children, d, i + 1)
    }
}

#[via_fn]
proof fn node_items_dec(n: BookNode, d: nat) {
    assert(decreases_to!(n => n.children));
    assert(decreases_to!(n.children => n.children@));
}

/// Map breadcrumb links to flat navigation entries.
pub open spec fn entries_of(ls: Seq<(Seq<char>, Seq<char>)>) -> Seq<NavItemV> {
    ls.map_values(|l: (Seq<char>, Seq<char>)| NavItemV::Entry { label: l.0, href: l.1 })
}

/// The bottom navigation of a document: its children's items; for a
/// childless document, nothing — or the breadcrumb again when the
/// configuration asks for that fallback.
pub open spec fn child_links_spec(
    sections: Seq<BookNode>,
    cfg: TinyConfig,
    ch: BookNode,
    d: nat,
) -> Seq<NavItemV> {
    if ch.children@.len() == 0 {
        if cfg.nav_bottom_empty {
            Seq::empty()
        } else {
            entries_of(breadcrumb_spec(sections, cfg, names_view(ch.parent_names@), d))
        }
    } else {
        descendant_list(ch.children@, d, 0)
    }
}

/// Build the items of all children from the given vector, in order.
fn descendant_items(children: &Vec<BookNode>, depth: u8) -> (r: Vec<NavItem>)
    ensures
        items_view(r@) == descendant_list(children@, depth as nat, 0),
    decreases children@,
{
    let ghost d = depth as nat;
    let mut out: Vec<NavItem> = Vec::new();
    let n = children.len();
    let mut i: usize = 0;
    proof {
        assert(items_view(out@) =~= Seq::<NavItemV>::empty());
    }
    while i < n
        invariant
            i <= n,
            n == children@.len(),
            d == depth as nat,
            descendant_list(children@, d, 0) =~= items_view(out@) + descendant_list(
                children@,
                d,
                i as int,
            ),
        decreases n - i,
    {
        let ghost before = items_view(out@);
        let node = &children[i];
        out.push(NavItem::ListStart);
        match &node.path {
            Some(p) => {
                let pc = str_chars(p.as_str());
                let mut hc = depth_prefix_chars(depth);
                push_swapped(&mut hc, &pc);
                let href = chars_to_string(&hc);
                out.push(NavItem::Entry(NavLink { label: node.name.clone(), href }));
                proof {
                    assert(decreases_to!(children@ => children@[i as int]));
                    assert(decreases_to!(children@[i as int] => children@[i as int].children));
                    assert(decreases_to!(
                        children@[i as int].children => children@[i as int].children@));
                }
                let mut sub = descendant_items(&node.children, depth);
                out.append(&mut sub);
                proof {
                    assert(items_view(out@) =~= before + node_items(children@[i as int], d).take(
                        node_items(children@[i as int], d).len() - 1,
                    ));
                }
            },
            None => {},
        }
        out.push(NavItem::ListEnd);
        proof {
            assert(items_view(out@) =~= before + node_items(children@[i as int], d));
            assert(descendant_list(children@, d, i as int) == node_items(children@[i as int], d)
                + descendant_list(children@, d, i as int + 1));
        }
        i = i + 1;
    }
    proof {
        assert(descendant_list(children@, d, n as int) =~= Seq::<NavItemV>::empty());
        assert(items_view(out@) =~= descendant_list(children@, d, 0));
    }
    out
}

/// Build the bottom navigation for the document `ch`: one bulleted entry
/// per child with that child's own entries nested beneath it; for a
/// childless document an empty list, or the breadcrumb again when
/// `nav_bottom_empty` is unset.
pub fn child_links(sections: &Vec<BookNode>, cfg: &TinyConfig, ch: &BookNode, depth: u8) -> (r:
    Vec<NavItem>)
    ensures
        items_view(r@) == child_links_spec(sections@, *cfg, *ch, depth as nat),
{
    let ghost d = depth as nat;
    if ch.children.len() == 0 {
        if cfg.nav_bottom_empty {
            let out: Vec<NavItem> = Vec::new();
            proof {
                assert(items_view(out@) =~= Seq::<NavItemV>::empty());
            }
            out
        } else {
            let bc = nav_links(sections, cfg, ch, depth);
            let ghost raw = bc@;
            let ghost bcv = links_view(bc@);
            let mut input = bc;
            let mut out: Vec<NavItem> = Vec::new();
            let ghost mut i: int = 0;
            proof {
                assert(input@ =~= raw.skip(0));
                assert(items_view(out@) =~= entries_of(bcv.take(0)));
            }
            while input.len() > 0
                invariant
                    0 <= i <= raw.len(),
                    bcv == links_view(raw),
                    input@ =~= raw.skip(i),
                    items_view(out@) =~= entries_of(bcv.take(i)),
                decreases input@.len(),
            {
                let l = input.remove(0);
                proof {
                    assert(l == raw[i]);
                    assert(link_view(l) == bcv[i]);
                    assert(input@ =~= raw.skip(i + 1));
                }
                let ghost prev = items_view(out@);
                out.push(NavItem::Entry(l));
                proof {
                    assert(items_view(out@) =~= prev.push(
                        NavItemV::Entry { label: bcv[i].0, href: bcv[i].1 },
                    ));
                    assert(entries_of(bcv.take(i + 1)) =~= entries_of(bcv.take(i)).push(
                        NavItemV::Entry { label: bcv[i].0, href: bcv[i].1 },
                    ));
                    assert(items_view(out@) =~= entries_of(bcv.take(i + 1)));
                    i = i + 1;
                }
            }
            proof {
                assert(bcv.take(i) =~= bcv);
            }
            out
        }
    } else {
        descendant_items(&ch.children, depth)
    }
}

/// Ancestors never repeat a link: everything the ancestor phase appends
/// differs from every link already present and from every other appended
/// link. The links it starts from are kept unchanged, in place.
pub proof fn lemma_ancestor_links_no_repeat(
    acc: Seq<(Seq<char>, Seq<char>)>,
    sections: Seq<BookNode>,
    parents: Seq<Seq<char>>,
    d: nat,
)
    ensures
        ({
            let r = ancestor_links(acc, sections, parents, d);
            &&& acc.len() <= r.len()
            &&& (forall|a: int| 0 <= a < acc.len() ==> r[a] == acc[a])
            &&& (forall|a: int, b: int|
                0 <= a < b < r.len() && acc.len() <= b ==> r[a] != r[b])
        }),
    decreases parents.len(),
{
    let r = ancestor_links(acc, sections, parents, d);
    if parents.len() == 0 {
    } else {
        let acc1 = match find_section(sections, parents[0]) {
            Some(node) => match node.path {
                Some(p) => add_if_new(acc, (node.name@, dots(d) + swap_md_html(p@))),
                None => acc,
            },
            None => acc,
        };
        lemma_ancestor_links_no_repeat(acc1, sections, parents.drop_first(), d);
        assert(r == ancestor_links(acc1, sections, parents.drop_first(), d));
        assert forall|a: int, b: int|
            0 <= a < b < r.len() && acc.len() <= b implies r[a] != r[b] by {
            if b >= acc1.len() {
            } else {
                assert(acc1.len() == acc.len() + 1 && b == acc.len());
                assert(!acc.contains(acc1[b]));
                assert(r[b] == acc1[b]);
                assert(r[a] == acc1[a] && acc1[a] == acc[a]);
            }
        }
    }
}

/// A link contributed by an ancestor is never a repetition of one already
/// in the breadcrumb — not of Home, not of an extra-navigation entry, and
/// not of another ancestor's link.
pub proof fn lemma_breadcrumb_no_repeat(
    sections: Seq<BookNode>,
    cfg: TinyConfig,
    parents: Seq<Seq<char>>,
    d: nat,
)
    ensures
        ({
            let base = seq![home_link(cfg_index_view(cfg), d)] + extra_links(cfg.extra_nav@, d);
            let r = breadcrumb_spec(sections, cfg, parents, d);
            &&& base.len() <= r.len()
            &&& (forall|a: int| 0 <= a < base.len() ==> r[a] == base[a])
            &&& (forall|a: int, b: int|
                0 <= a < b < r.len() && base.len() <= b ==> r[a] != r[b])
        }),
{
    let base = seq![home_link(cfg_index_view(cfg), d)] + extra_links(cfg.extra_nav@, d);
    lemma_ancestor_links_no_repeat(base, sections, parents, d);
}

} // verus!
