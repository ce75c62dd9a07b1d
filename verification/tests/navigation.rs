use tinybook::{child_links, nav_links, BookNode, NavItem, NavLink, TinyConfig};

fn leaf(name: &str, path: Option<&str>, parents: &[&str]) -> BookNode {
    BookNode {
        name: name.to_string(),
        path: path.map(|p| p.to_string()),
        children: vec![],
        parent_names: parents.iter().map(|p| p.to_string()).collect(),
        draft: false,
    }
}

fn cfg_with_index(index: Option<&str>) -> TinyConfig {
    TinyConfig { index: index.map(|s| s.to_string()), ..Default::default() }
}

fn link(label: &str, href: &str) -> NavLink {
    NavLink { label: label.to_string(), href: href.to_string() }
}

#[test]
fn default_config_values() {
    let cfg = TinyConfig::default();
    assert_eq!(cfg.nav_separator, " - ");
    assert!(cfg.index.is_none());
    assert!(cfg.nav_bottom_empty);
    assert!(cfg.extra_nav.is_empty());
    assert!(cfg.css_paths.is_empty());
}

#[test]
fn home_link_at_depth_two() {
    let cfg = cfg_with_index(Some("index"));
    let ch = leaf("Intro", Some("guide/intro.md"), &[]);
    let links = nav_links(&vec![], &cfg, &ch, 2);
    assert_eq!(links, vec![link("Home", "../../index.html")]);
}

#[test]
fn home_link_without_index() {
    let cfg = cfg_with_index(None);
    let ch = leaf("Intro", Some("guide/intro.md"), &[]);
    let links = nav_links(&vec![], &cfg, &ch, 2);
    assert_eq!(links, vec![link("Home", "../../")]);
}

#[test]
fn home_link_index_with_md_extension() {
    let cfg = cfg_with_index(Some("start.md"));
    let ch = leaf("Intro", Some("intro.md"), &[]);
    let links = nav_links(&vec![], &cfg, &ch, 1);
    assert_eq!(links, vec![link("Home", "../start.html")]);
}

#[test]
fn extra_nav_absolute_url_unchanged() {
    let mut cfg = cfg_with_index(Some("index"));
    cfg.extra_nav = vec![("Source".to_string(), "https://example.com/repo".to_string())];
    let ch = leaf("Intro", Some("intro.md"), &[]);
    let links = nav_links(&vec![], &cfg, &ch, 1);
    assert_eq!(
        links,
        vec![link("Home", "../index.html"), link("Source", "https://example.com/repo")]
    );
}

#[test]
fn extra_nav_relative_path_prefixed_and_swapped() {
    let mut cfg = cfg_with_index(None);
    cfg.extra_nav = vec![("Docs".to_string(), "docs.md".to_string())];
    let ch = leaf("Intro", Some("intro.md"), &[]);
    let links = nav_links(&vec![], &cfg, &ch, 1);
    assert_eq!(links, vec![link("Home", "../"), link("Docs", "../docs.html")]);
}

#[test]
fn ancestor_link_for_guide_child() {
    let guide = BookNode {
        name: "Guide".to_string(),
        path: Some("guide.md".to_string()),
        children: vec![leaf("Intro", Some("guide/intro.md"), &["Guide"])],
        parent_names: vec![],
        draft: false,
    };
    let sections = vec![guide];
    let cfg = cfg_with_index(Some("index"));
    let intro = leaf("Intro", Some("guide/intro.md"), &["Guide"]);
    let links = nav_links(&sections, &cfg, &intro, 2);
    assert_eq!(
        links,
        vec![link("Home", "../../index.html"), link("Guide", "../../guide.html")]
    );
}

#[test]
fn ancestor_without_path_skipped() {
    let sections = vec![leaf("Part One", None, &[])];
    let cfg = cfg_with_index(Some("index"));
    let ch = leaf("Intro", Some("part/intro.md"), &["Part One"]);
    let links = nav_links(&sections, &cfg, &ch, 2);
    assert_eq!(links, vec![link("Home", "../../index.html")]);
}

#[test]
fn ancestor_duplicate_of_extra_nav_not_repeated() {
    let sections = vec![leaf("Guide", Some("guide.md"), &[])];
    let mut cfg = cfg_with_index(Some("index"));
    cfg.extra_nav = vec![("Guide".to_string(), "guide.md".to_string())];
    let ch = leaf("Intro", Some("guide/intro.md"), &["Guide"]);
    let links = nav_links(&sections, &cfg, &ch, 2);
    assert_eq!(
        links,
        vec![link("Home", "../../index.html"), link("Guide", "../../guide.html")]
    );
}

#[test]
fn repeated_ancestor_names_contribute_once() {
    let sections = vec![leaf("Guide", Some("guide.md"), &[])];
    let cfg = cfg_with_index(None);
    let mut ch = leaf("Deep", Some("guide/sub/deep.md"), &["Guide", "Guide"]);
    ch.parent_names = vec!["Guide".to_string(), "Guide".to_string()];
    let links = nav_links(&sections, &cfg, &ch, 3);
    assert_eq!(
        links,
        vec![link("Home", "../../../"), link("Guide", "../../../guide.html")]
    );
}

#[test]
fn childless_document_has_empty_bottom_nav() {
    let cfg = cfg_with_index(Some("index"));
    let intro = leaf("Intro", Some("guide/intro.md"), &["Guide"]);
    let items = child_links(&vec![], &cfg, &intro, 2);
    assert!(items.is_empty());
}

#[test]
fn childless_document_falls_back_to_breadcrumb() {
    let sections = vec![BookNode {
        name: "Guide".to_string(),
        path: Some("guide.md".to_string()),
        children: vec![],
        parent_names: vec![],
        draft: false,
    }];
    let mut cfg = cfg_with_index(Some("index"));
    cfg.nav_bottom_empty = false;
    let intro = leaf("Intro", Some("guide/intro.md"), &["Guide"]);
    let items = child_links(&sections, &cfg, &intro, 2);
    assert_eq!(
        items,
        vec![
            NavItem::Entry(link("Home", "../../index.html")),
            NavItem::Entry(link("Guide", "../../guide.html")),
        ]
    );
}

#[test]
fn children_become_bulleted_entries() {
    let guide = BookNode {
        name: "Guide".to_string(),
        path: Some("guide.md".to_string()),
        children: vec![leaf("Intro", Some("guide/intro.md"), &["Guide"])],
        parent_names: vec![],
        draft: false,
    };
    let cfg = cfg_with_index(Some("index"));
    let items = child_links(&vec![], &cfg, &guide, 1);
    assert_eq!(
        items,
        vec![
            NavItem::ListStart,
            NavItem::Entry(link("Intro", "../guide/intro.html")),
            NavItem::ListEnd,
        ]
    );
}

#[test]
fn nested_children_render_depth_first() {
    let deep = leaf("Deep", Some("guide/sub/deep.md"), &["Guide", "Sub"]);
    let sub = BookNode {
        name: "Sub".to_string(),
        path: Some("guide/sub.md".to_string()),
        children: vec![deep],
        parent_names: vec!["Guide".to_string()],
        draft: false,
    };
    let guide = BookNode {
        name: "Guide".to_string(),
        path: Some("guide.md".to_string()),
        children: vec![sub],
        parent_names: vec![],
        draft: false,
    };
    let cfg = cfg_with_index(None);
    let items = child_links(&vec![], &cfg, &guide, 1);
    assert_eq!(
        items,
        vec![
            NavItem::ListStart,
            NavItem::Entry(link("Sub", "../guide/sub.html")),
            NavItem::ListStart,
            NavItem::Entry(link("Deep", "../guide/sub/deep.html")),
            NavItem::ListEnd,
            NavItem::ListEnd,
        ]
    );
}

#[test]
fn child_without_path_renders_empty_item() {
    let guide = BookNode {
        name: "Guide".to_string(),
        path: Some("guide.md".to_string()),
        children: vec![leaf("Draft Part", None, &["Guide"])],
        parent_names: vec![],
        draft: false,
    };
    let cfg = cfg_with_index(None);
    let items = child_links(&vec![], &cfg, &guide, 1);
    assert_eq!(items, vec![NavItem::ListStart, NavItem::ListEnd]);
}
