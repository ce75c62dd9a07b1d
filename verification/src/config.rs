//! The renderer's operator-facing configuration, as the navigation builder
//! reads it.

use vstd::prelude::*;
use vstd::string::StringExecFns;

verus! {

/// Navigation options of one render invocation: stylesheet paths to inline,
/// the separator between top-navigation items, the optional book-root index
/// page identifier, the ordered extra navigation entries (label, target),
/// and whether a childless document keeps its bottom navigation empty
/// instead of repeating the breadcrumb there.
#[derive(Debug, Clone)]
pub struct TinyConfig {
    pub css_paths: Vec<String>,
    pub nav_separator: String,
    pub index: Option<String>,
    pub extra_nav: Vec<(String, String)>,
    pub nav_bottom_empty: bool,
}

impl Default for TinyConfig {
    /// No stylesheets, `" - "` between navigation items, no index page, no
    /// extra navigation, and an empty bottom navigation for childless pages.
    fn default() -> (r: Self)
        ensures
            r.css_paths@ == Seq::<String>::empty(),
            r.nav_separator@ == " - "@,
            r.index is None,
            r.extra_nav@ == Seq::<(String, String)>::empty(),
            r.nav_bottom_empty == true,
    {
        TinyConfig {
            css_paths: Vec::new(),
            nav_separator: String::from_str(" - "),
            index: None,
            extra_nav: Vec::new(),
            nav_bottom_empty: true,
        }
    }
}

} // verus!
