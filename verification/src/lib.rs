//! Core engine of a static book renderer: it classifies and rewrites
//! relative URLs for output depth and extension, patches link targets
//! embedded in raw HTML fragments, wraps headings in self-referencing
//! anchors derived from their text, and builds breadcrumb and descendant
//! navigation links from the book's chapter tree.

pub mod classify;
pub mod config;
pub mod html;
pub mod nav;
pub mod slug;
pub mod strutil;
pub mod token;

pub use classify::{apply_depth, depth_of, is_fragment_only, is_scheme_qualified, rewrite_relative};
pub use config::TinyConfig;
pub use html::rewrite_html;
pub use nav::{child_links, nav_links, BookNode, NavItem, NavLink};
pub use slug::{add_heading_anchors, make_slug, rewrite_stream};
pub use token::{adjust_links, adjust_links_stream, Token};
