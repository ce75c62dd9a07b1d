use tinybook::{
    adjust_links, apply_depth, depth_of, is_fragment_only, is_scheme_qualified, rewrite_html,
    rewrite_relative, Token,
};

#[test]
fn scheme_qualified_https() {
    assert!(is_scheme_qualified("https://x"));
}

#[test]
fn scheme_qualified_relative_path() {
    assert!(!is_scheme_qualified("./a.md"));
}

#[test]
fn scheme_qualified_fragment() {
    assert!(!is_scheme_qualified("#frag"));
}

#[test]
fn scheme_qualified_more_schemes() {
    assert!(is_scheme_qualified("mailto:someone@example.com"));
    assert!(is_scheme_qualified("ftp+ssh://host"));
    assert!(!is_scheme_qualified("Https://x"));
    assert!(!is_scheme_qualified(""));
    assert!(!is_scheme_qualified("a"));
}

#[test]
fn fragment_only_checks() {
    assert!(is_fragment_only("#sec"));
    assert!(!is_fragment_only("a#sec"));
    assert!(!is_fragment_only(""));
}

#[test]
fn rewrite_swaps_md_extension() {
    assert_eq!(rewrite_relative("chapter1.md", None, true), "chapter1.html");
}

#[test]
fn rewrite_keeps_fragment() {
    assert_eq!(
        rewrite_relative("sub/file.md#anchor", None, true),
        "sub/file.html#anchor"
    );
}

#[test]
fn rewrite_plain_link_unchanged() {
    assert_eq!(rewrite_relative("images/pic.png", None, true), "images/pic.png");
}

#[test]
fn rewrite_without_extension_flag() {
    assert_eq!(rewrite_relative("a.md", None, false), "a.md");
}

#[test]
fn rewrite_html_link_not_rewritten_again() {
    assert_eq!(rewrite_relative("notes.html", None, true), "notes.html");
    let once = rewrite_relative("notes.md", None, true);
    let twice = rewrite_relative(&once, None, true);
    assert_eq!(once, "notes.html");
    assert_eq!(twice, once);
}

#[test]
fn rewrite_prefixes_current_directory() {
    assert_eq!(
        rewrite_relative("pic.png", Some("guide/intro.md"), true),
        "guide/pic.png"
    );
}

#[test]
fn rewrite_empty_directory_adds_no_slash() {
    assert_eq!(rewrite_relative("pic.png", Some("intro.md"), true), "pic.png");
}

#[test]
fn rewrite_fragment_with_current_path() {
    assert_eq!(
        rewrite_relative("#sec", Some("guide/intro.md"), true),
        "guide/intro.html#sec"
    );
}

#[test]
fn rewrite_fragment_without_current_path() {
    assert_eq!(rewrite_relative("#sec", None, true), "#sec");
}

#[test]
fn rewrite_scheme_qualified_unchanged() {
    assert_eq!(
        rewrite_relative("https://example.com/a.md", None, true),
        "https://example.com/a.md"
    );
    assert_eq!(
        rewrite_relative("mailto:someone@example.com", None, true),
        "mailto:someone@example.com"
    );
}

#[test]
fn apply_depth_prefixes_two_levels() {
    assert_eq!(apply_depth("index.html".to_string(), 2), "../../index.html");
}

#[test]
fn apply_depth_zero_is_identity() {
    assert_eq!(apply_depth("a/b.html".to_string(), 0), "a/b.html");
}

#[test]
fn apply_depth_three_levels() {
    assert_eq!(apply_depth("a".to_string(), 3), "../../../a");
}

#[test]
fn depth_of_counts_segments() {
    assert_eq!(depth_of("guide/intro.md"), 2);
    assert_eq!(depth_of("a.md"), 1);
    assert_eq!(depth_of(""), 0);
    assert_eq!(depth_of("a/b/c.md"), 3);
}

#[test]
fn html_anchor_href_rewritten() {
    assert_eq!(
        rewrite_html("<p>before</p><a href=\"ch.md\">x</a>", None),
        "<p>before</p><a href=\"ch.html\">x</a>"
    );
}

#[test]
fn html_img_src_rewritten() {
    assert_eq!(
        rewrite_html("<img alt=\"z\" src=\"pics/a.md\">", None),
        "<img alt=\"z\" src=\"pics/a.html\">"
    );
}

#[test]
fn html_multiple_tags_rewritten() {
    assert_eq!(
        rewrite_html("<a href=\"a.md\">1</a> mid <img src=\"b.md\">", None),
        "<a href=\"a.html\">1</a> mid <img src=\"b.html\">"
    );
}

#[test]
fn html_scheme_qualified_value_kept() {
    assert_eq!(
        rewrite_html("<a href=\"https://example.com\">x</a>", None),
        "<a href=\"https://example.com\">x</a>"
    );
}

#[test]
fn html_without_link_tags_unchanged() {
    assert_eq!(rewrite_html("<div class=\"note\">text</div>", None), "<div class=\"note\">text</div>");
}

#[test]
fn html_empty_attribute_value_unchanged() {
    assert_eq!(rewrite_html("<a href=\"\">x</a>", None), "<a href=\"\">x</a>");
}

#[test]
fn html_unterminated_value_unchanged() {
    assert_eq!(rewrite_html("<a href=\"broken", None), "<a href=\"broken");
}

#[test]
fn html_value_with_current_path() {
    assert_eq!(
        rewrite_html("<a href=\"other.md\">x</a>", Some("guide/intro.md")),
        "<a href=\"guide/other.html\">x</a>"
    );
}

#[test]
fn adjust_links_rewrites_link_token() {
    let t = Token::LinkStart {
        link_type: 3,
        url: "other.md".to_string(),
        title: "t".to_string(),
        id: "i".to_string(),
    };
    let r = adjust_links(t, None);
    assert_eq!(
        r,
        Token::LinkStart {
            link_type: 3,
            url: "other.html".to_string(),
            title: "t".to_string(),
            id: "i".to_string(),
        }
    );
}

#[test]
fn adjust_links_rewrites_image_and_raw_html() {
    let img = Token::ImageStart {
        link_type: 0,
        url: "shot.md".to_string(),
        title: String::new(),
        id: String::new(),
    };
    match adjust_links(img, None) {
        Token::ImageStart { url, .. } => assert_eq!(url, "shot.html"),
        _ => panic!("image token changed kind"),
    }
    let raw = Token::RawHtml { text: "<a href=\"x.md\">l</a>".to_string() };
    assert_eq!(
        adjust_links(raw, None),
        Token::RawHtml { text: "<a href=\"x.html\">l</a>".to_string() }
    );
}

#[test]
fn adjust_links_leaves_other_tokens() {
    let t = Token::Text { text: "see a.md".to_string() };
    assert_eq!(adjust_links(t, None), Token::Text { text: "see a.md".to_string() });
    let o = Token::Other { key: 7 };
    assert_eq!(adjust_links(o, None), Token::Other { key: 7 });
}
