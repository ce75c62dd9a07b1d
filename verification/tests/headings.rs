use tinybook::{add_heading_anchors, make_slug, rewrite_stream, Token};

fn heading_start(level: u8) -> Token {
    Token::HeadingStart { level, id: None, classes: vec![], attrs: vec![] }
}

fn text(s: &str) -> Token {
    Token::Text { text: s.to_string() }
}

#[test]
fn slug_of_punctuated_text() {
    assert_eq!(make_slug("Hello, World! 2"), "hello-world-2");
}

#[test]
fn slug_lowercases_and_drops_symbols() {
    assert_eq!(make_slug("Getting Started?"), "getting-started");
    assert_eq!(make_slug("C'est l'été"), "cest-lété");
    assert_eq!(make_slug(""), "");
}

#[test]
fn heading_wrapped_in_anchor() {
    let tokens = vec![heading_start(2), text("Hello, World! 2"), Token::HeadingEnd { level: 2 }];
    let out = add_heading_anchors(tokens);
    assert_eq!(
        out,
        vec![
            Token::HeadingStart {
                level: 2,
                id: Some("hello-world-2".to_string()),
                classes: vec![],
                attrs: vec![],
            },
            Token::LinkStart {
                link_type: 0,
                url: "#hello-world-2".to_string(),
                title: String::new(),
                id: String::new(),
            },
            text("Hello, World! 2"),
            Token::LinkEnd,
            Token::HeadingEnd { level: 2 },
        ]
    );
}

#[test]
fn repeated_heading_text_collides() {
    let tokens = vec![
        heading_start(1),
        text("Intro"),
        Token::HeadingEnd { level: 1 },
        text("between"),
        heading_start(1),
        text("Intro"),
        Token::HeadingEnd { level: 1 },
    ];
    let out = add_heading_anchors(tokens);
    let ids: Vec<String> = out
        .iter()
        .filter_map(|t| match t {
            Token::HeadingStart { id: Some(s), .. } => Some(s.clone()),
            _ => None,
        })
        .collect();
    assert_eq!(ids, vec!["intro".to_string(), "intro".to_string()]);
}

#[test]
fn code_tokens_contribute_slug_text() {
    let tokens = vec![
        heading_start(3),
        text("Using "),
        Token::Code { text: "cargo build".to_string() },
        Token::HeadingEnd { level: 3 },
    ];
    let out = add_heading_anchors(tokens);
    match &out[0] {
        Token::HeadingStart { id: Some(s), .. } => assert_eq!(s, "using-cargo-build"),
        other => panic!("expected heading start, got {:?}", other),
    }
}

#[test]
fn unterminated_heading_keeps_all_tokens() {
    let tokens = vec![heading_start(2), text("abc"), Token::Code { text: "x".to_string() }];
    let out = add_heading_anchors(tokens);
    assert_eq!(
        out,
        vec![
            Token::HeadingStart { level: 2, id: None, classes: vec![], attrs: vec![] },
            text("abc"),
            Token::Code { text: "x".to_string() },
        ]
    );
}

#[test]
fn non_heading_tokens_pass_through_in_order() {
    let tokens = vec![
        text("a"),
        Token::Other { key: 1 },
        text("b"),
        Token::Other { key: 2 },
    ];
    let out = add_heading_anchors(tokens.clone());
    assert_eq!(out, tokens);
}

#[test]
fn rewrite_stream_adjusts_then_anchors() {
    let tokens = vec![
        heading_start(1),
        text("See also"),
        Token::HeadingEnd { level: 1 },
        Token::LinkStart {
            link_type: 0,
            url: "next.md".to_string(),
            title: String::new(),
            id: String::new(),
        },
        text("next"),
        Token::LinkEnd,
    ];
    let out = rewrite_stream(tokens, None);
    assert_eq!(
        out,
        vec![
            Token::HeadingStart {
                level: 1,
                id: Some("see-also".to_string()),
                classes: vec![],
                attrs: vec![],
            },
            Token::LinkStart {
                link_type: 0,
                url: "#see-also".to_string(),
                title: String::new(),
                id: String::new(),
            },
            text("See also"),
            Token::LinkEnd,
            Token::HeadingEnd { level: 1 },
            Token::LinkStart {
                link_type: 0,
                url: "next.html".to_string(),
                title: String::new(),
                id: String::new(),
            },
            text("next"),
            Token::LinkEnd,
        ]
    );
}

#[test]
fn link_inside_heading_rewritten_and_buffered() {
    let tokens = vec![
        heading_start(2),
        Token::LinkStart {
            link_type: 0,
            url: "ref.md".to_string(),
            title: String::new(),
            id: String::new(),
        },
        text("Ref"),
        Token::LinkEnd,
        Token::HeadingEnd { level: 2 },
    ];
    let out = rewrite_stream(tokens, None);
    match &out[2] {
        Token::LinkStart { url, .. } => assert_eq!(url, "ref.html"),
        other => panic!("expected buffered link start, got {:?}", other),
    }
    match &out[0] {
        Token::HeadingStart { id: Some(s), .. } => assert_eq!(s, "ref"),
        other => panic!("expected heading start, got {:?}", other),
    }
}
