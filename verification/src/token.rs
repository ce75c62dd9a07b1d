//! The token model of a parsed document, and the single-pass link rewriter
//! over a token stream. Only link, image and raw-HTML tokens are touched;
//! every other token passes through unchanged and in its original order.

use vstd::prelude::*;
use crate::classify::{rewrite_relative_spec, rewrite_relative, opt_str_view};
use crate::html::{html_rewritten, rewrite_html};

verus! {

/// The link type a heading's self-anchor is emitted with; the serializer
/// maps it back to its tokenizer's inline link kind.
pub const LINK_TYPE_INLINE: u8 = 0;

/// One unit of parsed document structure. `Other` carries an opaque key
/// under which the caller keeps any token kind the engine does not touch.
#[derive(Debug, Clone, PartialEq, Eq)]
pub enum Token {
    LinkStart { link_type: u8, url: String, title: String, id: String },
    LinkEnd,
    ImageStart { link_type: u8, url: String, title: String, id: String },
    RawHtml { text: String },
    InlineRawHtml { text: String },
    HeadingStart {
        level: u8,
        id: Option<String>,
        classes: Vec<String>,
        attrs: Vec<(String, Option<String>)>,
    },
    HeadingEnd { level: u8 },
    Text { text: String },
    Code { text: String },
    Other { key: u64 },
}

/// The mathematical image of a token: every string as a character sequence.
pub ghost enum TokenV {
    LinkStart { link_type: u8, url: Seq<char>, title: Seq<char>, id: Seq<char> },
    LinkEnd,
    ImageStart { link_type: u8, url: Seq<char>, title: Seq<char>, id: Seq<char> },
    RawHtml { text: Seq<char> },
    InlineRawHtml { text: Seq<char> },
    HeadingStart {
        level: u8,
        id: Option<Seq<char>>,
        classes: Seq<Seq<char>>,
        attrs: Seq<(Seq<char>, Option<Seq<char>>)>,
    },
    HeadingEnd { level: u8 },
    Text { text: Seq<char> },
    Code { text: Seq<char> },
    Other { key: u64 },
}

pub open spec fn opt_string_view(o: Option<String>) -> Option<Seq<char>> {
    match o {
        Some(s) => Some(s@),
        None => None,
    }
}

pub open spec fn attr_view(a: (String, Option<String>)) -> (Seq<char>, Option<Seq<char>>) {
    (a.0@, opt_string_view(a.1))
}

impl View for Token {
    type V = TokenV;

    open spec fn view(&self) -> TokenV {
        match self {
            Token::LinkStart { link_type, url, title, id } => TokenV::LinkStart {
                link_type: *link_type,
                url: url@,
                title: title@,
                id: id@,
            },
            Token::LinkEnd => TokenV::LinkEnd,
            Token::ImageStart { link_type, url, title, id } => TokenV::ImageStart {
                link_type: *link_type,
                url: url@,
                title: title@,
                id: id@,
            },
            Token::RawHtml { text } => TokenV::RawHtml { text: text@ },
            Token::InlineRawHtml { text } => TokenV::InlineRawHtml { text: text@ },
            Token::HeadingStart { level, id, classes, attrs } => TokenV::HeadingStart {
                level: *level,
                id: match id {
                    Some(s) => Some(s@),
                    None => None,
                },
                classes: classes@.map_values(|c: String| c@),
                attrs: attrs@.map_values(|a: (String, Option<String>)| attr_view(a)),
            },
            Token::HeadingEnd { level } => TokenV::HeadingEnd { level: *level },
            Token::Text { text } => TokenV::Text { text: text@ },
            Token::Code { text } => TokenV::Code { text: text@ },
            Token::Other { key } => TokenV::Other { key: *key },
        }
    }
}

/// The views of a stream of tokens.
pub open spec fn stream_view(s: Seq<Token>) -> Seq<TokenV> {
    s.map_values(|t: Token| t@)
}

/// What the link rewriter does to one token: the destination of a link or
/// image is run through the relative-reference rewrite, raw HTML has its
/// link attributes patched, and every other token is untouched.
pub open spec fn adjust_links_spec(t: TokenV, p: Option<Seq<char>>) -> TokenV {
    match t {
        TokenV::LinkStart { link_type, url, title, id } => TokenV::LinkStart {
            link_type,
            url: rewrite_relative_spec(url, p, true),
            title,
            id,
        },
        TokenV::ImageStart { link_type, url, title, id } => TokenV::ImageStart {
            link_type,
            url: rewrite_relative_spec(url, p, true),
            title,
            id,
        },
        TokenV::RawHtml { text } => TokenV::RawHtml { text: html_rewritten(text, p) },
        TokenV::InlineRawHtml { text } => TokenV::InlineRawHtml { text: html_rewritten(text, p) },
        _ => t,
    }
}

/// A whole stream, token by token, through the link rewriter.
pub open spec fn adjusted_stream(ts: Seq<TokenV>, p: Option<Seq<char>>) -> Seq<TokenV> {
    ts.map_values(|t: TokenV| adjust_links_spec(t, p))
}

/// Rewrite the destinations of one token for the document at `path`.
pub fn adjust_links(tok: Token, path: Option<&str>) -> (r: Token)
    ensures
        r@ == adjust_links_spec(tok@, opt_str_view(path)),
{
    match tok {
        Token::LinkStart { link_type, url, title, id } => {
            let new_url = rewrite_relative(url.as_str(), path, true);
            Token::LinkStart { link_type, url: new_url, title, id }
        },
        Token::ImageStart { link_type, url, title, id } => {
            let new_url = rewrite_relative(url.as_str(), path, true);
            Token::ImageStart { link_type, url: new_url, title, id }
        },
        Token::RawHtml { text } => {
            let new_text = rewrite_html(text.as_str(), path);
            Token::RawHtml { text: new_text }
        },
        Token::InlineRawHtml { text } => {
            let new_text = rewrite_html(text.as_str(), path);
            Token::InlineRawHtml { text: new_text }
        },
        t => t,
    }
}

/// Rewrite the destinations of every token of a stream, keeping all tokens
/// in their original order.
pub fn adjust_links_stream(tokens: Vec<Token>, path: Option<&str>) -> (r: Vec<Token>)
    ensures
        stream_view(r@) == adjusted_stream(stream_view(tokens@), opt_str_view(path)),
{
    let ghost orig = tokens@;
    let ghost p = opt_str_view(path);
    let mut input = tokens;
    let mut out: Vec<Token> = Vec::new();
    let ghost mut i: int = 0;
    while input.len() > 0
        invariant
            0 <= i <= orig.len(),
            input@ =~= orig.skip(i),
            p == opt_str_view(path),
            stream_view(out@) =~= adjusted_stream(stream_view(orig.take(i)), p),
        decreases input@.len(),
    {
        let t = input.remove(0);
        proof {
            assert(t == orig[i]);
            assert(input@ =~= orig.skip(i + 1));
        }
        let r = adjust_links(t, path);
        out.push(r);
        proof {
            assert(orig.take(i + 1) =~= orig.take(i).push(orig[i]));
            assert(stream_view(orig.take(i).push(orig[i])) =~= stream_view(orig.take(i)).push(
                orig[i]@,
            ));
            assert(adjusted_stream(stream_view(orig.take(i)).push(orig[i]@), p) =~= adjusted_stream(
                stream_view(orig.take(i)),
                p,
            ).push(adjust_links_spec(orig[i]@, p)));
            assert(stream_view(out@) =~= adjusted_stream(stream_view(orig.take(i + 1)), p));
            i = i + 1;
        }
    }
    proof {
        assert(orig.take(i) =~= orig);
    }
    out
}

} // verus!
