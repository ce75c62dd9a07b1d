//! The heading slugger: a two-state machine over a token stream that wraps
//! every heading in a self-referencing anchor whose id is a slug computed
//! from the heading's text. A heading still open when the stream ends is
//! re-emitted without an anchor, dropping no buffered token.

use vstd::prelude::*;
use crate::strutil::{
    lower_of, char_alphabetic, char_numeric, lowercase, str_chars, chars_to_string, push_range,
};
use crate::token::{
    Token, TokenV, stream_view, LINK_TYPE_INLINE, adjust_links_stream, adjusted_stream,
};
use crate::classify::opt_str_view;

verus! {

/// The slug characters contributed by each character of the (already
/// lowercased) heading text: a space becomes a hyphen, alphanumeric
/// characters stay, everything else is dropped.
pub open spec fn slug_map(s: Seq<char>) -> Seq<char>
    decreases s.len(),
{
    if s.len() == 0 {
        Seq::empty()
    } else {
        let c = s[0];
        let rest = slug_map(s.drop_first());
        if c == ' ' {
            seq!['-'] + rest
        } else if char_numeric(c) || char_alphabetic(c) {
            seq![c] + rest
        } else {
            rest
        }
    }
}

/// The slug of a heading's text: lowercase it, then keep only hyphens for
/// spaces and the alphanumeric characters. Two headings with the same text
/// get the same slug; no collision disambiguation is performed.
pub open spec fn slug_of(text: Seq<char>) -> Seq<char> {
    slug_map(lower_of(text))
}

/// Compute the slug of a heading text given as characters.
pub fn slug_from_chars(text: &Vec<char>) -> (r: Vec<char>)
    ensures
        r@ == slug_of(text@),
{
    let s = chars_to_string(text);
    let low = lowercase(s.as_str());
    let chars = str_chars(low.as_str());
    let mut out: Vec<char> = Vec::new();
    let mut i: usize = 0;
    let n = chars.len();
    proof {
        assert(chars@.skip(0) =~= chars@);
    }
    while i < n
        invariant
            i <= n,
            n == chars@.len(),
            slug_map(chars@) == out@ + slug_map(chars@.skip(i as int)),
        decreases n - i,
    {
        proof {
            assert(chars@.skip(i as int).drop_first() =~= chars@.skip(i as int + 1));
            assert(chars@.skip(i as int)[0] == chars@[i as int]);
        }
        let c = chars[i];
        if c == ' ' {
            out.push('-');
        } else if c.is_numeric() || c.is_alphabetic() {
            out.push(c);
        }
        i = i + 1;
    }
    proof {
        assert(chars@.skip(n as int) =~= Seq::<char>::empty());
        assert(out@ =~= slug_of(text@));
    }
    out
}

/// Compute the slug of a heading text.
pub fn make_slug(text: &str) -> (r: String)
    ensures
        r@ == slug_of(text@),
{
    let chars = str_chars(text);
    let out = slug_from_chars(&chars);
    chars_to_string(&out)
}

/// The text a token contributes to its heading's slug: the content of
/// `Text` and `Code` tokens, nothing from any other kind.
pub open spec fn token_text(t: TokenV) -> Seq<char> {
    match t {
        TokenV::Text { text } => text,
        TokenV::Code { text } => text,
        _ => Seq::empty(),
    }
}

/// The concatenated text content of a buffered heading.
pub open spec fn heading_text(buf: Seq<TokenV>) -> Seq<char>
    decreases buf.len(),
{
    if buf.len() == 0 {
        Seq::empty()
    } else {
        token_text(buf[0]) + heading_text(buf.drop_first())
    }
}

/// Collect the text content of the buffered tokens of a heading.
fn collect_heading_text(buf: &Vec<Token>) -> (r: Vec<char>)
    ensures
        r@ == heading_text(stream_view(buf@)),
{
    let ghost sv = stream_view(buf@);
    let mut out: Vec<char> = Vec::new();
    let mut i: usize = 0;
    let n = buf.len();
    proof {
        assert(sv.skip(0) =~= sv);
    }
    while i < n
        invariant
            i <= n,
            n == buf@.len(),
            sv == stream_view(buf@),
            heading_text(sv) == out@ + heading_text(sv.skip(i as int)),
        decreases n - i,
    {
        proof {
            assert(sv.skip(i as int).drop_first() =~= sv.skip(i as int + 1));
            assert(sv.skip(i as int)[0] == sv[i as int]);
            assert(sv[i as int] == buf@[i as int]@);
        }
        match &buf[i] {
            Token::Text { text } => {
                let tc = str_chars(text.as_str());
                push_range(&mut out, &tc, 0, tc.len());
                proof {
                    assert(tc@.subrange(0, tc@.len() as int) =~= tc@);
                }
            },
            Token::Code { text } => {
                let tc = str_chars(text.as_str());
                push_range(&mut out, &tc, 0, tc.len());
                proof {
                    assert(tc@.subrange(0, tc@.len() as int) =~= tc@);
                }
            },
            _ => {
                proof {
                    assert(token_text(sv[i as int]) =~= Seq::<char>::empty());
                    assert(out@ + token_text(sv[i as int]) =~= out@);
                }
            },
        }
        i = i + 1;
    }
    proof {
        assert(sv.skip(n as int) =~= Seq::<TokenV>::empty());
        assert(out@ =~= heading_text(sv));
    }
    out
}

/// The slugger's state: between headings, or inside one with the opening
/// token and the tokens buffered since.
#[verifier::ext_equal]
pub ghost enum SlugStateV {
    Outside,
    InHeading { start: TokenV, buffer: Seq<TokenV> },
}

/// A heading-start token re-emitted with a new id; any other token is
/// returned as it is.
pub open spec fn heading_reopened(start: TokenV, id: Option<Seq<char>>) -> TokenV {
    match start {
        TokenV::HeadingStart { level, id: _, classes, attrs } => TokenV::HeadingStart {
            level,
            id,
            classes,
            attrs,
        },
        _ => start,
    }
}

/// The self-referencing anchor link opening a slugged heading.
pub open spec fn anchor_link(slug: Seq<char>) -> TokenV {
    TokenV::LinkStart {
        link_type: LINK_TYPE_INLINE,
        url: seq!['#'] + slug,
        title: Seq::empty(),
        id: Seq::empty(),
    }
}

/// One step of the slugger: what the next state is and which tokens are
/// emitted for one input token.
pub open spec fn slug_step(st: SlugStateV, t: TokenV) -> (SlugStateV, Seq<TokenV>) {
    match st {
        SlugStateV::Outside => {
            if t is HeadingStart {
                (SlugStateV::InHeading { start: t, buffer: Seq::empty() }, Seq::empty())
            } else {
                (SlugStateV::Outside, seq![t])
            }
        },
        SlugStateV::InHeading { start, buffer } => {
            if t is HeadingEnd {
                let slug = slug_of(heading_text(buffer));
                (
                    SlugStateV::Outside,
                    seq![heading_reopened(start, Some(slug)), anchor_link(slug)] + buffer + seq![
                        TokenV::LinkEnd,
                        t,
                    ],
                )
            } else {
                (SlugStateV::InHeading { start, buffer: buffer.push(t) }, Seq::empty())
            }
        },
    }
}

/// The slugger run over a whole stream from a given state.
pub open spec fn slug_run(ts: Seq<TokenV>, st: SlugStateV) -> (SlugStateV, Seq<TokenV>)
    decreases ts.len(),
{
    if ts.len() == 0 {
        (st, Seq::empty())
    } else {
        let first = slug_step(st, ts[0]);
        let rest = slug_run(ts.drop_first(), first.0);
        (rest.0, first.1 + rest.1)
    }
}

/// What a stream's end emits: a heading still open is re-emitted without an
/// id or anchor, followed by all its buffered tokens.
pub open spec fn slug_flush(st: SlugStateV) -> Seq<TokenV> {
    match st {
        SlugStateV::Outside => Seq::empty(),
        SlugStateV::InHeading { start, buffer } => seq![heading_reopened(start, None)] + buffer,
    }
}

/// The whole slugger transform of a token stream.
pub open spec fn slugged(ts: Seq<TokenV>) -> Seq<TokenV> {
    let r = slug_run(ts, SlugStateV::Outside);
    r.1 + slug_flush(r.0)
}

enum SlugState {
    Outside,
    InHeading { start: Token, buffer: Vec<Token> },
}

spec fn state_view(st: &SlugState) -> SlugStateV {
    match st {
        SlugState::Outside => SlugStateV::Outside,
        SlugState::InHeading { start, buffer } => SlugStateV::InHeading {
            start: start@,
            buffer: stream_view(buffer@),
        },
    }
}

/// Wrap every complete heading of the stream in an anchor computed from its
/// text; re-emit an unterminated trailing heading without one.
pub fn add_heading_anchors(tokens: Vec<Token>) -> (r: Vec<Token>)
    ensures
        stream_view(r@) == slugged(stream_view(tokens@)),
{
    let ghost raw = tokens@;
    let ghost orig = stream_view(tokens@);
    let mut input = tokens;
    let mut out: Vec<Token> = Vec::new();
    let mut state = SlugState::Outside;
    let ghost mut i: int = 0;
    proof {
        assert(raw.skip(0) =~= raw);
        assert(orig.skip(0) =~= orig);
        assert(stream_view(Seq::<Token>::empty()) =~= Seq::<TokenV>::empty());
    }
    while input.len() > 0
        invariant
            0 <= i <= raw.len(),
            orig == stream_view(raw),
            input@ =~= raw.skip(i),
            slug_run(orig, SlugStateV::Outside).0 == slug_run(orig.skip(i), state_view(&state)).0,
            slug_run(orig, SlugStateV::Outside).1 =~= stream_view(out@) + slug_run(
                orig.skip(i),
                state_view(&state),
            ).1,
        decreases input@.len(),
    {
        let ghost st_v = state_view(&state);
        let ghost out_prev = stream_view(out@);
        let ghost suffix = orig.skip(i);
        let t = input.remove(0);
        proof {
            assert(input@ =~= raw.skip(i + 1));
            assert(t == raw[i]);
            assert(suffix[0] == orig[i]);
            assert(t@ == suffix[0]);
            assert(suffix.drop_first() =~= orig.skip(i + 1));
        }
        let is_heading_start = matches!(t, Token::HeadingStart { .. });
        let is_heading_end = matches!(t, Token::HeadingEnd { .. });
        state = match state {
            SlugState::Outside => {
                if is_heading_start {
                    SlugState::InHeading { start: t, buffer: Vec::new() }
                } else {
                    out.push(t);
                    SlugState::Outside
                }
            },
            SlugState::InHeading { start, mut buffer } => {
                if is_heading_end {
                    let text = collect_heading_text(&buffer);
                    let slug_chars = slug_from_chars(&text);
                    let slug_s = chars_to_string(&slug_chars);
                    let mut url_chars: Vec<char> = Vec::new();
                    url_chars.push('#');
                    push_range(&mut url_chars, &slug_chars, 0, slug_chars.len());
                    let url = chars_to_string(&url_chars);
                    proof {
                        assert(slug_chars@.subrange(0, slug_chars@.len() as int) =~= slug_chars@);
                        assert(url@ =~= seq!['#'] + slug_of(heading_text(stream_view(buffer@))));
                    }
                    let reopened = match start {
                        Token::HeadingStart { level, id: _, classes, attrs } => Token::HeadingStart {
                            level,
                            id: Some(slug_s),
                            classes,
                            attrs,
                        },
                        other => other,
                    };
                    out.push(reopened);
                    out.push(
                        Token::LinkStart {
                            link_type: LINK_TYPE_INLINE,
                            url,
                            title: String::new(),
                            id: String::new(),
                        },
                    );
                    let mut buffer = buffer;
                    out.append(&mut buffer);
                    out.push(Token::LinkEnd);
                    out.push(t);
                    SlugState::Outside
                } else {
                    buffer.push(t);
                    SlugState::InHeading { start, buffer }
                }
            },
        };
        proof {
            let step = slug_step(st_v, suffix[0]);
            assert(state_view(&state) =~= step.0);
            assert(stream_view(out@) =~= out_prev + step.1);
            assert(slug_run(suffix, st_v).0 == slug_run(orig.skip(i + 1), step.0).0);
            assert(slug_run(suffix, st_v).1 =~= step.1 + slug_run(orig.skip(i + 1), step.0).1);
            i = i + 1;
        }
    }
    proof {
        assert(raw.skip(i) =~= Seq::<Token>::empty());
        assert(i == raw.len());
        assert(orig.skip(i) =~= Seq::<TokenV>::empty());
    }
    match state {
        SlugState::Outside => {
            proof {
                assert(stream_view(out@) =~= slugged(orig));
            }
            out
        },
        SlugState::InHeading { start, buffer } => {
            let reopened = match start {
                Token::HeadingStart { level, id: _, classes, attrs } => Token::HeadingStart {
                    level,
                    id: None,
                    classes,
                    attrs,
                },
                other => other,
            };
            let mut out = out;
            out.push(reopened);
            let mut buffer = buffer;
            out.append(&mut buffer);
            proof {
                assert(stream_view(out@) =~= slugged(orig));
            }
            out
        },
    }
}

/// A stream that ends inside a heading loses nothing: the whole output is
/// the run's emission, then the heading-start re-emitted without an id or
/// anchor, then every buffered token, in order.
pub proof fn lemma_unterminated_heading(ts: Seq<TokenV>, start: TokenV, buffer: Seq<TokenV>)
    requires
        slug_run(ts, SlugStateV::Outside).0 == (SlugStateV::InHeading { start, buffer }),
    ensures
        slugged(ts) == slug_run(ts, SlugStateV::Outside).1 + seq![heading_reopened(start, None)]
            + buffer,
{
    assert(slugged(ts) =~= slug_run(ts, SlugStateV::Outside).1 + seq![
        heading_reopened(start, None),
    ] + buffer);
}

/// The whole per-document token transform: every link and image destination
/// and every raw-HTML link attribute adjusted for the document at `path`,
/// then every heading anchored.
pub fn rewrite_stream(tokens: Vec<Token>, path: Option<&str>) -> (r: Vec<Token>)
    ensures
        stream_view(r@) == slugged(adjusted_stream(stream_view(tokens@), opt_str_view(path))),
{
    let adjusted = adjust_links_stream(tokens, path);
    add_heading_anchors(adjusted)
}

} // verus!
