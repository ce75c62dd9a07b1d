//! Best-effort patching of link targets inside raw HTML fragments: the
//! value of the first `src="..."` or `href="..."` attribute of each
//! `<a ...>` or `<img ...>` tag is run through the relative-reference
//! rewrite. This is deliberately not an HTML parser: anything that does
//! not fit the shape below passes through unchanged.

use vstd::prelude::*;
use crate::strutil::{str_chars, chars_to_string, push_range};
use crate::classify::{rewrite_relative_spec, rewrite_relative_chars, opt_chars_view, opt_str_view};

verus! {

/// Whether `<a ` stands at position `i`.
pub open spec fn a_tag_at(s: Seq<char>, i: int) -> bool {
    &&& 0 <= i
    &&& i + 3 <= s.len()
    &&& s[i] == '<'
    &&& s[i + 1] == 'a'
    &&& s[i + 2] == ' '
}

/// Whether `<img ` stands at position `i`.
pub open spec fn img_tag_at(s: Seq<char>, i: int) -> bool {
    &&& 0 <= i
    &&& i + 5 <= s.len()
    &&& s[i] == '<'
    &&& s[i + 1] == 'i'
    &&& s[i + 2] == 'm'
    &&& s[i + 3] == 'g'
    &&& s[i + 4] == ' '
}

pub open spec fn tag_at(s: Seq<char>, i: int) -> bool {
    a_tag_at(s, i) || img_tag_at(s, i)
}

/// The position just after the tag name and its following space.
pub open spec fn tag_content_start(s: Seq<char>, i: int) -> int {
    if a_tag_at(s, i) {
        i + 3
    } else {
        i + 5
    }
}

/// Whether `src="` stands at position `j`.
pub open spec fn src_at(s: Seq<char>, j: int) -> bool {
    &&& 0 <= j
    &&& j + 5 <= s.len()
    &&& s[j] == 's'
    &&& s[j + 1] == 'r'
    &&& s[j + 2] == 'c'
    &&& s[j + 3] == '='
    &&& s[j + 4] == '"'
}

/// Whether `href="` stands at position `j`.
pub open spec fn href_at(s: Seq<char>, j: int) -> bool {
    &&& 0 <= j
    &&& j + 6 <= s.len()
    &&& s[j] == 'h'
    &&& s[j + 1] == 'r'
    &&& s[j + 2] == 'e'
    &&& s[j + 3] == 'f'
    &&& s[j + 4] == '='
    &&& s[j + 5] == '"'
}

pub open spec fn attr_at(s: Seq<char>, j: int) -> bool {
    src_at(s, j) || href_at(s, j)
}

/// The position of the first character of the attribute value.
pub open spec fn attr_url_start(s: Seq<char>, j: int) -> int {
    if src_at(s, j) {
        j + 5
    } else {
        j + 6
    }
}

/// The first `"` at or after position `k`, if any.
pub open spec fn find_quote(s: Seq<char>, k: int) -> Option<int>
    decreases s.len() - k,
{
    if k < 0 || k >= s.len() {
        None
    } else if s[k] == '"' {
        Some(k)
    } else {
        find_quote(s, k + 1)
    }
}

pub proof fn lemma_find_quote(s: Seq<char>, k: int)
    requires
        0 <= k <= s.len(),
    ensures
        match find_quote(s, k) {
            Some(q) => k <= q < s.len() && s[q] == '"',
            None => true,
        },
    decreases s.len() - k,
{
    if k < s.len() && s[k] != '"' {
        lemma_find_quote(s, k + 1);
    }
}

/// Whether an attribute value starts at `q`: at least one character that is
/// not a quote, later closed by one.
pub open spec fn url_ok(s: Seq<char>, q: int) -> bool {
    &&& q < s.len()
    &&& s[q] != '"'
    &&& find_quote(s, q) is Some
}

/// The first position `j` at or after `j0` where a `src="` or `href="`
/// with a usable value stands, scanning over characters other than `>`.
pub open spec fn find_attr(s: Seq<char>, j: int) -> Option<int>
    decreases s.len() - j,
{
    if j < 0 || j >= s.len() {
        None
    } else if attr_at(s, j) && url_ok(s, attr_url_start(s, j)) {
        Some(j)
    } else if s[j] == '>' {
        None
    } else {
        find_attr(s, j + 1)
    }
}

pub proof fn lemma_find_attr(s: Seq<char>, j: int)
    requires
        0 <= j <= s.len(),
    ensures
        match find_attr(s, j) {
            Some(a) => j <= a < s.len() && attr_at(s, a) && url_ok(s, attr_url_start(s, a)),
            None => true,
        },
    decreases s.len() - j,
{
    if j < s.len() && !(attr_at(s, j) && url_ok(s, attr_url_start(s, j))) && s[j] != '>' {
        lemma_find_attr(s, j + 1);
    }
}

/// Whether a rewritable link-bearing tag starts exactly at position `i`.
pub open spec fn match_at(s: Seq<char>, i: int) -> bool {
    tag_at(s, i) && find_attr(s, tag_content_start(s, i)) is Some
}

/// The raw HTML from position `i` on, with each matched attribute value run
/// through the relative-reference rewrite, one rewrite per match, scanning
/// left to right and continuing after each match's closing quote.
pub open spec fn html_rw_from(s: Seq<char>, p: Option<Seq<char>>, i: int) -> Seq<char>
    decreases s.len() - i,
    when 0 <= i
    via html_rw_from_dec
{
    if i >= s.len() {
        Seq::empty()
    } else if match_at(s, i) {
        let j = find_attr(s, tag_content_start(s, i))->0;
        let q = attr_url_start(s, j);
        let k = find_quote(s, q)->0;
        s.subrange(i, q) + rewrite_relative_spec(s.subrange(q, k), p, true) + seq!['"']
            + html_rw_from(s, p, k + 1)
    } else {
        seq![s[i]] + html_rw_from(s, p, i + 1)
    }
}

#[via_fn]
proof fn html_rw_from_dec(s: Seq<char>, p: Option<Seq<char>>, i: int) {
    if i < s.len() && match_at(s, i) {
        lemma_find_attr(s, tag_content_start(s, i));
        let j = find_attr(s, tag_content_start(s, i))->0;
        lemma_find_quote(s, attr_url_start(s, j));
    }
}

/// The whole raw HTML fragment with its link attributes rewritten.
pub open spec fn html_rewritten(s: Seq<char>, p: Option<Seq<char>>) -> Seq<char> {
    html_rw_from(s, p, 0)
}

/// The first `"` at or after `k`, as an index.
fn find_quote_pos(s: &Vec<char>, k: usize) -> (r: Option<usize>)
    requires
        k <= s@.len(),
    ensures
        match r {
            Some(q) => find_quote(s@, k as int) == Some(q as int) && k <= q < s@.len(),
            None => find_quote(s@, k as int) is None,
        },
{
    let mut m = k;
    while m < s.len()
        invariant
            k <= m <= s@.len(),
            find_quote(s@, k as int) == find_quote(s@, m as int),
        decreases s@.len() - m,
    {
        if s[m] == '"' {
            return Some(m);
        }
        m = m + 1;
    }
    None
}

/// Find the first usable `src="` / `href="` at or after `j0`, together with
/// the value's start and its closing quote.
fn find_attr_pos(s: &Vec<char>, j0: usize) -> (r: Option<(usize, usize, usize)>)
    requires
        j0 <= s@.len(),
    ensures
        match r {
            Some(t) => {
                &&& find_attr(s@, j0 as int) == Some(t.0 as int)
                &&& t.1 as int == attr_url_start(s@, t.0 as int)
                &&& find_quote(s@, t.1 as int) == Some(t.2 as int)
                &&& j0 <= t.0 && t.0 < t.1 && t.1 < t.2 && t.2 < s@.len()
            },
            None => find_attr(s@, j0 as int) is None,
        },
{
    let n = s.len();
    let mut j = j0;
    while j < n
        invariant
            j0 <= j <= s@.len(),
            n == s@.len(),
            find_attr(s@, j0 as int) == find_attr(s@, j as int),
        decreases s@.len() - j,
    {
        let is_src = n - j >= 5 && s[j] == 's' && s[j + 1] == 'r' && s[j + 2] == 'c' && s[j + 3]
            == '=' && s[j + 4] == '"';
        let is_href = n - j >= 6 && s[j] == 'h' && s[j + 1] == 'r' && s[j + 2] == 'e' && s[j + 3]
            == 'f' && s[j + 4] == '=' && s[j + 5] == '"';
        proof {
            assert(is_src == src_at(s@, j as int));
            assert(is_href == href_at(s@, j as int));
        }
        if is_src || is_href {
            let q = if is_src {
                j + 5
            } else {
                j + 6
            };
            if q < n && s[q] != '"' {
                match find_quote_pos(s, q) {
                    Some(k) => {
                        proof {
                            assert(find_quote(s@, q as int) == find_quote(s@, q as int + 1));
                            lemma_find_quote(s@, q as int + 1);
                            assert(url_ok(s@, q as int));
                            assert(find_attr(s@, j as int) == Some(j as int));
                        }
                        return Some((j, q, k));
                    },
                    None => {},
                }
            }
            proof {
                assert(!url_ok(s@, q as int));
                assert(s@[j as int] != '>');
            }
        } else if s[j] == '>' {
            return None;
        }
        j = j + 1;
    }
    None
}

/// Rewrite the link attributes of a raw HTML fragment given as characters.
pub fn rewrite_html_chars(s: &Vec<char>, cur: Option<&Vec<char>>) -> (r: Vec<char>)
    ensures
        r@ == html_rewritten(s@, opt_chars_view(cur)),
{
    let ghost p = opt_chars_view(cur);
    let mut out: Vec<char> = Vec::new();
    let mut i: usize = 0;
    let n = s.len();
    while i < n
        invariant
            i <= n,
            n == s@.len(),
            html_rw_from(s@, p, 0) == out@ + html_rw_from(s@, p, i as int),
            p == opt_chars_view(cur),
        decreases n - i,
    {
        let a_tag = n - i >= 3 && s[i] == '<' && s[i + 1] == 'a' && s[i + 2] == ' ';
        let img_tag = n - i >= 5 && s[i] == '<' && s[i + 1] == 'i' && s[i + 2] == 'm' && s[i + 3]
            == 'g' && s[i + 4] == ' ';
        proof {
            assert(a_tag == a_tag_at(s@, i as int));
            assert(img_tag == img_tag_at(s@, i as int));
        }
        let mut matched = false;
        if a_tag || img_tag {
            let cs = if a_tag {
                i + 3
            } else {
                i + 5
            };
            proof {
                assert(cs as int == tag_content_start(s@, i as int));
            }
            match find_attr_pos(s, cs) {
                Some((j, q, k)) => {
                    proof {
                        assert(match_at(s@, i as int));
                    }
                    push_range(&mut out, s, i, q);
                    let mut url: Vec<char> = Vec::new();
                    push_range(&mut url, s, q, k);
                    let fixed = rewrite_relative_chars(&url, cur, true);
                    push_range(&mut out, &fixed, 0, fixed.len());
                    out.push('"');
                    proof {
                        assert(fixed@.subrange(0, fixed@.len() as int) =~= fixed@);
                        assert(html_rw_from(s@, p, i as int) =~= s@.subrange(i as int, q as int)
                            + rewrite_relative_spec(s@.subrange(q as int, k as int), p, true)
                            + seq!['"'] + html_rw_from(s@, p, k as int + 1));
                        assert(html_rw_from(s@, p, 0) == out@ + html_rw_from(
                            s@,
                            p,
                            k as int + 1,
                        ));
                    }
                    i = k + 1;
                    matched = true;
                },
                None => {
                    proof {
                        assert(!match_at(s@, i as int));
                    }
                },
            }
        }
        if !matched {
            proof {
                assert(!match_at(s@, i as int));
                assert(html_rw_from(s@, p, i as int) == seq![s@[i as int]] + html_rw_from(
                    s@,
                    p,
                    i as int + 1,
                ));
            }
            out.push(s[i]);
            proof {
                assert(html_rw_from(s@, p, 0) == out@ + html_rw_from(s@, p, i as int + 1));
            }
            i = i + 1;
        }
    }
    proof {
        assert(html_rw_from(s@, p, n as int) =~= Seq::<char>::empty());
        assert(out@ =~= out@ + html_rw_from(s@, p, n as int));
    }
    out
}

/// Rewrite the `href`/`src` values of `<a>`/`<img>` tags inside a raw HTML
/// fragment; everything else passes through unchanged.
pub fn rewrite_html(html: &str, current_path: Option<&str>) -> (r: String)
    ensures
        r@ == html_rewritten(html@, opt_str_view(current_path)),
{
    let h = str_chars(html);
    let out = match current_path {
        Some(p) => {
            let pc = str_chars(p);
            rewrite_html_chars(&h, Some(&pc))
        },
        None => rewrite_html_chars(&h, None),
    };
    chars_to_string(&out)
}

} // verus!
