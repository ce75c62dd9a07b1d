//! Classification of URL strings and the depth- and extension-correcting
//! rewrite of relative references.

use vstd::prelude::*;
use vstd::string::{StrSliceExecFns, StringExecFns};
use crate::strutil::{str_chars, chars_to_string, push_range};

verus! {

/// Characters allowed in a URL scheme after its first letter.
pub open spec fn is_scheme_char(c: char) -> bool {
    ('a' <= c && c <= 'z') || ('0' <= c && c <= '9') || c == '+' || c == '.' || c == '-'
}

/// Whether the string begins with a URL scheme: a lowercase letter,
/// then any run of scheme characters, then a colon.
pub open spec fn scheme_qualified(s: Seq<char>) -> bool {
    &&& s.len() >= 2
    &&& 'a' <= s[0] && s[0] <= 'z'
    &&& exists|i: int|
        1 <= i < s.len() && #[trigger] s[i] == ':' && (forall|j: int|
            1 <= j < i ==> is_scheme_char(#[trigger] s[j]))
}

/// Whether the string is a fragment reference (`#...`).
pub open spec fn fragment_only(s: Seq<char>) -> bool {
    s.len() > 0 && s[0] == '#'
}

/// Decide whether a character vector begins with a URL scheme.
pub fn is_scheme_qualified_chars(v: &Vec<char>) -> (b: bool)
    ensures
        b == scheme_qualified(v@),
{
    if v.len() < 2 {
        return false;
    }
    let c0 = v[0];
    if !('a' <= c0 && c0 <= 'z') {
        return false;
    }
    let mut i: usize = 1;
    while i < v.len()
        invariant
            1 <= i <= v@.len(),
            v@.len() >= 2,
            'a' <= v@[0] && v@[0] <= 'z',
            forall|j: int| 1 <= j < i ==> is_scheme_char(#[trigger] v@[j]) && v@[j] != ':',
        decreases v@.len() - i,
    {
        let c = v[i];
        if c == ':' {
            proof {
                assert(scheme_qualified(v@));
            }
            return true;
        }
        if !(('a' <= c && c <= 'z') || ('0' <= c && c <= '9') || c == '+' || c == '.' || c
            == '-') {
            proof {
                assert forall|k: int|
                    1 <= k < v@.len() && #[trigger] v@[k] == ':' implies !(forall|j: int|
                    1 <= j < k ==> is_scheme_char(#[trigger] v@[j])) by {
                    if k <= i {
                        assert(v@[k] != ':');
                    } else {
                        assert(1 <= i < k && !is_scheme_char(v@[i as int]));
                    }
                }
            }
            return false;
        }
        i = i + 1;
    }
    proof {
        assert forall|k: int| 1 <= k < v@.len() implies #[trigger] v@[k] != ':' by {}
    }
    false
}

/// Decide whether a URL string begins with a scheme (`https:`, `mailto:`, ...).
pub fn is_scheme_qualified(url: &str) -> (b: bool)
    ensures
        b == scheme_qualified(url@),
{
    let v = str_chars(url);
    is_scheme_qualified_chars(&v)
}

/// Decide whether a URL string is a fragment reference (`#...`).
pub fn is_fragment_only(url: &str) -> (b: bool)
    ensures
        b == fragment_only(url@),
{
    if url.unicode_len() == 0 {
        return false;
    }
    url.get_char(0) == '#'
}

/// The index of the first `#` in `s`, or `s.len()` if there is none:
/// the split point between a reference's path part and its fragment.
pub open spec fn first_hash(s: Seq<char>) -> int
    decreases s.len(),
{
    if s.len() == 0 {
        0
    } else if s[0] == '#' {
        0
    } else {
        1 + first_hash(s.drop_first())
    }
}

pub proof fn lemma_first_hash(s: Seq<char>)
    ensures
        0 <= first_hash(s) <= s.len(),
        first_hash(s) < s.len() ==> s[first_hash(s)] == '#',
        forall|j: int| 0 <= j < first_hash(s) ==> s[j] != '#',
    decreases s.len(),
{
    if s.len() == 0 {
    } else if s[0] == '#' {
    } else {
        lemma_first_hash(s.drop_first());
        assert forall|j: int| 0 <= j < first_hash(s) implies #[trigger] s[j] != '#' by {
            if j > 0 {
                assert(s.drop_first()[j - 1] == s[j]);
            }
        }
    }
}

/// A position `h` where no earlier character is `#` and either the string
/// ends or a `#` stands is the first hash position.
pub proof fn lemma_first_hash_at(s: Seq<char>, h: int)
    requires
        0 <= h <= s.len(),
        forall|j: int| 0 <= j < h ==> s[j] != '#',
        h < s.len() ==> s[h] == '#',
    ensures
        first_hash(s) == h,
    decreases s.len(),
{
    if s.len() == 0 {
    } else if h == 0 {
    } else {
        assert(s[0] != '#');
        let t = s.drop_first();
        assert(forall|j: int| 0 <= j < h - 1 ==> #[trigger] t[j] == s[j + 1]);
        assert(h - 1 < t.len() ==> t[h - 1] == s[h]);
        lemma_first_hash_at(t, h - 1);
    }
}

/// Whether the string ends in the source extension `.md`.
pub open spec fn ends_with_md(s: Seq<char>) -> bool {
    s.len() >= 3 && s[s.len() - 3] == '.' && s[s.len() - 2] == 'm' && s[s.len() - 1] == 'd'
}

/// The characters of `".html"`.
pub open spec fn html_ext() -> Seq<char> {
    seq!['.', 'h', 't', 'm', 'l']
}

/// `p` with a trailing `.md` replaced by `.html`; unchanged otherwise.
pub open spec fn swap_md_html(p: Seq<char>) -> Seq<char> {
    if ends_with_md(p) {
        p.subrange(0, p.len() - 3) + html_ext()
    } else {
        p
    }
}

/// The reference with the `.md` extension of its path part (the part before
/// the first `#`) replaced by `.html`; unchanged if the path part has no
/// such extension. The fragment is preserved.
pub open spec fn md_rewritten(s: Seq<char>) -> Seq<char> {
    let h = first_hash(s);
    swap_md_html(s.subrange(0, h)) + s.subrange(h, s.len() as int)
}

/// The directory prefix of a path: everything up to and including the last
/// `/`, or empty if the path has no `/`.
pub open spec fn dir_prefix(s: Seq<char>) -> Seq<char>
    decreases s.len(),
{
    if s.len() == 0 {
        s
    } else if s[s.len() - 1] == '/' {
        s
    } else {
        dir_prefix(s.drop_last())
    }
}

pub proof fn lemma_dir_prefix_at(s: Seq<char>, j: int)
    requires
        0 <= j <= s.len(),
        forall|m: int| j <= m < s.len() ==> s[m] != '/',
        j > 0 ==> s[j - 1] == '/',
    ensures
        dir_prefix(s) == s.subrange(0, j),
    decreases s.len(),
{
    if s.len() == 0 {
        assert(dir_prefix(s) =~= s.subrange(0, 0));
    } else if s[s.len() - 1] == '/' {
        assert(j == s.len());
        assert(dir_prefix(s) =~= s.subrange(0, j));
    } else {
        let t = s.drop_last();
        assert(j < s.len());
        assert(j <= t.len());
        lemma_dir_prefix_at(t, j);
        assert(t.subrange(0, j) =~= s.subrange(0, j));
    }
}

/// How `rewriteRelative` treats a reference: a fragment-only reference is
/// prefixed with the current document's output page when one is known; a
/// scheme-qualified URL passes through; any other reference is prefixed
/// with the current document's directory and, on request, has its `.md`
/// extension swapped for `.html`.
pub open spec fn rewrite_relative_spec(
    url: Seq<char>,
    cur: Option<Seq<char>>,
    rewrite_ext: bool,
) -> Seq<char> {
    if fragment_only(url) {
        match cur {
            Some(p) => swap_md_html(p) + url,
            None => url,
        }
    } else if scheme_qualified(url) {
        url
    } else {
        let base = match cur {
            Some(p) => dir_prefix(p),
            None => Seq::<char>::empty(),
        };
        base + (if rewrite_ext {
            md_rewritten(url)
        } else {
            url
        })
    }
}

/// Append `swap_md_html(p@)` onto `out`.
pub(crate) fn push_swapped(out: &mut Vec<char>, p: &Vec<char>)
    ensures
        final(out)@ == old(out)@ + swap_md_html(p@),
{
    let n = p.len();
    if n >= 3 && p[n - 3] == '.' && p[n - 2] == 'm' && p[n - 1] == 'd' {
        push_range(out, p, 0, n - 3);
        out.push('.');
        out.push('h');
        out.push('t');
        out.push('m');
        out.push('l');
        proof {
            assert(out@ =~= old(out)@ + swap_md_html(p@));
        }
    } else {
        push_range(out, p, 0, n);
        proof {
            assert(p@.subrange(0, n as int) =~= p@);
        }
    }
}

/// The index just after the last `/` of `p`, or `0` if `p` has none.
fn last_slash_end(p: &Vec<char>) -> (j: usize)
    ensures
        j <= p@.len(),
        forall|m: int| j <= m < p@.len() ==> p@[m] != '/',
        j > 0 ==> p@[j - 1] == '/',
{
    let mut j = p.len();
    while j > 0
        invariant
            j <= p@.len(),
            forall|m: int| j <= m < p@.len() ==> p@[m] != '/',
        decreases j,
    {
        if p[j - 1] == '/' {
            return j;
        }
        j = j - 1;
    }
    0
}

/// Append `dir_prefix(p@)` onto `out`.
fn push_dir_prefix(out: &mut Vec<char>, p: &Vec<char>)
    ensures
        final(out)@ == old(out)@ + dir_prefix(p@),
{
    let j = last_slash_end(p);
    proof {
        lemma_dir_prefix_at(p@, j as int);
    }
    push_range(out, p, 0, j);
}

/// The index of the first `#` of `v`, or its length if there is none.
fn first_hash_pos(v: &Vec<char>) -> (h: usize)
    ensures
        h as int == first_hash(v@),
        h <= v@.len(),
{
    let mut i: usize = 0;
    while i < v.len()
        invariant
            i <= v@.len(),
            forall|j: int| 0 <= j < i ==> v@[j] != '#',
        decreases v@.len() - i,
    {
        if v[i] == '#' {
            proof {
                lemma_first_hash_at(v@, i as int);
            }
            return i;
        }
        i = i + 1;
    }
    proof {
        lemma_first_hash_at(v@, v@.len() as int);
    }
    v.len()
}

/// Append `md_rewritten(url@)` onto `out`.
fn push_md_rewritten(out: &mut Vec<char>, url: &Vec<char>)
    ensures
        final(out)@ == old(out)@ + md_rewritten(url@),
{
    let h = first_hash_pos(url);
    let ghost path = url@.subrange(0, h as int);
    if h >= 3 && url[h - 3] == '.' && url[h - 2] == 'm' && url[h - 1] == 'd' {
        proof {
            assert(ends_with_md(path));
        }
        push_range(out, url, 0, h - 3);
        out.push('.');
        out.push('h');
        out.push('t');
        out.push('m');
        out.push('l');
        push_range(out, url, h, url.len());
        proof {
            assert(url@.subrange(0, h - 3 as int) =~= path.subrange(0, path.len() - 3));
            assert(out@ =~= old(out)@ + md_rewritten(url@));
        }
    } else {
        proof {
            assert(!ends_with_md(path));
        }
        push_range(out, url, 0, url.len());
        proof {
            assert(path + url@.subrange(h as int, url@.len() as int) =~= url@.subrange(
                0,
                url@.len() as int,
            ));
            assert(out@ =~= old(out)@ + md_rewritten(url@));
        }
    }
}

/// The view of an optional current-path argument.
pub open spec fn opt_chars_view(cur: Option<&Vec<char>>) -> Option<Seq<char>> {
    match cur {
        Some(p) => Some(p@),
        None => None,
    }
}

/// Rewrite one relative reference, given as a character vector.
pub fn rewrite_relative_chars(
    url: &Vec<char>,
    cur: Option<&Vec<char>>,
    rewrite_extension: bool,
) -> (r: Vec<char>)
    ensures
        r@ == rewrite_relative_spec(url@, opt_chars_view(cur), rewrite_extension),
{
    let mut out: Vec<char> = Vec::new();
    if url.len() > 0 && url[0] == '#' {
        match cur {
            Some(p) => {
                push_swapped(&mut out, p);
                push_range(&mut out, url, 0, url.len());
            },
            None => {
                push_range(&mut out, url, 0, url.len());
            },
        }
        proof {
            assert(url@.subrange(0, url@.len() as int) =~= url@);
            assert(out@ =~= rewrite_relative_spec(url@, opt_chars_view(cur), rewrite_extension));
        }
        return out;
    }
    if is_scheme_qualified_chars(url) {
        push_range(&mut out, url, 0, url.len());
        proof {
            assert(url@.subrange(0, url@.len() as int) =~= url@);
        }
        return out;
    }
    match cur {
        Some(p) => push_dir_prefix(&mut out, p),
        None => {},
    }
    if rewrite_extension {
        push_md_rewritten(&mut out, url);
    } else {
        push_range(&mut out, url, 0, url.len());
        proof {
            assert(url@.subrange(0, url@.len() as int) =~= url@);
        }
    }
    proof {
        assert(out@ =~= rewrite_relative_spec(url@, opt_chars_view(cur), rewrite_extension));
    }
    out
}

/// The view of an optional current-path string argument.
pub open spec fn opt_str_view(cur: Option<&str>) -> Option<Seq<char>> {
    match cur {
        Some(p) => Some(p@),
        None => None,
    }
}

/// Rewrite one relative reference. `current_path` is the source path of the
/// document the reference stands in, when the reference must be resolved
/// against it; `rewrite_extension` asks for the `.md` to `.html` swap.
pub fn rewrite_relative(url: &str, current_path: Option<&str>, rewrite_extension: bool) -> (r:
    String)
    ensures
        r@ == rewrite_relative_spec(url@, opt_str_view(current_path), rewrite_extension),
{
    let u = str_chars(url);
    let out = match current_path {
        Some(p) => {
            let pc = str_chars(p);
            rewrite_relative_chars(&u, Some(&pc), rewrite_extension)
        },
        None => rewrite_relative_chars(&u, None, rewrite_extension),
    };
    chars_to_string(&out)
}

/// The characters of `"../"` repeated `d` times: the prefix that makes a
/// root-relative path resolve correctly from a page `d` directories deep.
pub open spec fn dots(d: nat) -> Seq<char>
    decreases d,
{
    if d == 0 {
        Seq::empty()
    } else {
        seq!['.', '.', '/'] + dots((d - 1) as nat)
    }
}

proof fn lemma_dots_snoc(d: nat)
    ensures
        dots(d) + seq!['.', '.', '/'] =~= dots(d + 1),
    decreases d,
{
    if d == 0 {
        assert(dots(0) + seq!['.', '.', '/'] =~= dots(1));
    } else {
        lemma_dots_snoc((d - 1) as nat);
        assert(dots(d) + seq!['.', '.', '/'] =~= seq!['.', '.', '/'] + (dots((d - 1) as nat)
            + seq!['.', '.', '/']));
    }
}

/// The characters of `depth` occurrences of `../`.
pub fn depth_prefix_chars(depth: u8) -> (r: Vec<char>)
    ensures
        r@ == dots(depth as nat),
{
    let mut out: Vec<char> = Vec::new();
    let mut i: u8 = 0;
    while i < depth
        invariant
            i <= depth,
            out@ =~= dots(i as nat),
        decreases depth - i,
    {
        out.push('.');
        out.push('.');
        out.push('/');
        proof {
            lemma_dots_snoc(i as nat);
        }
        i = i + 1;
    }
    out
}

/// Prefix `path` with `depth` occurrences of `../`.
pub fn apply_depth(path: String, depth: u8) -> (r: String)
    ensures
        r@ == dots(depth as nat) + path@,
{
    let mut s = String::new();
    let mut i: u8 = 0;
    proof {
        reveal_strlit("../");
    }
    while i < depth
        invariant
            i <= depth,
            s@ =~= dots(i as nat),
        decreases depth - i,
    {
        s.append("../");
        proof {
            reveal_strlit("../");
            lemma_dots_snoc(i as nat);
        }
        i = i + 1;
    }
    s.append(path.as_str());
    proof {
        assert(s@ =~= dots(depth as nat) + path@);
    }
    s
}

/// How many `/` characters `s` holds.
pub open spec fn slash_count(s: Seq<char>) -> nat
    decreases s.len(),
{
    if s.len() == 0 {
        0
    } else {
        (if s[0] == '/' {
            1nat
        } else {
            0nat
        }) + slash_count(s.drop_first())
    }
}

proof fn lemma_slash_count_le(s: Seq<char>)
    ensures
        slash_count(s) <= s.len(),
    decreases s.len(),
{
    if s.len() > 0 {
        lemma_slash_count_le(s.drop_first());
    }
}

/// The number of path segments of a source path: zero for the empty path,
/// otherwise one more than its number of `/` separators. This is the depth
/// at which the page emitted for that path stands, and the caller may
/// override it where its layout differs.
pub open spec fn depth_of_spec(s: Seq<char>) -> nat {
    if s.len() == 0 {
        0
    } else {
        1 + slash_count(s)
    }
}

/// Count the path segments of a source path.
pub fn depth_of(path: &str) -> (d: usize)
    requires
        path@.len() < usize::MAX,
    ensures
        d as nat == depth_of_spec(path@),
{
    let v = str_chars(path);
    let n = v.len();
    let mut cnt: usize = 0;
    let mut i: usize = 0;
    proof {
        assert(v@.skip(0) =~= v@);
    }
    while i < n
        invariant
            i <= n,
            n == v@.len(),
            cnt <= i,
            slash_count(v@) == cnt + slash_count(v@.skip(i as int)),
        decreases n - i,
    {
        proof {
            assert(v@.skip(i as int).drop_first() =~= v@.skip(i as int + 1));
            assert(v@.skip(i as int)[0] == v@[i as int]);
        }
        if v[i] == '/' {
            cnt = cnt + 1;
        }
        i = i + 1;
    }
    proof {
        assert(v@.skip(n as int) =~= Seq::<char>::empty());
        lemma_slash_count_le(v@);
    }
    if n == 0 {
        0
    } else {
        1 + cnt
    }
}

/// How many times the prefix `../` stands at the front of `s`.
pub open spec fn updir_count(s: Seq<char>) -> nat
    decreases s.len(),
{
    if s.len() >= 3 && s[0] == '.' && s[1] == '.' && s[2] == '/' {
        1 + updir_count(s.subrange(3, s.len() as int))
    } else {
        0
    }
}

/// Depth-prefixing a path puts exactly `d` more `../` steps in front of it,
/// and dropping those `3 * d` characters gives the path back unchanged.
pub proof fn lemma_apply_depth_exact(p: Seq<char>, d: nat)
    ensures
        dots(d).len() == 3 * d,
        (dots(d) + p).subrange(3 * d as int, 3 * d + p.len() as int) == p,
        updir_count(dots(d) + p) == d + updir_count(p),
    decreases d,
{
    if d == 0 {
        assert(dots(0) + p =~= p);
        assert((dots(0) + p).subrange(0, p.len() as int) =~= p);
    } else {
        lemma_apply_depth_exact(p, (d - 1) as nat);
        let q = dots((d - 1) as nat) + p;
        let r = dots(d) + p;
        assert(r =~= seq!['.', '.', '/'] + q);
        assert(r.subrange(3, r.len() as int) =~= q);
        assert(r.subrange(3 * d as int, 3 * d + p.len() as int) =~= q.subrange(
            3 * (d - 1) as int,
            3 * (d - 1) + p.len() as int,
        ));
        assert(updir_count(r) == 1 + updir_count(q));
    }
}

/// A reference with no fragment and no `.md` extension is only ever
/// prefixed with the current document's directory: its own characters come
/// through unchanged.
pub proof fn lemma_rewrite_keeps_plain_link(url: Seq<char>, cur: Option<Seq<char>>)
    requires
        !fragment_only(url),
        !scheme_qualified(url),
        first_hash(url) == url.len(),
        !ends_with_md(url),
    ensures
        rewrite_relative_spec(url, cur, true) == (match cur {
            Some(p) => dir_prefix(p),
            None => Seq::<char>::empty(),
        }) + url,
{
    assert(url.subrange(0, url.len() as int) =~= url);
    assert(url.subrange(url.len() as int, url.len() as int) =~= Seq::<char>::empty());
    assert(md_rewritten(url) =~= url);
}

/// Swapping the path part's `.md` extension for `.html` is idempotent: a
/// reference that already carries `.html` offers no `.md` to match, so a
/// second pass leaves it unchanged.
pub proof fn lemma_md_rewritten_idempotent(url: Seq<char>)
    ensures
        md_rewritten(md_rewritten(url)) == md_rewritten(url),
{
    lemma_first_hash(url);
    let h = first_hash(url);
    let path = url.subrange(0, h);
    let frag = url.subrange(h, url.len() as int);
    if !ends_with_md(path) {
        assert(md_rewritten(url) =~= url);
    } else {
        let r = md_rewritten(url);
        let path2 = path.subrange(0, path.len() - 3) + html_ext();
        assert(r =~= path2 + frag);
        assert(path2.len() == h + 2);
        assert forall|j: int| 0 <= j < h + 2 implies #[trigger] r[j] != '#' by {
            if j < h - 3 {
                assert(r[j] == url[j]);
            } else {
                assert(r[j] == html_ext()[j - (h - 3)]);
            }
        }
        if h < url.len() {
            assert(r[h + 2] == frag[0] == url[h]);
            assert(r[h + 2] == '#');
        } else {
            assert(frag =~= Seq::<char>::empty());
            assert(r.len() == h + 2);
        }
        lemma_first_hash_at(r, h + 2);
        let rpath = r.subrange(0, h + 2);
        assert(rpath =~= path2);
        assert(rpath[rpath.len() - 3] == html_ext()[2]);
        assert(!ends_with_md(rpath));
        assert(r.subrange(h + 2, r.len() as int) =~= frag);
        assert(md_rewritten(r) =~= rpath + frag);
        assert(md_rewritten(r) =~= r);
    }
}

/// `md_rewritten` keeps a reference fragment-free in front: its first
/// character can only change from `.` to `.`.
proof fn lemma_md_rewritten_not_fragment(url: Seq<char>)
    requires
        !fragment_only(url),
    ensures
        !fragment_only(md_rewritten(url)),
{
    lemma_first_hash(url);
    let h = first_hash(url);
    let path = url.subrange(0, h);
    if ends_with_md(path) {
        let r = md_rewritten(url);
        if h - 3 > 0 {
            assert(r[0] == url[0]);
        } else {
            assert(r[0] == html_ext()[0]);
        }
    } else {
        assert(md_rewritten(url) =~= url);
    }
}

/// `md_rewritten` cannot make a reference scheme-qualified: the characters
/// it inserts hold no colon, and every witness against the input stays one
/// against the result.
proof fn lemma_md_rewritten_not_scheme(url: Seq<char>)
    requires
        !scheme_qualified(url),
    ensures
        !scheme_qualified(md_rewritten(url)),
{
    lemma_first_hash(url);
    let h = first_hash(url);
    let path = url.subrange(0, h);
    let frag = url.subrange(h, url.len() as int);
    if !ends_with_md(path) {
        assert(md_rewritten(url) =~= url);
    } else {
        let r = md_rewritten(url);
        let path2 = path.subrange(0, path.len() - 3) + html_ext();
        assert(r =~= path2 + frag);
        if scheme_qualified(r) {
            let i = choose|i: int|
                1 <= i < r.len() && #[trigger] r[i] == ':' && (forall|j: int|
                    1 <= j < i ==> is_scheme_char(#[trigger] r[j]));
            if i < h - 3 {
                assert(r[0] == url[0]);
                assert(forall|j: int| 1 <= j < i ==> #[trigger] url[j] == r[j]);
                assert(url[i] == ':');
                assert(scheme_qualified(url));
            } else if i < h + 2 {
                assert(r[i] == html_ext()[i - (h - 3)]);
                assert(r[i] != ':');
            } else {
                assert(h < url.len());
                assert(r[h + 2] == frag[0] == url[h]);
                assert(r[h + 2] == '#');
                assert(i != h + 2);
                assert(1 <= h + 2 < i);
                assert(is_scheme_char(r[h + 2]));
            }
        }
    }
}

/// Re-applying the whole relative rewrite (with no current path) to an
/// already-rewritten reference finds nothing more to do.
pub proof fn lemma_rewrite_relative_idempotent(url: Seq<char>)
    ensures
        rewrite_relative_spec(rewrite_relative_spec(url, None, true), None, true)
            == rewrite_relative_spec(url, None, true),
{
    if fragment_only(url) {
    } else if scheme_qualified(url) {
    } else {
        let r = md_rewritten(url);
        assert(rewrite_relative_spec(url, None, true) =~= r);
        lemma_md_rewritten_not_fragment(url);
        lemma_md_rewritten_not_scheme(url);
        lemma_md_rewritten_idempotent(url);
        assert(rewrite_relative_spec(r, None, true) =~= md_rewritten(r));
    }
}

} // verus!
