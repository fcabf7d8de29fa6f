//! URL checks: what may be opened in a browser, and which hosts receive the
//! Slack session's credentials.

use vstd::prelude::*;

use crate::files::last_index_of;
use crate::text;

verus! {

broadcast use vstd::string::group_string_axioms;

pub open spec fn is_browser_url_spec(u: Seq<char>) -> bool {
    text::starts_with(u, "http://"@) || text::starts_with(u, "https://"@)
}

/// Only `http://` and `https://` links are handed to the browser.
pub fn is_browser_url(url: &str) -> (r: bool)
    ensures
        r == is_browser_url_spec(url@),
{
    text::str_starts_with(url, "http://") || text::str_starts_with(url, "https://")
}

pub open spec fn path_end() -> spec_fn(char) -> bool {
    |c: char| c == '/' || c == '?' || c == '#'
}

pub open spec fn query_end() -> spec_fn(char) -> bool {
    |c: char| c == '?' || c == '#'
}

pub open spec fn port_start() -> spec_fn(char) -> bool {
    |c: char| c == ':'
}

/// The part of `s` before the first character satisfying `p`.
pub open spec fn before_first(s: Seq<char>, p: spec_fn(char) -> bool) -> Seq<char> {
    s.take(text::first_where(s, p) as int)
}

/// The part of `s` after its last `c` (all of `s` when there is none).
pub open spec fn after_last_or_all(s: Seq<char>, c: char) -> Seq<char> {
    let i = last_index_of(s, c);
    if i < 0 {
        s
    } else {
        s.skip(i + 1)
    }
}

/// The lower-cased host of a URL's authority, without user info and port.
pub open spec fn host_of(rest: Seq<char>) -> Seq<char> {
    let authority = before_first(rest, path_end());
    let no_user = after_last_or_all(authority, '@');
    text::lower_spec(before_first(no_user, port_start()))
}

/// An http(s) URL whose host is `slack.com` or one of its subdomains.
pub open spec fn is_slack_authenticated_url_spec(u: Seq<char>) -> bool {
    let rest = if text::starts_with(u, "https://"@) {
        Some(u.skip(8))
    } else if text::starts_with(u, "http://"@) {
        Some(u.skip(7))
    } else {
        None
    };
    match rest {
        Some(r) => host_of(r) == "slack.com"@ || text::ends_with(host_of(r), ".slack.com"@),
        None => false,
    }
}

/// The first index of `v` (from `from`) satisfying `p`, or `v.len()`.
fn position_where(v: &[char], stop: char, stop2: char, stop3: char) -> (r: usize)
    ensures
        r == text::first_where(v@, |c: char| c == stop || c == stop2 || c == stop3),
        r <= v@.len(),
{
    let ghost p = |c: char| c == stop || c == stop2 || c == stop3;
    let mut i: usize = 0;
    while i < v.len() && !(v[i] == stop || v[i] == stop2 || v[i] == stop3)
        invariant
            i <= v@.len(),
            p == (|c: char| c == stop || c == stop2 || c == stop3),
            forall|k: int| 0 <= k < i ==> !p(#[trigger] v@[k]),
        decreases v.len() - i,
    {
        i = i + 1;
    }
    proof {
        text::lemma_first_where(v@, p, i as int);
    }
    i
}

/// The index just after the last `c` in `v`, or 0.
fn after_last_index(v: &[char], c: char) -> (r: usize)
    ensures
        r <= v@.len(),
        v@.subrange(r as int, v@.len() as int) == after_last_or_all(v@, c),
{
    let mut i: usize = v.len();
    while i > 0 && v[i - 1] != c
        invariant
            i <= v@.len(),
            forall|k: int| i <= k < v@.len() ==> #[trigger] v@[k] != c,
        decreases i,
    {
        i = i - 1;
    }
    proof {
        crate::files::lemma_last_index_of_pub(v@, c, i - 1);
    }
    if i == 0 {
        assert(v@.subrange(0, v@.len() as int) =~= v@);
    } else {
        assert(v@.subrange(i as int, v@.len() as int) =~= v@.skip(i as int));
    }
    i
}

pub fn is_slack_authenticated_url(url: &str) -> (r: bool)
    ensures
        r == is_slack_authenticated_url_spec(url@),
{
    let v = text::to_chars(url);
    proof {
        reveal_strlit("https://");
        reveal_strlit("http://");
    }
    let start: usize = if text::str_starts_with(url, "https://") {
        8
    } else if text::str_starts_with(url, "http://") {
        7
    } else {
        return false;
    };
    let rest = &v.as_slice()[start..v.len()];
    assert(rest@ =~= url@.skip(start as int));
    let a = position_where(rest, '/', '?', '#');
    assert((|c: char| c == '/' || c == '?' || c == '#') =~= path_end());
    let authority = &rest[0..a];
    assert(authority@ =~= before_first(rest@, path_end()));
    let u = after_last_index(authority, '@');
    let no_user = &authority[u..authority.len()];
    let p = position_where(no_user, ':', ':', ':');
    assert((|c: char| c == ':' || c == ':' || c == ':') =~= port_start());
    let host_chars = &no_user[0..p];
    assert(host_chars@ =~= before_first(no_user@, port_start()));
    let host = text::lower_chars(host_chars);
    assert(host@ == host_of(rest@));
    let slack = text::to_chars("slack.com");
    let suffix = text::to_chars(".slack.com");
    text::chars_eq(host.as_slice(), slack.as_slice()) || text::chars_end_with(host.as_slice(), suffix.as_slice())
}

pub open spec fn is_gif_url_spec(u: Seq<char>) -> bool {
    text::ends_with(text::lower_spec(before_first(u, query_end())), ".gif"@)
}

/// Does the URL's path (before any query or fragment) end in `.gif`?
pub fn is_gif_url(url: &str) -> (r: bool)
    ensures
        r == is_gif_url_spec(url@),
{
    let v = text::to_chars(url);
    let q = position_where(v.as_slice(), '?', '#', '#');
    assert((|c: char| c == '?' || c == '#' || c == '#') =~= query_end());
    let path = &v.as_slice()[0..q];
    assert(path@ =~= before_first(v@, query_end()));
    let lower = text::lower_chars(path);
    let gif = text::to_chars(".gif");
    text::chars_end_with(lower.as_slice(), gif.as_slice())
}

/// Index of the first `?` or `#`, or the length.
pub fn first_query_mark(v: &[char]) -> (r: usize)
    ensures
        r <= v@.len(),
        v@.take(r as int) == before_first(v@, query_end()),
{
    let q = position_where(v, '?', '#', '#');
    assert((|c: char| c == '?' || c == '#' || c == '#') =~= query_end());
    q
}

/// Index just after the last `/`, or 0.
pub fn after_last_slash(v: &[char]) -> (r: usize)
    ensures
        r <= v@.len(),
        v@.subrange(r as int, v@.len() as int) == after_last_or_all(v@, '/'),
{
    after_last_index(v, '/')
}

} // verus!
