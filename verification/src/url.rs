//! Joining a segment path found in a playlist with the playlist's base URL.
use vstd::prelude::*;
use crate::text::{
    append_chars, chars_of, chars_range, ends_with, find, find_chars, has_prefix, has_suffix,
    occurs_at, find_from, starts_with, string_of,
};

verus! {

/// `http://`
pub open spec fn http_prefix() -> Seq<char> {
    seq!['h', 't', 't', 'p', ':', '/', '/']
}

/// `https://`
pub open spec fn https_prefix() -> Seq<char> {
    seq!['h', 't', 't', 'p', 's', ':', '/', '/']
}

/// `://`, which ends the scheme of a URL.
pub open spec fn scheme_separator() -> Seq<char> {
    seq![':', '/', '/']
}

/// `/`
pub open spec fn slash() -> Seq<char> {
    seq!['/']
}

/// The URL names its scheme as `http` or `https`.
pub open spec fn is_absolute(url: Seq<char>) -> bool {
    starts_with(url, http_prefix()) || starts_with(url, https_prefix())
}

/// The piece of `s` before the first occurrence of `p`, or all of `s`.
pub open spec fn before_first(s: Seq<char>, p: Seq<char>) -> Seq<char> {
    match find(s, p) {
        Some(i) => s.take(i),
        None => s,
    }
}

/// The full URL of a segment path `ts` found in a playlist whose base URL is `base`:
/// - a path that starts with `http://` or `https://` is already full;
/// - a path that starts with `/` goes after the scheme and host of `base`, where the scheme
///   is what precedes the first `://` and the host is what follows it up to the next `://`
///   and then up to the next `/`; where `base` holds no `://`, the path goes after `base`;
/// - any other path goes after `base`, with a `/` between them unless `base` ends with one.
pub open spec fn full_url(base: Seq<char>, ts: Seq<char>) -> Seq<char> {
    if is_absolute(ts) {
        ts
    } else if starts_with(ts, slash()) {
        match find(base, scheme_separator()) {
            Some(i) => {
                let host = before_first(before_first(base.skip(i + 3), scheme_separator()), slash());
                base.take(i) + scheme_separator() + host + ts
            },
            None => base + ts,
        }
    } else if ends_with(base, slash()) {
        base + ts
    } else {
        base + slash() + ts
    }
}

fn before_first_chars(s: &[char], p: &[char]) -> (r: Vec<char>)
    ensures
        r@ == before_first(s@, p@),
{
    match find_chars(s, p, 0) {
        Some(i) => {
            proof {
                lemma_find_from_in_bounds(s@, p@, 0);
            }
            chars_range(s, 0, i)
        },
        None => {
            assert(s@.subrange(0, s@.len() as int) =~= s@);
            chars_range(s, 0, s.len())
        },
    }
}

/// Where `find_from` finds something, it lies within `s`.
pub proof fn lemma_find_from_in_bounds(s: Seq<char>, p: Seq<char>, k: int)
    ensures
        find_from(s, p, k) matches Some(i) ==> k <= i && occurs_at(s, p, i),
    decreases s.len() + 1 - k,
{
    if k < 0 || k + p.len() > s.len() {
    } else if occurs_at(s, p, k) {
    } else {
        lemma_find_from_in_bounds(s, p, k + 1);
    }
}

/// The full URL of segment path `ts_url` in a playlist whose base URL is `base`.
pub fn join_url(base: &str, ts_url: &str) -> (r: String)
    ensures
        r@ == full_url(base@, ts_url@),
{
    let b = chars_of(base);
    let t = chars_of(ts_url);
    let http = vec!['h', 't', 't', 'p', ':', '/', '/'];
    let https = vec!['h', 't', 't', 'p', 's', ':', '/', '/'];
    let sep = vec![':', '/', '/'];
    let sl = vec!['/'];
    assert(http@ =~= http_prefix());
    assert(https@ =~= https_prefix());
    assert(sep@ =~= scheme_separator());
    assert(sl@ =~= slash());
    if has_prefix(&t, &http) || has_prefix(&t, &https) {
        string_of(&t)
    } else if has_prefix(&t, &sl) {
        match find_chars(&b, &sep, 0) {
            Some(i) => {
                proof {
                    lemma_find_from_in_bounds(b@, sep@, 0);
                    assert(occurs_at(b@, sep@, i as int));
                    assert(sep@.len() == 3);
                    assert(i + 3 <= b.len());
                }
                let rest = chars_range(&b, i + 3, b.len());
                assert(rest@ =~= b@.skip(i + 3));
                let seg = before_first_chars(&rest, &sep);
                let host = before_first_chars(&seg, &sl);
                let mut out = string_of(&chars_range(&b, 0, i));
                assert(b@.subrange(0, i as int) =~= b@.take(i as int));
                append_chars(&mut out, &sep);
                append_chars(&mut out, &host);
                append_chars(&mut out, &t);
                out
            },
            None => {
                let mut out = string_of(&b);
                append_chars(&mut out, &t);
                out
            },
        }
    } else if has_suffix(&b, &sl) {
        let mut out = string_of(&b);
        append_chars(&mut out, &t);
        out
    } else {
        let mut out = string_of(&b);
        append_chars(&mut out, &sl);
        append_chars(&mut out, &t);
        out
    }
}


proof fn lemma_concat_ends_with(a: Seq<char>, t: Seq<char>)
    ensures
        ends_with(a + t, t),
{
    assert((a + t).skip((a + t).len() - t.len()) =~= t);
}

proof fn lemma_concat_starts_with(p: Seq<char>, a: Seq<char>, t: Seq<char>)
    requires
        starts_with(a, p),
    ensures
        starts_with(a + t, p),
{
    assert((a + t).take(p.len() as int) =~= a.take(p.len() as int));
}

/// The full URL of a segment always ends with the segment path as the playlist gave it.
pub proof fn lemma_full_url_ends_with_path(base: Seq<char>, ts: Seq<char>)
    ensures
        ends_with(full_url(base, ts), ts),
{
    if is_absolute(ts) {
        lemma_concat_ends_with(Seq::empty(), ts);
        assert(Seq::<char>::empty() + ts =~= ts);
    } else if starts_with(ts, slash()) {
        match find(base, scheme_separator()) {
            Some(i) => {
                let host = before_first(before_first(base.skip(i + 3), scheme_separator()), slash());
                lemma_concat_ends_with(base.take(i) + scheme_separator() + host, ts);
            },
            None => lemma_concat_ends_with(base, ts),
        }
    } else if ends_with(base, slash()) {
        lemma_concat_ends_with(base, ts);
    } else {
        lemma_concat_ends_with(base + slash(), ts);
    }
}

/// A segment path that already starts with `http://` or `https://` is its own full URL.
pub proof fn lemma_absolute_path_unchanged(base: Seq<char>, ts: Seq<char>)
    requires
        is_absolute(ts),
    ensures
        full_url(base, ts) == ts,
{
}

proof fn lemma_find_scheme_of_absolute(base: Seq<char>)
    requires
        is_absolute(base),
    ensures
        find(base, scheme_separator()) == Some(
            if starts_with(base, http_prefix()) { 4int } else { 5int },
        ),
        starts_with(base, http_prefix()) ==> base.take(4) == seq!['h', 't', 't', 'p'],
        !starts_with(base, http_prefix()) ==> base.take(5) == seq!['h', 't', 't', 'p', 's'],
{
    let sep = scheme_separator();
    if starts_with(base, http_prefix()) {
        assert(base.take(7) == http_prefix());
        assert(base[0] == 'h' && base[1] == 't' && base[2] == 't' && base[3] == 'p');
        assert(base[4] == ':' && base[5] == '/' && base[6] == '/');
        assert(!occurs_at(base, sep, 0)) by { assert(base.subrange(0, 3)[0] != sep[0]); }
        assert(!occurs_at(base, sep, 1)) by { assert(base.subrange(1, 4)[0] != sep[0]); }
        assert(!occurs_at(base, sep, 2)) by { assert(base.subrange(2, 5)[0] != sep[0]); }
        assert(!occurs_at(base, sep, 3)) by { assert(base.subrange(3, 6)[0] != sep[0]); }
        assert(occurs_at(base, sep, 4)) by { assert(base.subrange(4, 7) =~= sep); }
        reveal_with_fuel(find_from, 6);
        assert(find_from(base, sep, 0) == Some(4int));
        assert(base.take(4) =~= seq!['h', 't', 't', 'p']);
    } else {
        assert(base.take(8) == https_prefix());
        assert(base[0] == 'h' && base[1] == 't' && base[2] == 't' && base[3] == 'p');
        assert(base[4] == 's' && base[5] == ':' && base[6] == '/' && base[7] == '/');
        assert(!occurs_at(base, sep, 0)) by { assert(base.subrange(0, 3)[0] != sep[0]); }
        assert(!occurs_at(base, sep, 1)) by { assert(base.subrange(1, 4)[0] != sep[0]); }
        assert(!occurs_at(base, sep, 2)) by { assert(base.subrange(2, 5)[0] != sep[0]); }
        assert(!occurs_at(base, sep, 3)) by { assert(base.subrange(3, 6)[0] != sep[0]); }
        assert(!occurs_at(base, sep, 4)) by { assert(base.subrange(4, 7)[0] != sep[0]); }
        assert(occurs_at(base, sep, 5)) by { assert(base.subrange(5, 8) =~= sep); }
        reveal_with_fuel(find_from, 7);
        assert(find_from(base, sep, 0) == Some(5int));
        assert(base.take(5) =~= seq!['h', 't', 't', 'p', 's']);
    }
}

/// Against a base URL that names `http` or `https`, every full URL names one of them too,
/// so that joining a full URL once more leaves it as it is.
pub proof fn lemma_full_url_idempotent(base: Seq<char>, ts: Seq<char>)
    requires
        is_absolute(base),
    ensures
        is_absolute(full_url(base, ts)),
        full_url(base, full_url(base, ts)) == full_url(base, ts),
{
    let r = full_url(base, ts);
    if is_absolute(ts) {
    } else if starts_with(ts, slash()) {
        lemma_find_scheme_of_absolute(base);
        let i: int = if starts_with(base, http_prefix()) { 4 } else { 5 };
        let host = before_first(before_first(base.skip(i + 3), scheme_separator()), slash());
        let head = base.take(i) + scheme_separator();
        assert(r == head + host + ts);
        if starts_with(base, http_prefix()) {
            assert(head =~= http_prefix());
            assert(head.take(7) =~= head);
            assert(starts_with(head, http_prefix()));
            lemma_concat_starts_with(http_prefix(), head, host);
            lemma_concat_starts_with(http_prefix(), head + host, ts);
        } else {
            assert(head =~= https_prefix());
            assert(head.take(8) =~= head);
            assert(starts_with(head, https_prefix()));
            lemma_concat_starts_with(https_prefix(), head, host);
            lemma_concat_starts_with(https_prefix(), head + host, ts);
        }
    } else if ends_with(base, slash()) {
        if starts_with(base, http_prefix()) {
            lemma_concat_starts_with(http_prefix(), base, ts);
        } else {
            lemma_concat_starts_with(https_prefix(), base, ts);
        }
    } else {
        if starts_with(base, http_prefix()) {
            lemma_concat_starts_with(http_prefix(), base, slash());
            lemma_concat_starts_with(http_prefix(), base + slash(), ts);
        } else {
            lemma_concat_starts_with(https_prefix(), base, slash());
            lemma_concat_starts_with(https_prefix(), base + slash(), ts);
        }
    }
}

} // verus!
