//! Character-level text handling shared by the playlist, URL and command modules.
use vstd::prelude::*;
use vstd::std_specs::iter::IteratorSpec;

verus! {

broadcast use vstd::string::group_string_axioms;

/// Appends one character to a `String` (`String::push`).
#[verifier::external_body]
pub fn push_char(s: &mut String, c: char)
    ensures
        final(s)@ == old(s)@.push(c),
{
    s.push(c);
}

/// The characters of a string slice, in order.
pub fn chars_of(s: &str) -> (r: Vec<char>)
    ensures
        r@ == s@,
{
    let mut out: Vec<char> = Vec::new();
    for c in it: s.chars()
        invariant
            it.seq() == s@,
            out@ == s@.take(it.index() as int),
    {
        out.push(c);
    }
    out
}


/// A `String` holding exactly the given characters.
pub fn string_of(cs: &[char]) -> (r: String)
    ensures
        r@ == cs@,
{
    let mut out = String::new();
    let mut i: usize = 0;
    while i < cs.len()
        invariant
            i <= cs@.len(),
            out@ == cs@.take(i as int),
        decreases cs@.len() - i,
    {
        push_char(&mut out, cs[i]);
        i = i + 1;
        assert(out@ =~= cs@.take(i as int));
    }
    assert(cs@.take(cs@.len() as int) =~= cs@);
    out
}

/// A `String` holding the characters of `cs` from `from` (inclusive) to `to` (exclusive).
pub fn string_of_range(cs: &[char], from: usize, to: usize) -> (r: String)
    requires
        from <= to <= cs@.len(),
    ensures
        r@ == cs@.subrange(from as int, to as int),
{
    let mut out = String::new();
    let mut i: usize = from;
    while i < to
        invariant
            from <= i <= to <= cs@.len(),
            out@ == cs@.subrange(from as int, i as int),
        decreases to - i,
    {
        push_char(&mut out, cs[i]);
        i = i + 1;
        assert(out@ =~= cs@.subrange(from as int, i as int));
    }
    out
}

/// `s` begins with `p`.
pub open spec fn starts_with(s: Seq<char>, p: Seq<char>) -> bool {
    p.len() <= s.len() && s.take(p.len() as int) == p
}

/// `s` ends with `p`.
pub open spec fn ends_with(s: Seq<char>, p: Seq<char>) -> bool {
    p.len() <= s.len() && s.skip(s.len() - p.len()) == p
}

/// `p` occurs in `s` starting at position `i`.
pub open spec fn occurs_at(s: Seq<char>, p: Seq<char>, i: int) -> bool {
    0 <= i && i + p.len() <= s.len() && s.subrange(i, i + p.len()) == p
}

/// The first position at or after `k` where `p` occurs in `s`.
pub open spec fn find_from(s: Seq<char>, p: Seq<char>, k: int) -> Option<int>
    decreases s.len() + 1 - k,
{
    if k < 0 || k + p.len() > s.len() {
        None
    } else if occurs_at(s, p, k) {
        Some(k)
    } else {
        find_from(s, p, k + 1)
    }
}

/// The first position where `p` occurs in `s`.
pub open spec fn find(s: Seq<char>, p: Seq<char>) -> Option<int> {
    find_from(s, p, 0)
}

/// The last position of character `c` in `s`.
pub open spec fn rfind_char(s: Seq<char>, c: char) -> Option<int>
    decreases s.len(),
{
    if s.len() == 0 {
        None
    } else if s.last() == c {
        Some(s.len() - 1)
    } else {
        rfind_char(s.drop_last(), c)
    }
}

/// Whether `p` occurs in `s` at position `i`.
pub fn matches_at(s: &[char], p: &[char], i: usize) -> (r: bool)
    ensures
        r == occurs_at(s@, p@, i as int),
{
    if i > s.len() || p.len() > s.len() - i {
        return false;
    }
    let mut j: usize = 0;
    while j < p.len()
        invariant
            i + p@.len() <= s@.len(),
            i + p.len() <= s.len(),
            j <= p@.len(),
            forall|t: int| 0 <= t < j ==> s@[i + t] == p@[t],
        decreases p@.len() - j,
    {
        if s[i + j] != p[j] {
            assert(s@.subrange(i as int, i + p@.len())[j as int] != p@[j as int]);
            return false;
        }
        j = j + 1;
    }
    assert(s@.subrange(i as int, i + p@.len()) =~= p@);
    true
}

/// Whether `s` begins with `p`.
pub fn has_prefix(s: &[char], p: &[char]) -> (r: bool)
    ensures
        r == starts_with(s@, p@),
{
    let r = matches_at(s, p, 0);
    proof {
        if p@.len() <= s@.len() {
            assert(s@.subrange(0, p@.len() as int) =~= s@.take(p@.len() as int));
        }
    }
    r
}

/// Whether `s` ends with `p`.
pub fn has_suffix(s: &[char], p: &[char]) -> (r: bool)
    ensures
        r == ends_with(s@, p@),
{
    if p.len() > s.len() {
        return false;
    }
    let r = matches_at(s, p, s.len() - p.len());
    assert(s@.subrange(s@.len() - p@.len(), s@.len() as int) =~= s@.skip(s@.len() - p@.len()));
    r
}

/// The first position at or after `from` where `p` occurs in `s`.
pub fn find_chars(s: &[char], p: &[char], from: usize) -> (r: Option<usize>)
    ensures
        match r {
            Some(i) => find_from(s@, p@, from as int) == Some(i as int),
            None => find_from(s@, p@, from as int) is None,
        },
{
    let mut k: usize = from;
    while k <= s.len() && p.len() <= s.len() - k
        invariant
            from <= k,
            find_from(s@, p@, from as int) == find_from(s@, p@, k as int),
        decreases s@.len() + 1 - k,
    {
        if matches_at(s, p, k) {
            return Some(k);
        }
        if k == s.len() {
            assert(find_from(s@, p@, k + 1) is None);
            return None;
        }
        k = k + 1;
    }
    None
}

/// The last position of `c` in `s`.
pub fn rfind_char_in(s: &[char], c: char) -> (r: Option<usize>)
    ensures
        match r {
            Some(i) => rfind_char(s@, c) == Some(i as int),
            None => rfind_char(s@, c) is None,
        },
{
    let mut k: usize = s.len();
    assert(s@.take(k as int) =~= s@);
    while k > 0
        invariant
            k <= s@.len(),
            rfind_char(s@, c) == rfind_char(s@.take(k as int), c),
        decreases k,
    {
        assert(s@.take(k as int).drop_last() =~= s@.take(k - 1));
        if s[k - 1] == c {
            return Some(k - 1);
        }
        k = k - 1;
    }
    None
}


/// A line without the carriage return that ends it, if any.
pub open spec fn strip_cr(line: Seq<char>) -> Seq<char> {
    if line.len() > 0 && line.last() == '\r' {
        line.drop_last()
    } else {
        line
    }
}

/// The lines of `s` when the line read so far is `cur`: a line ends at each
/// `'\n'` and then loses one carriage return before it; a last line with no
/// `'\n'` after it is kept as it is, and nothing follows a final `'\n'`.
pub open spec fn lines_from(s: Seq<char>, cur: Seq<char>) -> Seq<Seq<char>>
    decreases s.len(),
{
    if s.len() == 0 {
        if cur.len() == 0 {
            Seq::empty()
        } else {
            seq![cur]
        }
    } else if s[0] == '\n' {
        seq![strip_cr(cur)] + lines_from(s.drop_first(), Seq::empty())
    } else {
        lines_from(s.drop_first(), cur.push(s[0]))
    }
}

/// The lines of a text, as `str::lines` yields them.
pub open spec fn lines(s: Seq<char>) -> Seq<Seq<char>> {
    lines_from(s, Seq::empty())
}

/// The pieces of `s` that a list of `(start, end)` ranges names.
pub open spec fn slices(s: Seq<char>, ranges: Seq<(usize, usize)>) -> Seq<Seq<char>> {
    ranges.map_values(|r: (usize, usize)| s.subrange(r.0 as int, r.1 as int))
}

/// The ranges that the lines of `s` take in it, in order.
pub fn line_ranges(s: &[char]) -> (r: Vec<(usize, usize)>)
    ensures
        forall|i: int| 0 <= i < r@.len() ==> (#[trigger] r@[i]).0 <= r@[i].1 <= s@.len(),
        slices(s@, r@) == lines(s@),
{
    let mut out: Vec<(usize, usize)> = Vec::new();
    let mut start: usize = 0;
    let mut k: usize = 0;
    assert(s@.skip(0) =~= s@);
    assert(s@.subrange(0, 0) =~= Seq::<char>::empty());
    while k < s.len()
        invariant
            start <= k <= s@.len(),
            forall|i: int| 0 <= i < out@.len() ==> (#[trigger] out@[i]).0 <= out@[i].1 <= s@.len(),
            slices(s@, out@) + lines_from(s@.skip(k as int), s@.subrange(start as int, k as int))
                == lines(s@),
        decreases s@.len() - k,
    {
        let ghost rest = s@.skip(k as int);
        let ghost cur = s@.subrange(start as int, k as int);
        assert(rest[0] == s@[k as int]);
        assert(rest.drop_first() =~= s@.skip(k + 1));
        if s[k] == '\n' {
            let end: usize = if k > start && s[k - 1] == '\r' {
                k - 1
            } else {
                k
            };
            assert(s@.subrange(start as int, end as int) =~= strip_cr(cur));
            let ghost before = slices(s@, out@);
            out.push((start, end));
            assert(slices(s@, out@) =~= before.push(strip_cr(cur)));
            assert(seq![strip_cr(cur)] + lines_from(rest.drop_first(), Seq::empty())
                == lines_from(rest, cur));
            assert(before.push(strip_cr(cur)) + lines_from(rest.drop_first(), Seq::empty())
                =~= before + (seq![strip_cr(cur)] + lines_from(rest.drop_first(), Seq::empty())));
            k = k + 1;
            start = k;
            assert(s@.subrange(start as int, k as int) =~= Seq::<char>::empty());
        } else {
            assert(cur.push(s@[k as int]) =~= s@.subrange(start as int, k + 1));
            k = k + 1;
        }
    }
    assert(s@.skip(k as int) =~= Seq::<char>::empty());
    if start < k {
        let ghost before = slices(s@, out@);
        out.push((start, k));
        assert(slices(s@, out@) =~= before.push(s@.subrange(start as int, k as int)));
    } else {
        assert(slices(s@, out@) + Seq::<Seq<char>>::empty() =~= slices(s@, out@));
    }
    out
}


/// Unicode `White_Space`, the property that `char::is_whitespace` tests.
pub open spec fn is_white_space(c: char) -> bool {
    ||| ('\u{9}' <= c && c <= '\u{d}')
    ||| c == ' '
    ||| c == '\u{85}'
    ||| c == '\u{a0}'
    ||| c == '\u{1680}'
    ||| ('\u{2000}' <= c && c <= '\u{200a}')
    ||| c == '\u{2028}'
    ||| c == '\u{2029}'
    ||| c == '\u{202f}'
    ||| c == '\u{205f}'
    ||| c == '\u{3000}'
}

/// What a trim removes from both ends of a text.
#[derive(Clone, Copy, Debug, PartialEq, Eq)]
pub enum Strip {
    /// Unicode white space, as `str::trim` removes.
    WhiteSpace,
    /// Double quotes, as `str::trim_matches('"')` removes.
    Quote,
}

impl Strip {
    pub open spec fn removes(self, c: char) -> bool {
        match self {
            Strip::WhiteSpace => is_white_space(c),
            Strip::Quote => c == '"',
        }
    }

    /// Whether this trim removes `c`.
    pub fn removes_char(self, c: char) -> (r: bool)
        ensures
            r == self.removes(c),
    {
        match self {
            Strip::WhiteSpace => {
                ('\u{9}' <= c && c <= '\u{d}') || c == ' ' || c == '\u{85}' || c == '\u{a0}'
                    || c == '\u{1680}' || ('\u{2000}' <= c && c <= '\u{200a}') || c == '\u{2028}'
                    || c == '\u{2029}' || c == '\u{202f}' || c == '\u{205f}' || c == '\u{3000}'
            },
            Strip::Quote => c == '"',
        }
    }
}

/// `s` without the characters at its start that `k` removes.
pub open spec fn strip_start(s: Seq<char>, k: Strip) -> Seq<char>
    decreases s.len(),
{
    if s.len() > 0 && k.removes(s[0]) {
        strip_start(s.drop_first(), k)
    } else {
        s
    }
}

/// `s` without the characters at its end that `k` removes.
pub open spec fn strip_end(s: Seq<char>, k: Strip) -> Seq<char>
    decreases s.len(),
{
    if s.len() > 0 && k.removes(s.last()) {
        strip_end(s.drop_last(), k)
    } else {
        s
    }
}

/// `s` without the characters at both ends that `k` removes.
pub open spec fn strip(s: Seq<char>, k: Strip) -> Seq<char> {
    strip_end(strip_start(s, k), k)
}

/// The range of `s[from..to]` that is left once `k` has stripped both of its ends.
pub fn strip_range(s: &[char], from: usize, to: usize, k: Strip) -> (r: (usize, usize))
    requires
        from <= to <= s@.len(),
    ensures
        from <= r.0 <= r.1 <= to,
        s@.subrange(r.0 as int, r.1 as int) == strip(s@.subrange(from as int, to as int), k),
{
    let ghost whole = s@.subrange(from as int, to as int);
    let mut a: usize = from;
    while a < to && k.removes_char(s[a])
        invariant
            from <= a <= to <= s@.len(),
            strip_start(whole, k) == strip_start(s@.subrange(a as int, to as int), k),
        decreases to - a,
    {
        assert(s@.subrange(a as int, to as int).drop_first() =~= s@.subrange(a + 1, to as int));
        a = a + 1;
    }
    let mut b: usize = to;
    while b > a && k.removes_char(s[b - 1])
        invariant
            from <= a <= b <= to <= s@.len(),
            strip(whole, k) == strip_end(s@.subrange(a as int, b as int), k),
        decreases b - a,
    {
        assert(s@.subrange(a as int, b as int).drop_last() =~= s@.subrange(a as int, b - 1));
        b = b - 1;
    }
    (a, b)
}

/// A text with both ends stripped as `k` says (`str::trim`, `str::trim_matches('"')`).
pub fn stripped(s: &str, k: Strip) -> (r: String)
    ensures
        r@ == strip(s@, k),
{
    let cs = chars_of(s);
    let (a, b) = strip_range(&cs, 0, cs.len(), k);
    assert(cs@.subrange(0, cs@.len() as int) =~= cs@);
    string_of_range(&cs, a, b)
}


/// Appends characters to a `String`.
pub fn append_chars(out: &mut String, cs: &[char])
    ensures
        final(out)@ == old(out)@ + cs@,
{
    let mut i: usize = 0;
    while i < cs.len()
        invariant
            i <= cs@.len(),
            out@ == old(out)@ + cs@.take(i as int),
        decreases cs@.len() - i,
    {
        push_char(out, cs[i]);
        i = i + 1;
        assert(out@ =~= old(out)@ + cs@.take(i as int));
    }
    assert(cs@.take(cs@.len() as int) =~= cs@);
}

/// The characters of `s` from `from` (inclusive) to `to` (exclusive).
pub fn chars_range(s: &[char], from: usize, to: usize) -> (r: Vec<char>)
    requires
        from <= to <= s@.len(),
    ensures
        r@ == s@.subrange(from as int, to as int),
{
    let mut out: Vec<char> = Vec::new();
    let mut i: usize = from;
    while i < to
        invariant
            from <= i <= to <= s@.len(),
            out@ == s@.subrange(from as int, i as int),
        decreases to - i,
    {
        out.push(s[i]);
        i = i + 1;
        assert(out@ =~= s@.subrange(from as int, i as int));
    }
    out
}


/// A text that ends with `b`, where `b` ends with `c`, ends with `c`.
pub proof fn lemma_ends_with_trans(a: Seq<char>, b: Seq<char>, c: Seq<char>)
    requires
        ends_with(a, b),
        ends_with(b, c),
    ensures
        ends_with(a, c),
{
    assert(a.skip(a.len() - c.len()) =~= b.skip(b.len() - c.len()));
}

/// Stripping keeps an ending whose first and last characters the strip does not remove.
pub proof fn lemma_strip_keeps_ending(s: Seq<char>, suffix: Seq<char>, k: Strip)
    requires
        ends_with(s, suffix),
        suffix.len() > 0,
        !k.removes(suffix[0]),
        !k.removes(suffix.last()),
    ensures
        ends_with(strip(s, k), suffix),
        strip(s, k) == strip_start(s, k),
{
    lemma_strip_start_keeps_ending(s, suffix, k);
    let t = strip_start(s, k);
    assert(t.last() == suffix.last()) by {
        assert(t.skip(t.len() - suffix.len())[suffix.len() - 1] == t.last());
    }
}

proof fn lemma_strip_start_keeps_ending(s: Seq<char>, suffix: Seq<char>, k: Strip)
    requires
        ends_with(s, suffix),
        suffix.len() > 0,
        !k.removes(suffix[0]),
    ensures
        ends_with(strip_start(s, k), suffix),
    decreases s.len(),
{
    if s.len() > 0 && k.removes(s[0]) {
        if s.len() == suffix.len() {
            assert(s.skip(0) =~= s);
            assert(s[0] == suffix[0]);
        } else {
            assert(s.drop_first().skip(s.drop_first().len() - suffix.len()) =~= s.skip(
                s.len() - suffix.len(),
            ));
            lemma_strip_start_keeps_ending(s.drop_first(), suffix, k);
        }
    }
}


proof fn lemma_lines_from_then(a: Seq<char>, b: Seq<char>, cur: Seq<char>)
    requires
        a.len() == 0 ==> cur.len() > 0 && cur.last() != '\r',
        a.len() > 0 ==> a.last() != '\n' && a.last() != '\r',
    ensures
        lines_from(a + seq!['\n'] + b, cur) == lines_from(a, cur) + lines_from(b, Seq::empty()),
    decreases a.len(),
{
    let nl = seq!['\n'];
    let whole = a + nl + b;
    if a.len() == 0 {
        assert(whole =~= nl + b);
        assert(whole[0] == '\n');
        assert(whole.drop_first() =~= b);
        assert(strip_cr(cur) == cur);
    } else {
        let rest = a.drop_first();
        assert(whole[0] == a[0]);
        assert(whole.drop_first() =~= rest + nl + b);
        if rest.len() > 0 {
            assert(rest.last() == a.last());
        }
        if a[0] == '\n' {
            assert(rest.len() > 0);
            lemma_lines_from_then(rest, b, Seq::empty());
            assert(seq![strip_cr(cur)] + lines_from(rest, Seq::empty()) + lines_from(
                b,
                Seq::empty(),
            ) =~= seq![strip_cr(cur)] + (lines_from(rest, Seq::empty()) + lines_from(
                b,
                Seq::empty(),
            )));
        } else {
            if rest.len() == 0 {
                assert(cur.push(a[0]).last() == a.last());
            }
            lemma_lines_from_then(rest, b, cur.push(a[0]));
        }
    }
}

/// A text that does not end a line, followed by `'\n'` and a second text, has the lines
/// of the first text and then those of the second.
pub proof fn lemma_lines_of_joined(a: Seq<char>, b: Seq<char>)
    requires
        a.len() > 0,
        a.last() != '\n',
        a.last() != '\r',
    ensures
        lines(a + seq!['\n'] + b) == lines(a) + lines(b),
{
    lemma_lines_from_then(a, b, Seq::empty());
}

} // verus!
