//! Reading the segment list out of an m3u8 playlist.
use vstd::prelude::*;
use crate::text::{chars_of, lemma_lines_of_joined, line_ranges, lines, slices, string_of_range};
use crate::url::{full_url, join_url};
use crate::pattern::{first_group, regex_accepts, regex_first_group};
pub use crate::pattern::{ParseError, SegmentPattern, TS_SEGMENT_PATTERN};

verus! {

/// Reads the segments of a playlist and makes their URLs full against a base URL.
#[derive(Debug)]
pub struct M3U8Parser {
    pub base_url: String,
}

/// A segment of a playlist: its full URL and the number of the line it stands on.
#[derive(Debug)]
pub struct TsSegment {
    pub url: String,
    pub index: usize,
}

impl View for TsSegment {
    type V = (Seq<char>, usize);

    open spec fn view(&self) -> (Seq<char>, usize) {
        (self.url@, self.index)
    }
}

/// The segments that the per-line results of a search give: one for each line with a
/// path, in line order, with the path made full against `base`.
pub open spec fn segment_entries(base: Seq<char>, found: Seq<Option<Seq<char>>>) -> Seq<
    (Seq<char>, usize),
>
    decreases found.len(),
{
    if found.len() == 0 {
        Seq::empty()
    } else {
        let before = segment_entries(base, found.drop_last());
        match found.last() {
            Some(path) => before.push((full_url(base, path), (found.len() - 1) as usize)),
            None => before,
        }
    }
}

/// The text an optional string holds.
pub open spec fn text_of(o: Option<String>) -> Option<Seq<char>> {
    match o {
        Some(s) => Some(s@),
        None => None,
    }
}

/// The texts of a list of optional strings.
pub open spec fn found_texts(found: Seq<Option<String>>) -> Seq<Option<Seq<char>>> {
    found.map_values(|o: Option<String>| text_of(o))
}

/// The views of a list of segments.
pub open spec fn segment_views(segs: Seq<TsSegment>) -> Seq<(Seq<char>, usize)> {
    segs.map_values(|s: TsSegment| s@)
}

/// What the search with `pattern` finds on each line of `content`.
pub open spec fn found_paths(pattern: Seq<char>, content: Seq<char>) -> Seq<Option<Seq<char>>> {
    lines(content).map_values(|l: Seq<char>| regex_first_group(pattern, l))
}

/// A playlist gives one segment for each line where a path was found, in line order:
/// the segments' line numbers rise strictly, each names a line where a path was found
/// and carries that path made full against the base URL, and no such line is left out.
pub proof fn lemma_segment_entries_exact(base: Seq<char>, found: Seq<Option<Seq<char>>>)
    requires
        found.len() <= usize::MAX,
    ensures
        ({
            let e = segment_entries(base, found);
            &&& forall|i: int, j: int| 0 <= i < j < e.len() ==> #[trigger] e[i].1 < #[trigger] e[j].1
            &&& forall|i: int| 0 <= i < e.len() ==> {
                &&& (#[trigger] e[i]).1 < found.len()
                &&& found[e[i].1 as int] is Some
                &&& e[i].0 == full_url(base, found[e[i].1 as int]->0)
            }
            &&& forall|k: int| 0 <= k < found.len() && (#[trigger] found[k]) is Some ==>
                exists|i: int| 0 <= i < e.len() && e[i].1 == k
        }),
    decreases found.len(),
{
    if found.len() > 0 {
        let prev = found.drop_last();
        lemma_segment_entries_exact(base, prev);
        let ep = segment_entries(base, prev);
        let e = segment_entries(base, found);
        let n = found.len();
        assert forall|i: int| 0 <= i < ep.len() implies (#[trigger] ep[i]).1 < n - 1
            && found[ep[i].1 as int] == prev[ep[i].1 as int] by {}
        assert forall|k: int| 0 <= k < n && (#[trigger] found[k]) is Some implies
            exists|i: int| 0 <= i < e.len() && e[i].1 == k by {
            if k < n - 1 {
                assert(prev[k] == found[k]);
                let i = choose|i: int| 0 <= i < ep.len() && ep[i].1 == k;
                assert(e[i] == ep[i]);
            } else {
                assert(found.last() == found[k]);
                assert(e == ep.push((full_url(base, found[k]->0), (n - 1) as usize)));
                assert(e[e.len() - 1].1 == k);
            }
        }
    }
}

/// Segments with their line numbers moved on by `k`.
pub open spec fn shifted(es: Seq<(Seq<char>, usize)>, k: nat) -> Seq<(Seq<char>, usize)> {
    es.map_values(|e: (Seq<char>, usize)| (e.0, (e.1 + k) as usize))
}

proof fn lemma_segment_entries_append(
    base: Seq<char>,
    f1: Seq<Option<Seq<char>>>,
    f2: Seq<Option<Seq<char>>>,
)
    requires
        f1.len() + f2.len() <= usize::MAX,
    ensures
        segment_entries(base, f1 + f2) == segment_entries(base, f1) + shifted(
            segment_entries(base, f2),
            f1.len(),
        ),
    decreases f2.len(),
{
    if f2.len() == 0 {
        assert(f1 + f2 =~= f1);
        assert(shifted(segment_entries(base, f2), f1.len()) =~= Seq::<(Seq<char>, usize)>::empty());
        assert(segment_entries(base, f1) + Seq::<(Seq<char>, usize)>::empty() =~= segment_entries(
            base,
            f1,
        ));
    } else {
        let f = f1 + f2;
        assert(f.drop_last() =~= f1 + f2.drop_last());
        assert(f.last() == f2.last());
        lemma_segment_entries_append(base, f1, f2.drop_last());
        let e1 = segment_entries(base, f1);
        let e2p = segment_entries(base, f2.drop_last());
        match f2.last() {
            Some(path) => {
                let x = (full_url(base, path), (f2.len() - 1) as usize);
                assert(segment_entries(base, f2) == e2p.push(x));
                assert(shifted(e2p.push(x), f1.len()) =~= shifted(e2p, f1.len()).push(
                    (x.0, (x.1 + f1.len()) as usize),
                ));
                assert(e1 + shifted(e2p, f1.len()).push((x.0, (x.1 + f1.len()) as usize)) =~= (e1
                    + shifted(e2p, f1.len())).push((full_url(base, path), (f.len() - 1) as usize)));
            },
            None => {},
        }
    }
}

/// Two playlists joined by a line break, the first not ending a line, give the first's
/// segments and then the second's, with the second's line numbers moved on by the number
/// of lines of the first.
pub proof fn lemma_segments_of_joined_playlists(
    base: Seq<char>,
    pattern: Seq<char>,
    a: Seq<char>,
    b: Seq<char>,
)
    requires
        a.len() > 0,
        a.last() != '\n',
        a.last() != '\r',
        lines(a).len() + lines(b).len() <= usize::MAX,
    ensures
        segment_entries(base, found_paths(pattern, a + seq!['\n'] + b)) == segment_entries(
            base,
            found_paths(pattern, a),
        ) + shifted(segment_entries(base, found_paths(pattern, b)), lines(a).len()),
{
    lemma_lines_of_joined(a, b);
    assert(found_paths(pattern, a + seq!['\n'] + b) =~= found_paths(pattern, a) + found_paths(
        pattern,
        b,
    ));
    lemma_segment_entries_append(base, found_paths(pattern, a), found_paths(pattern, b));
}

impl M3U8Parser {
    /// A parser for playlists whose relative segment paths are taken against `base_url`.
    pub fn new(base_url: &str) -> (r: M3U8Parser)
        ensures
            r.base_url@ == base_url@,
    {
        M3U8Parser { base_url: base_url.to_owned() }
    }

    /// The full URL of a segment path found in the playlist.
    pub fn make_full_url(&self, ts_url: &str) -> (r: String)
        ensures
            r@ == full_url(self.base_url@, ts_url@),
    {
        join_url(self.base_url.as_str(), ts_url)
    }

    /// The segments that the per-line search results `found` give (`None` for a line
    /// with no segment path).
    pub fn collect_segments(&self, found: &Vec<Option<String>>) -> (r: Vec<TsSegment>)
        ensures
            segment_views(r@) == segment_entries(
                self.base_url@,
                found_texts(found@),
            ),
    {
        let mut out: Vec<TsSegment> = Vec::new();
        let mut i: usize = 0;
        while i < found.len()
            invariant
                i <= found@.len(),
                segment_views(out@) == segment_entries(
                    self.base_url@,
                    found_texts(found@.take(i as int)),
                ),
            decreases found@.len() - i,
        {
            let ghost before = found_texts(found@.take(i as int));
            let ghost after = found_texts(found@.take(i + 1));
            assert(after.drop_last() =~= before);
            assert(after.last() == text_of(found@[i as int]));
            let ghost views_before = segment_views(out@);
            assert(after.len() == i + 1);
            match &found[i] {
                Some(path) => {
                    let url = self.make_full_url(path.as_str());
                    out.push(TsSegment { url, index: i });
                    assert(after.last() == Some(path@));
                    assert(segment_entries(self.base_url@, after) == segment_entries(
                        self.base_url@,
                        before,
                    ).push((full_url(self.base_url@, path@), i)));
                    assert(segment_views(out@) =~= views_before.push(
                        (full_url(self.base_url@, path@), i),
                    ));
                },
                None => {
                    assert(after.last() is None);
                    assert(segment_entries(self.base_url@, after) == segment_entries(
                        self.base_url@,
                        before,
                    ));
                },
            }
            i = i + 1;
        }
        assert(found@.take(found@.len() as int) =~= found@);
        out
    }

    /// The segments of `content` that `pattern` finds, one per line at most.
    pub fn parse_with(&self, pattern: &SegmentPattern, content: &str) -> (r: Vec<TsSegment>)
        ensures
            segment_views(r@) == segment_entries(
                self.base_url@,
                found_paths(pattern.source(), content@),
            ),
    {
        let cs = chars_of(content);
        let ranges = line_ranges(&cs);
        let mut found: Vec<Option<String>> = Vec::new();
        let mut k: usize = 0;
        while k < ranges.len()
            invariant
                k <= ranges@.len(),
                forall|i: int| 0 <= i < ranges@.len() ==> (#[trigger] ranges@[i]).0 <= ranges@[i].1 <= cs@.len(),
                slices(cs@, ranges@) == lines(content@),
                found_texts(found@)
                    == found_paths(pattern.source(), content@).take(k as int),
            decreases ranges@.len() - k,
        {
            let (a, b) = ranges[k];
            let line = string_of_range(&cs, a, b);
            assert(line@ == lines(content@)[k as int]);
            let g = first_group(pattern, line.as_str());
            let ghost before = found_texts(found@);
            found.push(g);
            assert(found_texts(found@) =~= before.push(
                text_of(g),
            ));
            assert(found_paths(pattern.source(), content@).take(k + 1) =~= found_paths(
                pattern.source(),
                content@,
            ).take(k as int).push(regex_first_group(pattern.source(), line@)));
            k = k + 1;
        }
        assert(found_paths(pattern.source(), content@).take(k as int) =~= found_paths(
            pattern.source(),
            content@,
        ));
        self.collect_segments(&found)
    }

    /// The segments of a playlist: for each line where the segment pattern finds a path,
    /// that path made full and the line's number. Fails only where the pattern does not
    /// compile.
    pub fn parse(&self, content: &str) -> (r: Result<Vec<TsSegment>, ParseError>)
        ensures
            r is Err <==> !regex_accepts(TS_SEGMENT_PATTERN@),
            r matches Ok(segs) ==> segment_views(segs@) == segment_entries(
                self.base_url@,
                found_paths(TS_SEGMENT_PATTERN@, content@),
            ),
    {
        let pattern = SegmentPattern::compile(TS_SEGMENT_PATTERN)?;
        Ok(self.parse_with(&pattern, content))
    }
}

} // verus!
