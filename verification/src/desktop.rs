//! The desktop downloader's playlist reading and download bookkeeping. Its reader follows
//! nested playlists, so it lists them beside the segments for the caller to fetch.
use vstd::prelude::*;
use crate::playlist::{segment_views, TsSegment};
use crate::text::{
    chars_of, chars_range, ends_with, has_prefix, has_suffix, line_ranges, lines, slices,
    starts_with, string_of_range, strip, strip_range, Strip, lemma_ends_with_trans, lemma_strip_keeps_ending,
};
use crate::url::{
    full_url, is_absolute, join_url, lemma_absolute_path_unchanged, lemma_full_url_ends_with_path,
};

verus! {

/// `#`, which starts a comment or tag line.
pub open spec fn comment_mark() -> Seq<char> {
    seq!['#']
}

/// `.ts`, the ending of a segment path.
pub open spec fn segment_ending() -> Seq<char> {
    seq!['.', 't', 's']
}

/// `.m3u8`, the ending of a nested playlist's path.
pub open spec fn playlist_ending() -> Seq<char> {
    seq!['.', 'm', '3', 'u', '8']
}

/// Reads playlists for the desktop downloader.
#[derive(Debug)]
pub struct M3U8Parser {
    pub base_url: String,
}

/// What a playlist line names.
#[derive(Debug)]
pub enum PlaylistEntry {
    /// A segment, with its full URL and line number.
    Segment(TsSegment),
    /// A nested playlist, with its full URL; its segments belong at this place.
    Playlist(String),
}

/// The meaning of a playlist entry.
pub enum EntryView {
    Segment(Seq<char>, usize),
    Playlist(Seq<char>),
}

impl View for PlaylistEntry {
    type V = EntryView;

    open spec fn view(&self) -> EntryView {
        match self {
            PlaylistEntry::Segment(s) => EntryView::Segment(s.url@, s.index),
            PlaylistEntry::Playlist(u) => EntryView::Playlist(u@),
        }
    }
}

/// What line number `index`, `line`, names: after trimming white space, a line that starts
/// with `#` names nothing; one that ends with `.ts` names a segment whose path is the line
/// without the double quotes at its ends; one that ends with `.m3u8` names a nested
/// playlist; any other line names nothing. Paths are made full against `base`.
pub open spec fn entry_of(base: Seq<char>, line: Seq<char>, index: usize) -> Option<EntryView> {
    let t = strip(line, Strip::WhiteSpace);
    if starts_with(t, comment_mark()) {
        None
    } else if ends_with(t, segment_ending()) {
        Some(EntryView::Segment(full_url(base, strip(t, Strip::Quote)), index))
    } else if ends_with(t, playlist_ending()) {
        Some(EntryView::Playlist(full_url(base, t)))
    } else {
        None
    }
}

/// The entries that the given lines name, in order.
pub open spec fn entries_of(base: Seq<char>, ls: Seq<Seq<char>>) -> Seq<EntryView>
    decreases ls.len(),
{
    if ls.len() == 0 {
        Seq::empty()
    } else {
        let before = entries_of(base, ls.drop_last());
        match entry_of(base, ls.last(), (ls.len() - 1) as usize) {
            Some(e) => before.push(e),
            None => before,
        }
    }
}

/// Every segment the desktop reader lists has a URL that ends with `.ts`, and every
/// nested playlist one that ends with `.m3u8`.
pub proof fn lemma_entry_endings(base: Seq<char>, ls: Seq<Seq<char>>)
    ensures
        forall|i: int| 0 <= i < entries_of(base, ls).len() ==> match #[trigger] entries_of(base, ls)[i] {
            EntryView::Segment(u, _) => ends_with(u, segment_ending()),
            EntryView::Playlist(u) => ends_with(u, playlist_ending()),
        },
    decreases ls.len(),
{
    if ls.len() > 0 {
        lemma_entry_endings(base, ls.drop_last());
        let t = strip(ls.last(), Strip::WhiteSpace);
        if !starts_with(t, comment_mark()) {
            if ends_with(t, segment_ending()) {
                lemma_strip_keeps_ending(t, segment_ending(), Strip::Quote);
                let path = strip(t, Strip::Quote);
                lemma_full_url_ends_with_path(base, path);
                lemma_ends_with_trans(full_url(base, path), path, segment_ending());
            } else if ends_with(t, playlist_ending()) {
                lemma_full_url_ends_with_path(base, t);
                lemma_ends_with_trans(full_url(base, t), t, playlist_ending());
            }
        }
    }
}

/// The line, once trimmed, is no comment and ends with `.ts`: it names a segment.
pub open spec fn is_segment_line(line: Seq<char>) -> bool {
    let t = strip(line, Strip::WhiteSpace);
    !starts_with(t, comment_mark()) && ends_with(t, segment_ending())
}

/// The segment path a line names: the line trimmed, without the quotes at its ends.
pub open spec fn segment_path_of(line: Seq<char>) -> Seq<char> {
    strip(strip(line, Strip::WhiteSpace), Strip::Quote)
}

/// The URL and line number of a segment entry.
pub open spec fn segment_of(e: EntryView) -> Option<(Seq<char>, usize)> {
    match e {
        EntryView::Segment(u, k) => Some((u, k)),
        EntryView::Playlist(_) => None,
    }
}

/// The desktop reader lists exactly one segment for each line that names one, with that
/// line's number and the full URL of its path, and none for any other line; its segments
/// come in line order. A line whose path already starts with `http://` or `https://`
/// gives a segment with that very URL.
pub proof fn lemma_entries_list_each_segment_line(base: Seq<char>, ls: Seq<Seq<char>>)
    requires
        ls.len() <= usize::MAX,
    ensures
        ({
            let es = entries_of(base, ls);
            &&& forall|k: int| 0 <= k < ls.len() && is_segment_line(#[trigger] ls[k]) ==> exists|i: int|
                0 <= i < es.len() && segment_of(#[trigger] es[i]) == Some(
                    (full_url(base, segment_path_of(ls[k])), k as usize),
                )
            &&& forall|i: int| 0 <= i < es.len() && (#[trigger] segment_of(es[i])) is Some ==> {
                let (u, k) = segment_of(es[i])->0;
                &&& k < ls.len()
                &&& is_segment_line(ls[k as int])
                &&& u == full_url(base, segment_path_of(ls[k as int]))
            }
            &&& forall|i: int, j: int|
                0 <= i < j < es.len() && (#[trigger] segment_of(es[i])) is Some && (#[trigger] segment_of(
                    es[j],
                )) is Some ==> (segment_of(es[i])->0).1 < (segment_of(es[j])->0).1
        }),
        forall|line: Seq<char>|
            is_segment_line(line) && is_absolute(#[trigger] segment_path_of(line)) ==> full_url(
                base,
                segment_path_of(line),
            ) == segment_path_of(line),
    decreases ls.len(),
{
    if ls.len() > 0 {
        let front = ls.drop_last();
        lemma_entries_list_each_segment_line(base, front);
        let ef = entries_of(base, front);
        let es = entries_of(base, ls);
        let n = ls.len();
        let last = ls.last();
        assert(last == ls[n - 1]);
        assert forall|i: int| 0 <= i < ef.len() && (#[trigger] segment_of(ef[i])) is Some implies (segment_of(
            ef[i],
        )->0).1 < n - 1 && ls[(segment_of(ef[i])->0).1 as int] == front[(segment_of(ef[i])->0).1 as int] by {}
        match entry_of(base, last, (n - 1) as usize) {
            Some(e) => {
                assert(es == ef.push(e));
                assert forall|i: int| 0 <= i < ef.len() implies #[trigger] es[i] == ef[i] by {}
                assert(es[es.len() - 1] == e);
            },
            None => {
                assert(es == ef);
            },
        }
        assert forall|k: int| 0 <= k < ls.len() && is_segment_line(#[trigger] ls[k]) implies exists|i: int|
            0 <= i < es.len() && segment_of(#[trigger] es[i]) == Some(
                (full_url(base, segment_path_of(ls[k])), k as usize),
            ) by {
            if k < n - 1 {
                assert(front[k] == ls[k]);
                let i = choose|i: int|
                    0 <= i < ef.len() && segment_of(#[trigger] ef[i]) == Some(
                        (full_url(base, segment_path_of(front[k])), k as usize),
                    );
                assert(es[i] == ef[i]);
            } else {
                assert(es[es.len() - 1] == EntryView::Segment(
                    full_url(base, segment_path_of(last)),
                    (n - 1) as usize,
                ));
            }
        }
    }
    assert forall|line: Seq<char>|
        is_segment_line(line) && is_absolute(#[trigger] segment_path_of(line)) implies full_url(
        base,
        segment_path_of(line),
    ) == segment_path_of(line) by {
        lemma_absolute_path_unchanged(base, segment_path_of(line));
    }
}

/// The views of a list of entries.
pub open spec fn entry_views(es: Seq<PlaylistEntry>) -> Seq<EntryView> {
    es.map_values(|e: PlaylistEntry| e@)
}

impl M3U8Parser {
    /// A reader for playlists whose relative paths are taken against `base_url`.
    pub fn new(base_url: &str) -> (r: M3U8Parser)
        ensures
            r.base_url@ == base_url@,
    {
        M3U8Parser { base_url: base_url.to_owned() }
    }

    /// The full URL of a path found in the playlist.
    pub fn make_full_url(&self, ts_url: &str) -> (r: String)
        ensures
            r@ == full_url(self.base_url@, ts_url@),
    {
        join_url(self.base_url.as_str(), ts_url)
    }

    /// What one playlist line names.
    fn entry_for_line(&self, cs: &Vec<char>, a: usize, b: usize, index: usize) -> (r: Option<
        PlaylistEntry,
    >)
        requires
            a <= b <= cs@.len(),
        ensures
            match r {
                Some(e) => entry_of(self.base_url@, cs@.subrange(a as int, b as int), index)
                    == Some(e@),
                None => entry_of(self.base_url@, cs@.subrange(a as int, b as int), index) is None,
            },
    {
        let (ta, tb) = strip_range(cs, a, b, Strip::WhiteSpace);
        let t = chars_range(cs, ta, tb);
        assert(['#']@ =~= comment_mark());
        if has_prefix(&t, &['#']) {
            return None;
        }
        assert(['.', 't', 's']@ =~= segment_ending());
        assert(['.', 'm', '3', 'u', '8']@ =~= playlist_ending());
        if has_suffix(&t, &['.', 't', 's']) {
            let (qa, qb) = strip_range(&t, 0, t.len(), Strip::Quote);
            assert(t@.subrange(0, t@.len() as int) =~= t@);
            let path = string_of_range(&t, qa, qb);
            let url = self.make_full_url(path.as_str());
            Some(PlaylistEntry::Segment(TsSegment { url, index }))
        } else if has_suffix(&t, &['.', 'm', '3', 'u', '8']) {
            let path = string_of_range(&t, 0, t.len());
            assert(t@.subrange(0, t@.len() as int) =~= t@);
            let url = self.make_full_url(path.as_str());
            Some(PlaylistEntry::Playlist(url))
        } else {
            None
        }
    }

    /// The segments and nested playlists that `content` names, in line order.
    pub fn entries(&self, content: &str) -> (r: Vec<PlaylistEntry>)
        ensures
            entry_views(r@) == entries_of(self.base_url@, lines(content@)),
    {
        let cs = chars_of(content);
        let ranges = line_ranges(&cs);
        let ghost ls = lines(content@);
        let mut out: Vec<PlaylistEntry> = Vec::new();
        let mut k: usize = 0;
        while k < ranges.len()
            invariant
                k <= ranges@.len(),
                forall|i: int| 0 <= i < ranges@.len() ==> (#[trigger] ranges@[i]).0 <= ranges@[i].1 <= cs@.len(),
                slices(cs@, ranges@) == ls,
                ls == lines(content@),
                entry_views(out@) == entries_of(self.base_url@, ls.take(k as int)),
            decreases ranges@.len() - k,
        {
            let (a, b) = ranges[k];
            assert(cs@.subrange(a as int, b as int) == ls[k as int]);
            let ghost taken = ls.take(k + 1);
            assert(taken.drop_last() =~= ls.take(k as int));
            assert(taken.last() == ls[k as int]);
            let ghost before = entry_views(out@);
            match self.entry_for_line(&cs, a, b, k) {
                Some(e) => {
                    out.push(e);
                    assert(entry_views(out@) =~= before.push(e@));
                },
                None => {},
            }
            k = k + 1;
        }
        assert(ls.take(k as int) =~= ls);
        out
    }
}

/// The segments of a playlist once its nested playlists are read: each segment entry in
/// its place, and in the place of each nested playlist the segments read from it
/// (`nested` holds one list per entry; those of segment entries are not used).
pub open spec fn assembled(es: Seq<EntryView>, nested: Seq<Seq<(Seq<char>, usize)>>) -> Seq<
    (Seq<char>, usize),
>
    decreases es.len(),
{
    if es.len() == 0 || nested.len() == 0 {
        Seq::empty()
    } else {
        let head = match es[0] {
            EntryView::Segment(u, i) => seq![(u, i)],
            EntryView::Playlist(_) => nested[0],
        };
        head + assembled(es.drop_first(), nested.drop_first())
    }
}

/// What one entry contributes to the assembled list: a segment entry its segment, a nested
/// playlist entry the whole list read from it.
pub open spec fn entry_piece(e: EntryView, read: Seq<(Seq<char>, usize)>) -> Seq<(Seq<char>, usize)> {
    match e {
        EntryView::Segment(u, i) => seq![(u, i)],
        EntryView::Playlist(_) => read,
    }
}

/// The contributions of the entries, in entry order.
pub open spec fn entry_pieces(es: Seq<EntryView>, nested: Seq<Seq<(Seq<char>, usize)>>) -> Seq<
    Seq<(Seq<char>, usize)>,
> {
    Seq::new(es.len(), |i: int| entry_piece(es[i], nested[i]))
}

/// The summed lengths of lists.
pub open spec fn total_len(p: Seq<Seq<(Seq<char>, usize)>>) -> nat
    decreases p.len(),
{
    if p.len() == 0 {
        0
    } else {
        p[0].len() + total_len(p.drop_first())
    }
}

proof fn lemma_flatten_len(p: Seq<Seq<(Seq<char>, usize)>>)
    ensures
        p.flatten().len() == total_len(p),
    decreases p.len(),
{
    if p.len() > 0 {
        lemma_flatten_len(p.drop_first());
    }
}

/// The assembled list is the contributions of the entries joined in entry order: one
/// segment for each segment entry, and the whole list read from each nested playlist in
/// its place. So a single nested playlist gives exactly the list read from it, and the
/// length is the number of segment entries plus the lengths of the nested lists.
pub proof fn lemma_assembled_is_pieces_in_order(
    es: Seq<EntryView>,
    nested: Seq<Seq<(Seq<char>, usize)>>,
)
    requires
        nested.len() == es.len(),
    ensures
        assembled(es, nested) == entry_pieces(es, nested).flatten(),
        es.len() == 1 && es[0] is Playlist ==> assembled(es, nested) == nested[0],
        es.len() == 1 && es[0] is Segment ==> assembled(es, nested).len() == 1,
        assembled(es, nested).len() == total_len(entry_pieces(es, nested)),
    decreases es.len(),
{
    lemma_flatten_len(entry_pieces(es, nested));
    let p = entry_pieces(es, nested);
    if es.len() > 0 {
        lemma_assembled_is_pieces_in_order(es.drop_first(), nested.drop_first());
        assert(p.drop_first() =~= entry_pieces(es.drop_first(), nested.drop_first()));
        assert(p.first() == entry_piece(es[0], nested[0]));
        if es.len() == 1 {
            assert(es.drop_first().len() == 0);
            assert(assembled(es.drop_first(), nested.drop_first()) =~= Seq::<
                (Seq<char>, usize),
            >::empty());
            assert(assembled(es, nested) =~= entry_piece(es[0], nested[0]));
        }
    } else {
        assert(p =~= Seq::<Seq<(Seq<char>, usize)>>::empty());
    }
}

/// The views of lists of segments.
pub open spec fn nested_views(nested: Seq<Vec<TsSegment>>) -> Seq<Seq<(Seq<char>, usize)>> {
    nested.map_values(|v: Vec<TsSegment>| segment_views(v@))
}

/// Puts the segments read from nested playlists in the places of those playlists.
/// `nested` holds, for each entry, the segments read from it where it is a nested
/// playlist (empty where reading it failed).
pub fn assemble(entries: Vec<PlaylistEntry>, nested: Vec<Vec<TsSegment>>) -> (r: Vec<TsSegment>)
    requires
        nested@.len() == entries@.len(),
    ensures
        segment_views(r@) == assembled(entry_views(entries@), nested_views(nested@)),
        segment_views(r@) == entry_pieces(entry_views(entries@), nested_views(nested@)).flatten(),
{
    proof {
        lemma_assembled_is_pieces_in_order(entry_views(entries@), nested_views(nested@));
    }
    let ghost all_es = entry_views(entries@);
    let ghost all_nested = nested_views(nested@);
    let mut es = entries;
    let mut ns = nested;
    let mut out: Vec<TsSegment> = Vec::new();
    while es.len() > 0
        invariant
            ns@.len() == es@.len(),
            segment_views(out@) + assembled(entry_views(es@), nested_views(ns@)) == assembled(
                all_es,
                all_nested,
            ),
        decreases es@.len(),
    {
        let ghost es_before = entry_views(es@);
        let ghost ns_before = nested_views(ns@);
        let ghost out_before = segment_views(out@);
        let e = es.remove(0);
        let mut inner = ns.remove(0);
        assert(entry_views(es@) =~= es_before.drop_first());
        assert(nested_views(ns@) =~= ns_before.drop_first());
        assert(es_before[0] == e@);
        assert(ns_before[0] == segment_views(inner@));
        match e {
            PlaylistEntry::Segment(seg) => {
                out.push(seg);
                assert(segment_views(out@) =~= out_before + seq![(seg.url@, seg.index)]);
            },
            PlaylistEntry::Playlist(_) => {
                out.append(&mut inner);
                assert(segment_views(out@) =~= out_before + ns_before[0]);
            },
        }
        assert(segment_views(out@) + assembled(entry_views(es@), nested_views(ns@)) =~= out_before
            + assembled(es_before, ns_before));
    }
    assert(assembled(entry_views(es@), nested_views(ns@)) =~= Seq::<(Seq<char>, usize)>::empty());
    assert(segment_views(out@) + Seq::<(Seq<char>, usize)>::empty() =~= segment_views(out@));
    out
}

/// How many segments the desktop downloader fetches at once, and how long one fetch may take.
#[derive(Debug)]
pub struct Downloader {
    pub concurrency: usize,
    pub timeout_seconds: u64,
}

impl Default for Downloader {
    /// Twenty fetches at once, thirty seconds each.
    fn default() -> (r: Downloader)
        ensures
            r.concurrency == 20,
            r.timeout_seconds == 30,
    {
        Downloader { concurrency: 20, timeout_seconds: 30 }
    }
}

impl Downloader {
    /// A downloader that fetches `concurrency` segments at once, thirty seconds each.
    pub fn new(concurrency: usize) -> (r: Downloader)
        ensures
            r.concurrency == concurrency,
            r.timeout_seconds == 30,
    {
        Downloader { concurrency, timeout_seconds: 30 }
    }
}

/// The paths of the segments that were saved, in segment order, skipping those that failed.
pub open spec fn saved_files(slots: Seq<Option<String>>) -> Seq<Seq<char>>
    decreases slots.len(),
{
    if slots.len() == 0 {
        Seq::empty()
    } else {
        let before = saved_files(slots.drop_last());
        match slots.last() {
            Some(p) => before.push(p@),
            None => before,
        }
    }
}

/// The slots that hold a saved segment's path, in order.
pub open spec fn filled_slots(slots: Seq<Option<String>>) -> Seq<Option<String>> {
    slots.filter(|o: Option<String>| o is Some)
}

/// The path a filled slot holds.
pub open spec fn slot_path(o: Option<String>) -> Seq<char> {
    o->0@
}

/// The saved paths are exactly those of the filled slots, in slot order: one for each
/// filled slot and no others, so their number is the number of filled slots; where every
/// slot is filled, they are the paths of all slots.
pub proof fn lemma_saved_files_are_filled_slots(slots: Seq<Option<String>>)
    ensures
        saved_files(slots) == filled_slots(slots).map_values(|o: Option<String>| slot_path(o)),
        saved_files(slots).len() == filled_slots(slots).len(),
        (forall|i: int| 0 <= i < slots.len() ==> (#[trigger] slots[i]) is Some) ==> saved_files(
            slots,
        ) == slots.map_values(|o: Option<String>| slot_path(o)),
    decreases slots.len(),
{
    reveal(Seq::filter);
    if slots.len() > 0 {
        let front = slots.drop_last();
        lemma_saved_files_are_filled_slots(front);
        let f = filled_slots(front);
        assert(filled_slots(slots) == if slots.last() is Some {
            f.push(slots.last())
        } else {
            f
        });
        if slots.last() is Some {
            assert(f.push(slots.last()).map_values(|o: Option<String>| slot_path(o)) =~= f.map_values(
                |o: Option<String>| slot_path(o),
            ).push(slot_path(slots.last())));
        }
        if forall|i: int| 0 <= i < slots.len() ==> (#[trigger] slots[i]) is Some {
            assert forall|i: int| 0 <= i < front.len() implies (#[trigger] front[i]) is Some by {
                assert(front[i] == slots[i]);
            }
            assert(slots[slots.len() - 1] is Some);
            assert(slots.map_values(|o: Option<String>| slot_path(o)) =~= front.map_values(
                |o: Option<String>| slot_path(o),
            ).push(slot_path(slots.last())));
        }
    } else {
        assert(filled_slots(slots) =~= Seq::<Option<String>>::empty());
        assert(slots.map_values(|o: Option<String>| slot_path(o)) =~= Seq::<Seq<char>>::empty());
    }
}

/// The paths of the segments that were saved, given one slot per segment in order.
pub fn collect_downloaded(slots: &Vec<Option<String>>) -> (r: Vec<String>)
    ensures
        r@.map_values(|s: String| s@) == saved_files(slots@),
        r@.map_values(|s: String| s@) == filled_slots(slots@).map_values(
            |o: Option<String>| slot_path(o),
        ),
        r@.len() == filled_slots(slots@).len(),
{
    proof {
        lemma_saved_files_are_filled_slots(slots@);
    }
    let mut out: Vec<String> = Vec::new();
    let mut i: usize = 0;
    while i < slots.len()
        invariant
            i <= slots@.len(),
            out@.map_values(|s: String| s@) == saved_files(slots@.take(i as int)),
        decreases slots@.len() - i,
    {
        let ghost taken = slots@.take(i + 1);
        assert(taken.drop_last() =~= slots@.take(i as int));
        assert(taken.last() == slots@[i as int]);
        let ghost before = out@.map_values(|s: String| s@);
        match &slots[i] {
            Some(p) => {
                out.push(p.clone());
                assert(out@.map_values(|s: String| s@) =~= before.push(p@));
            },
            None => {},
        }
        i = i + 1;
    }
    assert(slots@.take(i as int) =~= slots@);
    out
}

/// Where a desktop download stands.
#[derive(Debug, Clone, Copy, PartialEq, Eq, Structural)]
pub enum DesktopPhase {
    /// The output folder is being made ready.
    Preparing,
    /// The playlist is being fetched.
    FetchingPlaylist,
    /// The fetched playlist is being read for its segments.
    ReadingSegments,
    /// The segments are being downloaded.
    Downloading,
    /// The segments are being joined into the video.
    Merging,
    /// The download has finished or failed.
    Done,
}

/// What the last piece of outside work came to.
#[derive(Debug, Clone, Copy, PartialEq, Eq, Structural)]
pub enum DesktopEvent {
    /// The output folder exists or was made.
    DirectoryReady,
    /// The output folder could not be made.
    DirectoryFailed,
    /// The playlist's text arrived.
    PlaylistFetched,
    /// The playlist could not be fetched.
    FetchFailed,
    /// The playlist's reply could not be read as text.
    ReadFailed,
    /// The playlist was read and named this many segments.
    SegmentsRead(usize),
    /// The playlist could not be read.
    ParseFailed,
    /// This many segments were saved.
    Downloaded(usize),
    /// The segments were joined into the video.
    MergeFinished,
    /// The segments could not be joined.
    MergeFailed,
}

/// Why a desktop download failed.
#[derive(Debug, Clone, Copy, PartialEq, Eq, Structural)]
pub enum DesktopFailure {
    CreateDirectory,
    DownloadPlaylist,
    ReadPlaylist,
    ParsePlaylist,
    NoSegments,
    NoDownloads,
    Merge,
}

/// What to do next.
#[derive(Debug, Clone, Copy, PartialEq, Eq, Structural)]
pub enum DesktopAction {
    /// Fetch the playlist.
    FetchPlaylist,
    /// Read the fetched playlist for its segments.
    ReadSegments,
    /// Report `progress` percent, then download the segments, `concurrency` at once.
    Download { progress: u32, concurrency: usize },
    /// Report `progress` percent, then join the saved segments into the video.
    Merge { progress: u32 },
    /// Remove the saved segments, report `progress` percent and give the video's path.
    Finish { progress: u32 },
    /// Give up with this failure.
    Fail(DesktopFailure),
    /// The event does not belong to this phase: do nothing.
    Ignore,
}

/// The step of a desktop download: from where it stands and what the last piece of
/// outside work came to, where it goes next and what to do.
pub open spec fn desktop_step_spec(phase: DesktopPhase, event: DesktopEvent) -> (
    DesktopPhase,
    DesktopAction,
) {
    match (phase, event) {
        (DesktopPhase::Preparing, DesktopEvent::DirectoryReady) => (
            DesktopPhase::FetchingPlaylist,
            DesktopAction::FetchPlaylist,
        ),
        (DesktopPhase::Preparing, DesktopEvent::DirectoryFailed) => (
            DesktopPhase::Done,
            DesktopAction::Fail(DesktopFailure::CreateDirectory),
        ),
        (DesktopPhase::FetchingPlaylist, DesktopEvent::PlaylistFetched) => (
            DesktopPhase::ReadingSegments,
            DesktopAction::ReadSegments,
        ),
        (DesktopPhase::FetchingPlaylist, DesktopEvent::FetchFailed) => (
            DesktopPhase::Done,
            DesktopAction::Fail(DesktopFailure::DownloadPlaylist),
        ),
        (DesktopPhase::FetchingPlaylist, DesktopEvent::ReadFailed) => (
            DesktopPhase::Done,
            DesktopAction::Fail(DesktopFailure::ReadPlaylist),
        ),
        (DesktopPhase::ReadingSegments, DesktopEvent::ParseFailed) => (
            DesktopPhase::Done,
            DesktopAction::Fail(DesktopFailure::ParsePlaylist),
        ),
        (DesktopPhase::ReadingSegments, DesktopEvent::SegmentsRead(n)) => if n == 0 {
            (DesktopPhase::Done, DesktopAction::Fail(DesktopFailure::NoSegments))
        } else {
            (DesktopPhase::Downloading, DesktopAction::Download { progress: 0, concurrency: 20 })
        },
        (DesktopPhase::Downloading, DesktopEvent::Downloaded(n)) => if n == 0 {
            (DesktopPhase::Done, DesktopAction::Fail(DesktopFailure::NoDownloads))
        } else {
            (DesktopPhase::Merging, DesktopAction::Merge { progress: 90 })
        },
        (DesktopPhase::Merging, DesktopEvent::MergeFinished) => (
            DesktopPhase::Done,
            DesktopAction::Finish { progress: 100 },
        ),
        (DesktopPhase::Merging, DesktopEvent::MergeFailed) => (
            DesktopPhase::Done,
            DesktopAction::Fail(DesktopFailure::Merge),
        ),
        _ => (phase, DesktopAction::Ignore),
    }
}

/// The step of a desktop download (see `desktop_step_spec`).
pub fn desktop_step(phase: DesktopPhase, event: DesktopEvent) -> (r: (DesktopPhase, DesktopAction))
    ensures
        r == desktop_step_spec(phase, event),
        (match event {
            DesktopEvent::SegmentsRead(n) => phase == DesktopPhase::ReadingSegments ==> {
                &&& (r == (DesktopPhase::Done, DesktopAction::Fail(DesktopFailure::NoSegments))) == (
                n == 0)
                &&& n > 0 ==> r == (
                    DesktopPhase::Downloading,
                    DesktopAction::Download { progress: 0, concurrency: 20 },
                )
            },
            DesktopEvent::Downloaded(n) => phase == DesktopPhase::Downloading ==> {
                &&& (r == (DesktopPhase::Done, DesktopAction::Fail(DesktopFailure::NoDownloads)))
                    == (n == 0)
                &&& n > 0 ==> r == (DesktopPhase::Merging, DesktopAction::Merge { progress: 90 })
            },
            _ => true,
        }),
{
    match (phase, event) {
        (DesktopPhase::Preparing, DesktopEvent::DirectoryReady) => (
            DesktopPhase::FetchingPlaylist,
            DesktopAction::FetchPlaylist,
        ),
        (DesktopPhase::Preparing, DesktopEvent::DirectoryFailed) => (
            DesktopPhase::Done,
            DesktopAction::Fail(DesktopFailure::CreateDirectory),
        ),
        (DesktopPhase::FetchingPlaylist, DesktopEvent::PlaylistFetched) => (
            DesktopPhase::ReadingSegments,
            DesktopAction::ReadSegments,
        ),
        (DesktopPhase::FetchingPlaylist, DesktopEvent::FetchFailed) => (
            DesktopPhase::Done,
            DesktopAction::Fail(DesktopFailure::DownloadPlaylist),
        ),
        (DesktopPhase::FetchingPlaylist, DesktopEvent::ReadFailed) => (
            DesktopPhase::Done,
            DesktopAction::Fail(DesktopFailure::ReadPlaylist),
        ),
        (DesktopPhase::ReadingSegments, DesktopEvent::ParseFailed) => (
            DesktopPhase::Done,
            DesktopAction::Fail(DesktopFailure::ParsePlaylist),
        ),
        (DesktopPhase::ReadingSegments, DesktopEvent::SegmentsRead(n)) => if n == 0 {
            (DesktopPhase::Done, DesktopAction::Fail(DesktopFailure::NoSegments))
        } else {
            (DesktopPhase::Downloading, DesktopAction::Download { progress: 0, concurrency: 20 })
        },
        (DesktopPhase::Downloading, DesktopEvent::Downloaded(n)) => if n == 0 {
            (DesktopPhase::Done, DesktopAction::Fail(DesktopFailure::NoDownloads))
        } else {
            (DesktopPhase::Merging, DesktopAction::Merge { progress: 90 })
        },
        (DesktopPhase::Merging, DesktopEvent::MergeFinished) => (
            DesktopPhase::Done,
            DesktopAction::Finish { progress: 100 },
        ),
        (DesktopPhase::Merging, DesktopEvent::MergeFailed) => (
            DesktopPhase::Done,
            DesktopAction::Fail(DesktopFailure::Merge),
        ),
        _ => (phase, DesktopAction::Ignore),
    }
}

/// A download fails for want of segments exactly when the playlist names none, and
/// otherwise starts downloading, twenty at once, reporting 0; it fails for want of saved
/// segments exactly when none was saved, and otherwise starts merging, reporting 90.
pub proof fn lemma_desktop_counts_decide()
    ensures
        forall|n: usize|
            (#[trigger] desktop_step_spec(
                DesktopPhase::ReadingSegments,
                DesktopEvent::SegmentsRead(n),
            ) == (DesktopPhase::Done, DesktopAction::Fail(DesktopFailure::NoSegments))) <==> n == 0,
        forall|n: usize|
            n > 0 ==> #[trigger] desktop_step_spec(
                DesktopPhase::ReadingSegments,
                DesktopEvent::SegmentsRead(n),
            ) == (DesktopPhase::Downloading, DesktopAction::Download { progress: 0, concurrency: 20 }),
        forall|n: usize|
            (#[trigger] desktop_step_spec(DesktopPhase::Downloading, DesktopEvent::Downloaded(n)) == (
                DesktopPhase::Done,
                DesktopAction::Fail(DesktopFailure::NoDownloads),
            )) <==> n == 0,
        forall|n: usize|
            n > 0 ==> #[trigger] desktop_step_spec(
                DesktopPhase::Downloading,
                DesktopEvent::Downloaded(n),
            ) == (DesktopPhase::Merging, DesktopAction::Merge { progress: 90 }),
{
}

/// The order of the phases.
pub open spec fn phase_rank(p: DesktopPhase) -> int {
    match p {
        DesktopPhase::Preparing => 0,
        DesktopPhase::FetchingPlaylist => 1,
        DesktopPhase::ReadingSegments => 2,
        DesktopPhase::Downloading => 3,
        DesktopPhase::Merging => 4,
        DesktopPhase::Done => 5,
    }
}

/// A desktop download never goes back a phase; it ends exactly when a step fails or
/// finishes it; once done, nothing moves it; and the progress it reports rises: 0 when
/// the download starts, 90 when the merge starts, 100 at the end.
pub proof fn lemma_desktop_step_laws(phase: DesktopPhase, event: DesktopEvent)
    ensures
        ({
            let (next, action) = desktop_step_spec(phase, event);
            &&& phase_rank(phase) <= phase_rank(next)
            &&& (phase != DesktopPhase::Done && next == DesktopPhase::Done) <==> (
            action is Fail || action is Finish)
            &&& phase == DesktopPhase::Done ==> next == DesktopPhase::Done && action
                == DesktopAction::Ignore
            &&& action matches DesktopAction::Download { progress, .. } ==> progress == 0
                && next == DesktopPhase::Downloading
            &&& action matches DesktopAction::Merge { progress } ==> progress == 90 && next
                == DesktopPhase::Merging
            &&& action matches DesktopAction::Finish { progress } ==> progress == 100
        }),
{
}

/// The actions a desktop download takes from `phase` when the outside work comes to
/// `events`, one step per event.
pub open spec fn run_actions(phase: DesktopPhase, events: Seq<DesktopEvent>) -> Seq<DesktopAction>
    decreases events.len(),
{
    if events.len() == 0 {
        Seq::empty()
    } else {
        let (next, action) = desktop_step_spec(phase, events[0]);
        seq![action] + run_actions(next, events.drop_first())
    }
}

/// The progress an action reports, if it reports any.
pub open spec fn reported_progress(action: DesktopAction) -> Option<u32> {
    match action {
        DesktopAction::Download { progress, .. } => Some(progress),
        DesktopAction::Merge { progress } => Some(progress),
        DesktopAction::Finish { progress } => Some(progress),
        _ => None,
    }
}

/// The action ends the download.
pub open spec fn ends_download(action: DesktopAction) -> bool {
    action is Fail || action is Finish
}

/// The progress reported so far by the time a download stands in `phase`.
pub open spec fn progress_floor(phase: DesktopPhase) -> int {
    match phase {
        DesktopPhase::Downloading => 0,
        DesktopPhase::Merging => 90,
        DesktopPhase::Done => 100,
        _ => -1,
    }
}

/// Over a whole run of a desktop download, whatever the outside work comes to: the
/// progress reported rises strictly from one report to the next (so 0, 90 and 100 come at
/// most once each and in that order), each above what was reported before the run; 100
/// is reported only by the step that finishes the download; and once a step fails or
/// finishes the download, every later step does nothing.
pub proof fn lemma_desktop_run_laws(phase: DesktopPhase, events: Seq<DesktopEvent>)
    ensures
        ({
            let acts = run_actions(phase, events);
            &&& forall|i: int| 0 <= i < acts.len() && (#[trigger] reported_progress(acts[i])) is Some
                ==> reported_progress(acts[i])->0 > progress_floor(phase)
            &&& forall|i: int, j: int|
                0 <= i < j < acts.len() && (#[trigger] reported_progress(acts[i])) is Some
                    && (#[trigger] reported_progress(acts[j])) is Some ==> reported_progress(
                    acts[i],
                )->0 < reported_progress(acts[j])->0
            &&& forall|i: int| 0 <= i < acts.len() && (#[trigger] reported_progress(acts[i]))
                == Some(100u32) ==> acts[i] is Finish
            &&& forall|i: int, j: int|
                0 <= i < j < acts.len() && ends_download(#[trigger] acts[i]) ==> (#[trigger] acts[j])
                    == DesktopAction::Ignore
            &&& phase == DesktopPhase::Done ==> forall|i: int|
                0 <= i < acts.len() ==> #[trigger] acts[i] == DesktopAction::Ignore
        }),
    decreases events.len(),
{
    if events.len() > 0 {
        let (next, action) = desktop_step_spec(phase, events[0]);
        let rest = run_actions(next, events.drop_first());
        let acts = run_actions(phase, events);
        lemma_desktop_run_laws(next, events.drop_first());
        assert(acts == seq![action] + rest);
        assert(progress_floor(phase) <= progress_floor(next));
        assert(reported_progress(action) matches Some(p) ==> p > progress_floor(phase) && p
            == progress_floor(next));
        assert(ends_download(action) ==> next == DesktopPhase::Done);
        assert forall|i: int| 0 < i < acts.len() implies #[trigger] acts[i] == rest[i - 1] by {}
        assert forall|i: int| 0 <= i < acts.len() && (#[trigger] reported_progress(acts[i])) is Some
            implies reported_progress(acts[i])->0 > progress_floor(phase) by {
            if i > 0 {
                assert(acts[i] == rest[i - 1]);
                assert(reported_progress(rest[i - 1]) is Some);
            }
        }
        assert forall|i: int, j: int|
            0 <= i < j < acts.len() && (#[trigger] reported_progress(acts[i])) is Some
                && (#[trigger] reported_progress(acts[j])) is Some implies reported_progress(
            acts[i],
        )->0 < reported_progress(acts[j])->0 by {
            assert(acts[j] == rest[j - 1]);
            assert(reported_progress(rest[j - 1]) is Some);
            if i > 0 {
                assert(acts[i] == rest[i - 1]);
                assert(reported_progress(rest[i - 1]) is Some);
            }
        }
        assert forall|i: int| 0 <= i < acts.len() && (#[trigger] reported_progress(acts[i]))
            == Some(100u32) implies acts[i] is Finish by {
            if i > 0 {
                assert(acts[i] == rest[i - 1]);
                assert(reported_progress(rest[i - 1]) == Some(100u32));
            }
        }
        assert forall|i: int, j: int|
            0 <= i < j < acts.len() && ends_download(#[trigger] acts[i]) implies (#[trigger] acts[j])
            == DesktopAction::Ignore by {
            assert(acts[j] == rest[j - 1]);
            if i > 0 {
                assert(acts[i] == rest[i - 1]);
            }
        }
    }
}

/// The message a failed desktop download is answered with; `detail` is the cause's own
/// message, where the failure has one.
pub open spec fn failure_text_of(failure: DesktopFailure, detail: Seq<char>) -> Seq<char> {
    match failure {
        DesktopFailure::CreateDirectory => "Failed to create output directory: "@ + detail,
        DesktopFailure::DownloadPlaylist => "Failed to download M3U8 file: "@ + detail,
        DesktopFailure::ReadPlaylist => "Failed to read M3U8 content: "@ + detail,
        DesktopFailure::ParsePlaylist => "Failed to parse M3U8 file: "@ + detail,
        DesktopFailure::NoSegments => "No TS segments found in M3U8 file"@,
        DesktopFailure::NoDownloads => "Failed to download any TS segments"@,
        DesktopFailure::Merge => "Failed to merge TS segments: "@ + detail,
    }
}

/// The message a failed desktop download is answered with.
pub fn failure_text(failure: DesktopFailure, detail: &str) -> (r: String)
    ensures
        r@ == failure_text_of(failure, detail@),
{
    let mut m = match failure {
        DesktopFailure::CreateDirectory => "Failed to create output directory: ".to_owned(),
        DesktopFailure::DownloadPlaylist => "Failed to download M3U8 file: ".to_owned(),
        DesktopFailure::ReadPlaylist => "Failed to read M3U8 content: ".to_owned(),
        DesktopFailure::ParsePlaylist => "Failed to parse M3U8 file: ".to_owned(),
        DesktopFailure::NoSegments => {
            return "No TS segments found in M3U8 file".to_owned();
        },
        DesktopFailure::NoDownloads => {
            return "Failed to download any TS segments".to_owned();
        },
        DesktopFailure::Merge => "Failed to merge TS segments: ".to_owned(),
    };
    m.append(detail);
    m
}

/// The name of the finished video: the name chosen for it and `.mp4`.
pub fn output_file_name(file_name: &str) -> (r: String)
    ensures
        r@ == file_name@ + ".mp4"@,
{
    let mut n = file_name.to_owned();
    n.append(".mp4");
    n
}

} // verus!
