use m3u8::desktop;
use m3u8::desktop::{
    desktop_step, failure_text, DesktopAction as A, DesktopEvent as E, DesktopFailure as F,
    DesktopPhase as P,
};
use m3u8::playlist::TsSegment;
use m3u8::downloader::{segment_file_name, settle_download, Downloader};

#[test]
fn downloader_defaults_and_new() {
    let d = Downloader::default();
    assert_eq!(d.concurrency, 20);
    assert_eq!(d.timeout_seconds, 30);
    let d = Downloader::new(4, 9);
    assert_eq!(d.concurrency, 4);
    assert_eq!(d.timeout_seconds, 9);
    let d = desktop::Downloader::new(7);
    assert_eq!(d.concurrency, 7);
    assert_eq!(d.timeout_seconds, 30);
    let d = desktop::Downloader::default();
    assert_eq!(d.concurrency, 20);
    assert_eq!(d.timeout_seconds, 30);
}

#[test]
fn segment_file_names() {
    assert_eq!(segment_file_name(0), "segment_000000.ts");
    assert_eq!(segment_file_name(42), "segment_000042.ts");
    assert_eq!(segment_file_name(123456), "segment_123456.ts");
    assert_eq!(segment_file_name(1234567), "segment_1234567.ts");
    for i in [0usize, 9, 10, 99, 100, 999_999, 1_000_000, usize::MAX] {
        assert_eq!(segment_file_name(i), format!("segment_{:06}.ts", i));
    }
}

#[test]
fn segment_file_names_differ() {
    assert_ne!(segment_file_name(1), segment_file_name(10));
    assert_ne!(segment_file_name(999_999), segment_file_name(9_999_990));
}

#[test]
fn settle_download_outcomes() {
    assert_eq!(settle_download(Some(Ok::<String, &str>("p".to_string())), "late"), Ok("p".to_string()));
    assert_eq!(settle_download(Some(Err::<String, &str>("net")), "late"), Err("net"));
    assert_eq!(settle_download(None::<Result<String, &str>>, "late"), Err("late"));
}

#[test]
fn collect_downloaded_keeps_order() {
    let slots = vec![Some("a".to_string()), None, Some("c".to_string())];
    assert_eq!(desktop::collect_downloaded(&slots), vec!["a".to_string(), "c".to_string()]);
    assert!(desktop::collect_downloaded(&vec![None, None]).is_empty());
}

#[test]
fn desktop_output_name() {
    assert_eq!(desktop::output_file_name("movie"), "movie.mp4");
}

#[test]
fn desktop_entries() {
    let parser = desktop::M3U8Parser::new("https://example.com/list.m3u8");
    let content = "#EXTM3U\n  \"seg1.ts  \nsub/variant.m3u8\n# seg.ts\nreadme.txt\n/abs.ts\n\"quoted.ts\"";
    let entries = parser.entries(content);
    assert_eq!(entries.len(), 3);
    match &entries[0] {
        desktop::PlaylistEntry::Segment(s) => {
            assert_eq!(s.url, "https://example.com/list.m3u8/seg1.ts");
            assert_eq!(s.index, 1);
        }
        _ => panic!("expected a segment"),
    }
    match &entries[1] {
        desktop::PlaylistEntry::Playlist(u) => {
            assert_eq!(u, "https://example.com/list.m3u8/sub/variant.m3u8")
        }
        _ => panic!("expected a playlist"),
    }
    match &entries[2] {
        desktop::PlaylistEntry::Segment(s) => {
            assert_eq!(s.url, "https://example.com/abs.ts");
            assert_eq!(s.index, 5);
        }
        _ => panic!("expected a segment"),
    }
}

#[test]
fn desktop_make_full_url() {
    let parser = desktop::M3U8Parser::new("http://h/p/");
    assert_eq!(parser.make_full_url("q.ts"), "http://h/p/q.ts");
}

#[test]
fn assemble_puts_nested_segments_in_place() {
    let seg = |u: &str, i: usize| TsSegment { url: u.to_string(), index: i };
    let entries = vec![
        desktop::PlaylistEntry::Segment(seg("a", 0)),
        desktop::PlaylistEntry::Playlist("sub.m3u8".to_string()),
        desktop::PlaylistEntry::Segment(seg("c", 2)),
        desktop::PlaylistEntry::Playlist("gone.m3u8".to_string()),
    ];
    let nested = vec![vec![], vec![seg("s0", 1), seg("s1", 3)], vec![], vec![]];
    let all = desktop::assemble(entries, nested);
    let got: Vec<(String, usize)> = all.into_iter().map(|s| (s.url, s.index)).collect();
    assert_eq!(
        got,
        vec![("a".to_string(), 0), ("s0".to_string(), 1), ("s1".to_string(), 3), ("c".to_string(), 2)]
    );
}

#[test]
fn desktop_steps_through_a_download() {
    assert_eq!(desktop_step(P::Preparing, E::DirectoryReady), (P::FetchingPlaylist, A::FetchPlaylist));
    assert_eq!(desktop_step(P::FetchingPlaylist, E::PlaylistFetched), (P::ReadingSegments, A::ReadSegments));
    assert_eq!(
        desktop_step(P::ReadingSegments, E::SegmentsRead(3)),
        (P::Downloading, A::Download { progress: 0, concurrency: 20 })
    );
    assert_eq!(desktop_step(P::Downloading, E::Downloaded(2)), (P::Merging, A::Merge { progress: 90 }));
    assert_eq!(desktop_step(P::Merging, E::MergeFinished), (P::Done, A::Finish { progress: 100 }));
    assert_eq!(desktop_step(P::Done, E::MergeFinished), (P::Done, A::Ignore));
}

#[test]
fn desktop_failures() {
    assert_eq!(desktop_step(P::Preparing, E::DirectoryFailed), (P::Done, A::Fail(F::CreateDirectory)));
    assert_eq!(desktop_step(P::FetchingPlaylist, E::FetchFailed), (P::Done, A::Fail(F::DownloadPlaylist)));
    assert_eq!(desktop_step(P::FetchingPlaylist, E::ReadFailed), (P::Done, A::Fail(F::ReadPlaylist)));
    assert_eq!(desktop_step(P::ReadingSegments, E::ParseFailed), (P::Done, A::Fail(F::ParsePlaylist)));
    assert_eq!(desktop_step(P::ReadingSegments, E::SegmentsRead(0)), (P::Done, A::Fail(F::NoSegments)));
    assert_eq!(desktop_step(P::Downloading, E::Downloaded(0)), (P::Done, A::Fail(F::NoDownloads)));
    assert_eq!(desktop_step(P::Merging, E::MergeFailed), (P::Done, A::Fail(F::Merge)));
    assert_eq!(failure_text(F::CreateDirectory, "denied"), "Failed to create output directory: denied");
    assert_eq!(failure_text(F::DownloadPlaylist, "dns"), "Failed to download M3U8 file: dns");
    assert_eq!(failure_text(F::ReadPlaylist, "x"), "Failed to read M3U8 content: x");
    assert_eq!(failure_text(F::ParsePlaylist, "y"), "Failed to parse M3U8 file: y");
    assert_eq!(failure_text(F::NoSegments, "ignored"), "No TS segments found in M3U8 file");
    assert_eq!(failure_text(F::NoDownloads, ""), "Failed to download any TS segments");
    assert_eq!(failure_text(F::Merge, "z"), "Failed to merge TS segments: z");
}

#[test]
fn desktop_run_reports_rising_progress() {
    let events = [
        E::DirectoryReady,
        E::PlaylistFetched,
        E::SegmentsRead(4),
        E::Downloaded(4),
        E::MergeFinished,
        E::MergeFinished,
        E::DirectoryReady,
    ];
    let mut phase = P::Preparing;
    let mut reported = Vec::new();
    let mut actions = Vec::new();
    for e in events {
        let (next, action) = desktop_step(phase, e);
        phase = next;
        match action {
            A::Download { progress, .. } | A::Merge { progress } | A::Finish { progress } => {
                reported.push(progress)
            }
            _ => {}
        }
        actions.push(action);
    }
    assert_eq!(reported, vec![0, 90, 100]);
    assert_eq!(actions[4], A::Finish { progress: 100 });
    assert_eq!(actions[5], A::Ignore);
    assert_eq!(actions[6], A::Ignore);
}
