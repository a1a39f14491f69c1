use m3u8::playlist::{M3U8Parser, SegmentPattern, TS_SEGMENT_PATTERN};

#[test]
fn test_parse_m3u8_content() {
    let content = r#"#EXTM3U
#EXT-X-VERSION:3
#EXT-X-TARGETDURATION:10
#EXT-X-MEDIA-SEQUENCE:0
#EXTINF:10.0,
segment0.ts
#EXTINF:10.0,
segment1.ts
#EXTINF:10.0,
segment2.ts
#EXT-X-ENDLIST"#;

    let parser = M3U8Parser::new("https://example.com/video/");
    let segments = parser.parse(content).unwrap();

    assert_eq!(segments.len(), 3);
    assert_eq!(segments[0].url, "https://example.com/video/segment0.ts");
    assert_eq!(segments[1].url, "https://example.com/video/segment1.ts");
    assert_eq!(segments[2].url, "https://example.com/video/segment2.ts");
}

#[test]
fn parse_keeps_line_numbers() {
    let content = "#EXTM3U\n#EXTINF:10.0,\nsegment0.ts\n#EXTINF:10.0,\nsegment1.ts\n";
    let parser = M3U8Parser::new("https://example.com/video/");
    let segments = parser.parse(content).unwrap();
    assert_eq!(segments.len(), 2);
    assert_eq!(segments[0].index, 2);
    assert_eq!(segments[1].index, 4);
}

#[test]
fn parse_strips_quotes_and_takes_the_path() {
    let parser = M3U8Parser::new("http://cdn.test/live");
    let segments = parser.parse("URI=\"chunk-7.ts\"\r\nnothing here\r\n").unwrap();
    assert_eq!(segments.len(), 1);
    assert_eq!(segments[0].url, "http://cdn.test/live/chunk-7.ts");
    assert_eq!(segments[0].index, 0);
}

#[test]
fn parse_of_empty_playlist_is_empty() {
    let parser = M3U8Parser::new("https://example.com/");
    assert!(parser.parse("").unwrap().is_empty());
    assert!(parser.parse("#EXTM3U\n#EXT-X-ENDLIST\n").unwrap().is_empty());
}

#[test]
fn parse_with_absolute_and_rooted_paths() {
    let parser = M3U8Parser::new("https://example.com/video/index");
    let content = "https://other.net/a.ts\n/seg/b.ts\nc.ts";
    let segments = parser.parse(content).unwrap();
    assert_eq!(segments.len(), 3);
    assert_eq!(segments[0].url, "https://other.net/a.ts");
    assert_eq!(segments[1].url, "https://example.com/seg/b.ts");
    assert_eq!(segments[2].url, "https://example.com/video/index/c.ts");
    assert_eq!(segments[2].index, 2);
}

#[test]
fn parse_with_compiled_pattern() {
    let pattern = SegmentPattern::compile(TS_SEGMENT_PATTERN).unwrap();
    let parser = M3U8Parser::new("https://h/");
    let segments = parser.parse_with(&pattern, "a.ts\nb.mp4\n\"c.ts\"");
    assert_eq!(segments.len(), 2);
    assert_eq!(segments[0].url, "https://h/a.ts");
    assert_eq!(segments[1].url, "https://h/c.ts");
    assert_eq!(segments[1].index, 2);
}

#[test]
fn invalid_pattern_is_refused() {
    assert!(SegmentPattern::compile("(unclosed").is_err());
}

#[test]
fn collect_segments_from_found_paths() {
    let parser = M3U8Parser::new("https://example.com/video/");
    let found = vec![None, Some("s0.ts".to_string()), None, Some("/x/s1.ts".to_string())];
    let segments = parser.collect_segments(&found);
    assert_eq!(segments.len(), 2);
    assert_eq!(segments[0].url, "https://example.com/video/s0.ts");
    assert_eq!(segments[0].index, 1);
    assert_eq!(segments[1].url, "https://example.com/x/s1.ts");
    assert_eq!(segments[1].index, 3);
}

#[test]
fn make_full_url_cases() {
    let with_slash = M3U8Parser::new("https://example.com/video/");
    assert_eq!(with_slash.make_full_url("a.ts"), "https://example.com/video/a.ts");
    assert_eq!(with_slash.make_full_url("http://x.org/a.ts"), "http://x.org/a.ts");
    assert_eq!(with_slash.make_full_url("/root/a.ts"), "https://example.com/root/a.ts");
    let without_slash = M3U8Parser::new("https://example.com/video");
    assert_eq!(without_slash.make_full_url("a.ts"), "https://example.com/video/a.ts");
    let no_scheme = M3U8Parser::new("example.com/video");
    assert_eq!(no_scheme.make_full_url("/a.ts"), "example.com/video/a.ts");
    let odd = M3U8Parser::new("ftp://a://b/c");
    assert_eq!(odd.make_full_url("/x.ts"), "ftp://a/x.ts");
}

#[test]
fn make_full_url_twice_changes_nothing() {
    let parser = M3U8Parser::new("https://example.com/video/");
    let once = parser.make_full_url("/a/b.ts");
    assert_eq!(parser.make_full_url(&once), once);
    let once = parser.make_full_url("c.ts");
    assert_eq!(parser.make_full_url(&once), once);
}

#[test]
fn full_url_ends_with_the_path() {
    for base in ["https://example.com/v/", "example.com", "http://a://b/c", ""] {
        let parser = M3U8Parser::new(base);
        for path in ["a.ts", "/b/c.ts", "https://x/y.ts", ""] {
            assert!(parser.make_full_url(path).ends_with(path));
        }
    }
}

#[test]
fn joined_playlists_give_both_segment_lists() {
    let parser = M3U8Parser::new("https://example.com/v/");
    let a = "#EXTM3U\na.ts\nx";
    let b = "b.ts\n#c\nd.ts\n";
    let joined = parser.parse(&format!("{}\n{}", a, b)).unwrap();
    let first = parser.parse(a).unwrap();
    let second = parser.parse(b).unwrap();
    let shift = a.lines().count();
    assert_eq!(joined.len(), first.len() + second.len());
    for (j, s) in first.iter().chain(second.iter()).enumerate() {
        let expected_index = if j < first.len() { s.index } else { s.index + shift };
        assert_eq!(joined[j].url, s.url);
        assert_eq!(joined[j].index, expected_index);
    }
    assert_eq!(joined[1].index, 3);
}
