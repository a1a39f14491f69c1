use m3u8::cli::{base_url_of, check_output_name, tally, OutputNameError};
use m3u8::ffmpeg::{failure_message, merge_args, FFmpegMerger, FILE_LIST_NAME};
use m3u8::proxy::{build_target_uri, error_reply, forward_headers, target_uri_text, ProxyFailure};

#[test]
fn base_url_is_up_to_last_slash() {
    assert_eq!(base_url_of("https://a.com/v/index.m3u8"), "https://a.com/v");
    assert_eq!(base_url_of("index.m3u8"), "index.m3u8");
    assert_eq!(base_url_of("https://a.com/"), "https://a.com");
}

#[test]
fn output_name_checks() {
    assert_eq!(check_output_name(""), Err(OutputNameError::Empty));
    assert_eq!(check_output_name("movie"), Err(OutputNameError::NoExtension));
    assert_eq!(check_output_name("movie.mp4"), Ok(()));
}

#[test]
fn tally_counts_each_result() {
    let results: Vec<(usize, Result<String, String>)> = vec![
        (1, Ok("b".to_string())),
        (0, Err("x".to_string())),
        (2, Ok("c".to_string())),
    ];
    let (ok, failed) = tally(&results);
    assert_eq!(ok, vec!["b".to_string(), "c".to_string()]);
    assert_eq!(failed, 1);
    assert_eq!(ok.len() + failed, results.len());
}

#[test]
fn merger_settings() {
    assert_eq!(FFmpegMerger::default().ffmpeg_path, "ffmpeg");
    assert_eq!(FFmpegMerger::new("/usr/bin/ffmpeg").ffmpeg_path, "/usr/bin/ffmpeg");
    assert_eq!(FILE_LIST_NAME, "filelist.txt");
}

#[test]
fn file_list_content_lines() {
    let m = FFmpegMerger::default();
    let files = vec!["a.ts".to_string(), "dir/b.ts".to_string()];
    let text = m.file_list_content(&files);
    assert_eq!(text, "file 'a.ts'\nfile 'dir/b.ts'");
    assert_eq!(text.lines().count(), files.len());
    assert_eq!(m.file_list_content(&[]), "");
}

#[test]
fn merge_arguments() {
    let args = merge_args("filelist.txt", "out.mp4");
    assert_eq!(
        args,
        vec!["-y", "-f", "concat", "-safe", "0", "-i", "filelist.txt", "-c", "copy", "out.mp4"]
    );
    assert_eq!(failure_message("boom"), "FFmpeg error: boom");
}

#[test]
fn target_uri() {
    assert_eq!(target_uri_text("example.com:80", Some("/a?b=1")), "http://example.com:80/a?b=1");
    assert_eq!(target_uri_text("example.com:80", None), "http://example.com:80");
    let built = build_target_uri("example.com:80", Some("/a/b?x=1")).unwrap();
    assert_eq!(built.uri().to_string(), "http://example.com:80/a/b?x=1");
    assert_eq!(built.uri().host(), Some("example.com"));
    assert_eq!(built.uri().port_u16(), Some(80));
    let bare = build_target_uri("example.com:80", None).unwrap();
    assert_eq!(bare.into_uri().authority().unwrap().as_str(), "example.com:80");
    let bad = build_target_uri("exa mple.com", Some("/"));
    assert!(bad.is_err());
    assert!(!bad.unwrap_err().is_empty());
}

#[test]
fn headers_forwarded_without_host() {
    let headers = vec![
        ("accept".to_string(), 1),
        ("host".to_string(), 2),
        ("user-agent".to_string(), 3),
        ("host".to_string(), 4),
    ];
    let out = forward_headers(headers, 9);
    assert_eq!(
        out,
        vec![("accept".to_string(), 1), ("user-agent".to_string(), 3), ("host".to_string(), 9)]
    );
}

#[test]
fn error_replies() {
    assert_eq!(
        error_reply(&ProxyFailure::BadTarget("x".to_string())),
        (400, "Bad Request: x".to_string())
    );
    assert_eq!(
        error_reply(&ProxyFailure::BuildRequest("y".to_string())),
        (500, "Internal Server Error: y".to_string())
    );
    assert_eq!(
        error_reply(&ProxyFailure::Upstream("z".to_string())),
        (502, "Bad Gateway: z".to_string())
    );
}
