use limusic::stream_proxy::{
    chunk_end, id_from, parse_range, resolve_window, total_from_content_range, upstream_headers,
    AudioProxy, Meta, Want, CHUNK,
};

#[test]
fn only_the_right_token_and_kind_route() {
    assert_eq!(id_from("/abc/a/deadbeef", "abc"), Some("deadbeef"));
    assert_eq!(id_from("/wrong/a/deadbeef", "abc"), None);
    assert_eq!(id_from("/abc/x/deadbeef", "abc"), None);
    assert_eq!(id_from("/abc/a/", "abc"), None);
    assert_eq!(id_from("/abc/a", "abc"), None);
}

#[test]
fn ranges_parse_the_ways_ffmpeg_sends_them() {
    assert_eq!(parse_range(None), Want::Full);
    assert_eq!(parse_range(Some("bytes=0-")), Want::From(0));
    assert_eq!(parse_range(Some("bytes=1234-")), Want::From(1234));
    assert_eq!(parse_range(Some("bytes=10-19")), Want::Bounded(10, 19));
    assert_eq!(parse_range(Some("bytes=0-0")), Want::Bounded(0, 0));
    assert_eq!(parse_range(Some("bytes=-500")), Want::Suffix(500));
    // Anything unusable is treated as no range.
    assert_eq!(parse_range(Some("items=0-")), Want::Full);
    assert_eq!(parse_range(Some("bytes=oops")), Want::Full);
    assert_eq!(parse_range(Some("bytes=19-10")), Want::Full);
}

#[test]
fn windows_clamp_and_reject() {
    assert_eq!(resolve_window(Want::Full, 1000), Some((0, 999)));
    assert_eq!(resolve_window(Want::From(0), 1000), Some((0, 999)));
    assert_eq!(resolve_window(Want::From(500), 1000), Some((500, 999)));
    assert_eq!(resolve_window(Want::Bounded(0, 5000), 1000), Some((0, 999)));
    assert_eq!(resolve_window(Want::Suffix(100), 1000), Some((900, 999)));
    assert_eq!(resolve_window(Want::From(1000), 1000), None);
    assert_eq!(resolve_window(Want::Suffix(0), 1000), None);
    assert_eq!(resolve_window(Want::Full, 0), None);
}

#[test]
fn chunks_tile_the_window() {
    assert_eq!(chunk_end(0, 10 * 1024 * 1024), CHUNK - 1);
    assert_eq!(chunk_end(CHUNK, 10 * 1024 * 1024), 2 * CHUNK - 1);
    // Last chunk is clamped to the window's inclusive last byte, not one before it.
    assert_eq!(chunk_end(8 * 1024 * 1024, 10 * 1024 * 1024), 10 * 1024 * 1024);
    assert_eq!(chunk_end(0, 99), 99);

    let mut pos = 0u64;
    let end = 9 * 1024 * 1024 + 123;
    let mut seen = 0u64;
    while pos <= end {
        let last = chunk_end(pos, end);
        assert!(last <= end);
        seen += last - pos + 1;
        pos = last + 1;
    }
    assert_eq!(pos, end + 1);
    assert_eq!(seen, end + 1);
}

#[test]
fn total_is_read_from_content_range() {
    assert_eq!(total_from_content_range("bytes 0-0/122414474"), Some(122414474));
    assert_eq!(total_from_content_range("bytes 0-0/*"), None);
    assert_eq!(total_from_content_range("nonsense"), None);
}

#[test]
fn upstream_asks_for_an_exact_uncompressed_range() {
    let own = vec![("user-agent".to_string(), "UA".to_string())];
    assert_eq!(
        upstream_headers(&own, 0, 4194303),
        vec![
            ("range".to_string(), "bytes=0-4194303".to_string()),
            ("accept-encoding".to_string(), "identity".to_string()),
            ("user-agent".to_string(), "UA".to_string()),
        ]
    );
    assert_eq!(upstream_headers(&[], 7, 7).len(), 2);
}

#[test]
fn learned_metadata_is_kept_for_its_stream_only() {
    let mut proxy = AudioProxy::new();
    assert!(proxy.start(8080));
    let url = proxy.register("https://upstream/a", Vec::new(), false).unwrap();
    let id = url.rsplit('/').next().unwrap().to_string();
    assert!(proxy.meta_of(&id).is_none());
    proxy.learn_meta(&id, Meta { total: 1234, content_type: Some("audio/webm".into()) });
    let m = proxy.meta_of(&id).unwrap();
    assert_eq!(m.total, 1234);
    assert_eq!(m.content_type.as_deref(), Some("audio/webm"));
    // Nothing is learned for an id that is not registered.
    proxy.learn_meta("0000000000000000", Meta { total: 1, content_type: None });
    assert!(proxy.meta_of("0000000000000000").is_none());
}

fn id_of(url: &str) -> String {
    url.rsplit('/').next().unwrap().to_string()
}

#[test]
fn registrations_keep_their_headers_and_go_oldest_first() {
    let mut proxy = AudioProxy::new();
    assert_eq!(proxy.register("https://upstream/x", Vec::new(), false), None);
    assert!(proxy.start(9000));
    assert_eq!(proxy.register("", Vec::new(), false), None);
    assert_eq!(proxy.register("https://upstream/x", Vec::new(), true), None);
    let mut ids = Vec::new();
    for n in 0..66 {
        let headers = vec![("cookie".to_string(), format!("c{n}"))];
        let url = proxy.register(&format!("https://upstream/{n}"), headers, false).unwrap();
        assert!(url.starts_with("http://127.0.0.1:9000/"));
        ids.push(id_of(&url));
    }
    // The two oldest made room; everything after them is still held, with its own headers.
    assert!(proxy.lookup(&ids[0]).is_none());
    assert!(proxy.lookup(&ids[1]).is_none());
    for (n, id) in ids.iter().enumerate().skip(2) {
        let reg = proxy.lookup(id).unwrap();
        assert_eq!(reg.url, format!("https://upstream/{n}"));
        assert_eq!(reg.headers, vec![("cookie".to_string(), format!("c{n}"))]);
    }
}
