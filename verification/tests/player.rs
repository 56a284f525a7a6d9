use limusic::player::{
    friendly_error, header_fields, mpv_proxy, pitch_filter, quoted, user_agent, PlaybackFailure,
};

#[test]
fn paths_survive_mpvs_command_parser() {
    // The bug this exists for: a space used to end the argument.
    assert_eq!(quoted("/music/My music/a, b.mp3"), "\"/music/My music/a, b.mp3\"");
    // Only backslash and double quote mean anything inside the quotes.
    assert_eq!(quoted(r#"/m/say "hi".mp3"#), r#""/m/say \"hi\".mp3""#);
    assert_eq!(quoted(r"C:\Music\x.mp3"), r#""C:\\Music\\x.mp3""#);
    // A stream URL is unchanged apart from the wrapper.
    assert_eq!(quoted("https://x/y?a=1&b=2"), "\"https://x/y?a=1&b=2\"");
}

#[test]
fn only_http_proxies_reach_mpv() {
    assert_eq!(mpv_proxy(Some("http://127.0.0.1:8080")), Some("http://127.0.0.1:8080".to_string()));
    assert_eq!(mpv_proxy(Some("  http://127.0.0.1:8080 ")), Some("http://127.0.0.1:8080".to_string()));
    assert_eq!(mpv_proxy(Some("socks5://127.0.0.1:1080")), None, "a socks proxy must not replace a usable one");
    assert_eq!(mpv_proxy(Some("https://127.0.0.1:8443")), None, "ffmpeg gates proxying on a literal http:// prefix");
    assert_eq!(mpv_proxy(None), Some(String::new()));
    assert_eq!(mpv_proxy(Some("   ")), Some(String::new()));
}

#[test]
fn the_user_agent_gets_its_own_property() {
    let headers = vec![
        ("Referer".to_string(), "https://music.youtube.com/".to_string()),
        ("user-agent".to_string(), "UA/1".to_string()),
        ("Origin".to_string(), "https://music.youtube.com".to_string()),
    ];
    assert_eq!(user_agent(&headers), Some("UA/1".to_string()));
    assert_eq!(
        header_fields(&headers),
        "Referer: https://music.youtube.com/,Origin: https://music.youtube.com"
    );
    let titled = vec![("USER-AGENT".to_string(), "x".to_string()), ("User-Agent".to_string(), "UA/2".to_string())];
    assert_eq!(user_agent(&titled), Some("UA/2".to_string()));
    assert_eq!(header_fields(&titled), "");
    assert_eq!(user_agent(&[]), None);
}

#[test]
fn failed_tracks_are_told_in_plain_words() {
    assert_eq!(
        friendly_error(&PlaybackFailure::LoadingFailed),
        "Couldn't load this track — YouTube rejected the stream link"
    );
    assert_eq!(
        friendly_error(&PlaybackFailure::Loadfile(Box::new(PlaybackFailure::NothingToPlay))),
        "This stream contains no playable audio"
    );
    assert_eq!(friendly_error(&PlaybackFailure::UnknownFormat), "Unrecognized audio format");
    assert_eq!(friendly_error(&PlaybackFailure::AoInitFailed), "Couldn't start audio output");
    assert_eq!(friendly_error(&PlaybackFailure::Code(-20)), "Playback failed (mpv error -20)");
    assert_eq!(
        friendly_error(&PlaybackFailure::Other("property not found".into())),
        "Playback failed (property not found)"
    );
}

#[test]
fn pitch_goes_through_rubberband() {
    assert_eq!(pitch_filter(), "rubberband");
}
