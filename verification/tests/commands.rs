use limusic::commands::{
    check_cover_file, check_font_file, check_icon_header, check_icon_size, cover_file_name, cover_key, cover_upload_failure_message, edit_refusal,
    index_is_fresh, indexes_playlist, is_ui_setting, library_with_on_repeat, native_chrome,
    release_notes_from, setting_change, shed_queue_context, synced_key, to_ascii_lowercase,
    ui_settings_of, parse_repeat_mode, GitHubRelease, RepeatMode, SettingEffect, MAX_COVER_BYTES,
    MAX_ICON_BYTES, TheaterWindow, WindowStep, block_request, on_repeat_subtitle, BlockRequest,
    check_external_url, ui_log_line, video_max_height, UiLogLevel, require_login,
    index_outcome, IndexOutcome, TrackCrawl, PLAYLIST_INDEX_MAX_PAGES, cover_removal,
};
use limusic::models::BrowseItem;
use limusic::endpoints::strip_vl;
use limusic::models::SongItem;

#[test]
fn strips_vl_prefix() {
    assert_eq!(strip_vl("VLPL123"), "PL123");
    assert_eq!(strip_vl("PL123"), "PL123");
}

#[test]
fn on_repeat_rows_shed_the_queue_slot_they_were_played_from() {
    let played = SongItem {
        video_id: "abc".into(),
        title: "Grace".into(),
        queued: true,
        queued_by: Some("simohypers".into()),
        autoplay: true,
        set_video_id: Some("SVI".into()),
        ..Default::default()
    };
    let row = shed_queue_context(played.clone());
    assert_eq!(
        row,
        SongItem { video_id: "abc".into(), title: "Grace".into(), ..Default::default() }
    );
    assert_eq!(row.title, played.title, "the song itself survives");
}

#[test]
fn one_playlist_one_cover_key() {
    assert_eq!(cover_key("VLPL123"), "playlist_cover:PL123");
    assert_eq!(cover_key("PL123"), "playlist_cover:PL123");
    assert_eq!(synced_key("VLPL123"), "playlist_cover:PL123:synced");
}

#[test]
fn the_window_frame_follows_the_setting() {
    assert_eq!(native_chrome(true, Some("false")), "overlay");
    assert_eq!(native_chrome(false, Some("true")), "on");
    assert_eq!(native_chrome(false, Some("false")), "off");
    assert_eq!(native_chrome(false, None), "off");
}

#[test]
fn only_published_releases_reach_the_changelog() {
    let releases = vec![
        GitHubRelease {
            tag_name: "v1.2.0".into(),
            published_at: Some("2026-01-02T10:00:00Z".into()),
            body: Some("Notes".into()),
            draft: false,
            prerelease: false,
        },
        GitHubRelease {
            tag_name: "v1.3.0-rc1".into(),
            published_at: None,
            body: None,
            draft: false,
            prerelease: true,
        },
        GitHubRelease { tag_name: "1.1".into(), published_at: None, body: None, draft: false, prerelease: false },
    ];
    let notes = release_notes_from(&releases);
    assert_eq!(notes.len(), 2);
    assert_eq!(notes[0].version, "1.2.0");
    assert_eq!(notes[0].date, "2026-01-02");
    assert_eq!(notes[0].body, "Notes");
    assert_eq!(notes[1].version, "1.1");
    assert_eq!(notes[1].date, "");
}

#[test]
fn only_ui_settings_are_written() {
    assert!(is_ui_setting("volume"));
    assert!(is_ui_setting("locale"));
    assert!(!is_ui_setting("playlist_index_synced_at_v2"));
    assert_eq!(setting_change("cookies", "x"), Err("unknown setting: cookies".to_string()));
    assert_eq!(setting_change("", "x"), Err("unknown setting: ".to_string()));
}

#[test]
fn a_setting_sets_off_what_it_governs() {
    assert_eq!(setting_change("volume", "40"), Ok(SettingEffect::Stored));
    assert_eq!(setting_change("discord_rpc", "true"), Ok(SettingEffect::Presence { enabled: true }));
    assert_eq!(setting_change("discord_rpc", "on"), Ok(SettingEffect::Presence { enabled: false }));
    assert_eq!(setting_change("discord_rpc_config", "{}"), Ok(SettingEffect::PresenceLayout));
    assert_eq!(setting_change("crossfade", "true"), Ok(SettingEffect::Crossfade));
    assert_eq!(setting_change("crossfade_secs", "6"), Ok(SettingEffect::Crossfade));
    assert_eq!(setting_change("locale", "nb"), Ok(SettingEffect::Locale));
    assert_eq!(setting_change("hide_videos", "true"), Ok(SettingEffect::HideVideos { hide: true }));
    assert_eq!(setting_change("lyrics_boidu", "false"), Ok(SettingEffect::ClearLyricsCache));
    assert_eq!(
        setting_change("system_titlebar", "false"),
        Ok(SettingEffect::SystemTitlebar { on: false })
    );
    assert_eq!(setting_change("autostart", "true"), Ok(SettingEffect::Autostart { enable: true }));
}

#[test]
fn the_ui_sees_only_its_own_settings() {
    let all = vec![
        ("volume".to_string(), "80".to_string()),
        ("cookies".to_string(), "secret".to_string()),
        ("locale".to_string(), "en".to_string()),
    ];
    assert_eq!(
        ui_settings_of(&all),
        vec![("volume".to_string(), "80".to_string()), ("locale".to_string(), "en".to_string())]
    );
}

#[test]
fn a_cover_must_be_a_small_jpeg_or_png() {
    assert_eq!(check_cover_file(Some("JPG"), 10), Ok("jpg".to_string()));
    assert_eq!(check_cover_file(Some("png"), MAX_COVER_BYTES), Ok("png".to_string()));
    assert_eq!(
        check_cover_file(Some("webp"), 10),
        Err("Pick a JPEG or PNG image: YouTube Music won't take anything else.".to_string())
    );
    assert_eq!(
        check_cover_file(None, 10),
        Err("Pick a JPEG or PNG image: YouTube Music won't take anything else.".to_string())
    );
    // The type is judged before the size.
    assert_eq!(
        check_cover_file(Some("gif"), MAX_COVER_BYTES + 1),
        Err("Pick a JPEG or PNG image: YouTube Music won't take anything else.".to_string())
    );
    assert_eq!(
        check_cover_file(Some("jpeg"), MAX_COVER_BYTES + 1),
        Err("That image is over 8 MB. Pick a smaller one.".to_string())
    );
    assert_eq!(to_ascii_lowercase("PnG-Ä"), "png-Ä");
}

#[test]
fn a_cover_file_name_cannot_leave_its_directory() {
    assert_eq!(cover_file_name("VLPL12_a-b", 1700000000, "png"), "VLPL12_a-b-1700000000.png");
    assert_eq!(cover_file_name("../../etc", 5, "jpg"), "etc-5.jpg");
    assert_eq!(cover_file_name("", -3, "jpg"), "--3.jpg");
}

#[test]
fn a_failed_upload_says_where_the_cover_is() {
    assert_eq!(
        cover_upload_failure_message(true, "not allowed"),
        "Artwork saved on this device. not allowed"
    );
    assert_eq!(
        cover_upload_failure_message(false, "timed out"),
        "Artwork saved here, but the upload to YouTube Music failed: timed out"
    );
}

#[test]
fn on_repeat_and_liked_music_are_not_edited() {
    assert_eq!(
        edit_refusal("ONREPEAT", "ONREPEAT"),
        Some("On Repeat builds itself from what you play.".to_string())
    );
    assert_eq!(
        edit_refusal("VLLM", "ONREPEAT"),
        Some("Liked Music follows your likes; like the song instead.".to_string())
    );
    assert_eq!(edit_refusal("PL1", "ONREPEAT"), None);
}

#[test]
fn the_membership_index_is_trusted_for_six_hours() {
    assert!(index_is_fresh(Some("1000"), 1000));
    assert!(index_is_fresh(Some("1000"), 1000 + 6 * 3600 - 1));
    assert!(!index_is_fresh(Some("1000"), 1000 + 6 * 3600));
    assert!(!index_is_fresh(None, 0));
    assert!(!index_is_fresh(Some("yesterday"), 0));
    assert!(!index_is_fresh(Some(""), 0));
    assert!(index_is_fresh(Some("+10"), 0));
    assert!(index_is_fresh(Some("-10"), 0));
    assert!(!index_is_fresh(Some("-+10"), 0));
    // A stamp at the edge of the range still compares without overflowing.
    assert!(index_is_fresh(Some("9223372036854775807"), i64::MAX));
}

#[test]
fn the_index_covers_playlists_you_can_add_to() {
    assert!(indexes_playlist("PL1", true, false));
    assert!(indexes_playlist("PL1", false, true));
    assert!(!indexes_playlist("PL1", false, false));
    assert!(indexes_playlist("VLLM", false, false));
}

fn card(id: &str) -> BrowseItem {
    BrowseItem {
        kind: "playlist".into(),
        id: id.into(),
        title: id.into(),
        subtitle: None,
        thumbnail: None,
        duration: None,
        artist_runs: Vec::new(),
        play_count: None,
        is_video: false,
        is_upload: false,
        explicit: false,
    }
}

#[test]
fn on_repeat_leads_the_library_once_it_has_songs() {
    let items = vec![card("PL1"), card("PL2")];
    assert_eq!(library_with_on_repeat(items.clone(), "ONREPEAT", 0), items);
    let lib = library_with_on_repeat(items.clone(), "ONREPEAT", 3);
    assert_eq!(lib.len(), 3);
    assert_eq!(lib[0].id, "ONREPEAT");
    assert_eq!(lib[0].title, "On Repeat");
    assert_eq!(lib[0].subtitle.as_deref(), Some("3 songs"));
    assert_eq!(lib[0].thumbnail, None);
    assert_eq!(&lib[1..], &items[..]);
}

#[test]
fn repeat_modes_are_named() {
    assert_eq!(parse_repeat_mode("off"), Ok(RepeatMode::Off));
    assert_eq!(parse_repeat_mode("all"), Ok(RepeatMode::All));
    assert_eq!(parse_repeat_mode("one"), Ok(RepeatMode::One));
    assert_eq!(parse_repeat_mode("One"), Err("unknown repeat mode: One".to_string()));
}

#[test]
fn only_font_files_are_offered() {
    assert_eq!(check_font_file(Some("TTF"), "/f/a.TTF"), Ok(()));
    assert_eq!(check_font_file(Some("woff2"), "/f/a.woff2"), Ok(()));
    assert_eq!(check_font_file(Some("txt"), "/etc/a.txt"), Err("not a font file: /etc/a.txt".to_string()));
    assert_eq!(check_font_file(None, "/etc/passwd"), Err("not a font file: /etc/passwd".to_string()));
}

fn png_head(w: u32, h: u32) -> Vec<u8> {
    let mut head = vec![0x89, b'P', b'N', b'G', b'\r', b'\n', 0x1a, b'\n', 0, 0, 0, 13];
    head.extend(b"IHDR");
    head.extend(w.to_be_bytes());
    head.extend(h.to_be_bytes());
    head
}

#[test]
fn an_icon_must_be_a_small_png() {
    assert_eq!(check_icon_size(MAX_ICON_BYTES), Ok(()));
    assert_eq!(
        check_icon_size(MAX_ICON_BYTES + 1),
        Err("that file is too big; use a PNG under 16 MB".to_string())
    );
    assert_eq!(check_icon_header(&png_head(256, 1024)), Ok((256, 1024)));
    assert_eq!(
        check_icon_header(&png_head(5000, 300)),
        Err("that image is 5000x300; use one no larger than 1024x1024".to_string())
    );
    let mut jpeg = png_head(16, 16);
    jpeg[0] = 0xff;
    assert_eq!(check_icon_header(&jpeg), Err("that file isn't a PNG".to_string()));
}

#[test]
fn theater_mode_gives_the_window_back_as_it_found_it() {
    let mut t = TheaterWindow::new();
    assert_eq!(
        t.enter(true),
        vec![WindowStep::Restore, WindowStep::Fullscreen(true), WindowStep::CoverMonitor]
    );
    assert_eq!(
        t.leave(),
        vec![WindowStep::Fullscreen(false), WindowStep::Maximize, WindowStep::RefreshFrame]
    );
    // The remembered state is used up: a second leave does not maximize again.
    assert_eq!(t.leave(), vec![WindowStep::Fullscreen(false), WindowStep::RefreshFrame]);
    assert_eq!(t.enter(false), vec![WindowStep::Fullscreen(true), WindowStep::CoverMonitor]);
    assert_eq!(t.leave(), vec![WindowStep::Fullscreen(false), WindowStep::RefreshFrame]);
}

#[test]
fn on_repeat_says_how_many_songs() {
    assert_eq!(on_repeat_subtitle(12), "12 songs you've played most this month");
}

#[test]
fn a_blocked_artist_needs_a_name() {
    assert_eq!(
        block_request(Some("UC1"), "  Drake "),
        Ok(BlockRequest { id: Some("UC1".into()), name: "Drake".into() })
    );
    assert_eq!(block_request(Some(""), "Drake"), Ok(BlockRequest { id: None, name: "Drake".into() }));
    assert_eq!(block_request(None, "   "), Err("an artist needs a name to be blocked".to_string()));
}

#[test]
fn only_web_links_open_externally() {
    assert_eq!(check_external_url("https://last.fm/x"), Ok(()));
    assert_eq!(check_external_url("http://example.org"), Ok(()));
    assert_eq!(check_external_url("file:///etc/passwd"), Err("only http(s) links".to_string()));
    assert_eq!(check_external_url("HTTPS://x"), Err("only http(s) links".to_string()));
}

#[test]
fn the_video_height_is_clamped() {
    assert_eq!(video_max_height(10), 144);
    assert_eq!(video_max_height(720), 720);
    assert_eq!(video_max_height(4320), 1080);
}

#[test]
fn ui_log_lines_are_bounded() {
    assert_eq!(ui_log_line("info", "hi"), (UiLogLevel::Info, "hi".to_string()));
    assert_eq!(ui_log_line("warn", "w").0, UiLogLevel::Warn);
    assert_eq!(ui_log_line("debug", "d").0, UiLogLevel::Error);
    let long = "é".repeat(2500);
    let (_, text) = ui_log_line("error", &long);
    assert_eq!(text.chars().count(), 2000);
}

#[test]
fn writes_need_a_signed_in_session() {
    assert_eq!(require_login(true), Ok(()));
    assert_eq!(require_login(false), Err("Sign in first to use this.".to_string()));
}

#[test]
fn a_failed_playlist_keeps_what_the_index_knows() {
    assert_eq!(index_outcome("ONREPEAT", "ONREPEAT", None), IndexOutcome::Skip);
    assert_eq!(index_outcome("PL1", "ONREPEAT", None), IndexOutcome::KeepStored);
    assert_eq!(index_outcome("PL1", "ONREPEAT", Some((true, false))), IndexOutcome::Replace);
    assert_eq!(index_outcome("PL1", "ONREPEAT", Some((false, true))), IndexOutcome::Replace);
    assert_eq!(index_outcome("PL1", "ONREPEAT", Some((false, false))), IndexOutcome::Skip);
    assert_eq!(index_outcome("VLLM", "ONREPEAT", Some((false, false))), IndexOutcome::Replace);
}

#[test]
fn a_track_crawl_reads_pages_up_to_the_cap() {
    let mut c = TrackCrawl::start(vec!["a".into()], Some("t1".into()));
    assert_eq!(c.next_fetch(), Some("t1".to_string()));
    c.on_page(vec!["b".into(), "c".into()], None);
    assert_eq!(c.next_fetch(), None);
    assert_eq!(c.into_ids(), vec!["a", "b", "c"]);
    let mut c = TrackCrawl::start(Vec::new(), Some("t".into()));
    for _ in 0..PLAYLIST_INDEX_MAX_PAGES {
        assert!(c.next_fetch().is_some());
        c.on_page(vec!["x".into()], Some("t".into()));
    }
    assert_eq!(c.next_fetch(), None);
    assert_eq!(c.into_ids().len(), PLAYLIST_INDEX_MAX_PAGES);
    let mut c = TrackCrawl::start(vec!["a".into()], Some("t".into()));
    c.on_failure();
    assert_eq!(c.next_fetch(), None);
    assert_eq!(c.into_ids(), vec!["a"]);
}

#[test]
fn a_removed_cover_warns_only_when_youtube_kept_ours() {
    let r = cover_removal(Some(Some("https://collage".into())), true);
    assert_eq!(r.result.cover, None);
    assert_eq!(r.result.thumbnail.as_deref(), Some("https://collage"));
    assert!(r.forget_synced);
    assert_eq!(r.warning, None);
    let r = cover_removal(None, true);
    assert_eq!(r.result.thumbnail, None);
    assert!(!r.forget_synced);
    assert_eq!(r.warning.as_deref(), Some("Removed here, but YouTube Music kept its copy."));
    assert_eq!(cover_removal(None, false).warning, None);
}
