use limusic::local::{
    add_folder, album_key, album_page, albums_of, artist_page, artists_of, checked_artist_page,
    folder_key, lengths_fit,
    forget_missing, fmt_duration, is_local_song, needs_read, playback_data, primary_artist,
    remove_folder, sanitize, scan, short_digest, song_path, split_filename, tagged_album_key,
    to_song, track_from_tags, CoverLookup, Db, LocalTrack, TrackTags, ALBUM_PREFIX,
    ARTIST_PREFIX, KEY_CHARS, SONG_PREFIX, UNKNOWN_ARTIST,
};

/// The fields a grouping test cares about, the rest defaulted.
fn track(path: &str, artist: &str, album: &str, key: &str) -> LocalTrack {
    LocalTrack {
        path: path.into(),
        title: path.into(),
        artist: artist.into(),
        album: album.into(),
        album_key: key.into(),
        album_artist: None,
        track_no: 1,
        duration_secs: 10,
        cover: None,
        mtime: 1,
    }
}

#[test]
fn album_key_is_stable_and_filename_safe() {
    let k = album_key("Daft Punk", "Discovery / Deluxe");
    assert_eq!(k, "daft-punk--discovery---deluxe");
    assert_eq!(album_key("Daft Punk", "Discovery / Deluxe"), k, "same album, same key");
    assert!(!k.contains('/'), "the key doubles as the cover's filename");

    let a = album_key("米津玄師", "アルバムA");
    let b = album_key("米津玄師", "アルバムB");
    assert_ne!(a, b, "two Japanese albums are two albums");
    let long = album_key("x", &"あ".repeat(200));
    assert!(long.chars().count() <= KEY_CHARS + 16, "keys stay filename-sized");
    assert_ne!(
        album_key("x", &format!("{} one", "long ".repeat(30))),
        album_key("x", &format!("{} two", "long ".repeat(30)))
    );

    assert_ne!(
        folder_key(Some("/a/Downloads"), "Downloads"),
        folder_key(Some("/b/Downloads"), "Downloads")
    );
}

#[test]
fn a_local_song_offers_no_album_to_go_to() {
    let s = to_song(&track("/m/x/a.mp3", "Drake", "Views", "drake--views"));
    assert_eq!(s.album.as_deref(), Some("Views"), "the name still travels (scrobbles, lyrics)");
    assert_eq!(s.album_id, None, "but nothing for the ⋯ menu to navigate to");
}

#[test]
fn a_folder_of_loose_files_is_one_album_by_various_artists() {
    let key_a = folder_key(Some("/m/My music"), "My music");
    let tracks = vec![
        track("/m/My music/a.mp3", "Drake", "My music", &key_a),
        track("/m/My music/b.mp3", "PARTYNEXTDOOR", "My music", &key_a),
    ];
    let albums = albums_of(&tracks);
    assert_eq!(albums.len(), 1, "one folder, one album");
    assert_eq!(albums[0].subtitle.as_deref(), Some("Various artists • 2 songs"));

    let same = vec![track("/m/x/a.mp3", "Drake", "Views", "drake--views")];
    assert_eq!(albums_of(&same)[0].subtitle.as_deref(), Some("Drake • 1 song"));
}

#[test]
fn one_folder_of_one_album_is_one_album_whoever_performs_it() {
    let dir = "/m/Guardians Vol. 2";
    assert_eq!(
        tagged_album_key("Awesome Mix", None, Some(dir)),
        tagged_album_key("Awesome Mix", None, Some(dir))
    );
    assert_ne!(
        tagged_album_key("Greatest Hits", None, Some("/m/Queen")),
        tagged_album_key("Greatest Hits", None, Some("/m/Abba"))
    );
    assert_eq!(tagged_album_key("Discovery", Some("Daft Punk"), Some(dir)), "daft-punk--discovery");
}

#[test]
fn a_tagged_album_artist_beats_the_per_track_artists() {
    let mut tracks = vec![
        track("/m/Views/a.mp3", "Drake", "Views", "drake--views"),
        track("/m/Views/b.mp3", "Drake, Future", "Views", "drake--views"),
    ];
    for t in &mut tracks {
        t.album_artist = Some("Drake".into());
    }
    assert_eq!(albums_of(&tracks)[0].subtitle.as_deref(), Some("Drake • 2 songs"));
}

#[test]
fn a_collaboration_counts_under_the_first_artist() {
    let tracks = vec![
        track("/m/a.mp3", "Drake", "Views", "drake--views"),
        track("/m/b.mp3", "Drake", "Views", "drake--views"),
        track("/m/c.mp3", "Drake; 21 Savage", "Views", "drake--views"),
        track("/m/d.mp3", "Drake Feat. Future", "Views", "drake--views"),
        track("/m/e.mp3", "Tyler, The Creator", "Igor", "tyler--igor"),
    ];
    let artists = artists_of(&tracks);
    assert_eq!(artists.len(), 2, "Drake and Tyler — no 21 Savage, no Future");
    assert_eq!(artists[0].kind, "artist", "which is what draws it as a circle");
    assert_eq!(artists[0].title, "Drake");
    assert_eq!(artists[0].subtitle.as_deref(), Some("4 songs"));
    assert_eq!(artists[1].title, "Tyler, The Creator");

    let mut db = Db::new();
    db.put_local_tracks(&tracks);
    let page = artist_page(&db, artists[0].id.strip_prefix(ARTIST_PREFIX).unwrap());
    assert_eq!(page.title.as_deref(), Some("Drake"));
    assert_eq!(page.items.len(), 4, "the page picks up the collaborations too");
    assert_eq!(page.playlist_id, None, "nothing YouTube-shaped on a page built from disk");
}

#[test]
fn untagged_filenames_give_up_an_artist_and_title() {
    assert_eq!(
        split_filename("PARTYNEXTDOOR, Drake - CN TOWER"),
        (Some("PARTYNEXTDOOR, Drake".into()), "CN TOWER".into())
    );
    assert_eq!(
        split_filename("Artist - Song - Live"),
        (Some("Artist".into()), "Song - Live".into())
    );
    assert_eq!(split_filename("CN TOWER"), (None, "CN TOWER".into()));
    assert_eq!(split_filename(" - CN TOWER"), (None, " - CN TOWER".into()));
    assert_eq!(split_filename("Jay-Z"), (None, "Jay-Z".into()));
}

#[test]
fn durations_format_like_the_rest_of_the_app() {
    assert_eq!(fmt_duration(227), "3:47");
    assert_eq!(fmt_duration(4100), "1:08:20");
    assert_eq!(fmt_duration(5), "0:05");
}

#[test]
fn negative_durations_keep_rusts_signs() {
    assert_eq!(fmt_duration(-65), "-1:-5");
    assert_eq!(fmt_duration(-3600), "0:00");
    assert_eq!(fmt_duration(0), "0:00");
}

#[test]
fn folders_ignore_nesting_in_both_directions() {
    let mut db = Db::new();
    add_folder(&mut db, "/music".into());
    add_folder(&mut db, "/music/rock".into());
    assert_eq!(db.folders(), vec!["/music".to_string()]);
    add_folder(&mut db, "/other/jazz".into());
    add_folder(&mut db, "/other".into());
    assert_eq!(db.folders(), vec!["/music".to_string(), "/other".to_string()]);
    remove_folder(&mut db, "/music");
    assert_eq!(db.folders(), vec!["/other".to_string()]);
}

#[test]
fn a_scan_reports_what_left_the_disk() {
    let mut db = Db::new();
    add_folder(&mut db, "/tmp/limusic-local-scan".into());
    for (n, key) in [("a", "band--one"), ("b", "band--two")] {
        let path = format!("/tmp/limusic-local-scan/{n}.mp3");
        db.put_local_tracks(&[track(&path, "Band", n, key)]);
    }
    // The walk found nothing: both files are gone.
    let lib = scan(&mut db, &[], &[]);
    assert!(lib.songs.is_empty() && lib.albums.is_empty(), "the rows are gone from the library");
    assert_eq!(lib.removed.len(), 5, "two songs, two albums and the one artist are removed");
    assert!(lib.removed.contains(&format!("{ARTIST_PREFIX}Band")), "the artist's circle too");
    assert!(lib.removed.iter().any(|id| id.ends_with("a.mp3")), "the song id the UI knows");
    assert!(lib.removed.contains(&format!("{ALBUM_PREFIX}band--one")), "and the album id");
    assert!(scan(&mut db, &[], &[]).removed.is_empty(), "a second scan reports nothing");
}

#[test]
fn an_unchanged_file_is_not_read_again() {
    let mut db = Db::new();
    let t = track("/m/a.mp3", "Band", "Album", "band--album");
    let found = vec![t.path.clone()];
    assert!(needs_read(&db, "/m/a.mp3", 1), "nothing stored yet");
    let lib = scan(&mut db, &found, &[t.clone()]);
    assert_eq!(lib.songs.len(), 1);
    assert!(lib.removed.is_empty());
    assert!(!needs_read(&db, "/m/a.mp3", 1), "stored under the current rules, same mtime");
    assert!(needs_read(&db, "/m/a.mp3", 2), "the file changed since");
    assert!(scan(&mut db, &found, &[]).removed.is_empty(), "a rescan reports nothing");
}

#[test]
fn forgetting_one_file_only_reports_the_album_when_it_empties() {
    let mut db = Db::new();
    db.put_local_tracks(&[
        track("/m/a.mp3", "Band", "Album", "band--album"),
        track("/m/b.mp3", "Band", "Album", "band--album"),
    ]);

    assert_eq!(
        forget_missing(&mut db, "/m/a.mp3"),
        vec!["LOCAL:/m/a.mp3".to_string()],
        "the album still has a track, so only the song id is reported"
    );
    assert_eq!(
        forget_missing(&mut db, "/m/b.mp3"),
        vec![
            "LOCAL:/m/b.mp3".to_string(),
            "LOCALALBUM:band--album".to_string(),
            "LOCALARTIST:Band".to_string()
        ],
        "the last track takes the album and the artist with it"
    );
    assert!(db.local_tracks(None).is_empty(), "and both rows are gone");
    assert!(forget_missing(&mut db, "/m/a.mp3").len() == 1, "forgetting twice is harmless");
}

#[test]
fn a_collaboration_keeps_the_artist_card_when_a_solo_track_goes() {
    let mut db = Db::new();
    db.put_local_tracks(&[
        track("/m/a.mp3", "Drake", "Views", "drake--views"),
        track("/m/b.mp3", "Drake; 21 Savage", "Her Loss", "drake--her-loss"),
    ]);
    assert_eq!(
        forget_missing(&mut db, "/m/a.mp3"),
        vec!["LOCAL:/m/a.mp3".to_string(), "LOCALALBUM:drake--views".to_string()],
        "Drake still has a track, so the artist card stays"
    );
    assert_eq!(
        forget_missing(&mut db, "/m/b.mp3"),
        vec![
            "LOCAL:/m/b.mp3".to_string(),
            "LOCALALBUM:drake--her-loss".to_string(),
            "LOCALARTIST:Drake".to_string()
        ]
    );
}

#[test]
fn a_missing_file_is_not_playable() {
    let path = "/nope/gone.mp3";
    let is_file = std::path::Path::new(path).is_file();
    assert!(playback_data("LOCAL:/nope/gone.mp3", path, is_file).is_err());
}

#[test]
fn a_present_file_plays_from_its_path() {
    let d = playback_data("LOCAL:/m/a.mp3", "/m/a.mp3", true).unwrap();
    assert_eq!(d.stream_url, "/m/a.mp3");
    assert_eq!(d.video_id, "LOCAL:/m/a.mp3");
    assert_eq!(d.stream_client, "local");
    assert_eq!(d.expires_in_seconds, i64::MAX / 2);
}

#[test]
fn local_ids_round_trip() {
    let s = to_song(&track("/m/x/a.mp3", "Drake", "Views", "drake--views"));
    assert_eq!(s.video_id, format!("{SONG_PREFIX}/m/x/a.mp3"));
    assert!(is_local_song(&s.video_id));
    assert_eq!(song_path(&s.video_id), Some("/m/x/a.mp3"));
    assert_eq!(song_path("dQw4w9WgXcQ"), None);
    assert!(!is_local_song("dQw4w9WgXcQ"));
}

#[test]
fn a_guest_list_counts_under_its_first_name() {
    assert_eq!(primary_artist("Drake; 21 Savage"), "Drake");
    assert_eq!(primary_artist("Drake Feat. Future"), "Drake");
    assert_eq!(primary_artist("A ft. B"), "A");
    assert_eq!(primary_artist("A featuring B"), "A");
    assert_eq!(primary_artist("Tyler, The Creator"), "Tyler, The Creator");
    assert_eq!(primary_artist("  Solo  "), "Solo");
}

#[test]
fn keys_are_sanitized_and_digests_are_fnv() {
    assert_eq!(sanitize("A/B c"), "a-b-c");
    assert_eq!(short_digest(""), format!("{:012x}", 0xcbf2_9ce4_8422_2325u64 & 0xffff_ffff_ffff));
    assert_eq!(short_digest("a").len(), 12);
    assert_ne!(short_digest("a"), short_digest("b"));
}

#[test]
fn an_album_page_sums_its_tracks() {
    let mut db = Db::new();
    db.put_local_tracks(&[
        track("/m/a.mp3", "Band", "Album", "band--album"),
        track("/m/b.mp3", "Band", "Album", "band--album"),
        track("/m/c.mp3", "Other", "Else", "other--else"),
    ]);
    let page = album_page(&db, "band--album");
    assert_eq!(page.title.as_deref(), Some("Album"));
    assert_eq!(page.artist.as_deref(), Some("Band"));
    assert_eq!(page.subtitle.as_deref(), Some("On this device"));
    assert_eq!(page.second_subtitle.as_deref(), Some("2 songs • 0:20"));
    assert_eq!(page.items.len(), 2);
    let empty = album_page(&db, "nothing");
    assert_eq!(empty.title, None);
    assert_eq!(empty.second_subtitle.as_deref(), Some("0 songs • 0:00"));
}

#[test]
fn tags_fall_back_to_the_filename_and_the_folder() {
    let tags = TrackTags {
        title: None,
        artist: Some("   ".into()),
        album: None,
        album_artist: None,
        track_no: None,
        duration_secs: 200,
    };
    let read = track_from_tags(
        "/m/Loose/Drake - Views.mp3".into(),
        7,
        "Drake - Views",
        Some("/m/Loose"),
        Some("Loose"),
        tags,
    );
    assert_eq!(read.track.title, "Views");
    assert_eq!(read.track.artist, "Drake");
    assert_eq!(read.track.album, "Loose");
    assert_eq!(read.track.album_key, folder_key(Some("/m/Loose"), "Loose"));
    assert_eq!(read.track.track_no, 0);
    assert!(matches!(read.cover, CoverLookup::FileOnly { .. }));

    let tagged = TrackTags {
        title: Some(" Title ".into()),
        artist: None,
        album: Some("Discovery".into()),
        album_artist: Some("Daft Punk".into()),
        track_no: Some(3),
        duration_secs: 1,
    };
    let read = track_from_tags("/m/x.mp3".into(), 1, "x", Some("/m"), Some("m"), tagged);
    assert_eq!(read.track.title, "Title");
    assert_eq!(read.track.artist, UNKNOWN_ARTIST);
    assert_eq!(read.track.album_key, "daft-punk--discovery");
    assert_eq!(read.cover, CoverLookup::Album { key: "daft-punk--discovery".into() });
    assert_eq!(read.track.track_no, 3);
}

#[test]
fn equal_titles_keep_the_order_of_their_first_tracks() {
    let tracks = vec![
        track("/m/q/1.mp3", "Queen", "Greatest Hits", "queen--greatest-hits"),
        track("/m/a/1.mp3", "ABBA", "greatest hits", "abba--greatest-hits"),
        track("/m/x/1.mp3", "abba", "Arrival", "abba--arrival"),
        track("/m/b/1.mp3", "Blur", "Blur", "blur--blur"),
    ];
    let albums = albums_of(&tracks);
    let keys: Vec<&str> = albums.iter().map(|c| c.id.strip_prefix(ALBUM_PREFIX).unwrap()).collect();
    assert_eq!(
        keys,
        vec!["abba--arrival", "blur--blur", "queen--greatest-hits", "abba--greatest-hits"],
        "the two Greatest Hits keep the order their first tracks came in"
    );
    let artists = artists_of(&tracks);
    let names: Vec<&str> = artists.iter().map(|c| c.title.as_str()).collect();
    assert_eq!(names, vec!["ABBA", "abba", "Blur", "Queen"], "ABBA came before abba");
}

#[test]
fn an_artist_page_whose_lengths_overflow_is_refused() {
    let mut long = track("/m/a.mp3", "Band", "Album", "band--album");
    long.duration_secs = i64::MAX;
    let short = track("/m/b.mp3", "Band", "Album", "band--album");
    assert!(lengths_fit(&[long.clone()]));
    assert!(!lengths_fit(&[long.clone(), short.clone()]));
    assert!(lengths_fit(&[]));

    let mut db = Db::new();
    db.put_local_tracks(&[long.clone(), short.clone()]);
    assert!(checked_artist_page(&db, "Band").is_none(), "the total would not fit");
    assert!(checked_artist_page(&db, "Other").is_some(), "an empty page adds up to nothing");

    let mut db = Db::new();
    db.put_local_tracks(&[short.clone(), track("/m/c.mp3", "Band", "Album", "band--album")]);
    let page = checked_artist_page(&db, "Band").unwrap();
    let plain = artist_page(&db, "Band");
    assert_eq!(page.title, plain.title);
    assert_eq!(page.second_subtitle, plain.second_subtitle);
    assert_eq!(page.second_subtitle.as_deref(), Some("2 songs \u{2022} 0:20"));
    assert_eq!(page.items.len(), 2);
}

#[test]
fn a_scan_names_each_removed_item_once() {
    let mut db = Db::new();
    db.put_local_tracks(&[
        track("/m/a.mp3", "Band", "Album", "band--album"),
        track("/m/b.mp3", "Band", "Album", "band--album"),
        track("/m/c.mp3", "Band; Guest", "Single", "band--single"),
    ]);
    let lib = scan(&mut db, &[], &[]);
    assert_eq!(
        lib.removed,
        vec![
            "LOCAL:/m/a.mp3".to_string(),
            "LOCAL:/m/b.mp3".to_string(),
            "LOCAL:/m/c.mp3".to_string(),
            "LOCALALBUM:band--album".to_string(),
            "LOCALARTIST:Band".to_string(),
            "LOCALALBUM:band--single".to_string(),
        ]
    );
}
