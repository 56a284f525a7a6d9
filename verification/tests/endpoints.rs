use limusic::endpoints::{
    browse_verdict, drop_video_rows_but_seed, drop_video_songs, edit_rejection, fill_album_ids,
    keep_new_cards, swap_in_audio,
    BrowseVerdict, EditRejection, GridCrawl, GRID_PAGE_CAP, card_filter, FILTER_ALBUM, FILTER_ARTIST,
    FILTER_COMMUNITY_PLAYLIST,
};
use limusic::json::Json;
use limusic::metadata::parse_account_identities;
use limusic::models::{BrowseItem, SongItem};

fn from_value(v: &serde_json::Value) -> Json {
    match v {
        serde_json::Value::Null => Json::Null,
        serde_json::Value::Bool(b) => Json::Bool(*b),
        serde_json::Value::Number(n) => Json::Number(n.to_string()),
        serde_json::Value::String(s) => Json::Str(s.clone()),
        serde_json::Value::Array(a) => Json::Array(a.iter().map(from_value).collect()),
        serde_json::Value::Object(m) => {
            Json::Object(m.iter().map(|(k, v)| (k.clone(), from_value(v))).collect())
        }
    }
}

fn j(text: &str) -> Json {
    from_value(&serde_json::from_str::<serde_json::Value>(text).expect("test JSON parses"))
}

#[test]
fn duplicate_add_is_rejected() {
    let ok = j(r#"{ "playlistEditResults": [{ "playlistEditVideoAddedResultData": {
        "setVideoId": "56B44F6D10557CC6", "videoId": "dQw4w9WgXcQ" } }],
        "status": "STATUS_SUCCEEDED" }"#);
    assert!(edit_rejection(&ok).is_none());

    let dup = j(r#"{ "actions": [{ "addToToastAction": { "item": {
        "notificationActionRenderer": { "actionButton": { "buttonRenderer": {
            "command": { "playlistEditEndpoint": { "actions": [{
                "action": "ACTION_ADD_VIDEO",
                "addedVideoId": "dQw4w9WgXcQ",
                "dedupeOption": "DEDUPE_OPTION_SKIP" }] } },
            "text": { "runs": [{ "text": "Add anyway" }] } } },
        "responseText": { "runs": [{ "text": "This track is already in the playlist" }] } } } } }],
        "status": "STATUS_FAILED" }"#);
    assert_eq!(edit_rejection(&dup), Some(EditRejection::AlreadyInPlaylist));

    let failed = j(r#"{ "status": "STATUS_FAILED" }"#);
    assert_eq!(edit_rejection(&failed), Some(EditRejection::Refused));
}

#[test]
fn create_playlist_id_parsed() {
    let resp = j(r#"{ "playlistId": "PLnew123", "status": "STATUS_SUCCEEDED" }"#);
    assert_eq!(limusic::json::find_first_str(&resp, "playlistId").as_deref(), Some("PLnew123"));
}

#[test]
fn hiding_videos_keeps_the_audio_rows_in_order() {
    let song = |id: &str, video: bool| SongItem { video_id: id.into(), is_video: video, ..Default::default() };
    let mut items = vec![song("a", false), song("b", true), song("c", false)];
    drop_video_songs(&mut items, false);
    assert_eq!(items.len(), 3);
    drop_video_songs(&mut items, true);
    let ids: Vec<&str> = items.iter().map(|s| s.video_id.as_str()).collect();
    assert_eq!(ids, ["a", "c"]);
}

#[test]
fn identities_need_a_server_issued_token_and_come_once() {
    let root = j(r#"{
        "responseContext": { "mainAppWebResponseContext": { "datasyncId": "active-sync||x" } },
        "actions": [{ "accountSectionListRenderer": { "contents": [
            { "googleAccountHeaderRenderer": { "email": { "simpleText": " listener@example.invalid " } } },
            { "accountItem": {
                "accountName": { "simpleText": "Personal" },
                "isSelected": true,
                "serviceEndpoint": { "selectActiveIdentityEndpoint": { "supportedTokens": [
                    { "accountSigninToken": {} }
                ] } }
            } },
            { "accountItem": {
                "accountName": { "simpleText": "Brand" },
                "serviceEndpoint": { "selectActiveIdentityEndpoint": { "supportedTokens": [
                    { "pageIdToken": { "pageId": "brand-page-id" } }
                ] } }
            } },
            { "accountItem": {
                "accountName": { "simpleText": "Duplicate" },
                "serviceEndpoint": { "selectActiveIdentityEndpoint": { "supportedTokens": [
                    { "pageIdToken": { "pageId": "brand-page-id" } }
                ] } }
            } },
            { "accountItem": {
                "accountName": { "simpleText": "No token" },
                "serviceEndpoint": { "selectActiveIdentityEndpoint": { "supportedTokens": [] } }
            } },
            { "accountItem": {
                "accountName": { "simpleText": "Disabled" },
                "isDisabled": true,
                "serviceEndpoint": { "selectActiveIdentityEndpoint": { "supportedTokens": [
                    { "datasyncIdToken": { "datasyncIdToken": "disabled-sync" } }
                ] } }
            } }
        ] } }]
    }"#);
    let ids = parse_account_identities(&root);
    let names: Vec<&str> = ids.iter().map(|i| i.name.as_str()).collect();
    assert_eq!(names, ["Personal", "Brand"]);
    assert_eq!(ids[0].data_sync_id, "active-sync");
    assert!(ids[0].is_selected);
    assert_eq!(ids[0].email.as_deref(), Some("listener@example.invalid"));
    assert_eq!(ids[1].data_sync_id, "brand-page-id");
    assert!(!ids[1].is_selected);
}

fn card(id: &str, title: &str) -> BrowseItem {
    BrowseItem {
        kind: "playlist".into(),
        id: id.into(),
        title: title.into(),
        subtitle: None,
        thumbnail: None,
        duration: None,
        artist_runs: Vec::new(),
        play_count: None,
        is_video: false,
        is_upload: false,
        explicit: false,
    }
}

fn ids(items: &[BrowseItem]) -> Vec<&str> {
    items.iter().map(|c| c.id.as_str()).collect()
}

#[test]
fn a_repeated_card_keeps_its_first_place() {
    let mut items = vec![card("A", "first A")];
    let dropped = keep_new_cards(
        &mut items,
        vec![card("B", "B"), card("A", "second A"), card("B", "second B"), card("C", "C")],
    );
    assert_eq!(dropped, 2);
    assert_eq!(ids(&items), vec!["A", "B", "C"]);
    assert_eq!(items[0].title, "first A");
    assert_eq!(items[1].title, "B");
}

#[test]
fn a_grid_crawl_follows_tokens_and_drops_repeats() {
    let mut crawl = GridCrawl::start(vec![card("A", "A"), card("A", "A2")], Some("t1".into()));
    assert_eq!(crawl.repeats_dropped(), 1);
    assert_eq!(crawl.next_fetch(), Some("t1".to_string()));
    // A page made only of cards already held still moves the crawl on to its token.
    crawl.on_page(vec![card("A", "A3")], Some("t2".into()));
    assert_eq!(crawl.next_fetch(), Some("t2".to_string()));
    crawl.on_page(vec![card("B", "B")], Some("t2".into()));
    // A token that repeats the one just used is not followed.
    assert_eq!(crawl.next_fetch(), None);
    assert_eq!(crawl.repeats_dropped(), 2);
    assert_eq!(ids(&crawl.into_items()), vec!["A", "B"]);
}

#[test]
fn an_empty_or_failed_page_ends_the_crawl_and_keeps_what_loaded() {
    let mut crawl = GridCrawl::start(vec![card("A", "A")], Some("t1".into()));
    crawl.on_page(Vec::new(), Some("t2".into()));
    assert_eq!(crawl.next_fetch(), None);
    let mut crawl2 = GridCrawl::start(vec![card("A", "A")], Some("t1".into()));
    crawl2.on_failure();
    assert_eq!(crawl2.next_fetch(), None);
    assert_eq!(ids(&crawl2.into_items()), vec!["A"]);
    assert_eq!(ids(&crawl.into_items()), vec!["A"]);
}

#[test]
fn a_grid_crawl_stops_at_the_page_cap() {
    let mut crawl = GridCrawl::start(Vec::new(), Some("t0".into()));
    for n in 0..GRID_PAGE_CAP {
        assert!(crawl.next_fetch().is_some());
        crawl.on_page(vec![card(&format!("P{n}"), "x")], Some(format!("t{}", n + 1)));
    }
    assert_eq!(crawl.next_fetch(), None);
    assert_eq!(crawl.into_items().len(), GRID_PAGE_CAP);
}

fn row(id: &str, is_video: bool) -> SongItem {
    SongItem { video_id: id.into(), is_video, ..Default::default() }
}

#[test]
fn hiding_videos_keeps_the_seed_of_a_radio() {
    let mut items = vec![row("seed", true), row("a", false), row("mv", true), row("b", false)];
    drop_video_rows_but_seed(&mut items, true, Some("seed"));
    let ids: Vec<&str> = items.iter().map(|s| s.video_id.as_str()).collect();
    assert_eq!(ids, vec!["seed", "a", "b"]);
    let mut items = vec![row("seed", true), row("a", false)];
    drop_video_rows_but_seed(&mut items, true, None);
    assert_eq!(items.len(), 1);
    let mut items = vec![row("mv", true)];
    drop_video_rows_but_seed(&mut items, false, None);
    assert_eq!(items.len(), 1);
}

#[test]
fn a_signed_out_browse_is_healed_once_then_rejected() {
    assert_eq!(browse_verdict(true, true, false, false), BrowseVerdict::HealAndRetry);
    assert_eq!(browse_verdict(true, true, true, false), BrowseVerdict::Reject);
    assert_eq!(browse_verdict(true, true, false, true), BrowseVerdict::Reject);
    assert_eq!(browse_verdict(false, true, false, false), BrowseVerdict::Accept);
    assert_eq!(browse_verdict(true, false, false, false), BrowseVerdict::Accept);
}

#[test]
fn album_tracks_lead_back_to_their_album() {
    let mut items = vec![
        SongItem { video_id: "a".into(), ..Default::default() },
        SongItem { video_id: "b".into(), album_id: Some("MPREother".into()), ..Default::default() },
    ];
    fill_album_ids(&mut items, "MPREalbum");
    assert_eq!(items[0].album_id.as_deref(), Some("MPREalbum"));
    assert_eq!(items[1].album_id.as_deref(), Some("MPREother"));
    assert_eq!(items[0].video_id, "a");
}

#[test]
fn an_album_plays_audio_where_its_page_linked_videos() {
    let page = vec![
        SongItem { video_id: "mv1".into(), is_video: true, duration: Some("3:33".into()), ..Default::default() },
        SongItem { video_id: "au2".into(), duration: Some("2:00".into()), ..Default::default() },
        SongItem { video_id: "mv3".into(), is_video: true, duration: Some("4:44".into()), ..Default::default() },
    ];
    let audio = vec![
        SongItem { video_id: "au1".into(), duration: Some("3:30".into()), ..Default::default() },
        SongItem { video_id: "x2".into(), ..Default::default() },
        SongItem { video_id: "au3".into(), duration: None, ..Default::default() },
    ];
    let mut items = page.clone();
    swap_in_audio(&mut items, &[true, false, true], &audio);
    assert_eq!(items[0].video_id, "au1");
    assert_eq!(items[0].duration.as_deref(), Some("3:30"));
    assert!(!items[0].is_video);
    assert_eq!(items[1], page[1]);
    assert_eq!(items[2].video_id, "au3");
    assert_eq!(items[2].duration.as_deref(), Some("4:44"));
    assert!(!items[2].is_video);
    // A playlist of another length is not the same album: the page keeps its video ids.
    let mut items = page.clone();
    swap_in_audio(&mut items, &[true, false, true], &audio[..2].to_vec());
    assert_eq!(items, page);
}

#[test]
fn show_more_pages_search_one_kind_of_card() {
    assert_eq!(card_filter("albums"), Ok(FILTER_ALBUM));
    assert_eq!(card_filter("artists"), Ok(FILTER_ARTIST));
    assert_eq!(card_filter("playlists"), Ok(FILTER_COMMUNITY_PLAYLIST));
    assert_eq!(card_filter("songs"), Err("unknown search category: songs".to_string()));
}
