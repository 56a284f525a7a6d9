use limusic::json::Json;
use limusic::metadata::{
    is_explicit, is_upload_row, is_video_row, library_toggle, like_status, parse_account_menu,
    parse_list_item, parse_next, parse_search, split_datasync_id,
};
use limusic::models::Rating;

/// A JSON document in the parsers' own shape.
fn from_value(v: &serde_json::Value) -> Json {
    match v {
        serde_json::Value::Null => Json::Null,
        serde_json::Value::Bool(b) => Json::Bool(*b),
        serde_json::Value::Number(n) => Json::Number(n.to_string()),
        serde_json::Value::String(s) => Json::Str(s.clone()),
        serde_json::Value::Array(a) => Json::Array(a.iter().map(from_value).collect()),
        serde_json::Value::Object(m) => {
            Json::Object(m.iter().map(|(k, v)| (k.clone(), from_value(v))).collect())
        }
    }
}

fn j(text: &str) -> Json {
    from_value(&serde_json::from_str::<serde_json::Value>(text).expect("test JSON parses"))
}

fn cfg(t: &str) -> String {
    format!(
        r#"{{ "watchEndpoint": {{ "videoId": "v",
            "watchEndpointMusicSupportedConfigs": {{
                "watchEndpointMusicConfig": {{ "musicVideoType": "{t}" }} }} }} }}"#
    )
}

fn overlay(t: &str) -> String {
    format!(
        r#"{{ "musicItemThumbnailOverlayRenderer": {{ "content": {{
            "musicPlayButtonRenderer": {{ "playNavigationEndpoint": {} }} }} }} }}"#,
        cfg(t)
    )
}

#[test]
fn video_rows_are_recognised_in_every_renderer_shape() {
    let nav = |t: &str| j(&format!(r#"{{ "navigationEndpoint": {} }}"#, cfg(t)));
    assert!(is_video_row(&nav("MUSIC_VIDEO_TYPE_OMV")));
    assert!(is_video_row(&nav("MUSIC_VIDEO_TYPE_UGC")));
    assert!(!is_video_row(&nav("MUSIC_VIDEO_TYPE_ATV")));

    assert!(is_video_row(&j(&format!(
        r#"{{ "overlay": {}, "navigationEndpoint": {} }}"#,
        overlay("MUSIC_VIDEO_TYPE_OMV"),
        cfg("MUSIC_VIDEO_TYPE_ATV")
    ))));
    assert!(!is_video_row(&j(&format!(
        r#"{{ "thumbnailOverlay": {}, "navigationEndpoint": {} }}"#,
        overlay("MUSIC_VIDEO_TYPE_ATV"),
        cfg("MUSIC_VIDEO_TYPE_OMV")
    ))));

    assert!(!is_video_row(&j(r#"{ "navigationEndpoint": { "watchEndpoint": { "videoId": "v" } } }"#)));
    assert!(!is_video_row(&j("{}")));

    let up = "MUSIC_VIDEO_TYPE_PRIVATELY_OWNED_TRACK";
    assert!(!is_video_row(&nav(up)));
    assert!(!is_video_row(&j(&format!(r#"{{ "overlay": {} }}"#, overlay(up)))));
}

#[test]
fn upload_rows_are_recognised_in_every_renderer_shape() {
    let up = "MUSIC_VIDEO_TYPE_PRIVATELY_OWNED_TRACK";
    assert!(is_upload_row(&j(&format!(r#"{{ "navigationEndpoint": {} }}"#, cfg(up)))));
    assert!(is_upload_row(&j(&format!(r#"{{ "overlay": {} }}"#, overlay(up)))));
    assert!(is_upload_row(&j(&format!(r#"{{ "thumbnailOverlay": {} }}"#, overlay(up)))));
    assert!(is_upload_row(&j(&format!(
        r#"{{ "overlay": {}, "navigationEndpoint": {} }}"#,
        overlay(up),
        cfg("MUSIC_VIDEO_TYPE_ATV")
    ))));
    assert!(!is_upload_row(&j(&format!(
        r#"{{ "overlay": {}, "navigationEndpoint": {} }}"#,
        overlay("MUSIC_VIDEO_TYPE_ATV"),
        cfg(up)
    ))));
    assert!(!is_upload_row(&j(&format!(r#"{{ "navigationEndpoint": {} }}"#, cfg("MUSIC_VIDEO_TYPE_OMV")))));
    assert!(!is_upload_row(&j("{}")));
}

fn toggle(default_icon: &str, toggled_icon: &str) -> Json {
    j(&format!(
        r#"{{ "menu": {{ "menuRenderer": {{ "items": [
            {{ "toggleMenuServiceItemRenderer": {{
                "defaultIcon": {{ "iconType": "{default_icon}" }},
                "defaultServiceEndpoint": {{ "feedbackEndpoint": {{ "feedbackToken": "TOK_DEFAULT" }} }},
                "toggledIcon": {{ "iconType": "{toggled_icon}" }},
                "toggledServiceEndpoint": {{ "feedbackEndpoint": {{ "feedbackToken": "TOK_TOGGLED" }} }}
            }} }}
        ] }} }} }}"#
    ))
}

#[test]
fn reads_the_library_action_in_every_shape() {
    let out = library_toggle(&toggle("BOOKMARK_BORDER", "BOOKMARK")).unwrap();
    assert!(!out.in_library);
    assert_eq!(out.add_token.as_deref(), Some("TOK_DEFAULT"));
    assert_eq!(out.remove_token.as_deref(), Some("TOK_TOGGLED"));

    let out = library_toggle(&toggle("BOOKMARK", "BOOKMARK_BORDER")).unwrap();
    assert!(out.in_library);
    assert_eq!(out.add_token.as_deref(), Some("TOK_TOGGLED"));
    assert_eq!(out.remove_token.as_deref(), Some("TOK_DEFAULT"));

    assert!(!library_toggle(&toggle("LIBRARY_ADD", "LIBRARY_REMOVE")).unwrap().in_library);

    let one_way = j(r#"{ "menu": { "menuRenderer": { "items": [
        { "menuServiceItemRenderer": {
            "icon": { "iconType": "BOOKMARK_BORDER" },
            "serviceEndpoint": { "feedbackEndpoint": { "feedbackToken": "TOK_ONE_WAY" } }
        } }
    ] } } }"#);
    let out = library_toggle(&one_way).unwrap();
    assert!(!out.in_library);
    assert_eq!(out.add_token.as_deref(), Some("TOK_ONE_WAY"));
    assert_eq!(out.remove_token, None);

    assert_eq!(library_toggle(&toggle("FAVORITE", "UNFAVORITE")), None);
    assert_eq!(library_toggle(&toggle("KEEP", "KEEP_OFF")), None);
    assert_eq!(library_toggle(&j("{}")), None);
}

#[test]
fn reads_all_three_rating_states() {
    let row = |status: &str| {
        j(&format!(
            r#"{{ "menu": {{ "menuRenderer": {{ "topLevelButtons": [
                {{ "likeButtonRenderer": {{ "likeStatus": "{status}" }} }}
            ] }} }} }}"#
        ))
    };
    assert_eq!(like_status(&row("LIKE")), Some(Rating::Like));
    assert_eq!(like_status(&row("DISLIKE")), Some(Rating::Dislike));
    assert_eq!(like_status(&row("INDIFFERENT")), Some(Rating::Indifferent));
    assert_eq!(like_status(&row("SOMETHING_NEW")), Some(Rating::Indifferent));
    assert_eq!(like_status(&j("{}")), None);
}

#[test]
fn parses_the_automix_the_panel_continues_into() {
    let root = j(r#"{
        "contents": { "playlistPanelRenderer": { "contents": [
            { "playlistPanelVideoRenderer": {
                "videoId": "seed1",
                "title": { "runs": [{ "text": "Only Song" }] },
                "longBylineText": { "runs": [{ "text": "An Artist" }] },
                "lengthText": { "runs": [{ "text": "3:00" }] },
                "thumbnail": { "thumbnails": [{ "url": "https://t/1" }] }
            } },
            { "automixPreviewVideoRenderer": { "content": { "automixPlaylistVideoRenderer": {
                "navigationEndpoint": { "watchPlaylistEndpoint": { "playlistId": "RDAMVMseed1" } }
            } } } }
        ] } }
    }"#);
    let out = parse_next(&root);
    assert_eq!(out.items.len(), 1);
    assert_eq!(out.automix_playlist_id.as_deref(), Some("RDAMVMseed1"));
}

#[test]
fn a_wrapped_row_contributes_only_its_primary() {
    let renderer = |id: &str, len: &str| {
        format!(
            r#"{{ "playlistPanelVideoRenderer": {{
                "videoId": "{id}",
                "title": {{ "runs": [{{ "text": "Sunflower" }}] }},
                "longBylineText": {{ "runs": [{{ "text": "Post Malone" }}] }},
                "lengthText": {{ "runs": [{{ "text": "{len}" }}] }},
                "thumbnail": {{ "thumbnails": [{{ "url": "https://t/1" }}] }}
            }} }}"#
        )
    };
    let root = j(&format!(
        r#"{{
            "contents": {{ "playlistPanelRenderer": {{ "contents": [
                {{ "playlistPanelVideoWrapperRenderer": {{
                    "primaryRenderer": {},
                    "counterpart": [{{ "counterpartRenderer": {} }}]
                }} }},
                {}
            ] }} }}
        }}"#,
        renderer("audio1", "2:39"),
        renderer("video1", "2:42"),
        renderer("plain1", "3:00")
    ));
    let out = parse_next(&root);
    let ids: Vec<&str> = out.items.iter().map(|i| i.video_id.as_str()).collect();
    assert_eq!(ids, ["audio1", "plain1"]);
}

#[test]
fn no_automix_on_a_live_radio_page() {
    let root = j(r#"{
        "contents": { "playlistPanelRenderer": {
            "playlistId": "RDAMVMseed1",
            "contents": []
        } }
    }"#);
    assert_eq!(parse_next(&root).automix_playlist_id, None);
}

#[test]
fn parses_search_item() {
    let root = j(r#"{
        "a": { "musicResponsiveListItemRenderer": {
            "playlistItemData": { "videoId": "abc123" },
            "flexColumns": [
                { "musicResponsiveListItemFlexColumnRenderer": { "text": { "runs": [{ "text": "Song Title" }] } } },
                { "musicResponsiveListItemFlexColumnRenderer": { "text": { "runs": [
                    { "text": "The Artist", "navigationEndpoint": { "browseEndpoint": { "browseId": "UCartist1" } } },
                    { "text": " & " },
                    { "text": "Guest", "navigationEndpoint": { "browseEndpoint": { "browseId": "UCartist2" } } },
                    { "text": " • " },
                    { "text": "The Album", "navigationEndpoint": { "browseEndpoint": { "browseId": "MPREalbum1" } } },
                    { "text": " • " }, { "text": "3:21" }
                ] } } }
            ],
            "thumbnail": { "musicThumbnailRenderer": { "thumbnail": { "thumbnails": [
                { "url": "small.jpg" }, { "url": "big.jpg" }
            ] } } }
        }}
    }"#);
    let r = parse_search(&root);
    assert_eq!(r.items.len(), 1);
    let s = &r.items[0];
    assert_eq!(s.video_id, "abc123");
    assert_eq!(s.title, "Song Title");
    assert_eq!(s.artists, "The Artist & Guest");
    assert_eq!(s.artist_id.as_deref(), Some("UCartist1"));
    assert_eq!(
        s.artist_runs.iter().map(|r| (r.text.as_str(), r.id.as_deref())).collect::<Vec<_>>(),
        vec![("The Artist", Some("UCartist1")), (" & ", None), ("Guest", Some("UCartist2"))]
    );
    assert_eq!(s.album.as_deref(), Some("The Album"));
    assert_eq!(s.album_id.as_deref(), Some("MPREalbum1"));
    assert_eq!(s.duration.as_deref(), Some("3:21"));
    assert_eq!(s.thumbnail.as_deref(), Some("big.jpg"));
}

fn three_column_row(third_run: &str) -> Json {
    j(&format!(
        r#"{{
            "playlistItemData": {{ "videoId": "abc123" }},
            "flexColumns": [
                {{ "musicResponsiveListItemFlexColumnRenderer": {{ "text": {{ "runs": [{{ "text": "Song Title" }}] }} }} }},
                {{ "musicResponsiveListItemFlexColumnRenderer": {{ "text": {{ "runs": [{{ "text": "The Artist" }}] }} }} }},
                {{ "musicResponsiveListItemFlexColumnRenderer": {{ "text": {{ "runs": [{third_run}] }} }} }}
            ]
        }}"#
    ))
}

#[test]
fn play_count_comes_only_from_a_plays_column() {
    let plays = |third: &str| parse_list_item(&three_column_row(&format!(r#"{{ "text": "{third}" }}"#)));
    assert_eq!(plays("53M plays").unwrap().play_count.as_deref(), Some("53M"));
    assert_eq!(plays("1,234 plays").unwrap().play_count.as_deref(), Some("1,234"));
    assert_eq!(plays("The Album").unwrap().play_count, None);
    assert_eq!(plays("").unwrap().play_count, None);
    assert_eq!(plays("The Album").unwrap().album.as_deref(), Some("The Album"));
    assert_eq!(plays("53M plays").unwrap().album, None);
    assert_eq!(plays("").unwrap().album, None);
}

#[test]
fn a_localized_play_count_is_still_a_play_count() {
    let row = |third: &str, link: bool| {
        let run = if link {
            format!(
                r#"{{ "text": "{third}", "navigationEndpoint": {{ "browseEndpoint": {{ "browseId": "MPREalbum1" }} }} }}"#
            )
        } else {
            format!(r#"{{ "text": "{third}" }}"#)
        };
        three_column_row(&run)
    };
    let ko = parse_list_item(&row("9845만회 재생", false)).unwrap();
    assert_eq!(ko.play_count.as_deref(), Some("9845만회"));
    assert_eq!(ko.album, None);
    let ja = parse_list_item(&row("9845万回再生", false)).unwrap();
    assert_eq!(ja.play_count.as_deref(), Some("9845万回再生"));
    let album = parse_list_item(&row("1989", true)).unwrap();
    assert_eq!(album.play_count, None);
    assert_eq!(album.album.as_deref(), Some("1989"));
}

#[test]
fn a_localized_type_label_is_not_an_artist() {
    let row = j(r#"{
        "playlistItemData": { "videoId": "abc123" },
        "flexColumns": [
            { "musicResponsiveListItemFlexColumnRenderer": { "text": { "runs": [{ "text": "Himmelen brenner" }] } } },
            { "musicResponsiveListItemFlexColumnRenderer": { "text": { "runs": [
                { "text": "노래" }, { "text": " \u2022 " }, { "text": "2:43" }
            ] } } }
        ]
    }"#);
    let s = parse_list_item(&row).unwrap();
    assert_eq!(s.artists, "");
    assert_eq!(s.duration.as_deref(), Some("2:43"));
    assert_eq!(s.album, None);
}

#[test]
fn a_duration_only_subtitle_has_no_artist() {
    let row = j(r#"{
        "playlistItemData": { "videoId": "abc123" },
        "flexColumns": [
            { "musicResponsiveListItemFlexColumnRenderer": { "text": { "runs": [{ "text": "Not Strong Enough" }] } } },
            { "musicResponsiveListItemFlexColumnRenderer": { "text": { "runs": [
                { "text": "Song" }, { "text": " \u2022 " }, { "text": "3:55" }
            ] } } }
        ]
    }"#);
    let s = parse_list_item(&row).unwrap();
    assert_eq!(s.artists, "");
    assert!(s.artist_runs.is_empty());
    assert_eq!(s.duration.as_deref(), Some("3:55"));
    assert_eq!(s.album, None);
}

#[test]
fn a_colon_in_a_name_is_not_a_duration() {
    let row = j(r#"{
        "playlistItemData": { "videoId": "abc123" },
        "flexColumns": [
            { "musicResponsiveListItemFlexColumnRenderer": { "text": { "runs": [{ "text": "Monster" }] } } },
            { "musicResponsiveListItemFlexColumnRenderer": { "text": { "runs": [
                { "text": "Jorge Rivera-Herrans & Cast of EPIC: The Musical",
                  "navigationEndpoint": { "browseEndpoint": { "browseId": "UCjorge" } } },
                { "text": " • " }, { "text": "EPIC: The Musical" }
            ] } } }
        ],
        "fixedColumns": [
            { "musicResponsiveListItemFixedColumnRenderer": { "text": { "runs": [{ "text": "4:32" }] } } }
        ]
    }"#);
    let s = parse_list_item(&row).unwrap();
    assert_eq!(s.artists, "Jorge Rivera-Herrans & Cast of EPIC: The Musical");
    assert_eq!(s.album.as_deref(), Some("EPIC: The Musical"));
    assert_eq!(s.duration.as_deref(), Some("4:32"));
}

#[test]
fn parses_next_panel_video() {
    let root = j(r#"{
        "contents": { "playlistPanelRenderer": { "contents": [
            { "playlistPanelVideoRenderer": {
                "videoId": "vid9",
                "title": { "runs": [{ "text": "Next Song" }] },
                "longBylineText": { "runs": [{ "text": "Artist A" }, { "text": " & " }, { "text": "Artist B" }] },
                "lengthText": { "runs": [{ "text": "4:05" }] },
                "thumbnail": { "thumbnails": [{ "url": "t.jpg" }] }
            }}
        ], "continuations": [{ "nextContinuationData": { "continuation": "CONT_TOKEN" } }] } },
        "tabs": [{ "tabRenderer": { "title": "Lyrics", "endpoint": { "browseEndpoint": {
            "browseId": "MPLYt_abc123",
            "browseEndpointContextSupportedConfigs": { "browseEndpointContextMusicConfig": {
                "pageType": "MUSIC_PAGE_TYPE_TRACK_LYRICS" } }
        } } } }]
    }"#);
    let r = parse_next(&root);
    assert_eq!(r.items.len(), 1);
    assert_eq!(r.items[0].video_id, "vid9");
    assert_eq!(r.items[0].title, "Next Song");
    assert_eq!(r.items[0].artists, "Artist A & Artist B");
    assert_eq!(r.items[0].duration.as_deref(), Some("4:05"));
    assert_eq!(r.continuation.as_deref(), Some("CONT_TOKEN"));
    assert_eq!(r.lyrics_browse_id.as_deref(), Some("MPLYt_abc123"));
    assert_eq!(r.rating, None);
}

#[test]
fn next_reads_the_requested_videos_rating_from_the_player_overlay() {
    let root = j(r#"{
        "contents": { "playlistPanelRenderer": { "contents": [
            { "playlistPanelVideoRenderer": {
                "videoId": "vid9",
                "title": { "runs": [{ "text": "Next Song" }] }
            }}
        ] } },
        "playerOverlays": { "playerOverlayRenderer": { "actions": [
            { "likeButtonRenderer": { "likeStatus": "LIKE" } }
        ] } }
    }"#);
    let r = parse_next(&root);
    assert_eq!(r.rating, Some(Rating::Like));
    assert_eq!(r.items[0].rating, None);
}

#[test]
fn drops_the_result_type_from_a_search_row() {
    let root = j(r#"{
        "a": { "musicResponsiveListItemRenderer": {
            "playlistItemData": { "videoId": "abc123" },
            "flexColumns": [
                { "musicResponsiveListItemFlexColumnRenderer": { "text": { "runs": [{ "text": "Hele uka" }] } } },
                { "musicResponsiveListItemFlexColumnRenderer": { "text": { "runs": [
                    { "text": "Song" }, { "text": " • " },
                    { "text": "Delara", "navigationEndpoint": { "browseEndpoint": { "browseId": "UCdelara" } } },
                    { "text": " • " }, { "text": "3:02" }
                ] } } }
            ]
        }}
    }"#);
    let s = &parse_search(&root).items[0];
    assert_eq!(s.artists, "Delara");
    assert_eq!(s.album, None);
    assert_eq!(s.duration.as_deref(), Some("3:02"));
    assert_eq!(
        s.artist_runs.iter().map(|r| (r.text.as_str(), r.id.as_deref())).collect::<Vec<_>>(),
        [("Delara", Some("UCdelara"))]
    );
}

#[test]
fn panel_byline_keeps_only_the_artist() {
    let root = j(r#"{
        "contents": { "playlistPanelRenderer": { "contents": [
            { "playlistPanelVideoRenderer": {
                "videoId": "vid9",
                "title": { "runs": [{ "text": "Hele uka" }] },
                "longBylineText": { "runs": [
                    { "text": "Delara", "navigationEndpoint": { "browseEndpoint": { "browseId": "UCdelara" } } },
                    { "text": " • " }, { "text": "Sjelen" }, { "text": " • " }, { "text": "2026" }
                ] }
            }}
        ] } }
    }"#);
    assert_eq!(parse_next(&root).items[0].artists, "Delara");
}

#[test]
fn splits_datasync_id() {
    assert_eq!(split_datasync_id("realid||other"), "realid");
    assert_eq!(split_datasync_id("||fallback"), "fallback");
    assert_eq!(split_datasync_id("plain"), "plain");
}

#[test]
fn explicit_badge_is_read_from_every_key_it_arrives_under() {
    let badge = r#"[{ "musicInlineBadgeRenderer": {
        "icon": { "iconType": "MUSIC_EXPLICIT_BADGE" },
        "accessibilityData": { "accessibilityData": { "label": "Explicit" } }
    } }]"#;
    let single = r#"{ "musicInlineBadgeRenderer": {
        "icon": { "iconType": "MUSIC_EXPLICIT_BADGE" },
        "accessibilityData": { "accessibilityData": { "label": "Explicit" } }
    } }"#;
    assert!(is_explicit(&j(&format!(r#"{{ "badges": {badge} }}"#))));
    assert!(is_explicit(&j(&format!(r#"{{ "subtitleBadges": {badge} }}"#))));
    assert!(is_explicit(&j(&format!(r#"{{ "subtitleBadge": {badge} }}"#))));
    assert!(is_explicit(&j(&format!(
        r#"{{ "badges": [
            {{ "musicInlineBadgeRenderer": {{ "icon": {{ "iconType": "MUSIC_NEW_RELEASE_BADGE" }} }} }},
            {single}
        ] }}"#
    ))));
    assert!(!is_explicit(&j(r#"{ "badges": [
        { "musicInlineBadgeRenderer": { "icon": { "iconType": "MUSIC_NEW_RELEASE_BADGE" } } }
    ] }"#)));
    assert!(!is_explicit(&j("{}")));
    assert!(!is_explicit(&j(&format!(r#"{{ "contents": [{{ "subtitleBadges": {badge} }}] }}"#))));
}

#[test]
fn absent_or_empty_response_datasync_id_is_none() {
    assert_eq!(parse_account_menu(&j("{}")).data_sync_id, None);
    assert_eq!(
        parse_account_menu(&j(
            r#"{ "responseContext": { "mainAppWebResponseContext": { "datasyncId": "||" } } }"#
        ))
        .data_sync_id,
        None
    );
}

#[test]
fn set_video_id_only_comes_from_a_row_that_may_be_removed() {
    let row = |menu: &str| {
        j(&format!(
            r#"{{
                "playlistItemData": {{ "playlistSetVideoId": "SVID", "videoId": "vid1" }},
                "flexColumns": [{{ "musicResponsiveListItemFlexColumnRenderer": {{
                    "text": {{ "runs": [{{ "text": "Alpha" }}] }} }} }}],
                "menu": {menu}
            }}"#
        ))
    };
    let remove = r#"{ "menuRenderer": { "items": [{ "menuServiceItemRenderer": {
        "serviceEndpoint": { "playlistEditEndpoint": {
            "actions": [{ "setVideoId": "SVID", "action": "ACTION_REMOVE_VIDEO" }] } } } }] } }"#;
    let share = r#"{ "menuRenderer": { "items": [{ "menuNavigationItemRenderer": {} }] } }"#;
    assert_eq!(parse_list_item(&row(remove)).unwrap().set_video_id.as_deref(), Some("SVID"));
    assert_eq!(parse_list_item(&row(share)).unwrap().set_video_id, None);
}

#[test]
fn a_row_carries_the_contributor_who_added_it() {
    let node = j(r#"{
        "playlistItemData": { "videoId": "vid1" },
        "flexColumns": [{ "musicResponsiveListItemFlexColumnRenderer": {
            "text": { "runs": [{ "text": "Alpha" }] } } }],
        "contributorsAvatars": { "avatarStackViewModel": { "avatars": [{ "avatarViewModel": {
            "image": { "sources": [{ "url": "https://yt3.ggpht.com/abc=s48" }] },
            "accessibilityText": "Rajat"
        } }] } }
    }"#);
    let item = parse_list_item(&node).unwrap();
    assert_eq!(item.added_by.as_deref(), Some("Rajat"));
    assert_eq!(item.added_by_avatar.as_deref(), Some("https://yt3.ggpht.com/abc=s48"));
    assert_eq!(
        parse_list_item(&j(r#"{
            "playlistItemData": { "videoId": "vid1" },
            "flexColumns": [{ "musicResponsiveListItemFlexColumnRenderer": {
                "text": { "runs": [{ "text": "Alpha" }] } } }]
        }"#))
        .unwrap()
        .added_by,
        None
    );
}

#[test]
fn a_row_without_a_title_is_no_song() {
    assert!(parse_list_item(&j(r#"{ "playlistItemData": { "videoId": "vid1" } }"#)).is_none());
    assert!(parse_list_item(&j("{}")).is_none());
}
