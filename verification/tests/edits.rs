use limusic::edits::{
    add_outcome, add_video_action, clear_cover_action, custom_thumbnail_key, edit_details_actions,
    feedback_outcome, like_playlist_path, rate_path, remove_video_actions, set_cover_action,
    subscription_path, cover_refusal, WriteError, blob_id_from, upload_id_from, upload_open_headers,
    upload_send_headers, upload_send_url,
};
use limusic::json::Json;
use limusic::models::Rating;

fn to_value(j: &Json) -> serde_json::Value {
    match j {
        Json::Null => serde_json::Value::Null,
        Json::Bool(b) => serde_json::Value::Bool(*b),
        Json::Number(n) => serde_json::from_str(n).unwrap(),
        Json::Str(s) => serde_json::Value::String(s.clone()),
        Json::Array(a) => serde_json::Value::Array(a.iter().map(to_value).collect()),
        Json::Object(m) => {
            serde_json::Value::Object(m.iter().map(|(k, v)| (k.clone(), to_value(v))).collect())
        }
    }
}

fn from_value(v: &serde_json::Value) -> Json {
    match v {
        serde_json::Value::Null => Json::Null,
        serde_json::Value::Bool(b) => Json::Bool(*b),
        serde_json::Value::Number(n) => Json::Number(n.to_string()),
        serde_json::Value::String(s) => Json::Str(s.clone()),
        serde_json::Value::Array(a) => Json::Array(a.iter().map(from_value).collect()),
        serde_json::Value::Object(m) => {
            Json::Object(m.iter().map(|(k, v)| (k.clone(), from_value(v))).collect())
        }
    }
}

fn v(text: &str) -> serde_json::Value {
    serde_json::from_str(text).unwrap()
}

#[test]
fn an_add_names_the_video() {
    assert_eq!(
        to_value(&add_video_action("dQw4w9WgXcQ")),
        v(r#"{"action":"ACTION_ADD_VIDEO","addedVideoId":"dQw4w9WgXcQ"}"#)
    );
}

#[test]
fn a_bulk_removal_is_one_action_per_track() {
    let tracks = vec![("v1".to_string(), "s1".to_string()), ("v2".to_string(), "s2".to_string())];
    let actions: Vec<serde_json::Value> = remove_video_actions(&tracks).iter().map(to_value).collect();
    assert_eq!(
        actions,
        vec![
            v(r#"{"action":"ACTION_REMOVE_VIDEO","setVideoId":"s1","removedVideoId":"v1"}"#),
            v(r#"{"action":"ACTION_REMOVE_VIDEO","setVideoId":"s2","removedVideoId":"v2"}"#),
        ]
    );
    assert!(remove_video_actions(&[]).is_empty());
}

#[test]
fn only_the_details_given_are_sent() {
    assert!(edit_details_actions(None, None, None).is_empty());
    let actions: Vec<serde_json::Value> =
        edit_details_actions(Some("Road trip"), None, Some("PRIVATE")).iter().map(to_value).collect();
    assert_eq!(
        actions,
        vec![
            v(r#"{"action":"ACTION_SET_PLAYLIST_NAME","playlistName":"Road trip"}"#),
            v(r#"{"action":"ACTION_SET_PLAYLIST_PRIVACY","playlistPrivacy":"PRIVATE"}"#),
        ]
    );
    let actions: Vec<serde_json::Value> =
        edit_details_actions(None, Some(""), None).iter().map(to_value).collect();
    assert_eq!(
        actions,
        vec![v(r#"{"action":"ACTION_SET_PLAYLIST_DESCRIPTION","playlistDescription":""}"#)]
    );
}

#[test]
fn cover_actions_name_the_square_slot() {
    let key = v(r#"{"name":"studio_square_thumbnail","type":"PLAYLIST_IMAGE_TYPE_CUSTOM_THUMBNAIL"}"#);
    assert_eq!(to_value(&custom_thumbnail_key()), key);
    assert_eq!(
        to_value(&set_cover_action("BLOB")),
        v(r#"{"action":"ACTION_SET_CUSTOM_THUMBNAIL","addedCustomThumbnail":{"imageKey":{"name":"studio_square_thumbnail","type":"PLAYLIST_IMAGE_TYPE_CUSTOM_THUMBNAIL"},"playlistScottyEncryptedBlobId":"BLOB"}}"#)
    );
    assert_eq!(
        to_value(&clear_cover_action()),
        v(r#"{"action":"ACTION_REMOVE_CUSTOM_THUMBNAIL","deletedCustomThumbnail":{"name":"studio_square_thumbnail","type":"PLAYLIST_IMAGE_TYPE_CUSTOM_THUMBNAIL"}}"#)
    );
}

#[test]
fn an_add_of_a_track_already_there_is_no_error() {
    let ok = from_value(&v(r#"{"status":"STATUS_SUCCEEDED"}"#));
    assert_eq!(add_outcome(&ok), Ok(true));
    let dup = from_value(&v(
        r#"{"status":"STATUS_FAILED","actions":[{"x":{"dedupeOption":"DEDUPE_OPTION_SKIP"}}]}"#,
    ));
    assert_eq!(add_outcome(&dup), Ok(false));
    let refused = from_value(&v(r#"{"status":"STATUS_FAILED"}"#));
    assert_eq!(add_outcome(&refused), Err("YouTube refused the playlist edit.".to_string()));
}

#[test]
fn a_stale_library_token_is_reported() {
    let done = from_value(&v(r#"{"feedbackResponses":[{"isProcessed":true}]}"#));
    assert_eq!(feedback_outcome(&done), Ok(()));
    let stale = from_value(&v(r#"{"feedbackResponses":[{"isProcessed":false}]}"#));
    let message =
        Err("YouTube turned down the library change \u{2014} reopen the list and try again.".to_string());
    assert_eq!(feedback_outcome(&stale), message);
    assert_eq!(feedback_outcome(&from_value(&v(r#"{}"#))), message);
    assert_eq!(feedback_outcome(&from_value(&v(r#"{"feedbackResponses":[]}"#))), message);
    // A JSON pointer reads "0" as a member name on an object.
    let keyed = from_value(&v(r#"{"feedbackResponses":{"0":{"isProcessed":true}}}"#));
    assert_eq!(feedback_outcome(&keyed), Ok(()));
}

#[test]
fn writes_go_to_their_endpoints() {
    assert_eq!(rate_path(Rating::Like), "like/like");
    assert_eq!(rate_path(Rating::Dislike), "like/dislike");
    assert_eq!(rate_path(Rating::Indifferent), "like/removelike");
    assert_eq!(like_playlist_path(true), "like/like");
    assert_eq!(like_playlist_path(false), "like/removelike");
    assert_eq!(subscription_path(true), "subscription/subscribe");
    assert_eq!(subscription_path(false), "subscription/unsubscribe");
}

/// The image bytes were accepted moments earlier, so the credential is good: a refusal on the
/// attach is the account not being allowed a custom playlist image. Above all it must not come
/// out as "your session expired".
#[test]
fn a_refused_cover_never_reads_as_a_dead_session() {
    assert!(matches!(cover_refusal(WriteError::SessionExpired), WriteError::CoverRefused));
    // `edit_playlist`'s STATUS_FAILED rejection, which is how a 200 says no.
    assert!(matches!(
        cover_refusal(WriteError::Other("YouTube refused the playlist edit.".into())),
        WriteError::CoverRefused
    ));
    // Nothing reached YouTube at all: still worth a retry, so leave it be.
    assert!(matches!(cover_refusal(WriteError::VisitorDataNotFound), WriteError::VisitorDataNotFound));
}

#[test]
fn an_http_answer_refuses_a_cover_but_a_timeout_does_not() {
    assert!(matches!(cover_refusal(WriteError::Http { status: Some(403) }), WriteError::CoverRefused));
    assert!(matches!(
        cover_refusal(WriteError::Http { status: None }),
        WriteError::Http { status: None }
    ));
    assert!(matches!(cover_refusal(WriteError::AlreadyInPlaylist), WriteError::AlreadyInPlaylist));
}

fn pairs(h: &[(&str, &str)]) -> Vec<(String, String)> {
    h.iter().map(|(a, b)| (a.to_string(), b.to_string())).collect()
}

#[test]
fn an_upload_opens_with_the_image_length() {
    assert_eq!(
        upload_open_headers(12345),
        pairs(&[
            ("x-goog-upload-command", "start"),
            ("x-goog-upload-protocol", "resumable"),
            ("x-goog-upload-header-content-length", "12345"),
        ])
    );
    assert_eq!(
        upload_send_headers(),
        pairs(&[("x-goog-upload-command", "upload, finalize"), ("x-goog-upload-offset", "0")])
    );
}

#[test]
fn the_upload_id_comes_from_its_header() {
    let h = pairs(&[("content-type", "text/plain"), ("x-guploader-uploadid", "AB-c_d"), ("x-guploader-uploadid", "second")]);
    assert_eq!(upload_id_from(&h).unwrap(), "AB-c_d");
    match upload_id_from(&pairs(&[("content-type", "text/plain")])) {
        Err(WriteError::Other(m)) => assert_eq!(m, "YouTube didn't open an upload for the artwork."),
        other => panic!("{other:?}"),
    }
}

#[test]
fn the_send_url_encodes_the_upload_id() {
    assert_eq!(
        upload_send_url("AB-c_d.~9"),
        "playlist_image_upload/playlist_custom_thumbnail?upload_id=AB-c_d.~9&upload_protocol=resumable"
    );
    assert_eq!(
        upload_send_url("a b/+=é"),
        "playlist_image_upload/playlist_custom_thumbnail?upload_id=a%20b%2F%2B%3D%C3%A9&upload_protocol=resumable"
    );
}

#[test]
fn the_blob_id_comes_from_the_upload_answer() {
    assert_eq!(blob_id_from(&from_value(&v(r#"{"encryptedBlobId":"BLOB","x":1}"#))).unwrap(), "BLOB");
    assert_eq!(blob_id_from(&from_value(&v(r#"["BLOB"]"#))).unwrap(), "BLOB");
    for bad in [r#"{}"#, r#"{"encryptedBlobId":5}"#, r#"[]"#, r#""BLOB""#] {
        match blob_id_from(&from_value(&v(bad))) {
            Err(WriteError::Other(m)) => assert_eq!(m, "YouTube rejected the artwork upload."),
            other => panic!("{bad}: {other:?}"),
        }
    }
    // A duplicated field is no record.
    let dup = Json::Object(vec![
        ("encryptedBlobId".to_string(), Json::Str("a".into())),
        ("encryptedBlobId".to_string(), Json::Str("b".into())),
    ]);
    assert!(blob_id_from(&dup).is_err());
}
