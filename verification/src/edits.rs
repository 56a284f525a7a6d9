//! The bodies of account writes (playlist edits, ratings, library changes, subscriptions) and
//! what their answers mean.

use vstd::prelude::*;
use crate::endpoints::{edit_rejection, edit_rejection_spec, EditRejection};
use crate::json::{
    as_bool, as_str, bool_of, deref, get, get_in, get_member, get_opt, member, str_of, Json,
};
use crate::player::{find_header, header_named};
use crate::stream_proxy::headers_view;
use crate::models::Rating;
use crate::text::{
    chars_of, decimal, opt_str, push_decimal, push_str, push_url_encoded, str_eq, string_of,
    url_encoded,
};

verus! {

/// A member named `key` holding the string `text`.
pub open spec fn text_member(e: (String, Json), key: Seq<char>, text: Seq<char>) -> bool {
    e.0@ == key && match e.1 {
        Json::Str(s) => s@ == text,
        _ => false,
    }
}

/// An object whose members are exactly the strings `texts` under the names `keys`, in order.
pub open spec fn is_text_object(v: Json, keys: Seq<Seq<char>>, texts: Seq<Seq<char>>) -> bool {
    match v {
        Json::Object(m) => {
            &&& m@.len() == keys.len()
            &&& keys.len() == texts.len()
            &&& forall|i: int| 0 <= i < m@.len() ==> text_member(#[trigger] m@[i], keys[i], texts[i])
        },
        _ => false,
    }
}

/// The member `key: "text"`.
fn text_entry(key: &str, text: &str) -> (r: (String, Json))
    ensures
        text_member(r, key@, text@),
{
    (string_of(&chars_of(key)), Json::Str(string_of(&chars_of(text))))
}

/// `{ key0: text0, key1: text1 }`.
fn pair_object(key0: &str, text0: &str, key1: &str, text1: &str) -> (r: Json)
    ensures
        is_text_object(r, seq![key0@, key1@], seq![text0@, text1@]),
{
    let a = text_entry(key0, text0);
    let b = text_entry(key1, text1);
    let m = vec![a, b];
    let r = Json::Object(m);
    proof {
        assert(m@[0] == a && m@[1] == b);
    }
    r
}

/// The edit action that adds `video_id` to a playlist.
pub fn add_video_action(video_id: &str) -> (r: Json)
    ensures
        is_text_object(r, seq!["action"@, "addedVideoId"@], seq!["ACTION_ADD_VIDEO"@, video_id@]),
{
    pair_object("action", "ACTION_ADD_VIDEO", "addedVideoId", video_id)
}

/// The action that removes one track, named by its video id and its place in the playlist.
pub open spec fn is_remove_action(v: Json, video_id: Seq<char>, set_video_id: Seq<char>) -> bool {
    is_text_object(
        v,
        seq!["action"@, "setVideoId"@, "removedVideoId"@],
        seq!["ACTION_REMOVE_VIDEO"@, set_video_id, video_id],
    )
}

/// One removal action per track, in order, so that a bulk removal is one request. Each track is
/// its video id and its `setVideoId`.
pub fn remove_video_actions(tracks: &[(String, String)]) -> (r: Vec<Json>)
    ensures
        r@.len() == tracks@.len(),
        forall|i: int|
            0 <= i < r@.len() ==> is_remove_action(
                #[trigger] r@[i],
                tracks@[i].0@,
                tracks@[i].1@,
            ),
{
    let mut out: Vec<Json> = Vec::new();
    let mut i: usize = 0;
    while i < tracks.len()
        invariant
            i <= tracks@.len(),
            out@.len() == i,
            forall|j: int|
                0 <= j < i ==> is_remove_action(#[trigger] out@[j], tracks@[j].0@, tracks@[j].1@),
        decreases tracks@.len() - i,
    {
        let a = text_entry("action", "ACTION_REMOVE_VIDEO");
        let b = text_entry("setVideoId", tracks[i].1.as_str());
        let c = text_entry("removedVideoId", tracks[i].0.as_str());
        let m = vec![a, b, c];
        proof {
            assert(m@[0] == a && m@[1] == b && m@[2] == c);
        }
        out.push(Json::Object(m));
        i += 1;
    }
    out
}

/// The detail edits asked for, in the order name, description, privacy: each as its action, the
/// member it sets, and the new text. A detail not given is not sent, so an edit of one cannot
/// blank another.
pub open spec fn detail_edits(
    name: Option<Seq<char>>,
    description: Option<Seq<char>>,
    privacy: Option<Seq<char>>,
) -> Seq<(Seq<char>, Seq<char>, Seq<char>)> {
    let a: Seq<(Seq<char>, Seq<char>, Seq<char>)> = match name {
        Some(n) => seq![("ACTION_SET_PLAYLIST_NAME"@, "playlistName"@, n)],
        None => seq![],
    };
    let b: Seq<(Seq<char>, Seq<char>, Seq<char>)> = match description {
        Some(d) => seq![("ACTION_SET_PLAYLIST_DESCRIPTION"@, "playlistDescription"@, d)],
        None => seq![],
    };
    let c: Seq<(Seq<char>, Seq<char>, Seq<char>)> = match privacy {
        Some(p) => seq![("ACTION_SET_PLAYLIST_PRIVACY"@, "playlistPrivacy"@, p)],
        None => seq![],
    };
    a + b + c
}

/// Every detail that is given is sent, each by its own action, whatever else is given; and
/// nothing else is sent: one action per detail given.
pub proof fn lemma_every_given_detail_is_sent(
    name: Option<Seq<char>>,
    description: Option<Seq<char>>,
    privacy: Option<Seq<char>>,
)
    ensures
        ({
            let e = detail_edits(name, description, privacy);
            &&& e.len() == (if name is Some { 1int } else { 0 }) + (if description is Some {
                1int
            } else {
                0
            }) + (if privacy is Some { 1int } else { 0 })
            &&& name matches Some(n) ==> e.contains(("ACTION_SET_PLAYLIST_NAME"@, "playlistName"@, n))
            &&& description matches Some(d) ==> e.contains(
                ("ACTION_SET_PLAYLIST_DESCRIPTION"@, "playlistDescription"@, d),
            )
            &&& privacy matches Some(p) ==> e.contains(
                ("ACTION_SET_PLAYLIST_PRIVACY"@, "playlistPrivacy"@, p),
            )
        }),
{
    let e = detail_edits(name, description, privacy);
    let i: int = if name is Some { 1 } else { 0 };
    let j: int = i + if description is Some { 1int } else { 0 };
    if let Some(n) = name {
        assert(e[0] == ("ACTION_SET_PLAYLIST_NAME"@, "playlistName"@, n));
    }
    if let Some(d) = description {
        assert(e[i] == ("ACTION_SET_PLAYLIST_DESCRIPTION"@, "playlistDescription"@, d));
    }
    if let Some(p) = privacy {
        assert(e[j] == ("ACTION_SET_PLAYLIST_PRIVACY"@, "playlistPrivacy"@, p));
    }
}

/// The action that makes one detail edit: `{ "action": <action>, <member>: <text> }`.
pub open spec fn is_detail_action(v: Json, e: (Seq<char>, Seq<char>, Seq<char>)) -> bool {
    is_text_object(v, seq!["action"@, e.1], seq![e.0, e.2])
}

/// The edit actions for a change of a playlist's details (privacy in YouTube's own words:
/// `PUBLIC`, `PRIVATE`, `UNLISTED`). None at all when nothing is to change.
pub fn edit_details_actions(name: Option<&str>, description: Option<&str>, privacy: Option<&str>) -> (r:
    Vec<Json>)
    ensures
        r@.len() == detail_edits(opt_str(name), opt_str(description), opt_str(privacy)).len(),
        forall|i: int|
            0 <= i < r@.len() ==> is_detail_action(
                #[trigger] r@[i],
                detail_edits(opt_str(name), opt_str(description), opt_str(privacy))[i],
            ),
{
    let ghost edits = detail_edits(opt_str(name), opt_str(description), opt_str(privacy));
    let mut out: Vec<Json> = Vec::new();
    let ghost mut want: Seq<(Seq<char>, Seq<char>, Seq<char>)> = seq![];
    if let Some(n) = name {
        out.push(pair_object("action", "ACTION_SET_PLAYLIST_NAME", "playlistName", n));
        proof {
            want = want.push(("ACTION_SET_PLAYLIST_NAME"@, "playlistName"@, n@));
        }
    }
    if let Some(d) = description {
        out.push(pair_object("action", "ACTION_SET_PLAYLIST_DESCRIPTION", "playlistDescription", d));
        proof {
            want = want.push(("ACTION_SET_PLAYLIST_DESCRIPTION"@, "playlistDescription"@, d@));
        }
    }
    if let Some(p) = privacy {
        out.push(pair_object("action", "ACTION_SET_PLAYLIST_PRIVACY", "playlistPrivacy", p));
        proof {
            want = want.push(("ACTION_SET_PLAYLIST_PRIVACY"@, "playlistPrivacy"@, p@));
        }
    }
    proof {
        assert(want =~= edits);
        assert forall|i: int| 0 <= i < out@.len() implies is_detail_action(
            #[trigger] out@[i],
            edits[i],
        ) by {
            assert(edits[i] == want[i]);
        }
    }
    out
}

/// The one image slot a playlist has, square by name.
pub open spec fn is_thumbnail_key(v: Json) -> bool {
    is_text_object(
        v,
        seq!["name"@, "type"@],
        seq!["studio_square_thumbnail"@, "PLAYLIST_IMAGE_TYPE_CUSTOM_THUMBNAIL"@],
    )
}

/// The playlist's image slot.
pub fn custom_thumbnail_key() -> (r: Json)
    ensures
        is_thumbnail_key(r),
{
    pair_object("name", "studio_square_thumbnail", "type", "PLAYLIST_IMAGE_TYPE_CUSTOM_THUMBNAIL")
}

/// The action that makes the uploaded image `blob` a playlist's cover.
pub open spec fn is_set_cover_action(v: Json, blob: Seq<char>) -> bool {
    match v {
        Json::Object(m) => {
            &&& m@.len() == 2
            &&& text_member(m@[0], "action"@, "ACTION_SET_CUSTOM_THUMBNAIL"@)
            &&& m@[1].0@ == "addedCustomThumbnail"@
            &&& match m@[1].1 {
                Json::Object(n) => {
                    &&& n@.len() == 2
                    &&& n@[0].0@ == "imageKey"@
                    &&& is_thumbnail_key(n@[0].1)
                    &&& text_member(n@[1], "playlistScottyEncryptedBlobId"@, blob)
                },
                _ => false,
            }
        },
        _ => false,
    }
}

/// The edit action that attaches an uploaded image as the playlist's cover.
pub fn set_cover_action(blob_id: &str) -> (r: Json)
    ensures
        is_set_cover_action(r, blob_id@),
{
    let key = custom_thumbnail_key();
    let blob = text_entry("playlistScottyEncryptedBlobId", blob_id);
    let inner_members = vec![(string_of(&chars_of("imageKey")), key), blob];
    let inner = Json::Object(inner_members);
    let action = text_entry("action", "ACTION_SET_CUSTOM_THUMBNAIL");
    let outer = vec![action, (string_of(&chars_of("addedCustomThumbnail")), inner)];
    proof {
        assert(inner_members@[1] == blob);
        assert(outer@[0] == action);
    }
    Json::Object(outer)
}

/// The action that takes a playlist's own cover away, leaving YouTube to build one from the
/// tracks.
pub open spec fn is_clear_cover_action(v: Json) -> bool {
    match v {
        Json::Object(m) => {
            &&& m@.len() == 2
            &&& text_member(m@[0], "action"@, "ACTION_REMOVE_CUSTOM_THUMBNAIL"@)
            &&& m@[1].0@ == "deletedCustomThumbnail"@
            &&& is_thumbnail_key(m@[1].1)
        },
        _ => false,
    }
}

/// The edit action that removes a playlist's own cover.
pub fn clear_cover_action() -> (r: Json)
    ensures
        is_clear_cover_action(r),
{
    let action = text_entry("action", "ACTION_REMOVE_CUSTOM_THUMBNAIL");
    let m = vec![action, (string_of(&chars_of("deletedCustomThumbnail")), custom_thumbnail_key())];
    proof {
        assert(m@[0] == action);
    }
    Json::Object(m)
}

/// What an add answered with `v` comes to: added, already there (YouTube stores no second copy,
/// which is no error), or refused.
pub open spec fn add_outcome_spec(v: Json) -> Result<bool, Seq<char>> {
    match edit_rejection_spec(v) {
        None => Ok(true),
        Some(EditRejection::AlreadyInPlaylist) => Ok(false),
        Some(EditRejection::Refused) => Err("YouTube refused the playlist edit."@),
    }
}

/// What an add to a playlist came to, from the edit's answer: `true` when the track was added,
/// `false` when the playlist already held it.
pub fn add_outcome(v: &Json) -> (r: Result<bool, String>)
    ensures
        match r {
            Ok(b) => add_outcome_spec(*v) == Ok::<bool, Seq<char>>(b),
            Err(m) => add_outcome_spec(*v) == Err::<bool, Seq<char>>(m@),
        },
{
    match edit_rejection(v) {
        None => Ok(true),
        Some(EditRejection::AlreadyInPlaylist) => Ok(false),
        Some(EditRejection::Refused) => Err(string_of(&chars_of("YouTube refused the playlist edit."))),
    }
}

/// The first per-token result of a feedback answer (`/feedbackResponses/0`).
pub open spec fn first_feedback(v: Json) -> Option<Json> {
    match get(v, "feedbackResponses"@) {
        Some(Json::Array(a)) => if a@.len() > 0 {
            Some(a@[0])
        } else {
            None
        },
        Some(Json::Object(m)) => member(m@, "0"@),
        _ => None,
    }
}

/// A library change went through when YouTube marks its token processed; a stale token comes
/// back unprocessed, not as an HTTP error.
pub open spec fn feedback_processed(v: Json) -> bool {
    bool_of(get_in(first_feedback(v), "isProcessed"@)) == Some(true)
}

/// What a library change came to, from its answer.
pub fn feedback_outcome(v: &Json) -> (r: Result<(), String>)
    ensures
        r is Ok <==> feedback_processed(*v),
        r matches Err(m) ==> m@
            == "YouTube turned down the library change \u{2014} reopen the list and try again."@,
{
    let first: Option<&Json> = match get_member(v, "feedbackResponses") {
        Some(Json::Array(a)) => if a.len() > 0 {
            Some(&a[0])
        } else {
            None
        },
        Some(Json::Object(_)) => get_opt(get_member(v, "feedbackResponses"), "0"),
        _ => None,
    };
    proof {
        assert(deref(first) == first_feedback(*v));
    }
    let processed = match as_bool(get_opt(first, "isProcessed")) {
        Some(b) => b,
        None => false,
    };
    if processed {
        Ok(())
    } else {
        Err(
            string_of(
                &chars_of("YouTube turned down the library change \u{2014} reopen the list and try again."),
            ),
        )
    }
}

/// The endpoint that sets a rating: like, dislike, or back to none.
pub open spec fn rate_path_text(r: Rating) -> Seq<char> {
    match r {
        Rating::Like => "like/like"@,
        Rating::Dislike => "like/dislike"@,
        Rating::Indifferent => "like/removelike"@,
    }
}

/// The endpoint that gives a track the rating `r`.
pub fn rate_path(r: Rating) -> (p: &'static str)
    ensures
        p@ == rate_path_text(r),
{
    match r {
        Rating::Like => "like/like",
        Rating::Dislike => "like/dislike",
        Rating::Indifferent => "like/removelike",
    }
}

/// The endpoint that saves a playlist to the library (the same one as a like), or removes it.
pub fn like_playlist_path(liked: bool) -> (p: &'static str)
    ensures
        p@ == if liked {
            "like/like"@
        } else {
            "like/removelike"@
        },
{
    if liked {
        "like/like"
    } else {
        "like/removelike"
    }
}

/// The endpoint that subscribes to a channel, or unsubscribes.
pub fn subscription_path(subscribed: bool) -> (p: &'static str)
    ensures
        p@ == if subscribed {
            "subscription/subscribe"@
        } else {
            "subscription/unsubscribe"@
        },
{
    if subscribed {
        "subscription/subscribe"
    } else {
        "subscription/unsubscribe"
    }
}


/// How an account write failed.
#[derive(Debug)]
pub enum WriteError {
    /// The session is no longer signed in.
    SessionExpired,
    /// The request failed over HTTP: `status` when a server answered at all, none for a timeout
    /// or a connection that never opened.
    Http { status: Option<u16> },
    /// The account may not give a playlist a picture of its own.
    CoverRefused,
    /// The track is already in the playlist.
    AlreadyInPlaylist,
    /// No visitor identity could be had for the request.
    VisitorDataNotFound,
    /// Anything else, described.
    Other(String),
}

/// A failed cover attach, as the user should hear of it. The image bytes were accepted moments
/// earlier, so the credential is good: an expired session, an HTTP answer or a refusal in the
/// body is the account not being allowed a custom image, never a dead session. A request that
/// reached no server stays what it was: that one is worth a retry.
pub open spec fn is_cover_refusal_of(r: WriteError, e: WriteError) -> bool {
    match e {
        WriteError::SessionExpired | WriteError::Other(_) => r is CoverRefused,
        WriteError::Http { status: Some(_) } => r is CoverRefused,
        _ => r == e,
    }
}

/// Reads a failed cover attach as a refusal where it is one.
pub fn cover_refusal(e: WriteError) -> (r: WriteError)
    ensures
        is_cover_refusal_of(r, e),
        !(r is SessionExpired),
{
    match e {
        WriteError::SessionExpired | WriteError::Other(_) => WriteError::CoverRefused,
        WriteError::Http { status: Some(_) } => WriteError::CoverRefused,
        other => other,
    }
}


/// Where custom playlist artwork goes up: not an InnerTube endpoint but Google's resumable
/// uploader, under its own path on the music site.
pub const PLAYLIST_IMAGE_UPLOAD: &'static str = "playlist_image_upload/playlist_custom_thumbnail";

/// The upload path.
pub open spec fn upload_base() -> Seq<char> {
    PLAYLIST_IMAGE_UPLOAD@
}

/// The headers that open an upload of an image of `len` bytes: a resumable upload, started,
/// announcing the length.
pub open spec fn upload_open_headers_spec(len: nat) -> Seq<(Seq<char>, Seq<char>)> {
    seq![
        ("x-goog-upload-command"@, "start"@),
        ("x-goog-upload-protocol"@, "resumable"@),
        ("x-goog-upload-header-content-length"@, decimal(len)),
    ]
}

/// The pair `(name, value)` as owned strings.
fn header_pair(name: &str, value: &str) -> (r: (String, String))
    ensures
        r.0@ == name@,
        r.1@ == value@,
{
    (string_of(&chars_of(name)), string_of(&chars_of(value)))
}

/// The headers of the request that opens an upload of `image_len` bytes.
pub fn upload_open_headers(image_len: usize) -> (r: Vec<(String, String)>)
    ensures
        headers_view(r@) == upload_open_headers_spec(image_len as nat),
{
    let mut len = Vec::new();
    push_decimal(&mut len, image_len as u64);
    let a = header_pair("x-goog-upload-command", "start");
    let b = header_pair("x-goog-upload-protocol", "resumable");
    let c = (string_of(&chars_of("x-goog-upload-header-content-length")), string_of(&len));
    let r = vec![a, b, c];
    proof {
        assert(headers_view(r@) =~= upload_open_headers_spec(image_len as nat));
    }
    r
}

/// The headers of the request that sends the whole image and finishes the upload: one request,
/// from offset 0.
pub fn upload_send_headers() -> (r: Vec<(String, String)>)
    ensures
        headers_view(r@) == seq![
            ("x-goog-upload-command"@, "upload, finalize"@),
            ("x-goog-upload-offset"@, "0"@),
        ],
{
    let a = header_pair("x-goog-upload-command", "upload, finalize");
    let b = header_pair("x-goog-upload-offset", "0");
    let r = vec![a, b];
    proof {
        assert(headers_view(r@) =~= seq![
            ("x-goog-upload-command"@, "upload, finalize"@),
            ("x-goog-upload-offset"@, "0"@),
        ]);
    }
    r
}

/// The upload the opening answer names, from its response headers (as lowercase names): the first
/// `x-guploader-uploadid`; without one, YouTube did not open an upload.
pub fn upload_id_from(headers: &[(String, String)]) -> (r: Result<String, WriteError>)
    ensures
        header_named(headers@, "x-guploader-uploadid"@) matches Some(v) ==> (r matches Ok(id)
            && id@ == v),
        header_named(headers@, "x-guploader-uploadid"@) is None ==> (r matches Err(
            WriteError::Other(m),
        ) && m@ == "YouTube didn't open an upload for the artwork."@),
{
    let key = chars_of("x-guploader-uploadid");
    match find_header(headers, &key) {
        Some(v) => Ok(v),
        None => Err(
            WriteError::Other(string_of(&chars_of("YouTube didn't open an upload for the artwork."))),
        ),
    }
}

/// Where the image bytes go: the upload path, naming the upload (URL-encoded) and its protocol.
pub open spec fn upload_send_url_text(upload_id: Seq<char>) -> Seq<char> {
    upload_base() + "?upload_id="@ + url_encoded(upload_id) + "&upload_protocol=resumable"@
}

/// The path the image bytes are sent to.
pub fn upload_send_url(upload_id: &str) -> (r: String)
    ensures
        r@ == upload_send_url_text(upload_id@),
{
    let mut v = chars_of(PLAYLIST_IMAGE_UPLOAD);
    push_str(&mut v, "?upload_id=");
    push_url_encoded(&mut v, upload_id);
    push_str(&mut v, "&upload_protocol=resumable");
    string_of(&v)
}

/// How many members of `es` are named `key`.
pub open spec fn members_named(es: Seq<(String, Json)>, key: Seq<char>) -> nat
    decreases es.len(),
{
    if es.len() == 0 {
        0
    } else {
        members_named(es.drop_last(), key) + if es.last().0@ == key {
            1nat
        } else {
            0nat
        }
    }
}

/// The blob id an upload answer carries, read as a record with one string field
/// `encryptedBlobId`: an object with exactly one member of that name holding a string (other
/// members are ignored), or an array holding just that string.
pub open spec fn blob_id_of(v: Json) -> Option<Seq<char>> {
    match v {
        Json::Object(m) => if members_named(m@, "encryptedBlobId"@) == 1 {
            str_of(member(m@, "encryptedBlobId"@))
        } else {
            None
        },
        Json::Array(a) => if a@.len() == 1 {
            str_of(Some(a@[0]))
        } else {
            None
        },
        _ => None,
    }
}

/// The blob id the finished upload answered with; without one, YouTube rejected the upload.
pub fn blob_id_from(body: &Json) -> (r: Result<String, WriteError>)
    ensures
        blob_id_of(*body) matches Some(b) ==> (r matches Ok(id) && id@ == b),
        blob_id_of(*body) is None ==> (r matches Err(WriteError::Other(m)) && m@
            == "YouTube rejected the artwork upload."@),
{
    let found: Option<String> = match body {
        Json::Object(m) => {
            let mut count: usize = 0;
            let mut i: usize = 0;
            while i < m.len()
                invariant
                    i <= m@.len(),
                    count == members_named(m@.take(i as int), "encryptedBlobId"@),
                    count <= i,
                decreases m@.len() - i,
            {
                proof {
                    assert(m@.take(i + 1).drop_last() == m@.take(i as int));
                }
                if str_eq(m[i].0.as_str(), "encryptedBlobId") {
                    count += 1;
                }
                i += 1;
            }
            proof {
                assert(m@.take(m@.len() as int) == m@);
            }
            if count == 1 {
                match as_str(get_member(body, "encryptedBlobId")) {
                    Some(s) => Some(string_of(&chars_of(s))),
                    None => None,
                }
            } else {
                None
            }
        },
        Json::Array(a) => if a.len() == 1 {
            match &a[0] {
                Json::Str(s) => Some(string_of(&chars_of(s.as_str()))),
                _ => None,
            }
        } else {
            None
        },
        _ => None,
    };
    match found {
        Some(b) => Ok(b),
        None => Err(WriteError::Other(string_of(&chars_of("YouTube rejected the artwork upload.")))),
    }
}

} // verus!
