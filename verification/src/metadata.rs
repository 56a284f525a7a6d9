//! Search, queue and account parsing: the handful of fields the playback path uses, read out of
//! YouTube's renderer trees.

use vstd::prelude::*;
use crate::json::{
    as_array, as_bool, as_str, bool_of, deref, find_all, find_all_refs, find_first_str,
    find_last_thumbnail, first_str, get, get_in, get_member, get_opt, items_of, last_thumbnail,
    str_of, values, Json,
};
use crate::models::{
    AccountIdentity, AccountInfo, ArtistRun, LibraryToggle, NextResult, Rating, SearchResult,
    SongItem,
};
use crate::text::{
    chars_of, find, has_prefix, opt_seq, push_str, rfind, starts_with, str_eq, string_of, trim,
    trim_bounds,
};

verus! {

// --- small text rules ----------------------------------------------------------------------

/// `s` trimmed, as a `String`.
fn trimmed(s: &str) -> (r: String)
    ensures
        r@ == trim(s@),
{
    let v = chars_of(s);
    let (a, b) = trim_bounds(&v, 0, v.len());
    proof {
        assert(v@.subrange(0, v@.len() as int) == v@);
    }
    string_of(&v[a..b])
}

/// The part before the first `||` of a dataSyncId, else the part after it, else the whole.
pub open spec fn datasync_part(raw: Seq<char>) -> Seq<char> {
    match crate::text::find_sub(raw, seq!['|', '|']) {
        Some(i) => if i > 0 {
            raw.take(i)
        } else {
            raw.skip(i + 2)
        },
        None => raw,
    }
}

/// Splits a `dataSyncId` (`"<id>||<other>"`): the part before `||` when there is one, else the
/// part after it.
pub fn split_datasync_id(raw: &str) -> (r: String)
    ensures
        r@ == datasync_part(raw@),
{
    let v = chars_of(raw);
    let sep = vec!['|', '|'];
    proof {
        assert(sep@ == seq!['|', '|']);
    }
    match crate::text::find_sub_in(&v, &sep) {
        Some(i) => {
            proof {
                crate::text::lemma_find_sub_from(v@, sep@, 0);
            }
            if i > 0 {
                proof {
                    assert(v@.subrange(0, i as int) == v@.take(i as int));
                }
                string_of(&v[0..i])
            } else {
                proof {
                    assert(v@.subrange(i + 2, v@.len() as int) == v@.skip(i + 2));
                }
                string_of(&v[i + 2..v.len()])
            }
        },
        None => string_of(&v),
    }
}

/// A value that is present only when it is not blank: the trimmed text.
pub open spec fn nonempty_text(raw: Seq<char>) -> Option<Seq<char>> {
    if trim(raw).len() > 0 {
        Some(trim(raw))
    } else {
        None
    }
}

/// The trimmed text, unless it is blank.
pub fn nonempty_string(raw: &str) -> (r: Option<String>)
    ensures
        opt_seq(r) == nonempty_text(raw@),
{
    let t = trimmed(raw);
    if t.as_str().is_empty() {
        None
    } else {
        Some(t)
    }
}

/// A usable dataSyncId out of a raw one.
pub fn normalize_data_sync_id(raw: &str) -> (r: Option<String>)
    ensures
        opt_seq(r) == nonempty_text(datasync_part(raw@)),
{
    let s = split_datasync_id(raw);
    nonempty_string(s.as_str())
}

/// The audio track YouTube Music generates for a release.
pub const AUDIO_TRACK_TYPE: &'static str = "MUSIC_VIDEO_TYPE_ATV";
/// A track the signed-in user uploaded to their own library: audio, not a video.
pub const UPLOADED_TRACK_TYPE: &'static str = "MUSIC_VIDEO_TYPE_PRIVATELY_OWNED_TRACK";

/// A `musicVideoType` that means "a music video": neither of the two audio kinds.
pub open spec fn is_video_kind(t: Seq<char>) -> bool {
    t != "MUSIC_VIDEO_TYPE_ATV"@ && t != "MUSIC_VIDEO_TYPE_PRIVATELY_OWNED_TRACK"@
}

/// True for a `musicVideoType` that means "a music video".
pub fn is_video_type(t: &str) -> (b: bool)
    ensures
        b == is_video_kind(t@),
{
    !str_eq(t, "MUSIC_VIDEO_TYPE_ATV") && !str_eq(t, "MUSIC_VIDEO_TYPE_PRIVATELY_OWNED_TRACK")
}

/// `a`, or `b` when `a` is absent.
pub open spec fn or_else(a: Option<Json>, b: Option<Json>) -> Option<Json> {
    match a {
        Some(x) => Some(x),
        None => b,
    }
}

fn or_else_ref<'a>(a: Option<&'a Json>, b: Option<&'a Json>) -> (r: Option<&'a Json>)
    ensures
        deref(r) == or_else(deref(a), deref(b)),
{
    match a {
        Some(x) => Some(x),
        None => b,
    }
}

/// The `musicVideoType` a watch endpoint carries.
pub open spec fn endpoint_video_type(ep: Json) -> Option<Seq<char>> {
    let w = or_else(get(ep, "watchEndpoint"@), get(ep, "watchPlaylistEndpoint"@));
    str_of(
        get_in(
            get_in(get_in(w, "watchEndpointMusicSupportedConfigs"@), "watchEndpointMusicConfig"@),
            "musicVideoType"@,
        ),
    )
}

/// The `musicVideoType` a watch endpoint carries, if any.
pub fn endpoint_type<'a>(ep: &'a Json) -> (r: Option<&'a str>)
    ensures
        match r {
            Some(t) => endpoint_video_type(*ep) == Some(t@),
            None => endpoint_video_type(*ep) is None,
        },
{
    let w = or_else_ref(get_member(ep, "watchEndpoint"), get_member(ep, "watchPlaylistEndpoint"));
    let c = get_opt(get_opt(w, "watchEndpointMusicSupportedConfigs"), "watchEndpointMusicConfig");
    as_str(get_opt(c, "musicVideoType"))
}

/// The play button's endpoint on a row's thumbnail overlay.
pub open spec fn overlay_endpoint(node: Json) -> Option<Json> {
    let o = or_else(get(node, "overlay"@), get(node, "thumbnailOverlay"@));
    get_in(
        get_in(get_in(get_in(o, "musicItemThumbnailOverlayRenderer"@), "content"@), "musicPlayButtonRenderer"@),
        "playNavigationEndpoint"@,
    )
}

/// The `musicVideoType` a row claims: the overlay play button's when it carries one, else the
/// row's own navigation endpoint's.
pub open spec fn row_video_type(node: Json) -> Option<Seq<char>> {
    match overlay_endpoint(node) {
        Some(ep) if endpoint_video_type(ep) is Some => endpoint_video_type(ep),
        _ => match get(node, "navigationEndpoint"@) {
            Some(n) => endpoint_video_type(n),
            None => None,
        },
    }
}

fn row_type<'a>(node: &'a Json) -> (r: Option<&'a str>)
    ensures
        match r {
            Some(t) => row_video_type(*node) == Some(t@),
            None => row_video_type(*node) is None,
        },
{
    let o = or_else_ref(get_member(node, "overlay"), get_member(node, "thumbnailOverlay"));
    let ep = get_opt(
        get_opt(get_opt(get_opt(o, "musicItemThumbnailOverlayRenderer"), "content"), "musicPlayButtonRenderer"),
        "playNavigationEndpoint",
    );
    if let Some(e) = ep {
        let t = endpoint_type(e);
        if t.is_some() {
            return t;
        }
    }
    match get_member(node, "navigationEndpoint") {
        Some(n) => endpoint_type(n),
        None => None,
    }
}

/// A row links a music video (an absent tag reads as audio).
pub open spec fn is_video_row_spec(node: Json) -> bool {
    match row_video_type(node) {
        Some(t) => is_video_kind(t),
        None => false,
    }
}

/// A row links one of the user's own uploads.
pub open spec fn is_upload_row_spec(node: Json) -> bool {
    row_video_type(node) == Some("MUSIC_VIDEO_TYPE_PRIVATELY_OWNED_TRACK"@)
}

/// True when a renderer row links a music video.
pub fn is_video_row(node: &Json) -> (b: bool)
    ensures
        b == is_video_row_spec(*node),
{
    match row_type(node) {
        Some(t) => is_video_type(t),
        None => false,
    }
}

/// True when a renderer row links one of the user's own uploads.
pub fn is_upload_row(node: &Json) -> (b: bool)
    ensures
        b == is_upload_row_spec(*node),
{
    match row_type(node) {
        Some(t) => str_eq(t, "MUSIC_VIDEO_TYPE_PRIVATELY_OWNED_TRACK"),
        None => false,
    }
}

/// Whether some value among `vs` is the string `s`.
pub open spec fn has_str(vs: Seq<Json>, s: Seq<char>) -> bool {
    exists|i: int| 0 <= i < vs.len() && str_of(Some(#[trigger] vs[i])) == Some(s)
}

fn any_str_is(vs: &Vec<&Json>, s: &str) -> (b: bool)
    ensures
        b == has_str(values(vs@), s@),
{
    let mut i: usize = 0;
    while i < vs.len()
        invariant
            i <= vs@.len(),
            forall|j: int| 0 <= j < i ==> str_of(Some(#[trigger] values(vs@)[j])) != Some(s@),
        decreases vs@.len() - i,
    {
        let hit = match as_str(Some(vs[i])) {
            Some(t) => str_eq(t, s),
            None => false,
        };
        if hit {
            proof {
                assert(values(vs@)[i as int] == *vs@[i as int]);
            }
            return true;
        }
        proof {
            assert(values(vs@)[i as int] == *vs@[i as int]);
        }
        i += 1;
    }
    false
}

/// A badge list wearing the explicit badge.
pub open spec fn badge_is_explicit(b: Option<Json>) -> bool {
    match b {
        Some(x) => has_str(find_all(x, "iconType"@), "MUSIC_EXPLICIT_BADGE"@),
        None => false,
    }
}

/// A renderer node wears YouTube's explicit badge, under one of the three keys badges arrive
/// under on rows, cards and headers.
pub open spec fn is_explicit_spec(node: Json) -> bool {
    badge_is_explicit(get(node, "badges"@)) || badge_is_explicit(get(node, "subtitleBadges"@))
        || badge_is_explicit(get(node, "subtitleBadge"@))
}

fn badge_explicit(b: Option<&Json>) -> (r: bool)
    ensures
        r == badge_is_explicit(deref(b)),
{
    match b {
        Some(x) => {
            let icons = find_all_refs(x, "iconType");
            any_str_is(&icons, "MUSIC_EXPLICIT_BADGE")
        },
        None => false,
    }
}

/// True when a renderer node wears YouTube's explicit badge.
pub fn is_explicit(node: &Json) -> (b: bool)
    ensures
        b == is_explicit_spec(*node),
{
    badge_explicit(get_member(node, "badges")) || badge_explicit(get_member(node, "subtitleBadges"))
        || badge_explicit(get_member(node, "subtitleBadge"))
}

/// The track's rating from the first `likeStatus` anywhere in the node; anything unrecognised
/// reads as unrated.
pub open spec fn like_status_spec(node: Json) -> Option<Rating> {
    match first_str(node, "likeStatus"@) {
        Some(s) => Some(
            if s == "LIKE"@ {
                Rating::Like
            } else if s == "DISLIKE"@ {
                Rating::Dislike
            } else {
                Rating::Indifferent
            },
        ),
        None => None,
    }
}

/// The track's rating, from its `likeStatus`.
pub fn like_status(node: &Json) -> (r: Option<Rating>)
    ensures
        r == like_status_spec(*node),
{
    match find_first_str(node, "likeStatus") {
        Some(s) => Some(
            if str_eq(s.as_str(), "LIKE") {
                Rating::Like
            } else if str_eq(s.as_str(), "DISLIKE") {
                Rating::Dislike
            } else {
                Rating::Indifferent
            },
        ),
        None => None,
    }
}

/// The first string among `vs` that starts with `p`.
pub open spec fn first_str_with_prefix(vs: Seq<Json>, p: Seq<char>) -> Option<Seq<char>>
    decreases vs.len(),
{
    if vs.len() == 0 {
        None
    } else {
        match first_str_with_prefix(vs.drop_last(), p) {
            Some(s) => Some(s),
            None => match str_of(Some(vs.last())) {
                Some(s) => if has_prefix(s, p) {
                    Some(s)
                } else {
                    None
                },
                None => None,
            },
        }
    }
}

proof fn lemma_first_str_with_prefix(vs: Seq<Json>, n: int, p: Seq<char>)
    requires
        0 <= n <= vs.len(),
        first_str_with_prefix(vs.take(n), p) is Some,
    ensures
        first_str_with_prefix(vs, p) == first_str_with_prefix(vs.take(n), p),
    decreases vs.len(),
{
    if n < vs.len() {
        assert(vs.drop_last().take(n) == vs.take(n));
        lemma_first_str_with_prefix(vs.drop_last(), n, p);
    } else {
        assert(vs.take(n) == vs);
    }
}

fn first_with_prefix(vs: &Vec<&Json>, p: &[char]) -> (r: Option<String>)
    ensures
        opt_seq(r) == first_str_with_prefix(values(vs@), p@),
{
    let ghost all = values(vs@);
    let mut i: usize = 0;
    while i < vs.len()
        invariant
            i <= vs@.len(),
            all == values(vs@),
            first_str_with_prefix(all.take(i as int), p@) is None,
        decreases vs@.len() - i,
    {
        proof {
            assert(all.take(i + 1).drop_last() == all.take(i as int));
            assert(all.take(i + 1).last() == *vs@[i as int]);
        }
        if let Some(s) = as_str(Some(vs[i])) {
            if starts_with(s, p) {
                proof {
                    assert(first_str_with_prefix(all.take(i + 1), p@) == Some(s@));
                    lemma_first_str_with_prefix(all, i + 1, p@);
                }
                return Some(s.to_owned());
            }
        }
        i += 1;
    }
    proof {
        assert(all.take(all.len() as int) == all);
    }
    None
}

/// The album's browseId: the first `MPRE…` browseId anywhere in the node.
pub open spec fn album_id_spec(node: Json) -> Option<Seq<char>> {
    first_str_with_prefix(find_all(node, "browseId"@), seq!['M', 'P', 'R', 'E'])
}

/// The album's browseId (`MPRE…`): the linked album run or the row menu's "Go to album" entry.
pub fn album_id(node: &Json) -> (r: Option<String>)
    ensures
        opt_seq(r) == album_id_spec(*node),
{
    let ids = find_all_refs(node, "browseId");
    let p = vec!['M', 'P', 'R', 'E'];
    proof {
        assert(p@ == seq!['M', 'P', 'R', 'E']);
    }
    first_with_prefix(&ids, &p)
}

/// The row's menu offers "Remove from playlist": the per-row edit permission.
pub open spec fn removable_spec(node: Json) -> bool {
    has_str(find_all(node, "action"@), "ACTION_REMOVE_VIDEO"@)
}

/// Does this row's menu carry "Remove from playlist"?
pub fn removable(node: &Json) -> (b: bool)
    ensures
        b == removable_spec(*node),
{
    let actions = find_all_refs(node, "action");
    any_str_is(&actions, "ACTION_REMOVE_VIDEO")
}

/// The artist channel a run links (`browseEndpoint.browseId` starting with `UC`).
pub open spec fn run_artist_id(run: Json) -> Option<Seq<char>> {
    match str_of(get_in(get_in(get(run, "navigationEndpoint"@), "browseEndpoint"@), "browseId"@)) {
        Some(id) => if has_prefix(id, seq!['U', 'C']) {
            Some(id)
        } else {
            None
        },
        None => None,
    }
}

fn run_artist(run: &Json) -> (r: Option<String>)
    ensures
        opt_seq(r) == run_artist_id(*run),
{
    let id = as_str(get_opt(get_opt(get_member(run, "navigationEndpoint"), "browseEndpoint"), "browseId"));
    let uc = vec!['U', 'C'];
    proof {
        assert(uc@ == seq!['U', 'C']);
    }
    match id {
        Some(s) => if starts_with(s, &uc) {
            Some(s.to_owned())
        } else {
            None
        },
        None => None,
    }
}

/// The first run that links an artist channel.
pub open spec fn first_artist_id_spec(runs: Seq<Json>) -> Option<Seq<char>>
    decreases runs.len(),
{
    if runs.len() == 0 {
        None
    } else {
        match first_artist_id_spec(runs.drop_last()) {
            Some(s) => Some(s),
            None => run_artist_id(runs.last()),
        }
    }
}

proof fn lemma_first_artist_prefix(runs: Seq<Json>, n: int)
    requires
        0 <= n <= runs.len(),
        first_artist_id_spec(runs.take(n)) is Some,
    ensures
        first_artist_id_spec(runs) == first_artist_id_spec(runs.take(n)),
    decreases runs.len(),
{
    if n < runs.len() {
        assert(runs.drop_last().take(n) == runs.take(n));
        lemma_first_artist_prefix(runs.drop_last(), n);
    } else {
        assert(runs.take(n) == runs);
    }
}

/// First run that links an artist channel.
pub fn first_artist_id(runs: &[Json]) -> (r: Option<String>)
    ensures
        opt_seq(r) == first_artist_id_spec(runs@),
{
    let mut i: usize = 0;
    while i < runs.len()
        invariant
            i <= runs@.len(),
            first_artist_id_spec(runs@.take(i as int)) is None,
        decreases runs@.len() - i,
    {
        proof {
            assert(runs@.take(i + 1).drop_last() == runs@.take(i as int));
            assert(runs@.take(i + 1).last() == runs@[i as int]);
        }
        if let Some(id) = run_artist(&runs[i]) {
            proof {
                lemma_first_artist_prefix(runs@, i + 1);
            }
            return Some(id);
        }
        i += 1;
    }
    proof {
        assert(runs@.take(runs@.len() as int) == runs@);
    }
    None
}

/// The texts of the runs, joined (runs without a string `text` add nothing).
pub open spec fn runs_joined(runs: Seq<Json>) -> Seq<char>
    decreases runs.len(),
{
    if runs.len() == 0 {
        Seq::empty()
    } else {
        runs_joined(runs.drop_last()) + match str_of(get(runs.last(), "text"@)) {
            Some(t) => t,
            None => Seq::empty(),
        }
    }
}

/// The joined `runs[].text` of a `{ runs: [...] }` object, when it is not empty.
pub open spec fn runs_text_spec(v: Json) -> Option<Seq<char>> {
    match items_of(get(v, "runs"@)) {
        Some(runs) => if runs_joined(runs).len() > 0 {
            Some(runs_joined(runs))
        } else {
            None
        },
        None => None,
    }
}

/// Joins all `runs[].text` in a `{ runs: [...] }` object.
pub fn runs_text_opt(v: &Json) -> (r: Option<String>)
    ensures
        opt_seq(r) == runs_text_spec(*v),
{
    let runs = match as_array(get_member(v, "runs")) {
        Some(r) => r,
        None => return None,
    };
    let mut out: Vec<char> = Vec::new();
    let mut i: usize = 0;
    while i < runs.len()
        invariant
            i <= runs@.len(),
            out@ == runs_joined(runs@.take(i as int)),
        decreases runs@.len() - i,
    {
        proof {
            assert(runs@.take(i + 1).drop_last() == runs@.take(i as int));
            assert(runs@.take(i + 1).last() == runs@[i as int]);
        }
        if let Some(t) = as_str(get_member(&runs[i], "text")) {
            push_str(&mut out, t);
        }
        i += 1;
    }
    proof {
        assert(runs@.take(runs@.len() as int) == runs@);
    }
    if out.len() > 0 {
        Some(string_of(&out))
    } else {
        None
    }
}

/// `runs_text_spec` of an optional value.
pub open spec fn runs_text_in(v: Option<Json>) -> Option<Seq<char>> {
    match v {
        Some(x) => runs_text_spec(x),
        None => None,
    }
}

fn runs_text(v: Option<&Json>) -> (r: Option<String>)
    ensures
        opt_seq(r) == runs_text_in(deref(v)),
{
    match v {
        Some(x) => runs_text_opt(x),
        None => None,
    }
}

/// The result-type words a search row can lead with.
pub open spec fn is_type_label_spec(s: Seq<char>) -> bool {
    ||| s == "Song"@
    ||| s == "Video"@
    ||| s == "Album"@
    ||| s == "Single"@
    ||| s == "EP"@
    ||| s == "Playlist"@
    ||| s == "Artist"@
    ||| s == "Episode"@
    ||| s == "Podcast"@
}

/// Result rows on an unfiltered search lead with the result type: "Song • Delara • 3:02".
pub fn is_type_label(s: &str) -> (b: bool)
    ensures
        b == is_type_label_spec(s@),
{
    str_eq(s, "Song") || str_eq(s, "Video") || str_eq(s, "Album") || str_eq(s, "Single")
        || str_eq(s, "EP") || str_eq(s, "Playlist") || str_eq(s, "Artist") || str_eq(s, "Episode")
        || str_eq(s, "Podcast")
}

/// "3:02" / "1:04:11": trimmed, it has a colon and nothing but ASCII digits and colons.
pub open spec fn is_duration_spec(s: Seq<char>) -> bool {
    let t = trim(s);
    t.contains(':') && forall|i: int| 0 <= i < t.len() ==> ('0' <= #[trigger] t[i] <= '9' || t[i] == ':')
}

/// A length like "3:02" / "1:04:11", and nothing else: a colon alone does not make a duration.
pub fn is_duration(s: &str) -> (b: bool)
    ensures
        b == is_duration_spec(s@),
{
    let t = trimmed(s);
    let v = chars_of(t.as_str());
    let mut colon = false;
    let mut ok = true;
    let mut i: usize = 0;
    while i < v.len()
        invariant
            i <= v@.len(),
            colon == (exists|j: int| 0 <= j < i && v@[j] == ':'),
            ok == (forall|j: int| 0 <= j < i ==> ('0' <= #[trigger] v@[j] <= '9' || v@[j] == ':')),
        decreases v@.len() - i,
    {
        let c = v[i];
        proof {
            if c == ':' {
                assert(v@[i as int] == ':');
            }
        }
        colon = colon || c == ':';
        ok = ok && (('0' <= c && c <= '9') || c == ':');
        i += 1;
    }
    proof {
        if colon {
            let j = choose|j: int| 0 <= j < v@.len() && v@[j] == ':';
            assert(v@.contains(v@[j]));
        }
        if v@.contains(':') {
            let j = choose|j: int| 0 <= j < v@.len() && v@[j] == ':';
        }
    }
    colon && ok
}

// --- subtitles -----------------------------------------------------------------------------

/// A run's text (nothing when it has no string `text`).
pub open spec fn run_text(run: Json) -> Seq<char> {
    match str_of(get(run, "text"@)) {
        Some(t) => t,
        None => Seq::empty(),
    }
}

/// A run that is only a "•" separator.
pub open spec fn is_separator(run: Json) -> bool {
    trim(run_text(run)) == "•"@
}

fn run_text_of<'a>(run: &'a Json) -> (r: &'a str)
    ensures
        r@ == run_text(*run),
{
    match as_str(get_member(run, "text")) {
        Some(t) => t,
        None => {
            proof {
                reveal_strlit("");
            }
            ""
        },
    }
}

fn separator(run: &Json) -> (b: bool)
    ensures
        b == is_separator(*run),
{
    let t = trimmed(run_text_of(run));
    str_eq(t.as_str(), "•")
}

/// The "•"-separated fields of a run list before trimming: each field's joined text, and whether
/// one of its runs links an artist channel.
pub open spec fn raw_groups(runs: Seq<Json>) -> Seq<(Seq<char>, bool)>
    decreases runs.len(),
{
    if runs.len() == 0 {
        seq![(Seq::empty(), false)]
    } else {
        let g = raw_groups(runs.drop_last());
        let r = runs.last();
        if is_separator(r) {
            g.push((Seq::empty(), false))
        } else {
            let c = g[g.len() - 1];
            g.update(g.len() - 1, (c.0 + run_text(r), c.1 || run_artist_id(r) is Some))
        }
    }
}

proof fn lemma_raw_groups_nonempty(runs: Seq<Json>)
    ensures
        raw_groups(runs).len() > 0,
    decreases runs.len(),
{
    if runs.len() > 0 {
        lemma_raw_groups_nonempty(runs.drop_last());
    }
}

/// The fields of a subtitle, trimmed, with their artist links.
pub open spec fn subtitle_groups_spec(runs: Seq<Json>) -> Seq<(Seq<char>, bool)> {
    raw_groups(runs).map_values(|g: (Seq<char>, bool)| (trim(g.0), g.1))
}

pub open spec fn group_views(done: Seq<(String, bool)>) -> Seq<(Seq<char>, bool)> {
    done.map_values(|g: (String, bool)| (g.0@, g.1))
}

/// Cuts a subtitle run list at its "•" separators, keeping each field's artist link.
fn subtitle_groups(runs: &[Json]) -> (r: Vec<(String, bool)>)
    ensures
        group_views(r@) == subtitle_groups_spec(runs@),
{
    let mut done: Vec<(String, bool)> = Vec::new();
    let mut cur: Vec<char> = Vec::new();
    let mut link = false;
    let mut i: usize = 0;
    while i < runs.len()
        invariant
            i <= runs@.len(),
            raw_groups(runs@.take(i as int)) == group_views(done@).push((cur@, link)),
        decreases runs@.len() - i,
    {
        proof {
            assert(runs@.take(i + 1).drop_last() == runs@.take(i as int));
            assert(runs@.take(i + 1).last() == runs@[i as int]);
        }
        if separator(&runs[i]) {
            let ghost before = group_views(done@);
            done.push((string_of(&cur), link));
            proof {
                assert(group_views(done@) == before.push((cur@, link)));
            }
            cur = Vec::new();
            link = false;
        } else {
            push_str(&mut cur, run_text_of(&runs[i]));
            link = link || run_artist(&runs[i]).is_some();
        }
        i += 1;
    }
    proof {
        assert(runs@.take(runs@.len() as int) == runs@);
    }
    let ghost before = group_views(done@);
    done.push((string_of(&cur), link));
    proof {
        assert(group_views(done@) == before.push((cur@, link)));
    }
    let mut out: Vec<(String, bool)> = Vec::new();
    let mut k: usize = 0;
    while k < done.len()
        invariant
            k <= done@.len(),
            raw_groups(runs@) == group_views(done@),
            group_views(out@) == group_views(done@).take(k as int).map_values(
                |g: (Seq<char>, bool)| (trim(g.0), g.1),
            ),
        decreases done@.len() - k,
    {
        let t = trimmed(done[k].0.as_str());
        let ghost o0 = group_views(out@);
        out.push((t, done[k].1));
        proof {
            assert(group_views(out@) == o0.push((trim(done@[k as int].0@), done@[k as int].1)));
            assert(group_views(done@).take(k + 1) == group_views(done@).take(k as int).push(
                group_views(done@)[k as int],
            ));
            assert(group_views(out@) =~= group_views(done@).take(k + 1).map_values(
                |g: (Seq<char>, bool)| (trim(g.0), g.1),
            ));
        }
        k += 1;
    }
    proof {
        assert(group_views(done@).take(done@.len() as int) == group_views(done@));
    }
    out
}

/// Whether a field after the first links an artist.
pub open spec fn later_link(g: Seq<(Seq<char>, bool)>) -> bool {
    exists|j: int| 1 <= j < g.len() && (#[trigger] g[j]).1
}

/// The fields of a subtitle without a leading result-type label: the first field goes when it
/// links no artist and it is a known label word, or a later field links an artist, or the only
/// other field is the length.
pub open spec fn subtitle_fields(g: Seq<(Seq<char>, bool)>) -> Seq<Seq<char>> {
    let kept = if g.len() > 1 && !g[0].1 && (is_type_label_spec(g[0].0) || later_link(g) || (g.len()
        == 2 && is_duration_spec(g[1].0))) {
        g.drop_first()
    } else {
        g
    };
    kept.map_values(|x: (Seq<char>, bool)| x.0)
}

/// The last field that is a length.
pub open spec fn last_duration(t: Seq<Seq<char>>) -> Option<Seq<char>>
    decreases t.len(),
{
    if t.len() == 0 {
        None
    } else if is_duration_spec(t.last()) {
        Some(t.last())
    } else {
        last_duration(t.drop_last())
    }
}

/// A subtitle as (artists, album, duration): the first field unless it is a length, the second
/// field unless it is the length, and the last field that is a length.
pub open spec fn split_subtitle_spec(runs: Option<Seq<Json>>) -> (Seq<char>, Option<Seq<char>>, Option<Seq<char>>) {
    match runs {
        None => (Seq::empty(), None, None),
        Some(r) => {
            let t = subtitle_fields(subtitle_groups_spec(r));
            let duration = last_duration(t);
            let artists = if t.len() > 0 && !is_duration_spec(t[0]) {
                t[0]
            } else {
                Seq::empty()
            };
            let album = if t.len() > 1 && Some(t[1]) != duration {
                Some(t[1])
            } else {
                None
            };
            (artists, album, duration)
        },
    }
}

/// Splits a "•"-separated subtitle run list into (artists, album, duration).
pub fn split_subtitle(runs: Option<&Vec<Json>>) -> (r: (String, Option<String>, Option<String>))
    ensures
        (r.0@, opt_seq(r.1), opt_seq(r.2)) == split_subtitle_spec(
            match runs {
                Some(v) => Some(v@),
                None => None,
            },
        ),
{
    let runs = match runs {
        Some(r) => r,
        None => return (String::new(), None, None),
    };
    let groups = subtitle_groups(runs.as_slice());
    let ghost g = subtitle_groups_spec(runs@);
    proof {
        lemma_raw_groups_nonempty(runs@);
    }
    let n = groups.len();
    let mut later = false;
    let mut j: usize = 1;
    while j < n
        invariant
            1 <= j || n == 0,
            n == groups@.len(),
            j <= n || n == 0,
            group_views(groups@) == g,
            later == (exists|k: int| 1 <= k < j && (#[trigger] g[k]).1),
        decreases n - j,
    {
        proof {
            assert(g[j as int].1 == groups@[j as int].1);
        }
        later = later || groups[j].1;
        j += 1;
    }
    let drop = n > 1 && !groups[0].1 && (is_type_label(groups[0].0.as_str()) || later || (n == 2
        && is_duration(groups[1].0.as_str())));
    let start: usize = if drop {
        1
    } else {
        0
    };
    let ghost t = subtitle_fields(g);
    proof {
        if n > 1 {
            assert(later == later_link(g));
        }
        assert(t.len() == n - start);
        assert forall|k: int| 0 <= k < t.len() implies #[trigger] t[k] == groups@[k + start].0@ by {
            assert(g[k + start].0 == groups@[k + start].0@);
        }
    }
    let artists = if n > start && !is_duration(groups[start].0.as_str()) {
        groups[start].0.clone()
    } else {
        String::new()
    };
    let mut duration: Option<String> = None;
    let mut k = n;
    proof {
        assert(t.take(n - start) == t);
    }
    while k > start && duration.is_none()
        invariant
            start <= k <= n,
            n == groups@.len(),
            t.len() == n - start,
            forall|m: int| 0 <= m < t.len() ==> #[trigger] t[m] == groups@[m + start].0@,
            duration is None ==> last_duration(t) == last_duration(t.take(k - start)),
            duration matches Some(d) ==> last_duration(t) == Some(d@),
        decreases k,
    {
        proof {
            assert(t.take(k - start).drop_last() == t.take(k - start - 1));
            assert(t.take(k - start).last() == t[k - start - 1]);
        }
        if is_duration(groups[k - 1].0.as_str()) {
            duration = Some(groups[k - 1].0.clone());
        }
        k -= 1;
    }
    proof {
        if duration is None {
            assert(k == start);
            assert(last_duration(t.take(0)) is None);
        }
    }
    let album = if n > start + 1 {
        let second = &groups[start + 1].0;
        let same = match &duration {
            Some(d) => str_eq(d.as_str(), second.as_str()),
            None => false,
        };
        if same {
            None
        } else {
            Some(second.clone())
        }
    } else {
        None
    };
    (artists, album, duration)
}

/// Just the artist field of a subtitle run list, when it is not empty.
pub fn artists_from_runs(runs: Option<&Vec<Json>>) -> (r: Option<String>)
    ensures
        opt_seq(r) == (if split_subtitle_spec(
            match runs {
                Some(v) => Some(v@),
                None => None,
            },
        ).0.len() > 0 {
            Some(
                split_subtitle_spec(
                    match runs {
                        Some(v) => Some(v@),
                        None => None,
                    },
                ).0,
            )
        } else {
            None
        }),
{
    let (a, _, _) = split_subtitle(runs);
    if a.as_str().is_empty() {
        None
    } else {
        Some(a)
    }
}

/// Just the length field of a subtitle run list.
pub fn duration_from_runs(runs: Option<&Vec<Json>>) -> (r: Option<String>)
    ensures
        opt_seq(r) == split_subtitle_spec(
            match runs {
                Some(v) => Some(v@),
                None => None,
            },
        ).2,
{
    let (_, _, d) = split_subtitle(runs);
    d
}

// --- artist runs ---------------------------------------------------------------------------

/// One artist run as text and link.
pub type RunView = (Seq<char>, Option<Seq<char>>);

/// The view of an artist run.
pub open spec fn run_view(r: ArtistRun) -> RunView {
    (r.text@, opt_seq(r.id))
}

/// The "•"-separated fields of a run list, run by run (text untrimmed, with its artist link).
pub open spec fn raw_fields(runs: Seq<Json>) -> Seq<Seq<RunView>>
    decreases runs.len(),
{
    if runs.len() == 0 {
        seq![Seq::empty()]
    } else {
        let f = raw_fields(runs.drop_last());
        let r = runs.last();
        if is_separator(r) {
            f.push(Seq::empty())
        } else {
            f.update(f.len() - 1, f[f.len() - 1].push((run_text(r), run_artist_id(r))))
        }
    }
}

proof fn lemma_raw_fields_nonempty(runs: Seq<Json>)
    ensures
        raw_fields(runs).len() > 0,
    decreases runs.len(),
{
    if runs.len() > 0 {
        lemma_raw_fields_nonempty(runs.drop_last());
    }
}

/// Whether some run of a field links an artist.
pub open spec fn linked(f: Seq<RunView>) -> bool {
    exists|k: int| 0 <= k < f.len() && (#[trigger] f[k]).1 is Some
}

/// The joined text of a field's runs.
pub open spec fn field_text(f: Seq<RunView>) -> Seq<char>
    decreases f.len(),
{
    if f.len() == 0 {
        Seq::empty()
    } else {
        field_text(f.drop_last()) + f.last().0
    }
}

/// The artist field of a run list, run by run: the first field, or the second when the first
/// links nothing and is a result-type label or a later field links an artist; empty when it links
/// no artist at all.
pub open spec fn artist_runs_spec(runs: Seq<Json>) -> Seq<RunView> {
    let f = raw_fields(runs);
    let later = exists|j: int| 1 <= j < f.len() && linked(#[trigger] f[j]);
    let out = if f.len() > 1 && !linked(f[0]) && (is_type_label_spec(trim(field_text(f[0]))) || later) {
        f[1]
    } else {
        f[0]
    };
    if linked(out) {
        out
    } else {
        Seq::empty()
    }
}

/// The views of a list of artist runs.
pub open spec fn run_views(v: Seq<ArtistRun>) -> Seq<RunView> {
    v.map_values(|r: ArtistRun| run_view(r))
}

fn any_linked(v: &Vec<ArtistRun>) -> (b: bool)
    ensures
        b == linked(run_views(v@)),
{
    let mut i: usize = 0;
    while i < v.len()
        invariant
            i <= v@.len(),
            forall|k: int| 0 <= k < i ==> (#[trigger] run_views(v@)[k]).1 is None,
        decreases v@.len() - i,
    {
        if v[i].id.is_some() {
            proof {
                assert(run_views(v@)[i as int].1 is Some);
            }
            return true;
        }
        i += 1;
    }
    false
}

/// The artist field of a run list, kept run by run so each linked artist of a collaboration
/// navigates to its own page. Empty when nothing links a channel.
pub fn artist_runs(runs: &[Json]) -> (r: Vec<ArtistRun>)
    ensures
        run_views(r@) == artist_runs_spec(runs@),
{
    let mut f0: Vec<ArtistRun> = Vec::new();
    let mut f1: Vec<ArtistRun> = Vec::new();
    let mut label: Vec<char> = Vec::new();
    let mut nfields: usize = 1;
    let mut later = false;
    let mut i: usize = 0;
    while i < runs.len()
        invariant
            i <= runs@.len(),
            1 <= nfields <= 3,
            raw_fields(runs@.take(i as int)).len() > 0,
            nfields == (if raw_fields(runs@.take(i as int)).len() < 3 {
                raw_fields(runs@.take(i as int)).len()
            } else {
                3
            }),
            raw_fields(runs@.take(i as int))[0] == run_views(f0@),
            label@ == field_text(run_views(f0@)),
            nfields > 1 ==> raw_fields(runs@.take(i as int))[1] == run_views(f1@),
            nfields <= 1 ==> f1@.len() == 0,
            later == (exists|j: int|
                1 <= j < raw_fields(runs@.take(i as int)).len() && linked(
                    #[trigger] raw_fields(runs@.take(i as int))[j],
                )),
        decreases runs@.len() - i,
    {
        let ghost fp = raw_fields(runs@.take(i as int));
        proof {
            assert(runs@.take(i + 1).drop_last() == runs@.take(i as int));
            assert(runs@.take(i + 1).last() == runs@[i as int]);
        }
        if separator(&runs[i]) {
            if nfields < 3 {
                nfields += 1;
            }
            proof {
                let fq = raw_fields(runs@.take(i + 1));
                assert(fq == fp.push(Seq::empty()));
                assert(fq[0] == fp[0]);
                if fp.len() > 1 {
                    assert(fq[1] == fp[1]);
                } else {
                    assert(fq[1] == Seq::<RunView>::empty());
                    assert(run_views(f1@) == Seq::<RunView>::empty());
                }
                assert(!linked(fq[fq.len() - 1]));
                if later {
                    let j = choose|j: int| 1 <= j < fp.len() && linked(#[trigger] fp[j]);
                    assert(fq[j] == fp[j]);
                }
                if exists|j: int| 1 <= j < fq.len() && linked(#[trigger] fq[j]) {
                    let j = choose|j: int| 1 <= j < fq.len() && linked(#[trigger] fq[j]);
                    if j < fq.len() - 1 {
                        assert(fq[j] == fp[j]);
                    }
                }
            }
        } else {
            let text = run_text_of(&runs[i]);
            let id = run_artist(&runs[i]);
            let has_id = id.is_some();
            let run = ArtistRun { text: text.to_owned(), id };
            let ghost rv = run_view(run);
            proof {
                let fq = raw_fields(runs@.take(i + 1));
                assert(fq == fp.update(fp.len() - 1, fp[fp.len() - 1].push(rv)));
            }
            if nfields == 1 {
                let ghost v0 = run_views(f0@);
                push_str(&mut label, text);
                f0.push(run);
                proof {
                    assert(run_views(f0@) == v0.push(rv));
                    assert(v0.push(rv).drop_last() == v0);
                    assert(field_text(v0.push(rv)) == field_text(v0) + rv.0);
                }
            } else if nfields == 2 {
                let ghost v1 = run_views(f1@);
                f1.push(run);
                proof {
                    assert(run_views(f1@) == v1.push(rv));
                }
            }
            proof {
                let fq = raw_fields(runs@.take(i + 1));
                let li = fp.len() - 1;
                if nfields > 1 {
                    let lastf = fq[li];
                    assert(lastf == fp[li].push(rv));
                    assert(lastf[lastf.len() - 1] == rv);
                    if has_id {
                        assert(linked(lastf));
                    }
                    if later {
                        let j = choose|j: int| 1 <= j < fp.len() && linked(#[trigger] fp[j]);
                        if j == li {
                            let k = choose|k: int| 0 <= k < fp[j].len() && (#[trigger] fp[j][k]).1 is Some;
                            assert(lastf[k] == fp[j][k]);
                        } else {
                            assert(fq[j] == fp[j]);
                        }
                    }
                    if exists|j: int| 1 <= j < fq.len() && linked(#[trigger] fq[j]) {
                        let j = choose|j: int| 1 <= j < fq.len() && linked(#[trigger] fq[j]);
                        if j < li {
                            assert(fq[j] == fp[j]);
                        } else if !has_id {
                            let k = choose|k: int| 0 <= k < lastf.len() && (#[trigger] lastf[k]).1 is Some;
                            assert(k < lastf.len() - 1);
                            assert(lastf[k] == fp[j][k]);
                        }
                    }
                }
            }
            later = later || (nfields > 1 && has_id);
        }
        i += 1;
    }
    proof {
        assert(runs@.take(runs@.len() as int) == runs@);
    }
    let l0 = any_linked(&f0);
    let out = if nfields > 1 && !l0 && (is_type_label(trimmed(string_of(&label).as_str()).as_str()) || later) {
        f1
    } else {
        f0
    };
    if !any_linked(&out) {
        return Vec::new();
    }
    out
}

// --- flex columns --------------------------------------------------------------------------

/// A list row's flex columns.
pub open spec fn flex_columns(node: Json) -> Option<Seq<Json>> {
    items_of(get(node, "flexColumns"@))
}

/// The joined text of one flex column.
pub open spec fn flex_text_spec(col: Json) -> Option<Seq<char>> {
    runs_text_in(get_in(get(col, "musicResponsiveListItemFlexColumnRenderer"@), "text"@))
}

fn flex_text(col: &Json) -> (r: Option<String>)
    ensures
        opt_seq(r) == flex_text_spec(*col),
{
    runs_text(get_opt(get_member(col, "musicResponsiveListItemFlexColumnRenderer"), "text"))
}

/// The joined text of a list row's `i`th flex column.
pub open spec fn flex_column_text_spec(node: Json, i: int) -> Option<Seq<char>> {
    match flex_columns(node) {
        Some(c) => if 0 <= i < c.len() {
            flex_text_spec(c[i])
        } else {
            None
        },
        None => None,
    }
}

/// The joined text of a list row's `i`th flex column.
pub fn flex_column_text(node: &Json, i: usize) -> (r: Option<String>)
    ensures
        opt_seq(r) == flex_column_text_spec(*node, i as int),
{
    match as_array(get_member(node, "flexColumns")) {
        Some(c) => if i < c.len() {
            flex_text(&c[i])
        } else {
            None
        },
        None => None,
    }
}

/// The raw runs of a list row's `i`th flex column.
pub open spec fn flex_runs_spec(node: Json, i: int) -> Option<Seq<Json>> {
    match flex_columns(node) {
        Some(c) => if 0 <= i < c.len() {
            items_of(
                get_in(get_in(get(c[i], "musicResponsiveListItemFlexColumnRenderer"@), "text"@), "runs"@),
            )
        } else {
            None
        },
        None => None,
    }
}

/// The raw runs of a list row's `i`th flex column (the text with its per-run links intact).
pub fn flex_runs(node: &Json, i: usize) -> (r: Option<&Vec<Json>>)
    ensures
        match r {
            Some(v) => flex_runs_spec(*node, i as int) == Some(v@),
            None => flex_runs_spec(*node, i as int) is None,
        },
{
    match as_array(get_member(node, "flexColumns")) {
        Some(c) => if i < c.len() {
            as_array(
                get_opt(get_opt(get_member(&c[i], "musicResponsiveListItemFlexColumnRenderer"), "text"), "runs"),
            )
        } else {
            None
        },
        None => None,
    }
}

/// Whether a run of the `i`th flex column navigates somewhere.
pub open spec fn flex_column_links_spec(node: Json, i: int) -> bool {
    match flex_runs_spec(node, i) {
        Some(runs) => exists|k: int| 0 <= k < runs.len() && get(#[trigger] runs[k], "navigationEndpoint"@) is Some,
        None => false,
    }
}

fn flex_column_links(node: &Json, i: usize) -> (b: bool)
    ensures
        b == flex_column_links_spec(*node, i as int),
{
    match flex_runs(node, i) {
        Some(runs) => {
            let mut k: usize = 0;
            while k < runs.len()
                invariant
                    k <= runs@.len(),
                    flex_runs_spec(*node, i as int) == Some(runs@),
                    forall|m: int| 0 <= m < k ==> get(#[trigger] runs@[m], "navigationEndpoint"@) is None,
                decreases runs@.len() - k,
            {
                if get_member(&runs[k], "navigationEndpoint").is_some() {
                    proof {
                        assert(get(runs@[k as int], "navigationEndpoint"@) is Some);
                    }
                    return true;
                }
                k += 1;
            }
            false
        },
        None => false,
    }
}

/// Whether `char::is_numeric` holds: the character is numeric in Unicode's sense, any script.
pub uninterp spec fn numeric(c: char) -> bool;

/// `char::is_numeric`.
///
/// Trusted: the contract names the result, a fixed property of the character, and states it for
/// ASCII, where the numeric characters are exactly the digits.
#[verifier::external_body]
fn is_numeric(c: char) -> (b: bool)
    ensures
        b == numeric(c),
        (c as u32) < 128 ==> b == ('0' <= c <= '9'),
{
    c.is_numeric()
}

/// The play count from an album row's third flex column ("53M plays" → "53M"): text that links
/// nothing and opens with a digit in whatever numerals the locale writes; the unit word after
/// the last space is dropped.
pub open spec fn play_count_spec(node: Json) -> Option<Seq<char>> {
    match flex_column_text_spec(node, 2) {
        None => None,
        Some(text) => {
            let t = trim(text);
            if flex_column_links_spec(node, 2) || !(t.len() > 0 && numeric(t[0])) {
                None
            } else {
                Some(
                    match rfind(t, ' ') {
                        Some(k) => t.take(k),
                        None => t,
                    },
                )
            }
        },
    }
}

/// The play count from an album row's third flex column.
pub fn play_count(node: &Json) -> (r: Option<String>)
    ensures
        opt_seq(r) == play_count_spec(*node),
{
    let text = match flex_column_text(node, 2) {
        Some(t) => t,
        None => return None,
    };
    let t = chars_of(trimmed(text.as_str()).as_str());
    if flex_column_links(node, 2) || !(t.len() > 0 && is_numeric(t[0])) {
        return None;
    }
    match crate::text::rfind_char(&t, 0, t.len(), ' ') {
        Some(k) => {
            proof {
                assert(t@.subrange(0, t@.len() as int) == t@);
                assert(t@.subrange(0, k as int) == t@.take(k as int));
            }
            Some(string_of(&t[0..k]))
        },
        None => {
            proof {
                assert(t@.subrange(0, t@.len() as int) == t@);
            }
            Some(string_of(&t))
        },
    }
}

/// The album name from the third flex column: what it holds when it is not a play count.
pub open spec fn album_column_spec(node: Json) -> Option<Seq<char>> {
    match flex_column_text_spec(node, 2) {
        None => None,
        Some(text) => {
            let t = trim(text);
            if t.len() > 0 && play_count_spec(node) is None {
                Some(t)
            } else {
                None
            }
        },
    }
}

fn album_column(node: &Json) -> (r: Option<String>)
    ensures
        opt_seq(r) == album_column_spec(*node),
{
    let text = match flex_column_text(node, 2) {
        Some(t) => t,
        None => return None,
    };
    let t = trimmed(text.as_str());
    if !t.as_str().is_empty() && play_count(node).is_none() {
        Some(t)
    } else {
        None
    }
}

/// The text of the first fixed column that has some.
pub open spec fn first_fixed_text(cols: Seq<Json>) -> Option<Seq<char>>
    decreases cols.len(),
{
    if cols.len() == 0 {
        None
    } else {
        match first_fixed_text(cols.drop_last()) {
            Some(t) => Some(t),
            None => runs_text_in(get_in(get(cols.last(), "musicResponsiveListItemFixedColumnRenderer"@), "text"@)),
        }
    }
}

proof fn lemma_first_fixed_prefix(cols: Seq<Json>, n: int)
    requires
        0 <= n <= cols.len(),
        first_fixed_text(cols.take(n)) is Some,
    ensures
        first_fixed_text(cols) == first_fixed_text(cols.take(n)),
    decreases cols.len(),
{
    if n < cols.len() {
        assert(cols.drop_last().take(n) == cols.take(n));
        lemma_first_fixed_prefix(cols.drop_last(), n);
    } else {
        assert(cols.take(n) == cols);
    }
}

/// The row's fixed-column length ("3:47"): the first fixed column's text, when it is a length.
pub open spec fn fixed_column_text_spec(node: Json) -> Option<Seq<char>> {
    match items_of(get(node, "fixedColumns"@)) {
        None => None,
        Some(cols) => match first_fixed_text(cols) {
            Some(t) => if is_duration_spec(t) {
                Some(t)
            } else {
                None
            },
            None => None,
        },
    }
}

fn fixed_column_text(node: &Json) -> (r: Option<String>)
    ensures
        opt_seq(r) == fixed_column_text_spec(*node),
{
    let cols = match as_array(get_member(node, "fixedColumns")) {
        Some(c) => c,
        None => return None,
    };
    let mut i: usize = 0;
    while i < cols.len()
        invariant
            i <= cols@.len(),
            items_of(get(*node, "fixedColumns"@)) == Some(cols@),
            first_fixed_text(cols@.take(i as int)) is None,
        decreases cols@.len() - i,
    {
        proof {
            assert(cols@.take(i + 1).drop_last() == cols@.take(i as int));
            assert(cols@.take(i + 1).last() == cols@[i as int]);
        }
        let t = runs_text(get_opt(get_member(&cols[i], "musicResponsiveListItemFixedColumnRenderer"), "text"));
        if let Some(t) = t {
            proof {
                assert(first_fixed_text(cols@.take(i + 1)) == Some(t@));
                lemma_first_fixed_prefix(cols@, i + 1);
            }
            return if is_duration(t.as_str()) {
                Some(t)
            } else {
                None
            };
        }
        i += 1;
    }
    proof {
        assert(cols@.take(cols@.len() as int) == cols@);
    }
    None
}

/// The videoId from the row's data, its navigation endpoint, or (last resort) the play-button
/// overlay.
pub open spec fn list_item_video_id_spec(node: Json) -> Option<Seq<char>> {
    match str_of(get_in(get(node, "playlistItemData"@), "videoId"@)) {
        Some(id) => Some(id),
        None => match str_of(get_in(get_in(get(node, "navigationEndpoint"@), "watchEndpoint"@), "videoId"@)) {
            Some(id) => Some(id),
            None => match get(node, "overlay"@) {
                Some(o) => first_str(o, "videoId"@),
                None => None,
            },
        },
    }
}

/// videoId from any of the three known locations.
pub fn list_item_video_id(node: &Json) -> (r: Option<String>)
    ensures
        opt_seq(r) == list_item_video_id_spec(*node),
{
    if let Some(id) = as_str(get_opt(get_member(node, "playlistItemData"), "videoId")) {
        return Some(id.to_owned());
    }
    if let Some(id) = as_str(get_opt(get_opt(get_member(node, "navigationEndpoint"), "watchEndpoint"), "videoId")) {
        return Some(id.to_owned());
    }
    match get_member(node, "overlay") {
        Some(o) => find_first_str(o, "videoId"),
        None => None,
    }
}

/// JSON-pointer step `0`: the first element of an array, or an object's member named "0".
pub open spec fn pointer_zero(v: Option<Json>) -> Option<Json> {
    match v {
        Some(Json::Array(a)) => if a@.len() > 0 {
            Some(a@[0])
        } else {
            None
        },
        Some(Json::Object(m)) => crate::json::member(m@, "0"@),
        _ => None,
    }
}

fn pointer_zero_ref<'a>(v: Option<&'a Json>) -> (r: Option<&'a Json>)
    ensures
        deref(r) == pointer_zero(deref(v)),
{
    match v {
        Some(Json::Array(a)) => if a.len() > 0 {
            Some(&a[0])
        } else {
            None
        },
        Some(o) => match o {
            Json::Object(_) => get_member(o, "0"),
            _ => None,
        },
        None => None,
    }
}

/// Who added a row to a collaborative playlist: the first avatar of the first contributor
/// stack, its name and its image url.
pub open spec fn contributor_spec(node: Json) -> Option<(Seq<char>, Seq<char>)> {
    let stacks = find_all(node, "contributorsAvatars"@);
    if stacks.len() == 0 {
        None
    } else {
        let avatars = find_all(stacks[0], "avatarViewModel"@);
        if avatars.len() == 0 {
            None
        } else {
            let a = avatars[0];
            match str_of(get(a, "accessibilityText"@)) {
                None => None,
                Some(name) => match str_of(
                    get_in(pointer_zero(get_in(get(a, "image"@), "sources"@)), "url"@),
                ) {
                    None => None,
                    Some(url) => Some((name, url)),
                },
            }
        }
    }
}

/// The contributor who added this row, on a collaborative playlist: name and avatar URL.
pub fn contributor(node: &Json) -> (r: Option<(String, String)>)
    ensures
        match r {
            Some((n, u)) => contributor_spec(*node) == Some((n@, u@)),
            None => contributor_spec(*node) is None,
        },
{
    let stacks = find_all_refs(node, "contributorsAvatars");
    if stacks.len() == 0 {
        return None;
    }
    proof {
        assert(values(stacks@)[0] == *stacks@[0]);
    }
    let avatars = find_all_refs(stacks[0], "avatarViewModel");
    if avatars.len() == 0 {
        return None;
    }
    proof {
        assert(values(avatars@)[0] == *avatars@[0]);
    }
    let a = avatars[0];
    let name = as_str(get_member(a, "accessibilityText"));
    let url = as_str(get_opt(pointer_zero_ref(get_opt(get_member(a, "image"), "sources")), "url"));
    match (name, url) {
        (Some(n), Some(u)) => Some((n.to_owned(), u.to_owned())),
        _ => None,
    }
}

// --- library membership ----------------------------------------------------------------------

/// A library toggle as (in library, add token, remove token).
pub type ToggleView = (bool, Option<Seq<char>>, Option<Seq<char>>);

/// The view of a library toggle.
pub open spec fn toggle_view(t: LibraryToggle) -> ToggleView {
    (t.in_library, opt_seq(t.add_token), opt_seq(t.remove_token))
}

/// The view of an optional library toggle.
pub open spec fn toggle_opt(t: Option<LibraryToggle>) -> Option<ToggleView> {
    match t {
        Some(x) => Some(toggle_view(x)),
        None => None,
    }
}

/// The icons of the direction that adds a song to the library (the empty bookmark).
pub open spec fn is_add_icon(s: Seq<char>) -> bool {
    s == "BOOKMARK_BORDER"@ || s == "LIBRARY_ADD"@
}

/// The icons of the direction that takes it out (the filled bookmark).
pub open spec fn is_remove_icon(s: Seq<char>) -> bool {
    s == "BOOKMARK"@ || s == "LIBRARY_REMOVE"@ || s == "LIBRARY_SAVED"@
}

fn add_icon(s: &str) -> (b: bool)
    ensures
        b == is_add_icon(s@),
{
    str_eq(s, "BOOKMARK_BORDER") || str_eq(s, "LIBRARY_ADD")
}

fn remove_icon(s: &str) -> (b: bool)
    ensures
        b == is_remove_icon(s@),
{
    str_eq(s, "BOOKMARK") || str_eq(s, "LIBRARY_REMOVE") || str_eq(s, "LIBRARY_SAVED")
}

/// The feedback token of an endpoint.
pub open spec fn feedback_token(ep: Option<Json>) -> Option<Seq<char>> {
    match get_in(ep, "feedbackEndpoint"@) {
        Some(f) => first_str(f, "feedbackToken"@),
        None => None,
    }
}

fn feedback_token_of(ep: Option<&Json>) -> (r: Option<String>)
    ensures
        opt_seq(r) == feedback_token(deref(ep)),
{
    match get_opt(ep, "feedbackEndpoint") {
        Some(f) => find_first_str(f, "feedbackToken"),
        None => None,
    }
}

/// The icon type under an icon object.
pub open spec fn icon_in(v: Option<Json>) -> Option<Seq<char>> {
    match v {
        Some(x) => first_str(x, "iconType"@),
        None => None,
    }
}

fn icon_of(v: Option<&Json>) -> (r: Option<String>)
    ensures
        opt_seq(r) == icon_in(deref(v)),
{
    match v {
        Some(x) => find_first_str(x, "iconType"),
        None => None,
    }
}

/// A toggle item holding both directions: which way round it is comes from its icons, since the
/// action available now is the default one.
pub open spec fn toggle_of(t: Json) -> Option<ToggleView> {
    match (
        feedback_token(get(t, "defaultServiceEndpoint"@)),
        feedback_token(get(t, "toggledServiceEndpoint"@)),
        icon_in(get(t, "defaultIcon"@)),
        icon_in(get(t, "toggledIcon"@)),
    ) {
        (Some(d), Some(tg), Some(di), Some(ti)) => if is_add_icon(di) && is_remove_icon(ti) {
            Some((false, Some(d), Some(tg)))
        } else if is_remove_icon(di) && is_add_icon(ti) {
            Some((true, Some(tg), Some(d)))
        } else {
            None
        },
        _ => None,
    }
}

/// A plain menu item offering one direction only.
pub open spec fn item_of(it: Json) -> Option<ToggleView> {
    match (feedback_token(get(it, "serviceEndpoint"@)), icon_in(get(it, "icon"@))) {
        (Some(tok), Some(ic)) => if is_add_icon(ic) {
            Some((false, Some(tok), None))
        } else if is_remove_icon(ic) {
            Some((true, None, Some(tok)))
        } else {
            None
        },
        _ => None,
    }
}

fn toggle_from(t: &Json) -> (r: Option<LibraryToggle>)
    ensures
        toggle_opt(r) == toggle_of(*t),
{
    let d = feedback_token_of(get_member(t, "defaultServiceEndpoint"));
    let tg = feedback_token_of(get_member(t, "toggledServiceEndpoint"));
    let di = icon_of(get_member(t, "defaultIcon"));
    let ti = icon_of(get_member(t, "toggledIcon"));
    match (d, tg, di, ti) {
        (Some(d), Some(tg), Some(di), Some(ti)) => {
            if add_icon(di.as_str()) && remove_icon(ti.as_str()) {
                Some(LibraryToggle { in_library: false, add_token: Some(d), remove_token: Some(tg) })
            } else if remove_icon(di.as_str()) && add_icon(ti.as_str()) {
                Some(LibraryToggle { in_library: true, add_token: Some(tg), remove_token: Some(d) })
            } else {
                None
            }
        },
        _ => None,
    }
}

fn item_from(it: &Json) -> (r: Option<LibraryToggle>)
    ensures
        toggle_opt(r) == item_of(*it),
{
    let tok = feedback_token_of(get_member(it, "serviceEndpoint"));
    let ic = icon_of(get_member(it, "icon"));
    match (tok, ic) {
        (Some(tok), Some(ic)) => {
            if add_icon(ic.as_str()) {
                Some(LibraryToggle { in_library: false, add_token: Some(tok), remove_token: None })
            } else if remove_icon(ic.as_str()) {
                Some(LibraryToggle { in_library: true, add_token: None, remove_token: Some(tok) })
            } else {
                None
            }
        },
        _ => None,
    }
}

/// The first toggle among `vs` that reads as a library toggle.
pub open spec fn first_toggle(vs: Seq<Json>) -> Option<ToggleView>
    decreases vs.len(),
{
    if vs.len() == 0 {
        None
    } else {
        match first_toggle(vs.drop_last()) {
            Some(t) => Some(t),
            None => toggle_of(vs.last()),
        }
    }
}

/// The first plain item among `vs` that reads as a library action.
pub open spec fn first_item(vs: Seq<Json>) -> Option<ToggleView>
    decreases vs.len(),
{
    if vs.len() == 0 {
        None
    } else {
        match first_item(vs.drop_last()) {
            Some(t) => Some(t),
            None => item_of(vs.last()),
        }
    }
}

proof fn lemma_first_toggle_prefix(vs: Seq<Json>, n: int)
    requires
        0 <= n <= vs.len(),
        first_toggle(vs.take(n)) is Some,
    ensures
        first_toggle(vs) == first_toggle(vs.take(n)),
    decreases vs.len(),
{
    if n < vs.len() {
        assert(vs.drop_last().take(n) == vs.take(n));
        lemma_first_toggle_prefix(vs.drop_last(), n);
    } else {
        assert(vs.take(n) == vs);
    }
}

proof fn lemma_first_item_prefix(vs: Seq<Json>, n: int)
    requires
        0 <= n <= vs.len(),
        first_item(vs.take(n)) is Some,
    ensures
        first_item(vs) == first_item(vs.take(n)),
    decreases vs.len(),
{
    if n < vs.len() {
        assert(vs.drop_last().take(n) == vs.take(n));
        lemma_first_item_prefix(vs.drop_last(), n);
    } else {
        assert(vs.take(n) == vs);
    }
}

/// The row's "Save to library" action, in either shape it arrives in, looked for in the row's
/// menu (the whole row when it has none): a two-way toggle first, else a one-way menu item.
pub open spec fn library_toggle_spec(node: Json) -> Option<ToggleView> {
    let menu = match get(node, "menu"@) {
        Some(m) => m,
        None => node,
    };
    match first_toggle(find_all(menu, "toggleMenuServiceItemRenderer"@)) {
        Some(t) => Some(t),
        None => first_item(find_all(menu, "menuServiceItemRenderer"@)),
    }
}

/// The row's "Save to library" action.
pub fn library_toggle(node: &Json) -> (r: Option<LibraryToggle>)
    ensures
        toggle_opt(r) == library_toggle_spec(*node),
{
    let menu = match get_member(node, "menu") {
        Some(m) => m,
        None => node,
    };
    let toggles = find_all_refs(menu, "toggleMenuServiceItemRenderer");
    let ghost tv = values(toggles@);
    let ghost items_spec = find_all(*menu, "menuServiceItemRenderer"@);
    proof {
        assert(library_toggle_spec(*node) == match first_toggle(tv) {
            Some(t) => Some(t),
            None => first_item(items_spec),
        });
    }
    let mut i: usize = 0;
    while i < toggles.len()
        invariant
            i <= toggles@.len(),
            tv == values(toggles@),
            library_toggle_spec(*node) == match first_toggle(tv) {
                Some(t) => Some(t),
                None => first_item(items_spec),
            },
            first_toggle(tv.take(i as int)) is None,
        decreases toggles@.len() - i,
    {
        proof {
            assert(tv.take(i + 1).drop_last() == tv.take(i as int));
            assert(tv.take(i + 1).last() == *toggles@[i as int]);
        }
        if let Some(t) = toggle_from(toggles[i]) {
            proof {
                assert(first_toggle(tv.take(i + 1)) == Some(toggle_view(t)));
                lemma_first_toggle_prefix(tv, i + 1);
            }
            return Some(t);
        }
        i += 1;
    }
    proof {
        assert(tv.take(tv.len() as int) == tv);
    }
    let items = find_all_refs(menu, "menuServiceItemRenderer");
    let ghost iv = values(items@);
    proof {
        assert(library_toggle_spec(*node) == first_item(iv));
    }
    let mut k: usize = 0;
    while k < items.len()
        invariant
            k <= items@.len(),
            iv == values(items@),
            library_toggle_spec(*node) == first_item(iv),
            first_item(iv.take(k as int)) is None,
        decreases items@.len() - k,
    {
        proof {
            assert(iv.take(k + 1).drop_last() == iv.take(k as int));
            assert(iv.take(k + 1).last() == *items@[k as int]);
        }
        if let Some(t) = item_from(items[k]) {
            proof {
                assert(first_item(iv.take(k + 1)) == Some(toggle_view(t)));
                lemma_first_item_prefix(iv, k + 1);
            }
            return Some(t);
        }
        k += 1;
    }
    proof {
        assert(iv.take(iv.len() as int) == iv);
    }
    None
}

// --- rows ----------------------------------------------------------------------------------

/// A list row's title: its first flex column's text (empty when it has none).
pub open spec fn list_item_title(node: Json) -> Seq<char> {
    match flex_columns(node) {
        Some(c) => if c.len() > 0 {
            match flex_text_spec(c[0]) {
                Some(t) => t,
                None => Seq::empty(),
            }
        } else {
            Seq::empty()
        },
        None => Seq::empty(),
    }
}

/// A list row makes a song: it has a videoId and a title.
pub open spec fn list_item_ok(node: Json) -> bool {
    list_item_video_id_spec(node) is Some && list_item_title(node).len() > 0
}

/// `a`, or `b` when `a` is absent.
pub open spec fn or_text(a: Option<Seq<char>>, b: Option<Seq<char>>) -> Option<Seq<char>> {
    match a {
        Some(x) => Some(x),
        None => b,
    }
}

/// The fields every row leaves to the queue: nobody queued it, it sits in no queue block and
/// radio did not add it.
pub open spec fn no_queue_context(s: SongItem) -> bool {
    &&& s.queued_by is None
    &&& !s.queued
    &&& !s.queued_end
    &&& s.queued_from is None
    &&& !s.autoplay
}

/// The song a list row (search, album, playlist) makes: subtitle fields for artist, album and
/// length, with the album and length columns as fallbacks; the playlist slot only where the row
/// may be removed; and the flags and actions the row carries.
pub open spec fn is_list_item(s: SongItem, node: Json) -> bool {
    let sub = flex_runs_spec(node, 1);
    let split = split_subtitle_spec(sub);
    let who = contributor_spec(node);
    &&& Some(s.video_id@) == list_item_video_id_spec(node)
    &&& s.title@ == list_item_title(node)
    &&& s.artists@ == split.0
    &&& opt_seq(s.artist_id) == match sub {
        Some(r) => first_artist_id_spec(r),
        None => None,
    }
    &&& run_views(s.artist_runs@) == match sub {
        Some(r) => artist_runs_spec(r),
        None => Seq::empty(),
    }
    &&& opt_seq(s.album) == or_text(split.1, album_column_spec(node))
    &&& opt_seq(s.album_id) == album_id_spec(node)
    &&& opt_seq(s.duration) == or_text(split.2, fixed_column_text_spec(node))
    &&& opt_seq(s.play_count) == play_count_spec(node)
    &&& opt_seq(s.thumbnail) == last_thumbnail(node)
    &&& opt_seq(s.set_video_id) == (if removable_spec(node) {
        str_of(get_in(get(node, "playlistItemData"@), "playlistSetVideoId"@))
    } else {
        None
    })
    &&& opt_seq(s.added_by) == match who {
        Some(w) => Some(w.0),
        None => None,
    }
    &&& opt_seq(s.added_by_avatar) == match who {
        Some(w) => Some(w.1),
        None => None,
    }
    &&& s.rating == like_status_spec(node)
    &&& no_queue_context(s)
    &&& s.is_video == is_video_row_spec(node)
    &&& s.is_upload == is_upload_row_spec(node)
    &&& s.explicit == is_explicit_spec(node)
    &&& toggle_opt(s.library) == library_toggle_spec(node)
}

fn or_string(a: Option<String>, b: Option<String>) -> (r: Option<String>)
    ensures
        opt_seq(r) == or_text(opt_seq(a), opt_seq(b)),
{
    match a {
        Some(x) => Some(x),
        None => b,
    }
}

/// One search/album/playlist row as a song, or `None` when it has no videoId or no title.
pub fn parse_list_item(node: &Json) -> (r: Option<SongItem>)
    ensures
        r is Some <==> list_item_ok(*node),
        r matches Some(s) ==> is_list_item(s, *node),
{
    let video_id = match list_item_video_id(node) {
        Some(v) => v,
        None => return None,
    };
    let title = match as_array(get_member(node, "flexColumns")) {
        Some(c) => if c.len() > 0 {
            match flex_text(&c[0]) {
                Some(t) => t,
                None => String::new(),
            }
        } else {
            String::new()
        },
        None => String::new(),
    };
    if title.as_str().is_empty() {
        return None;
    }
    let sub = flex_runs(node, 1);
    let (artists, album, duration) = split_subtitle(sub);
    let duration = or_string(duration, fixed_column_text(node));
    let album = or_string(album, album_column(node));
    let (artist_id, runs) = match sub {
        Some(r) => (first_artist_id(r.as_slice()), artist_runs(r.as_slice())),
        None => (None, Vec::new()),
    };
    let set_video_id = if removable(node) {
        match as_str(get_opt(get_member(node, "playlistItemData"), "playlistSetVideoId")) {
            Some(s) => Some(s.to_owned()),
            None => None,
        }
    } else {
        None
    };
    let (added_by, added_by_avatar) = match contributor(node) {
        Some((name, avatar)) => (Some(name), Some(avatar)),
        None => (None, None),
    };
    let it = SongItem {
        video_id,
        title,
        artists,
        artist_id,
        artist_runs: runs,
        album,
        album_id: album_id(node),
        duration,
        play_count: play_count(node),
        thumbnail: find_last_thumbnail(node),
        set_video_id,
        added_by,
        added_by_avatar,
        rating: like_status(node),
        queued_by: None,
        queued: false,
        queued_end: false,
        queued_from: None,
        autoplay: false,
        is_video: is_video_row(node),
        is_upload: is_upload_row(node),
        explicit: is_explicit(node),
        library: library_toggle(node),
    };
    proof {
        let sub_s = flex_runs_spec(*node, 1);
        let split = split_subtitle_spec(sub_s);
        assert(Some(it.video_id@) == list_item_video_id_spec(*node));
        assert(it.title@ == list_item_title(*node));
        assert(it.artists@ == split.0);
        assert(opt_seq(it.artist_id) == match sub_s {
            Some(r) => first_artist_id_spec(r),
            None => None,
        });
        assert(run_views(it.artist_runs@) == match sub_s {
            Some(r) => artist_runs_spec(r),
            None => Seq::empty(),
        });
        assert(opt_seq(it.album) == or_text(split.1, album_column_spec(*node)));
        assert(opt_seq(it.duration) == or_text(split.2, fixed_column_text_spec(*node)));
    }
    Some(it)
}

/// The byline of a queue-panel row: its artist field only.
pub open spec fn panel_byline_runs(node: Json) -> Option<Seq<Json>> {
    items_of(get_in(or_else(get(node, "longBylineText"@), get(node, "shortBylineText"@)), "runs"@))
}

/// A queue-panel row makes a song: it has a string videoId and a title.
pub open spec fn panel_video_ok(node: Json) -> bool {
    str_of(get(node, "videoId"@)) is Some && runs_text_in(get(node, "title"@)) is Some
}

/// The song a queue-panel row makes: the byline's artist field, the length text, and the flags
/// and actions the row carries; no album name, play count or playlist slot.
pub open spec fn is_panel_video(s: SongItem, node: Json) -> bool {
    let by = panel_byline_runs(node);
    &&& Some(s.video_id@) == str_of(get(node, "videoId"@))
    &&& Some(s.title@) == runs_text_in(get(node, "title"@))
    &&& s.artists@ == split_subtitle_spec(by).0
    &&& opt_seq(s.artist_id) == match by {
        Some(r) => first_artist_id_spec(r),
        None => None,
    }
    &&& run_views(s.artist_runs@) == match by {
        Some(r) => artist_runs_spec(r),
        None => Seq::empty(),
    }
    &&& s.album is None
    &&& opt_seq(s.album_id) == album_id_spec(node)
    &&& opt_seq(s.duration) == runs_text_in(get(node, "lengthText"@))
    &&& s.play_count is None
    &&& opt_seq(s.thumbnail) == last_thumbnail(node)
    &&& s.set_video_id is None
    &&& s.added_by is None
    &&& s.added_by_avatar is None
    &&& s.rating == like_status_spec(node)
    &&& no_queue_context(s)
    &&& s.is_video == is_video_row_spec(node)
    &&& s.is_upload == is_upload_row_spec(node)
    &&& s.explicit == is_explicit_spec(node)
    &&& toggle_opt(s.library) == library_toggle_spec(node)
}

/// One queue-panel row as a song, or `None` when it has no videoId or no title.
pub fn parse_panel_video(node: &Json) -> (r: Option<SongItem>)
    ensures
        r is Some <==> panel_video_ok(*node),
        r matches Some(s) ==> is_panel_video(s, *node),
{
    let video_id = match as_str(get_member(node, "videoId")) {
        Some(v) => v.to_owned(),
        None => return None,
    };
    let title = match runs_text(get_member(node, "title")) {
        Some(t) => t,
        None => return None,
    };
    let byline = or_else_ref(get_member(node, "longBylineText"), get_member(node, "shortBylineText"));
    let by = as_array(get_opt(byline, "runs"));
    let (artists, _, _) = split_subtitle(by);
    let (artist_id, runs) = match by {
        Some(r) => (first_artist_id(r.as_slice()), artist_runs(r.as_slice())),
        None => (None, Vec::new()),
    };
    let it = SongItem {
        video_id,
        title,
        artists,
        artist_id,
        artist_runs: runs,
        album: None,
        album_id: album_id(node),
        duration: runs_text(get_member(node, "lengthText")),
        play_count: None,
        thumbnail: find_last_thumbnail(node),
        set_video_id: None,
        added_by: None,
        added_by_avatar: None,
        rating: like_status(node),
        queued_by: None,
        queued: false,
        queued_end: false,
        queued_from: None,
        autoplay: false,
        is_video: is_video_row(node),
        is_upload: is_upload_row(node),
        explicit: is_explicit(node),
        library: library_toggle(node),
    };
    proof {
        let by_s = panel_byline_runs(*node);
        assert(it.artists@ == split_subtitle_spec(by_s).0);
        assert(opt_seq(it.artist_id) == match by_s {
            Some(r) => first_artist_id_spec(r),
            None => None,
        });
        assert(run_views(it.artist_runs@) == match by_s {
            Some(r) => artist_runs_spec(r),
            None => Seq::empty(),
        });
        assert(opt_seq(it.duration) == runs_text_in(get(*node, "lengthText"@)));
    }
    Some(it)
}

// --- responses -----------------------------------------------------------------------------

/// The first `Some` that `lyrics_of` gives over `vs`, in order.
pub open spec fn first_lyrics(vs: Seq<Json>) -> Option<Seq<char>>
    decreases vs.len(),
{
    if vs.len() == 0 {
        None
    } else {
        match first_lyrics(vs.drop_last()) {
            Some(x) => Some(x),
            None => lyrics_of(vs.last()),
        }
    }
}

proof fn lemma_first_lyrics_prefix(vs: Seq<Json>, n: int)
    requires
        0 <= n <= vs.len(),
        first_lyrics(vs.take(n)) is Some,
    ensures
        first_lyrics(vs) == first_lyrics(vs.take(n)),
    decreases vs.len(),
{
    if n < vs.len() {
        assert(vs.drop_last().take(n) == vs.take(n));
        lemma_first_lyrics_prefix(vs.drop_last(), n);
    } else {
        assert(vs.take(n) == vs);
    }
}

/// The first `Some` that `automix_of` gives over `vs`, in order.
pub open spec fn first_automix(vs: Seq<Json>) -> Option<Seq<char>>
    decreases vs.len(),
{
    if vs.len() == 0 {
        None
    } else {
        match first_automix(vs.drop_last()) {
            Some(x) => Some(x),
            None => automix_of(vs.last()),
        }
    }
}

proof fn lemma_first_automix_prefix(vs: Seq<Json>, n: int)
    requires
        0 <= n <= vs.len(),
        first_automix(vs.take(n)) is Some,
    ensures
        first_automix(vs) == first_automix(vs.take(n)),
    decreases vs.len(),
{
    if n < vs.len() {
        assert(vs.drop_last().take(n) == vs.take(n));
        lemma_first_automix_prefix(vs.drop_last(), n);
    } else {
        assert(vs.take(n) == vs);
    }
}

/// The list rows that make songs, in order.
pub open spec fn song_rows(nodes: Seq<Json>) -> Seq<Json>
    decreases nodes.len(),
{
    if nodes.len() == 0 {
        nodes
    } else if list_item_ok(nodes.last()) {
        song_rows(nodes.drop_last()).push(nodes.last())
    } else {
        song_rows(nodes.drop_last())
    }
}

/// A search response's songs: every list row in it that makes one, in document order.
pub fn parse_search(root: &Json) -> (r: SearchResult)
    ensures
        r.items@.len() == song_rows(find_all(*root, "musicResponsiveListItemRenderer"@)).len(),
        forall|i: int|
            0 <= i < r.items@.len() ==> is_list_item(
                #[trigger] r.items@[i],
                song_rows(find_all(*root, "musicResponsiveListItemRenderer"@))[i],
            ),
{
    let nodes = find_all_refs(root, "musicResponsiveListItemRenderer");
    let ghost nv = values(nodes@);
    let mut items: Vec<SongItem> = Vec::new();
    let mut i: usize = 0;
    while i < nodes.len()
        invariant
            i <= nodes@.len(),
            nv == values(nodes@),
            items@.len() == song_rows(nv.take(i as int)).len(),
            forall|k: int|
                0 <= k < items@.len() ==> is_list_item(#[trigger] items@[k], song_rows(nv.take(i as int))[k]),
        decreases nodes@.len() - i,
    {
        proof {
            assert(nv.take(i + 1).drop_last() == nv.take(i as int));
            assert(nv.take(i + 1).last() == *nodes@[i as int]);
        }
        if let Some(item) = parse_list_item(nodes[i]) {
            items.push(item);
        }
        i += 1;
    }
    proof {
        assert(nv.take(nv.len() as int) == nv);
    }
    SearchResult { items }
}

/// Every queue-panel row under `v`, in order, leaving out the `counterpart` arm of a wrapped row
/// (the music-video twin of the audio row), so that no song is queued twice.
pub open spec fn panel_rows_spec(v: Json) -> Seq<Json>
    decreases v, 1int,
{
    match v {
        Json::Object(m) => panel_members(m@),
        Json::Array(a) => panel_items(a@),
        _ => Seq::empty(),
    }
}

/// `panel_rows_spec` over a run of members.
pub open spec fn panel_members(es: Seq<(String, Json)>) -> Seq<Json>
    decreases es, 0int,
{
    if es.len() == 0 {
        Seq::empty()
    } else {
        let e = es[es.len() - 1];
        panel_members(es.drop_last()) + if e.0@ == "counterpart"@ {
            Seq::empty()
        } else {
            (if e.0@ == "playlistPanelVideoRenderer"@ {
                seq![e.1]
            } else {
                Seq::empty()
            }) + panel_rows_spec(e.1)
        }
    }
}

/// `panel_rows_spec` over a run of array elements.
pub open spec fn panel_items(a: Seq<Json>) -> Seq<Json>
    decreases a, 0int,
{
    if a.len() == 0 {
        Seq::empty()
    } else {
        panel_items(a.drop_last()) + panel_rows_spec(a[a.len() - 1])
    }
}

fn panel_rows<'a>(v: &'a Json, out: &mut Vec<&'a Json>)
    ensures
        values(final(out)@) == values(old(out)@) + panel_rows_spec(*v),
    decreases v,
{
    let ghost start = values(out@);
    match v {
        Json::Object(m) => {
            let mut i: usize = 0;
            while i < m.len()
                invariant
                    i <= m@.len(),
                    *v == Json::Object(*m),
                    panel_rows_spec(*v) == panel_members(m@),
                    values(out@) == start + panel_members(m@.take(i as int)),
                decreases m@.len() - i,
            {
                proof {
                    assert(m@.take(i + 1).drop_last() == m@.take(i as int));
                    assert(m@.take(i + 1)[i as int] == m@[i as int]);
                }
                let ghost before = values(out@);
                if !str_eq(m[i].0.as_str(), "counterpart") {
                    if str_eq(m[i].0.as_str(), "playlistPanelVideoRenderer") {
                        out.push(&m[i].1);
                        proof {
                            assert(values(out@) == before + seq![m@[i as int].1]);
                        }
                    }
                    panel_rows(&m[i].1, out);
                }
                i += 1;
            }
            proof {
                assert(m@.take(m@.len() as int) == m@);
            }
        },
        Json::Array(a) => {
            let mut i: usize = 0;
            while i < a.len()
                invariant
                    i <= a@.len(),
                    *v == Json::Array(*a),
                    panel_rows_spec(*v) == panel_items(a@),
                    values(out@) == start + panel_items(a@.take(i as int)),
                decreases a@.len() - i,
            {
                proof {
                    assert(a@.take(i + 1).drop_last() == a@.take(i as int));
                    assert(a@.take(i + 1)[i as int] == a@[i as int]);
                }
                panel_rows(&a[i], out);
                i += 1;
            }
            proof {
                assert(a@.take(a@.len() as int) == a@);
            }
        },
        _ => {
            proof {
                assert(values(out@) == start + panel_rows_spec(*v));
            }
        },
    }
}

/// The panel rows that make songs, in order.
pub open spec fn panel_songs(nodes: Seq<Json>) -> Seq<Json>
    decreases nodes.len(),
{
    if nodes.len() == 0 {
        nodes
    } else if panel_video_ok(nodes.last()) {
        panel_songs(nodes.drop_last()).push(nodes.last())
    } else {
        panel_songs(nodes.drop_last())
    }
}

/// The lyrics tab's browseId: that of the first browse endpoint whose page type is the lyrics
/// page and that names one.
pub open spec fn lyrics_of(be: Json) -> Option<Seq<char>> {
    if first_str(be, "pageType"@) == Some("MUSIC_PAGE_TYPE_TRACK_LYRICS"@) {
        str_of(get(be, "browseId"@))
    } else {
        None
    }
}

/// The playlist id an automix preview names.
pub open spec fn automix_of(n: Json) -> Option<Seq<char>> {
    first_str(n, "playlistId"@)
}

fn lyrics_browse_id(root: &Json) -> (r: Option<String>)
    ensures
        opt_seq(r) == first_lyrics(find_all(*root, "browseEndpoint"@)),
{
    let ends = find_all_refs(root, "browseEndpoint");
    let ghost ev = values(ends@);
    let mut i: usize = 0;
    while i < ends.len()
        invariant
            i <= ends@.len(),
            ev == values(ends@),
            ev == find_all(*root, "browseEndpoint"@),
            first_lyrics(ev.take(i as int)) is None,
        decreases ends@.len() - i,
    {
        proof {
            assert(ev.take(i + 1).drop_last() == ev.take(i as int));
            assert(ev.take(i + 1).last() == *ends@[i as int]);
        }
        let page = find_first_str(ends[i], "pageType");
        let is_lyrics = match &page {
            Some(p) => str_eq(p.as_str(), "MUSIC_PAGE_TYPE_TRACK_LYRICS"),
            None => false,
        };
        if is_lyrics {
            if let Some(id) = as_str(get_member(ends[i], "browseId")) {
                proof {
                    assert(first_lyrics(ev.take(i + 1)) == Some(id@));
                    lemma_first_lyrics_prefix(ev, i + 1);
                }
                return Some(id.to_owned());
            }
        }
        i += 1;
    }
    proof {
        assert(ev.take(ev.len() as int) == ev);
    }
    None
}

fn automix_playlist_id(root: &Json) -> (r: Option<String>)
    ensures
        opt_seq(r) == first_automix(find_all(*root, "automixPreviewVideoRenderer"@)),
{
    let nodes = find_all_refs(root, "automixPreviewVideoRenderer");
    let ghost nv = values(nodes@);
    let mut i: usize = 0;
    while i < nodes.len()
        invariant
            i <= nodes@.len(),
            nv == values(nodes@),
            nv == find_all(*root, "automixPreviewVideoRenderer"@),
            first_automix(nv.take(i as int)) is None,
        decreases nodes@.len() - i,
    {
        proof {
            assert(nv.take(i + 1).drop_last() == nv.take(i as int));
            assert(nv.take(i + 1).last() == *nodes@[i as int]);
        }
        if let Some(id) = find_first_str(nodes[i], "playlistId") {
            proof {
                assert(first_automix(nv.take(i + 1)) == Some(id@));
                lemma_first_automix_prefix(nv, i + 1);
            }
            return Some(id);
        }
        i += 1;
    }
    proof {
        assert(nv.take(nv.len() as int) == nv);
    }
    None
}

/// A `next` response: the queue rows that make songs (counterparts left out), the first
/// continuation token, the mix the panel continues into, the lyrics tab, and the requested
/// video's rating from the player overlay.
pub fn parse_next(root: &Json) -> (r: NextResult)
    ensures
        r.items@.len() == panel_songs(panel_rows_spec(*root)).len(),
        forall|i: int|
            0 <= i < r.items@.len() ==> is_panel_video(
                #[trigger] r.items@[i],
                panel_songs(panel_rows_spec(*root))[i],
            ),
        opt_seq(r.continuation) == first_str(*root, "continuation"@),
        opt_seq(r.automix_playlist_id) == first_automix(find_all(*root, "automixPreviewVideoRenderer"@)),
        opt_seq(r.lyrics_browse_id) == first_lyrics(find_all(*root, "browseEndpoint"@)),
        r.rating == match get(*root, "playerOverlays"@) {
            Some(p) => like_status_spec(p),
            None => None,
        },
{
    let mut rows: Vec<&Json> = Vec::new();
    proof {
        assert(values(rows@) == Seq::<Json>::empty());
    }
    panel_rows(root, &mut rows);
    let ghost nv = values(rows@);
    proof {
        assert(nv == panel_rows_spec(*root));
    }
    let mut items: Vec<SongItem> = Vec::new();
    let mut i: usize = 0;
    while i < rows.len()
        invariant
            i <= rows@.len(),
            nv == values(rows@),
            items@.len() == panel_songs(nv.take(i as int)).len(),
            forall|k: int|
                0 <= k < items@.len() ==> is_panel_video(#[trigger] items@[k], panel_songs(nv.take(i as int))[k]),
        decreases rows@.len() - i,
    {
        proof {
            assert(nv.take(i + 1).drop_last() == nv.take(i as int));
            assert(nv.take(i + 1).last() == *rows@[i as int]);
        }
        if let Some(item) = parse_panel_video(rows[i]) {
            items.push(item);
        }
        i += 1;
    }
    proof {
        assert(nv.take(nv.len() as int) == nv);
    }
    let rating = match get_member(root, "playerOverlays") {
        Some(p) => like_status(p),
        None => None,
    };
    NextResult {
        items,
        continuation: find_first_str(root, "continuation"),
        lyrics_browse_id: lyrics_browse_id(root),
        automix_playlist_id: automix_playlist_id(root),
        rating,
    }
}

// --- accounts ------------------------------------------------------------------------------

/// A text field of an account response: its runs, else its `simpleText`, else the value itself
/// when it is a string; a blank `simpleText` or string counts as absent.
pub open spec fn account_text_spec(v: Option<Json>) -> Option<Seq<char>> {
    match v {
        None => None,
        Some(x) => or_text(
            runs_text_spec(x),
            or_text(
                match str_of(get(x, "simpleText"@)) {
                    Some(s) => nonempty_text(s),
                    None => None,
                },
                match str_of(Some(x)) {
                    Some(s) => nonempty_text(s),
                    None => None,
                },
            ),
        ),
    }
}

fn account_text(v: Option<&Json>) -> (r: Option<String>)
    ensures
        opt_seq(r) == account_text_spec(deref(v)),
{
    let x = match v {
        Some(x) => x,
        None => return None,
    };
    if let Some(t) = runs_text_opt(x) {
        return Some(t);
    }
    let simple = match as_str(get_member(x, "simpleText")) {
        Some(s) => nonempty_string(s),
        None => None,
    };
    if simple.is_some() {
        return simple;
    }
    match as_str(Some(x)) {
        Some(s) => nonempty_string(s),
        None => None,
    }
}

/// A browse endpoint's channel id, when it names a channel (`UC…`).
pub open spec fn channel_of(e: Json) -> Option<Seq<char>> {
    match str_of(get(e, "browseId"@)) {
        Some(id) => if has_prefix(id, seq!['U', 'C']) {
            Some(id)
        } else {
            None
        },
        None => None,
    }
}

/// The first channel id among browse endpoints.
pub open spec fn first_channel(vs: Seq<Json>) -> Option<Seq<char>>
    decreases vs.len(),
{
    if vs.len() == 0 {
        None
    } else {
        match first_channel(vs.drop_last()) {
            Some(x) => Some(x),
            None => channel_of(vs.last()),
        }
    }
}

proof fn lemma_first_channel_prefix(vs: Seq<Json>, n: int)
    requires
        0 <= n <= vs.len(),
        first_channel(vs.take(n)) is Some,
    ensures
        first_channel(vs) == first_channel(vs.take(n)),
    decreases vs.len(),
{
    if n < vs.len() {
        assert(vs.drop_last().take(n) == vs.take(n));
        lemma_first_channel_prefix(vs.drop_last(), n);
    } else {
        assert(vs.take(n) == vs);
    }
}

/// The channel a node links: its first `UC…` browseId.
pub open spec fn channel_browse_id_spec(node: Json) -> Option<Seq<char>> {
    first_channel(find_all(node, "browseEndpoint"@))
}

fn channel_browse_id(node: &Json) -> (r: Option<String>)
    ensures
        opt_seq(r) == channel_browse_id_spec(*node),
{
    let ends = find_all_refs(node, "browseEndpoint");
    let ghost ev = values(ends@);
    let uc = vec!['U', 'C'];
    proof {
        assert(uc@ == seq!['U', 'C']);
    }
    let mut i: usize = 0;
    while i < ends.len()
        invariant
            i <= ends@.len(),
            uc@ == seq!['U', 'C'],
            ev == values(ends@),
            ev == find_all(*node, "browseEndpoint"@),
            first_channel(ev.take(i as int)) is None,
        decreases ends@.len() - i,
    {
        proof {
            assert(ev.take(i + 1).drop_last() == ev.take(i as int));
            assert(ev.take(i + 1).last() == *ends@[i as int]);
        }
        if let Some(id) = as_str(get_member(ends[i], "browseId")) {
            if starts_with(id, &uc) {
                proof {
                    assert(first_channel(ev.take(i + 1)) == Some(id@));
                    lemma_first_channel_prefix(ev, i + 1);
                }
                return Some(id.to_owned());
            }
        }
        i += 1;
    }
    proof {
        assert(ev.take(ev.len() as int) == ev);
    }
    None
}

/// The response's dataSyncId, from its web response context, made usable.
pub open spec fn response_data_sync_id_spec(root: Json) -> Option<Seq<char>> {
    let m = get_in(get(root, "responseContext"@), "mainAppWebResponseContext"@);
    match str_of(or_else(get_in(m, "datasyncId"@), get_in(m, "dataSyncId"@))) {
        Some(s) => nonempty_text(datasync_part(s)),
        None => None,
    }
}

fn response_data_sync_id(root: &Json) -> (r: Option<String>)
    ensures
        opt_seq(r) == response_data_sync_id_spec(*root),
{
    let m = get_opt(get_member(root, "responseContext"), "mainAppWebResponseContext");
    match as_str(or_else_ref(get_opt(m, "datasyncId"), get_opt(m, "dataSyncId"))) {
        Some(s) => normalize_data_sync_id(s),
        None => None,
    }
}

/// The account summary an account menu response gives: the first active-account header's name,
/// handle, email, picture and channel, the response's dataSyncId, and a non-empty visitorData.
pub open spec fn is_account_menu(a: AccountInfo, root: Json) -> bool {
    let hs = find_all(root, "activeAccountHeaderRenderer"@);
    let h = if hs.len() > 0 {
        Some(hs[0])
    } else {
        None
    };
    &&& opt_seq(a.name) == match h {
        Some(x) => account_text_spec(get(x, "accountName"@)),
        None => None,
    }
    &&& opt_seq(a.handle) == match h {
        Some(x) => account_text_spec(get(x, "channelHandle"@)),
        None => None,
    }
    &&& opt_seq(a.email) == match h {
        Some(x) => account_text_spec(get(x, "email"@)),
        None => None,
    }
    &&& opt_seq(a.thumbnail) == match h {
        Some(x) => last_thumbnail(x),
        None => None,
    }
    &&& opt_seq(a.channel_id) == match h {
        Some(x) => channel_browse_id_spec(x),
        None => None,
    }
    &&& opt_seq(a.data_sync_id) == response_data_sync_id_spec(root)
    &&& opt_seq(a.visitor_data) == match str_of(get_in(get(root, "responseContext"@), "visitorData"@)) {
        Some(v) => if v.len() > 0 {
            Some(v)
        } else {
            None
        },
        None => None,
    }
}

/// Parses an account menu response into an account summary.
pub fn parse_account_menu(root: &Json) -> (a: AccountInfo)
    ensures
        is_account_menu(a, *root),
{
    let hs = find_all_refs(root, "activeAccountHeaderRenderer");
    let header = if hs.len() > 0 {
        proof {
            assert(values(hs@)[0] == *hs@[0]);
        }
        Some(hs[0])
    } else {
        None
    };
    let (name, handle, email, thumbnail, channel_id) = match header {
        Some(h) => (
            account_text(get_member(h, "accountName")),
            account_text(get_member(h, "channelHandle")),
            account_text(get_member(h, "email")),
            find_last_thumbnail(h),
            channel_browse_id(h),
        ),
        None => (None, None, None, None, None),
    };
    let visitor_data = match as_str(get_opt(get_member(root, "responseContext"), "visitorData")) {
        Some(v) => if v.is_empty() {
            None
        } else {
            Some(v.to_owned())
        },
        None => None,
    };
    AccountInfo {
        name,
        handle,
        email,
        thumbnail,
        channel_id,
        data_sync_id: response_data_sync_id(root),
        visitor_data,
    }
}

/// An identity as (name, handle, email, picture, channel, dataSyncId, selected).
pub type IdentityView = (
    Seq<char>,
    Option<Seq<char>>,
    Option<Seq<char>>,
    Option<Seq<char>>,
    Option<Seq<char>>,
    Seq<char>,
    bool,
);

/// The view of an identity.
pub open spec fn identity_view(a: AccountIdentity) -> IdentityView {
    (
        a.name@,
        opt_seq(a.handle),
        opt_seq(a.email),
        opt_seq(a.thumbnail),
        opt_seq(a.channel_id),
        a.data_sync_id@,
        a.is_selected,
    )
}

/// The dataSyncId a supported token carries, made usable.
pub open spec fn token_data_sync_id(t: Json) -> Option<Seq<char>> {
    match or_else(get(t, "datasyncIdToken"@), get(t, "dataSyncIdToken"@)) {
        None => None,
        Some(v) => match str_of(
            or_else(or_else(get(v, "datasyncIdToken"@), get(v, "datasyncId"@)), get(v, "dataSyncId"@)),
        ) {
            Some(s) => nonempty_text(datasync_part(s)),
            None => None,
        },
    }
}

/// The page id a supported token carries, when it is not blank.
pub open spec fn token_page_id(t: Json) -> Option<Seq<char>> {
    match str_of(get_in(get(t, "pageIdToken"@), "pageId"@)) {
        Some(s) => nonempty_text(s),
        None => None,
    }
}

/// The first token dataSyncId among the tokens.
pub open spec fn first_token_dsid(ts: Seq<Json>) -> Option<Seq<char>>
    decreases ts.len(),
{
    if ts.len() == 0 {
        None
    } else {
        match first_token_dsid(ts.drop_last()) {
            Some(x) => Some(x),
            None => token_data_sync_id(ts.last()),
        }
    }
}

/// The first page id among the tokens.
pub open spec fn first_page_id(ts: Seq<Json>) -> Option<Seq<char>>
    decreases ts.len(),
{
    if ts.len() == 0 {
        None
    } else {
        match first_page_id(ts.drop_last()) {
            Some(x) => Some(x),
            None => token_page_id(ts.last()),
        }
    }
}

proof fn lemma_first_token_dsid_prefix(vs: Seq<Json>, n: int)
    requires
        0 <= n <= vs.len(),
        first_token_dsid(vs.take(n)) is Some,
    ensures
        first_token_dsid(vs) == first_token_dsid(vs.take(n)),
    decreases vs.len(),
{
    if n < vs.len() {
        assert(vs.drop_last().take(n) == vs.take(n));
        lemma_first_token_dsid_prefix(vs.drop_last(), n);
    } else {
        assert(vs.take(n) == vs);
    }
}

proof fn lemma_first_page_id_prefix(vs: Seq<Json>, n: int)
    requires
        0 <= n <= vs.len(),
        first_page_id(vs.take(n)) is Some,
    ensures
        first_page_id(vs) == first_page_id(vs.take(n)),
    decreases vs.len(),
{
    if n < vs.len() {
        assert(vs.drop_last().take(n) == vs.take(n));
        lemma_first_page_id_prefix(vs.drop_last(), n);
    } else {
        assert(vs.take(n) == vs);
    }
}

/// The tokens of an identity's select endpoint (none when it lists none).
pub open spec fn identity_tokens(endpoint: Json) -> Seq<Json> {
    match items_of(get(endpoint, "supportedTokens"@)) {
        Some(t) => t,
        None => Seq::empty(),
    }
}

/// One selectable identity of an accounts list: not disabled, with a channel, a name and a select
/// endpoint, and a server-issued identity token (a dataSyncId token, else a page id, else, for
/// the currently selected one, the response's own dataSyncId). The channel's browse id is never
/// taken for one.
pub open spec fn identity_of(item: Json, email: Option<Seq<char>>, rid: Option<Seq<char>>) -> Option<IdentityView> {
    if bool_of(get(item, "isDisabled"@)) == Some(true) || bool_of(get(item, "hasChannel"@)) == Some(false) {
        None
    } else {
        match account_text_spec(get(item, "accountName"@)) {
            None => None,
            Some(name) => match get_in(get(item, "serviceEndpoint"@), "selectActiveIdentityEndpoint"@) {
                None => None,
                Some(endpoint) => {
                    let tokens = identity_tokens(endpoint);
                    let selected = match bool_of(get(item, "isSelected"@)) {
                        Some(b) => b,
                        None => false,
                    };
                    let dsid = or_text(
                        first_token_dsid(tokens),
                        or_text(first_page_id(tokens), if selected {
                            rid
                        } else {
                            None
                        }),
                    );
                    match dsid {
                        None => None,
                        Some(d) => Some(
                            (
                                name,
                                account_text_spec(get(item, "channelHandle"@)),
                                match email {
                                    Some(e) => nonempty_text(e),
                                    None => None,
                                },
                                last_thumbnail(item),
                                channel_browse_id_spec(item),
                                d,
                                selected,
                            ),
                        ),
                    }
                },
            },
        }
    }
}

fn token_dsid(t: &Json) -> (r: Option<String>)
    ensures
        opt_seq(r) == token_data_sync_id(*t),
{
    match or_else_ref(get_member(t, "datasyncIdToken"), get_member(t, "dataSyncIdToken")) {
        None => None,
        Some(v) => {
            let x = or_else_ref(
                or_else_ref(get_member(v, "datasyncIdToken"), get_member(v, "datasyncId")),
                get_member(v, "dataSyncId"),
            );
            match as_str(x) {
                Some(s) => normalize_data_sync_id(s),
                None => None,
            }
        },
    }
}

fn page_id(t: &Json) -> (r: Option<String>)
    ensures
        opt_seq(r) == token_page_id(*t),
{
    match as_str(get_opt(get_member(t, "pageIdToken"), "pageId")) {
        Some(s) => nonempty_string(s),
        None => None,
    }
}

/// One identity from an accounts-list item, or `None` when it cannot be selected.
pub fn parse_account_identity(item: &Json, email: Option<&str>, response_id: Option<&str>) -> (r: Option<AccountIdentity>)
    ensures
        match r {
            Some(a) => identity_of(*item, match email {
                Some(e) => Some(e@),
                None => None,
            }, match response_id {
                Some(x) => Some(x@),
                None => None,
            }) == Some(identity_view(a)),
            None => identity_of(*item, match email {
                Some(e) => Some(e@),
                None => None,
            }, match response_id {
                Some(x) => Some(x@),
                None => None,
            }) is None,
        },
{
    if as_bool(get_member(item, "isDisabled")) == Some(true) || as_bool(get_member(item, "hasChannel"))
        == Some(false) {
        return None;
    }
    let name = match account_text(get_member(item, "accountName")) {
        Some(n) => n,
        None => return None,
    };
    let endpoint = match get_opt(get_member(item, "serviceEndpoint"), "selectActiveIdentityEndpoint") {
        Some(e) => e,
        None => return None,
    };
    let empty: Vec<Json> = Vec::new();
    let tokens: &Vec<Json> = match as_array(get_member(endpoint, "supportedTokens")) {
        Some(t) => t,
        None => &empty,
    };
    proof {
        assert(tokens@ == identity_tokens(*endpoint));
    }
    let mut token_id: Option<String> = None;
    let mut i: usize = 0;
    while i < tokens.len() && token_id.is_none()
        invariant
            i <= tokens@.len(),
            token_id is None ==> first_token_dsid(tokens@.take(i as int)) is None,
            token_id matches Some(t) ==> first_token_dsid(tokens@) == Some(t@),
        decreases tokens@.len() - i,
    {
        proof {
            assert(tokens@.take(i + 1).drop_last() == tokens@.take(i as int));
            assert(tokens@.take(i + 1).last() == tokens@[i as int]);
        }
        token_id = token_dsid(&tokens[i]);
        proof {
            if token_id is Some {
                lemma_first_token_dsid_prefix(tokens@, i + 1);
            }
        }
        i += 1;
    }
    proof {
        if token_id is None {
            assert(tokens@.take(tokens@.len() as int) == tokens@);
        }
    }
    let mut page: Option<String> = None;
    let mut k: usize = 0;
    while k < tokens.len() && page.is_none()
        invariant
            k <= tokens@.len(),
            page is None ==> first_page_id(tokens@.take(k as int)) is None,
            page matches Some(t) ==> first_page_id(tokens@) == Some(t@),
        decreases tokens@.len() - k,
    {
        proof {
            assert(tokens@.take(k + 1).drop_last() == tokens@.take(k as int));
            assert(tokens@.take(k + 1).last() == tokens@[k as int]);
        }
        page = page_id(&tokens[k]);
        proof {
            if page is Some {
                lemma_first_page_id_prefix(tokens@, k + 1);
            }
        }
        k += 1;
    }
    proof {
        if page is None {
            assert(tokens@.take(tokens@.len() as int) == tokens@);
        }
    }
    let selected = match as_bool(get_member(item, "isSelected")) {
        Some(b) => b,
        None => false,
    };
    let from_response = if selected {
        match response_id {
            Some(x) => Some(x.to_owned()),
            None => None,
        }
    } else {
        None
    };
    let dsid = match or_string(token_id, or_string(page, from_response)) {
        Some(d) => d,
        None => return None,
    };
    let mail = match email {
        Some(e) => nonempty_string(e),
        None => None,
    };
    Some(AccountIdentity {
        name,
        handle: account_text(get_member(item, "channelHandle")),
        email: mail,
        thumbnail: find_last_thumbnail(item),
        channel_id: channel_browse_id(item),
        data_sync_id: dsid,
        is_selected: selected,
    })
}

/// The email a section's Google-account header gives.
pub open spec fn email_of(h: Json) -> Option<Seq<char>> {
    account_text_spec(get(h, "email"@))
}

/// The first email among section headers.
pub open spec fn first_email(vs: Seq<Json>) -> Option<Seq<char>>
    decreases vs.len(),
{
    if vs.len() == 0 {
        None
    } else {
        match first_email(vs.drop_last()) {
            Some(x) => Some(x),
            None => email_of(vs.last()),
        }
    }
}

proof fn lemma_first_email_prefix(vs: Seq<Json>, n: int)
    requires
        0 <= n <= vs.len(),
        first_email(vs.take(n)) is Some,
    ensures
        first_email(vs) == first_email(vs.take(n)),
    decreases vs.len(),
{
    if n < vs.len() {
        assert(vs.drop_last().take(n) == vs.take(n));
        lemma_first_email_prefix(vs.drop_last(), n);
    } else {
        assert(vs.take(n) == vs);
    }
}

/// The identity candidates of a run of account items.
pub open spec fn item_candidates(items: Seq<Json>, email: Option<Seq<char>>, rid: Option<Seq<char>>) -> Seq<Option<IdentityView>> {
    items.map_values(|it: Json| identity_of(it, email, rid))
}

/// The identity candidates of a run of sections, each item with its section's account email.
pub open spec fn section_candidates(secs: Seq<Json>, rid: Option<Seq<char>>) -> Seq<Option<IdentityView>>
    decreases secs.len(),
{
    if secs.len() == 0 {
        Seq::empty()
    } else {
        let sec = secs.last();
        section_candidates(secs.drop_last(), rid) + item_candidates(
            find_all(sec, "accountItem"@),
            first_email(find_all(sec, "googleAccountHeaderRenderer"@)),
            rid,
        )
    }
}

/// Every identity candidate of an accounts list, in order: per section when the response has
/// sections, else every account item with no email.
pub open spec fn identity_candidates(root: Json) -> Seq<Option<IdentityView>> {
    let rid = response_data_sync_id_spec(root);
    let secs = find_all(root, "accountSectionListRenderer"@);
    if secs.len() == 0 {
        item_candidates(find_all(root, "accountItem"@), None, rid)
    } else {
        section_candidates(secs, rid)
    }
}

/// The identities among the candidates, each dataSyncId once (the first one wins).
pub open spec fn dedup_identities(cs: Seq<Option<IdentityView>>) -> Seq<IdentityView>
    decreases cs.len(),
{
    if cs.len() == 0 {
        Seq::empty()
    } else {
        let r = dedup_identities(cs.drop_last());
        match cs.last() {
            Some(id) => if forall|i: int| 0 <= i < r.len() ==> (#[trigger] r[i]).5 != id.5 {
                r.push(id)
            } else {
                r
            },
            None => r,
        }
    }
}

/// The views of a list of identities.
pub open spec fn identity_views(v: Seq<AccountIdentity>) -> Seq<IdentityView> {
    v.map_values(|a: AccountIdentity| identity_view(a))
}

/// One step of `dedup_identities`: the candidate joins unless its dataSyncId is already there.
pub open spec fn dedup_step(r: Seq<IdentityView>, c: Option<IdentityView>) -> Seq<IdentityView> {
    match c {
        Some(id) => if forall|i: int| 0 <= i < r.len() ==> (#[trigger] r[i]).5 != id.5 {
            r.push(id)
        } else {
            r
        },
        None => r,
    }
}

fn push_account_identity(out: &mut Vec<AccountIdentity>, cand: Option<AccountIdentity>)
    ensures
        identity_views(final(out)@) == dedup_step(
            identity_views(old(out)@),
            match cand {
                Some(a) => Some(identity_view(a)),
                None => None,
            },
        ),
{
    let identity = match cand {
        Some(a) => a,
        None => return,
    };
    let ghost before = identity_views(out@);
    let mut i: usize = 0;
    while i < out.len()
        invariant
            i <= out@.len(),
            before == identity_views(out@),
            out@ == old(out)@,
            cand == Some(identity),
            forall|j: int| 0 <= j < i ==> (#[trigger] before[j]).5 != identity.data_sync_id@,
        decreases out@.len() - i,
    {
        if str_eq(out[i].data_sync_id.as_str(), identity.data_sync_id.as_str()) {
            proof {
                assert(before[i as int].5 == identity.data_sync_id@);
                assert(identity_view(identity).5 == identity.data_sync_id@);
                assert(!(forall|j: int| 0 <= j < before.len() ==> (#[trigger] before[j]).5 != identity_view(identity).5));
            }
            return;
        }
        i += 1;
    }
    let ghost v = identity_view(identity);
    out.push(identity);
    proof {
        assert(identity_views(out@) =~= before.push(v));
    }
}

fn section_email(sec: &Json) -> (r: Option<String>)
    ensures
        opt_seq(r) == first_email(find_all(*sec, "googleAccountHeaderRenderer"@)),
{
    let hs = find_all_refs(sec, "googleAccountHeaderRenderer");
    let ghost hv = values(hs@);
    let mut i: usize = 0;
    while i < hs.len()
        invariant
            i <= hs@.len(),
            hv == values(hs@),
            hv == find_all(*sec, "googleAccountHeaderRenderer"@),
            first_email(hv.take(i as int)) is None,
        decreases hs@.len() - i,
    {
        proof {
            assert(hv.take(i + 1).drop_last() == hv.take(i as int));
            assert(hv.take(i + 1).last() == *hs@[i as int]);
        }
        if let Some(e) = account_text(get_member(hs[i], "email")) {
            proof {
                assert(first_email(hv.take(i + 1)) == Some(e@));
                lemma_first_email_prefix(hv, i + 1);
            }
            return Some(e);
        }
        i += 1;
    }
    proof {
        assert(hv.take(hv.len() as int) == hv);
    }
    None
}

fn opt_str<'a>(o: &'a Option<String>) -> (r: Option<&'a str>)
    ensures
        match r {
            Some(s) => opt_seq(*o) == Some(s@),
            None => o is None,
        },
{
    match o {
        Some(s) => Some(s.as_str()),
        None => None,
    }
}

/// Every selectable channel of an accounts list, each identity token once.
pub fn parse_account_identities(root: &Json) -> (r: Vec<AccountIdentity>)
    ensures
        identity_views(r@) == dedup_identities(identity_candidates(*root)),
{
    let rid = response_data_sync_id(root);
    let rid_s = opt_str(&rid);
    let ghost rv = response_data_sync_id_spec(*root);
    let mut out: Vec<AccountIdentity> = Vec::new();
    let sections = find_all_refs(root, "accountSectionListRenderer");
    let ghost sv = values(sections@);
    if sections.len() == 0 {
        let items = find_all_refs(root, "accountItem");
        let ghost iv = values(items@);
        let ghost cs = item_candidates(iv, None, rv);
        let mut i: usize = 0;
        while i < items.len()
            invariant
                i <= items@.len(),
                iv == values(items@),
                cs == item_candidates(iv, None, rv),
                rv == match rid_s {
                    Some(x) => Some(x@),
                    None => None::<Seq<char>>,
                },
                identity_views(out@) == dedup_identities(cs.take(i as int)),
            decreases items@.len() - i,
        {
            proof {
                assert(cs.take(i + 1).drop_last() == cs.take(i as int));
                assert(cs.take(i + 1).last() == identity_of(*items@[i as int], None, rv));
            }
            let cand = parse_account_identity(items[i], None, rid_s);
            push_account_identity(&mut out, cand);
            i += 1;
        }
        proof {
            assert(cs.take(cs.len() as int) == cs);
        }
        return out;
    }
    let mut s: usize = 0;
    while s < sections.len()
        invariant
            s <= sections@.len(),
            sv == values(sections@),
            rv == match rid_s {
                Some(x) => Some(x@),
                None => None::<Seq<char>>,
            },
            identity_views(out@) == dedup_identities(section_candidates(sv.take(s as int), rv)),
        decreases sections@.len() - s,
    {
        let sec = sections[s];
        let email = section_email(sec);
        let email_s = opt_str(&email);
        let items = find_all_refs(sec, "accountItem");
        let ghost iv = values(items@);
        let ghost ev = opt_seq(email);
        let ghost base = section_candidates(sv.take(s as int), rv);
        let ghost cs = item_candidates(iv, ev, rv);
        proof {
            assert(sv.take(s + 1).drop_last() == sv.take(s as int));
            assert(sv.take(s + 1).last() == *sections@[s as int]);
            assert(section_candidates(sv.take(s + 1), rv) == base + cs);
            assert(base + cs.take(0) == base);
        }
        let mut i: usize = 0;
        while i < items.len()
            invariant
                i <= items@.len(),
                iv == values(items@),
                cs == item_candidates(iv, ev, rv),
                ev == match email_s {
                    Some(x) => Some(x@),
                    None => None::<Seq<char>>,
                },
                rv == match rid_s {
                    Some(x) => Some(x@),
                    None => None::<Seq<char>>,
                },
                identity_views(out@) == dedup_identities(base + cs.take(i as int)),
            decreases items@.len() - i,
        {
            proof {
                assert((base + cs.take(i + 1)).drop_last() == base + cs.take(i as int));
                assert((base + cs.take(i + 1)).last() == identity_of(*items@[i as int], ev, rv));
            }
            let cand = parse_account_identity(items[i], email_s, rid_s);
            push_account_identity(&mut out, cand);
            i += 1;
        }
        proof {
            assert(cs.take(cs.len() as int) == cs);
        }
        s += 1;
    }
    proof {
        assert(sv.take(sv.len() as int) == sv);
    }
    out
}

} // verus!
