//! Decisions behind the app's commands that are not tied to a window or a request.

use vstd::prelude::*;
use crate::models::{BrowseItem, SongItem};
use crate::endpoints::{strip_vl, strip_vl_text};
use crate::text::{
    before_first, chars_of, decimal, find, find_char, int_text, opt_seq, parse_i64, parse_i64_str,
    has_prefix, opt_str, push_decimal, push_signed, push_str, starts_with, str_eq, string_of, trim,
    trim_bounds,
};
use crate::player::{ascii_lower, lower_ascii};

verus! {

/// A song row as On Repeat keeps it: the queue slot it was played from (who queued it, which
/// block it sat in, whether radio appended it, its place in a playlist, who added it there) is
/// shed; the song itself is untouched.
pub open spec fn is_shed_of(r: SongItem, s: SongItem) -> bool {
    &&& r.video_id == s.video_id
    &&& r.title == s.title
    &&& r.artists == s.artists
    &&& r.artist_id == s.artist_id
    &&& r.artist_runs == s.artist_runs
    &&& r.album == s.album
    &&& r.album_id == s.album_id
    &&& r.duration == s.duration
    &&& r.play_count == s.play_count
    &&& r.thumbnail == s.thumbnail
    &&& r.rating == s.rating
    &&& r.is_video == s.is_video
    &&& r.is_upload == s.is_upload
    &&& r.explicit == s.explicit
    &&& r.library == s.library
    &&& !r.queued
    &&& !r.queued_end
    &&& r.queued_from is None
    &&& r.queued_by is None
    &&& !r.autoplay
    &&& r.set_video_id is None
    &&& r.added_by is None
    &&& r.added_by_avatar is None
}

/// Strips the queue context a played row carries, so that On Repeat lists the song and not the
/// slot it was played from.
pub fn shed_queue_context(s: SongItem) -> (r: SongItem)
    ensures
        is_shed_of(r, s),
{
    let mut r = s;
    r.queued = false;
    r.queued_end = false;
    r.queued_from = None;
    r.queued_by = None;
    r.autoplay = false;
    r.set_video_id = None;
    r.added_by = None;
    r.added_by_avatar = None;
    r
}

/// "playlist_cover:".
pub open spec fn cover_key_prefix() -> Seq<char> {
    seq!['p', 'l', 'a', 'y', 'l', 'i', 's', 't', '_', 'c', 'o', 'v', 'e', 'r', ':']
}

/// The setting a playlist's custom cover is stored under: one key per playlist, whether it is
/// named by its browse id or its playlist id.
pub open spec fn cover_key_text(playlist_id: Seq<char>) -> Seq<char> {
    cover_key_prefix() + strip_vl_text(playlist_id)
}

/// The setting a playlist's custom cover is stored under.
pub fn cover_key(playlist_id: &str) -> (r: String)
    ensures
        r@ == cover_key_text(playlist_id@),
{
    let mut v = vec!['p', 'l', 'a', 'y', 'l', 'i', 's', 't', '_', 'c', 'o', 'v', 'e', 'r', ':'];
    proof {
        assert(v@ == cover_key_prefix());
    }
    push_str(&mut v, strip_vl(playlist_id));
    string_of(&v)
}

/// The setting that records that a cover of ours reached the account.
pub fn synced_key(playlist_id: &str) -> (r: String)
    ensures
        r@ == cover_key_text(playlist_id@) + seq![':', 's', 'y', 'n', 'c', 'e', 'd'],
{
    let mut v = chars_of(cover_key(playlist_id).as_str());
    let tail = vec![':', 's', 'y', 'n', 'c', 'e', 'd'];
    proof {
        assert(tail@ == seq![':', 's', 'y', 'n', 'c', 'e', 'd']);
    }
    crate::text::push_all(&mut v, &tail);
    string_of(&v)
}

/// Who draws the window frame: always the system's overlay on macOS; elsewhere the system when
/// the `system_titlebar` setting is `"true"`, else the app itself.
pub open spec fn native_chrome_text(is_macos: bool, system_titlebar: Option<Seq<char>>) -> Seq<char> {
    if is_macos {
        seq!['o', 'v', 'e', 'r', 'l', 'a', 'y']
    } else if system_titlebar == Some(seq!['t', 'r', 'u', 'e']) {
        seq!['o', 'n']
    } else {
        seq!['o', 'f', 'f']
    }
}

/// Who draws the window frame, as the UI needs to know it.
pub fn native_chrome(is_macos: bool, system_titlebar: Option<&str>) -> (r: &'static str)
    ensures
        r@ == native_chrome_text(
            is_macos,
            match system_titlebar {
                Some(s) => Some(s@),
                None => None,
            },
        ),
{
    proof {
        reveal_strlit("overlay");
        reveal_strlit("on");
        reveal_strlit("off");
        reveal_strlit("true");
        assert("overlay"@ == seq!['o', 'v', 'e', 'r', 'l', 'a', 'y']);
        assert("on"@ == seq!['o', 'n']);
        assert("off"@ == seq!['o', 'f', 'f']);
        assert("true"@ == seq!['t', 'r', 'u', 'e']);
    }
    if is_macos {
        "overlay"
    } else {
        let on = match system_titlebar {
            Some(s) => str_eq(s, "true"),
            None => false,
        };
        if on {
            "on"
        } else {
            "off"
        }
    }
}

/// What setting a playlist cover answers: the local copy, and the thumbnail YouTube rebuilt in
/// its place.
#[derive(Debug, Clone, PartialEq)]
pub struct CoverResult {
    pub cover: Option<String>,
    pub thumbnail: Option<String>,
}

/// One release as the releases listing describes it.
pub struct GitHubRelease {
    pub tag_name: String,
    pub published_at: Option<String>,
    pub body: Option<String>,
    pub draft: bool,
    pub prerelease: bool,
}

/// One entry of the changelog.
#[derive(Debug, Clone, PartialEq)]
pub struct ReleaseNote {
    pub version: String,
    /// `YYYY-MM-DD`, or empty for an unpublished tag.
    pub date: String,
    /// The release description, verbatim markdown.
    pub body: String,
}

/// `s` without its leading `v`s (`str::trim_start_matches('v')`).
pub open spec fn without_leading_v(s: Seq<char>) -> Seq<char>
    decreases s.len(),
{
    if s.len() > 0 && s[0] == 'v' {
        without_leading_v(s.drop_first())
    } else {
        s
    }
}

/// The changelog entry for a release: the tag without its `v`, the date part of the publication
/// time (empty when unpublished), the description (empty when there is none).
pub open spec fn is_note_of(n: ReleaseNote, r: GitHubRelease) -> bool {
    &&& n.version@ == without_leading_v(r.tag_name@)
    &&& n.date@ == match r.published_at {
        Some(p) => before_first(p@, 'T'),
        None => Seq::empty(),
    }
    &&& n.body@ == match r.body {
        Some(b) => b@,
        None => Seq::empty(),
    }
}

/// The changelog entry for one release.
pub fn release_note(r: &GitHubRelease) -> (n: ReleaseNote)
    ensures
        is_note_of(n, *r),
{
    let v = chars_of(r.tag_name.as_str());
    let mut i: usize = 0;
    proof {
        assert(v@.skip(0) == v@);
    }
    while i < v.len() && v[i] == 'v'
        invariant
            i <= v@.len(),
            without_leading_v(v@) == without_leading_v(v@.skip(i as int)),
        decreases v@.len() - i,
    {
        proof {
            assert(v@.skip(i as int).drop_first() == v@.skip(i + 1));
        }
        i += 1;
    }
    proof {
        assert(v@.skip(0) == v@);
        assert(v@.subrange(i as int, v@.len() as int) == v@.skip(i as int));
    }
    let version = string_of(&v[i..v.len()]);
    let date = match &r.published_at {
        Some(p) => {
            let pv = chars_of(p.as_str());
            match find_char(&pv, 0, pv.len(), 'T') {
                Some(j) => {
                    proof {
                        assert(pv@.subrange(0, pv@.len() as int) == pv@);
                        assert(pv@.subrange(0, j as int) == pv@.take(j as int));
                    }
                    string_of(&pv[0..j])
                },
                None => {
                    proof {
                        assert(pv@.subrange(0, pv@.len() as int) == pv@);
                    }
                    string_of(&pv)
                },
            }
        },
        None => String::new(),
    };
    let body = match &r.body {
        Some(b) => b.clone(),
        None => String::new(),
    };
    ReleaseNote { version, date, body }
}

/// The published releases (neither drafts nor prereleases), in the listing's order.
pub open spec fn published(rs: Seq<GitHubRelease>) -> Seq<GitHubRelease>
    decreases rs.len(),
{
    if rs.len() == 0 {
        rs
    } else {
        let p = published(rs.drop_last());
        if !rs.last().draft && !rs.last().prerelease {
            p.push(rs.last())
        } else {
            p
        }
    }
}

/// The changelog: one entry per published release, in order.
pub fn release_notes_from(releases: &[GitHubRelease]) -> (r: Vec<ReleaseNote>)
    ensures
        r@.len() == published(releases@).len(),
        forall|i: int| 0 <= i < r@.len() ==> is_note_of(#[trigger] r@[i], published(releases@)[i]),
{
    let mut out: Vec<ReleaseNote> = Vec::new();
    let mut i: usize = 0;
    while i < releases.len()
        invariant
            i <= releases@.len(),
            out@.len() == published(releases@.take(i as int)).len(),
            forall|j: int|
                0 <= j < out@.len() ==> is_note_of(
                    #[trigger] out@[j],
                    published(releases@.take(i as int))[j],
                ),
        decreases releases@.len() - i,
    {
        proof {
            assert(releases@.take(i + 1).drop_last() == releases@.take(i as int));
        }
        if !releases[i].draft && !releases[i].prerelease {
            let n = release_note(&releases[i]);
            out.push(n);
        }
        i += 1;
    }
    proof {
        assert(releases@.take(releases@.len() as int) == releases@);
    }
    out
}


/// The settings the UI may read and write, as the settings tab lists them.
pub open spec fn ui_setting_list() -> Seq<&'static str> {
    seq![
        "volume",
        "proxy",
        "quality",
        "enable_history",
        "disabled_stream_clients",
        "discord_rpc",
        "discord_rpc_config",
        "close_to_tray",
        "autostart",
        "autoplay",
        "hide_videos",
        "prevent_duplicates",
        "update_banner",
        "lyrics_boidu",
        "music_videos",
        "sticky_shuffle",
        "system_titlebar",
        "lastfm_primary_artist",
        "lastfm_primary_strict",
        "crossfade",
        "crossfade_secs",
        "locale",
    ]
}

/// Whether `key` names a setting the UI may read and write.
pub open spec fn is_ui_setting_key(key: Seq<char>) -> bool {
    exists|i: int| 0 <= i < ui_setting_list().len() && (#[trigger] ui_setting_list()[i])@ == key
}

/// The settings the UI may read and write.
fn ui_settings_list() -> (r: Vec<&'static str>)
    ensures
        r@ == ui_setting_list(),
{
    let r = vec![
        "volume",
        "proxy",
        "quality",
        "enable_history",
        "disabled_stream_clients",
        "discord_rpc",
        "discord_rpc_config",
        "close_to_tray",
        "autostart",
        "autoplay",
        "hide_videos",
        "prevent_duplicates",
        "update_banner",
        "lyrics_boidu",
        "music_videos",
        "sticky_shuffle",
        "system_titlebar",
        "lastfm_primary_artist",
        "lastfm_primary_strict",
        "crossfade",
        "crossfade_secs",
        "locale",
    ];
    proof {
        assert(r@ =~= ui_setting_list());
    }
    r
}

/// Whether `key` names a setting the UI may read and write.
pub fn is_ui_setting(key: &str) -> (b: bool)
    ensures
        b == is_ui_setting_key(key@),
{
    let names = ui_settings_list();
    let mut i: usize = 0;
    while i < names.len()
        invariant
            names@ == ui_setting_list(),
            i <= names@.len(),
            forall|j: int| 0 <= j < i ==> (#[trigger] ui_setting_list()[j])@ != key@,
        decreases names@.len() - i,
    {
        if crate::text::str_eq(names[i], key) {
            return true;
        }
        i += 1;
    }
    false
}


/// What storing a setting sets off besides being stored.
#[derive(Debug, Clone, Copy, PartialEq, Eq, Structural)]
pub enum SettingEffect {
    /// Nothing: the value is read where it is used.
    Stored,
    /// Rich presence connects or clears at once.
    Presence { enabled: bool },
    /// The presence card takes the new layout at once.
    PresenceLayout,
    /// The player reads its crossfade again; it applies from the next track change.
    Crossfade,
    /// YouTube answers in the new language from here on.
    Locale,
    /// What is fetched from here on keeps or drops videos.
    HideVideos { hide: bool },
    /// Cached lyrics are dropped, so that none outlives the setting that shaped it.
    ClearLyricsCache,
    /// The window frame is handed to the system, or taken back (not on macOS, where the title bar
    /// is fixed when the window is created).
    SystemTitlebar { on: bool },
    /// The login autostart entry is registered, or removed where there is one.
    Autostart { enable: bool },
}

/// What storing `value` under the UI setting `key` sets off.
pub open spec fn setting_effect_spec(key: Seq<char>, value: Seq<char>) -> SettingEffect {
    let on = value == "true"@;
    if key == "discord_rpc"@ {
        SettingEffect::Presence { enabled: on }
    } else if key == "discord_rpc_config"@ {
        SettingEffect::PresenceLayout
    } else if key == "crossfade"@ || key == "crossfade_secs"@ {
        SettingEffect::Crossfade
    } else if key == "locale"@ {
        SettingEffect::Locale
    } else if key == "hide_videos"@ {
        SettingEffect::HideVideos { hide: on }
    } else if key == "lyrics_boidu"@ {
        SettingEffect::ClearLyricsCache
    } else if key == "system_titlebar"@ {
        SettingEffect::SystemTitlebar { on }
    } else if key == "autostart"@ {
        SettingEffect::Autostart { enable: on }
    } else {
        SettingEffect::Stored
    }
}

/// Whether the UI may store `value` under `key`, and what storing it sets off. A key the UI has
/// no business writing is refused with `unknown setting: <key>`.
pub fn setting_change(key: &str, value: &str) -> (r: Result<SettingEffect, String>)
    ensures
        r is Ok <==> is_ui_setting_key(key@),
        r matches Ok(e) ==> e == setting_effect_spec(key@, value@),
        r matches Err(m) ==> m@ == "unknown setting: "@ + key@,
{
    if !is_ui_setting(key) {
        let mut m = chars_of("unknown setting: ");
        push_str(&mut m, key);
        return Err(string_of(&m));
    }
    let on = str_eq(value, "true");
    let e = if str_eq(key, "discord_rpc") {
        SettingEffect::Presence { enabled: on }
    } else if str_eq(key, "discord_rpc_config") {
        SettingEffect::PresenceLayout
    } else if str_eq(key, "crossfade") || str_eq(key, "crossfade_secs") {
        SettingEffect::Crossfade
    } else if str_eq(key, "locale") {
        SettingEffect::Locale
    } else if str_eq(key, "hide_videos") {
        SettingEffect::HideVideos { hide: on }
    } else if str_eq(key, "lyrics_boidu") {
        SettingEffect::ClearLyricsCache
    } else if str_eq(key, "system_titlebar") {
        SettingEffect::SystemTitlebar { on }
    } else if str_eq(key, "autostart") {
        SettingEffect::Autostart { enable: on }
    } else {
        SettingEffect::Stored
    };
    Ok(e)
}

/// The stored settings the UI may see, in the order they were stored.
pub open spec fn ui_entries(all: Seq<(String, String)>) -> Seq<(String, String)>
    decreases all.len(),
{
    if all.len() == 0 {
        all
    } else {
        let p = ui_entries(all.drop_last());
        if is_ui_setting_key(all.last().0@) {
            p.push(all.last())
        } else {
            p
        }
    }
}

/// The stored settings the UI may see: only those it may write, keys and values as stored.
pub fn ui_settings_of(all: &[(String, String)]) -> (r: Vec<(String, String)>)
    ensures
        r@.len() == ui_entries(all@).len(),
        forall|i: int|
            0 <= i < r@.len() ==> (#[trigger] r@[i]).0@ == ui_entries(all@)[i].0@ && r@[i].1@
                == ui_entries(all@)[i].1@,
{
    let mut out: Vec<(String, String)> = Vec::new();
    let mut i: usize = 0;
    while i < all.len()
        invariant
            i <= all@.len(),
            out@.len() == ui_entries(all@.take(i as int)).len(),
            forall|j: int|
                0 <= j < out@.len() ==> (#[trigger] out@[j]).0@ == ui_entries(
                    all@.take(i as int),
                )[j].0@ && out@[j].1@ == ui_entries(all@.take(i as int))[j].1@,
        decreases all@.len() - i,
    {
        proof {
            assert(all@.take(i + 1).drop_last() == all@.take(i as int));
        }
        if is_ui_setting(all[i].0.as_str()) {
            let k = all[i].0.clone();
            let v = all[i].1.clone();
            out.push((k, v));
        }
        i += 1;
    }
    proof {
        assert(all@.take(all@.len() as int) == all@);
    }
    out
}


/// The largest picture taken as a playlist cover: 8 MB.
pub const MAX_COVER_BYTES: u64 = 8 * 1024 * 1024;

/// `s` with ASCII capitals lowered (`str::to_ascii_lowercase`).
pub open spec fn ascii_lowered(s: Seq<char>) -> Seq<char> {
    s.map_values(|c: char| ascii_lower(c))
}

/// `str::to_ascii_lowercase`.
pub fn to_ascii_lowercase(s: &str) -> (r: String)
    ensures
        r@ == ascii_lowered(s@),
{
    let v = chars_of(s);
    let mut out: Vec<char> = Vec::new();
    let mut i: usize = 0;
    while i < v.len()
        invariant
            v@ == s@,
            i <= v@.len(),
            out@ == ascii_lowered(v@.take(i as int)),
        decreases v@.len() - i,
    {
        out.push(lower_ascii(v[i]));
        proof {
            assert(ascii_lowered(v@.take(i + 1)) == ascii_lowered(v@.take(i as int)).push(
                ascii_lower(v@[i as int]),
            ));
        }
        i += 1;
    }
    proof {
        assert(v@.take(v@.len() as int) == v@);
    }
    string_of(&out)
}

/// The picture types YouTube's playlist-cover uploader takes: JPEG and PNG.
pub open spec fn is_cover_ext(e: Seq<char>) -> bool {
    e == "jpg"@ || e == "jpeg"@ || e == "png"@
}

/// The file's extension as a cover is judged by: lowered, empty when there is none.
pub open spec fn cover_ext_of(ext: Option<Seq<char>>) -> Seq<char> {
    match ext {
        Some(e) => ascii_lowered(e),
        None => Seq::empty(),
    }
}

/// Whether a picked file may become a playlist cover, given its extension and its size in bytes:
/// its lowered extension when it may; else why not, the type before the size.
pub fn check_cover_file(ext: Option<&str>, size: u64) -> (r: Result<String, String>)
    ensures
        r is Ok <==> is_cover_ext(cover_ext_of(opt_str(ext))) && size <= MAX_COVER_BYTES,
        r matches Ok(e) ==> e@ == cover_ext_of(opt_str(ext)),
        r matches Err(m) ==> m@ == if !is_cover_ext(cover_ext_of(opt_str(ext))) {
            "Pick a JPEG or PNG image: YouTube Music won't take anything else."@
        } else {
            "That image is over 8 MB. Pick a smaller one."@
        },
{
    let e = match ext {
        Some(x) => to_ascii_lowercase(x),
        None => String::new(),
    };
    let ok_type = str_eq(e.as_str(), "jpg") || str_eq(e.as_str(), "jpeg") || str_eq(
        e.as_str(),
        "png",
    );
    if !ok_type {
        return Err(
            string_of(&chars_of("Pick a JPEG or PNG image: YouTube Music won't take anything else.")),
        );
    }
    if size > MAX_COVER_BYTES {
        return Err(string_of(&chars_of("That image is over 8 MB. Pick a smaller one.")));
    }
    Ok(e)
}

/// A character a cover's file name may take from a playlist id: ASCII letters and digits, `-`
/// and `_`.
pub open spec fn is_stem_char(c: char) -> bool {
    ('a' <= c <= 'z') || ('A' <= c <= 'Z') || ('0' <= c <= '9') || c == '-' || c == '_'
}

/// The playlist id with every other character dropped, so that an id from the UI cannot lead the
/// file out of the covers directory.
pub open spec fn cover_stem(id: Seq<char>) -> Seq<char>
    decreases id.len(),
{
    if id.len() == 0 {
        id
    } else {
        let p = cover_stem(id.drop_last());
        if is_stem_char(id.last()) {
            p.push(id.last())
        } else {
            p
        }
    }
}

/// `<stem>-<now>.<ext>`: the file a picked cover is copied to. The time in the name keeps a
/// replaced cover from being served out of the webview's cache.
pub open spec fn cover_file_name_text(id: Seq<char>, now: int, ext: Seq<char>) -> Seq<char> {
    cover_stem(id) + seq!['-'] + int_text(now) + seq!['.'] + ext
}

/// The name of the file a picked cover is copied to.
pub fn cover_file_name(playlist_id: &str, now: i64, ext: &str) -> (r: String)
    ensures
        r@ == cover_file_name_text(playlist_id@, now as int, ext@),
{
    let v = chars_of(playlist_id);
    let mut out: Vec<char> = Vec::new();
    let mut i: usize = 0;
    while i < v.len()
        invariant
            v@ == playlist_id@,
            i <= v@.len(),
            out@ == cover_stem(v@.take(i as int)),
        decreases v@.len() - i,
    {
        proof {
            assert(v@.take(i + 1).drop_last() == v@.take(i as int));
        }
        let c = v[i];
        if ('a' <= c && c <= 'z') || ('A' <= c && c <= 'Z') || ('0' <= c && c <= '9') || c == '-'
            || c == '_' {
            out.push(c);
        }
        i += 1;
    }
    proof {
        assert(v@.take(v@.len() as int) == v@);
    }
    out.push('-');
    let neg = now < 0;
    let mag: u64 = if neg {
        (0i128 - now as i128) as u64
    } else {
        now as u64
    };
    push_signed(&mut out, neg, mag);
    out.push('.');
    push_str(&mut out, ext);
    proof {
        assert(out@ =~= cover_file_name_text(playlist_id@, now as int, ext@));
    }
    string_of(&out)
}


/// What a cover upload that failed is reported as. The cover stays on this device either way;
/// a refusal (the account may not set custom artwork) is said plainly, anything else as a failed
/// upload.
pub open spec fn cover_upload_failure_text(refused: bool, error: Seq<char>) -> Seq<char> {
    if refused {
        "Artwork saved on this device. "@ + error
    } else {
        "Artwork saved here, but the upload to YouTube Music failed: "@ + error
    }
}

/// The message for a cover upload that failed with `error`.
pub fn cover_upload_failure_message(refused: bool, error: &str) -> (r: String)
    ensures
        r@ == cover_upload_failure_text(refused, error@),
{
    let mut m = if refused {
        chars_of("Artwork saved on this device. ")
    } else {
        chars_of("Artwork saved here, but the upload to YouTube Music failed: ")
    };
    push_str(&mut m, error);
    string_of(&m)
}

/// Why a playlist cannot be edited, if it cannot: On Repeat has no YouTube playlist behind it,
/// and Liked Music (`VLLM`) follows the likes and is edited by rating songs.
pub open spec fn edit_refusal_text(id: Seq<char>, on_repeat_id: Seq<char>) -> Option<Seq<char>> {
    if id == on_repeat_id {
        Some("On Repeat builds itself from what you play."@)
    } else if id == "VLLM"@ {
        Some("Liked Music follows your likes; like the song instead."@)
    } else {
        None
    }
}

/// Why the playlist `playlist_id` cannot be edited, if it cannot.
pub fn edit_refusal(playlist_id: &str, on_repeat_id: &str) -> (r: Option<String>)
    ensures
        opt_seq(r) == edit_refusal_text(playlist_id@, on_repeat_id@),
{
    if str_eq(playlist_id, on_repeat_id) {
        Some(string_of(&chars_of("On Repeat builds itself from what you play.")))
    } else if str_eq(playlist_id, "VLLM") {
        Some(string_of(&chars_of("Liked Music follows your likes; like the song instead.")))
    } else {
        None
    }
}

/// How long the playlist membership index is trusted before a re-crawl: six hours.
pub const PLAYLIST_INDEX_TTL_SECS: i64 = 6 * 3600;

/// The index is fresh when its stamp reads as a time and `now` is less than the trusted window
/// past it.
pub open spec fn index_fresh(stamp: Option<Seq<char>>, now: int) -> bool {
    match stamp {
        Some(t) => match parse_i64(t) {
            Some(at) => now < at + PLAYLIST_INDEX_TTL_SECS,
            None => false,
        },
        None => false,
    }
}

/// Whether the membership index stamped `stamp` may be answered from without a re-crawl.
pub fn index_is_fresh(stamp: Option<&str>, now: i64) -> (b: bool)
    ensures
        b == index_fresh(opt_str(stamp), now as int),
{
    match stamp {
        Some(t) => match parse_i64_str(t) {
            Some(at) => (now as i128) < (at as i128) + (PLAYLIST_INDEX_TTL_SECS as i128),
            None => false,
        },
        None => false,
    }
}

/// Which playlists the membership index covers: those you own or collaborate on, and Liked
/// Music, which reads as not owned though it is yours.
pub open spec fn indexes_playlist_spec(id: Seq<char>, owned: bool, collaborative: bool) -> bool {
    id == "VLLM"@ || owned || collaborative
}

/// Whether the membership index covers the playlist `id`.
pub fn indexes_playlist(id: &str, owned: bool, collaborative: bool) -> (b: bool)
    ensures
        b == indexes_playlist_spec(id@, owned, collaborative),
{
    owned || collaborative || str_eq(id, "VLLM")
}

/// The On Repeat card: a playlist titled "On Repeat", `<n> songs` under it, no artwork of its
/// own (the UI draws an icon), nothing else.
pub open spec fn is_on_repeat_card(c: BrowseItem, id: Seq<char>, n: nat) -> bool {
    &&& c.kind@ == "playlist"@
    &&& c.id@ == id
    &&& c.title@ == "On Repeat"@
    &&& opt_seq(c.subtitle) == Some(decimal(n) + " songs"@)
    &&& c.thumbnail is None
    &&& c.duration is None
    &&& c.artist_runs@.len() == 0
    &&& c.play_count is None
    &&& !c.is_video
    &&& !c.is_upload
    &&& !c.explicit
}

/// The library as shown: On Repeat leads it once it holds any songs, and is left out while empty
/// rather than shown as a dead tile.
pub fn library_with_on_repeat(items: Vec<BrowseItem>, on_repeat_id: &str, songs: usize) -> (r: Vec<
    BrowseItem,
>)
    ensures
        songs == 0 ==> r@ == items@,
        songs > 0 ==> r@.len() == items@.len() + 1 && is_on_repeat_card(
            r@[0],
            on_repeat_id@,
            songs as nat,
        ) && r@.skip(1) == items@,
{
    if songs == 0 {
        return items;
    }
    let mut sub = Vec::new();
    push_decimal(&mut sub, songs as u64);
    push_str(&mut sub, " songs");
    let card = BrowseItem {
        kind: string_of(&chars_of("playlist")),
        id: string_of(&chars_of(on_repeat_id)),
        title: string_of(&chars_of("On Repeat")),
        subtitle: Some(string_of(&sub)),
        thumbnail: None,
        duration: None,
        artist_runs: Vec::new(),
        play_count: None,
        is_video: false,
        is_upload: false,
        explicit: false,
    };
    let mut r = items;
    r.insert(0, card);
    proof {
        assert(r@.skip(1) =~= items@);
    }
    r
}


/// What repeat does.
#[derive(Debug, Clone, Copy, PartialEq, Eq, Structural)]
pub enum RepeatMode {
    Off,
    All,
    One,
}

/// The repeat mode named `mode` (`off`, `all`, `one`).
pub open spec fn repeat_mode_of(mode: Seq<char>) -> Option<RepeatMode> {
    if mode == "off"@ {
        Some(RepeatMode::Off)
    } else if mode == "all"@ {
        Some(RepeatMode::All)
    } else if mode == "one"@ {
        Some(RepeatMode::One)
    } else {
        None
    }
}

/// The repeat mode the UI asked for, or `unknown repeat mode: <mode>`.
pub fn parse_repeat_mode(mode: &str) -> (r: Result<RepeatMode, String>)
    ensures
        r matches Ok(m) ==> repeat_mode_of(mode@) == Some(m),
        r is Err <==> repeat_mode_of(mode@) is None,
        r matches Err(e) ==> e@ == "unknown repeat mode: "@ + mode@,
{
    if str_eq(mode, "off") {
        Ok(RepeatMode::Off)
    } else if str_eq(mode, "all") {
        Ok(RepeatMode::All)
    } else if str_eq(mode, "one") {
        Ok(RepeatMode::One)
    } else {
        let mut m = chars_of("unknown repeat mode: ");
        push_str(&mut m, mode);
        Err(string_of(&m))
    }
}

/// The font files the UI may load: TrueType, OpenType and web fonts.
pub open spec fn is_font_ext(e: Seq<char>) -> bool {
    e == "ttf"@ || e == "otf"@ || e == "woff"@ || e == "woff2"@
}

/// Whether the file at `path`, with extension `ext`, may be offered to the UI as a font; refused
/// as `not a font file: <path>` otherwise, so that the command cannot hand out a URL for any file
/// on the machine.
pub fn check_font_file(ext: Option<&str>, path: &str) -> (r: Result<(), String>)
    ensures
        r is Ok <==> is_font_ext(cover_ext_of(opt_str(ext))),
        r matches Err(m) ==> m@ == "not a font file: "@ + path@,
{
    let e = match ext {
        Some(x) => to_ascii_lowercase(x),
        None => String::new(),
    };
    let s = e.as_str();
    if str_eq(s, "ttf") || str_eq(s, "otf") || str_eq(s, "woff") || str_eq(s, "woff2") {
        Ok(())
    } else {
        let mut m = chars_of("not a font file: ");
        push_str(&mut m, path);
        Err(string_of(&m))
    }
}

/// The largest file taken as a custom app icon: 16 MB.
pub const MAX_ICON_BYTES: u64 = 16 * 1024 * 1024;

/// The largest icon side taken: nothing draws an icon above 256 pixels, and every launch pays to
/// decode what was picked.
pub const MAX_ICON_SIDE: u32 = 1024;

/// The eight bytes every PNG file starts with.
pub open spec fn png_signature() -> Seq<u8> {
    seq![0x89u8, 0x50u8, 0x4eu8, 0x47u8, 0x0du8, 0x0au8, 0x1au8, 0x0au8]
}

/// The big-endian `u32` in bytes `i..i + 4`.
pub open spec fn be_u32(b: Seq<u8>, i: int) -> int {
    b[i] as int * 0x100_0000 + b[i + 1] as int * 0x1_0000 + b[i + 2] as int * 0x100 + b[i + 3] as int
}

/// Whether a file of `len` bytes may be read as a custom icon at all.
pub fn check_icon_size(len: u64) -> (r: Result<(), String>)
    ensures
        r is Ok <==> len <= MAX_ICON_BYTES,
        r matches Err(m) ==> m@ == "that file is too big; use a PNG under 16 MB"@,
{
    if len > MAX_ICON_BYTES {
        Err(string_of(&chars_of("that file is too big; use a PNG under 16 MB")))
    } else {
        Ok(())
    }
}

/// What the first 24 bytes of a picked icon say: its width and height when it is a PNG no larger
/// than 1024x1024 (the size sits in the IHDR chunk, at bytes 16 to 23); otherwise why it is
/// refused.
pub open spec fn icon_header_verdict(head: Seq<u8>) -> Result<(u32, u32), Seq<char>> {
    let w = be_u32(head, 16);
    let h = be_u32(head, 20);
    if head.subrange(0, 8) != png_signature() {
        Err("that file isn't a PNG"@)
    } else if w <= MAX_ICON_SIDE && h <= MAX_ICON_SIDE {
        Ok((w as u32, h as u32))
    } else {
        Err(
            "that image is "@ + decimal(w as nat) + "x"@ + decimal(h as nat)
                + "; use one no larger than 1024x1024"@,
        )
    }
}

/// Checks the first 24 bytes of a picked icon.
pub fn check_icon_header(head: &[u8]) -> (r: Result<(u32, u32), String>)
    requires
        head@.len() == 24,
    ensures
        match r {
            Ok(p) => icon_header_verdict(head@) == Ok::<(u32, u32), Seq<char>>(p),
            Err(m) => icon_header_verdict(head@) == Err::<(u32, u32), Seq<char>>(m@),
        },
{
    let sig: [u8; 8] = [0x89, 0x50, 0x4e, 0x47, 0x0d, 0x0a, 0x1a, 0x0a];
    let mut i: usize = 0;
    while i < 8
        invariant
            i <= 8,
            head@.len() == 24,
            sig@ == png_signature(),
            forall|j: int| 0 <= j < i ==> head@[j] == png_signature()[j],
        decreases 8 - i,
    {
        if head[i] != sig[i] {
            proof {
                assert(head@.subrange(0, 8)[i as int] != png_signature()[i as int]);
            }
            return Err(string_of(&chars_of("that file isn't a PNG")));
        }
        i += 1;
    }
    proof {
        assert(head@.subrange(0, 8) =~= png_signature());
    }
    let w = (head[16] as u32) * 0x100_0000 + (head[17] as u32) * 0x1_0000 + (head[18] as u32)
        * 0x100 + head[19] as u32;
    let h = (head[20] as u32) * 0x100_0000 + (head[21] as u32) * 0x1_0000 + (head[22] as u32)
        * 0x100 + head[23] as u32;
    if w > MAX_ICON_SIDE || h > MAX_ICON_SIDE {
        let mut m = chars_of("that image is ");
        push_decimal(&mut m, w as u64);
        push_str(&mut m, "x");
        push_decimal(&mut m, h as u64);
        push_str(&mut m, "; use one no larger than 1024x1024");
        proof {
            assert(m@ =~= "that image is "@ + decimal(w as nat) + "x"@ + decimal(h as nat)
                + "; use one no larger than 1024x1024"@);
        }
        return Err(string_of(&m));
    }
    Ok((w, h))
}


/// One thing done to the main window on the way into or out of theater fullscreen.
#[derive(Debug, Clone, Copy, PartialEq, Eq, Structural)]
pub enum WindowStep {
    /// Take the window out of its maximized placement (a maximized window is clamped to the work
    /// area, under the taskbar).
    Restore,
    /// Turn fullscreen on or off.
    Fullscreen(bool),
    /// Put the window on its monitor's whole rectangle, recomputing its frame.
    CoverMonitor,
    /// Maximize the window again.
    Maximize,
    /// Recompute the frame where the window stands.
    RefreshFrame,
}

/// Theater mode's fullscreen: going in restores a maximized window first, so it has to remember
/// whether it was maximized and put that back on the way out.
pub struct TheaterWindow {
    pub was_maximized: bool,
}

/// The steps into theater fullscreen for a window that is maximized or not.
pub open spec fn enter_steps(zoomed: bool) -> Seq<WindowStep> {
    if zoomed {
        seq![WindowStep::Restore, WindowStep::Fullscreen(true), WindowStep::CoverMonitor]
    } else {
        seq![WindowStep::Fullscreen(true), WindowStep::CoverMonitor]
    }
}

/// The steps out of theater fullscreen, given whether the window was maximized on the way in.
pub open spec fn leave_steps(was_maximized: bool) -> Seq<WindowStep> {
    if was_maximized {
        seq![WindowStep::Fullscreen(false), WindowStep::Maximize, WindowStep::RefreshFrame]
    } else {
        seq![WindowStep::Fullscreen(false), WindowStep::RefreshFrame]
    }
}

impl TheaterWindow {
    /// A window that has not been in theater mode.
    pub fn new() -> (t: TheaterWindow)
        ensures
            !t.was_maximized,
    {
        TheaterWindow { was_maximized: false }
    }

    /// Into theater fullscreen; `zoomed` is whether the window is maximized now.
    pub fn enter(&mut self, zoomed: bool) -> (steps: Vec<WindowStep>)
        ensures
            final(self).was_maximized == zoomed,
            steps@ == enter_steps(zoomed),
    {
        self.was_maximized = zoomed;
        let mut steps = Vec::new();
        if zoomed {
            steps.push(WindowStep::Restore);
        }
        steps.push(WindowStep::Fullscreen(true));
        steps.push(WindowStep::CoverMonitor);
        proof {
            assert(steps@ =~= enter_steps(zoomed));
        }
        steps
    }

    /// Out of theater fullscreen; the remembered maximized state is used up.
    pub fn leave(&mut self) -> (steps: Vec<WindowStep>)
        ensures
            !final(self).was_maximized,
            steps@ == leave_steps(old(self).was_maximized),
    {
        let was = self.was_maximized;
        self.was_maximized = false;
        let mut steps = Vec::new();
        steps.push(WindowStep::Fullscreen(false));
        if was {
            steps.push(WindowStep::Maximize);
        }
        steps.push(WindowStep::RefreshFrame);
        proof {
            assert(steps@ =~= leave_steps(was));
        }
        steps
    }
}

/// Theater mode gives a window back as it found it: leaving maximizes again exactly when the
/// window was maximized on the way in, and a restore on the way in is always undone on the way
/// out.
pub proof fn lemma_theater_round_trip(zoomed: bool)
    ensures
        leave_steps(zoomed).contains(WindowStep::Maximize) == zoomed,
        enter_steps(zoomed).contains(WindowStep::Restore) == zoomed,
{
    if zoomed {
        assert(leave_steps(zoomed)[1] == WindowStep::Maximize);
        assert(enter_steps(zoomed)[0] == WindowStep::Restore);
    } else {
        assert(!leave_steps(zoomed).contains(WindowStep::Maximize)) by {
            assert forall|i: int| 0 <= i < leave_steps(zoomed).len() implies leave_steps(zoomed)[i]
                != WindowStep::Maximize by {
                if i == 0 {
                } else {
                }
            }
        }
        assert(!enter_steps(zoomed).contains(WindowStep::Restore)) by {
            assert forall|i: int| 0 <= i < enter_steps(zoomed).len() implies enter_steps(zoomed)[i]
                != WindowStep::Restore by {
                if i == 0 {
                } else {
                }
            }
        }
    }
}


/// The subtitle of the On Repeat page: `<n> songs you've played most this month`.
pub fn on_repeat_subtitle(songs: usize) -> (r: String)
    ensures
        r@ == decimal(songs as nat) + " songs you've played most this month"@,
{
    let mut v = Vec::new();
    push_decimal(&mut v, songs as u64);
    push_str(&mut v, " songs you've played most this month");
    string_of(&v)
}

/// An artist to block, as the UI named it.
#[derive(Debug, Clone, PartialEq, Eq)]
pub struct BlockRequest {
    /// The channel id, when the caller had a non-empty one.
    pub id: Option<String>,
    /// The name, trimmed.
    pub name: String,
}

/// What blocking an artist stores: the trimmed name (refused when blank, since an artist is
/// matched by it), and the channel id only when one was given and is not empty.
pub fn block_request(id: Option<&str>, name: &str) -> (r: Result<BlockRequest, String>)
    ensures
        r is Ok <==> trim(name@).len() > 0,
        r matches Err(m) ==> m@ == "an artist needs a name to be blocked"@,
        r matches Ok(b) ==> b.name@ == trim(name@) && opt_seq(b.id) == match id {
            Some(i) => if i@.len() > 0 {
                Some(i@)
            } else {
                None
            },
            None => None,
        },
{
    let v = chars_of(name);
    let (a, b) = trim_bounds(&v, 0, v.len());
    proof {
        assert(v@.subrange(0, v@.len() as int) == v@);
    }
    if a >= b {
        return Err(string_of(&chars_of("an artist needs a name to be blocked")));
    }
    let id = match id {
        Some(i) => if i.unicode_len() > 0 {
            Some(string_of(&chars_of(i)))
        } else {
            None
        },
        None => None,
    };
    Ok(BlockRequest { id, name: string_of(&v[a..b]) })
}


/// Whether a link may be opened in the system browser: only `https://` and `http://` ones, so a
/// page cannot make the app launch anything else.
pub fn check_external_url(url: &str) -> (r: Result<(), String>)
    ensures
        r is Ok <==> has_prefix(url@, "https://"@) || has_prefix(url@, "http://"@),
        r matches Err(m) ==> m@ == "only http(s) links"@,
{
    let https = chars_of("https://");
    let http = chars_of("http://");
    if starts_with(url, &https) || starts_with(url, &http) {
        Ok(())
    } else {
        Err(string_of(&chars_of("only http(s) links")))
    }
}

/// The video height asked of YouTube: what the player view's box wants, kept within 144 to 1080.
pub fn video_max_height(wanted: i32) -> (h: i32)
    ensures
        h == if wanted < 144 {
            144
        } else if wanted > 1080 {
            1080
        } else {
            wanted as int
        },
{
    if wanted < 144 {
        144
    } else if wanted > 1080 {
        1080
    } else {
        wanted
    }
}

/// How loud a line from the UI is logged.
#[derive(Debug, Clone, Copy, PartialEq, Eq, Structural)]
pub enum UiLogLevel {
    Info,
    Warn,
    Error,
}

/// The most characters of one UI message that reach the log: an error that re-fires every frame
/// must not fill the file.
pub const UI_LOG_MAX_CHARS: usize = 2000;

/// A line from the UI as it is logged: `info` and `warn` as themselves, anything else as an
/// error, the message cut to its first 2000 characters.
pub fn ui_log_line(level: &str, message: &str) -> (r: (UiLogLevel, String))
    ensures
        r.0 == if level@ == "info"@ {
            UiLogLevel::Info
        } else if level@ == "warn"@ {
            UiLogLevel::Warn
        } else {
            UiLogLevel::Error
        },
        r.1@ == if message@.len() <= UI_LOG_MAX_CHARS {
            message@
        } else {
            message@.take(UI_LOG_MAX_CHARS as int)
        },
{
    let lvl = if str_eq(level, "info") {
        UiLogLevel::Info
    } else if str_eq(level, "warn") {
        UiLogLevel::Warn
    } else {
        UiLogLevel::Error
    };
    let v = chars_of(message);
    let text = if v.len() <= UI_LOG_MAX_CHARS {
        string_of(&v)
    } else {
        proof {
            assert(v@.subrange(0, UI_LOG_MAX_CHARS as int) == v@.take(UI_LOG_MAX_CHARS as int));
        }
        string_of(&v[0..UI_LOG_MAX_CHARS])
    };
    (lvl, text)
}


/// Account writes need a signed-in session: refused with `Sign in first to use this.` otherwise.
pub fn require_login(logged_in: bool) -> (r: Result<(), String>)
    ensures
        r is Ok <==> logged_in,
        r matches Err(m) ==> m@ == "Sign in first to use this."@,
{
    if !logged_in {
        return Err(string_of(&chars_of("Sign in first to use this.")));
    }
    Ok(())
}


/// Continuation pages read per playlist for the membership index: a hard stop, so that one
/// pathological list cannot turn a sync into hundreds of requests.
pub const PLAYLIST_INDEX_MAX_PAGES: usize = 50;

/// One playlist's track ids being read, page by page, for the membership index.
pub struct TrackCrawl {
    ids: Vec<String>,
    token: Option<String>,
    pages: usize,
}

impl TrackCrawl {
    /// The ids read so far, in order.
    pub closed spec fn ids_read(self) -> Seq<Seq<char>> {
        self.ids@.map_values(|s: String| s@)
    }

    /// The continuation to follow next, if any.
    pub closed spec fn pending(self) -> Option<Seq<char>> {
        opt_seq(self.token)
    }

    /// How many continuation pages were asked for.
    pub closed spec fn pages_read(self) -> nat {
        self.pages as nat
    }

    /// A crawl from the playlist's first page: its track ids and its continuation.
    pub fn start(first: Vec<String>, token: Option<String>) -> (c: TrackCrawl)
        ensures
            c.ids_read() == first@.map_values(|s: String| s@),
            c.pending() == opt_seq(token),
            c.pages_read() == 0,
    {
        TrackCrawl { ids: first, token, pages: 0 }
    }

    /// The continuation page to ask for next; `None` once there is none or the cap is reached.
    pub fn next_fetch(&self) -> (r: Option<String>)
        ensures
            opt_seq(r) == if self.pages_read() < PLAYLIST_INDEX_MAX_PAGES {
                self.pending()
            } else {
                None
            },
    {
        if self.pages < PLAYLIST_INDEX_MAX_PAGES {
            crate::text::copy_opt(&self.token)
        } else {
            None
        }
    }

    /// A continuation page came back with these track ids and its own continuation.
    pub fn on_page(&mut self, ids: Vec<String>, next: Option<String>)
        requires
            old(self).pages_read() < PLAYLIST_INDEX_MAX_PAGES,
        ensures
            final(self).ids_read() == old(self).ids_read() + ids@.map_values(|s: String| s@),
            final(self).pending() == opt_seq(next),
            final(self).pages_read() == old(self).pages_read() + 1,
    {
        let ghost before = self.ids@;
        let mut more = ids;
        let ghost added = more@;
        self.ids.append(&mut more);
        proof {
            assert(self.ids@ == before + added);
            assert((before + added).map_values(|s: String| s@) =~= before.map_values(
                |s: String| s@,
            ) + added.map_values(|s: String| s@));
        }
        self.token = next;
        self.pages = self.pages + 1;
    }

    /// A continuation failed: the ids read so far stand, and the crawl ends.
    pub fn on_failure(&mut self)
        ensures
            final(self).ids_read() == old(self).ids_read(),
            final(self).pending() is None,
            final(self).pages_read() == old(self).pages_read(),
    {
        self.token = None;
    }

    /// The ids read.
    pub fn into_ids(self) -> (r: Vec<String>)
        ensures
            r@.map_values(|s: String| s@) == self.ids_read(),
    {
        self.ids
    }
}


/// What a membership sync does with one playlist of the library.
#[derive(Debug, Clone, Copy, PartialEq, Eq, Structural)]
pub enum IndexOutcome {
    /// Not indexed: On Repeat (no YouTube playlist behind it), or a list that is someone else's.
    Skip,
    /// Its page failed to load: the tracks already indexed for it stay, and it stays indexed.
    KeepStored,
    /// Its tracks, freshly read, replace what was indexed for it.
    Replace,
}

/// The outcome for playlist `id`, given whether its page loaded and, if so, whether it is owned
/// or collaborative. Only `Skip` drops a playlist from the index.
pub open spec fn index_outcome_spec(
    id: Seq<char>,
    on_repeat_id: Seq<char>,
    page: Option<(bool, bool)>,
) -> IndexOutcome {
    if id == on_repeat_id {
        IndexOutcome::Skip
    } else {
        match page {
            None => IndexOutcome::KeepStored,
            Some((owned, collaborative)) => if indexes_playlist_spec(id, owned, collaborative) {
                IndexOutcome::Replace
            } else {
                IndexOutcome::Skip
            },
        }
    }
}

/// What the membership sync does with playlist `id`.
pub fn index_outcome(id: &str, on_repeat_id: &str, page: Option<(bool, bool)>) -> (r: IndexOutcome)
    ensures
        r == index_outcome_spec(id@, on_repeat_id@, page),
{
    if str_eq(id, on_repeat_id) {
        return IndexOutcome::Skip;
    }
    match page {
        None => IndexOutcome::KeepStored,
        Some((owned, collaborative)) => if indexes_playlist(id, owned, collaborative) {
            IndexOutcome::Replace
        } else {
            IndexOutcome::Skip
        },
    }
}


/// What removing a playlist's own cover comes to.
pub struct CoverRemoval {
    /// What the UI is answered: no local cover, and the thumbnail YouTube rebuilt when it took
    /// the removal.
    pub result: CoverResult,
    /// Shown when YouTube refused but a cover of ours had reached the account: it keeps its copy.
    pub warning: Option<String>,
    /// Whether the record that our cover reached the account goes: it does once YouTube took the
    /// removal.
    pub forget_synced: bool,
}

/// The removal of a cover, given what clearing it on YouTube came to (`Some` of the rebuilt
/// thumbnail when YouTube took it, `None` when it refused) and whether a cover of ours had
/// reached the account. The local cover goes either way: dropping it is what the user asked for.
pub fn cover_removal(cleared: Option<Option<String>>, was_synced: bool) -> (r: CoverRemoval)
    ensures
        r.result.cover is None,
        opt_seq(r.result.thumbnail) == match cleared {
            Some(t) => opt_seq(t),
            None => None,
        },
        r.forget_synced == cleared is Some,
        opt_seq(r.warning) == if cleared is None && was_synced {
            Some("Removed here, but YouTube Music kept its copy."@)
        } else {
            None
        },
{
    match cleared {
        Some(t) => CoverRemoval {
            result: CoverResult { cover: None, thumbnail: t },
            warning: None,
            forget_synced: true,
        },
        None => CoverRemoval {
            result: CoverResult { cover: None, thumbnail: None },
            warning: if was_synced {
                Some(string_of(&chars_of("Removed here, but YouTube Music kept its copy.")))
            } else {
                None
            },
            forget_synced: false,
        },
    }
}

} // verus!
