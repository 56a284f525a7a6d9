//! The shapes the UI renders: songs, cards, pages and account summaries.

use vstd::prelude::*;

verus! {

/// How the signed-in user rated a track. The three values are mutually exclusive on YouTube's
/// side, so rating a liked track "dislike" un-likes it.
#[derive(Debug, Clone, Copy, PartialEq, Eq, Structural)]
pub enum Rating {
    Like,
    Dislike,
    /// No rating: what removing a like leaves behind, and what an unrated row reports.
    Indifferent,
}

/// A track's library membership as its menu states it, with the tokens for both directions.
#[derive(Debug, Clone, PartialEq)]
pub struct LibraryToggle {
    /// Whether the song is in the library right now, per the menu sent with the row.
    pub in_library: bool,
    pub add_token: Option<String>,
    pub remove_token: Option<String>,
}

/// One run of an artist line: the literal text plus its channel browseId when it links one
/// (separators like " & " carry no id).
#[derive(Debug, Clone, PartialEq)]
pub struct ArtistRun {
    pub text: String,
    pub id: Option<String>,
}

/// A song item: the minimum the playback path needs, plus the queue metadata the UI carries.
#[derive(Debug, Clone, PartialEq)]
pub struct SongItem {
    pub video_id: String,
    pub title: String,
    pub artists: String,
    pub artist_id: Option<String>,
    pub artist_runs: Vec<ArtistRun>,
    pub album: Option<String>,
    pub album_id: Option<String>,
    pub duration: Option<String>,
    pub play_count: Option<String>,
    pub thumbnail: Option<String>,
    pub set_video_id: Option<String>,
    pub added_by: Option<String>,
    pub added_by_avatar: Option<String>,
    pub rating: Option<Rating>,
    pub queued_by: Option<String>,
    pub queued: bool,
    pub queued_end: bool,
    pub queued_from: Option<String>,
    pub autoplay: bool,
    pub is_video: bool,
    pub is_upload: bool,
    pub explicit: bool,
    pub library: Option<LibraryToggle>,
}

/// Every field of a song item that the UI treats as "absent": empty text, no links, no flags.
pub open spec fn is_blank_song(s: SongItem) -> bool {
    &&& s.video_id@.len() == 0
    &&& s.title@.len() == 0
    &&& s.artists@.len() == 0
    &&& s.artist_id is None
    &&& s.artist_runs@.len() == 0
    &&& s.album is None
    &&& s.album_id is None
    &&& s.duration is None
    &&& s.play_count is None
    &&& s.thumbnail is None
    &&& s.set_video_id is None
    &&& s.added_by is None
    &&& s.added_by_avatar is None
    &&& s.rating is None
    &&& s.queued_by is None
    &&& !s.queued
    &&& !s.queued_end
    &&& s.queued_from is None
    &&& !s.autoplay
    &&& !s.is_video
    &&& !s.is_upload
    &&& !s.explicit
    &&& s.library is None
}

impl Default for SongItem {
    fn default() -> (s: SongItem)
        ensures
            is_blank_song(s),
    {
        SongItem {
            video_id: String::new(),
            title: String::new(),
            artists: String::new(),
            artist_id: None,
            artist_runs: Vec::new(),
            album: None,
            album_id: None,
            duration: None,
            play_count: None,
            thumbnail: None,
            set_video_id: None,
            added_by: None,
            added_by_avatar: None,
            rating: None,
            queued_by: None,
            queued: false,
            queued_end: false,
            queued_from: None,
            autoplay: false,
            is_video: false,
            is_upload: false,
            explicit: false,
            library: None,
        }
    }
}

/// The result of a search: its song rows, in order.
#[derive(Debug, Clone)]
pub struct SearchResult {
    pub items: Vec<SongItem>,
}

/// The up-next queue a `next` request answers with.
#[derive(Debug, Clone)]
pub struct NextResult {
    pub items: Vec<SongItem>,
    pub continuation: Option<String>,
    /// The lyrics tab's browseId, to feed to a lyrics browse.
    pub lyrics_browse_id: Option<String>,
    /// The mix the panel says it continues into.
    pub automix_playlist_id: Option<String>,
    /// The signed-in user's rating of the requested video.
    pub rating: Option<Rating>,
}

/// Logged-in account summary.
#[derive(Debug, Clone)]
pub struct AccountInfo {
    pub name: Option<String>,
    pub handle: Option<String>,
    pub email: Option<String>,
    pub thumbnail: Option<String>,
    pub channel_id: Option<String>,
    pub data_sync_id: Option<String>,
    pub visitor_data: Option<String>,
}

impl Default for AccountInfo {
    fn default() -> (a: AccountInfo)
        ensures
            a.name is None,
            a.handle is None,
            a.email is None,
            a.thumbnail is None,
            a.channel_id is None,
            a.data_sync_id is None,
            a.visitor_data is None,
    {
        AccountInfo {
            name: None,
            handle: None,
            email: None,
            thumbnail: None,
            channel_id: None,
            data_sync_id: None,
            visitor_data: None,
        }
    }
}

/// One usable YouTube identity: a channel the account can act as, with the server-issued token
/// that selects it.
#[derive(Debug, Clone, PartialEq, Eq)]
pub struct AccountIdentity {
    pub name: String,
    pub handle: Option<String>,
    pub email: Option<String>,
    pub thumbnail: Option<String>,
    pub channel_id: Option<String>,
    pub data_sync_id: String,
    /// YouTube's current/default marker.
    pub is_selected: bool,
}

/// A card in a grid or shelf: an album, an artist, a playlist.
#[derive(Debug, Clone, PartialEq)]
pub struct BrowseItem {
    /// "album", "artist", "playlist", ...: what the UI draws it as.
    pub kind: String,
    pub id: String,
    pub title: String,
    pub subtitle: Option<String>,
    pub thumbnail: Option<String>,
    pub duration: Option<String>,
    pub artist_runs: Vec<ArtistRun>,
    pub play_count: Option<String>,
    pub is_video: bool,
    pub is_upload: bool,
    pub explicit: bool,
}

/// An album (or album-shaped) page: a header and a track list.
#[derive(Debug, Clone, PartialEq)]
pub struct AlbumPage {
    pub title: Option<String>,
    pub artist: Option<String>,
    pub artist_id: Option<String>,
    pub artist_runs: Vec<ArtistRun>,
    pub artist_thumbnail: Option<String>,
    pub subtitle: Option<String>,
    pub second_subtitle: Option<String>,
    pub description: Option<String>,
    pub thumbnail: Option<String>,
    pub items: Vec<SongItem>,
    pub continuation: Option<String>,
    pub explicit: bool,
    pub playlist_id: Option<String>,
    pub in_library: bool,
}

} // verus!
