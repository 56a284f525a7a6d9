//! Response checks and list filters shared by the InnerTube endpoints.

use vstd::prelude::*;
use crate::json::{as_str, find_all, find_all_refs, find_first_str, find_last_thumbnail, first_str, get, get_member, last_thumbnail, str_of, values, Json};
use crate::models::{BrowseItem, SongItem};
use crate::text::{chars_of, has_prefix, opt_seq, string_of};

verus! {

/// "VL".
pub open spec fn vl() -> Seq<char> {
    seq!['V', 'L']
}

/// A playlist id from a browse id: browse ids arrive `VL`-prefixed and playlist ids don't.
pub open spec fn strip_vl_text(id: Seq<char>) -> Seq<char> {
    if has_prefix(id, vl()) {
        id.skip(2)
    } else {
        id
    }
}

/// The playlist id behind a browse id (the id itself when it has no `VL` prefix).
pub fn strip_vl(id: &str) -> (r: &str)
    ensures
        r@ == strip_vl_text(id@),
{
    let p = vec!['V', 'L'];
    proof {
        assert(p@ == vl());
    }
    if crate::text::starts_with(id, &p) {
        let n = id.unicode_len();
        let rest = id.substring_char(2, n);
        proof {
            assert(id@.subrange(2, n as int) == id@.skip(2));
        }
        rest
    } else {
        id
    }
}

/// Why an accepted playlist edit applied nothing.
#[derive(Debug, Clone, Copy, PartialEq, Eq, Structural)]
pub enum EditRejection {
    /// The track is already in the playlist (YouTube offers "Add anyway").
    AlreadyInPlaylist,
    /// Refused for a reason the response does not name.
    Refused,
}

/// A playlist edit answered 200 refused it when its status is `STATUS_FAILED`: a duplicate when
/// the response offers to repeat the action with a `dedupeOption`, else for no named reason.
pub open spec fn edit_rejection_spec(v: Json) -> Option<EditRejection> {
    if str_of(get(v, "status"@)) != Some("STATUS_FAILED"@) {
        None
    } else if first_str(v, "dedupeOption"@) is Some {
        Some(EditRejection::AlreadyInPlaylist)
    } else {
        Some(EditRejection::Refused)
    }
}

/// Whether an edit response says the edit was refused, and why.
pub fn edit_rejection(v: &Json) -> (r: Option<EditRejection>)
    ensures
        r == edit_rejection_spec(*v),
{
    let failed = match as_str(get_member(v, "status")) {
        Some(s) => crate::text::str_eq(s, "STATUS_FAILED"),
        None => false,
    };
    if !failed {
        return None;
    }
    match find_first_str(v, "dedupeOption") {
        Some(_) => Some(EditRejection::AlreadyInPlaylist),
        None => Some(EditRejection::Refused),
    }
}

/// The first thumbnail among the headers.
pub open spec fn first_header_thumbnail(vs: Seq<Json>) -> Option<Seq<char>>
    decreases vs.len(),
{
    if vs.len() == 0 {
        None
    } else {
        match first_header_thumbnail(vs.drop_last()) {
            Some(x) => Some(x),
            None => last_thumbnail(vs.last()),
        }
    }
}

proof fn lemma_first_header_thumbnail_prefix(vs: Seq<Json>, n: int)
    requires
        0 <= n <= vs.len(),
        first_header_thumbnail(vs.take(n)) is Some,
    ensures
        first_header_thumbnail(vs) == first_header_thumbnail(vs.take(n)),
    decreases vs.len(),
{
    if n < vs.len() {
        assert(vs.drop_last().take(n) == vs.take(n));
        lemma_first_header_thumbnail_prefix(vs.drop_last(), n);
    } else {
        assert(vs.take(n) == vs);
    }
}

/// The playlist's thumbnail as an edit left it, off the header the response echoes back.
pub fn edited_thumbnail(response: &Json) -> (r: Option<String>)
    ensures
        opt_seq(r) == first_header_thumbnail(find_all(*response, "newHeader"@)),
{
    let hs = find_all_refs(response, "newHeader");
    let ghost hv = values(hs@);
    let mut i: usize = 0;
    while i < hs.len()
        invariant
            i <= hs@.len(),
            hv == values(hs@),
            hv == find_all(*response, "newHeader"@),
            first_header_thumbnail(hv.take(i as int)) is None,
        decreases hs@.len() - i,
    {
        proof {
            assert(hv.take(i + 1).drop_last() == hv.take(i as int));
            assert(hv.take(i + 1).last() == *hs@[i as int]);
        }
        if let Some(t) = find_last_thumbnail(hs[i]) {
            proof {
                assert(first_header_thumbnail(hv.take(i + 1)) == Some(t@));
                lemma_first_header_thumbnail_prefix(hv, i + 1);
            }
            return Some(t);
        }
        i += 1;
    }
    proof {
        assert(hv.take(hv.len() as int) == hv);
    }
    None
}

/// The songs that are not music videos, in order.
pub open spec fn audio_songs(s: Seq<SongItem>) -> Seq<SongItem>
    decreases s.len(),
{
    if s.len() == 0 {
        s
    } else if s.last().is_video {
        audio_songs(s.drop_last())
    } else {
        audio_songs(s.drop_last()).push(s.last())
    }
}

/// The cards that are not music videos, in order.
pub open spec fn audio_cards(s: Seq<BrowseItem>) -> Seq<BrowseItem>
    decreases s.len(),
{
    if s.len() == 0 {
        s
    } else if s.last().is_video {
        audio_cards(s.drop_last())
    } else {
        audio_cards(s.drop_last()).push(s.last())
    }
}

/// With "hide music videos" on, drops the rows that link a music video; otherwise leaves the
/// list as it is.
pub fn drop_video_songs(items: &mut Vec<SongItem>, hide_videos: bool)
    ensures
        final(items)@ == if hide_videos {
            audio_songs(old(items)@)
        } else {
            old(items)@
        },
{
    if !hide_videos {
        return;
    }
    let mut rest: Vec<SongItem> = Vec::new();
    std::mem::swap(&mut rest, items);
    let ghost all = rest@;
    let mut kept: Vec<SongItem> = Vec::new();
    let mut rev: Vec<SongItem> = Vec::new();
    while rest.len() > 0
        invariant
            all == rest@ + rev@.reverse(),
        decreases rest@.len(),
    {
        let x = rest.pop().unwrap();
        let ghost r0 = rev@;
        rev.push(x);
        proof {
            assert(rev@.reverse() == seq![x] + r0.reverse());
        }
    }
    proof {
        assert(rev@.reverse() == all);
    }
    while rev.len() > 0
        invariant
            kept@ == audio_songs(all.take(all.len() - rev@.len())),
            rev@.len() <= all.len(),
            forall|k: int| 0 <= k < rev@.len() ==> #[trigger] rev@[k] == all[all.len() - 1 - k],
        decreases rev@.len(),
    {
        let ghost n = all.len() - rev@.len();
        let x = rev.pop().unwrap();
        proof {
            assert(x == all[n]);
            assert(all.take(n + 1).drop_last() == all.take(n));
            assert(all.take(n + 1).last() == x);
        }
        if !x.is_video {
            kept.push(x);
        }
    }
    proof {
        assert(all.take(all.len() as int) == all);
    }
    *items = kept;
}

/// With "hide music videos" on, drops the cards that link a music video.
pub fn drop_video_cards(items: &mut Vec<BrowseItem>, hide_videos: bool)
    ensures
        final(items)@ == if hide_videos {
            audio_cards(old(items)@)
        } else {
            old(items)@
        },
{
    if !hide_videos {
        return;
    }
    let mut rest: Vec<BrowseItem> = Vec::new();
    std::mem::swap(&mut rest, items);
    let ghost all = rest@;
    let mut kept: Vec<BrowseItem> = Vec::new();
    let mut rev: Vec<BrowseItem> = Vec::new();
    while rest.len() > 0
        invariant
            all == rest@ + rev@.reverse(),
        decreases rest@.len(),
    {
        let x = rest.pop().unwrap();
        let ghost r0 = rev@;
        rev.push(x);
        proof {
            assert(rev@.reverse() == seq![x] + r0.reverse());
        }
    }
    proof {
        assert(rev@.reverse() == all);
    }
    while rev.len() > 0
        invariant
            kept@ == audio_cards(all.take(all.len() - rev@.len())),
            rev@.len() <= all.len(),
            forall|k: int| 0 <= k < rev@.len() ==> #[trigger] rev@[k] == all[all.len() - 1 - k],
        decreases rev@.len(),
    {
        let ghost n = all.len() - rev@.len();
        let x = rev.pop().unwrap();
        proof {
            assert(x == all[n]);
            assert(all.take(n + 1).drop_last() == all.take(n));
            assert(all.take(n + 1).last() == x);
        }
        if !x.is_video {
            kept.push(x);
        }
    }
    proof {
        assert(all.take(all.len() as int) == all);
    }
    *items = kept;
}


/// No two cards share an id.
pub open spec fn ids_distinct(s: Seq<BrowseItem>) -> bool {
    forall|i: int, j: int| 0 <= i < j < s.len() ==> (#[trigger] s[i]).id@ != (#[trigger] s[j]).id@
}

/// Some card carries the id `id`.
pub open spec fn has_id(s: Seq<BrowseItem>, id: Seq<char>) -> bool {
    exists|i: int| 0 <= i < s.len() && (#[trigger] s[i]).id@ == id
}

/// The cards of `page` that are new next to `have`: the first card of each id that `have` does
/// not hold, in page order.
pub open spec fn new_cards(have: Seq<BrowseItem>, page: Seq<BrowseItem>) -> Seq<BrowseItem>
    decreases page.len(),
{
    if page.len() == 0 {
        page
    } else {
        let k = new_cards(have, page.drop_last());
        if has_id(have + k, page.last().id@) {
            k
        } else {
            k.push(page.last())
        }
    }
}

/// Whether some card of `items` carries the id `id`.
fn holds_id(items: &Vec<BrowseItem>, id: &str) -> (b: bool)
    ensures
        b == has_id(items@, id@),
{
    let mut i: usize = 0;
    while i < items.len()
        invariant
            i <= items@.len(),
            forall|j: int| 0 <= j < i ==> (#[trigger] items@[j]).id@ != id@,
        decreases items@.len() - i,
    {
        if crate::text::str_eq(items[i].id.as_str(), id) {
            return true;
        }
        i += 1;
    }
    false
}

/// Appends the cards of `page` that are new to `items` (the first of each id), and answers how
/// many it left out. A card the grid hands out twice would blank the whole list on the UI side,
/// which keys every library list by id.
pub fn keep_new_cards(items: &mut Vec<BrowseItem>, page: Vec<BrowseItem>) -> (dropped: usize)
    ensures
        final(items)@ == old(items)@ + new_cards(old(items)@, page@),
        dropped + new_cards(old(items)@, page@).len() == page@.len(),
        ids_distinct(old(items)@) ==> ids_distinct(final(items)@),
{
    let ghost start = items@;
    let ghost all = page@;
    proof {
        assert(all.len() == page.len());
    }
    let mut rest = page;
    let mut dropped: usize = 0;
    let mut k: usize = 0;
    while rest.len() > 0
        invariant
            k <= all.len(),
            all.len() <= usize::MAX,
            rest@ == all.skip(k as int),
            items@ == start + new_cards(start, all.take(k as int)),
            dropped + new_cards(start, all.take(k as int)).len() == k,
            ids_distinct(start) ==> ids_distinct(items@),
        decreases rest@.len(),
    {
        let c = rest.remove(0);
        proof {
            assert(all.take(k + 1).drop_last() == all.take(k as int));
            assert(all.take(k + 1).last() == c);
            assert(rest@ == all.skip(k + 1));
        }
        if holds_id(items, c.id.as_str()) {
            dropped += 1;
        } else {
            let ghost before = items@;
            items.push(c);
            proof {
                if ids_distinct(start) {
                    assert forall|i: int, j: int| 0 <= i < j < items@.len() implies (
                    #[trigger] items@[i]).id@ != (#[trigger] items@[j]).id@ by {
                        if j == items@.len() - 1 {
                            assert(before[i] == items@[i]);
                        } else {
                            assert(before[i] == items@[i] && before[j] == items@[j]);
                        }
                    }
                }
            }
        }
        k += 1;
    }
    proof {
        assert(all.take(k as int) == all);
    }
    dropped
}

/// Continuation pages a library grid reads at most, so that a token that never resolves cannot
/// keep the crawl going.
pub const GRID_PAGE_CAP: usize = 20;

/// A library grid being read page by page. Each id appears once among its cards: a card the grid
/// hands out twice keeps its first place.
pub struct GridCrawl {
    items: Vec<BrowseItem>,
    dropped: usize,
    token: Option<String>,
    pages: usize,
}

impl GridCrawl {
    #[verifier::type_invariant]
    spec fn well_formed(self) -> bool {
        ids_distinct(self.items@)
    }

    /// The cards gathered so far, in order.
    pub closed spec fn cards(self) -> Seq<BrowseItem> {
        self.items@
    }

    /// How many repeated cards were left out so far (saturating).
    pub closed spec fn repeats(self) -> nat {
        self.dropped as nat
    }

    /// The continuation token to follow next, if any.
    pub closed spec fn pending(self) -> Option<Seq<char>> {
        opt_seq(self.token)
    }

    /// How many continuation pages were asked for so far.
    pub closed spec fn pages_read(self) -> nat {
        self.pages as nat
    }

    /// A crawl from the grid's first page: its new cards and its continuation token.
    pub fn start(first: Vec<BrowseItem>, token: Option<String>) -> (c: GridCrawl)
        ensures
            c.cards() == new_cards(Seq::empty(), first@),
            c.repeats() + c.cards().len() == first@.len(),
            c.pending() == opt_seq(token),
            c.pages_read() == 0,
            ids_distinct(c.cards()),
    {
        let mut items: Vec<BrowseItem> = Vec::new();
        let dropped = keep_new_cards(&mut items, first);
        proof {
            assert(Seq::<BrowseItem>::empty() + new_cards(Seq::empty(), first@) == new_cards(
                Seq::empty(),
                first@,
            ));
        }
        GridCrawl { items, dropped, token, pages: 0 }
    }

    /// The continuation page to ask for next; `None` once the crawl is over (no token left, or
    /// the page cap reached).
    pub fn next_fetch(&self) -> (r: Option<String>)
        ensures
            opt_seq(r) == if self.pages_read() < GRID_PAGE_CAP {
                self.pending()
            } else {
                None
            },
    {
        if self.pages < GRID_PAGE_CAP {
            crate::text::copy_opt(&self.token)
        } else {
            None
        }
    }

    /// A continuation page came back with cards `page` and continuation `next`. An empty page
    /// ends the crawl (some grids carry a token that resolves to nothing); otherwise its new cards
    /// join the end, and `next` is followed unless it repeats the token just used.
    pub fn on_page(&mut self, page: Vec<BrowseItem>, next: Option<String>)
        requires
            old(self).pages_read() < GRID_PAGE_CAP,
        ensures
            final(self).pages_read() == old(self).pages_read() + 1,
            page@.len() == 0 ==> final(self).cards() == old(self).cards() && final(self).repeats()
                == old(self).repeats() && final(self).pending() is None,
            page@.len() > 0 ==> final(self).cards() == old(self).cards() + new_cards(
                old(self).cards(),
                page@,
            ),
            page@.len() > 0 ==> final(self).repeats() == vstd::math::min(
                old(self).repeats() + page@.len() - new_cards(old(self).cards(), page@).len(),
                usize::MAX as int,
            ),
            page@.len() > 0 ==> final(self).pending() == if opt_seq(next) == old(self).pending() {
                None
            } else {
                opt_seq(next)
            },
            ids_distinct(final(self).cards()),
    {
        proof {
            use_type_invariant(&*self);
        }
        self.pages = self.pages + 1;
        if page.len() == 0 {
            self.token = None;
            return;
        }
        let mut items: Vec<BrowseItem> = Vec::new();
        std::mem::swap(&mut items, &mut self.items);
        let d = keep_new_cards(&mut items, page);
        self.items = items;
        self.dropped = self.dropped.saturating_add(d);
        let same = match (&next, &self.token) {
            (Some(a), Some(b)) => crate::text::str_eq(a.as_str(), b.as_str()),
            (None, None) => true,
            _ => false,
        };
        self.token = if same {
            None
        } else {
            next
        };
    }

    /// A continuation failed: what loaded stays, and the crawl ends there.
    pub fn on_failure(&mut self)
        ensures
            final(self).cards() == old(self).cards(),
            final(self).repeats() == old(self).repeats(),
            final(self).pages_read() == old(self).pages_read(),
            final(self).pending() is None,
    {
        proof {
            use_type_invariant(&*self);
        }
        self.token = None;
    }

    /// How many repeated cards were left out.
    pub fn repeats_dropped(&self) -> (r: usize)
        ensures
            r == self.repeats(),
    {
        self.dropped
    }

    /// The cards gathered, each id once.
    pub fn into_items(self) -> (r: Vec<BrowseItem>)
        ensures
            r@ == self.cards(),
            ids_distinct(r@),
    {
        proof {
            use_type_invariant(&self);
        }
        self.items
    }
}


/// The rows of an up-next list that stay when videos are hidden: every row that is not a music
/// video, and the seed itself whatever it is, in order.
pub open spec fn rows_but_videos(s: Seq<SongItem>, seed: Option<Seq<char>>) -> Seq<SongItem>
    decreases s.len(),
{
    if s.len() == 0 {
        s
    } else if s.last().is_video && seed != Some(s.last().video_id@) {
        rows_but_videos(s.drop_last(), seed)
    } else {
        rows_but_videos(s.drop_last(), seed).push(s.last())
    }
}

/// With "hide music videos" on, drops the video rows of an up-next list but the seed's own: "start
/// radio from this video" still opens on that video, and the track already playing is never
/// pulled out from under the listener.
pub fn drop_video_rows_but_seed(items: &mut Vec<SongItem>, hide_videos: bool, seed: Option<&str>)
    ensures
        final(items)@ == if hide_videos {
            rows_but_videos(old(items)@, crate::text::opt_str(seed))
        } else {
            old(items)@
        },
{
    if !hide_videos {
        return;
    }
    let ghost sd = crate::text::opt_str(seed);
    let mut rest: Vec<SongItem> = Vec::new();
    std::mem::swap(&mut rest, items);
    let ghost all = rest@;
    let mut kept: Vec<SongItem> = Vec::new();
    let mut k: usize = 0;
    proof {
        assert(all.len() == rest.len());
    }
    while rest.len() > 0
        invariant
            k <= all.len(),
            all.len() <= usize::MAX,
            rest@ == all.skip(k as int),
            kept@ == rows_but_videos(all.take(k as int), sd),
            sd == crate::text::opt_str(seed),
        decreases rest@.len(),
    {
        let x = rest.remove(0);
        proof {
            assert(all.take(k + 1).drop_last() == all.take(k as int));
            assert(all.take(k + 1).last() == x);
            assert(rest@ == all.skip(k + 1));
        }
        let is_seed = match seed {
            Some(v) => crate::text::str_eq(x.video_id.as_str(), v),
            None => false,
        };
        if !x.is_video || is_seed {
            kept.push(x);
        }
        k += 1;
    }
    proof {
        assert(all.take(k as int) == all);
    }
    *items = kept;
}

/// What to make of a browse answer.
#[derive(Debug, Clone, Copy, PartialEq, Eq, Structural)]
pub enum BrowseVerdict {
    /// Hand the answer on.
    Accept,
    /// Have the session healed, then ask again.
    HealAndRetry,
    /// The session is gone: report it expired.
    Reject,
}

/// A stale cookie still authenticates but gets the signed-out page: a signed-in session that
/// gets one is healed and asked again once (unless healing is suspended), and rejected after
/// that. Any other answer is handed on.
pub open spec fn browse_verdict_spec(
    logged_in: bool,
    signed_out: bool,
    healed: bool,
    healing_suspended: bool,
) -> BrowseVerdict {
    if !(logged_in && signed_out) {
        BrowseVerdict::Accept
    } else if !healed && !healing_suspended {
        BrowseVerdict::HealAndRetry
    } else {
        BrowseVerdict::Reject
    }
}

/// What to make of a browse answer, given whether the session is signed in, whether the answer
/// is the signed-out page, and whether this browse has already been healed once.
pub fn browse_verdict(logged_in: bool, signed_out: bool, healed: bool, healing_suspended: bool) -> (r:
    BrowseVerdict)
    ensures
        r == browse_verdict_spec(logged_in, signed_out, healed, healing_suspended),
{
    if logged_in && signed_out {
        if !healed && !healing_suspended {
            BrowseVerdict::HealAndRetry
        } else {
            BrowseVerdict::Reject
        }
    } else {
        BrowseVerdict::Accept
    }
}


/// A browse is healed at most once: once it has been, no answer asks for another heal.
pub proof fn lemma_browse_heals_once(logged_in: bool, signed_out: bool, healing_suspended: bool)
    ensures
        browse_verdict_spec(logged_in, signed_out, true, healing_suspended)
            != BrowseVerdict::HealAndRetry,
{
}


/// A track row of an album page, given the album's own browse id: the row keeps the album id it
/// carries, and gets the page's when it carries none.
pub open spec fn with_album_id(r: SongItem, s: SongItem, browse_id: Seq<char>) -> bool {
    &&& r == SongItem { album_id: r.album_id, ..s }
    &&& opt_seq(r.album_id) == match s.album_id {
        Some(a) => Some(a@),
        None => Some(browse_id),
    }
}

/// Gives every track of an album page an album id: album rows never carry the album's own
/// browse id, so without it nothing played off a release page could lead back to it.
pub fn fill_album_ids(items: &mut Vec<SongItem>, browse_id: &str)
    ensures
        final(items)@.len() == old(items)@.len(),
        forall|i: int|
            0 <= i < old(items)@.len() ==> with_album_id(
                #[trigger] final(items)@[i],
                old(items)@[i],
                browse_id@,
            ),
{
    let mut rest: Vec<SongItem> = Vec::new();
    std::mem::swap(&mut rest, items);
    let ghost all = rest@;
    let mut out: Vec<SongItem> = Vec::new();
    let mut k: usize = 0;
    proof {
        assert(all.len() == rest.len());
    }
    while rest.len() > 0
        invariant
            k <= all.len(),
            all.len() <= usize::MAX,
            rest@ == all.skip(k as int),
            out@.len() == k,
            forall|i: int| 0 <= i < k ==> with_album_id(#[trigger] out@[i], all[i], browse_id@),
        decreases rest@.len(),
    {
        let mut x = rest.remove(0);
        let ghost x0 = x;
        proof {
            assert(x0 == all[k as int]);
            assert(rest@ == all.skip(k + 1));
        }
        if x.album_id.is_none() {
            x.album_id = Some(string_of(&chars_of(browse_id)));
        }
        proof {
            assert(x == SongItem { album_id: x.album_id, ..x0 });
        }
        out.push(x);
        k += 1;
    }
    *items = out;
}

/// A track row after the album's audio playlist stood in for it: a row that linked a music
/// video plays the audio track in the same place (its id, its duration when it has one), and is
/// no longer a video; any other row stays as it was.
pub open spec fn audio_swapped(r: SongItem, s: SongItem, is_video: bool, audio: SongItem) -> bool {
    if is_video {
        &&& r == SongItem { video_id: r.video_id, duration: r.duration, is_video: false, ..s }
        &&& r.video_id@ == audio.video_id@
        &&& opt_seq(r.duration) == match audio.duration {
            Some(d) => Some(d@),
            None => opt_seq(s.duration),
        }
    } else {
        r == s
    }
}

/// Puts the audio tracks of an album's own playlist in place of the music videos its page
/// linked, position by position, where the playlist holds as many tracks as the page (the same
/// album in the same order); `video` flags which rows linked a video. With a count that differs,
/// the page keeps its video ids.
pub fn swap_in_audio(items: &mut Vec<SongItem>, video: &[bool], audio: &Vec<SongItem>)
    ensures
        final(items)@.len() == old(items)@.len(),
        audio@.len() != old(items)@.len() ==> final(items)@ == old(items)@,
        audio@.len() == old(items)@.len() ==> forall|i: int|
            0 <= i < old(items)@.len() ==> audio_swapped(
                #[trigger] final(items)@[i],
                old(items)@[i],
                i < video@.len() && video@[i],
                audio@[i],
            ),
{
    if audio.len() != items.len() {
        return;
    }
    let mut rest: Vec<SongItem> = Vec::new();
    std::mem::swap(&mut rest, items);
    let ghost all = rest@;
    let mut out: Vec<SongItem> = Vec::new();
    let mut k: usize = 0;
    proof {
        assert(all.len() == rest.len());
    }
    while rest.len() > 0
        invariant
            k <= all.len(),
            all.len() == audio@.len(),
            all.len() <= usize::MAX,
            rest@ == all.skip(k as int),
            out@.len() == k,
            forall|i: int|
                0 <= i < k ==> audio_swapped(
                    #[trigger] out@[i],
                    all[i],
                    i < video@.len() && video@[i],
                    audio@[i],
                ),
        decreases rest@.len(),
    {
        let mut x = rest.remove(0);
        let ghost x0 = x;
        proof {
            assert(x0 == all[k as int]);
            assert(rest@ == all.skip(k + 1));
        }
        if k < video.len() && video[k] {
            let a = &audio[k];
            x.video_id = string_of(&chars_of(a.video_id.as_str()));
            match &a.duration {
                Some(d) => {
                    x.duration = Some(string_of(&chars_of(d.as_str())));
                },
                None => {},
            }
            x.is_video = false;
            proof {
                assert(x == SongItem { video_id: x.video_id, duration: x.duration, is_video: false, ..x0 });
            }
        }
        out.push(x);
        k += 1;
    }
    *items = out;
}


/// The search filter for songs.
pub const FILTER_SONG: &'static str = "EgWKAQIIAWoKEAkQBRAKEAMQBA%3D%3D";
/// The search filter for video uploads.
pub const FILTER_VIDEO: &'static str = "EgWKAQIQAWoKEAkQChAFEAMQBA%3D%3D";
/// The search filter for albums.
pub const FILTER_ALBUM: &'static str = "EgWKAQIYAWoKEAkQChAFEAMQBA%3D%3D";
/// The search filter for artists.
pub const FILTER_ARTIST: &'static str = "EgWKAQIgAWoKEAkQChAFEAMQBA%3D%3D";
/// The search filter for community playlists.
pub const FILTER_COMMUNITY_PLAYLIST: &'static str = "EgeKAQQoAEABagoQAxAEEAoQCRAF";

/// The filter behind a "Show more" search page: `albums`, `artists` or `playlists`.
pub open spec fn card_filter_of(category: Seq<char>) -> Option<Seq<char>> {
    if category == "albums"@ {
        Some(FILTER_ALBUM@)
    } else if category == "artists"@ {
        Some(FILTER_ARTIST@)
    } else if category == "playlists"@ {
        Some(FILTER_COMMUNITY_PLAYLIST@)
    } else {
        None
    }
}

/// The search filter for a "Show more" page of `category`, or `unknown search category: <it>`.
pub fn card_filter(category: &str) -> (r: Result<&'static str, String>)
    ensures
        r matches Ok(f) ==> card_filter_of(category@) == Some(f@),
        r is Err <==> card_filter_of(category@) is None,
        r matches Err(m) ==> m@ == "unknown search category: "@ + category@,
{
    if crate::text::str_eq(category, "albums") {
        Ok(FILTER_ALBUM)
    } else if crate::text::str_eq(category, "artists") {
        Ok(FILTER_ARTIST)
    } else if crate::text::str_eq(category, "playlists") {
        Ok(FILTER_COMMUNITY_PLAYLIST)
    } else {
        let mut m = chars_of("unknown search category: ");
        crate::text::push_str(&mut m, category);
        Err(string_of(&m))
    }
}

} // verus!
