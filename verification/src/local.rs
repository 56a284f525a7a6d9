//! Local music: files on disk surfaced as songs, albums and artists.
//!
//! A file is a `SongItem` whose `video_id` is `LOCAL:<absolute path>`, an album is a `BrowseItem`
//! with id `LOCALALBUM:<key>`, an artist one with id `LOCALARTIST:<name>`. Everything here works
//! on values already read from disk: the walk over the folders, the tag reading and the artwork
//! extraction hand their results in.

use vstd::prelude::*;
use vstd::utf8::{decode_utf8, encode_utf8, is_char_boundary};
use crate::models::{AlbumPage, BrowseItem, SongItem};
use crate::shelf::{sorted_by_title, stable_arrangement};
use crate::text::{
    copy_opt,
    alphanumeric, hex_fixed, is_alphanumeric, lowercase, push_hex_fixed, push_str, to_lowercase,
    chars_of, decimal, find_sub, find_sub_in, has_prefix, int_text, opt_seq, pad2, push_all,
    push_decimal, push_pad2, push_signed, starts_with, string_of, tdiv, tmod, trim, trim_bounds,
};

verus! {

/// A local file's synthetic videoId: this prefix + the absolute path.
pub const SONG_PREFIX: &'static str = "LOCAL:";
/// A local album's synthetic browseId: this prefix + the album key.
pub const ALBUM_PREFIX: &'static str = "LOCALALBUM:";
/// A local artist's synthetic browseId: this prefix + the artist name exactly as tagged.
pub const ARTIST_PREFIX: &'static str = "LOCALARTIST:";
/// What an untagged file's artist reads as.
pub const UNKNOWN_ARTIST: &'static str = "Unknown artist";

/// The characters of `SONG_PREFIX`.
pub open spec fn song_prefix() -> Seq<char> {
    seq!['L', 'O', 'C', 'A', 'L', ':']
}

/// The characters of `ALBUM_PREFIX`.
pub open spec fn album_prefix() -> Seq<char> {
    seq!['L', 'O', 'C', 'A', 'L', 'A', 'L', 'B', 'U', 'M', ':']
}

/// The characters of `ARTIST_PREFIX`.
pub open spec fn artist_prefix() -> Seq<char> {
    seq!['L', 'O', 'C', 'A', 'L', 'A', 'R', 'T', 'I', 'S', 'T', ':']
}

/// The characters of `UNKNOWN_ARTIST`.
pub open spec fn unknown_artist() -> Seq<char> {
    seq!['U', 'n', 'k', 'n', 'o', 'w', 'n', ' ', 'a', 'r', 't', 'i', 's', 't']
}

fn song_prefix_chars() -> (v: Vec<char>)
    ensures
        v@ == song_prefix(),
{
    let v = vec!['L', 'O', 'C', 'A', 'L', ':'];
    proof {
        assert(v@ == song_prefix());
    }
    v
}

fn album_prefix_chars() -> (v: Vec<char>)
    ensures
        v@ == album_prefix(),
{
    let v = vec!['L', 'O', 'C', 'A', 'L', 'A', 'L', 'B', 'U', 'M', ':'];
    proof {
        assert(v@ == album_prefix());
    }
    v
}

fn artist_prefix_chars() -> (v: Vec<char>)
    ensures
        v@ == artist_prefix(),
{
    let v = vec!['L', 'O', 'C', 'A', 'L', 'A', 'R', 'T', 'I', 'S', 'T', ':'];
    proof {
        assert(v@ == artist_prefix());
    }
    v
}

fn unknown_artist_chars() -> (v: Vec<char>)
    ensures
        v@ == unknown_artist(),
{
    let v = vec!['U', 'n', 'k', 'n', 'o', 'w', 'n', ' ', 'a', 'r', 't', 'i', 's', 't'];
    proof {
        assert(v@ == unknown_artist());
    }
    v
}

/// Whether a videoId names a local file.
pub fn is_local_song(video_id: &str) -> (b: bool)
    ensures
        b == has_prefix(video_id@, song_prefix()),
{
    let p = song_prefix_chars();
    starts_with(video_id, &p)
}

/// The file behind a local videoId, or `None` when this isn't one.
pub fn song_path(video_id: &str) -> (r: Option<&str>)
    ensures
        match r {
            Some(p) => has_prefix(video_id@, song_prefix()) && p@ == video_id@.skip(
                song_prefix().len() as int,
            ),
            None => !has_prefix(video_id@, song_prefix()),
        },
{
    if is_local_song(video_id) {
        let n = video_id.unicode_len();
        let rest = video_id.substring_char(6, n);
        proof {
            assert(video_id@.subrange(6, n as int) == video_id@.skip(6));
        }
        Some(rest)
    } else {
        None
    }
}

/// The separator between artist and title in an untagged filename.
pub open spec fn name_separator() -> Seq<char> {
    seq![' ', '-', ' ']
}

/// What an untagged filename claims: the artist and title either side of the first `" - "`, each
/// trimmed, when neither side is blank; otherwise no artist and the whole name as the title.
pub open spec fn filename_parts(stem: Seq<char>) -> (Option<Seq<char>>, Seq<char>) {
    match find_sub(stem, name_separator()) {
        Some(i) => {
            let artist = trim(stem.take(i));
            let title = trim(stem.skip(i + 3));
            if artist.len() > 0 && title.len() > 0 {
                (Some(artist), title)
            } else {
                (None, stem)
            }
        },
        None => (None, stem),
    }
}

/// "PARTYNEXTDOOR, Drake - CN TOWER" → (artist, title). Splits on the first " - " only, so
/// "Artist - Song - Live" keeps the suffix on the title. No separator means the whole name is the
/// title and nothing is claimed about the artist.
pub fn split_filename(stem: &str) -> (r: (Option<String>, String))
    ensures
        opt_seq(r.0) == filename_parts(stem@).0,
        r.1@ == filename_parts(stem@).1,
{
    let v = chars_of(stem);
    let n = v.len();
    let sep = vec![' ', '-', ' '];
    proof {
        assert(sep@ == name_separator());
    }
    match find_sub_in(&v, &sep) {
        Some(i) => {
            proof {
                crate::text::lemma_find_sub_from(v@, sep@, 0);
            }
            let (a0, a1) = trim_bounds(&v, 0, i);
            let (t0, t1) = trim_bounds(&v, i + 3, n);
            proof {
                assert(v@.subrange(0, i as int) == v@.take(i as int));
                assert(v@.subrange(i + 3, n as int) == v@.skip(i + 3));
            }
            if a1 > a0 && t1 > t0 {
                let artist = string_of(&v[a0..a1]);
                let title = string_of(&v[t0..t1]);
                (Some(artist), title)
            } else {
                (None, string_of(&v))
            }
        },
        None => (None, string_of(&v)),
    }
}

/// Seconds → "3:47" / "1:08:20", with Rust's truncating `/` and `%` on the signed count.
pub open spec fn duration_text(secs: int) -> Seq<char> {
    let h = tdiv(secs, 3600);
    let m = tdiv(tmod(secs, 3600), 60);
    let s = tmod(secs, 60);
    if h > 0 {
        int_text(h) + seq![':'] + pad2(m) + seq![':'] + pad2(s)
    } else {
        int_text(m) + seq![':'] + pad2(s)
    }
}

/// Seconds → "3:47" / "1:08:20".
pub fn fmt_duration(secs: i64) -> (r: String)
    ensures
        r@ == duration_text(secs as int),
{
    let neg = secs < 0;
    let mag: u64 = if neg {
        (0i128 - (secs as i128)) as u64
    } else {
        secs as u64
    };
    let h = mag / 3600;
    let m = (mag % 3600) / 60;
    let s = mag % 60;
    let ghost sg: int = secs as int;
    proof {
        assert(mag == if neg { -sg } else { sg });
        if neg {
            assert(tdiv(sg, 3600) == -(h as int));
            assert(tmod(sg, 3600) == -((mag % 3600) as int));
            assert(tdiv(tmod(sg, 3600), 60) == -(m as int));
            assert(tmod(sg, 60) == -(s as int));
        } else {
            assert(tdiv(sg, 3600) == h);
            assert(tmod(sg, 3600) == mag % 3600);
            assert(tdiv(tmod(sg, 3600), 60) == m);
            assert(tmod(sg, 60) == s);
        }
    }
    let mut out: Vec<char> = Vec::new();
    if !neg && h > 0 {
        push_signed(&mut out, false, h);
        out.push(':');
        push_pad2(&mut out, false, m);
        out.push(':');
        push_pad2(&mut out, false, s);
        proof {
            assert(out@ == int_text(h as int) + seq![':'] + pad2(m as int) + seq![':'] + pad2(
                s as int,
            ));
        }
    } else {
        push_signed(&mut out, neg, m);
        out.push(':');
        push_pad2(&mut out, neg, s);
        proof {
            let mi: int = if neg { -(m as int) } else { m as int };
            let si: int = if neg { -(s as int) } else { s as int };
            assert(out@ == int_text(mi) + seq![':'] + pad2(si));
        }
    }
    string_of(&out)
}

/// Key length cap, in characters: long enough to stay readable, short enough for every
/// filesystem.
pub const KEY_CHARS: usize = 80;

/// What a character of a key becomes: itself when it is a letter, a digit (any script) or `-`,
/// else `-`.
pub open spec fn key_char(c: char) -> char {
    if alphanumeric(c) || c == '-' {
        c
    } else {
        '-'
    }
}

/// The first `n` characters of `s` (all of them when it is shorter).
pub open spec fn clip(s: Seq<char>, n: int) -> Seq<char> {
    if s.len() <= n {
        s
    } else {
        s.take(n)
    }
}

/// `raw` lowercased, every character that is not a letter, a digit or `-` turned into `-`, cut to
/// `KEY_CHARS` characters.
pub open spec fn sanitized(raw: Seq<char>) -> Seq<char> {
    clip(lowercase(raw).map_values(|c: char| key_char(c)), KEY_CHARS as int)
}

/// Lowercase, keep letters and digits (any script), everything else becomes `-`, at most
/// `KEY_CHARS` characters. All the characters that survive are legal in a filename.
pub fn sanitize(raw: &str) -> (r: String)
    ensures
        r@ == sanitized(raw@),
{
    let lower = to_lowercase(raw);
    let v = chars_of(lower.as_str());
    let n = if v.len() < KEY_CHARS {
        v.len()
    } else {
        KEY_CHARS
    };
    let ghost mapped = v@.map_values(|c: char| key_char(c));
    let mut out: Vec<char> = Vec::new();
    let mut i: usize = 0;
    while i < n
        invariant
            n <= v@.len(),
            n <= KEY_CHARS,
            i <= n,
            mapped == v@.map_values(|c: char| key_char(c)),
            out@ == mapped.take(i as int),
        decreases n - i,
    {
        let c = v[i];
        let k = if is_alphanumeric(c) || c == '-' {
            c
        } else {
            '-'
        };
        out.push(k);
        proof {
            assert(mapped.take(i + 1) == mapped.take(i as int).push(mapped[i as int]));
        }
        i += 1;
    }
    proof {
        assert(v@ == lowercase(raw@));
        if mapped.len() <= KEY_CHARS {
            assert(mapped.take(n as int) == mapped);
        }
    }
    string_of(&out)
}

/// FNV-1a over a byte string.
pub open spec fn fnv1a(b: Seq<u8>) -> u64
    decreases b.len(),
{
    if b.len() == 0 {
        0xcbf2_9ce4_8422_2325u64
    } else {
        (fnv1a(b.drop_last()) ^ (b.last() as u64)).wrapping_mul(0x100_0000_01b3u64)
    }
}

/// The digest of a string: the low 48 bits of FNV-1a over its UTF-8 bytes, as 12 lowercase hex
/// digits.
pub open spec fn digest_text(s: Seq<char>) -> Seq<char> {
    hex_fixed((fnv1a(encode_utf8(s)) % 0x1_0000_0000_0000u64) as nat, 12)
}

/// Short, stable hash of a string (FNV-1a, hex). Deterministic across releases, unlike std's
/// default hasher.
pub fn short_digest(s: &str) -> (r: String)
    ensures
        r@ == digest_text(s@),
{
    let bytes = s.as_bytes();
    let n = bytes.len();
    let mut h: u64 = 0xcbf2_9ce4_8422_2325;
    let mut i: usize = 0;
    while i < n
        invariant
            n == bytes@.len(),
            i <= n,
            h == fnv1a(bytes@.take(i as int)),
        decreases n - i,
    {
        proof {
            assert(bytes@.take(i + 1).drop_last() == bytes@.take(i as int));
        }
        h = h ^ (bytes[i] as u64);
        h = h.wrapping_mul(0x100_0000_01b3);
        i += 1;
    }
    proof {
        assert(bytes@.take(n as int) == bytes@);
    }
    let low = h & 0xffff_ffff_ffff;
    assert(low == h % 0x1_0000_0000_0000u64) by (bit_vector)
        requires
            low == h & 0xffff_ffff_ffff,
    ;
    let mut out: Vec<char> = Vec::new();
    push_hex_fixed(&mut out, low, 12);
    string_of(&out)
}

/// `artist--album`, as characters.
pub open spec fn key_source(artist: Seq<char>, album: Seq<char>) -> Seq<char> {
    artist + seq!['-', '-'] + album
}

/// A stable, readable album id: `artist--album` sanitized, with a digest of the full name added
/// when the name is longer than the cut.
pub open spec fn album_key_text(artist: Seq<char>, album: Seq<char>) -> Seq<char> {
    let raw = key_source(artist, album);
    if raw.len() > KEY_CHARS {
        sanitized(raw) + seq!['-'] + digest_text(raw)
    } else {
        sanitized(raw)
    }
}

/// A stable, readable album id: `artist--album`, sanitized to a safe filename (it doubles as the
/// extracted cover's name). Deliberately not a hash: it is persisted in Shortcuts.
pub fn album_key(artist: &str, album: &str) -> (r: String)
    ensures
        r@ == album_key_text(artist@, album@),
{
    let mut raw_v: Vec<char> = Vec::new();
    push_str(&mut raw_v, artist);
    raw_v.push('-');
    raw_v.push('-');
    push_str(&mut raw_v, album);
    proof {
        assert(raw_v@ == key_source(artist@, album@));
    }
    let raw = string_of(&raw_v);
    let key = sanitize(raw.as_str());
    if raw_v.len() > KEY_CHARS {
        let digest = short_digest(raw.as_str());
        let mut out = chars_of(key.as_str());
        out.push('-');
        push_str(&mut out, digest.as_str());
        string_of(&out)
    } else {
        key
    }
}

/// The key for files with no album tag: the folder is the album, with a digest of the folder's
/// full path so that two folders of one name stay two albums.
pub open spec fn folder_key_text(dir: Option<Seq<char>>, name: Seq<char>) -> Seq<char> {
    let path = match dir {
        Some(d) => d,
        None => Seq::empty(),
    };
    seq!['d', 'i', 'r', '-'] + digest_text(path) + seq!['-'] + sanitized(name)
}

/// The key for files with no album tag. `dir` is the folder's path, as text.
pub fn folder_key(dir: Option<&str>, name: &str) -> (r: String)
    ensures
        r@ == folder_key_text(
            match dir {
                Some(d) => Some(d@),
                None => None,
            },
            name@,
        ),
{
    let digest = match dir {
        Some(d) => short_digest(d),
        None => short_digest(""),
    };
    proof {
        reveal_strlit("");
    }
    let clean = sanitize(name);
    let mut out = vec!['d', 'i', 'r', '-'];
    push_str(&mut out, digest.as_str());
    out.push('-');
    push_str(&mut out, clean.as_str());
    string_of(&out)
}

/// Which key groups a tagged album: the AlbumArtist tag when there is one, else the folder.
pub open spec fn tagged_album_key_text(
    album: Seq<char>,
    album_artist: Option<Seq<char>>,
    dir: Option<Seq<char>>,
) -> Seq<char> {
    match album_artist {
        Some(aa) => album_key_text(aa, album),
        None => folder_key_text(dir, album),
    }
}

/// Which key groups a tagged album. An AlbumArtist tag names the owner, guests and all. Without
/// one the folder does: keying on the per-track artist would split a compilation into one album
/// per performer.
pub fn tagged_album_key(album: &str, album_artist: Option<&str>, dir: Option<&str>) -> (r: String)
    ensures
        r@ == tagged_album_key_text(
            album@,
            match album_artist {
                Some(a) => Some(a@),
                None => None,
            },
            match dir {
                Some(d) => Some(d@),
                None => None,
            },
        ),
{
    match album_artist {
        Some(aa) => album_key(aa, album),
        None => folder_key(dir, album),
    }
}

/// The first index at or after `k` where the bytes `p` occur in `b`.
pub open spec fn find_bytes_from(b: Seq<u8>, p: Seq<u8>, k: int) -> Option<int>
    decreases b.len() + 1 - k,
{
    if k < 0 || k + p.len() > b.len() {
        None
    } else if b.subrange(k, k + p.len()) == p {
        Some(k)
    } else {
        find_bytes_from(b, p, k + 1)
    }
}

/// `str::find` in byte offsets: the first index where the bytes `p` occur in `b`.
pub open spec fn find_bytes(b: Seq<u8>, p: Seq<u8>) -> Option<int> {
    find_bytes_from(b, p, 0)
}

proof fn lemma_find_bytes_from(b: Seq<u8>, p: Seq<u8>, k: int)
    requires
        0 <= k,
    ensures
        match find_bytes_from(b, p, k) {
            Some(i) => k <= i && i + p.len() <= b.len(),
            None => true,
        },
    decreases b.len() + 1 - k,
{
    if k + p.len() > b.len() {
    } else if b.subrange(k, k + p.len()) == p {
    } else {
        lemma_find_bytes_from(b, p, k + 1);
    }
}

/// Executable `find_bytes`.
fn find_bytes_in(v: &[u8], p: &[u8]) -> (r: Option<usize>)
    ensures
        match r {
            Some(i) => find_bytes(v@, p@) == Some(i as int),
            None => find_bytes(v@, p@) is None,
        },
{
    let n = v.len();
    let m = p.len();
    let mut k: usize = 0;
    while k < n
        invariant
            n == v@.len(),
            m == p@.len(),
            k <= n,
            find_bytes(v@, p@) == find_bytes_from(v@, p@, k as int),
        decreases n - k,
    {
        if m <= n - k {
            let mut j: usize = 0;
            let mut same = true;
            while j < m
                invariant
                    n == v@.len(),
                    m == p@.len(),
                    k + m <= n,
                    j <= m,
                    same == (forall|t: int| 0 <= t < j ==> v@[k + t] == p@[t]),
                decreases m - j,
            {
                same = same && v[k + j] == p[j];
                j += 1;
            }
            proof {
                if same {
                    assert(v@.subrange(k as int, k + m) =~= p@);
                } else {
                    let t = choose|t: int| 0 <= t < m && v@[k + t] != p@[t];
                    assert(v@.subrange(k as int, k + m)[t] != p@[t]);
                }
            }
            if same {
                return Some(k);
            }
        }
        k += 1;
    }
    proof {
        if m == 0 {
            assert(v@.subrange(k as int, k as int) == p@);
        }
    }
    if m == 0 {
        Some(k)
    } else {
        None
    }
}

/// `;` in UTF-8.
pub open spec fn semicolon() -> u8 {
    59u8
}

/// The markers that start a guest list, in UTF-8: " feat.", " feat ", " ft.", " ft ",
/// " featuring ".
pub open spec fn guest_marker(k: int) -> Seq<u8> {
    if k == 0 {
        seq![32u8, 102u8, 101u8, 97u8, 116u8, 46u8]
    } else if k == 1 {
        seq![32u8, 102u8, 101u8, 97u8, 116u8, 32u8]
    } else if k == 2 {
        seq![32u8, 102u8, 116u8, 46u8]
    } else if k == 3 {
        seq![32u8, 102u8, 116u8, 32u8]
    } else {
        seq![32u8, 102u8, 101u8, 97u8, 116u8, 117u8, 114u8, 105u8, 110u8, 103u8, 32u8]
    }
}

/// `cut`, lowered to `f` when `f` found something earlier.
pub open spec fn cut_at(cut: int, f: Option<int>) -> int {
    match f {
        Some(i) => if i < cut {
            i
        } else {
            cut
        },
        None => cut,
    }
}

/// The byte offset where a tagged artist line stops naming its first artist: the first `;`, or
/// the first guest marker found in the lowercased line, whichever is earlier (the whole line
/// when there is neither).
pub open spec fn artist_cut(artist: Seq<char>) -> int {
    let ab = encode_utf8(artist);
    let lb = encode_utf8(lowercase(artist));
    let c0 = match find_bytes(ab, seq![semicolon()]) {
        Some(i) => i,
        None => ab.len() as int,
    };
    let c1 = cut_at(c0, find_bytes(lb, guest_marker(0)));
    let c2 = cut_at(c1, find_bytes(lb, guest_marker(1)));
    let c3 = cut_at(c2, find_bytes(lb, guest_marker(2)));
    let c4 = cut_at(c3, find_bytes(lb, guest_marker(3)));
    cut_at(c4, find_bytes(lb, guest_marker(4)))
}

/// Who a track counts under: the artist line up to `artist_cut`, trimmed. Offsets found in the
/// lowercased line are applied to the line as given; where one does not fall on a character boundary
/// the whole line is kept.
pub open spec fn primary_artist_text(artist: Seq<char>) -> Seq<char> {
    let ab = encode_utf8(artist);
    let cut = artist_cut(artist);
    let head = if 0 <= cut <= ab.len() && is_char_boundary(ab, cut) {
        decode_utf8(ab.subrange(0, cut))
    } else {
        artist
    };
    trim(head)
}

fn guest_marker_bytes(k: usize) -> (v: Vec<u8>)
    requires
        k < 5,
    ensures
        v@ == guest_marker(k as int),
{
    let v = if k == 0 {
        vec![32u8, 102u8, 101u8, 97u8, 116u8, 46u8]
    } else if k == 1 {
        vec![32u8, 102u8, 101u8, 97u8, 116u8, 32u8]
    } else if k == 2 {
        vec![32u8, 102u8, 116u8, 46u8]
    } else if k == 3 {
        vec![32u8, 102u8, 116u8, 32u8]
    } else {
        vec![32u8, 102u8, 101u8, 97u8, 116u8, 117u8, 114u8, 105u8, 110u8, 103u8, 32u8]
    };
    proof {
        assert(v@ == guest_marker(k as int));
    }
    v
}

/// Where a tagged artist line is cut: within the line, at or before its first `;`, at or before
/// the first occurrence (ignoring case) of each guest marker, " feat.", " feat ", " ft.", " ft "
/// and " featuring ", and exactly at one of them, or at the end of the line when there is none.
/// Where the cut falls on a character boundary the artist counts under the text before it,
/// trimmed.
pub proof fn lemma_cut_at_first_separator(artist: Seq<char>)
    ensures
        ({
            let ab = encode_utf8(artist);
            let lb = encode_utf8(lowercase(artist));
            let cut = artist_cut(artist);
            let semi = find_bytes(ab, seq![59u8]);
            let feat_dot = find_bytes(lb, seq![32u8, 102u8, 101u8, 97u8, 116u8, 46u8]);
            let feat = find_bytes(lb, seq![32u8, 102u8, 101u8, 97u8, 116u8, 32u8]);
            let ft_dot = find_bytes(lb, seq![32u8, 102u8, 116u8, 46u8]);
            let ft = find_bytes(lb, seq![32u8, 102u8, 116u8, 32u8]);
            let featuring = find_bytes(
                lb,
                seq![32u8, 102u8, 101u8, 97u8, 116u8, 117u8, 114u8, 105u8, 110u8, 103u8, 32u8],
            );
            &&& 0 <= cut <= ab.len()
            &&& semi matches Some(i) ==> cut <= i
            &&& feat_dot matches Some(i) ==> cut <= i
            &&& feat matches Some(i) ==> cut <= i
            &&& ft_dot matches Some(i) ==> cut <= i
            &&& ft matches Some(i) ==> cut <= i
            &&& featuring matches Some(i) ==> cut <= i
            &&& (cut == ab.len() || semi == Some(cut) || feat_dot == Some(cut) || feat == Some(cut)
                || ft_dot == Some(cut) || ft == Some(cut) || featuring == Some(cut))
            &&& is_char_boundary(ab, cut) ==> primary_artist_text(artist) == trim(
                decode_utf8(ab.subrange(0, cut)),
            )
        }),
{
    let ab = encode_utf8(artist);
    let lb = encode_utf8(lowercase(artist));
    lemma_find_bytes_from(ab, seq![59u8], 0);
    lemma_find_bytes_from(lb, guest_marker(0), 0);
    lemma_find_bytes_from(lb, guest_marker(1), 0);
    lemma_find_bytes_from(lb, guest_marker(2), 0);
    lemma_find_bytes_from(lb, guest_marker(3), 0);
    lemma_find_bytes_from(lb, guest_marker(4), 0);
    assert(seq![semicolon()] == seq![59u8]);
}

/// Who a track counts under. A tag naming a collaboration ("Drake; 21 Savage", "Drake feat.
/// Future") belongs to whoever it names first. Splits on ";" and the feat. markers only: "," and
/// "&" sit inside real names ("Tyler, The Creator") too often.
pub fn primary_artist(artist: &str) -> (r: String)
    ensures
        r@ == primary_artist_text(artist@),
{
    let ab = artist.as_bytes();
    let n = ab.len();
    let semi = vec![59u8];
    proof {
        assert(semi@ == seq![semicolon()]);
    }
    let mut cut: usize = match find_bytes_in(ab, &semi) {
        Some(j) => j,
        None => n,
    };
    proof {
        lemma_find_bytes_from(ab@, semi@, 0);
    }
    let lower = to_lowercase(artist);
    let lb = lower.as_str().as_bytes();
    let ghost ab_s = encode_utf8(artist@);
    let ghost lb_s = encode_utf8(lowercase(artist@));
    let ghost c0: int = cut as int;
    let mut k: usize = 0;
    while k < 5
        invariant
            k <= 5,
            lb@ == lb_s,
            ab@ == ab_s,
            cut <= ab@.len(),
            cut as int == (if k == 0 {
                c0
            } else if k == 1 {
                cut_at(c0, find_bytes(lb_s, guest_marker(0)))
            } else if k == 2 {
                cut_at(cut_at(c0, find_bytes(lb_s, guest_marker(0))), find_bytes(lb_s, guest_marker(1)))
            } else if k == 3 {
                cut_at(
                    cut_at(cut_at(c0, find_bytes(lb_s, guest_marker(0))), find_bytes(lb_s, guest_marker(1))),
                    find_bytes(lb_s, guest_marker(2)),
                )
            } else if k == 4 {
                cut_at(
                    cut_at(
                        cut_at(cut_at(c0, find_bytes(lb_s, guest_marker(0))), find_bytes(lb_s, guest_marker(1))),
                        find_bytes(lb_s, guest_marker(2)),
                    ),
                    find_bytes(lb_s, guest_marker(3)),
                )
            } else {
                cut_at(
                    cut_at(
                        cut_at(
                            cut_at(cut_at(c0, find_bytes(lb_s, guest_marker(0))), find_bytes(lb_s, guest_marker(1))),
                            find_bytes(lb_s, guest_marker(2)),
                        ),
                        find_bytes(lb_s, guest_marker(3)),
                    ),
                    find_bytes(lb_s, guest_marker(4)),
                )
            }),
        decreases 5 - k,
    {
        let m = guest_marker_bytes(k);
        match find_bytes_in(lb, &m) {
            Some(j) => {
                if j < cut {
                    cut = j;
                }
            },
            None => {},
        }
        k += 1;
    }
    proof {
        assert(cut as int == artist_cut(artist@));
    }
    if artist.is_char_boundary(cut) {
        let (head, _) = artist.split_at(cut);
        proof {
            vstd::utf8::encode_utf8_decode_utf8(head@);
            vstd::utf8::encode_utf8_valid_utf8(head@);
            assert(head@ == decode_utf8(ab_s.subrange(0, cut as int)));
        }
        let hv = chars_of(head);
        let (a, b) = trim_bounds(&hv, 0, hv.len());
        proof {
            assert(hv@.subrange(0, hv@.len() as int) == hv@);
        }
        string_of(&hv[a..b])
    } else {
        let v = chars_of(artist);
        let (a, b) = trim_bounds(&v, 0, v.len());
        proof {
            assert(v@.subrange(0, v@.len() as int) == v@);
        }
        string_of(&v[a..b])
    }
}

/// One file of the local library, as the scan stored it.
#[derive(Debug, Clone, PartialEq)]
pub struct LocalTrack {
    /// The absolute path: the track's identity.
    pub path: String,
    pub title: String,
    pub artist: String,
    pub album: String,
    pub album_key: String,
    pub album_artist: Option<String>,
    pub track_no: i64,
    pub duration_secs: i64,
    pub cover: Option<String>,
    pub mtime: i64,
}

/// A copy of a track.
pub fn copy_track(t: &LocalTrack) -> (r: LocalTrack)
    ensures
        r == *t,
{
    LocalTrack {
        path: t.path.clone(),
        title: t.title.clone(),
        artist: t.artist.clone(),
        album: t.album.clone(),
        album_key: t.album_key.clone(),
        album_artist: copy_opt(&t.album_artist),
        track_no: t.track_no,
        duration_secs: t.duration_secs,
        cover: copy_opt(&t.cover),
        mtime: t.mtime,
    }
}

/// The song id of a track: `SONG_PREFIX` + its path.
pub open spec fn song_id_text(t: LocalTrack) -> Seq<char> {
    song_prefix() + t.path@
}

/// The album id of a track: `ALBUM_PREFIX` + its album key.
pub open spec fn album_id_text(t: LocalTrack) -> Seq<char> {
    album_prefix() + t.album_key@
}

/// The artist id of a track: `ARTIST_PREFIX` + the artist it counts under.
pub open spec fn artist_id_text(t: LocalTrack) -> Seq<char> {
    artist_prefix() + primary_artist_text(t.artist@)
}

/// The song id of a track.
pub fn song_id_of(t: &LocalTrack) -> (r: String)
    ensures
        r@ == song_id_text(*t),
{
    let mut v = song_prefix_chars();
    push_str(&mut v, t.path.as_str());
    string_of(&v)
}

/// The album id of a track.
pub fn album_id_of(t: &LocalTrack) -> (r: String)
    ensures
        r@ == album_id_text(*t),
{
    let mut v = album_prefix_chars();
    push_str(&mut v, t.album_key.as_str());
    string_of(&v)
}

/// The artist id of a track.
pub fn artist_id_of(t: &LocalTrack) -> (r: String)
    ensures
        r@ == artist_id_text(*t),
{
    let name = primary_artist(t.artist.as_str());
    let mut v = artist_prefix_chars();
    push_str(&mut v, name.as_str());
    string_of(&v)
}

/// The song row a track becomes. It carries the album's name but no album id: a file on disk has
/// no album page to offer from a track's menu. A length of zero means the tag reader could not
/// say, and shows as no duration.
pub open spec fn is_song_of(s: SongItem, t: LocalTrack) -> bool {
    &&& s.video_id@ == song_id_text(t)
    &&& s.title@ == t.title@
    &&& s.artists@ == t.artist@
    &&& s.album == Some(t.album)
    &&& s.album_id is None
    &&& opt_seq(s.duration) == (if t.duration_secs > 0 {
        Some(duration_text(t.duration_secs as int))
    } else {
        None::<Seq<char>>
    })
    &&& s.thumbnail == t.cover
    &&& s.artist_id is None
    &&& s.artist_runs@.len() == 0
    &&& s.play_count is None
    &&& s.set_video_id is None
    &&& s.added_by is None
    &&& s.added_by_avatar is None
    &&& s.rating is None
    &&& s.queued_by is None
    &&& !s.queued
    &&& !s.queued_end
    &&& s.queued_from is None
    &&& !s.autoplay
    &&& !s.is_video
    &&& !s.is_upload
    &&& !s.explicit
    &&& s.library is None
}

/// The song row for a local track.
pub fn to_song(t: &LocalTrack) -> (s: SongItem)
    ensures
        is_song_of(s, *t),
{
    let duration = if t.duration_secs > 0 {
        Some(fmt_duration(t.duration_secs))
    } else {
        None
    };
    let mut s = SongItem::default();
    s.video_id = song_id_of(t);
    s.title = t.title.clone();
    s.artists = t.artist.clone();
    s.album = Some(t.album.clone());
    s.album_id = None;
    s.duration = duration;
    s.thumbnail = copy_opt(&t.cover);
    s
}

/// The song rows for a list of tracks, in order.
pub fn songs_of(tracks: &[LocalTrack]) -> (r: Vec<SongItem>)
    ensures
        r@.len() == tracks@.len(),
        forall|i: int| 0 <= i < tracks@.len() ==> is_song_of(#[trigger] r@[i], tracks@[i]),
{
    let mut r: Vec<SongItem> = Vec::new();
    let mut i: usize = 0;
    while i < tracks.len()
        invariant
            i <= tracks@.len(),
            r@.len() == i,
            forall|j: int| 0 <= j < i ==> is_song_of(#[trigger] r@[j], tracks@[j]),
        decreases tracks@.len() - i,
    {
        let s = to_song(&tracks[i]);
        r.push(s);
        i += 1;
    }
    r
}

/// The AlbumArtist tags a list of tracks carries, in order.
pub open spec fn album_artist_tags(ts: Seq<LocalTrack>) -> Seq<Seq<char>>
    decreases ts.len(),
{
    if ts.len() == 0 {
        Seq::empty()
    } else {
        let rest = album_artist_tags(ts.drop_last());
        match ts.last().album_artist {
            Some(a) => rest.push(a@),
            None => rest,
        }
    }
}

/// "Various artists".
pub open spec fn various_artists() -> Seq<char> {
    seq!['V', 'a', 'r', 'i', 'o', 'u', 's', ' ', 'a', 'r', 't', 'i', 's', 't', 's']
}

/// Who an album is by: the AlbumArtist tag when the files carry one and agree on it; failing
/// that the one artist on it; else "Various artists". No tracks at all reads as the unknown
/// artist.
pub open spec fn album_artist_text(ts: Seq<LocalTrack>) -> Seq<char> {
    let tags = album_artist_tags(ts);
    if tags.len() > 0 && (forall|i: int| 0 <= i < tags.len() ==> #[trigger] tags[i] == tags[0]) {
        tags[0]
    } else {
        let first = if ts.len() > 0 {
            ts[0].artist@
        } else {
            unknown_artist()
        };
        if forall|i: int| 0 <= i < ts.len() ==> #[trigger] ts[i].artist@ == first {
            first
        } else {
            various_artists()
        }
    }
}

/// Who an album is by. An album with guests on half its tracks is still its owner's, so an
/// agreeing AlbumArtist tag wins; a folder of loose downloads by several artists is "Various
/// artists".
pub fn album_artist(tracks: &[LocalTrack]) -> (r: String)
    ensures
        r@ == album_artist_text(tracks@),
{
    let n = tracks.len();
    let mut first_tag: Option<String> = None;
    let mut tags_agree = true;
    let mut i: usize = 0;
    while i < n
        invariant
            n == tracks@.len(),
            i <= n,
            album_artist_tags(tracks@.take(i as int)).len() == 0 <==> first_tag is None,
            match first_tag {
                Some(f) => f@ == album_artist_tags(tracks@.take(i as int))[0],
                None => true,
            },
            tags_agree == (forall|j: int|
                0 <= j < album_artist_tags(tracks@.take(i as int)).len() ==> #[trigger] album_artist_tags(
                    tracks@.take(i as int),
                )[j] == album_artist_tags(tracks@.take(i as int))[0]),
        decreases n - i,
    {
        let ghost before = album_artist_tags(tracks@.take(i as int));
        proof {
            assert(tracks@.take(i + 1).drop_last() == tracks@.take(i as int));
        }
        match &tracks[i].album_artist {
            Some(a) => {
                match &first_tag {
                    Some(f) => {
                        let same = crate::text::str_eq(f.as_str(), a.as_str());
                        proof {
                            let after = album_artist_tags(tracks@.take(i + 1));
                            assert(after == before.push(a@));
                            if tags_agree && same {
                                assert forall|j: int| 0 <= j < after.len() implies #[trigger] after[j]
                                    == after[0] by {
                                    if j < before.len() {
                                        assert(before[j] == before[0]);
                                    }
                                }
                            }
                            if !same {
                                assert(after[after.len() - 1] != after[0]);
                            }
                            if !tags_agree {
                                let j = choose|j: int|
                                    0 <= j < before.len() && #[trigger] before[j] != before[0];
                                assert(after[j] != after[0]);
                            }
                        }
                        tags_agree = tags_agree && same;
                    },
                    None => {
                        proof {
                            let after = album_artist_tags(tracks@.take(i + 1));
                            assert(after == before.push(a@));
                            assert(after.len() == 1);
                        }
                        first_tag = Some(a.clone());
                    },
                }
            },
            None => {},
        }
        i += 1;
    }
    proof {
        assert(tracks@.take(n as int) == tracks@);
    }
    if let Some(f) = first_tag {
        if tags_agree {
            return f;
        }
    }
    let first: Vec<char> = if n > 0 {
        chars_of(tracks[0].artist.as_str())
    } else {
        unknown_artist_chars()
    };
    let mut all_same = true;
    let mut j: usize = 0;
    while j < n
        invariant
            n == tracks@.len(),
            j <= n,
            first@ == (if n > 0 {
                tracks@[0].artist@
            } else {
                unknown_artist()
            }),
            all_same == (forall|k: int| 0 <= k < j ==> #[trigger] tracks@[k].artist@ == first@),
        decreases n - j,
    {
        let same = crate::text::str_eq(tracks[j].artist.as_str(), string_of(&first).as_str());
        all_same = all_same && same;
        j += 1;
    }
    if all_same {
        string_of(&first)
    } else {
        let v = vec!['V', 'a', 'r', 'i', 'o', 'u', 's', ' ', 'a', 'r', 't', 'i', 's', 't', 's'];
        proof {
            assert(v@ == various_artists());
        }
        string_of(&v)
    }
}

/// The album keys a list of tracks uses, each once, in order of first appearance.
pub open spec fn album_keys(ts: Seq<LocalTrack>) -> Seq<Seq<char>>
    decreases ts.len(),
{
    if ts.len() == 0 {
        Seq::empty()
    } else {
        let k = album_keys(ts.drop_last());
        let x = ts.last().album_key@;
        if k.contains(x) {
            k
        } else {
            k.push(x)
        }
    }
}

/// The tracks filed under one album key, in order.
pub open spec fn tracks_in_album(ts: Seq<LocalTrack>, key: Seq<char>) -> Seq<LocalTrack>
    decreases ts.len(),
{
    if ts.len() == 0 {
        Seq::empty()
    } else {
        let r = tracks_in_album(ts.drop_last(), key);
        if ts.last().album_key@ == key {
            r.push(ts.last())
        } else {
            r
        }
    }
}

/// The artists a list of tracks counts under, each once, in order of first appearance.
pub open spec fn artist_names(ts: Seq<LocalTrack>) -> Seq<Seq<char>>
    decreases ts.len(),
{
    if ts.len() == 0 {
        Seq::empty()
    } else {
        let k = artist_names(ts.drop_last());
        let x = primary_artist_text(ts.last().artist@);
        if k.contains(x) {
            k
        } else {
            k.push(x)
        }
    }
}

/// The tracks that count under one artist, in order.
pub open spec fn tracks_by_artist(ts: Seq<LocalTrack>, name: Seq<char>) -> Seq<LocalTrack>
    decreases ts.len(),
{
    if ts.len() == 0 {
        Seq::empty()
    } else {
        let r = tracks_by_artist(ts.drop_last(), name);
        if primary_artist_text(ts.last().artist@) == name {
            r.push(ts.last())
        } else {
            r
        }
    }
}

/// The first track at or after `k` that has artwork, else the first track.
pub open spec fn face_from(g: Seq<LocalTrack>, k: int) -> LocalTrack
    decreases g.len() - k,
{
    if k < 0 || k >= g.len() {
        g[0]
    } else if g[k].cover is Some {
        g[k]
    } else {
        face_from(g, k + 1)
    }
}

/// The track whose artwork and album name an album card shows: the first that has artwork.
pub open spec fn face(g: Seq<LocalTrack>) -> LocalTrack {
    face_from(g, 0)
}

/// The first artwork among the tracks at or after `k`.
pub open spec fn first_cover_from(g: Seq<LocalTrack>, k: int) -> Option<String>
    decreases g.len() - k,
{
    if k < 0 || k >= g.len() {
        None
    } else if g[k].cover is Some {
        g[k].cover
    } else {
        first_cover_from(g, k + 1)
    }
}

/// The first artwork among the tracks.
pub open spec fn first_cover(g: Seq<LocalTrack>) -> Option<String> {
    first_cover_from(g, 0)
}

/// "1 song", "2 songs".
pub open spec fn song_count_text(n: nat) -> Seq<char> {
    decimal(n) + seq![' ', 's', 'o', 'n', 'g'] + (if n == 1 {
        Seq::empty()
    } else {
        seq!['s']
    })
}

/// " • ".
pub open spec fn bullet() -> Seq<char> {
    seq![' ', '\u{2022}', ' ']
}

/// The fields every local card leaves empty: nothing on disk is a video, an upload or explicit.
pub open spec fn is_plain_card(c: BrowseItem) -> bool {
    &&& c.duration is None
    &&& c.artist_runs@.len() == 0
    &&& c.play_count is None
    &&& !c.is_video
    &&& !c.is_upload
    &&& !c.explicit
}

/// The card for the album `key`, whose tracks are `g`: titled with its face track's album name,
/// showing that track's artwork, subtitled with who it is by and how many songs it has.
pub open spec fn is_album_card(c: BrowseItem, key: Seq<char>, g: Seq<LocalTrack>) -> bool {
    &&& c.kind@ == seq!['a', 'l', 'b', 'u', 'm']
    &&& c.id@ == album_prefix() + key
    &&& c.title@ == face(g).album@
    &&& opt_seq(c.subtitle) == Some(album_artist_text(g) + bullet() + song_count_text(g.len()))
    &&& c.thumbnail == face(g).cover
    &&& is_plain_card(c)
}

/// The card for the artist `name`, whose tracks are `g`: the name as title, the song count as
/// subtitle, the first artwork among their tracks as face.
pub open spec fn is_artist_card(c: BrowseItem, name: Seq<char>, g: Seq<LocalTrack>) -> bool {
    &&& c.kind@ == seq!['a', 'r', 't', 'i', 's', 't']
    &&& c.id@ == artist_prefix() + name
    &&& c.title@ == name
    &&& opt_seq(c.subtitle) == Some(song_count_text(g.len()))
    &&& c.thumbnail == first_cover(g)
    &&& is_plain_card(c)
}

/// Whether `key` is already in `keys`.
fn contains_text(keys: &[String], key: &str) -> (r: bool)
    ensures
        r == keys@.map_values(|s: String| s@).contains(key@),
{
    let ghost kv = keys@.map_values(|s: String| s@);
    let mut i: usize = 0;
    while i < keys.len()
        invariant
            i <= keys@.len(),
            kv == keys@.map_values(|s: String| s@),
            forall|j: int| 0 <= j < i ==> kv[j] != key@,
        decreases keys@.len() - i,
    {
        if crate::text::str_eq(keys[i].as_str(), key) {
            proof {
                assert(kv[i as int] == key@);
            }
            return true;
        }
        i += 1;
    }
    false
}

/// Appends `song_count_text(n)`.
fn push_song_count(out: &mut Vec<char>, n: usize)
    ensures
        final(out)@ == old(out)@ + song_count_text(n as nat),
{
    push_decimal(out, n as u64);
    out.push(' ');
    out.push('s');
    out.push('o');
    out.push('n');
    out.push('g');
    if n != 1 {
        out.push('s');
    }
    proof {
        if n == 1 {
            assert(old(out)@ + song_count_text(n as nat) == old(out)@ + decimal(n as nat) + seq![
                ' ',
                's',
                'o',
                'n',
                'g',
            ]);
        }
    }
}

/// A card with everything a local card leaves empty.
fn plain_card(kind: Vec<char>, id: String, title: String, subtitle: String, thumbnail: Option<String>) -> (c: BrowseItem)
    ensures
        c.kind@ == kind@,
        c.id == id,
        c.title == title,
        c.subtitle == Some(subtitle),
        c.thumbnail == thumbnail,
        is_plain_card(c),
{
    BrowseItem {
        kind: string_of(&kind),
        id,
        title,
        subtitle: Some(subtitle),
        thumbnail,
        duration: None,
        artist_runs: Vec::new(),
        play_count: None,
        is_video: false,
        is_upload: false,
        explicit: false,
    }
}

/// The album card for a nonempty group of tracks filed under `key`.
fn album_card(g: &[LocalTrack], key: &String) -> (c: BrowseItem)
    requires
        g@.len() > 0,
    ensures
        is_album_card(c, key@, g@),
{
    let mut k: usize = 0;
    while k < g.len() && g[k].cover.is_none()
        invariant
            k <= g@.len(),
            g@.len() > 0,
            face(g@) == face_from(g@, k as int),
        decreases g@.len() - k,
    {
        k += 1;
    }
    let f = if k < g.len() {
        k
    } else {
        0
    };
    proof {
        assert(face(g@) == g@[f as int]);
    }
    let mut id = album_prefix_chars();
    push_str(&mut id, key.as_str());
    let mut sub = chars_of(album_artist(g).as_str());
    sub.push(' ');
    sub.push('\u{2022}');
    sub.push(' ');
    push_song_count(&mut sub, g.len());
    proof {
        assert(sub@ == album_artist_text(g@) + bullet() + song_count_text(g@.len()));
    }
    let kind = vec!['a', 'l', 'b', 'u', 'm'];
    proof {
        assert(kind@ == seq!['a', 'l', 'b', 'u', 'm']);
    }
    plain_card(kind, string_of(&id), g[f].album.clone(), string_of(&sub), copy_opt(&g[f].cover))
}

/// The artist card for a group of tracks that count under `name`.
fn artist_card(g: &[LocalTrack], name: &String) -> (c: BrowseItem)
    ensures
        is_artist_card(c, name@, g@),
{
    let mut k: usize = 0;
    while k < g.len() && g[k].cover.is_none()
        invariant
            k <= g@.len(),
            first_cover(g@) == first_cover_from(g@, k as int),
        decreases g@.len() - k,
    {
        k += 1;
    }
    let thumb = if k < g.len() {
        copy_opt(&g[k].cover)
    } else {
        None
    };
    let mut id = artist_prefix_chars();
    push_str(&mut id, name.as_str());
    let mut sub: Vec<char> = Vec::new();
    push_song_count(&mut sub, g.len());
    proof {
        assert(sub@ == song_count_text(g@.len()));
    }
    let kind = vec!['a', 'r', 't', 'i', 's', 't'];
    proof {
        assert(kind@ == seq!['a', 'r', 't', 'i', 's', 't']);
    }
    plain_card(kind, string_of(&id), name.clone(), string_of(&sub), thumb)
}

/// The tracks filed under `key`.
fn select_album(ts: &[LocalTrack], key: &str) -> (r: Vec<LocalTrack>)
    ensures
        r@ == tracks_in_album(ts@, key@),
{
    let mut r: Vec<LocalTrack> = Vec::new();
    let mut i: usize = 0;
    while i < ts.len()
        invariant
            i <= ts@.len(),
            r@ == tracks_in_album(ts@.take(i as int), key@),
        decreases ts@.len() - i,
    {
        proof {
            assert(ts@.take(i + 1).drop_last() == ts@.take(i as int));
        }
        if crate::text::str_eq(ts[i].album_key.as_str(), key) {
            r.push(copy_track(&ts[i]));
        }
        i += 1;
    }
    proof {
        assert(ts@.take(ts@.len() as int) == ts@);
    }
    r
}

/// The tracks that count under `name`.
fn select_artist(ts: &[LocalTrack], name: &str) -> (r: Vec<LocalTrack>)
    ensures
        r@ == tracks_by_artist(ts@, name@),
{
    let mut r: Vec<LocalTrack> = Vec::new();
    let mut i: usize = 0;
    while i < ts.len()
        invariant
            i <= ts@.len(),
            r@ == tracks_by_artist(ts@.take(i as int), name@),
        decreases ts@.len() - i,
    {
        proof {
            assert(ts@.take(i + 1).drop_last() == ts@.take(i as int));
        }
        let p = primary_artist(ts[i].artist.as_str());
        if crate::text::str_eq(p.as_str(), name) {
            r.push(copy_track(&ts[i]));
        }
        i += 1;
    }
    proof {
        assert(ts@.take(ts@.len() as int) == ts@);
    }
    r
}

/// A key that names a group has at least one track in it.
proof fn lemma_album_key_has_tracks(ts: Seq<LocalTrack>, j: int)
    requires
        0 <= j < album_keys(ts).len(),
    ensures
        tracks_in_album(ts, album_keys(ts)[j]).len() > 0,
    decreases ts.len(),
{
    let k = album_keys(ts.drop_last());
    let x = ts.last().album_key@;
    if j < k.len() {
        lemma_album_key_has_tracks(ts.drop_last(), j);
        assert(album_keys(ts)[j] == k[j]);
    }
}

/// The album keys are distinct.
proof fn lemma_album_keys_distinct(ts: Seq<LocalTrack>)
    ensures
        album_keys(ts).no_duplicates(),
    decreases ts.len(),
{
    if ts.len() > 0 {
        lemma_album_keys_distinct(ts.drop_last());
    }
}

/// The artist names are distinct.
proof fn lemma_artist_names_distinct(ts: Seq<LocalTrack>)
    ensures
        artist_names(ts).no_duplicates(),
    decreases ts.len(),
{
    if ts.len() > 0 {
        lemma_artist_names_distinct(ts.drop_last());
    }
}

/// The group a album card stands for: its id without the prefix.
pub open spec fn album_card_key(c: BrowseItem) -> Seq<char> {
    c.id@.skip(album_prefix().len() as int)
}

/// Each card is the album card of one group, and each group has its card.
pub open spec fn album_cards_cover(r: Seq<BrowseItem>, ts: Seq<LocalTrack>) -> bool {
    &&& forall|i: int|
        0 <= i < r.len() ==> album_keys(ts).contains(album_card_key(#[trigger] r[i])) && is_album_card(
            r[i],
            album_card_key(r[i]),
            tracks_in_album(ts, album_card_key(r[i])),
        )
    &&& forall|j: int|
        0 <= j < album_keys(ts).len() ==> r.map_values(|c: BrowseItem| album_card_key(c)).contains(
            #[trigger] album_keys(ts)[j],
        )
}

/// `x` comes before `y` in `ks`.
pub open spec fn comes_before(ks: Seq<Seq<char>>, x: Seq<char>, y: Seq<char>) -> bool {
    exists|a: int, b: int| 0 <= a < b < ks.len() && #[trigger] ks[a] == x && #[trigger] ks[b] == y
}

/// One card per album, ordered by title (ignoring case); albums whose titles are equal keep the
/// order in which their first tracks come.
pub fn albums_of(tracks: &[LocalTrack]) -> (r: Vec<BrowseItem>)
    ensures
        r@.len() == album_keys(tracks@).len(),
        album_cards_cover(r@, tracks@),
        sorted_by_title(r@),
        forall|i: int, j: int|
            0 <= i < j < r@.len() && lowercase(r@[i].title@) == lowercase(r@[j].title@)
                ==> comes_before(
                album_keys(tracks@),
                album_card_key(#[trigger] r@[i]),
                album_card_key(#[trigger] r@[j]),
            ),
{
    let mut keys: Vec<String> = Vec::new();
    let mut i: usize = 0;
    while i < tracks.len()
        invariant
            i <= tracks@.len(),
            keys@.map_values(|s: String| s@) == album_keys(tracks@.take(i as int)),
        decreases tracks@.len() - i,
    {
        proof {
            assert(tracks@.take(i + 1).drop_last() == tracks@.take(i as int));
        }
        if !contains_text(&keys, tracks[i].album_key.as_str()) {
            keys.push(tracks[i].album_key.clone());
        }
        i += 1;
    }
    proof {
        assert(tracks@.take(tracks@.len() as int) == tracks@);
    }
    let ghost ks = album_keys(tracks@);
    let mut cards: Vec<BrowseItem> = Vec::new();
    let mut j: usize = 0;
    while j < keys.len()
        invariant
            j <= keys@.len(),
            keys@.map_values(|s: String| s@) == ks,
            ks == album_keys(tracks@),
            cards@.len() == j,
            forall|m: int|
                0 <= m < j ==> #[trigger] is_album_card(
                    cards@[m],
                    ks[m],
                    tracks_in_album(tracks@, ks[m]),
                ),
        decreases keys@.len() - j,
    {
        let g = select_album(tracks, keys[j].as_str());
        proof {
            assert(keys@[j as int]@ == ks[j as int]);
            lemma_album_key_has_tracks(tracks@, j as int);
        }
        let c = album_card(&g, &keys[j]);
        cards.push(c);
        j += 1;
    }
    let ghost u = cards@;
    let r = crate::shelf::sort_by_title(cards);
    proof {
        r@.to_multiset_ensures();
        u.to_multiset_ensures();
        assert(r@.len() == u.len());
        assert forall|i: int| 0 <= i < r@.len() implies ks.contains(album_card_key(#[trigger] r@[i]))
            && is_album_card(r@[i], album_card_key(r@[i]), tracks_in_album(tracks@, album_card_key(r@[i]))) by {
            assert(r@.contains(r@[i]));
            assert(r@.to_multiset().count(r@[i]) > 0);
            assert(u.to_multiset().count(r@[i]) > 0);
            assert(u.contains(r@[i]));
            let j = choose|j: int| 0 <= j < u.len() && u[j] == r@[i];
            assert(is_album_card(u[j], ks[j], tracks_in_album(tracks@, ks[j])));
            assert(album_card_key(u[j]) == ks[j]);
        }
        assert forall|j: int| 0 <= j < ks.len() implies r@.map_values(
            |c: BrowseItem| album_card_key(c),
        ).contains(#[trigger] ks[j]) by {
            assert(u.contains(u[j]));
            assert(u.to_multiset().count(u[j]) > 0);
            assert(r@.to_multiset().count(u[j]) > 0);
            assert(r@.contains(u[j]));
            let i = choose|i: int| 0 <= i < r@.len() && r@[i] == u[j];
            assert(is_album_card(u[j], ks[j], tracks_in_album(tracks@, ks[j])));
            assert(album_card_key(u[j]) == ks[j]);
            assert(r@.map_values(|c: BrowseItem| album_card_key(c))[i] == ks[j]);
        }
        let idx = choose|idx: Seq<int>| #[trigger] stable_arrangement(r@, u, idx);
        assert forall|i: int, j: int|
            0 <= i < j < r@.len() && lowercase(r@[i].title@) == lowercase(r@[j].title@)
                implies comes_before(ks, album_card_key(#[trigger] r@[i]), album_card_key(
            #[trigger] r@[j],
        )) by {
            let a = idx[i];
            let b = idx[j];
            assert(is_album_card(u[a], ks[a], tracks_in_album(tracks@, ks[a])));
            assert(is_album_card(u[b], ks[b], tracks_in_album(tracks@, ks[b])));
            assert(album_card_key(u[a]) == ks[a]);
            assert(album_card_key(u[b]) == ks[b]);
        }
    }
    r
}

/// The group a artist card stands for: its id without the prefix.
pub open spec fn artist_card_key(c: BrowseItem) -> Seq<char> {
    c.id@.skip(artist_prefix().len() as int)
}

/// Each card is the artist card of one group, and each group has its card.
pub open spec fn artist_cards_cover(r: Seq<BrowseItem>, ts: Seq<LocalTrack>) -> bool {
    &&& forall|i: int|
        0 <= i < r.len() ==> artist_names(ts).contains(artist_card_key(#[trigger] r[i])) && is_artist_card(
            r[i],
            artist_card_key(r[i]),
            tracks_by_artist(ts, artist_card_key(r[i])),
        )
    &&& forall|j: int|
        0 <= j < artist_names(ts).len() ==> r.map_values(|c: BrowseItem| artist_card_key(c)).contains(
            #[trigger] artist_names(ts)[j],
        )
}

/// One card per artist, ordered by name (ignoring case); artists whose names are equal but for
/// case keep the order in which their first tracks come.
pub fn artists_of(tracks: &[LocalTrack]) -> (r: Vec<BrowseItem>)
    ensures
        r@.len() == artist_names(tracks@).len(),
        artist_cards_cover(r@, tracks@),
        sorted_by_title(r@),
        forall|i: int, j: int|
            0 <= i < j < r@.len() && lowercase(r@[i].title@) == lowercase(r@[j].title@)
                ==> comes_before(
                artist_names(tracks@),
                artist_card_key(#[trigger] r@[i]),
                artist_card_key(#[trigger] r@[j]),
            ),
{
    let mut names: Vec<String> = Vec::new();
    let mut i: usize = 0;
    while i < tracks.len()
        invariant
            i <= tracks@.len(),
            names@.map_values(|s: String| s@) == artist_names(tracks@.take(i as int)),
        decreases tracks@.len() - i,
    {
        proof {
            assert(tracks@.take(i + 1).drop_last() == tracks@.take(i as int));
        }
        let p = primary_artist(tracks[i].artist.as_str());
        if !contains_text(&names, p.as_str()) {
            names.push(p);
        }
        i += 1;
    }
    proof {
        assert(tracks@.take(tracks@.len() as int) == tracks@);
    }
    let ghost ns = artist_names(tracks@);
    let mut cards: Vec<BrowseItem> = Vec::new();
    let mut j: usize = 0;
    while j < names.len()
        invariant
            j <= names@.len(),
            names@.map_values(|s: String| s@) == ns,
            ns == artist_names(tracks@),
            cards@.len() == j,
            forall|m: int|
                0 <= m < j ==> #[trigger] is_artist_card(
                    cards@[m],
                    ns[m],
                    tracks_by_artist(tracks@, ns[m]),
                ),
        decreases names@.len() - j,
    {
        let g = select_artist(tracks, names[j].as_str());
        proof {
            assert(names@[j as int]@ == ns[j as int]);
        }
        let c = artist_card(&g, &names[j]);
        cards.push(c);
        j += 1;
    }
    let ghost u = cards@;
    let r = crate::shelf::sort_by_title(cards);
    proof {
        r@.to_multiset_ensures();
        u.to_multiset_ensures();
        assert(r@.len() == u.len());
        assert forall|i: int| 0 <= i < r@.len() implies ns.contains(artist_card_key(#[trigger] r@[i]))
            && is_artist_card(r@[i], artist_card_key(r@[i]), tracks_by_artist(tracks@, artist_card_key(r@[i]))) by {
            assert(r@.contains(r@[i]));
            assert(r@.to_multiset().count(r@[i]) > 0);
            assert(u.to_multiset().count(r@[i]) > 0);
            assert(u.contains(r@[i]));
            let j = choose|j: int| 0 <= j < u.len() && u[j] == r@[i];
            assert(is_artist_card(u[j], ns[j], tracks_by_artist(tracks@, ns[j])));
            assert(artist_card_key(u[j]) == ns[j]);
        }
        assert forall|j: int| 0 <= j < ns.len() implies r@.map_values(
            |c: BrowseItem| artist_card_key(c),
        ).contains(#[trigger] ns[j]) by {
            assert(u.contains(u[j]));
            assert(u.to_multiset().count(u[j]) > 0);
            assert(r@.to_multiset().count(u[j]) > 0);
            assert(r@.contains(u[j]));
            let i = choose|i: int| 0 <= i < r@.len() && r@[i] == u[j];
            assert(is_artist_card(u[j], ns[j], tracks_by_artist(tracks@, ns[j])));
            assert(artist_card_key(u[j]) == ns[j]);
            assert(r@.map_values(|c: BrowseItem| artist_card_key(c))[i] == ns[j]);
        }
        let idx = choose|idx: Seq<int>| #[trigger] stable_arrangement(r@, u, idx);
        assert forall|i: int, j: int|
            0 <= i < j < r@.len() && lowercase(r@[i].title@) == lowercase(r@[j].title@)
                implies comes_before(ns, artist_card_key(#[trigger] r@[i]), artist_card_key(
            #[trigger] r@[j],
        )) by {
            let a = idx[i];
            let b = idx[j];
            assert(is_artist_card(u[a], ns[a], tracks_by_artist(tracks@, ns[a])));
            assert(is_artist_card(u[b], ns[b], tracks_by_artist(tracks@, ns[b])));
            assert(artist_card_key(u[a]) == ns[a]);
            assert(artist_card_key(u[b]) == ns[b]);
        }
    }
    r
}

/// The first position of the track stored under `path`.
pub open spec fn path_index(s: Seq<LocalTrack>, path: Seq<char>) -> Option<int>
    decreases s.len(),
{
    if s.len() == 0 {
        None
    } else {
        match path_index(s.drop_last(), path) {
            Some(i) => Some(i),
            None => if s.last().path@ == path {
                Some(s.len() - 1)
            } else {
                None
            },
        }
    }
}

/// No two tracks share a path.
pub open spec fn paths_distinct(s: Seq<LocalTrack>) -> bool {
    forall|i: int, j: int| 0 <= i < j < s.len() ==> (#[trigger] s[i]).path@ != (#[trigger] s[j]).path@
}

/// `s` with `t` stored: it replaces the track stored under its path, or is appended.
pub open spec fn upsert(s: Seq<LocalTrack>, t: LocalTrack) -> Seq<LocalTrack> {
    match path_index(s, t.path@) {
        Some(i) => s.update(i, t),
        None => s.push(t),
    }
}

/// `s` with every track of `ts` stored, in order.
pub open spec fn upsert_all(s: Seq<LocalTrack>, ts: Seq<LocalTrack>) -> Seq<LocalTrack>
    decreases ts.len(),
{
    if ts.len() == 0 {
        s
    } else {
        upsert(upsert_all(s, ts.drop_last()), ts.last())
    }
}

/// `s` without the tracks whose paths are listed.
pub open spec fn without_paths(s: Seq<LocalTrack>, paths: Seq<Seq<char>>) -> Seq<LocalTrack>
    decreases s.len(),
{
    if s.len() == 0 {
        s
    } else {
        let r = without_paths(s.drop_last(), paths);
        if paths.contains(s.last().path@) {
            r
        } else {
            r.push(s.last())
        }
    }
}

proof fn lemma_path_index(s: Seq<LocalTrack>, path: Seq<char>)
    ensures
        match path_index(s, path) {
            Some(i) => 0 <= i < s.len() && s[i].path@ == path && forall|j: int|
                0 <= j < i ==> (#[trigger] s[j]).path@ != path,
            None => forall|j: int| 0 <= j < s.len() ==> (#[trigger] s[j]).path@ != path,
        },
    decreases s.len(),
{
    if s.len() > 0 {
        lemma_path_index(s.drop_last(), path);
        match path_index(s.drop_last(), path) {
            Some(i) => {
                assert forall|j: int| 0 <= j < i implies (#[trigger] s[j]).path@ != path by {
                    assert(s[j] == s.drop_last()[j]);
                }
                assert(s[i] == s.drop_last()[i]);
            },
            None => {
                assert forall|j: int| 0 <= j < s.len() - 1 implies (#[trigger] s[j]).path@ != path by {
                    assert(s[j] == s.drop_last()[j]);
                }
            },
        }
    }
}

proof fn lemma_upsert_distinct(s: Seq<LocalTrack>, t: LocalTrack)
    requires
        paths_distinct(s),
    ensures
        paths_distinct(upsert(s, t)),
{
    lemma_path_index(s, t.path@);
}

proof fn lemma_without_paths(s: Seq<LocalTrack>, paths: Seq<Seq<char>>)
    requires
        paths_distinct(s),
    ensures
        paths_distinct(without_paths(s, paths)),
        forall|i: int|
            0 <= i < without_paths(s, paths).len() ==> s.contains(
                #[trigger] without_paths(s, paths)[i],
            ) && !paths.contains(without_paths(s, paths)[i].path@),
    decreases s.len(),
{
    if s.len() > 0 {
        assert(paths_distinct(s.drop_last()));
        lemma_without_paths(s.drop_last(), paths);
        let r = without_paths(s.drop_last(), paths);
        assert forall|i: int| 0 <= i < r.len() implies s.contains(#[trigger] r[i]) by {
            assert(s.drop_last().contains(r[i]));
            let k = choose|k: int| 0 <= k < s.drop_last().len() && s.drop_last()[k] == r[i];
            assert(s[k] == r[i]);
        }
        if !paths.contains(s.last().path@) {
            let w = r.push(s.last());
            assert forall|i: int, j: int| 0 <= i < j < w.len() implies (#[trigger] w[i]).path@
                != (#[trigger] w[j]).path@ by {
                if j == w.len() - 1 {
                    assert(s.drop_last().contains(r[i]));
                    let k = choose|k: int| 0 <= k < s.drop_last().len() && s.drop_last()[k] == r[i];
                    assert(s[k] == r[i]);
                    assert(s[s.len() - 1] == s.last());
                }
            }
            assert(s.contains(s.last())) by {
                assert(s[s.len() - 1] == s.last());
            }
        }
    }
}

/// The local library's store: the watched folders, the tracks the last scan stored (at most one
/// per path), and which version of the tag rules produced them.
pub struct Db {
    folders: Vec<String>,
    tracks: Vec<LocalTrack>,
    scan_version: Option<String>,
}

impl Db {
    #[verifier::type_invariant]
    spec fn well_formed(self) -> bool {
        paths_distinct(self.tracks@)
    }

    /// The watched folders, in order.
    pub closed spec fn folder_list(self) -> Seq<Seq<char>> {
        self.folders@.map_values(|f: String| f@)
    }

    /// The stored tracks, in order.
    pub closed spec fn stored(self) -> Seq<LocalTrack> {
        self.tracks@
    }

    /// The tag-rule version the stored tracks were read under, if any.
    pub closed spec fn version(self) -> Option<Seq<char>> {
        opt_seq(self.scan_version)
    }

    /// An empty store.
    pub fn new() -> (db: Db)
        ensures
            db.folder_list().len() == 0,
            db.stored().len() == 0,
            db.version() is None,
    {
        let db = Db { folders: Vec::new(), tracks: Vec::new(), scan_version: None };
        proof {
            assert(db.folder_list() =~= Seq::<Seq<char>>::empty());
        }
        db
    }

    /// The watched folders.
    pub fn folders(&self) -> (r: Vec<String>)
        ensures
            r@.map_values(|f: String| f@) == self.folder_list(),
    {
        let mut r: Vec<String> = Vec::new();
        let mut i: usize = 0;
        while i < self.folders.len()
            invariant
                i <= self.folders@.len(),
                r@.len() == i,
                forall|j: int| 0 <= j < i ==> (#[trigger] r@[j])@ == self.folders@[j]@,
            decreases self.folders@.len() - i,
        {
            r.push(self.folders[i].clone());
            i += 1;
        }
        proof {
            assert(r@.map_values(|f: String| f@) =~= self.folder_list());
        }
        r
    }

    /// Replaces the folder list.
    pub fn set_folders(&mut self, folders: Vec<String>)
        ensures
            final(self).folder_list() == folders@.map_values(|f: String| f@),
            final(self).stored() == old(self).stored(),
            final(self).version() == old(self).version(),
    {
        proof {
            use_type_invariant(&*self);
        }
        self.folders = folders;
    }

    /// The stored tracks: all of them, or those of one album.
    pub fn local_tracks(&self, album_key: Option<&str>) -> (r: Vec<LocalTrack>)
        ensures
            r@ == match album_key {
                Some(k) => tracks_in_album(self.stored(), k@),
                None => self.stored(),
            },
            paths_distinct(self.stored()),
    {
        proof {
            use_type_invariant(self);
        }
        match album_key {
            Some(k) => select_album(&self.tracks, k),
            None => {
                let mut r: Vec<LocalTrack> = Vec::new();
                let mut i: usize = 0;
                while i < self.tracks.len()
                    invariant
                        i <= self.tracks@.len(),
                        r@ == self.tracks@.take(i as int),
                    decreases self.tracks@.len() - i,
                {
                    r.push(copy_track(&self.tracks[i]));
                    proof {
                        assert(self.tracks@.take(i + 1) == self.tracks@.take(i as int).push(
                            self.tracks@[i as int],
                        ));
                    }
                    i += 1;
                }
                proof {
                    assert(self.tracks@.take(self.tracks@.len() as int) == self.tracks@);
                }
                r
            },
        }
    }

    /// Stores one track, replacing the one stored under its path.
    fn put_one(&mut self, t: LocalTrack)
        ensures
            final(self).stored() == upsert(old(self).stored(), t),
            final(self).folder_list() == old(self).folder_list(),
            final(self).version() == old(self).version(),
    {
        proof {
            use_type_invariant(&*self);
            lemma_path_index(self.tracks@, t.path@);
            lemma_upsert_distinct(self.tracks@, t);
        }
        let n = self.tracks.len();
        let mut i: usize = 0;
        while i < n
            invariant
                n == self.tracks@.len(),
                i <= n,
                self.stored() == old(self).stored(),
                self.folder_list() == old(self).folder_list(),
                self.version() == old(self).version(),
                paths_distinct(upsert(self.tracks@, t)),
                forall|j: int| 0 <= j < i ==> (#[trigger] self.tracks@[j]).path@ != t.path@,
            decreases n - i,
        {
            if crate::text::str_eq(self.tracks[i].path.as_str(), t.path.as_str()) {
                proof {
                    lemma_path_index(self.tracks@, t.path@);
                    assert(path_index(self.tracks@, t.path@) == Some(i as int));
                }
                let mut v = self.local_tracks(None);
                v.set(i, t);
                self.tracks = v;
                return;
            }
            i += 1;
        }
        proof {
            lemma_path_index(self.tracks@, t.path@);
            assert(path_index(self.tracks@, t.path@) is None);
        }
        let mut v = self.local_tracks(None);
        v.push(t);
        self.tracks = v;
    }

    /// Stores the tracks, in order: each replaces the one stored under its path.
    pub fn put_local_tracks(&mut self, tracks: &[LocalTrack])
        ensures
            final(self).stored() == upsert_all(old(self).stored(), tracks@),
            final(self).folder_list() == old(self).folder_list(),
            final(self).version() == old(self).version(),
    {
        let ghost start = self.stored();
        let mut i: usize = 0;
        while i < tracks.len()
            invariant
                i <= tracks@.len(),
                self.stored() == upsert_all(start, tracks@.take(i as int)),
                self.folder_list() == old(self).folder_list(),
                self.version() == old(self).version(),
            decreases tracks@.len() - i,
        {
            self.put_one(copy_track(&tracks[i]));
            proof {
                assert(tracks@.take(i + 1).drop_last() == tracks@.take(i as int));
            }
            i += 1;
        }
        proof {
            assert(tracks@.take(tracks@.len() as int) == tracks@);
        }
    }

    /// Forgets the tracks stored under the given paths.
    pub fn delete_local_tracks(&mut self, paths: &[String])
        ensures
            final(self).stored() == without_paths(
                old(self).stored(),
                paths@.map_values(|p: String| p@),
            ),
            final(self).folder_list() == old(self).folder_list(),
            final(self).version() == old(self).version(),
    {
        proof {
            use_type_invariant(&*self);
        }
        let ghost ps = paths@.map_values(|p: String| p@);
        let mut kept: Vec<LocalTrack> = Vec::new();
        let mut i: usize = 0;
        while i < self.tracks.len()
            invariant
                i <= self.tracks@.len(),
                ps == paths@.map_values(|p: String| p@),
                kept@ == without_paths(self.tracks@.take(i as int), ps),
            decreases self.tracks@.len() - i,
        {
            proof {
                assert(self.tracks@.take(i + 1).drop_last() == self.tracks@.take(i as int));
            }
            if !contains_text(paths, self.tracks[i].path.as_str()) {
                kept.push(copy_track(&self.tracks[i]));
            }
            i += 1;
        }
        proof {
            assert(self.tracks@.take(self.tracks@.len() as int) == self.tracks@);
            lemma_without_paths(self.tracks@, ps);
        }
        self.tracks = kept;
    }

    /// Records the tag-rule version the stored tracks were read under.
    pub fn set_version(&mut self, version: String)
        ensures
            final(self).version() == Some(version@),
            final(self).stored() == old(self).stored(),
            final(self).folder_list() == old(self).folder_list(),
    {
        proof {
            use_type_invariant(&*self);
        }
        self.scan_version = Some(version);
    }
}

/// The running total of the tracks' lengths.
pub open spec fn total_secs(ts: Seq<LocalTrack>) -> int
    decreases ts.len(),
{
    if ts.len() == 0 {
        0
    } else {
        total_secs(ts.drop_last()) + ts.last().duration_secs
    }
}

/// Every running total of the tracks' lengths fits an `i64` (summing them does not overflow).
pub open spec fn totals_fit(ts: Seq<LocalTrack>) -> bool {
    forall|k: int| 0 <= k <= ts.len() ==> i64::MIN <= #[trigger] total_secs(ts.take(k)) <= i64::MAX
}

/// "On this device".
pub open spec fn on_this_device() -> Seq<char> {
    seq!['O', 'n', ' ', 't', 'h', 'i', 's', ' ', 'd', 'e', 'v', 'i', 'c', 'e']
}

/// A page built from files on disk: the given title and artist, the track list, its length and
/// song count, the first artwork among the tracks, and nothing YouTube-shaped (no artist link, no
/// playlist behind it, no library membership).
pub open spec fn is_page_of(
    p: AlbumPage,
    title: Option<Seq<char>>,
    artist: Option<Seq<char>>,
    ts: Seq<LocalTrack>,
) -> bool {
    &&& opt_seq(p.title) == title
    &&& opt_seq(p.artist) == artist
    &&& p.artist_id is None
    &&& p.artist_runs@.len() == 0
    &&& p.artist_thumbnail is None
    &&& opt_seq(p.subtitle) == Some(on_this_device())
    &&& opt_seq(p.second_subtitle) == Some(
        song_count_text(ts.len()) + bullet() + duration_text(total_secs(ts)),
    )
    &&& p.description is None
    &&& p.thumbnail == first_cover(ts)
    &&& p.items@.len() == ts.len()
    &&& (forall|i: int| 0 <= i < ts.len() ==> is_song_of(#[trigger] p.items@[i], ts[i]))
    &&& p.continuation is None
    &&& !p.explicit
    &&& p.playlist_id is None
    &&& !p.in_library
}

/// The shared body of the album and artist pages: a title, a track list, and nothing
/// YouTube-shaped.
pub fn page_of(title: Option<String>, artist: Option<String>, tracks: &[LocalTrack]) -> (p: AlbumPage)
    requires
        totals_fit(tracks@),
    ensures
        is_page_of(p, opt_seq(title), opt_seq(artist), tracks@),
{
    let mut total: i64 = 0;
    let mut i: usize = 0;
    while i < tracks.len()
        invariant
            i <= tracks@.len(),
            totals_fit(tracks@),
            total == total_secs(tracks@.take(i as int)),
        decreases tracks@.len() - i,
    {
        proof {
            assert(tracks@.take(i + 1).drop_last() == tracks@.take(i as int));
            assert(i64::MIN <= total_secs(tracks@.take(i + 1)) <= i64::MAX);
        }
        total = total + tracks[i].duration_secs;
        i += 1;
    }
    proof {
        assert(tracks@.take(tracks@.len() as int) == tracks@);
    }
    let mut k: usize = 0;
    while k < tracks.len() && tracks[k].cover.is_none()
        invariant
            k <= tracks@.len(),
            first_cover(tracks@) == first_cover_from(tracks@, k as int),
        decreases tracks@.len() - k,
    {
        k += 1;
    }
    let thumbnail = if k < tracks.len() {
        copy_opt(&tracks[k].cover)
    } else {
        None
    };
    let mut second: Vec<char> = Vec::new();
    push_song_count(&mut second, tracks.len());
    second.push(' ');
    second.push('\u{2022}');
    second.push(' ');
    let d = fmt_duration(total);
    push_str(&mut second, d.as_str());
    proof {
        assert(second@ == song_count_text(tracks@.len()) + bullet() + duration_text(
            total_secs(tracks@),
        ));
    }
    let sub = vec!['O', 'n', ' ', 't', 'h', 'i', 's', ' ', 'd', 'e', 'v', 'i', 'c', 'e'];
    proof {
        assert(sub@ == on_this_device());
    }
    AlbumPage {
        title,
        artist,
        artist_id: None,
        artist_runs: Vec::new(),
        artist_thumbnail: None,
        subtitle: Some(string_of(&sub)),
        second_subtitle: Some(string_of(&second)),
        description: None,
        thumbnail,
        items: songs_of(tracks),
        continuation: None,
        explicit: false,
        playlist_id: None,
        in_library: false,
    }
}

/// The album page for a local album: its tracks, titled with the first track's album name and
/// attributed as `album_artist` says (no title or artist when the album has no tracks).
pub fn album_page(db: &Db, album_key: &str) -> (p: AlbumPage)
    requires
        totals_fit(tracks_in_album(db.stored(), album_key@)),
    ensures
        ({
            let ts = tracks_in_album(db.stored(), album_key@);
            is_page_of(
                p,
                if ts.len() > 0 {
                    Some(ts[0].album@)
                } else {
                    None
                },
                if ts.len() > 0 {
                    Some(album_artist_text(ts))
                } else {
                    None
                },
                ts,
            )
        }),
{
    let tracks = db.local_tracks(Some(album_key));
    let title = if tracks.len() > 0 {
        Some(tracks[0].album.clone())
    } else {
        None
    };
    let artist = if tracks.len() > 0 {
        Some(album_artist(&tracks))
    } else {
        None
    };
    page_of(title, artist, &tracks)
}

/// One local artist's page: every track that counts under `name`, titled with the name. It has no
/// artist line of its own.
pub fn artist_page(db: &Db, name: &str) -> (p: AlbumPage)
    requires
        totals_fit(tracks_by_artist(db.stored(), name@)),
    ensures
        is_page_of(p, Some(name@), None, tracks_by_artist(db.stored(), name@)),
{
    let all = db.local_tracks(None);
    let tracks = select_artist(&all, name);
    page_of(Some(name.to_owned()), None, &tracks)
}

/// Whether every running total of the tracks' lengths fits an `i64`, so that a page can add
/// them up.
pub fn lengths_fit(tracks: &[LocalTrack]) -> (b: bool)
    ensures
        b == totals_fit(tracks@),
{
    let mut total: i64 = 0;
    let mut i: usize = 0;
    proof {
        assert(tracks@.take(0) == Seq::<LocalTrack>::empty());
    }
    while i < tracks.len()
        invariant
            i <= tracks@.len(),
            total == total_secs(tracks@.take(i as int)),
            forall|k: int| 0 <= k <= i ==> i64::MIN <= #[trigger] total_secs(tracks@.take(k)) <= i64::MAX,
        decreases tracks@.len() - i,
    {
        proof {
            assert(tracks@.take(i + 1).drop_last() == tracks@.take(i as int));
        }
        match total.checked_add(tracks[i].duration_secs) {
            Some(t) => {
                total = t;
                i += 1;
            },
            None => {
                proof {
                    assert(!(i64::MIN <= total_secs(tracks@.take(i + 1)) <= i64::MAX));
                }
                return false;
            },
        }
    }
    proof {
        assert(tracks@.take(tracks@.len() as int) == tracks@);
    }
    true
}

/// One local artist's page, or `None` where the lengths of the artist's tracks add up past what
/// an `i64` holds (the one input on which `artist_page` cannot build the page).
pub fn checked_artist_page(db: &Db, name: &str) -> (r: Option<AlbumPage>)
    ensures
        r is None <==> !totals_fit(tracks_by_artist(db.stored(), name@)),
        r matches Some(p) ==> is_page_of(
            p,
            Some(name@),
            None,
            tracks_by_artist(db.stored(), name@),
        ),
{
    let all = db.local_tracks(None);
    let tracks = select_artist(&all, name);
    if lengths_fit(&tracks) {
        Some(artist_page(db, name))
    } else {
        None
    }
}

/// Whether some track of `ts` is filed under the album key `key`.
pub open spec fn has_album(ts: Seq<LocalTrack>, key: Seq<char>) -> bool {
    exists|j: int| 0 <= j < ts.len() && (#[trigger] ts[j]).album_key@ == key
}

/// Whether some track of `ts` counts under the primary artist `primary` (and so keeps that
/// artist's card on screen).
pub open spec fn has_artist(ts: Seq<LocalTrack>, primary: Seq<char>) -> bool {
    exists|j: int| 0 <= j < ts.len() && primary_artist_text((#[trigger] ts[j]).artist@) == primary
}

/// What forgetting the file at `path` reports, in the shape of a scan's removed ids: its song id,
/// plus its album's id when it was the album's last track, plus its artist's id when no other
/// track counts under its primary artist (a collaboration keeps the artist's card). A path that
/// was not stored reports the song id alone.
pub open spec fn forget_ids(all: Seq<LocalTrack>, path: Seq<char>) -> Seq<Seq<char>> {
    let song = song_prefix() + path;
    match path_index(all, path) {
        None => seq![song],
        Some(i) => {
            let gone = all[i];
            let others = without_paths(all, seq![path]);
            let a = if has_album(others, gone.album_key@) {
                Seq::empty()
            } else {
                seq![album_id_text(gone)]
            };
            let b = if has_artist(others, primary_artist_text(gone.artist@)) {
                Seq::empty()
            } else {
                seq![artist_id_text(gone)]
            };
            seq![song] + a + b
        },
    }
}

/// Forgets a single file the moment it turns out to be gone. Returns the ids the UI might still
/// be showing: the song, plus its album and artist when it was their last track.
pub fn forget_missing(db: &mut Db, path: &str) -> (r: Vec<String>)
    ensures
        final(db).stored() == without_paths(old(db).stored(), seq![path@]),
        final(db).folder_list() == old(db).folder_list(),
        final(db).version() == old(db).version(),
        r@.map_values(|s: String| s@) == forget_ids(old(db).stored(), path@),
{
    let all = db.local_tracks(None);
    let p = path.to_owned();
    let doomed = vec![p];
    proof {
        assert(doomed@.map_values(|s: String| s@) =~= seq![path@]);
    }
    db.delete_local_tracks(&doomed);
    let mut v = song_prefix_chars();
    push_str(&mut v, path);
    let mut ids: Vec<String> = Vec::new();
    ids.push(string_of(&v));
    let n = all.len();
    let mut g: usize = 0;
    while g < n && !crate::text::str_eq(all[g].path.as_str(), path)
        invariant
            n == all@.len(),
            g <= n,
            forall|j: int| 0 <= j < g ==> (#[trigger] all@[j]).path@ != path@,
        decreases n - g,
    {
        g += 1;
    }
    proof {
        lemma_path_index(all@, path@);
    }
    if g == n {
        proof {
            assert(path_index(all@, path@) is None);
            assert(ids@.map_values(|s: String| s@) =~= forget_ids(all@, path@));
        }
        return ids;
    }
    proof {
        assert(path_index(all@, path@) == Some(g as int));
    }
    let others = select_without(&all, path);
    let gone_primary = primary_artist(all[g].artist.as_str());
    let mut same_album = false;
    let mut same_artist = false;
    let mut j: usize = 0;
    while j < others.len()
        invariant
            j <= others@.len(),
            g < all@.len(),
            same_album == (exists|m: int| 0 <= m < j && (#[trigger] others@[m]).album_key@ == all@[g as int].album_key@),
            gone_primary@ == primary_artist_text(all@[g as int].artist@),
            same_artist == (exists|m: int| 0 <= m < j && primary_artist_text((#[trigger] others@[m]).artist@) == gone_primary@),
        decreases others@.len() - j,
    {
        let a = crate::text::str_eq(others[j].album_key.as_str(), all[g].album_key.as_str());
        let other_primary = primary_artist(others[j].artist.as_str());
        let b = crate::text::str_eq(other_primary.as_str(), gone_primary.as_str());
        proof {
            if a {
                assert(others@[j as int].album_key@ == all@[g as int].album_key@);
            }
            if b {
                assert(primary_artist_text(others@[j as int].artist@) == gone_primary@);
            }
        }
        same_album = same_album || a;
        same_artist = same_artist || b;
        j += 1;
    }
    let ghost base = ids@.map_values(|s: String| s@);
    if !same_album {
        ids.push(album_id_of(&all[g]));
    }
    let ghost mid = ids@.map_values(|s: String| s@);
    if !same_artist {
        ids.push(artist_id_of(&all[g]));
    }
    proof {
        let gone = all@[g as int];
        let a: Seq<Seq<char>> = if has_album(others@, gone.album_key@) {
            Seq::empty()
        } else {
            seq![album_id_text(gone)]
        };
        let b: Seq<Seq<char>> = if has_artist(others@, primary_artist_text(gone.artist@)) {
            Seq::empty()
        } else {
            seq![artist_id_text(gone)]
        };
        assert(base =~= seq![song_prefix() + path@]);
        assert(mid =~= base + a);
        assert(ids@.map_values(|s: String| s@) =~= base + a + b);
    }
    ids
}

/// The tracks of `ts` not stored under `path`.
fn select_without(ts: &[LocalTrack], path: &str) -> (r: Vec<LocalTrack>)
    ensures
        r@ == without_paths(ts@, seq![path@]),
{
    let mut r: Vec<LocalTrack> = Vec::new();
    let mut i: usize = 0;
    while i < ts.len()
        invariant
            i <= ts@.len(),
            r@ == without_paths(ts@.take(i as int), seq![path@]),
        decreases ts@.len() - i,
    {
        proof {
            assert(ts@.take(i + 1).drop_last() == ts@.take(i as int));
            assert(seq![path@].contains(ts@[i as int].path@) <==> ts@[i as int].path@ == path@) by {
                if seq![path@].contains(ts@[i as int].path@) {
                    let k = choose|k: int| 0 <= k < 1 && seq![path@][k] == ts@[i as int].path@;
                }
                if ts@[i as int].path@ == path@ {
                    assert(seq![path@][0] == path@);
                }
            }
        }
        if !crate::text::str_eq(ts[i].path.as_str(), path) {
            r.push(copy_track(&ts[i]));
        }
        i += 1;
    }
    proof {
        assert(ts@.take(ts@.len() as int) == ts@);
    }
    r
}

/// Whether the path `path` lies under the folder `base` (`Path::starts_with`): `base`'s
/// components are the leading components of `path`, by this platform's path rules.
pub uninterp spec fn path_under(path: Seq<char>, base: Seq<char>) -> bool;

/// `std::path::Path::starts_with`.
///
/// Trusted: the result is named, not described; the one fact stated is std's documented one that
/// a path starts with itself. What a component is follows the platform's path rules, which are
/// fixed for a build.
#[verifier::external_body]
fn path_starts_with(path: &str, base: &str) -> (b: bool)
    ensures
        b == path_under(path@, base@),
        path@ == base@ ==> b,
{
    std::path::Path::new(path).starts_with(base)
}

/// The folders of `list` that do not lie under `base`.
pub open spec fn not_under(list: Seq<Seq<char>>, base: Seq<char>) -> Seq<Seq<char>>
    decreases list.len(),
{
    if list.len() == 0 {
        list
    } else {
        let r = not_under(list.drop_last(), base);
        if path_under(list.last(), base) {
            r
        } else {
            r.push(list.last())
        }
    }
}

/// The folder list after adding `path`: unchanged when a listed folder already covers it;
/// otherwise the folders it covers are dropped and it is appended.
pub open spec fn folders_after_add(list: Seq<Seq<char>>, path: Seq<char>) -> Seq<Seq<char>> {
    if exists|i: int| 0 <= i < list.len() && path_under(path, #[trigger] list[i]) {
        list
    } else {
        not_under(list, path).push(path)
    }
}

/// The folders of `list` other than `path`.
pub open spec fn without_folder(list: Seq<Seq<char>>, path: Seq<char>) -> Seq<Seq<char>>
    decreases list.len(),
{
    if list.len() == 0 {
        list
    } else {
        let r = without_folder(list.drop_last(), path);
        if list.last() == path {
            r
        } else {
            r.push(list.last())
        }
    }
}

/// Adds a folder (no-op if it's already watched, or nested inside one that is). A new parent
/// supersedes the children already listed. Nesting is compared by path component, not by string
/// prefix.
pub fn add_folder(db: &mut Db, path: String)
    ensures
        final(db).folder_list() == folders_after_add(old(db).folder_list(), path@),
        final(db).stored() == old(db).stored(),
        final(db).version() == old(db).version(),
        old(db).folder_list().contains(path@) ==> final(db).folder_list() == old(db).folder_list(),
        exists|j: int|
            0 <= j < final(db).folder_list().len() && (#[trigger] final(db).folder_list()[j]
                == path@ || path_under(path@, final(db).folder_list()[j])),
{
    let list = db.folders();
    let ghost lv = list@.map_values(|f: String| f@);
    let mut i: usize = 0;
    while i < list.len()
        invariant
            i <= list@.len(),
            lv == list@.map_values(|f: String| f@),
            lv == old(db).folder_list(),
            db.folder_list() == old(db).folder_list(),
            db.stored() == old(db).stored(),
            db.version() == old(db).version(),
            forall|j: int| 0 <= j < i ==> !path_under(path@, #[trigger] lv[j]) && lv[j] != path@,
        decreases list@.len() - i,
    {
        if path_starts_with(path.as_str(), list[i].as_str()) {
            proof {
                assert(path_under(path@, lv[i as int]));
                assert(folders_after_add(lv, path@) == lv);
            }
            return;
        }
        i += 1;
    }
    proof {
        if lv.contains(path@) {
            let j = choose|j: int| 0 <= j < lv.len() && lv[j] == path@;
            assert(lv[j] != path@);
        }
    }
    let mut kept: Vec<String> = Vec::new();
    let mut k: usize = 0;
    while k < list.len()
        invariant
            k <= list@.len(),
            lv == list@.map_values(|f: String| f@),
            kept@.map_values(|f: String| f@) == not_under(lv.take(k as int), path@),
        decreases list@.len() - k,
    {
        proof {
            assert(lv.take(k + 1).drop_last() == lv.take(k as int));
            assert(lv.take(k + 1).last() == list@[k as int]@);
        }
        if !path_starts_with(list[k].as_str(), path.as_str()) {
            let ghost before = kept@;
            kept.push(list[k].clone());
            proof {
                assert(kept@.map_values(|f: String| f@) =~= before.map_values(|f: String| f@).push(
                    list@[k as int]@,
                ));
            }
        }
        k += 1;
    }
    proof {
        assert(lv.take(lv.len() as int) == lv);
    }
    let ghost before = kept@;
    let ghost pv = path@;
    kept.push(path);
    proof {
        assert(kept@.map_values(|f: String| f@) =~= before.map_values(|f: String| f@).push(pv));
        assert(!(exists|j: int| 0 <= j < lv.len() && path_under(pv, #[trigger] lv[j])));
    }
    db.set_folders(kept);
    proof {
        let f = db.folder_list();
        assert(f[f.len() - 1] == pv);
    }
}

/// Stops watching a folder.
pub fn remove_folder(db: &mut Db, path: &str)
    ensures
        final(db).folder_list() == without_folder(old(db).folder_list(), path@),
        final(db).stored() == old(db).stored(),
        final(db).version() == old(db).version(),
{
    let list = db.folders();
    let ghost lv = list@.map_values(|f: String| f@);
    let mut kept: Vec<String> = Vec::new();
    let mut k: usize = 0;
    while k < list.len()
        invariant
            k <= list@.len(),
            lv == list@.map_values(|f: String| f@),
            kept@.map_values(|f: String| f@) == without_folder(lv.take(k as int), path@),
        decreases list@.len() - k,
    {
        proof {
            assert(lv.take(k + 1).drop_last() == lv.take(k as int));
            assert(lv.take(k + 1).last() == list@[k as int]@);
        }
        if !crate::text::str_eq(list[k].as_str(), path) {
            let ghost before = kept@;
            kept.push(list[k].clone());
            proof {
                assert(kept@.map_values(|f: String| f@) =~= before.map_values(|f: String| f@).push(
                    list@[k as int]@,
                ));
            }
        }
        k += 1;
    }
    proof {
        assert(lv.take(lv.len() as int) == lv);
    }
    db.set_folders(kept);
}

/// The version of the tag rules: bumped whenever reading a file starts producing different
/// titles, artists or album keys, so that the next scan re-reads everything once.
pub const SCAN_VERSION: &'static str = "6";

/// The characters of `SCAN_VERSION`.
pub open spec fn scan_version() -> Seq<char> {
    seq!['6']
}

fn scan_version_str() -> (s: &'static str)
    ensures
        s@ == scan_version(),
{
    proof {
        reveal_strlit("6");
    }
    "6"
}

/// Whether the stored tracks were read under older tag rules, so that every file must be read
/// again.
pub open spec fn must_reread(version: Option<Seq<char>>) -> bool {
    version != Some(scan_version())
}

/// Whether a scan has to read the file at `path`, last modified at `mtime`: always after the tag
/// rules changed, else when nothing is stored for it or it changed since.
pub open spec fn needs_read_spec(db_version: Option<Seq<char>>, stored: Seq<LocalTrack>, path: Seq<char>, mtime: i64) -> bool {
    must_reread(db_version) || match path_index(stored, path) {
        Some(i) => stored[i].mtime != mtime,
        None => true,
    }
}

/// Whether a scan has to read this file's tags. Files whose mtime hasn't moved keep their stored
/// tags, so a rescan of an unchanged collection reads nothing.
pub fn needs_read(db: &Db, path: &str, mtime: i64) -> (b: bool)
    ensures
        b == needs_read_spec(db.version(), db.stored(), path@, mtime),
{
    let all = db.local_tracks(None);
    let current = match &db.scan_version {
        Some(v) => crate::text::str_eq(v.as_str(), scan_version_str()),
        None => false,
    };
    proof {
        lemma_path_index(all@, path@);
    }
    if !current {
        return true;
    }
    let n = all.len();
    let mut i: usize = 0;
    while i < n && !crate::text::str_eq(all[i].path.as_str(), path)
        invariant
            n == all@.len(),
            i <= n,
            forall|j: int| 0 <= j < i ==> (#[trigger] all@[j]).path@ != path@,
        decreases n - i,
    {
        i += 1;
    }
    if i == n {
        proof {
            assert(path_index(all@, path@) is None);
        }
        true
    } else {
        proof {
            assert(path_index(all@, path@) == Some(i as int));
        }
        all[i].mtime != mtime
    }
}

/// Every card id a list of tracks puts on screen: each track's album id and artist id, in order.
pub open spec fn card_ids(ts: Seq<LocalTrack>) -> Seq<Seq<char>>
    decreases ts.len(),
{
    if ts.len() == 0 {
        Seq::empty()
    } else {
        card_ids(ts.drop_last()) + seq![album_id_text(ts.last()), artist_id_text(ts.last())]
    }
}

/// The ids of `before` that `after` no longer has, each once, in order of first appearance.
pub open spec fn vanished(before: Seq<Seq<char>>, after: Seq<Seq<char>>) -> Seq<Seq<char>>
    decreases before.len(),
{
    if before.len() == 0 {
        Seq::empty()
    } else {
        let r = vanished(before.drop_last(), after);
        let x = before.last();
        if after.contains(x) || r.contains(x) {
            r
        } else {
            r.push(x)
        }
    }
}

/// The paths of the stored tracks that the walk did not find, in stored order.
pub open spec fn gone_paths(stored: Seq<LocalTrack>, found: Seq<Seq<char>>) -> Seq<Seq<char>>
    decreases stored.len(),
{
    if stored.len() == 0 {
        Seq::empty()
    } else {
        let r = gone_paths(stored.drop_last(), found);
        if found.contains(stored.last().path@) {
            r
        } else {
            r.push(stored.last().path@)
        }
    }
}

/// What the Local tab renders. `removed` is what vanished from disk since the last scan: the UI
/// prunes those ids out of Shortcuts and recents at once.
#[derive(Debug)]
pub struct LocalLibrary {
    pub folders: Vec<String>,
    pub albums: Vec<BrowseItem>,
    pub artists: Vec<BrowseItem>,
    pub songs: Vec<SongItem>,
    pub removed: Vec<String>,
}

impl Default for LocalLibrary {
    fn default() -> (l: LocalLibrary)
        ensures
            l.folders@.len() == 0,
            l.albums@.len() == 0,
            l.artists@.len() == 0,
            l.songs@.len() == 0,
            l.removed@.len() == 0,
    {
        LocalLibrary {
            folders: Vec::new(),
            albums: Vec::new(),
            artists: Vec::new(),
            songs: Vec::new(),
            removed: Vec::new(),
        }
    }
}

/// The library as the tracks `ts` and the folder list show it, with `removed` as given.
pub open spec fn is_library_of(
    l: LocalLibrary,
    folders: Seq<Seq<char>>,
    ts: Seq<LocalTrack>,
    removed: Seq<Seq<char>>,
) -> bool {
    &&& l.folders@.map_values(|f: String| f@) == folders
    &&& l.albums@.len() == album_keys(ts).len()
    &&& album_cards_cover(l.albums@, ts)
    &&& sorted_by_title(l.albums@)
    &&& l.artists@.len() == artist_names(ts).len()
    &&& artist_cards_cover(l.artists@, ts)
    &&& sorted_by_title(l.artists@)
    &&& l.songs@.len() == ts.len()
    &&& (forall|i: int| 0 <= i < ts.len() ==> is_song_of(#[trigger] l.songs@[i], ts[i]))
    &&& l.removed@.map_values(|s: String| s@) == removed
}

/// The card ids of the tracks.
fn card_ids_of(ts: &[LocalTrack]) -> (r: Vec<String>)
    ensures
        r@.map_values(|s: String| s@) == card_ids(ts@),
{
    let mut r: Vec<String> = Vec::new();
    let mut i: usize = 0;
    while i < ts.len()
        invariant
            i <= ts@.len(),
            r@.map_values(|s: String| s@) == card_ids(ts@.take(i as int)),
        decreases ts@.len() - i,
    {
        proof {
            assert(ts@.take(i + 1).drop_last() == ts@.take(i as int));
        }
        let ghost before = r@;
        let a = album_id_of(&ts[i]);
        let b = artist_id_of(&ts[i]);
        r.push(a);
        r.push(b);
        proof {
            assert(r@.map_values(|s: String| s@) =~= before.map_values(|s: String| s@) + seq![
                album_id_text(ts@[i as int]),
                artist_id_text(ts@[i as int]),
            ]);
        }
        i += 1;
    }
    proof {
        assert(ts@.take(ts@.len() as int) == ts@);
    }
    r
}

/// Re-reads the library after a walk over the watched folders. `found` is every audio file the
/// walk saw; `fresh` holds the tracks read from those of them that `needs_read` picked. The
/// fresh tracks are stored, the files that left the disk are forgotten, and the whole library is
/// returned, with `removed` naming the ids the UI may still show: the vanished songs, plus the
/// albums and artists that lost their last track.
pub fn scan(db: &mut Db, found: &[String], fresh: &[LocalTrack]) -> (l: LocalLibrary)
    ensures
        ({
            let old_ts = old(db).stored();
            let gone = gone_paths(old_ts, found@.map_values(|s: String| s@));
            let new_ts = without_paths(upsert_all(old_ts, fresh@), gone);
            &&& final(db).stored() == new_ts
            &&& final(db).version() == Some(scan_version())
            &&& final(db).folder_list() == old(db).folder_list()
            &&& is_library_of(
                l,
                old(db).folder_list(),
                new_ts,
                gone.map_values(|p: Seq<char>| song_prefix() + p) + vanished(
                    card_ids(old_ts),
                    card_ids(new_ts),
                ),
            )
            &&& l.removed@.map_values(|s: String| s@).no_duplicates()
        }),
{
    let known = db.local_tracks(None);
    let before = card_ids_of(&known);
    let ghost fv = found@.map_values(|s: String| s@);
    db.put_local_tracks(fresh);
    let current = match &db.scan_version {
        Some(v) => crate::text::str_eq(v.as_str(), scan_version_str()),
        None => false,
    };
    if !current {
        db.set_version(scan_version_str().to_owned());
    }
    let mut gone: Vec<String> = Vec::new();
    let mut i: usize = 0;
    while i < known.len()
        invariant
            i <= known@.len(),
            fv == found@.map_values(|s: String| s@),
            gone@.map_values(|s: String| s@) == gone_paths(known@.take(i as int), fv),
        decreases known@.len() - i,
    {
        proof {
            assert(known@.take(i + 1).drop_last() == known@.take(i as int));
        }
        if !contains_text(found, known[i].path.as_str()) {
            let ghost g0 = gone@;
            gone.push(known[i].path.clone());
            proof {
                assert(gone@.map_values(|s: String| s@) =~= g0.map_values(|s: String| s@).push(
                    known@[i as int].path@,
                ));
            }
        }
        i += 1;
    }
    proof {
        assert(known@.take(known@.len() as int) == known@);
    }
    db.delete_local_tracks(&gone);
    let tracks = db.local_tracks(None);
    let after = card_ids_of(&tracks);
    let ghost gv = gone@.map_values(|s: String| s@);
    let mut removed: Vec<String> = Vec::new();
    let mut j: usize = 0;
    while j < gone.len()
        invariant
            j <= gone@.len(),
            gv == gone@.map_values(|s: String| s@),
            removed@.map_values(|s: String| s@) == gv.take(j as int).map_values(
                |p: Seq<char>| song_prefix() + p,
            ),
        decreases gone@.len() - j,
    {
        let mut v = song_prefix_chars();
        push_str(&mut v, gone[j].as_str());
        let ghost r0 = removed@;
        removed.push(string_of(&v));
        proof {
            assert(gv.take(j + 1) == gv.take(j as int).push(gv[j as int]));
            assert(removed@.map_values(|s: String| s@) =~= r0.map_values(|s: String| s@).push(
                song_prefix() + gv[j as int],
            ));
            assert(gv.take(j + 1).map_values(|p: Seq<char>| song_prefix() + p) =~= gv.take(
                j as int,
            ).map_values(|p: Seq<char>| song_prefix() + p).push(song_prefix() + gv[j as int]));
        }
        j += 1;
    }
    proof {
        assert(gv.take(gv.len() as int) == gv);
    }
    let ghost bv = before@.map_values(|s: String| s@);
    let ghost av = after@.map_values(|s: String| s@);
    let ghost prefix = removed@.map_values(|s: String| s@);
    let mut lost: Vec<String> = Vec::new();
    let mut k: usize = 0;
    while k < before.len()
        invariant
            k <= before@.len(),
            bv == before@.map_values(|s: String| s@),
            av == after@.map_values(|s: String| s@),
            lost@.map_values(|s: String| s@) == vanished(bv.take(k as int), av),
        decreases before@.len() - k,
    {
        proof {
            assert(bv.take(k + 1).drop_last() == bv.take(k as int));
            assert(bv.take(k + 1).last() == before@[k as int]@);
        }
        let x = before[k].as_str();
        if !contains_text(&after, x) && !contains_text(&lost, x) {
            let ghost l0 = lost@;
            lost.push(before[k].clone());
            proof {
                assert(lost@.map_values(|s: String| s@) =~= l0.map_values(|s: String| s@).push(
                    before@[k as int]@,
                ));
            }
        }
        k += 1;
    }
    proof {
        assert(bv.take(bv.len() as int) == bv);
    }
    let mut q: usize = 0;
    let ghost lv = lost@.map_values(|s: String| s@);
    while q < lost.len()
        invariant
            q <= lost@.len(),
            lv == lost@.map_values(|s: String| s@),
            removed@.map_values(|s: String| s@) == prefix + lv.take(q as int),
        decreases lost@.len() - q,
    {
        let ghost r0 = removed@;
        removed.push(lost[q].clone());
        proof {
            assert(lv.take(q + 1) == lv.take(q as int).push(lv[q as int]));
            assert(removed@.map_values(|s: String| s@) =~= r0.map_values(|s: String| s@).push(
                lv[q as int],
            ));
        }
        q += 1;
    }
    proof {
        assert(lv.take(lv.len() as int) == lv);
    }
    proof {
        lemma_removed_distinct(known@, fv, tracks@);
    }
    LocalLibrary {
        folders: db.folders(),
        albums: albums_of(&tracks),
        artists: artists_of(&tracks),
        songs: songs_of(&tracks),
        removed,
    }
}

/// A tag value as the library keeps it: trimmed, and absent when blank.
pub open spec fn clean_tag(raw: Option<Seq<char>>) -> Option<Seq<char>> {
    match raw {
        Some(s) => if trim(s).len() > 0 {
            Some(trim(s))
        } else {
            None
        },
        None => None,
    }
}

/// Executable `clean_tag`.
fn clean(raw: &Option<String>) -> (r: Option<String>)
    ensures
        opt_seq(r) == clean_tag(opt_seq(*raw)),
{
    match raw {
        Some(s) => {
            let v = chars_of(s.as_str());
            let (a, b) = trim_bounds(&v, 0, v.len());
            proof {
                assert(v@.subrange(0, v@.len() as int) == v@);
            }
            if a < b {
                Some(string_of(&v[a..b]))
            } else {
                None
            }
        },
        None => None,
    }
}

/// The tags one file carries, as the tag reader handed them over (untrimmed), with its length.
pub struct TrackTags {
    pub title: Option<String>,
    pub artist: Option<String>,
    pub album: Option<String>,
    pub album_artist: Option<String>,
    pub track_no: Option<u32>,
    pub duration_secs: i64,
}

/// Where a file's artwork is to be looked for. A file of a tagged album takes the album's
/// picture (cached under the album key) or an image next to it; any other file only its own
/// embedded picture (cached under a key of its own).
#[derive(Debug, PartialEq)]
pub enum CoverLookup {
    Album { key: String },
    FileOnly { key: String },
}

/// A file's track, and where its artwork is to be found.
pub struct TrackRead {
    pub track: LocalTrack,
    pub cover: CoverLookup,
}

/// "Local music": the album of an untagged file whose folder has no name.
pub open spec fn local_music() -> Seq<char> {
    seq!['L', 'o', 'c', 'a', 'l', ' ', 'm', 'u', 's', 'i', 'c']
}

/// The cache key of a file's own picture.
pub open spec fn file_cover_key(path: Seq<char>) -> Seq<char> {
    seq!['f', 'i', 'l', 'e', '-'] + digest_text(path)
}

/// The track a file's tags make. Missing tags fall back to the filename ("Artist - Title") and the
/// folder: with no album tag the folder is the album, keyed by the folder itself.
pub open spec fn is_track_read(
    r: TrackRead,
    path: Seq<char>,
    mtime: i64,
    stem: Seq<char>,
    dir: Option<Seq<char>>,
    dir_name: Option<Seq<char>>,
    tags: TrackTags,
) -> bool {
    let title = clean_tag(opt_seq(tags.title));
    let artist = clean_tag(opt_seq(tags.artist));
    let album = clean_tag(opt_seq(tags.album));
    let album_artist = clean_tag(opt_seq(tags.album_artist));
    let from_name = filename_parts(stem);
    let t = r.track;
    &&& t.path@ == path
    &&& t.title@ == match title {
        Some(x) => x,
        None => from_name.1,
    }
    &&& t.artist@ == match artist {
        Some(x) => x,
        None => match from_name.0 {
            Some(x) => x,
            None => unknown_artist(),
        },
    }
    &&& opt_seq(t.album_artist) == album_artist
    &&& t.track_no == match tags.track_no {
        Some(n) => n as i64,
        None => 0,
    }
    &&& t.duration_secs == tags.duration_secs
    &&& t.cover is None
    &&& t.mtime == mtime
    &&& match album {
        Some(a) => {
            &&& t.album@ == a
            &&& t.album_key@ == tagged_album_key_text(a, album_artist, dir)
            &&& r.cover matches CoverLookup::Album { key } && key@ == t.album_key@
        },
        None => {
            let name = match dir_name {
                Some(d) => d,
                None => local_music(),
            };
            &&& t.album@ == name
            &&& t.album_key@ == folder_key_text(dir, name)
            &&& r.cover matches CoverLookup::FileOnly { key } && key@ == file_cover_key(path)
        },
    }
}

/// One file's track, from its tags. `stem` is the file name without extension, `dir` the
/// folder's path and `dir_name` its last component. A file the tag reader cannot parse at all
/// comes with no tags and is still listed, from its filename.
pub fn track_from_tags(
    path: String,
    mtime: i64,
    stem: &str,
    dir: Option<&str>,
    dir_name: Option<&str>,
    tags: TrackTags,
) -> (r: TrackRead)
    ensures
        is_track_read(
            r,
            path@,
            mtime,
            stem@,
            match dir {
                Some(d) => Some(d@),
                None => None,
            },
            match dir_name {
                Some(d) => Some(d@),
                None => None,
            },
            tags,
        ),
{
    let title = clean(&tags.title);
    let artist = clean(&tags.artist);
    let album = clean(&tags.album);
    let album_artist = clean(&tags.album_artist);
    let (from_artist, from_title) = split_filename(stem);
    let title = match title {
        Some(t) => t,
        None => from_title,
    };
    let artist = match artist {
        Some(a) => a,
        None => match from_artist {
            Some(a) => a,
            None => string_of(&unknown_artist_chars()),
        },
    };
    let track_no: i64 = match tags.track_no {
        Some(n) => n as i64,
        None => 0,
    };
    let (album_name, album_key, cover) = match album {
        Some(a) => {
            let aa = match &album_artist {
                Some(x) => Some(x.as_str()),
                None => None,
            };
            let key = tagged_album_key(a.as_str(), aa, dir);
            let cover = CoverLookup::Album { key: key.clone() };
            (a, key, cover)
        },
        None => {
            let name = match dir_name {
                Some(d) => d.to_owned(),
                None => {
                    let v = vec!['L', 'o', 'c', 'a', 'l', ' ', 'm', 'u', 's', 'i', 'c'];
                    proof {
                        assert(v@ == local_music());
                    }
                    string_of(&v)
                },
            };
            let key = folder_key(dir, name.as_str());
            let mut ck = vec!['f', 'i', 'l', 'e', '-'];
            let digest = short_digest(path.as_str());
            push_str(&mut ck, digest.as_str());
            proof {
                assert(ck@ == file_cover_key(path@));
            }
            let cover = CoverLookup::FileOnly { key: string_of(&ck) };
            (name, key, cover)
        },
    };
    let track = LocalTrack {
        path,
        title,
        artist,
        album: album_name,
        album_key,
        album_artist,
        track_no,
        duration_secs: tags.duration_secs,
        cover: None,
        mtime,
    };
    TrackRead { track, cover }
}

/// Everything the player needs for a local file: the "stream url" is the path itself, it never
/// expires, and it carries no metadata of its own.
pub struct PlaybackData {
    pub video_id: String,
    pub stream_url: String,
    pub itag: i64,
    pub headers: Vec<(String, String)>,
    pub expires_in_seconds: i64,
    pub playback_ping: Option<String>,
    pub title: Option<String>,
    pub artists: Option<String>,
    pub duration: Option<String>,
    pub is_video: Option<bool>,
    pub thumbnail: Option<String>,
    pub stream_client: String,
}

/// "local".
pub open spec fn local_client() -> Seq<char> {
    seq!['l', 'o', 'c', 'a', 'l']
}

/// Playback data for a local file. `is_file` says whether a regular file is at `path` right now:
/// when it is gone (deleted since the scan) there is nothing to play, and the queue skips it like
/// any other unplayable track.
pub fn playback_data(video_id: &str, path: &str, is_file: bool) -> (r: Result<PlaybackData, ()>)
    ensures
        is_file <==> r is Ok,
        r matches Ok(d) ==> {
            &&& d.video_id@ == video_id@
            &&& d.stream_url@ == path@
            &&& d.itag == 0
            &&& d.headers@.len() == 0
            &&& d.expires_in_seconds == i64::MAX / 2
            &&& d.playback_ping is None
            &&& d.title is None
            &&& d.artists is None
            &&& d.duration is None
            &&& d.is_video is None
            &&& d.thumbnail is None
            &&& d.stream_client@ == local_client()
        },
{
    if !is_file {
        return Err(());
    }
    let c = vec!['l', 'o', 'c', 'a', 'l'];
    proof {
        assert(c@ == local_client());
    }
    Ok(PlaybackData {
        video_id: video_id.to_owned(),
        stream_url: path.to_owned(),
        itag: 0,
        headers: Vec::new(),
        expires_in_seconds: i64::MAX / 2,
        playback_ping: None,
        title: None,
        artists: None,
        duration: None,
        is_video: None,
        thumbnail: None,
        stream_client: string_of(&c),
    })
}

/// A local song's id leads back to its file: it is recognised as local, and `song_path` gives
/// the track's path.
pub proof fn lemma_song_id_round_trip(t: LocalTrack)
    ensures
        has_prefix(song_id_text(t), song_prefix()),
        song_id_text(t).skip(song_prefix().len() as int) == t.path@,
{
    assert(song_id_text(t).subrange(0, 6) == song_prefix());
    assert(song_id_text(t).skip(6) == t.path@);
}

/// An album key is filename-sized and filename-safe: at most `KEY_CHARS` characters plus a dash
/// and 12 digest digits, each a letter or digit, a `-`, or a lowercase hex digit.
pub proof fn lemma_album_key_shape(artist: Seq<char>, album: Seq<char>)
    ensures
        album_key_text(artist, album).len() <= KEY_CHARS + 13,
        forall|i: int|
            0 <= i < album_key_text(artist, album).len() ==> {
                let c = #[trigger] album_key_text(artist, album)[i];
                alphanumeric(c) || c == '-' || ('0' <= c <= '9') || ('a' <= c <= 'f')
            },
{
    let raw = key_source(artist, album);
    let m = lowercase(raw).map_values(|c: char| key_char(c));
    let s = sanitized(raw);
    assert forall|i: int| 0 <= i < s.len() implies alphanumeric(#[trigger] s[i]) || s[i] == '-' by {
        assert(s[i] == m[i]);
    }
    if raw.len() > KEY_CHARS {
        let d = digest_text(raw);
        lemma_hex_fixed_chars((fnv1a(encode_utf8(raw)) % 0x1_0000_0000_0000u64) as nat, 12);
        let k = s + seq!['-'] + d;
        assert forall|i: int| 0 <= i < k.len() implies {
            let c = #[trigger] k[i];
            alphanumeric(c) || c == '-' || ('0' <= c <= '9') || ('a' <= c <= 'f')
        } by {
            if i < s.len() {
                assert(k[i] == s[i]);
            } else if i == s.len() {
            } else {
                assert(k[i] == d[i - s.len() - 1]);
            }
        }
    }
}

/// `hex_fixed` has the requested width and only lowercase hex digits.
pub proof fn lemma_hex_fixed_chars(n: nat, width: nat)
    ensures
        hex_fixed(n, width).len() == width,
        forall|i: int|
            0 <= i < width ==> ('0' <= #[trigger] hex_fixed(n, width)[i] <= '9') || ('a'
                <= hex_fixed(n, width)[i] <= 'f'),
    decreases width,
{
    if width > 0 {
        lemma_hex_fixed_chars(n / 16, (width - 1) as nat);
        let h = hex_fixed(n, width);
        assert forall|i: int| 0 <= i < width implies ('0' <= #[trigger] h[i] <= '9') || ('a' <= h[i]
            <= 'f') by {
            if i < width - 1 {
                assert(h[i] == hex_fixed(n / 16, (width - 1) as nat)[i]);
            }
        }
    }
}

/// The folders kept by `not_under` are listed folders that do not lie under `base`.
pub proof fn lemma_not_under(list: Seq<Seq<char>>, base: Seq<char>)
    ensures
        forall|i: int|
            0 <= i < not_under(list, base).len() ==> list.contains(#[trigger] not_under(list, base)[i])
                && !path_under(not_under(list, base)[i], base),
    decreases list.len(),
{
    if list.len() > 0 {
        lemma_not_under(list.drop_last(), base);
        let r = not_under(list.drop_last(), base);
        assert forall|i: int| 0 <= i < r.len() implies list.contains(#[trigger] r[i]) by {
            assert(list.drop_last().contains(r[i]));
            let k = choose|k: int| 0 <= k < list.drop_last().len() && list.drop_last()[k] == r[i];
            assert(list[k] == r[i]);
        }
        assert(list[list.len() - 1] == list.last());
    }
}

/// Adding a folder never nests watched folders: a folder already covered leaves the list as it
/// is; otherwise it is appended, and every other folder left in the list was listed before and
/// does not lie under it.
pub proof fn lemma_add_folder_never_nests(list: Seq<Seq<char>>, path: Seq<char>)
    ensures
        (exists|i: int| 0 <= i < list.len() && path_under(path, #[trigger] list[i]))
            ==> folders_after_add(list, path) == list,
        !(exists|i: int| 0 <= i < list.len() && path_under(path, #[trigger] list[i])) ==> {
            let r = folders_after_add(list, path);
            &&& r.last() == path
            &&& forall|i: int|
                0 <= i < r.len() - 1 ==> list.contains(#[trigger] r[i]) && !path_under(r[i], path)
        },
{
    lemma_not_under(list, path);
    if !(exists|i: int| 0 <= i < list.len() && path_under(path, #[trigger] list[i])) {
        let r = folders_after_add(list, path);
        let k = not_under(list, path);
        assert forall|i: int| 0 <= i < r.len() - 1 implies list.contains(#[trigger] r[i])
            && !path_under(r[i], path) by {
            assert(r[i] == k[i]);
        }
    }
}

/// Forgetting a file twice is harmless: the second time reports only the song id.
pub proof fn lemma_forget_twice(all: Seq<LocalTrack>, path: Seq<char>)
    requires
        paths_distinct(all),
    ensures
        forget_ids(without_paths(all, seq![path]), path) == seq![song_prefix() + path],
{
    let w = without_paths(all, seq![path]);
    lemma_without_paths(all, seq![path]);
    lemma_path_index(w, path);
    if path_index(w, path) is Some {
        let i = path_index(w, path)->0;
        assert(seq![path].contains(w[i].path@)) by {
            assert(seq![path][0] == path);
        }
    }
}

/// Storing a track is a write that a read gives back: the track is then stored, and every other
/// stored track keeps its place.
pub proof fn lemma_upsert_stores(s: Seq<LocalTrack>, t: LocalTrack)
    requires
        paths_distinct(s),
    ensures
        upsert(s, t).contains(t),
        paths_distinct(upsert(s, t)),
        forall|i: int|
            0 <= i < s.len() && s[i].path@ != t.path@ ==> #[trigger] upsert(s, t)[i] == s[i],
        upsert(s, t).len() == s.len() + (if path_index(s, t.path@) is Some {
            0int
        } else {
            1int
        }),
{
    lemma_path_index(s, t.path@);
    lemma_upsert_distinct(s, t);
    let u = upsert(s, t);
    match path_index(s, t.path@) {
        Some(i) => {
            assert(u[i] == t);
        },
        None => {
            assert(u[s.len() as int] == t);
        },
    }
}

proof fn lemma_gone_paths_empty(ts: Seq<LocalTrack>, found: Seq<Seq<char>>)
    requires
        forall|i: int| 0 <= i < ts.len() ==> found.contains(#[trigger] ts[i].path@),
    ensures
        gone_paths(ts, found).len() == 0,
    decreases ts.len(),
{
    if ts.len() > 0 {
        assert forall|i: int| 0 <= i < ts.drop_last().len() implies found.contains(
            #[trigger] ts.drop_last()[i].path@,
        ) by {
            assert(ts.drop_last()[i] == ts[i]);
        }
        lemma_gone_paths_empty(ts.drop_last(), found);
        assert(ts[ts.len() - 1] == ts.last());
    }
}

proof fn lemma_vanished_self(before: Seq<Seq<char>>, after: Seq<Seq<char>>)
    requires
        forall|i: int| 0 <= i < before.len() ==> after.contains(#[trigger] before[i]),
    ensures
        vanished(before, after).len() == 0,
    decreases before.len(),
{
    if before.len() > 0 {
        assert forall|i: int| 0 <= i < before.drop_last().len() implies after.contains(
            #[trigger] before.drop_last()[i],
        ) by {
            assert(before.drop_last()[i] == before[i]);
        }
        lemma_vanished_self(before.drop_last(), after);
        assert(before[before.len() - 1] == before.last());
    }
}

proof fn lemma_without_nothing(s: Seq<LocalTrack>)
    ensures
        without_paths(s, Seq::empty()) == s,
    decreases s.len(),
{
    if s.len() > 0 {
        lemma_without_nothing(s.drop_last());
        assert(s.drop_last().push(s.last()) == s);
    }
}

/// A rescan that finds every stored file and reads nothing new reports nothing removed and keeps
/// the stored tracks as they are.
pub proof fn lemma_rescan_reports_nothing(ts: Seq<LocalTrack>, found: Seq<Seq<char>>)
    requires
        forall|i: int| 0 <= i < ts.len() ==> found.contains(#[trigger] ts[i].path@),
    ensures
        ({
            let gone = gone_paths(ts, found);
            let new_ts = without_paths(upsert_all(ts, Seq::empty()), gone);
            &&& new_ts == ts
            &&& gone.map_values(|p: Seq<char>| song_prefix() + p) + vanished(
                card_ids(ts),
                card_ids(new_ts),
            ) == Seq::<Seq<char>>::empty()
        }),
{
    lemma_gone_paths_empty(ts, found);
    let gone = gone_paths(ts, found);
    assert(gone == Seq::<Seq<char>>::empty());
    lemma_without_nothing(ts);
    let c = card_ids(ts);
    lemma_vanished_self(c, c);
    assert(gone.map_values(|p: Seq<char>| song_prefix() + p) + vanished(c, c) =~= Seq::<
        Seq<char>,
    >::empty());
}

/// Every track `upsert_all` leaves was stored before or is one of those stored now.
proof fn lemma_upsert_all_from(s: Seq<LocalTrack>, ts: Seq<LocalTrack>)
    ensures
        forall|i: int|
            0 <= i < upsert_all(s, ts).len() ==> s.contains(#[trigger] upsert_all(s, ts)[i])
                || ts.contains(upsert_all(s, ts)[i]),
    decreases ts.len(),
{
    if ts.len() > 0 {
        lemma_upsert_all_from(s, ts.drop_last());
        let prev = upsert_all(s, ts.drop_last());
        let t = ts.last();
        let u = upsert_all(s, ts);
        assert(ts.contains(t)) by {
            assert(ts[ts.len() - 1] == t);
        }
        lemma_path_index(prev, t.path@);
        assert forall|i: int| 0 <= i < u.len() implies s.contains(#[trigger] u[i]) || ts.contains(
            u[i],
        ) by {
            let from_prev = match path_index(prev, t.path@) {
                Some(k) => i != k,
                None => i < prev.len(),
            };
            if from_prev {
                assert(u[i] == prev[i]);
                assert(s.contains(prev[i]) || ts.drop_last().contains(prev[i]));
                if ts.drop_last().contains(prev[i]) {
                    let k = choose|k: int| 0 <= k < ts.drop_last().len() && ts.drop_last()[k]
                        == prev[i];
                    assert(ts[k] == prev[i]);
                }
            } else {
                assert(u[i] == t);
            }
        }
    }
}

/// What `without_paths` keeps was there, and its path is not listed.
proof fn lemma_without_paths_from(s: Seq<LocalTrack>, paths: Seq<Seq<char>>)
    ensures
        forall|i: int|
            0 <= i < without_paths(s, paths).len() ==> s.contains(
                #[trigger] without_paths(s, paths)[i],
            ) && !paths.contains(without_paths(s, paths)[i].path@),
    decreases s.len(),
{
    if s.len() > 0 {
        lemma_without_paths_from(s.drop_last(), paths);
        let r = without_paths(s.drop_last(), paths);
        let w = without_paths(s, paths);
        assert forall|i: int| 0 <= i < w.len() implies s.contains(#[trigger] w[i]) && !paths.contains(
            w[i].path@,
        ) by {
            if i < r.len() {
                assert(w[i] == r[i]);
                let k = choose|k: int| 0 <= k < s.drop_last().len() && s.drop_last()[k] == r[i];
                assert(s[k] == r[i]);
            } else {
                assert(w[i] == s.last());
                assert(s[s.len() - 1] == s.last());
            }
        }
    }
}

/// A stored track whose file was not found has its path among the gone ones.
proof fn lemma_gone_paths_has(stored: Seq<LocalTrack>, found: Seq<Seq<char>>, j: int)
    requires
        0 <= j < stored.len(),
        !found.contains(stored[j].path@),
    ensures
        gone_paths(stored, found).contains(stored[j].path@),
    decreases stored.len(),
{
    let g = gone_paths(stored, found);
    if j == stored.len() - 1 {
        assert(g[g.len() - 1] == stored.last().path@);
    } else {
        assert(stored.drop_last()[j] == stored[j]);
        lemma_gone_paths_has(stored.drop_last(), found, j);
        let r = gone_paths(stored.drop_last(), found);
        let k = choose|k: int| 0 <= k < r.len() && r[k] == stored[j].path@;
        if !found.contains(stored.last().path@) {
            assert(g[k] == r[k]);
        }
    }
}

/// The gone paths are stored paths, each once when the stored paths are distinct.
proof fn lemma_gone_paths_distinct(s: Seq<LocalTrack>, f: Seq<Seq<char>>)
    requires
        paths_distinct(s),
    ensures
        gone_paths(s, f).no_duplicates(),
        forall|i: int|
            0 <= i < gone_paths(s, f).len() ==> exists|j: int|
                0 <= j < s.len() && (#[trigger] s[j]).path@ == #[trigger] gone_paths(s, f)[i],
    decreases s.len(),
{
    if s.len() > 0 {
        let s0 = s.drop_last();
        assert forall|i: int, j: int| 0 <= i < j < s0.len() implies (#[trigger] s0[i]).path@
            != (#[trigger] s0[j]).path@ by {
            assert(s0[i] == s[i] && s0[j] == s[j]);
        }
        lemma_gone_paths_distinct(s0, f);
        let r = gone_paths(s0, f);
        let g = gone_paths(s, f);
        let n = s.len() - 1;
        assert(s[n] == s.last());
        assert forall|i: int| 0 <= i < r.len() implies exists|j: int|
            0 <= j < n && (#[trigger] s[j]).path@ == #[trigger] r[i] by {
            let j = choose|j: int| 0 <= j < s0.len() && (#[trigger] s0[j]).path@ == r[i];
            assert(s[j] == s0[j]);
        }
        if !f.contains(s.last().path@) {
            assert forall|i: int| 0 <= i < r.len() implies r[i] != s.last().path@ by {
                let j = choose|j: int| 0 <= j < n && (#[trigger] s[j]).path@ == r[i];
            }
            assert forall|i: int, k: int| 0 <= i < k < g.len() implies g[i] != g[k] by {
                if k == r.len() {
                    assert(g[i] == r[i]);
                } else {
                    assert(g[i] == r[i] && g[k] == r[k]);
                }
            }
            assert forall|i: int| 0 <= i < g.len() implies exists|j: int|
                0 <= j < s.len() && (#[trigger] s[j]).path@ == #[trigger] g[i] by {
                if i < r.len() {
                    assert(g[i] == r[i]);
                    let j = choose|j: int| 0 <= j < n && (#[trigger] s[j]).path@ == r[i];
                } else {
                    assert(s[n].path@ == g[i]);
                }
            }
        } else {
            assert forall|i: int| 0 <= i < g.len() implies exists|j: int|
                0 <= j < s.len() && (#[trigger] s[j]).path@ == #[trigger] g[i] by {
                let j = choose|j: int| 0 <= j < n && (#[trigger] s[j]).path@ == r[i];
            }
        }
    }
}

/// What vanished is listed once each, and was among the ids before.
proof fn lemma_vanished_distinct(before: Seq<Seq<char>>, after: Seq<Seq<char>>)
    ensures
        vanished(before, after).no_duplicates(),
        forall|i: int|
            0 <= i < vanished(before, after).len() ==> before.contains(
                #[trigger] vanished(before, after)[i],
            ),
    decreases before.len(),
{
    if before.len() > 0 {
        let b0 = before.drop_last();
        lemma_vanished_distinct(b0, after);
        let r = vanished(b0, after);
        let v = vanished(before, after);
        assert forall|i: int| 0 <= i < v.len() implies before.contains(#[trigger] v[i]) by {
            if i < r.len() {
                assert(v[i] == r[i]);
                let k = choose|k: int| 0 <= k < b0.len() && b0[k] == r[i];
                assert(before[k] == b0[k]);
            } else {
                assert(v[i] == before[before.len() - 1]);
            }
        }
    }
}

/// Every card id has `A` as its sixth character (after `LOCAL`).
proof fn lemma_card_ids_shape(ts: Seq<LocalTrack>)
    ensures
        forall|i: int|
            0 <= i < card_ids(ts).len() ==> (#[trigger] card_ids(ts)[i]).len() > 5 && card_ids(
                ts,
            )[i][5] == 'A',
    decreases ts.len(),
{
    if ts.len() > 0 {
        lemma_card_ids_shape(ts.drop_last());
        let r = card_ids(ts.drop_last());
        let c = card_ids(ts);
        let t = ts.last();
        assert forall|i: int| 0 <= i < c.len() implies (#[trigger] c[i]).len() > 5 && c[i][5]
            == 'A' by {
            if i < r.len() {
                assert(c[i] == r[i]);
            } else if i == r.len() {
                assert(c[i] == album_prefix() + t.album_key@);
            } else {
                assert(c[i] == artist_prefix() + primary_artist_text(t.artist@));
            }
        }
    }
}

/// The ids a scan reports removed name each item once: the gone songs (their paths are distinct),
/// then the album and artist ids that vanished (listed once each), which no song id equals.
proof fn lemma_removed_distinct(old_ts: Seq<LocalTrack>, found: Seq<Seq<char>>, new_ts: Seq<LocalTrack>)
    requires
        paths_distinct(old_ts),
    ensures
        (gone_paths(old_ts, found).map_values(|p: Seq<char>| song_prefix() + p) + vanished(
            card_ids(old_ts),
            card_ids(new_ts),
        )).no_duplicates(),
{
    let g = gone_paths(old_ts, found);
    let x = g.map_values(|p: Seq<char>| song_prefix() + p);
    let y = vanished(card_ids(old_ts), card_ids(new_ts));
    lemma_gone_paths_distinct(old_ts, found);
    lemma_vanished_distinct(card_ids(old_ts), card_ids(new_ts));
    lemma_card_ids_shape(old_ts);
    let z = x + y;
    assert forall|i: int, k: int| 0 <= i < k < z.len() implies z[i] != z[k] by {
        if k < x.len() {
            assert(z[i] == song_prefix() + g[i] && z[k] == song_prefix() + g[k]);
            assert((song_prefix() + g[i]).skip(6) =~= g[i]);
            assert((song_prefix() + g[k]).skip(6) =~= g[k]);
        } else if i < x.len() {
            assert(z[i] == song_prefix() + g[i]);
            assert(z[i][5] == ':');
            assert(z[k] == y[k - x.len()]);
            let m = choose|m: int| 0 <= m < card_ids(old_ts).len() && card_ids(old_ts)[m] == y[k
                - x.len()];
            assert(card_ids(old_ts)[m][5] == 'A');
        } else {
            assert(z[i] == y[i - x.len()] && z[k] == y[k - x.len()]);
        }
    }
}

/// `upsert_all` keeps the stored paths distinct.
proof fn lemma_upsert_all_distinct(s: Seq<LocalTrack>, ts: Seq<LocalTrack>)
    requires
        paths_distinct(s),
    ensures
        paths_distinct(upsert_all(s, ts)),
    decreases ts.len(),
{
    if ts.len() > 0 {
        lemma_upsert_all_distinct(s, ts.drop_last());
        lemma_upsert_distinct(upsert_all(s, ts.drop_last()), ts.last());
    }
}

/// Two scans of a disk that did not change in between: after a scan that read its tracks from
/// the files it found, the next walk, finding the same files with the same modification times,
/// has none of them to read again; and a scan with nothing read keeps the stored tracks as they
/// are and reports nothing removed.
pub proof fn lemma_second_scan_reports_nothing(
    before: Seq<LocalTrack>,
    found: Seq<Seq<char>>,
    fresh: Seq<LocalTrack>,
)
    requires
        paths_distinct(before),
        forall|i: int| 0 <= i < fresh.len() ==> found.contains(#[trigger] fresh[i].path@),
    ensures
        ({
            let after = without_paths(upsert_all(before, fresh), gone_paths(before, found));
            let gone = gone_paths(after, found);
            &&& forall|i: int|
                #![trigger after[i]]
                0 <= i < after.len() ==> !needs_read_spec(
                    Some(scan_version()),
                    after,
                    after[i].path@,
                    after[i].mtime,
                )
            &&& without_paths(upsert_all(after, Seq::empty()), gone) == after
            &&& gone.map_values(|p: Seq<char>| song_prefix() + p) + vanished(
                card_ids(after),
                card_ids(without_paths(upsert_all(after, Seq::empty()), gone)),
            ) == Seq::<Seq<char>>::empty()
        }),
{
    let gone1 = gone_paths(before, found);
    let mid = upsert_all(before, fresh);
    let after = without_paths(mid, gone1);
    lemma_upsert_all_from(before, fresh);
    lemma_without_paths_from(mid, gone1);
    assert forall|i: int| 0 <= i < after.len() implies found.contains(#[trigger] after[i].path@) by {
        let x = after[i];
        assert(mid.contains(x));
        let m = choose|m: int| 0 <= m < mid.len() && mid[m] == x;
        assert(before.contains(mid[m]) || fresh.contains(mid[m]));
        if fresh.contains(x) {
            let k = choose|k: int| 0 <= k < fresh.len() && fresh[k] == x;
            assert(found.contains(fresh[k].path@));
        } else {
            let j = choose|j: int| 0 <= j < before.len() && before[j] == x;
            if !found.contains(x.path@) {
                lemma_gone_paths_has(before, found, j);
            }
        }
    }
    lemma_rescan_reports_nothing(after, found);
    lemma_upsert_all_distinct(before, fresh);
    lemma_without_paths(mid, gone1);
    assert forall|i: int|
        #![trigger after[i]]
        0 <= i < after.len() implies !needs_read_spec(
            Some(scan_version()),
            after,
            after[i].path@,
            after[i].mtime,
        ) by {
        lemma_path_index(after, after[i].path@);
    }
}

/// The extensions a scan picks up, lowercase. Playback itself decodes far more: the list is only
/// about what a music folder plausibly holds.
pub open spec fn audio_extensions() -> Seq<Seq<char>> {
    seq![
        "mp3"@, "flac"@, "m4a"@, "m4b"@, "aac"@, "ogg"@, "oga"@, "opus"@, "wav"@, "wma"@,
        "aiff"@, "aif"@, "ape"@, "wv"@, "mka"@,
    ]
}

/// Whether a file with this extension is picked up, ignoring ASCII case.
pub open spec fn is_audio_ext(ext: Seq<char>) -> bool {
    audio_extensions().contains(ext.map_values(|c: char| crate::player::ascii_lower(c)))
}

/// Whether a file with this extension (no dot) is picked up by a scan.
pub fn is_audio(ext: &str) -> (b: bool)
    ensures
        b == is_audio_ext(ext@),
{
    let v = chars_of(ext);
    let mut low: Vec<char> = Vec::new();
    let mut i: usize = 0;
    while i < v.len()
        invariant
            i <= v@.len(),
            low@ == v@.take(i as int).map_values(|c: char| crate::player::ascii_lower(c)),
        decreases v@.len() - i,
    {
        low.push(crate::player::lower_ascii(v[i]));
        proof {
            assert(v@.take(i + 1) == v@.take(i as int).push(v@[i as int]));
            assert(low@ =~= v@.take(i + 1).map_values(|c: char| crate::player::ascii_lower(c)));
        }
        i += 1;
    }
    proof {
        assert(v@.take(v@.len() as int) == v@);
    }
    let e = string_of(&low);
    let exts: [&str; 15] = [
        "mp3", "flac", "m4a", "m4b", "aac", "ogg", "oga", "opus", "wav", "wma", "aiff", "aif", "ape",
        "wv", "mka",
    ];
    let mut k: usize = 0;
    while k < 15
        invariant
            k <= 15,
            e@ == ext@.map_values(|c: char| crate::player::ascii_lower(c)),
            forall|m: int| 0 <= m < 15 ==> (#[trigger] exts@[m])@ == audio_extensions()[m],
            forall|m: int| 0 <= m < k ==> audio_extensions()[m] != e@,
        decreases 15 - k,
    {
        if crate::text::str_eq(exts[k], e.as_str()) {
            proof {
                assert(audio_extensions()[k as int] == e@);
            }
            return true;
        }
        k += 1;
    }
    proof {
        assert(audio_extensions().len() == 15);
    }
    false
}

} // verus!
