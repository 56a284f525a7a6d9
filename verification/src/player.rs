//! The text the player hands mpv: quoted command arguments, the proxy, the request headers.

use vstd::prelude::*;
use crate::text::{
    chars_of, has_prefix, int_text, push_all, push_signed, push_str, string_of, trim, trim_bounds,
};

verus! {

/// `s` with every `\` and `"` escaped by a backslash.
pub open spec fn escaped(s: Seq<char>) -> Seq<char>
    decreases s.len(),
{
    if s.len() == 0 {
        s
    } else {
        let c = s.last();
        escaped(s.drop_last()) + if c == '\\' {
            seq!['\\', '\\']
        } else if c == '"' {
            seq!['\\', '"']
        } else {
            seq![c]
        }
    }
}

/// One argument for mpv's command parser, which otherwise splits on whitespace: wrapped in
/// double quotes, inside which only `\` and `"` mean anything, so those two are escaped.
pub fn quoted(arg: &str) -> (r: String)
    ensures
        r@ == seq!['"'] + escaped(arg@) + seq!['"'],
{
    let v = chars_of(arg);
    let mut out: Vec<char> = vec!['"'];
    let mut i: usize = 0;
    while i < v.len()
        invariant
            i <= v@.len(),
            out@ == seq!['"'] + escaped(v@.take(i as int)),
        decreases v@.len() - i,
    {
        proof {
            assert(v@.take(i + 1).drop_last() == v@.take(i as int));
        }
        let c = v[i];
        if c == '\\' {
            out.push('\\');
            out.push('\\');
        } else if c == '"' {
            out.push('\\');
            out.push('"');
        } else {
            out.push(c);
        }
        i += 1;
    }
    proof {
        assert(v@.take(v@.len() as int) == v@);
    }
    out.push('"');
    string_of(&out)
}

/// "http://".
pub open spec fn http_scheme() -> Seq<char> {
    seq!['h', 't', 't', 'p', ':', '/', '/']
}

/// What mpv's `http-proxy` is set to for a proxy setting: the trimmed setting (empty for none)
/// when it is blank or an `http://` proxy; nothing at all otherwise, because ffmpeg only speaks
/// `http://` proxies and would silently stream direct through anything else.
pub open spec fn mpv_proxy_text(proxy: Option<Seq<char>>) -> Option<Seq<char>> {
    let p = match proxy {
        Some(s) => trim(s),
        None => Seq::empty(),
    };
    if p.len() == 0 || has_prefix(p, http_scheme()) {
        Some(p)
    } else {
        None
    }
}

/// The value for mpv's `http-proxy`, or `None` when the proxy is one mpv cannot use and audio has
/// to stream direct.
pub fn mpv_proxy(proxy: Option<&str>) -> (r: Option<String>)
    ensures
        match r {
            Some(s) => mpv_proxy_text(
                match proxy {
                    Some(p) => Some(p@),
                    None => None,
                },
            ) == Some(s@),
            None => mpv_proxy_text(
                match proxy {
                    Some(p) => Some(p@),
                    None => None,
                },
            ) is None,
        },
{
    let v = match proxy {
        Some(p) => chars_of(p),
        None => Vec::new(),
    };
    let (a, b) = trim_bounds(&v, 0, v.len());
    proof {
        assert(v@.subrange(0, v@.len() as int) == v@);
        if proxy is None {
            assert(trim(v@) == Seq::<char>::empty());
        }
    }
    let p = &v[a..b];
    let scheme = vec!['h', 't', 't', 'p', ':', '/', '/'];
    proof {
        assert(scheme@ == http_scheme());
        assert(p@ == trim(v@));
    }
    if p.len() == 0 || crate::text::starts_with_at(p, 0, &scheme) {
        Some(string_of(p))
    } else {
        None
    }
}

/// ASCII lowercase of one character (others unchanged).
pub open spec fn ascii_lower(c: char) -> char {
    if 'A' <= c <= 'Z' {
        ((c as int) + 32) as char
    } else {
        c
    }
}

/// `str::eq_ignore_ascii_case`.
pub open spec fn eq_ignore_ascii_case(a: Seq<char>, b: Seq<char>) -> bool {
    a.len() == b.len() && forall|i: int| 0 <= i < a.len() ==> ascii_lower(#[trigger] a[i]) == ascii_lower(b[i])
}

pub(crate) fn lower_ascii(c: char) -> (r: char)
    ensures
        r == ascii_lower(c),
{
    if 'A' <= c && c <= 'Z' {
        let n = (c as u32) + 32;
        proof {
            assert(0x41 <= n <= 0x7a);
        }
        char_of_ascii(n)
    } else {
        c
    }
}

fn char_of_ascii(n: u32) -> (c: char)
    requires
        n < 0x80,
    ensures
        c as int == n,
{
    let b = n as u8;
    b as char
}

/// Executable `eq_ignore_ascii_case`.
pub fn eq_ignore_case(a: &str, b: &[char]) -> (r: bool)
    ensures
        r == eq_ignore_ascii_case(a@, b@),
{
    let v = chars_of(a);
    if v.len() != b.len() {
        return false;
    }
    let mut i: usize = 0;
    while i < v.len()
        invariant
            v@ == a@,
            v@.len() == b@.len(),
            i <= v@.len(),
            forall|j: int| 0 <= j < i ==> ascii_lower(#[trigger] v@[j]) == ascii_lower(b@[j]),
        decreases v@.len() - i,
    {
        if lower_ascii(v[i]) != lower_ascii(b[i]) {
            return false;
        }
        i += 1;
    }
    true
}

/// "user-agent".
pub open spec fn user_agent_key() -> Seq<char> {
    seq!['u', 's', 'e', 'r', '-', 'a', 'g', 'e', 'n', 't']
}

/// "User-Agent".
pub open spec fn user_agent_title() -> Seq<char> {
    seq!['U', 's', 'e', 'r', '-', 'A', 'g', 'e', 'n', 't']
}

/// The value of the first header named exactly `key`.
pub open spec fn header_named(h: Seq<(String, String)>, key: Seq<char>) -> Option<Seq<char>>
    decreases h.len(),
{
    if h.len() == 0 {
        None
    } else {
        match header_named(h.drop_last(), key) {
            Some(v) => Some(v),
            None => if h.last().0@ == key {
                Some(h.last().1@)
            } else {
                None
            },
        }
    }
}

pub(crate) fn find_header(headers: &[(String, String)], key: &[char]) -> (r: Option<String>)
    ensures
        match r {
            Some(v) => header_named(headers@, key@) == Some(v@),
            None => header_named(headers@, key@) is None,
        },
{
    let mut i: usize = 0;
    let mut found: Option<String> = None;
    while i < headers.len()
        invariant
            i <= headers@.len(),
            match found {
                Some(v) => header_named(headers@.take(i as int), key@) == Some(v@),
                None => header_named(headers@.take(i as int), key@) is None,
            },
        decreases headers@.len() - i,
    {
        proof {
            assert(headers@.take(i + 1).drop_last() == headers@.take(i as int));
        }
        if found.is_none() {
            let k = chars_of(headers[i].0.as_str());
            if k.len() == key.len() && crate::text::starts_with_at(&k, 0, key) {
                proof {
                    assert(k@.subrange(0, key@.len() as int) == k@);
                }
                found = Some(headers[i].1.clone());
            } else {
                proof {
                    if k@ == key@ {
                        assert(k@.subrange(0, key@.len() as int) == k@);
                    }
                }
            }
        }
        i += 1;
    }
    proof {
        assert(headers@.take(headers@.len() as int) == headers@);
    }
    found
}

/// The User-Agent the request headers carry, which mpv takes as a property of its own: the
/// `User-Agent` header, else the `user-agent` one.
pub fn user_agent(headers: &[(String, String)]) -> (r: Option<String>)
    ensures
        opt_text(r) == match header_named(headers@, user_agent_title()) {
            Some(v) => Some(v),
            None => header_named(headers@, user_agent_key()),
        },
{
    let title = vec!['U', 's', 'e', 'r', '-', 'A', 'g', 'e', 'n', 't'];
    let key = vec!['u', 's', 'e', 'r', '-', 'a', 'g', 'e', 'n', 't'];
    proof {
        assert(title@ == user_agent_title());
        assert(key@ == user_agent_key());
    }
    match find_header(headers, &title) {
        Some(v) => Some(v),
        None => find_header(headers, &key),
    }
}

/// The characters of an optional string.
pub open spec fn opt_text(o: Option<String>) -> Option<Seq<char>> {
    match o {
        Some(s) => Some(s@),
        None => None,
    }
}

/// The `http-header-fields` value: every header but the User-Agent (matched ignoring ASCII
/// case), as `name: value`, joined with commas.
pub open spec fn header_fields_text(h: Seq<(String, String)>) -> Seq<char>
    decreases h.len(),
{
    if h.len() == 0 {
        Seq::empty()
    } else {
        let rest = header_fields_text(h.drop_last());
        let (k, v) = h.last();
        if eq_ignore_ascii_case(k@, user_agent_key()) {
            rest
        } else if !has_field(h.drop_last()) {
            k@ + seq![':', ' '] + v@
        } else {
            rest + seq![','] + k@ + seq![':', ' '] + v@
        }
    }
}

/// Whether any header but the User-Agent is among `h`.
pub open spec fn has_field(h: Seq<(String, String)>) -> bool {
    exists|i: int| 0 <= i < h.len() && !eq_ignore_ascii_case((#[trigger] h[i]).0@, user_agent_key())
}

proof fn lemma_no_field_no_text(h: Seq<(String, String)>)
    requires
        !has_field(h),
    ensures
        header_fields_text(h).len() == 0,
    decreases h.len(),
{
    if h.len() > 0 {
        lemma_has_field_push(h);
        lemma_no_field_no_text(h.drop_last());
    }
}

proof fn lemma_has_field_push(h: Seq<(String, String)>)
    requires
        h.len() > 0,
    ensures
        has_field(h) <==> (has_field(h.drop_last()) || !eq_ignore_ascii_case(
            h.last().0@,
            user_agent_key(),
        )),
{
    if has_field(h) {
        let j = choose|j: int|
            0 <= j < h.len() && !eq_ignore_ascii_case((#[trigger] h[j]).0@, user_agent_key());
        if j < h.len() - 1 {
            assert(h.drop_last()[j] == h[j]);
        }
    }
    if has_field(h.drop_last()) {
        let j = choose|j: int|
            0 <= j < h.len() - 1 && !eq_ignore_ascii_case(
                (#[trigger] h.drop_last()[j]).0@,
                user_agent_key(),
            );
        assert(h[j] == h.drop_last()[j]);
    }
    if !eq_ignore_ascii_case(h.last().0@, user_agent_key()) {
        assert(h[h.len() - 1] == h.last());
    }
}

/// The `http-header-fields` value for the request headers.
pub fn header_fields(headers: &[(String, String)]) -> (r: String)
    ensures
        r@ == header_fields_text(headers@),
{
    let key = vec!['u', 's', 'e', 'r', '-', 'a', 'g', 'e', 'n', 't'];
    proof {
        assert(key@ == user_agent_key());
    }
    let mut out: Vec<char> = Vec::new();
    let mut any = false;
    let mut i: usize = 0;
    while i < headers.len()
        invariant
            i <= headers@.len(),
            key@ == user_agent_key(),
            out@ == header_fields_text(headers@.take(i as int)),
            any == has_field(headers@.take(i as int)),
        decreases headers@.len() - i,
    {
        let ghost h = headers@.take(i + 1);
        proof {
            assert(h.drop_last() == headers@.take(i as int));
            assert(h.last() == headers@[i as int]);
            lemma_has_field_push(h);
            if !has_field(headers@.take(i as int)) {
                lemma_no_field_no_text(headers@.take(i as int));
            }
        }
        let skip = eq_ignore_case(headers[i].0.as_str(), &key);
        if !skip {
            if any {
                out.push(',');
            }
            push_str(&mut out, headers[i].0.as_str());
            out.push(':');
            out.push(' ');
            push_str(&mut out, headers[i].1.as_str());
        }
        any = any || !skip;
        i += 1;
    }
    proof {
        assert(headers@.take(headers@.len() as int) == headers@);
    }
    string_of(&out)
}


/// How a track failed to play, as the player reports it.
pub enum PlaybackFailure {
    /// A `loadfile` that failed, with what it failed of.
    Loadfile(Box<PlaybackFailure>),
    /// The stream could not be opened (YouTube turned the link down).
    LoadingFailed,
    /// The stream holds nothing playable.
    NothingToPlay,
    /// The format is not one the decoder knows.
    UnknownFormat,
    /// The audio output could not start.
    AoInitFailed,
    /// Any other error code of the player.
    Code(i32),
    /// Anything else, as the player describes it.
    Other(String),
}

/// What the listener is told about a failed track: a plain sentence for the failures that have
/// one, the code or description otherwise. A failed `loadfile` is told by what it failed of.
pub open spec fn failure_text(e: PlaybackFailure) -> Seq<char>
    decreases e,
{
    match e {
        PlaybackFailure::Loadfile(inner) => failure_text(*inner),
        PlaybackFailure::LoadingFailed => "Couldn't load this track \u{2014} YouTube rejected the stream link"@,
        PlaybackFailure::NothingToPlay => "This stream contains no playable audio"@,
        PlaybackFailure::UnknownFormat => "Unrecognized audio format"@,
        PlaybackFailure::AoInitFailed => "Couldn't start audio output"@,
        PlaybackFailure::Code(c) => "Playback failed (mpv error "@ + int_text(c as int) + ")"@,
        PlaybackFailure::Other(d) => "Playback failed ("@ + d@ + ")"@,
    }
}

/// The message for a track that failed to play.
pub fn friendly_error(e: &PlaybackFailure) -> (r: String)
    ensures
        r@ == failure_text(*e),
    decreases e,
{
    match e {
        PlaybackFailure::Loadfile(inner) => friendly_error(inner),
        PlaybackFailure::LoadingFailed => string_of(
            &chars_of("Couldn't load this track \u{2014} YouTube rejected the stream link"),
        ),
        PlaybackFailure::NothingToPlay => string_of(&chars_of("This stream contains no playable audio")),
        PlaybackFailure::UnknownFormat => string_of(&chars_of("Unrecognized audio format")),
        PlaybackFailure::AoInitFailed => string_of(&chars_of("Couldn't start audio output")),
        PlaybackFailure::Code(c) => {
            let mut v = chars_of("Playback failed (mpv error ");
            let neg = *c < 0;
            let mag: u64 = if neg {
                (0i64 - *c as i64) as u64
            } else {
                *c as u64
            };
            push_signed(&mut v, neg, mag);
            push_str(&mut v, ")");
            string_of(&v)
        },
        PlaybackFailure::Other(d) => {
            let mut v = chars_of("Playback failed (");
            push_str(&mut v, d.as_str());
            push_str(&mut v, ")");
            string_of(&v)
        },
    }
}


/// The audio filter that shifts pitch: librubberband's.
pub fn pitch_filter() -> (r: &'static str)
    ensures
        r@ == "rubberband"@,
{
    "rubberband"
}

} // verus!
