//! The loopback audio proxy's request logic: which bytes a client asked for, which window of the
//! file that is, how the window is walked in bounded upstream chunks, and how a request path is
//! routed to a registered stream.
//!
//! Upstream servers throttle an open-ended download but serve a bounded range at full speed, so
//! every byte handed to the player is fetched as one of a sequence of fixed-size ranges that tile
//! the requested window exactly.

use vstd::prelude::*;

use crate::text::{
    before_first, chars_of, decimal, find, find_char, hex_fixed, parse_u64, parse_u64_in, push_all,
    push_decimal, push_hex_fixed, rfind, rfind_char, rsplit_once, split_once, starts_with_at,
    str_eq, string_of, strip_prefix, trim, trim_bounds,
};

verus! {

/// How much of the file one upstream range request asks for.
pub const CHUNK: u64 = 4 * 1024 * 1024;

/// What the client asked for, once parsed.
#[derive(Debug, Clone, Copy, PartialEq, Eq, Structural)]
pub enum Want {
    /// No `Range` header, or one this proxy does not understand: the whole file.
    Full,
    /// `bytes=X-`
    From(u64),
    /// `bytes=X-Y`
    Bounded(u64, u64),
    /// `bytes=-N` (the last N bytes)
    Suffix(u64),
}

/// `bytes=`
pub open spec fn bytes_unit() -> Seq<char> {
    seq!['b', 'y', 't', 'e', 's', '=']
}

/// The request a `Range` header value describes. A multi-range value counts by its first range;
/// anything unusable is the whole file, per HTTP's rule of ignoring a range it can't read.
pub open spec fn range_want(value: Option<Seq<char>>) -> Want {
    match value {
        None => Want::Full,
        Some(v) => match strip_prefix(v, bytes_unit()) {
            None => Want::Full,
            Some(rest) => {
                let spec = trim(before_first(rest, ','));
                match split_once(spec, '-') {
                    None => Want::Full,
                    Some((a, b)) => {
                        let a = trim(a);
                        let b = trim(b);
                        if a.len() == 0 {
                            match parse_u64(b) {
                                Some(n) => Want::Suffix(n),
                                None => Want::Full,
                            }
                        } else {
                            match parse_u64(a) {
                                None => Want::Full,
                                Some(start) => if b.len() == 0 {
                                    Want::From(start)
                                } else {
                                    match parse_u64(b) {
                                        Some(end) => if end >= start {
                                            Want::Bounded(start, end)
                                        } else {
                                            Want::Full
                                        },
                                        None => Want::Full,
                                    }
                                },
                            }
                        }
                    },
                }
            },
        },
    }
}

/// Parse a `Range` header value (`None` when the request carried none).
pub fn parse_range(value: Option<&str>) -> (w: Want)
    ensures
        w == range_want(
            match value {
                Some(v) => Some(v@),
                None => None,
            },
        ),
{
    let value = match value {
        None => return Want::Full,
        Some(v) => v,
    };
    let v = chars_of(value);
    let n = v.len();
    let unit = ['b', 'y', 't', 'e', 's', '='];
    proof {
        assert(unit@ == bytes_unit());
    }
    if !starts_with_at(&v, 0, &unit) {
        proof {
            if n >= 6 {
                assert(v@.subrange(0, 6) == v@.take(6));
            }
        }
        return Want::Full;
    }
    let ghost rest = v@.skip(6);
    proof {
        assert(v@.subrange(0, 6) == v@.take(6));
        assert(rest == v@.subrange(6, n as int));
    }
    let fe = match find_char(&v, 6, n, ',') {
        Some(i) => i,
        None => n,
    };
    proof {
        match find(rest, ',') {
            Some(i) => {
                assert(fe == i + 6);
                assert(rest.take(i) =~= v@.subrange(6, fe as int));
            },
            None => {
                assert(fe == n);
            },
        }
        assert(before_first(rest, ',') == v@.subrange(6, fe as int));
    }
    let (s0, s1) = trim_bounds(&v, 6, fe);
    let ghost spec = v@.subrange(s0 as int, s1 as int);
    let dash = match find_char(&v, s0, s1, '-') {
        Some(d) => d,
        None => return Want::Full,
    };
    let (a0, a1) = trim_bounds(&v, s0, dash);
    let (b0, b1) = trim_bounds(&v, dash + 1, s1);
    proof {
        let i = (dash - s0) as int;
        assert(spec.take(i) == v@.subrange(s0 as int, dash as int));
        assert(spec.skip(i + 1) == v@.subrange(dash + 1, s1 as int));
    }
    if a0 == a1 {
        return match parse_u64_in(&v, b0, b1) {
            Some(k) => Want::Suffix(k),
            None => Want::Full,
        };
    }
    let start = match parse_u64_in(&v, a0, a1) {
        Some(x) => x,
        None => return Want::Full,
    };
    if b0 == b1 {
        return Want::From(start);
    }
    match parse_u64_in(&v, b0, b1) {
        Some(end) => if end >= start {
            Want::Bounded(start, end)
        } else {
            Want::Full
        },
        None => Want::Full,
    }
}


/// The inclusive byte window `(first, last)` to serve for `want` from a file of `total` bytes, or
/// `None` when the request cannot be satisfied.
pub open spec fn window(want: Want, total: u64) -> Option<(u64, u64)> {
    if total == 0 {
        None
    } else {
        match want {
            Want::Full => Some((0, (total - 1) as u64)),
            Want::From(s) => if s < total {
                Some((s, (total - 1) as u64))
            } else {
                None
            },
            Want::Bounded(s, e) => if s < total {
                Some((s, if e < total - 1 { e } else { (total - 1) as u64 }))
            } else {
                None
            },
            Want::Suffix(n) => if n > 0 {
                Some((if n >= total { 0 } else { (total - n) as u64 }, (total - 1) as u64))
            } else {
                None
            },
        }
    }
}

/// What a window serves: only bytes the stream has, starting where the client asked (or, for a
/// suffix, as many of the last bytes as it asked for) and never past the last byte it asked for.
/// A bounded range is cut at the end of the stream and nowhere else; an open or suffix range, and
/// a request with no range, run to the last byte. A request is refused only when the stream is
/// empty, the start lies past its end, or a suffix asks for nothing.
pub proof fn lemma_window_serves_what_was_asked(want: Want, total: u64)
    ensures
        window(want, total) is None <==> (total == 0 || match want {
            Want::Full => false,
            Want::From(s) => s >= total,
            Want::Bounded(s, _) => s >= total,
            Want::Suffix(n) => n == 0,
        }),
        window(want, total) matches Some((a, b)) ==> a < total && b < total && match want {
            Want::Full => a == 0 && b + 1 == total,
            Want::From(s) => a == s && b + 1 == total,
            Want::Bounded(s, e) => a == s && b <= e && (b == e || b + 1 == total),
            Want::Suffix(n) => b + 1 == total && (if n < total {
                b - a + 1 == n
            } else {
                a == 0
            }),
        },
{
}

/// The inclusive window to serve for `want`, or `None` when the request cannot be satisfied.
pub fn resolve_window(want: Want, total: u64) -> (r: Option<(u64, u64)>)
    ensures
        r == window(want, total),
        r matches Some((a, b)) ==> a < total && b < total,
{
    if total == 0 {
        return None;
    }
    match want {
        Want::Full => Some((0, total - 1)),
        Want::From(s) => if s < total {
            Some((s, total - 1))
        } else {
            None
        },
        Want::Bounded(s, e) => if s < total {
            Some((s, if e < total - 1 { e } else { total - 1 }))
        } else {
            None
        },
        Want::Suffix(n) => if n > 0 {
            Some((total.saturating_sub(n), total - 1))
        } else {
            None
        },
    }
}

/// The last byte of the chunk that starts at `pos`, clamped to the window's last byte `end`.
pub open spec fn chunk_last(pos: int, end: int) -> int {
    if pos + CHUNK - 1 < end {
        pos + CHUNK - 1
    } else {
        end
    }
}

/// The last byte to ask for in a chunk that starts at `pos`, clamped to the window's last byte.
pub fn chunk_end(pos: u64, end: u64) -> (r: u64)
    requires
        pos <= u64::MAX - (CHUNK - 1),
    ensures
        r == chunk_last(pos as int, end as int),
{
    let last = pos + (CHUNK - 1);
    if last < end {
        last
    } else {
        end
    }
}

/// The bounded ranges that walk `pos..=end`, in order.
pub open spec fn chunks(pos: int, end: int) -> Seq<(int, int)>
    decreases end - pos + 1,
{
    if pos > end {
        Seq::empty()
    } else {
        seq![(pos, chunk_last(pos, end))] + chunks(chunk_last(pos, end) + 1, end)
    }
}

/// The chunks of a window tile it exactly: the first starts at its first byte, each starts right
/// after the one before it ends, none is empty or longer than `CHUNK`, and the last ends on the
/// window's last byte. So no byte is skipped and none is fetched twice.
pub proof fn lemma_chunks_tile(pos: int, end: int)
    requires
        pos <= end,
    ensures
        chunks(pos, end).len() > 0,
        chunks(pos, end)[0].0 == pos,
        chunks(pos, end).last().1 == end,
        forall|k: int|
            0 <= k < chunks(pos, end).len() ==> #[trigger] chunks(pos, end)[k].0 <= chunks(
                pos,
                end,
            )[k].1 <= end && chunks(pos, end)[k].1 - chunks(pos, end)[k].0 < CHUNK,
        forall|k: int|
            0 <= k < chunks(pos, end).len() - 1 ==> #[trigger] chunks(pos, end)[k + 1].0
                == chunks(pos, end)[k].1 + 1,
    decreases end - pos + 1,
{
    let last = chunk_last(pos, end);
    let head = seq![(pos, last)];
    if last + 1 <= end {
        lemma_chunks_tile(last + 1, end);
        let rest = chunks(last + 1, end);
        let all = chunks(pos, end);
        assert(all == head + rest);
        assert forall|k: int| 0 <= k < all.len() implies #[trigger] all[k].0 <= all[k].1 <= end
            && all[k].1 - all[k].0 < CHUNK by {
            if k > 0 {
                assert(all[k] == rest[k - 1]);
            }
        }
        assert forall|k: int| 0 <= k < all.len() - 1 implies #[trigger] all[k + 1].0 == all[k].1
            + 1 by {
            if k > 0 {
                assert(all[k] == rest[k - 1]);
                assert(all[k + 1] == rest[k]);
                assert(rest[(k - 1) + 1].0 == rest[k - 1].1 + 1);
            } else {
                assert(all[0] == (pos, last));
                assert(all[1] == rest[0]);
            }
        }
    } else {
        assert(chunks(last + 1, end) == Seq::<(int, int)>::empty());
        assert(chunks(pos, end) == head);
    }
}

/// The walk over one window: the next chunk to fetch, until the window is done.
pub struct ChunkWalk {
    pos: u64,
    end: u64,
    done: bool,
}

impl ChunkWalk {
    /// The chunks still to fetch.
    pub closed spec fn remaining(&self) -> Seq<(int, int)> {
        if self.done {
            Seq::empty()
        } else {
            chunks(self.pos as int, self.end as int)
        }
    }

    /// Start walking the inclusive window `start..=end`.
    pub fn new(start: u64, end: u64) -> (w: ChunkWalk)
        ensures
            w.remaining() == chunks(start as int, end as int),
    {
        ChunkWalk { pos: start, end, done: false }
    }

    /// The next chunk to fetch, `None` once the window is done.
    pub fn next_chunk(&mut self) -> (r: Option<(u64, u64)>)
        ensures
            match r {
                None => old(self).remaining().len() == 0 && final(self).remaining().len() == 0,
                Some((a, b)) => old(self).remaining().len() > 0 && old(self).remaining()[0] == (
                    a as int,
                    b as int,
                ) && final(self).remaining() == old(self).remaining().drop_first(),
            },
    {
        if self.done || self.pos > self.end {
            proof {
                if !self.done {
                    assert(chunks(self.pos as int, self.end as int) == Seq::<(int, int)>::empty());
                }
            }
            self.done = true;
            return None;
        }
        let pos = self.pos;
        let last = if self.end - pos >= CHUNK - 1 {
            pos + (CHUNK - 1)
        } else {
            self.end
        };
        proof {
            let all = chunks(pos as int, self.end as int);
            assert(last as int == chunk_last(pos as int, self.end as int));
            assert(all == seq![(pos as int, last as int)] + chunks(last + 1, self.end as int));
            assert(all.drop_first() == chunks(last + 1, self.end as int));
        }
        if last == self.end {
            self.done = true;
            proof {
                assert(chunks(last + 1, self.end as int) == Seq::<(int, int)>::empty());
            }
        } else {
            self.pos = last + 1;
        }
        Some((pos, last))
    }
}

/// The total length a `Content-Range` value states (`bytes 0-0/122414474`), or `None` when it
/// states none (`bytes 0-0/*`) or cannot be read.
pub open spec fn content_range_total(value: Seq<char>) -> Option<u64> {
    match rsplit_once(value, '/') {
        None => None,
        Some((_, after)) => parse_u64(trim(after)),
    }
}

/// Read the total length off a `Content-Range` value.
pub fn total_from_content_range(value: &str) -> (r: Option<u64>)
    ensures
        r == content_range_total(value@),
{
    let v = chars_of(value);
    let n = v.len();
    let slash = match rfind_char(&v, 0, n, '/') {
        Some(i) => i,
        None => {
            proof {
                assert(v@.subrange(0, n as int) == v@);
            }
            return None;
        },
    };
    proof {
        assert(v@.subrange(0, n as int) == v@);
        assert(v@.skip(slash + 1) == v@.subrange(slash + 1, n as int));
    }
    let (a, b) = trim_bounds(&v, slash + 1, n);
    parse_u64_in(&v, a, b)
}

/// `/`
pub open spec fn slash() -> Seq<char> {
    seq!['/']
}

/// The registration id a request path names: `/<token>/a/<id>`, with the token this launch
/// issued, the audio kind `a`, and a non-empty id.
pub open spec fn route_id(path: Seq<char>, token: Seq<char>) -> Option<Seq<char>> {
    match strip_prefix(path, slash()) {
        None => None,
        Some(p) => match split_once(p, '/') {
            None => None,
            Some((t, rest)) => match split_once(rest, '/') {
                None => None,
                Some((kind, id)) => if t == token && kind == seq!['a'] && id.len() > 0 {
                    Some(id)
                } else {
                    None
                },
            },
        },
    }
}

/// Whether `v[lo..hi]` is exactly `w`.
fn range_is(v: &[char], lo: usize, hi: usize, w: &[char]) -> (b: bool)
    requires
        lo <= hi <= v@.len(),
    ensures
        b == (v@.subrange(lo as int, hi as int) == w@),
{
    if hi - lo != w.len() {
        return false;
    }
    starts_with_at(v, lo, w)
}

/// `/<token>/a/<id>` to the registration id, once the token matches this launch's.
pub fn id_from<'a>(path: &'a str, token: &str) -> (r: Option<&'a str>)
    ensures
        match r {
            Some(id) => route_id(path@, token@) == Some(id@),
            None => route_id(path@, token@) is None,
        },
{
    let v = chars_of(path);
    let n = v.len();
    if n == 0 || v[0] != '/' {
        proof {
            if n > 0 {
                assert(v@.take(1)[0] == v@[0]);
            }
        }
        return None;
    }
    let ghost p = v@.skip(1);
    proof {
        assert(v@.take(1) == slash());
        assert(p == v@.subrange(1, n as int));
    }
    let i1 = match find_char(&v, 1, n, '/') {
        Some(i) => i,
        None => return None,
    };
    let ghost rest = p.skip(i1 - 1 + 1);
    proof {
        assert(p.take(i1 - 1) == v@.subrange(1, i1 as int));
        assert(rest == v@.subrange(i1 + 1, n as int));
    }
    let i2 = match find_char(&v, i1 + 1, n, '/') {
        Some(i) => i,
        None => return None,
    };
    proof {
        assert(rest.take(i2 - (i1 + 1)) == v@.subrange(i1 + 1, i2 as int));
        assert(rest.skip(i2 - (i1 + 1) + 1) == v@.subrange(i2 + 1, n as int));
    }
    let tv = chars_of(token);
    let a = ['a'];
    proof {
        assert(a@ == seq!['a']);
    }
    if range_is(&v, 1, i1, &tv) && range_is(&v, i1 + 1, i2, &a) && i2 + 1 < n {
        let id = path.substring_char(i2 + 1, n);
        Some(id)
    } else {
        None
    }
}


/// How many stream registrations the proxy keeps, oldest dropped first. Only the current and the
/// gapless-next track are ever in use, so the queue merely has to be deeper than two.
pub const MAX_REGISTRATIONS: usize = 64;

/// What a registered stream answers: its total length and content type, learned once from the
/// first upstream response and reused for every later connection.
pub struct Meta {
    pub total: u64,
    pub content_type: Option<String>,
}

/// One stream URL the player may fetch through the proxy, with the headers upstream needs.
pub struct Registration {
    pub url: String,
    pub headers: Vec<(String, String)>,
    pub meta: Option<Meta>,
}

/// `rand::random::<u64>()`.
///
/// Trusted: the value depends on the thread-local generator's state, so nothing is claimed about
/// which number comes back.
#[verifier::external_body]
fn random_u64() -> (r: u64) {
    rand::random::<u64>()
}

/// The loopback proxy's state: the `(port, token)` it listens under once started, and the
/// registered streams, oldest first.
pub struct AudioProxy {
    endpoint: Option<(u16, String)>,
    entries: Vec<(String, Registration)>,
}

/// `format!("{:016x}", n)` for a `u64`.
pub open spec fn hex16(n: u64) -> Seq<char> {
    hex_fixed(n as nat, 16)
}

/// A launch's token: two random `u64`s in 16 lowercase hex digits each.
pub open spec fn token_text(a: u64, b: u64) -> Seq<char> {
    hex16(a) + hex16(b)
}

/// `http://127.0.0.1:`
pub open spec fn loopback_prefix() -> Seq<char> {
    seq!['h', 't', 't', 'p', ':', '/', '/', '1', '2', '7', '.', '0', '.', '0', '.', '1', ':']
}

/// The loopback URL for registration `id`: `http://127.0.0.1:<port>/<token>/a/<id>`.
pub open spec fn loopback_url(port: u16, token: Seq<char>, id: Seq<char>) -> Seq<char> {
    loopback_prefix() + decimal(port as nat) + seq!['/'] + token + seq!['/', 'a', '/'] + id
}

/// Headers as plain text pairs.
pub open spec fn headers_view(h: Seq<(String, String)>) -> Seq<(Seq<char>, Seq<char>)> {
    h.map_values(|p: (String, String)| (p.0@, p.1@))
}

/// A registration as the proxy holds it: its id, its URL, the headers upstream needs, and the
/// stream metadata learned for it so far.
pub open spec fn reg_view(e: (String, Registration)) -> (
    Seq<char>,
    Seq<char>,
    Seq<(Seq<char>, Seq<char>)>,
    Option<Meta>,
) {
    (e.0@, e.1.url@, headers_view(e.1.headers@), e.1.meta)
}

/// Whether some registration of `rs` is under `id`.
pub open spec fn has_reg<A, B, C>(rs: Seq<(Seq<char>, A, B, C)>, id: Seq<char>) -> bool {
    exists|k: int| 0 <= k < rs.len() && #[trigger] rs[k].0 == id
}

/// Where the registration under `id` stands in `rs` (meaningful when `has_reg(rs, id)`).
pub open spec fn reg_pos<A, B, C>(rs: Seq<(Seq<char>, A, B, C)>, id: Seq<char>) -> int {
    choose|k: int| 0 <= k < rs.len() && #[trigger] rs[k].0 == id
}

/// No two registrations of `rs` share an id.
pub open spec fn regs_distinct<A, B, C>(rs: Seq<(Seq<char>, A, B, C)>) -> bool {
    forall|i: int, j: int| 0 <= i < j < rs.len() ==> #[trigger] rs[i].0 != #[trigger] rs[j].0
}

/// `rs` without the registration under `id`, if there is one.
pub open spec fn without_reg<A, B, C>(rs: Seq<(Seq<char>, A, B, C)>, id: Seq<char>) -> Seq<
    (Seq<char>, A, B, C),
> {
    if has_reg(rs, id) {
        rs.remove(reg_pos(rs, id))
    } else {
        rs
    }
}

/// Room for one more registration: the oldest are dropped, first in first out, until fewer than
/// `MAX_REGISTRATIONS` remain.
pub open spec fn make_room<T>(rs: Seq<T>) -> Seq<T> {
    if rs.len() >= MAX_REGISTRATIONS {
        rs.skip(rs.len() - (MAX_REGISTRATIONS - 1))
    } else {
        rs
    }
}

/// In a registry without repeated ids, the registration under `id` is the one found at `k`.
proof fn lemma_reg_pos<A, B, C>(rs: Seq<(Seq<char>, A, B, C)>, k: int)
    requires
        regs_distinct(rs),
        0 <= k < rs.len(),
    ensures
        has_reg(rs, rs[k].0),
        reg_pos(rs, rs[k].0) == k,
{
    let id = rs[k].0;
    assert(has_reg(rs, id));
    let p = reg_pos(rs, id);
    if p < k {
        assert(rs[p].0 != rs[k].0);
    } else if p > k {
        assert(rs[k].0 != rs[p].0);
    }
}

/// What a successful registration did, for the random `n` that named it: the loopback URL `u`
/// addresses `hex16(n)` under the proxy's `endpoint`, and the registrations `after` are those
/// `before` with that id dropped if it was held, the oldest dropped until there is room, and the
/// new registration (with no metadata learned yet) last.
pub open spec fn registered_as(
    before: Seq<(Seq<char>, Seq<char>, Seq<(Seq<char>, Seq<char>)>, Option<Meta>)>,
    endpoint: Option<(u16, Seq<char>)>,
    after: Seq<(Seq<char>, Seq<char>, Seq<(Seq<char>, Seq<char>)>, Option<Meta>)>,
    n: u64,
    u: Seq<char>,
    url: Seq<char>,
    headers: Seq<(String, String)>,
) -> bool {
    let id = hex16(n);
    &&& endpoint matches Some((port, token))
    &&& u == loopback_url(port, token, id)
    &&& after == make_room(without_reg(before, id)).push(
        (id, url, headers_view(headers), None::<Meta>),
    )
}

/// The index of the registration under `id` in `entries`.
fn find_reg(entries: &Vec<(String, Registration)>, id: &str) -> (r: Option<usize>)
    ensures
        match r {
            Some(i) => i < entries@.len() && entries@[i as int].0@ == id@,
            None => forall|k: int| 0 <= k < entries@.len() ==> entries@[k].0@ != id@,
        },
{
    let mut i: usize = 0;
    while i < entries.len()
        invariant
            i <= entries@.len(),
            forall|k: int| 0 <= k < i ==> entries@[k].0@ != id@,
        decreases entries@.len() - i,
    {
        if str_eq(entries[i].0.as_str(), id) {
            return Some(i);
        }
        i += 1;
    }
    None
}

impl AudioProxy {
    /// The registry's invariant: within capacity, and no id held twice.
    #[verifier::type_invariant]
    pub closed spec fn wf(self) -> bool {
        &&& self.entries@.len() <= MAX_REGISTRATIONS
        &&& regs_distinct(self.registrations())
    }

    /// The registrations held, oldest first.
    pub closed spec fn registrations(self) -> Seq<
        (Seq<char>, Seq<char>, Seq<(Seq<char>, Seq<char>)>, Option<Meta>),
    > {
        self.entries@.map_values(|e: (String, Registration)| reg_view(e))
    }

    /// Whether a registration under `id` is held.
    pub open spec fn holds(self, id: Seq<char>) -> bool {
        has_reg(self.registrations(), id)
    }

    /// The URL registered under `id` (meaningful when `holds(id)`).
    pub open spec fn url_of(self, id: Seq<char>) -> Seq<char> {
        self.registrations()[reg_pos(self.registrations(), id)].1
    }

    /// The headers registered under `id` (meaningful when `holds(id)`).
    pub open spec fn headers_of(self, id: Seq<char>) -> Seq<(Seq<char>, Seq<char>)> {
        self.registrations()[reg_pos(self.registrations(), id)].2
    }

    /// The stream metadata learned for `id`: none when nothing is registered under `id` or
    /// nothing was learned for it yet.
    pub open spec fn meta_for(self, id: Seq<char>) -> Option<Meta> {
        if self.holds(id) {
            self.registrations()[reg_pos(self.registrations(), id)].3
        } else {
            None
        }
    }

    /// This launch's token (empty before the proxy has started).
    pub closed spec fn token(self) -> Seq<char> {
        match self.endpoint {
            Some((_, t)) => t@,
            None => Seq::empty(),
        }
    }

    /// How many registrations are held.
    pub open spec fn queued(self) -> nat {
        self.registrations().len()
    }

    /// The `(port, token)` the proxy listens under, once started.
    pub closed spec fn endpoint_of(self) -> Option<(u16, Seq<char>)> {
        match self.endpoint {
            Some((p, t)) => Some((p, t@)),
            None => None,
        }
    }

    /// A proxy that has not been started: no endpoint, nothing registered.
    pub fn new() -> (p: AudioProxy)
        ensures
            p.endpoint_of() is None,
            p.registrations() == Seq::<
                (Seq<char>, Seq<char>, Seq<(Seq<char>, Seq<char>)>, Option<Meta>),
            >::empty(),
    {
        let p = AudioProxy { endpoint: None, entries: Vec::new() };
        proof {
            assert(p.registrations() =~= Seq::<
                (Seq<char>, Seq<char>, Seq<(Seq<char>, Seq<char>)>, Option<Meta>),
            >::empty());
        }
        p
    }

    /// Record the loopback port the listener was bound to and issue this launch's random token,
    /// 32 lowercase hex digits. Returns `false`, changing nothing, when already started.
    pub fn start(&mut self, port: u16) -> (started: bool)
        ensures
            started == (old(self).endpoint_of() is None),
            started ==> exists|a: u64, b: u64|
                final(self).endpoint_of() == Some((port, #[trigger] token_text(a, b))),
            !started ==> final(self).endpoint_of() == old(self).endpoint_of(),
            final(self).registrations() == old(self).registrations(),
    {
        if self.endpoint.is_some() {
            return false;
        }
        let mut t: Vec<char> = Vec::new();
        let r1 = random_u64();
        let r2 = random_u64();
        push_hex_fixed(&mut t, r1, 16);
        push_hex_fixed(&mut t, r2, 16);
        let token = string_of(&t);
        proof {
            use_type_invariant(&*self);
            assert(token@ == token_text(r1, r2));
        }
        self.endpoint = Some((port, token));
        proof {
            assert(self.endpoint_of() == Some((port, token_text(r1, r2))));
        }
        true
    }

    /// The index of the registration held under `id`.
    fn index_of(&self, id: &str) -> (r: Option<usize>)
        ensures
            match r {
                Some(i) => i < self.entries@.len() && self.entries@[i as int].0@ == id@ && reg_pos(
                    self.registrations(),
                    id@,
                ) == i && self.holds(id@),
                None => !self.holds(id@),
            },
    {
        proof {
            use_type_invariant(self);
        }
        let r = find_reg(&self.entries, id);
        proof {
            let rs = self.registrations();
            match r {
                Some(i) => {
                    assert(rs[i as int].0 == id@);
                    lemma_reg_pos(rs, i as int);
                },
                None => {
                    if has_reg(rs, id@) {
                        let k = choose|k: int| 0 <= k < rs.len() && #[trigger] rs[k].0 == id@;
                        assert(self.entries@[k].0@ == id@);
                    }
                },
            }
        }
        r
    }

    /// The registration held under `id`, if any: its URL, headers and learned metadata.
    pub fn lookup(&self, id: &str) -> (r: Option<&Registration>)
        ensures
            r is Some == self.holds(id@),
            r matches Some(reg) ==> reg.url@ == self.url_of(id@) && headers_view(reg.headers@)
                == self.headers_of(id@) && reg.meta == self.meta_for(id@),
    {
        match self.index_of(id) {
            Some(i) => Some(&self.entries[i].1),
            None => None,
        }
    }

    /// Register one stream URL with the headers it needs and return the loopback URL the player
    /// should be handed. `None`, changing nothing, means the direct URL has to be used: the proxy
    /// was switched off (`disabled`), it never started, or the URL is empty. The new registration
    /// goes last; the oldest are dropped first to stay within `MAX_REGISTRATIONS`, so the playing
    /// track and the next one are always both held.
    pub fn register(&mut self, url: &str, headers: Vec<(String, String)>, disabled: bool) -> (r:
        Option<String>)
        ensures
            r is Some <==> (url@.len() > 0 && !disabled && old(self).endpoint_of() is Some),
            r is None ==> final(self).endpoint_of() == old(self).endpoint_of()
                && final(self).registrations() == old(self).registrations(),
            r is Some ==> final(self).endpoint_of() == old(self).endpoint_of(),
            r is Some ==> exists|n: u64|
                #![trigger hex16(n)]
                registered_as(
                    old(self).registrations(),
                    old(self).endpoint_of(),
                    final(self).registrations(),
                    n,
                    r->0@,
                    url@,
                    headers@,
                ),
            final(self).queued() <= MAX_REGISTRATIONS,
    {
        proof {
            use_type_invariant(&*self);
        }
        if url.is_empty() || disabled {
            return None;
        }
        let (port, token) = match &self.endpoint {
            Some((p, t)) => (*p, t.clone()),
            None => return None,
        };
        let ghost hv = headers@;
        let mut idv: Vec<char> = Vec::new();
        let n = random_u64();
        push_hex_fixed(&mut idv, n, 16);
        let id = string_of(&idv);
        let mut entries: Vec<(String, Registration)> = Vec::new();
        std::mem::swap(&mut entries, &mut self.entries);
        proof {
            assert(entries@.map_values(|e: (String, Registration)| reg_view(e))
                == old(self).registrations());
        }
        let reg = Registration { url: url.to_owned(), headers, meta: None };
        let idc = id.clone();
        proof {
            assert(reg_view((idc, reg)) == (id@, url@, headers_view(hv), None::<Meta>));
        }
        replace_registration(&mut entries, idc, reg);
        self.entries = entries;
        let mut out: Vec<char> = Vec::new();
        let prefix = ['h', 't', 't', 'p', ':', '/', '/', '1', '2', '7', '.', '0', '.', '0', '.', '1', ':'];
        push_all(&mut out, &prefix);
        push_decimal(&mut out, port as u64);
        out.push('/');
        let tv = chars_of(token.as_str());
        push_all(&mut out, &tv);
        out.push('/');
        out.push('a');
        out.push('/');
        push_all(&mut out, &idv);
        proof {
            assert(prefix@ == loopback_prefix());
            assert(out@ == loopback_url(port, token@, id@));
            assert(id@ == hex16(n));
            assert(self.registrations() == make_room(without_reg(old(self).registrations(), id@)).push(
                (id@, url@, headers_view(hv), None::<Meta>),
            ));
        }
        let u = string_of(&out);
        proof {
            assert(registered_as(
                old(self).registrations(),
                old(self).endpoint_of(),
                self.registrations(),
                n,
                u@,
                url@,
                headers@,
            ));
        }
        Some(u)
    }
}

/// The registry `entries` with `reg` registered under `id`: a registration already under `id`
/// goes, then the oldest go until there is room, then the new one goes last.
fn replace_registration(entries: &mut Vec<(String, Registration)>, id: String, reg: Registration)
    requires
        regs_distinct(old(entries)@.map_values(|e: (String, Registration)| reg_view(e))),
        old(entries)@.len() <= MAX_REGISTRATIONS,
    ensures
        final(entries)@.map_values(|e: (String, Registration)| reg_view(e)) == make_room(
            without_reg(old(entries)@.map_values(|e: (String, Registration)| reg_view(e)), id@),
        ).push(reg_view((id, reg))),
        regs_distinct(final(entries)@.map_values(|e: (String, Registration)| reg_view(e))),
        final(entries)@.len() <= MAX_REGISTRATIONS,
{
    let ghost rs0 = entries@.map_values(|e: (String, Registration)| reg_view(e));
    match find_reg(entries, id.as_str()) {
        Some(i) => {
            entries.remove(i);
            proof {
                lemma_reg_pos(rs0, i as int);
                assert(entries@.map_values(|e: (String, Registration)| reg_view(e)) =~= rs0.remove(
                    i as int,
                ));
            }
        },
        None => {
            proof {
                if has_reg(rs0, id@) {
                    let k = choose|k: int| 0 <= k < rs0.len() && #[trigger] rs0[k].0 == id@;
                    assert(entries@[k].0@ == id@);
                }
            }
        },
    }
    let ghost rs1 = without_reg(rs0, id@);
    proof {
        lemma_without_reg(rs0, id@);
    }
    let ghost mut k: int = 0;
    while entries.len() >= MAX_REGISTRATIONS
        invariant
            0 <= k <= rs1.len(),
            rs1.len() <= MAX_REGISTRATIONS,
            entries@.len() == rs1.len() - k,
            entries@.map_values(|e: (String, Registration)| reg_view(e)) == rs1.skip(k),
            k > 0 ==> rs1.len() - k >= MAX_REGISTRATIONS - 1,
        decreases entries@.len(),
    {
        let ghost before = entries@;
        entries.remove(0);
        proof {
            assert forall|i: int| 0 <= i < entries@.len() implies reg_view(#[trigger] entries@[i])
                == rs1.skip(k + 1)[i] by {
                assert(entries@[i] == before[i + 1]);
                assert(reg_view(before[i + 1]) == before.map_values(
                    |e: (String, Registration)| reg_view(e),
                )[i + 1]);
            }
            assert(entries@.map_values(|e: (String, Registration)| reg_view(e)) =~= rs1.skip(
                k + 1,
            ));
            k = k + 1;
        }
    }
    proof {
        if rs1.len() >= MAX_REGISTRATIONS {
            assert(k == rs1.len() - (MAX_REGISTRATIONS - 1));
        } else {
            assert(k == 0);
            assert(rs1.skip(0) =~= rs1);
        }
        lemma_make_room(rs1, id@);
    }
    let ghost rs2 = make_room(rs1);
    let ghost nv = reg_view((id, reg));
    entries.push((id, reg));
    proof {
        assert(entries@.map_values(|e: (String, Registration)| reg_view(e)) =~= rs2.push(nv));
        let rs3 = rs2.push(nv);
        assert forall|i: int, j: int| 0 <= i < j < rs3.len() implies #[trigger] rs3[i].0
            != #[trigger] rs3[j].0 by {
            if j == rs3.len() - 1 {
                assert(rs3[i] == rs2[i]);
                assert(rs2[i].0 != nv.0);
            } else {
                assert(rs3[i] == rs2[i] && rs3[j] == rs2[j]);
            }
        }
    }
}

/// Dropping the registration under `id` keeps the rest distinct, and leaves none under `id`.
proof fn lemma_without_reg<A, B, C>(rs: Seq<(Seq<char>, A, B, C)>, id: Seq<char>)
    requires
        regs_distinct(rs),
    ensures
        regs_distinct(without_reg(rs, id)),
        !has_reg(without_reg(rs, id), id),
        without_reg(rs, id).len() <= rs.len(),
{
    let w = without_reg(rs, id);
    if has_reg(rs, id) {
        let p = reg_pos(rs, id);
        assert forall|i: int, j: int| 0 <= i < j < w.len() implies #[trigger] w[i].0
            != #[trigger] w[j].0 by {
            let a = if i < p { i } else { i + 1 };
            let b = if j < p { j } else { j + 1 };
            assert(w[i] == rs[a] && w[j] == rs[b]);
        }
        if has_reg(w, id) {
            let k = choose|k: int| 0 <= k < w.len() && #[trigger] w[k].0 == id;
            let a = if k < p { k } else { k + 1 };
            assert(w[k] == rs[a]);
            if a < p {
                assert(rs[a].0 != rs[p].0);
            } else {
                assert(rs[p].0 != rs[a].0);
            }
        }
    }
}

/// Making room keeps the registrations distinct and adds no id.
proof fn lemma_make_room<A, B, C>(rs: Seq<(Seq<char>, A, B, C)>, id: Seq<char>)
    requires
        regs_distinct(rs),
        !has_reg(rs, id),
    ensures
        regs_distinct(make_room(rs)),
        !has_reg(make_room(rs), id),
        make_room(rs).len() < MAX_REGISTRATIONS,
{
    let m = make_room(rs);
    if rs.len() >= MAX_REGISTRATIONS {
        let d = rs.len() - (MAX_REGISTRATIONS - 1);
        assert forall|i: int, j: int| 0 <= i < j < m.len() implies #[trigger] m[i].0
            != #[trigger] m[j].0 by {
            assert(m[i] == rs[i + d] && m[j] == rs[j + d]);
        }
        if has_reg(m, id) {
            let k = choose|k: int| 0 <= k < m.len() && #[trigger] m[k].0 == id;
            assert(m[k] == rs[k + d]);
        }
    }
}

/// The request method, as far as the proxy cares.
#[derive(Debug, Clone, Copy, PartialEq, Eq, Structural)]
pub enum Method {
    Get,
    Head,
    Other,
}

/// `405 Method Not Allowed`
pub const STATUS_METHOD_NOT_ALLOWED: u16 = 405;
/// `404 Not Found`
pub const STATUS_NOT_FOUND: u16 = 404;
/// `500 Internal Server Error`
pub const STATUS_INTERNAL: u16 = 500;
/// `502 Bad Gateway`
pub const STATUS_BAD_GATEWAY: u16 = 502;
/// `504 Gateway Timeout`
pub const STATUS_GATEWAY_TIMEOUT: u16 = 504;
/// `416 Range Not Satisfiable`
pub const STATUS_RANGE_NOT_SATISFIABLE: u16 = 416;
/// `206 Partial Content`
pub const STATUS_PARTIAL: u16 = 206;
/// `200 OK`
pub const STATUS_OK: u16 = 200;

impl AudioProxy {
    /// Which registration a request addresses, or the status to answer it with: 405 for anything
    /// but GET and HEAD, 500 before the proxy has started, 404 for a path this launch did not
    /// issue or a registration that has been dropped.
    pub fn route(&self, method: Method, path: &str) -> (r: Result<String, u16>)
        ensures
            method == Method::Other ==> r == Err::<String, u16>(STATUS_METHOD_NOT_ALLOWED),
            method != Method::Other && self.endpoint_of() is None ==> r == Err::<String, u16>(
                STATUS_INTERNAL,
            ),
            method != Method::Other && self.endpoint_of() is Some ==> match r {
                Ok(id) => route_id(path@, self.token()) == Some(id@) && self.holds(id@),
                Err(code) => code == STATUS_NOT_FOUND && (route_id(path@, self.token())
                    is Some ==> !self.holds(route_id(path@, self.token())->0)),
            },
    {
        if method == Method::Other {
            return Err(STATUS_METHOD_NOT_ALLOWED);
        }
        let token = match &self.endpoint {
            Some((_, t)) => t.as_str(),
            None => return Err(STATUS_INTERNAL),
        };
        let id = match id_from(path, token) {
            Some(id) => id,
            None => return Err(STATUS_NOT_FOUND),
        };
        match self.index_of(id) {
            Some(_) => Ok(id.to_owned()),
            None => Err(STATUS_NOT_FOUND),
        }
    }

    /// The stream metadata learned for `id`, if any has been.
    pub fn meta_of(&self, id: &str) -> (r: Option<&Meta>)
        ensures
            r is Some ==> self.holds(id@),
            match r {
                Some(m) => self.meta_for(id@) == Some(*m),
                None => self.meta_for(id@) is None,
            },
    {
        match self.index_of(id) {
            Some(i) => match &self.entries[i].1.meta {
                Some(m) => Some(m),
                None => None,
            },
            None => None,
        }
    }

    /// Remember what upstream said about `id`'s stream, so later connections skip the probe.
    /// Nothing else changes; an id that is not held learns nothing.
    pub fn learn_meta(&mut self, id: &str, meta: Meta)
        ensures
            final(self).endpoint_of() == old(self).endpoint_of(),
            final(self).registrations().len() == old(self).registrations().len(),
            forall|k: int|
                0 <= k < old(self).registrations().len() ==> #[trigger] final(self).registrations()[k] == if old(self).registrations()[k].0 == id@ {
                    (
                        old(self).registrations()[k].0,
                        old(self).registrations()[k].1,
                        old(self).registrations()[k].2,
                        Some(meta),
                    )
                } else {
                    old(self).registrations()[k]
                },
            final(self).meta_for(id@) == if old(self).holds(id@) {
                Some(meta)
            } else {
                None::<Meta>
            },
            forall|x: Seq<char>| x != id@ ==> #[trigger] final(self).meta_for(x) == old(self).meta_for(x),
    {
        proof {
            use_type_invariant(&*self);
        }
        let ghost rs0 = self.registrations();
        let found = self.index_of(id);
        let mut entries: Vec<(String, Registration)> = Vec::new();
        std::mem::swap(&mut entries, &mut self.entries);
        proof {
            assert(entries@.map_values(|e: (String, Registration)| reg_view(e)) == rs0);
        }
        let ghost m = meta;
        match found {
            Some(i) => {
                let (key, mut reg) = entries.remove(i);
                reg.meta = Some(meta);
                entries.insert(i, (key, reg));
            },
            None => {},
        }
        let ghost rs1 = entries@.map_values(|e: (String, Registration)| reg_view(e));
        proof {
            assert(rs1.len() == rs0.len());
            assert forall|k: int| 0 <= k < rs0.len() implies #[trigger] rs1[k] == if rs0[k].0
                == id@ {
                (rs0[k].0, rs0[k].1, rs0[k].2, Some(m))
            } else {
                rs0[k]
            } by {
                match found {
                    Some(i) => {
                        if k == i {
                        } else {
                            assert(rs0[k].0 != rs0[i as int].0) by {
                                if k < i {
                                } else {
                                }
                            }
                        }
                    },
                    None => {
                        assert(rs0[k].0 != id@);
                    },
                }
            }
            assert forall|i: int, j: int| 0 <= i < j < rs1.len() implies #[trigger] rs1[i].0
                != #[trigger] rs1[j].0 by {
                assert(rs1[i].0 == rs0[i].0 && rs1[j].0 == rs0[j].0);
            }
        }
        self.entries = entries;
        proof {
            let rs = self.registrations();
            assert(rs == rs1);
            if old(self).holds(id@) {
                let i = reg_pos(rs0, id@);
                lemma_reg_pos(rs0, i);
                assert(rs[i].0 == id@);
                lemma_reg_pos(rs, i);
            } else {
                if has_reg(rs, id@) {
                    let k = choose|k: int| 0 <= k < rs.len() && #[trigger] rs[k].0 == id@;
                    assert(rs0[k].0 == id@);
                }
            }
            assert forall|x: Seq<char>| x != id@ implies #[trigger] self.meta_for(x) == old(
                self,
            ).meta_for(x) by {
                if has_reg(rs0, x) {
                    let i = reg_pos(rs0, x);
                    lemma_reg_pos(rs0, i);
                    assert(rs[i].0 == x);
                    lemma_reg_pos(rs, i);
                } else if has_reg(rs, x) {
                    let k = choose|k: int| 0 <= k < rs.len() && #[trigger] rs[k].0 == x;
                    assert(rs0[k].0 == x);
                }
            }
        }
    }
}

/// What the first upstream answer to a single-byte probe says about the stream: its total length
/// when the answer is a `206` carrying a readable `Content-Range`, else `502`. Anything but a 206,
/// a whole-file 200 included, is refused: every byte served comes from a bounded range.
pub fn meta_from_probe(status: u16, content_range: Option<&str>, content_type: Option<String>) -> (r:
    Result<Meta, u16>)
    ensures
        match r {
            Ok(m) => status == STATUS_PARTIAL && content_range is Some && content_range_total(
                content_range->0@,
            ) == Some(m.total) && m.content_type == content_type,
            Err(code) => code == STATUS_BAD_GATEWAY && (status != STATUS_PARTIAL
                || content_range is None || content_range_total(content_range->0@) is None),
        },
{
    if status != STATUS_PARTIAL {
        return Err(STATUS_BAD_GATEWAY);
    }
    let v = match content_range {
        Some(v) => v,
        None => return Err(STATUS_BAD_GATEWAY),
    };
    match total_from_content_range(v) {
        Some(total) => Ok(Meta { total, content_type }),
        None => Err(STATUS_BAD_GATEWAY),
    }
}

/// The answer to a loopback request for a stream whose metadata is known.
pub struct ProxyResponse {
    pub status: u16,
    pub accept_ranges: bool,
    pub content_length: Option<u64>,
    pub content_type: Option<String>,
    pub content_range: Option<String>,
    /// The inclusive byte window the body streams, `None` for an empty body.
    pub body: Option<(u64, u64)>,
}

/// `bytes `
pub open spec fn bytes_word() -> Seq<char> {
    seq!['b', 'y', 't', 'e', 's', ' ']
}

/// `bytes <first>-<last>/<total>`
pub open spec fn content_range_value(first: u64, last: u64, total: u64) -> Seq<char> {
    bytes_word() + decimal(first as nat) + seq!['-'] + decimal(last as nat) + seq!['/'] + decimal(
        total as nat,
    )
}

/// `bytes */<total>`
pub open spec fn unsatisfiable_range_value(total: u64) -> Seq<char> {
    bytes_word() + seq!['*', '/'] + decimal(total as nat)
}

/// A range the parser hands back is never inverted, so neither is the window it resolves to.
pub proof fn lemma_window_ordered(value: Option<Seq<char>>, total: u64)
    ensures
        window(range_want(value), total) matches Some((a, b)) ==> a <= b,
{
}

/// The head of the answer, and the window its body streams, for a request carrying `range`
/// against a stream described by `meta`. A range starting past the end is a `416` naming the
/// total; anything else is a `200` for the whole file or a `206` for a range, with the exact
/// length, and a body unless the request was a HEAD.
pub fn respond(head: bool, range: Option<&str>, meta: &Meta) -> (r: ProxyResponse)
    ensures
        ({
            let want = range_want(
                match range {
                    Some(v) => Some(v@),
                    None => None,
                },
            );
            match window(want, meta.total) {
                None => {
                    &&& r.status == STATUS_RANGE_NOT_SATISFIABLE
                    &&& r.content_range is Some
                    &&& r.content_range->0@ == unsatisfiable_range_value(meta.total)
                    &&& !r.accept_ranges
                    &&& r.content_length is None
                    &&& r.content_type is None
                    &&& r.body is None
                },
                Some((a, b)) => {
                    &&& a <= b
                    &&& r.status == (if want == Want::Full {
                        STATUS_OK
                    } else {
                        STATUS_PARTIAL
                    })
                    &&& r.accept_ranges
                    &&& r.content_length == Some((b - a + 1) as u64)
                    &&& r.content_type == meta.content_type
                    &&& (want == Want::Full ==> r.content_range is None)
                    &&& (want != Want::Full ==> r.content_range is Some && r.content_range->0@
                        == content_range_value(a, b, meta.total))
                    &&& r.body == (if head {
                        None
                    } else {
                        Some((a, b))
                    })
                },
            }
        }),
{
    let want = parse_range(range);
    proof {
        lemma_window_ordered(
            match range {
                Some(v) => Some(v@),
                None => None,
            },
            meta.total,
        );
    }
    match resolve_window(want, meta.total) {
        None => {
            let mut cr: Vec<char> = Vec::new();
            let word = ['b', 'y', 't', 'e', 's', ' '];
            push_all(&mut cr, &word);
            cr.push('*');
            cr.push('/');
            push_decimal(&mut cr, meta.total);
            proof {
                assert(word@ == bytes_word());
                assert(cr@ == unsatisfiable_range_value(meta.total));
            }
            ProxyResponse {
                status: STATUS_RANGE_NOT_SATISFIABLE,
                accept_ranges: false,
                content_length: None,
                content_type: None,
                content_range: Some(string_of(&cr)),
                body: None,
            }
        },
        Some((start, end)) => {
            let ranged = want != Want::Full;
            let content_range = if ranged {
                let mut cr: Vec<char> = Vec::new();
                let word = ['b', 'y', 't', 'e', 's', ' '];
                push_all(&mut cr, &word);
                push_decimal(&mut cr, start);
                cr.push('-');
                push_decimal(&mut cr, end);
                cr.push('/');
                push_decimal(&mut cr, meta.total);
                proof {
                    assert(word@ == bytes_word());
                    assert(cr@ == content_range_value(start, end, meta.total));
                }
                Some(string_of(&cr))
            } else {
                None
            };
            let content_type = match &meta.content_type {
                Some(t) => Some(t.clone()),
                None => None,
            };
            ProxyResponse {
                status: if ranged {
                    STATUS_PARTIAL
                } else {
                    STATUS_OK
                },
                accept_ranges: true,
                content_length: Some(end - start + 1),
                content_type,
                content_range,
                body: if head {
                    None
                } else {
                    Some((start, end))
                },
            }
        },
    }
}

/// `hex_fixed(n, w)` has exactly `w` digits.
pub proof fn lemma_hex_fixed_len(n: nat, w: nat)
    ensures
        hex_fixed(n, w).len() == w,
    decreases w,
{
    if w > 0 {
        lemma_hex_fixed_len(n / 16, (w - 1) as nat);
    }
}


/// The headers of an upstream range request for bytes `start..=end`: the range, an identity
/// encoding (a compressed body would not line up with byte offsets), then the registration's own
/// headers in order.
pub open spec fn upstream_headers_spec(own: Seq<(String, String)>, start: nat, end: nat) -> Seq<
    (Seq<char>, Seq<char>),
> {
    seq![
        ("range"@, "bytes="@ + decimal(start) + "-"@ + decimal(end)),
        ("accept-encoding"@, "identity"@),
    ] + own.map_values(|h: (String, String)| (h.0@, h.1@))
}

/// The headers to send upstream for bytes `start..=end` of a registered stream.
pub fn upstream_headers(own: &[(String, String)], start: u64, end: u64) -> (r: Vec<(String, String)>)
    ensures
        r@.len() == upstream_headers_spec(own@, start as nat, end as nat).len(),
        forall|i: int|
            0 <= i < r@.len() ==> (#[trigger] r@[i]).0@ == upstream_headers_spec(
                own@,
                start as nat,
                end as nat,
            )[i].0 && r@[i].1@ == upstream_headers_spec(own@, start as nat, end as nat)[i].1,
{
    let ghost want = upstream_headers_spec(own@, start as nat, end as nat);
    let mut range = chars_of("bytes=");
    push_decimal(&mut range, start);
    crate::text::push_str(&mut range, "-");
    push_decimal(&mut range, end);
    let mut out: Vec<(String, String)> = Vec::new();
    out.push((string_of(&chars_of("range")), string_of(&range)));
    out.push((string_of(&chars_of("accept-encoding")), string_of(&chars_of("identity"))));
    let mut i: usize = 0;
    while i < own.len()
        invariant
            i <= own@.len(),
            want == upstream_headers_spec(own@, start as nat, end as nat),
            want.len() == own@.len() + 2,
            out@.len() == i + 2,
            forall|j: int|
                0 <= j < out@.len() ==> (#[trigger] out@[j]).0@ == want[j].0 && out@[j].1@
                    == want[j].1,
        decreases own@.len() - i,
    {
        let k = string_of(&chars_of(own[i].0.as_str()));
        let v = string_of(&chars_of(own[i].1.as_str()));
        out.push((k, v));
        i += 1;
    }
    out
}

} // verus!
