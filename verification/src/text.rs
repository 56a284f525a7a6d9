//! Character-level string helpers shared by every parser in the crate.

use vstd::prelude::*;
use vstd::utf8::encode_utf8;

verus! {

/// Appends one character to a `String` (`String::push`).
///
/// Trusted: std documents `push` as appending the given `char` to the end of the string, which is
/// all this claims.
#[verifier::external_body]
pub(crate) fn push_char(s: &mut String, c: char)
    ensures
        final(s)@ == old(s)@.push(c),
{
    s.push(c);
}

/// The characters of `s`, in order.
pub fn chars_of(s: &str) -> (v: Vec<char>)
    ensures
        v@ == s@,
{
    let mut v: Vec<char> = Vec::new();
    for c in it: s.chars()
        invariant
            v@ == it.seq().take(it.index() as int),
    {
        v.push(c);
    }
    v
}

/// A `String` holding exactly the given characters.
pub fn string_of(v: &[char]) -> (s: String)
    ensures
        s@ == v@,
{
    let mut s = String::new();
    let mut i: usize = 0;
    while i < v.len()
        invariant
            i <= v@.len(),
            s@ == v@.take(i as int),
        decreases v@.len() - i,
    {
        push_char(&mut s, v[i]);
        proof { assert(v@.take(i + 1) == v@.take(i as int).push(v@[i as int])); }
        i += 1;
    }
    proof { assert(v@.take(v@.len() as int) == v@); }
    s
}


/// `char::is_whitespace`: the characters with Unicode's `White_Space` property.
pub open spec fn is_ws(c: char) -> bool {
    ||| c == ' '
    ||| ('\u{9}' <= c && c <= '\u{d}')
    ||| c == '\u{85}'
    ||| c == '\u{a0}'
    ||| c == '\u{1680}'
    ||| ('\u{2000}' <= c && c <= '\u{200a}')
    ||| c == '\u{2028}'
    ||| c == '\u{2029}'
    ||| c == '\u{202f}'
    ||| c == '\u{205f}'
    ||| c == '\u{3000}'
}

/// Executable `is_ws`.
pub fn is_whitespace(c: char) -> (b: bool)
    ensures
        b == is_ws(c),
{
    c == ' ' || ('\u{9}' <= c && c <= '\u{d}') || c == '\u{85}' || c == '\u{a0}' || c == '\u{1680}'
        || ('\u{2000}' <= c && c <= '\u{200a}') || c == '\u{2028}' || c == '\u{2029}' || c
        == '\u{202f}' || c == '\u{205f}' || c == '\u{3000}'
}

/// `s` without its leading whitespace.
pub open spec fn trim_start(s: Seq<char>) -> Seq<char>
    decreases s.len(),
{
    if s.len() > 0 && is_ws(s[0]) {
        trim_start(s.drop_first())
    } else {
        s
    }
}

/// `s` without its trailing whitespace.
pub open spec fn trim_end(s: Seq<char>) -> Seq<char>
    decreases s.len(),
{
    if s.len() > 0 && is_ws(s.last()) {
        trim_end(s.drop_last())
    } else {
        s
    }
}

/// `str::trim`: whitespace removed from both ends.
pub open spec fn trim(s: Seq<char>) -> Seq<char> {
    trim_end(trim_start(s))
}

/// The bounds `[i, j)` of `trim(v[lo..hi])` inside `v`.
pub fn trim_bounds(v: &[char], lo: usize, hi: usize) -> (r: (usize, usize))
    requires
        lo <= hi <= v@.len(),
    ensures
        lo <= r.0 <= r.1 <= hi,
        v@.subrange(r.0 as int, r.1 as int) == trim(v@.subrange(lo as int, hi as int)),
{
    let mut i = lo;
    while i < hi && is_whitespace(v[i])
        invariant
            lo <= i <= hi <= v@.len(),
            trim_start(v@.subrange(lo as int, hi as int)) == trim_start(
                v@.subrange(i as int, hi as int),
            ),
        decreases hi - i,
    {
        proof {
            assert(v@.subrange(i as int, hi as int).drop_first() == v@.subrange(
                i + 1,
                hi as int,
            ));
        }
        i += 1;
    }
    proof {
        assert(trim_start(v@.subrange(i as int, hi as int)) == v@.subrange(i as int, hi as int));
    }
    let mut j = hi;
    while j > i && is_whitespace(v[j - 1])
        invariant
            lo <= i <= j <= hi <= v@.len(),
            trim_end(v@.subrange(i as int, hi as int)) == trim_end(
                v@.subrange(i as int, j as int),
            ),
        decreases j - i,
    {
        proof {
            assert(v@.subrange(i as int, j as int).drop_last() == v@.subrange(
                i as int,
                j - 1,
            ));
        }
        j -= 1;
    }
    (i, j)
}

/// The first index at or after `k` holding `c`.
pub open spec fn find_from(s: Seq<char>, k: int, c: char) -> Option<int>
    decreases s.len() - k,
{
    if k < 0 || k >= s.len() {
        None
    } else if s[k] == c {
        Some(k)
    } else {
        find_from(s, k + 1, c)
    }
}

/// `str::find` for one character: the first index holding `c`.
pub open spec fn find(s: Seq<char>, c: char) -> Option<int> {
    find_from(s, 0, c)
}

/// The last index below `k` holding `c`.
pub open spec fn rfind_below(s: Seq<char>, k: int, c: char) -> Option<int>
    decreases k,
{
    if k <= 0 || k > s.len() {
        None
    } else if s[k - 1] == c {
        Some(k - 1)
    } else {
        rfind_below(s, k - 1, c)
    }
}

/// `str::rfind` for one character: the last index holding `c`.
pub open spec fn rfind(s: Seq<char>, c: char) -> Option<int> {
    rfind_below(s, s.len() as int, c)
}

/// `str::split_once` on a character: the text before and after its first occurrence.
pub open spec fn split_once(s: Seq<char>, c: char) -> Option<(Seq<char>, Seq<char>)> {
    match find(s, c) {
        Some(i) => Some((s.take(i), s.skip(i + 1))),
        None => None,
    }
}

/// `str::rsplit_once` on a character: the text before and after its last occurrence.
pub open spec fn rsplit_once(s: Seq<char>, c: char) -> Option<(Seq<char>, Seq<char>)> {
    match rfind(s, c) {
        Some(i) => Some((s.take(i), s.skip(i + 1))),
        None => None,
    }
}

/// `s.split(c).next()`: everything before the first `c` (all of `s` without one).
pub open spec fn before_first(s: Seq<char>, c: char) -> Seq<char> {
    match find(s, c) {
        Some(i) => s.take(i),
        None => s,
    }
}

/// `str::strip_prefix`.
pub open spec fn strip_prefix(s: Seq<char>, p: Seq<char>) -> Option<Seq<char>> {
    if p.len() <= s.len() && s.take(p.len() as int) == p {
        Some(s.skip(p.len() as int))
    } else {
        None
    }
}

/// The first index in `v[lo..hi]` holding `c`, as an index into `v`.
pub fn find_char(v: &[char], lo: usize, hi: usize, c: char) -> (r: Option<usize>)
    requires
        lo <= hi <= v@.len(),
    ensures
        match r {
            Some(j) => lo <= j < hi && v@[j as int] == c && find(
                v@.subrange(lo as int, hi as int),
                c,
            ) == Some(j - lo),
            None => find(v@.subrange(lo as int, hi as int), c) is None,
        },
{
    let ghost sub = v@.subrange(lo as int, hi as int);
    let mut i = lo;
    while i < hi
        invariant
            lo <= i <= hi <= v@.len(),
            sub == v@.subrange(lo as int, hi as int),
            find(sub, c) == find_from(sub, i - lo, c),
        decreases hi - i,
    {
        proof {
            assert(sub[i - lo] == v@[i as int]);
        }
        if v[i] == c {
            return Some(i);
        }
        i += 1;
    }
    None
}

/// The last index in `v[lo..hi]` holding `c`, as an index into `v`.
pub fn rfind_char(v: &[char], lo: usize, hi: usize, c: char) -> (r: Option<usize>)
    requires
        lo <= hi <= v@.len(),
    ensures
        match r {
            Some(j) => lo <= j < hi && v@[j as int] == c && rfind(
                v@.subrange(lo as int, hi as int),
                c,
            ) == Some(j - lo),
            None => rfind(v@.subrange(lo as int, hi as int), c) is None,
        },
{
    let ghost sub = v@.subrange(lo as int, hi as int);
    let mut j = hi;
    while j > lo
        invariant
            lo <= j <= hi <= v@.len(),
            sub == v@.subrange(lo as int, hi as int),
            rfind(sub, c) == rfind_below(sub, j - lo, c),
        decreases j - lo,
    {
        proof {
            assert(sub[j - 1 - lo] == v@[j - 1]);
        }
        if v[j - 1] == c {
            return Some(j - 1);
        }
        j -= 1;
    }
    None
}

/// Whether `v[lo..]` starts with `p`.
pub fn starts_with_at(v: &[char], lo: usize, p: &[char]) -> (b: bool)
    requires
        lo <= v@.len(),
    ensures
        b == (p@.len() <= v@.len() - lo && v@.subrange(lo as int, lo + p@.len()) == p@),
{
    let n = v.len();
    if p.len() > n - lo {
        return false;
    }
    let mut k: usize = 0;
    while k < p.len()
        invariant
            n == v@.len(),
            lo <= v@.len(),
            k <= p@.len() <= v@.len() - lo,
            v@.subrange(lo as int, lo + k) == p@.take(k as int),
        decreases p@.len() - k,
    {
        if v[lo + k] != p[k] {
            proof {
                assert(v@.subrange(lo as int, lo + p@.len())[k as int] != p@[k as int]);
            }
            return false;
        }
        proof {
            assert(v@.subrange(lo as int, lo + k + 1) == v@.subrange(lo as int, lo + k).push(
                v@[lo + k],
            ));
            assert(p@.take(k + 1) == p@.take(k as int).push(p@[k as int]));
        }
        k += 1;
    }
    proof {
        assert(p@.take(p@.len() as int) == p@);
    }
    true
}

/// An ASCII decimal digit.
pub open spec fn is_digit(c: char) -> bool {
    '0' <= c && c <= '9'
}

/// The value of a decimal digit.
pub open spec fn digit_value(c: char) -> nat {
    (c as int - '0' as int) as nat
}

/// Every character of `s` is a decimal digit.
pub open spec fn all_digits(s: Seq<char>) -> bool {
    forall|i: int| 0 <= i < s.len() ==> is_digit(#[trigger] s[i])
}

/// The number a run of decimal digits spells, most significant first.
pub open spec fn digits_value(s: Seq<char>) -> nat
    decreases s.len(),
{
    if s.len() == 0 {
        0
    } else {
        digits_value(s.drop_last()) * 10 + digit_value(s.last())
    }
}

/// `<u64 as FromStr>::from_str`: an optional `+`, then one or more decimal digits whose value fits
/// in a `u64`. Anything else (a sign alone, a `-`, a stray character, an overflow) is an error.
pub open spec fn parse_u64(s: Seq<char>) -> Option<u64> {
    let d = if s.len() > 0 && s[0] == '+' {
        s.drop_first()
    } else {
        s
    };
    if d.len() > 0 && all_digits(d) && digits_value(d) <= u64::MAX {
        Some(digits_value(d) as u64)
    } else {
        None
    }
}

/// Executable `parse_u64` on `v[lo..hi]`.
pub fn parse_u64_in(v: &[char], lo: usize, hi: usize) -> (r: Option<u64>)
    requires
        lo <= hi <= v@.len(),
    ensures
        r == parse_u64(v@.subrange(lo as int, hi as int)),
{
    let ghost s = v@.subrange(lo as int, hi as int);
    let mut start = lo;
    if lo < hi && v[lo] == '+' {
        start = lo + 1;
    }
    let ghost d = v@.subrange(start as int, hi as int);
    proof {
        if lo < hi {
            assert(s[0] == v@[lo as int]);
        }
        if lo < hi && v@[lo as int] == '+' {
            assert(s.drop_first() == d);
        } else {
            assert(s == d);
        }
        assert(d == (if s.len() > 0 && s[0] == '+' { s.drop_first() } else { s }));
    }
    if start == hi {
        return None;
    }
    let mut acc: u64 = 0;
    let mut over = false;
    let mut i = start;
    while i < hi
        invariant
            lo <= start <= i <= hi <= v@.len(),
            d == v@.subrange(start as int, hi as int),
            s == v@.subrange(lo as int, hi as int),
            d == (if s.len() > 0 && s[0] == '+' { s.drop_first() } else { s }),
            all_digits(v@.subrange(start as int, i as int)),
            !over ==> acc as nat == digits_value(v@.subrange(start as int, i as int)),
            over ==> digits_value(v@.subrange(start as int, i as int)) > u64::MAX,
        decreases hi - i,
    {
        let c = v[i];
        let ghost pre = v@.subrange(start as int, i as int);
        let ghost next = v@.subrange(start as int, i + 1);
        proof {
            assert(next.drop_last() == pre);
        }
        if !('0' <= c && c <= '9') {
            proof {
                assert(d[i - start] == c);
                assert(!is_digit(d[i - start]));
                assert(!all_digits(d));
            }
            return None;
        }
        let dv = (c as u32 - '0' as u32) as u64;
        if !over {
            if acc > (u64::MAX - dv) / 10 {
                over = true;
            } else {
                acc = acc * 10 + dv;
            }
        }
        proof {
            assert(next.last() == c);
            assert forall|k: int| 0 <= k < next.len() implies is_digit(#[trigger] next[k]) by {
                if k < pre.len() {
                    assert(next[k] == pre[k]);
                }
            }
        }
        i += 1;
    }
    if over {
        None
    } else {
        Some(acc)
    }
}

/// `str::parse::<i64>`: an optional `+` or `-`, then at least one decimal digit, in range.
pub open spec fn parse_i64(s: Seq<char>) -> Option<i64> {
    if s.len() > 0 && s[0] == '-' {
        let d = s.drop_first();
        if d.len() > 0 && all_digits(d) && digits_value(d) <= 0x8000_0000_0000_0000 {
            Some((-(digits_value(d) as int)) as i64)
        } else {
            None
        }
    } else {
        match parse_u64(s) {
            Some(n) => if n <= i64::MAX {
                Some(n as i64)
            } else {
                None
            },
            None => None,
        }
    }
}

/// Executable `parse_i64`.
pub fn parse_i64_str(s: &str) -> (r: Option<i64>)
    ensures
        r == parse_i64(s@),
{
    let v = chars_of(s);
    let n = v.len();
    if n > 0 && v[0] == '-' {
        let ghost d = v@.drop_first();
        proof {
            assert(v@.subrange(1, n as int) == d);
        }
        if n > 1 && v[1] == '+' {
            proof {
                assert(!crate::text::is_digit(d[0]));
            }
            return None;
        }
        let m = parse_u64_in(&v, 1, n);
        proof {
            if n > 1 {
                assert(d[0] == v@[1]);
            }
            assert(!(d.len() > 0 && d[0] == '+'));
        }
        match m {
            Some(x) => {
                if x <= 0x8000_0000_0000_0000 {
                    let r = (0i128 - x as i128) as i64;
                    Some(r)
                } else {
                    None
                }
            },
            None => None,
        }
    } else {
        proof {
            assert(v@.subrange(0, n as int) == v@);
        }
        match parse_u64_in(&v, 0, n) {
            Some(x) => {
                if x <= i64::MAX as u64 {
                    Some(x as i64)
                } else {
                    None
                }
            },
            None => None,
        }
    }
}

/// A byte a URL carries as it is: ASCII letters and digits, `-`, `.`, `_` and `~`.
pub open spec fn unreserved(b: u8) -> bool {
    (0x30 <= b <= 0x39) || (0x41 <= b <= 0x5a) || (0x61 <= b <= 0x7a) || b == 0x2d || b == 0x2e
        || b == 0x5f || b == 0x7e
}

/// The uppercase hex digit for `d` below 16.
pub open spec fn hex_upper(d: int) -> char {
    if d < 10 {
        (('0' as int) + d) as char
    } else {
        (('A' as int) + d - 10) as char
    }
}

/// One byte, percent-encoded: itself when unreserved, else `%` and two uppercase hex digits.
pub open spec fn percent_byte(b: u8) -> Seq<char> {
    if unreserved(b) {
        seq![b as char]
    } else {
        seq!['%', hex_upper(b as int / 16), hex_upper(b as int % 16)]
    }
}

/// Bytes, percent-encoded one by one.
pub open spec fn percent_encoded(bs: Seq<u8>) -> Seq<char>
    decreases bs.len(),
{
    if bs.len() == 0 {
        Seq::empty()
    } else {
        percent_encoded(bs.drop_last()) + percent_byte(bs.last())
    }
}

/// A string made safe for a URL the way `urlencoding::encode` does it: its UTF-8 bytes,
/// unreserved ones kept and every other written as `%XX`.
pub open spec fn url_encoded(s: Seq<char>) -> Seq<char> {
    percent_encoded(encode_utf8(s))
}

fn hex_upper_digit(d: u8) -> (c: char)
    requires
        d < 16,
    ensures
        c == hex_upper(d as int),
{
    if d < 10 {
        (0x30u8 + d) as char
    } else {
        (0x41u8 + d - 10) as char
    }
}

/// Appends `url_encoded(s)` to `out`.
pub fn push_url_encoded(out: &mut Vec<char>, s: &str)
    ensures
        final(out)@ == old(out)@ + url_encoded(s@),
{
    let bytes = s.as_bytes();
    let ghost start = out@;
    let mut i: usize = 0;
    while i < bytes.len()
        invariant
            i <= bytes@.len(),
            bytes@ == encode_utf8(s@),
            out@ == start + percent_encoded(bytes@.take(i as int)),
        decreases bytes@.len() - i,
    {
        let b = bytes[i];
        let ghost before = out@;
        if (0x30 <= b && b <= 0x39) || (0x41 <= b && b <= 0x5a) || (0x61 <= b && b <= 0x7a) || b
            == 0x2d || b == 0x2e || b == 0x5f || b == 0x7e {
            out.push(b as char);
        } else {
            out.push('%');
            out.push(hex_upper_digit(b / 16));
            out.push(hex_upper_digit(b % 16));
        }
        proof {
            assert(bytes@.take(i + 1).drop_last() == bytes@.take(i as int));
            assert(bytes@.take(i + 1).last() == b);
            assert(out@ =~= before + percent_byte(b));
        }
        i += 1;
    }
    proof {
        assert(bytes@.take(bytes@.len() as int) == bytes@);
    }
}

/// The decimal digits of `n`, most significant first, with no leading zeros (`"0"` for zero).
pub open spec fn decimal(n: nat) -> Seq<char>
    decreases n,
{
    if n < 10 {
        seq![digit_char(n)]
    } else {
        decimal(n / 10).push(digit_char(n % 10))
    }
}

/// The ASCII digit for `d < 10`.
pub open spec fn digit_char(d: nat) -> char {
    (('0' as int) + d) as char
}

/// The lowercase hexadecimal digit for `d < 16`.
pub open spec fn hex_char(d: nat) -> char {
    if d < 10 {
        (('0' as int) + d) as char
    } else {
        (('a' as int) + d - 10) as char
    }
}

/// The last `width` lowercase hex digits of `n`, zero-padded: `format!("{:0width$x}", n)` for an
/// `n` below `16^width`.
pub open spec fn hex_fixed(n: nat, width: nat) -> Seq<char>
    decreases width,
{
    if width == 0 {
        Seq::empty()
    } else {
        hex_fixed(n / 16, (width - 1) as nat).push(hex_char(n % 16))
    }
}

/// Appends `decimal(n)` to `out`.
pub fn push_decimal(out: &mut Vec<char>, n: u64)
    ensures
        final(out)@ == old(out)@ + decimal(n as nat),
    decreases n,
{
    if n >= 10 {
        push_decimal(out, n / 10);
    }
    let d = (n % 10) as u32;
    let c = char_from_digit(d);
    out.push(c);
    proof {
        if n < 10 {
            assert(decimal(n as nat) == seq![digit_char(n as nat)]);
        }
    }
}

/// The ASCII digit for `d < 10`.
fn char_from_digit(d: u32) -> (c: char)
    requires
        d < 10,
    ensures
        c == digit_char(d as nat),
{
    if d == 0 { '0' }
    else if d == 1 { '1' }
    else if d == 2 { '2' }
    else if d == 3 { '3' }
    else if d == 4 { '4' }
    else if d == 5 { '5' }
    else if d == 6 { '6' }
    else if d == 7 { '7' }
    else if d == 8 { '8' }
    else { '9' }
}

/// The lowercase hex digit for `d < 16`.
fn hex_digit(d: u64) -> (c: char)
    requires
        d < 16,
    ensures
        c == hex_char(d as nat),
{
    if d < 10 {
        char_from_digit(d as u32)
    } else if d == 10 { 'a' }
    else if d == 11 { 'b' }
    else if d == 12 { 'c' }
    else if d == 13 { 'd' }
    else if d == 14 { 'e' }
    else { 'f' }
}

/// Appends `hex_fixed(n, width)` to `out`.
pub fn push_hex_fixed(out: &mut Vec<char>, n: u64, width: u32)
    ensures
        final(out)@ == old(out)@ + hex_fixed(n as nat, width as nat),
    decreases width,
{
    if width == 0 {
        proof { assert(old(out)@ + hex_fixed(n as nat, 0) == old(out)@); }
        return;
    }
    push_hex_fixed(out, n / 16, width - 1);
    out.push(hex_digit(n % 16));
}


/// Appends every character of `w` to `out`.
pub fn push_all(out: &mut Vec<char>, w: &[char])
    ensures
        final(out)@ == old(out)@ + w@,
{
    let ghost start = out@;
    let mut i: usize = 0;
    while i < w.len()
        invariant
            i <= w@.len(),
            out@ == start + w@.take(i as int),
        decreases w@.len() - i,
    {
        out.push(w[i]);
        proof {
            assert(w@.take(i + 1) == w@.take(i as int).push(w@[i as int]));
        }
        i += 1;
    }
    proof {
        assert(w@.take(w@.len() as int) == w@);
    }
}

/// Whether two strings hold the same characters.
pub fn str_eq(a: &str, b: &str) -> (r: bool)
    ensures
        r == (a@ == b@),
{
    let av = chars_of(a);
    let bv = chars_of(b);
    if av.len() != bv.len() {
        return false;
    }
    let mut i: usize = 0;
    while i < av.len()
        invariant
            av@ == a@,
            bv@ == b@,
            av@.len() == bv@.len(),
            i <= av@.len(),
            av@.take(i as int) == bv@.take(i as int),
        decreases av@.len() - i,
    {
        if av[i] != bv[i] {
            proof {
                assert(av@[i as int] != bv@[i as int]);
            }
            return false;
        }
        proof {
            assert(av@.take(i + 1) == av@.take(i as int).push(av@[i as int]));
            assert(bv@.take(i + 1) == bv@.take(i as int).push(bv@[i as int]));
        }
        i += 1;
    }
    proof {
        assert(av@.take(av@.len() as int) == av@);
        assert(bv@.take(bv@.len() as int) == bv@);
    }
    true
}

/// The first index at or after `k` where `p` occurs in `s`.
pub open spec fn find_sub_from(s: Seq<char>, p: Seq<char>, k: int) -> Option<int>
    decreases s.len() + 1 - k,
{
    if k < 0 || k + p.len() > s.len() {
        None
    } else if s.subrange(k, k + p.len()) == p {
        Some(k)
    } else {
        find_sub_from(s, p, k + 1)
    }
}

/// `str::find` with a string pattern, in characters: the first index where `p` occurs in `s`.
pub open spec fn find_sub(s: Seq<char>, p: Seq<char>) -> Option<int> {
    find_sub_from(s, p, 0)
}

/// Where `find_sub_from` lands: an occurrence, at or after `k`, with none before it.
pub proof fn lemma_find_sub_from(s: Seq<char>, p: Seq<char>, k: int)
    requires
        0 <= k,
    ensures
        match find_sub_from(s, p, k) {
            Some(i) => k <= i && i + p.len() <= s.len() && s.subrange(i, i + p.len()) == p
                && forall|j: int| k <= j < i ==> #[trigger] s.subrange(j, j + p.len()) != p,
            None => forall|j: int|
                k <= j && j + p.len() <= s.len() ==> #[trigger] s.subrange(j, j + p.len()) != p,
        },
    decreases s.len() + 1 - k,
{
    if k + p.len() > s.len() {
    } else if s.subrange(k, k + p.len()) == p {
    } else {
        lemma_find_sub_from(s, p, k + 1);
    }
}

/// Executable `find_sub`.
pub fn find_sub_in(v: &[char], p: &[char]) -> (r: Option<usize>)
    ensures
        match r {
            Some(i) => find_sub(v@, p@) == Some(i as int),
            None => find_sub(v@, p@) is None,
        },
{
    let n = v.len();
    let mut k: usize = 0;
    while k < n
        invariant
            n == v@.len(),
            k <= n,
            find_sub(v@, p@) == find_sub_from(v@, p@, k as int),
        decreases n - k,
    {
        if starts_with_at(v, k, p) {
            return Some(k);
        }
        k += 1;
    }
    proof {
        if p@.len() == 0 {
            assert(v@.subrange(k as int, k as int) == p@);
        }
    }
    if p.len() == 0 {
        Some(k)
    } else {
        None
    }
}

/// Appends the characters of `s` to `out`.
pub fn push_str(out: &mut Vec<char>, s: &str)
    ensures
        final(out)@ == old(out)@ + s@,
{
    let v = chars_of(s);
    push_all(out, &v);
}

/// The characters of an optional string.
pub open spec fn opt_seq(o: Option<String>) -> Option<Seq<char>> {
    match o {
        Some(s) => Some(s@),
        None => None,
    }
}

/// The characters of an optional string slice.
pub open spec fn opt_str(o: Option<&str>) -> Option<Seq<char>> {
    match o {
        Some(s) => Some(s@),
        None => None,
    }
}

/// Whether `s` begins with `p` (`str::starts_with`).
pub open spec fn has_prefix(s: Seq<char>, p: Seq<char>) -> bool {
    p.len() <= s.len() && s.subrange(0, p.len() as int) == p
}

/// Executable `has_prefix`.
pub fn starts_with(s: &str, p: &[char]) -> (b: bool)
    ensures
        b == has_prefix(s@, p@),
{
    let v = chars_of(s);
    starts_with_at(&v, 0, p)
}

/// Rust's `i64` division, which truncates toward zero, for a positive divisor.
pub open spec fn tdiv(a: int, b: int) -> int {
    if a >= 0 {
        a / b
    } else {
        -((-a) / b)
    }
}

/// Rust's `i64` remainder, whose sign follows the dividend, for a positive divisor.
pub open spec fn tmod(a: int, b: int) -> int {
    a - b * tdiv(a, b)
}

/// `format!("{}", n)` for an integer.
pub open spec fn int_text(n: int) -> Seq<char> {
    if n < 0 {
        seq!['-'] + decimal((-n) as nat)
    } else {
        decimal(n as nat)
    }
}

/// `format!("{:02}", n)`: zero-padded to two characters (a sign counts toward the width).
pub open spec fn pad2(n: int) -> Seq<char> {
    if 0 <= n < 10 {
        seq!['0'] + decimal(n as nat)
    } else {
        int_text(n)
    }
}

/// Appends `int_text(-mag)` when `neg`, else `int_text(mag)`.
pub fn push_signed(out: &mut Vec<char>, neg: bool, mag: u64)
    ensures
        final(out)@ == old(out)@ + int_text(if neg { -(mag as int) } else { mag as int }),
{
    if neg && mag > 0 {
        out.push('-');
    }
    push_decimal(out, mag);
    proof {
        if neg && mag > 0 {
            assert(int_text(-(mag as int)) == seq!['-'] + decimal(mag as nat));
        }
    }
}

/// Appends `pad2(-mag)` when `neg`, else `pad2(mag)`.
pub fn push_pad2(out: &mut Vec<char>, neg: bool, mag: u64)
    ensures
        final(out)@ == old(out)@ + pad2(if neg { -(mag as int) } else { mag as int }),
{
    if (!neg || mag == 0) && mag < 10 {
        out.push('0');
        push_decimal(out, mag);
        proof {
            let n: int = if neg { -(mag as int) } else { mag as int };
            assert(n == mag);
            assert(pad2(n) == seq!['0'] + decimal(mag as nat));
        }
    } else {
        push_signed(out, neg, mag);
    }
}

/// What `str::to_lowercase` makes of a string: Unicode's lowercase mapping, character by
/// character (some characters lower to several).
pub uninterp spec fn lowercase(s: Seq<char>) -> Seq<char>;

/// Whether `char::is_alphanumeric` holds: the character is alphabetic or numeric in Unicode's
/// sense, any script.
pub uninterp spec fn alphanumeric(c: char) -> bool;

/// `str::to_lowercase`.
///
/// Trusted: the contract names the result, which std's lowercase mapping computes from the
/// argument alone, and states the one case std's documentation spells out: a string of ASCII
/// characters lowers as ASCII does, `A`-`Z` to `a`-`z` and nothing else changed.
#[verifier::external_body]
pub(crate) fn to_lowercase(s: &str) -> (r: String)
    ensures
        r@ == lowercase(s@),
        (forall|i: int| 0 <= i < s@.len() ==> (#[trigger] s@[i] as u32) < 128) ==> r@
            == s@.map_values(|c: char| crate::player::ascii_lower(c)),
{
    s.to_lowercase()
}

/// `char::is_alphanumeric`.
///
/// Trusted: the contract names the result, a fixed property of the character, and states it for
/// ASCII, where the alphabetic and numeric characters are exactly the letters and digits.
#[verifier::external_body]
pub(crate) fn is_alphanumeric(c: char) -> (b: bool)
    ensures
        b == alphanumeric(c),
        (c as u32) < 128 ==> b == (('a' <= c <= 'z') || ('A' <= c <= 'Z') || ('0' <= c <= '9')),
{
    c.is_alphanumeric()
}

/// A copy of an optional string.
pub fn copy_opt(o: &Option<String>) -> (r: Option<String>)
    ensures
        r == *o,
{
    match o {
        Some(s) => Some(s.clone()),
        None => None,
    }
}

} // verus!
