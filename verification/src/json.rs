//! A JSON document as the response parsers read it, and the lookups they read it with.

use vstd::prelude::*;

verus! {

/// A JSON value. Object members keep the order the document gave them in.
#[derive(Debug)]
pub enum Json {
    Null,
    Bool(bool),
    /// A number, as its decimal text.
    Number(String),
    Str(String),
    Array(Vec<Json>),
    Object(Vec<(String, Json)>),
}

/// The value of the first member named `key`.
pub open spec fn member(es: Seq<(String, Json)>, key: Seq<char>) -> Option<Json>
    decreases es.len(),
{
    if es.len() == 0 {
        None
    } else {
        match member(es.drop_last(), key) {
            Some(v) => Some(v),
            None => if es.last().0@ == key {
                Some(es.last().1)
            } else {
                None
            },
        }
    }
}

/// `value.get(key)` for an object; nothing for anything else.
pub open spec fn get(v: Json, key: Seq<char>) -> Option<Json> {
    match v {
        Json::Object(m) => member(m@, key),
        _ => None,
    }
}

/// `get` on an optional value.
pub open spec fn get_in(v: Option<Json>, key: Seq<char>) -> Option<Json> {
    match v {
        Some(j) => get(j, key),
        None => None,
    }
}

/// The text of a string value.
pub open spec fn str_of(v: Option<Json>) -> Option<Seq<char>> {
    match v {
        Some(Json::Str(s)) => Some(s@),
        _ => None,
    }
}

/// The elements of an array value.
pub open spec fn items_of(v: Option<Json>) -> Option<Seq<Json>> {
    match v {
        Some(Json::Array(a)) => Some(a@),
        _ => None,
    }
}

/// The boolean of a boolean value.
pub open spec fn bool_of(v: Option<Json>) -> Option<bool> {
    match v {
        Some(Json::Bool(b)) => Some(b),
        _ => None,
    }
}

/// The value behind an optional reference.
pub open spec fn deref(r: Option<&Json>) -> Option<Json> {
    match r {
        Some(j) => Some(*j),
        None => None,
    }
}

/// `Value::get`: the member named `key` of an object.
pub fn get_member<'a>(v: &'a Json, key: &str) -> (r: Option<&'a Json>)
    ensures
        deref(r) == get(*v, key@),
{
    match v {
        Json::Object(m) => {
            let mut i: usize = 0;
            while i < m.len()
                invariant
                    i <= m@.len(),
                    get(*v, key@) == member(m@, key@),
                    member(m@.take(i as int), key@) is None,
                decreases m@.len() - i,
            {
                proof {
                    assert(m@.take(i + 1).drop_last() == m@.take(i as int));
                }
                if crate::text::str_eq(m[i].0.as_str(), key) {
                    proof {
                        assert(m@.take(i + 1).last() == m@[i as int]);
                        assert(member(m@.take(i + 1), key@) == Some(m@[i as int].1));
                        lemma_member_prefix(m@, i + 1, key@);
                    }
                    let r = &m[i].1;
                    assert(*r == m@[i as int].1);
                    return Some(r);
                }
                i += 1;
            }
            proof {
                assert(m@.take(m@.len() as int) == m@);
            }
            None
        },
        _ => None,
    }
}

/// A member found in a prefix is the member of the whole.
pub proof fn lemma_member_prefix(es: Seq<(String, Json)>, n: int, key: Seq<char>)
    requires
        0 <= n <= es.len(),
        member(es.take(n), key) is Some,
    ensures
        member(es, key) == member(es.take(n), key),
    decreases es.len(),
{
    if n < es.len() {
        assert(es.drop_last().take(n) == es.take(n));
        lemma_member_prefix(es.drop_last(), n, key);
    } else {
        assert(es.take(n) == es);
    }
}

/// `get_member` on an optional value.
pub fn get_opt<'a>(v: Option<&'a Json>, key: &str) -> (r: Option<&'a Json>)
    ensures
        deref(r) == get_in(deref(v), key@),
{
    match v {
        Some(j) => get_member(j, key),
        None => None,
    }
}

/// `Value::as_str`.
pub fn as_str<'a>(v: Option<&'a Json>) -> (r: Option<&'a str>)
    ensures
        match r {
            Some(s) => str_of(deref(v)) == Some(s@),
            None => str_of(deref(v)) is None,
        },
{
    match v {
        Some(Json::Str(s)) => Some(s.as_str()),
        _ => None,
    }
}

/// `Value::as_array`.
pub fn as_array<'a>(v: Option<&'a Json>) -> (r: Option<&'a Vec<Json>>)
    ensures
        match r {
            Some(a) => items_of(deref(v)) == Some(a@),
            None => items_of(deref(v)) is None,
        },
{
    match v {
        Some(Json::Array(a)) => Some(a),
        _ => None,
    }
}

/// `Value::as_bool`.
pub fn as_bool(v: Option<&Json>) -> (r: Option<bool>)
    ensures
        r == bool_of(deref(v)),
{
    match v {
        Some(Json::Bool(b)) => Some(*b),
        _ => None,
    }
}

/// Every value of a member named `key`, anywhere under `v`, in document order (a member's value
/// comes before what is nested inside it).
pub open spec fn find_all(v: Json, key: Seq<char>) -> Seq<Json>
    decreases v, 1int,
{
    match v {
        Json::Object(m) => find_all_members(m@, key),
        Json::Array(a) => find_all_items(a@, key),
        _ => Seq::empty(),
    }
}

/// `find_all` over a run of members.
pub open spec fn find_all_members(es: Seq<(String, Json)>, key: Seq<char>) -> Seq<Json>
    decreases es, 0int,
{
    if es.len() == 0 {
        Seq::empty()
    } else {
        let e = es[es.len() - 1];
        find_all_members(es.drop_last(), key) + (if e.0@ == key {
            seq![e.1]
        } else {
            Seq::empty()
        }) + find_all(e.1, key)
    }
}

/// `find_all` over a run of array elements.
pub open spec fn find_all_items(a: Seq<Json>, key: Seq<char>) -> Seq<Json>
    decreases a, 0int,
{
    if a.len() == 0 {
        Seq::empty()
    } else {
        find_all_items(a.drop_last(), key) + find_all(a[a.len() - 1], key)
    }
}

/// The values behind a run of references.
pub open spec fn values(r: Seq<&Json>) -> Seq<Json> {
    r.map_values(|j: &Json| *j)
}

fn find_all_into<'a>(v: &'a Json, key: &str, out: &mut Vec<&'a Json>)
    ensures
        values(final(out)@) == values(old(out)@) + find_all(*v, key@),
    decreases v,
{
    let ghost start = values(out@);
    match v {
        Json::Object(m) => {
            let mut i: usize = 0;
            while i < m.len()
                invariant
                    i <= m@.len(),
                    *v == Json::Object(*m),
                    find_all(*v, key@) == find_all_members(m@, key@),
                    values(out@) == start + find_all_members(m@.take(i as int), key@),
                decreases m@.len() - i,
            {
                proof {
                    assert(m@.take(i + 1).drop_last() == m@.take(i as int));
                    assert(m@.take(i + 1)[i as int] == m@[i as int]);
                }
                let ghost before = values(out@);
                if crate::text::str_eq(m[i].0.as_str(), key) {
                    out.push(&m[i].1);
                    proof {
                        assert(values(out@) == before + seq![m@[i as int].1]);
                    }
                }
                let ghost mid = values(out@);
                find_all_into(&m[i].1, key, out);
                i += 1;
            }
            proof {
                assert(m@.take(m@.len() as int) == m@);
            }
        },
        Json::Array(a) => {
            let mut i: usize = 0;
            while i < a.len()
                invariant
                    i <= a@.len(),
                    *v == Json::Array(*a),
                    find_all(*v, key@) == find_all_items(a@, key@),
                    values(out@) == start + find_all_items(a@.take(i as int), key@),
                decreases a@.len() - i,
            {
                proof {
                    assert(a@.take(i + 1).drop_last() == a@.take(i as int));
                    assert(a@.take(i + 1)[i as int] == a@[i as int]);
                }
                find_all_into(&a[i], key, out);
                i += 1;
            }
            proof {
                assert(a@.take(a@.len() as int) == a@);
            }
        },
        _ => {
            proof {
                assert(values(out@) == start + find_all(*v, key@));
            }
        },
    }
}

/// Every value of a member named `key`, anywhere under `root`, in document order.
pub fn find_all_refs<'a>(root: &'a Json, key: &str) -> (r: Vec<&'a Json>)
    ensures
        values(r@) == find_all(*root, key@),
{
    let mut out: Vec<&'a Json> = Vec::new();
    proof {
        assert(values(out@) == Seq::<Json>::empty());
    }
    find_all_into(root, key, &mut out);
    proof {
        assert(Seq::<Json>::empty() + find_all(*root, key@) == find_all(*root, key@));
    }
    out
}

/// Like `find_all`, but a matching member's value is not searched further: only the outermost
/// matches count.
pub open spec fn find_shallow(v: Json, key: Seq<char>) -> Seq<Json>
    decreases v, 1int,
{
    match v {
        Json::Object(m) => shallow_members(m@, key),
        Json::Array(a) => shallow_items(a@, key),
        _ => Seq::empty(),
    }
}

/// `find_shallow` over a run of members.
pub open spec fn shallow_members(es: Seq<(String, Json)>, key: Seq<char>) -> Seq<Json>
    decreases es, 0int,
{
    if es.len() == 0 {
        Seq::empty()
    } else {
        let e = es[es.len() - 1];
        shallow_members(es.drop_last(), key) + if e.0@ == key {
            seq![e.1]
        } else {
            find_shallow(e.1, key)
        }
    }
}

/// `find_shallow` over a run of array elements.
pub open spec fn shallow_items(a: Seq<Json>, key: Seq<char>) -> Seq<Json>
    decreases a, 0int,
{
    if a.len() == 0 {
        Seq::empty()
    } else {
        shallow_items(a.drop_last(), key) + find_shallow(a[a.len() - 1], key)
    }
}

fn find_shallow_into<'a>(v: &'a Json, key: &str, out: &mut Vec<&'a Json>)
    ensures
        values(final(out)@) == values(old(out)@) + find_shallow(*v, key@),
    decreases v,
{
    let ghost start = values(out@);
    match v {
        Json::Object(m) => {
            let mut i: usize = 0;
            while i < m.len()
                invariant
                    i <= m@.len(),
                    *v == Json::Object(*m),
                    find_shallow(*v, key@) == shallow_members(m@, key@),
                    values(out@) == start + shallow_members(m@.take(i as int), key@),
                decreases m@.len() - i,
            {
                proof {
                    assert(m@.take(i + 1).drop_last() == m@.take(i as int));
                    assert(m@.take(i + 1)[i as int] == m@[i as int]);
                }
                let ghost before = values(out@);
                if crate::text::str_eq(m[i].0.as_str(), key) {
                    out.push(&m[i].1);
                    proof {
                        assert(values(out@) == before + seq![m@[i as int].1]);
                    }
                } else {
                    find_shallow_into(&m[i].1, key, out);
                }
                i += 1;
            }
            proof {
                assert(m@.take(m@.len() as int) == m@);
            }
        },
        Json::Array(a) => {
            let mut i: usize = 0;
            while i < a.len()
                invariant
                    i <= a@.len(),
                    *v == Json::Array(*a),
                    find_shallow(*v, key@) == shallow_items(a@, key@),
                    values(out@) == start + shallow_items(a@.take(i as int), key@),
                decreases a@.len() - i,
            {
                proof {
                    assert(a@.take(i + 1).drop_last() == a@.take(i as int));
                    assert(a@.take(i + 1)[i as int] == a@[i as int]);
                }
                find_shallow_into(&a[i], key, out);
                i += 1;
            }
            proof {
                assert(a@.take(a@.len() as int) == a@);
            }
        },
        _ => {
            proof {
                assert(values(out@) == start + find_shallow(*v, key@));
            }
        },
    }
}

/// The outermost values of members named `key` under `root`, in document order.
pub fn find_all_shallow<'a>(root: &'a Json, key: &str) -> (r: Vec<&'a Json>)
    ensures
        values(r@) == find_shallow(*root, key@),
{
    let mut out: Vec<&'a Json> = Vec::new();
    proof {
        assert(values(out@) == Seq::<Json>::empty());
    }
    find_shallow_into(root, key, &mut out);
    proof {
        assert(Seq::<Json>::empty() + find_shallow(*root, key@) == find_shallow(*root, key@));
    }
    out
}

/// The first string that is the value of a member named `key`, anywhere under `v`, in document
/// order.
pub open spec fn first_str(v: Json, key: Seq<char>) -> Option<Seq<char>>
    decreases v, 1int,
{
    match v {
        Json::Object(m) => first_str_members(m@, key),
        Json::Array(a) => first_str_items(a@, key),
        _ => None,
    }
}

/// `first_str` over a run of members.
pub open spec fn first_str_members(es: Seq<(String, Json)>, key: Seq<char>) -> Option<Seq<char>>
    decreases es, 0int,
{
    if es.len() == 0 {
        None
    } else {
        match first_str_members(es.drop_last(), key) {
            Some(s) => Some(s),
            None => {
                let e = es[es.len() - 1];
                if e.0@ == key && e.1 is Str {
                    str_of(Some(e.1))
                } else {
                    first_str(e.1, key)
                }
            },
        }
    }
}

/// `first_str` over a run of array elements.
pub open spec fn first_str_items(a: Seq<Json>, key: Seq<char>) -> Option<Seq<char>>
    decreases a, 0int,
{
    if a.len() == 0 {
        None
    } else {
        match first_str_items(a.drop_last(), key) {
            Some(s) => Some(s),
            None => first_str(a[a.len() - 1], key),
        }
    }
}

/// The first string value of a member named `key` anywhere under `root`.
pub fn find_first_str(root: &Json, key: &str) -> (r: Option<String>)
    ensures
        match r {
            Some(s) => first_str(*root, key@) == Some(s@),
            None => first_str(*root, key@) is None,
        },
    decreases root,
{
    match root {
        Json::Object(m) => {
            let mut i: usize = 0;
            while i < m.len()
                invariant
                    i <= m@.len(),
                    *root == Json::Object(*m),
                    first_str(*root, key@) == first_str_members(m@, key@),
                    first_str_members(m@.take(i as int), key@) is None,
                decreases m@.len() - i,
            {
                proof {
                    assert(m@.take(i + 1).drop_last() == m@.take(i as int));
                    assert(m@.take(i + 1)[i as int] == m@[i as int]);
                }
                let hit = if crate::text::str_eq(m[i].0.as_str(), key) {
                    match &m[i].1 {
                        Json::Str(s) => Some(s.clone()),
                        _ => None,
                    }
                } else {
                    None
                };
                let found = match hit {
                    Some(s) => Some(s),
                    None => find_first_str(&m[i].1, key),
                };
                if let Some(s) = found {
                    proof {
                        assert(first_str_members(m@.take(i + 1), key@) == Some(s@));
                        lemma_first_str_members_prefix(m@, i + 1, key@);
                    }
                    return Some(s);
                }
                i += 1;
            }
            proof {
                assert(m@.take(m@.len() as int) == m@);
            }
            None
        },
        Json::Array(a) => {
            let mut i: usize = 0;
            while i < a.len()
                invariant
                    i <= a@.len(),
                    *root == Json::Array(*a),
                    first_str(*root, key@) == first_str_items(a@, key@),
                    first_str_items(a@.take(i as int), key@) is None,
                decreases a@.len() - i,
            {
                proof {
                    assert(a@.take(i + 1).drop_last() == a@.take(i as int));
                    assert(a@.take(i + 1)[i as int] == a@[i as int]);
                }
                if let Some(s) = find_first_str(&a[i], key) {
                    proof {
                        assert(first_str_items(a@.take(i + 1), key@) == Some(s@));
                        lemma_first_str_items_prefix(a@, i + 1, key@);
                    }
                    return Some(s);
                }
                i += 1;
            }
            proof {
                assert(a@.take(a@.len() as int) == a@);
            }
            None
        },
        _ => None,
    }
}

proof fn lemma_first_str_members_prefix(es: Seq<(String, Json)>, n: int, key: Seq<char>)
    requires
        0 <= n <= es.len(),
        first_str_members(es.take(n), key) is Some,
    ensures
        first_str_members(es, key) == first_str_members(es.take(n), key),
    decreases es.len(),
{
    if n < es.len() {
        assert(es.drop_last().take(n) == es.take(n));
        lemma_first_str_members_prefix(es.drop_last(), n, key);
    } else {
        assert(es.take(n) == es);
    }
}

proof fn lemma_first_str_items_prefix(a: Seq<Json>, n: int, key: Seq<char>)
    requires
        0 <= n <= a.len(),
        first_str_items(a.take(n), key) is Some,
    ensures
        first_str_items(a, key) == first_str_items(a.take(n), key),
    decreases a.len(),
{
    if n < a.len() {
        assert(a.drop_last().take(n) == a.take(n));
        lemma_first_str_items_prefix(a.drop_last(), n, key);
    } else {
        assert(a.take(n) == a);
    }
}

/// "thumbnails".
pub open spec fn thumbnails_key() -> Seq<char> {
    seq!['t', 'h', 'u', 'm', 'b', 'n', 'a', 'i', 'l', 's']
}

/// "url".
pub open spec fn url_key() -> Seq<char> {
    seq!['u', 'r', 'l']
}

/// The url of the last entry of an object's own `thumbnails` array, when it has one.
pub open spec fn own_thumbnail(es: Seq<(String, Json)>) -> Option<Seq<char>> {
    match items_of(member(es, thumbnails_key())) {
        Some(arr) => if arr.len() > 0 {
            str_of(get(arr[arr.len() - 1], url_key()))
        } else {
            None
        },
        None => None,
    }
}

/// The highest-resolution thumbnail under `v`: an object's own `thumbnails` list wins (its last
/// url), else the first found among its member values in order; an array's first found among
/// its elements.
pub open spec fn last_thumbnail(v: Json) -> Option<Seq<char>>
    decreases v, 1int,
{
    match v {
        Json::Object(m) => match own_thumbnail(m@) {
            Some(u) => Some(u),
            None => thumbnail_members(m@),
        },
        Json::Array(a) => thumbnail_items(a@),
        _ => None,
    }
}

/// `last_thumbnail` of the first member value that has one.
pub open spec fn thumbnail_members(es: Seq<(String, Json)>) -> Option<Seq<char>>
    decreases es, 0int,
{
    if es.len() == 0 {
        None
    } else {
        match thumbnail_members(es.drop_last()) {
            Some(u) => Some(u),
            None => last_thumbnail(es[es.len() - 1].1),
        }
    }
}

/// `last_thumbnail` of the first element that has one.
pub open spec fn thumbnail_items(a: Seq<Json>) -> Option<Seq<char>>
    decreases a, 0int,
{
    if a.len() == 0 {
        None
    } else {
        match thumbnail_items(a.drop_last()) {
            Some(u) => Some(u),
            None => last_thumbnail(a[a.len() - 1]),
        }
    }
}

proof fn lemma_thumbnail_members_prefix(es: Seq<(String, Json)>, n: int)
    requires
        0 <= n <= es.len(),
        thumbnail_members(es.take(n)) is Some,
    ensures
        thumbnail_members(es) == thumbnail_members(es.take(n)),
    decreases es.len(),
{
    if n < es.len() {
        assert(es.drop_last().take(n) == es.take(n));
        lemma_thumbnail_members_prefix(es.drop_last(), n);
    } else {
        assert(es.take(n) == es);
    }
}

proof fn lemma_thumbnail_items_prefix(a: Seq<Json>, n: int)
    requires
        0 <= n <= a.len(),
        thumbnail_items(a.take(n)) is Some,
    ensures
        thumbnail_items(a) == thumbnail_items(a.take(n)),
    decreases a.len(),
{
    if n < a.len() {
        assert(a.drop_last().take(n) == a.take(n));
        lemma_thumbnail_items_prefix(a.drop_last(), n);
    } else {
        assert(a.take(n) == a);
    }
}

/// The deepest/last thumbnail URL under this node (highest resolution).
pub fn find_last_thumbnail(v: &Json) -> (r: Option<String>)
    ensures
        match r {
            Some(s) => last_thumbnail(*v) == Some(s@),
            None => last_thumbnail(*v) is None,
        },
    decreases v,
{
    match v {
        Json::Object(m) => {
            let thumbs = get_member(v, "thumbnails");
            let arr = as_array(thumbs);
            proof {
                reveal_strlit("thumbnails");
                reveal_strlit("url");
                assert("thumbnails"@ == thumbnails_key());
                assert("url"@ == url_key());
            }
            if let Some(arr) = arr {
                if arr.len() > 0 {
                    let last = &arr[arr.len() - 1];
                    if let Some(u) = as_str(get_member(last, "url")) {
                        return Some(u.to_owned());
                    }
                }
            }
            let mut i: usize = 0;
            while i < m.len()
                invariant
                    i <= m@.len(),
                    *v == Json::Object(*m),
                    own_thumbnail(m@) is None,
                    last_thumbnail(*v) == thumbnail_members(m@),
                    thumbnail_members(m@.take(i as int)) is None,
                decreases m@.len() - i,
            {
                proof {
                    assert(m@.take(i + 1).drop_last() == m@.take(i as int));
                    assert(m@.take(i + 1)[i as int] == m@[i as int]);
                }
                if let Some(u) = find_last_thumbnail(&m[i].1) {
                    proof {
                        assert(thumbnail_members(m@.take(i + 1)) == Some(u@));
                        lemma_thumbnail_members_prefix(m@, i + 1);
                    }
                    return Some(u);
                }
                i += 1;
            }
            proof {
                assert(m@.take(m@.len() as int) == m@);
            }
            None
        },
        Json::Array(a) => {
            let mut i: usize = 0;
            while i < a.len()
                invariant
                    i <= a@.len(),
                    *v == Json::Array(*a),
                    last_thumbnail(*v) == thumbnail_items(a@),
                    thumbnail_items(a@.take(i as int)) is None,
                decreases a@.len() - i,
            {
                proof {
                    assert(a@.take(i + 1).drop_last() == a@.take(i as int));
                    assert(a@.take(i + 1)[i as int] == a@[i as int]);
                }
                if let Some(u) = find_last_thumbnail(&a[i]) {
                    proof {
                        assert(thumbnail_items(a@.take(i + 1)) == Some(u@));
                        lemma_thumbnail_items_prefix(a@, i + 1);
                    }
                    return Some(u);
                }
                i += 1;
            }
            proof {
                assert(a@.take(a@.len() as int) == a@);
            }
            None
        },
        _ => None,
    }
}

} // verus!
