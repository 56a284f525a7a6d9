//! Ordering cards for a grid: by title, ignoring case.

use vstd::prelude::*;
use vstd::multiset::Multiset;
use vstd::seq_lib::to_multiset_insert;
use crate::models::BrowseItem;
use crate::text::{chars_of, lowercase, to_lowercase};

verus! {

broadcast use vstd::seq_lib::group_to_multiset_ensures, vstd::multiset::group_multiset_axioms;

/// `a < b` in `String`'s order: lexicographic by character (UTF-8 keeps code-point order, so this
/// is the byte order too). A proper prefix comes first.
pub open spec fn text_lt(a: Seq<char>, b: Seq<char>) -> bool
    decreases a.len(),
{
    if b.len() == 0 {
        false
    } else if a.len() == 0 {
        true
    } else if a[0] != b[0] {
        a[0] < b[0]
    } else {
        text_lt(a.drop_first(), b.drop_first())
    }
}

/// No text is below itself.
pub proof fn lemma_text_lt_irreflexive(a: Seq<char>)
    ensures
        !text_lt(a, a),
    decreases a.len(),
{
    if a.len() > 0 {
        lemma_text_lt_irreflexive(a.drop_first());
    }
}

/// The order is transitive.
pub proof fn lemma_text_lt_transitive(a: Seq<char>, b: Seq<char>, c: Seq<char>)
    requires
        text_lt(a, b),
        text_lt(b, c),
    ensures
        text_lt(a, c),
    decreases a.len(),
{
    if a.len() > 0 && b.len() > 0 && c.len() > 0 && a[0] == b[0] && b[0] == c[0] {
        lemma_text_lt_transitive(a.drop_first(), b.drop_first(), c.drop_first());
    }
}

/// Two different texts are ordered one way or the other.
pub proof fn lemma_text_lt_total(a: Seq<char>, b: Seq<char>)
    ensures
        a == b || text_lt(a, b) || text_lt(b, a),
    decreases a.len(),
{
    if a.len() > 0 && b.len() > 0 && a[0] == b[0] {
        lemma_text_lt_total(a.drop_first(), b.drop_first());
        if a.drop_first() == b.drop_first() {
            assert(a == seq![a[0]] + a.drop_first());
            assert(b == seq![b[0]] + b.drop_first());
        }
    } else if a.len() == 0 && b.len() == 0 {
        assert(a == b);
    }
}

/// A proper prefix comes first: `a` is below `a` followed by anything, and never above it.
pub proof fn lemma_text_lt_prefix(a: Seq<char>, s: Seq<char>)
    requires
        s.len() > 0,
    ensures
        text_lt(a, a + s),
        !text_lt(a + s, a),
    decreases a.len(),
{
    if a.len() > 0 {
        assert((a + s)[0] == a[0]);
        assert((a + s).drop_first() == a.drop_first() + s);
        lemma_text_lt_prefix(a.drop_first(), s);
    } else {
        assert(a + s == s);
    }
}

/// Where two texts first differ, the smaller character decides.
pub proof fn lemma_text_lt_first_difference(a: Seq<char>, b: Seq<char>, i: int)
    requires
        0 <= i < a.len(),
        i < b.len(),
        a.take(i) == b.take(i),
        a[i] < b[i],
    ensures
        text_lt(a, b),
        !text_lt(b, a),
    decreases i,
{
    if i > 0 {
        assert(a[0] == a.take(i)[0] && b[0] == b.take(i)[0]);
        assert(a.drop_first().take(i - 1) == a.take(i).drop_first());
        assert(b.drop_first().take(i - 1) == b.take(i).drop_first());
        assert(a.drop_first()[i - 1] == a[i] && b.drop_first()[i - 1] == b[i]);
        lemma_text_lt_first_difference(a.drop_first(), b.drop_first(), i - 1);
    }
}

/// "Not below" is transitive.
pub proof fn lemma_text_le_transitive(a: Seq<char>, b: Seq<char>, c: Seq<char>)
    requires
        !text_lt(b, a),
        !text_lt(c, b),
    ensures
        !text_lt(c, a),
{
    if text_lt(c, a) {
        lemma_text_lt_total(a, b);
        if text_lt(a, b) {
            lemma_text_lt_transitive(c, a, b);
        }
    }
}

/// Keys in order: none is below one before it.
pub open spec fn keys_sorted(k: Seq<Seq<char>>) -> bool {
    forall|i: int, j: int| 0 <= i < j < k.len() ==> !text_lt(#[trigger] k[j], #[trigger] k[i])
}

/// Cards ordered by their lowercased titles.
pub open spec fn sorted_by_title(s: Seq<BrowseItem>) -> bool {
    forall|i: int, j: int|
        0 <= i < j < s.len() ==> !text_lt(
            lowercase(#[trigger] s[j].title@),
            lowercase(#[trigger] s[i].title@),
        )
}

proof fn lemma_insert_sorted(k: Seq<Seq<char>>, p: int, x: Seq<char>)
    requires
        keys_sorted(k),
        0 <= p <= k.len(),
        forall|i: int| 0 <= i < p ==> text_lt(#[trigger] k[i], x),
        p < k.len() ==> !text_lt(k[p], x),
    ensures
        keys_sorted(k.insert(p, x)),
{
    let n = k.insert(p, x);
    assert forall|i: int, j: int| 0 <= i < j < n.len() implies !text_lt(
        #[trigger] n[j],
        #[trigger] n[i],
    ) by {
        if i < p && j == p {
            lemma_text_lt_irreflexive(x);
            if text_lt(x, k[i]) {
                lemma_text_lt_transitive(x, k[i], x);
            }
        } else if i < p && j > p {
            assert(n[j] == k[j - 1]);
            assert(text_lt(k[i], x));
            if j - 1 > p {
                assert(!text_lt(k[j - 1], k[p]));
            }
            lemma_text_lt_irreflexive(k[i]);
            if text_lt(k[j - 1], k[i]) {
                lemma_text_lt_transitive(k[j - 1], k[i], x);
                if j - 1 > p {
                    lemma_text_le_transitive(x, k[p], k[j - 1]);
                }
            }
        } else if i == p && j > p {
            assert(n[j] == k[j - 1]);
            if j - 1 > p {
                assert(!text_lt(k[j - 1], k[p]));
                lemma_text_le_transitive(x, k[p], k[j - 1]);
            }
        } else if i > p {
            assert(n[i] == k[i - 1]);
            assert(n[j] == k[j - 1]);
        } else {
            assert(n[i] == k[i]);
            assert(n[j] == k[j]);
        }
    }
}

proof fn lemma_empty_multiset<A>(s: Seq<A>)
    requires
        s.len() == 0,
    ensures
        s.to_multiset() =~= Multiset::<A>::empty(),
{
    assert forall|a: A| s.to_multiset().count(a) == 0 by {
        s.to_multiset_ensures();
        assert(!s.contains(a));
    }
}

/// Executable `text_lt`.
pub fn text_less(a: &[char], b: &[char]) -> (r: bool)
    ensures
        r == text_lt(a@, b@),
{
    let mut i: usize = 0;
    proof {
        assert(a@.skip(0) == a@);
        assert(b@.skip(0) == b@);
    }
    while i < a.len() && i < b.len() && a[i] == b[i]
        invariant
            i <= a@.len(),
            i <= b@.len(),
            text_lt(a@, b@) == text_lt(a@.skip(i as int), b@.skip(i as int)),
        decreases a@.len() - i,
    {
        proof {
            assert(a@.skip(i as int).drop_first() == a@.skip(i + 1));
            assert(b@.skip(i as int).drop_first() == b@.skip(i + 1));
        }
        i += 1;
    }
    if i == b.len() {
        false
    } else if i == a.len() {
        true
    } else {
        a[i] < b[i]
    }
}

/// `r` is `s` rearranged by `idx`: `r[i]` is `s[idx[i]]`, each position of `s` used once, and
/// cards whose lowercased titles are equal keep the order they had in `s`.
pub open spec fn stable_arrangement(r: Seq<BrowseItem>, s: Seq<BrowseItem>, idx: Seq<int>) -> bool {
    &&& idx.len() == r.len()
    &&& r.len() == s.len()
    &&& forall|i: int| 0 <= i < r.len() ==> 0 <= #[trigger] idx[i] < s.len() && r[i] == s[idx[i]]
    &&& forall|i: int, j: int| 0 <= i < j < r.len() ==> #[trigger] idx[i] != #[trigger] idx[j]
    &&& forall|i: int, j: int|
        0 <= i < j < r.len() && lowercase(r[i].title@) == lowercase(r[j].title@) ==> #[trigger] idx[i]
            < #[trigger] idx[j]
}

/// The cards ordered by title, ignoring case. Equal titles keep their relative order.
pub fn sort_by_title(cards: Vec<BrowseItem>) -> (r: Vec<BrowseItem>)
    ensures
        r@.to_multiset() == cards@.to_multiset(),
        sorted_by_title(r@),
        exists|idx: Seq<int>| #[trigger] stable_arrangement(r@, cards@, idx),
{
    let ghost all = cards@;
    let mut rest = cards;
    let mut out: Vec<BrowseItem> = Vec::new();
    let mut keys: Vec<Vec<char>> = Vec::new();
    let ghost mut idx: Seq<int> = Seq::empty();
    proof {
        lemma_empty_multiset(out@);
        assert(out@.to_multiset().add(rest@.to_multiset()) =~= all.to_multiset());
        assert(all.take(all.len() as int) == all);
    }
    while rest.len() > 0
        invariant
            out@.to_multiset().add(rest@.to_multiset()) == all.to_multiset(),
            keys@.len() == out@.len(),
            forall|i: int| 0 <= i < keys@.len() ==> #[trigger] keys@[i]@ == lowercase(out@[i].title@),
            keys_sorted(keys@.map_values(|v: Vec<char>| v@)),
            rest@ == all.take(rest@.len() as int),
            rest@.len() <= all.len(),
            out@.len() + rest@.len() == all.len(),
            idx.len() == out@.len(),
            forall|i: int|
                0 <= i < out@.len() ==> rest@.len() <= #[trigger] idx[i] < all.len() && out@[i]
                    == all[idx[i]],
            forall|i: int, j: int| 0 <= i < j < out@.len() ==> #[trigger] idx[i] != #[trigger] idx[j],
            forall|i: int, j: int|
                0 <= i < j < out@.len() && lowercase(out@[i].title@) == lowercase(out@[j].title@)
                    ==> #[trigger] idx[i] < #[trigger] idx[j],
        decreases rest@.len(),
    {
        let ghost before = rest@;
        let c = rest.pop().unwrap();
        let ghost m = rest@.len() as int;
        proof {
            assert(before == rest@.push(c));
            assert(before.to_multiset() =~= rest@.to_multiset().insert(c));
            assert(c == all[m]);
            assert(rest@ =~= all.take(m));
        }
        let lower = to_lowercase(c.title.as_str());
        let kx = chars_of(lower.as_str());
        let ghost kv = keys@.map_values(|v: Vec<char>| v@);
        let mut p: usize = 0;
        while p < keys.len() && text_less(&keys[p], &kx)
            invariant
                p <= keys@.len(),
                kv == keys@.map_values(|v: Vec<char>| v@),
                forall|i: int| 0 <= i < p ==> text_lt(#[trigger] kv[i], kx@),
            decreases keys@.len() - p,
        {
            p += 1;
        }
        proof {
            lemma_insert_sorted(kv, p as int, kx@);
            to_multiset_insert(out@, p as int, c);
        }
        let ghost keys_before = keys@;
        let ghost out_before = out@;
        let ghost idx_before = idx;
        out.insert(p, c);
        keys.insert(p, kx);
        proof {
            idx = idx_before.insert(p as int, m);
            assert(keys@.map_values(|v: Vec<char>| v@) == kv.insert(p as int, kx@));
            assert forall|i: int| 0 <= i < keys@.len() implies #[trigger] keys@[i]@ == lowercase(
                out@[i].title@,
            ) by {
                if i < p {
                    assert(keys@[i] == keys_before[i]);
                    assert(out@[i] == out_before[i]);
                } else if i == p {
                } else {
                    assert(keys@[i] == keys_before[i - 1]);
                    assert(out@[i] == out_before[i - 1]);
                }
            }
            assert forall|i: int| 0 <= i < out@.len() implies rest@.len() <= #[trigger] idx[i]
                < all.len() && out@[i] == all[idx[i]] by {
                if i < p {
                    assert(idx[i] == idx_before[i] && out@[i] == out_before[i]);
                } else if i > p {
                    assert(idx[i] == idx_before[i - 1] && out@[i] == out_before[i - 1]);
                }
            }
            assert forall|i: int, j: int| 0 <= i < j < out@.len() implies #[trigger] idx[i]
                != #[trigger] idx[j] by {
                if i != p && j != p {
                    let a = if i < p { i } else { i - 1 };
                    let b = if j < p { j } else { j - 1 };
                    assert(idx[i] == idx_before[a] && idx[j] == idx_before[b]);
                } else if i == p {
                    assert(idx[j] == idx_before[j - 1]);
                } else {
                    assert(idx[i] == idx_before[i]);
                }
            }
            assert forall|i: int, j: int|
                0 <= i < j < out@.len() && lowercase(out@[i].title@) == lowercase(out@[j].title@)
                    implies #[trigger] idx[i] < #[trigger] idx[j] by {
                if i != p && j != p {
                    let a = if i < p { i } else { i - 1 };
                    let b = if j < p { j } else { j - 1 };
                    assert(idx[i] == idx_before[a] && idx[j] == idx_before[b]);
                    assert(out@[i] == out_before[a] && out@[j] == out_before[b]);
                } else if i == p {
                    assert(idx[j] == idx_before[j - 1]);
                } else {
                    assert(out@[i] == out_before[i]);
                    assert(keys@[i]@ == kv[i]);
                    assert(text_lt(kv[i], kx@));
                    lemma_text_lt_irreflexive(kx@);
                }
            }
        }
    }
    proof {
        let kv = keys@.map_values(|v: Vec<char>| v@);
        assert forall|i: int, j: int| 0 <= i < j < out@.len() implies !text_lt(
            lowercase(#[trigger] out@[j].title@),
            lowercase(#[trigger] out@[i].title@),
        ) by {
            assert(kv[i] == keys@[i]@);
            assert(kv[j] == keys@[j]@);
        }
        lemma_empty_multiset(rest@);
        assert(out@.to_multiset().add(rest@.to_multiset()) =~= out@.to_multiset());
        assert(stable_arrangement(out@, all, idx));
    }
    out
}

} // verus!
