//! The order of texts by code point, and sorting by it.

use vstd::prelude::*;
use crate::distinct::texts;
use crate::text::{str_lt, text_lt};

verus! {

/// No text comes before itself.
pub proof fn lemma_text_lt_irreflexive(a: Seq<char>)
    ensures
        !text_lt(a, a),
    decreases a.len(),
{
    if a.len() > 0 {
        lemma_text_lt_irreflexive(a.drop_first());
    }
}

/// The order of texts is transitive.
pub proof fn lemma_text_lt_transitive(a: Seq<char>, b: Seq<char>, c: Seq<char>)
    requires
        text_lt(a, b),
        text_lt(b, c),
    ensures
        text_lt(a, c),
    decreases a.len(),
{
    if a.len() > 0 && b.len() > 0 && c.len() > 0 {
        if a[0] == b[0] && b[0] == c[0] {
            lemma_text_lt_transitive(a.drop_first(), b.drop_first(), c.drop_first());
        }
    }
}

/// Of two different texts, one comes before the other.
pub proof fn lemma_text_lt_connected(a: Seq<char>, b: Seq<char>)
    requires
        a != b,
    ensures
        text_lt(a, b) || text_lt(b, a),
    decreases a.len(),
{
    if a.len() > 0 && b.len() > 0 {
        if a[0] == b[0] {
            assert(a.drop_first() != b.drop_first()) by {
                if a.drop_first() == b.drop_first() {
                    assert(a =~= seq![a[0]] + a.drop_first());
                    assert(b =~= seq![b[0]] + b.drop_first());
                }
            }
            lemma_text_lt_connected(a.drop_first(), b.drop_first());
        } else {
            assert(a[0] as int != b[0] as int);
        }
    } else {
        if a.len() == 0 && b.len() == 0 {
            assert(a =~= b);
        }
    }
}

/// Whether the texts stand in strictly ascending order.
pub open spec fn ascending_texts(s: Seq<Seq<char>>) -> bool {
    forall|i: int, j: int| 0 <= i < j < s.len() ==> text_lt(#[trigger] s[i], #[trigger] s[j])
}

/// Whether `sorted` holds the same texts as `keys`, which are all
/// different, in ascending order.
pub open spec fn is_sorted_texts(sorted: Seq<Seq<char>>, keys: Seq<Seq<char>>) -> bool {
    &&& sorted.len() == keys.len()
    &&& ascending_texts(sorted)
    &&& forall|k: int| 0 <= k < keys.len() ==> sorted.contains(#[trigger] keys[k])
    &&& forall|k: int| 0 <= k < sorted.len() ==> keys.contains(#[trigger] sorted[k])
}

/// The keys, which are all different, in ascending order.
pub fn sort_texts(keys: &Vec<String>) -> (sorted: Vec<String>)
    requires
        texts(keys@).no_duplicates(),
    ensures
        is_sorted_texts(texts(sorted@), texts(keys@)),
{
    let ghost names = texts(keys@);
    let mut out: Vec<String> = Vec::new();
    let mut i: usize = 0;
    while i < keys.len()
        invariant
            i <= keys.len(),
            names == texts(keys@),
            names.no_duplicates(),
            out@.len() == i,
            ascending_texts(texts(out@)),
            forall|k: int| 0 <= k < i ==> texts(out@).contains(#[trigger] names[k]),
            forall|k: int|
                0 <= k < out@.len() ==> names.take(i as int).contains(#[trigger] texts(out@)[k]),
        decreases keys.len() - i,
    {
        let key = &keys[i];
        let ghost x = names[i as int];
        assert(x == key@);
        let ghost before = texts(out@);
        let mut p: usize = 0;
        while p < out.len() && str_lt(out[p].as_str(), key.as_str())
            invariant
                p <= out.len(),
                before == texts(out@),
                x == key@,
                forall|k: int| 0 <= k < p ==> text_lt(#[trigger] before[k], x),
            decreases out.len() - p,
        {
            assert(before[p as int] == out@[p as int]@);
            p = p + 1;
        }
        proof {
            assert forall|k: int| p <= k < before.len() implies text_lt(x, #[trigger] before[k]) by {
                assert(before[p as int] == out@[p as int]@);
                assert(!text_lt(before[p as int], x));
                assert(names.take(i as int).contains(before[p as int]));
                let w = choose|w: int|
                    0 <= w < names.take(i as int).len() && names.take(i as int)[w]
                        == before[p as int];
                assert(names[w] != names[i as int]);
                lemma_text_lt_connected(before[p as int], x);
                if k > p {
                    lemma_text_lt_transitive(x, before[p as int], before[k]);
                }
            }
        }
        out.insert(p, key.clone());
        proof {
            let after = texts(out@);
            assert(after =~= before.insert(p as int, x));
            assert forall|a: int, b: int| 0 <= a < b < after.len() implies text_lt(
                #[trigger] after[a],
                #[trigger] after[b],
            ) by {
                let a0 = if a < p { a } else { a - 1 };
                let b0 = if b < p { b } else { b - 1 };
                if a != p && b != p {
                    assert(text_lt(before[a0], before[b0]));
                } else if a == p {
                    assert(text_lt(x, before[b0]));
                } else {
                    assert(text_lt(before[a0], x));
                }
            }
            assert forall|k: int| 0 <= k < i + 1 implies after.contains(#[trigger] names[k]) by {
                if k == i {
                    assert(after[p as int] == x);
                } else {
                    let w = choose|w: int| 0 <= w < before.len() && before[w] == names[k];
                    if w < p {
                        assert(after[w] == names[k]);
                    } else {
                        assert(after[w + 1] == names[k]);
                    }
                }
            }
            assert forall|k: int| 0 <= k < after.len() implies names.take(i + 1).contains(
                #[trigger] after[k],
            ) by {
                if k == p {
                    assert(names.take(i + 1)[i as int] == x);
                } else {
                    let k0 = if k < p { k } else { k - 1 };
                    assert(after[k] == before[k0]);
                    let w = choose|w: int|
                        0 <= w < names.take(i as int).len() && names.take(i as int)[w] == before[k0];
                    assert(names.take(i + 1)[w] == before[k0]);
                }
            }
        }
        i = i + 1;
    }
    proof {
        assert(names.take(keys.len() as int) =~= names);
    }
    out
}

/// Whether one pair of texts comes before another: by the first texts,
/// and by the second where the first are the same.
pub open spec fn pair_lt(a: (Seq<char>, Seq<char>), b: (Seq<char>, Seq<char>)) -> bool {
    text_lt(a.0, b.0) || (a.0 == b.0 && text_lt(a.1, b.1))
}

/// Whether the pair at `a` comes before the pair at `b`: it is the
/// smaller pair, or the same pair at an earlier place.
pub open spec fn sorts_before(keys: Seq<(Seq<char>, Seq<char>)>, a: int, b: int) -> bool {
    pair_lt(keys[a], keys[b]) || (keys[a] == keys[b] && a < b)
}

/// Whether `order` lists every place of `keys` once, each before all
/// those that it sorts before.
pub open spec fn is_text_ranking(keys: Seq<(Seq<char>, Seq<char>)>, order: Seq<usize>) -> bool {
    &&& order.len() == keys.len()
    &&& forall|i: int| 0 <= i < order.len() ==> (#[trigger] order[i]) < keys.len()
    &&& forall|v: usize| v < keys.len() ==> #[trigger] order.contains(v)
    &&& forall|i: int, j: int|
        0 <= i < j < order.len() ==> sorts_before(
            keys,
            #[trigger] order[i] as int,
            #[trigger] order[j] as int,
        )
}

/// The order of pairs is transitive.
pub proof fn lemma_pair_lt_transitive(
    a: (Seq<char>, Seq<char>),
    b: (Seq<char>, Seq<char>),
    c: (Seq<char>, Seq<char>),
)
    requires
        pair_lt(a, b),
        pair_lt(b, c),
    ensures
        pair_lt(a, c),
{
    if text_lt(a.0, b.0) && text_lt(b.0, c.0) {
        lemma_text_lt_transitive(a.0, b.0, c.0);
    } else if a.0 == b.0 && b.0 == c.0 {
        lemma_text_lt_transitive(a.1, b.1, c.1);
    }
}

/// Of two different pairs, one comes before the other.
pub proof fn lemma_pair_lt_connected(a: (Seq<char>, Seq<char>), b: (Seq<char>, Seq<char>))
    requires
        a != b,
    ensures
        pair_lt(a, b) || pair_lt(b, a),
{
    if a.0 != b.0 {
        lemma_text_lt_connected(a.0, b.0);
    } else {
        lemma_text_lt_connected(a.1, b.1);
    }
}

/// What a list of pairs of strings says.
pub open spec fn key_texts(keys: Seq<(String, String)>) -> Seq<(Seq<char>, Seq<char>)> {
    keys.map_values(|k: (String, String)| (k.0@, k.1@))
}

fn key_lt(a: &(String, String), b: &(String, String)) -> (r: bool)
    ensures
        r == pair_lt((a.0@, a.1@), (b.0@, b.1@)),
{
    if str_lt(a.0.as_str(), b.0.as_str()) {
        true
    } else if crate::text::str_eq(a.0.as_str(), b.0.as_str()) {
        str_lt(a.1.as_str(), b.1.as_str())
    } else {
        false
    }
}

/// The places of `keys`, sorted by their pairs in ascending order; equal
/// pairs keep the order of their places.
pub fn rank_texts(keys: &Vec<(String, String)>) -> (order: Vec<usize>)
    ensures
        is_text_ranking(key_texts(keys@), order@),
{
    let ghost names = key_texts(keys@);
    let mut order: Vec<usize> = Vec::new();
    let mut i: usize = 0;
    while i < keys.len()
        invariant
            i <= keys.len(),
            names == key_texts(keys@),
            order.len() == i,
            forall|k: int| 0 <= k < order.len() ==> (#[trigger] order[k]) < i,
            forall|v: usize| v < i ==> #[trigger] order@.contains(v),
            forall|a: int, b: int|
                0 <= a < b < order.len() ==> sorts_before(
                    names,
                    #[trigger] order[a] as int,
                    #[trigger] order[b] as int,
                ),
        decreases keys.len() - i,
    {
        let ghost x = names[i as int];
        assert(x == (keys@[i as int].0@, keys@[i as int].1@));
        let mut p: usize = 0;
        while p < order.len() && !key_lt(&keys[i], &keys[order[p]])
            invariant
                p <= order.len(),
                order.len() == i,
                i < keys.len(),
                names == key_texts(keys@),
                x == names[i as int],
                forall|k: int| 0 <= k < order.len() ==> (#[trigger] order[k]) < i,
                forall|k: int| 0 <= k < p ==> !pair_lt(x, names[(#[trigger] order[k]) as int]),
            decreases order.len() - p,
        {
            assert(names[order[p as int] as int] == (
                keys@[order[p as int] as int].0@,
                keys@[order[p as int] as int].1@,
            ));
            p = p + 1;
        }
        let ghost before = order@;
        proof {
            if (p as int) < before.len() {
                assert(names[before[p as int] as int] == (
                    keys@[before[p as int] as int].0@,
                    keys@[before[p as int] as int].1@,
                ));
            }
        }
        order.insert(p, i);
        proof {
            let after = order@;
            assert forall|k: int| 0 <= k < after.len() implies (#[trigger] after[k]) < i + 1 by {
                if k < p {
                    assert(after[k] == before[k]);
                } else if k > p {
                    assert(after[k] == before[k - 1]);
                }
            }
            assert forall|v: usize| v < i + 1 implies #[trigger] after.contains(v) by {
                if v == i {
                    assert(after[p as int] == v);
                } else {
                    assert(before.contains(v));
                    let k0 = choose|k: int| 0 <= k < before.len() && before[k] == v;
                    if k0 < p {
                        assert(after[k0] == v);
                    } else {
                        assert(after[k0 + 1] == v);
                    }
                }
            }
            assert forall|a: int, b: int| 0 <= a < b < after.len() implies sorts_before(
                names,
                #[trigger] after[a] as int,
                #[trigger] after[b] as int,
            ) by {
                let a0 = if a < p { a } else { a - 1 };
                let b0 = if b < p { b } else { b - 1 };
                if a != p && b != p {
                    assert(after[a] == before[a0]);
                    assert(after[b] == before[b0]);
                    assert(sorts_before(names, before[a0] as int, before[b0] as int));
                } else if a == p {
                    assert(after[b] == before[b0]);
                    let first = names[before[p as int] as int];
                    let later = names[before[b0] as int];
                    assert(pair_lt(x, first));
                    if b0 > p {
                        assert(sorts_before(names, before[p as int] as int, before[b0] as int));
                        if pair_lt(first, later) {
                            lemma_pair_lt_transitive(x, first, later);
                        }
                    }
                } else {
                    assert(after[a] == before[a]);
                    assert(before[a] < i);
                    let earlier = names[before[a] as int];
                    assert(!pair_lt(x, earlier));
                    if earlier != x {
                        lemma_pair_lt_connected(earlier, x);
                    }
                }
            }
        }
        i = i + 1;
    }
    order
}

} // verus!
