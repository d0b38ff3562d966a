//! Sort keys of the form `(rank, number, text)` and a stable sort of
//! indices by them.

use vstd::prelude::*;
use crate::structure::{chars_less, chars_lt};

verus! {

/// A sort key ordered by `rank`, then `number`, then `text` (by code point).
pub struct SortKey {
    pub rank: u8,
    pub number: i64,
    pub text: Vec<char>,
}

pub open spec fn key_view(k: SortKey) -> (int, int, Seq<char>) {
    (k.rank as int, k.number as int, k.text@)
}

/// Strict order of key views.
pub open spec fn view_lt(a: (int, int, Seq<char>), b: (int, int, Seq<char>)) -> bool {
    ||| a.0 < b.0
    ||| (a.0 == b.0 && a.1 < b.1)
    ||| (a.0 == b.0 && a.1 == b.1 && chars_lt(a.2, b.2))
}

pub open spec fn view_le(a: (int, int, Seq<char>), b: (int, int, Seq<char>)) -> bool {
    a == b || view_lt(a, b)
}

pub proof fn lemma_chars_lt_irreflexive(a: Seq<char>)
    ensures
        !chars_lt(a, a),
    decreases a.len(),
{
    if a.len() > 0 {
        lemma_chars_lt_irreflexive(a.drop_first());
    }
}

pub proof fn lemma_chars_lt_transitive(a: Seq<char>, b: Seq<char>, c: Seq<char>)
    requires
        chars_lt(a, b),
        chars_lt(b, c),
    ensures
        chars_lt(a, c),
    decreases a.len(),
{
    if a.len() > 0 && b.len() > 0 && c.len() > 0 && a[0] == b[0] && b[0] == c[0] {
        lemma_chars_lt_transitive(a.drop_first(), b.drop_first(), c.drop_first());
    }
}

pub proof fn lemma_chars_lt_total(a: Seq<char>, b: Seq<char>)
    ensures
        chars_lt(a, b) || a == b || chars_lt(b, a),
    decreases a.len(),
{
    if a.len() == 0 && b.len() == 0 {
        assert(a =~= b);
    } else if a.len() == 0 || b.len() == 0 {
    } else if a.len() > 0 && b.len() > 0 && a[0] == b[0] {
        lemma_chars_lt_total(a.drop_first(), b.drop_first());
        if a.drop_first() == b.drop_first() {
            assert(a.len() == a.drop_first().len() + 1);
            assert(b.len() == b.drop_first().len() + 1);
            assert forall|k: int| 0 <= k < a.len() implies a[k] == b[k] by {
                if k > 0 {
                    assert(a[k] == a.drop_first()[k - 1]);
                    assert(b[k] == b.drop_first()[k - 1]);
                }
            }
            assert(a =~= b);
        }
    } else if a.len() > 0 && b.len() > 0 {
        vstd::utf8::char_u32_cast(a[0], a[0] as u32);
        vstd::utf8::char_u32_cast(b[0], b[0] as u32);
        assert((a[0] as u32) != (b[0] as u32));
    }
}

pub proof fn lemma_view_lt_irreflexive(a: (int, int, Seq<char>))
    ensures
        !view_lt(a, a),
{
    lemma_chars_lt_irreflexive(a.2);
}

pub proof fn lemma_view_lt_transitive(
    a: (int, int, Seq<char>),
    b: (int, int, Seq<char>),
    c: (int, int, Seq<char>),
)
    requires
        view_lt(a, b),
        view_lt(b, c),
    ensures
        view_lt(a, c),
{
    if a.0 == b.0 && b.0 == c.0 && a.1 == b.1 && b.1 == c.1 {
        lemma_chars_lt_transitive(a.2, b.2, c.2);
    }
}

pub proof fn lemma_view_lt_total(a: (int, int, Seq<char>), b: (int, int, Seq<char>))
    ensures
        view_lt(a, b) || a == b || view_lt(b, a),
{
    lemma_chars_lt_total(a.2, b.2);
}

pub proof fn lemma_view_le_transitive(
    a: (int, int, Seq<char>),
    b: (int, int, Seq<char>),
    c: (int, int, Seq<char>),
)
    requires
        view_le(a, b),
        view_le(b, c),
    ensures
        view_le(a, c),
{
    if view_lt(a, b) && view_lt(b, c) {
        lemma_view_lt_transitive(a, b, c);
    }
}

/// `a < b` on keys.
pub fn key_less(a: &SortKey, b: &SortKey) -> (r: bool)
    ensures
        r == view_lt(key_view(*a), key_view(*b)),
{
    if a.rank != b.rank {
        a.rank < b.rank
    } else if a.number != b.number {
        a.number < b.number
    } else {
        chars_less(&a.text, &b.text)
    }
}

/// Index `x` before index `y`: by key, then by index.
pub open spec fn index_before(keys: Seq<SortKey>, x: int, y: int) -> bool {
    view_lt(key_view(keys[x]), key_view(keys[y])) || (key_view(keys[x]) == key_view(keys[y])
        && x < y)
}

/// `order` lists every index of `keys` exactly once, ordered by key with
/// ties broken by index (a stable sort).
pub open spec fn is_stable_order(keys: Seq<SortKey>, order: Seq<usize>) -> bool {
    &&& order.len() == keys.len()
    &&& forall|a: int| 0 <= a < order.len() ==> #[trigger] order[a] < keys.len()
    &&& forall|a: int, b: int|
        0 <= a < b < order.len() ==> index_before(keys, #[trigger] order[a] as int, #[trigger] order[b] as int)
}

/// The indices of `keys`, stably sorted by key (insertion sort).
pub fn stable_order(keys: &Vec<SortKey>) -> (order: Vec<usize>)
    ensures
        is_stable_order(keys@, order@),
        order@.no_duplicates(),
        forall|x: usize| x < keys.len() ==> order@.contains(x),
{
    let mut order: Vec<usize> = Vec::new();
    let mut i: usize = 0;
    while i < keys.len()
        invariant
            i <= keys.len(),
            order.len() == i,
            forall|a: int| 0 <= a < order.len() ==> #[trigger] order@[a] < i,
            forall|a: int, b: int|
                0 <= a < b < order.len() ==> index_before(
                    keys@,
                    #[trigger] order@[a] as int,
                    #[trigger] order@[b] as int,
                ),
            order@.no_duplicates(),
            forall|x: usize| x < i ==> order@.contains(x),
        decreases keys.len() - i,
    {
        let mut p = order.len();
        while p > 0 && key_less(&keys[i], &keys[order[p - 1]])
            invariant
                p <= order.len(),
                order.len() == i,
                i < keys.len(),
                forall|a: int| 0 <= a < order.len() ==> #[trigger] order@[a] < i,
                forall|b: int|
                    p <= b < order.len() ==> view_lt(
                        key_view(keys@[i as int]),
                        key_view(keys@[#[trigger] order@[b] as int]),
                    ),
            decreases p,
        {
            p -= 1;
        }
        let ghost old_order = order@;
        proof {
            if p > 0 {
                let q = old_order[p - 1] as int;
                lemma_view_lt_total(key_view(keys@[i as int]), key_view(keys@[q]));
                assert(view_le(key_view(keys@[q]), key_view(keys@[i as int])));
                assert forall|a: int| 0 <= a < p implies view_le(
                    key_view(keys@[#[trigger] old_order[a] as int]),
                    key_view(keys@[i as int]),
                ) by {
                    if a < p - 1 {
                        assert(index_before(keys@, old_order[a] as int, old_order[p - 1] as int));
                        lemma_view_le_transitive(
                            key_view(keys@[old_order[a] as int]),
                            key_view(keys@[q]),
                            key_view(keys@[i as int]),
                        );
                    }
                }
            }
        }
        order.insert(p, i);
        proof {
            assert forall|a: int, b: int| 0 <= a < b < order.len() implies index_before(
                keys@,
                #[trigger] order@[a] as int,
                #[trigger] order@[b] as int,
            ) by {
                if b < p {
                    assert(order@[a] == old_order[a] && order@[b] == old_order[b]);
                } else if b == p {
                    assert(order@[a] == old_order[a]);
                    assert(view_le(key_view(keys@[old_order[a] as int]), key_view(keys@[i as int])));
                } else if a < p {
                    assert(order@[a] == old_order[a] && order@[b] == old_order[b - 1]);
                    assert(view_le(key_view(keys@[old_order[a] as int]), key_view(keys@[i as int])));
                    assert(view_lt(key_view(keys@[i as int]), key_view(keys@[old_order[b - 1] as int])));
                    if key_view(keys@[old_order[a] as int]) == key_view(keys@[i as int]) {
                    } else {
                        lemma_view_lt_transitive(
                            key_view(keys@[old_order[a] as int]),
                            key_view(keys@[i as int]),
                            key_view(keys@[old_order[b - 1] as int]),
                        );
                    }
                } else if a == p {
                    assert(order@[b] == old_order[b - 1]);
                } else {
                    assert(order@[a] == old_order[a - 1] && order@[b] == old_order[b - 1]);
                }
            }
            assert forall|x: usize| x < i + 1 implies order@.contains(x) by {
                if x == i {
                    assert(order@[p as int] == i);
                } else {
                    assert(old_order.contains(x));
                    let k = choose|k: int| 0 <= k < old_order.len() && old_order[k] == x;
                    if k < p {
                        assert(order@[k] == x);
                    } else {
                        assert(order@[k + 1] == x);
                    }
                }
            }
            assert(order@.no_duplicates()) by {
                assert forall|a: int, b: int| 0 <= a < b < order.len() implies order@[a]
                    != order@[b] by {
                    if a == p {
                        assert(order@[b] == old_order[b - 1]);
                    } else if b == p {
                        assert(order@[a] == old_order[a]);
                    } else {
                        let oa = if a < p { a } else { a - 1 };
                        let ob = if b < p { b } else { b - 1 };
                        assert(order@[a] == old_order[oa] && order@[b] == old_order[ob]);
                    }
                }
            }
        }
        i += 1;
    }
    order
}

} // verus!
