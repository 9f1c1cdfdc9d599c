//! The display order of tree items and of the parent-group choices: by sort
//! order, then by lower-cased name, ties kept in their given order.

use vstd::prelude::*;
use vstd::string::StrSliceExecFns;
use crate::strings::{string_views, to_lowercase, unicode_lowercase};

verus! {

/// Whether `a` comes before `b` comparing characters by code point, a
/// proper prefix first (the order of `str`, which compares UTF-8 bytes and
/// so orders code points the same way).
pub open spec fn text_less(a: Seq<char>, b: Seq<char>) -> bool
    decreases a.len(),
{
    if a.len() == 0 {
        b.len() > 0
    } else if b.len() == 0 {
        false
    } else if a[0] != b[0] {
        (a[0] as int) < (b[0] as int)
    } else {
        text_less(a.drop_first(), b.drop_first())
    }
}

/// Whether key `a` sorts before key `b`: a smaller sort order, or the same
/// one and a smaller lower-cased name.
pub open spec fn key_less(a: (i32, Seq<char>), b: (i32, Seq<char>)) -> bool {
    a.0 < b.0 || (a.0 == b.0 && text_less(a.1, b.1))
}

/// Where position `x` goes among the already ordered positions: before the
/// first whose key is greater than its own, after all others.
pub open spec fn place_of(keys: Seq<(i32, Seq<char>)>, ordered: Seq<int>, x: int) -> int
    decreases ordered.len(),
{
    if ordered.len() == 0 {
        0
    } else if key_less(keys[x], keys[ordered[0]]) {
        0
    } else {
        1 + place_of(keys, ordered.drop_first(), x)
    }
}

/// The positions of the first `n` keys in display order: a stable sort
/// (insertion of each position in turn).
pub open spec fn display_order(keys: Seq<(i32, Seq<char>)>, n: nat) -> Seq<int>
    decreases n,
{
    if n == 0 {
        Seq::empty()
    } else {
        let before = display_order(keys, (n - 1) as nat);
        before.insert(place_of(keys, before, n - 1), n - 1)
    }
}

/// The sort keys of items (sort order, name): the order and the name lower
/// cased.
pub open spec fn sort_keys(items: Seq<(i32, Seq<char>)>) -> Seq<(i32, Seq<char>)> {
    items.map_values(|it: (i32, Seq<char>)| (it.0, unicode_lowercase(it.1)))
}

/// Compares two texts by code point (see `text_less`).
pub fn less_text(a: &str, b: &str) -> (r: bool)
    ensures
        r == text_less(a@, b@),
{
    let n = a.unicode_len();
    let m = b.unicode_len();
    let mut i: usize = 0;
    proof {
        assert(a@.skip(0) =~= a@);
        assert(b@.skip(0) =~= b@);
    }
    while i < n && i < m
        invariant
            n == a@.len(),
            m == b@.len(),
            i <= n,
            i <= m,
            text_less(a@, b@) == text_less(a@.skip(i as int), b@.skip(i as int)),
        decreases n - i,
    {
        let c = a.get_char(i);
        let d = b.get_char(i);
        proof {
            assert(a@.skip(i as int)[0] == c);
            assert(b@.skip(i as int)[0] == d);
            assert(a@.skip(i as int).drop_first() =~= a@.skip(i + 1));
            assert(b@.skip(i as int).drop_first() =~= b@.skip(i + 1));
        }
        if c != d {
            return c < d;
        }
        i += 1;
    }
    proof {
        assert(a@.skip(i as int).len() == n - i);
        assert(b@.skip(i as int).len() == m - i);
    }
    i == n && i < m
}

fn less_key(a: &(i32, String), b: &(i32, String)) -> (r: bool)
    ensures
        r == key_less((a.0, a.1@), (b.0, b.1@)),
{
    a.0 < b.0 || (a.0 == b.0 && less_text(a.1.as_str(), b.1.as_str()))
}

/// The display order of items (sort order, name), as positions: by sort
/// order, then by lower-cased name (`to_lowercase`), ties in the given order.
pub fn sorted_positions(items: &Vec<(i32, String)>) -> (order: Vec<usize>)
    ensures
        order@.map_values(|p: usize| p as int) == display_order(
            sort_keys(items@.map_values(|it: (i32, String)| (it.0, it.1@))),
            items@.len(),
        ),
{
    let ghost keys = sort_keys(items@.map_values(|it: (i32, String)| (it.0, it.1@)));
    let mut lowered: Vec<(i32, String)> = Vec::new();
    let mut k: usize = 0;
    while k < items.len()
        invariant
            k <= items@.len(),
            keys == sort_keys(items@.map_values(|it: (i32, String)| (it.0, it.1@))),
            lowered@.len() == k,
            forall|j: int| 0 <= j < k ==> (#[trigger] lowered@[j]).0 == keys[j].0 && lowered@[j].1@
                == keys[j].1,
        decreases items@.len() - k,
    {
        let low = to_lowercase(items[k].1.as_str());
        lowered.push((items[k].0, low));
        k += 1;
    }
    let mut order: Vec<usize> = Vec::new();
    let mut n: usize = 0;
    while n < items.len()
        invariant
            n <= items@.len(),
            lowered@.len() == items@.len(),
            keys.len() == items@.len(),
            forall|j: int| 0 <= j < lowered@.len() ==> (#[trigger] lowered@[j]).0 == keys[j].0
                && lowered@[j].1@ == keys[j].1,
            order@.map_values(|p: usize| p as int) == display_order(keys, n as nat),
            forall|j: int| 0 <= j < order@.len() ==> (#[trigger] order@[j]) < n,
            order@.len() == n,
        decreases items@.len() - n,
    {
        let ghost before = order@.map_values(|p: usize| p as int);
        let mut p: usize = 0;
        proof {
            assert(before.skip(0) =~= before);
        }
        while p < order.len()
            invariant
                p <= order@.len(),
                lowered@.len() == items@.len(),
                keys.len() == items@.len(),
                n < items@.len(),
                forall|j: int| 0 <= j < lowered@.len() ==> (#[trigger] lowered@[j]).0 == keys[j].0
                    && lowered@[j].1@ == keys[j].1,
                forall|j: int| 0 <= j < order@.len() ==> (#[trigger] order@[j]) < n,
                before == order@.map_values(|q: usize| q as int),
                place_of(keys, before, n as int) == p + place_of(
                    keys,
                    before.skip(p as int),
                    n as int,
                ),
            ensures
                p <= order@.len(),
                place_of(keys, before, n as int) == p,
            decreases order@.len() - p,
        {
            let q = order[p];
            proof {
                assert(before.skip(p as int)[0] == q as int);
                assert(before.skip(p as int).drop_first() =~= before.skip(p + 1));
            }
            if less_key(&lowered[n], &lowered[q]) {
                break;
            }
            p += 1;
        }
        proof {
            if p == order@.len() {
                assert(before.skip(p as int).len() == 0);
            }
        }
        let ghost old_order = order@;
        order.insert(p, n);
        proof {
            assert(order@.map_values(|q: usize| q as int) =~= before.insert(p as int, n as int));
            assert forall|j: int| 0 <= j < order@.len() implies (#[trigger] order@[j]) < n + 1 by {
                if j < p {
                    assert(order@[j] == old_order[j]);
                } else if j > p {
                    assert(order@[j] == old_order[j - 1]);
                }
            }
        }
        n += 1;
    }
    order
}

proof fn lemma_text_less_irreflexive(a: Seq<char>)
    ensures
        !text_less(a, a),
    decreases a.len(),
{
    if a.len() > 0 {
        lemma_text_less_irreflexive(a.drop_first());
    }
}

proof fn lemma_text_less_asymmetric(a: Seq<char>, b: Seq<char>)
    requires
        text_less(a, b),
    ensures
        !text_less(b, a),
    decreases a.len(),
{
    if a.len() > 0 && b.len() > 0 && a[0] == b[0] {
        lemma_text_less_asymmetric(a.drop_first(), b.drop_first());
    }
}

proof fn lemma_text_less_transitive(a: Seq<char>, b: Seq<char>, c: Seq<char>)
    requires
        text_less(a, b),
        text_less(b, c),
    ensures
        text_less(a, c),
    decreases a.len(),
{
    if a.len() > 0 && b.len() > 0 && c.len() > 0 && a[0] == b[0] && b[0] == c[0] {
        lemma_text_less_transitive(a.drop_first(), b.drop_first(), c.drop_first());
    }
}

proof fn lemma_text_less_total(a: Seq<char>, b: Seq<char>)
    requires
        a != b,
    ensures
        text_less(a, b) || text_less(b, a),
    decreases a.len(),
{
    if a.len() > 0 && b.len() > 0 && a[0] == b[0] {
        if a.drop_first() == b.drop_first() {
            assert(a =~= seq![a[0]] + a.drop_first());
            assert(b =~= seq![b[0]] + b.drop_first());
        }
        lemma_text_less_total(a.drop_first(), b.drop_first());
    } else if a.len() == 0 && b.len() == 0 {
        assert(a =~= b);
    } else if a.len() > 0 && b.len() > 0 {
        assert((a[0] as int) != (b[0] as int));
    }
}

proof fn lemma_key_order(a: (i32, Seq<char>), b: (i32, Seq<char>), c: (i32, Seq<char>))
    ensures
        !key_less(a, a),
        key_less(a, b) ==> !key_less(b, a),
        key_less(a, b) && key_less(b, c) ==> key_less(a, c),
        !key_less(a, b) && !key_less(b, a) ==> a.0 == b.0 && a.1 == b.1,
        key_less(a, b) && !key_less(c, b) ==> key_less(a, c),
{
    lemma_text_less_irreflexive(a.1);
    if key_less(a, b) && a.0 == b.0 {
        lemma_text_less_asymmetric(a.1, b.1);
    }
    if key_less(a, b) && key_less(b, c) && a.0 == b.0 && b.0 == c.0 {
        lemma_text_less_transitive(a.1, b.1, c.1);
    }
    if !key_less(a, b) && !key_less(b, a) && a.0 == b.0 && a.1 != b.1 {
        lemma_text_less_total(a.1, b.1);
    }
    if key_less(a, b) && !key_less(c, b) {
        if b.0 == c.0 && b.1 != c.1 {
            lemma_text_less_total(b.1, c.1);
        }
        if b.0 == c.0 && b.1 == c.1 {
        } else if b.0 == c.0 && a.0 == b.0 {
            lemma_text_less_transitive(a.1, b.1, c.1);
        }
    }
}

/// Whether ordered positions never put a key after a greater one.
pub open spec fn in_display_order(keys: Seq<(i32, Seq<char>)>, ordered: Seq<int>) -> bool {
    forall|i: int, j: int|
        0 <= i < j < ordered.len() ==> !key_less(
            #[trigger] keys[ordered[j]],
            #[trigger] keys[ordered[i]],
        )
}

proof fn lemma_place_of(keys: Seq<(i32, Seq<char>)>, ordered: Seq<int>, x: int)
    requires
        in_display_order(keys, ordered),
    ensures
        0 <= place_of(keys, ordered, x) <= ordered.len(),
        forall|k: int|
            0 <= k < place_of(keys, ordered, x) ==> !key_less(keys[x], #[trigger] keys[ordered[k]]),
        forall|k: int|
            place_of(keys, ordered, x) <= k < ordered.len() ==> key_less(
                keys[x],
                #[trigger] keys[ordered[k]],
            ),
    decreases ordered.len(),
{
    if ordered.len() > 0 {
        let d = ordered.drop_first();
        assert(in_display_order(keys, d)) by {
            assert forall|i: int, j: int| 0 <= i < j < d.len() implies !key_less(
                #[trigger] keys[d[j]],
                #[trigger] keys[d[i]],
            ) by {
                assert(d[i] == ordered[i + 1] && d[j] == ordered[j + 1]);
            }
        }
        lemma_place_of(keys, d, x);
        if key_less(keys[x], keys[ordered[0]]) {
            assert forall|k: int| 0 <= k < ordered.len() implies key_less(
                keys[x],
                #[trigger] keys[ordered[k]],
            ) by {
                if k > 0 {
                    lemma_key_order(keys[x], keys[ordered[0]], keys[ordered[k]]);
                }
            }
        } else {
            assert forall|k: int| 0 <= k < place_of(keys, ordered, x) implies !key_less(
                keys[x],
                #[trigger] keys[ordered[k]],
            ) by {
                if k > 0 {
                    assert(ordered[k] == d[k - 1]);
                }
            }
            assert forall|k: int| place_of(keys, ordered, x) <= k < ordered.len() implies key_less(
                keys[x],
                #[trigger] keys[ordered[k]],
            ) by {
                assert(ordered[k] == d[k - 1]);
            }
        }
    }
}

/// The display order is sorted: no item comes after one whose key is
/// greater (sort order first, then lower-cased name).
pub proof fn display_order_is_sorted(keys: Seq<(i32, Seq<char>)>, n: nat)
    requires
        n <= keys.len(),
    ensures
        display_order(keys, n).len() == n,
        forall|i: int| 0 <= i < n ==> 0 <= #[trigger] display_order(keys, n)[i] < n,
        in_display_order(keys, display_order(keys, n)),
    decreases n,
{
    if n > 0 {
        display_order_is_sorted(keys, (n - 1) as nat);
        let before = display_order(keys, (n - 1) as nat);
        let x = n - 1;
        lemma_place_of(keys, before, x);
        let p = place_of(keys, before, x);
        let r = before.insert(p, x);
        assert forall|i: int| 0 <= i < n implies 0 <= #[trigger] r[i] < n by {
            if i < p {
                assert(r[i] == before[i]);
            } else if i > p {
                assert(r[i] == before[i - 1]);
            }
        }
        assert forall|i: int, j: int| 0 <= i < j < r.len() implies !key_less(
            #[trigger] keys[r[j]],
            #[trigger] keys[r[i]],
        ) by {
            if j < p {
                assert(r[i] == before[i] && r[j] == before[j]);
            } else if j == p {
                assert(r[i] == before[i]);
            } else if i < p {
                assert(r[i] == before[i] && r[j] == before[j - 1]);
                lemma_key_order(keys[before[j - 1]], keys[before[i]], keys[x]);
                lemma_key_order(keys[x], keys[before[i]], keys[before[j - 1]]);
                lemma_key_order(keys[before[i]], keys[x], keys[before[j - 1]]);
            } else if i == p {
                assert(r[j] == before[j - 1]);
                lemma_key_order(keys[x], keys[before[j - 1]], keys[x]);
            } else {
                assert(r[i] == before[i - 1] && r[j] == before[j - 1]);
            }
        }
    }
}

} // verus!
