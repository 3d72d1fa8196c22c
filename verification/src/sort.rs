//! Ordering text the way `String`'s `Ord` does (code point by code point),
//! and a stable sort of positions by text keys.

use vstd::prelude::*;
use vstd::set_lib::{lemma_int_range, lemma_map_size, lemma_subset_equality, set_int_range};

verus! {

/// `a < b` for strings: lexicographic on code points (the same order as
/// UTF-8 bytes).
pub open spec fn text_lt(a: Seq<char>, b: Seq<char>) -> bool
    decreases a.len(),
{
    if a.len() == 0 {
        b.len() > 0
    } else if b.len() == 0 {
        false
    } else if a[0] != b[0] {
        a[0] < b[0]
    } else {
        text_lt(a.drop_first(), b.drop_first())
    }
}

/// `text_lt` is character order: a proper prefix comes first, and
/// otherwise the first differing character decides.
pub proof fn lemma_text_lt_is_character_order(a: Seq<char>, b: Seq<char>, k: int)
    requires
        0 <= k <= a.len(),
        k <= b.len(),
        a.take(k) == b.take(k),
    ensures
        k == a.len() && k < b.len() ==> text_lt(a, b),
        k == a.len() && k == b.len() ==> !text_lt(a, b),
        k < a.len() && k < b.len() && a[k] < b[k] ==> text_lt(a, b),
        k < a.len() && k < b.len() && b[k] < a[k] ==> !text_lt(a, b),
        k < a.len() && k == b.len() ==> !text_lt(a, b),
    decreases k,
{
    if k > 0 {
        assert(a[0] == a.take(k)[0] && b[0] == b.take(k)[0]);
        assert(a.drop_first().take(k - 1) =~= a.take(k).drop_first());
        assert(b.drop_first().take(k - 1) =~= b.take(k).drop_first());
        lemma_text_lt_is_character_order(a.drop_first(), b.drop_first(), k - 1);
        if k < a.len() {
            assert(a.drop_first()[k - 1] == a[k]);
        }
        if k < b.len() {
            assert(b.drop_first()[k - 1] == b[k]);
        }
    }
}

/// No string is below itself.
pub proof fn lemma_text_lt_irreflexive(a: Seq<char>)
    ensures
        !text_lt(a, a),
    decreases a.len(),
{
    if a.len() > 0 {
        lemma_text_lt_irreflexive(a.drop_first());
    }
}

/// Two different strings are ordered one way or the other.
pub proof fn lemma_text_lt_total(a: Seq<char>, b: Seq<char>)
    requires
        a != b,
    ensures
        text_lt(a, b) || text_lt(b, a),
    decreases a.len(),
{
    if a.len() > 0 && b.len() > 0 && a[0] == b[0] {
        if a.drop_first() == b.drop_first() {
            assert(a =~= seq![a[0]] + a.drop_first());
            assert(b =~= seq![b[0]] + b.drop_first());
        }
        lemma_text_lt_total(a.drop_first(), b.drop_first());
    } else if a.len() == 0 && b.len() == 0 {
        assert(a =~= b);
    }
}

/// The order is asymmetric.
pub proof fn lemma_text_lt_asymmetric(a: Seq<char>, b: Seq<char>)
    requires
        text_lt(a, b),
    ensures
        !text_lt(b, a),
    decreases a.len(),
{
    if a.len() > 0 && b.len() > 0 && a[0] == b[0] {
        lemma_text_lt_asymmetric(a.drop_first(), b.drop_first());
    }
}

/// The order is transitive.
pub proof fn lemma_text_lt_transitive(a: Seq<char>, b: Seq<char>, c: Seq<char>)
    requires
        text_lt(a, b),
        text_lt(b, c),
    ensures
        text_lt(a, c),
    decreases a.len(),
{
    if a.len() > 0 && b.len() > 0 && c.len() > 0 && a[0] == b[0] && b[0] == c[0] {
        lemma_text_lt_transitive(a.drop_first(), b.drop_first(), c.drop_first());
    }
}

/// `a < b`, comparing code point by code point.
pub fn text_less(a: &Vec<char>, b: &Vec<char>) -> (r: bool)
    ensures
        r == text_lt(a@, b@),
{
    let mut i: usize = 0;
    assert(a@.skip(0) =~= a@);
    assert(b@.skip(0) =~= b@);
    while i < a.len() && i < b.len() && a[i] == b[i]
        invariant
            i <= a.len(),
            i <= b.len(),
            text_lt(a@, b@) == text_lt(a@.skip(i as int), b@.skip(i as int)),
        decreases a.len() - i,
    {
        assert(a@.skip(i as int).drop_first() =~= a@.skip(i + 1));
        assert(b@.skip(i as int).drop_first() =~= b@.skip(i + 1));
        assert(a@.skip(i as int)[0] == a@[i as int]);
        assert(b@.skip(i as int)[0] == b@[i as int]);
        i += 1;
    }
    if i == a.len() {
        i < b.len()
    } else if i == b.len() {
        false
    } else {
        assert(a@.skip(i as int)[0] == a@[i as int]);
        assert(b@.skip(i as int)[0] == b@[i as int]);
        a[i] < b[i]
    }
}

/// Position `p` comes before position `q` when sorting stably by `keys`:
/// a smaller key, or an equal key and an earlier position.
pub open spec fn ranks_before(keys: Seq<Seq<char>>, p: int, q: int) -> bool {
    text_lt(keys[p], keys[q]) || (keys[p] == keys[q] && p < q)
}

/// `order` lists the positions `0..keys.len()`, each once, in the order a
/// stable sort by `keys` puts them.
pub open spec fn is_stable_order(keys: Seq<Seq<char>>, order: Seq<usize>) -> bool {
    &&& order.len() == keys.len()
    &&& forall|p: int| 0 <= p < order.len() ==> #[trigger] order[p] < keys.len()
    &&& forall|p: int, q: int|
        0 <= p < q < order.len() ==> ranks_before(keys, #[trigger] order[p] as int, #[trigger] order[q] as int)
}

/// A stable order lists every position.
pub proof fn lemma_stable_order_is_permutation(keys: Seq<Seq<char>>, order: Seq<usize>)
    requires
        is_stable_order(keys, order),
    ensures
        forall|p: int, q: int| 0 <= p < q < order.len() ==> order[p] != order[q],
{
    assert forall|p: int, q: int| 0 <= p < q < order.len() implies order[p] != order[q] by {
        if order[p] == order[q] {
            assert(ranks_before(keys, order[p] as int, order[q] as int));
            lemma_text_lt_irreflexive(keys[order[p] as int]);
        }
    }
}

/// The order of a stable sort of the positions of `keys` (see
/// [`lemma_stable_order_unique`]: there is exactly one).
pub open spec fn stable_order_spec(keys: Seq<Seq<char>>) -> Seq<usize> {
    choose|o: Seq<usize>| is_stable_order(keys, o)
}

/// The positions of `keys` in the order of a stable sort by key.
pub fn stable_order(keys: &Vec<Vec<char>>) -> (r: Vec<usize>)
    ensures
        is_stable_order(keys@.map_values(|k: Vec<char>| k@), r@),
        r@ == stable_order_spec(keys@.map_values(|k: Vec<char>| k@)),
{
    let ghost ks = keys@.map_values(|k: Vec<char>| k@);
    let mut order: Vec<usize> = Vec::new();
    let mut i: usize = 0;
    while i < keys.len()
        invariant
            ks == keys@.map_values(|k: Vec<char>| k@),
            ks.len() == keys.len(),
            i <= keys.len(),
            order.len() == i,
            forall|p: int| 0 <= p < order.len() ==> #[trigger] order@[p] < i,
            forall|p: int, q: int|
                0 <= p < q < order.len() ==> ranks_before(ks, #[trigger] order@[p] as int, #[trigger] order@[q] as int),
        decreases keys.len() - i,
    {
        let key = &keys[i];
        assert(ks[i as int] == key@);
        let mut p: usize = 0;
        while p < order.len() && !text_less(key, &keys[order[p]])
            invariant
                ks == keys@.map_values(|k: Vec<char>| k@),
                ks.len() == keys.len(),
                i < keys.len(),
                key@ == ks[i as int],
                p <= order.len(),
                forall|x: int| 0 <= x < order.len() ==> #[trigger] order@[x] < i,
                forall|x: int| 0 <= x < p ==> !text_lt(ks[i as int], ks[#[trigger] order@[x] as int]),
            decreases order.len() - p,
        {
            assert(ks[order@[p as int] as int] == keys@[order@[p as int] as int]@);
            p += 1;
        }
        if p < order.len() {
            assert(ks[order@[p as int] as int] == keys@[order@[p as int] as int]@);
        }
        let ghost before = order@;
        order.insert(p, i);
        assert(order@ =~= before.subrange(0, p as int).push(i).add(before.subrange(p as int, before.len() as int)));
        assert forall|x: int| 0 <= x < order.len() implies #[trigger] order@[x] < i + 1 by {
            if x < p {
                assert(order@[x] == before[x]);
            } else if x > p {
                assert(order@[x] == before[x - 1]);
            }
        }
        assert forall|x: int, y: int| 0 <= x < y < order.len() implies ranks_before(
            ks,
            #[trigger] order@[x] as int,
            #[trigger] order@[y] as int,
        ) by {
            let new_key = ks[i as int];
            if x < p && y < p {
                assert(order@[x] == before[x] && order@[y] == before[y]);
            } else if x < p && y == p {
                let e = before[x] as int;
                assert(order@[x] == before[x]);
                assert(!text_lt(new_key, ks[e]));
                if ks[e] != new_key {
                    lemma_text_lt_total(ks[e], new_key);
                }
            } else if x < p && y > p {
                assert(order@[x] == before[x] && order@[y] == before[y - 1]);
            } else if x == p {
                let e = before[y - 1] as int;
                assert(order@[y] == before[y - 1]);
                assert(text_lt(new_key, ks[before[p as int] as int]));
                if y - 1 > p {
                    assert(ranks_before(ks, before[p as int] as int, e));
                    if text_lt(ks[before[p as int] as int], ks[e]) {
                        lemma_text_lt_transitive(new_key, ks[before[p as int] as int], ks[e]);
                    }
                }
            } else {
                assert(order@[x] == before[x - 1] && order@[y] == before[y - 1]);
            }
        }
        i += 1;
    }
    proof {
        assert(is_stable_order(ks, order@));
        lemma_stable_order_unique(ks, order@, stable_order_spec(ks));
    }
    order
}

} // verus!

verus! {

/// A stable order lists every position.
proof fn lemma_stable_order_onto(keys: Seq<Seq<char>>, order: Seq<usize>, v: int)
    requires
        is_stable_order(keys, order),
        0 <= v < keys.len(),
    ensures
        exists|p: int| 0 <= p < order.len() && order[p] == v,
{
    lemma_stable_order_is_permutation(keys, order);
    let n = order.len() as int;
    let dom = set_int_range(0, n);
    let f = |p: int| order[p] as int;
    lemma_int_range(0, n);
    assert forall|x: int, y: int| dom.contains(x) && dom.contains(y) && #[trigger] f(x) == #[trigger] f(
        y,
    ) implies x == y by {
        if x < y {
            assert(order[x] != order[y]);
        } else if y < x {
            assert(order[y] != order[x]);
        }
    }
    let img = dom.map(f);
    lemma_map_size(dom, img, f);
    assert forall|x: int| img.contains(x) implies set_int_range(0, n).contains(x) by {
        let p = choose|p: int| dom.contains(p) && f(p) == x;
        assert(order[p] < keys.len());
    }
    lemma_subset_equality(img, set_int_range(0, n));
    assert(set_int_range(0, n).contains(v));
    assert(img.contains(v));
    let p = choose|p: int| dom.contains(p) && f(p) == v;
    assert(order[p] == v);
}

/// Where insertion sort puts key `k` into `order`, searching from `p`:
/// before the first listed position whose key is greater.
spec fn insert_position(keys: Seq<Seq<char>>, order: Seq<usize>, k: Seq<char>, p: int) -> int
    decreases order.len() - p,
{
    if p < 0 || p >= order.len() {
        order.len() as int
    } else if text_lt(k, keys[order[p] as int]) {
        p
    } else {
        insert_position(keys, order, k, p + 1)
    }
}

/// The positions `0..n` after inserting them one by one, as insertion sort
/// does.
spec fn insertion_order(keys: Seq<Seq<char>>, n: nat) -> Seq<usize>
    decreases n,
{
    if n == 0 {
        Seq::empty()
    } else {
        let prev = insertion_order(keys, (n - 1) as nat);
        let p = insert_position(keys, prev, keys[n - 1], 0);
        prev.subrange(0, p).push((n - 1) as usize) + prev.subrange(p, prev.len() as int)
    }
}

proof fn lemma_insert_position(keys: Seq<Seq<char>>, order: Seq<usize>, k: Seq<char>, p: int)
    requires
        0 <= p <= order.len(),
        forall|x: int| 0 <= x < p ==> !text_lt(k, keys[#[trigger] order[x] as int]),
    ensures
        p <= insert_position(keys, order, k, p) <= order.len(),
        forall|x: int|
            0 <= x < insert_position(keys, order, k, p) ==> !text_lt(
                k,
                keys[#[trigger] order[x] as int],
            ),
        insert_position(keys, order, k, p) < order.len() ==> text_lt(
            k,
            keys[order[insert_position(keys, order, k, p)] as int],
        ),
    decreases order.len() - p,
{
    if p < order.len() && !text_lt(k, keys[order[p] as int]) {
        lemma_insert_position(keys, order, k, p + 1);
    }
}

proof fn lemma_insertion_order(keys: Seq<Seq<char>>, n: nat)
    requires
        n <= keys.len(),
        keys.len() <= usize::MAX,
    ensures
        insertion_order(keys, n).len() == n,
        forall|p: int|
            0 <= p < insertion_order(keys, n).len() ==> #[trigger] insertion_order(keys, n)[p] < n,
        forall|p: int, q: int|
            0 <= p < q < insertion_order(keys, n).len() ==> ranks_before(
                keys,
                #[trigger] insertion_order(keys, n)[p] as int,
                #[trigger] insertion_order(keys, n)[q] as int,
            ),
    decreases n,
{
    if n > 0 {
        let i = n - 1;
        lemma_insertion_order(keys, i as nat);
        let before = insertion_order(keys, i as nat);
        let new_key = keys[i];
        lemma_insert_position(keys, before, new_key, 0);
        let p = insert_position(keys, before, new_key, 0);
        let order = insertion_order(keys, n);
        assert(order == before.subrange(0, p).push(i as usize) + before.subrange(
            p,
            before.len() as int,
        ));
        assert forall|x: int| 0 <= x < order.len() implies #[trigger] order[x] < n by {
            if x < p {
                assert(order[x] == before[x]);
            } else if x > p {
                assert(order[x] == before[x - 1]);
            }
        }
        assert forall|x: int, y: int| 0 <= x < y < order.len() implies ranks_before(
            keys,
            #[trigger] order[x] as int,
            #[trigger] order[y] as int,
        ) by {
            if x < p && y < p {
                assert(order[x] == before[x] && order[y] == before[y]);
            } else if x < p && y == p {
                let e = before[x] as int;
                assert(order[x] == before[x]);
                assert(!text_lt(new_key, keys[e]));
                if keys[e] != new_key {
                    lemma_text_lt_total(keys[e], new_key);
                }
            } else if x < p && y > p {
                assert(order[x] == before[x] && order[y] == before[y - 1]);
            } else if x == p {
                let e = before[y - 1] as int;
                assert(order[y] == before[y - 1]);
                assert(text_lt(new_key, keys[before[p] as int]));
                if y - 1 > p {
                    assert(ranks_before(keys, before[p] as int, e));
                    if text_lt(keys[before[p] as int], keys[e]) {
                        lemma_text_lt_transitive(new_key, keys[before[p] as int], keys[e]);
                    }
                }
            } else {
                assert(order[x] == before[x - 1] && order[y] == before[y - 1]);
            }
        }
    }
}

/// Every list of keys (of a length that positions can count) has a stable
/// order, so [`stable_order_spec`] is one.
pub proof fn lemma_stable_order_exists(keys: Seq<Seq<char>>)
    requires
        keys.len() <= usize::MAX,
    ensures
        is_stable_order(keys, stable_order_spec(keys)),
{
    lemma_insertion_order(keys, keys.len());
    assert(is_stable_order(keys, insertion_order(keys, keys.len())));
}

/// Two stable orders by the same keys agree up to position `p`./// Two stable orders by the same keys agree up to position `p`.
proof fn lemma_stable_orders_agree(keys: Seq<Seq<char>>, a: Seq<usize>, b: Seq<usize>, p: int)
    requires
        is_stable_order(keys, a),
        is_stable_order(keys, b),
        0 <= p < a.len(),
    ensures
        forall|r: int| 0 <= r <= p ==> a[r] == b[r],
    decreases p,
{
    if p > 0 {
        lemma_stable_orders_agree(keys, a, b, p - 1);
    }
    if a[p] != b[p] {
        let x = a[p] as int;
        let y = b[p] as int;
        lemma_stable_order_is_permutation(keys, a);
        lemma_stable_order_is_permutation(keys, b);
        lemma_stable_order_onto(keys, a, y);
        lemma_stable_order_onto(keys, b, x);
        let q = choose|q: int| 0 <= q < a.len() && a[q] == y;
        let q2 = choose|q: int| 0 <= q < b.len() && b[q] == x;
        if q < p {
            assert(a[q] == b[q]);
            assert(b[q] != b[p]);
        }
        if q2 < p {
            assert(a[q2] == b[q2]);
            assert(a[q2] != a[p]);
        }
        assert(q > p && q2 > p);
        assert(ranks_before(keys, x, y));
        assert(ranks_before(keys, y, x));
        if text_lt(keys[x], keys[y]) {
            lemma_text_lt_asymmetric(keys[x], keys[y]);
        } else if text_lt(keys[y], keys[x]) {
            lemma_text_lt_asymmetric(keys[y], keys[x]);
        }
    }
}

/// The stable order by given keys is unique: sorting stably is
/// deterministic.
pub proof fn lemma_stable_order_unique(keys: Seq<Seq<char>>, a: Seq<usize>, b: Seq<usize>)
    requires
        is_stable_order(keys, a),
        is_stable_order(keys, b),
    ensures
        a == b,
{
    if a.len() > 0 {
        lemma_stable_orders_agree(keys, a, b, a.len() - 1);
    }
    assert(a =~= b);
}

} // verus!
