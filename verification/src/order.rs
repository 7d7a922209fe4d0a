//! The order in which the index page lists its entries: names compare
//! character by character, lists of names compare name by name, and a stable
//! sort arranges keys by that order.

use vstd::prelude::*;

verus! {

/// Whether text `a` comes strictly before text `b`: at the first place where
/// they differ `a` has the smaller character, or `a` ends there and `b` goes
/// on. Characters compare by code point, which is also the order of their
/// UTF-8 encodings.
pub open spec fn text_lt(a: Seq<char>, b: Seq<char>) -> bool
    decreases a.len(),
{
    if b.len() == 0 {
        false
    } else if a.len() == 0 {
        true
    } else if a.first() != b.first() {
        (a.first() as u32) < (b.first() as u32)
    } else {
        text_lt(a.drop_first(), b.drop_first())
    }
}

/// Whether the list of names `a` comes strictly before the list `b`, name by
/// name.
pub open spec fn names_lt(a: Seq<Seq<char>>, b: Seq<Seq<char>>) -> bool
    decreases a.len(),
{
    if b.len() == 0 {
        false
    } else if a.len() == 0 {
        true
    } else if a.first() != b.first() {
        text_lt(a.first(), b.first())
    } else {
        names_lt(a.drop_first(), b.drop_first())
    }
}

/// Two characters with the same code point are the same character.
pub proof fn lemma_code_point_injective(a: char, b: char)
    ensures
        a as u32 == b as u32 ==> a == b,
{
    if a as u32 == b as u32 {
        vstd::utf8::char_u32_cast(a, a as u32);
        vstd::utf8::char_u32_cast(b, a as u32);
    }
}

/// No text comes before itself.
pub proof fn lemma_text_lt_irreflexive(a: Seq<char>)
    ensures
        !text_lt(a, a),
    decreases a.len(),
{
    if a.len() > 0 {
        lemma_text_lt_irreflexive(a.drop_first());
    }
}

/// Of two different texts one comes before the other.
pub proof fn lemma_text_lt_total(a: Seq<char>, b: Seq<char>)
    ensures
        text_lt(a, b) || a == b || text_lt(b, a),
    decreases a.len(),
{
    if a.len() > 0 && b.len() > 0 {
        if a.first() == b.first() {
            lemma_text_lt_total(a.drop_first(), b.drop_first());
            if a.drop_first() == b.drop_first() {
                assert(a =~= seq![a.first()] + a.drop_first());
                assert(b =~= seq![b.first()] + b.drop_first());
            }
        } else {
            lemma_code_point_injective(a.first(), b.first());
        }
    } else if a.len() == 0 && b.len() == 0 {
        assert(a =~= b);
    }
}

/// The order of texts is transitive.
pub proof fn lemma_text_lt_transitive(a: Seq<char>, b: Seq<char>, c: Seq<char>)
    requires
        text_lt(a, b),
        text_lt(b, c),
    ensures
        text_lt(a, c),
    decreases a.len(),
{
    if a.len() > 0 && a.first() == b.first() && b.first() == c.first() {
        lemma_text_lt_transitive(a.drop_first(), b.drop_first(), c.drop_first());
    }
}

/// No list of names comes before itself.
pub proof fn lemma_names_lt_irreflexive(a: Seq<Seq<char>>)
    ensures
        !names_lt(a, a),
    decreases a.len(),
{
    if a.len() > 0 {
        lemma_names_lt_irreflexive(a.drop_first());
    }
}

/// Of two different lists of names one comes before the other.
pub proof fn lemma_names_lt_total(a: Seq<Seq<char>>, b: Seq<Seq<char>>)
    ensures
        names_lt(a, b) || a == b || names_lt(b, a),
    decreases a.len(),
{
    if a.len() > 0 && b.len() > 0 {
        if a.first() == b.first() {
            lemma_names_lt_total(a.drop_first(), b.drop_first());
            if a.drop_first() == b.drop_first() {
                assert(a =~= seq![a.first()] + a.drop_first());
                assert(b =~= seq![b.first()] + b.drop_first());
            }
        } else {
            lemma_text_lt_total(a.first(), b.first());
        }
    } else if a.len() == 0 && b.len() == 0 {
        assert(a =~= b);
    }
}

/// The order of lists of names is transitive.
pub proof fn lemma_names_lt_transitive(a: Seq<Seq<char>>, b: Seq<Seq<char>>, c: Seq<Seq<char>>)
    requires
        names_lt(a, b),
        names_lt(b, c),
    ensures
        names_lt(a, c),
    decreases a.len(),
{
    if a.len() > 0 {
        if a.first() == b.first() && b.first() == c.first() {
            lemma_names_lt_transitive(a.drop_first(), b.drop_first(), c.drop_first());
        } else if a.first() != b.first() && b.first() != c.first() {
            lemma_text_lt_transitive(a.first(), b.first(), c.first());
            lemma_text_lt_irreflexive(a.first());
        }
    }
}

/// Decides [`text_lt`].
pub fn text_less(a: &Vec<char>, b: &Vec<char>) -> (r: bool)
    ensures
        r == text_lt(a@, b@),
{
    let mut i: usize = 0;
    assert(a@.skip(0) == a@ && b@.skip(0) == b@);
    while i < a.len() && i < b.len() && a[i] == b[i]
        invariant
            i <= a.len(),
            i <= b.len(),
            text_lt(a@, b@) == text_lt(a@.skip(i as int), b@.skip(i as int)),
        decreases a.len() - i,
    {
        assert(a@.skip(i as int).drop_first() == a@.skip(i + 1));
        assert(b@.skip(i as int).drop_first() == b@.skip(i + 1));
        i = i + 1;
    }
    if i >= b.len() {
        false
    } else if i >= a.len() {
        true
    } else {
        (a[i] as u32) < (b[i] as u32)
    }
}

/// Whether two texts hold the same characters.
pub fn text_equal(a: &Vec<char>, b: &Vec<char>) -> (r: bool)
    ensures
        r == (a@ == b@),
{
    if a.len() != b.len() {
        return false;
    }
    let mut i: usize = 0;
    while i < a.len()
        invariant
            i <= a.len(),
            a.len() == b.len(),
            a@.take(i as int) == b@.take(i as int),
        decreases a.len() - i,
    {
        if a[i] != b[i] {
            return false;
        }
        assert(a@.take(i + 1) == a@.take(i as int).push(a@[i as int]));
        assert(b@.take(i + 1) == b@.take(i as int).push(b@[i as int]));
        i = i + 1;
    }
    assert(a@.take(a.len() as int) == a@);
    assert(b@.take(b.len() as int) == b@);
    true
}

/// The names that a key holds.
pub open spec fn key_view(key: Vec<Vec<char>>) -> Seq<Seq<char>> {
    key@.map_values(|name: Vec<char>| name@)
}

/// The keys that a list of keys holds.
pub open spec fn keys_view(keys: Seq<Vec<Vec<char>>>) -> Seq<Seq<Seq<char>>> {
    keys.map_values(|key: Vec<Vec<char>>| key_view(key))
}

/// Decides [`names_lt`].
pub fn names_less(a: &Vec<Vec<char>>, b: &Vec<Vec<char>>) -> (r: bool)
    ensures
        r == names_lt(key_view(*a), key_view(*b)),
{
    let ghost va = key_view(*a);
    let ghost vb = key_view(*b);
    let mut i: usize = 0;
    assert(va.skip(0) == va && vb.skip(0) == vb);
    while i < a.len() && i < b.len() && text_equal(&a[i], &b[i])
        invariant
            i <= a.len(),
            i <= b.len(),
            va == key_view(*a),
            vb == key_view(*b),
            names_lt(va, vb) == names_lt(va.skip(i as int), vb.skip(i as int)),
        decreases a.len() - i,
    {
        assert(va.skip(i as int).drop_first() == va.skip(i + 1));
        assert(vb.skip(i as int).drop_first() == vb.skip(i + 1));
        i = i + 1;
    }
    if i >= b.len() {
        false
    } else if i >= a.len() {
        true
    } else {
        text_less(&a[i], &b[i])
    }
}

/// Whether the key at index `x` is listed before the key at index `y`: its
/// key is smaller, or the keys are equal and `x` is the earlier index.
pub open spec fn listed_before(keys: Seq<Seq<Seq<char>>>, x: int, y: int) -> bool {
    names_lt(keys[x], keys[y]) || (keys[x] == keys[y] && x < y)
}

/// `order` with the index `x` put behind the last index whose key is not
/// greater than the key at `x`.
pub open spec fn insert_index(keys: Seq<Seq<Seq<char>>>, order: Seq<int>, x: int) -> Seq<int>
    decreases order.len(),
{
    if order.len() > 0 && names_lt(keys[x], keys[order.last()]) {
        insert_index(keys, order.drop_last(), x).push(order.last())
    } else {
        order.push(x)
    }
}

/// The indices of the first `n` keys, arranged by a stable sort of the keys.
pub open spec fn sort_prefix(keys: Seq<Seq<Seq<char>>>, n: nat) -> Seq<int>
    decreases n,
{
    if n == 0 {
        Seq::empty()
    } else {
        insert_index(keys, sort_prefix(keys, (n - 1) as nat), n - 1)
    }
}

/// The indices of `keys`, arranged so that the keys ascend and equal keys keep
/// the order in which they stand in `keys`.
pub open spec fn sort_order(keys: Seq<Seq<Seq<char>>>) -> Seq<int> {
    sort_prefix(keys, keys.len())
}

/// Whether `order` lists each of its indices before all that follow it.
pub open spec fn is_listed(keys: Seq<Seq<Seq<char>>>, order: Seq<int>) -> bool {
    forall|i: int, j: int| 0 <= i < j < order.len() ==> listed_before(keys, order[i], order[j])
}

/// Inserting an index that is greater than all in `order` keeps the list in
/// order, adds that index and nothing else.
pub proof fn lemma_insert_index(keys: Seq<Seq<Seq<char>>>, order: Seq<int>, x: int)
    requires
        is_listed(keys, order),
        forall|i: int| 0 <= i < order.len() ==> order[i] < x,
    ensures
        is_listed(keys, insert_index(keys, order, x)),
        insert_index(keys, order, x).len() == order.len() + 1,
        insert_index(keys, order, x).contains(x),
        forall|i: int| 0 <= i < order.len() ==> insert_index(keys, order, x).contains(order[i]),
        forall|i: int|
            0 <= i <= order.len() ==> {
                let y = #[trigger] insert_index(keys, order, x)[i];
                y == x || order.contains(y)
            },
    decreases order.len(),
{
    let r = insert_index(keys, order, x);
    if order.len() > 0 && names_lt(keys[x], keys[order.last()]) {
        let front = order.drop_last();
        let last = order.last();
        let inner = insert_index(keys, front, x);
        assert forall|i: int, j: int| 0 <= i < j < front.len() implies listed_before(
            keys,
            front[i],
            front[j],
        ) by {
            assert(front[i] == order[i] && front[j] == order[j]);
        }
        lemma_insert_index(keys, front, x);
        assert(r == inner.push(last));
        assert forall|i: int, j: int| 0 <= i < j < r.len() implies listed_before(
            keys,
            r[i],
            r[j],
        ) by {
            if j < inner.len() {
                assert(r[i] == inner[i] && r[j] == inner[j]);
            } else {
                let y = inner[i];
                assert(r[i] == y && r[j] == last);
                if y != x {
                    assert(front.contains(y));
                    let k = choose|k: int| 0 <= k < front.len() && front[k] == y;
                    assert(order[k] == y && order[order.len() - 1] == last);
                }
            }
        }
        let k = choose|k: int| 0 <= k < inner.len() && inner[k] == x;
        assert(r[k] == x);
        assert forall|i: int| 0 <= i < order.len() implies r.contains(order[i]) by {
            if i < front.len() {
                assert(front[i] == order[i]);
                let m = choose|m: int| 0 <= m < inner.len() && inner[m] == front[i];
                assert(r[m] == order[i]);
            } else {
                assert(r[r.len() - 1] == order[i]);
            }
        }
        assert forall|i: int| 0 <= i <= order.len() implies ({
            let y = #[trigger] r[i];
            y == x || order.contains(y)
        }) by {
            if i < inner.len() {
                let y = inner[i];
                assert(r[i] == y);
                if y != x {
                    let m = choose|m: int| 0 <= m < front.len() && front[m] == y;
                    assert(order[m] == y);
                }
            } else {
                assert(order[order.len() - 1] == r[i]);
            }
        }
    } else {
        assert(r == order.push(x));
        assert forall|i: int, j: int| 0 <= i < j < r.len() implies listed_before(
            keys,
            r[i],
            r[j],
        ) by {
            if j < order.len() {
                assert(r[i] == order[i] && r[j] == order[j]);
            } else {
                let e = order[i];
                let last = order.last();
                assert(r[i] == e && r[j] == x);
                lemma_names_lt_total(keys[e], keys[x]);
                if names_lt(keys[x], keys[e]) {
                    if i < order.len() - 1 {
                        assert(listed_before(keys, order[i], order[order.len() - 1]));
                        if names_lt(keys[e], keys[last]) {
                            lemma_names_lt_transitive(keys[x], keys[e], keys[last]);
                        }
                    }
                }
            }
        }
        assert(r[order.len() as int] == x);
        assert forall|i: int| 0 <= i < order.len() implies r.contains(order[i]) by {
            assert(r[i] == order[i]);
        }
        assert forall|i: int| 0 <= i <= order.len() implies ({
            let y = #[trigger] r[i];
            y == x || order.contains(y)
        }) by {
            if i < order.len() {
                assert(order[i] == r[i]);
            }
        }
    }
}

/// The sorted order lists every index of the first `n` keys once, with the
/// keys ascending and equal keys in the order of their indices.
pub proof fn lemma_sort_prefix(keys: Seq<Seq<Seq<char>>>, n: nat)
    ensures
        sort_prefix(keys, n).len() == n,
        is_listed(keys, sort_prefix(keys, n)),
        forall|i: int| 0 <= i < n ==> 0 <= #[trigger] sort_prefix(keys, n)[i] < n,
        forall|x: int| 0 <= x < n ==> sort_prefix(keys, n).contains(x),
    decreases n,
{
    if n > 0 {
        let before = sort_prefix(keys, (n - 1) as nat);
        lemma_sort_prefix(keys, (n - 1) as nat);
        lemma_insert_index(keys, before, n - 1);
        let r = sort_prefix(keys, n);
        assert forall|i: int| 0 <= i < n implies 0 <= #[trigger] r[i] < n by {
            let y = r[i];
            if y != n - 1 {
                let m = choose|m: int| 0 <= m < before.len() && before[m] == y;
            }
        }
        assert forall|x: int| 0 <= x < n implies r.contains(x) by {
            if x < n - 1 {
                assert(before.contains(x));
                let m = choose|m: int| 0 <= m < before.len() && before[m] == x;
                assert(insert_index(keys, before, n - 1).contains(before[m]));
            }
        }
    }
}

/// The law of the sort: the result holds every index of `keys` exactly once,
/// no key in it is followed by a smaller one, and indices with equal keys
/// stand in ascending order.
pub proof fn lemma_sort_order(keys: Seq<Seq<Seq<char>>>)
    ensures
        sort_order(keys).len() == keys.len(),
        forall|i: int| 0 <= i < keys.len() ==> 0 <= #[trigger] sort_order(keys)[i] < keys.len(),
        forall|x: int| 0 <= x < keys.len() ==> sort_order(keys).contains(x),
        sort_order(keys).no_duplicates(),
        forall|i: int, j: int|
            0 <= i < j < keys.len() ==> !names_lt(
                keys[#[trigger] sort_order(keys)[j]],
                keys[#[trigger] sort_order(keys)[i]],
            ),
        forall|i: int, j: int|
            0 <= i < j < keys.len() && keys[#[trigger] sort_order(keys)[i]]
                == keys[#[trigger] sort_order(keys)[j]] ==> sort_order(keys)[i] < sort_order(
                keys,
            )[j],
{
    let order = sort_order(keys);
    lemma_sort_prefix(keys, keys.len());
    assert forall|i: int, j: int| 0 <= i < j < keys.len() implies !names_lt(
        keys[#[trigger] order[j]],
        keys[#[trigger] order[i]],
    ) && (keys[order[i]] == keys[order[j]] ==> order[i] < order[j]) && order[i] != order[j] by {
        assert(listed_before(keys, order[i], order[j]));
        lemma_names_lt_irreflexive(keys[order[i]]);
        if names_lt(keys[order[i]], keys[order[j]]) && names_lt(keys[order[j]], keys[order[i]]) {
            lemma_names_lt_transitive(keys[order[i]], keys[order[j]], keys[order[i]]);
        }
    }
    assert forall|i: int, j: int| 0 <= i < order.len() && 0 <= j < order.len() && i
        != j implies order[i] != order[j] by {
        if i < j {
            assert(listed_before(keys, order[i], order[j]));
        } else {
            assert(listed_before(keys, order[j], order[i]));
        }
    }
}

/// Where `x` goes when it is inserted: behind position `p`, if every index
/// from `p` on has a greater key and the one before `p` has not.
pub proof fn lemma_insert_position(keys: Seq<Seq<Seq<char>>>, order: Seq<int>, x: int, p: int)
    requires
        0 <= p <= order.len(),
        forall|j: int| p <= j < order.len() ==> names_lt(keys[x], keys[#[trigger] order[j]]),
        p > 0 ==> !names_lt(keys[x], keys[order[p - 1]]),
    ensures
        insert_index(keys, order, x) == order.insert(p, x),
    decreases order.len() - p,
{
    if p == order.len() {
        assert(order.insert(p, x) =~= order.push(x));
    } else {
        assert(names_lt(keys[x], keys[order[order.len() - 1]]));
        lemma_insert_position(keys, order.drop_last(), x, p);
        assert(order.drop_last().insert(p, x).push(order.last()) =~= order.insert(p, x));
    }
}

/// The same indices as mathematical integers.
pub open spec fn indices_view(order: Seq<usize>) -> Seq<int> {
    order.map_values(|i: usize| i as int)
}

/// Sorts the indices of `keys` by their keys, keeping equal keys in the
/// order in which they stand in `keys`.
pub fn sorted_indices(keys: &Vec<Vec<Vec<char>>>) -> (order: Vec<usize>)
    ensures
        indices_view(order@) == sort_order(keys_view(keys@)),
{
    let ghost kv = keys_view(keys@);
    let mut order: Vec<usize> = Vec::new();
    let mut x: usize = 0;
    assert(indices_view(order@) =~= sort_prefix(kv, 0));
    while x < keys.len()
        invariant
            x <= keys.len(),
            kv == keys_view(keys@),
            order.len() == x,
            indices_view(order@) == sort_prefix(kv, x as nat),
            forall|i: int| 0 <= i < x ==> 0 <= #[trigger] order@[i] < x,
        decreases keys.len() - x,
    {
        let ghost before = indices_view(order@);
        let mut p: usize = order.len();
        while p > 0 && names_less(&keys[x], &keys[order[p - 1]])
            invariant
                p <= order.len(),
                order.len() == x,
                x < keys.len(),
                kv == keys_view(keys@),
                before == indices_view(order@),
                forall|i: int| 0 <= i < x ==> 0 <= #[trigger] order@[i] < x,
                forall|j: int|
                    p <= j < order.len() ==> names_lt(kv[x as int], kv[#[trigger] before[j]]),
            decreases p,
        {
            p = p - 1;
        }
        proof {
            lemma_insert_position(kv, before, x as int, p as int);
            lemma_sort_prefix(kv, x as nat);
        }
        order.insert(p, x);
        assert(indices_view(order@) =~= before.insert(p as int, x as int));
        proof {
            lemma_sort_prefix(kv, (x + 1) as nat);
            assert forall|i: int| 0 <= i < x + 1 implies 0 <= #[trigger] order@[i] < x + 1 by {
                assert(indices_view(order@)[i] == order@[i]);
            }
        }
        x = x + 1;
    }
    order
}

} // verus!
