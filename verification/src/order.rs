//! The order of strings and of lists of strings, and a stable sort by such keys.

use vstd::prelude::*;
use crate::text::{chars_of, views};

verus! {

/// Whether `a` comes before `b`: at the first place where they differ `a` has the
/// smaller character, or `a` is a proper prefix of `b`. Characters compare by code
/// point, which is also the byte order of their UTF-8 encodings, the order of `str`.
pub open spec fn str_lt(a: Seq<char>, b: Seq<char>) -> bool
    decreases a.len(),
{
    if a.len() == 0 {
        b.len() > 0
    } else if b.len() == 0 {
        false
    } else if a[0] != b[0] {
        (a[0] as int) < (b[0] as int)
    } else {
        str_lt(a.drop_first(), b.drop_first())
    }
}

/// Whether the list of strings `a` comes before `b`, element by element in the
/// order of strings, a proper prefix first.
pub open spec fn key_lt(a: Seq<Seq<char>>, b: Seq<Seq<char>>) -> bool
    decreases a.len(),
{
    if a.len() == 0 {
        b.len() > 0
    } else if b.len() == 0 {
        false
    } else if a[0] != b[0] {
        str_lt(a[0], b[0])
    } else {
        key_lt(a.drop_first(), b.drop_first())
    }
}

/// No string comes before itself.
pub proof fn lemma_str_lt_irreflexive(a: Seq<char>)
    ensures
        !str_lt(a, a),
    decreases a.len(),
{
    if a.len() > 0 {
        lemma_str_lt_irreflexive(a.drop_first());
    }
}

/// The order of strings is transitive.
pub proof fn lemma_str_lt_transitive(a: Seq<char>, b: Seq<char>, c: Seq<char>)
    requires
        str_lt(a, b),
        str_lt(b, c),
    ensures
        str_lt(a, c),
    decreases a.len(),
{
    if a.len() > 0 && b.len() > 0 && c.len() > 0 && a[0] == b[0] && b[0] == c[0] {
        lemma_str_lt_transitive(a.drop_first(), b.drop_first(), c.drop_first());
    }
}

/// Of two different strings, one comes before the other.
pub proof fn lemma_str_lt_total(a: Seq<char>, b: Seq<char>)
    ensures
        a =~= b || str_lt(a, b) || str_lt(b, a),
    decreases a.len(),
{
    if a.len() > 0 && b.len() > 0 && a[0] == b[0] {
        lemma_str_lt_total(a.drop_first(), b.drop_first());
        if a.drop_first() =~= b.drop_first() {
            assert(a =~= seq![a[0]] + a.drop_first());
            assert(b =~= seq![b[0]] + b.drop_first());
        }
    }
}

/// No list of strings comes before itself.
pub proof fn lemma_key_lt_irreflexive(a: Seq<Seq<char>>)
    ensures
        !key_lt(a, a),
    decreases a.len(),
{
    if a.len() > 0 {
        lemma_key_lt_irreflexive(a.drop_first());
    }
}

/// The order of lists of strings is transitive.
pub proof fn lemma_key_lt_transitive(a: Seq<Seq<char>>, b: Seq<Seq<char>>, c: Seq<Seq<char>>)
    requires
        key_lt(a, b),
        key_lt(b, c),
    ensures
        key_lt(a, c),
    decreases a.len(),
{
    if a.len() > 0 && b.len() > 0 && c.len() > 0 {
        if a[0] == b[0] && b[0] == c[0] {
            lemma_key_lt_transitive(a.drop_first(), b.drop_first(), c.drop_first());
        } else if a[0] != b[0] && b[0] != c[0] {
            lemma_str_lt_transitive(a[0], b[0], c[0]);
            if a[0] == c[0] {
                lemma_str_lt_transitive(a[0], b[0], a[0]);
                lemma_str_lt_irreflexive(a[0]);
            }
        }
    }
}

/// Of two different lists of strings, one comes before the other.
pub proof fn lemma_key_lt_total(a: Seq<Seq<char>>, b: Seq<Seq<char>>)
    ensures
        a =~= b || key_lt(a, b) || key_lt(b, a),
    decreases a.len(),
{
    if a.len() > 0 && b.len() > 0 {
        if a[0] == b[0] {
            lemma_key_lt_total(a.drop_first(), b.drop_first());
            if a.drop_first() =~= b.drop_first() {
                assert(a =~= seq![a[0]] + a.drop_first());
                assert(b =~= seq![b[0]] + b.drop_first());
            }
        } else {
            lemma_str_lt_total(a[0], b[0]);
        }
    }
}

/// Whether `a` comes before `b` in the order of strings: see `str_lt`.
pub fn str_less(a: &str, b: &str) -> (res: bool)
    ensures
        res == str_lt(a@, b@),
{
    let x = chars_of(a);
    let y = chars_of(b);
    let mut i: usize = 0;
    assert(a@.skip(0) =~= a@);
    assert(b@.skip(0) =~= b@);
    while i < x.len() && i < y.len() && x[i] == y[i]
        invariant
            x@ == a@,
            y@ == b@,
            i <= x@.len(),
            i <= y@.len(),
            str_lt(a@, b@) == str_lt(a@.skip(i as int), b@.skip(i as int)),
        decreases x@.len() - i,
    {
        proof {
            let s = a@.skip(i as int);
            let t = b@.skip(i as int);
            assert(s.drop_first() =~= a@.skip(i + 1));
            assert(t.drop_first() =~= b@.skip(i + 1));
        }
        i = i + 1;
    }
    let ghost s = a@.skip(i as int);
    let ghost t = b@.skip(i as int);
    if i == x.len() {
        assert(s.len() == 0);
        i < y.len()
    } else if i == y.len() {
        false
    } else {
        assert(s[0] == x@[i as int] && t[0] == y@[i as int]);
        x[i] < y[i]
    }
}

/// Whether the list `a` comes before `b`: see `key_lt`.
pub fn key_less(a: &Vec<String>, b: &Vec<String>) -> (res: bool)
    ensures
        res == key_lt(views(a@), views(b@)),
{
    let ghost va = views(a@);
    let ghost vb = views(b@);
    let mut i: usize = 0;
    assert(va.skip(0) =~= va);
    assert(vb.skip(0) =~= vb);
    while i < a.len() && i < b.len() && a[i] == b[i]
        invariant
            va == views(a@),
            vb == views(b@),
            i <= a@.len(),
            i <= b@.len(),
            key_lt(va, vb) == key_lt(va.skip(i as int), vb.skip(i as int)),
        decreases a@.len() - i,
    {
        proof {
            let s = va.skip(i as int);
            let t = vb.skip(i as int);
            assert(s.drop_first() =~= va.skip(i + 1));
            assert(t.drop_first() =~= vb.skip(i + 1));
            assert(s[0] == a@[i as int]@);
            assert(t[0] == b@[i as int]@);
        }
        i = i + 1;
    }
    let ghost s = va.skip(i as int);
    let ghost t = vb.skip(i as int);
    if i == a.len() {
        assert(s.len() == 0);
        i < b.len()
    } else if i == b.len() {
        false
    } else {
        assert(s[0] == a@[i as int]@ && t[0] == b@[i as int]@);
        str_less(a[i].as_str(), b[i].as_str())
    }
}

/// The keys as lists of character sequences.
pub open spec fn key_views(keys: Seq<Vec<String>>) -> Seq<Seq<Seq<char>>> {
    keys.map_values(|v: Vec<String>| views(v@))
}

/// The key of the `x`-th entry.
pub open spec fn key_at(keys: Seq<Seq<Seq<char>>>, x: int) -> Seq<Seq<char>> {
    keys[x]
}

/// Whether `order` lists the indices of `keys` in the order of their keys, those
/// with equal keys in the order they had: a stable sort.
pub open spec fn stably_sorted(keys: Seq<Seq<Seq<char>>>, order: Seq<usize>) -> bool {
    &&& order.len() == keys.len()
    &&& order.no_duplicates()
    &&& forall|i: int| 0 <= i < order.len() ==> (#[trigger] order[i]) < keys.len()
    &&& forall|i: int, j: int|
        0 <= i < j < order.len() ==> !key_lt(key_at(keys, order[j] as int), key_at(keys, order[i] as int))
    &&& forall|i: int, j: int|
        0 <= i < j < order.len() && key_at(keys, order[i] as int) == key_at(keys, order[j] as int)
            ==> order[i] < order[j]
}

/// The indices of the keys, stably sorted by key: see `stably_sorted`.
pub fn sort_order(keys: &Vec<Vec<String>>) -> (res: Vec<usize>)
    ensures
        stably_sorted(key_views(keys@), res@),
        forall|x: usize| x < keys@.len() ==> #[trigger] res@.contains(x),
{
    let ghost kv = key_views(keys@);
    let n = keys.len();
    let mut rest: Vec<usize> = Vec::new();
    for x in 0..n
        invariant
            rest@.len() == x,
            forall|q: int| 0 <= q < x ==> rest@[q] == q,
    {
        rest.push(x);
    }
    let mut res: Vec<usize> = Vec::new();
    assert forall|x: usize| x < n implies #[trigger] res@.contains(x) || rest@.contains(x) by {
        assert(rest@[x as int] == x);
    }
    while rest.len() > 0
        invariant
            n == keys@.len(),
            kv == key_views(keys@),
            res@.len() + rest@.len() == n,
            forall|q: int| 0 <= q < rest@.len() ==> (#[trigger] rest@[q]) < n,
            forall|p: int, q: int| 0 <= p < q < rest@.len() ==> rest@[p] < rest@[q],
            forall|i: int| 0 <= i < res@.len() ==> (#[trigger] res@[i]) < n,
            res@.no_duplicates(),
            forall|i: int, q: int| 0 <= i < res@.len() && 0 <= q < rest@.len() ==> res@[i] != rest@[q],
            forall|x: usize| x < n ==> #[trigger] res@.contains(x) || rest@.contains(x),
            forall|i: int, j: int|
                0 <= i < j < res@.len() ==> !key_lt(key_at(kv, res@[j] as int), key_at(kv, res@[i] as int)),
            forall|i: int, q: int|
                0 <= i < res@.len() && 0 <= q < rest@.len()
                    ==> !key_lt(key_at(kv, rest@[q] as int), key_at(kv, res@[i] as int)),
            forall|i: int, j: int|
                0 <= i < j < res@.len() && key_at(kv, res@[i] as int) == key_at(kv, res@[j] as int)
                    ==> res@[i] < res@[j],
            forall|i: int, q: int|
                0 <= i < res@.len() && 0 <= q < rest@.len() && key_at(kv, res@[i] as int) == key_at(
                    kv,
                    rest@[q] as int,
                ) ==> res@[i] < rest@[q],
        decreases rest@.len(),
    {
        let mut best: usize = 0;
        let m = rest.len();
        proof {
            lemma_key_lt_irreflexive(key_at(kv, rest@[0] as int));
        }
        for p in 1..m
            invariant
                m == rest@.len(),
                m > 0,
                n == keys@.len(),
                kv == key_views(keys@),
                forall|q: int| 0 <= q < rest@.len() ==> (#[trigger] rest@[q]) < n,
                best < p,
                forall|q: int| 0 <= q < p ==> !key_lt(key_at(kv, rest@[q] as int), key_at(kv, rest@[best as int] as int)),
                forall|q: int| 0 <= q < p && key_at(kv, rest@[q] as int) == key_at(kv, rest@[best as int] as int) ==> best <= q,
        {
            if key_less(&keys[rest[p]], &keys[rest[best]]) {
                proof {
                    assert forall|q: int| 0 <= q < p + 1 implies !key_lt(key_at(kv, rest@[q] as int), key_at(kv, rest@[p as int] as int)) by {
                        if q < p && key_lt(key_at(kv, rest@[q] as int), key_at(kv, rest@[p as int] as int)) {
                            lemma_key_lt_transitive(key_at(kv, rest@[q] as int), key_at(kv, rest@[p as int] as int), key_at(kv, rest@[best as int] as int));
                        }
                        if q == p {
                            lemma_key_lt_irreflexive(key_at(kv, rest@[p as int] as int));
                        }
                    }
                }
                best = p;
            }
        }
        proof {
            lemma_key_lt_irreflexive(key_at(kv, rest@[best as int] as int));
        }
        let ghost old_rest = rest@;
        let ghost old_res = res@;
        let picked = rest.remove(best);
        res.push(picked);
        proof {
            assert(picked == old_rest[best as int]);
            assert forall|q: int| 0 <= q < rest@.len() implies rest@[q] == (if q < best { old_rest[q] } else { old_rest[q + 1] }) by {}
            assert forall|x: usize| x < n implies #[trigger] res@.contains(x) || rest@.contains(x) by {
                if old_res.contains(x) {
                    let i = choose|i: int| 0 <= i < old_res.len() && old_res[i] == x;
                    assert(res@[i] == x);
                } else {
                    assert(old_rest.contains(x));
                    let q = choose|q: int| 0 <= q < old_rest.len() && old_rest[q] == x;
                    if q < best {
                        assert(rest@[q] == x);
                    } else if q == best {
                        assert(res@[old_res.len() as int] == x);
                    } else {
                        assert(rest@[q - 1] == x);
                    }
                }
            }
        }
    }
    proof {
        assert forall|i: int, j: int|
            0 <= i < j < res@.len() && key_at(kv, res@[i] as int) == key_at(kv, res@[j] as int)
                implies res@[i] < res@[j] by {}
    }
    res
}

/// Whether `ys` is `xs` stably sorted by the keys `ks`, which go with `xs` one for one.
pub open spec fn arranged<T>(xs: Seq<T>, ks: Seq<Seq<Seq<char>>>, ys: Seq<T>) -> bool {
    exists|order: Seq<usize>| #[trigger] stably_sorted(ks, order) && ys =~= order.map_values(|j: usize| xs[j as int])
}

/// The values stably sorted by the keys that go with them one for one: see `arranged`.
pub fn sort_by_keys<T: Copy>(ids: &Vec<T>, keys: &Vec<Vec<String>>) -> (res: Vec<T>)
    requires
        ids@.len() == keys@.len(),
    ensures
        arranged(ids@, key_views(keys@), res@),
        res@.len() == ids@.len(),
        forall|i: int| 0 <= i < res@.len() ==> ids@.contains(#[trigger] res@[i]),
        forall|i: int| 0 <= i < ids@.len() ==> res@.contains(#[trigger] ids@[i]),
{
    let order = sort_order(keys);
    let mut res: Vec<T> = Vec::new();
    let n = order.len();
    for i in 0..n
        invariant
            n == order@.len(),
            stably_sorted(key_views(keys@), order@),
            ids@.len() == keys@.len(),
            res@ =~= order@.take(i as int).map_values(|j: usize| ids@[j as int]),
    {
        res.push(ids[order[i]]);
        assert(order@.take(i + 1).map_values(|j: usize| ids@[j as int]) =~= order@.take(i as int).map_values(
            |j: usize| ids@[j as int],
        ).push(ids@[order@[i as int] as int]));
    }
    assert(order@.take(n as int) =~= order@);
    assert forall|i: int| 0 <= i < res@.len() implies ids@.contains(#[trigger] res@[i]) by {
        assert(res@[i] == ids@[order@[i] as int]);
    }
    assert forall|i: int| 0 <= i < ids@.len() implies res@.contains(#[trigger] ids@[i]) by {
        assert(order@.contains(i as usize));
        let q = choose|q: int| 0 <= q < order@.len() && order@[q] == i as usize;
        assert(res@[q] == ids@[i]);
    }
    res
}

/// The keys made of one string each.
pub fn single_keys(strs: Vec<String>) -> (res: Vec<Vec<String>>)
    ensures
        res@.len() == strs@.len(),
        forall|i: int| 0 <= i < strs@.len() ==> #[trigger] key_views(res@)[i] == seq![strs@[i]@],
{
    let mut res: Vec<Vec<String>> = Vec::new();
    let n = strs.len();
    let mut rest = strs;
    let ghost all = rest@;
    let mut rev: Vec<String> = Vec::new();
    while rest.len() > 0
        invariant
            rest@ == all.take(rest@.len() as int),
            rest@.len() + rev@.len() == n,
            n == all.len(),
            forall|j: int| 0 <= j < rev@.len() ==> rev@[j] == all[n - 1 - j],
        decreases rest@.len(),
    {
        let s = rest.pop().unwrap();
        rev.push(s);
    }
    while rev.len() > 0
        invariant
            res@.len() + rev@.len() == n,
            n == all.len(),
            forall|j: int| 0 <= j < rev@.len() ==> rev@[j] == all[n - 1 - j],
            forall|i: int| 0 <= i < res@.len() ==> #[trigger] key_views(res@)[i] == seq![all[i]@],
        decreases rev@.len(),
    {
        let ghost r0 = rev@;
        let ghost old_res = res@;
        let s = rev.pop().unwrap();
        assert(s == r0[r0.len() - 1]);
        assert(s == all[old_res.len() as int]);
        let mut k: Vec<String> = Vec::new();
        k.push(s);
        assert(views(k@) =~= seq![all[res@.len() as int]@]);
        res.push(k);
        assert(key_views(res@) =~= key_views(old_res).push(views(k@)));
    }
    res
}

} // verus!
