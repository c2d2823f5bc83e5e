//! Choosing the items to document: path filters, the items each module makes
//! visible once its `use` items are followed, and the closure of a selection
//! under the dependency graph.

use vstd::prelude::*;
use std::collections::HashMap;
use std::collections::HashSet;
use crate::model::{Crate, Id, Item, ItemEnum, ItemSummary};
use crate::graph::{
    Edge, IdGraph, edges_in_index, law_add_edge, lemma_closed_forward, lemma_nodup_subset_len, lemma_outgoing_contains,
    outgoing, reaches, reaches_within,
};
use crate::deps::{DepStep, apply_step, apply_steps, build_graph_for_item, item_steps};
use crate::text::{contains_str, occurs_at, replace_all, replace_str, split_all, split_str, starts_with, views};

verus! {

broadcast use vstd::std_specs::hash::group_hash_axioms;

/// The path a user wrote, made absolute: a path with a leading `::`, or one that does
/// not start with the crate's name followed by `::`, is taken to start at the crate
/// (so a lone name, the crate's own name too, means an item at the crate's top); the
/// path is then cut at each `::`. An empty path stays empty.
pub open spec fn normalized_path(user_path: Seq<char>, normalized_crate_name: Seq<char>) -> Seq<Seq<char>> {
    let full = if "::"@.is_prefix_of(user_path) {
        normalized_crate_name + user_path
    } else if user_path.len() == 0 || (normalized_crate_name + "::"@).is_prefix_of(user_path) {
        user_path
    } else {
        normalized_crate_name + "::"@ + user_path
    };
    split_all(full, "::"@)
}

/// Turns a path filter into its segments: see `normalized_path`.
pub fn normalize_path(user_path: &str, _crate_name: &str, normalized_crate_name: &str) -> (res: Vec<String>)
    ensures
        views(res@) == normalized_path(user_path@, normalized_crate_name@),
{
    proof {
        reveal_strlit("::");
    }
    let mut crate_prefix = String::from_str(normalized_crate_name);
    crate_prefix.append("::");
    let path = if starts_with(user_path, "::") {
        let mut p = String::from_str(normalized_crate_name);
        p.append(user_path);
        p
    } else if user_path.is_empty() || starts_with(user_path, crate_prefix.as_str()) {
        String::from_str(user_path)
    } else {
        let mut p = String::from_str(normalized_crate_name);
        p.append("::");
        p.append(user_path);
        p
    };
    split_str(path.as_str(), "::")
}

/// Whether an item's path starts with the filter's segments.
pub fn path_matches(item_path: &[String], filter_path: &[String]) -> (res: bool)
    ensures
        res == views(filter_path@).is_prefix_of(views(item_path@)),
{
    if filter_path.len() > item_path.len() {
        return false;
    }
    let n = filter_path.len();
    for k in 0..n
        invariant
            n == filter_path@.len(),
            n <= item_path@.len(),
            forall|j: int| 0 <= j < k ==> filter_path@[j]@ == item_path@[j]@,
    {
        if filter_path[k] != item_path[k] {
            assert(views(filter_path@)[k as int] != views(item_path@).subrange(0, n as int)[k as int]);
            return false;
        }
    }
    assert(views(filter_path@) =~= views(item_path@).subrange(0, n as int));
    true
}

/// Whether `x` occurs in `v`.
pub fn contains_id(v: &Vec<Id>, x: Id) -> (res: bool)
    ensures
        res == v@.contains(x),
{
    let n = v.len();
    for k in 0..n
        invariant
            n == v@.len(),
            forall|j: int| 0 <= j < k ==> v@[j] != x,
    {
        if v[k] == x {
            assert(v@[k as int] == x);
            return true;
        }
    }
    false
}

/// Adds `x` to the ids of `v` unless it is there already.
pub fn insert_id(v: &mut Vec<Id>, x: Id)
    requires
        old(v)@.no_duplicates(),
    ensures
        final(v)@.no_duplicates(),
        final(v)@.to_set() == old(v)@.to_set().insert(x),
        final(v)@ == (if old(v)@.contains(x) { old(v)@ } else { old(v)@.push(x) }),
{
    if !contains_id(v, x) {
        let ghost before = v@;
        v.push(x);
        proof {
            assert(v@.no_duplicates()) by {
                assert forall|a: int, b: int| 0 <= a < v@.len() && 0 <= b < v@.len() && a != b
                    implies v@[a] != v@[b] by {
                    if a == v@.len() - 1 {
                        assert(before.contains(v@[b]));
                    } else if b == v@.len() - 1 {
                        assert(before.contains(v@[a]));
                    }
                }
            }
            assert(v@.to_set() =~= before.to_set().insert(x)) by {
                assert forall|y: Id| v@.contains(y) <==> before.contains(y) || y == x by {
                    if v@.contains(y) {
                        let j = choose|j: int| 0 <= j < v@.len() && v@[j] == y;
                        if j < before.len() {
                            assert(before[j] == y);
                        }
                    }
                    if before.contains(y) {
                        let j = choose|j: int| 0 <= j < before.len() && before[j] == y;
                        assert(v@[j] == y);
                    }
                    if y == x {
                        assert(v@[v@.len() - 1] == y);
                    }
                }
            }
        }
    } else {
        assert(v@.to_set() =~= v@.to_set().insert(x));
    }
}

/// Adds the ids of `xs` to those of `v`, leaving out those already there.
pub fn extend_ids(v: &mut Vec<Id>, xs: &Vec<Id>)
    requires
        old(v)@.no_duplicates(),
    ensures
        final(v)@.no_duplicates(),
        final(v)@.to_set() == old(v)@.to_set().union(xs@.to_set()),
{
    let ghost v0 = v@.to_set();
    let n = xs.len();
    for k in 0..n
        invariant
            n == xs@.len(),
            v@.no_duplicates(),
            v@.to_set() == v0.union(xs@.take(k as int).to_set()),
    {
        insert_id(v, xs[k]);
        proof {
            assert(xs@.take(k + 1) =~= xs@.take(k as int).push(xs@[k as int]));
            xs@.take(k as int).lemma_push_to_set_commute(xs@[k as int]);
            assert(v@.to_set() =~= v0.union(xs@.take(k + 1).to_set()));
        }
    }
    assert(xs@.take(n as int) =~= xs@);
}

/// The ids of a set, in the order the set hands them out, each once.
pub fn ids_of_set(set: &HashSet<Id>) -> (res: Vec<Id>)
    ensures
        forall|x: Id| #[trigger] res@.contains(x) <==> set@.contains(x),
{
    let mut res: Vec<Id> = Vec::new();
    let ghost all: Seq<Id> = vstd::std_specs::iter::IteratorSpec::remaining(&vstd::std_specs::hash::spec_hash_keys_iter(set)).unref();
    for id in it: set.iter()
        invariant
            res@.len() == it.index(),
            it.seq().unref() == all,
            forall|i: int| 0 <= i < it.index() ==> res@[i] == all[i],
            all.to_set() == set@,
        ensures
            res@.len() == all.len(),
    {
        res.push(*id);
    }
    proof {
        assert forall|x: Id| #[trigger] res@.contains(x) <==> set@.contains(x) by {
            if res@.contains(x) {
                let i = choose|i: int| 0 <= i < res@.len() && res@[i] == x;
                assert(all[i] == x);
                assert(all.contains(x));
                assert(all.to_set().contains(x));
            }
            if set@.contains(x) {
                assert(all.to_set().contains(x));
                let i = choose|i: int| 0 <= i < all.len() && all[i] == x;
                assert(res@[i] == x);
            }
        }
    }
    res
}

/// A copy of a list of ids.
pub fn copy_ids(v: &Vec<Id>) -> (res: Vec<Id>)
    ensures
        res@ == v@,
{
    let mut res: Vec<Id> = Vec::new();
    let n = v.len();
    for k in 0..n
        invariant
            n == v@.len(),
            res@ == v@.take(k as int),
    {
        res.push(v[k]);
        assert(v@.take(k + 1) =~= v@.take(k as int).push(v@[k as int]));
    }
    assert(v@.take(n as int) =~= v@);
    res
}

/// A module with the items it makes visible once its `use` items are followed.
pub struct ResolvedModule {
    pub id: Id,
    /// The visible item ids, each once.
    pub items: Vec<Id>,
}

/// Where the resolution of a module stands.
#[allow(dead_code)]
pub enum ResolutionState {
    Unresolved,
    Resolving,
    Resolved(Vec<Id>),
}

/// The resolution cache as the resolution spec sees it: a module being resolved
/// maps to `None`, a resolved one to its items; `Unresolved` counts as absent.
pub open spec fn cache_view(c: Map<Id, ResolutionState>) -> Map<Id, Option<Set<Id>>> {
    Map::new(
        |k: Id| c.contains_key(k) && !(c[k] is Unresolved),
        |k: Id| match c[k] {
            ResolutionState::Resolved(v) => Some(v@.to_set()),
            _ => None,
        },
    )
}

/// Every resolved entry of the cache lists each id once.
pub open spec fn cache_ok(c: Map<Id, ResolutionState>) -> bool {
    forall|k: Id| #[trigger] c.contains_key(k) ==> match c[k] {
        ResolutionState::Resolved(v) => v@.no_duplicates(),
        _ => true,
    }
}

/// The number of items of the crate not in the cache yet.
pub open spec fn unresolved_count(idx: Map<Id, Item>, c: Map<Id, Option<Set<Id>>>) -> nat {
    idx.dom().difference(c.dom()).len()
}

pub proof fn lemma_count_insert(idx: Map<Id, Item>, c: Map<Id, Option<Set<Id>>>, m: Id, v: Option<Set<Id>>)
    requires
        idx.dom().finite(),
        idx.contains_key(m),
        !c.contains_key(m),
    ensures
        unresolved_count(idx, c.insert(m, v)) < unresolved_count(idx, c),
{
    let a = idx.dom().difference(c.dom());
    assert(idx.dom().difference(c.insert(m, v).dom()) =~= a.remove(m));
    assert(a.contains(m));
}

pub proof fn lemma_count_grow(idx: Map<Id, Item>, c: Map<Id, Option<Set<Id>>>, d: Map<Id, Option<Set<Id>>>)
    requires
        idx.dom().finite(),
        c.dom().subset_of(d.dom()),
    ensures
        unresolved_count(idx, d) <= unresolved_count(idx, c),
{
    vstd::set_lib::lemma_len_subset(idx.dom().difference(d.dom()), idx.dom().difference(c.dom()));
}

/// The items module `m` makes visible, and the cache after resolving it: a module
/// found in the cache gives its recorded items, or none while it is still being
/// resolved (a cycle of glob imports); otherwise its items are resolved with `m`
/// marked as being resolved, and recorded.
pub open spec fn resolve(idx: Map<Id, Item>, m: Id, c: Map<Id, Option<Set<Id>>>) -> (Set<Id>, Map<Id, Option<Set<Id>>>)
    decreases unresolved_count(idx, c), 0int, 0int
    when idx.dom().finite()
{
    if c.contains_key(m) {
        (
            match c[m] {
                Some(s) => s,
                None => Set::empty(),
            },
            c,
        )
    } else if idx.contains_key(m) && idx[m].inner is Module {
        let c1 = c.insert(m, None);
        proof {
            lemma_count_insert(idx, c, m, None);
        }
        let r = match idx[m].inner {
            ItemEnum::Module(md) => resolve_items(idx, md.items@, 0, Set::empty(), c1),
            _ => (Set::empty(), c1),
        };
        (r.0, r.1.insert(m, Some(r.0)))
    } else {
        (Set::empty(), c.insert(m, Some(Set::empty())))
    }
}

/// Resolution of a module's item list from position `i` on, with `acc` visible so
/// far: an item is visible itself, a `use` makes its target visible, and a glob
/// `use` of a module makes that module's resolved items visible.
pub open spec fn resolve_items(
    idx: Map<Id, Item>,
    items: Seq<Id>,
    i: int,
    acc: Set<Id>,
    c: Map<Id, Option<Set<Id>>>,
) -> (Set<Id>, Map<Id, Option<Set<Id>>>)
    decreases unresolved_count(idx, c), 1int, items.len() - i
    when idx.dom().finite() && 0 <= i
{
    if i >= items.len() {
        (acc, c)
    } else {
        let id = items[i];
        if !idx.contains_key(id) {
            resolve_items(idx, items, i + 1, acc, c)
        } else {
            match idx[id].inner {
                ItemEnum::Use(u) => match u.id {
                    None => resolve_items(idx, items, i + 1, acc, c),
                    Some(t) => if !u.is_glob {
                        resolve_items(idx, items, i + 1, acc.insert(t), c)
                    } else if !idx.contains_key(t) {
                        resolve_items(idx, items, i + 1, acc, c)
                    } else if idx[t].inner is Module {
                        let r = resolve(idx, t, c);
                        if unresolved_count(idx, r.1) <= unresolved_count(idx, c) {
                            resolve_items(idx, items, i + 1, acc.union(r.0), r.1)
                        } else {
                            (acc, c)
                        }
                    } else {
                        resolve_items(idx, items, i + 1, acc.insert(t), c)
                    },
                },
                _ => resolve_items(idx, items, i + 1, acc.insert(id), c),
            }
        }
    }
}

pub proof fn lemma_resolve_grows(idx: Map<Id, Item>, m: Id, c: Map<Id, Option<Set<Id>>>)
    requires
        idx.dom().finite(),
    ensures
        c.dom().subset_of(resolve(idx, m, c).1.dom()),
        resolve(idx, m, c).1.contains_key(m),
    decreases unresolved_count(idx, c), 0int, 0int,
{
    if !c.contains_key(m) && idx.contains_key(m) && idx[m].inner is Module {
        let c1 = c.insert(m, None);
        lemma_count_insert(idx, c, m, None);
        match idx[m].inner {
            ItemEnum::Module(md) => {
                lemma_items_grow(idx, md.items@, 0, Set::empty(), c1);
            },
            _ => {},
        }
    }
}

pub proof fn lemma_items_grow(
    idx: Map<Id, Item>,
    items: Seq<Id>,
    i: int,
    acc: Set<Id>,
    c: Map<Id, Option<Set<Id>>>,
)
    requires
        idx.dom().finite(),
        0 <= i,
    ensures
        c.dom().subset_of(resolve_items(idx, items, i, acc, c).1.dom()),
    decreases unresolved_count(idx, c), 1int, items.len() - i,
{
    if i < items.len() {
        let id = items[i];
        if !idx.contains_key(id) {
            lemma_items_grow(idx, items, i + 1, acc, c);
        } else {
            match idx[id].inner {
                ItemEnum::Use(u) => match u.id {
                    None => {
                        lemma_items_grow(idx, items, i + 1, acc, c);
                    },
                    Some(t) => {
                        if !u.is_glob {
                            lemma_items_grow(idx, items, i + 1, acc.insert(t), c);
                        } else if !idx.contains_key(t) {
                            lemma_items_grow(idx, items, i + 1, acc, c);
                        } else if idx[t].inner is Module {
                            let r = resolve(idx, t, c);
                            lemma_resolve_grows(idx, t, c);
                            lemma_count_grow(idx, c, r.1);
                            lemma_items_grow(idx, items, i + 1, acc.union(r.0), r.1);
                        } else {
                            lemma_items_grow(idx, items, i + 1, acc.insert(t), c);
                        }
                    },
                },
                _ => {
                    lemma_items_grow(idx, items, i + 1, acc.insert(id), c);
                },
            }
        }
    }
}

/// Resolves the items module `module_id` makes visible, using and filling the
/// cache: see `resolve`.
pub fn resolve_module_items(
    module_id: Id,
    krate: &Crate,
    cache: &mut HashMap<Id, ResolutionState>,
) -> (res: Vec<Id>)
    requires
        cache_ok(old(cache)@),
    ensures
        cache_ok(final(cache)@),
        res@.no_duplicates(),
        krate.index_map().dom().finite(),
        res@.to_set() == resolve(krate.index_map(), module_id, cache_view(old(cache)@)).0,
        cache_view(final(cache)@) == resolve(krate.index_map(), module_id, cache_view(old(cache)@)).1,
    decreases unresolved_count(krate.index_map(), cache_view(old(cache)@)),
{
    proof {
        krate.lemma_index_finite();
    }
    let ghost idx = krate.index_map();
    let ghost c0 = cache_view(cache@);
    match cache.get(&module_id) {
        Some(ResolutionState::Resolving) => {
            return Vec::new();
        },
        Some(ResolutionState::Resolved(items)) => {
            return copy_ids(items);
        },
        _ => {},
    }
    assert(!c0.contains_key(module_id));
    let module_item = match krate.get(module_id) {
        Some(it) => it,
        None => {
            let res: Vec<Id> = Vec::new();
            cache.insert(module_id, ResolutionState::Resolved(Vec::new()));
            proof {
                assert(res@.to_set() =~= Set::<Id>::empty());
                assert(cache_view(cache@) =~= c0.insert(module_id, Some(Set::<Id>::empty())));
            }
            return res;
        },
    };
    let md = match &module_item.inner {
        ItemEnum::Module(md) => md,
        _ => {
            let res: Vec<Id> = Vec::new();
            cache.insert(module_id, ResolutionState::Resolved(Vec::new()));
            proof {
                assert(res@.to_set() =~= Set::<Id>::empty());
                assert(cache_view(cache@) =~= c0.insert(module_id, Some(Set::<Id>::empty())));
            }
            return res;
        },
    };
    cache.insert(module_id, ResolutionState::Resolving);
    let ghost c1 = c0.insert(module_id, None);
    assert(cache_view(cache@) =~= c1);
    proof {
        lemma_count_insert(idx, c0, module_id, None);
    }
    let mut resolved: Vec<Id> = Vec::new();
    let ghost goal = resolve_items(idx, md.items@, 0, Set::empty(), c1);
    assert(resolved@.to_set() =~= Set::<Id>::empty());
    let n = md.items.len();
    for k in 0..n
        invariant
            n == md.items@.len(),
            idx == krate.index_map(),
            idx.dom().finite(),
            cache_ok(cache@),
            resolved@.no_duplicates(),
            unresolved_count(idx, cache_view(cache@)) <= unresolved_count(idx, c1),
            unresolved_count(idx, c1) < unresolved_count(idx, c0),
            c0 == cache_view(old(cache)@),
            goal == resolve_items(idx, md.items@, k as int, resolved@.to_set(), cache_view(cache@)),
    {
        let item_id = md.items[k];
        let ghost cv = cache_view(cache@);
        match krate.get(item_id) {
            None => {},
            Some(item) => {
                match &item.inner {
                    ItemEnum::Use(use_item) => {
                        match use_item.id {
                            None => {},
                            Some(target_id) => {
                                if use_item.is_glob {
                                    match krate.get(target_id) {
                                        None => {},
                                        Some(target_item) => {
                                            if let ItemEnum::Module(_) = &target_item.inner {
                                                let imported = resolve_module_items(target_id, krate, cache);
                                                proof {
                                                    lemma_resolve_grows(idx, target_id, cv);
                                                    lemma_count_grow(idx, cv, cache_view(cache@));
                                                }
                                                extend_ids(&mut resolved, &imported);
                                            } else {
                                                insert_id(&mut resolved, target_id);
                                            }
                                        },
                                    }
                                } else {
                                    insert_id(&mut resolved, target_id);
                                }
                            },
                        }
                    },
                    _ => {
                        insert_id(&mut resolved, item_id);
                    },
                }
            },
        }
    }
    let ghost cv = cache_view(cache@);
    let stored = copy_ids(&resolved);
    cache.insert(module_id, ResolutionState::Resolved(stored));
    proof {
        assert(cache_view(cache@) =~= cv.insert(module_id, Some(resolved@.to_set())));
    }
    resolved
}

/// The resolved items of each module, resolving the crate's items in order with
/// one cache, and the cache at the end.
pub open spec fn index_fold(idx: Map<Id, Item>, ids: Seq<Id>) -> (Map<Id, Set<Id>>, Map<Id, Option<Set<Id>>>)
    decreases ids.len(),
{
    if ids.len() == 0 {
        (Map::empty(), Map::empty())
    } else {
        let prev = index_fold(idx, ids.drop_last());
        let id = ids.last();
        if idx.contains_key(id) && idx[id].inner is Module && !prev.0.contains_key(id) {
            let r = resolve(idx, id, prev.1);
            (prev.0.insert(id, r.0), r.1)
        } else {
            prev
        }
    }
}

pub proof fn lemma_index_fold_dom(idx: Map<Id, Item>, ids: Seq<Id>)
    ensures
        forall|k: Id| #[trigger] index_fold(idx, ids).0.contains_key(k)
            <==> (ids.contains(k) && idx.contains_key(k) && idx[k].inner is Module),
    decreases ids.len(),
{
    if ids.len() > 0 {
        lemma_index_fold_dom(idx, ids.drop_last());
        assert forall|k: Id| ids.contains(k) <==> (ids.drop_last().contains(k) || k == ids.last()) by {
            if ids.contains(k) {
                let j = choose|j: int| 0 <= j < ids.len() && ids[j] == k;
                if j < ids.len() - 1 {
                    assert(ids.drop_last()[j] == k);
                }
            }
            if ids.drop_last().contains(k) {
                let j = choose|j: int| 0 <= j < ids.drop_last().len() && ids.drop_last()[j] == k;
                assert(ids[j] == k);
            }
            if k == ids.last() {
                assert(ids[ids.len() - 1] == k);
            }
        }
        let prev = index_fold(idx, ids.drop_last());
        assert forall|k: Id| #[trigger] index_fold(idx, ids).0.contains_key(k)
            <==> (ids.contains(k) && idx.contains_key(k) && idx[k].inner is Module) by {
            assert(prev.0.contains_key(k) <==> (ids.drop_last().contains(k) && idx.contains_key(k) && idx[k].inner is Module));
        }
    }
}

/// What item `id` of a module's list makes visible by itself: the item, or for a
/// `use` its target, where the target is named alone or is no module.
pub open spec fn contributes(idx: Map<Id, Item>, id: Id, x: Id) -> bool {
    idx.contains_key(id) && match idx[id].inner {
        ItemEnum::Use(u) => u.id == Some(x) && (!u.is_glob || (idx.contains_key(x) && !(idx[x].inner is Module))),
        _ => x == id,
    }
}

/// `s` holds every item that module `k` lists or imports by name.
pub open spec fn covers_direct(idx: Map<Id, Item>, k: Id, s: Set<Id>) -> bool {
    match idx[k].inner {
        ItemEnum::Module(md) => forall|j: int, x: Id|
            0 <= j < md.items@.len() && #[trigger] contributes(idx, md.items@[j], x) ==> s.contains(x),
        _ => true,
    }
}

/// Every module recorded in the cache covers what it lists or imports by name.
pub open spec fn cache_covers(idx: Map<Id, Item>, c: Map<Id, Option<Set<Id>>>) -> bool {
    forall|k: Id| #[trigger] c.contains_key(k) && c[k] is Some && idx.contains_key(k) ==> covers_direct(idx, k, c[k]->0)
}

/// Every module of `d` still being resolved was so in `c` already.
pub open spec fn pending_within(d: Map<Id, Option<Set<Id>>>, c: Map<Id, Option<Set<Id>>>) -> bool {
    forall|k: Id| #[trigger] d.contains_key(k) && d[k] is None ==> c.contains_key(k) && c[k] is None
}

proof fn lemma_resolve_covers(idx: Map<Id, Item>, m: Id, c: Map<Id, Option<Set<Id>>>)
    requires
        idx.dom().finite(),
        cache_covers(idx, c),
    ensures
        cache_covers(idx, resolve(idx, m, c).1),
        pending_within(resolve(idx, m, c).1, c),
        idx.contains_key(m) && !(c.contains_key(m) && c[m] is None) ==> covers_direct(idx, m, resolve(idx, m, c).0),
    decreases unresolved_count(idx, c), 0int, 0int,
{
    if c.contains_key(m) {
    } else if idx.contains_key(m) && idx[m].inner is Module {
        let c1 = c.insert(m, None);
        lemma_count_insert(idx, c, m, None);
        match idx[m].inner {
            ItemEnum::Module(md) => {
                assert(cache_covers(idx, c1));
                lemma_items_cover(idx, md.items@, 0, Set::empty(), c1);
                let r = resolve_items(idx, md.items@, 0, Set::empty(), c1);
                let d = r.1.insert(m, Some(r.0));
                assert(resolve(idx, m, c) == (r.0, d));
                assert(covers_direct(idx, m, r.0));
                assert(cache_covers(idx, d));
                assert(pending_within(d, c));
            },
            _ => {},
        }
    } else {
        let d = c.insert(m, Some(Set::<Id>::empty()));
        assert(cache_covers(idx, d));
    }
}

proof fn lemma_items_cover(
    idx: Map<Id, Item>,
    items: Seq<Id>,
    i: int,
    acc: Set<Id>,
    c: Map<Id, Option<Set<Id>>>,
)
    requires
        idx.dom().finite(),
        0 <= i,
        cache_covers(idx, c),
    ensures
        cache_covers(idx, resolve_items(idx, items, i, acc, c).1),
        pending_within(resolve_items(idx, items, i, acc, c).1, c),
        acc.subset_of(resolve_items(idx, items, i, acc, c).0),
        forall|j: int, x: Id| i <= j < items.len() && #[trigger] contributes(idx, items[j], x)
            ==> resolve_items(idx, items, i, acc, c).0.contains(x),
    decreases unresolved_count(idx, c), 1int, items.len() - i,
{
    if i < items.len() {
        let id = items[i];
        let res = resolve_items(idx, items, i, acc, c);
        if !idx.contains_key(id) {
            lemma_items_cover(idx, items, i + 1, acc, c);
        } else {
            match idx[id].inner {
                ItemEnum::Use(u) => match u.id {
                    None => {
                        lemma_items_cover(idx, items, i + 1, acc, c);
                    },
                    Some(t) => {
                        if !u.is_glob {
                            lemma_items_cover(idx, items, i + 1, acc.insert(t), c);
                        } else if !idx.contains_key(t) {
                            lemma_items_cover(idx, items, i + 1, acc, c);
                        } else if idx[t].inner is Module {
                            let r = resolve(idx, t, c);
                            lemma_resolve_grows(idx, t, c);
                            lemma_count_grow(idx, c, r.1);
                            lemma_resolve_covers(idx, t, c);
                            lemma_items_cover(idx, items, i + 1, acc.union(r.0), r.1);
                        } else {
                            lemma_items_cover(idx, items, i + 1, acc.insert(t), c);
                        }
                    },
                },
                _ => {
                    lemma_items_cover(idx, items, i + 1, acc.insert(id), c);
                },
            }
        }
        assert forall|j: int, x: Id| i <= j < items.len() && #[trigger] contributes(idx, items[j], x)
            implies res.0.contains(x) by {
            if j == i {
            }
        }
    }
}

proof fn lemma_index_fold_covers(idx: Map<Id, Item>, ids: Seq<Id>)
    requires
        idx.dom().finite(),
    ensures
        cache_covers(idx, index_fold(idx, ids).1),
        forall|k: Id| #[trigger] index_fold(idx, ids).1.contains_key(k) ==> index_fold(idx, ids).1[k] is Some,
        forall|k: Id| #[trigger] index_fold(idx, ids).0.contains_key(k) && idx.contains_key(k)
            ==> covers_direct(idx, k, index_fold(idx, ids).0[k]),
    decreases ids.len(),
{
    if ids.len() > 0 {
        lemma_index_fold_covers(idx, ids.drop_last());
        let prev = index_fold(idx, ids.drop_last());
        let id = ids.last();
        if idx.contains_key(id) && idx[id].inner is Module && !prev.0.contains_key(id) {
            lemma_resolve_covers(idx, id, prev.1);
            let r = resolve(idx, id, prev.1);
            if prev.1.contains_key(id) {
                assert(covers_direct(idx, id, prev.1[id]->0));
            }
            assert forall|k: Id| #[trigger] r.1.contains_key(k) implies r.1[k] is Some by {
                if r.1[k] is None {
                    assert(prev.1.contains_key(k));
                }
            }
        }
    }
}

/// Each module of the crate makes visible, at least, every item it lists (a `use`
/// aside) and every target it imports by name or by a glob of something that is
/// not a module. (A glob import of a module brings that module's items in too,
/// except where glob imports form a cycle, which resolution breaks.)
pub proof fn lemma_resolved_covers_direct(krate: &Crate)
    requires
        krate.wf(),
    ensures
        forall|k: Id| #[trigger] index_fold(krate.index_map(), krate.id_seq()).0.contains_key(k)
            ==> covers_direct(krate.index_map(), k, index_fold(krate.index_map(), krate.id_seq()).0[k]),
{
    krate.lemma_index_finite();
    lemma_index_fold_covers(krate.index_map(), krate.id_seq());
    lemma_index_fold_dom(krate.index_map(), krate.id_seq());
}

/// Every module of the crate with the items it makes visible: see `index_fold`.
pub fn build_resolved_module_index(krate: &Crate) -> (res: HashMap<Id, ResolvedModule>)
    requires
        krate.wf(),
    ensures
        forall|k: Id| #[trigger] res@.contains_key(k)
            <==> (krate.index_map().contains_key(k) && krate.index_map()[k].inner is Module),
        forall|k: Id| #[trigger] res@.contains_key(k) ==> {
            &&& res@[k].id == k
            &&& res@[k].items@.no_duplicates()
            &&& res@[k].items@.to_set() == index_fold(krate.index_map(), krate.id_seq()).0[k]
            &&& covers_direct(krate.index_map(), k, res@[k].items@.to_set())
        },
{
    let ghost idx = krate.index_map();
    let mut resolved_index: HashMap<Id, ResolvedModule> = HashMap::new();
    let mut cache: HashMap<Id, ResolutionState> = HashMap::new();
    let ids = krate.ids();
    let n = ids.len();
    proof {
        assert(ids@.take(0) =~= Seq::<Id>::empty());
        assert(cache_view(cache@) =~= Map::<Id, Option<Set<Id>>>::empty());
    }
    for i in 0..n
        invariant
            n == ids@.len(),
            ids@ == krate.id_seq(),
            idx == krate.index_map(),
            cache_ok(cache@),
            cache_view(cache@) == index_fold(idx, ids@.take(i as int)).1,
            forall|k: Id| #[trigger] resolved_index@.contains_key(k)
                <==> index_fold(idx, ids@.take(i as int)).0.contains_key(k),
            forall|k: Id| #[trigger] resolved_index@.contains_key(k) ==> {
                &&& resolved_index@[k].id == k
                &&& resolved_index@[k].items@.no_duplicates()
                &&& resolved_index@[k].items@.to_set() == index_fold(idx, ids@.take(i as int)).0[k]
            },
    {
        let id = ids[i];
        proof {
            assert(ids@.take(i + 1).drop_last() =~= ids@.take(i as int));
            assert(ids@.take(i + 1).last() == id);
        }
        match krate.get(id) {
            None => {},
            Some(item) => {
                if let ItemEnum::Module(_) = &item.inner {
                    if !resolved_index.contains_key(&id) {
                        let resolved_items = resolve_module_items(id, krate, &mut cache);
                        resolved_index.insert(id, ResolvedModule { id, items: resolved_items });
                    }
                }
            },
        }
    }
    proof {
        assert(ids@.take(n as int) =~= ids@);
        lemma_index_fold_dom(idx, ids@);
        assert forall|k: Id| ids@.contains(k) <==> idx.contains_key(k) by {
            krate.lemma_wf_ids(k);
        }
        lemma_resolved_covers_direct(krate);
    }
    resolved_index
}

/// The edges of the graph of the whole crate: the steps of each item, in the order of
/// `ids`, each item's taken from no known dependency.
pub open spec fn full_graph_edges(idx: Map<Id, Item>, ids: Seq<Id>) -> Seq<Edge>
    decreases ids.len(),
{
    if ids.len() == 0 {
        Seq::empty()
    } else {
        apply_steps(item_steps(idx, ids.last()), Set::empty(), full_graph_edges(idx, ids.drop_last()), idx).1
    }
}

/// The dependency graph of every item of the crate.
fn build_full_graph(krate: &Crate) -> (res: IdGraph)
    ensures
        res.wf(),
        res.edge_seq() == full_graph_edges(krate.index_map(), krate.id_seq()),
{
    let mut graph = IdGraph::new();
    let ids = krate.ids();
    let n = ids.len();
    assert(ids@.take(0) =~= Seq::<Id>::empty());
    for i in 0..n
        invariant
            n == ids@.len(),
            ids@ == krate.id_seq(),
            graph.wf(),
            graph.edge_seq() == full_graph_edges(krate.index_map(), ids@.take(i as int)),
    {
        proof {
            assert(ids@.take(i + 1).drop_last() =~= ids@.take(i as int));
            assert(ids@.take(i + 1).last() == ids@[i as int]);
        }
        build_graph_for_item(ids[i], krate, &mut graph);
    }
    assert(ids@.take(n as int) =~= ids@);
    graph
}

/// Why items could not be selected by path.
#[derive(Debug, Clone, Copy, PartialEq, Eq, Structural)]
pub enum SelectError {
    /// The crate's root module is not among its items.
    RootNotFound,
    /// The crate's root module has no name.
    RootUnnamed,
}

/// The error selecting by path meets in a crate with this index and root, if any.
pub open spec fn select_error(idx: Map<Id, Item>, root: Id) -> Option<SelectError> {
    if !idx.contains_key(root) {
        Some(SelectError::RootNotFound)
    } else if idx[root].name is None {
        Some(SelectError::RootUnnamed)
    } else {
        None
    }
}

/// The root module's name with each `-` made `_`.
pub open spec fn normalized_crate_name(idx: Map<Id, Item>, root: Id) -> Seq<char> {
    match idx[root].name {
        Some(n) => replace_all(n@, "-"@, "_"@),
        None => Seq::empty(),
    }
}

/// Each user path, normalized.
pub open spec fn normalized_filters(user_paths: Seq<String>, ncn: Seq<char>) -> Seq<Seq<Seq<char>>> {
    Seq::new(user_paths.len(), |i: int| normalized_path(user_paths[i]@, ncn))
}

/// An item path made to start with the crate's name.
pub open spec fn qualified_path(path: Seq<Seq<char>>, ncn: Seq<char>) -> Seq<Seq<char>> {
    if path.len() > 0 && path[0] != ncn {
        seq![ncn] + path
    } else {
        path
    }
}

/// Whether item `id` of this crate matches one of the filters by its path.
pub open spec fn path_selected(
    paths: Map<Id, ItemSummary>,
    id: Id,
    ncn: Seq<char>,
    filters: Seq<Seq<Seq<char>>>,
) -> bool {
    &&& paths.contains_key(id)
    &&& paths[id].crate_id == 0
    &&& exists|f: int| 0 <= f < filters.len()
        && #[trigger] filters[f].is_prefix_of(qualified_path(views(paths[id].path@), ncn))
}

/// The items visible in some resolved module whose paths match a filter.
pub open spec fn initial_selection(
    resolved: Map<Id, ResolvedModule>,
    paths: Map<Id, ItemSummary>,
    ncn: Seq<char>,
    filters: Seq<Seq<Seq<char>>>,
) -> Set<Id> {
    Set::new(|id: Id| visible_somewhere(resolved, id) && path_selected(paths, id, ncn, filters))
}

/// Whether some resolved module makes `id` visible.
pub open spec fn visible_somewhere(resolved: Map<Id, ResolvedModule>, id: Id) -> bool {
    exists|rm: ResolvedModule| #[trigger] resolved.values().contains(rm) && rm.items@.contains(id)
}

/// Whether one of the first `n` modules listed makes `id` visible.
pub open spec fn listed_in(mods: Seq<&ResolvedModule>, n: int, id: Id) -> bool {
    exists|j: int| 0 <= j < n && (*mods[j]).items@.contains(id)
}

/// The ids reached from `init` along edges whose targets are in `allowed`, `init`
/// included.
pub open spec fn dependency_closure(es: Seq<Edge>, allowed: Set<Id>, init: Set<Id>) -> Set<Id> {
    Set::new(|b: Id| exists|a: Id| #[trigger] init.contains(a) && reaches(es, allowed, a, b))
}

/// The selection `sel` made by path filters: the closure of the initial selection.
pub open spec fn selected_by_paths(
    krate: &Crate,
    user_paths: Seq<String>,
    resolved: Map<Id, ResolvedModule>,
    es: Seq<Edge>,
    sel: Set<Id>,
) -> bool {
    let idx = krate.index_map();
    let ncn = normalized_crate_name(idx, krate.root_id());
    sel == dependency_closure(es, idx.dom(),
        initial_selection(resolved, krate.paths_map(), ncn, normalized_filters(user_paths, ncn)))
}

/// Whether some module of the crate makes `id` visible, by the module index that
/// `build_resolved_module_index` builds.
pub open spec fn visible_in_index(k: &Crate, id: Id) -> bool {
    exists|m: Id| #[trigger] k.index_map().contains_key(m) && k.index_map()[m].inner is Module
        && index_fold(k.index_map(), k.id_seq()).0[m].contains(id)
}

/// The items a run documents with these path filters: all items without filters;
/// otherwise the items visible in some module that a filter matches, with what they
/// depend on.
pub open spec fn documented_selection(k: &Crate, user_paths: Seq<String>) -> Set<Id> {
    let idx = k.index_map();
    let ncn = normalized_crate_name(idx, k.root_id());
    if user_paths.len() == 0 {
        idx.dom()
    } else {
        dependency_closure(
            full_graph_edges(idx, k.id_seq()),
            idx.dom(),
            Set::new(|id: Id| visible_in_index(k, id) && path_selected(k.paths_map(), id, ncn, normalized_filters(user_paths, ncn))),
        )
    }
}

/// What a selection made with the module index of `build_resolved_module_index` is:
/// see `documented_selection`.
pub proof fn lemma_documented_selection(k: &Crate, user_paths: Seq<String>, r: Map<Id, ResolvedModule>, sel: Set<Id>)
    requires
        forall|key: Id| #[trigger] r.contains_key(key) <==> (k.index_map().contains_key(key) && k.index_map()[key].inner is Module),
        forall|key: Id| #[trigger] r.contains_key(key) ==> r[key].items@.to_set() == index_fold(k.index_map(), k.id_seq()).0[key],
        user_paths.len() > 0,
        selected_by_paths(k, user_paths, r, full_graph_edges(k.index_map(), k.id_seq()), sel),
    ensures
        sel == documented_selection(k, user_paths),
{
    let idx = k.index_map();
    let ncn = normalized_crate_name(idx, k.root_id());
    let filters = normalized_filters(user_paths, ncn);
    assert forall|id: Id| visible_somewhere(r, id) <==> visible_in_index(k, id) by {
        if visible_somewhere(r, id) {
            let rm = choose|rm: ResolvedModule| #[trigger] r.values().contains(rm) && rm.items@.contains(id);
            let key = choose|key: Id| #[trigger] r.contains_key(key) && r[key] == rm;
            assert(r[key].items@.to_set().contains(id));
            assert(k.index_map().contains_key(key));
        }
        if visible_in_index(k, id) {
            let m = choose|m: Id| #[trigger] k.index_map().contains_key(m) && k.index_map()[m].inner is Module
                && index_fold(k.index_map(), k.id_seq()).0[m].contains(id);
            assert(r.contains_key(m));
            assert(r[m].items@.to_set().contains(id));
            assert(r.values().contains(r[m]));
        }
    }
    assert(initial_selection(r, k.paths_map(), ncn, filters) =~= Set::new(
        |id: Id| visible_in_index(k, id) && path_selected(k.paths_map(), id, ncn, filters),
    ));
}

/// A copy of a list of strings.
pub fn copy_strings(v: &Vec<String>) -> (res: Vec<String>)
    ensures
        res@ == v@,
{
    let mut res: Vec<String> = Vec::new();
    let n = v.len();
    for k in 0..n
        invariant
            n == v@.len(),
            res@ == v@.take(k as int),
    {
        res.push(v[k].clone());
        assert(v@.take(k + 1) =~= v@.take(k as int).push(v@[k as int]));
    }
    assert(v@.take(n as int) =~= v@);
    res
}

/// Builds the dependency graph of the whole crate and selects the items to document:
/// every item when no path is given; otherwise the items of the resolved modules
/// whose paths match a normalized path, with everything they depend on.
pub fn select_items(
    krate: &Crate,
    user_paths: &[String],
    resolved_modules: &HashMap<Id, ResolvedModule>,
) -> (res: Result<(HashSet<Id>, IdGraph), SelectError>)
    requires
        krate.wf(),
    ensures
        res is Err <==> (user_paths@.len() > 0 && select_error(krate.index_map(), krate.root_id()) is Some),
        match res {
            Ok((sel, g)) => {
                &&& g.wf()
                &&& g.edge_seq() == full_graph_edges(krate.index_map(), krate.id_seq())
                &&& user_paths@.len() == 0 ==> sel@ == krate.index_map().dom()
                &&& user_paths@.len() > 0 ==> selected_by_paths(krate, user_paths@, resolved_modules@, g.edge_seq(), sel@)
            },
            Err(e) => select_error(krate.index_map(), krate.root_id()) == Some(e),
        },
{
    let ghost idx = krate.index_map();
    let graph = build_full_graph(krate);
    let ghost es = graph.edge_seq();
    let mut selected_ids: HashSet<Id> = HashSet::new();
    if user_paths.len() == 0 {
        let ids = krate.ids();
        let n = ids.len();
        for i in 0..n
            invariant
                n == ids@.len(),
                ids@ == krate.id_seq(),
                selected_ids@ == ids@.take(i as int).to_set(),
        {
            selected_ids.insert(ids[i]);
            proof {
                assert(ids@.take(i + 1) =~= ids@.take(i as int).push(ids@[i as int]));
                ids@.take(i as int).lemma_push_to_set_commute(ids@[i as int]);
            }
        }
        proof {
            assert(ids@.take(n as int) =~= ids@);
            assert forall|k: Id| ids@.to_set().contains(k) <==> idx.contains_key(k) by {
                krate.lemma_wf_ids(k);
            }
            assert(selected_ids@ =~= idx.dom());
        }
        return Ok((selected_ids, graph));
    }
    let root_item = match krate.get(krate.root()) {
        Some(it) => it,
        None => {
            return Err(SelectError::RootNotFound);
        },
    };
    let crate_name = match &root_item.name {
        Some(name) => name,
        None => {
            return Err(SelectError::RootUnnamed);
        },
    };
    proof {
        reveal_strlit("-");
    }
    let normalized_crate_name = replace_str(crate_name.as_str(), "-", "_");
    let ghost ncn = normalized_crate_name@;
    let mut normalized_filters: Vec<Vec<String>> = Vec::new();
    let np = user_paths.len();
    for i in 0..np
        invariant
            np == user_paths@.len(),
            ncn == normalized_crate_name@,
            normalized_filters@.len() == i,
            forall|j: int| 0 <= j < i ==> views(#[trigger] normalized_filters@[j]@) == normalized_path(user_paths@[j]@, ncn),
    {
        let nf = normalize_path(user_paths[i].as_str(), crate_name.as_str(), normalized_crate_name.as_str());
        let ghost before = normalized_filters@;
        assert(views(nf@) == normalized_path(user_paths@[i as int]@, ncn));
        normalized_filters.push(nf);
        proof {
            assert forall|j: int| 0 <= j < i + 1 implies views(#[trigger] normalized_filters@[j]@) == normalized_path(user_paths@[j]@, ncn) by {
                if j < i {
                    assert(normalized_filters@[j] == before[j]);
                }
            }
        }
    }
    let ghost filters = Seq::new(np as nat, |j: int| views(normalized_filters@[j]@));
    assert(filters =~= self::normalized_filters(user_paths@, ncn));
    let ghost paths = krate.paths_map();
    let ghost resolved = resolved_modules@;
    let ghost init = initial_selection(resolved, paths, ncn, filters);
    let mut init_list: Vec<Id> = Vec::new();
    for rm in it: resolved_modules.values()
        invariant
            it.seq().unref().to_set() == resolved.values(),
            0 <= it.index() <= it.seq().len(),
            np == normalized_filters@.len(),
            filters == Seq::new(np as nat, |j: int| views(normalized_filters@[j]@)),
            paths == krate.paths_map(),
            ncn == normalized_crate_name@,
            init_list@.no_duplicates(),
            forall|x: Id| #[trigger] selected_ids@.contains(x) <==> init_list@.contains(x),
            forall|x: Id| #[trigger] selected_ids@.contains(x) <==>
                (listed_in(it.seq(), it.index(), x) && path_selected(paths, x, ncn, filters)),
            it.index() > 0 ==> forall|x: Id| #[trigger] listed_in(it.seq(), it.seq().len() as int, x)
                <==> visible_somewhere(resolved, x),
        ensures
            forall|x: Id| #[trigger] selected_ids@.contains(x) <==>
                (visible_somewhere(resolved, x) && path_selected(paths, x, ncn, filters)),
    {
        let ghost sq = it.seq();
        let ghost ix = it.index();
        proof {
            assert forall|x: Id| #[trigger] listed_in(sq, sq.len() as int, x) <==> visible_somewhere(resolved, x) by {
                if listed_in(sq, sq.len() as int, x) {
                    let j = choose|j: int| 0 <= j < sq.len() && (*sq[j]).items@.contains(x);
                    assert(sq.unref()[j] == *sq[j]);
                    assert(sq.unref().to_set().contains(*sq[j]));
                }
                if visible_somewhere(resolved, x) {
                    let rm = choose|rm: ResolvedModule| #[trigger] resolved.values().contains(rm) && rm.items@.contains(x);
                    assert(sq.unref().to_set().contains(rm));
                    let j = choose|j: int| 0 <= j < sq.unref().len() && sq.unref()[j] == rm;
                    assert(*sq[j] == rm);
                }
            }
        }
        let nr = rm.items.len();
        for k in 0..nr
            invariant
                nr == rm.items@.len(),
                0 <= ix < sq.len(),
                *sq[ix] == *rm,
                np == normalized_filters@.len(),
                filters == Seq::new(np as nat, |j: int| views(normalized_filters@[j]@)),
                paths == krate.paths_map(),
                ncn == normalized_crate_name@,
                init_list@.no_duplicates(),
                forall|x: Id| #[trigger] selected_ids@.contains(x) <==> init_list@.contains(x),
                forall|x: Id| #[trigger] selected_ids@.contains(x) <==>
                    ((listed_in(sq, ix, x) || rm.items@.take(k as int).contains(x))
                    && path_selected(paths, x, ncn, filters)),
        {
            let item_id = rm.items[k];
            let hit = item_selected(krate, item_id, &normalized_crate_name, &normalized_filters);
            let ghost before = init_list@;
            if hit {
                if selected_ids.insert(item_id) {
                    init_list.push(item_id);
                    proof {
                        assert forall|a: int, b: int| 0 <= a < init_list@.len() && 0 <= b < init_list@.len() && a != b
                            implies init_list@[a] != init_list@[b] by {
                            if a == init_list@.len() - 1 {
                                assert(before.contains(init_list@[b]));
                            } else if b == init_list@.len() - 1 {
                                assert(before.contains(init_list@[a]));
                            }
                        }
                    }
                }
            }
            proof {
                assert(rm.items@.take(k + 1) =~= rm.items@.take(k as int).push(item_id));
                assert forall|x: Id| init_list@.contains(x) <==> (before.contains(x) || (hit && x == item_id && !before.contains(x))) by {
                    if init_list@.contains(x) && !before.contains(x) {
                        let q = choose|q: int| 0 <= q < init_list@.len() && init_list@[q] == x;
                        if q < before.len() {
                            assert(before[q] == x);
                        }
                    }
                    if before.contains(x) {
                        let q = choose|q: int| 0 <= q < before.len() && before[q] == x;
                        assert(init_list@[q] == x);
                    }
                    if hit && x == item_id && !before.contains(x) {
                        assert(init_list@[init_list@.len() - 1] == x);
                    }
                }
                assert forall|x: Id| rm.items@.take(k + 1).contains(x) <==> (rm.items@.take(k as int).contains(x) || x == item_id) by {
                    if rm.items@.take(k + 1).contains(x) {
                        let q = choose|q: int| 0 <= q < k + 1 && #[trigger] rm.items@.take(k + 1)[q] == x;
                        if q < k {
                            assert(rm.items@.take(k as int)[q] == x);
                        }
                    }
                    if rm.items@.take(k as int).contains(x) {
                        let q = choose|q: int| 0 <= q < k && #[trigger] rm.items@.take(k as int)[q] == x;
                        assert(rm.items@.take(k + 1)[q] == x);
                    }
                    if x == item_id {
                        assert(rm.items@.take(k + 1)[k as int] == x);
                    }
                }
            }
        }
        proof {
            assert(rm.items@.take(nr as int) =~= rm.items@);
            assert forall|x: Id| #[trigger] listed_in(sq, ix + 1, x)
                <==> (listed_in(sq, ix, x) || rm.items@.contains(x)) by {
                if listed_in(sq, ix + 1, x) {
                    let j = choose|j: int| 0 <= j < ix + 1 && (*sq[j]).items@.contains(x);
                    if j < ix {
                        assert(0 <= j < ix && (*sq[j]).items@.contains(x));
                    }
                }
                if rm.items@.contains(x) {
                    assert((*sq[ix]).items@.contains(x));
                }
            }
        }
    }
    proof {
        assert forall|x: Id| #[trigger] selected_ids@.contains(x) <==> init.contains(x) by {}
    }
    if init_list.len() == 0 {
        proof {
            assert forall|x: Id| !init.contains(x) by {
                if init.contains(x) {
                    assert(selected_ids@.contains(x));
                    assert(init_list@.contains(x));
                }
            }
            assert(dependency_closure(es, idx.dom(), init) =~= selected_ids@);
        }
        return Ok((selected_ids, graph));
    }
    proof {
        assert forall|x: Id| #[trigger] init.contains(x) <==> init_list@.contains(x) by {
            assert(selected_ids@.contains(x) <==> init.contains(x));
        }
    }
    close_over_dependencies(krate, &graph, &mut selected_ids, init_list, Ghost(init));
    Ok((selected_ids, graph))
}

/// Whether item `item_id` of the crate matches one of the filters by its path.
fn item_selected(
    krate: &Crate,
    item_id: Id,
    normalized_crate_name: &String,
    filters: &Vec<Vec<String>>,
) -> (res: bool)
    ensures
        res == path_selected(krate.paths_map(), item_id, normalized_crate_name@,
            Seq::new(filters@.len() as nat, |j: int| views(filters@[j]@))),
{
    let ghost fs = Seq::new(filters@.len() as nat, |j: int| views(filters@[j]@));
    match krate.get_path(item_id) {
        None => false,
        Some(summary) => {
            if summary.crate_id != 0 {
                return false;
            }
            let mut qualified = copy_strings(&summary.path);
            if qualified.len() > 0 && qualified[0] != *normalized_crate_name {
                let ghost q0 = qualified@;
                qualified.insert(0, normalized_crate_name.clone());
                assert(views(qualified@) =~= seq![normalized_crate_name@] + views(q0));
            }
            assert(views(qualified@) == qualified_path(views(summary.path@), normalized_crate_name@));
            let nf = filters.len();
            for f in 0..nf
                invariant
                    nf == filters@.len(),
                    krate.paths_map().contains_key(item_id),
                    krate.paths_map()[item_id].crate_id == 0,
                    views(qualified@) == qualified_path(views(krate.paths_map()[item_id].path@), normalized_crate_name@),
                    fs == Seq::new(filters@.len() as nat, |j: int| views(filters@[j]@)),
                    forall|j: int| 0 <= j < f ==> !(#[trigger] fs[j]).is_prefix_of(views(qualified@)),
            {
                let fv = filters[f].as_slice();
                let qv = qualified.as_slice();
                assert(fv@ == filters@[f as int]@);
                assert(qv@ == qualified@);
                if path_matches(qv, fv) {
                    assert(views(fv@).is_prefix_of(views(qv@)));
                    assert(fs[f as int] == views(filters@[f as int]@));
                    assert(fs[f as int].is_prefix_of(
                        qualified_path(views(krate.paths_map()[item_id].path@), normalized_crate_name@)));
                    assert(path_selected(krate.paths_map(), item_id, normalized_crate_name@, fs));
                    return true;
                }
            }
            false
        },
    }
}

/// Following a path to `b` by one more edge leaving `b` reaches that edge's target.
pub proof fn lemma_reach_append(es: Seq<Edge>, allowed: Set<Id>, a: Id, b: Id, k: nat, i: int)
    requires
        reaches_within(es, allowed, a, b, k),
        0 <= i < es.len(),
        es[i].source == b,
        allowed.contains(es[i].target),
    ensures
        reaches_within(es, allowed, a, es[i].target, k + 1),
    decreases k,
{
    if a == b {
        assert(reaches_within(es, allowed, es[i].target, es[i].target, k));
    } else {
        let i0 = choose|i0: int|
            0 <= i0 < es.len() && #[trigger] es[i0].source == a && allowed.contains(es[i0].target)
                && reaches_within(es, allowed, es[i0].target, b, (k - 1) as nat);
        lemma_reach_append(es, allowed, es[i0].target, b, (k - 1) as nat, i);
        assert(reaches_within(es, allowed, es[i0].target, es[i].target, ((k + 1) - 1) as nat));
    }
}

/// The state of the search for dependencies: `q` lists the selected ids `sel`, each
/// once, all among `cands`, all reached from `init`, and `init` among them.
#[verifier::opaque]
pub open spec fn queue_ok(
    es: Seq<Edge>,
    allowed: Set<Id>,
    init: Set<Id>,
    cands: Seq<Id>,
    q: Seq<Id>,
    sel: Set<Id>,
) -> bool {
    &&& q.no_duplicates()
    &&& forall|x: Id| #[trigger] sel.contains(x) <==> q.contains(x)
    &&& forall|x: Id| #[trigger] q.contains(x) ==> cands.contains(x)
    &&& forall|x: Id| #[trigger] q.contains(x) ==> exists|a: Id| #[trigger] init.contains(a) && reaches(es, allowed, a, x)
    &&& forall|x: Id| #[trigger] init.contains(x) ==> q.contains(x)
}

pub proof fn lemma_queue_facts(es: Seq<Edge>, allowed: Set<Id>, init: Set<Id>, cands: Seq<Id>, q: Seq<Id>, sel: Set<Id>, x: Id)
    requires
        queue_ok(es, allowed, init, cands, q, sel),
    ensures
        q.no_duplicates(),
        sel.contains(x) <==> q.contains(x),
        q.contains(x) ==> cands.contains(x),
        q.contains(x) ==> exists|a: Id| #[trigger] init.contains(a) && reaches(es, allowed, a, x),
        init.contains(x) ==> q.contains(x),
{
    reveal(queue_ok);
}

pub proof fn lemma_queue_push(
    es: Seq<Edge>,
    allowed: Set<Id>,
    init: Set<Id>,
    cands: Seq<Id>,
    q: Seq<Id>,
    sel: Set<Id>,
    x: Id,
    a: Id,
)
    requires
        queue_ok(es, allowed, init, cands, q, sel),
        !sel.contains(x),
        cands.contains(x),
        init.contains(a),
        reaches(es, allowed, a, x),
    ensures
        queue_ok(es, allowed, init, cands, q.push(x), sel.insert(x)),
{
    reveal(queue_ok);
    let q2 = q.push(x);
    assert forall|y: Id| #[trigger] q2.contains(y) <==> (q.contains(y) || y == x) by {
        if q2.contains(y) {
            let j = choose|j: int| 0 <= j < q2.len() && q2[j] == y;
            if j < q.len() {
                assert(q[j] == y);
            }
        }
        if q.contains(y) {
            let j = choose|j: int| 0 <= j < q.len() && q[j] == y;
            assert(q2[j] == y);
        }
        if y == x {
            assert(q2[q.len() as int] == y);
        }
    }
    assert forall|i: int, j: int| 0 <= i < q2.len() && 0 <= j < q2.len() && i != j implies q2[i] != q2[j] by {
        if i == q.len() {
            assert(q.contains(q2[j]));
        } else if j == q.len() {
            assert(q.contains(q2[i]));
        }
    }
}

pub proof fn lemma_queue_init(
    es: Seq<Edge>,
    allowed: Set<Id>,
    init: Set<Id>,
    cands: Seq<Id>,
    q: Seq<Id>,
    sel: Set<Id>,
    init_list: Seq<Id>,
)
    requires
        q == init_list,
        cands == init_list + es.map_values(|e: Edge| e.target),
        init_list.no_duplicates(),
        forall|x: Id| #[trigger] sel.contains(x) <==> init_list.contains(x),
        forall|x: Id| #[trigger] init.contains(x) <==> init_list.contains(x),
    ensures
        queue_ok(es, allowed, init, cands, q, sel),
{
    reveal(queue_ok);
    assert forall|x: Id| #[trigger] q.contains(x) implies cands.contains(x) by {
        let j = choose|j: int| 0 <= j < q.len() && q[j] == x;
        assert(cands[j] == x);
    }
    assert forall|x: Id| #[trigger] q.contains(x) implies
        exists|a: Id| #[trigger] init.contains(a) && reaches(es, allowed, a, x) by {
        assert(reaches_within(es, allowed, x, x, 0));
        assert(init.contains(x));
    }
}

/// Once every listed id has been visited, the selection is the closure of `init`.
pub proof fn lemma_queue_closed(
    es: Seq<Edge>,
    allowed: Set<Id>,
    init: Set<Id>,
    cands: Seq<Id>,
    q: Seq<Id>,
    sel: Set<Id>,
)
    requires
        queue_ok(es, allowed, init, cands, q, sel),
        forall|i: int, j: int| 0 <= i < q.len() && 0 <= j < es.len() && es[j].source == #[trigger] q[i]
            && allowed.contains(#[trigger] es[j].target) ==> sel.contains(es[j].target),
    ensures
        sel == dependency_closure(es, allowed, init),
{
    reveal(queue_ok);
    assert forall|j: int| 0 <= j < es.len() && #[trigger] sel.contains(es[j].source)
        && allowed.contains(es[j].target) implies sel.contains(es[j].target) by {
        let i = choose|i: int| 0 <= i < q.len() && q[i] == es[j].source;
        assert(es[j].source == q[i]);
    }
    assert forall|b: Id| sel.contains(b) <==> dependency_closure(es, allowed, init).contains(b) by {
        if dependency_closure(es, allowed, init).contains(b) {
            let a = choose|a: Id| #[trigger] init.contains(a) && reaches(es, allowed, a, b);
            let kk = choose|kk: nat| reaches_within(es, allowed, a, b, kk);
            lemma_closed_forward(es, allowed, sel, a, b, kk);
        }
    }
    assert(sel =~= dependency_closure(es, allowed, init));
}

/// Adds to the selection everything reached from it along the graph's edges whose
/// targets are items of the crate.
fn close_over_dependencies(
    krate: &Crate,
    graph: &IdGraph,
    selected_ids: &mut HashSet<Id>,
    init_list: Vec<Id>,
    Ghost(init): Ghost<Set<Id>>,
)
    requires
        graph.wf(),
        init_list@.no_duplicates(),
        forall|x: Id| #[trigger] old(selected_ids)@.contains(x) <==> init_list@.contains(x),
        forall|x: Id| #[trigger] init.contains(x) <==> init_list@.contains(x),
    ensures
        final(selected_ids)@ == dependency_closure(graph.edge_seq(), krate.index_map().dom(), init),
{
    let ghost es = graph.edge_seq();
    let ghost allowed = krate.index_map().dom();
    let ghost cands = init_list@ + es.map_values(|e: Edge| e.target);
    let mut queue = init_list;
    let mut visited: HashSet<Id> = HashSet::new();
    let mut head: usize = 0;
    proof {
        lemma_queue_init(es, allowed, init, cands, queue@, selected_ids@, init_list@);
    }
    while head < queue.len()
        invariant
            graph.wf(),
            es == graph.edge_seq(),
            allowed == krate.index_map().dom(),
            cands == init_list@ + es.map_values(|e: Edge| e.target),
            head <= queue.len(),
            queue_ok(es, allowed, init, cands, queue@, selected_ids@),
            forall|x: Id| #[trigger] visited@.contains(x) <==> exists|j: int| 0 <= j < head && queue@[j] == x,
            forall|i: int, j: int| 0 <= i < head && 0 <= j < es.len() && es[j].source == #[trigger] queue@[i]
                && allowed.contains(#[trigger] es[j].target) ==> selected_ids@.contains(es[j].target),
        decreases cands.len() - head,
    {
        proof {
            reveal(queue_ok);
            lemma_nodup_subset_len(queue@, cands);
        }
        let id = queue[head];
        let ghost q0 = queue@;
        let ghost h0 = head;
        let fresh = visited.insert(id);
        proof {
            reveal(queue_ok);
            if !fresh {
                let j = choose|j: int| 0 <= j < head && queue@[j] == id;
                assert(queue@[j] == queue@[head as int]);
            }
        }
        head = head + 1;
        match graph.get_children(id) {
            None => {
                proof {
                    crate::graph::lemma_outgoing_len(es, id);
                }
            },
            Some(children) => {
                let nc = children.len();
                for k in 0..nc
                    invariant
                        graph.wf(),
                        es == graph.edge_seq(),
                        allowed == krate.index_map().dom(),
                        cands == init_list@ + es.map_values(|e: Edge| e.target),
                        nc == children@.len(),
                        children@ == outgoing(es, id),
                        head == h0 + 1,
                        h0 < q0.len(),
                        q0[h0 as int] == id,
                        queue@.len() >= q0.len(),
                        forall|i: int| 0 <= i < q0.len() ==> queue@[i] == q0[i],
                        queue_ok(es, allowed, init, cands, queue@, selected_ids@),
                        forall|q: int| 0 <= q < k && allowed.contains(#[trigger] children@[q].0)
                            ==> selected_ids@.contains(children@[q].0),
                {
                    let dep_id = children[k].0;
                    let ghost l = children@[k as int].1;
                    proof {
                        assert(outgoing(es, id).contains((dep_id, l)));
                        lemma_outgoing_contains(es, id, dep_id, l);
                    }
                    let ghost sel0 = selected_ids@;
                    let is_item = krate.contains(dep_id);
                    let added = if is_item { selected_ids.insert(dep_id) } else { false };
                    if !added {
                        assert(selected_ids@ =~= sel0);
                    }
                    if added {
                        proof {
                            let j = choose|j: int| 0 <= j < es.len() && es[j] == Edge { source: id, target: dep_id, label: l };
                            assert(cands[init_list@.len() + j] == dep_id);
                            assert(queue@[h0 as int] == id);
                            lemma_queue_facts(es, allowed, init, cands, queue@, sel0, id);
                            let a = choose|a: Id| #[trigger] init.contains(a) && reaches(es, allowed, a, id);
                            let kk = choose|kk: nat| reaches_within(es, allowed, a, id, kk);
                            lemma_reach_append(es, allowed, a, id, kk, j);
                            lemma_queue_push(es, allowed, init, cands, queue@, sel0, dep_id, a);
                        }
                        queue.push(dep_id);
                    }
                }
                proof {
                    assert forall|j: int| 0 <= j < es.len() && es[j].source == id && allowed.contains(es[j].target)
                        implies selected_ids@.contains(es[j].target) by {
                        lemma_outgoing_contains(es, id, es[j].target, es[j].label);
                        assert(es.contains(es[j]));
                        let q = choose|q: int| 0 <= q < children@.len() && children@[q] == (es[j].target, es[j].label);
                        assert(allowed.contains(children@[q].0));
                    }
                }
            },
        }
        proof {
            assert forall|x: Id| #[trigger] visited@.contains(x) <==> exists|j: int| 0 <= j < head && queue@[j] == x by {
                if visited@.contains(x) && x != id {
                    let j = choose|j: int| 0 <= j < h0 && q0[j] == x;
                    assert(queue@[j] == x);
                }
                if x == id {
                    assert(queue@[h0 as int] == x);
                }
                if exists|j: int| 0 <= j < head && queue@[j] == x {
                    let j = choose|j: int| 0 <= j < head && queue@[j] == x;
                    if j < h0 {
                        assert(q0[j] == x);
                    }
                }
            }
            assert forall|i: int, j: int| 0 <= i < head && 0 <= j < es.len() && es[j].source == #[trigger] queue@[i]
                && allowed.contains(#[trigger] es[j].target) implies selected_ids@.contains(es[j].target) by {
                if i < h0 {
                    assert(queue@[i] == q0[i]);
                } else {
                    assert(queue@[i] == id);
                }
            }
        }
    }
    proof {
        lemma_queue_closed(es, allowed, init, cands, queue@, selected_ids@);
    }
}

/// The selection contains what it started from and is closed under the edges
/// whose targets are allowed: every dependency of a selected item is selected.
pub proof fn law_selection_closed(es: Seq<Edge>, allowed: Set<Id>, init: Set<Id>)
    ensures
        init.subset_of(dependency_closure(es, allowed, init)),
        forall|j: int| 0 <= j < es.len() && #[trigger] dependency_closure(es, allowed, init).contains(es[j].source)
            && allowed.contains(es[j].target) ==> dependency_closure(es, allowed, init).contains(es[j].target),
{
    let c = dependency_closure(es, allowed, init);
    assert forall|a: Id| init.contains(a) implies c.contains(a) by {
        assert(reaches_within(es, allowed, a, a, 0));
    }
    assert forall|j: int| 0 <= j < es.len() && #[trigger] c.contains(es[j].source)
        && allowed.contains(es[j].target) implies c.contains(es[j].target) by {
        let a = choose|a: Id| #[trigger] init.contains(a) && reaches(es, allowed, a, es[j].source);
        let k = choose|k: nat| reaches_within(es, allowed, a, es[j].source, k);
        lemma_reach_append(es, allowed, a, es[j].source, k, j);
    }
}

pub proof fn lemma_steps_in_index(steps: Seq<DepStep>, deps: Set<Id>, es: Seq<Edge>, idx: Map<Id, Item>)
    requires
        edges_in_index(es, idx),
    ensures
        edges_in_index(apply_steps(steps, deps, es, idx).1, idx),
    decreases steps.len(),
{
    if steps.len() > 0 {
        let st = steps[0];
        let e = Edge { source: st.source, target: st.target, label: st.label };
        law_add_edge(es, e, idx);
        let r = apply_step(st, deps, es, idx);
        lemma_steps_in_index(steps.drop_first(), r.0, r.1, idx);
    }
}

/// Every edge of the crate's dependency graph joins two items of the crate.
pub proof fn law_full_graph_in_index(idx: Map<Id, Item>, ids: Seq<Id>)
    ensures
        edges_in_index(full_graph_edges(idx, ids), idx),
    decreases ids.len(),
{
    if ids.len() > 0 {
        law_full_graph_in_index(idx, ids.drop_last());
        lemma_steps_in_index(item_steps(idx, ids.last()), Set::empty(), full_graph_edges(idx, ids.drop_last()), idx);
    }
}

/// The items of module `m`, when the crate has it as a module.
pub open spec fn module_items(idx: Map<Id, Item>, m: Id) -> Seq<Id> {
    if idx.contains_key(m) {
        match idx[m].inner {
            ItemEnum::Module(md) => md.items@,
            _ => Seq::empty(),
        }
    } else {
        Seq::empty()
    }
}

/// What one item of a module makes visible by itself: the item, or the target of a
/// `use` (of a glob `use` only when the target is an item that is not a module).
pub open spec fn own_contribution(idx: Map<Id, Item>, id: Id) -> Set<Id> {
    if !idx.contains_key(id) {
        Set::empty()
    } else {
        match idx[id].inner {
            ItemEnum::Use(u) => match u.id {
                None => Set::empty(),
                Some(t) => if !u.is_glob {
                    set![t]
                } else if idx.contains_key(t) && !(idx[t].inner is Module) {
                    set![t]
                } else {
                    Set::empty()
                },
            },
            _ => set![id],
        }
    }
}

/// The items a module makes visible without following glob imports of modules.
pub open spec fn direct_items(idx: Map<Id, Item>, m: Id) -> Set<Id> {
    Set::new(|x: Id| exists|j: int| 0 <= j < module_items(idx, m).len()
        && #[trigger] own_contribution(idx, module_items(idx, m)[j]).contains(x))
}

/// Every resolved entry of the cache holds its module's direct items.
pub open spec fn cache_holds_direct(idx: Map<Id, Item>, c: Map<Id, Option<Set<Id>>>) -> bool {
    forall|k: Id| #[trigger] c.contains_key(k) && c[k] is Some ==> direct_items(idx, k).subset_of(c[k]->0)
}

pub proof fn lemma_items_collect(idx: Map<Id, Item>, items: Seq<Id>, i: int, acc: Set<Id>, c: Map<Id, Option<Set<Id>>>)
    requires
        idx.dom().finite(),
        0 <= i,
    ensures
        acc.subset_of(resolve_items(idx, items, i, acc, c).0),
        forall|j: int| i <= j < items.len() ==> #[trigger] own_contribution(idx, items[j]).subset_of(
            resolve_items(idx, items, i, acc, c).0),
    decreases items.len() - i,
{
    if i < items.len() {
        let id = items[i];
        let r = resolve_items(idx, items, i, acc, c);
        if !idx.contains_key(id) {
            lemma_items_collect(idx, items, i + 1, acc, c);
        } else {
            match idx[id].inner {
                ItemEnum::Use(u) => match u.id {
                    None => {
                        lemma_items_collect(idx, items, i + 1, acc, c);
                    },
                    Some(t) => {
                        if !u.is_glob {
                            lemma_items_collect(idx, items, i + 1, acc.insert(t), c);
                        } else if !idx.contains_key(t) {
                            lemma_items_collect(idx, items, i + 1, acc, c);
                        } else if idx[t].inner is Module {
                            let rt = resolve(idx, t, c);
                            lemma_resolve_grows(idx, t, c);
                            lemma_count_grow(idx, c, rt.1);
                            lemma_items_collect(idx, items, i + 1, acc.union(rt.0), rt.1);
                        } else {
                            lemma_items_collect(idx, items, i + 1, acc.insert(t), c);
                        }
                    },
                },
                _ => {
                    lemma_items_collect(idx, items, i + 1, acc.insert(id), c);
                },
            }
        }
    }
}

/// Resolving keeps the resolved entries of the cache, leaves no module pending that
/// was not pending before, and records direct items with every module it resolves.
pub proof fn lemma_resolve_cache(idx: Map<Id, Item>, m: Id, c: Map<Id, Option<Set<Id>>>)
    requires
        idx.dom().finite(),
    ensures
        forall|k: Id| #[trigger] c.contains_key(k) && c[k] is Some ==> resolve(idx, m, c).1.contains_key(k)
            && resolve(idx, m, c).1[k] == c[k],
        forall|k: Id| #[trigger] resolve(idx, m, c).1.contains_key(k) && resolve(idx, m, c).1[k] is None
            ==> c.contains_key(k) && c[k] is None,
        cache_holds_direct(idx, c) ==> cache_holds_direct(idx, resolve(idx, m, c).1),
        !c.contains_key(m) ==> direct_items(idx, m).subset_of(resolve(idx, m, c).0),
    decreases unresolved_count(idx, c), 0int, 0int,
{
    if !c.contains_key(m) {
        if idx.contains_key(m) && idx[m].inner is Module {
            let c1 = c.insert(m, None);
            lemma_count_insert(idx, c, m, None);
            let items = module_items(idx, m);
            let r = resolve_items(idx, items, 0, Set::empty(), c1);
            assert(resolve(idx, m, c).0 == r.0);
            lemma_items_cache(idx, items, 0, Set::empty(), c1);
            lemma_items_collect(idx, items, 0, Set::empty(), c1);
            assert forall|x: Id| direct_items(idx, m).contains(x) implies r.0.contains(x) by {
                let j = choose|j: int| 0 <= j < items.len() && #[trigger] own_contribution(idx, items[j]).contains(x);
                assert(own_contribution(idx, items[j]).subset_of(r.0));
            }
            if cache_holds_direct(idx, c) {
                assert(cache_holds_direct(idx, c1));
            }
            let res = resolve(idx, m, c);
            assert(res.1 == r.1.insert(m, Some(r.0)));
            assert forall|k: Id| #[trigger] c.contains_key(k) && c[k] is Some implies res.1.contains_key(k)
                && res.1[k] == c[k] by {
                assert(k != m);
                assert(c1.contains_key(k) && c1[k] is Some);
            }
        } else {
            assert(direct_items(idx, m) =~= Set::<Id>::empty());
        }
    }
}

pub proof fn lemma_items_cache(idx: Map<Id, Item>, items: Seq<Id>, i: int, acc: Set<Id>, c: Map<Id, Option<Set<Id>>>)
    requires
        idx.dom().finite(),
        0 <= i,
    ensures
        forall|k: Id| #[trigger] c.contains_key(k) && c[k] is Some ==> resolve_items(idx, items, i, acc, c).1.contains_key(k)
            && resolve_items(idx, items, i, acc, c).1[k] == c[k],
        forall|k: Id| #[trigger] resolve_items(idx, items, i, acc, c).1.contains_key(k)
            && resolve_items(idx, items, i, acc, c).1[k] is None ==> c.contains_key(k) && c[k] is None,
        cache_holds_direct(idx, c) ==> cache_holds_direct(idx, resolve_items(idx, items, i, acc, c).1),
    decreases unresolved_count(idx, c), 1int, items.len() - i,
{
    if i < items.len() {
        let id = items[i];
        if !idx.contains_key(id) {
            lemma_items_cache(idx, items, i + 1, acc, c);
        } else {
            match idx[id].inner {
                ItemEnum::Use(u) => match u.id {
                    None => {
                        lemma_items_cache(idx, items, i + 1, acc, c);
                    },
                    Some(t) => {
                        if !u.is_glob {
                            lemma_items_cache(idx, items, i + 1, acc.insert(t), c);
                        } else if !idx.contains_key(t) {
                            lemma_items_cache(idx, items, i + 1, acc, c);
                        } else if idx[t].inner is Module {
                            let rt = resolve(idx, t, c);
                            lemma_resolve_grows(idx, t, c);
                            lemma_count_grow(idx, c, rt.1);
                            lemma_resolve_cache(idx, t, c);
                            lemma_items_cache(idx, items, i + 1, acc.union(rt.0), rt.1);
                        } else {
                            lemma_items_cache(idx, items, i + 1, acc.insert(t), c);
                        }
                    },
                },
                _ => {
                    lemma_items_cache(idx, items, i + 1, acc.insert(id), c);
                },
            }
        }
    }
}

/// After the crate's modules are resolved in order, no module is left pending, and
/// each module's recorded items include its direct items.
pub proof fn lemma_index_fold_direct(idx: Map<Id, Item>, ids: Seq<Id>)
    requires
        idx.dom().finite(),
    ensures
        forall|k: Id| #[trigger] index_fold(idx, ids).1.contains_key(k) ==> index_fold(idx, ids).1[k] is Some,
        cache_holds_direct(idx, index_fold(idx, ids).1),
        forall|k: Id| #[trigger] index_fold(idx, ids).0.contains_key(k)
            ==> direct_items(idx, k).subset_of(index_fold(idx, ids).0[k]),
    decreases ids.len(),
{
    if ids.len() > 0 {
        lemma_index_fold_direct(idx, ids.drop_last());
        let prev = index_fold(idx, ids.drop_last());
        let id = ids.last();
        if idx.contains_key(id) && idx[id].inner is Module && !prev.0.contains_key(id) {
            lemma_resolve_cache(idx, id, prev.1);
            let r = resolve(idx, id, prev.1);
            if prev.1.contains_key(id) {
                assert(prev.1[id] is Some);
            }
        }
    }
}

/// Each module's resolved items include the items it holds that are not `use`
/// items and the targets of its `use` items (of a glob `use` when the target is
/// not a module).
pub proof fn law_resolved_modules_hold_direct_items(idx: Map<Id, Item>, ids: Seq<Id>, m: Id)
    requires
        idx.dom().finite(),
        index_fold(idx, ids).0.contains_key(m),
    ensures
        direct_items(idx, m).subset_of(index_fold(idx, ids).0[m]),
{
    lemma_index_fold_direct(idx, ids);
}

} // verus!
