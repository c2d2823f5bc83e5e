//! The Markdown printer: configuration, the numbering of sections, and the
//! printing of modules, items, fields, variants, associated items and
//! implementations.

use vstd::prelude::*;
use std::collections::{HashMap, HashSet};
use crate::model::{Crate, Id, Item, ItemEnum, ItemKind, MacroKind};
use crate::graph::IdGraph;
use crate::select::ResolvedModule;
use crate::order::arranged;
use crate::select::module_items;
use crate::traits::{marker_text, path_numbers, template_marker, FormattedTraitImpl};
use crate::text::{decimal, join, join_strings, views};

verus! {

/// What the printer shows of the crate's manifest: its package data, and the names
/// of its features.
pub struct CrateManifestData {
    pub description: Option<String>,
    pub homepage: Option<String>,
    pub repository: Option<String>,
    pub categories: Vec<String>,
    pub license: Option<String>,
    pub rust_version: Option<String>,
    pub edition: Option<String>,
    /// The names of the crate's features.
    pub features: Vec<String>,
}

/// How the printer was configured: the path filters, the README and examples to
/// include, and three switches.
pub struct PrinterOptions {
    pub paths: Vec<String>,
    pub readme_content: Option<String>,
    pub examples_readme_content: Option<String>,
    /// Examples, by file name and content.
    pub examples: Vec<(String, String)>,
    pub include_other: bool,
    pub template_mode: bool,
    pub no_common_traits: bool,
}

/// The module hierarchy: the submodules of each module that has any, sorted by
/// path; every module; and the modules without a parent, the root left out,
/// sorted by path.
pub struct ModuleTree {
    pub children: HashMap<Id, Vec<Id>>,
    pub all_modules: HashSet<Id>,
    pub top_level_modules: Vec<Id>,
}

/// Generates Markdown documentation for a crate. It is configured with the builder
/// methods and run by `print`.
pub struct Printer<'a> {
    krate: &'a Crate,
    manifest_data: CrateManifestData,
    options: PrinterOptions,
    selected_ids: HashSet<Id>,
    resolved_modules: HashMap<Id, ResolvedModule>,
    graph: IdGraph,
    /// The items printed so far, with the section number where each was first printed.
    printed_ids: HashMap<Id, String>,
    output: String,
    module_tree: ModuleTree,
    /// The numbers of the current section and of the sections around it.
    doc_path: Vec<usize>,
    current_module_path: Vec<String>,
    crate_common_traits: Vec<FormattedTraitImpl>,
    all_type_ids_with_impls: HashSet<Id>,
    module_common_traits: HashMap<Id, Vec<FormattedTraitImpl>>,
}

/// The path an id is sorted by: its canonical path joined by `::`, or nothing.
pub open spec fn path_key(k: &Crate, id: Id) -> Seq<char> {
    if k.paths_map().contains_key(id) {
        join(views(k.paths_map()[id].path@), "::"@)
    } else {
        Seq::empty()
    }
}

/// The sort keys of ids: each one's path key.
pub open spec fn path_keys(k: &Crate, ids: Seq<Id>) -> Seq<Seq<Seq<char>>> {
    ids.map_values(|id: Id| seq![path_key(k, id)])
}

/// The path key of an id: see `path_key`.
pub fn path_string(krate: &Crate, id: Id) -> (res: String)
    ensures
        res@ == path_key(krate, id),
{
    match krate.get_path(id) {
        Some(summary) => join_strings(&summary.path, "::"),
        None => String::new(),
    }
}

/// Whether the crate has `id` as a module.
pub open spec fn is_module(k: &Crate, id: Id) -> bool {
    k.index_map().contains_key(id) && k.index_map()[id].inner is Module
}

/// The ids among `items` that are modules of the crate, in order.
pub open spec fn submodules(k: &Crate, items: Seq<Id>) -> Seq<Id>
    decreases items.len(),
{
    if items.len() == 0 {
        Seq::empty()
    } else {
        let prev = submodules(k, items.drop_last());
        if is_module(k, items.last()) {
            prev.push(items.last())
        } else {
            prev
        }
    }
}

/// Whether one of the listed modules has `x` among its submodules.
pub open spec fn has_parent_in(k: &Crate, ids: Seq<Id>, x: Id) -> bool {
    exists|j: int| 0 <= j < ids.len() && is_module(k, ids[j]) && #[trigger] submodules(
        k,
        module_items(k.index_map(), ids[j]),
    ).contains(x)
}

/// A prefix one longer holds what the shorter one holds and the next element.
pub proof fn lemma_take_contains(s: Seq<Id>, i: int, x: Id)
    requires
        0 <= i < s.len(),
    ensures
        s.take(i + 1).contains(x) <==> (s.take(i).contains(x) || s[i] == x),
{
    if s.take(i).contains(x) {
        let q = choose|q: int| 0 <= q < i && s.take(i)[q] == x;
        assert(s.take(i + 1)[q] == x);
    }
    if s[i] == x {
        assert(s.take(i + 1)[i] == x);
    }
    if s.take(i + 1).contains(x) && s[i] != x {
        let t = s.take(i + 1);
        let q = choose|q: int| 0 <= q < t.len() && t[q] == x;
        assert(s.take(i)[q] == x);
    }
}

/// Adding a module to the list adds its submodules to those that have a parent.
pub proof fn lemma_has_parent_push(k: &Crate, ids: Seq<Id>, id: Id, x: Id)
    ensures
        has_parent_in(k, ids.push(id), x) <==> (has_parent_in(k, ids, x) || (is_module(k, id) && submodules(
            k,
            module_items(k.index_map(), id),
        ).contains(x))),
{
    let s = ids.push(id);
    if has_parent_in(k, ids, x) {
        let j = choose|j: int| 0 <= j < ids.len() && is_module(k, ids[j]) && #[trigger] submodules(
            k,
            module_items(k.index_map(), ids[j]),
        ).contains(x);
        assert(s[j] == ids[j]);
    }
    if is_module(k, id) && submodules(k, module_items(k.index_map(), id)).contains(x) {
        assert(s[ids.len() as int] == id);
    }
    if has_parent_in(k, s, x) {
        let j = choose|j: int| 0 <= j < s.len() && is_module(k, s[j]) && #[trigger] submodules(
            k,
            module_items(k.index_map(), s[j]),
        ).contains(x);
        if j < ids.len() {
            assert(s[j] == ids[j]);
        }
    }
}

/// The top-level modules among `ids`, in order: modules other than the root that
/// no module of the crate lists as a submodule.
pub open spec fn top_candidates(k: &Crate, ids: Seq<Id>) -> Seq<Id>
    decreases ids.len(),
{
    if ids.len() == 0 {
        Seq::empty()
    } else {
        let prev = top_candidates(k, ids.drop_last());
        let x = ids.last();
        if is_module(k, x) && x != k.root_id() && !has_parent_in(k, k.id_seq(), x) {
            prev.push(x)
        } else {
            prev
        }
    }
}

/// Whether `t` is the module tree of the crate: every module; the submodules of each
/// module that has any, stably sorted by path; the top-level modules stably sorted
/// by path, in the order of the crate's ids where paths tie.
pub open spec fn tree_of(k: &Crate, t: ModuleTree) -> bool {
    &&& forall|x: Id| #[trigger] t.all_modules@.contains(x) <==> is_module(k, x)
    &&& forall|m: Id| #[trigger] t.children@.contains_key(m) <==> (is_module(k, m) && submodules(
        k,
        module_items(k.index_map(), m),
    ).len() > 0)
    &&& forall|m: Id| #[trigger] t.children@.contains_key(m) ==> arranged(
        submodules(k, module_items(k.index_map(), m)),
        path_keys(k, submodules(k, module_items(k.index_map(), m))),
        t.children@[m]@,
    )
    &&& arranged(top_candidates(k, k.id_seq()), path_keys(k, top_candidates(k, k.id_seq())), t.top_level_modules@)
}

/// Every struct, enum, union, function and trait of the crate has a name.
pub open spec fn declarations_named(k: &Crate) -> bool {
    forall|id: Id| #[trigger] k.index_map().contains_key(id) ==> (match k.index_map()[id].inner {
        ItemEnum::Struct(_) | ItemEnum::Enum(_) | ItemEnum::Union(_) | ItemEnum::Function(_) | ItemEnum::Trait(_) =>
            k.index_map()[id].name is Some,
        _ => true,
    })
}

/// Every source position of the crate's items can be shown counting from one.
pub open spec fn spans_countable(k: &Crate) -> bool {
    forall|id: Id| #[trigger] k.index_map().contains_key(id) ==> (match k.index_map()[id].span {
        Some(sp) => sp.begin_line < usize::MAX && sp.begin_column < usize::MAX,
        None => true,
    })
}

/// What the printer needs of a crate: a well formed description whose root module
/// exists and has a name, whose declarations have names, and whose source positions
/// can be counted from one.
pub open spec fn printable(k: &Crate) -> bool {
    &&& k.wf()
    &&& k.index_map().contains_key(k.root_id())
    &&& k.index_map()[k.root_id()].name is Some
    &&& declarations_named(k)
    &&& spans_countable(k)
}

/// Whether the printer can document the crate: see `printable`.
pub fn check_printable(krate: &Crate) -> (res: bool)
    requires
        krate.wf(),
    ensures
        res == printable(krate),
{
    match krate.get(krate.root()) {
        Some(root) => {
            if root.name.is_none() {
                return false;
            }
        },
        None => {
            return false;
        },
    }
    let ids = krate.ids();
    let n = ids.len();
    for i in 0..n
        invariant
            n == ids@.len(),
            ids@ == krate.id_seq(),
            krate.wf(),
            forall|j: int| 0 <= j < i ==> (match krate.index_map()[#[trigger] ids@[j]].inner {
                ItemEnum::Struct(_) | ItemEnum::Enum(_) | ItemEnum::Union(_) | ItemEnum::Function(_) | ItemEnum::Trait(_) =>
                    krate.index_map()[ids@[j]].name is Some,
                _ => true,
            }),
            forall|j: int| 0 <= j < i ==> (match krate.index_map()[#[trigger] ids@[j]].span {
                Some(sp) => sp.begin_line < usize::MAX && sp.begin_column < usize::MAX,
                None => true,
            }),
    {
        let id = ids[i];
        proof {
            krate.lemma_wf_ids(id);
            assert(ids@.contains(id));
        }
        let item = krate.get(id).unwrap();
        let needs_name = match &item.inner {
            ItemEnum::Struct(_) | ItemEnum::Enum(_) | ItemEnum::Union(_) | ItemEnum::Function(_) | ItemEnum::Trait(_) => true,
            _ => false,
        };
        if needs_name && item.name.is_none() {
            return false;
        }
        if let Some(sp) = &item.span {
            if sp.begin_line == usize::MAX || sp.begin_column == usize::MAX {
                return false;
            }
        }
    }
    proof {
        assert forall|id: Id| #[trigger] krate.index_map().contains_key(id) implies (match krate.index_map()[id].inner {
            ItemEnum::Struct(_) | ItemEnum::Enum(_) | ItemEnum::Union(_) | ItemEnum::Function(_) | ItemEnum::Trait(_) =>
                krate.index_map()[id].name is Some,
            _ => true,
        }) by {
            krate.lemma_wf_ids(id);
            let j = choose|j: int| 0 <= j < ids@.len() && ids@[j] == id;
        }
        assert forall|id: Id| #[trigger] krate.index_map().contains_key(id) implies (match krate.index_map()[id].span {
            Some(sp) => sp.begin_line < usize::MAX && sp.begin_column < usize::MAX,
            None => true,
        }) by {
            krate.lemma_wf_ids(id);
            let j = choose|j: int| 0 <= j < ids@.len() && ids@[j] == id;
        }
    }
    true
}

/// Whether the documentation path `b` is `a` moved on at its last level: the same
/// depth, and the same numbers above the last.
pub open spec fn same_level(a: Seq<usize>, b: Seq<usize>) -> bool {
    &&& a.len() == b.len()
    &&& a.len() > 0 ==> a.drop_last() == b.drop_last()
    &&& a.len() == 0 ==> a == b
}

/// The documentation of an item as printed: in template mode, where the item has
/// documentation, the marker for the current section; otherwise its documentation
/// when it is not blank, its headings moved under the current level (not stated
/// further: pulldown-cmark writes that text); else nothing.
pub open spec fn docs_text_ok(item: Item, template_mode: bool, dp: Seq<usize>, t: Seq<char>) -> bool {
    match item.docs {
        Some(d) => if template_mode {
            t == marker_text(dp) + "\n\n"@
        } else if !crate::markdown::not_blank(d@) {
            t.len() == 0
        } else {
            exists|i: int, j: int| #[trigger] crate::markdown::trimmed(d@, i, j) && t == docs_markdown(d@.subrange(i, j), header_level(dp))
        },
        None => t.len() == 0,
    }
}

/// Documentation text as printed: its headings moved under the item's section of
/// level `level`, then a blank line; nothing where the writer refuses it.
pub open spec fn docs_markdown(text: Seq<char>, level: int) -> Seq<char> {
    match crate::markdown::rendered(text, crate::markdown::shifted_marks(crate::markdown::parsed_marks(text), level)) {
        Some(a) => a + "\n\n"@,
        None => Seq::empty(),
    }
}

/// Whether a field, variant or associated item has documentation to print: any in
/// template mode, else documentation that is not blank.
pub open spec fn docs_printable(item: Item, template_mode: bool) -> bool {
    (template_mode && item.docs is Some) || crate::markdown::has_docs_spec(item.docs)
}

/// The ids of the listed fields that are present, in order.
pub open spec fn present_ids(fields: Seq<Option<Id>>) -> Seq<Id>
    decreases fields.len(),
{
    if fields.len() == 0 {
        Seq::empty()
    } else {
        let prev = present_ids(fields.drop_last());
        match fields.last() {
            Some(id) => prev.push(id),
            None => prev,
        }
    }
}

/// The present ids of a list of optional ids: see `present_ids`.
pub fn present_field_ids(fields: &Vec<Option<Id>>) -> (res: Vec<Id>)
    ensures
        res@ == present_ids(fields@),
{
    let mut res: Vec<Id> = Vec::new();
    let n = fields.len();
    for i in 0..n
        invariant
            n == fields@.len(),
            res@ == present_ids(fields@.take(i as int)),
    {
        assert(fields@.take(i + 1).drop_last() =~= fields@.take(i as int));
        if let Some(id) = fields[i] {
            res.push(id);
        }
    }
    assert(fields@.take(n as int) =~= fields@);
    res
}

/// The field ids of a struct: its named fields, its present tuple fields, or none.
pub open spec fn struct_field_ids(kind: crate::model::StructKind) -> Seq<Id> {
    match kind {
        crate::model::StructKind::Plain { fields, .. } => fields@,
        crate::model::StructKind::Tuple(fields) => present_ids(fields@),
        crate::model::StructKind::Unit => Seq::empty(),
    }
}

/// The field ids of a variant: its present tuple fields, its named fields, or none.
pub open spec fn variant_field_ids(kind: crate::model::VariantKind) -> Seq<Id> {
    match kind {
        crate::model::VariantKind::Plain => Seq::empty(),
        crate::model::VariantKind::Tuple(fields) => present_ids(fields@),
        crate::model::VariantKind::Struct { fields, .. } => fields@,
    }
}

/// The field ids of a struct: see `struct_field_ids`.
pub fn struct_fields_of(kind: &crate::model::StructKind) -> (res: Vec<Id>)
    ensures
        res@ == struct_field_ids(*kind),
{
    match kind {
        crate::model::StructKind::Plain { fields, .. } => crate::select::copy_ids(fields),
        crate::model::StructKind::Tuple(fields) => present_field_ids(fields),
        crate::model::StructKind::Unit => Vec::new(),
    }
}

/// The field ids of a variant: see `variant_field_ids`.
pub fn variant_fields_of(kind: &crate::model::VariantKind) -> (res: Vec<Id>)
    ensures
        res@ == variant_field_ids(*kind),
{
    match kind {
        crate::model::VariantKind::Plain => Vec::new(),
        crate::model::VariantKind::Tuple(fields) => present_field_ids(fields),
        crate::model::VariantKind::Struct { fields, .. } => crate::select::copy_ids(fields),
    }
}

/// Whether every character is an ASCII digit (so also for no characters).
pub open spec fn all_ascii_digits(s: Seq<char>) -> bool {
    forall|i: int| 0 <= i < s.len() ==> '0' <= #[trigger] s[i] && s[i] <= '9'
}

/// Whether every character is an ASCII digit: see `all_ascii_digits`.
pub fn is_all_ascii_digits(s: &str) -> (res: bool)
    ensures
        res == all_ascii_digits(s@),
{
    let cs = crate::text::chars_of(s);
    let n = cs.len();
    for i in 0..n
        invariant
            n == cs@.len(),
            cs@ == s@,
            forall|j: int| 0 <= j < i ==> '0' <= #[trigger] s@[j] && s@[j] <= '9',
    {
        if !('0' <= cs[i] && cs[i] <= '9') {
            assert(!('0' <= s@[i as int] && s@[i as int] <= '9'));
            return false;
        }
    }
    true
}


/// Whether field `f` is selected and has documentation to print.
pub open spec fn field_printable(k: &Crate, sel: Set<Id>, template_mode: bool, f: Id) -> bool {
    sel.contains(f) && k.index_map().contains_key(f) && docs_printable(k.index_map()[f], template_mode)
}

/// Whether variant `v` is selected and it, or a selected field of it, has
/// documentation to print.
pub open spec fn variant_printable(k: &Crate, sel: Set<Id>, template_mode: bool, v: Id) -> bool {
    &&& sel.contains(v)
    &&& k.index_map().contains_key(v)
    &&& (docs_printable(k.index_map()[v], template_mode) || match k.index_map()[v].inner {
        ItemEnum::Variant(vd) => exists|j: int| 0 <= j < variant_field_ids(vd.kind).len()
            && #[trigger] field_printable(k, sel, template_mode, variant_field_ids(vd.kind)[j]),
        _ => false,
    })
}

/// The sort key of an item by name: no name sorts first.
pub open spec fn name_key(k: &Crate, id: Id) -> Seq<Seq<char>> {
    if k.index_map().contains_key(id) {
        match k.index_map()[id].name {
            Some(n) => seq![n@],
            None => Seq::empty(),
        }
    } else {
        Seq::empty()
    }
}

/// The name sort key of an item: see `name_key`.
pub fn name_key_of(krate: &Crate, id: Id) -> (res: Vec<String>)
    ensures
        views(res@) == name_key(krate, id),
{
    let mut res: Vec<String> = Vec::new();
    match krate.get(id) {
        Some(item) => match &item.name {
            Some(n) => {
                res.push(n.clone());
                assert(views(res@) =~= seq![n@]);
            },
            None => {
                assert(views(res@) =~= Seq::<Seq<char>>::empty());
            },
        },
        None => {
            assert(views(res@) =~= Seq::<Seq<char>>::empty());
        },
    }
    res
}

/// Pairs of ids and flags stably sorted by the names of the ids.
pub fn sort_pairs_by_name(pairs: &Vec<(Id, bool)>, krate: &Crate) -> (res: Vec<(Id, bool)>)
    ensures
        arranged(pairs@, pairs@.map_values(|p: (Id, bool)| name_key(krate, p.0)), res@),
        forall|i: int| 0 <= i < res@.len() ==> pairs@.contains(#[trigger] res@[i]),
        forall|i: int| 0 <= i < pairs@.len() ==> res@.contains(#[trigger] pairs@[i]),
{
    let mut keys: Vec<Vec<String>> = Vec::new();
    let n = pairs.len();
    for i in 0..n
        invariant
            n == pairs@.len(),
            keys@.len() == i,
            forall|j: int| 0 <= j < i ==> #[trigger] crate::order::key_views(keys@)[j] == name_key(krate, pairs@[j].0),
    {
        let ghost k0 = keys@;
        keys.push(name_key_of(krate, pairs[i].0));
        assert(crate::order::key_views(keys@) =~= crate::order::key_views(k0).push(name_key(krate, pairs@[i as int].0)));
    }
    assert(crate::order::key_views(keys@) =~= pairs@.map_values(|p: (Id, bool)| name_key(krate, p.0)));
    crate::order::sort_by_keys(pairs, &keys)
}

/// The ids stably sorted by their names.
pub fn sort_ids_by_name(ids: &Vec<Id>, krate: &Crate) -> (res: Vec<Id>)
    ensures
        arranged(ids@, ids@.map_values(|id: Id| name_key(krate, id)), res@),
        forall|i: int| 0 <= i < ids@.len() ==> res@.contains(#[trigger] ids@[i]),
        forall|i: int| 0 <= i < res@.len() ==> ids@.contains(#[trigger] res@[i]),
{
    let mut keys: Vec<Vec<String>> = Vec::new();
    let n = ids.len();
    for i in 0..n
        invariant
            n == ids@.len(),
            keys@.len() == i,
            forall|j: int| 0 <= j < i ==> #[trigger] crate::order::key_views(keys@)[j] == name_key(krate, ids@[j]),
    {
        let ghost k0 = keys@;
        keys.push(name_key_of(krate, ids[i]));
        assert(crate::order::key_views(keys@) =~= crate::order::key_views(k0).push(name_key(krate, ids@[i as int])));
    }
    assert(crate::order::key_views(keys@) =~= ids@.map_values(|id: Id| name_key(krate, id)));
    crate::order::sort_by_keys(ids, &keys)
}

/// The part of a list entry between its first two backticks, or all of it when it
/// has fewer than two.
pub fn backticked(s: &str) -> (res: String)
    ensures
        (exists|i: int, j: int| 0 <= i < j < s@.len() && s@[i] == '`' && s@[j] == '`'
            && (forall|q: int| 0 <= q < i ==> s@[q] != '`') && (forall|q: int| i < q < j ==> s@[q] != '`')
            && res@ == s@.subrange(i + 1, j))
        || ((forall|i: int, j: int| 0 <= i < j < s@.len() && s@[i] == '`' ==> s@[j] != '`') && res@ == s@),
{
    let cs = crate::text::chars_of(s);
    let n = cs.len();
    let mut i: usize = 0;
    while i < n && cs[i] != '`'
        invariant
            n == cs@.len(),
            cs@ == s@,
            i <= n,
            forall|q: int| 0 <= q < i ==> s@[q] != '`',
        decreases n - i,
    {
        i = i + 1;
    }
    if i == n {
        assert forall|a: int, b: int| 0 <= a < b < s@.len() && s@[a] == '`' implies s@[b] != '`' by {
            assert(s@[a] != '`');
        }
        return crate::text::string_of(&cs);
    }
    let mut j: usize = i + 1;
    while j < n && cs[j] != '`'
        invariant
            n == cs@.len(),
            cs@ == s@,
            i < j <= n,
            forall|q: int| i < q < j ==> s@[q] != '`',
        decreases n - j,
    {
        j = j + 1;
    }
    if j == n {
        assert forall|a: int, b: int| 0 <= a < b < s@.len() && s@[a] == '`' implies s@[b] != '`' by {
            assert(a >= i);
        }
        return crate::text::string_of(&cs);
    }
    let mut out: Vec<char> = Vec::new();
    for q in i + 1..j
        invariant
            cs@ == s@,
            i < j < n,
            n == cs@.len(),
            out@ == s@.subrange(i + 1, q as int),
    {
        out.push(cs[q]);
        assert(s@.subrange(i + 1, q + 1) =~= s@.subrange(i + 1, q as int).push(s@[q as int]));
    }
    crate::text::string_of(&out)
}


/// Under `declarations_named`, the functions among a trait's items have names.
pub proof fn lemma_functions_named(k: &Crate, items: Seq<Id>)
    requires
        declarations_named(k),
    ensures
        crate::decl::functions_named(k, items),
{
    assert forall|i: int| #![trigger items[i]] 0 <= i < items.len() && k.index_map().contains_key(items[i])
        && k.index_map()[items[i]].inner is Function implies k.index_map()[items[i]].name is Some by {
        assert(k.index_map().contains_key(items[i]));
    }
}

/// Whether `print_item_details` prints an item in full: it is selected, the crate
/// has it, it is neither a `use` nor a module, and it was not printed before.
pub open spec fn prints_in_full(k: &Crate, sel: Set<Id>, printed: Map<Id, String>, id: Id) -> bool {
    &&& sel.contains(id)
    &&& k.index_map().contains_key(id)
    &&& !(k.index_map()[id].inner is Use || k.index_map()[id].inner is Module)
    &&& !printed.contains_key(id)
}

/// Whether item `id` of the crate is an impl for the type with id `x`.
pub open spec fn impl_for(k: &Crate, id: Id, x: Id) -> bool {
    k.index_map().contains_key(id) && match k.index_map()[id].inner {
        ItemEnum::Impl(imp) => crate::deps::type_id_of(imp.for_) == Some(x),
        _ => false,
    }
}

/// Whether `x` is a selected type that some impl of the crate is for.
pub open spec fn selected_with_impls(k: &Crate, sel: Set<Id>, x: Id) -> bool {
    sel.contains(x) && exists|j: int| 0 <= j < k.id_seq().len() && #[trigger] impl_for(k, k.id_seq()[j], x)
}

/// Opening a level and closing it again gives back the documentation path, and the
/// level opened is one deeper and numbered from one.
pub proof fn law_push_then_pop_restores(dp: Seq<usize>)
    ensures
        dp.push(1).drop_last() == dp,
        header_level(dp.push(1)) == header_level(dp) + 1,
        dp.push(1).last() == 1,
{
    assert(dp.push(1).drop_last() =~= dp);
}

/// Moving on to the next section keeps the depth and the numbers above the last
/// one, and so the header level.
pub proof fn law_next_section_keeps_level(dp: Seq<usize>)
    requires
        dp.len() > 0,
    ensures
        same_level(dp, dp.update(dp.len() - 1, if dp.last() < usize::MAX { (dp.last() + 1) as usize } else { usize::MAX })),
        header_level(dp.update(dp.len() - 1, if dp.last() < usize::MAX { (dp.last() + 1) as usize } else { usize::MAX }))
            == header_level(dp),
{
    let next = dp.update(dp.len() - 1, if dp.last() < usize::MAX { (dp.last() + 1) as usize } else { usize::MAX });
    assert(next.drop_last() =~= dp.drop_last());
}

/// Moving on within a level, any number of times, keeps the level: `same_level` is
/// an equivalence.
pub proof fn law_same_level_equivalence(a: Seq<usize>, b: Seq<usize>, c: Seq<usize>)
    ensures
        same_level(a, a),
        same_level(a, b) ==> same_level(b, a),
        same_level(a, b) && same_level(b, c) ==> same_level(a, c),
{
}

/// An item is printed in full at most once: once recorded as printed, whatever the
/// section number it was recorded under, it is not printed in full again.
pub proof fn law_printed_once(k: &Crate, sel: Set<Id>, printed: Map<Id, String>, id: Id, prefix: String)
    ensures
        !prints_in_full(k, sel, printed.insert(id, prefix), id),
{
}

/// Whether a normalized trait impl stands for an impl of the crate: it has an impl
/// id that the crate holds as an impl.
pub open spec fn stands_for_impl(k: &Crate, t: FormattedTraitImpl) -> bool {
    &&& t.impl_id is Some
    &&& k.index_map().contains_key(t.impl_id->Some_0)
    &&& k.index_map()[t.impl_id->Some_0].inner is Impl
}

/// The id that the impl a normalized trait impl stands for carries.
pub open spec fn impl_item_id(k: &Crate, t: FormattedTraitImpl) -> Id {
    k.index_map()[t.impl_id->Some_0].id
}

/// Whether each selected impl among `ids` that is for `target` is recorded as printed.
pub open spec fn type_impls_shown(k: &Crate, sel: Set<Id>, printed: Map<Id, String>, ids: Seq<Id>, target: Id) -> bool {
    forall|i: int| 0 <= i < ids.len() && #[trigger] impl_for(k, ids[i], target) && sel.contains(ids[i])
        ==> printed.contains_key(ids[i])
}

/// Whether each selected impl among `ids` is recorded as printed.
pub open spec fn implementors_shown(k: &Crate, sel: Set<Id>, printed: Map<Id, String>, ids: Seq<Id>) -> bool {
    forall|i: int| 0 <= i < ids.len() && sel.contains(#[trigger] ids[i]) && k.index_map().contains_key(ids[i])
        && k.index_map()[ids[i]].inner is Impl ==> printed.contains_key(ids[i])
}

/// Whether each selected id among `ids` is recorded as printed.
pub open spec fn selected_shown(sel: Set<Id>, printed: Map<Id, String>, ids: Seq<Id>) -> bool {
    forall|i: int| 0 <= i < ids.len() && sel.contains(#[trigger] ids[i]) ==> printed.contains_key(ids[i])
}

/// Whether the members an item's section lists are all recorded as printed: the
/// selected fields of a struct or union, variants of an enum, items of a trait.
pub open spec fn members_shown(k: &Crate, sel: Set<Id>, printed: Map<Id, String>, id: Id) -> bool {
    match k.index_map()[id].inner {
        ItemEnum::Struct(st) => selected_shown(sel, printed, struct_field_ids(st.kind)),
        ItemEnum::Union(u) => selected_shown(sel, printed, u.fields@),
        ItemEnum::Enum(e) => selected_shown(sel, printed, e.variants@),
        ItemEnum::Trait(t) => selected_shown(sel, printed, t.items@),
        _ => true,
    }
}

/// Whether the implementations an item's section lists are all recorded as printed:
/// the impls of a struct, enum, union or primitive, the implementors of a trait.
pub open spec fn impls_shown(k: &Crate, sel: Set<Id>, printed: Map<Id, String>, id: Id) -> bool {
    match k.index_map()[id].inner {
        ItemEnum::Struct(st) => type_impls_shown(k, sel, printed, st.impls@, id),
        ItemEnum::Enum(e) => type_impls_shown(k, sel, printed, e.impls@, id),
        ItemEnum::Union(u) => type_impls_shown(k, sel, printed, u.impls@, id),
        ItemEnum::Primitive(p) => type_impls_shown(k, sel, printed, p.impls@, id),
        ItemEnum::Trait(t) => implementors_shown(k, sel, printed, t.implementations@),
        _ => true,
    }
}

/// Whether `id` is a resolved module whose path ends with `name`.
pub open spec fn names_module(k: &Crate, rm: Map<Id, ResolvedModule>, id: Id, name: Seq<char>) -> bool {
    &&& rm.contains_key(id)
    &&& k.paths_map().contains_key(id)
    &&& k.paths_map()[id].path@.len() > 0
    &&& k.paths_map()[id].path@.last()@ == name
}

/// Whether an item is an associated constant (0), type (1) or function (2).
pub open spec fn assoc_kind_is(inner: ItemEnum, which: int) -> bool {
    match inner {
        ItemEnum::AssocConst { .. } => which == 0,
        ItemEnum::AssocType { .. } => which == 1,
        ItemEnum::Function(_) => which == 2,
        _ => false,
    }
}

/// The selected ids among `ids` of items of the crate of one associated kind (see
/// `assoc_kind_is`), in order.
pub open spec fn assoc_group(k: &Crate, sel: Set<Id>, ids: Seq<Id>, which: int) -> Seq<Id>
    decreases ids.len(),
{
    if ids.len() == 0 {
        Seq::empty()
    } else {
        let before = assoc_group(k, sel, ids.drop_last(), which);
        let id = ids.last();
        if sel.contains(id) && k.index_map().contains_key(id) && assoc_kind_is(k.index_map()[id].inner, which) {
            before.push(id)
        } else {
            before
        }
    }
}

/// The header title of a variant's field: its name in backticks, after `Field ` where
/// the name is `_` or a number.
pub open spec fn variant_field_title(name: Seq<char>) -> Seq<char> {
    if name == "_"@ || all_ascii_digits(name) {
        "`Field "@ + name + "`"@
    } else {
        "`"@ + name + "`"@
    }
}

/// The documentation path after moving on to the next section: the last number one
/// more (kept at the largest number).
pub open spec fn next_section(dp: Seq<usize>) -> Seq<usize> {
    if dp.len() > 0 {
        dp.update(dp.len() - 1, if dp.last() < usize::MAX { (dp.last() + 1) as usize } else { usize::MAX })
    } else {
        dp
    }
}

/// The section number of the example at index `i`: one more (kept at the largest
/// number).
pub open spec fn example_number(i: int) -> usize {
    if i < usize::MAX { (i + 1) as usize } else { usize::MAX }
}

/// The examples' README in the appendix under number `dp`: see `docs_markdown`;
/// nothing without one.
pub open spec fn examples_readme_text(readme: Option<String>, dp: Seq<usize>) -> Seq<char> {
    match readme {
        Some(r) => docs_markdown(r@, header_level(dp)),
        None => Seq::empty(),
    }
}

/// One example in the appendix: its name as a header, its code in a block.
pub open spec fn example_text(dp: Seq<usize>, name: Seq<char>, code: Seq<char>) -> Seq<char> {
    header_line(dp, Seq::empty(), "`"@ + name + "`"@, "\n\n"@) + "```rust\n"@ + code + "\n```\n\n"@
}

/// The first `n` examples of the appendix, numbered from one below `dp`.
pub open spec fn examples_text(dp: Seq<usize>, ex: Seq<(String, String)>) -> Seq<char>
    decreases ex.len(),
{
    if ex.len() == 0 {
        Seq::empty()
    } else {
        examples_text(dp, ex.drop_last()) + example_text(
            dp.push(example_number(ex.len() - 1)),
            ex.last().0@,
            ex.last().1@,
        )
    }
}

/// The sentence before the crate's common traits.
pub open spec fn common_traits_intro() -> Seq<char> {
    "The following traits are commonly implemented by types in this crate. Unless otherwise noted, you can assume these traits are implemented:\n\n"@
}

/// A line of the manifest section for a value that may be missing: nothing where it is.
pub open spec fn optional_line(value: Option<String>, before: Seq<char>, after: Seq<char>) -> Seq<char> {
    match value {
        Some(v) => before + v@ + after,
        None => Seq::empty(),
    }
}

/// The lines of the manifest section, then a blank line.
pub open spec fn manifest_lines(md: CrateManifestData) -> Seq<char> {
    optional_line(md.homepage, "- Homepage: <"@, ">\n"@) + optional_line(md.repository, "- Repository: <"@, ">\n"@)
        + (if md.categories@.len() > 0 {
        "- Categories: "@ + join(views(md.categories@), ", "@) + "\n"@
    } else {
        Seq::empty()
    }) + optional_line(md.license, "- License: "@, "\n"@) + optional_line(md.rust_version, "- rust-version: `"@, "`\n"@)
        + optional_line(md.edition, "- edition: `"@, "`\n"@) + "\n"@
}

/// A list item per name, in code.
pub open spec fn feature_items(names: Seq<Seq<char>>) -> Seq<char>
    decreases names.len(),
{
    if names.len() == 0 {
        Seq::empty()
    } else {
        feature_items(names.drop_last()) + "- `"@ + names.last() + "`\n"@
    }
}

/// The sort key of an edge that refers to an item: its source's path, then its label.
pub open spec fn ref_keys(k: &Crate, es: Seq<crate::graph::Edge>) -> Seq<Seq<Seq<char>>> {
    es.map_values(|e: crate::graph::Edge| seq![crate::format::id_path_text(k, e.source), crate::graph::label_name(e.label)])
}

/// The list item of an edge that refers to an item: the source's path and the label,
/// with a template marker for the entry where the source is documented in template mode.
pub open spec fn ref_line(k: &Crate, template_mode: bool, e: crate::graph::Edge, dp: Seq<usize>) -> Seq<char> {
    "- `"@ + crate::format::id_path_text(k, e.source) + "` ("@ + crate::graph::label_name(e.label) + ")"@ + (if template_mode
        && k.index_map().contains_key(e.source) && k.index_map()[e.source].docs is Some {
        "\n  "@ + marker_text(dp)
    } else {
        Seq::empty()
    }) + "\n"@
}

/// The number of the `n`-th entry of a list numbered from two (kept at the largest
/// number).
pub open spec fn entry_number(n: int) -> usize {
    if n + 1 <= usize::MAX { (n + 1) as usize } else { usize::MAX }
}

/// The list items of the edges in the given order, the `j`-th numbered `entry_number(j + 1)`
/// below `dp`.
pub open spec fn ref_lines(k: &Crate, template_mode: bool, dp: Seq<usize>, es: Seq<crate::graph::Edge>, order: Seq<usize>) -> Seq<char>
    decreases order.len(),
{
    if order.len() == 0 {
        Seq::empty()
    } else {
        ref_lines(k, template_mode, dp, es, order.drop_last()) + ref_line(
            k,
            template_mode,
            es[order.last() as int],
            dp.push(entry_number(order.len() as int)),
        )
    }
}

/// Whether an item is a selected macro: a declarative, attribute or derive macro.
pub open spec fn selected_macro(k: &Crate, sel: Set<Id>, id: Id) -> bool {
    sel.contains(id) && (kind_of_id(k, id) == Some(ItemKind::Macro) || kind_of_id(k, id) == Some(ItemKind::ProcAttribute)
        || kind_of_id(k, id) == Some(ItemKind::ProcDerive))
}

/// The manifest section under number `dp`, with the feature names in the order
/// `sorted`: its header, its lines, and the Features subsection.
pub open spec fn manifest_section(md: CrateManifestData, dp: Seq<usize>, sorted: Seq<Seq<char>>) -> Seq<char> {
    header_line(dp, Seq::empty(), "Manifest"@, "\n\n"@) + manifest_lines(md) + header_line(
        dp.push(1),
        Seq::empty(),
        "Features"@,
        "\n\n"@,
    ) + (if sorted.len() == 0 { "- None\n"@ } else { feature_items(sorted) }) + "\n"@
}

/// The feature names in the order the Features subsection lists them.
pub open spec fn features_sorted(md: CrateManifestData, sorted: Seq<Seq<char>>) -> bool {
    &&& (md.features@.len() == 0 ==> sorted.len() == 0)
    &&& arranged(views(md.features@), string_keys(views(md.features@)), sorted)
}

/// What is known of the parts of the front matter printed from state `p`: the
/// features in their order; the README section, under the number after the
/// manifest's, exactly when there is a README; the crate's Common Traits section,
/// under the next number, with the trait list `common_list`, exactly when common
/// traits are on and there are some.
pub closed spec fn front_matter_parts(
    p: Printer,
    dp: Seq<usize>,
    sorted: Seq<Seq<char>>,
    readme_part: Seq<char>,
    common_list: Seq<char>,
    common_part: Seq<char>,
) -> bool {
    let dp_readme = next_section(dp);
    let dp_common = if p.options.readme_content is Some { next_section(dp_readme) } else { dp_readme };
    &&& features_sorted(p.manifest_data, sorted)
    &&& (p.options.readme_content is None ==> readme_part.len() == 0)
    &&& (p.options.readme_content matches Some(r) ==> readme_part == header_line(dp_readme, "\n"@, "README"@, "\n\n"@)
        + docs_markdown(r@, header_level(dp_readme)))
    &&& (p.options.no_common_traits || p.crate_common_traits@.len() == 0 ==> common_part.len() == 0)
    &&& (!(p.options.no_common_traits || p.crate_common_traits@.len() == 0) ==> common_part == common_section(
        dp_common,
        common_list,
    ))
}

/// The crate's Common Traits section under number `dp`, with the trait list `list`.
pub open spec fn common_section(dp: Seq<usize>, list: Seq<char>) -> Seq<char> {
    header_line(dp, "\n"@, "Common Traits"@, "\n\n"@) + common_traits_intro() + list + "\n"@
}

/// The parts of the front matter, from what the calls that print them state.
proof fn lemma_front_matter_parts(
    s0: Printer,
    s2: Printer,
    s3: Printer,
    s4: Printer,
    sorted: Seq<Seq<char>>,
    readme_part: Seq<char>,
    common_part: Seq<char>,
) -> (common_list: Seq<char>)
    requires
        features_sorted(s0.manifest_data, sorted),
        s2.options == s0.options,
        s3.options == s0.options,
        s3.crate_common_traits == s0.crate_common_traits,
        s2.doc_path@ == next_section(s0.doc_path@),
        s3.output@ == s2.output@ + readme_part,
        s4.output@ == s3.output@ + common_part,
        s0.options.readme_content is None ==> s3.output == s2.output && s3.doc_path@ == s2.doc_path@,
        s0.options.readme_content is Some ==> s3.doc_path@ == next_section(s2.doc_path@),
        s0.options.readme_content matches Some(r) ==> s3.output@ == s2.output@ + header_line(s2.doc_path@, "\n"@, "README"@,
            "\n\n"@) + docs_markdown(r@, header_level(s2.doc_path@)),
        s0.options.no_common_traits || s0.crate_common_traits@.len() == 0 ==> s4.output == s3.output,
        !(s0.options.no_common_traits || s0.crate_common_traits@.len() == 0) ==> exists|list: Seq<char>|
            s4.output@ == s3.output@ + header_line(s3.doc_path@, "\n"@, "Common Traits"@, "\n\n"@) + common_traits_intro() + list + "\n"@,
    ensures
        front_matter_parts(s0, s0.doc_path@, sorted, readme_part, common_list, common_part),
{
    if s0.options.readme_content is Some {
        let r = s0.options.readme_content->Some_0;
        let t = header_line(s2.doc_path@, "\n"@, "README"@, "\n\n"@) + docs_markdown(r@, header_level(s2.doc_path@));
        assert(readme_part =~= s3.output@.subrange(s2.output@.len() as int, s3.output@.len() as int));
        assert(t =~= s3.output@.subrange(s2.output@.len() as int, s3.output@.len() as int));
    } else {
        assert(readme_part.len() == 0);
    }
    if !(s0.options.no_common_traits || s0.crate_common_traits@.len() == 0) {
        let list = choose|list: Seq<char>| s4.output@ == s3.output@ + header_line(s3.doc_path@, "\n"@, "Common Traits"@,
            "\n\n"@) + common_traits_intro() + list + "\n"@;
        let c = common_section(s3.doc_path@, list);
        assert(s4.output@ =~= s3.output@ + c);
        assert(common_part =~= s4.output@.subrange(s3.output@.len() as int, s4.output@.len() as int));
        assert(c =~= s4.output@.subrange(s3.output@.len() as int, s4.output@.len() as int));
        let dp_readme = next_section(s0.doc_path@);
        let dp_common = if s0.options.readme_content is Some { next_section(dp_readme) } else { dp_readme };
        assert(s3.doc_path@ == dp_common);
        assert(common_part == common_section(dp_common, list));
        list
    } else {
        assert(common_part.len() == 0);
        Seq::empty()
    }
}

/// The parts of a document that are not stated in full: the feature order, the
/// README section, the crate's trait list and Common Traits section, the Macros
/// section, the modules, the Other section, the examples appendix and the
/// appendix's section number.
pub type DocParts = (Seq<Seq<char>>, Seq<char>, Seq<char>, Seq<char>, Seq<char>, Seq<char>, Seq<char>, Seq<char>, usize);

/// Whether `part` starts with a top-level header (numbered `n:` for some `n`) with the
/// title, followed by `tail`.
pub open spec fn starts_with_top_header(part: Seq<char>, title: Seq<char>, tail: Seq<char>) -> bool {
    exists|n: usize| #[trigger] header_line(seq![n], "\n"@, title, tail).is_prefix_of(part)
}

/// The header title of the crate's root module: its name with `-` made `_`.
pub open spec fn root_module_title(k: &Crate) -> Seq<char> {
    "Module: `"@ + crate::text::replace_all(k.index_map()[k.root_id()].name->Some_0@, "-"@, "_"@) + "`"@
}

/// The header title of a module other than the root: the module path before it with
/// the module's name added, joined by `::`; where that is empty, the name, or `::`.
pub open spec fn module_title(path: Seq<Seq<char>>, name: Option<String>) -> Seq<char> {
    let j = join(path.push(match name { Some(n) => n@, None => Seq::empty() }), "::"@);
    "Module: `"@ + (if j.len() == 0 {
        match name {
            Some(n) => n@,
            None => "::"@,
        }
    } else {
        j
    }) + "`"@
}

/// What the modules part of the document starts with: the root module's header under
/// a top-level number, its documentation, and its common traits beyond the crate's
/// (nothing when common traits are switched off, else under a "Common Traits" header
/// where there are any); the rest follows.
pub open spec fn root_module_part(k: &Crate, template_mode: bool, no_common_traits: bool, part: Seq<char>) -> bool {
    exists|n: usize, docs_t: Seq<char>, common_t: Seq<char>, rest: Seq<char>|
        #[trigger] root_module_split(k, template_mode, no_common_traits, part, n, docs_t, common_t, rest)
}

/// The modules part cut into the root module's header under number `n`, its
/// documentation, its common traits, and the rest: see `root_module_part`.
pub open spec fn root_module_split(
    k: &Crate,
    template_mode: bool,
    no_common_traits: bool,
    part: Seq<char>,
    n: usize,
    docs_t: Seq<char>,
    common_t: Seq<char>,
    rest: Seq<char>,
) -> bool {
    &&& part == header_line(seq![n], "\n"@, root_module_title(k), "\n\n"@) + docs_t + common_t + rest
    &&& docs_text_ok(k.index_map()[k.root_id()], template_mode, seq![n, 1usize], docs_t)
    &&& (no_common_traits ==> common_t.len() == 0)
    &&& (common_t.len() == 0 || header_line(seq![n, 1usize], Seq::empty(), "Common Traits"@, "\n\n"@).is_prefix_of(common_t))
}

/// What printing a module writes after the output of `p`, giving `after`: its header,
/// its documentation, its common traits beyond the crate's (nothing when common
/// traits are switched off, else under a "Common Traits" header where there are
/// any), then the rest (its contents and its submodules).
pub closed spec fn module_section_shape(
    p: Printer,
    after: Seq<char>,
    id: Id,
    docs_t: Seq<char>,
    common_t: Seq<char>,
    rest: Seq<char>,
) -> bool {
    let k = p.krate;
    let title = if id == k.root_id() {
        root_module_title(k)
    } else {
        module_title(views(p.current_module_path@), k.index_map()[id].name)
    };
    &&& after == p.output@ + header_line(p.doc_path@, "\n"@, title, "\n\n"@) + docs_t + common_t + rest
    &&& docs_text_ok(k.index_map()[id], p.options.template_mode, p.doc_path@.push(1), docs_t)
    &&& (p.options.no_common_traits ==> common_t.len() == 0)
    &&& (common_t.len() == 0 || header_line(p.doc_path@.push(1), Seq::empty(), "Common Traits"@, "\n\n"@).is_prefix_of(common_t))
}

/// Replacing in an empty text leaves nothing, and only an empty text gives nothing.
proof fn lemma_replace_empty(s: Seq<char>)
    ensures
        crate::text::replace_all(s, "-"@, "_"@).len() == 0 ==> s.len() == 0,
{
    reveal_strlit("-");
    reveal_strlit("_");
    if s.len() > 0 {
        if "-"@.is_prefix_of(s) {
            assert(crate::text::replace_all(s, "-"@, "_"@) == "_"@ + crate::text::replace_all(s.skip(1), "-"@, "_"@));
        } else {
            assert(crate::text::replace_all(s, "-"@, "_"@) == seq![s[0]] + crate::text::replace_all(s.drop_first(), "-"@, "_"@));
        }
    }
}

/// The modules part that `finalize` writes starts as `root_module_part` says: the
/// root module's section is what `print_module_recursive` states, and what follows it
/// only extends the output.
proof fn lemma_root_module_part(sm: Printer, s2: Printer, s_mod: Printer)
    requires
        sm.doc_path@.len() == 1,
        exists|docs_t: Seq<char>, common_t: Seq<char>, rest: Seq<char>|
            #[trigger] module_section_shape(sm, s2.output@, sm.krate.root_id(), docs_t, common_t, rest),
        s2.output@.is_prefix_of(s_mod.output@),
    ensures
        root_module_part(sm.krate, sm.options.template_mode, sm.options.no_common_traits,
            s_mod.output@.subrange(sm.output@.len() as int, s_mod.output@.len() as int)),
{
    let (d, c, r) = choose|docs_t: Seq<char>, common_t: Seq<char>, rest: Seq<char>|
        #[trigger] module_section_shape(sm, s2.output@, sm.krate.root_id(), docs_t, common_t, rest);
    let n = sm.doc_path@[0];
    assert(sm.doc_path@ =~= seq![n]);
    assert(sm.doc_path@.push(1) =~= seq![n, 1usize]);
    let tail = s_mod.output@.subrange(s2.output@.len() as int, s_mod.output@.len() as int);
    assert(s_mod.output@ =~= s2.output@ + tail);
    let part = s_mod.output@.subrange(sm.output@.len() as int, s_mod.output@.len() as int);
    let h = header_line(seq![n], "\n"@, root_module_title(sm.krate), "\n\n"@);
    assert(part =~= h + d + c + (r + tail));
    assert(root_module_split(sm.krate, sm.options.template_mode, sm.options.no_common_traits, part, n, d, c, r + tail));
}

/// The document, in order: the crate header, the description, the manifest section,
/// the README, the crate's common traits, the macros, the modules, the Other section,
/// and the examples appendix.
pub closed spec fn document_text(p: Printer, parts: DocParts) -> Seq<char> {
    crate_header_text(p.krate) + optional_line(p.manifest_data.description, Seq::empty(), "\n\n"@) + manifest_section(
        p.manifest_data,
        seq![1usize],
        parts.0,
    ) + parts.1 + parts.3 + parts.4 + parts.5 + parts.6 + parts.7
}

/// What is known of the parts: see `front_matter_parts` for the first four; the Macros
/// section exactly when the root module holds a selected macro; the modules starting
/// with the root module's header, documentation and common traits (see
/// `root_module_part`); an Other section, if any, only when asked for; no appendix without examples or their README, and otherwise the appendix with
/// each example, in the order given.
pub closed spec fn document_parts(p: Printer, parts: DocParts) -> bool {
    let root = p.krate.root_id();
    let has_macros = p.resolved_modules@.contains_key(root) && exists|i: int|
        0 <= i < p.resolved_modules@[root].items@.len() && #[trigger] selected_macro(
            p.krate,
            p.selected_ids@,
            p.resolved_modules@[root].items@[i],
        );
    let no_examples = p.options.examples@.len() == 0 && p.options.examples_readme_content is None;
    &&& front_matter_parts(p, seq![1usize], parts.0, parts.1, parts.2, parts.3)
    &&& (!has_macros ==> parts.4.len() == 0)
    &&& (has_macros ==> starts_with_top_header(parts.4, "Macros"@, "\n"@))
    &&& root_module_part(p.krate, p.options.template_mode, p.options.no_common_traits, parts.5)
    &&& (parts.6.len() == 0 || starts_with_top_header(parts.6, "Other"@, "\n"@))
    &&& (!p.options.include_other ==> parts.6.len() == 0)
    &&& (no_examples ==> parts.7.len() == 0)
    &&& (!no_examples ==> parts.7 == header_line(seq![parts.8], "\n"@, "Examples Appendix"@, "\n\n"@)
        + examples_readme_text(p.options.examples_readme_content, seq![parts.8]) + examples_text(seq![parts.8], p.options.examples@))
}

/// The document `finalize` writes, from what the calls that print its parts state.
#[verifier::spinoff_prover]
#[verifier::rlimit(80)]
proof fn lemma_document_parts(
    p0: Printer,
    s0: Printer,
    s1: Printer,
    sf: Printer,
    sm: Printer,
    s_mod: Printer,
    s_o: Printer,
    s_e: Printer,
)
    requires
        s0.output@ == crate_header_text(p0.krate),
        s1.output == s0.output,
        s1.doc_path@ == seq![1usize],
        s1.krate == p0.krate,
        s1.manifest_data == p0.manifest_data,
        s1.options == p0.options,
        s1.crate_common_traits == p0.crate_common_traits,
        sf.same_setup(&s1),
        sm.same_setup(&s1),
        s_o.same_setup(&s1),
        sm.resolved_modules == p0.resolved_modules,
        sm.selected_ids == p0.selected_ids,
        exists|sorted: Seq<Seq<char>>, readme_part: Seq<char>, common_list: Seq<char>, common_part: Seq<char>|
            #[trigger] front_matter_parts(s1, s1.doc_path@, sorted, readme_part, common_list, common_part)
            && sf.output@ == s1.output@ + optional_line(s1.manifest_data.description, Seq::empty(), "\n\n"@)
            + manifest_section(s1.manifest_data, s1.doc_path@, sorted) + readme_part + common_part,
        ({
            let k = sf.krate;
            let root = k.root_id();
            let has_items = sf.resolved_modules@.contains_key(root);
            let items = sf.resolved_modules@[root].items@;
            !(has_items && exists|i: int| 0 <= i < items.len() && #[trigger] selected_macro(k, sf.selected_ids@, items[i]))
                ==> sm.output == sf.output
        }),
        sf.output@.is_prefix_of(sm.output@),
        sm.output@.is_prefix_of(s_mod.output@),
        s_mod.output@.is_prefix_of(s_o.output@),
        sf.doc_path@.len() == 1,
        sm.doc_path@.len() == 1,
        s_mod.doc_path@.len() == 1,
        ({
            let k = sf.krate;
            let root = k.root_id();
            let has_items = sf.resolved_modules@.contains_key(root);
            let items = sf.resolved_modules@[root].items@;
            (has_items && exists|i: int| 0 <= i < items.len() && #[trigger] selected_macro(k, sf.selected_ids@, items[i]))
                ==> (sf.output@ + header_line(sf.doc_path@, "\n"@, "Macros"@, "\n"@)).is_prefix_of(sm.output@)
        }),
        root_module_part(p0.krate, p0.options.template_mode, p0.options.no_common_traits,
            s_mod.output@.subrange(sm.output@.len() as int, s_mod.output@.len() as int)),
        s_o.output == s_mod.output || (s_mod.output@ + header_line(s_mod.doc_path@, "\n"@, "Other"@, "\n"@))
            .is_prefix_of(s_o.output@),
        !s_o.options.include_other ==> s_o.output == s_mod.output,
        s_o.doc_path@.len() == 1,
        s_o.options.examples@.len() == 0 && s_o.options.examples_readme_content is None ==> s_e.output == s_o.output,
        !(s_o.options.examples@.len() == 0 && s_o.options.examples_readme_content is None) ==>
            s_e.output@ == s_o.output@ + header_line(s_o.doc_path@, "\n"@, "Examples Appendix"@, "\n\n"@)
            + examples_readme_text(s_o.options.examples_readme_content, s_o.doc_path@) + examples_text(s_o.doc_path@, s_o.options.examples@),
    ensures
        exists|parts: DocParts| #[trigger] document_parts(p0, parts) && s_e.output@ == document_text(p0, parts),
{
    let (sorted, readme_part, common_list, common_part) = choose|sorted: Seq<Seq<char>>, readme_part: Seq<char>, common_list: Seq<char>, common_part: Seq<char>|
        #[trigger] front_matter_parts(s1, s1.doc_path@, sorted, readme_part, common_list, common_part)
        && sf.output@ == s1.output@ + optional_line(s1.manifest_data.description, Seq::empty(), "\n\n"@)
        + manifest_section(s1.manifest_data, s1.doc_path@, sorted) + readme_part + common_part;
    let macros_part = sm.output@.subrange(sf.output@.len() as int, sm.output@.len() as int);
    assert(sm.output@ =~= sf.output@ + macros_part);
    let modules_part = s_mod.output@.subrange(sm.output@.len() as int, s_mod.output@.len() as int);
    assert(s_mod.output@ =~= sm.output@ + modules_part);
    let other_part = s_o.output@.subrange(s_mod.output@.len() as int, s_o.output@.len() as int);
    assert(s_o.output@ =~= s_mod.output@ + other_part);
    let examples_part = s_e.output@.subrange(s_o.output@.len() as int, s_e.output@.len() as int);
    assert(s_e.output@ =~= s_o.output@ + examples_part);
    let n_e = s_o.doc_path@[0];
    assert(s_o.doc_path@ =~= seq![n_e]);
    let no_examples = p0.options.examples@.len() == 0 && p0.options.examples_readme_content is None;
    if !no_examples {
        let t = header_line(s_o.doc_path@, "\n"@, "Examples Appendix"@, "\n\n"@)
            + examples_readme_text(s_o.options.examples_readme_content, s_o.doc_path@) + examples_text(s_o.doc_path@, s_o.options.examples@);
        assert(s_e.output@ =~= s_o.output@ + t);
        assert(examples_part =~= s_e.output@.subrange(s_o.output@.len() as int, s_e.output@.len() as int));
        assert(t =~= s_e.output@.subrange(s_o.output@.len() as int, s_e.output@.len() as int));
    }
    assert(sf.doc_path@ =~= seq![sf.doc_path@[0]]);
    assert(sm.doc_path@ =~= seq![sm.doc_path@[0]]);
    assert(s_mod.doc_path@ =~= seq![s_mod.doc_path@[0]]);
    lemma_prefix_part(sf.output@, sm.output@, header_line(sf.doc_path@, "\n"@, "Macros"@, "\n"@));
    lemma_prefix_part(s_mod.output@, s_o.output@, header_line(s_mod.doc_path@, "\n"@, "Other"@, "\n"@));
    if other_part.len() > 0 {
        assert(header_line(seq![s_mod.doc_path@[0]], "\n"@, "Other"@, "\n"@).is_prefix_of(other_part));
    }
    let parts: DocParts = (sorted, readme_part, common_list, common_part, macros_part, modules_part, other_part, examples_part, n_e);
    assert(front_matter_parts(p0, seq![1usize], sorted, readme_part, common_list, common_part));
    assert(document_parts(p0, parts));
    assert(s_e.output@ =~= document_text(p0, parts));
}

/// The printer `q` that `print` prepares from `p` before it writes the document: the
/// same crate, manifest and options, the selection `documented_selection`, and the
/// module index that `build_resolved_module_index` states.
pub closed spec fn prepared_from<'a>(q: Printer<'a>, p: Printer<'a>) -> bool {
    &&& q.krate == p.krate
    &&& q.manifest_data == p.manifest_data
    &&& q.options == p.options
    &&& q.selected_ids@ == crate::select::documented_selection(p.krate, p.options.paths@)
    &&& forall|k: Id| #[trigger] q.resolved_modules@.contains_key(k)
        <==> (p.krate.index_map().contains_key(k) && p.krate.index_map()[k].inner is Module)
}

/// Each selected id among `ids` of an item of the crate of the associated kind is
/// in the group.
proof fn lemma_assoc_group_contains(k: &Crate, sel: Set<Id>, ids: Seq<Id>, which: int, i: int)
    requires
        0 <= i < ids.len(),
        sel.contains(ids[i]),
        k.index_map().contains_key(ids[i]),
        assoc_kind_is(k.index_map()[ids[i]].inner, which),
    ensures
        assoc_group(k, sel, ids, which).contains(ids[i]),
    decreases ids.len(),
{
    let before = assoc_group(k, sel, ids.drop_last(), which);
    if i == ids.len() - 1 {
        assert(assoc_group(k, sel, ids, which) == before.push(ids[i]));
        assert(assoc_group(k, sel, ids, which)[before.len() as int] == ids[i]);
    } else {
        assert(ids.drop_last()[i] == ids[i]);
        lemma_assoc_group_contains(k, sel, ids.drop_last(), which, i);
        let j = choose|j: int| 0 <= j < before.len() && before[j] == ids[i];
        let g = assoc_group(k, sel, ids, which);
        if g.len() > before.len() {
            assert(g == before.push(ids.last()));
            assert(g[j] == ids[i]);
        } else {
            assert(g == before);
        }
    }
}

/// The header of an impl block printed at documentation path `dp` (the number
/// before moving on), with the impl's declaration, trimmed, `decl`.
pub open spec fn impl_heading(decl: Seq<char>, dp: Seq<usize>) -> Seq<char> {
    crate::text::repeated('#', header_level(dp) as nat) + " "@ + header_prefix_text(dp) + " `"@ + decl + "`\n\n"@
}

/// The name an item's implementations section shows: its name, or a primitive's
/// name, or `{unknown_item_type}`.
pub open spec fn target_display_name(item: Item) -> Seq<char> {
    match item.name {
        Some(n) => n@,
        None => match item.inner {
            ItemEnum::Primitive(p) => p.name@,
            _ => "{unknown_item_type}"@,
        },
    }
}

/// Whether some impl among `ids` is an inherent impl for item `x`, selected and not
/// printed yet: its block is then printed among the item's implementations.
pub open spec fn inherent_impl_pending(k: &Crate, ids: Seq<Id>, x: Id, sel: Set<Id>, printed: Map<Id, String>) -> bool {
    exists|i: int| 0 <= i < ids.len() && #[trigger] impl_for(k, ids[i], x) && sel.contains(ids[i])
        && !printed.contains_key(ids[i]) && (match k.index_map()[ids[i]].inner {
            ItemEnum::Impl(imp) => imp.trait_ is None,
            _ => false,
        })
}

/// The category a trait's associated item is listed under: required associated
/// types and constants (0), required methods (1), provided methods (2).
pub open spec fn assoc_category(item: Item) -> Option<int> {
    match item.inner {
        ItemEnum::AssocType { .. } => Some(0int),
        ItemEnum::AssocConst { .. } => Some(0int),
        ItemEnum::Function(f) => if f.has_body { Some(2int) } else { Some(1int) },
        _ => None,
    }
}

/// The title of each category of associated items.
pub open spec fn assoc_category_title(c: int) -> Seq<char> {
    if c == 0 {
        "Required Associated Types"@
    } else if c == 1 {
        "Required Methods"@
    } else {
        "Provided Methods"@
    }
}

/// Whether a selected associated item of category `c` among `items` has
/// documentation to print.
pub open spec fn category_documented(k: &Crate, sel: Set<Id>, template_mode: bool, items: Seq<Id>, c: int) -> bool {
    exists|i: int| 0 <= i < items.len() && #[trigger] sel.contains(items[i]) && k.index_map().contains_key(items[i])
        && assoc_category(k.index_map()[items[i]]) == Some(c) && docs_printable(k.index_map()[items[i]], template_mode)
}

/// For each category of associated items, whether one has documentation to print.
pub open spec fn documented_categories(k: &Crate, sel: Set<Id>, template_mode: bool, items: Seq<Id>) -> Seq<bool> {
    seq![
        category_documented(k, sel, template_mode, items, 0),
        category_documented(k, sel, template_mode, items, 1),
        category_documented(k, sel, template_mode, items, 2),
    ]
}

/// A part of the output for one category of associated items: nothing where none of
/// them has documentation, else starting with the category's header under `dp`.
pub open spec fn category_part(part: Seq<char>, documented: bool, dp: Seq<usize>, c: int) -> bool {
    if documented {
        header_line(dp, Seq::empty(), assoc_category_title(c), "\n\n"@).is_prefix_of(part)
    } else {
        part.len() == 0
    }
}

/// What printing a trait's associated items adds to the output `before`, giving
/// `after`: a part per category, in order, each numbered after the one before it.
pub open spec fn assoc_items_shape(
    before: Seq<char>,
    after: Seq<char>,
    dp: Seq<usize>,
    documented: Seq<bool>,
    parts: Seq<Seq<char>>,
) -> bool {
    &&& parts.len() == 3
    &&& documented.len() == 3
    &&& after == before + parts[0] + parts[1] + parts[2]
    &&& category_part(parts[0], documented[0], dp, 0)
    &&& category_part(parts[1], documented[1], if documented[0] { next_section(dp) } else { dp }, 1)
    &&& category_part(parts[2], documented[2], if documented[1] {
        next_section(if documented[0] { next_section(dp) } else { dp })
    } else {
        if documented[0] { next_section(dp) } else { dp }
    }, 2)
}

/// One more item of the list: a category is documented among the first `i + 1`
/// items where it is among the first `i`, or the item is one of it with documentation.
proof fn lemma_category_step(k: &Crate, sel: Set<Id>, tm: bool, items: Seq<Id>, i: int)
    requires
        0 <= i < items.len(),
    ensures
        forall|c: int| #[trigger] category_documented(k, sel, tm, items.take(i + 1), c) <==> (category_documented(k, sel, tm, items.take(i), c)
            || (sel.contains(items[i]) && k.index_map().contains_key(items[i])
                && assoc_category(k.index_map()[items[i]]) == Some(c) && docs_printable(k.index_map()[items[i]], tm))),
{
    let pre = items.take(i);
    let cur = items.take(i + 1);
    assert forall|c: int| #[trigger] category_documented(k, sel, tm, cur, c) <==> (category_documented(k, sel, tm, pre, c)
        || (sel.contains(items[i]) && k.index_map().contains_key(items[i])
            && assoc_category(k.index_map()[items[i]]) == Some(c) && docs_printable(k.index_map()[items[i]], tm))) by {
        if category_documented(k, sel, tm, cur, c) {
            let j = choose|j: int| 0 <= j < cur.len() && #[trigger] sel.contains(cur[j]) && k.index_map().contains_key(cur[j])
                && assoc_category(k.index_map()[cur[j]]) == Some(c) && docs_printable(k.index_map()[cur[j]], tm);
            if j < i {
                assert(pre[j] == cur[j]);
                assert(sel.contains(pre[j]));
            }
        }
        if category_documented(k, sel, tm, pre, c) {
            let j = choose|j: int| 0 <= j < pre.len() && #[trigger] sel.contains(pre[j]) && k.index_map().contains_key(pre[j])
                && assoc_category(k.index_map()[pre[j]]) == Some(c) && docs_printable(k.index_map()[pre[j]], tm);
            assert(cur[j] == pre[j]);
            assert(sel.contains(cur[j]));
        }
        if sel.contains(items[i]) && k.index_map().contains_key(items[i])
            && assoc_category(k.index_map()[items[i]]) == Some(c) && docs_printable(k.index_map()[items[i]], tm) {
            assert(cur[i] == items[i]);
            assert(sel.contains(cur[i]));
        }
    }
}

/// A list that stayed as it was or got one more pair at its end has a flagged pair
/// where it had one before or the new pair is flagged.
proof fn lemma_push_flag(before: Seq<(Id, bool)>, after: Seq<(Id, bool)>)
    requires
        after == before || (after.len() == before.len() + 1 && after.drop_last() == before),
    ensures
        (exists|q: int| 0 <= q < after.len() && (#[trigger] after[q]).1) <==> ((exists|q: int| 0 <= q < before.len()
            && (#[trigger] before[q]).1) || (after.len() > before.len() && after.last().1)),
{
    if after.len() > before.len() {
        if exists|q: int| 0 <= q < after.len() && (#[trigger] after[q]).1 {
            let q = choose|q: int| 0 <= q < after.len() && (#[trigger] after[q]).1;
            if q < before.len() {
                assert(before[q] == after.drop_last()[q]);
            }
        }
        if exists|q: int| 0 <= q < before.len() && (#[trigger] before[q]).1 {
            let q = choose|q: int| 0 <= q < before.len() && (#[trigger] before[q]).1;
            assert(after[q] == after.drop_last()[q]);
        }
        assert(after[after.len() - 1].1 == after.last().1);
    }
}

/// A trait's documented, selected associated functions are listed by whether they have
/// a body: in what printing the trait's associated items adds (see `assoc_items_shape`),
/// the second part is headed "Required Methods" when one has no body, and the third
/// "Provided Methods" when one has a body.
pub proof fn law_methods_by_body(
    k: &Crate,
    sel: Set<Id>,
    template_mode: bool,
    items: Seq<Id>,
    before: Seq<char>,
    after: Seq<char>,
    dp: Seq<usize>,
    parts: Seq<Seq<char>>,
    i: int,
)
    requires
        assoc_items_shape(before, after, dp, documented_categories(k, sel, template_mode, items), parts),
        0 <= i < items.len(),
        sel.contains(items[i]),
        k.index_map().contains_key(items[i]),
        k.index_map()[items[i]].inner is Function,
        docs_printable(k.index_map()[items[i]], template_mode),
    ensures
        match k.index_map()[items[i]].inner {
            ItemEnum::Function(f) => if f.has_body {
                exists|d: Seq<usize>| #[trigger] header_line(d, Seq::empty(), "Provided Methods"@, "\n\n"@).is_prefix_of(parts[2])
            } else {
                exists|d: Seq<usize>| #[trigger] header_line(d, Seq::empty(), "Required Methods"@, "\n\n"@).is_prefix_of(parts[1])
            },
            _ => true,
        },
{
    if let ItemEnum::Function(f) = k.index_map()[items[i]].inner {
        let docs = documented_categories(k, sel, template_mode, items);
        let d1 = if docs[0] { next_section(dp) } else { dp };
        let d2 = if docs[1] { next_section(d1) } else { d1 };
        if f.has_body {
            assert(category_documented(k, sel, template_mode, items, 2));
            assert(docs[2]);
            assert(header_line(d2, Seq::empty(), "Provided Methods"@, "\n\n"@).is_prefix_of(parts[2]));
        } else {
            assert(category_documented(k, sel, template_mode, items, 1));
            assert(docs[1]);
            assert(header_line(d1, Seq::empty(), "Required Methods"@, "\n\n"@).is_prefix_of(parts[1]));
        }
    }
}

/// Two lists with the same members have a flagged member alike.
proof fn lemma_flag_kept(a: Seq<(Id, bool)>, b: Seq<(Id, bool)>)
    requires
        forall|i: int| 0 <= i < b.len() ==> a.contains(#[trigger] b[i]),
        forall|i: int| 0 <= i < a.len() ==> b.contains(#[trigger] a[i]),
    ensures
        (exists|q: int| 0 <= q < a.len() && (#[trigger] a[q]).1) <==> (exists|q: int| 0 <= q < b.len() && (#[trigger] b[q]).1),
{
    if exists|q: int| 0 <= q < a.len() && (#[trigger] a[q]).1 {
        let q = choose|q: int| 0 <= q < a.len() && (#[trigger] a[q]).1;
        assert(b.contains(a[q]));
        let r = choose|r: int| 0 <= r < b.len() && b[r] == a[q];
        assert(b[r].1);
    }
    if exists|q: int| 0 <= q < b.len() && (#[trigger] b[q]).1 {
        let q = choose|q: int| 0 <= q < b.len() && (#[trigger] b[q]).1;
        assert(a.contains(b[q]));
        let r = choose|r: int| 0 <= r < a.len() && a[r] == b[q];
        assert(a[r].1);
    }
}

/// Where `before + h` starts `after`, which extends `before`, `h` starts what was added.
proof fn lemma_prefix_part(before: Seq<char>, after: Seq<char>, h: Seq<char>)
    requires
        before.is_prefix_of(after),
    ensures
        (before + h).is_prefix_of(after) ==> h.is_prefix_of(after.subrange(before.len() as int, after.len() as int)),
{
    if (before + h).is_prefix_of(after) {
        let part = after.subrange(before.len() as int, after.len() as int);
        assert forall|c: int| 0 <= c < h.len() implies part[c] == h[c] by {
            assert(after[before.len() + c] == (before + h)[before.len() + c]);
        }
        assert(part.subrange(0, h.len() as int) =~= h);
    }
}

/// Output that starts with an impl's heading after `before` is longer than `before`.
proof fn lemma_heading_grows(before: Seq<char>, after: Seq<char>, decl: Seq<char>, dp: Seq<usize>)
    requires
        exists|i: int, j: int| #[trigger] crate::markdown::trimmed(decl, i, j)
            && (before + impl_heading(decl.subrange(i, j), dp)).is_prefix_of(after),
    ensures
        after.len() > before.len(),
{
    let t = choose|i: int, j: int| #[trigger] crate::markdown::trimmed(decl, i, j)
        && (before + impl_heading(decl.subrange(i, j), dp)).is_prefix_of(after);
    let h = impl_heading(decl.subrange(t.0, t.1), dp);
    assert(h.len() > 0);
}

/// Whether the impl `id`, whose data is `imp`, is one of `ids`, for item `x`, and selected.
pub open spec fn pending_candidate(k: &Crate, ids: Seq<Id>, x: Id, sel: Set<Id>, id: Id, imp: crate::model::Impl) -> bool {
    exists|q: int| 0 <= q < ids.len() && ids[q] == id && #[trigger] impl_for(k, ids[q], x) && sel.contains(id)
        && k.index_map()[id].inner == ItemEnum::Impl(imp)
}

/// An inherent impl that is a candidate and not printed makes one pending.
proof fn lemma_candidate_pending(k: &Crate, ids: Seq<Id>, x: Id, sel: Set<Id>, printed: Map<Id, String>, id: Id, imp: crate::model::Impl)
    requires
        pending_candidate(k, ids, x, sel, id, imp),
        imp.trait_ is None,
        !printed.contains_key(id),
    ensures
        inherent_impl_pending(k, ids, x, sel, printed),
{
    let q = choose|q: int| 0 <= q < ids.len() && ids[q] == id && #[trigger] impl_for(k, ids[q], x) && sel.contains(id)
        && k.index_map()[id].inner == ItemEnum::Impl(imp);
    assert(impl_for(k, ids[q], x));
}

/// Whether some impl among `ids` is a trait impl for item `x`, selected and not
/// printed yet.
pub open spec fn trait_impl_pending(k: &Crate, ids: Seq<Id>, x: Id, sel: Set<Id>, printed: Map<Id, String>) -> bool {
    exists|i: int| 0 <= i < ids.len() && #[trigger] impl_for(k, ids[i], x) && sel.contains(ids[i])
        && !printed.contains_key(ids[i]) && (match k.index_map()[ids[i]].inner {
            ItemEnum::Impl(imp) => imp.trait_ is Some,
            _ => false,
        })
}

/// The trait part of an item's implementations: nothing, or a section under number
/// `dp` headed "Trait Implementations for" the item.
pub open spec fn trait_section_shape(part: Seq<char>, dp: Seq<usize>, item: Item) -> bool {
    part.len() == 0 || header_line(dp, Seq::empty(), "Trait Implementations for `"@ + target_display_name(item) + "`"@, "\n\n"@)
        .is_prefix_of(part)
}

/// The text an item's implementations add to the output `before`, giving `after`:
/// the inherent impl blocks, then the trait part (see `trait_section_shape`).
pub open spec fn implementations_shape(
    before: Seq<char>,
    after: Seq<char>,
    inherent_part: Seq<char>,
    trait_part: Seq<char>,
    dp: Seq<usize>,
    item: Item,
) -> bool {
    after == before + inherent_part + trait_part && trait_section_shape(trait_part, dp, item)
}

/// A header line as `write_header` writes it: `before`, the `#`s of the level, the
/// section number, the title, then `tail`.
pub open spec fn header_line(dp: Seq<usize>, before: Seq<char>, title: Seq<char>, tail: Seq<char>) -> Seq<char> {
    before + crate::text::repeated('#', header_level(dp) as nat) + " "@ + header_prefix_text(dp) + " "@ + title + tail
}

/// Whether `print_item_details` leaves an item recorded as printed, whether it prints
/// it then or it was printed before: selected, in the crate, neither a `use` nor a
/// module.
pub open spec fn qualifies(k: &Crate, sel: Set<Id>, id: Id) -> bool {
    &&& sel.contains(id)
    &&& k.index_map().contains_key(id)
    &&& !(k.index_map()[id].inner is Use || k.index_map()[id].inner is Module)
}

/// Whether a section of items of `kind` takes the item: it qualifies and is of that kind.
pub open spec fn kept_in_section(k: &Crate, sel: Set<Id>, id: Id, kind: ItemKind) -> bool {
    qualifies(k, sel, id) && kind_of_id(k, id) == Some(kind)
}

/// The kinds of items that get sections of their own in a module, in their order.
pub open spec fn section_kind_seq() -> Seq<ItemKind> {
    seq![
        ItemKind::Macro,
        ItemKind::ProcAttribute,
        ItemKind::ProcDerive,
        ItemKind::Struct,
        ItemKind::Enum,
        ItemKind::Union,
        ItemKind::Trait,
        ItemKind::Function,
        ItemKind::TypeAlias,
        ItemKind::TraitAlias,
        ItemKind::Static,
        ItemKind::Constant,
        ItemKind::ExternCrate,
        ItemKind::ExternType,
        ItemKind::Primitive,
    ]
}

/// The titles of a module's sections, one for each kind of `section_kind_seq`.
pub open spec fn section_title_seq() -> Seq<Seq<char>> {
    seq![
        "Macros"@,
        "Attribute Macros"@,
        "Derive Macros"@,
        "Structs"@,
        "Enums"@,
        "Unions"@,
        "Traits"@,
        "Functions"@,
        "Type Aliases"@,
        "Trait Aliases"@,
        "Statics"@,
        "Constants"@,
        "External Crates"@,
        "External Types"@,
        "Primitives"@,
    ]
}

/// The position of a kind among those with sections of their own; -1 for any other.
pub open spec fn section_rank(kind: ItemKind) -> int {
    match kind {
        ItemKind::Macro => 0int,
        ItemKind::ProcAttribute => 1int,
        ItemKind::ProcDerive => 2int,
        ItemKind::Struct => 3int,
        ItemKind::Enum => 4int,
        ItemKind::Union => 5int,
        ItemKind::Trait => 6int,
        ItemKind::Function => 7int,
        ItemKind::TypeAlias => 8int,
        ItemKind::TraitAlias => 9int,
        ItemKind::Static => 10int,
        ItemKind::Constant => 11int,
        ItemKind::ExternCrate => 12int,
        ItemKind::ExternType => 13int,
        ItemKind::Primitive => 14int,
        _ => -1int,
    }
}

/// Each kind with a section stands at its rank, so no two positions hold the same kind.
pub proof fn lemma_section_rank()
    ensures
        forall|i: int| 0 <= i < 15 ==> section_rank(#[trigger] section_kind_seq()[i]) == i,
        section_kind_seq().len() == 15,
{
    assert(section_rank(section_kind_seq()[0]) == 0);
    assert(section_rank(section_kind_seq()[1]) == 1);
    assert(section_rank(section_kind_seq()[2]) == 2);
    assert(section_rank(section_kind_seq()[3]) == 3);
    assert(section_rank(section_kind_seq()[4]) == 4);
    assert(section_rank(section_kind_seq()[5]) == 5);
    assert(section_rank(section_kind_seq()[6]) == 6);
    assert(section_rank(section_kind_seq()[7]) == 7);
    assert(section_rank(section_kind_seq()[8]) == 8);
    assert(section_rank(section_kind_seq()[9]) == 9);
    assert(section_rank(section_kind_seq()[10]) == 10);
    assert(section_rank(section_kind_seq()[11]) == 11);
    assert(section_rank(section_kind_seq()[12]) == 12);
    assert(section_rank(section_kind_seq()[13]) == 13);
    assert(section_rank(section_kind_seq()[14]) == 14);
}

/// Whether the module's items hold one that the section of `kind` prints: selected,
/// not printed before, and of that kind.
pub open spec fn section_pending(k: &Crate, sel: Set<Id>, printed: Map<Id, String>, items: Seq<Id>, kind: ItemKind) -> bool {
    exists|i: int| 0 <= i < items.len() && #[trigger] sel.contains(items[i]) && !printed.contains_key(items[i])
        && kind_of_id(k, items[i]) == Some(kind)
}

/// Whether a module lists an item printed elsewhere among its re-exports: any item but
/// an impl, a `use`, a field, a variant, an associated item or a module.
pub open spec fn listed_elsewhere(item: Item) -> bool {
    !(item.inner is Impl || item.inner is Use || item.inner is StructField || item.inner is Variant
        || item.inner is AssocConst || item.inner is AssocType || item.inner is Module)
}

/// Whether the module's items hold one printed before that its re-exports list.
pub open spec fn reexports_pending(k: &Crate, sel: Set<Id>, printed: Map<Id, String>, items: Seq<Id>) -> bool {
    exists|i: int| 0 <= i < items.len() && #[trigger] sel.contains(items[i]) && printed.contains_key(items[i])
        && k.index_map().contains_key(items[i]) && listed_elsewhere(k.index_map()[items[i]])
}

/// Whether one of the first `q` pairs puts `x` under section `k`.
pub open spec fn grouped_under(grouped: Seq<(usize, Id)>, k: usize, q: int, x: Id) -> bool {
    exists|r: int| 0 <= r < q && grouped[r].0 == k && grouped[r].1 == x
}

/// Whether a selected impl among `ids` is in the crate: the implementors section is
/// printed then.
pub open spec fn implementor_pending(k: &Crate, sel: Set<Id>, ids: Seq<Id>) -> bool {
    exists|j: int| 0 <= j < ids.len() && #[trigger] sel.contains(ids[j]) && k.index_map().contains_key(ids[j])
        && k.index_map()[ids[j]].inner is Impl
}

/// A part of a module's contents: nothing where nothing is pending, else starting with
/// the header of its title under `dp`, followed by `tail`.
pub open spec fn titled_part(part: Seq<char>, pending: bool, dp: Seq<usize>, title: Seq<char>, tail: Seq<char>) -> bool {
    if pending {
        header_line(dp, "\n"@, title, tail).is_prefix_of(part)
    } else {
        part.len() == 0
    }
}

/// What printing a module's contents adds to the output `before`, giving `after`: a
/// part for each kind of section, in the order of `section_kind_seq`, then the part
/// listing the items printed elsewhere; each part numbered at the level of `dp`.
pub open spec fn module_contents_shape(
    k: &Crate,
    sel: Set<Id>,
    printed: Map<Id, String>,
    items: Seq<Id>,
    dp: Seq<usize>,
    before: Seq<char>,
    after: Seq<char>,
    parts: Seq<Seq<char>>,
    dps: Seq<Seq<usize>>,
) -> bool {
    &&& parts.len() == 16
    &&& dps.len() == 16
    &&& after == before + crate::dump::concat(parts)
    &&& forall|q: int| 0 <= q < 16 ==> same_level(dp, #[trigger] dps[q])
    &&& forall|q: int| 0 <= q < 15 ==> titled_part(#[trigger] parts[q], section_pending(k, sel, printed, items, section_kind_seq()[q]),
        dps[q], section_title_seq()[q], "\n"@)
    &&& titled_part(parts[15], reexports_pending(k, sel, printed, items), dps[15], "Re-exports"@, "\n\n"@)
}

/// Whether an item of the module gets into one of its sections, here or where it
/// was printed before: it qualifies and its kind has a section.
pub open spec fn in_some_section(k: &Crate, sel: Set<Id>, id: Id) -> bool {
    qualifies(k, sel, id) && section_kind_seq().contains(kind_of(k.index_map()[id]))
}

/// The header level of the current section: one more than the depth of the path.
pub open spec fn header_level(dp: Seq<usize>) -> int {
    dp.len() + 1int
}

/// The number shown before a header: nothing at the top level; the last number at
/// the second level (`3:`); all numbers joined by dots below it (`3.1.2:`).
pub open spec fn header_prefix_text(dp: Seq<usize>) -> Seq<char> {
    if dp.len() == 0 {
        Seq::empty()
    } else if dp.len() == 1 {
        decimal(dp.last() as nat) + ":"@
    } else {
        join(path_numbers(dp), "."@) + ":"@
    }
}

/// The kind of an item, from what it is.
pub open spec fn kind_of(item: Item) -> ItemKind {
    match item.inner {
        ItemEnum::Module(_) => ItemKind::Module,
        ItemEnum::ExternCrate { .. } => ItemKind::ExternCrate,
        ItemEnum::Use(_) => ItemKind::Use,
        ItemEnum::Union(_) => ItemKind::Union,
        ItemEnum::Struct(_) => ItemKind::Struct,
        ItemEnum::StructField(_) => ItemKind::StructField,
        ItemEnum::Enum(_) => ItemKind::Enum,
        ItemEnum::Variant(_) => ItemKind::Variant,
        ItemEnum::Function(_) => ItemKind::Function,
        ItemEnum::Trait(_) => ItemKind::Trait,
        ItemEnum::TraitAlias(_) => ItemKind::TraitAlias,
        ItemEnum::Impl(_) => ItemKind::Impl,
        ItemEnum::TypeAlias(_) => ItemKind::TypeAlias,
        ItemEnum::Constant { .. } => ItemKind::Constant,
        ItemEnum::Static(_) => ItemKind::Static,
        ItemEnum::ExternType => ItemKind::ExternType,
        ItemEnum::Macro(_) => ItemKind::Macro,
        ItemEnum::ProcMacro(pm) => match pm.kind {
            MacroKind::Bang => ItemKind::Macro,
            MacroKind::Attr => ItemKind::ProcAttribute,
            MacroKind::Derive => ItemKind::ProcDerive,
        },
        ItemEnum::Primitive(_) => ItemKind::Primitive,
        ItemEnum::AssocConst { .. } => ItemKind::AssocConst,
        ItemEnum::AssocType { .. } => ItemKind::AssocType,
    }
}

/// The kind of the item with id `id`: from the item where the crate has it, else
/// from its path summary.
pub open spec fn kind_of_id(k: &Crate, id: Id) -> Option<ItemKind> {
    if k.index_map().contains_key(id) {
        Some(kind_of(k.index_map()[id]))
    } else if k.paths_map().contains_key(id) {
        Some(k.paths_map()[id].kind)
    } else {
        None
    }
}

/// The kind of an item, from what it is: see `kind_of`.
pub fn infer_item_kind(item: &Item) -> (res: ItemKind)
    ensures
        res == kind_of(*item),
{
    match &item.inner {
        ItemEnum::Module(_) => ItemKind::Module,
        ItemEnum::ExternCrate { .. } => ItemKind::ExternCrate,
        ItemEnum::Use(_) => ItemKind::Use,
        ItemEnum::Union(_) => ItemKind::Union,
        ItemEnum::Struct(_) => ItemKind::Struct,
        ItemEnum::StructField(_) => ItemKind::StructField,
        ItemEnum::Enum(_) => ItemKind::Enum,
        ItemEnum::Variant(_) => ItemKind::Variant,
        ItemEnum::Function(_) => ItemKind::Function,
        ItemEnum::Trait(_) => ItemKind::Trait,
        ItemEnum::TraitAlias(_) => ItemKind::TraitAlias,
        ItemEnum::Impl(_) => ItemKind::Impl,
        ItemEnum::TypeAlias(_) => ItemKind::TypeAlias,
        ItemEnum::Constant { .. } => ItemKind::Constant,
        ItemEnum::Static(_) => ItemKind::Static,
        ItemEnum::ExternType => ItemKind::ExternType,
        ItemEnum::Macro(_) => ItemKind::Macro,
        ItemEnum::ProcMacro(pm) => match pm.kind {
            MacroKind::Bang => ItemKind::Macro,
            MacroKind::Attr => ItemKind::ProcAttribute,
            MacroKind::Derive => ItemKind::ProcDerive,
        },
        ItemEnum::Primitive(_) => ItemKind::Primitive,
        ItemEnum::AssocConst { .. } => ItemKind::AssocConst,
        ItemEnum::AssocType { .. } => ItemKind::AssocType,
    }
}

/// The header prefix for a documentation path: see `header_prefix_text`.
pub fn header_prefix(dp: &Vec<usize>) -> (res: String)
    ensures
        res@ == header_prefix_text(dp@),
{
    if dp.len() == 0 {
        String::new()
    } else if dp.len() == 1 {
        let mut s = crate::text::decimal_string(dp[0]);
        s.append(":");
        s
    } else {
        let nums = crate::traits::path_number_strings(dp);
        let mut s = join_strings(&nums, ".");
        s.append(":");
        s
    }
}

/// A copy of each string.
fn copy_string_slice(v: &[String]) -> (res: Vec<String>)
    ensures
        views(res@) == views(v@),
{
    let mut res: Vec<String> = Vec::new();
    let n = v.len();
    for i in 0..n
        invariant
            n == v@.len(),
            res@.len() == i,
            forall|j: int| 0 <= j < i ==> (#[trigger] res@[j])@ == v@[j]@,
    {
        res.push(v[i].clone());
    }
    assert(views(res@) =~= views(v@));
    res
}

/// The header line of an impl block: the `#`s of the level, the section number, and
/// the impl's declaration, trimmed, in backticks.
fn impl_header_line(level: usize, prefix: &String, imp: &crate::model::Impl, krate: &Crate) -> (res: String)
    ensures
        exists|i: int, j: int| #![auto] crate::markdown::trimmed(crate::impls::impl_decl_text(krate, *imp), i, j)
            && res@ == crate::text::repeated('#', level as nat) + " "@ + prefix@ + " `"@
            + crate::impls::impl_decl_text(krate, *imp).subrange(i, j) + "`\n\n"@,
{
    let impl_header = crate::impls::format_impl_decl(imp, krate);
    let mut line = crate::text::repeat_char('#', level);
    line.append(" ");
    line.append(prefix.as_str());
    line.append(" `");
    let trimmed = crate::markdown::trim_white_space(impl_header.as_str());
    line.append(trimmed.as_str());
    line.append("`\n\n");
    proof {
        let (i, j) = choose|i: int, j: int| crate::markdown::trimmed(impl_header@, i, j) && trimmed@ == impl_header@.subrange(i, j);
        assert(line@ =~= crate::text::repeated('#', level as nat) + " "@ + prefix@ + " `"@
            + crate::impls::impl_decl_text(krate, *imp).subrange(i, j) + "`\n\n"@);
    }
    line
}

/// The kinds of a module's sections, in the order they are printed, with their titles.
fn section_kinds() -> (res: Vec<(ItemKind, &'static str)>)
    ensures
        res@.len() == 15,
        forall|i: int| 0 <= i < 15 ==> #[trigger] res@[i].0 == section_kind_seq()[i],
        forall|i: int| 0 <= i < 15 ==> #[trigger] res@[i].1@ == section_title_seq()[i],
{
    let mut v: Vec<(ItemKind, &'static str)> = Vec::new();
    v.push((ItemKind::Macro, "Macros"));
    v.push((ItemKind::ProcAttribute, "Attribute Macros"));
    v.push((ItemKind::ProcDerive, "Derive Macros"));
    v.push((ItemKind::Struct, "Structs"));
    v.push((ItemKind::Enum, "Enums"));
    v.push((ItemKind::Union, "Unions"));
    v.push((ItemKind::Trait, "Traits"));
    v.push((ItemKind::Function, "Functions"));
    v.push((ItemKind::TypeAlias, "Type Aliases"));
    v.push((ItemKind::TraitAlias, "Trait Aliases"));
    v.push((ItemKind::Static, "Statics"));
    v.push((ItemKind::Constant, "Constants"));
    v.push((ItemKind::ExternCrate, "External Crates"));
    v.push((ItemKind::ExternType, "External Types"));
    v.push((ItemKind::Primitive, "Primitives"));
    proof {
        reveal_strlit("Macros");
        reveal_strlit("Attribute Macros");
        reveal_strlit("Derive Macros");
        reveal_strlit("Structs");
        reveal_strlit("Enums");
        reveal_strlit("Unions");
        reveal_strlit("Traits");
        reveal_strlit("Functions");
        reveal_strlit("Type Aliases");
        reveal_strlit("Trait Aliases");
        reveal_strlit("Statics");
        reveal_strlit("Constants");
        reveal_strlit("External Crates");
        reveal_strlit("External Types");
        reveal_strlit("Primitives");
        assert forall|i: int| 0 <= i < 15 implies #[trigger] v@[i].1@ == section_title_seq()[i] by {
            if i == 0 {
                assert(v@[0].1@ == "Macros"@);
            }
            if i == 1 {
                assert(v@[1].1@ == "Attribute Macros"@);
            }
            if i == 2 {
                assert(v@[2].1@ == "Derive Macros"@);
            }
            if i == 3 {
                assert(v@[3].1@ == "Structs"@);
            }
            if i == 4 {
                assert(v@[4].1@ == "Enums"@);
            }
            if i == 5 {
                assert(v@[5].1@ == "Unions"@);
            }
            if i == 6 {
                assert(v@[6].1@ == "Traits"@);
            }
            if i == 7 {
                assert(v@[7].1@ == "Functions"@);
            }
            if i == 8 {
                assert(v@[8].1@ == "Type Aliases"@);
            }
            if i == 9 {
                assert(v@[9].1@ == "Trait Aliases"@);
            }
            if i == 10 {
                assert(v@[10].1@ == "Statics"@);
            }
            if i == 11 {
                assert(v@[11].1@ == "Constants"@);
            }
            if i == 12 {
                assert(v@[12].1@ == "External Crates"@);
            }
            if i == 13 {
                assert(v@[13].1@ == "External Types"@);
            }
            if i == 14 {
                assert(v@[14].1@ == "Primitives"@);
            }
        }
    }
    v
}

/// What grouping reads of a normalized trait impl: `f` can be the normalized form of
/// `imp` for trait `tp` (see `FormattedTraitImpl::from_impl`).
pub open spec fn normal_form(k: &Crate, imp: crate::model::Impl, tp: crate::model::Path, f: FormattedTraitImpl) -> bool {
    &&& f.trait_id == tp.id
    &&& crate::impls::generics_for_args(k, tp.args, f.trait_generics)
    &&& f.is_unsafe_impl == imp.is_unsafe
    &&& f.is_negative == imp.is_negative
    &&& f.category == crate::traits::category_of(k, imp, tp)
}

/// Whether item `x` is a trait impl for one of the `types` that normalizes to `e`, or
/// to one the same as `e`.
pub open spec fn counts_toward(k: &Crate, types: Set<Id>, x: Id, e: FormattedTraitImpl) -> bool {
    k.index_map().contains_key(x) && match k.index_map()[x].inner {
        ItemEnum::Impl(imp) => match imp.trait_ {
            Some(tp) => crate::deps::type_id_of(imp.for_) matches Some(t) && types.contains(t)
                && exists|f: FormattedTraitImpl| #[trigger] normal_form(k, imp, tp, f)
                && (f == e || crate::traits::same_trait_impl(e, f)),
            None => false,
        },
        _ => false,
    }
}

/// How many of the items `ids` count toward `e` for the `types`.
pub open spec fn support(k: &Crate, types: Set<Id>, ids: Seq<Id>, e: FormattedTraitImpl) -> nat
    decreases ids.len(),
{
    if ids.len() == 0 {
        0
    } else {
        support(k, types, ids.drop_last(), e) + (if counts_toward(k, types, ids.last(), e) { 1nat } else { 0nat })
    }
}

/// Whether `e` is the same as a normalized impl that at least `threshold` of the
/// items `ids` count toward for the `types`.
pub open spec fn backed(k: &Crate, types: Set<Id>, ids: Seq<Id>, e: FormattedTraitImpl, threshold: nat) -> bool {
    exists|c: FormattedTraitImpl| #[trigger] support(k, types, ids, c) >= threshold && crate::traits::same_trait_impl(e, c)
}

/// The types of a module that its own common traits are counted over: its selected
/// structs, enums, unions and primitives that some impl is for.
pub open spec fn module_type(k: &Crate, sel: Set<Id>, items: Seq<Id>, x: Id) -> bool {
    &&& items.contains(x)
    &&& k.index_map().contains_key(x)
    &&& (k.index_map()[x].inner is Struct || k.index_map()[x].inner is Enum || k.index_map()[x].inner is Union
        || k.index_map()[x].inner is Primitive)
    &&& sel.contains(x)
    &&& exists|j: int| 0 <= j < k.id_seq().len() && #[trigger] impl_for(k, k.id_seq()[j], x)
}

/// The set of a module's types: see `module_type`.
pub open spec fn module_types(k: &Crate, sel: Set<Id>, items: Seq<Id>) -> Set<Id> {
    Set::new(|x: Id| module_type(k, sel, items, x))
}

proof fn lemma_support_step(k: &Crate, types: Set<Id>, ids: Seq<Id>, i: int, e: FormattedTraitImpl)
    requires
        0 <= i < ids.len(),
    ensures
        support(k, types, ids.take(i + 1), e) == support(k, types, ids.take(i), e) + (if counts_toward(k, types, ids[i], e) { 1nat } else { 0nat }),
{
    assert(ids.take(i + 1).drop_last() =~= ids.take(i));
    assert(ids.take(i + 1).last() == ids[i]);
}

/// Half of `n`, rounded up: the share of types that makes a trait common.
pub fn common_threshold(n: usize) -> (res: usize)
    ensures
        res == (n + 1) / 2,
{
    n / 2 + n % 2
}

/// Counts one more normalized impl: the first entry the same as it counts one
/// more, or it is added with a count of one.
fn count_trait_impl(counts: &mut Vec<(FormattedTraitImpl, usize)>, norm: FormattedTraitImpl, bound: usize)
    requires
        bound >= 1,
        forall|j: int| 0 <= j < old(counts)@.len() ==> (#[trigger] old(counts)@[j]).1 < bound,
    ensures
        forall|j: int| 0 <= j < final(counts)@.len() ==> (#[trigger] final(counts)@[j]).1 <= bound,
        old(counts)@.len() <= final(counts)@.len(),
        forall|j: int| 0 <= j < old(counts)@.len() ==> (#[trigger] final(counts)@[j]).0 == old(counts)@[j].0,
        forall|j: int| old(counts)@.len() <= j < final(counts)@.len() ==> (#[trigger] final(counts)@[j]).0 == norm,
        (exists|j: int| 0 <= j < old(counts)@.len() && crate::traits::same_trait_impl(#[trigger] old(counts)@[j].0, norm))
            ==> exists|j: int| 0 <= j < old(counts)@.len() && crate::traits::same_trait_impl(#[trigger] old(counts)@[j].0, norm)
            && (forall|q: int| 0 <= q < j ==> !crate::traits::same_trait_impl(#[trigger] old(counts)@[q].0, norm))
            && final(counts)@ == old(counts)@.update(j, (old(counts)@[j].0, (old(counts)@[j].1 + 1) as usize)),
        !(exists|j: int| 0 <= j < old(counts)@.len() && crate::traits::same_trait_impl(#[trigger] old(counts)@[j].0, norm))
            ==> final(counts)@ == old(counts)@.push((norm, 1usize)),
{
    let n = counts.len();
    let mut found: Option<usize> = None;
    for j in 0..n
        invariant
            n == counts@.len(),
            found matches Some(q) ==> q < j && crate::traits::same_trait_impl(counts@[q as int].0, norm)
                && forall|r: int| 0 <= r < q ==> !crate::traits::same_trait_impl(#[trigger] counts@[r].0, norm),
            found is None ==> forall|r: int| 0 <= r < j ==> !crate::traits::same_trait_impl(#[trigger] counts@[r].0, norm),
    {
        if found.is_none() && counts[j].0.eq(&norm) {
            found = Some(j);
        }
    }
    let ghost c0 = counts@;
    match found {
        Some(j) => {
            let c = counts[j].1;
            let entry = counts.remove(j);
            let (key, _) = entry;
            counts.insert(j, (key, c + 1));
            assert forall|q: int| 0 <= q < counts@.len() implies (#[trigger] counts@[q]).0 == c0[q].0 && counts@[q].1 <= bound by {
                if q != j {
                    assert(counts@[q] == c0[q]);
                }
            }
            assert(counts@ =~= c0.update(j as int, (c0[j as int].0, (c0[j as int].1 + 1) as usize)));
        },
        None => {
            counts.push((norm, 1));
        },
    }
}

/// The first line of the document: the crate's name and version.
pub open spec fn crate_header_text(k: &Crate) -> Seq<char> {
    "# "@ + (match k.index_map()[k.root_id()].name {
        Some(n) => n@,
        None => "Unknown Crate"@,
    }) + " API ("@ + (match k.version() {
        Some(v) => v@,
        None => Seq::empty(),
    }) + ")\n\n"@
}

/// A copy of each string.
fn copy_string_vec(v: &Vec<String>) -> (res: Vec<String>)
    ensures
        views(res@) == views(v@),
{
    copy_string_slice(v.as_slice())
}

/// Each string as a sort key of its own.
pub open spec fn string_keys(v: Seq<Seq<char>>) -> Seq<Seq<Seq<char>>> {
    v.map_values(|s: Seq<char>| seq![s])
}

/// The strings sorted.
fn sorted_strings(v: &Vec<String>) -> (res: Vec<String>)
    ensures
        res@.len() == v@.len(),
        arranged(views(v@), string_keys(views(v@)), views(res@)),
{
    let copied = copy_string_vec(v);
    assert(views(copied@).len() == copied@.len());
    assert(views(v@).len() == v@.len());
    let keys = crate::order::single_keys(copied);
    let indices = missing_indices(v.len());
    let order = crate::order::sort_by_keys(&indices, &keys);
    proof {
        assert forall|r: int| 0 <= r < order@.len() implies (#[trigger] order@[r]) < v@.len() by {
            assert(indices@.contains(order@[r]));
            let j = choose|j: int| 0 <= j < indices@.len() && indices@[j] == order@[r];
        }
    }
    let mut res: Vec<String> = Vec::new();
    let n = order.len();
    for i in 0..n
        invariant
            n == order@.len(),
            forall|r: int| 0 <= r < n ==> (#[trigger] order@[r]) < v@.len(),
            res@.len() == i,
            forall|r: int| 0 <= r < i ==> (#[trigger] res@[r])@ == v@[order@[r] as int]@,
    {
        res.push(v[order[i]].clone());
    }
    proof {
        assert(crate::order::key_views(keys@) =~= string_keys(views(v@))) by {
            assert forall|i: int| 0 <= i < keys@.len() implies #[trigger] crate::order::key_views(keys@)[i] == string_keys(views(v@))[i] by {
                assert(crate::order::key_views(keys@)[i] == seq![copied@[i]@]);
                assert(views(copied@)[i] == views(v@)[i]);
            }
        }
        let o = choose|o: Seq<usize>| #[trigger] crate::order::stably_sorted(crate::order::key_views(keys@), o)
            && order@ =~= o.map_values(|j: usize| indices@[j as int]);
        assert(views(res@) =~= o.map_values(|j: usize| views(v@)[j as int])) by {
            assert forall|r: int| 0 <= r < res@.len() implies views(res@)[r] == o.map_values(|j: usize| views(v@)[j as int])[r] by {
                assert(order@[r] == indices@[o[r] as int]);
                assert(o[r] < indices@.len());
                assert(indices@[o[r] as int] == o[r]);
            }
        }
    }
    res
}

/// The lines of the manifest section: see `manifest_lines`.
fn manifest_text(md: &CrateManifestData) -> (res: String)
    ensures
        res@ == manifest_lines(*md),
{
    let mut text = optional_line_text(&md.homepage, "- Homepage: <", ">\n");
    let repo = optional_line_text(&md.repository, "- Repository: <", ">\n");
    text.append(repo.as_str());
    let ghost t2 = text@;
    if md.categories.len() > 0 {
        text.append("- Categories: ");
        let cats = join_strings(&md.categories, ", ");
        text.append(cats.as_str());
        text.append("\n");
    }
    proof {
        reveal_strlit("");
        assert(text@ =~= t2 + (if md.categories@.len() > 0 {
            "- Categories: "@ + join(views(md.categories@), ", "@) + "\n"@
        } else {
            Seq::empty()
        }));
    }
    let lic = optional_line_text(&md.license, "- License: ", "\n");
    text.append(lic.as_str());
    let rv = optional_line_text(&md.rust_version, "- rust-version: `", "`\n");
    text.append(rv.as_str());
    let ed = optional_line_text(&md.edition, "- edition: `", "`\n");
    text.append(ed.as_str());
    text.append("\n");
    assert(text@ =~= manifest_lines(*md));
    text
}

/// A line for a value that may be missing: see `optional_line`.
fn optional_line_text(value: &Option<String>, before: &str, after: &str) -> (res: String)
    ensures
        res@ == optional_line(*value, before@, after@),
{
    let mut t = String::new();
    if let Some(v) = value {
        t.append(before);
        t.append(v.as_str());
        t.append(after);
        assert(t@ =~= before@ + v@ + after@);
    }
    proof {
        reveal_strlit("");
    }
    t
}

/// The list of feature names, sorted, or `- None`; then a blank line.
fn feature_list_text(names: &Vec<String>) -> (res: String)
    ensures
        exists|sorted: Seq<Seq<char>>| {
            &&& (names@.len() == 0 ==> sorted.len() == 0)
            &&& arranged(views(names@), string_keys(views(names@)), sorted)
            &&& res@ == (if sorted.len() == 0 { "- None\n"@ } else { feature_items(sorted) }) + "\n"@
        },
{
    let mut features = String::new();
    let ghost mut sorted_views: Seq<Seq<char>> = Seq::empty();
    if names.len() == 0 {
        features.append("- None\n");
        proof {
            let e: Seq<usize> = Seq::empty();
            let fs = views(names@);
            assert(crate::order::stably_sorted(string_keys(fs), e));
            assert(sorted_views =~= e.map_values(|j: usize| fs[j as int]));
        }
    } else {
        let sorted = sorted_strings(names);
        proof {
            sorted_views = views(sorted@);
        }
        let n = sorted.len();
        for i in 0..n
            invariant
                n == sorted@.len(),
                features@ == feature_items(views(sorted@).take(i as int)),
        {
            proof {
                assert(views(sorted@).take(i + 1).drop_last() =~= views(sorted@).take(i as int));
            }
            features.append("- `");
            features.append(sorted[i].as_str());
            features.append("`\n");
            assert(features@ =~= feature_items(views(sorted@).take(i + 1)));
        }
        assert(views(sorted@).take(n as int) =~= views(sorted@));
        assert(sorted_views.len() == names@.len());
    }
    features.append("\n");
    proof {
    assert(arranged(views(names@), string_keys(views(names@)), sorted_views));
    assert(names@.len() == 0 ==> sorted_views.len() == 0);
    reveal_strlit("");
    assert(features@ =~= (if sorted_views.len() == 0 { "- None\n"@ } else { feature_items(sorted_views) }) + "\n"@);
    }
    features
}

/// Where an item's source starts, counting lines and columns from one: `file:line:column`.
fn source_position(sp: &crate::model::Span) -> (res: String)
    requires
        sp.begin_line < usize::MAX,
        sp.begin_column < usize::MAX,
    ensures
        res@ == sp.filename@ + ":"@ + decimal((sp.begin_line + 1) as nat) + ":"@ + decimal((sp.begin_column + 1) as nat),
{
    let mut t = sp.filename.clone();
    t.append(":");
    let l = crate::text::decimal_string(sp.begin_line + 1);
    t.append(l.as_str());
    t.append(":");
    let c = crate::text::decimal_string(sp.begin_column + 1);
    t.append(c.as_str());
    assert(t@ =~= sp.filename@ + ":"@ + decimal((sp.begin_line + 1) as nat) + ":"@ + decimal((sp.begin_column + 1) as nat));
    t
}

/// The indices below `n`, in order.
fn missing_indices(n: usize) -> (res: Vec<usize>)
    ensures
        res@.len() == n,
        forall|i: int| 0 <= i < n ==> #[trigger] res@[i] == i,
{
    let mut res: Vec<usize> = Vec::new();
    for i in 0..n
        invariant
            res@.len() == i,
            forall|j: int| 0 <= j < i ==> #[trigger] res@[j] == j,
    {
        res.push(i);
    }
    res
}

impl<'a> Printer<'a> {
    /// The crate being documented.
    pub closed spec fn krate_spec(&self) -> &'a Crate {
        self.krate
    }

    /// The manifest data shown.
    pub closed spec fn manifest_spec(&self) -> CrateManifestData {
        self.manifest_data
    }

    /// How the printer is configured.
    pub closed spec fn options_spec(&self) -> PrinterOptions {
        self.options
    }

    /// The current documentation path.
    pub closed spec fn doc_path_spec(&self) -> Seq<usize> {
        self.doc_path@
    }

    /// A printer for the crate with the given manifest data and default options.
    pub fn new(manifest_data: CrateManifestData, krate: &'a Crate) -> (res: Self)
        requires
            krate.wf(),
        ensures
            res.krate_spec() == krate,
            res.manifest_spec() == manifest_data,
            res.options_spec().paths@.len() == 0,
            res.options_spec().readme_content is None,
            res.options_spec().examples_readme_content is None,
            res.options_spec().examples@.len() == 0,
            !res.options_spec().include_other,
            !res.options_spec().template_mode,
            !res.options_spec().no_common_traits,
            res.doc_path_spec().len() == 0,
    {
        Printer {
            krate,
            manifest_data,
            options: PrinterOptions {
                paths: Vec::new(),
                readme_content: None,
                examples_readme_content: None,
                examples: Vec::new(),
                include_other: false,
                template_mode: false,
                no_common_traits: false,
            },
            selected_ids: HashSet::new(),
            resolved_modules: HashMap::new(),
            graph: IdGraph::new(),
            printed_ids: HashMap::new(),
            output: String::new(),
            module_tree: Self::build_module_tree(krate),
            doc_path: Vec::new(),
            current_module_path: Vec::new(),
            crate_common_traits: Vec::new(),
            all_type_ids_with_impls: HashSet::new(),
            module_common_traits: HashMap::new(),
        }
    }

    /// The printer with all fields but its options the same as `other`'s.
    pub closed spec fn same_but_options(&self, other: &Self) -> bool {
        &&& self.krate == other.krate
        &&& self.manifest_data == other.manifest_data
        &&& self.selected_ids == other.selected_ids
        &&& self.resolved_modules == other.resolved_modules
        &&& self.graph == other.graph
        &&& self.printed_ids == other.printed_ids
        &&& self.output == other.output
        &&& self.module_tree == other.module_tree
        &&& self.doc_path == other.doc_path
        &&& self.current_module_path == other.current_module_path
        &&& self.crate_common_traits == other.crate_common_traits
        &&& self.all_type_ids_with_impls == other.all_type_ids_with_impls
        &&& self.module_common_traits == other.module_common_traits
    }

    /// Sets the item path filters: the items they match, with what those depend on,
    /// are documented; with none, every item is.
    pub fn paths(self, paths: &[String]) -> (res: Self)
        ensures
            res.same_but_options(&self),
            views(res.options_spec().paths@) == views(paths@),
            res.options_spec().readme_content == self.options_spec().readme_content,
            res.options_spec().examples_readme_content == self.options_spec().examples_readme_content,
            res.options_spec().examples == self.options_spec().examples,
            res.options_spec().include_other == self.options_spec().include_other,
            res.options_spec().template_mode == self.options_spec().template_mode,
            res.options_spec().no_common_traits == self.options_spec().no_common_traits,
    {
        let mut p = self;
        p.options.paths = copy_string_slice(paths);
        p
    }

    /// Adds README content, shown after the manifest details.
    pub fn readme(self, content: String) -> (res: Self)
        ensures
            res.same_but_options(&self),
            res.options_spec().paths == self.options_spec().paths,
            res.options_spec().readme_content == Some(content),
            res.options_spec().examples_readme_content == self.options_spec().examples_readme_content,
            res.options_spec().examples == self.options_spec().examples,
            res.options_spec().include_other == self.options_spec().include_other,
            res.options_spec().template_mode == self.options_spec().template_mode,
            res.options_spec().no_common_traits == self.options_spec().no_common_traits,
    {
        let mut p = self;
        p.options.readme_content = Some(content);
        p
    }

    /// Adds an example, by file name and content, to the examples appendix.
    pub fn example(self, name: String, content: String) -> (res: Self)
        ensures
            res.same_but_options(&self),
            res.options_spec().paths == self.options_spec().paths,
            res.options_spec().readme_content == self.options_spec().readme_content,
            res.options_spec().examples_readme_content == self.options_spec().examples_readme_content,
            res.options_spec().examples@ == self.options_spec().examples@.push((name, content)),
            res.options_spec().include_other == self.options_spec().include_other,
            res.options_spec().template_mode == self.options_spec().template_mode,
            res.options_spec().no_common_traits == self.options_spec().no_common_traits,
    {
        let mut p = self;
        p.options.examples.push((name, content));
        p
    }

    /// Adds the examples' README, shown before the examples.
    pub fn examples_readme(self, content: String) -> (res: Self)
        ensures
            res.same_but_options(&self),
            res.options_spec().paths == self.options_spec().paths,
            res.options_spec().readme_content == self.options_spec().readme_content,
            res.options_spec().examples_readme_content == Some(content),
            res.options_spec().examples == self.options_spec().examples,
            res.options_spec().include_other == self.options_spec().include_other,
            res.options_spec().template_mode == self.options_spec().template_mode,
            res.options_spec().no_common_traits == self.options_spec().no_common_traits,
    {
        let mut p = self;
        p.options.examples_readme_content = Some(content);
        p
    }

    /// Includes the items that fit no section in a final "Other" section.
    pub fn include_other(self) -> (res: Self)
        ensures
            res.same_but_options(&self),
            res.options_spec().paths == self.options_spec().paths,
            res.options_spec().readme_content == self.options_spec().readme_content,
            res.options_spec().examples_readme_content == self.options_spec().examples_readme_content,
            res.options_spec().examples == self.options_spec().examples,
            res.options_spec().include_other,
            res.options_spec().template_mode == self.options_spec().template_mode,
            res.options_spec().no_common_traits == self.options_spec().no_common_traits,
    {
        let mut p = self;
        p.options.include_other = true;
        p
    }

    /// Template mode: markers such as `{{MISSING_DOCS_1_2_1}}` stand where an item's
    /// documentation would be shown.
    pub fn template_mode(self) -> (res: Self)
        ensures
            res.same_but_options(&self),
            res.options_spec().paths == self.options_spec().paths,
            res.options_spec().readme_content == self.options_spec().readme_content,
            res.options_spec().examples_readme_content == self.options_spec().examples_readme_content,
            res.options_spec().examples == self.options_spec().examples,
            res.options_spec().include_other == self.options_spec().include_other,
            res.options_spec().template_mode,
            res.options_spec().no_common_traits == self.options_spec().no_common_traits,
    {
        let mut p = self;
        p.options.template_mode = true;
        p
    }

    /// Leaves out the "Common Traits" sections: every trait is listed with its type.
    pub fn no_common_traits(self) -> (res: Self)
        ensures
            res.same_but_options(&self),
            res.options_spec().paths == self.options_spec().paths,
            res.options_spec().readme_content == self.options_spec().readme_content,
            res.options_spec().examples_readme_content == self.options_spec().examples_readme_content,
            res.options_spec().examples == self.options_spec().examples,
            res.options_spec().include_other == self.options_spec().include_other,
            res.options_spec().template_mode == self.options_spec().template_mode,
            res.options_spec().no_common_traits,
    {
        let mut p = self;
        p.options.no_common_traits = true;
        p
    }

    /// The header level of the current section: see `header_level`.
    fn get_current_header_level(&self) -> (res: usize)
        requires
            self.doc_path@.len() < usize::MAX,
        ensures
            res == header_level(self.doc_path@),
    {
        self.doc_path.len() + 1
    }

    /// The number shown before the current header: see `header_prefix_text`.
    fn get_header_prefix(&self) -> (res: String)
        ensures
            res@ == header_prefix_text(self.doc_path@),
    {
        header_prefix(&self.doc_path)
    }

    /// The template marker for the current section: see `marker_text`.
    fn get_template_marker(&self) -> (res: String)
        ensures
            res@ == marker_text(self.doc_path@),
    {
        template_marker(&self.doc_path)
    }

    /// Moves to the next section at the current level; at the top, where the path is
    /// empty, nothing changes. The counter stops at `usize::MAX`.
    fn post_increment_current_level(&mut self)
        ensures
            final(self).doc_path@.len() == old(self).doc_path@.len(),
            old(self).doc_path@.len() > 0 ==> final(self).doc_path@ == old(self).doc_path@.update(
                old(self).doc_path@.len() - 1,
                if old(self).doc_path@.last() < usize::MAX {
                    (old(self).doc_path@.last() + 1) as usize
                } else {
                    usize::MAX
                },
            ),
            old(self).doc_path@.len() == 0 ==> final(self).doc_path@ == old(self).doc_path@,
            same_level(old(self).doc_path@, final(self).doc_path@),
            final(self).krate == old(self).krate,
            final(self).manifest_data == old(self).manifest_data,
            final(self).options == old(self).options,
            final(self).selected_ids == old(self).selected_ids,
            final(self).resolved_modules == old(self).resolved_modules,
            final(self).graph == old(self).graph,
            final(self).printed_ids == old(self).printed_ids,
            final(self).output == old(self).output,
            final(self).module_tree == old(self).module_tree,
            final(self).current_module_path == old(self).current_module_path,
            final(self).crate_common_traits == old(self).crate_common_traits,
            final(self).all_type_ids_with_impls == old(self).all_type_ids_with_impls,
            final(self).module_common_traits == old(self).module_common_traits,
    {
        let n = self.doc_path.len();
        if n > 0 {
            let last = self.doc_path[n - 1];
            let next = if last < usize::MAX {
                last + 1
            } else {
                usize::MAX
            };
            let ghost d0 = self.doc_path@;
            self.doc_path.set(n - 1, next);
            assert(self.doc_path@.drop_last() =~= d0.drop_last());
        }
    }

    /// Opens a level below the current one, numbered from one.
    fn push_level(&mut self)
        ensures
            final(self).doc_path@ == old(self).doc_path@.push(1),
            final(self).krate == old(self).krate,
            final(self).manifest_data == old(self).manifest_data,
            final(self).options == old(self).options,
            final(self).selected_ids == old(self).selected_ids,
            final(self).resolved_modules == old(self).resolved_modules,
            final(self).graph == old(self).graph,
            final(self).printed_ids == old(self).printed_ids,
            final(self).output == old(self).output,
            final(self).module_tree == old(self).module_tree,
            final(self).current_module_path == old(self).current_module_path,
            final(self).crate_common_traits == old(self).crate_common_traits,
            final(self).all_type_ids_with_impls == old(self).all_type_ids_with_impls,
            final(self).module_common_traits == old(self).module_common_traits,
    {
        self.doc_path.push(1);
    }

    /// Closes the innermost level; at the top nothing changes.
    fn pop_level(&mut self)
        ensures
            final(self).doc_path@ == (if old(self).doc_path@.len() > 0 {
                old(self).doc_path@.drop_last()
            } else {
                old(self).doc_path@
            }),
            final(self).krate == old(self).krate,
            final(self).manifest_data == old(self).manifest_data,
            final(self).options == old(self).options,
            final(self).selected_ids == old(self).selected_ids,
            final(self).resolved_modules == old(self).resolved_modules,
            final(self).graph == old(self).graph,
            final(self).printed_ids == old(self).printed_ids,
            final(self).output == old(self).output,
            final(self).module_tree == old(self).module_tree,
            final(self).current_module_path == old(self).current_module_path,
            final(self).crate_common_traits == old(self).crate_common_traits,
            final(self).all_type_ids_with_impls == old(self).all_type_ids_with_impls,
            final(self).module_common_traits == old(self).module_common_traits,
    {
        self.doc_path.pop();
    }

    /// Everything but the output, the printed items, the documentation path, the
    /// current module path and the module common traits is as in `o`.
    pub closed spec fn same_setup(&self, o: &Self) -> bool {
        &&& self.krate == o.krate
        &&& self.manifest_data == o.manifest_data
        &&& self.options == o.options
        &&& self.selected_ids == o.selected_ids
        &&& self.resolved_modules == o.resolved_modules
        &&& self.graph == o.graph
        &&& self.module_tree == o.module_tree
        &&& self.crate_common_traits == o.crate_common_traits
        &&& self.all_type_ids_with_impls == o.all_type_ids_with_impls
    }

    /// The output only grew, and the items printed before still count as printed,
    /// under the section number where they were first printed.
    pub closed spec fn grew_from(&self, o: &Self) -> bool {
        &&& o.output@.is_prefix_of(self.output@)
        &&& forall|id: Id| #[trigger] o.printed_ids@.contains_key(id) ==> self.printed_ids@.contains_key(id)
            && self.printed_ids@[id] == o.printed_ids@[id]
    }

    /// A step of printing within the current module: the setup kept, the output and
    /// the printed items grown, the module path and module common traits kept.
    pub closed spec fn stepped_from(&self, o: &Self) -> bool {
        &&& self.same_setup(o)
        &&& self.grew_from(o)
        &&& self.current_module_path == o.current_module_path
        &&& self.module_common_traits == o.module_common_traits
    }

    /// Appends text to the output.
    fn write(&mut self, text: &str)
        ensures
            final(self).output@ == old(self).output@ + text@,
            final(self).stepped_from(old(self)),
            final(self).printed_ids == old(self).printed_ids,
            final(self).doc_path@ == old(self).doc_path@,
    {
        self.output.append(text);
    }

    /// Records an item as printed under the given section number, unless it is recorded
    /// already: an item keeps the number of the section where it was first printed.
    fn mark_printed(&mut self, id: Id, prefix: String)
        ensures
            final(self).printed_ids@ == (if old(self).printed_ids@.contains_key(id) {
                old(self).printed_ids@
            } else {
                old(self).printed_ids@.insert(id, prefix)
            }),
            final(self).stepped_from(old(self)),
            final(self).output == old(self).output,
            final(self).doc_path@ == old(self).doc_path@,
    {
        if !self.printed_ids.contains_key(&id) {
            self.printed_ids.insert(id, prefix);
        }
    }

    /// Records an item as printed under the current section number.
    fn mark_printed_here(&mut self, id: Id)
        ensures
            final(self).printed_ids@.contains_key(id),
            !old(self).printed_ids@.contains_key(id) ==> final(self).printed_ids@[id]@ == header_prefix_text(old(self).doc_path@),
            final(self).printed_ids@.dom() == old(self).printed_ids@.dom().insert(id),
            final(self).stepped_from(old(self)),
            final(self).output == old(self).output,
            final(self).doc_path@ == old(self).doc_path@,
    {
        let p = self.get_header_prefix();
        self.mark_printed(id, p);
        assert(self.printed_ids@.dom() =~= old(self).printed_ids@.dom().insert(id));
    }

    /// Writes a header line: the `#`s of the current level, the section number and
    /// the title, then `tail`.
    fn write_header(&mut self, before: &str, title: &str, tail: &str)
        requires
            old(self).doc_path@.len() < usize::MAX,
        ensures
            final(self).output@ == old(self).output@ + header_line(old(self).doc_path@, before@, title@, tail@),
            final(self).stepped_from(old(self)),
            final(self).printed_ids == old(self).printed_ids,
            final(self).doc_path@ == old(self).doc_path@,
    {
        let level = self.get_current_header_level();
        let hashes = crate::text::repeat_char('#', level);
        let prefix = self.get_header_prefix();
        let mut line = String::from_str(before);
        line.append(hashes.as_str());
        line.append(" ");
        line.append(prefix.as_str());
        line.append(" ");
        line.append(title);
        line.append(tail);
        self.write(line.as_str());
    }

    /// The documentation of an item as `print_docs` writes it: see `docs_text_ok`.
    fn docs_text(&self, item: &Item) -> (res: String)
        requires
            self.doc_path@.len() < usize::MAX,
        ensures
            docs_text_ok(*item, self.options.template_mode, self.doc_path@, res@),
    {
        match &item.docs {
            Some(docs) => {
                if self.options.template_mode {
                    let mut t = self.get_template_marker();
                    t.append("\n\n");
                    t
                } else if crate::markdown::is_not_blank(docs.as_str()) {
                    let level = self.get_current_header_level();
                    let trimmed = crate::markdown::trim_white_space(docs.as_str());
                    let res = match crate::markdown::adjust_markdown_headers(trimmed.as_str(), level) {
                        Some(mut adjusted) => {
                            adjusted.append("\n\n");
                            adjusted
                        },
                        None => String::new(),
                    };
                    proof {
                        let (i, j) = choose|i: int, j: int| crate::markdown::trimmed(docs@, i, j) && trimmed@ == docs@.subrange(i, j);
                        assert(res@ == docs_markdown(docs@.subrange(i, j), header_level(self.doc_path@)));
                    }
                    res
                } else {
                    String::new()
                }
            },
            None => String::new(),
        }
    }

    /// Prints an item's documentation: see `docs_text_ok`.
    fn print_docs(&mut self, item: &Item)
        requires
            old(self).doc_path@.len() < usize::MAX,
        ensures
            exists|t: Seq<char>| #![auto] final(self).output@ == old(self).output@ + t
                && docs_text_ok(*item, old(self).options.template_mode, old(self).doc_path@, t),
            final(self).stepped_from(old(self)),
            final(self).printed_ids == old(self).printed_ids,
            final(self).doc_path@ == old(self).doc_path@,
    {
        let t = self.docs_text(item);
        self.write(t.as_str());
    }

    /// Whether an item has documentation to print: see `docs_printable`.
    fn docs_printable_exec(&self, item: &Item) -> (res: bool)
        ensures
            res == docs_printable(*item, self.options.template_mode),
    {
        (self.options.template_mode && item.docs.is_some()) || crate::markdown::has_docs(item)
    }

    /// Whether a selected field of the struct has documentation to print.
    fn has_documented_fields(&self, s: &crate::model::Struct) -> (res: bool)
        ensures
            res == exists|i: int| 0 <= i < struct_field_ids(s.kind).len() && {
                let f = #[trigger] struct_field_ids(s.kind)[i];
                self.selected_ids@.contains(f) && self.krate.index_map().contains_key(f) && docs_printable(
                    self.krate.index_map()[f],
                    self.options.template_mode,
                )
            },
    {
        let fields = struct_fields_of(&s.kind);
        let n = fields.len();
        for i in 0..n
            invariant
                n == fields@.len(),
                fields@ == struct_field_ids(s.kind),
                forall|j: int| 0 <= j < i ==> !{
                    let f = #[trigger] fields@[j];
                    self.selected_ids@.contains(f) && self.krate.index_map().contains_key(f) && docs_printable(
                        self.krate.index_map()[f],
                        self.options.template_mode,
                    )
                },
        {
            let f = fields[i];
            if self.selected_ids.contains(&f) {
                match self.krate.get(f) {
                    Some(item) => {
                        if self.docs_printable_exec(item) {
                            return true;
                        }
                    },
                    None => {},
                }
            }
        }
        false
    }

    /// Marks the selected fields that have nothing to print as printed, and tells
    /// whether a selected field with documentation to print is not printed yet.
    fn mark_plain_fields(&mut self, fields: &Vec<Id>) -> (res: bool)
        ensures
            final(self).stepped_from(old(self)),
            final(self).output == old(self).output,
            final(self).doc_path@ == old(self).doc_path@,
            forall|i: int| 0 <= i < fields@.len() && old(self).selected_ids@.contains(#[trigger] fields@[i])
                && !(old(self).krate.index_map().contains_key(fields@[i]) && docs_printable(
                    old(self).krate.index_map()[fields@[i]],
                    old(self).options.template_mode,
                )) ==> final(self).printed_ids@.contains_key(fields@[i]),
            !res ==> forall|i: int| 0 <= i < fields@.len() && old(self).selected_ids@.contains(#[trigger] fields@[i])
                && old(self).krate.index_map().contains_key(fields@[i]) && docs_printable(
                    old(self).krate.index_map()[fields@[i]],
                    old(self).options.template_mode,
                ) ==> final(self).printed_ids@.contains_key(fields@[i]),
    {
        let ghost s0 = *self;
        let mut has_printable_field = false;
        let krate = self.krate;
        let n = fields.len();
        for i in 0..n
            invariant
                n == fields@.len(),
                self.stepped_from(&s0),
                self.output == s0.output,
                self.doc_path@ == s0.doc_path@,
                self.krate == krate,
                forall|j: int| 0 <= j < i && s0.selected_ids@.contains(#[trigger] fields@[j])
                    && !(krate.index_map().contains_key(fields@[j]) && docs_printable(
                        krate.index_map()[fields@[j]],
                        s0.options.template_mode,
                    )) ==> self.printed_ids@.contains_key(fields@[j]),
                !has_printable_field ==> forall|j: int| 0 <= j < i && s0.selected_ids@.contains(#[trigger] fields@[j])
                    && krate.index_map().contains_key(fields@[j]) && docs_printable(
                        krate.index_map()[fields@[j]],
                        s0.options.template_mode,
                    ) ==> self.printed_ids@.contains_key(fields@[j]),
        {
            let ghost si = *self;
            let f = fields[i];
            if self.selected_ids.contains(&f) {
                match krate.get(f) {
                    Some(item) => {
                        if self.docs_printable_exec(item) {
                            if !self.printed_ids.contains_key(&f) {
                                has_printable_field = true;
                            }
                        } else {
                            self.mark_printed_here(f);
                        }
                    },
                    None => {
                        self.mark_printed_here(f);
                    },
                }
            }
            proof {
                assert(self.grew_from(&si));
                assert forall|j: int| 0 <= j < i + 1 && s0.selected_ids@.contains(#[trigger] fields@[j])
                    && !(krate.index_map().contains_key(fields@[j]) && docs_printable(
                        krate.index_map()[fields@[j]],
                        s0.options.template_mode,
                    )) implies self.printed_ids@.contains_key(fields@[j]) by {
                    if j < i {
                        assert(si.printed_ids@.contains_key(fields@[j]));
                    }
                }
                if !has_printable_field {
                    assert forall|j: int| 0 <= j < i + 1 && s0.selected_ids@.contains(#[trigger] fields@[j])
                        && krate.index_map().contains_key(fields@[j]) && docs_printable(
                            krate.index_map()[fields@[j]],
                            s0.options.template_mode,
                        ) implies self.printed_ids@.contains_key(fields@[j]) by {
                        if j < i {
                            assert(si.printed_ids@.contains_key(fields@[j]));
                        }
                    }
                }
            }
        }
        has_printable_field
    }

    /// Prints a struct or union field with documentation to print, unless it is not
    /// selected or already printed; tells whether it printed it.
    fn print_field_details(&mut self, field_id: Id) -> (res: bool)
        requires
            old(self).doc_path@.len() + 2 < usize::MAX,
        ensures
            final(self).stepped_from(old(self)),
            final(self).doc_path@ == old(self).doc_path@,
            res ==> final(self).printed_ids@.contains_key(field_id),
            res ==> !old(self).printed_ids@.contains_key(field_id) && old(self).selected_ids@.contains(field_id),
            !res ==> final(self).output@ == old(self).output@,
            old(self).selected_ids@.contains(field_id) && old(self).krate.index_map().contains_key(field_id)
                && docs_printable(old(self).krate.index_map()[field_id], old(self).options.template_mode)
                ==> final(self).printed_ids@.contains_key(field_id),
            res ==> exists|t: Seq<char>| #![auto] docs_text_ok(old(self).krate.index_map()[field_id], old(self).options.template_mode, old(self).doc_path@, t)
                && final(self).output@ == old(self).output@ + header_line(
                    old(self).doc_path@,
                    Seq::empty(),
                    "`"@ + crate::decl::name_or(old(self).krate.index_map()[field_id].name, "_"@) + "`"@,
                    "\n\n"@,
                ) + t,
    {
        if !self.selected_ids.contains(&field_id) || self.printed_ids.contains_key(&field_id) {
            return false;
        }
        let krate = self.krate;
        match krate.get(field_id) {
            Some(item) => {
                if !self.docs_printable_exec(item) {
                    return false;
                }
                self.mark_printed_here(field_id);
                if let ItemEnum::StructField(_) = &item.inner {
                    let name = match &item.name {
                        Some(n) => n.clone(),
                        None => String::from_str("_"),
                    };
                    let mut title = String::from_str("`");
                    title.append(name.as_str());
                    title.append("`");
                    proof {
                        reveal_strlit("");
                    }
                    let ghost o1 = self.output@;
                    self.write_header("", title.as_str(), "\n\n");
                    let ghost o2 = self.output@;
                    self.print_docs(item);
                    proof {
                        let t = choose|t: Seq<char>| #![auto] self.output@ == o2 + t && docs_text_ok(*item, self.options.template_mode, self.doc_path@, t);
                        assert(self.output@ =~= o1 + header_line(self.doc_path@, Seq::empty(), title@, "\n\n"@) + t);
                    }
                    return true;
                }
            },
            None => {},
        }
        self.mark_printed_here(field_id);
        false
    }

    /// Prints the "Fields" section of a struct when a selected field has
    /// documentation to print; the other selected fields are marked as printed.
    fn print_struct_fields(&mut self, s: &crate::model::Struct)
        requires
            old(self).doc_path@.len() + 4 < usize::MAX,
        ensures
            final(self).stepped_from(old(self)),
            same_level(old(self).doc_path@, final(self).doc_path@),
            selected_shown(old(self).selected_ids@, final(self).printed_ids@, struct_field_ids(s.kind)),
    {
        let all_field_ids = struct_fields_of(&s.kind);
        self.print_fields_section(&all_field_ids, false);
    }

    /// Prints the "Fields" section of a union when a selected field has documentation
    /// to print or some fields are hidden.
    fn print_union_fields(&mut self, u: &crate::model::Union)
        requires
            old(self).doc_path@.len() + 4 < usize::MAX,
        ensures
            final(self).stepped_from(old(self)),
            same_level(old(self).doc_path@, final(self).doc_path@),
            selected_shown(old(self).selected_ids@, final(self).printed_ids@, u.fields@),
    {
        self.print_fields_section(&u.fields, u.has_stripped_fields);
    }

    /// The "Fields" section shared by structs and unions.
    fn print_fields_section(&mut self, all_field_ids: &Vec<Id>, stripped: bool)
        requires
            old(self).doc_path@.len() + 4 < usize::MAX,
        ensures
            final(self).stepped_from(old(self)),
            same_level(old(self).doc_path@, final(self).doc_path@),
            selected_shown(old(self).selected_ids@, final(self).printed_ids@, all_field_ids@),
    {
        let ghost s_in = *self;
        let has_printable_field = self.mark_plain_fields(all_field_ids);
        if !has_printable_field && !stripped {
            proof {
                assert forall|i: int| 0 <= i < all_field_ids@.len() && s_in.selected_ids@.contains(#[trigger] all_field_ids@[i])
                    implies self.printed_ids@.contains_key(all_field_ids@[i]) by {
                }
            }
            return;
        }
        let ghost s0 = *self;
        self.write_header("", "Fields", "\n\n");
        self.push_level();
        let n = all_field_ids.len();
        for i in 0..n
            invariant
                n == all_field_ids@.len(),
                self.stepped_from(&s0),
                self.doc_path@.len() == s0.doc_path@.len() + 1,
                self.doc_path@.drop_last() == s0.doc_path@,
                s0.doc_path@.len() + 4 < usize::MAX,
                forall|j: int| 0 <= j < i && s0.selected_ids@.contains(#[trigger] all_field_ids@[j])
                    && s0.krate.index_map().contains_key(all_field_ids@[j]) && docs_printable(
                        s0.krate.index_map()[all_field_ids@[j]],
                        s0.options.template_mode,
                    ) ==> self.printed_ids@.contains_key(all_field_ids@[j]),
        {
            let ghost si = *self;
            if self.print_field_details(all_field_ids[i]) {
                self.post_increment_current_level();
            }
            proof {
                assert forall|j: int| 0 <= j < i + 1 && s0.selected_ids@.contains(#[trigger] all_field_ids@[j])
                    && s0.krate.index_map().contains_key(all_field_ids@[j]) && docs_printable(
                        s0.krate.index_map()[all_field_ids@[j]],
                        s0.options.template_mode,
                    ) implies self.printed_ids@.contains_key(all_field_ids@[j]) by {
                    if j < i {
                        assert(si.printed_ids@.contains_key(all_field_ids@[j]));
                    }
                }
            }
        }
        let ghost s_end = *self;
        if stripped {
            self.write("_[Private fields hidden]_\n");
        }
        self.pop_level();
        self.post_increment_current_level();
        proof {
            assert(self.grew_from(&s_end));
            assert(s_end.grew_from(&s0));
            assert forall|i: int| 0 <= i < all_field_ids@.len() && s_in.selected_ids@.contains(#[trigger] all_field_ids@[i])
                implies self.printed_ids@.contains_key(all_field_ids@[i]) by {
                if s0.krate.index_map().contains_key(all_field_ids@[i]) && docs_printable(
                    s0.krate.index_map()[all_field_ids@[i]],
                    s0.options.template_mode,
                ) {
                    assert(s_end.printed_ids@.contains_key(all_field_ids@[i]));
                } else {
                    assert(s0.printed_ids@.contains_key(all_field_ids@[i]));
                }
            }
        }
    }

    /// Prints a variant's field with documentation to print, unless it is not
    /// selected or already printed, and moves to the next section; tells whether it
    /// printed it.
    fn print_variant_field_details(&mut self, field_id: Id) -> (res: bool)
        requires
            old(self).doc_path@.len() + 2 < usize::MAX,
        ensures
            final(self).stepped_from(old(self)),
            same_level(old(self).doc_path@, final(self).doc_path@),
            res ==> final(self).printed_ids@.contains_key(field_id),
            res == (old(self).selected_ids@.contains(field_id) && !old(self).printed_ids@.contains_key(field_id)
                && old(self).krate.index_map().contains_key(field_id)
                && docs_printable(old(self).krate.index_map()[field_id], old(self).options.template_mode)
                && old(self).krate.index_map()[field_id].inner is StructField),
            !res ==> final(self).output == old(self).output && final(self).doc_path@ == old(self).doc_path@,
            res ==> exists|t: Seq<char>| #![auto] docs_text_ok(old(self).krate.index_map()[field_id], old(self).options.template_mode, old(self).doc_path@, t)
                && final(self).output@ == old(self).output@ + header_line(
                    old(self).doc_path@,
                    Seq::empty(),
                    variant_field_title(crate::decl::name_or(old(self).krate.index_map()[field_id].name, "_"@)),
                    "\n\n"@,
                ) + t,
            old(self).selected_ids@.contains(field_id) && !(old(self).krate.index_map().contains_key(field_id)
                && !docs_printable(old(self).krate.index_map()[field_id], old(self).options.template_mode))
                ==> final(self).printed_ids@.contains_key(field_id),
    {
        if !self.selected_ids.contains(&field_id) || self.printed_ids.contains_key(&field_id) {
            return false;
        }
        let krate = self.krate;
        match krate.get(field_id) {
            Some(item) => {
                if !self.docs_printable_exec(item) {
                    return false;
                }
                self.mark_printed_here(field_id);
                if let ItemEnum::StructField(_) = &item.inner {
                    let name = match &item.name {
                        Some(n) => n.clone(),
                        None => String::from_str("_"),
                    };
                    let underscore = String::from_str("_");
                    let numbered = name == underscore || is_all_ascii_digits(name.as_str());
                    let mut title = String::from_str("`");
                    if numbered {
                        title.append("Field ");
                    }
                    title.append(name.as_str());
                    title.append("`");
                    proof {
                        reveal_strlit("");
                        assert(name@ == crate::decl::name_or(item.name, "_"@));
                        assert(numbered == (name@ == "_"@ || all_ascii_digits(name@)));
                        if numbered {
                            reveal_strlit("`");
                            reveal_strlit("Field ");
                            reveal_strlit("`Field ");
                            assert(title@ =~= "`Field "@ + name@ + "`"@);
                        } else {
                            assert(title@ =~= "`"@ + name@ + "`"@);
                        }
                        assert(title@ =~= variant_field_title(name@));
                    }
                    let ghost o1 = self.output@;
                    self.write_header("", title.as_str(), "\n\n");
                    let ghost o2 = self.output@;
                    self.print_docs(item);
                    proof {
                        let t = choose|t: Seq<char>| #![auto] self.output@ == o2 + t && docs_text_ok(*item, self.options.template_mode, self.doc_path@, t);
                        assert(self.output@ =~= o1 + header_line(self.doc_path@, Seq::empty(), title@, "\n\n"@) + t);
                    }
                    self.post_increment_current_level();
                    return true;
                }
            },
            None => {},
        }
        self.mark_printed_here(field_id);
        false
    }

    /// Whether a selected variant of the enum, or a selected field of one, has
    /// documentation to print.
    #[verifier::loop_isolation(false)]
    fn has_printable_variants(&self, e: &crate::model::Enum) -> (res: bool)
        ensures
            res == exists|i: int| 0 <= i < e.variants@.len() && #[trigger] variant_printable(
                self.krate,
                self.selected_ids@,
                self.options.template_mode,
                e.variants@[i],
            ),
    {
        let n = e.variants.len();
        for i in 0..n
            invariant
                n == e.variants@.len(),
                forall|j: int| 0 <= j < i ==> !#[trigger] variant_printable(
                    self.krate,
                    self.selected_ids@,
                    self.options.template_mode,
                    e.variants@[j],
                ),
        {
            let vid = e.variants[i];
            if self.selected_ids.contains(&vid) {
                match self.krate.get(vid) {
                    Some(item) => {
                        if self.docs_printable_exec(item) {
                            assert(variant_printable(self.krate, self.selected_ids@, self.options.template_mode, e.variants@[i as int]));
                            return true;
                        }
                        if let ItemEnum::Variant(v) = &item.inner {
                            let fields = variant_fields_of(&v.kind);
                            let m = fields.len();
                            for j in 0..m
                                invariant
                                    m == fields@.len(),
                                    fields@ == variant_field_ids(v.kind),
                                    forall|q: int| 0 <= q < j ==> !#[trigger] field_printable(
                                        self.krate,
                                        self.selected_ids@,
                                        self.options.template_mode,
                                        fields@[q],
                                    ),
                            {
                                let f = fields[j];
                                if self.selected_ids.contains(&f) {
                                    match self.krate.get(f) {
                                        Some(fi) => {
                                            if self.docs_printable_exec(fi) {
                                                assert(field_printable(self.krate, self.selected_ids@, self.options.template_mode, fields@[j as int]));
                                                assert(variant_printable(self.krate, self.selected_ids@, self.options.template_mode, e.variants@[i as int]));
                                                return true;
                                            }
                                        },
                                        None => {},
                                    }
                                }
                            }
                        }
                    },
                    None => {},
                }
            }
        }
        false
    }

    /// Marks a variant's fields that will not be printed as printed, and collects
    /// those that will: selected, with documentation to print, not printed yet.
    fn sort_variant_fields(&mut self, field_ids: &Vec<Id>) -> (res: Vec<Id>)
        ensures
            final(self).stepped_from(old(self)),
            final(self).output == old(self).output,
            final(self).doc_path@ == old(self).doc_path@,
            forall|i: int| 0 <= i < res@.len() ==> field_ids@.contains(#[trigger] res@[i])
                && old(self).selected_ids@.contains(res@[i]) && old(self).krate.index_map().contains_key(res@[i])
                && docs_printable(old(self).krate.index_map()[res@[i]], old(self).options.template_mode)
                && !final(self).printed_ids@.contains_key(res@[i]),
            forall|i: int| 0 <= i < field_ids@.len() ==> res@.contains(#[trigger] field_ids@[i])
                || final(self).printed_ids@.contains_key(field_ids@[i]),
            forall|x: Id| #[trigger] final(self).printed_ids@.contains_key(x) ==> old(self).printed_ids@.contains_key(x)
                || field_ids@.contains(x),
    {
        let ghost s0 = *self;
        let krate = self.krate;
        let mut printable_fields: Vec<Id> = Vec::new();
        let n = field_ids.len();
        for i in 0..n
            invariant
                n == field_ids@.len(),
                self.stepped_from(&s0),
                self.output == s0.output,
                self.doc_path@ == s0.doc_path@,
                self.krate == krate,
                forall|r: int| 0 <= r < printable_fields@.len() ==> field_ids@.contains(#[trigger] printable_fields@[r])
                    && s0.selected_ids@.contains(printable_fields@[r]) && krate.index_map().contains_key(printable_fields@[r])
                    && docs_printable(krate.index_map()[printable_fields@[r]], s0.options.template_mode)
                    && !self.printed_ids@.contains_key(printable_fields@[r]),
                forall|j: int| 0 <= j < i ==> printable_fields@.contains(#[trigger] field_ids@[j])
                    || self.printed_ids@.contains_key(field_ids@[j]),
                forall|x: Id| #[trigger] self.printed_ids@.contains_key(x) ==> s0.printed_ids@.contains_key(x)
                    || field_ids@.contains(x),
        {
            let ghost si = *self;
            let ghost pb = printable_fields@;
            let f = field_ids[i];
            if self.selected_ids.contains(&f) {
                let printable = match krate.get(f) {
                    Some(fi) => self.docs_printable_exec(fi),
                    None => false,
                };
                if printable && !self.printed_ids.contains_key(&f) {
                    printable_fields.push(f);
                } else {
                    self.mark_printed_here(f);
                }
            } else {
                self.mark_printed_here(f);
            }
            proof {
                assert(field_ids@.contains(f));
                assert(self.grew_from(&si));
                assert forall|r: int| 0 <= r < printable_fields@.len() implies field_ids@.contains(#[trigger] printable_fields@[r])
                    && s0.selected_ids@.contains(printable_fields@[r]) && krate.index_map().contains_key(printable_fields@[r])
                    && docs_printable(krate.index_map()[printable_fields@[r]], s0.options.template_mode)
                    && !self.printed_ids@.contains_key(printable_fields@[r]) by {
                    if r < pb.len() {
                        assert(printable_fields@[r] == pb[r]);
                    }
                }
                assert forall|j: int| 0 <= j < i + 1 implies printable_fields@.contains(#[trigger] field_ids@[j])
                    || self.printed_ids@.contains_key(field_ids@[j]) by {
                    if j < i {
                        if pb.contains(field_ids@[j]) {
                            let r = choose|r: int| 0 <= r < pb.len() && pb[r] == field_ids@[j];
                            assert(printable_fields@[r] == pb[r]);
                        } else {
                            assert(si.printed_ids@.contains_key(field_ids@[j]));
                        }
                    } else if printable_fields@.len() > pb.len() {
                        assert(printable_fields@[printable_fields@.len() - 1] == f);
                    }
                }
            }
        }
        printable_fields
    }

    /// Prints an enum variant that has documentation to print or fields with some,
    /// with those fields, unless it was printed already; tells whether it printed it.
    fn print_variant_details(&mut self, variant_id: Id) -> (res: bool)
        requires
            old(self).doc_path@.len() + 6 < usize::MAX,
        ensures
            final(self).stepped_from(old(self)),
            same_level(old(self).doc_path@, final(self).doc_path@),
            res ==> !old(self).printed_ids@.contains_key(variant_id),
            final(self).printed_ids@.contains_key(variant_id) || old(self).printed_ids@.contains_key(variant_id),
    {
        if self.printed_ids.contains_key(&variant_id) {
            return false;
        }
        let krate = self.krate;
        if let Some(item) = krate.get(variant_id) {
            if let ItemEnum::Variant(variant_data) = &item.inner {
                let variant_has_printable_docs = self.docs_printable_exec(item);
                let field_ids = variant_fields_of(&variant_data.kind);
                let stripped = match &variant_data.kind {
                    crate::model::VariantKind::Struct { has_stripped_fields, .. } => *has_stripped_fields,
                    _ => false,
                };
                let printable_fields = self.sort_variant_fields(&field_ids);
                if !variant_has_printable_docs && printable_fields.len() == 0 {
                    self.mark_printed_here(variant_id);
                    return false;
                }
                self.mark_printed_here(variant_id);
                let ghost s0 = *self;
                let signature = crate::decl::format_variant_signature(item, variant_data, krate);
                let mut title = String::from_str("`");
                title.append(signature.as_str());
                title.append("`");
                self.write_header("", title.as_str(), "\n\n");
                self.push_level();
                assert(self.doc_path@.drop_last() =~= s0.doc_path@);
                self.print_docs(item);
                if printable_fields.len() > 0 || stripped {
                    self.write_header("", "Fields", "\n\n");
                    self.push_level();
                    assert(self.doc_path@.drop_last().drop_last() =~= s0.doc_path@);
                    let mut printed_any_field = false;
                    let n = printable_fields.len();
                    for i in 0..n
                        invariant
                            n == printable_fields@.len(),
                            self.stepped_from(&s0),
                            self.doc_path@.len() == s0.doc_path@.len() + 2,
                            self.doc_path@.drop_last().drop_last() == s0.doc_path@,
                            self.doc_path@.drop_last().last() == 1,
                            s0.doc_path@.len() + 6 < usize::MAX,
                    {
                        if self.print_variant_field_details(printable_fields[i]) {
                            printed_any_field = true;
                        }
                    }
                    if stripped {
                        if printed_any_field {
                            self.write("\n");
                        }
                        self.write("_[Private fields hidden]_\n");
                    }
                    self.pop_level();
                }
                self.pop_level();
                assert(self.doc_path@ =~= s0.doc_path@);
                self.post_increment_current_level();
                return true;
            }
        }
        self.mark_printed_here(variant_id);
        false
    }

    /// Marks the selected variants with nothing to print, and their fields, as
    /// printed; tells whether a selected variant with something to print is not
    /// printed yet.
    fn mark_plain_variants(&mut self, e: &crate::model::Enum) -> (res: bool)
        ensures
            final(self).stepped_from(old(self)),
            final(self).output == old(self).output,
            final(self).doc_path@ == old(self).doc_path@,
            !res ==> selected_shown(old(self).selected_ids@, final(self).printed_ids@, e.variants@),
            res ==> exists|i: int| 0 <= i < e.variants@.len() && #[trigger] variant_printable(
                old(self).krate,
                old(self).selected_ids@,
                old(self).options.template_mode,
                e.variants@[i],
            ) && !old(self).printed_ids@.contains_key(e.variants@[i]),
    {
        let ghost s0 = *self;
        let krate = self.krate;
        let mut has_printable = false;
        let n = e.variants.len();
        for i in 0..n
            invariant
                n == e.variants@.len(),
                self.stepped_from(&s0),
                self.output == s0.output,
                self.doc_path@ == s0.doc_path@,
                self.krate == krate,
                !has_printable ==> forall|j: int| 0 <= j < i && s0.selected_ids@.contains(#[trigger] e.variants@[j])
                    ==> self.printed_ids@.contains_key(e.variants@[j]),
                has_printable ==> exists|j: int| 0 <= j < i && #[trigger] variant_printable(
                    krate,
                    s0.selected_ids@,
                    s0.options.template_mode,
                    e.variants@[j],
                ) && !s0.printed_ids@.contains_key(e.variants@[j]),
        {
            let ghost si = *self;
            let vid = e.variants[i];
            if self.selected_ids.contains(&vid) {
                match krate.get(vid) {
                    Some(item) => {
                        let variant_has_printable_docs = self.docs_printable_exec(item);
                        let mut variant_has_printable_field = false;
                        if let ItemEnum::Variant(v) = &item.inner {
                            let fields = variant_fields_of(&v.kind);
                            let m = fields.len();
                            for j in 0..m
                                invariant
                                    m == fields@.len(),
                                    self.stepped_from(&s0),
                                    self.grew_from(&si),
                                    self.output == s0.output,
                                    self.doc_path@ == s0.doc_path@,
                                    self.krate == krate,
                                    variant_has_printable_field ==> exists|q: int| 0 <= q < j
                                        && #[trigger] field_printable(krate, s0.selected_ids@, s0.options.template_mode, fields@[q]),
                            {
                                let f = fields[j];
                                if self.selected_ids.contains(&f) {
                                    let printable = match krate.get(f) {
                                        Some(fi) => self.docs_printable_exec(fi),
                                        None => false,
                                    };
                                    if printable {
                                        if !self.printed_ids.contains_key(&f) {
                                            assert(field_printable(krate, s0.selected_ids@, s0.options.template_mode, fields@[j as int]));
                                            variant_has_printable_field = true;
                                        }
                                    } else {
                                        self.mark_printed_here(f);
                                    }
                                } else {
                                    self.mark_printed_here(f);
                                }
                            }
                        }
                        if variant_has_printable_docs || variant_has_printable_field {
                            if !self.printed_ids.contains_key(&vid) {
                                proof {
                                    assert(variant_printable(krate, s0.selected_ids@, s0.options.template_mode, e.variants@[i as int]));
                                    assert(!s0.printed_ids@.contains_key(e.variants@[i as int]));
                                }
                                has_printable = true;
                            }
                        } else {
                            self.mark_printed_here(vid);
                        }
                    },
                    None => {
                        self.mark_printed_here(vid);
                    },
                }
            }
            proof {
                if !has_printable {
                    assert(self.grew_from(&si));
                    assert forall|j: int| 0 <= j < i + 1 && s0.selected_ids@.contains(#[trigger] e.variants@[j])
                        implies self.printed_ids@.contains_key(e.variants@[j]) by {
                        if j < i {
                            assert(si.printed_ids@.contains_key(e.variants@[j]));
                        }
                    }
                }
            }
        }
        has_printable
    }

    /// Prints the "Variants" section of an enum when a selected variant or one of its
    /// fields has documentation to print, or some variants are hidden.
    fn print_enum_variants(&mut self, e: &crate::model::Enum)
        requires
            old(self).doc_path@.len() + 8 < usize::MAX,
        ensures
            final(self).stepped_from(old(self)),
            same_level(old(self).doc_path@, final(self).doc_path@),
            selected_shown(old(self).selected_ids@, final(self).printed_ids@, e.variants@),
    {
        let has_printable = self.mark_plain_variants(e);
        if !has_printable && !e.has_stripped_variants {
            return;
        }
        let ghost s0 = *self;
        self.write_header("", "Variants", "\n\n");
        self.push_level();
        let mut printed_any_variant = false;
        let n = e.variants.len();
        for i in 0..n
            invariant
                n == e.variants@.len(),
                self.stepped_from(&s0),
                self.doc_path@.len() == s0.doc_path@.len() + 1,
                self.doc_path@.drop_last() == s0.doc_path@,
                s0.doc_path@.len() + 8 < usize::MAX,
                forall|j: int| 0 <= j < i ==> self.printed_ids@.contains_key(#[trigger] e.variants@[j]),
        {
            let ghost si = *self;
            if self.print_variant_details(e.variants[i]) {
                printed_any_variant = true;
            }
            proof {
                assert forall|j: int| 0 <= j < i + 1 implies self.printed_ids@.contains_key(#[trigger] e.variants@[j]) by {
                    if j < i {
                        assert(si.printed_ids@.contains_key(e.variants@[j]));
                    }
                }
            }
        }
        let ghost s_end = *self;
        if e.has_stripped_variants {
            if printed_any_variant {
                self.write("\n");
            }
            self.write("_[Private variants hidden]_\n");
        }
        self.pop_level();
        self.post_increment_current_level();
        proof {
            assert(self.grew_from(&s_end));
            assert forall|i: int| 0 <= i < e.variants@.len() && s0.selected_ids@.contains(#[trigger] e.variants@[i])
                implies self.printed_ids@.contains_key(e.variants@[i]) by {
                assert(s_end.printed_ids@.contains_key(e.variants@[i]));
            }
        }
    }

    /// The summary of an associated item printed under its header: a code block for
    /// a function that needs one, its documentation, and the type, bounds and
    /// default of a constant or type; `None` when the item is not selected or not in
    /// the crate.
    fn generate_associated_item_summary(&self, assoc_item_id: Id) -> (res: Option<String>)
        requires
            self.doc_path@.len() < usize::MAX,
            declarations_named(self.krate),
        ensures
            res is Some <==> (self.selected_ids@.contains(assoc_item_id) && self.krate.index_map().contains_key(
                assoc_item_id,
            )),
    {
        if !self.selected_ids.contains(&assoc_item_id) {
            return None;
        }
        let krate = self.krate;
        match krate.get(assoc_item_id) {
            Some(item) => {
                let mut summary = String::new();
                if let ItemEnum::Function(f) = &item.inner {
                    let has_attrs = f.header.is_const || f.header.is_async || f.header.is_unsafe || !matches!(
                        f.header.abi,
                        crate::model::Abi::Rust
                    ) || item.attrs.len() > 0;
                    let has_where = f.generics.where_predicates.len() > 0;
                    if has_attrs || has_where {
                        proof {
                            assert(krate.index_map().contains_key(assoc_item_id));
                        }
                        let code = crate::decl::generate_function_code_block(item, f, krate);
                        summary.append("```rust\n");
                        summary.append(code.as_str());
                        summary.append("\n```\n\n");
                    }
                }
                let docs = self.docs_text(item);
                summary.append(docs.as_str());
                match &item.inner {
                    ItemEnum::AssocConst { type_, value } => {
                        summary.append("_Type: `");
                        let t = crate::format::format_type(type_, krate);
                        summary.append(t.as_str());
                        summary.append("`_\n");
                        if let Some(val) = value {
                            summary.append("_Default: `");
                            summary.append(val.as_str());
                            summary.append("`_\n\n");
                        }
                    },
                    ItemEnum::AssocType { bounds, type_, .. } => {
                        if bounds.len() > 0 {
                            summary.append("_Bounds: `");
                            let b = crate::format::format_bounds(bounds, krate);
                            summary.append(b.as_str());
                            summary.append("`_\n");
                        }
                        if let Some(ty) = type_ {
                            summary.append("_Default: `");
                            let t = crate::format::format_type(ty, krate);
                            summary.append(t.as_str());
                            summary.append("`_\n\n");
                        }
                    },
                    _ => {},
                }
                Some(summary)
            },
            None => None,
        }
    }

    /// Prints the header and summary of a selected associated item and moves to the
    /// next section.
    fn print_associated_item_summary(&mut self, assoc_item_id: Id)
        requires
            old(self).doc_path@.len() + 2 < usize::MAX,
            declarations_named(old(self).krate),
        ensures
            final(self).stepped_from(old(self)),
            same_level(old(self).doc_path@, final(self).doc_path@),
            final(self).printed_ids == old(self).printed_ids,
            !(old(self).selected_ids@.contains(assoc_item_id) && old(self).krate.index_map().contains_key(assoc_item_id))
                ==> final(self).output == old(self).output && final(self).doc_path@ == old(self).doc_path@,
            old(self).selected_ids@.contains(assoc_item_id) && old(self).krate.index_map().contains_key(assoc_item_id)
                ==> final(self).doc_path@ == next_section(old(self).doc_path@) && exists|body: Seq<char>|
                final(self).output@ == old(self).output@ + header_line(
                    old(self).doc_path@,
                    Seq::empty(),
                    "`"@ + crate::decl::declaration_text(
                        old(self).krate,
                        old(self).krate.index_map()[assoc_item_id],
                        old(self).current_module_path@,
                    ) + "`"@,
                    "\n\n"@,
                ) + body + "\n"@,
    {
        let krate = self.krate;
        let ghost s0 = *self;
        if let Some(item) = krate.get(assoc_item_id) {
            if let Some(summary) = self.generate_associated_item_summary(assoc_item_id) {
                let declaration = crate::decl::generate_item_declaration(item, krate, self.current_module_path.as_slice());
                let mut title = String::from_str("`");
                title.append(declaration.as_str());
                title.append("`");
                proof {
                    reveal_strlit("");
                }
                self.write_header("", title.as_str(), "\n\n");
                let ghost o_head = self.output@;
                if crate::markdown::is_not_blank(summary.as_str()) {
                    let mut t = crate::markdown::trim_white_space(summary.as_str());
                    t.append("\n");
                    self.write(t.as_str());
                }
                let ghost body = self.output@.subrange(o_head.len() as int, self.output@.len() as int);
                assert(self.output@ =~= o_head + body);
                self.write("\n");
                self.post_increment_current_level();
                assert(self.output@ =~= s0.output@ + header_line(s0.doc_path@, Seq::empty(), title@, "\n\n"@) + body + "\n"@);
            }
        }
    }

    /// Prints one category of a trait's associated items: its header, then those of
    /// its items that have documentation to print.
    fn print_assoc_category(&mut self, items: &Vec<(Id, bool)>, title: &str)
        requires
            old(self).doc_path@.len() + 4 < usize::MAX,
            declarations_named(old(self).krate),
        ensures
            final(self).stepped_from(old(self)),
            same_level(old(self).doc_path@, final(self).doc_path@),
            final(self).printed_ids == old(self).printed_ids,
            !(exists|i: int| 0 <= i < items@.len() && (#[trigger] items@[i]).1) ==> final(self).output == old(self).output
                && final(self).doc_path@ == old(self).doc_path@,
            (exists|i: int| 0 <= i < items@.len() && (#[trigger] items@[i]).1) ==> (old(self).output@ + header_line(
                old(self).doc_path@,
                Seq::empty(),
                title@,
                "\n\n"@,
            )).is_prefix_of(final(self).output@) && final(self).doc_path@ == next_section(old(self).doc_path@),
    {
        let mut any_docs = false;
        let n = items.len();
        for i in 0..n
            invariant
                n == items@.len(),
                any_docs == exists|q: int| 0 <= q < i && (#[trigger] items@[q]).1,
        {
            if items[i].1 {
                any_docs = true;
            }
        }
        if !any_docs {
            return;
        }
        proof {
            reveal_strlit("");
        }
        let ghost s0 = *self;
        self.write_header("", title, "\n\n");
        let ghost s_head = *self;
        self.push_level();
        for i in 0..n
            invariant
                n == items@.len(),
                self.stepped_from(&s0),
                self.grew_from(&s_head),
                self.printed_ids == s0.printed_ids,
                self.doc_path@.len() == s0.doc_path@.len() + 1,
                self.doc_path@.drop_last() == s0.doc_path@,
                s0.doc_path@.len() + 4 < usize::MAX,
                declarations_named(self.krate),
        {
            if items[i].1 {
                self.print_associated_item_summary(items[i].0);
            }
        }
        self.pop_level();
        assert(self.doc_path@ =~= s0.doc_path@);
        self.post_increment_current_level();
    }

    /// Prints a trait's associated items in three categories (required types and
    /// constants, required methods, provided methods), each sorted by name, when a
    /// selected one has documentation to print; every selected one is marked printed.
    fn print_trait_associated_items(&mut self, t: &crate::model::Trait)
        requires
            old(self).doc_path@.len() + 5 < usize::MAX,
            declarations_named(old(self).krate),
        ensures
            final(self).stepped_from(old(self)),
            same_level(old(self).doc_path@, final(self).doc_path@),
            forall|i: int| 0 <= i < t.items@.len() && old(self).selected_ids@.contains(#[trigger] t.items@[i])
                ==> final(self).printed_ids@.contains_key(t.items@[i]),
            exists|parts: Seq<Seq<char>>| #[trigger] assoc_items_shape(
                old(self).output@,
                final(self).output@,
                old(self).doc_path@,
                documented_categories(old(self).krate, old(self).selected_ids@, old(self).options.template_mode, t.items@),
                parts,
            ),
    {
        let ghost s0 = *self;
        let ghost sel = s0.selected_ids@;
        let ghost tm = s0.options.template_mode;
        let krate = self.krate;
        let mut required_types: Vec<(Id, bool)> = Vec::new();
        let mut required_methods: Vec<(Id, bool)> = Vec::new();
        let mut provided_methods: Vec<(Id, bool)> = Vec::new();
        let mut has_printable_assoc_item = false;
        let n = t.items.len();
        proof {
            assert(t.items@.take(0) =~= Seq::<Id>::empty());
        }
        for i in 0..n
            invariant
                n == t.items@.len(),
                self.stepped_from(&s0),
                self.output == s0.output,
                self.doc_path@ == s0.doc_path@,
                self.krate == krate,
                sel == self.selected_ids@,
                tm == self.options.template_mode,
                forall|j: int| 0 <= j < i && s0.selected_ids@.contains(#[trigger] t.items@[j])
                    ==> self.printed_ids@.contains_key(t.items@[j]),
                (exists|q: int| 0 <= q < required_types@.len() && (#[trigger] required_types@[q]).1)
                    <==> category_documented(krate, sel, tm, t.items@.take(i as int), 0),
                (exists|q: int| 0 <= q < required_methods@.len() && (#[trigger] required_methods@[q]).1)
                    <==> category_documented(krate, sel, tm, t.items@.take(i as int), 1),
                (exists|q: int| 0 <= q < provided_methods@.len() && (#[trigger] provided_methods@[q]).1)
                    <==> category_documented(krate, sel, tm, t.items@.take(i as int), 2),
                !has_printable_assoc_item ==> forall|j: int| 0 <= j < i ==> !(#[trigger] sel.contains(t.items@[j])
                    && krate.index_map().contains_key(t.items@[j]) && docs_printable(krate.index_map()[t.items@[j]], tm)),
        {
            let ghost rt0 = required_types@;
            let ghost rm0 = required_methods@;
            let ghost pm0 = provided_methods@;
            proof {
                lemma_category_step(krate, sel, tm, t.items@, i as int);
            }
            let id = t.items[i];
            if self.selected_ids.contains(&id) {
                if !self.printed_ids.contains_key(&id) {
                    self.mark_printed_here(id);
                }
                if let Some(assoc_item) = krate.get(id) {
                    let printable = self.docs_printable_exec(assoc_item);
                    if printable {
                        has_printable_assoc_item = true;
                    }
                    match &assoc_item.inner {
                        ItemEnum::AssocType { .. } => {
                            required_types.push((id, printable));
                            assert(required_types@.drop_last() =~= rt0);
                        },
                        ItemEnum::Function(f) => {
                            if !f.has_body {
                                required_methods.push((id, printable));
                                assert(required_methods@.drop_last() =~= rm0);
                            } else {
                                provided_methods.push((id, printable));
                                assert(provided_methods@.drop_last() =~= pm0);
                            }
                        },
                        ItemEnum::AssocConst { .. } => {
                            required_types.push((id, printable));
                            assert(required_types@.drop_last() =~= rt0);
                        },
                        _ => {},
                    }
                }
            }
            proof {
                lemma_push_flag(rt0, required_types@);
                lemma_push_flag(rm0, required_methods@);
                lemma_push_flag(pm0, provided_methods@);
            }
        }
        proof {
            assert(t.items@.take(n as int) =~= t.items@);
        }
        let ghost docs = documented_categories(krate, sel, tm, t.items@);
        if !has_printable_assoc_item {
            proof {
                assert forall|c: int| !#[trigger] category_documented(krate, sel, tm, t.items@, c) by {
                    if category_documented(krate, sel, tm, t.items@, c) {
                        let j = choose|j: int| 0 <= j < t.items@.len() && #[trigger] sel.contains(t.items@[j])
                            && krate.index_map().contains_key(t.items@[j]) && assoc_category(krate.index_map()[t.items@[j]]) == Some(c)
                            && docs_printable(krate.index_map()[t.items@[j]], tm);
                    }
                }
                assert(!docs[0] && !docs[1] && !docs[2]);
                let parts = seq![Seq::<char>::empty(), Seq::<char>::empty(), Seq::<char>::empty()];
                assert(self.output@ =~= s0.output@ + parts[0] + parts[1] + parts[2]);
                assert(assoc_items_shape(s0.output@, self.output@, s0.doc_path@, docs, parts));
            }
            return;
        }
        let ghost rt = required_types@;
        let ghost rm = required_methods@;
        let ghost pm = provided_methods@;
        let required_types = sort_pairs_by_name(&required_types, krate);
        let required_methods = sort_pairs_by_name(&required_methods, krate);
        let provided_methods = sort_pairs_by_name(&provided_methods, krate);
        proof {
            lemma_flag_kept(rt, required_types@);
            lemma_flag_kept(rm, required_methods@);
            lemma_flag_kept(pm, provided_methods@);
        }
        let ghost s1 = *self;
        self.print_assoc_category(&required_types, "Required Associated Types");
        let ghost s2 = *self;
        self.print_assoc_category(&required_methods, "Required Methods");
        let ghost s3 = *self;
        self.print_assoc_category(&provided_methods, "Provided Methods");
        proof {
            reveal_strlit("Required Associated Types");
            reveal_strlit("Required Methods");
            reveal_strlit("Provided Methods");
            let p0 = s2.output@.subrange(s1.output@.len() as int, s2.output@.len() as int);
            let p1 = s3.output@.subrange(s2.output@.len() as int, s3.output@.len() as int);
            let p2 = self.output@.subrange(s3.output@.len() as int, self.output@.len() as int);
            assert(s2.grew_from(&s1));
            assert(s3.grew_from(&s2));
            assert(self.grew_from(&s3));
            assert(s2.output@ =~= s1.output@ + p0);
            assert(s3.output@ =~= s2.output@ + p1);
            assert(self.output@ =~= s3.output@ + p2);
            lemma_prefix_part(s1.output@, s2.output@, header_line(s1.doc_path@, Seq::empty(), assoc_category_title(0), "\n\n"@));
            lemma_prefix_part(s2.output@, s3.output@, header_line(s2.doc_path@, Seq::empty(), assoc_category_title(1), "\n\n"@));
            lemma_prefix_part(s3.output@, self.output@, header_line(s3.doc_path@, Seq::empty(), assoc_category_title(2), "\n\n"@));
            let parts = seq![p0, p1, p2];
            assert(self.output@ =~= s0.output@ + parts[0] + parts[1] + parts[2]);
            assert(assoc_items_shape(s0.output@, self.output@, s0.doc_path@, docs, parts));
        }
    }

    /// Marks an impl and its selected associated items as printed here.
    fn mark_impl_printed(&mut self, imp: &crate::model::Impl, impl_id: Id)
        ensures
            final(self).stepped_from(old(self)),
            final(self).output == old(self).output,
            final(self).doc_path@ == old(self).doc_path@,
            final(self).printed_ids@.contains_key(impl_id),
    {
        let ghost s0 = *self;
        self.mark_printed_here(impl_id);
        let n = imp.items.len();
        for i in 0..n
            invariant
                n == imp.items@.len(),
                self.stepped_from(&s0),
                self.output == s0.output,
                self.doc_path@ == s0.doc_path@,
                self.printed_ids@.contains_key(impl_id),
        {
            let id = imp.items[i];
            if self.selected_ids.contains(&id) {
                self.mark_printed_here(id);
            }
        }
    }

    /// Lists normalized trait impls as Markdown, by category (simple, generic or
    /// complex, auto, blanket), each sorted by its entry, a blank line between
    /// categories; the impls they stand for, and their selected items, are marked
    /// printed.
    fn format_trait_list(&mut self, traits_to_format: &Vec<FormattedTraitImpl>) -> (res: String)
        requires
            old(self).doc_path@.len() + 3 < usize::MAX,
        ensures
            final(self).stepped_from(old(self)),
            final(self).output == old(self).output,
            final(self).doc_path@ == old(self).doc_path@,
            traits_to_format@.len() == 0 ==> res@.len() == 0,
            forall|i: int| 0 <= i < traits_to_format@.len() && stands_for_impl(old(self).krate, #[trigger] traits_to_format@[i])
                ==> final(self).printed_ids@.contains_key(impl_item_id(old(self).krate, traits_to_format@[i])),
    {
        if traits_to_format.len() == 0 {
            return String::new();
        }
        let ghost s0 = *self;
        let mut output = String::new();
        self.push_level();
        let mut preceding_section = false;
        let cats = [
            crate::traits::TraitImplCategory::Simple,
            crate::traits::TraitImplCategory::GenericOrComplex,
            crate::traits::TraitImplCategory::Auto,
            crate::traits::TraitImplCategory::Blanket,
        ];
        let ghost krate = self.krate;
        for c in 0..4usize
            invariant
                self.stepped_from(&s0),
                self.output == s0.output,
                self.doc_path@.len() == s0.doc_path@.len() + 1,
                self.doc_path@.drop_last() == s0.doc_path@,
                krate == self.krate,
                cats@ == seq![
                    crate::traits::TraitImplCategory::Simple,
                    crate::traits::TraitImplCategory::GenericOrComplex,
                    crate::traits::TraitImplCategory::Auto,
                    crate::traits::TraitImplCategory::Blanket,
                ],
                forall|i: int| 0 <= i < traits_to_format@.len() && stands_for_impl(krate, #[trigger] traits_to_format@[i])
                    && cats@.take(c as int).contains(traits_to_format@[i].category)
                    ==> self.printed_ids@.contains_key(impl_item_id(krate, traits_to_format@[i])),
        {
            let cat = cats[c];
            let ghost sc = *self;
            let mut members: Vec<usize> = Vec::new();
            let mut keys: Vec<Vec<String>> = Vec::new();
            let n = traits_to_format.len();
            for i in 0..n
                invariant
                    n == traits_to_format@.len(),
                    members@.len() == keys@.len(),
                    forall|j: int| 0 <= j < members@.len() ==> (#[trigger] members@[j]) < n,
                    forall|j: int| 0 <= j < i && (#[trigger] traits_to_format@[j]).category == cat
                        ==> members@.contains(j as usize),
            {
                let ghost mb = members@;
                if traits_to_format[i].category == cat {
                    members.push(i);
                    let mut k: Vec<String> = Vec::new();
                    k.push(traits_to_format[i].formatted_markdown_list_entry.clone());
                    keys.push(k);
                    proof {
                        assert(members@[members@.len() - 1] == i);
                        assert forall|j: int| 0 <= j < i + 1 && (#[trigger] traits_to_format@[j]).category == cat
                            implies members@.contains(j as usize) by {
                            if j < i {
                                let q = choose|q: int| 0 <= q < mb.len() && mb[q] == j as usize;
                                assert(members@[q] == j as usize);
                            }
                        }
                    }
                }
            }
            let sorted = crate::order::sort_by_keys(&members, &keys);
            if sorted.len() > 0 {
                if preceding_section {
                    output.append("\n");
                }
                let m = sorted.len();
                for j in 0..m
                    invariant
                        m == sorted@.len(),
                        n == traits_to_format@.len(),
                        forall|q: int| 0 <= q < members@.len() ==> (#[trigger] members@[q]) < n,
                        forall|q: int| 0 <= q < sorted@.len() ==> members@.contains(#[trigger] sorted@[q]),
                        self.stepped_from(&s0),
                        self.grew_from(&sc),
                        self.output == s0.output,
                        self.doc_path@.len() == s0.doc_path@.len() + 1,
                        self.doc_path@.drop_last() == s0.doc_path@,
                        krate == self.krate,
                        forall|q: int| 0 <= q < j && stands_for_impl(krate, traits_to_format@[#[trigger] sorted@[q] as int])
                            ==> self.printed_ids@.contains_key(impl_item_id(krate, traits_to_format@[sorted@[q] as int])),
                {
                    let idx = sorted[j];
                    let ghost sj = *self;
                    proof {
                        assert(members@.contains(sorted@[j as int]));
                    }
                    let t = &traits_to_format[idx];
                    output.append(t.formatted_markdown_list_entry.as_str());
                    output.append("\n");
                    if let Some((imp, impl_id)) = t.get_impl_data(self.krate) {
                        self.mark_impl_printed(imp, impl_id);
                    }
                    self.post_increment_current_level();
                    proof {
                        assert(self.grew_from(&sj));
                        assert forall|q: int| 0 <= q < j + 1 && stands_for_impl(krate, traits_to_format@[#[trigger] sorted@[q] as int])
                            implies self.printed_ids@.contains_key(impl_item_id(krate, traits_to_format@[sorted@[q] as int])) by {
                            if q < j {
                                assert(sj.printed_ids@.contains_key(impl_item_id(krate, traits_to_format@[sorted@[q] as int])));
                            }
                        }
                    }
                }
                preceding_section = true;
            }
            proof {
                assert(self.grew_from(&sc));
                assert forall|i: int| 0 <= i < traits_to_format@.len() && stands_for_impl(krate, #[trigger] traits_to_format@[i])
                    && cats@.take(c + 1).contains(traits_to_format@[i].category)
                    implies self.printed_ids@.contains_key(impl_item_id(krate, traits_to_format@[i])) by {
                    let w = choose|w: int| 0 <= w < c + 1 && #[trigger] cats@.take(c + 1)[w] == traits_to_format@[i].category;
                    if w < c {
                        assert(cats@.take(c as int)[w] == traits_to_format@[i].category);
                        assert(sc.printed_ids@.contains_key(impl_item_id(krate, traits_to_format@[i])));
                    } else {
                        assert(members@.contains(i as usize));
                        let r = choose|r: int| 0 <= r < members@.len() && members@[r] == i as usize;
                        assert(sorted@.contains(members@[r]));
                        let q = choose|q: int| 0 <= q < sorted@.len() && sorted@[q] == i as usize;
                        assert(traits_to_format@[sorted@[q] as int] == traits_to_format@[i]);
                    }
                }
            }
        }
        proof {
            assert forall|i: int| 0 <= i < traits_to_format@.len() && stands_for_impl(krate, #[trigger] traits_to_format@[i])
                implies self.printed_ids@.contains_key(impl_item_id(krate, traits_to_format@[i])) by {
                let cat = traits_to_format@[i].category;
                assert(cats@.take(4) =~= cats@);
                match cat {
                    crate::traits::TraitImplCategory::Simple => assert(cats@[0] == cat),
                    crate::traits::TraitImplCategory::GenericOrComplex => assert(cats@[1] == cat),
                    crate::traits::TraitImplCategory::Auto => assert(cats@[2] == cat),
                    crate::traits::TraitImplCategory::Blanket => assert(cats@[3] == cat),
                }
            }
        }
        let ghost s_end = *self;
        self.pop_level();
        assert(self.grew_from(&s_end));
        output
    }

    /// Normalizes a trait impl for this printer's selection, mode and place.
    fn normalize_impl(&self, imp: &crate::model::Impl, impl_id: Option<Id>, trait_path: &crate::model::Path) -> (res: FormattedTraitImpl)
        ensures
            res.trait_id == trait_path.id,
            res.impl_id == impl_id,
            res.category == crate::traits::category_of(self.krate, *imp, *trait_path),
            normal_form(self.krate, *imp, *trait_path, res),
            res.formatted_markdown_list_entry@ == crate::traits::list_entry_text(
                self.krate,
                *imp,
                *trait_path,
                res.category,
                crate::traits::impl_block_text(self.krate, *imp, impl_id, self.printed_ids@, self.selected_ids@,
                    self.options.template_mode, self.doc_path@),
            ),
    {
        FormattedTraitImpl::from_impl(
            imp,
            impl_id,
            trait_path,
            self.krate,
            &self.printed_ids,
            &self.selected_ids,
            self.options.template_mode,
            &self.doc_path,
        )
    }

    /// Prints an impl block: its header (the section number taken before moving on),
    /// its documentation, and its selected associated constants, types and
    /// functions, each marked printed; nothing when the impl was printed already.
    fn print_impl_block_details(&mut self, impl_item: &Item, imp: &crate::model::Impl)
        requires
            old(self).doc_path@.len() + 5 < usize::MAX,
            declarations_named(old(self).krate),
        ensures
            final(self).stepped_from(old(self)),
            same_level(old(self).doc_path@, final(self).doc_path@),
            final(self).printed_ids@.contains_key(impl_item.id),
            !old(self).printed_ids@.contains_key(impl_item.id) ==> forall|i: int| 0 <= i < imp.items@.len()
                && old(self).selected_ids@.contains(#[trigger] imp.items@[i]) && old(self).krate.index_map().contains_key(imp.items@[i])
                && (old(self).krate.index_map()[imp.items@[i]].inner is AssocConst
                || old(self).krate.index_map()[imp.items@[i]].inner is AssocType
                || old(self).krate.index_map()[imp.items@[i]].inner is Function) ==> final(self).printed_ids@.contains_key(imp.items@[i]),
            old(self).printed_ids@.contains_key(impl_item.id) ==> final(self).output == old(self).output
                && final(self).doc_path@ == old(self).doc_path@,
            !old(self).printed_ids@.contains_key(impl_item.id) ==> exists|i: int, j: int|
                #[trigger] crate::markdown::trimmed(crate::impls::impl_decl_text(old(self).krate, *imp), i, j)
                && (old(self).output@ + impl_heading(
                    crate::impls::impl_decl_text(old(self).krate, *imp).subrange(i, j),
                    old(self).doc_path@,
                )).is_prefix_of(final(self).output@),
    {
        let header_prefix = self.get_header_prefix();
        if self.printed_ids.contains_key(&impl_item.id) {
            self.mark_printed(impl_item.id, header_prefix);
            return;
        }
        self.mark_printed(impl_item.id, header_prefix.clone());
        self.post_increment_current_level();
        let ghost s0 = *self;
        let level = self.get_current_header_level();
        let line = impl_header_line(level, &header_prefix, imp, self.krate);
        let ghost o_before = self.output@;
        self.write(line.as_str());
        let ghost o_line = self.output@;
        self.print_docs(impl_item);
        let (assoc_consts, assoc_types, assoc_fns) = self.impl_assoc_groups(imp);
        self.push_level();
        let ghost sa = *self;
        self.print_assoc_list(&assoc_consts);
        let ghost sb = *self;
        self.print_assoc_list(&assoc_types);
        let ghost sc = *self;
        self.print_assoc_list(&assoc_fns);
        proof {
            assert forall|i: int| 0 <= i < imp.items@.len() && sa.selected_ids@.contains(#[trigger] imp.items@[i])
                && sa.krate.index_map().contains_key(imp.items@[i])
                && (sa.krate.index_map()[imp.items@[i]].inner is AssocConst
                || sa.krate.index_map()[imp.items@[i]].inner is AssocType
                || sa.krate.index_map()[imp.items@[i]].inner is Function) implies self.printed_ids@.contains_key(imp.items@[i]) by {
                let x = imp.items@[i];
                let inner = sa.krate.index_map()[x].inner;
                if inner is AssocConst {
                    lemma_assoc_group_contains(sa.krate, sa.selected_ids@, imp.items@, 0, i);
                    let q = choose|q: int| 0 <= q < assoc_consts@.len() && assoc_consts@[q] == x;
                    assert(sb.printed_ids@.contains_key(assoc_consts@[q]));
                    assert(self.grew_from(&sb));
                } else if inner is AssocType {
                    lemma_assoc_group_contains(sa.krate, sa.selected_ids@, imp.items@, 1, i);
                    let q = choose|q: int| 0 <= q < assoc_types@.len() && assoc_types@[q] == x;
                    assert(sc.printed_ids@.contains_key(assoc_types@[q]));
                    assert(self.grew_from(&sc));
                } else {
                    lemma_assoc_group_contains(sa.krate, sa.selected_ids@, imp.items@, 2, i);
                    let q = choose|q: int| 0 <= q < assoc_fns@.len() && assoc_fns@[q] == x;
                    assert(self.printed_ids@.contains_key(assoc_fns@[q]));
                }
            }
        }
        let ghost sd = *self;
        self.pop_level();
        assert(self.grew_from(&sd));
        proof {
            let d = crate::impls::impl_decl_text(self.krate, *imp);
            let (i, j) = choose|i: int, j: int| #![auto] crate::markdown::trimmed(d, i, j)
                && line@ == crate::text::repeated('#', level as nat) + " "@ + header_prefix@ + " `"@ + d.subrange(i, j) + "`\n\n"@;
            assert(line@ == impl_heading(d.subrange(i, j), old(self).doc_path@));
            assert(self.grew_from(&s0));
            assert(o_line.is_prefix_of(self.output@));
            assert(o_line =~= old(self).output@ + impl_heading(d.subrange(i, j), old(self).doc_path@));
        }
        assert(self.doc_path@ =~= s0.doc_path@);
        assert(s0.printed_ids@.contains_key(impl_item.id));
        assert(self.grew_from(&s0));
    }

    /// The selected associated constants, types and functions of an impl, in order.
    fn impl_assoc_groups(&self, imp: &crate::model::Impl) -> (res: (Vec<Id>, Vec<Id>, Vec<Id>))
        ensures
            res.0@ == assoc_group(self.krate, self.selected_ids@, imp.items@, 0),
            res.1@ == assoc_group(self.krate, self.selected_ids@, imp.items@, 1),
            res.2@ == assoc_group(self.krate, self.selected_ids@, imp.items@, 2),
    {
        let krate = self.krate;
        let mut assoc_consts: Vec<Id> = Vec::new();
        let mut assoc_types: Vec<Id> = Vec::new();
        let mut assoc_fns: Vec<Id> = Vec::new();
        let n = imp.items.len();
        for i in 0..n
            invariant
                n == imp.items@.len(),
                krate == self.krate,
                assoc_consts@ == assoc_group(krate, self.selected_ids@, imp.items@.take(i as int), 0),
                assoc_types@ == assoc_group(krate, self.selected_ids@, imp.items@.take(i as int), 1),
                assoc_fns@ == assoc_group(krate, self.selected_ids@, imp.items@.take(i as int), 2),
        {
            proof {
                assert(imp.items@.take(i + 1).drop_last() =~= imp.items@.take(i as int));
                assert(imp.items@.take(i + 1).last() == imp.items@[i as int]);
            }
            let id = imp.items[i];
            if self.selected_ids.contains(&id) {
                if let Some(assoc_item) = krate.get(id) {
                    match &assoc_item.inner {
                        ItemEnum::AssocConst { .. } => assoc_consts.push(id),
                        ItemEnum::AssocType { .. } => assoc_types.push(id),
                        ItemEnum::Function(_) => assoc_fns.push(id),
                        _ => {},
                    }
                }
            }
        }
        assert(imp.items@.take(n as int) =~= imp.items@);
        (assoc_consts, assoc_types, assoc_fns)
    }

    /// Prints the summaries of associated items of an impl, marking each printed.
    fn print_assoc_list(&mut self, ids: &Vec<Id>)
        requires
            old(self).doc_path@.len() + 2 < usize::MAX,
            declarations_named(old(self).krate),
        ensures
            final(self).stepped_from(old(self)),
            same_level(old(self).doc_path@, final(self).doc_path@),
            forall|i: int| 0 <= i < ids@.len() ==> final(self).printed_ids@.contains_key(#[trigger] ids@[i]),
            forall|x: Id| #[trigger] final(self).printed_ids@.contains_key(x) ==> old(self).printed_ids@.contains_key(x)
                || ids@.contains(x),
    {
        let ghost s0 = *self;
        let n = ids.len();
        for i in 0..n
            invariant
                n == ids@.len(),
                self.stepped_from(&s0),
                same_level(s0.doc_path@, self.doc_path@),
                s0.doc_path@.len() + 2 < usize::MAX,
                declarations_named(self.krate),
                forall|j: int| 0 <= j < i ==> self.printed_ids@.contains_key(#[trigger] ids@[j]),
                forall|x: Id| #[trigger] self.printed_ids@.contains_key(x) ==> s0.printed_ids@.contains_key(x)
                    || ids@.contains(x),
        {
            let ghost si = *self;
            let id = ids[i];
            self.print_associated_item_summary(id);
            if !self.printed_ids.contains_key(&id) {
                self.mark_printed_here(id);
            }
            proof {
                assert(ids@.contains(id));
                assert forall|j: int| 0 <= j < i + 1 implies self.printed_ids@.contains_key(#[trigger] ids@[j]) by {
                    if j < i {
                        assert(si.printed_ids@.contains_key(ids@[j]));
                    }
                }
            }
        }
    }

    /// Prints the implementors of a trait: a section with, for each selected impl, its
    /// header, where clause, documentation; each impl and its selected items marked
    /// printed.
    fn print_trait_implementors(&mut self, impl_ids: &Vec<Id>)
        requires
            old(self).doc_path@.len() + 4 < usize::MAX,
            old(self).krate.wf(),
        ensures
            final(self).stepped_from(old(self)),
            same_level(old(self).doc_path@, final(self).doc_path@),
            forall|i: int| 0 <= i < impl_ids@.len() && old(self).selected_ids@.contains(#[trigger] impl_ids@[i])
                && old(self).krate.index_map().contains_key(impl_ids@[i])
                && old(self).krate.index_map()[impl_ids@[i]].inner is Impl
                ==> final(self).printed_ids@.contains_key(impl_ids@[i]),
            !implementor_pending(old(self).krate, old(self).selected_ids@, impl_ids@) ==> final(self).output == old(self).output,
            implementor_pending(old(self).krate, old(self).selected_ids@, impl_ids@) ==> (old(self).output@ + header_line(
                old(self).doc_path@,
                Seq::empty(),
                "Implementors"@,
                "\n\n"@,
            )).is_prefix_of(final(self).output@),
    {
        let krate = self.krate;
        let mut implementors: Vec<&'a Item> = Vec::new();
        let n = impl_ids.len();
        for i in 0..n
            invariant
                n == impl_ids@.len(),
                krate == self.krate,
                krate.wf(),
                forall|r: int| 0 <= r < implementors@.len() ==> (#[trigger] implementors@[r]).inner is Impl,
                forall|j: int| 0 <= j < i && self.selected_ids@.contains(#[trigger] impl_ids@[j])
                    && krate.index_map().contains_key(impl_ids@[j]) && krate.index_map()[impl_ids@[j]].inner is Impl
                    ==> exists|r: int| 0 <= r < implementors@.len() && (#[trigger] implementors@[r]).id == impl_ids@[j],
                implementors@.len() > 0 ==> implementor_pending(krate, self.selected_ids@, impl_ids@),
        {
            let ghost ib = implementors@;
            if let Some(item) = krate.get(impl_ids[i]) {
                proof {
                    krate.lemma_wf_item_id(impl_ids@[i as int]);
                }
                if self.selected_ids.contains(&item.id) {
                    if let ItemEnum::Impl(_) = &item.inner {
                        implementors.push(item);
                        assert(self.selected_ids@.contains(impl_ids@[i as int]));
                    }
                }
            }
            proof {
                assert forall|j: int| 0 <= j < i + 1 && self.selected_ids@.contains(#[trigger] impl_ids@[j])
                    && krate.index_map().contains_key(impl_ids@[j]) && krate.index_map()[impl_ids@[j]].inner is Impl
                    implies exists|r: int| 0 <= r < implementors@.len() && (#[trigger] implementors@[r]).id == impl_ids@[j] by {
                    if j < i {
                        let r = choose|r: int| 0 <= r < ib.len() && (#[trigger] ib[r]).id == impl_ids@[j];
                        assert(implementors@[r] == ib[r]);
                    } else {
                        krate.lemma_wf_item_id(impl_ids@[j]);
                        assert(implementors@[implementors@.len() - 1].id == impl_ids@[j]);
                    }
                }
            }
        }
        if implementors.len() == 0 {
            proof {
                if implementor_pending(krate, self.selected_ids@, impl_ids@) {
                    let j = choose|j: int| 0 <= j < impl_ids@.len() && #[trigger] self.selected_ids@.contains(impl_ids@[j])
                        && krate.index_map().contains_key(impl_ids@[j]) && krate.index_map()[impl_ids@[j]].inner is Impl;
                }
            }
            return;
        }
        let ghost s0 = *self;
        proof {
            reveal_strlit("Implementors");
            reveal_strlit("");
        }
        self.write_header("", "Implementors", "\n\n");
        let ghost s_head = *self;
        self.push_level();
        let m = implementors.len();
        for j in 0..m
            invariant
                m == implementors@.len(),
                self.stepped_from(&s0),
                self.doc_path@.len() == s0.doc_path@.len() + 1,
                self.doc_path@.drop_last() == s0.doc_path@,
                s0.doc_path@.len() + 4 < usize::MAX,
                forall|r: int| 0 <= r < implementors@.len() ==> (#[trigger] implementors@[r]).inner is Impl,
                forall|r: int| 0 <= r < j ==> self.printed_ids@.contains_key((#[trigger] implementors@[r]).id),
                self.grew_from(&s_head),
        {
            let ghost sj = *self;
            let impl_item = implementors[j];
            if let ItemEnum::Impl(imp) = &impl_item.inner {
                let header_only = crate::impls::format_impl_decl_header_only(imp, krate);
                let trimmed = crate::markdown::trim_white_space(header_only.as_str());
                let mut title = String::from_str("`");
                title.append(trimmed.as_str());
                title.append("`");
                self.write_header("", title.as_str(), "\n\n");
                if imp.generics.where_predicates.len() > 0 {
                    let wc = crate::format::format_generics_where_only(imp.generics.where_predicates.as_slice(), krate);
                    let mut block = String::from_str("```rust\n");
                    block.append(wc.as_str());
                    block.append("\n```\n\n");
                    self.write(block.as_str());
                }
                self.print_docs(impl_item);
                self.mark_impl_printed(imp, impl_item.id);
                self.post_increment_current_level();
            }
            proof {
                assert forall|r: int| 0 <= r < j + 1 implies self.printed_ids@.contains_key((#[trigger] implementors@[r]).id) by {
                    if r < j {
                        assert(sj.printed_ids@.contains_key(implementors@[r].id));
                    }
                }
            }
        }
        let ghost se = *self;
        self.pop_level();
        self.post_increment_current_level();
        proof {
            assert(se.grew_from(&s_head));
            assert(self.grew_from(&s_head));
            assert forall|i: int| 0 <= i < impl_ids@.len() && s0.selected_ids@.contains(#[trigger] impl_ids@[i])
                && krate.index_map().contains_key(impl_ids@[i]) && krate.index_map()[impl_ids@[i]].inner is Impl
                implies self.printed_ids@.contains_key(impl_ids@[i]) by {
                let r = choose|r: int| 0 <= r < implementors@.len() && (#[trigger] implementors@[r]).id == impl_ids@[i];
                assert(se.printed_ids@.contains_key(implementors@[r].id));
            }
        }
    }

    /// The module the current module path names: the first module (in the order of
    /// the crate's ids) whose path ends with the last name on it; the crate root
    /// otherwise.
    fn current_module_id(&self) -> (res: Id)
        ensures
            self.current_module_path@.len() == 0 ==> res == self.krate.root_id(),
            self.current_module_path@.len() > 0 ==> {
                let name = self.current_module_path@.last()@;
                let ids = self.krate.id_seq();
                &&& (exists|j: int| 0 <= j < ids.len() && #[trigger] names_module(self.krate, self.resolved_modules@, ids[j], name))
                    ==> exists|j: int| 0 <= j < ids.len() && res == ids[j] && #[trigger] names_module(self.krate, self.resolved_modules@, ids[j], name)
                    && forall|q: int| 0 <= q < j ==> !#[trigger] names_module(self.krate, self.resolved_modules@, ids[q], name)
                &&& !(exists|j: int| 0 <= j < ids.len() && #[trigger] names_module(self.krate, self.resolved_modules@, ids[j], name))
                    ==> res == self.krate.root_id()
            },
    {
        let krate = self.krate;
        let n = self.current_module_path.len();
        if n == 0 {
            return krate.root();
        }
        let name = &self.current_module_path[n - 1];
        assert(self.current_module_path@.last()@ == name@);
        let ids = krate.ids();
        let m = ids.len();
        for i in 0..m
            invariant
                m == ids@.len(),
                ids@ == krate.id_seq(),
                krate == self.krate,
                n == self.current_module_path@.len(),
                n > 0,
                *name == self.current_module_path@[n - 1],
                forall|q: int| 0 <= q < i ==> !#[trigger] names_module(krate, self.resolved_modules@, ids@[q], name@),
        {
            let id = ids[i];
            if self.resolved_modules.contains_key(&id) {
                if let Some(summary) = krate.get_path(id) {
                    let len = summary.path.len();
                    if len > 0 && summary.path[len - 1] == *name {
                        assert(names_module(krate, self.resolved_modules@, ids@[i as int], name@));
                        assert(self.current_module_path@.last()@ == name@);
                        assert(forall|q: int| 0 <= q < i ==> !#[trigger] names_module(self.krate, self.resolved_modules@, self.krate.id_seq()[q], self.current_module_path@.last()@));
                        return id;
                    }
                }
            }
        }
        krate.root()
    }

    /// A copy of the common traits of a module, none when it has none recorded.
    fn module_common_of(&self, module_id: Id) -> (res: Vec<FormattedTraitImpl>)
        ensures
            !self.module_common_traits@.contains_key(module_id) ==> res@.len() == 0,
            self.module_common_traits@.contains_key(module_id) ==> {
                let list = self.module_common_traits@[module_id]@;
                &&& res@.len() == list.len()
                &&& forall|i: int| 0 <= i < list.len() ==> crate::traits::same_trait_impl(#[trigger] res@[i], list[i])
                    && res@[i].formatted_markdown_list_entry@ == list[i].formatted_markdown_list_entry@
                    && res@[i].impl_id == list[i].impl_id
            },
    {
        let mut res: Vec<FormattedTraitImpl> = Vec::new();
        if let Some(list) = self.module_common_traits.get(&module_id) {
            let n = list.len();
            for i in 0..n
                invariant
                    n == list@.len(),
                    res@.len() == i,
                    forall|q: int| 0 <= q < i ==> crate::traits::same_trait_impl(#[trigger] res@[q], list@[q])
                        && res@[q].formatted_markdown_list_entry@ == list@[q].formatted_markdown_list_entry@
                        && res@[q].impl_id == list@[q].impl_id,
            {
                res.push(list[i].copy());
            }
        }
        res
    }

    /// Whether the list holds a normalized impl that is the same as `t`.
    fn holds_same(list: &Vec<FormattedTraitImpl>, t: &FormattedTraitImpl) -> (res: Option<usize>)
        ensures
            match res {
                Some(j) => j < list@.len() && crate::traits::same_trait_impl(list@[j as int], *t),
                None => forall|j: int| 0 <= j < list@.len() ==> !crate::traits::same_trait_impl(#[trigger] list@[j], *t),
            },
    {
        let n = list.len();
        for j in 0..n
            invariant
                n == list@.len(),
                forall|q: int| 0 <= q < j ==> !crate::traits::same_trait_impl(#[trigger] list@[q], *t),
        {
            if list[j].eq(t) {
                return Some(j);
            }
        }
        None
    }

    /// Prints the implementations of a struct, enum, union or primitive: its
    /// inherent impls in full, then a "Trait Implementations" section with the
    /// traits that are not common in the current module and a note on the module's
    /// common traits it does not implement.
    #[verifier::spinoff_prover]
    #[verifier::rlimit(100)]
    fn print_item_implementations(&mut self, impl_ids: &Vec<Id>, target_item: &Item)
        requires
            old(self).doc_path@.len() + 8 < usize::MAX,
            declarations_named(old(self).krate),
            old(self).krate.wf(),
        ensures
            final(self).stepped_from(old(self)),
            same_level(old(self).doc_path@, final(self).doc_path@),
            forall|i: int| 0 <= i < impl_ids@.len() && #[trigger] impl_for(old(self).krate, impl_ids@[i], target_item.id)
                && old(self).selected_ids@.contains(impl_ids@[i]) ==> final(self).printed_ids@.contains_key(impl_ids@[i]),
            exists|inherent_part: Seq<char>, trait_part: Seq<char>, dp: Seq<usize>|
                #[trigger] implementations_shape(old(self).output@, final(self).output@, inherent_part, trait_part, dp, *target_item)
                && same_level(old(self).doc_path@, dp)
                && (inherent_impl_pending(old(self).krate, impl_ids@, target_item.id, old(self).selected_ids@, old(self).printed_ids@)
                    ==> inherent_part.len() > 0)
                && (trait_impl_pending(old(self).krate, impl_ids@, target_item.id, old(self).selected_ids@, old(self).printed_ids@)
                    && !inherent_impl_pending(old(self).krate, impl_ids@, target_item.id, old(self).selected_ids@, old(self).printed_ids@)
                    && (forall|m: Id| !#[trigger] old(self).module_common_traits@.contains_key(m)) ==> trait_part.len() > 0),
    {
        let ghost inh = inherent_impl_pending(self.krate, impl_ids@, target_item.id, self.selected_ids@, self.printed_ids@);
        let ghost trp = trait_impl_pending(self.krate, impl_ids@, target_item.id, self.selected_ids@, self.printed_ids@);
        let ghost no_mc = forall|m: Id| !#[trigger] self.module_common_traits@.contains_key(m);
        let krate = self.krate;
        let target_item_id = target_item.id;
        let target_name: String = match &target_item.name {
            Some(n) => n.clone(),
            None => match &target_item.inner {
                ItemEnum::Primitive(p) => p.name.clone(),
                _ => String::from_str("{unknown_item_type}"),
            },
        };
        let mut specific: Vec<(&'a Item, &'a crate::model::Impl)> = Vec::new();
        let n = impl_ids.len();
        for i in 0..n
            invariant
                n == impl_ids@.len(),
                krate == self.krate,
                krate.wf(),
                forall|r: int| 0 <= r < specific@.len() ==> krate.index_map().contains_key((#[trigger] specific@[r]).0.id)
                    && *specific@[r].0 == krate.index_map()[specific@[r].0.id]
                    && specific@[r].0.inner == ItemEnum::Impl(*specific@[r].1)
                    && impl_ids@.contains(specific@[r].0.id) && impl_for(krate, specific@[r].0.id, target_item_id)
                    && self.selected_ids@.contains(specific@[r].0.id),
                forall|j: int| 0 <= j < i && #[trigger] impl_for(krate, impl_ids@[j], target_item_id)
                    && self.selected_ids@.contains(impl_ids@[j])
                    ==> exists|r: int| 0 <= r < specific@.len() && (#[trigger] specific@[r]).0.id == impl_ids@[j],
        {
            let ghost sp = specific@;
            if let Some(impl_item) = krate.get(impl_ids[i]) {
                proof {
                    krate.lemma_wf_item_id(impl_ids@[i as int]);
                }
                if self.selected_ids.contains(&impl_item.id) {
                    if let ItemEnum::Impl(imp) = &impl_item.inner {
                        if crate::deps::get_type_id(&imp.for_) == Some(target_item_id) {
                            specific.push((impl_item, imp));
                            proof {
                                assert(specific@[specific@.len() - 1].0.id == impl_ids@[i as int]);
                                assert forall|r: int| 0 <= r < specific@.len() implies krate.index_map().contains_key((#[trigger] specific@[r]).0.id)
                                    && *specific@[r].0 == krate.index_map()[specific@[r].0.id]
                                    && specific@[r].0.inner == ItemEnum::Impl(*specific@[r].1)
                                    && impl_ids@.contains(specific@[r].0.id) && impl_for(krate, specific@[r].0.id, target_item_id)
                                    && self.selected_ids@.contains(specific@[r].0.id) by {
                                    if r < sp.len() {
                                        assert(specific@[r] == sp[r]);
                                    } else {
                                        assert(impl_ids@[i as int] == specific@[r].0.id);
                                    }
                                }
                            }
                        }
                    }
                }
            }
            proof {
                assert forall|j: int| 0 <= j < i + 1 && #[trigger] impl_for(krate, impl_ids@[j], target_item_id)
                    && self.selected_ids@.contains(impl_ids@[j])
                    implies exists|r: int| 0 <= r < specific@.len() && (#[trigger] specific@[r]).0.id == impl_ids@[j] by {
                    if j < i {
                        let r = choose|r: int| 0 <= r < sp.len() && (#[trigger] sp[r]).0.id == impl_ids@[j];
                        assert(specific@[r] == sp[r]);
                    } else {
                        krate.lemma_wf_item_id(impl_ids@[j]);
                        assert(specific@[specific@.len() - 1].0.id == impl_ids@[j]);
                    }
                }
            }
        }
        let ghost s0 = *self;
        let m = specific.len();
        proof {
            assert forall|r: int| 0 <= r < specific@.len() implies #[trigger] pending_candidate(krate, impl_ids@, target_item.id,
                s0.selected_ids@, specific@[r].0.id, *specific@[r].1) by {
                let q = choose|q: int| 0 <= q < impl_ids@.len() && impl_ids@[q] == specific@[r].0.id;
            }
        }
        for i in 0..m
            invariant
                m == specific@.len(),
                self.stepped_from(&s0),
                same_level(s0.doc_path@, self.doc_path@),
                s0.doc_path@.len() + 8 < usize::MAX,
                declarations_named(self.krate),
                self.krate.wf(),
                forall|r: int| 0 <= r < i && (#[trigger] specific@[r]).1.trait_ is None
                    ==> self.printed_ids@.contains_key(specific@[r].0.id),
                self.output@.len() > s0.output@.len() || self.printed_ids@ == s0.printed_ids@,
                self.output@.len() > s0.output@.len() || !exists|r: int| 0 <= r < i
                    && (#[trigger] specific@[r]).1.trait_ is None && !s0.printed_ids@.contains_key(specific@[r].0.id),
                !inh ==> self.printed_ids == s0.printed_ids && self.output == s0.output,
                inh == inherent_impl_pending(krate, impl_ids@, target_item.id, s0.selected_ids@, s0.printed_ids@),
                forall|r: int| 0 <= r < specific@.len() ==> #[trigger] pending_candidate(krate, impl_ids@, target_item.id,
                    s0.selected_ids@, specific@[r].0.id, *specific@[r].1),
                krate == self.krate,
        {
            let ghost si = *self;
            let (impl_item, imp) = specific[i];
            if imp.trait_.is_none() && !self.printed_ids.contains_key(&impl_item.id) {
                proof {
                    if !inh {
                        assert(pending_candidate(krate, impl_ids@, target_item.id, s0.selected_ids@, specific@[i as int].0.id, *specific@[i as int].1));
                        lemma_candidate_pending(krate, impl_ids@, target_item.id, s0.selected_ids@, s0.printed_ids@, impl_item.id, *imp);
                    }
                }
                self.print_impl_block_details(impl_item, imp);
                proof {
                    lemma_heading_grows(si.output@, self.output@, crate::impls::impl_decl_text(si.krate, *imp), si.doc_path@);
                }
            }
            proof {
                assert forall|r: int| 0 <= r < i + 1 && (#[trigger] specific@[r]).1.trait_ is None
                    implies self.printed_ids@.contains_key(specific@[r].0.id) by {
                    if r < i {
                        assert(si.printed_ids@.contains_key(specific@[r].0.id));
                    }
                }
            }
        }
        let ghost st = *self;
        proof {
            if inherent_impl_pending(old(self).krate, impl_ids@, target_item.id, old(self).selected_ids@, old(self).printed_ids@) {
                let i = choose|i: int| 0 <= i < impl_ids@.len() && #[trigger] impl_for(krate, impl_ids@[i], target_item.id)
                    && old(self).selected_ids@.contains(impl_ids@[i]) && !old(self).printed_ids@.contains_key(impl_ids@[i])
                    && (match krate.index_map()[impl_ids@[i]].inner {
                        ItemEnum::Impl(imp) => imp.trait_ is None,
                        _ => false,
                    });
                let r = choose|r: int| 0 <= r < specific@.len() && (#[trigger] specific@[r]).0.id == impl_ids@[i];
                assert(specific@[r].1.trait_ is None);
                assert(st.output@.len() > old(self).output@.len());
            }
        }
        let mut trait_impl_data: Vec<FormattedTraitImpl> = Vec::new();
        for i in 0..m
            invariant
                m == specific@.len(),
                forall|r: int| 0 <= r < i && (#[trigger] specific@[r]).1.trait_ is Some
                    && !self.printed_ids@.contains_key(specific@[r].0.id) ==> exists|t: int|
                    0 <= t < trait_impl_data@.len() && (#[trigger] trait_impl_data@[t]).impl_id == Some(specific@[r].0.id),
        {
            let ghost tb = trait_impl_data@;
            let (impl_item, imp) = specific[i];
            if !self.printed_ids.contains_key(&impl_item.id) {
                if let Some(tp) = &imp.trait_ {
                    trait_impl_data.push(self.normalize_impl(imp, Some(impl_item.id), tp));
                }
            }
            proof {
                assert forall|r: int| 0 <= r < i + 1 && (#[trigger] specific@[r]).1.trait_ is Some
                    && !self.printed_ids@.contains_key(specific@[r].0.id) implies exists|t: int|
                    0 <= t < trait_impl_data@.len() && (#[trigger] trait_impl_data@[t]).impl_id == Some(specific@[r].0.id) by {
                    if r < i {
                        let t = choose|t: int| 0 <= t < tb.len() && (#[trigger] tb[t]).impl_id == Some(specific@[r].0.id);
                        assert(trait_impl_data@[t] == tb[t]);
                    } else {
                        assert(trait_impl_data@[trait_impl_data@.len() - 1].impl_id == Some(specific@[r].0.id));
                    }
                }
            }
        }
        proof {
            assert forall|i: int| 0 <= i < impl_ids@.len() && #[trigger] impl_for(krate, impl_ids@[i], target_item.id)
                && s0.selected_ids@.contains(impl_ids@[i]) implies st.printed_ids@.contains_key(impl_ids@[i])
                || exists|t: int| 0 <= t < trait_impl_data@.len() && (#[trigger] trait_impl_data@[t]).impl_id == Some(impl_ids@[i])
                by {
                let r = choose|r: int| 0 <= r < specific@.len() && (#[trigger] specific@[r]).0.id == impl_ids@[i];
                if specific@[r].1.trait_ is None {
                } else if !st.printed_ids@.contains_key(specific@[r].0.id) {
                }
            }
        }
        proof {
            if trp && !inh {
                let x = choose|x: int| 0 <= x < impl_ids@.len() && #[trigger] impl_for(krate, impl_ids@[x], target_item.id)
                    && old(self).selected_ids@.contains(impl_ids@[x]) && !old(self).printed_ids@.contains_key(impl_ids@[x])
                    && (match krate.index_map()[impl_ids@[x]].inner {
                        ItemEnum::Impl(imp) => imp.trait_ is Some,
                        _ => false,
                    });
                let r = choose|r: int| 0 <= r < specific@.len() && (#[trigger] specific@[r]).0.id == impl_ids@[x];
                assert(specific@[r].1.trait_ is Some);
                assert(!st.printed_ids@.contains_key(specific@[r].0.id));
                assert(trait_impl_data@.len() > 0);
            }
        }
        proof {
            let ip = st.output@.subrange(old(self).output@.len() as int, st.output@.len() as int);
            assert(st.output@ =~= old(self).output@ + ip);
            assert(trait_section_shape(Seq::empty(), st.doc_path@, *target_item));
            assert(self.output@ =~= old(self).output@ + ip + Seq::empty());
            assert(implementations_shape(old(self).output@, self.output@, ip, Seq::empty(), st.doc_path@, *target_item));
        }
        if trait_impl_data.len() == 0 {
            return;
        }
        let current_module_id = self.current_module_id();
        let module_common = self.module_common_of(current_module_id);
        proof {
            if no_mc {
                assert(self.module_common_traits == old(self).module_common_traits);
                assert(!self.module_common_traits@.contains_key(current_module_id));
                assert(module_common@.len() == 0);
            }
        }
        let mut found: Vec<bool> = Vec::new();
        let mc = module_common.len();
        for j in 0..mc
            invariant
                found@.len() == j,
        {
            found.push(false);
        }
        let mut non_common: Vec<FormattedTraitImpl> = Vec::new();
        let ghost s1 = *self;
        let tn = trait_impl_data.len();
        for i in 0..tn
            invariant
                tn == trait_impl_data@.len(),
                found@.len() == mc,
                mc == module_common@.len(),
                self.stepped_from(&s1),
                self.output == s1.output,
                self.doc_path@ == s1.doc_path@,
                krate == self.krate,
                forall|t: int| 0 <= t < i && stands_for_impl(krate, #[trigger] trait_impl_data@[t])
                    ==> self.printed_ids@.contains_key(impl_item_id(krate, trait_impl_data@[t]))
                    || exists|u: int| 0 <= u < non_common@.len() && (#[trigger] non_common@[u]).impl_id == trait_impl_data@[t].impl_id,
                mc == 0 ==> non_common@.len() == i,
        {
            let ghost si = *self;
            let ghost nb = non_common@;
            let nt = &trait_impl_data[i];
            match Self::holds_same(&module_common, nt) {
                Some(j) => {
                    found.set(j, true);
                    if let Some((imp, impl_id)) = nt.get_impl_data(self.krate) {
                        self.mark_impl_printed(imp, impl_id);
                    }
                },
                None => {
                    non_common.push(nt.copy());
                },
            }
            proof {
                assert forall|t: int| 0 <= t < i + 1 && stands_for_impl(krate, #[trigger] trait_impl_data@[t])
                    implies self.printed_ids@.contains_key(impl_item_id(krate, trait_impl_data@[t]))
                    || exists|u: int| 0 <= u < non_common@.len() && (#[trigger] non_common@[u]).impl_id == trait_impl_data@[t].impl_id by {
                    if t < i {
                        if si.printed_ids@.contains_key(impl_item_id(krate, trait_impl_data@[t])) {
                        } else {
                            let u = choose|u: int| 0 <= u < nb.len() && (#[trigger] nb[u]).impl_id == trait_impl_data@[t].impl_id;
                            assert(non_common@[u] == nb[u]);
                        }
                    } else if non_common@.len() > nb.len() {
                        assert(non_common@[non_common@.len() - 1].impl_id == trait_impl_data@[t].impl_id);
                    }
                }
            }
        }
        let ghost s2 = *self;
        proof {
            assert forall|i: int| 0 <= i < impl_ids@.len() && #[trigger] impl_for(krate, impl_ids@[i], target_item.id)
                && s0.selected_ids@.contains(impl_ids@[i]) implies s2.printed_ids@.contains_key(impl_ids@[i])
                || exists|u: int| 0 <= u < non_common@.len() && (#[trigger] non_common@[u]).impl_id == Some(impl_ids@[i]) by {
                if st.printed_ids@.contains_key(impl_ids@[i]) {
                    assert(s2.grew_from(&st));
                } else {
                    let t = choose|t: int| 0 <= t < trait_impl_data@.len() && (#[trigger] trait_impl_data@[t]).impl_id == Some(impl_ids@[i]);
                    krate.lemma_wf_item_id(impl_ids@[i]);
                    assert(stands_for_impl(krate, trait_impl_data@[t]));
                }
            }
        }
        let mut missing: Vec<String> = Vec::new();
        for j in 0..mc
            invariant
                found@.len() == mc,
                mc == module_common@.len(),
        {
            if !found[j] {
                missing.push(backticked(module_common[j].formatted_markdown_list_entry.as_str()));
            }
        }
        if non_common.len() == 0 && missing.len() == 0 {
            return;
        }
        let ghost s_tr = *self;
        let mut title = String::from_str("Trait Implementations for `");
        title.append(target_name.as_str());
        title.append("`");
        proof {
            reveal_strlit("");
            assert(title@ =~= "Trait Implementations for `"@ + target_display_name(*target_item) + "`"@);
        }
        self.write_header("", title.as_str(), "\n\n");
        if missing.len() > 0 {
            let copied = copy_string_slice(missing.as_slice());
            assert(views(copied@).len() == copied@.len());
            assert(views(missing@).len() == missing@.len());
            let keys = crate::order::single_keys(copied);
            let indices = missing_indices(missing.len());
            let sorted = crate::order::sort_by_keys(&indices, &keys);
            proof {
                assert forall|r: int| 0 <= r < sorted@.len() implies (#[trigger] sorted@[r]) < missing@.len() by {
                    assert(indices@.contains(sorted@[r]));
                    let j = choose|j: int| 0 <= j < indices@.len() && indices@[j] == sorted@[r];
                }
            }
            let mut names: Vec<String> = Vec::new();
            let k = sorted.len();
            for q in 0..k
                invariant
                    k == sorted@.len(),
                    forall|r: int| 0 <= r < k ==> (#[trigger] sorted@[r]) < missing@.len(),
            {
                names.push(missing[sorted[q]].clone());
            }
            let joined = join_strings(&names, "`, `");
            let mut note = String::from_str("**(Note: Does not implement `");
            note.append(joined.as_str());
            note.append("`)**\n\n");
            self.write(note.as_str());
        }
        let ghost s3 = *self;
        let formatted_list = self.format_trait_list(&non_common);
        let ghost s4 = *self;
        if !formatted_list.as_str().is_empty() {
            self.write(formatted_list.as_str());
        }
        self.post_increment_current_level();
        proof {
            let ip = st.output@.subrange(old(self).output@.len() as int, st.output@.len() as int);
            assert(st.output@ =~= old(self).output@ + ip);
            assert(s_tr.output == st.output);
            let h = header_line(s_tr.doc_path@, Seq::empty(), "Trait Implementations for `"@ + target_display_name(*target_item) + "`"@, "\n\n"@);
            assert(s_tr.grew_from(&st));
            let tp = self.output@.subrange(st.output@.len() as int, self.output@.len() as int);
            assert(self.output@ =~= old(self).output@ + ip + tp);
            assert(self.grew_from(&s3));
            assert((st.output@ + h).is_prefix_of(s3.output@));
            assert(tp.subrange(0, h.len() as int) =~= h) by {
                assert forall|c: int| 0 <= c < h.len() implies tp[c] == h[c] by {
                    assert(s3.output@[st.output@.len() + c] == (st.output@ + h)[st.output@.len() + c]);
                    assert(self.output@[st.output@.len() + c] == s3.output@[st.output@.len() + c]);
                }
            }
            assert(trait_section_shape(tp, s_tr.doc_path@, *target_item));
            assert(h.len() > 0);
            assert(tp.len() > 0);
            assert(implementations_shape(old(self).output@, self.output@, ip, tp, s_tr.doc_path@, *target_item));
        }
        proof {
            assert(self.grew_from(&s4));
            assert(s3.grew_from(&s2));
            assert forall|i: int| 0 <= i < impl_ids@.len() && #[trigger] impl_for(krate, impl_ids@[i], target_item.id)
                && s0.selected_ids@.contains(impl_ids@[i]) implies self.printed_ids@.contains_key(impl_ids@[i]) by {
                if s2.printed_ids@.contains_key(impl_ids@[i]) {
                    assert(s3.printed_ids@.contains_key(impl_ids@[i]));
                    assert(s4.printed_ids@.contains_key(impl_ids@[i]));
                } else {
                    let u = choose|u: int| 0 <= u < non_common@.len() && (#[trigger] non_common@[u]).impl_id == Some(impl_ids@[i]);
                    krate.lemma_wf_item_id(impl_ids@[i]);
                    assert(stands_for_impl(krate, non_common@[u]));
                    assert(s4.printed_ids@.contains_key(impl_item_id(krate, non_common@[u])));
                }
            }
        }
    }

    /// Prints a selected item: a cross-reference when it was printed before;
    /// otherwise its header, code block, documentation, fields, variants or
    /// associated items, and implementations. Tells whether it printed it in full.
    #[verifier::spinoff_prover]
    #[verifier::rlimit(40)]
    fn print_item_details(&mut self, id: Id) -> (res: bool)
        requires
            old(self).doc_path@.len() + 10 < usize::MAX,
            declarations_named(old(self).krate),
            old(self).krate.wf(),
        ensures
            final(self).stepped_from(old(self)),
            same_level(old(self).doc_path@, final(self).doc_path@),
            res == prints_in_full(old(self).krate, old(self).selected_ids@, old(self).printed_ids@, id),
            res ==> final(self).printed_ids@.contains_key(id),
            res ==> final(self).printed_ids@[id]@ == header_prefix_text(old(self).doc_path@),
            !res ==> final(self).printed_ids@ == old(self).printed_ids@,
            final(self).doc_path@ == old(self).doc_path@,
            res ==> impls_shown(old(self).krate, old(self).selected_ids@, final(self).printed_ids@, id),
            res ==> members_shown(old(self).krate, old(self).selected_ids@, final(self).printed_ids@, id),
            old(self).selected_ids@.contains(id) && old(self).krate.index_map().contains_key(id)
                && !(old(self).krate.index_map()[id].inner is Use || old(self).krate.index_map()[id].inner is Module)
                ==> final(self).printed_ids@.contains_key(id),
            res ==> (old(self).output@ + header_line(
                old(self).doc_path@,
                "\n"@,
                "`"@ + crate::decl::declaration_text(old(self).krate, old(self).krate.index_map()[id], old(self).current_module_path@) + "`"@,
                "\n\n"@,
            )).is_prefix_of(final(self).output@),
            !(old(self).selected_ids@.contains(id) && old(self).krate.index_map().contains_key(id)
                && !(old(self).krate.index_map()[id].inner is Use || old(self).krate.index_map()[id].inner is Module))
                ==> final(self).output@ == old(self).output@,
            old(self).selected_ids@.contains(id) && old(self).krate.index_map().contains_key(id)
                && !(old(self).krate.index_map()[id].inner is Use || old(self).krate.index_map()[id].inner is Module)
                && old(self).printed_ids@.contains_key(id) ==> final(self).output@ == old(self).output@ + header_line(
                old(self).doc_path@,
                "\n"@,
                "`"@ + crate::decl::declaration_text(old(self).krate, old(self).krate.index_map()[id], old(self).current_module_path@) + "`"@,
                " (See section "@ + old(self).printed_ids@[id]@ + " for details)\n\n"@,
            ),
    {
        if !self.selected_ids.contains(&id) {
            return false;
        }
        let krate = self.krate;
        let item = match krate.get(id) {
            Some(it) => it,
            None => {
                return false;
            },
        };
        match &item.inner {
            ItemEnum::Use(_) | ItemEnum::Module(_) => {
                return false;
            },
            _ => {},
        }
        let declaration = crate::decl::generate_item_declaration(item, krate, self.current_module_path.as_slice());
        let mut title = String::from_str("`");
        title.append(declaration.as_str());
        title.append("`");
        if let Some(existing_prefix) = self.printed_ids.get(&id) {
            let mut tail = String::from_str(" (See section ");
            tail.append(existing_prefix.as_str());
            tail.append(" for details)\n\n");
            self.write_header("\n", title.as_str(), tail.as_str());
            return false;
        }
        self.mark_printed_here(id);
        let ghost s0 = *self;
        self.write_header("\n", title.as_str(), "\n\n");
        let ghost s_head = *self;
        self.push_level();
        proof {
            assert(krate.index_map().contains_key(id));
            assert(item.name is Some || !(item.inner is Struct || item.inner is Enum || item.inner is Union
                || item.inner is Trait || item.inner is Function));
        }
        let code_block: Option<String> = match &item.inner {
            ItemEnum::Struct(st) => Some(crate::decl::generate_struct_code_block(item, st, krate)),
            ItemEnum::Enum(e) => Some(crate::decl::generate_enum_code_block(item, e, krate)),
            ItemEnum::Union(u) => Some(crate::decl::generate_union_code_block(item, u, krate)),
            ItemEnum::Trait(t) => {
                proof {
                    lemma_functions_named(krate, t.items@);
                }
                Some(crate::decl::generate_trait_code_block(item, t, krate))
            },
            ItemEnum::Function(f) => {
                let has_attrs = f.header.is_const || f.header.is_async || f.header.is_unsafe || !matches!(
                    f.header.abi,
                    crate::model::Abi::Rust
                ) || item.attrs.len() > 0;
                let has_where = f.generics.where_predicates.len() > 0;
                if has_attrs || has_where {
                    Some(crate::decl::generate_function_code_block(item, f, krate))
                } else {
                    None
                }
            },
            _ => None,
        };
        if let Some(code) = code_block {
            let mut block = String::from_str("```rust\n");
            block.append(code.as_str());
            block.append("\n```\n\n");
            self.write(block.as_str());
        }
        let has_stripped = match &item.inner {
            ItemEnum::Struct(st) => match &st.kind {
                crate::model::StructKind::Plain { has_stripped_fields, .. } => *has_stripped_fields,
                _ => false,
            },
            _ => false,
        };
        if has_stripped {
            self.write("_[Private fields hidden]_\n\n");
        }
        self.print_docs(item);
        match &item.inner {
            ItemEnum::Struct(st) => self.print_struct_fields(st),
            ItemEnum::Enum(e) => self.print_enum_variants(e),
            ItemEnum::Union(u) => self.print_union_fields(u),
            ItemEnum::Trait(t) => self.print_trait_associated_items(t),
            _ => {},
        }
        assert(members_shown(krate, s0.selected_ids@, self.printed_ids@, id));
        let ghost s_members = *self;
        proof {
            krate.lemma_wf_item_id(id);
        }
        match &item.inner {
            ItemEnum::Struct(st) => self.print_item_implementations(&st.impls, item),
            ItemEnum::Enum(e) => self.print_item_implementations(&e.impls, item),
            ItemEnum::Trait(t) => self.print_trait_implementors(&t.implementations),
            ItemEnum::Union(u) => self.print_item_implementations(&u.impls, item),
            ItemEnum::Primitive(p) => self.print_item_implementations(&p.impls, item),
            _ => {},
        }
        assert(impls_shown(krate, s0.selected_ids@, self.printed_ids@, id));
        assert(self.grew_from(&s_members));
        assert(members_shown(krate, s0.selected_ids@, self.printed_ids@, id)) by {
            match krate.index_map()[id].inner {
                ItemEnum::Struct(st) => {
                    assert forall|i: int| 0 <= i < struct_field_ids(st.kind).len() && s0.selected_ids@.contains(
                        #[trigger] struct_field_ids(st.kind)[i]) implies self.printed_ids@.contains_key(struct_field_ids(st.kind)[i]) by {
                        assert(s_members.printed_ids@.contains_key(struct_field_ids(st.kind)[i]));
                    }
                },
                ItemEnum::Union(u) => {
                    assert forall|i: int| 0 <= i < u.fields@.len() && s0.selected_ids@.contains(#[trigger] u.fields@[i])
                        implies self.printed_ids@.contains_key(u.fields@[i]) by {
                        assert(s_members.printed_ids@.contains_key(u.fields@[i]));
                    }
                },
                ItemEnum::Enum(e) => {
                    assert forall|i: int| 0 <= i < e.variants@.len() && s0.selected_ids@.contains(#[trigger] e.variants@[i])
                        implies self.printed_ids@.contains_key(e.variants@[i]) by {
                        assert(s_members.printed_ids@.contains_key(e.variants@[i]));
                    }
                },
                ItemEnum::Trait(t) => {
                    assert forall|i: int| 0 <= i < t.items@.len() && s0.selected_ids@.contains(#[trigger] t.items@[i])
                        implies self.printed_ids@.contains_key(t.items@[i]) by {
                        assert(s_members.printed_ids@.contains_key(t.items@[i]));
                    }
                },
                _ => {},
            }
        }
        self.pop_level();
        assert(self.doc_path@ =~= s0.doc_path@);
        assert(s0.printed_ids@.contains_key(id));
        assert(s_head.output@.is_prefix_of(self.output@));
        true
    }

    /// Prints a section of the selected items of one kind among `item_ids`, sorted by
    /// name; tells whether there were any.
    fn print_items_of_kind(&mut self, item_ids: &Vec<Id>, kind: ItemKind, header_name: &str) -> (res: bool)
        requires
            old(self).doc_path@.len() + 12 < usize::MAX,
            declarations_named(old(self).krate),
            old(self).krate.wf(),
        ensures
            final(self).stepped_from(old(self)),
            same_level(old(self).doc_path@, final(self).doc_path@),
            res == exists|i: int| 0 <= i < item_ids@.len() && old(self).selected_ids@.contains(#[trigger] item_ids@[i])
                && kind_of_id(old(self).krate, item_ids@[i]) == Some(kind),
            !res ==> final(self).output@ == old(self).output@,
            res ==> (old(self).output@ + header_line(old(self).doc_path@, "\n"@, header_name@, "\n"@)).is_prefix_of(final(self).output@),
            forall|i: int| 0 <= i < item_ids@.len() && #[trigger] kept_in_section(old(self).krate, old(self).selected_ids@, item_ids@[i], kind)
                ==> final(self).printed_ids@.contains_key(item_ids@[i]),
    {
        let mut items_to_print: Vec<Id> = Vec::new();
        let n = item_ids.len();
        for i in 0..n
            invariant
                n == item_ids@.len(),
                items_to_print@.len() == 0 ==> forall|j: int| 0 <= j < i ==> !(self.selected_ids@.contains(
                    #[trigger] item_ids@[j],
                ) && kind_of_id(self.krate, item_ids@[j]) == Some(kind)),
                items_to_print@.len() > 0 ==> exists|j: int| 0 <= j < i && self.selected_ids@.contains(
                    #[trigger] item_ids@[j],
                ) && kind_of_id(self.krate, item_ids@[j]) == Some(kind),
                forall|j: int| 0 <= j < i && #[trigger] kept_in_section(self.krate, self.selected_ids@, item_ids@[j], kind)
                    ==> items_to_print@.contains(item_ids@[j]),
        {
            let id = item_ids[i];
            let ghost before = items_to_print@;
            if self.selected_ids.contains(&id) && self.get_item_kind(id) == Some(kind) {
                items_to_print.push(id);
                proof {
                    assert(items_to_print@[items_to_print@.len() - 1] == id);
                    assert forall|j: int| 0 <= j < i && #[trigger] kept_in_section(self.krate, self.selected_ids@, item_ids@[j], kind)
                        implies items_to_print@.contains(item_ids@[j]) by {
                        let q = choose|q: int| 0 <= q < before.len() && before[q] == item_ids@[j];
                        assert(items_to_print@[q] == item_ids@[j]);
                    }
                }
            }
        }
        if items_to_print.len() == 0 {
            return false;
        }
        let unsorted = items_to_print;
        let items_to_print = sort_ids_by_name(&unsorted, self.krate);
        let ghost s0 = *self;
        self.write_header("\n", header_name, "\n");
        let ghost s_head = *self;
        self.push_level();
        let m = items_to_print.len();
        for i in 0..m
            invariant
                m == items_to_print@.len(),
                self.stepped_from(&s0),
                s_head.output@.is_prefix_of(self.output@),
                forall|q: int| 0 <= q < i && #[trigger] qualifies(self.krate, self.selected_ids@, items_to_print@[q])
                    ==> self.printed_ids@.contains_key(items_to_print@[q]),
                self.doc_path@.len() == s0.doc_path@.len() + 1,
                self.doc_path@.drop_last() == s0.doc_path@,
                s0.doc_path@.len() + 12 < usize::MAX,
                declarations_named(self.krate),
                self.krate.wf(),
        {
            let ghost pb = self.printed_ids@;
            self.print_item_details(items_to_print[i]);
            self.post_increment_current_level();
            proof {
                assert forall|q: int| 0 <= q < i + 1 && #[trigger] qualifies(self.krate, self.selected_ids@, items_to_print@[q])
                    implies self.printed_ids@.contains_key(items_to_print@[q]) by {
                    if q < i {
                        assert(pb.contains_key(items_to_print@[q]));
                    }
                }
            }
        }
        self.pop_level();
        assert(self.doc_path@ =~= s0.doc_path@);
        assert(s_head.output@.is_prefix_of(self.output@));
        proof {
            assert forall|i: int| 0 <= i < item_ids@.len() && #[trigger] kept_in_section(s0.krate, s0.selected_ids@, item_ids@[i], kind)
                implies self.printed_ids@.contains_key(item_ids@[i]) by {
                assert(unsorted@.contains(item_ids@[i]));
                let u = choose|u: int| 0 <= u < unsorted@.len() && unsorted@[u] == item_ids@[i];
                assert(items_to_print@.contains(unsorted@[u]));
                let q = choose|q: int| 0 <= q < items_to_print@.len() && items_to_print@[q] == unsorted@[u];
                assert(qualifies(self.krate, self.selected_ids@, items_to_print@[q]));
            }
        }
        true
    }

    /// Prints the contents of a module other than its submodules: a section per kind
    /// of item, in a fixed order, for the selected items not printed before; then the
    /// selected items printed before elsewhere, as re-exports sorted by declaration.
    fn print_module_contents(&mut self, module_id: Id)
        requires
            old(self).doc_path@.len() + 13 < usize::MAX,
            declarations_named(old(self).krate),
            old(self).krate.wf(),
        ensures
            final(self).stepped_from(old(self)),
            same_level(old(self).doc_path@, final(self).doc_path@),
            old(self).resolved_modules@.contains_key(module_id) ==> forall|i: int|
                0 <= i < old(self).resolved_modules@[module_id].items@.len() && #[trigger] in_some_section(
                    old(self).krate,
                    old(self).selected_ids@,
                    old(self).resolved_modules@[module_id].items@[i],
                ) ==> final(self).printed_ids@.contains_key(old(self).resolved_modules@[module_id].items@[i]),
            !old(self).resolved_modules@.contains_key(module_id) ==> final(self).output == old(self).output,
            old(self).resolved_modules@.contains_key(module_id) ==> exists|parts: Seq<Seq<char>>, dps: Seq<Seq<usize>>|
                #[trigger] module_contents_shape(
                    old(self).krate,
                    old(self).selected_ids@,
                    old(self).printed_ids@,
                    old(self).resolved_modules@[module_id].items@,
                    old(self).doc_path@,
                    old(self).output@,
                    final(self).output@,
                    parts,
                    dps,
                ),
    {
        let ghost s_init = *self;
        let ghost sel = self.selected_ids@;
        let ghost pr = self.printed_ids@;
        let krate = self.krate;
        let items: Vec<Id> = match self.resolved_modules.get(&module_id) {
            Some(rm) => crate::select::copy_ids(&rm.items),
            None => {
                return;
            },
        };
        proof {
            lemma_section_rank();
        }
        let kinds = section_kinds();
        let mut grouped: Vec<(usize, Id)> = Vec::new();
        let mut cross_ids: Vec<(String, String)> = Vec::new();
        let n = items.len();
        for i in 0..n
            invariant
                n == items@.len(),
                kinds@.len() == 15,
                forall|q: int| 0 <= q < 15 ==> #[trigger] kinds@[q].0 == section_kind_seq()[q],
                forall|q: int| 0 <= q < 15 ==> section_rank(#[trigger] section_kind_seq()[q]) == q,
                forall|p: int| 0 <= p < grouped@.len() ==> (#[trigger] grouped@[p]).0 < 15
                    && kind_of_id(krate, grouped@[p].1) == Some(section_kind_seq()[grouped@[p].0 as int])
                    && self.selected_ids@.contains(grouped@[p].1)
                    && items@.contains(grouped@[p].1) && !pr.contains_key(grouped@[p].1),
                forall|j: int| 0 <= j < i && #[trigger] in_some_section(krate, self.selected_ids@, items@[j])
                    ==> self.printed_ids@.contains_key(items@[j]) || exists|p: int| 0 <= p < grouped@.len() && (
                    #[trigger] grouped@[p]).1 == items@[j],
                forall|j: int, q: int| #![trigger items@[j], section_kind_seq()[q]]
                    0 <= j < i && 0 <= q < 15 && sel.contains(items@[j]) && !pr.contains_key(items@[j])
                    && kind_of_id(krate, items@[j]) == Some(section_kind_seq()[q])
                    ==> exists|p: int| 0 <= p < grouped@.len() && #[trigger] grouped@[p] == (q as usize, items@[j]),
                cross_ids@.len() > 0 <==> exists|j: int| 0 <= j < i && #[trigger] sel.contains(items@[j]) && pr.contains_key(items@[j])
                    && krate.index_map().contains_key(items@[j]) && listed_elsewhere(krate.index_map()[items@[j]]),
                krate == self.krate,
                *self == s_init,
                sel == self.selected_ids@,
                pr == self.printed_ids@,
        {
            let id = items[i];
            let ghost g0 = grouped@;
            let ghost c0 = cross_ids@;
            if self.selected_ids.contains(&id) {
                if let Some(existing_prefix) = self.printed_ids.get(&id) {
                    if let Some(item) = krate.get(id) {
                        let listed = match &item.inner {
                            ItemEnum::Impl(_) | ItemEnum::Use(_) | ItemEnum::StructField(_) | ItemEnum::Variant(_)
                            | ItemEnum::AssocConst { .. } | ItemEnum::AssocType { .. } | ItemEnum::Module(_) => false,
                            _ => true,
                        };
                        assert(listed == listed_elsewhere(*item));
                        if listed {
                            let decl = crate::decl::generate_item_declaration(item, krate, self.current_module_path.as_slice());
                            cross_ids.push((decl, existing_prefix.clone()));
                        }
                    }
                } else if let Some(kind) = self.get_item_kind(id) {
                    let mut k: usize = 0;
                    let mut found = false;
                    while k < 15 && !found
                        invariant
                            kinds@.len() == 15,
                            k <= 15,
                            forall|q: int| 0 <= q < 15 ==> #[trigger] kinds@[q].0 == section_kind_seq()[q],
                            !found ==> grouped@ == g0 && forall|q: int| 0 <= q < k ==> section_kind_seq()[q] != kind,
                            found ==> grouped@.len() == g0.len() + 1 && grouped@.drop_last() == g0
                                && grouped@.last().1 == id && grouped@.last().0 < 15
                                && section_kind_seq()[grouped@.last().0 as int] == kind,
                        decreases 15 - k + (if found { 0int } else { 1int }),
                    {
                        if kinds[k].0 == kind {
                            grouped.push((k, id));
                            found = true;
                        } else {
                            k = k + 1;
                        }
                    }
                    proof {
                        if !found {
                            assert(!section_kind_seq().contains(kind)) by {
                                if section_kind_seq().contains(kind) {
                                    let q = choose|q: int| 0 <= q < section_kind_seq().len() && section_kind_seq()[q] == kind;
                                }
                            }
                        } else {
                            assert(items@[i as int] == id);
                            assert forall|p: int| 0 <= p < grouped@.len() implies (#[trigger] grouped@[p]).0 < 15
                                && kind_of_id(krate, grouped@[p].1) == Some(section_kind_seq()[grouped@[p].0 as int])
                                && self.selected_ids@.contains(grouped@[p].1)
                                && items@.contains(grouped@[p].1) && !pr.contains_key(grouped@[p].1) by {
                                if p < g0.len() {
                                    assert(grouped@[p] == g0[p]);
                                } else {
                                    assert(grouped@[p] == grouped@.last());
                                }
                            }
                        }
                    }
                }
            }
            proof {
                assert forall|j: int| 0 <= j < i + 1 && #[trigger] in_some_section(krate, self.selected_ids@, items@[j])
                    implies self.printed_ids@.contains_key(items@[j]) || exists|p: int| 0 <= p < grouped@.len() && (
                    #[trigger] grouped@[p]).1 == items@[j] by {
                    if j < i {
                        if !self.printed_ids@.contains_key(items@[j]) {
                            let p = choose|p: int| 0 <= p < g0.len() && (#[trigger] g0[p]).1 == items@[j];
                            assert(grouped@[p] == g0[p]);
                        }
                    } else if !self.printed_ids@.contains_key(items@[j]) {
                        assert(grouped@.last().1 == items@[j]);
                        assert(grouped@[grouped@.len() - 1].1 == items@[j]);
                    }
                }
                assert forall|j: int, q: int| #![trigger items@[j], section_kind_seq()[q]]
                    0 <= j < i + 1 && 0 <= q < 15 && sel.contains(items@[j]) && !pr.contains_key(items@[j])
                    && kind_of_id(krate, items@[j]) == Some(section_kind_seq()[q])
                    implies exists|p: int| 0 <= p < grouped@.len() && #[trigger] grouped@[p] == (q as usize, items@[j]) by {
                    if j < i {
                        let p = choose|p: int| 0 <= p < g0.len() && #[trigger] g0[p] == (q as usize, items@[j]);
                        assert(grouped@[p] == g0[p]);
                    } else {
                        let kd = section_kind_seq()[q];
                        assert(grouped@.len() == g0.len() + 1);
                        let r = grouped@.last().0 as int;
                        assert(section_kind_seq()[r] == kd);
                        assert(section_rank(section_kind_seq()[r]) == r);
                        assert(section_rank(section_kind_seq()[q]) == q);
                        assert(grouped@[grouped@.len() - 1] == (q as usize, items@[j]));
                    }
                }
                assert((cross_ids@.len() > 0) <==> exists|j: int| 0 <= j < i + 1 && #[trigger] sel.contains(items@[j])
                    && pr.contains_key(items@[j]) && krate.index_map().contains_key(items@[j])
                    && listed_elsewhere(krate.index_map()[items@[j]])) by {
                    if sel.contains(items@[i as int]) && pr.contains_key(items@[i as int]) && krate.index_map().contains_key(items@[i as int])
                        && listed_elsewhere(krate.index_map()[items@[i as int]]) {
                        assert(cross_ids@.len() == c0.len() + 1);
                    }
                    if cross_ids@.len() > 0 && c0.len() == 0 {
                        assert(sel.contains(items@[i as int]));
                    }
                }
            }
        }
        let ghost s0 = *self;
        assert(forall|j: int| 0 <= j < n && #[trigger] in_some_section(krate, s0.selected_ids@, items@[j])
            ==> s0.printed_ids@.contains_key(items@[j]) || exists|p: int| 0 <= p < grouped@.len() && (
            #[trigger] grouped@[p]).1 == items@[j]);
        let ghost mut parts: Seq<Seq<char>> = Seq::empty();
        let ghost mut dps: Seq<Seq<usize>> = Seq::empty();
        for k in 0..15usize
            invariant
                kinds@.len() == 15,
                forall|q: int| 0 <= q < 15 ==> #[trigger] kinds@[q].0 == section_kind_seq()[q],
                forall|q: int| 0 <= q < 15 ==> #[trigger] kinds@[q].1@ == section_title_seq()[q],
                self.stepped_from(&s0),
                same_level(s0.doc_path@, self.doc_path@),
                s0.doc_path@.len() + 13 < usize::MAX,
                declarations_named(self.krate),
                self.krate.wf(),
                krate == self.krate,
                s0 == s_init,
                n == items@.len(),
                forall|p: int| 0 <= p < grouped@.len() ==> (#[trigger] grouped@[p]).0 < 15
                    && kind_of_id(krate, grouped@[p].1) == Some(section_kind_seq()[grouped@[p].0 as int])
                    && s0.selected_ids@.contains(grouped@[p].1)
                    && items@.contains(grouped@[p].1) && !pr.contains_key(grouped@[p].1),
                forall|j: int, q: int| #![trigger items@[j], section_kind_seq()[q]]
                    0 <= j < n && 0 <= q < 15 && sel.contains(items@[j]) && !pr.contains_key(items@[j])
                    && kind_of_id(krate, items@[j]) == Some(section_kind_seq()[q])
                    ==> exists|p: int| 0 <= p < grouped@.len() && #[trigger] grouped@[p] == (q as usize, items@[j]),
                forall|p: int| 0 <= p < grouped@.len() && (#[trigger] grouped@[p]).0 < k
                    && krate.index_map().contains_key(grouped@[p].1) ==> self.printed_ids@.contains_key(grouped@[p].1),
                sel == s0.selected_ids@,
                pr == s0.printed_ids@,
                parts.len() == k,
                dps.len() == k,
                self.output@ == s0.output@ + crate::dump::concat(parts),
                forall|q: int| 0 <= q < k ==> same_level(s0.doc_path@, #[trigger] dps[q]),
                forall|q: int| 0 <= q < k ==> titled_part(#[trigger] parts[q], section_pending(krate, sel, pr, items@, section_kind_seq()[q]),
                    dps[q], section_title_seq()[q], "\n"@),
        {
            let ghost sk = *self;
            let mut group: Vec<Id> = Vec::new();
            let g = grouped.len();
            for q in 0..g
                invariant
                    g == grouped@.len(),
                    forall|r: int| 0 <= r < q && (#[trigger] grouped@[r]).0 == k ==> group@.contains(grouped@[r].1),
                    forall|t: int| 0 <= t < group@.len() ==> grouped_under(grouped@, k, q as int, #[trigger] group@[t]),
            {
                let ghost before = group@;
                if grouped[q].0 == k {
                    group.push(grouped[q].1);
                    proof {
                        assert(group@[group@.len() - 1] == grouped@[q as int].1);
                        assert forall|r: int| 0 <= r < q + 1 && (#[trigger] grouped@[r]).0 == k implies group@.contains(grouped@[r].1) by {
                            if r < q {
                                let t = choose|t: int| 0 <= t < before.len() && before[t] == grouped@[r].1;
                                assert(group@[t] == grouped@[r].1);
                            }
                        }
                        assert forall|t: int| 0 <= t < group@.len() implies grouped_under(grouped@, k, q + 1, #[trigger] group@[t]) by {
                            if t < before.len() {
                                assert(group@[t] == before[t]);
                                assert(grouped_under(grouped@, k, q as int, before[t]));
                                let r = choose|r: int| 0 <= r < q && grouped@[r].0 == k && grouped@[r].1 == before[t];
                                assert(grouped@[r].0 == k && grouped@[r].1 == group@[t]);
                            } else {
                                assert(grouped@[q as int].0 == k && grouped@[q as int].1 == group@[t]);
                            }
                        }
                    }
                }
            }
            let ghost pending = section_pending(krate, sel, pr, items@, section_kind_seq()[k as int]);
            let ghost pb = self.printed_ids@;
            if group.len() > 0 {
                proof {
                    assert(grouped_under(grouped@, k, g as int, group@[0]));
                    let r = choose|r: int| 0 <= r < g && grouped@[r].0 == k && grouped@[r].1 == group@[0];
                    let id = grouped@[r].1;
                    assert(items@.contains(id));
                    let j = choose|j: int| 0 <= j < items@.len() && items@[j] == id;
                    assert(sel.contains(items@[j]));
                }
                let sorted = sort_ids_by_name(&group, krate);
                proof {
                    assert(sorted@.contains(group@[0]));
                    let t = choose|t: int| 0 <= t < sorted@.len() && sorted@[t] == group@[0];
                    assert(grouped_under(grouped@, k, g as int, group@[0]));
                    let r = choose|r: int| 0 <= r < g && grouped@[r].0 == k && grouped@[r].1 == group@[0];
                    assert(grouped@[r].0 < 15);
                    assert(self.selected_ids@.contains(sorted@[t]));
                    assert(kind_of_id(self.krate, sorted@[t]) == Some(kinds@[k as int].0));
                }
                let printed_any = self.print_items_of_kind(&sorted, kinds[k].0, kinds[k].1);
                let ghost s_mid = *self;
                if printed_any {
                    self.post_increment_current_level();
                }
                proof {
                    assert(printed_any);
                    assert(self.output == s_mid.output);
                    assert(self.grew_from(&sk));
                    lemma_prefix_part(sk.output@, self.output@, header_line(sk.doc_path@, "\n"@, section_title_seq()[k as int], "\n"@));
                    assert forall|p: int| 0 <= p < grouped@.len() && (#[trigger] grouped@[p]).0 == k
                        && krate.index_map().contains_key(grouped@[p].1) implies self.printed_ids@.contains_key(grouped@[p].1) by {
                        let id = grouped@[p].1;
                        assert(group@.contains(id));
                        let r = choose|r: int| 0 <= r < group@.len() && group@[r] == id;
                        assert(sorted@.contains(group@[r]));
                        let t = choose|t: int| 0 <= t < sorted@.len() && sorted@[t] == id;
                        assert(kind_of_id(krate, id) == Some(section_kind_seq()[k as int]));
                        assert(kind_of(krate.index_map()[id]) == section_kind_seq()[k as int]);
                        assert(kept_in_section(krate, self.selected_ids@, sorted@[t], section_kind_seq()[k as int]));
                    }
                }
            } else {
                proof {
                    assert forall|p: int| 0 <= p < grouped@.len() && (#[trigger] grouped@[p]).0 == k
                        implies false by {
                        assert(group@.contains(grouped@[p].1));
                    }
                    if pending {
                        let j = choose|j: int| 0 <= j < items@.len() && #[trigger] sel.contains(items@[j]) && !pr.contains_key(items@[j])
                            && kind_of_id(krate, items@[j]) == Some(section_kind_seq()[k as int]);
                        let p = choose|p: int| 0 <= p < grouped@.len() && #[trigger] grouped@[p] == (k, items@[j]);
                        assert(grouped@[p].0 == k);
                    }
                }
            }
            proof {
                let part = self.output@.subrange(sk.output@.len() as int, self.output@.len() as int);
                assert(self.grew_from(&sk));
                assert(self.output@ =~= sk.output@ + part);
                let np = parts.push(part);
                assert(np.drop_last() =~= parts);
                assert(crate::dump::concat(np) == crate::dump::concat(parts) + part);
                assert(pending ==> group@.len() > 0);
                if group@.len() == 0 {
                    assert(part =~= Seq::<char>::empty());
                }
                assert(titled_part(part, pending, sk.doc_path@, section_title_seq()[k as int], "\n"@));
                parts = np;
                dps = dps.push(sk.doc_path@);
                assert(self.output@ =~= s0.output@ + crate::dump::concat(parts));
                assert forall|q: int| 0 <= q < k + 1 implies titled_part(#[trigger] parts[q], section_pending(krate, sel, pr, items@, section_kind_seq()[q]),
                    dps[q], section_title_seq()[q], "\n"@) by {
                    if q < k {
                        assert(parts[q] == np.drop_last()[q]);
                    }
                }
                assert forall|q: int| 0 <= q < k + 1 implies same_level(s0.doc_path@, #[trigger] dps[q]) by {}
                assert forall|p: int| 0 <= p < grouped@.len() && (#[trigger] grouped@[p]).0 < k + 1
                    && krate.index_map().contains_key(grouped@[p].1) implies self.printed_ids@.contains_key(grouped@[p].1) by {
                    if grouped@[p].0 < k {
                        assert(pb.contains_key(grouped@[p].1));
                    }
                }
            }
        }
        proof {
            assert forall|i: int| 0 <= i < items@.len() && #[trigger] in_some_section(krate, s0.selected_ids@, items@[i])
                implies self.printed_ids@.contains_key(items@[i]) by {
                if !s0.printed_ids@.contains_key(items@[i]) {
                    let p = choose|p: int| 0 <= p < grouped@.len() && (#[trigger] grouped@[p]).1 == items@[i];
                    assert(grouped@[p].0 < 15);
                    assert(krate.index_map().contains_key(grouped@[p].1));
                    assert(self.printed_ids@.contains_key(grouped@[p].1));
                    assert(grouped@[p].1 == items@[i]);
                    assert(self.printed_ids@.contains_key(items@[i]));
                } else {
                    assert(self.grew_from(&s0));
                    assert(self.printed_ids@.contains_key(items@[i]));
                }
            }
        }
        let ghost s_groups = *self;
        if cross_ids.len() > 0 {
            let mut keys: Vec<Vec<String>> = Vec::new();
            let c = cross_ids.len();
            for i in 0..c
                invariant
                    c == cross_ids@.len(),
                    keys@.len() == i,
            {
                let mut key: Vec<String> = Vec::new();
                key.push(cross_ids[i].0.clone());
                keys.push(key);
            }
            let order = crate::order::sort_order(&keys);
            self.write_header("\n", "Re-exports", "\n\n");
            let ghost s_head = *self;
            let m = order.len();
            for j in 0..m
                invariant
                    m == order@.len(),
                    c == cross_ids@.len(),
                    crate::order::stably_sorted(crate::order::key_views(keys@), order@),
                    keys@.len() == c,
                    self.stepped_from(&s0),
                    self.grew_from(&s_groups),
                    self.grew_from(&s_head),
                    same_level(s0.doc_path@, self.doc_path@),
                    s0.doc_path@.len() + 13 < usize::MAX,
            {
                let idx = order[j];
                let mut line = String::from_str("- `");
                line.append(cross_ids[idx].0.as_str());
                line.append("` (See section ");
                line.append(cross_ids[idx].1.as_str());
                line.append(" for details)\n");
                self.write(line.as_str());
            }
            self.write("\n");
            self.post_increment_current_level();
            proof {
                assert(self.grew_from(&s_head));
                lemma_prefix_part(s_groups.output@, self.output@, header_line(s_groups.doc_path@, "\n"@, "Re-exports"@, "\n\n"@));
            }
        }
        proof {
            assert forall|i: int| 0 <= i < items@.len() && #[trigger] in_some_section(krate, s0.selected_ids@, items@[i])
                implies self.printed_ids@.contains_key(items@[i]) by {
                assert(s_groups.printed_ids@.contains_key(items@[i]));
                assert(self.grew_from(&s_groups));
            }
            reveal_strlit("Re-exports");
            let part = self.output@.subrange(s_groups.output@.len() as int, self.output@.len() as int);
            assert(self.grew_from(&s_groups));
            assert(self.output@ =~= s_groups.output@ + part);
            let fp = parts.push(part);
            let fd = dps.push(s_groups.doc_path@);
            assert(fp.drop_last() =~= parts);
            assert(crate::dump::concat(fp) == crate::dump::concat(parts) + part);
            assert(self.output@ =~= s_init.output@ + crate::dump::concat(fp));
            if cross_ids@.len() == 0 {
                assert(part =~= Seq::<char>::empty());
            }
            assert(titled_part(fp[15], reexports_pending(krate, sel, pr, items@), fd[15], "Re-exports"@, "\n\n"@));
            assert forall|q: int| 0 <= q < 15 implies titled_part(#[trigger] fp[q], section_pending(krate, sel, pr, items@, section_kind_seq()[q]),
                fd[q], section_title_seq()[q], "\n"@) by {
                assert(fp[q] == parts[q]);
                assert(fd[q] == dps[q]);
            }
            assert forall|q: int| 0 <= q < 16 implies same_level(s_init.doc_path@, #[trigger] fd[q]) by {
                if q < 15 {
                    assert(fd[q] == dps[q]);
                }
            }
            assert(module_contents_shape(krate, sel, pr, items@, s_init.doc_path@, s_init.output@, self.output@, fp, fd));
        }
    }

    /// Prints what refers to an item in the dependency graph: its incoming edges,
    /// sorted by source path and label, each numbered, with a template marker for a
    /// documented source in template mode; or a note that there are none.
    fn print_graph_context(&mut self, id: Id)
        requires
            old(self).doc_path@.len() + 3 < usize::MAX,
        ensures
            final(self).stepped_from(old(self)),
            final(self).doc_path@ == old(self).doc_path@,
            final(self).printed_ids == old(self).printed_ids,
            ({
                let incoming = old(self).graph.edge_seq().filter(|e: crate::graph::Edge| e.target == id);
                &&& incoming.len() == 0 ==> final(self).output@ == old(self).output@
                    + "_Item has no known incoming references in the graph._\n\n"@
                &&& incoming.len() > 0 ==> exists|order: Seq<usize>| #[trigger] crate::order::stably_sorted(ref_keys(old(self).krate, incoming), order)
                    && final(self).output@ == old(self).output@ + "_Referenced by:_\n"@ + ref_lines(
                        old(self).krate,
                        old(self).options.template_mode,
                        old(self).doc_path@,
                        incoming,
                        order,
                    ) + "\n"@
            }),
    {
        let krate = self.krate;
        let edges = self.graph.find_incoming_edges(id);
        if edges.len() == 0 {
            self.write("_Item has no known incoming references in the graph._\n\n");
            return;
        }
        let ghost s_in = *self;
        self.write("_Referenced by:_\n");
        let mut keys: Vec<Vec<String>> = Vec::new();
        let n = edges.len();
        for i in 0..n
            invariant
                n == edges@.len(),
                keys@.len() == i,
                forall|q: int| 0 <= q < i ==> #[trigger] crate::order::key_views(keys@)[q] == ref_keys(krate, edges@)[q],
        {
            let mut key: Vec<String> = Vec::new();
            key.push(crate::format::format_id_path_canonical(edges[i].source, krate));
            key.push(String::from_str(edges[i].label.fmt()));
            let ghost kb = keys@;
            keys.push(key);
            proof {
                assert forall|q: int| 0 <= q < i + 1 implies #[trigger] crate::order::key_views(keys@)[q] == ref_keys(krate, edges@)[q] by {
                    assert(crate::order::key_views(keys@)[q] == views(keys@[q]@));
                    if q < i {
                        assert(keys@[q] == kb[q]);
                        assert(crate::order::key_views(kb)[q] == views(kb[q]@));
                    } else {
                        assert(views(keys@[q]@) =~= ref_keys(krate, edges@)[q]);
                    }
                }
            }
        }
        assert(crate::order::key_views(keys@) =~= ref_keys(krate, edges@));
        let order = crate::order::sort_order(&keys);
        let ghost s0 = *self;
        self.push_level();
        let m = order.len();
        for j in 0..m
            invariant
                m == order@.len(),
                n == edges@.len(),
                keys@.len() == n,
                crate::order::stably_sorted(crate::order::key_views(keys@), order@),
                self.stepped_from(&s0),
                self.printed_ids == s0.printed_ids,
                self.options == s0.options,
                self.krate == krate,
                self.doc_path@ == s0.doc_path@.push(if j + 1 <= usize::MAX { (j + 1) as usize } else { usize::MAX }),
                s0.doc_path@.len() + 3 < usize::MAX,
                self.output@ == s0.output@ + ref_lines(krate, s0.options.template_mode, s0.doc_path@, edges@, order@.take(j as int)),
        {
            let ghost ob = self.output@;
            let edge = edges[order[j]];
            self.post_increment_current_level();
            assert(self.doc_path@ =~= s0.doc_path@.push(entry_number(j + 1)));
            let source_path = crate::format::format_id_path_canonical(edge.source, krate);
            let mut line = String::from_str("- `");
            line.append(source_path.as_str());
            line.append("` (");
            line.append(edge.label.fmt());
            line.append(")");
            let documented = match krate.get(edge.source) {
                Some(it) => it.docs.is_some(),
                None => false,
            };
            if self.options.template_mode && documented {
                line.append("\n  ");
                let marker = self.get_template_marker();
                line.append(marker.as_str());
            }
            line.append("\n");
            self.write(line.as_str());
            proof {
                reveal_strlit("");
                assert(order@.take(j + 1).drop_last() =~= order@.take(j as int));
                assert(order@.take(j + 1).last() == order@[j as int]);
                assert(line@ =~= ref_line(krate, s0.options.template_mode, edges@[order@[j as int] as int], s0.doc_path@.push(entry_number(j + 1))));
                assert(self.output@ =~= s0.output@ + ref_lines(krate, s0.options.template_mode, s0.doc_path@, edges@, order@.take(j + 1)));
            }
        }
        assert(order@.take(m as int) =~= order@);
        self.pop_level();
        self.write("\n");
        assert(self.doc_path@ =~= s0.doc_path@);
        assert(self.output@ =~= s_in.output@ + "_Referenced by:_\n"@ + ref_lines(
            krate, s_in.options.template_mode, s_in.doc_path@, edges@, order@) + "\n"@);
    }

    /// The traits common in the crate, and the selected types that have impls: a
    /// trait impl is common when, normalized, it occurs for at least half of those
    /// types (rounded up). With common traits switched off, or no such types, there
    /// are none.
    fn calculate_crate_common_traits(&self) -> (res: (Vec<FormattedTraitImpl>, HashSet<Id>))
        requires
            self.krate.wf(),
        ensures
            forall|x: Id| #[trigger] res.1@.contains(x) <==> selected_with_impls(self.krate, self.selected_ids@, x),
            self.options.no_common_traits ==> res.0@.len() == 0,
            res.1@.len() == 0 ==> res.0@.len() == 0,
            forall|j: int| 0 <= j < res.0@.len() ==> (#[trigger] res.0@[j]).impl_id is None,
            forall|j: int| 0 <= j < res.0@.len() ==> #[trigger] backed(self.krate, self.selected_ids@, self.krate.id_seq(), res.0@[j],
                (res.1@.len() + 1) / 2),
    {
        let krate = self.krate;
        let ids = krate.ids();
        let n = ids.len();
        let mut all_type_ids: HashSet<Id> = HashSet::new();
        let mut counts: Vec<(FormattedTraitImpl, usize)> = Vec::new();
        for i in 0..n
            invariant
                n == ids@.len(),
                ids@ == krate.id_seq(),
                forall|x: Id| #[trigger] all_type_ids@.contains(x) <==> (self.selected_ids@.contains(x) && exists|j: int|
                    0 <= j < i && #[trigger] impl_for(krate, ids@[j], x)),
                forall|j: int| 0 <= j < counts@.len() ==> (#[trigger] counts@[j]).1 <= i,
                forall|j: int| 0 <= j < counts@.len() ==> (#[trigger] counts@[j]).0.impl_id is None,
                forall|j: int| 0 <= j < counts@.len() ==> (#[trigger] counts@[j]).1 <= support(krate, self.selected_ids@,
                    ids@.take(i as int), counts@[j].0),
                krate == self.krate,
        {
            let id = ids[i];
            let ghost cs0 = counts@;
            proof {
                assert forall|e: FormattedTraitImpl| #[trigger] support(krate, self.selected_ids@, ids@.take(i + 1), e)
                    >= support(krate, self.selected_ids@, ids@.take(i as int), e) by {
                    lemma_support_step(krate, self.selected_ids@, ids@, i as int, e);
                }
            }
            let ghost before = all_type_ids@;
            let ghost mut added: Option<Id> = None;
            if let Some(item) = krate.get(id) {
                if let ItemEnum::Impl(imp) = &item.inner {
                    if let Some(for_type_id) = crate::deps::get_type_id(&imp.for_) {
                        if self.selected_ids.contains(&for_type_id) {
                            all_type_ids.insert(for_type_id);
                            proof {
                                added = Some(for_type_id);
                            }
                            if !self.options.no_common_traits {
                                if let Some(trait_path) = &imp.trait_ {
                                    let norm = self.normalize_impl(imp, None, trait_path);

                                    let ghost c0 = counts@;
                                    let ghost nm = norm;
                                    count_trait_impl(&mut counts, norm, i + 1);
                                    assert forall|j: int| 0 <= j < counts@.len() implies (#[trigger] counts@[j]).0.impl_id is None by {
                                        if j < c0.len() {
                                            assert(counts@[j].0 == c0[j].0);
                                        }
                                    }
                                    proof {
                                        assert(krate.index_map()[ids@[i as int]].inner == ItemEnum::Impl(*imp));
                                        assert forall|e: FormattedTraitImpl| nm == e || crate::traits::same_trait_impl(e, nm)
                                            implies #[trigger] counts_toward(krate, self.selected_ids@, ids@[i as int], e) by {
                                            assert(normal_form(krate, *imp, *trait_path, nm));
                                            assert(imp.trait_ == Some(*trait_path));
                                        }
                                        assert forall|j: int| 0 <= j < counts@.len() implies (#[trigger] counts@[j]).1 <= support(krate,
                                            self.selected_ids@, ids@.take(i + 1), counts@[j].0) by {
                                            lemma_support_step(krate, self.selected_ids@, ids@, i as int, counts@[j].0);
                                            if j < c0.len() {
                                                assert(counts@[j].0 == c0[j].0);
                                                if counts@[j].1 > c0[j].1 {
                                                    assert(crate::traits::same_trait_impl(c0[j].0, nm));
                                                    assert(counts_toward(krate, self.selected_ids@, ids@[i as int], counts@[j].0));
                                                }
                                            } else {
                                                assert(counts@[j].0 == nm);
                                                assert(counts_toward(krate, self.selected_ids@, ids@[i as int], counts@[j].0));
                                            }
                                        }
                                    }
                                }
                            }
                        }
                    }
                }
            }
            proof {
                assert forall|x: Id| (impl_for(krate, ids@[i as int], x) && self.selected_ids@.contains(x)) <==> added == Some(x) by {}
                assert forall|x: Id| all_type_ids@.contains(x) <==> (before.contains(x) || added == Some(x)) by {}
                assert forall|x: Id| #[trigger] all_type_ids@.contains(x) <==> (self.selected_ids@.contains(x) && exists|j: int|
                    0 <= j < i + 1 && #[trigger] impl_for(krate, ids@[j], x)) by {
                    if exists|j: int| 0 <= j < i + 1 && #[trigger] impl_for(krate, ids@[j], x) {
                        let j = choose|j: int| 0 <= j < i + 1 && #[trigger] impl_for(krate, ids@[j], x);
                        if j < i {
                            assert(exists|j: int| 0 <= j < i && #[trigger] impl_for(krate, ids@[j], x));
                        }
                    }
                    if before.contains(x) {
                        let j = choose|j: int| 0 <= j < i && #[trigger] impl_for(krate, ids@[j], x);
                        assert(0 <= j < i + 1 && impl_for(krate, ids@[j], x));
                    }
                    if added == Some(x) {
                        assert(impl_for(krate, ids@[i as int], x));
                    }
                }
            }
        }
        let mut common: Vec<FormattedTraitImpl> = Vec::new();
        if self.options.no_common_traits || all_type_ids.len() == 0 {
            return (common, all_type_ids);
        }
        let threshold = common_threshold(all_type_ids.len());
        proof {
            assert(ids@.take(n as int) =~= ids@);
        }
        let c = counts.len();
        for j in 0..c
            invariant
                c == counts@.len(),
                forall|q: int| 0 <= q < counts@.len() ==> (#[trigger] counts@[q]).0.impl_id is None,
                forall|q: int| 0 <= q < common@.len() ==> (#[trigger] common@[q]).impl_id is None,
                forall|q: int| 0 <= q < counts@.len() ==> (#[trigger] counts@[q]).1 <= support(krate, self.selected_ids@,
                    ids@, counts@[q].0),
                ids@ == krate.id_seq(),
                threshold == (all_type_ids@.len() + 1) / 2,
                forall|q: int| 0 <= q < common@.len() ==> #[trigger] backed(krate, self.selected_ids@, krate.id_seq(), common@[q],
                    (all_type_ids@.len() + 1) / 2),
        {
            if counts[j].1 >= threshold {
                let ghost cb = common@;
                common.push(counts[j].0.copy());
                proof {
                    assert(support(krate, self.selected_ids@, krate.id_seq(), counts@[j as int].0) >= threshold);
                    assert forall|q: int| 0 <= q < common@.len() implies #[trigger] backed(krate, self.selected_ids@, krate.id_seq(), common@[q],
                        (all_type_ids@.len() + 1) / 2) by {
                        if q < cb.len() {
                            assert(common@[q] == cb[q]);
                        }
                    }
                }
            }
        }
        (common, all_type_ids)
    }

    /// Whether some impl of the crate is for the type with id `x`.
    fn has_impls(&self, x: Id) -> (res: bool)
        ensures
            res == exists|j: int| 0 <= j < self.krate.id_seq().len() && #[trigger] impl_for(self.krate, self.krate.id_seq()[j], x),
    {
        let krate = self.krate;
        let ids = krate.ids();
        let n = ids.len();
        for i in 0..n
            invariant
                n == ids@.len(),
                ids@ == krate.id_seq(),
                krate == self.krate,
                forall|j: int| 0 <= j < i ==> !#[trigger] impl_for(krate, krate.id_seq()[j], x),
        {
            if let Some(item) = krate.get(ids[i]) {
                if let ItemEnum::Impl(imp) = &item.inner {
                    if crate::deps::get_type_id(&imp.for_) == Some(x) {
                        assert(impl_for(krate, krate.id_seq()[i as int], x));
                        return true;
                    }
                }
            }
        }
        false
    }

    /// The traits common in a module: the crate's common traits, and, when the
    /// module has more than one selected struct, enum, union or primitive with
    /// impls, the normalized trait impls for at least half of them (rounded up).
    fn calculate_module_common_traits(&self, module_id: Id) -> (res: Vec<FormattedTraitImpl>)
        ensures
            self.options.no_common_traits ==> res@.len() == 0,
            !self.options.no_common_traits ==> res@.len() >= self.crate_common_traits@.len() && forall|j: int|
                0 <= j < self.crate_common_traits@.len() ==> crate::traits::same_trait_impl(
                    #[trigger] res@[j],
                    self.crate_common_traits@[j],
                ) && res@[j].formatted_markdown_list_entry@ == self.crate_common_traits@[j].formatted_markdown_list_entry@,
            !self.resolved_modules@.contains_key(module_id) ==> res@.len() <= self.crate_common_traits@.len(),
            self.resolved_modules@.contains_key(module_id) ==> ({
                let types = module_types(self.krate, self.selected_ids@, self.resolved_modules@[module_id].items@);
                forall|j: int| self.crate_common_traits@.len() <= j < res@.len() ==> #[trigger] backed(
                    self.krate,
                    types,
                    self.krate.id_seq(),
                    res@[j],
                    (types.len() + 1) / 2,
                )
            }),
    {
        let mut module_common: Vec<FormattedTraitImpl> = Vec::new();
        if self.options.no_common_traits {
            return module_common;
        }
        let krate = self.krate;
        let cc = self.crate_common_traits.len();
        for j in 0..cc
            invariant
                cc == self.crate_common_traits@.len(),
                module_common@.len() == j,
                forall|q: int| 0 <= q < j ==> crate::traits::same_trait_impl(
                    #[trigger] module_common@[q],
                    self.crate_common_traits@[q],
                ) && module_common@[q].formatted_markdown_list_entry@ == self.crate_common_traits@[q].formatted_markdown_list_entry@,
        {
            module_common.push(self.crate_common_traits[j].copy());
        }
        let items: Vec<Id> = match self.resolved_modules.get(&module_id) {
            Some(rm) => crate::select::copy_ids(&rm.items),
            None => {
                return module_common;
            },
        };
        let ghost sel = self.selected_ids@;
        let mut considered: Vec<Id> = Vec::new();
        let n = items.len();
        for i in 0..n
            invariant
                n == items@.len(),
                considered@.len() <= i,
                krate == self.krate,
                sel == self.selected_ids@,
                considered@.no_duplicates(),
                forall|x: Id| #[trigger] considered@.contains(x) <==> (items@.take(i as int).contains(x)
                    && module_type(krate, sel, items@, x)),
        {
            let id = items[i];
            let ghost cb = considered@;
            proof {
                assert forall|x: Id| #[trigger] items@.take(i + 1).contains(x) <==> (items@.take(i as int).contains(x) || x == id) by {
                    if items@.take(i + 1).contains(x) {
                        let q = choose|q: int| 0 <= q < i + 1 && #[trigger] items@.take(i + 1)[q] == x;
                        if q < i {
                            assert(items@.take(i as int)[q] == x);
                        }
                    }
                    if items@.take(i as int).contains(x) {
                        let q = choose|q: int| 0 <= q < i && #[trigger] items@.take(i as int)[q] == x;
                        assert(items@.take(i + 1)[q] == x);
                    }
                    if x == id {
                        assert(items@.take(i + 1)[i as int] == x);
                    }
                }
                assert(items@.contains(id)) by {
                    assert(items@[i as int] == id);
                }
            }
            if let Some(item) = krate.get(id) {
                let is_type = match &item.inner {
                    ItemEnum::Struct(_) | ItemEnum::Enum(_) | ItemEnum::Union(_) | ItemEnum::Primitive(_) => true,
                    _ => false,
                };
                if is_type && self.selected_ids.contains(&id) && self.has_impls(id) && !crate::select::contains_id(
                    &considered,
                    id,
                ) {
                    considered.push(id);
                    proof {
                        assert(considered@.drop_last() =~= cb);
                        assert(considered@.no_duplicates()) by {
                            assert forall|p: int, q: int| 0 <= p < q < considered@.len() implies considered@[p] != considered@[q] by {
                                if q == considered@.len() - 1 {
                                    assert(considered@[p] == cb[p]);
                                    assert(cb.contains(cb[p]));
                                    assert(!cb.contains(id));
                                    assert(considered@[q] == id);
                                } else {
                                    assert(considered@[p] == cb[p] && considered@[q] == cb[q]);
                                }
                            }
                        }
                        assert forall|x: Id| #[trigger] considered@.contains(x) <==> (cb.contains(x) || x == id) by {
                            if considered@.contains(x) {
                                let q = choose|q: int| 0 <= q < considered@.len() && considered@[q] == x;
                                if q < cb.len() {
                                    assert(cb[q] == x);
                                }
                            }
                            if cb.contains(x) {
                                let q = choose|q: int| 0 <= q < cb.len() && cb[q] == x;
                                assert(considered@[q] == x);
                            }
                            if x == id {
                                assert(considered@[considered@.len() - 1] == x);
                            }
                        }
                    }
                }
            }
        }
        proof {
            assert(items@.take(n as int) =~= items@);
        }
        let ghost types = module_types(krate, sel, items@);
        proof {
            assert(considered@.to_set() =~= types) by {
                assert forall|x: Id| #[trigger] considered@.to_set().contains(x) <==> types.contains(x) by {}
            }
            considered@.unique_seq_to_set();
        }
        if considered.len() <= 1 {
            return module_common;
        }
        let ids = krate.ids();
        let m = ids.len();
        let mut counts: Vec<(FormattedTraitImpl, usize)> = Vec::new();
        for i in 0..m
            invariant
                m == ids@.len(),
                ids@ == krate.id_seq(),
                krate == self.krate,
                forall|x: Id| #[trigger] considered@.contains(x) <==> types.contains(x),
                forall|j: int| 0 <= j < counts@.len() ==> (#[trigger] counts@[j]).1 <= i,
                forall|j: int| 0 <= j < counts@.len() ==> (#[trigger] counts@[j]).1 <= support(krate, types,
                    ids@.take(i as int), counts@[j].0),
        {
            proof {
                assert forall|e: FormattedTraitImpl| #[trigger] support(krate, types, ids@.take(i + 1), e)
                    >= support(krate, types, ids@.take(i as int), e) by {
                    lemma_support_step(krate, types, ids@, i as int, e);
                }
            }
            if let Some(item) = krate.get(ids[i]) {
                if let ItemEnum::Impl(imp) = &item.inner {
                    if let Some(for_id) = crate::deps::get_type_id(&imp.for_) {
                        if crate::select::contains_id(&considered, for_id) {
                            if let Some(trait_path) = &imp.trait_ {
                                let norm = self.normalize_impl(imp, None, trait_path);
                                let ghost c0 = counts@;
                                let ghost nm = norm;
                                count_trait_impl(&mut counts, norm, i + 1);
                                proof {
                                    assert(krate.index_map()[ids@[i as int]].inner == ItemEnum::Impl(*imp));
                                    assert forall|e: FormattedTraitImpl| nm == e || crate::traits::same_trait_impl(e, nm)
                                        implies #[trigger] counts_toward(krate, types, ids@[i as int], e) by {
                                        assert(normal_form(krate, *imp, *trait_path, nm));
                                        assert(imp.trait_ == Some(*trait_path));
                                    }
                                    assert forall|j: int| 0 <= j < counts@.len() implies (#[trigger] counts@[j]).1 <= support(krate,
                                        types, ids@.take(i + 1), counts@[j].0) by {
                                        lemma_support_step(krate, types, ids@, i as int, counts@[j].0);
                                        if j < c0.len() {
                                            assert(counts@[j].0 == c0[j].0);
                                            if counts@[j].1 > c0[j].1 {
                                                assert(crate::traits::same_trait_impl(c0[j].0, nm));
                                                assert(counts_toward(krate, types, ids@[i as int], counts@[j].0));
                                            }
                                        } else {
                                            assert(counts@[j].0 == nm);
                                            assert(counts_toward(krate, types, ids@[i as int], counts@[j].0));
                                        }
                                    }
                                }
                            }
                        }
                    }
                }
            }
        }
        proof {
            assert(ids@.take(m as int) =~= ids@);
        }
        let threshold = common_threshold(considered.len());
        let c = counts.len();
        for j in 0..c
            invariant
                c == counts@.len(),
                cc == self.crate_common_traits@.len(),
                module_common@.len() >= cc,
                forall|q: int| 0 <= q < cc ==> crate::traits::same_trait_impl(
                    #[trigger] module_common@[q],
                    self.crate_common_traits@[q],
                ) && module_common@[q].formatted_markdown_list_entry@ == self.crate_common_traits@[q].formatted_markdown_list_entry@,
                forall|q: int| 0 <= q < counts@.len() ==> (#[trigger] counts@[q]).1 <= support(krate, types, krate.id_seq(), counts@[q].0),
                threshold == (types.len() + 1) / 2,
                forall|q: int| cc <= q < module_common@.len() ==> #[trigger] backed(krate, types, krate.id_seq(), module_common@[q],
                    (types.len() + 1) / 2),
        {
            if counts[j].1 >= threshold && Self::holds_same(&module_common, &counts[j].0).is_none() {
                let ghost mb = module_common@;
                module_common.push(counts[j].0.copy());
                proof {
                    assert(support(krate, types, krate.id_seq(), counts@[j as int].0) >= threshold);
                    assert forall|q: int| 0 <= q < cc implies crate::traits::same_trait_impl(
                        #[trigger] module_common@[q],
                        self.crate_common_traits@[q],
                    ) && module_common@[q].formatted_markdown_list_entry@ == self.crate_common_traits@[q].formatted_markdown_list_entry@ by {
                        assert(module_common@[q] == mb[q]);
                    }
                    assert forall|q: int| cc <= q < module_common@.len() implies #[trigger] backed(krate, types, krate.id_seq(), module_common@[q],
                        (types.len() + 1) / 2) by {
                        if q < mb.len() {
                            assert(module_common@[q] == mb[q]);
                        }
                    }
                }
            }
        }
        module_common
    }

    /// Prints a module and, depth first, its submodules: its header, documentation,
    /// common traits beyond the crate's, and contents. The root is printed whether
    /// or not it is selected, under the crate's name with `-` made `_`; another
    /// module only when selected. `depth` bounds how deep submodules go; `finalize`
    /// gives one more than the number of modules, which a module tree without cycles
    /// never reaches.
    #[verifier::spinoff_prover]
    #[verifier::rlimit(80)]
    fn print_module_recursive(&mut self, module_id: Id, depth: usize)
        requires
            old(self).doc_path@.len() + 15 < usize::MAX,
            declarations_named(old(self).krate),
            old(self).krate.wf(),
        ensures
            final(self).same_setup(old(self)),
            final(self).grew_from(old(self)),
            same_level(old(self).doc_path@, final(self).doc_path@),
            (module_id == old(self).krate.root_id() || old(self).selected_ids@.contains(module_id))
                && old(self).krate.index_map().contains_key(module_id)
                && old(self).krate.index_map()[module_id].name is Some
                && old(self).resolved_modules@.contains_key(module_id) ==> forall|i: int|
                0 <= i < old(self).resolved_modules@[module_id].items@.len() && #[trigger] in_some_section(
                    old(self).krate,
                    old(self).selected_ids@,
                    old(self).resolved_modules@[module_id].items@[i],
                ) ==> final(self).printed_ids@.contains_key(old(self).resolved_modules@[module_id].items@[i]),
            module_id == old(self).krate.root_id() && old(self).krate.index_map().contains_key(module_id)
                && old(self).krate.index_map()[module_id].name is Some ==> (old(self).output@ + header_line(
                old(self).doc_path@,
                "\n"@,
                root_module_title(old(self).krate),
                "\n\n"@,
            )).is_prefix_of(final(self).output@),
            module_id != old(self).krate.root_id() && old(self).selected_ids@.contains(module_id)
                && old(self).krate.index_map().contains_key(module_id) ==> (old(self).output@ + header_line(
                old(self).doc_path@,
                "\n"@,
                module_title(views(old(self).current_module_path@), old(self).krate.index_map()[module_id].name),
                "\n\n"@,
            )).is_prefix_of(final(self).output@),
            !((module_id == old(self).krate.root_id() || old(self).selected_ids@.contains(module_id))
                && old(self).krate.index_map().contains_key(module_id)) ==> final(self).output == old(self).output,
            (module_id == old(self).krate.root_id() && old(self).krate.index_map().contains_key(module_id)
                && old(self).krate.index_map()[module_id].name is Some) || (module_id != old(self).krate.root_id()
                && old(self).selected_ids@.contains(module_id) && old(self).krate.index_map().contains_key(module_id))
                ==> exists|docs_t: Seq<char>, common_t: Seq<char>, rest: Seq<char>|
                #[trigger] module_section_shape(*old(self), final(self).output@, module_id, docs_t, common_t, rest),
        decreases depth,
    {
        let ghost s_start = *self;
        let krate = self.krate;
        let root = krate.root();
        if module_id != root && !self.selected_ids.contains(&module_id) {
            return;
        }
        let item = match krate.get(module_id) {
            Some(it) => it,
            None => {
                return;
            },
        };
        if module_id == root {
            let root_name = match &item.name {
                Some(n) => n,
                None => {
                    return;
                },
            };
            proof {
                reveal_strlit("-");
            }
            let crate_name = crate::text::replace_str(root_name.as_str(), "-", "_");
            let mut path: Vec<String> = Vec::new();
            path.push(crate_name);
            self.current_module_path = path;
        } else {
            let segment = match &item.name {
                Some(n) => n.clone(),
                None => String::new(),
            };
            self.current_module_path.push(segment);
        }
        let ghost s0 = *self;
        let prefix = self.get_header_prefix();
        let module_path_str = join_strings(&self.current_module_path, "::");
        let mut title = String::from_str("Module: `");
        if module_path_str.as_str().is_empty() {
            match &item.name {
                Some(n) => title.append(n.as_str()),
                None => title.append("::"),
            }
        } else {
            title.append(module_path_str.as_str());
        }
        title.append("`");
        proof {
            reveal_strlit("Module: `");
            reveal_strlit("`");
            if module_id == root {
                let nm = item.name->Some_0@;
                assert(self.current_module_path@.len() == 1);
                assert(views(self.current_module_path@) =~= seq![crate::text::replace_all(nm, "-"@, "_"@)]);
                assert(join(views(self.current_module_path@), "::"@) == crate::text::replace_all(nm, "-"@, "_"@));
                if module_path_str@.len() == 0 {
                    lemma_replace_empty(nm);
                }
                assert(title@ =~= root_module_title(krate));
            } else {
                assert(views(self.current_module_path@) =~= views(s_start.current_module_path@).push(
                    match item.name { Some(n) => n@, None => Seq::<char>::empty() },
                ));
                assert(title@ =~= module_title(views(s_start.current_module_path@), item.name));
            }
        }
        self.write_header("\n", title.as_str(), "\n\n");
        let ghost s_h = *self;
        if !self.printed_ids.contains_key(&module_id) {
            self.mark_printed(module_id, prefix);
        }
        self.push_level();
        let ghost s_pre = *self;
        self.print_docs(item);
        assert(self.grew_from(&s0));
        let ghost s1 = *self;
        if !self.options.no_common_traits {
            let mod_common = self.calculate_module_common_traits(module_id);
            let mut displayable: Vec<FormattedTraitImpl> = Vec::new();
            let mut stored: Vec<FormattedTraitImpl> = Vec::new();
            let n = mod_common.len();
            for i in 0..n
                invariant
                    n == mod_common@.len(),
            {
                stored.push(mod_common[i].copy());
                if Self::holds_same(&self.crate_common_traits, &mod_common[i]).is_none() {
                    displayable.push(mod_common[i].copy());
                }
            }
            self.module_common_traits.insert(module_id, stored);
            let ghost s2 = *self;
            assert(self.grew_from(&s1));
            if displayable.len() > 0 {
                proof {
                    reveal_strlit("Common Traits");
                    reveal_strlit("");
                }
                self.write_header("", "Common Traits", "\n\n");
                let ghost s_ch = *self;
                self.write(
                    "In addition to the crate's 'Common Traits', the following traits are commonly implemented by types in this module. Unless otherwise noted, you can assume these traits are implemented:\n\n",
                );
                let formatted_list = self.format_trait_list(&displayable);
                if !formatted_list.as_str().is_empty() {
                    self.write(formatted_list.as_str());
                }
                self.post_increment_current_level();
                proof {
                    assert(self.grew_from(&s_ch));
                    lemma_prefix_part(s1.output@, self.output@, header_line(s1.doc_path@, Seq::empty(), "Common Traits"@, "\n\n"@));
                }
            }
        }
        assert(self.grew_from(&s1));
        let ghost s_c = *self;
        proof {
            let common_t = s_c.output@.subrange(s1.output@.len() as int, s_c.output@.len() as int);
            assert(common_t.len() == 0 || header_line(s1.doc_path@, Seq::empty(), "Common Traits"@, "\n\n"@).is_prefix_of(common_t));
        }
        assert(self.doc_path@.len() == s0.doc_path@.len() + 1 && self.doc_path@.drop_last() =~= s0.doc_path@);
        self.print_module_contents(module_id);
        assert(self.grew_from(&s1));
        let ghost s3 = *self;
        self.pop_level();
        assert(self.doc_path@ =~= s0.doc_path@);
        self.post_increment_current_level();
        assert(self.grew_from(&s0));
        assert(self.grew_from(&s3));
        let children: Vec<Id> = match self.module_tree.children.get(&module_id) {
            Some(c) => crate::select::copy_ids(c),
            None => Vec::new(),
        };
        if depth > 0 {
            let m = children.len();
            for j in 0..m
                invariant
                    m == children@.len(),
                    self.same_setup(&s0),
                    self.grew_from(&s0),
                    same_level(s0.doc_path@, self.doc_path@),
                    s0.doc_path@.len() + 15 < usize::MAX,
                    declarations_named(self.krate),
                    self.krate.wf(),
                    self.krate.root_id() == root,
                    depth > 0,
                    self.grew_from(&s3),
            {
                self.print_module_recursive(children[j], depth - 1);
            }
        }
        if module_id != root {
            self.current_module_path.pop();
        }
        assert(self.grew_from(&s3));
        assert(self.grew_from(&s_h));
        proof {
            assert(self.grew_from(&s_c));
            let docs_t = choose|t: Seq<char>| #![auto] s1.output@ == s_pre.output@ + t
                && docs_text_ok(*item, s_pre.options.template_mode, s_pre.doc_path@, t);
            let common_t = s_c.output@.subrange(s1.output@.len() as int, s_c.output@.len() as int);
            let rest = self.output@.subrange(s_c.output@.len() as int, self.output@.len() as int);
            assert(s_c.output@ =~= s1.output@ + common_t);
            assert(self.output@ =~= s_c.output@ + rest);
            assert(s_pre.doc_path@ =~= s_start.doc_path@.push(1));
            assert(s1.doc_path@ =~= s_start.doc_path@.push(1));
            assert(self.output@ =~= s_start.output@ + header_line(s_start.doc_path@, "\n"@, title@, "\n\n"@) + docs_t + common_t + rest);
            assert(module_section_shape(s_start, self.output@, module_id, docs_t, common_t, rest));
        }
    }

    /// Generates the documentation: selects the items, works out the crate's common
    /// traits, and prints. With no item selected and no example, a short message
    /// says so.
    pub fn print(self) -> (res: Result<String, crate::select::SelectError>)
        requires
            self.krate_spec().wf(),
            printable(self.krate_spec()) || (self.options_spec().paths@.len() > 0 && crate::select::select_error(
                self.krate_spec().index_map(),
                self.krate_spec().root_id(),
            ) is Some) || (crate::select::documented_selection(self.krate_spec(), self.options_spec().paths@).is_empty()
                && self.options_spec().examples@.len() == 0),
        ensures
            res is Err <==> (self.options_spec().paths@.len() > 0 && crate::select::select_error(
                self.krate_spec().index_map(),
                self.krate_spec().root_id(),
            ) is Some),
            match res {
                Err(e) => crate::select::select_error(self.krate_spec().index_map(), self.krate_spec().root_id()) == Some(e),
                Ok(text) => {
                    let nothing = crate::select::documented_selection(self.krate_spec(), self.options_spec().paths@).is_empty()
                        && self.options_spec().examples@.len() == 0;
                    &&& nothing ==> text@ == "No items selected for documentation and no examples found."@
                    &&& !nothing ==> crate_header_text(self.krate_spec()).is_prefix_of(text@)
                    &&& !nothing ==> exists|q: Printer<'a>, parts: DocParts| #[trigger] document_parts(q, parts)
                        && prepared_from(q, self) && text@ == document_text(q, parts)
                },
            },
    {
        let mut p = self;
        p.resolved_modules = crate::select::build_resolved_module_index(p.krate);
        let (selected_ids, graph) = match crate::select::select_items(p.krate, p.options.paths.as_slice(), &p.resolved_modules) {
            Ok(r) => r,
            Err(e) => {
                return Err(e);
            },
        };
        proof {
            if p.options.paths@.len() > 0 {
                crate::select::lemma_documented_selection(p.krate, p.options.paths@, p.resolved_modules@, selected_ids@);
            }
            assert(selected_ids@ == crate::select::documented_selection(p.krate, p.options.paths@));
        }
        p.selected_ids = selected_ids;
        p.graph = graph;
        let ghost sel = p.selected_ids@;
        if p.selected_ids.is_empty() && p.options.examples.len() == 0 {
            return Ok(String::from_str("No items selected for documentation and no examples found."));
        }
        p.doc_path = Vec::new();
        let (crate_common_traits, all_type_ids_with_impls) = p.calculate_crate_common_traits();
        p.crate_common_traits = crate_common_traits;
        p.all_type_ids_with_impls = all_type_ids_with_impls;
        let ghost q = p;
        assert(prepared_from(q, self));
        Ok(p.finalize())
    }

    /// Prints the manifest section: homepage, repository, categories, license,
    /// rust-version and edition, then the features, sorted, in a subsection.
    fn print_manifest(&mut self)
        requires
            old(self).doc_path@.len() + 3 < usize::MAX,
        ensures
            final(self).stepped_from(old(self)),
            same_level(old(self).doc_path@, final(self).doc_path@),
            final(self).printed_ids == old(self).printed_ids,
            final(self).doc_path@ == next_section(old(self).doc_path@),
            exists|sorted: Seq<Seq<char>>| #[trigger] features_sorted(old(self).manifest_data, sorted)
                && final(self).output@ == old(self).output@ + manifest_section(old(self).manifest_data, old(self).doc_path@, sorted),
    {
        let ghost s0 = *self;
        proof {
            reveal_strlit("");
        }
        self.write_header("", "Manifest", "\n\n");
        let text = manifest_text(&self.manifest_data);
        self.write(text.as_str());
        self.push_level();
        let ghost o_feat = self.output@;
        self.write_header("", "Features", "\n\n");
        let features = feature_list_text(&self.manifest_data.features);
        self.write(features.as_str());
        self.pop_level();
        assert(self.doc_path@ =~= s0.doc_path@);
        self.post_increment_current_level();
        proof {
            let sorted = choose|sorted: Seq<Seq<char>>| {
                &&& (s0.manifest_data.features@.len() == 0 ==> sorted.len() == 0)
                &&& arranged(views(s0.manifest_data.features@), string_keys(views(s0.manifest_data.features@)), sorted)
                &&& features@ == (if sorted.len() == 0 { "- None\n"@ } else { feature_items(sorted) }) + "\n"@
            };
            assert(self.output@ =~= s0.output@ + manifest_section(s0.manifest_data, s0.doc_path@, sorted));
            assert(features_sorted(s0.manifest_data, sorted));
        }
    }

    /// Prints the selected items that were not printed elsewhere in an "Other"
    /// section, sorted by path and then name, each with its source position and what
    /// refers to it, when `include_other` is set; otherwise marks the unnamed ones,
    /// fields and modules among them as printed.
    fn print_other(&mut self)
        requires
            old(self).doc_path@.len() + 13 < usize::MAX,
            printable(old(self).krate),
        ensures
            final(self).stepped_from(old(self)),
            same_level(old(self).doc_path@, final(self).doc_path@),
            !old(self).options.include_other ==> final(self).output == old(self).output && final(self).doc_path@
                == old(self).doc_path@,
            old(self).options.include_other ==> forall|id: Id| #[trigger] old(self).selected_ids@.contains(id)
                && old(self).krate.index_map().contains_key(id)
                && !(old(self).krate.index_map()[id].inner is Impl || old(self).krate.index_map()[id].inner is Use)
                ==> final(self).printed_ids@.contains_key(id),
            final(self).output == old(self).output || (old(self).output@ + header_line(old(self).doc_path@, "\n"@, "Other"@, "\n"@))
                .is_prefix_of(final(self).output@),
    {
        let ghost s0 = *self;
        let krate = self.krate;
        let mut unprinted: Vec<Id> = Vec::new();
        let candidates = crate::select::ids_of_set(&self.selected_ids);
        let n = candidates.len();
        for i in 0..n
            invariant
                n == candidates@.len(),
                self.stepped_from(&s0),
                self.output == s0.output,
                self.doc_path@ == s0.doc_path@,
                self.krate == krate,
                forall|j: int| 0 <= j < i && krate.index_map().contains_key(#[trigger] candidates@[j])
                    && !(krate.index_map()[candidates@[j]].inner is Impl || krate.index_map()[candidates@[j]].inner is Use)
                    ==> self.printed_ids@.contains_key(candidates@[j]) || unprinted@.contains(candidates@[j]),
                forall|u: int| 0 <= u < unprinted@.len() ==> !(krate.index_map().contains_key(#[trigger] unprinted@[u])
                    && krate.index_map()[unprinted@[u]].inner is Module),
        {
            let ghost si = *self;
            let ghost ub = unprinted@;
            let id = candidates[i];
            if !self.printed_ids.contains_key(&id) {
                match krate.get(id) {
                    Some(item) => {
                        let skipped_kind = match &item.inner {
                            ItemEnum::Impl(_) | ItemEnum::Use(_) | ItemEnum::StructField(_) | ItemEnum::Module(_) => true,
                            _ => false,
                        };
                        if !skipped_kind && item.name.is_some() {
                            unprinted.push(id);
                        } else {
                            let field_or_module = match &item.inner {
                                ItemEnum::StructField(_) | ItemEnum::Module(_) => true,
                                _ => false,
                            };
                            if item.name.is_none() || field_or_module {
                                self.mark_printed(id, String::from_str("SKIPPED_OTHER"));
                            }
                        }
                    },
                    None => {
                        unprinted.push(id);
                    },
                }
            }
            proof {
                assert(self.grew_from(&si));
                assert forall|j: int| 0 <= j < i + 1 && krate.index_map().contains_key(#[trigger] candidates@[j])
                    && !(krate.index_map()[candidates@[j]].inner is Impl || krate.index_map()[candidates@[j]].inner is Use)
                    implies self.printed_ids@.contains_key(candidates@[j]) || unprinted@.contains(candidates@[j]) by {
                    if j < i {
                        if si.printed_ids@.contains_key(candidates@[j]) {
                        } else {
                            let q = choose|q: int| 0 <= q < ub.len() && ub[q] == candidates@[j];
                            assert(unprinted@[q] == candidates@[j]);
                        }
                    } else if unprinted@.len() > ub.len() {
                        assert(unprinted@[unprinted@.len() - 1] == candidates@[j]);
                    }
                }
                assert forall|u: int| 0 <= u < unprinted@.len() implies !(krate.index_map().contains_key(#[trigger] unprinted@[u])
                    && krate.index_map()[unprinted@[u]].inner is Module) by {
                    if u < ub.len() {
                        assert(unprinted@[u] == ub[u]);
                    }
                }
            }
        }
        let ghost s_marked = *self;
        proof {
            assert forall|id: Id| #[trigger] s0.selected_ids@.contains(id) && krate.index_map().contains_key(id)
                && !(krate.index_map()[id].inner is Impl || krate.index_map()[id].inner is Use)
                implies s_marked.printed_ids@.contains_key(id) || unprinted@.contains(id) by {
                assert(candidates@.contains(id));
                let j = choose|j: int| 0 <= j < candidates@.len() && candidates@[j] == id;
            }
        }
        if unprinted.len() == 0 || !self.options.include_other {
            return;
        }
        proof {
            reveal_strlit("Other");
        }
        self.write_header("\n", "Other", "\n");
        let ghost s_other = *self;
        self.push_level();
        let by_name = sort_ids_by_name(&unprinted, krate);
        let mut path_keys_v: Vec<Vec<String>> = Vec::new();
        let m = by_name.len();
        for i in 0..m
            invariant
                m == by_name@.len(),
                path_keys_v@.len() == i,
        {
            let mut key: Vec<String> = Vec::new();
            if let Some(summary) = krate.get_path(by_name[i]) {
                key.push(String::new());
                let q = summary.path.len();
                for r in 0..q
                    invariant
                        q == summary.path@.len(),
                {
                    key.push(summary.path[r].clone());
                }
            }
            path_keys_v.push(key);
        }
        let sorted = crate::order::sort_by_keys(&by_name, &path_keys_v);
        let s = sorted.len();
        let ghost s_head = *self;
        for i in 0..s
            invariant
                s == sorted@.len(),
                self.stepped_from(&s0),
                self.grew_from(&s_head),
                self.doc_path@.len() == s0.doc_path@.len() + 1,
                self.doc_path@.drop_last() == s0.doc_path@,
                s0.doc_path@.len() + 13 < usize::MAX,
                printable(self.krate),
                self.krate == krate,
                forall|q: int| 0 <= q < i && s0.selected_ids@.contains(#[trigger] sorted@[q])
                    && krate.index_map().contains_key(sorted@[q])
                    && !(krate.index_map()[sorted@[q]].inner is Use || krate.index_map()[sorted@[q]].inner is Module)
                    ==> self.printed_ids@.contains_key(sorted@[q]),
        {
            let ghost si = *self;
            let id = sorted[i];
            let path_str = crate::format::format_id_path_canonical(id, krate);
            match krate.get(id) {
                Some(item) => {
                    self.print_item_details(id);
                    if let Some(span) = &item.span {
                        proof {
                            assert(krate.index_map().contains_key(id));
                        }
                        let mut line = String::from_str("_Source: `");
                        let pos = source_position(span);
                        line.append(pos.as_str());
                        line.append("`_\n\n");
                        self.write(line.as_str());
                    }
                    self.print_graph_context(id);
                },
                None => {
                    self.post_increment_current_level();
                    let mut title = String::from_str("`");
                    title.append(path_str.as_str());
                    title.append("`");
                    self.write_header("\n", title.as_str(), "\n\n");
                    self.write("_Error: Item details not found in index._\n\n");
                    self.print_graph_context(id);
                },
            }
            proof {
                assert forall|q: int| 0 <= q < i + 1 && s0.selected_ids@.contains(#[trigger] sorted@[q])
                    && krate.index_map().contains_key(sorted@[q])
                    && !(krate.index_map()[sorted@[q]].inner is Use || krate.index_map()[sorted@[q]].inner is Module)
                    implies self.printed_ids@.contains_key(sorted@[q]) by {
                    if q < i {
                        assert(si.printed_ids@.contains_key(sorted@[q]));
                    }
                }
            }
        }
        let ghost s_end = *self;
        self.pop_level();
        assert(self.doc_path@ =~= s0.doc_path@);
        proof {
            assert(self.grew_from(&s_end));
            assert(s_head.grew_from(&s_other));
            assert(self.grew_from(&s_other));
            assert(s_head.grew_from(&s_marked));
            assert forall|id: Id| #[trigger] s0.selected_ids@.contains(id) && krate.index_map().contains_key(id)
                && !(krate.index_map()[id].inner is Impl || krate.index_map()[id].inner is Use)
                implies self.printed_ids@.contains_key(id) by {
                if s_marked.printed_ids@.contains_key(id) {
                    assert(s_head.printed_ids@.contains_key(id));
                    assert(s_end.printed_ids@.contains_key(id));
                } else {
                    assert(unprinted@.contains(id));
                    let u = choose|u: int| 0 <= u < unprinted@.len() && unprinted@[u] == id;
                    assert(!(krate.index_map()[id].inner is Module));
                    assert(by_name@.contains(unprinted@[u]));
                    let b = choose|b: int| 0 <= b < by_name@.len() && by_name@[b] == id;
                    assert(sorted@.contains(by_name@[b]));
                    let q = choose|q: int| 0 <= q < sorted@.len() && sorted@[q] == id;
                    assert(s_end.printed_ids@.contains_key(sorted@[q]));
                }
            }
        }
    }

    /// Prints the examples appendix: the examples' README, then each example in a
    /// code block under its file name.
    fn print_examples(&mut self)
        requires
            old(self).doc_path@.len() + 3 < usize::MAX,
        ensures
            final(self).stepped_from(old(self)),
            same_level(old(self).doc_path@, final(self).doc_path@),
            final(self).printed_ids == old(self).printed_ids,
            old(self).options.examples@.len() == 0 && old(self).options.examples_readme_content is None
                ==> final(self).output == old(self).output && final(self).doc_path@ == old(self).doc_path@,
            !(old(self).options.examples@.len() == 0 && old(self).options.examples_readme_content is None) ==>
                final(self).output@ == old(self).output@ + header_line(old(self).doc_path@, "\n"@, "Examples Appendix"@, "\n\n"@)
                + examples_readme_text(old(self).options.examples_readme_content, old(self).doc_path@)
                + examples_text(old(self).doc_path@, old(self).options.examples@)
                && final(self).doc_path@ == next_section(old(self).doc_path@),
    {
        if self.options.examples.len() == 0 && self.options.examples_readme_content.is_none() {
            return;
        }
        let ghost s0 = *self;
        let section_level = self.get_current_header_level();
        self.write_header("\n", "Examples Appendix", "\n\n");
        let ghost o_head = self.output@;
        self.push_level();
        let readme_text: Option<String> = match &self.options.examples_readme_content {
            Some(readme) => crate::markdown::adjust_markdown_headers(readme.as_str(), section_level),
            None => None,
        };
        if let Some(mut adjusted) = readme_text {
            adjusted.append("\n\n");
            self.write(adjusted.as_str());
        }
        let ghost o_mid = self.output@;
        let ghost readme_part = examples_readme_text(s0.options.examples_readme_content, s0.doc_path@);
        assert(o_mid =~= o_head + readme_part);
        proof {
            reveal_strlit("");
            assert(examples_text(s0.doc_path@, self.options.examples@.take(0)) =~= Seq::<char>::empty());
        }
        let n = self.options.examples.len();
        for i in 0..n
            invariant
                n == self.options.examples@.len(),
                self.stepped_from(&s0),
                self.printed_ids == s0.printed_ids,
                self.options == s0.options,
                self.doc_path@ == s0.doc_path@.push(example_number(i as int)),
                s0.doc_path@.len() + 3 < usize::MAX,
                self.output@ == o_mid + examples_text(s0.doc_path@, self.options.examples@.take(i as int)),
        {
            let ghost ob = self.output@;
            let mut title = String::from_str("`");
            title.append(self.options.examples[i].0.as_str());
            title.append("`");
            self.write_header("", title.as_str(), "\n\n");
            let mut block = String::from_str("```rust\n");
            block.append(self.options.examples[i].1.as_str());
            block.append("\n```\n\n");
            self.write(block.as_str());
            proof {
                let ex = self.options.examples@.take(i + 1);
                assert(ex.drop_last() =~= self.options.examples@.take(i as int));
                assert(ex.last() == self.options.examples@[i as int]);
                reveal_strlit("");
                assert(self.output@ =~= ob + example_text(s0.doc_path@.push(example_number(i as int)),
                    self.options.examples@[i as int].0@, self.options.examples@[i as int].1@));
                assert(self.output@ =~= o_mid + examples_text(s0.doc_path@, ex));
            }
            self.post_increment_current_level();
            assert(self.doc_path@ =~= s0.doc_path@.push(example_number(i + 1)));
        }
        assert(self.options.examples@.take(n as int) =~= self.options.examples@);
        self.pop_level();
        assert(self.doc_path@ =~= s0.doc_path@);
        self.post_increment_current_level();
        assert(self.output@ =~= s0.output@ + header_line(s0.doc_path@, "\n"@, "Examples Appendix"@, "\n\n"@)
            + readme_part + examples_text(s0.doc_path@, s0.options.examples@));
    }

    /// Prints what comes before the items: the description, the manifest, the
    /// README and the crate's common traits.
    #[verifier::spinoff_prover]
    #[verifier::rlimit(40)]
    fn print_front_matter(&mut self)
        requires
            old(self).doc_path@.len() + 4 < usize::MAX,
        ensures
            final(self).stepped_from(old(self)),
            same_level(old(self).doc_path@, final(self).doc_path@),
            exists|sorted: Seq<Seq<char>>, readme_part: Seq<char>, common_list: Seq<char>, common_part: Seq<char>|
                #[trigger] front_matter_parts(*old(self), old(self).doc_path@, sorted, readme_part, common_list, common_part)
                && final(self).output@ == old(self).output@ + optional_line(old(self).manifest_data.description, Seq::empty(), "\n\n"@)
                + manifest_section(old(self).manifest_data, old(self).doc_path@, sorted) + readme_part + common_part,
    {
        let ghost s0 = *self;
        if let Some(desc) = &self.manifest_data.description {
            let mut d = desc.clone();
            d.append("\n\n");
            self.write(d.as_str());
        }
        assert(self.output@ =~= s0.output@ + optional_line(s0.manifest_data.description, Seq::empty(), "\n\n"@));
        let ghost s1 = *self;
        self.print_manifest();
        let ghost s2 = *self;
        let ghost sorted = choose|sorted: Seq<Seq<char>>| #[trigger] features_sorted(s0.manifest_data, sorted)
            && s2.output@ == s1.output@ + manifest_section(s0.manifest_data, s0.doc_path@, sorted);
        self.print_readme();
        let ghost s3 = *self;
        let ghost readme_part = s3.output@.subrange(s2.output@.len() as int, s3.output@.len() as int);
        assert(s3.output@ =~= s2.output@ + readme_part);
        self.print_crate_common_traits();
        let ghost common_part = self.output@.subrange(s3.output@.len() as int, self.output@.len() as int);
        assert(self.output@ =~= s3.output@ + common_part);
        assert(same_level(s0.doc_path@, self.doc_path@));
        proof {
            let common_list = lemma_front_matter_parts(s0, s2, s3, *self, sorted, readme_part, common_part);
            assert(front_matter_parts(s0, s0.doc_path@, sorted, readme_part, common_list, common_part));
        }
    }

    /// Prints the README section, its headings moved under it.
    fn print_readme(&mut self)
        requires
            old(self).doc_path@.len() + 4 < usize::MAX,
        ensures
            final(self).stepped_from(old(self)),
            same_level(old(self).doc_path@, final(self).doc_path@),
            final(self).printed_ids == old(self).printed_ids,
            old(self).options.readme_content is None ==> final(self).output == old(self).output
                && final(self).doc_path@ == old(self).doc_path@,
            old(self).options.readme_content is Some ==> (old(self).output@ + header_line(
                old(self).doc_path@,
                "\n"@,
                "README"@,
                "\n\n"@,
            )).is_prefix_of(final(self).output@) && final(self).doc_path@ == next_section(old(self).doc_path@),
            old(self).options.readme_content matches Some(r) ==> final(self).output@ == old(self).output@ + header_line(
                old(self).doc_path@,
                "\n"@,
                "README"@,
                "\n\n"@,
            ) + docs_markdown(r@, header_level(old(self).doc_path@)),
    {
        if self.options.readme_content.is_some() {
            let section_level = self.get_current_header_level();
            self.write_header("\n", "README", "\n\n");
            let adjusted_readme = match &self.options.readme_content {
                Some(readme) => crate::markdown::adjust_markdown_headers(readme.as_str(), section_level),
                None => None,
            };
            let ghost o_head = self.output@;
            if let Some(mut adjusted) = adjusted_readme {
                adjusted.append("\n\n");
                self.write(adjusted.as_str());
            }
            proof {
                let r = self.options.readme_content->Some_0;
                assert(self.output@ =~= o_head + docs_markdown(r@, section_level as int));
            }
            self.post_increment_current_level();
        }
    }

    /// Prints the crate's common traits section.
    fn print_crate_common_traits(&mut self)
        requires
            old(self).doc_path@.len() + 4 < usize::MAX,
        ensures
            final(self).stepped_from(old(self)),
            same_level(old(self).doc_path@, final(self).doc_path@),
            old(self).options.no_common_traits || old(self).crate_common_traits@.len() == 0 ==> final(self).output
                == old(self).output && final(self).doc_path@ == old(self).doc_path@,
            !(old(self).options.no_common_traits || old(self).crate_common_traits@.len() == 0) ==> exists|list: Seq<char>|
                final(self).output@ == old(self).output@ + header_line(old(self).doc_path@, "\n"@, "Common Traits"@, "\n\n"@)
                + common_traits_intro() + list + "\n"@
                && final(self).doc_path@ == next_section(old(self).doc_path@),
    {
        if !self.options.no_common_traits && self.crate_common_traits.len() > 0 {
            let ghost s0 = *self;
            self.write_header("\n", "Common Traits", "\n\n");
            self.write(
                "The following traits are commonly implemented by types in this crate. Unless otherwise noted, you can assume these traits are implemented:\n\n",
            );
            let ghost o_intro = self.output@;
            let mut common: Vec<FormattedTraitImpl> = Vec::new();
            let c = self.crate_common_traits.len();
            for i in 0..c
                invariant
                    c == self.crate_common_traits@.len(),
            {
                common.push(self.crate_common_traits[i].copy());
            }
            let formatted_list = self.format_trait_list(&common);
            if !formatted_list.as_str().is_empty() {
                self.write(formatted_list.as_str());
            }
            let ghost list = self.output@.subrange(o_intro.len() as int, self.output@.len() as int);
            assert(self.output@ =~= o_intro + list);
            self.write("\n");
            self.post_increment_current_level();
            assert(self.output@ =~= s0.output@ + header_line(s0.doc_path@, "\n"@, "Common Traits"@, "\n\n"@)
                + common_traits_intro() + list + "\n"@);
        }
    }

    /// Prints the "Macros" section: the selected macros the root module shows,
    /// sorted by name.
    fn print_macros(&mut self)
        requires
            old(self).doc_path@.len() + 12 < usize::MAX,
            declarations_named(old(self).krate),
            old(self).krate.wf(),
        ensures
            final(self).stepped_from(old(self)),
            same_level(old(self).doc_path@, final(self).doc_path@),
            ({
                let k = old(self).krate;
                let root = k.root_id();
                let has_items = old(self).resolved_modules@.contains_key(root);
                let items = old(self).resolved_modules@[root].items@;
                &&& !(has_items && exists|i: int| 0 <= i < items.len() && #[trigger] selected_macro(k, old(self).selected_ids@, items[i]))
                    ==> final(self).output == old(self).output && final(self).doc_path@ == old(self).doc_path@
                &&& (has_items && exists|i: int| 0 <= i < items.len() && #[trigger] selected_macro(k, old(self).selected_ids@, items[i]))
                    ==> (old(self).output@ + header_line(old(self).doc_path@, "\n"@, "Macros"@, "\n"@)).is_prefix_of(final(self).output@)
                    && final(self).doc_path@ == next_section(old(self).doc_path@)
                &&& has_items ==> forall|i: int| 0 <= i < items.len() && #[trigger] selected_macro(k, old(self).selected_ids@, items[i])
                    && k.index_map().contains_key(items[i]) ==> final(self).printed_ids@.contains_key(items[i])
            }),
    {
        let krate = self.krate;
        let root = krate.root();
        let ghost s_in = *self;
        let macro_ids: Vec<Id> = match self.resolved_modules.get(&root) {
            Some(rm) => {
                let mut v: Vec<Id> = Vec::new();
                let n = rm.items.len();
                for i in 0..n
                    invariant
                        n == rm.items@.len(),
                        krate == self.krate,
                        forall|j: int| 0 <= j < i && #[trigger] selected_macro(krate, self.selected_ids@, rm.items@[j])
                            ==> v@.contains(rm.items@[j]),
                        v@.len() > 0 <==> exists|j: int| 0 <= j < i && #[trigger] selected_macro(krate, self.selected_ids@, rm.items@[j]),
                        forall|q: int| 0 <= q < v@.len() ==> selected_macro(krate, self.selected_ids@, #[trigger] v@[q]),
                {
                    let ghost vb = v@;
                    let id = rm.items[i];
                    if self.selected_ids.contains(&id) {
                        let kind = self.get_item_kind(id);
                        if kind == Some(ItemKind::Macro) || kind == Some(ItemKind::ProcAttribute) || kind == Some(
                            ItemKind::ProcDerive,
                        ) {
                            v.push(id);
                        }
                    }
                    proof {
                        assert forall|j: int| 0 <= j < i + 1 && #[trigger] selected_macro(krate, self.selected_ids@, rm.items@[j])
                            implies v@.contains(rm.items@[j]) by {
                            if j < i {
                                let q = choose|q: int| 0 <= q < vb.len() && vb[q] == rm.items@[j];
                                assert(v@[q] == vb[q]);
                            } else {
                                assert(v@[v@.len() - 1] == id);
                            }
                        }
                        if vb.len() > 0 {
                            let j = choose|j: int| 0 <= j < i && #[trigger] selected_macro(krate, self.selected_ids@, rm.items@[j]);
                            assert(0 <= j < i + 1);
                        }
                        if v@.len() > vb.len() {
                            assert(selected_macro(krate, self.selected_ids@, rm.items@[i as int]));
                        }
                        assert forall|q: int| 0 <= q < v@.len() implies selected_macro(krate, self.selected_ids@, #[trigger] v@[q]) by {
                            if q < vb.len() {
                                assert(v@[q] == vb[q]);
                            }
                        }
                    }
                }
                v
            },
            None => Vec::new(),
        };
        proof {
            reveal_strlit("");
        }
        if macro_ids.len() > 0 {
            let ghost s1 = *self;
            self.write_header("\n", "Macros", "\n");
            self.push_level();
            let ghost s_head = *self;
            let sorted = sort_ids_by_name(&macro_ids, krate);
            let m = sorted.len();
            for i in 0..m
                invariant
                    m == sorted@.len(),
                    self.stepped_from(&s1),
                    self.grew_from(&s_head),
                    self.doc_path@.len() == s1.doc_path@.len() + 1,
                    self.doc_path@.drop_last() == s1.doc_path@,
                    s1.doc_path@.len() + 12 < usize::MAX,
                    declarations_named(self.krate),
                    self.krate.wf(),
                    krate == self.krate,
                    forall|q: int| 0 <= q < i && s1.selected_ids@.contains(#[trigger] sorted@[q])
                        && krate.index_map().contains_key(sorted@[q])
                        && !(krate.index_map()[sorted@[q]].inner is Use || krate.index_map()[sorted@[q]].inner is Module)
                        ==> self.printed_ids@.contains_key(sorted@[q]),
            {
                let ghost si = *self;
                self.print_item_details(sorted[i]);
                proof {
                    assert forall|q: int| 0 <= q < i + 1 && s1.selected_ids@.contains(#[trigger] sorted@[q])
                        && krate.index_map().contains_key(sorted@[q])
                        && !(krate.index_map()[sorted@[q]].inner is Use || krate.index_map()[sorted@[q]].inner is Module)
                        implies self.printed_ids@.contains_key(sorted@[q]) by {
                        if q < i {
                            assert(si.printed_ids@.contains_key(sorted@[q]));
                        }
                    }
                }
            }
            let ghost s_end = *self;
            self.pop_level();
            assert(self.doc_path@ =~= s1.doc_path@);
            self.post_increment_current_level();
            proof {
                assert(self.grew_from(&s_end));
                let items = s_in.resolved_modules@[root].items@;
                assert forall|i: int| 0 <= i < items.len() && #[trigger] selected_macro(krate, s_in.selected_ids@, items[i])
                    && krate.index_map().contains_key(items[i]) implies self.printed_ids@.contains_key(items[i]) by {
                    assert(macro_ids@.contains(items[i]));
                    let r = choose|r: int| 0 <= r < macro_ids@.len() && macro_ids@[r] == items[i];
                    assert(sorted@.contains(macro_ids@[r]));
                    let q = choose|q: int| 0 <= q < sorted@.len() && sorted@[q] == items[i];
                    assert(kind_of_id(krate, items[i]) == Some(kind_of(krate.index_map()[items[i]])));
                    assert(s_end.printed_ids@.contains_key(sorted@[q]));
                }
            }
        }
    }

    /// Prints the whole document: the crate header and description, the manifest,
    /// the README, the crate's common traits, the macros, the modules depth first,
    /// the items printed nowhere else, and the examples.
    #[verifier::spinoff_prover]
    #[verifier::rlimit(40)]
    fn finalize(self) -> (res: String)
        requires
            printable(self.krate),
        ensures
            crate_header_text(self.krate).is_prefix_of(res@),
            exists|parts: DocParts| #[trigger] document_parts(self, parts) && res@ == document_text(self, parts),
    {
        let mut p = self;
        let krate = p.krate;
        let root_item = krate.get(krate.root()).unwrap();
        p.doc_path = Vec::new();
        let mut header = String::from_str("# ");
        match &root_item.name {
            Some(n) => header.append(n.as_str()),
            None => header.append("Unknown Crate"),
        }
        header.append(" API (");
        match krate.crate_version() {
            Some(v) => header.append(v.as_str()),
            None => {},
        }
        header.append(")\n\n");
        p.output = header;
        let ghost s0 = p;
        assert(crate_header_text(krate) == s0.output@);
        p.push_level();
        let ghost s1 = p;
        p.print_front_matter();
        let ghost sf = p;
        let root = krate.root();
        p.print_macros();
        let ghost sm = p;
        let bound = if p.krate.ids().len() < usize::MAX { p.krate.ids().len() + 1 } else { usize::MAX };
        p.print_module_recursive(root, bound);
        let tops = crate::select::copy_ids(&p.module_tree.top_level_modules);
        let t = tops.len();
        let ghost s2 = p;
        proof {
            reveal_strlit("Macros");
        }
        for i in 0..t
            invariant
                t == tops@.len(),
                p.same_setup(&s2),
                p.grew_from(&s2),
                same_level(s2.doc_path@, p.doc_path@),
                s2.doc_path@.len() == 1,
                printable(p.krate),
        {
            p.print_module_recursive(tops[i], bound);
        }
        let ghost s_mod = p;
        proof {
            assert(p.grew_from(&s2));
            lemma_root_module_part(sm, s2, p);
        }
        p.print_other();
        let ghost s_o = p;
        p.print_examples();
        proof {
            lemma_document_parts(self, s0, s1, sf, sm, s_mod, s_o, p);
        }
        p.output
    }

    /// The kind of the item with id `id`: see `kind_of_id`.
    fn get_item_kind(&self, id: Id) -> (res: Option<ItemKind>)
        ensures
            res == kind_of_id(self.krate, id),
    {
        match self.krate.get(id) {
            Some(item) => Some(infer_item_kind(item)),
            None => match self.krate.get_path(id) {
                Some(summary) => Some(summary.kind),
                None => None,
            },
        }
    }

    /// Builds the module hierarchy: see `ModuleTree` and `tree_of`.
    fn build_module_tree(krate: &'a Crate) -> (res: ModuleTree)
        requires
            krate.wf(),
        ensures
            tree_of(krate, res),
    {
        let ids = krate.ids();
        let n = ids.len();
        let mut all_modules: HashSet<Id> = HashSet::new();
        let mut children: HashMap<Id, Vec<Id>> = HashMap::new();
        let mut parents: HashSet<Id> = HashSet::new();
        for i in 0..n
            invariant
                n == ids@.len(),
                ids@ == krate.id_seq(),
                krate.wf(),
                forall|x: Id| #[trigger] all_modules@.contains(x) <==> (ids@.take(i as int).contains(x) && is_module(krate, x)),
                forall|x: Id| #[trigger] parents@.contains(x) <==> has_parent_in(krate, ids@.take(i as int), x),
                forall|m: Id| #[trigger] children@.contains_key(m) <==> (ids@.take(i as int).contains(m) && is_module(krate, m)
                    && submodules(krate, module_items(krate.index_map(), m)).len() > 0),
                forall|m: Id| #[trigger] children@.contains_key(m) ==> arranged(
                    submodules(krate, module_items(krate.index_map(), m)),
                    path_keys(krate, submodules(krate, module_items(krate.index_map(), m))),
                    children@[m]@,
                ),
        {
            let id = ids[i];
            proof {
                assert(ids@.take(i + 1) =~= ids@.take(i as int).push(id));
                krate.lemma_wf_ids(id);
                assert(ids@.contains(id));
            }
            proof {
                assert forall|x: Id| #[trigger] ids@.take(i + 1).contains(x) <==> (ids@.take(i as int).contains(x) || x == id) by {
                    lemma_take_contains(ids@, i as int, x);
                }
            }
            let item = krate.get(id).unwrap();
            if let ItemEnum::Module(module_data) = &item.inner {
                all_modules.insert(id);
                let mut kids: Vec<Id> = Vec::new();
                let mut kid_paths: Vec<String> = Vec::new();
                let m = module_data.items.len();
                let ghost its = module_data.items@;
                assert(its == module_items(krate.index_map(), id));
                for j in 0..m
                    invariant
                        m == its.len(),
                        its == module_data.items@,
                        kids@ == submodules(krate, its.take(j as int)),
                        kid_paths@.len() == kids@.len(),
                        forall|q: int| 0 <= q < kids@.len() ==> (#[trigger] kid_paths@[q])@ == path_key(krate, kids@[q]),
                        forall|x: Id| #[trigger] parents@.contains(x) <==> (has_parent_in(krate, ids@.take(i as int), x)
                            || submodules(krate, its.take(j as int)).contains(x)),
                {
                    let child = module_data.items[j];
                    proof {
                        assert(its.take(j + 1).drop_last() =~= its.take(j as int));
                        assert(its.take(j + 1).last() == child);
                    }
                    let is_mod = match krate.get(child) {
                        Some(ci) => match &ci.inner {
                            ItemEnum::Module(_) => true,
                            _ => false,
                        },
                        None => false,
                    };
                    if is_mod {
                        kids.push(child);
                        kid_paths.push(path_string(krate, child));
                        parents.insert(child);
                        proof {
                            assert forall|x: Id| #[trigger] parents@.contains(x) <==> (has_parent_in(krate, ids@.take(i as int), x)
                                || submodules(krate, its.take(j + 1)).contains(x)) by {
                                let prev = submodules(krate, its.take(j as int));
                                assert(submodules(krate, its.take(j + 1)) == prev.push(child));
                                if prev.contains(x) {
                                    let q = choose|q: int| 0 <= q < prev.len() && prev[q] == x;
                                    assert(prev.push(child)[q] == x);
                                }
                                if prev.push(child).contains(x) && x != child {
                                    let q = choose|q: int| 0 <= q < prev.len() + 1 && prev.push(child)[q] == x;
                                    assert(prev[q] == x);
                                }
                                assert(prev.push(child)[prev.len() as int] == child);
                            }
                        }
                    }
                }
                assert(its.take(m as int) =~= its);
                if kids.len() > 0 {
                    let keys = crate::order::single_keys(kid_paths);
                    proof {
                        assert(crate::order::key_views(keys@) =~= path_keys(krate, kids@));
                    }
                    let sorted = crate::order::sort_by_keys(&kids, &keys);
                    children.insert(id, sorted);
                }
                proof {
                    assert forall|x: Id| #[trigger] parents@.contains(x) <==> has_parent_in(krate, ids@.take(i + 1), x) by {
                        lemma_has_parent_push(krate, ids@.take(i as int), id, x);
                    }
                }
            } else {
                proof {
                    assert forall|x: Id| #[trigger] parents@.contains(x) <==> has_parent_in(krate, ids@.take(i + 1), x) by {
                        lemma_has_parent_push(krate, ids@.take(i as int), id, x);
                    }
                }
            }
        }
        assert(ids@.take(n as int) =~= ids@);
        proof {
            assert forall|x: Id| #[trigger] all_modules@.contains(x) <==> is_module(krate, x) by {
                krate.lemma_wf_ids(x);
            }
            assert forall|m: Id| #[trigger] children@.contains_key(m) <==> (is_module(krate, m) && submodules(
                krate,
                module_items(krate.index_map(), m),
            ).len() > 0) by {
                krate.lemma_wf_ids(m);
            }
        }
        let root = krate.root();
        let mut tops: Vec<Id> = Vec::new();
        let mut top_paths: Vec<String> = Vec::new();
        for i in 0..n
            invariant
                n == ids@.len(),
                ids@ == krate.id_seq(),
                krate.wf(),
                root == krate.root_id(),
                forall|x: Id| #[trigger] all_modules@.contains(x) <==> is_module(krate, x),
                forall|x: Id| #[trigger] parents@.contains(x) <==> has_parent_in(krate, ids@, x),
                tops@ == top_candidates(krate, ids@.take(i as int)),
                top_paths@.len() == tops@.len(),
                forall|q: int| 0 <= q < tops@.len() ==> (#[trigger] top_paths@[q])@ == path_key(krate, tops@[q]),
        {
            let id = ids[i];
            proof {
                assert(ids@.take(i + 1).drop_last() =~= ids@.take(i as int));
                assert(ids@.take(i + 1).last() == id);
                assert(ids@.contains(id));
            }
            if all_modules.contains(&id) && id != root && !parents.contains(&id) {
                tops.push(id);
                top_paths.push(path_string(krate, id));
            }
        }
        assert(ids@.take(n as int) =~= ids@);
        let keys = crate::order::single_keys(top_paths);
        proof {
            assert(crate::order::key_views(keys@) =~= path_keys(krate, tops@));
        }
        let top_level_modules = crate::order::sort_by_keys(&tops, &keys);
        ModuleTree { children, all_modules, top_level_modules }
    }
}

} // verus!
