//! Trait implementations as the documentation lists them: the marker that stands
//! for missing documentation, the code block of an impl's associated items, the
//! category of an implementation and the list entry that shows it.

use vstd::prelude::*;
use std::collections::{HashMap, HashSet};
use crate::model::{Crate, GenericArg, GenericArgs, GenericBound, GenericParamDef, GenericParamDefKind, Generics, Id, Impl, Item, ItemEnum, Path, Type};
use crate::decl::name_or;
use crate::equal::{eq_bounds, eq_generics, eq_preds, eq_strs, same_bounds, same_generics, same_preds, same_strs};
use crate::format::{
    attrs_text, bounds_text, format_attributes, format_bounds, format_generics_where_only, format_path, format_type, indent_string,
    indented, path_text, type_text, where_text, contains_char,
};
use crate::impls::{format_impl_decl, generic_args_to_generics, generics_for_args, has_assoc_items, impl_decl_text, trait_impl_has_associated_items};
use crate::text::{decimal, decimal_string, join, join_strings, lines, lines_of, views};

verus! {

/// The decimal numbers of a documentation path.
pub open spec fn path_numbers(dp: Seq<usize>) -> Seq<Seq<char>> {
    dp.map_values(|n: usize| decimal(n as nat))
}

/// The marker that stands for an item's documentation in template mode, numbered
/// after the documentation path: `{{MISSING_DOCS_1_2}}`, or `{{MISSING_DOCS}}` at the top.
pub open spec fn marker_text(dp: Seq<usize>) -> Seq<char> {
    if dp.len() == 0 {
        "{{MISSING_DOCS}}"@
    } else {
        "{{MISSING_DOCS_"@ + join(path_numbers(dp), "_"@) + "}}"@
    }
}

/// The decimal numbers of a documentation path: see `path_numbers`.
pub fn path_number_strings(dp: &Vec<usize>) -> (res: Vec<String>)
    ensures
        views(res@) == path_numbers(dp@),
{
    let mut res: Vec<String> = Vec::new();
    let n = dp.len();
    for i in 0..n
        invariant
            n == dp@.len(),
            views(res@) == path_numbers(dp@.take(i as int)),
    {
        let ghost before = res@;
        res.push(decimal_string(dp[i]));
        assert(views(res@) =~= views(before).push(decimal(dp@[i as int] as nat)));
        assert(path_numbers(dp@.take(i + 1)) =~= path_numbers(dp@.take(i as int)).push(decimal(dp@[i as int] as nat)));
    }
    assert(dp@.take(n as int) =~= dp@);
    res
}

/// The template marker for a documentation path: see `marker_text`.
pub fn template_marker(dp: &Vec<usize>) -> (res: String)
    ensures
        res@ == marker_text(dp@),
{
    if dp.len() == 0 {
        String::from_str("{{MISSING_DOCS}}")
    } else {
        let mut s = String::from_str("{{MISSING_DOCS_");
        let nums = path_number_strings(dp);
        let joined = join_strings(&nums, "_");
        s.append(joined.as_str());
        s.append("}}");
        s
    }
}

/// The comment that follows an associated item in an impl block in template mode,
/// when the item has documentation.
pub open spec fn impl_item_marker(it: Item, template_mode: bool, dp: Seq<usize>) -> Seq<char> {
    if template_mode && it.docs is Some {
        "\n    // "@ + marker_text(dp.push(1))
    } else {
        Seq::empty()
    }
}

/// The line of an associated constant in an impl block.
pub open spec fn impl_const_line(k: &Crate, it: Item, type_: Type, value: Option<String>, marker: Seq<char>) -> Seq<char> {
    "    "@ + attrs_text(it.attrs@) + "const "@ + name_or(it.name, "_"@) + ": "@ + type_text(k, type_) + match value {
        Some(v) => " = "@ + v@ + ";"@,
        None => ";"@,
    } + marker + "\n"@
}

/// The line of an associated type in an impl block.
pub open spec fn impl_type_line(k: &Crate, it: Item, bounds: Seq<GenericBound>, type_: Option<Type>, marker: Seq<char>) -> Seq<char> {
    "    "@ + attrs_text(it.attrs@) + "type "@ + name_or(it.name, "_"@) + (if bounds.len() > 0 {
        ": "@ + bounds_text(k, bounds)
    } else {
        Seq::empty()
    }) + match type_ {
        Some(t) => " = "@ + type_text(k, t),
        None => Seq::empty(),
    } + ";"@ + marker + "\n"@
}

/// The lines of the selected associated constants and types of an impl, in order.
pub open spec fn impl_assoc_lines(k: &Crate, items: Seq<Id>, sel: Set<Id>, template_mode: bool, dp: Seq<usize>) -> Seq<char>
    decreases items.len(),
{
    if items.len() == 0 {
        Seq::empty()
    } else {
        let prev = impl_assoc_lines(k, items.drop_last(), sel, template_mode, dp);
        let id = items.last();
        if sel.contains(id) && k.index_map().contains_key(id) {
            let it = k.index_map()[id];
            match it.inner {
                ItemEnum::AssocConst { type_, value } => prev + impl_const_line(
                    k,
                    it,
                    type_,
                    value,
                    impl_item_marker(it, template_mode, dp),
                ),
                ItemEnum::AssocType { bounds, type_, .. } => prev + impl_type_line(
                    k,
                    it,
                    bounds@,
                    type_,
                    impl_item_marker(it, template_mode, dp),
                ),
                _ => prev,
            }
        } else {
            prev
        }
    }
}

/// Whether the impl, known by `impl_id`, is recorded as printed.
pub open spec fn impl_printed(impl_id: Option<Id>, printed: Map<Id, String>) -> bool {
    impl_id matches Some(i) && printed.contains_key(i)
}

/// The code block of an impl with its selected associated constants and types;
/// nothing when it has none or the impl is recorded as printed already.
pub open spec fn impl_block_text(
    k: &Crate,
    imp: Impl,
    impl_id: Option<Id>,
    printed: Map<Id, String>,
    sel: Set<Id>,
    template_mode: bool,
    dp: Seq<usize>,
) -> Option<Seq<char>> {
    let header = impl_decl_text(k, imp);
    let lines = impl_assoc_lines(k, imp.items@, sel, template_mode, dp);
    if impl_printed(impl_id, printed) || lines.len() == 0 {
        None
    } else {
        Some(header + " {\n"@ + (if header.contains('\n') { "\n"@ } else { Seq::empty() }) + lines + "}"@)
    }
}

fn push_impl_item_marker(code: &mut String, it: &Item, template_mode: bool, dp: &Vec<usize>)
    ensures
        final(code)@ == old(code)@ + impl_item_marker(*it, template_mode, dp@),
{
    if template_mode && it.docs.is_some() {
        let mut inner = dp.clone();
        inner.push(1);
        code.append("\n    // ");
        let m = template_marker(&inner);
        code.append(m.as_str());
    }
}

/// The part of an associated constant's line after its name: type, value, the
/// semicolon, the marker and the newline.
pub open spec fn impl_const_tail(k: &Crate, type_: Type, value: Option<String>, marker: Seq<char>) -> Seq<char> {
    ": "@ + type_text(k, type_) + match value {
        Some(v) => " = "@ + v@ + ";"@,
        None => ";"@,
    } + marker + "\n"@
}

fn impl_const_tail_string(it: &Item, type_: &Type, value: &Option<String>, krate: &Crate, template_mode: bool, dp: &Vec<usize>) -> (res: String)
    ensures
        res@ == impl_const_tail(krate, *type_, *value, impl_item_marker(*it, template_mode, dp@)),
{
    let mut rest = String::from_str(": ");
    let t = format_type(type_, krate);
    rest.append(t.as_str());
    match value {
        Some(v) => {
            rest.append(" = ");
            rest.append(v.as_str());
            rest.append(";");
        },
        None => rest.append(";"),
    }
    push_impl_item_marker(&mut rest, it, template_mode, dp);
    rest.append("\n");
    rest
}

fn push_impl_const_line(
    code: &mut String,
    it: &Item,
    type_: &Type,
    value: &Option<String>,
    krate: &Crate,
    template_mode: bool,
    dp: &Vec<usize>,
)
    ensures
        final(code)@ == old(code)@ + impl_const_line(krate, *it, *type_, *value, impl_item_marker(*it, template_mode, dp@)),
{
    let mut head = String::from_str("    ");
    let a = format_attributes(it.attrs.as_slice());
    head.append(a.as_str());
    head.append("const ");
    match &it.name {
        Some(nm) => head.append(nm.as_str()),
        None => head.append("_"),
    }
    let tail = impl_const_tail_string(it, type_, value, krate, template_mode, dp);
    code.append(head.as_str());
    code.append(tail.as_str());
    let ghost m = impl_item_marker(*it, template_mode, dp@);
    assert(impl_const_line(krate, *it, *type_, *value, m) =~= head@ + impl_const_tail(krate, *type_, *value, m));
}

/// The part of an associated type's line after its name: bounds, default, the
/// semicolon, the marker and the newline.
pub open spec fn impl_type_tail(k: &Crate, bounds: Seq<GenericBound>, type_: Option<Type>, marker: Seq<char>) -> Seq<char> {
    (if bounds.len() > 0 {
        ": "@ + bounds_text(k, bounds)
    } else {
        Seq::empty()
    }) + match type_ {
        Some(t) => " = "@ + type_text(k, t),
        None => Seq::empty(),
    } + ";"@ + marker + "\n"@
}

fn impl_type_tail_string(
    it: &Item,
    bounds: &Vec<GenericBound>,
    type_: &Option<Type>,
    krate: &Crate,
    template_mode: bool,
    dp: &Vec<usize>,
) -> (res: String)
    ensures
        res@ == impl_type_tail(krate, bounds@, *type_, impl_item_marker(*it, template_mode, dp@)),
{
    let mut rest = String::new();
    if bounds.len() > 0 {
        rest.append(": ");
        let b = format_bounds(bounds, krate);
        rest.append(b.as_str());
    }
    let ghost r1 = rest@;
    match type_ {
        Some(t) => {
            rest.append(" = ");
            let ts = format_type(t, krate);
            rest.append(ts.as_str());
        },
        None => {},
    }
    let ghost r2 = rest@;
    rest.append(";");
    push_impl_item_marker(&mut rest, it, template_mode, dp);
    rest.append("\n");
    rest
}

fn push_impl_type_line(
    code: &mut String,
    it: &Item,
    bounds: &Vec<GenericBound>,
    type_: &Option<Type>,
    krate: &Crate,
    template_mode: bool,
    dp: &Vec<usize>,
)
    ensures
        final(code)@ == old(code)@ + impl_type_line(krate, *it, bounds@, *type_, impl_item_marker(*it, template_mode, dp@)),
{
    let ghost c0 = code@;
    let mut head = String::from_str("    ");
    let a = format_attributes(it.attrs.as_slice());
    head.append(a.as_str());
    head.append("type ");
    match &it.name {
        Some(nm) => head.append(nm.as_str()),
        None => head.append("_"),
    }
    let tail = impl_type_tail_string(it, bounds, type_, krate, template_mode, dp);
    code.append(head.as_str());
    code.append(tail.as_str());
    let ghost m = impl_item_marker(*it, template_mode, dp@);
    assert(impl_type_line(krate, *it, bounds@, *type_, m) =~= head@ + impl_type_tail(krate, bounds@, *type_, m));
}

/// The code block of an impl's selected associated constants and types: see `impl_block_text`.
pub fn generate_impl_trait_block(
    imp: &Impl,
    impl_id: Option<Id>,
    printed_ids: &HashMap<Id, String>,
    krate: &Crate,
    selected_ids: &HashSet<Id>,
    template_mode: bool,
    doc_path: &Vec<usize>,
) -> (res: Option<String>)
    ensures
        match impl_block_text(krate, *imp, impl_id, printed_ids@, selected_ids@, template_mode, doc_path@) {
            Some(t) => res is Some && res->Some_0@ == t,
            None => res is None,
        },
{
    if let Some(i) = impl_id {
        if printed_ids.contains_key(&i) {
            return None;
        }
    }
    let impl_header = format_impl_decl(imp, krate);
    let mut content = String::new();
    let n = imp.items.len();
    for j in 0..n
        invariant
            n == imp.items@.len(),
            content@ == impl_assoc_lines(krate, imp.items@.take(j as int), selected_ids@, template_mode, doc_path@),
    {
        let id = imp.items[j];
        proof {
            assert(imp.items@.take(j + 1).drop_last() =~= imp.items@.take(j as int));
            assert(imp.items@.take(j + 1).last() == id);
        }
        if selected_ids.contains(&id) {
            match krate.get(id) {
                Some(it) => {
                    match &it.inner {
                        ItemEnum::AssocConst { type_, value } => {
                            push_impl_const_line(&mut content, it, type_, value, krate, template_mode, doc_path);
                        },
                        ItemEnum::AssocType { bounds, type_, .. } => {
                            push_impl_type_line(&mut content, it, bounds, type_, krate, template_mode, doc_path);
                        },
                        _ => {},
                    }
                },
                None => {},
            }
        }
    }
    assert(imp.items@.take(n as int) =~= imp.items@);
    if content.as_str().is_empty() {
        return None;
    }
    let mut code = impl_header.clone();
    code.append(" {\n");
    if contains_char(impl_header.as_str(), '\n') {
        code.append("\n");
    }
    code.append(content.as_str());
    code.append("}");
    Some(code)
}

/// How a trait implementation is shown.
#[derive(Debug, Clone, Copy, PartialEq, Eq, Structural, Hash)]
pub enum TraitImplCategory {
    /// A plain impl whose type's generic parameters pass straight through.
    Simple,
    /// An impl with generics of its own, associated items or other complexities.
    GenericOrComplex,
    /// An auto trait, such as `Send` or `Sync`.
    Auto,
    /// A blanket implementation.
    Blanket,
}

/// A trait implementation normalized for comparison: which trait, with what
/// arguments, how it is shown, and optionally the impl it came from.
#[derive(Debug)]
pub struct FormattedTraitImpl {
    pub trait_id: Id,
    /// The generics that the trait path's arguments stand for.
    pub trait_generics: Generics,
    pub is_unsafe_impl: bool,
    pub is_negative: bool,
    pub category: TraitImplCategory,
    /// The Markdown list entry that shows the implementation.
    pub formatted_markdown_list_entry: String,
    /// The impl item this was made from, when it stands for one impl.
    pub impl_id: Option<Id>,
}

/// Whether two normalized implementations are the same for grouping common traits:
/// the list entry and the impl id are left out.
pub open spec fn same_trait_impl(a: FormattedTraitImpl, b: FormattedTraitImpl) -> bool {
    &&& a.trait_id == b.trait_id
    &&& same_generics(a.trait_generics, b.trait_generics)
    &&& a.is_unsafe_impl == b.is_unsafe_impl
    &&& a.is_negative == b.is_negative
    &&& a.category == b.category
}

/// Whether a trait path has no arguments to show.
pub open spec fn trait_args_empty(args: Option<Box<GenericArgs>>) -> bool {
    match args {
        None => true,
        Some(a) => match *a {
            GenericArgs::AngleBracketed { args, constraints } => args@.len() == 0 && constraints@.len() == 0,
            _ => false,
        },
    }
}

/// The last of the parameters named `name`, as a map from names to parameters keeps it.
pub open spec fn param_named(ps: Seq<GenericParamDef>, name: Seq<char>) -> Option<GenericParamDef>
    decreases ps.len(),
{
    if ps.len() == 0 {
        None
    } else if ps.last().name@ == name {
        Some(ps.last())
    } else {
        param_named(ps.drop_last(), name)
    }
}

/// How many different names the parameters have.
pub open spec fn distinct_names(ps: Seq<GenericParamDef>) -> nat
    decreases ps.len(),
{
    if ps.len() == 0 {
        0
    } else {
        distinct_names(ps.drop_last()) + if param_named(ps.drop_last(), ps.last().name@) is Some {
            0nat
        } else {
            1nat
        }
    }
}

/// The generics of a struct, enum or union item.
pub open spec fn type_generics(it: Item) -> Option<Generics> {
    match it.inner {
        ItemEnum::Struct(s) => Some(s.generics),
        ItemEnum::Enum(e) => Some(e.generics),
        ItemEnum::Union(u) => Some(u.generics),
        _ => None,
    }
}

/// Whether an impl parameter and a type's parameter agree: outlived lifetimes, or
/// bounds, the same; two const parameters always agree.
pub open spec fn kinds_agree(a: GenericParamDefKind, b: GenericParamDefKind) -> bool {
    match (a, b) {
        (GenericParamDefKind::Lifetime { outlives: x }, GenericParamDefKind::Lifetime { outlives: y }) => same_strs(x@, y@),
        (GenericParamDefKind::Type { bounds: x, .. }, GenericParamDefKind::Type { bounds: y, .. }) => same_bounds(x@, y@),
        (GenericParamDefKind::Const { .. }, GenericParamDefKind::Const { .. }) => true,
        _ => false,
    }
}

/// Whether the type's argument is a lifetime or a generic parameter that the impl
/// declares, in agreement with the type's own parameter in that place.
pub open spec fn arg_passes_through(impl_params: Seq<GenericParamDef>, arg: GenericArg, type_param: GenericParamDef) -> bool {
    let name: Option<Seq<char>> = match arg {
        GenericArg::Lifetime(n) => Some(n@),
        GenericArg::Type(Type::Generic(n)) => Some(n@),
        _ => None,
    };
    match name {
        Some(n) => match param_named(impl_params, n) {
            Some(p) => kinds_agree(p.kind, type_param.kind),
            None => false,
        },
        None => false,
    }
}

/// Whether the impl's type is written with the type's own parameters, each passed
/// through from the impl's parameters, under the same where clause.
pub open spec fn for_args_match(k: &Crate, imp: Impl, for_path: Path) -> bool {
    if !k.index_map().contains_key(for_path.id) {
        false
    } else {
        match type_generics(k.index_map()[for_path.id]) {
            None => false,
            Some(fg) => match for_path.args {
                None => imp.generics.params@.len() == 0,
                Some(b) => match *b {
                    GenericArgs::AngleBracketed { args, .. } => {
                        &&& fg.params@.len() == args@.len()
                        &&& fg.params@.len() == distinct_names(imp.generics.params@)
                        &&& same_preds(fg.where_predicates@, imp.generics.where_predicates@)
                        &&& forall|i: int| 0 <= i < args@.len()
                            ==> arg_passes_through(imp.generics.params@, #[trigger] args@[i], fg.params@[i])
                    },
                    _ => false,
                },
            },
        }
    }
}

/// Whether a trait impl passes its type's generic parameters straight through: the
/// trait has no arguments, the impl no associated items or where clause, and the
/// type is written with its own parameters.
pub open spec fn is_passthrough(k: &Crate, imp: Impl, tp: Path) -> bool {
    &&& trait_args_empty(tp.args)
    &&& !has_assoc_items(k, imp.items@)
    &&& imp.for_ matches Type::ResolvedPath(fp)
    &&& for_args_match(k, imp, fp)
    &&& imp.generics.where_predicates@.len() == 0
}

/// The category of a trait impl.
pub open spec fn category_of(k: &Crate, imp: Impl, tp: Path) -> TraitImplCategory {
    if imp.is_synthetic {
        TraitImplCategory::Auto
    } else if imp.blanket_impl is Some {
        TraitImplCategory::Blanket
    } else if is_passthrough(k, imp, tp) && !has_assoc_items(k, imp.items@) {
        TraitImplCategory::Simple
    } else {
        TraitImplCategory::GenericOrComplex
    }
}

/// The trait as shown: `!` for a negative impl, then the trait path.
pub open spec fn trait_display_text(k: &Crate, imp: Impl, tp: Path) -> Seq<char> {
    (if imp.is_negative { "!"@ } else { Seq::empty() }) + path_text(k, tp)
}

/// Text in a Rust code block, indented by four spaces.
pub open spec fn indented_code(s: Seq<char>) -> Seq<char> {
    indented("```rust\n"@ + s + "\n```"@, 4)
}

/// The list entry of a trait impl: the trait in backticks; for a complex impl with
/// associated items, its code block below; for a blanket impl, its where clause,
/// inline when it is one line and as a code block otherwise.
pub open spec fn list_entry_text(
    k: &Crate,
    imp: Impl,
    tp: Path,
    cat: TraitImplCategory,
    block: Option<Seq<char>>,
) -> Seq<char> {
    let entry = "- `"@ + trait_display_text(k, imp, tp) + "`"@;
    match cat {
        TraitImplCategory::GenericOrComplex => match block {
            Some(b) => entry + "\n\n"@ + indented_code(b),
            None => entry,
        },
        TraitImplCategory::Blanket => {
            let wc = where_text(k, imp.generics.where_predicates@);
            if wc.len() == 0 {
                entry
            } else if lines_of(wc).len() == 1 {
                entry + " (`"@ + wc + "`)"@
            } else {
                entry + "\n\n"@ + indented_code(wc)
            }
        },
        _ => entry,
    }
}

/// The index of the last parameter named `name`: see `param_named`.
fn find_param_named(ps: &Vec<GenericParamDef>, name: &String) -> (res: Option<usize>)
    ensures
        match res {
            Some(j) => j < ps@.len() && param_named(ps@, name@) == Some(ps@[j as int]),
            None => param_named(ps@, name@) is None,
        },
{
    let mut last: Option<usize> = None;
    let n = ps.len();
    for i in 0..n
        invariant
            n == ps@.len(),
            match last {
                Some(j) => j < i && param_named(ps@.take(i as int), name@) == Some(ps@[j as int]),
                None => param_named(ps@.take(i as int), name@) is None,
            },
    {
        assert(ps@.take(i + 1).drop_last() =~= ps@.take(i as int));
        if ps[i].name == *name {
            last = Some(i);
        }
    }
    assert(ps@.take(n as int) =~= ps@);
    last
}

/// How many different names the parameters have: see `distinct_names`.
fn count_distinct_names(ps: &Vec<GenericParamDef>) -> (res: usize)
    ensures
        res == distinct_names(ps@),
{
    let mut count: usize = 0;
    let n = ps.len();
    for i in 0..n
        invariant
            n == ps@.len(),
            count == distinct_names(ps@.take(i as int)),
            count <= i,
    {
        assert(ps@.take(i + 1).drop_last() =~= ps@.take(i as int));
        let mut found = false;
        for j in 0..i
            invariant
                i < n,
                n == ps@.len(),
                found <==> param_named(ps@.take(j as int), ps@[i as int].name@) is Some,
        {
            assert(ps@.take(j + 1).drop_last() =~= ps@.take(j as int));
            if ps[j].name == ps[i].name {
                found = true;
            }
        }
        if !found {
            count = count + 1;
        }
    }
    assert(ps@.take(n as int) =~= ps@);
    count
}

/// Whether an impl parameter and a type's parameter agree: see `kinds_agree`.
fn kinds_agree_exec(a: &GenericParamDefKind, b: &GenericParamDefKind) -> (res: bool)
    ensures
        res == kinds_agree(*a, *b),
{
    match (a, b) {
        (GenericParamDefKind::Lifetime { outlives: x }, GenericParamDefKind::Lifetime { outlives: y }) => eq_strs(x, y),
        (GenericParamDefKind::Type { bounds: x, .. }, GenericParamDefKind::Type { bounds: y, .. }) => eq_bounds(x, y),
        (GenericParamDefKind::Const { .. }, GenericParamDefKind::Const { .. }) => true,
        _ => false,
    }
}

/// Whether a type argument passes an impl parameter through: see `arg_passes_through`.
fn arg_passes_through_exec(impl_params: &Vec<GenericParamDef>, arg: &GenericArg, type_param: &GenericParamDef) -> (res: bool)
    ensures
        res == arg_passes_through(impl_params@, *arg, *type_param),
{
    let name = match arg {
        GenericArg::Lifetime(n) => n,
        GenericArg::Type(Type::Generic(n)) => n,
        _ => {
            return false;
        },
    };
    match find_param_named(impl_params, name) {
        Some(j) => kinds_agree_exec(&impl_params[j].kind, &type_param.kind),
        None => false,
    }
}

/// Whether the impl's type is written with its own parameters: see `for_args_match`.
#[verifier::loop_isolation(false)]
fn for_args_match_exec(krate: &Crate, imp: &Impl, for_path: &Path) -> (res: bool)
    ensures
        res == for_args_match(krate, *imp, *for_path),
{
    let item = match krate.get(for_path.id) {
        Some(it) => it,
        None => {
            return false;
        },
    };
    let fg = match crate::impls::get_trait_for_type_generics(item) {
        Some(g) => g,
        None => {
            return false;
        },
    };
    match &for_path.args {
        None => imp.generics.params.len() == 0,
        Some(b) => match &**b {
            GenericArgs::AngleBracketed { args, .. } => {
                if fg.params.len() != args.len() {
                    return false;
                }
                if fg.params.len() != count_distinct_names(&imp.generics.params) {
                    return false;
                }
                if !eq_preds(&fg.where_predicates, &imp.generics.where_predicates) {
                    return false;
                }
                let n = args.len();
                for i in 0..n
                    invariant
                        n == args@.len(),
                        n == fg.params@.len(),
                        forall|q: int| 0 <= q < i
                            ==> arg_passes_through(imp.generics.params@, #[trigger] args@[q], fg.params@[q]),
                {
                    if !arg_passes_through_exec(&imp.generics.params, &args[i], &fg.params[i]) {
                        assert(!arg_passes_through(imp.generics.params@, args@[i as int], fg.params@[i as int]));
                        return false;
                    }
                }
                true
            },
            _ => false,
        },
    }
}

/// Whether a trait impl passes its type's parameters straight through: see `is_passthrough`.
fn is_passthrough_exec(krate: &Crate, imp: &Impl, tp: &Path) -> (res: bool)
    ensures
        res == is_passthrough(krate, *imp, *tp),
{
    let args_empty = match &tp.args {
        None => true,
        Some(a) => match &**a {
            GenericArgs::AngleBracketed { args, constraints } => args.len() == 0 && constraints.len() == 0,
            _ => false,
        },
    };
    if !args_empty || trait_impl_has_associated_items(imp, krate) {
        return false;
    }
    match &imp.for_ {
        Type::ResolvedPath(fp) => for_args_match_exec(krate, imp, fp) && imp.generics.where_predicates.len() == 0,
        _ => false,
    }
}

/// The category of a trait impl: see `category_of`.
pub fn impl_category(krate: &Crate, imp: &Impl, tp: &Path) -> (res: TraitImplCategory)
    ensures
        res == category_of(krate, *imp, *tp),
{
    if imp.is_synthetic {
        TraitImplCategory::Auto
    } else if imp.blanket_impl.is_some() {
        TraitImplCategory::Blanket
    } else if is_passthrough_exec(krate, imp, tp) && !trait_impl_has_associated_items(imp, krate) {
        TraitImplCategory::Simple
    } else {
        TraitImplCategory::GenericOrComplex
    }
}

fn indented_code_block(s: &str) -> (res: String)
    ensures
        res@ == indented_code(s@),
{
    let mut block = String::from_str("```rust\n");
    block.append(s);
    block.append("\n```");
    indent_string(block.as_str(), 4)
}

/// The list entry of a trait impl: see `list_entry_text`.
pub fn format_list_entry(
    krate: &Crate,
    imp: &Impl,
    tp: &Path,
    category: TraitImplCategory,
    block: &Option<String>,
) -> (res: String)
    ensures
        res@ == list_entry_text(krate, *imp, *tp, category, match *block {
            Some(b) => Some(b@),
            None => None,
        }),
{
    let mut entry = String::from_str("- `");
    if imp.is_negative {
        entry.append("!");
    }
    let p = format_path(tp, krate);
    entry.append(p.as_str());
    entry.append("`");
    match category {
        TraitImplCategory::GenericOrComplex => {
            match block {
                Some(b) => {
                    entry.append("\n\n");
                    let code = indented_code_block(b.as_str());
                    entry.append(code.as_str());
                },
                None => {},
            }
        },
        TraitImplCategory::Blanket => {
            let wc = format_generics_where_only(imp.generics.where_predicates.as_slice(), krate);
            if !wc.as_str().is_empty() {
                let ls = lines(wc.as_str());
                if ls.len() == 1 {
                    entry.append(" (`");
                    entry.append(wc.as_str());
                    entry.append("`)");
                } else {
                    entry.append("\n\n");
                    let code = indented_code_block(wc.as_str());
                    entry.append(code.as_str());
                }
            }
        },
        _ => {},
    }
    entry
}

impl FormattedTraitImpl {
    /// A copy, the same for grouping, with the same list entry and impl id.
    pub fn copy(&self) -> (res: FormattedTraitImpl)
        ensures
            same_trait_impl(res, *self),
            res.formatted_markdown_list_entry@ == self.formatted_markdown_list_entry@,
            res.impl_id == self.impl_id,
    {
        FormattedTraitImpl {
            trait_id: self.trait_id,
            trait_generics: crate::equal::copy_generics(&self.trait_generics),
            is_unsafe_impl: self.is_unsafe_impl,
            is_negative: self.is_negative,
            category: self.category,
            formatted_markdown_list_entry: self.formatted_markdown_list_entry.clone(),
            impl_id: self.impl_id,
        }
    }

    /// Whether the trait of the normalized impl has associated types or constants.
    pub fn has_associated_items(&self, krate: &Crate) -> (res: bool)
        ensures
            res == (krate.index_map().contains_key(self.trait_id) && match krate.index_map()[self.trait_id].inner {
                ItemEnum::Trait(t) => has_assoc_items(krate, t.items@),
                _ => false,
            }),
    {
        match krate.get(self.trait_id) {
            Some(item) => match &item.inner {
                ItemEnum::Trait(t) => crate::impls::any_assoc_items(&t.items, krate),
                _ => false,
            },
            None => false,
        }
    }

    /// The impl this normalized impl came from, with its id: `Some` exactly when it
    /// has an impl id that the crate holds as an impl.
    pub fn get_impl_data<'k>(&self, krate: &'k Crate) -> (res: Option<(&'k Impl, Id)>)
        ensures
            match res {
                Some((imp, id)) => self.impl_id is Some && krate.index_map().contains_key(self.impl_id->Some_0)
                    && krate.index_map()[self.impl_id->Some_0].inner == ItemEnum::Impl(*imp)
                    && id == krate.index_map()[self.impl_id->Some_0].id,
                None => !(self.impl_id is Some && krate.index_map().contains_key(self.impl_id->Some_0)
                    && krate.index_map()[self.impl_id->Some_0].inner is Impl),
            },
    {
        match self.impl_id {
            Some(iid) => match krate.get(iid) {
                Some(item) => match &item.inner {
                    ItemEnum::Impl(imp) => Some((imp, item.id)),
                    _ => None,
                },
                None => None,
            },
            None => None,
        }
    }

    /// Whether two normalized implementations are the same: see `same_trait_impl`.
    pub fn eq(&self, other: &Self) -> (res: bool)
        ensures
            res == same_trait_impl(*self, *other),
    {
        self.trait_id == other.trait_id && eq_generics(&self.trait_generics, &other.trait_generics)
            && self.is_unsafe_impl == other.is_unsafe_impl && self.is_negative == other.is_negative
            && self.category == other.category
    }

    /// Normalizes a trait impl, given what its code block depends on: the selected
    /// items, whether template mode is on and the current documentation path.
    pub fn from_impl(
        imp: &Impl,
        impl_id: Option<Id>,
        trait_path: &Path,
        krate: &Crate,
        printed_ids: &HashMap<Id, String>,
        selected_ids: &HashSet<Id>,
        template_mode: bool,
        doc_path: &Vec<usize>,
    ) -> (res: FormattedTraitImpl)
        ensures
            res.trait_id == trait_path.id,
            generics_for_args(krate, trait_path.args, res.trait_generics),
            res.is_unsafe_impl == imp.is_unsafe,
            res.is_negative == imp.is_negative,
            res.category == category_of(krate, *imp, *trait_path),
            res.formatted_markdown_list_entry@ == list_entry_text(
                krate,
                *imp,
                *trait_path,
                res.category,
                impl_block_text(krate, *imp, impl_id, printed_ids@, selected_ids@, template_mode, doc_path@),
            ),
            res.impl_id == impl_id,
    {
        let category = impl_category(krate, imp, trait_path);
        let block = if category == TraitImplCategory::GenericOrComplex {
            generate_impl_trait_block(imp, impl_id, printed_ids, krate, selected_ids, template_mode, doc_path)
        } else {
            None
        };
        let entry = format_list_entry(krate, imp, trait_path, category, &block);
        FormattedTraitImpl {
            trait_id: trait_path.id,
            trait_generics: generic_args_to_generics(&trait_path.args, krate),
            is_unsafe_impl: imp.is_unsafe,
            is_negative: imp.is_negative,
            category,
            formatted_markdown_list_entry: entry,
            impl_id,
        }
    }
}

} // verus!
