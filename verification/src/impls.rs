//! Impl blocks: their declaration lines, whether they define associated items,
//! and the generics a trait path's arguments stand for.

use vstd::prelude::*;
use crate::model::{
    AssocItemConstraintKind, Crate, GenericArg, GenericArgs, GenericParamDef, GenericParamDefKind, Generics, Impl,
    Item, ItemEnum, Type, WherePredicate,
};
use crate::equal::{copy_args, copy_bounds, copy_term, same_args, same_bounds, same_term};
use crate::format::{
    contains_char, format_generics_params_only, format_generics_where_only, format_path, format_type,
    params_only_text, path_text, type_text, where_text,
};

verus! {

/// Whether `p` is the parameter that generic argument `a` of a trait path stands for:
/// a type parameter named after the type, a lifetime, a const parameter named after
/// the expression, or a synthetic `_`.
pub open spec fn param_for_arg(k: &Crate, a: GenericArg, p: GenericParamDef) -> bool {
    match a {
        GenericArg::Type(t) => {
            &&& p.name@ == (match t {
                Type::Generic(n) => n@,
                _ => type_text(k, t),
            })
            &&& p.kind matches GenericParamDefKind::Type { bounds, default, is_synthetic }
            &&& bounds@.len() == 0
            &&& default is None
            &&& !is_synthetic
        },
        GenericArg::Lifetime(lt) => {
            &&& p.name@ == lt@
            &&& p.kind matches GenericParamDefKind::Lifetime { outlives }
            &&& outlives@.len() == 0
        },
        GenericArg::Const(c) => {
            &&& p.name@ == c.expr@
            &&& p.kind matches GenericParamDefKind::Const { type_, default }
            &&& type_ is Infer
            &&& default is None
        },
        GenericArg::Infer => {
            &&& p.name@ == "_"@
            &&& p.kind matches GenericParamDefKind::Type { bounds, default, is_synthetic }
            &&& bounds@.len() == 0
            &&& default is None
            &&& is_synthetic
        },
    }
}

/// `Self::name<args>`, the type an associated item constraint speaks of.
pub open spec fn is_self_assoc(t: Type, name: Seq<char>, args: GenericArgs) -> bool {
    t matches Type::QualifiedPath { name: n, args: a, self_type: s, trait_: tr }
        && n@ == name && same_args(*a, args) && (*s matches Type::Generic(g) && g@ == "Self"@) && tr is None
}

/// Whether `p` is the predicate an associated item constraint of a trait path
/// stands for: `Self::Name<..> == term`, or `Self::Name<..>: bounds`.
pub open spec fn pred_for_constraint(c: crate::model::AssocItemConstraint, p: WherePredicate) -> bool {
    match c.binding {
        AssocItemConstraintKind::Equality(term) => p matches WherePredicate::EqPredicate { lhs, rhs }
            && is_self_assoc(lhs, c.name@, c.args) && same_term(rhs, term),
        AssocItemConstraintKind::Constraint(bounds) => p matches WherePredicate::BoundPredicate { type_, bounds: b, generic_params }
            && is_self_assoc(type_, c.name@, c.args) && same_bounds(b@, bounds@) && generic_params@.len() == 0,
    }
}

/// Whether `g` is the generics that a trait path's arguments stand for: one parameter
/// per angle-bracketed argument and one predicate per constraint; none otherwise.
pub open spec fn generics_for_args(k: &Crate, args: Option<Box<GenericArgs>>, g: Generics) -> bool {
    match args {
        Some(a) => match *a {
            GenericArgs::AngleBracketed { args, constraints } => {
                &&& g.params@.len() == args@.len()
                &&& forall|i: int| 0 <= i < args@.len() ==> param_for_arg(k, args@[i], #[trigger] g.params@[i])
                &&& g.where_predicates@.len() == constraints@.len()
                &&& forall|i: int| 0 <= i < constraints@.len()
                    ==> pred_for_constraint(constraints@[i], #[trigger] g.where_predicates@[i])
            },
            _ => g.params@.len() == 0 && g.where_predicates@.len() == 0,
        },
        None => g.params@.len() == 0 && g.where_predicates@.len() == 0,
    }
}

fn self_assoc_type(name: &String, args: &GenericArgs) -> (res: Type)
    ensures
        is_self_assoc(res, name@, *args),
{
    Type::QualifiedPath {
        name: name.clone(),
        args: Box::new(copy_args(args)),
        self_type: Box::new(Type::Generic(String::from_str("Self"))),
        trait_: None,
    }
}

/// The generics a trait path's arguments stand for: see `generics_for_args`.
pub fn generic_args_to_generics(args_opt: &Option<Box<GenericArgs>>, krate: &Crate) -> (res: Generics)
    ensures
        generics_for_args(krate, *args_opt, res),
{
    let mut params: Vec<GenericParamDef> = Vec::new();
    let mut where_predicates: Vec<WherePredicate> = Vec::new();
    if let Some(args_box) = args_opt {
        if let GenericArgs::AngleBracketed { args, constraints } = &**args_box {
            let n = args.len();
            for i in 0..n
                invariant
                    n == args@.len(),
                    params@.len() == i,
                    forall|j: int| 0 <= j < i ==> param_for_arg(krate, args@[j], #[trigger] params@[j]),
            {
                let p = match &args[i] {
                    GenericArg::Type(t) => {
                        let name = match t {
                            Type::Generic(g_name) => g_name.clone(),
                            _ => format_type(t, krate),
                        };
                        GenericParamDef {
                            name,
                            kind: GenericParamDefKind::Type { bounds: Vec::new(), default: None, is_synthetic: false },
                        }
                    },
                    GenericArg::Lifetime(lt_name) => GenericParamDef {
                        name: lt_name.clone(),
                        kind: GenericParamDefKind::Lifetime { outlives: Vec::new() },
                    },
                    GenericArg::Const(c) => GenericParamDef {
                        name: c.expr.clone(),
                        kind: GenericParamDefKind::Const { type_: Type::Infer, default: None },
                    },
                    GenericArg::Infer => GenericParamDef {
                        name: String::from_str("_"),
                        kind: GenericParamDefKind::Type { bounds: Vec::new(), default: None, is_synthetic: true },
                    },
                };
                params.push(p);
            }
            let m = constraints.len();
            for i in 0..m
                invariant
                    m == constraints@.len(),
                    where_predicates@.len() == i,
                    forall|j: int| 0 <= j < i ==> pred_for_constraint(constraints@[j], #[trigger] where_predicates@[j]),
            {
                let c = &constraints[i];
                let p = match &c.binding {
                    AssocItemConstraintKind::Equality(term) => WherePredicate::EqPredicate {
                        lhs: self_assoc_type(&c.name, &c.args),
                        rhs: copy_term(term),
                    },
                    AssocItemConstraintKind::Constraint(bounds) => WherePredicate::BoundPredicate {
                        type_: self_assoc_type(&c.name, &c.args),
                        bounds: copy_bounds(bounds),
                        generic_params: Vec::new(),
                    },
                };
                where_predicates.push(p);
            }
        }
    }
    Generics { params, where_predicates }
}

/// The generics of a struct, enum or union item.
pub fn get_trait_for_type_generics(item: &Item) -> (res: Option<&Generics>)
    ensures
        match item.inner {
            ItemEnum::Struct(s) => res == Some(&s.generics),
            ItemEnum::Enum(e) => res == Some(&e.generics),
            ItemEnum::Union(u) => res == Some(&u.generics),
            _ => res is None,
        },
{
    match &item.inner {
        ItemEnum::Struct(s) => Some(&s.generics),
        ItemEnum::Enum(e) => Some(&e.generics),
        ItemEnum::Union(u) => Some(&u.generics),
        _ => None,
    }
}

/// Whether the crate has `id` as an associated type or constant.
pub open spec fn is_assoc_type_or_const(k: &Crate, id: crate::model::Id) -> bool {
    k.index_map().contains_key(id) && (k.index_map()[id].inner is AssocType || k.index_map()[id].inner is AssocConst)
}

/// Whether one of the listed items is an associated type or constant of the crate.
pub open spec fn has_assoc_items(k: &Crate, items: Seq<crate::model::Id>) -> bool {
    exists|j: int| 0 <= j < items.len() && #[trigger] is_assoc_type_or_const(k, items[j])
}

/// Whether one of the listed items is an associated type or constant: see `has_assoc_items`.
pub fn any_assoc_items(items: &Vec<crate::model::Id>, krate: &Crate) -> (res: bool)
    ensures
        res == has_assoc_items(krate, items@),
{
    let n = items.len();
    for j in 0..n
        invariant
            n == items@.len(),
            forall|q: int| 0 <= q < j ==> !#[trigger] is_assoc_type_or_const(krate, items@[q]),
    {
        match krate.get(items[j]) {
            Some(item) => {
                match &item.inner {
                    ItemEnum::AssocType { .. } | ItemEnum::AssocConst { .. } => {
                        assert(is_assoc_type_or_const(krate, items@[j as int]));
                        return true;
                    },
                    _ => {},
                }
            },
            None => {},
        }
    }
    false
}

/// Whether an impl block defines an associated type or constant.
pub fn trait_impl_has_associated_items(imp: &Impl, krate: &Crate) -> (res: bool)
    ensures
        res == has_assoc_items(krate, imp.items@),
{
    any_assoc_items(&imp.items, krate)
}

/// The declaration line of an impl without its where clause: `unsafe`, `impl`, the
/// impl's generic parameters, the trait and `for`, and the type.
pub open spec fn impl_header_text(k: &Crate, imp: Impl) -> Seq<char> {
    (if imp.is_unsafe { "unsafe "@ } else { Seq::empty() }) + "impl"@ + params_only_text(k, imp.generics.params@)
        + match imp.trait_ {
            Some(tp) => " "@ + path_text(k, tp) + " for"@,
            None => Seq::empty(),
        } + " "@ + type_text(k, imp.for_)
}

/// The declaration line of an impl followed by its where clause, on a new indented
/// line when it spans several lines.
pub open spec fn impl_decl_text(k: &Crate, imp: Impl) -> Seq<char> {
    let wc = where_text(k, imp.generics.where_predicates@);
    impl_header_text(k, imp) + (if wc.len() == 0 {
        Seq::empty()
    } else if wc.contains('\n') {
        "\n  "@ + wc
    } else {
        " "@ + wc
    })
}

/// The declaration line of an impl: see `impl_header_text`.
pub fn format_impl_decl_header_only(imp: &Impl, krate: &Crate) -> (res: String)
    ensures
        res@ == impl_header_text(krate, *imp),
{
    let mut decl = String::new();
    if imp.is_unsafe {
        decl.append("unsafe ");
    }
    decl.append("impl");
    let generics_params = format_generics_params_only(imp.generics.params.as_slice(), krate);
    if !generics_params.as_str().is_empty() {
        decl.append(generics_params.as_str());
    }
    let ghost d1 = decl@;
    if let Some(trait_path) = &imp.trait_ {
        decl.append(" ");
        let p = format_path(trait_path, krate);
        decl.append(p.as_str());
        decl.append(" for");
    }
    decl.append(" ");
    let t = format_type(&imp.for_, krate);
    decl.append(t.as_str());
    decl
}

/// The declaration line of an impl with its where clause: see `impl_decl_text`.
pub fn format_impl_decl(imp: &Impl, krate: &Crate) -> (res: String)
    ensures
        res@ == impl_decl_text(krate, *imp),
{
    let mut decl = format_impl_decl_header_only(imp, krate);
    let where_clause = format_generics_where_only(imp.generics.where_predicates.as_slice(), krate);
    if !where_clause.as_str().is_empty() {
        if contains_char(where_clause.as_str(), '\n') {
            decl.append("\n  ");
            decl.append(where_clause.as_str());
        } else {
            decl.append(" ");
            decl.append(where_clause.as_str());
        }
    }
    decl
}

} // verus!
