//! Rust source text for types, paths, bounds and generics, as declarations
//! show them. Each formatter's result is given by a spec function that spells
//! out the text it produces.

use vstd::prelude::*;
use crate::model::{
    Abi, AssocItemConstraint, AssocItemConstraintKind, Constant, Crate, Discriminant, GenericArg, GenericArgs,
    GenericBound, GenericParamDef, GenericParamDefKind, Generics, Id, Path, PolyTrait,
    PreciseCapturingArg, Term, TraitBoundModifier, Type, WherePredicate,
};
use crate::text::{
    chars_of, decimal, decimal_string, join, join_strings, lines, lines_of, repeat_char, repeated, lemma_lines_of_join, lemma_lines_of_no_newline, separate_lines, strip_cr, replace_all, remove_segment_prefix, remove_segment_prefix_str,
    replace_str, starts_with, views,
};

verus! {

/// A path with common standard-library prefixes (`core::marker::`, `alloc::`, `std::`
/// and the like) taken out wherever they start a path segment, each prefix in turn,
/// in this order: `core::marker::PhantomData<alloc::string::String>` becomes
/// `PhantomData<String>`, while a segment that only ends in `std` is kept.
pub open spec fn clean_path(s: Seq<char>) -> Seq<char> {
    let s = remove_segment_prefix(s, "core::marker::"@, false);
    let s = remove_segment_prefix(s, "core::ops::"@, false);
    let s = remove_segment_prefix(s, "core::fmt::"@, false);
    let s = remove_segment_prefix(s, "core::cmp::"@, false);
    let s = remove_segment_prefix(s, "core::clone::"@, false);
    let s = remove_segment_prefix(s, "core::hash::"@, false);
    let s = remove_segment_prefix(s, "core::panic::unwind_safe::"@, false);
    let s = remove_segment_prefix(s, "core::"@, false);
    let s = remove_segment_prefix(s, "alloc::string::"@, false);
    let s = remove_segment_prefix(s, "alloc::vec::"@, false);
    let s = remove_segment_prefix(s, "alloc::boxed::"@, false);
    let s = remove_segment_prefix(s, "alloc::borrow::"@, false);
    let s = remove_segment_prefix(s, "alloc::"@, false);
    remove_segment_prefix(s, "std::"@, false)
}

/// The name an id is shown by: its canonical path, else its item's name, else
/// `{id:N}`.
pub open spec fn id_path_text(k: &Crate, id: Id) -> Seq<char> {
    if k.paths_map().contains_key(id) {
        join(views(k.paths_map()[id].path@), "::"@)
    } else if k.index_map().contains_key(id) && k.index_map()[id].name is Some {
        k.index_map()[id].name->Some_0@
    } else {
        "{id:"@ + decimal(id as nat) + "}"@
    }
}

/// `Some(s)` shown as `before + s + after`, `None` as nothing.
pub open spec fn opt_text(o: Option<String>, before: Seq<char>, after: Seq<char>) -> Seq<char> {
    match o {
        Some(s) => before + s@ + after,
        None => Seq::empty(),
    }
}

/// The text of each type.
pub open spec fn type_texts(k: &Crate, ts: Seq<Type>) -> Seq<Seq<char>>
    decreases ts, 0int,
{
    Seq::new(ts.len(), |j: int| if 0 <= j < ts.len() { type_text(k, ts[j]) } else { Seq::empty() })
}

/// The text of the type of each named input.
pub open spec fn input_texts(k: &Crate, ins: Seq<(String, Type)>) -> Seq<Seq<char>>
    decreases ins, 0int,
{
    Seq::new(ins.len(), |j: int| if 0 <= j < ins.len() { type_text(k, ins[j].1) } else { Seq::empty() })
}

/// The text of each generic argument.
pub open spec fn arg_texts(k: &Crate, args: Seq<GenericArg>) -> Seq<Seq<char>>
    decreases args, 0int,
{
    Seq::new(args.len(), |j: int| if 0 <= j < args.len() { arg_text(k, args[j]) } else { Seq::empty() })
}

/// The text of each associated item constraint.
pub open spec fn constraint_texts(k: &Crate, cs: Seq<AssocItemConstraint>) -> Seq<Seq<char>>
    decreases cs, 0int,
{
    Seq::new(cs.len(), |j: int| if 0 <= j < cs.len() { constraint_text(k, cs[j]) } else { Seq::empty() })
}

/// The text of each bound.
pub open spec fn bound_texts(k: &Crate, bs: Seq<GenericBound>) -> Seq<Seq<char>>
    decreases bs, 0int,
{
    Seq::new(bs.len(), |j: int| if 0 <= j < bs.len() { bound_text(k, bs[j]) } else { Seq::empty() })
}

/// The text of each generic parameter.
pub open spec fn param_texts(k: &Crate, ps: Seq<GenericParamDef>) -> Seq<Seq<char>>
    decreases ps, 0int,
{
    Seq::new(ps.len(), |j: int| if 0 <= j < ps.len() { param_text(k, ps[j]) } else { Seq::empty() })
}

/// The text of each trait of a trait object.
pub open spec fn poly_texts(k: &Crate, pts: Seq<PolyTrait>) -> Seq<Seq<char>>
    decreases pts, 0int,
{
    Seq::new(pts.len(), |j: int| if 0 <= j < pts.len() { poly_text(k, pts[j]) } else { Seq::empty() })
}

/// The text of each precise-capturing argument.
pub open spec fn capture_texts(args: Seq<PreciseCapturingArg>) -> Seq<Seq<char>> {
    Seq::new(args.len(), |j: int| capture_text(args[j]))
}

/// The text of a path: its cleaned canonical name, with its generic arguments in
/// angle brackets when there are any to show.
pub open spec fn path_text(k: &Crate, p: Path) -> Seq<char>
    decreases p, 0int,
{
    let base = clean_path(id_path_text(k, p.id));
    match p.args {
        Some(a) => {
            let s = args_text(k, *a);
            if s.len() > 0 {
                base + "<"@ + s + ">"@
            } else {
                base
            }
        },
        None => base,
    }
}

/// The text of generic arguments, without the brackets.
pub open spec fn args_text(k: &Crate, a: GenericArgs) -> Seq<char>
    decreases a, 0int,
{
    match a {
        GenericArgs::AngleBracketed { args, constraints } => join(
            arg_texts(k, args@) + constraint_texts(k, constraints@),
            ", "@,
        ),
        GenericArgs::Parenthesized { inputs, output } => "("@ + join(type_texts(k, inputs@), ", "@) + ") -> "@ + match output {
            Some(t) => type_text(k, t),
            None => "()"@,
        },
        GenericArgs::ReturnTypeNotation => Seq::empty(),
    }
}

/// The text of a constant: its expression, with its value in a comment when the two differ.
pub open spec fn const_text(c: Constant) -> Seq<char> {
    match c.value {
        Some(v) => if v@ != c.expr@ {
            c.expr@ + " /* = "@ + v@ + " */"@
        } else {
            c.expr@
        },
        None => c.expr@,
    }
}

/// The text of a discriminant: its expression, with its value in a comment when the two differ.
pub open spec fn discriminant_text(d: Discriminant) -> Seq<char> {
    if d.value@ != d.expr@ {
        d.expr@ + " /* = "@ + d.value@ + " */"@
    } else {
        d.expr@
    }
}

pub open spec fn arg_text(k: &Crate, a: GenericArg) -> Seq<char>
    decreases a, 0int,
{
    match a {
        GenericArg::Lifetime(lt) => lt@,
        GenericArg::Type(t) => type_text(k, t),
        GenericArg::Const(c) => const_text(c),
        GenericArg::Infer => "_"@,
    }
}

/// `s` in angle brackets, or nothing when `s` is empty.
pub open spec fn angled_if_any(s: Seq<char>) -> Seq<char> {
    if s.len() == 0 {
        Seq::empty()
    } else {
        "<"@ + s + ">"@
    }
}

pub open spec fn constraint_text(k: &Crate, c: AssocItemConstraint) -> Seq<char>
    decreases c, 0int,
{
    let a = args_text(k, c.args);
    match c.binding {
        AssocItemConstraintKind::Equality(t) => c.name@ + angled_if_any(a) + " = "@ + term_text(k, t),
        AssocItemConstraintKind::Constraint(bounds) => c.name@ + angled_if_any(a) + ": "@ + bounds_text(k, bounds@),
    }
}

pub open spec fn term_text(k: &Crate, t: Term) -> Seq<char>
    decreases t, 0int,
{
    match t {
        Term::Type(ty) => type_text(k, ty),
        Term::Constant(c) => const_text(c),
    }
}

/// Higher-ranked binder for the given parameters, `for<..> `, or nothing.
pub open spec fn hrtb_text(k: &Crate, params: Seq<GenericParamDef>) -> Seq<char>
    decreases params, 1int,
{
    if params.len() == 0 {
        Seq::empty()
    } else {
        "for<"@ + join(param_texts(k, params), ", "@) + "> "@
    }
}

pub open spec fn modifier_text(m: TraitBoundModifier) -> Seq<char> {
    match m {
        TraitBoundModifier::Unmodified => ""@,
        TraitBoundModifier::Maybe => "?"@,
        TraitBoundModifier::MaybeConst => "?const "@,
    }
}

pub open spec fn capture_text(a: PreciseCapturingArg) -> Seq<char> {
    match a {
        PreciseCapturingArg::Lifetime(lt) => "'"@ + lt@,
        PreciseCapturingArg::Param(p) => p@,
    }
}

pub open spec fn bound_text(k: &Crate, b: GenericBound) -> Seq<char>
    decreases b, 0int,
{
    match b {
        GenericBound::TraitBound { trait_, generic_params, modifier } => hrtb_text(k, generic_params@)
            + modifier_text(modifier) + path_text(k, trait_),
        GenericBound::Outlives(lt) => lt@,
        GenericBound::Use(args) => "use<"@ + join(capture_texts(args@), ", "@) + ">"@,
    }
}

/// A list of bounds joined by ` + `.
pub open spec fn bounds_text(k: &Crate, bounds: Seq<GenericBound>) -> Seq<char>
    decreases bounds, 1int,
{
    join(bound_texts(k, bounds), " + "@)
}

pub open spec fn param_text(k: &Crate, p: GenericParamDef) -> Seq<char>
    decreases p, 0int,
{
    match p.kind {
        GenericParamDefKind::Lifetime { .. } => p.name@,
        GenericParamDefKind::Type { bounds, default, is_synthetic } => (if is_synthetic {
            "impl "@
        } else {
            ""@
        }) + p.name@ + (if bounds@.len() == 0 {
            Seq::empty()
        } else {
            ": "@ + bounds_text(k, bounds@)
        }) + match default {
            Some(t) => " = "@ + type_text(k, t),
            None => Seq::empty(),
        },
        GenericParamDefKind::Const { type_, default } => "const "@ + p.name@ + ": "@ + type_text(k, type_)
            + opt_text(default, " = "@, ""@),
    }
}

/// The Debug text of a bool.
pub open spec fn bool_text(b: bool) -> Seq<char> {
    if b {
        "true"@
    } else {
        "false"@
    }
}

/// What `{:?}` writes for a string: the string in double quotes, escaped.
pub uninterp spec fn debug_string(s: Seq<char>) -> Seq<char>;

/// The Debug text of a string, from std's `Debug` for `str` (quoted, with escapes);
/// its result is named by `debug_string`.
#[verifier::external_body]
fn debug_str(s: &str) -> (res: String)
    ensures
        res@ == debug_string(s@),
{
    format!("{:?}", s)
}

/// The Debug text of an ABI.
pub open spec fn abi_text(abi: Abi) -> Seq<char> {
    match abi {
        Abi::Rust => "Rust"@,
        Abi::C { unwind } => "C { unwind: "@ + bool_text(unwind) + " }"@,
        Abi::Cdecl { unwind } => "Cdecl { unwind: "@ + bool_text(unwind) + " }"@,
        Abi::Stdcall { unwind } => "Stdcall { unwind: "@ + bool_text(unwind) + " }"@,
        Abi::Fastcall { unwind } => "Fastcall { unwind: "@ + bool_text(unwind) + " }"@,
        Abi::Aapcs { unwind } => "Aapcs { unwind: "@ + bool_text(unwind) + " }"@,
        Abi::Win64 { unwind } => "Win64 { unwind: "@ + bool_text(unwind) + " }"@,
        Abi::SysV64 { unwind } => "SysV64 { unwind: "@ + bool_text(unwind) + " }"@,
        Abi::System { unwind } => "System { unwind: "@ + bool_text(unwind) + " }"@,
        Abi::Other(s) => "Other("@ + debug_string(s@) + ")"@,
    }
}

/// The types of a list, shown and joined by `, `.
pub open spec fn types_text(k: &Crate, ts: Seq<Type>) -> Seq<char>
    decreases ts, 1int,
{
    join(type_texts(k, ts), ", "@)
}

pub open spec fn poly_text(k: &Crate, pt: PolyTrait) -> Seq<char>
    decreases pt, 0int,
{
    hrtb_text(k, pt.generic_params@) + path_text(k, pt.trait_)
}

/// The text of a type, as it is written in Rust source.
pub open spec fn type_text(k: &Crate, ty: Type) -> Seq<char>
    decreases ty, 0int,
{
    match ty {
        Type::ResolvedPath(p) => path_text(k, p),
        Type::DynTrait(dt) => "dyn "@ + join(poly_texts(k, dt.traits@), " + "@) + opt_text(dt.lifetime, " + "@, ""@),
        Type::Generic(name) => name@,
        Type::Primitive(name) => name@,
        Type::FunctionPointer(fp) => hrtb_text(k, fp.generic_params@) + (if fp.header.is_unsafe {
            "unsafe "@
        } else {
            ""@
        }) + (if fp.header.abi is Rust {
            ""@
        } else {
            "extern \""@ + abi_text(fp.header.abi) + "\" "@
        }) + "fn("@ + join(input_texts(k, fp.sig.inputs@), ", "@) + ")"@ + match fp.sig.output {
            Some(t) => " -> "@ + type_text(k, t),
            None => Seq::empty(),
        },
        Type::Tuple(ts) => if ts@.len() == 0 {
            "()"@
        } else {
            "("@ + types_text(k, ts@) + ")"@
        },
        Type::Slice(inner) => "["@ + type_text(k, *inner) + "]"@,
        Type::Array { type_, len } => "["@ + type_text(k, *type_) + "; "@ + len@ + "]"@,
        Type::Pat { type_, .. } => "pat "@ + type_text(k, *type_),
        Type::ImplTrait(bounds) => "impl "@ + bounds_text(k, bounds@),
        Type::Infer => "_"@,
        Type::RawPointer { is_mutable, type_ } => "*"@ + (if is_mutable {
            "mut "@
        } else {
            "const "@
        }) + type_text(k, *type_),
        Type::BorrowedRef { lifetime, is_mutable, type_ } => "&"@ + opt_text(lifetime, ""@, " "@) + (if is_mutable {
            "mut "@
        } else {
            ""@
        }) + type_text(k, *type_),
        Type::QualifiedPath { name, args, self_type, trait_ } => "<"@ + type_text(k, *self_type) + " as "@
            + match trait_ {
                Some(t) => path_text(k, t),
                None => "_"@,
            } + ">::"@ + name@ + angled_if_any(args_text(k, *args)),
    }
}

/// Takes common standard-library prefixes out of a path: see `clean_path`.
pub fn clean_trait_path(path_str: &str) -> (res: String)
    ensures
        res@ == clean_path(path_str@),
{
    proof {
        reveal_strlit("core::marker::");
    }
    let s = remove_segment_prefix_str(path_str, "core::marker::");
    proof {
        reveal_strlit("core::ops::");
    }
    let s = remove_segment_prefix_str(s.as_str(), "core::ops::");
    proof {
        reveal_strlit("core::fmt::");
    }
    let s = remove_segment_prefix_str(s.as_str(), "core::fmt::");
    proof {
        reveal_strlit("core::cmp::");
    }
    let s = remove_segment_prefix_str(s.as_str(), "core::cmp::");
    proof {
        reveal_strlit("core::clone::");
    }
    let s = remove_segment_prefix_str(s.as_str(), "core::clone::");
    proof {
        reveal_strlit("core::hash::");
    }
    let s = remove_segment_prefix_str(s.as_str(), "core::hash::");
    proof {
        reveal_strlit("core::panic::unwind_safe::");
    }
    let s = remove_segment_prefix_str(s.as_str(), "core::panic::unwind_safe::");
    proof {
        reveal_strlit("core::");
    }
    let s = remove_segment_prefix_str(s.as_str(), "core::");
    proof {
        reveal_strlit("alloc::string::");
    }
    let s = remove_segment_prefix_str(s.as_str(), "alloc::string::");
    proof {
        reveal_strlit("alloc::vec::");
    }
    let s = remove_segment_prefix_str(s.as_str(), "alloc::vec::");
    proof {
        reveal_strlit("alloc::boxed::");
    }
    let s = remove_segment_prefix_str(s.as_str(), "alloc::boxed::");
    proof {
        reveal_strlit("alloc::borrow::");
    }
    let s = remove_segment_prefix_str(s.as_str(), "alloc::borrow::");
    proof {
        reveal_strlit("alloc::");
    }
    let s = remove_segment_prefix_str(s.as_str(), "alloc::");
    proof {
        reveal_strlit("std::");
    }
    let s = remove_segment_prefix_str(s.as_str(), "std::");
    s
}

/// The name an id is shown by: see `id_path_text`.
pub fn format_id_path_canonical(id: Id, krate: &Crate) -> (res: String)
    ensures
        res@ == id_path_text(krate, id),
{
    match krate.get_path(id) {
        Some(summary) => join_strings(&summary.path, "::"),
        None => {
            match krate.get(id) {
                Some(item) => {
                    match &item.name {
                        Some(name) => {
                            return name.clone();
                        },
                        None => {},
                    }
                },
                None => {},
            }
            let mut s = String::from_str("{id:");
            let digits = decimal_string(id as usize);
            s.append(digits.as_str());
            s.append("}");
            s
        },
    }
}

/// The text of a path: see `path_text`.
pub fn format_path(path: &Path, krate: &Crate) -> (res: String)
    ensures
        res@ == path_text(krate, *path),
    decreases path, 0int,
{
    let base_path = format_id_path_canonical(path.id, krate);
    let cleaned_base_path = clean_trait_path(base_path.as_str());
    match &path.args {
        Some(args) => {
            let args_str = format_generic_args(args, krate);
            if !args_str.as_str().is_empty() {
                let mut s = cleaned_base_path;
                s.append("<");
                s.append(args_str.as_str());
                s.append(">");
                s
            } else {
                cleaned_base_path
            }
        },
        None => cleaned_base_path,
    }
}

/// The text of each type of a list.
fn format_types(ts: &Vec<Type>, krate: &Crate) -> (res: Vec<String>)
    ensures
        views(res@) == type_texts(krate, ts@),
    decreases ts, 0int,
{
    let mut out: Vec<String> = Vec::new();
    let n = ts.len();
    for j in 0..n
        invariant
            n == ts@.len(),
            out@.len() == j,
            forall|q: int| 0 <= q < j ==> (#[trigger] out@[q])@ == type_text(krate, ts@[q]),
    {
        out.push(format_type(&ts[j], krate));
    }
    assert(views(out@) =~= type_texts(krate, ts@));
    out
}

/// The text of the type of each named input.
fn format_inputs(ins: &Vec<(String, Type)>, krate: &Crate) -> (res: Vec<String>)
    ensures
        views(res@) == input_texts(krate, ins@),
    decreases ins, 0int,
{
    let mut out: Vec<String> = Vec::new();
    let n = ins.len();
    for j in 0..n
        invariant
            n == ins@.len(),
            out@.len() == j,
            forall|q: int| 0 <= q < j ==> (#[trigger] out@[q])@ == type_text(krate, ins@[q].1),
    {
        out.push(format_type(&ins[j].1, krate));
    }
    assert(views(out@) =~= input_texts(krate, ins@));
    out
}

/// The text of each generic argument.
fn format_arg_list(args: &Vec<GenericArg>, krate: &Crate) -> (res: Vec<String>)
    ensures
        views(res@) == arg_texts(krate, args@),
    decreases args, 0int,
{
    let mut out: Vec<String> = Vec::new();
    let n = args.len();
    for j in 0..n
        invariant
            n == args@.len(),
            out@.len() == j,
            forall|q: int| 0 <= q < j ==> (#[trigger] out@[q])@ == arg_text(krate, args@[q]),
    {
        out.push(format_generic_arg(&args[j], krate));
    }
    assert(views(out@) =~= arg_texts(krate, args@));
    out
}

/// The text of each associated item constraint.
fn format_constraint_list(cs: &Vec<AssocItemConstraint>, krate: &Crate) -> (res: Vec<String>)
    ensures
        views(res@) == constraint_texts(krate, cs@),
    decreases cs, 0int,
{
    let mut out: Vec<String> = Vec::new();
    let n = cs.len();
    for j in 0..n
        invariant
            n == cs@.len(),
            out@.len() == j,
            forall|q: int| 0 <= q < j ==> (#[trigger] out@[q])@ == constraint_text(krate, cs@[q]),
    {
        out.push(format_constraint(&cs[j], krate));
    }
    assert(views(out@) =~= constraint_texts(krate, cs@));
    out
}

/// The text of each bound.
fn format_bound_list(bs: &Vec<GenericBound>, krate: &Crate) -> (res: Vec<String>)
    ensures
        views(res@) == bound_texts(krate, bs@),
    decreases bs, 0int,
{
    let mut out: Vec<String> = Vec::new();
    let n = bs.len();
    for j in 0..n
        invariant
            n == bs@.len(),
            out@.len() == j,
            forall|q: int| 0 <= q < j ==> (#[trigger] out@[q])@ == bound_text(krate, bs@[q]),
    {
        out.push(format_generic_bound(&bs[j], krate));
    }
    assert(views(out@) =~= bound_texts(krate, bs@));
    out
}

/// The text of each generic parameter.
fn format_param_list(ps: &Vec<GenericParamDef>, krate: &Crate) -> (res: Vec<String>)
    ensures
        views(res@) == param_texts(krate, ps@),
    decreases ps, 0int,
{
    let mut out: Vec<String> = Vec::new();
    let n = ps.len();
    for j in 0..n
        invariant
            n == ps@.len(),
            out@.len() == j,
            forall|q: int| 0 <= q < j ==> (#[trigger] out@[q])@ == param_text(krate, ps@[q]),
    {
        out.push(format_generic_param_def(&ps[j], krate));
    }
    assert(views(out@) =~= param_texts(krate, ps@));
    out
}

/// The text of each trait of a trait object.
fn format_poly_list(pts: &Vec<PolyTrait>, krate: &Crate) -> (res: Vec<String>)
    ensures
        views(res@) == poly_texts(krate, pts@),
    decreases pts, 0int,
{
    let mut out: Vec<String> = Vec::new();
    let n = pts.len();
    for j in 0..n
        invariant
            n == pts@.len(),
            out@.len() == j,
            forall|q: int| 0 <= q < j ==> (#[trigger] out@[q])@ == poly_text(krate, pts@[q]),
    {
        out.push(format_poly_trait(&pts[j], krate));
    }
    assert(views(out@) =~= poly_texts(krate, pts@));
    out
}

/// The text of generic arguments: see `args_text`.
pub fn format_generic_args(args: &GenericArgs, krate: &Crate) -> (res: String)
    ensures
        res@ == args_text(krate, *args),
    decreases args, 0int,
{
    match args {
        GenericArgs::AngleBracketed { args, constraints } => {
            let mut all_strs = format_arg_list(args, krate);
            let mut constraint_strs = format_constraint_list(constraints, krate);
            let ghost a0 = all_strs@;
            all_strs.append(&mut constraint_strs);
            assert(views(all_strs@) =~= arg_texts(krate, args@) + constraint_texts(krate, constraints@));
            join_strings(&all_strs, ", ")
        },
        GenericArgs::Parenthesized { inputs, output } => {
            let mut s = String::from_str("(");
            let ins = format_types(inputs, krate);
            let joined = join_strings(&ins, ", ");
            s.append(joined.as_str());
            s.append(") -> ");
            match output {
                Some(t) => {
                    let ts = format_type(t, krate);
                    s.append(ts.as_str());
                },
                None => {
                    s.append("()");
                },
            }
            s
        },
        GenericArgs::ReturnTypeNotation => String::new(),
    }
}

/// The text of a constant: see `const_text`.
pub fn format_const_expr(constant: &Constant) -> (res: String)
    ensures
        res@ == const_text(*constant),
{
    if let Some(v) = &constant.value {
        if *v != constant.expr {
            let mut s = constant.expr.clone();
            s.append(" /* = ");
            s.append(v.as_str());
            s.append(" */");
            return s;
        }
    }
    constant.expr.clone()
}

/// The text of a discriminant: see `discriminant_text`.
pub fn format_discriminant_expr(discr: &Discriminant) -> (res: String)
    ensures
        res@ == discriminant_text(*discr),
{
    if discr.value != discr.expr {
        let mut s = discr.expr.clone();
        s.append(" /* = ");
        s.append(discr.value.as_str());
        s.append(" */");
        s
    } else {
        discr.expr.clone()
    }
}

/// The text of a generic argument: see `arg_text`.
pub fn format_generic_arg(arg: &GenericArg, krate: &Crate) -> (res: String)
    ensures
        res@ == arg_text(krate, *arg),
    decreases arg, 0int,
{
    match arg {
        GenericArg::Lifetime(lt) => lt.clone(),
        GenericArg::Type(ty) => format_type(ty, krate),
        GenericArg::Const(c) => format_const_expr(c),
        GenericArg::Infer => String::from_str("_"),
    }
}

/// The text of an associated item constraint: see `constraint_text`.
fn format_constraint(c: &AssocItemConstraint, krate: &Crate) -> (res: String)
    ensures
        res@ == constraint_text(krate, *c),
    decreases c, 0int,
{
    let assoc_args_str = format_generic_args(&c.args, krate);
    let mut s = c.name.clone();
    if !assoc_args_str.as_str().is_empty() {
        s.append("<");
        s.append(assoc_args_str.as_str());
        s.append(">");
    }
    match &c.binding {
        AssocItemConstraintKind::Equality(term) => {
            s.append(" = ");
            let t = format_term(term, krate);
            s.append(t.as_str());
        },
        AssocItemConstraintKind::Constraint(bounds) => {
            s.append(": ");
            let b = format_bounds(bounds, krate);
            s.append(b.as_str());
        },
    }
    s
}

/// The text of a term: see `term_text`.
pub fn format_term(term: &Term, krate: &Crate) -> (res: String)
    ensures
        res@ == term_text(krate, *term),
    decreases term, 0int,
{
    match term {
        Term::Type(t) => format_type(t, krate),
        Term::Constant(c) => format_const_expr(c),
    }
}

/// The higher-ranked binder for the given parameters: see `hrtb_text`.
fn format_hrtb(params: &Vec<GenericParamDef>, krate: &Crate) -> (res: String)
    ensures
        res@ == hrtb_text(krate, params@),
    decreases params, 1int,
{
    if params.len() == 0 {
        String::new()
    } else {
        let mut s = String::from_str("for<");
        let ps = format_param_list(params, krate);
        let joined = join_strings(&ps, ", ");
        s.append(joined.as_str());
        s.append("> ");
        s
    }
}

/// Bounds joined by ` + `: see `bounds_text`.
pub(crate) fn format_bounds(bounds: &Vec<GenericBound>, krate: &Crate) -> (res: String)
    ensures
        res@ == bounds_text(krate, bounds@),
    decreases bounds, 1int,
{
    let bs = format_bound_list(bounds, krate);
    join_strings(&bs, " + ")
}

/// The text of a bound: see `bound_text`.
pub fn format_generic_bound(bound: &GenericBound, krate: &Crate) -> (res: String)
    ensures
        res@ == bound_text(krate, *bound),
    decreases bound, 0int,
{
    match bound {
        GenericBound::TraitBound { trait_, generic_params, modifier } => {
            let mut s = format_hrtb(generic_params, krate);
            match modifier {
                TraitBoundModifier::Unmodified => {
                    s.append("");
                },
                TraitBoundModifier::Maybe => {
                    s.append("?");
                },
                TraitBoundModifier::MaybeConst => {
                    s.append("?const ");
                },
            }
            let p = format_path(trait_, krate);
            s.append(p.as_str());
            s
        },
        GenericBound::Outlives(lifetime) => lifetime.clone(),
        GenericBound::Use(args) => {
            let mut parts: Vec<String> = Vec::new();
            let n = args.len();
            for j in 0..n
                invariant
                    n == args@.len(),
                    parts@.len() == j,
                    forall|q: int| 0 <= q < j ==> (#[trigger] parts@[q])@ == capture_text(args@[q]),
            {
                match &args[j] {
                    PreciseCapturingArg::Lifetime(lt) => {
                        let mut t = String::from_str("'");
                        t.append(lt.as_str());
                        parts.push(t);
                    },
                    PreciseCapturingArg::Param(id_str) => {
                        parts.push(id_str.clone());
                    },
                }
            }
            assert(views(parts@) =~= capture_texts(args@));
            let mut s = String::from_str("use<");
            let joined = join_strings(&parts, ", ");
            s.append(joined.as_str());
            s.append(">");
            s
        },
    }
}

/// The text of a generic parameter: see `param_text`.
pub fn format_generic_param_def(p: &GenericParamDef, krate: &Crate) -> (res: String)
    ensures
        res@ == param_text(krate, *p),
    decreases p, 0int,
{
    match &p.kind {
        GenericParamDefKind::Lifetime { .. } => p.name.clone(),
        GenericParamDefKind::Type { bounds, default, is_synthetic } => {
            let mut s = if *is_synthetic {
                String::from_str("impl ")
            } else {
                String::from_str("")
            };
            s.append(p.name.as_str());
            if bounds.len() > 0 {
                s.append(": ");
                let b = format_bounds(bounds, krate);
                s.append(b.as_str());
            }
            match default {
                Some(t) => {
                    s.append(" = ");
                    let ts = format_type(t, krate);
                    s.append(ts.as_str());
                },
                None => {},
            }
            s
        },
        GenericParamDefKind::Const { type_, default } => {
            let mut s = String::from_str("const ");
            s.append(p.name.as_str());
            s.append(": ");
            let ts = format_type(type_, krate);
            s.append(ts.as_str());
            match default {
                Some(d) => {
                    s.append(" = ");
                    s.append(d.as_str());
                    s.append("");
                },
                None => {},
            }
            s
        },
    }
}

fn bool_string(b: bool) -> (res: &'static str)
    ensures
        res@ == bool_text(b),
{
    if b {
        "true"
    } else {
        "false"
    }
}

/// The Debug text of an ABI: see `abi_text`.
pub fn format_abi(abi: &Abi) -> (res: String)
    ensures
        res@ == abi_text(*abi),
{
    let (name, unwind) = match abi {
        Abi::Rust => {
            return String::from_str("Rust");
        },
        Abi::C { unwind } => ("C { unwind: ", *unwind),
        Abi::Cdecl { unwind } => ("Cdecl { unwind: ", *unwind),
        Abi::Stdcall { unwind } => ("Stdcall { unwind: ", *unwind),
        Abi::Fastcall { unwind } => ("Fastcall { unwind: ", *unwind),
        Abi::Aapcs { unwind } => ("Aapcs { unwind: ", *unwind),
        Abi::Win64 { unwind } => ("Win64 { unwind: ", *unwind),
        Abi::SysV64 { unwind } => ("SysV64 { unwind: ", *unwind),
        Abi::System { unwind } => ("System { unwind: ", *unwind),
        Abi::Other(s) => {
            let mut t = String::from_str("Other(");
            let d = debug_str(s.as_str());
            t.append(d.as_str());
            t.append(")");
            return t;
        },
    };
    let mut t = String::from_str(name);
    t.append(bool_string(unwind));
    t.append(" }");
    t
}

/// The text of a trait of a trait object: see `poly_text`.
pub fn format_poly_trait(poly_trait: &PolyTrait, krate: &Crate) -> (res: String)
    ensures
        res@ == poly_text(krate, *poly_trait),
    decreases poly_trait, 0int,
{
    let mut s = format_hrtb(&poly_trait.generic_params, krate);
    let p = format_path(&poly_trait.trait_, krate);
    s.append(p.as_str());
    s
}

/// The text of a type: see `type_text`.
pub fn format_type(ty: &Type, krate: &Crate) -> (res: String)
    ensures
        res@ == type_text(krate, *ty),
    decreases ty, 0int,
{
    match ty {
        Type::ResolvedPath(p) => {
            let r = format_path(p, krate);
            assert(r@ == type_text(krate, *ty));
            r
        },
        Type::DynTrait(dt) => {
            let mut s = String::from_str("dyn ");
            let ts = format_poly_list(&dt.traits, krate);
            let joined = join_strings(&ts, " + ");
            s.append(joined.as_str());
            match &dt.lifetime {
                Some(lt) => {
                    s.append(" + ");
                    s.append(lt.as_str());
                    s.append("");
                },
                None => {},
            }
            assert(s@ == type_text(krate, *ty));
            s
        },
        Type::Generic(name) => {
            let r = name.clone();
            assert(r@ == type_text(krate, *ty));
            r
        },
        Type::Primitive(name) => {
            let r = name.clone();
            assert(r@ == type_text(krate, *ty));
            r
        },
        Type::FunctionPointer(fp) => {
            let mut s = format_hrtb(&fp.generic_params, krate);
            if fp.header.is_unsafe {
                s.append("unsafe ");
            } else {
                s.append("");
            }
            if let Abi::Rust = fp.header.abi {
                s.append("");
            } else {
                s.append("extern \"");
                let a = format_abi(&fp.header.abi);
                s.append(a.as_str());
                s.append("\" ");
            }
            s.append("fn(");
            let ins = format_inputs(&fp.sig.inputs, krate);
            let joined = join_strings(&ins, ", ");
            s.append(joined.as_str());
            s.append(")");
            match &fp.sig.output {
                Some(t) => {
                    s.append(" -> ");
                    let o = format_type(t, krate);
                    s.append(o.as_str());
                },
                None => {},
            }
            assert(s@ == type_text(krate, *ty));
            s
        },
        Type::Tuple(types) => {
            if types.len() == 0 {
                let r = String::from_str("()");
                assert(r@ == type_text(krate, *ty));
                r
            } else {
                let mut s = String::from_str("(");
                let ts = format_types(types, krate);
                let joined = join_strings(&ts, ", ");
                assert(joined@ == types_text(krate, types@));
                s.append(joined.as_str());
                s.append(")");
                assert(s@ == type_text(krate, *ty));
                s
            }
        },
        Type::Slice(inner) => {
            let mut s = String::from_str("[");
            let t = format_type(inner, krate);
            s.append(t.as_str());
            s.append("]");
            assert(s@ == type_text(krate, *ty));
            s
        },
        Type::Array { type_, len } => {
            let mut s = String::from_str("[");
            let t = format_type(type_, krate);
            s.append(t.as_str());
            s.append("; ");
            s.append(len.as_str());
            s.append("]");
            assert(s@ == type_text(krate, *ty));
            s
        },
        Type::Pat { type_, .. } => {
            let mut s = String::from_str("pat ");
            let t = format_type(type_, krate);
            s.append(t.as_str());
            assert(s@ == type_text(krate, *ty));
            s
        },
        Type::ImplTrait(bounds) => {
            let mut s = String::from_str("impl ");
            let b = format_bounds(bounds, krate);
            s.append(b.as_str());
            assert(s@ == type_text(krate, *ty));
            s
        },
        Type::Infer => {
            let r = String::from_str("_");
            assert(r@ == type_text(krate, *ty));
            r
        },
        Type::RawPointer { is_mutable, type_ } => {
            let mut s = String::from_str("*");
            if *is_mutable {
                s.append("mut ");
            } else {
                s.append("const ");
            }
            let t = format_type(type_, krate);
            s.append(t.as_str());
            assert(s@ == type_text(krate, *ty));
            s
        },
        Type::BorrowedRef { lifetime, is_mutable, type_ } => {
            let mut s = String::from_str("&");
            match lifetime {
                Some(lt) => {
                    s.append("");
                    s.append(lt.as_str());
                    s.append(" ");
                },
                None => {},
            }
            if *is_mutable {
                s.append("mut ");
            } else {
                s.append("");
            }
            let t = format_type(type_, krate);
            s.append(t.as_str());
            assert(s@ == type_text(krate, *ty));
            s
        },
        Type::QualifiedPath { name, args, self_type, trait_ } => {
            let mut s = String::from_str("<");
            let self_type_str = format_type(self_type, krate);
            s.append(self_type_str.as_str());
            s.append(" as ");
            match trait_ {
                Some(t) => {
                    let tp = format_path(t, krate);
                    s.append(tp.as_str());
                },
                None => {
                    s.append("_");
                },
            }
            s.append(">::");
            s.append(name.as_str());
            let args_str = format_generic_args(args, krate);
            if !args_str.as_str().is_empty() {
                s.append("<");
                s.append(args_str.as_str());
                s.append(">");
            }
            assert(s@ == type_text(krate, *ty));
            s
        },
    }
}

/// The text of a where-clause predicate.
pub open spec fn pred_text(k: &Crate, p: WherePredicate) -> Seq<char> {
    match p {
        WherePredicate::BoundPredicate { type_, bounds, generic_params } => hrtb_text(k, generic_params@)
            + type_text(k, type_) + ": "@ + bounds_text(k, bounds@),
        WherePredicate::LifetimePredicate { lifetime, outlives } => lifetime@ + ": "@ + join(views(outlives@), " + "@),
        WherePredicate::EqPredicate { lhs, rhs } => type_text(k, lhs) + " == "@ + term_text(k, rhs),
    }
}

/// The text of each predicate.
pub open spec fn pred_texts(k: &Crate, ps: Seq<WherePredicate>) -> Seq<Seq<char>> {
    Seq::new(ps.len(), |j: int| pred_text(k, ps[j]))
}

/// The number of bytes of `c` in UTF-8.
pub open spec fn char_width(c: char) -> int {
    let v = c as u32;
    if v < 0x80 {
        1
    } else if v < 0x800 {
        2
    } else if v < 0x10000 {
        3
    } else {
        4
    }
}

/// The length of a text in UTF-8 bytes.
pub open spec fn utf8_len(s: Seq<char>) -> int
    decreases s.len(),
{
    if s.len() == 0 {
        0
    } else {
        utf8_len(s.drop_last()) + char_width(s.last())
    }
}

/// The total length in UTF-8 bytes of the texts.
pub open spec fn byte_total(texts: Seq<Seq<char>>) -> int
    decreases texts.len(),
{
    if texts.len() == 0 {
        0
    } else {
        byte_total(texts.drop_last()) + utf8_len(texts.last())
    }
}

/// Whether the text takes more than `limit` bytes in UTF-8.
pub fn utf8_len_exceeds(s: &str, limit: usize) -> (res: bool)
    requires
        limit < usize::MAX,
    ensures
        res == (utf8_len(s@) > limit),
{
    let cs = chars_of(s);
    let n = cs.len();
    let mut total: usize = 0;
    assert(cs@.take(0) =~= Seq::<char>::empty());
    for k in 0..n
        invariant
            n == cs@.len(),
            cs@ == s@,
            limit < usize::MAX,
            total <= limit + 1,
            total == (if utf8_len(cs@.take(k as int)) > limit + 1 { (limit + 1) as int } else { utf8_len(cs@.take(k as int)) }),
            utf8_len(cs@.take(k as int)) >= 0,
    {
        proof {
            assert(cs@.take(k + 1).drop_last() =~= cs@.take(k as int));
            assert(cs@.take(k + 1).last() == cs@[k as int]);
        }
        let v = cs[k] as u32;
        let w: usize = if v < 0x80 {
            1
        } else if v < 0x800 {
            2
        } else if v < 0x10000 {
            3
        } else {
            4
        };
        if w > limit + 1 - total {
            total = limit + 1;
        } else {
            total = total + w;
        }
    }
    assert(cs@.take(n as int) =~= s@);
    total > limit
}

/// A where clause: on one line, or one predicate per indented line when there is
/// more than one predicate or they take more than sixty bytes; nothing when there
/// are no predicates.
pub open spec fn where_text(k: &Crate, ps: Seq<WherePredicate>) -> Seq<char> {
    let cl = pred_texts(k, ps);
    if ps.len() == 0 {
        Seq::empty()
    } else if cl.len() > 1 || byte_total(cl) > 60 {
        "where\n    "@ + join(cl, ",\n    "@)
    } else {
        "where "@ + join(cl, ", "@)
    }
}

/// The generic parameters in angle brackets; nothing when there are none.
pub open spec fn params_only_text(k: &Crate, ps: Seq<GenericParamDef>) -> Seq<char> {
    if ps.len() == 0 {
        Seq::empty()
    } else {
        "<"@ + join(param_texts(k, ps), ", "@) + ">"@
    }
}

/// The generic parameters followed by the where clause, which goes on its own
/// line, indented, when both are present and it spans several lines.
pub open spec fn generics_full_text(k: &Crate, g: Generics) -> Seq<char> {
    let ps = params_only_text(k, g.params@);
    let wc = where_text(k, g.where_predicates@);
    if g.params@.len() == 0 && g.where_predicates@.len() == 0 {
        Seq::empty()
    } else if wc.len() == 0 {
        ps
    } else if ps.len() > 0 && wc.contains('\n') {
        ps + "\n  "@ + wc
    } else {
        ps + " "@ + wc
    }
}

/// Whether `c` occurs in the string.
pub fn contains_char(s: &str, c: char) -> (res: bool)
    ensures
        res == s@.contains(c),
{
    let cs = chars_of(s);
    let n = cs.len();
    for k in 0..n
        invariant
            n == cs@.len(),
            cs@ == s@,
            forall|j: int| 0 <= j < k ==> cs@[j] != c,
    {
        if cs[k] == c {
            assert(s@[k as int] == c);
            return true;
        }
    }
    false
}

/// The where clause for the predicates: see `where_text`.
pub fn format_generics_where_only(predicates: &[WherePredicate], krate: &Crate) -> (res: String)
    ensures
        res@ == where_text(krate, predicates@),
{
    if predicates.len() == 0 {
        return String::new();
    }
    let mut clauses: Vec<String> = Vec::new();
    let n = predicates.len();
    for j in 0..n
        invariant
            n == predicates@.len(),
            clauses@.len() == j,
            forall|q: int| 0 <= q < j ==> (#[trigger] clauses@[q])@ == pred_text(krate, predicates@[q]),
    {
        let text = match &predicates[j] {
            WherePredicate::BoundPredicate { type_, bounds, generic_params } => {
                let mut t = format_hrtb(generic_params, krate);
                let ty = format_type(type_, krate);
                t.append(ty.as_str());
                t.append(": ");
                let b = format_bounds(bounds, krate);
                t.append(b.as_str());
                t
            },
            WherePredicate::LifetimePredicate { lifetime, outlives } => {
                let mut t = lifetime.clone();
                t.append(": ");
                let o = join_strings(outlives, " + ");
                t.append(o.as_str());
                t
            },
            WherePredicate::EqPredicate { lhs, rhs } => {
                let mut t = format_type(lhs, krate);
                t.append(" == ");
                let r = format_term(rhs, krate);
                t.append(r.as_str());
                t
            },
        };
        clauses.push(text);
    }
    let ghost cl = pred_texts(krate, predicates@);
    assert(views(clauses@) =~= cl);
    let is_multiline = if clauses.len() > 1 {
        true
    } else {
        proof {
            assert(cl.drop_last() =~= Seq::<Seq<char>>::empty());
            assert(byte_total(cl.drop_last()) == 0);
            assert(cl.last() == cl[0]);
            assert(byte_total(cl) == utf8_len(cl[0]));
        }
        utf8_len_exceeds(clauses[0].as_str(), 60)
    };
    if is_multiline {
        let mut s = String::from_str("where\n    ");
        let joined = join_strings(&clauses, ",\n    ");
        s.append(joined.as_str());
        s
    } else {
        let mut s = String::from_str("where ");
        let joined = join_strings(&clauses, ", ");
        s.append(joined.as_str());
        s
    }
}

/// The generic parameters in angle brackets: see `params_only_text`.
pub fn format_generics_params_only(params: &[GenericParamDef], krate: &Crate) -> (res: String)
    ensures
        res@ == params_only_text(krate, params@),
{
    if params.len() == 0 {
        return String::new();
    }
    let mut out: Vec<String> = Vec::new();
    let n = params.len();
    for j in 0..n
        invariant
            n == params@.len(),
            out@.len() == j,
            forall|q: int| 0 <= q < j ==> (#[trigger] out@[q])@ == param_text(krate, params@[q]),
    {
        out.push(format_generic_param_def(&params[j], krate));
    }
    assert(views(out@) =~= param_texts(krate, params@));
    let mut s = String::from_str("<");
    let joined = join_strings(&out, ", ");
    s.append(joined.as_str());
    s.append(">");
    s
}

/// Generic parameters and where clause: see `generics_full_text`.
pub fn format_generics_full(generics: &Generics, krate: &Crate) -> (res: String)
    ensures
        res@ == generics_full_text(krate, *generics),
{
    if generics.params.len() == 0 && generics.where_predicates.len() == 0 {
        return String::new();
    }
    let params_str = format_generics_params_only(generics.params.as_slice(), krate);
    let where_clause = format_generics_where_only(generics.where_predicates.as_slice(), krate);
    let mut s = String::new();
    if !params_str.as_str().is_empty() {
        s.append(params_str.as_str());
    }
    if !where_clause.as_str().is_empty() {
        if !params_str.as_str().is_empty() && contains_char(where_clause.as_str(), '\n') {
            s.append("\n  ");
            s.append(where_clause.as_str());
        } else {
            s.append(" ");
            s.append(where_clause.as_str());
        }
    }
    s
}

/// The attributes that are not derives, in order.
pub open spec fn kept_attrs(a: Seq<Seq<char>>) -> Seq<Seq<char>>
    decreases a.len(),
{
    if a.len() == 0 {
        Seq::empty()
    } else {
        let p = kept_attrs(a.drop_last());
        if "#[derive("@.is_prefix_of(a.last()) {
            p
        } else {
            p.push(a.last())
        }
    }
}

/// The attributes that are not derives, each followed by a space.
pub open spec fn attrs_text(attrs: Seq<String>) -> Seq<char> {
    let kept = kept_attrs(views(attrs));
    if kept.len() == 0 {
        Seq::empty()
    } else {
        join(kept, " "@) + " "@
    }
}

/// The attributes of an item as written before it, derives left out: see `attrs_text`.
pub fn format_attributes(attrs: &[String]) -> (res: String)
    ensures
        res@ == attrs_text(attrs@),
{
    let mut kept: Vec<String> = Vec::new();
    let n = attrs.len();
    assert(views(attrs@).take(0) =~= Seq::<Seq<char>>::empty());
    for j in 0..n
        invariant
            n == attrs@.len(),
            views(kept@) == kept_attrs(views(attrs@).take(j as int)),
    {
        proof {
            assert(views(attrs@).take(j + 1).drop_last() =~= views(attrs@).take(j as int));
            assert(views(attrs@).take(j + 1).last() == attrs@[j as int]@);
        }
        let ghost before = kept@;
        if !starts_with(attrs[j].as_str(), "#[derive(") {
            kept.push(attrs[j].clone());
            assert(views(kept@) =~= views(before).push(attrs@[j as int]@));
        }
    }
    assert(views(attrs@).take(n as int) =~= views(attrs@));
    if kept.len() == 0 {
        String::new()
    } else {
        let mut s = join_strings(&kept, " ");
        s.append(" ");
        s
    }
}

/// Each line of `s` with `amount` spaces in front, the lines joined by newlines.
pub open spec fn indented(s: Seq<char>, amount: nat) -> Seq<char> {
    join(lines_of(s).map_values(|l: Seq<char>| repeated(' ', amount) + l), "\n"@)
}

/// Indenting twice is indenting once by the sum of the amounts, for a text whose
/// lines come back as they are when split again: no line but the last ends in a
/// carriage return, and the last indented line is not empty.
pub proof fn lemma_indent_twice(s: Seq<char>, a: nat, b: nat)
    requires
        forall|i: int| 0 <= i < lines_of(s).len() - 1 ==> strip_cr(#[trigger] lines_of(s)[i]) == lines_of(s)[i],
        a > 0 || lines_of(s).len() == 0 || lines_of(s).last().len() > 0,
    ensures
        indented(indented(s, a), b) == indented(s, a + b),
{
    let ls = lines_of(s);
    let m = ls.map_values(|l: Seq<char>| repeated(' ', a) + l);
    lemma_lines_of_no_newline(s);
    assert forall|i: int| 0 <= i < m.len() implies !(#[trigger] m[i]).contains('\n') by {
        assert(!ls[i].contains('\n'));
        if m[i].contains('\n') {
            let j = choose|j: int| 0 <= j < m[i].len() && m[i][j] == '\n';
            if j >= a {
                assert(ls[i][j - a] == '\n');
            }
        }
    }
    assert forall|i: int| 0 <= i < m.len() - 1 implies strip_cr(#[trigger] m[i]) == m[i] by {
        assert(strip_cr(ls[i]) == ls[i]);
        if ls[i].len() > 0 {
            assert(m[i].last() == ls[i].last());
        }
    }
    assert(separate_lines(m));
    if m.len() > 0 {
        assert(m.last() == repeated(' ', a) + ls.last());
    }
    lemma_lines_of_join(m);
    assert(m.map_values(|l: Seq<char>| repeated(' ', b) + l) =~= ls.map_values(|l: Seq<char>| repeated(' ', a + b) + l)) by {
        assert forall|i: int| 0 <= i < ls.len() implies repeated(' ', b) + m[i] =~= repeated(' ', a + b) + ls[i] by {}
    }
}

/// Indents each line of a string: see `indented`.
pub fn indent_string(s: &str, amount: usize) -> (res: String)
    ensures
        res@ == indented(s@, amount as nat),
{
    let prefix = repeat_char(' ', amount);
    let ls = lines(s);
    let mut out: Vec<String> = Vec::new();
    let n = ls.len();
    for j in 0..n
        invariant
            n == ls@.len(),
            prefix@ == repeated(' ', amount as nat),
            out@.len() == j,
            forall|q: int| 0 <= q < j ==> (#[trigger] out@[q])@ == repeated(' ', amount as nat) + ls@[q]@,
    {
        let mut line = prefix.clone();
        line.append(ls[j].as_str());
        out.push(line);
    }
    assert(views(out@) =~= lines_of(s@).map_values(|l: Seq<char>| repeated(' ', amount as nat) + l));
    join_strings(&out, "\n")
}

} // verus!
