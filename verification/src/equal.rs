//! Equality of crate-description values as Rust's derived `==` decides it: field
//! by field, strings by their characters, lists element by element.

use vstd::prelude::*;
use crate::model::{
    Abi, AssocItemConstraint, AssocItemConstraintKind, Constant, DynTrait, FunctionHeader, FunctionPointer,
    FunctionSignature, GenericArg, GenericArgs, GenericBound, GenericParamDef, GenericParamDefKind, Generics, Path,
    PolyTrait, PreciseCapturingArg, Term, Type, WherePredicate,
};

verus! {

pub open spec fn same_strs(a: Seq<String>, b: Seq<String>) -> bool {
    a.len() == b.len() && forall|i: int| 0 <= i < a.len() ==> (#[trigger] a[i])@ == b[i]@
}

pub open spec fn same_opt_str(a: Option<String>, b: Option<String>) -> bool {
    match (a, b) {
        (Some(x), Some(y)) => x@ == y@,
        (None, None) => true,
        _ => false,
    }
}

pub open spec fn same_const(a: Constant, b: Constant) -> bool {
    a.expr@ == b.expr@ && same_opt_str(a.value, b.value) && a.is_literal == b.is_literal
}

pub open spec fn same_abi(a: Abi, b: Abi) -> bool {
    match (a, b) {
        (Abi::Rust, Abi::Rust) => true,
        (Abi::C { unwind: x }, Abi::C { unwind: y }) => x == y,
        (Abi::Cdecl { unwind: x }, Abi::Cdecl { unwind: y }) => x == y,
        (Abi::Stdcall { unwind: x }, Abi::Stdcall { unwind: y }) => x == y,
        (Abi::Fastcall { unwind: x }, Abi::Fastcall { unwind: y }) => x == y,
        (Abi::Aapcs { unwind: x }, Abi::Aapcs { unwind: y }) => x == y,
        (Abi::Win64 { unwind: x }, Abi::Win64 { unwind: y }) => x == y,
        (Abi::SysV64 { unwind: x }, Abi::SysV64 { unwind: y }) => x == y,
        (Abi::System { unwind: x }, Abi::System { unwind: y }) => x == y,
        (Abi::Other(x), Abi::Other(y)) => x@ == y@,
        _ => false,
    }
}

pub open spec fn same_path(a: Path, b: Path) -> bool
    decreases a,
{
    a.path@ == b.path@ && a.id == b.id && match (a.args, b.args) {
        (Some(x), Some(y)) => same_args(*x, *y),
        (None, None) => true,
        _ => false,
    }
}

pub open spec fn same_args(a: GenericArgs, b: GenericArgs) -> bool
    decreases a,
{
    match (a, b) {
        (
            GenericArgs::AngleBracketed { args: x, constraints: cx },
            GenericArgs::AngleBracketed { args: y, constraints: cy },
        ) => x@.len() == y@.len() && (forall|i: int| 0 <= i < x@.len() ==> same_arg(x@[i], y@[i]))
            && cx@.len() == cy@.len() && (forall|i: int| 0 <= i < cx@.len() ==> same_constraint(cx@[i], cy@[i])),
        (
            GenericArgs::Parenthesized { inputs: x, output: ox },
            GenericArgs::Parenthesized { inputs: y, output: oy },
        ) => x@.len() == y@.len() && (forall|i: int| 0 <= i < x@.len() ==> same_type(x@[i], y@[i])) && match (ox, oy) {
            (Some(p), Some(q)) => same_type(p, q),
            (None, None) => true,
            _ => false,
        },
        (GenericArgs::ReturnTypeNotation, GenericArgs::ReturnTypeNotation) => true,
        _ => false,
    }
}

pub open spec fn same_arg(a: GenericArg, b: GenericArg) -> bool
    decreases a,
{
    match (a, b) {
        (GenericArg::Lifetime(x), GenericArg::Lifetime(y)) => x@ == y@,
        (GenericArg::Type(x), GenericArg::Type(y)) => same_type(x, y),
        (GenericArg::Const(x), GenericArg::Const(y)) => same_const(x, y),
        (GenericArg::Infer, GenericArg::Infer) => true,
        _ => false,
    }
}

pub open spec fn same_constraint(a: AssocItemConstraint, b: AssocItemConstraint) -> bool
    decreases a,
{
    a.name@ == b.name@ && same_args(a.args, b.args) && match (a.binding, b.binding) {
        (AssocItemConstraintKind::Equality(x), AssocItemConstraintKind::Equality(y)) => same_term(x, y),
        (AssocItemConstraintKind::Constraint(x), AssocItemConstraintKind::Constraint(y)) => x@.len() == y@.len()
            && forall|i: int| 0 <= i < x@.len() ==> same_bound(x@[i], y@[i]),
        _ => false,
    }
}

pub open spec fn same_term(a: Term, b: Term) -> bool
    decreases a,
{
    match (a, b) {
        (Term::Type(x), Term::Type(y)) => same_type(x, y),
        (Term::Constant(x), Term::Constant(y)) => same_const(x, y),
        _ => false,
    }
}

pub open spec fn same_capture(a: PreciseCapturingArg, b: PreciseCapturingArg) -> bool {
    match (a, b) {
        (PreciseCapturingArg::Lifetime(x), PreciseCapturingArg::Lifetime(y)) => x@ == y@,
        (PreciseCapturingArg::Param(x), PreciseCapturingArg::Param(y)) => x@ == y@,
        _ => false,
    }
}

pub open spec fn same_bound(a: GenericBound, b: GenericBound) -> bool
    decreases a,
{
    match (a, b) {
        (
            GenericBound::TraitBound { trait_: tx, generic_params: px, modifier: mx },
            GenericBound::TraitBound { trait_: ty, generic_params: py, modifier: my },
        ) => same_path(tx, ty) && px@.len() == py@.len() && (forall|i: int| 0 <= i < px@.len() ==> same_param(px@[i], py@[i]))
            && mx == my,
        (GenericBound::Outlives(x), GenericBound::Outlives(y)) => x@ == y@,
        (GenericBound::Use(x), GenericBound::Use(y)) => x@.len() == y@.len()
            && forall|i: int| 0 <= i < x@.len() ==> same_capture(x@[i], y@[i]),
        _ => false,
    }
}

/// Two bound lists are the same, element by element.
pub open spec fn same_bounds(a: Seq<GenericBound>, b: Seq<GenericBound>) -> bool {
    a.len() == b.len() && forall|i: int| 0 <= i < a.len() ==> same_bound(a[i], b[i])
}

pub open spec fn same_param(a: GenericParamDef, b: GenericParamDef) -> bool
    decreases a,
{
    a.name@ == b.name@ && match (a.kind, b.kind) {
        (GenericParamDefKind::Lifetime { outlives: x }, GenericParamDefKind::Lifetime { outlives: y }) => same_strs(x@, y@),
        (
            GenericParamDefKind::Type { bounds: bx, default: dx, is_synthetic: sx },
            GenericParamDefKind::Type { bounds: by, default: dy, is_synthetic: sy },
        ) => bx@.len() == by@.len() && (forall|i: int| 0 <= i < bx@.len() ==> same_bound(bx@[i], by@[i])) && match (dx, dy) {
            (Some(p), Some(q)) => same_type(p, q),
            (None, None) => true,
            _ => false,
        } && sx == sy,
        (
            GenericParamDefKind::Const { type_: tx, default: dx },
            GenericParamDefKind::Const { type_: ty, default: dy },
        ) => same_type(tx, ty) && same_opt_str(dx, dy),
        _ => false,
    }
}

pub open spec fn same_poly(a: PolyTrait, b: PolyTrait) -> bool
    decreases a,
{
    same_path(a.trait_, b.trait_) && a.generic_params@.len() == b.generic_params@.len()
        && forall|i: int| 0 <= i < a.generic_params@.len() ==> same_param(a.generic_params@[i], b.generic_params@[i])
}

pub open spec fn same_type(a: Type, b: Type) -> bool
    decreases a,
{
    match (a, b) {
        (Type::ResolvedPath(x), Type::ResolvedPath(y)) => same_path(x, y),
        (Type::DynTrait(x), Type::DynTrait(y)) => x.traits@.len() == y.traits@.len()
            && (forall|i: int| 0 <= i < x.traits@.len() ==> same_poly(x.traits@[i], y.traits@[i]))
            && same_opt_str(x.lifetime, y.lifetime),
        (Type::Generic(x), Type::Generic(y)) => x@ == y@,
        (Type::Primitive(x), Type::Primitive(y)) => x@ == y@,
        (Type::FunctionPointer(x), Type::FunctionPointer(y)) => x.sig.inputs@.len() == y.sig.inputs@.len()
            && (forall|i: int| 0 <= i < x.sig.inputs@.len() ==> x.sig.inputs@[i].0@ == y.sig.inputs@[i].0@
                && same_type(x.sig.inputs@[i].1, y.sig.inputs@[i].1))
            && match (x.sig.output, y.sig.output) {
                (Some(p), Some(q)) => same_type(p, q),
                (None, None) => true,
                _ => false,
            } && x.sig.is_c_variadic == y.sig.is_c_variadic
            && x.generic_params@.len() == y.generic_params@.len()
            && (forall|i: int| 0 <= i < x.generic_params@.len() ==> same_param(x.generic_params@[i], y.generic_params@[i]))
            && x.header.is_const == y.header.is_const && x.header.is_unsafe == y.header.is_unsafe
            && x.header.is_async == y.header.is_async && same_abi(x.header.abi, y.header.abi),
        (Type::Tuple(x), Type::Tuple(y)) => x@.len() == y@.len() && forall|i: int| 0 <= i < x@.len() ==> same_type(x@[i], y@[i]),
        (Type::Slice(x), Type::Slice(y)) => same_type(*x, *y),
        (Type::Array { type_: tx, len: lx }, Type::Array { type_: ty, len: ly }) => same_type(*tx, *ty) && lx@ == ly@,
        (Type::Pat { type_: tx, pat: px }, Type::Pat { type_: ty, pat: py }) => same_type(*tx, *ty) && px@ == py@,
        (Type::ImplTrait(x), Type::ImplTrait(y)) => x@.len() == y@.len() && forall|i: int| 0 <= i < x@.len() ==> same_bound(x@[i], y@[i]),
        (Type::Infer, Type::Infer) => true,
        (Type::RawPointer { is_mutable: mx, type_: tx }, Type::RawPointer { is_mutable: my, type_: ty }) => mx == my && same_type(*tx, *ty),
        (
            Type::BorrowedRef { lifetime: lx, is_mutable: mx, type_: tx },
            Type::BorrowedRef { lifetime: ly, is_mutable: my, type_: ty },
        ) => same_opt_str(lx, ly) && mx == my && same_type(*tx, *ty),
        (
            Type::QualifiedPath { name: nx, args: ax, self_type: sx, trait_: tx },
            Type::QualifiedPath { name: ny, args: ay, self_type: sy, trait_: ty },
        ) => nx@ == ny@ && same_args(*ax, *ay) && same_type(*sx, *sy) && match (tx, ty) {
            (Some(p), Some(q)) => same_path(p, q),
            (None, None) => true,
            _ => false,
        },
        _ => false,
    }
}

pub open spec fn same_pred(a: WherePredicate, b: WherePredicate) -> bool {
    match (a, b) {
        (
            WherePredicate::BoundPredicate { type_: tx, bounds: bx, generic_params: px },
            WherePredicate::BoundPredicate { type_: ty, bounds: by, generic_params: py },
        ) => same_type(tx, ty) && same_bounds(bx@, by@) && px@.len() == py@.len()
            && forall|i: int| 0 <= i < px@.len() ==> same_param(px@[i], py@[i]),
        (
            WherePredicate::LifetimePredicate { lifetime: lx, outlives: ox },
            WherePredicate::LifetimePredicate { lifetime: ly, outlives: oy },
        ) => lx@ == ly@ && same_strs(ox@, oy@),
        (WherePredicate::EqPredicate { lhs: lx, rhs: rx }, WherePredicate::EqPredicate { lhs: ly, rhs: ry }) =>
            same_type(lx, ly) && same_term(rx, ry),
        _ => false,
    }
}

/// Two where clauses are the same, predicate by predicate.
pub open spec fn same_preds(a: Seq<WherePredicate>, b: Seq<WherePredicate>) -> bool {
    a.len() == b.len() && forall|i: int| 0 <= i < a.len() ==> same_pred(a[i], b[i])
}

pub open spec fn same_generics(a: Generics, b: Generics) -> bool {
    a.params@.len() == b.params@.len() && (forall|i: int| 0 <= i < a.params@.len() ==> same_param(a.params@[i], b.params@[i]))
        && same_preds(a.where_predicates@, b.where_predicates@)
}

#[verifier::loop_isolation(false)]
fn eq_opt_str(a: &Option<String>, b: &Option<String>) -> (res: bool)
    ensures
        res == same_opt_str(*a, *b),
{
    match (a, b) {
        (Some(x), Some(y)) => *x == *y,
        (None, None) => true,
        _ => false,
    }
}

/// Whether two string lists are equal.
#[verifier::loop_isolation(false)]
pub fn eq_strs(a: &Vec<String>, b: &Vec<String>) -> (res: bool)
    ensures
        res == same_strs(a@, b@),
{
        if a.len() != b.len() {
            return false;
        }
        let n = a.len();
        for i in 0..n
            invariant
                n == a@.len(),
                n == b@.len(),
                forall|j: int| 0 <= j < i ==> a@[j]@ == b@[j]@,
        {
            if !eq_string(&a[i], &b[i]) {
                return false;
            }
        }
    true
}

#[verifier::loop_isolation(false)]
fn eq_string(a: &String, b: &String) -> (res: bool)
    ensures
        res == (a@ == b@),
{
    *a == *b
}

#[verifier::loop_isolation(false)]
fn eq_const(a: &Constant, b: &Constant) -> (res: bool)
    ensures
        res == same_const(*a, *b),
{
    a.expr == b.expr && eq_opt_str(&a.value, &b.value) && a.is_literal == b.is_literal
}

#[verifier::loop_isolation(false)]
fn eq_abi(a: &Abi, b: &Abi) -> (res: bool)
    ensures
        res == same_abi(*a, *b),
{
    match (a, b) {
        (Abi::Rust, Abi::Rust) => true,
        (Abi::C { unwind: x }, Abi::C { unwind: y }) => *x == *y,
        (Abi::Cdecl { unwind: x }, Abi::Cdecl { unwind: y }) => *x == *y,
        (Abi::Stdcall { unwind: x }, Abi::Stdcall { unwind: y }) => *x == *y,
        (Abi::Fastcall { unwind: x }, Abi::Fastcall { unwind: y }) => *x == *y,
        (Abi::Aapcs { unwind: x }, Abi::Aapcs { unwind: y }) => *x == *y,
        (Abi::Win64 { unwind: x }, Abi::Win64 { unwind: y }) => *x == *y,
        (Abi::SysV64 { unwind: x }, Abi::SysV64 { unwind: y }) => *x == *y,
        (Abi::System { unwind: x }, Abi::System { unwind: y }) => *x == *y,
        (Abi::Other(x), Abi::Other(y)) => *x == *y,
        _ => false,
    }
}

#[verifier::loop_isolation(false)]
fn eq_capture(a: &PreciseCapturingArg, b: &PreciseCapturingArg) -> (res: bool)
    ensures
        res == same_capture(*a, *b),
{
    match (a, b) {
        (PreciseCapturingArg::Lifetime(x), PreciseCapturingArg::Lifetime(y)) => *x == *y,
        (PreciseCapturingArg::Param(x), PreciseCapturingArg::Param(y)) => *x == *y,
        _ => false,
    }
}

#[verifier::loop_isolation(false)]
pub fn eq_path(a: &Path, b: &Path) -> (res: bool)
    ensures
        res == same_path(*a, *b),
    decreases a,
{
    if a.path != b.path || a.id != b.id {
        return false;
    }
    match (&a.args, &b.args) {
        (Some(x), Some(y)) => eq_args(x, y),
        (None, None) => true,
        _ => false,
    }
}

#[verifier::loop_isolation(false)]
pub fn eq_args(a: &GenericArgs, b: &GenericArgs) -> (res: bool)
    ensures
        res == same_args(*a, *b),
    decreases a,
{
    match (a, b) {
        (
            GenericArgs::AngleBracketed { args: x, constraints: cx },
            GenericArgs::AngleBracketed { args: y, constraints: cy },
        ) => {
        if x.len() != y.len() {
            return false;
        }
        let n = x.len();
        for i in 0..n
            invariant
                n == x@.len(),
                n == y@.len(),
                forall|j: int| 0 <= j < i ==> same_arg(x@[j], y@[j]),
        {
            if !eq_arg(&x[i], &y[i]) {
                return false;
            }
        }
        if cx.len() != cy.len() {
            return false;
        }
        let n = cx.len();
        for i in 0..n
            invariant
                n == cx@.len(),
                n == cy@.len(),
                forall|j: int| 0 <= j < i ==> same_constraint(cx@[j], cy@[j]),
        {
            if !eq_constraint(&cx[i], &cy[i]) {
                return false;
            }
        }
            true
        },
        (
            GenericArgs::Parenthesized { inputs: x, output: ox },
            GenericArgs::Parenthesized { inputs: y, output: oy },
        ) => {
        if x.len() != y.len() {
            return false;
        }
        let n = x.len();
        for i in 0..n
            invariant
                n == x@.len(),
                n == y@.len(),
                forall|j: int| 0 <= j < i ==> same_type(x@[j], y@[j]),
        {
            if !eq_type(&x[i], &y[i]) {
                return false;
            }
        }
            match (ox, oy) {
                (Some(p), Some(q)) => eq_type(p, q),
                (None, None) => true,
                _ => false,
            }
        },
        (GenericArgs::ReturnTypeNotation, GenericArgs::ReturnTypeNotation) => true,
        _ => false,
    }
}

#[verifier::loop_isolation(false)]
pub fn eq_arg(a: &GenericArg, b: &GenericArg) -> (res: bool)
    ensures
        res == same_arg(*a, *b),
    decreases a,
{
    match (a, b) {
        (GenericArg::Lifetime(x), GenericArg::Lifetime(y)) => *x == *y,
        (GenericArg::Type(x), GenericArg::Type(y)) => eq_type(x, y),
        (GenericArg::Const(x), GenericArg::Const(y)) => eq_const(x, y),
        (GenericArg::Infer, GenericArg::Infer) => true,
        _ => false,
    }
}

#[verifier::loop_isolation(false)]
pub fn eq_constraint(a: &AssocItemConstraint, b: &AssocItemConstraint) -> (res: bool)
    ensures
        res == same_constraint(*a, *b),
    decreases a,
{
    if a.name != b.name || !eq_args(&a.args, &b.args) {
        return false;
    }
    match (&a.binding, &b.binding) {
        (AssocItemConstraintKind::Equality(x), AssocItemConstraintKind::Equality(y)) => eq_term(x, y),
        (AssocItemConstraintKind::Constraint(x), AssocItemConstraintKind::Constraint(y)) => {
        if x.len() != y.len() {
            return false;
        }
        let n = x.len();
        for i in 0..n
            invariant
                n == x@.len(),
                n == y@.len(),
                forall|j: int| 0 <= j < i ==> same_bound(x@[j], y@[j]),
        {
            if !eq_bound(&x[i], &y[i]) {
                return false;
            }
        }
            true
        },
        _ => false,
    }
}

#[verifier::loop_isolation(false)]
pub fn eq_term(a: &Term, b: &Term) -> (res: bool)
    ensures
        res == same_term(*a, *b),
    decreases a,
{
    match (a, b) {
        (Term::Type(x), Term::Type(y)) => eq_type(x, y),
        (Term::Constant(x), Term::Constant(y)) => eq_const(x, y),
        _ => false,
    }
}

#[verifier::loop_isolation(false)]
pub fn eq_bound(a: &GenericBound, b: &GenericBound) -> (res: bool)
    ensures
        res == same_bound(*a, *b),
    decreases a,
{
    match (a, b) {
        (
            GenericBound::TraitBound { trait_: tx, generic_params: px, modifier: mx },
            GenericBound::TraitBound { trait_: ty, generic_params: py, modifier: my },
        ) => {
            if !eq_path(tx, ty) {
                return false;
            }
        if px.len() != py.len() {
            return false;
        }
        let n = px.len();
        for i in 0..n
            invariant
                n == px@.len(),
                n == py@.len(),
                forall|j: int| 0 <= j < i ==> same_param(px@[j], py@[j]),
        {
            if !eq_param(&px[i], &py[i]) {
                return false;
            }
        }
            *mx == *my
        },
        (GenericBound::Outlives(x), GenericBound::Outlives(y)) => *x == *y,
        (GenericBound::Use(x), GenericBound::Use(y)) => {
        if x.len() != y.len() {
            return false;
        }
        let n = x.len();
        for i in 0..n
            invariant
                n == x@.len(),
                n == y@.len(),
                forall|j: int| 0 <= j < i ==> same_capture(x@[j], y@[j]),
        {
            if !eq_capture(&x[i], &y[i]) {
                return false;
            }
        }
            true
        },
        _ => false,
    }
}

/// Whether two bound lists are equal.
#[verifier::loop_isolation(false)]
pub fn eq_bounds(a: &Vec<GenericBound>, b: &Vec<GenericBound>) -> (res: bool)
    ensures
        res == same_bounds(a@, b@),
{
        if a.len() != b.len() {
            return false;
        }
        let n = a.len();
        for i in 0..n
            invariant
                n == a@.len(),
                n == b@.len(),
                forall|j: int| 0 <= j < i ==> same_bound(a@[j], b@[j]),
        {
            if !eq_bound(&a[i], &b[i]) {
                return false;
            }
        }
    true
}

#[verifier::loop_isolation(false)]
pub fn eq_param(a: &GenericParamDef, b: &GenericParamDef) -> (res: bool)
    ensures
        res == same_param(*a, *b),
    decreases a,
{
    if a.name != b.name {
        return false;
    }
    match (&a.kind, &b.kind) {
        (GenericParamDefKind::Lifetime { outlives: x }, GenericParamDefKind::Lifetime { outlives: y }) => eq_strs(x, y),
        (
            GenericParamDefKind::Type { bounds: bx, default: dx, is_synthetic: sx },
            GenericParamDefKind::Type { bounds: by, default: dy, is_synthetic: sy },
        ) => {
        if bx.len() != by.len() {
            return false;
        }
        let n = bx.len();
        for i in 0..n
            invariant
                n == bx@.len(),
                n == by@.len(),
                forall|j: int| 0 <= j < i ==> same_bound(bx@[j], by@[j]),
        {
            if !eq_bound(&bx[i], &by[i]) {
                return false;
            }
        }
            let d = match (dx, dy) {
                (Some(p), Some(q)) => eq_type(p, q),
                (None, None) => true,
                _ => false,
            };
            d && *sx == *sy
        },
        (
            GenericParamDefKind::Const { type_: tx, default: dx },
            GenericParamDefKind::Const { type_: ty, default: dy },
        ) => eq_type(tx, ty) && eq_opt_str(dx, dy),
        _ => false,
    }
}

#[verifier::loop_isolation(false)]
pub fn eq_poly(a: &PolyTrait, b: &PolyTrait) -> (res: bool)
    ensures
        res == same_poly(*a, *b),
    decreases a,
{
    if !eq_path(&a.trait_, &b.trait_) {
        return false;
    }
        if a.generic_params.len() != b.generic_params.len() {
            return false;
        }
        let n = a.generic_params.len();
        for i in 0..n
            invariant
                n == a.generic_params@.len(),
                n == b.generic_params@.len(),
                forall|j: int| 0 <= j < i ==> same_param(a.generic_params@[j], b.generic_params@[j]),
        {
            if !eq_param(&a.generic_params[i], &b.generic_params[i]) {
                return false;
            }
        }
    true
}

#[verifier::loop_isolation(false)]
pub fn eq_type(a: &Type, b: &Type) -> (res: bool)
    ensures
        res == same_type(*a, *b),
    decreases a,
{
    match (a, b) {
        (Type::ResolvedPath(x), Type::ResolvedPath(y)) => eq_path(x, y),
        (Type::DynTrait(x), Type::DynTrait(y)) => {
        if x.traits.len() != y.traits.len() {
            return false;
        }
        let n = x.traits.len();
        for i in 0..n
            invariant
                n == x.traits@.len(),
                n == y.traits@.len(),
                forall|j: int| 0 <= j < i ==> same_poly(x.traits@[j], y.traits@[j]),
        {
            if !eq_poly(&x.traits[i], &y.traits[i]) {
                return false;
            }
        }
            eq_opt_str(&x.lifetime, &y.lifetime)
        },
        (Type::Generic(x), Type::Generic(y)) => *x == *y,
        (Type::Primitive(x), Type::Primitive(y)) => *x == *y,
        (Type::FunctionPointer(x), Type::FunctionPointer(y)) => {
            if x.sig.inputs.len() != y.sig.inputs.len() {
                return false;
            }
            let n = x.sig.inputs.len();
            for i in 0..n
                invariant
                    n == x.sig.inputs@.len(),
                    n == y.sig.inputs@.len(),
                    forall|j: int| 0 <= j < i ==> x.sig.inputs@[j].0@ == y.sig.inputs@[j].0@
                        && same_type(x.sig.inputs@[j].1, y.sig.inputs@[j].1),
            {
                if x.sig.inputs[i].0 != y.sig.inputs[i].0 || !eq_type(&x.sig.inputs[i].1, &y.sig.inputs[i].1) {
                    return false;
                }
            }
            let o = match (&x.sig.output, &y.sig.output) {
                (Some(p), Some(q)) => eq_type(p, q),
                (None, None) => true,
                _ => false,
            };
            if !o || x.sig.is_c_variadic != y.sig.is_c_variadic {
                return false;
            }
        if x.generic_params.len() != y.generic_params.len() {
            return false;
        }
        let n = x.generic_params.len();
        for i in 0..n
            invariant
                n == x.generic_params@.len(),
                n == y.generic_params@.len(),
                forall|j: int| 0 <= j < i ==> same_param(x.generic_params@[j], y.generic_params@[j]),
        {
            if !eq_param(&x.generic_params[i], &y.generic_params[i]) {
                return false;
            }
        }
            x.header.is_const == y.header.is_const && x.header.is_unsafe == y.header.is_unsafe
                && x.header.is_async == y.header.is_async && eq_abi(&x.header.abi, &y.header.abi)
        },
        (Type::Tuple(x), Type::Tuple(y)) => {
        if x.len() != y.len() {
            return false;
        }
        let n = x.len();
        for i in 0..n
            invariant
                n == x@.len(),
                n == y@.len(),
                forall|j: int| 0 <= j < i ==> same_type(x@[j], y@[j]),
        {
            if !eq_type(&x[i], &y[i]) {
                return false;
            }
        }
            true
        },
        (Type::Slice(x), Type::Slice(y)) => eq_type(x, y),
        (Type::Array { type_: tx, len: lx }, Type::Array { type_: ty, len: ly }) => eq_type(tx, ty) && *lx == *ly,
        (Type::Pat { type_: tx, pat: px }, Type::Pat { type_: ty, pat: py }) => eq_type(tx, ty) && *px == *py,
        (Type::ImplTrait(x), Type::ImplTrait(y)) => {
        if x.len() != y.len() {
            return false;
        }
        let n = x.len();
        for i in 0..n
            invariant
                n == x@.len(),
                n == y@.len(),
                forall|j: int| 0 <= j < i ==> same_bound(x@[j], y@[j]),
        {
            if !eq_bound(&x[i], &y[i]) {
                return false;
            }
        }
            true
        },
        (Type::Infer, Type::Infer) => true,
        (Type::RawPointer { is_mutable: mx, type_: tx }, Type::RawPointer { is_mutable: my, type_: ty }) => *mx == *my && eq_type(tx, ty),
        (
            Type::BorrowedRef { lifetime: lx, is_mutable: mx, type_: tx },
            Type::BorrowedRef { lifetime: ly, is_mutable: my, type_: ty },
        ) => eq_opt_str(lx, ly) && *mx == *my && eq_type(tx, ty),
        (
            Type::QualifiedPath { name: nx, args: ax, self_type: sx, trait_: tx },
            Type::QualifiedPath { name: ny, args: ay, self_type: sy, trait_: ty },
        ) => {
            if *nx != *ny || !eq_args(ax, ay) || !eq_type(sx, sy) {
                return false;
            }
            match (tx, ty) {
                (Some(p), Some(q)) => eq_path(p, q),
                (None, None) => true,
                _ => false,
            }
        },
        _ => false,
    }
}

#[verifier::loop_isolation(false)]
fn eq_pred(a: &WherePredicate, b: &WherePredicate) -> (res: bool)
    ensures
        res == same_pred(*a, *b),
{
    match (a, b) {
        (
            WherePredicate::BoundPredicate { type_: tx, bounds: bx, generic_params: px },
            WherePredicate::BoundPredicate { type_: ty, bounds: by, generic_params: py },
        ) => {
            if !eq_type(tx, ty) || !eq_bounds(bx, by) {
                return false;
            }
        if px.len() != py.len() {
            return false;
        }
        let n = px.len();
        for i in 0..n
            invariant
                n == px@.len(),
                n == py@.len(),
                forall|j: int| 0 <= j < i ==> same_param(px@[j], py@[j]),
        {
            if !eq_param(&px[i], &py[i]) {
                return false;
            }
        }
            true
        },
        (
            WherePredicate::LifetimePredicate { lifetime: lx, outlives: ox },
            WherePredicate::LifetimePredicate { lifetime: ly, outlives: oy },
        ) => *lx == *ly && eq_strs(ox, oy),
        (WherePredicate::EqPredicate { lhs: lx, rhs: rx }, WherePredicate::EqPredicate { lhs: ly, rhs: ry }) =>
            eq_type(lx, ly) && eq_term(rx, ry),
        _ => false,
    }
}

/// Whether two where clauses are equal.
#[verifier::loop_isolation(false)]
pub fn eq_preds(a: &Vec<WherePredicate>, b: &Vec<WherePredicate>) -> (res: bool)
    ensures
        res == same_preds(a@, b@),
{
        if a.len() != b.len() {
            return false;
        }
        let n = a.len();
        for i in 0..n
            invariant
                n == a@.len(),
                n == b@.len(),
                forall|j: int| 0 <= j < i ==> same_pred(a@[j], b@[j]),
        {
            if !eq_pred(&a[i], &b[i]) {
                return false;
            }
        }
    true
}

/// Whether two generics are equal.
#[verifier::loop_isolation(false)]
pub fn eq_generics(a: &Generics, b: &Generics) -> (res: bool)
    ensures
        res == same_generics(*a, *b),
{
        if a.params.len() != b.params.len() {
            return false;
        }
        let n = a.params.len();
        for i in 0..n
            invariant
                n == a.params@.len(),
                n == b.params@.len(),
                forall|j: int| 0 <= j < i ==> same_param(a.params@[j], b.params@[j]),
        {
            if !eq_param(&a.params[i], &b.params[i]) {
                return false;
            }
        }
    eq_preds(&a.where_predicates, &b.where_predicates)
}

/// A copy of an optional string.
fn copy_opt_str(a: &Option<String>) -> (res: Option<String>)
    ensures
        same_opt_str(res, *a),
{
    match a {
        Some(x) => Some(x.clone()),
        None => None,
    }
}

fn copy_string(a: &String) -> (res: String)
    ensures
        res@ == a@,
{
    a.clone()
}

/// A copy of a list of strings.
pub fn copy_strs(a: &Vec<String>) -> (res: Vec<String>)
    ensures
        same_strs(res@, a@),
{
            let mut out: Vec<String> = Vec::new();
            let n = a.len();
            for i in 0..n
                invariant
                    n == a@.len(),
                    out@.len() == i,
                    forall|j: int| 0 <= j < i ==> out@[j]@ == a@[j]@,
            {
                out.push(copy_string(&a[i]));
            }
    out
}

fn copy_const(a: &Constant) -> (res: Constant)
    ensures
        same_const(res, *a),
{
    Constant { expr: a.expr.clone(), value: copy_opt_str(&a.value), is_literal: a.is_literal }
}

fn copy_abi(a: &Abi) -> (res: Abi)
    ensures
        same_abi(res, *a),
{
    match a {
        Abi::Rust => Abi::Rust,
        Abi::C { unwind } => Abi::C { unwind: *unwind },
        Abi::Cdecl { unwind } => Abi::Cdecl { unwind: *unwind },
        Abi::Stdcall { unwind } => Abi::Stdcall { unwind: *unwind },
        Abi::Fastcall { unwind } => Abi::Fastcall { unwind: *unwind },
        Abi::Aapcs { unwind } => Abi::Aapcs { unwind: *unwind },
        Abi::Win64 { unwind } => Abi::Win64 { unwind: *unwind },
        Abi::SysV64 { unwind } => Abi::SysV64 { unwind: *unwind },
        Abi::System { unwind } => Abi::System { unwind: *unwind },
        Abi::Other(x) => Abi::Other(x.clone()),
    }
}

fn copy_capture(a: &PreciseCapturingArg) -> (res: PreciseCapturingArg)
    ensures
        same_capture(res, *a),
{
    match a {
        PreciseCapturingArg::Lifetime(x) => PreciseCapturingArg::Lifetime(x.clone()),
        PreciseCapturingArg::Param(x) => PreciseCapturingArg::Param(x.clone()),
    }
}

#[verifier::loop_isolation(false)]
pub fn copy_path(a: &Path) -> (res: Path)
    ensures
        same_path(res, *a),
    decreases a,
{
    let args = match &a.args {
        Some(x) => Some(Box::new(copy_args(x))),
        None => None,
    };
    Path { path: a.path.clone(), id: a.id, args }
}

#[verifier::loop_isolation(false)]
pub fn copy_args(a: &GenericArgs) -> (res: GenericArgs)
    ensures
        same_args(res, *a),
    decreases a,
{
    match a {
        GenericArgs::AngleBracketed { args, constraints } => {
            let mut out = Vec::new();
            let n = args.len();
            for i in 0..n
                invariant
                    n == args@.len(),
                    out@.len() == i,
                    forall|j: int| 0 <= j < i ==> same_arg(out@[j], args@[j]),
            {
                out.push(copy_arg(&args[i]));
            }
            let mut outc = Vec::new();
            let n = constraints.len();
            for i in 0..n
                invariant
                    n == constraints@.len(),
                    outc@.len() == i,
                    forall|j: int| 0 <= j < i ==> same_constraint(outc@[j], constraints@[j]),
            {
                outc.push(copy_constraint(&constraints[i]));
            }
            GenericArgs::AngleBracketed { args: out, constraints: outc }
        },
        GenericArgs::Parenthesized { inputs, output } => {
            let mut out = Vec::new();
            let n = inputs.len();
            for i in 0..n
                invariant
                    n == inputs@.len(),
                    out@.len() == i,
                    forall|j: int| 0 <= j < i ==> same_type(out@[j], inputs@[j]),
            {
                out.push(copy_type(&inputs[i]));
            }
            let o = match output {
                Some(t) => Some(copy_type(t)),
                None => None,
            };
            GenericArgs::Parenthesized { inputs: out, output: o }
        },
        GenericArgs::ReturnTypeNotation => GenericArgs::ReturnTypeNotation,
    }
}

#[verifier::loop_isolation(false)]
pub fn copy_arg(a: &GenericArg) -> (res: GenericArg)
    ensures
        same_arg(res, *a),
    decreases a,
{
    match a {
        GenericArg::Lifetime(x) => GenericArg::Lifetime(x.clone()),
        GenericArg::Type(x) => GenericArg::Type(copy_type(x)),
        GenericArg::Const(x) => GenericArg::Const(copy_const(x)),
        GenericArg::Infer => GenericArg::Infer,
    }
}

#[verifier::loop_isolation(false)]
pub fn copy_constraint(a: &AssocItemConstraint) -> (res: AssocItemConstraint)
    ensures
        same_constraint(res, *a),
    decreases a,
{
    let binding = match &a.binding {
        AssocItemConstraintKind::Equality(t) => AssocItemConstraintKind::Equality(copy_term(t)),
        AssocItemConstraintKind::Constraint(bs) => {
            let mut out = Vec::new();
            let n = bs.len();
            for i in 0..n
                invariant
                    n == bs@.len(),
                    out@.len() == i,
                    forall|j: int| 0 <= j < i ==> same_bound(out@[j], bs@[j]),
            {
                out.push(copy_bound(&bs[i]));
            }
            AssocItemConstraintKind::Constraint(out)
        },
    };
    AssocItemConstraint { name: a.name.clone(), args: copy_args(&a.args), binding }
}

#[verifier::loop_isolation(false)]
pub fn copy_term(a: &Term) -> (res: Term)
    ensures
        same_term(res, *a),
    decreases a,
{
    match a {
        Term::Type(t) => Term::Type(copy_type(t)),
        Term::Constant(c) => Term::Constant(copy_const(c)),
    }
}

#[verifier::loop_isolation(false)]
pub fn copy_bound(a: &GenericBound) -> (res: GenericBound)
    ensures
        same_bound(res, *a),
    decreases a,
{
    match a {
        GenericBound::TraitBound { trait_, generic_params, modifier } => {
            let mut out = Vec::new();
            let n = generic_params.len();
            for i in 0..n
                invariant
                    n == generic_params@.len(),
                    out@.len() == i,
                    forall|j: int| 0 <= j < i ==> same_param(out@[j], generic_params@[j]),
            {
                out.push(copy_param(&generic_params[i]));
            }
            GenericBound::TraitBound { trait_: copy_path(trait_), generic_params: out, modifier: *modifier }
        },
        GenericBound::Outlives(x) => GenericBound::Outlives(x.clone()),
        GenericBound::Use(args) => {
            let mut out = Vec::new();
            let n = args.len();
            for i in 0..n
                invariant
                    n == args@.len(),
                    out@.len() == i,
                    forall|j: int| 0 <= j < i ==> same_capture(out@[j], args@[j]),
            {
                out.push(copy_capture(&args[i]));
            }
            GenericBound::Use(out)
        },
    }
}

/// A copy of a list of bounds.
#[verifier::loop_isolation(false)]
pub fn copy_bounds(a: &Vec<GenericBound>) -> (res: Vec<GenericBound>)
    ensures
        same_bounds(res@, a@),
{
            let mut out = Vec::new();
            let n = a.len();
            for i in 0..n
                invariant
                    n == a@.len(),
                    out@.len() == i,
                    forall|j: int| 0 <= j < i ==> same_bound(out@[j], a@[j]),
            {
                out.push(copy_bound(&a[i]));
            }
    out
}

#[verifier::loop_isolation(false)]
pub fn copy_param(a: &GenericParamDef) -> (res: GenericParamDef)
    ensures
        same_param(res, *a),
    decreases a,
{
    let kind = match &a.kind {
        GenericParamDefKind::Lifetime { outlives } => GenericParamDefKind::Lifetime { outlives: copy_strs(outlives) },
        GenericParamDefKind::Type { bounds, default, is_synthetic } => {
            let mut out = Vec::new();
            let n = bounds.len();
            for i in 0..n
                invariant
                    n == bounds@.len(),
                    out@.len() == i,
                    forall|j: int| 0 <= j < i ==> same_bound(out@[j], bounds@[j]),
            {
                out.push(copy_bound(&bounds[i]));
            }
            let d = match default {
                Some(t) => Some(copy_type(t)),
                None => None,
            };
            GenericParamDefKind::Type { bounds: out, default: d, is_synthetic: *is_synthetic }
        },
        GenericParamDefKind::Const { type_, default } => GenericParamDefKind::Const {
            type_: copy_type(type_),
            default: copy_opt_str(default),
        },
    };
    GenericParamDef { name: a.name.clone(), kind }
}

#[verifier::loop_isolation(false)]
pub fn copy_poly(a: &PolyTrait) -> (res: PolyTrait)
    ensures
        same_poly(res, *a),
    decreases a,
{
    let src = &a.generic_params;
            let mut out = Vec::new();
            let n = src.len();
            for i in 0..n
                invariant
                    n == src@.len(),
                    out@.len() == i,
                    forall|j: int| 0 <= j < i ==> same_param(out@[j], src@[j]),
            {
                out.push(copy_param(&src[i]));
            }
    PolyTrait { trait_: copy_path(&a.trait_), generic_params: out }
}

#[verifier::loop_isolation(false)]
pub fn copy_type(a: &Type) -> (res: Type)
    ensures
        same_type(res, *a),
    decreases a,
{
    match a {
        Type::ResolvedPath(p) => Type::ResolvedPath(copy_path(p)),
        Type::DynTrait(dt) => {
            let src = &dt.traits;
            let mut out = Vec::new();
            let n = src.len();
            for i in 0..n
                invariant
                    n == src@.len(),
                    out@.len() == i,
                    forall|j: int| 0 <= j < i ==> same_poly(out@[j], src@[j]),
            {
                out.push(copy_poly(&src[i]));
            }
            Type::DynTrait(DynTrait { traits: out, lifetime: copy_opt_str(&dt.lifetime) })
        },
        Type::Generic(x) => Type::Generic(x.clone()),
        Type::Primitive(x) => Type::Primitive(x.clone()),
        Type::FunctionPointer(fp) => {
            let src = &fp.sig.inputs;
            let mut ins: Vec<(String, Type)> = Vec::new();
            let n = src.len();
            for i in 0..n
                invariant
                    n == src@.len(),
                    ins@.len() == i,
                    forall|j: int| 0 <= j < i ==> ins@[j].0@ == src@[j].0@ && same_type(ins@[j].1, src@[j].1),
            {
                ins.push((src[i].0.clone(), copy_type(&src[i].1)));
            }
            let output = match &fp.sig.output {
                Some(t) => Some(copy_type(t)),
                None => None,
            };
            let gp = &fp.generic_params;
            let mut out = Vec::new();
            let n = gp.len();
            for i in 0..n
                invariant
                    n == gp@.len(),
                    out@.len() == i,
                    forall|j: int| 0 <= j < i ==> same_param(out@[j], gp@[j]),
            {
                out.push(copy_param(&gp[i]));
            }
            Type::FunctionPointer(Box::new(FunctionPointer {
                sig: FunctionSignature { inputs: ins, output, is_c_variadic: fp.sig.is_c_variadic },
                generic_params: out,
                header: FunctionHeader {
                    is_const: fp.header.is_const,
                    is_unsafe: fp.header.is_unsafe,
                    is_async: fp.header.is_async,
                    abi: copy_abi(&fp.header.abi),
                },
            }))
        },
        Type::Tuple(ts) => {
            let mut out = Vec::new();
            let n = ts.len();
            for i in 0..n
                invariant
                    n == ts@.len(),
                    out@.len() == i,
                    forall|j: int| 0 <= j < i ==> same_type(out@[j], ts@[j]),
            {
                out.push(copy_type(&ts[i]));
            }
            Type::Tuple(out)
        },
        Type::Slice(inner) => Type::Slice(Box::new(copy_type(inner))),
        Type::Array { type_, len } => Type::Array { type_: Box::new(copy_type(type_)), len: len.clone() },
        Type::Pat { type_, pat } => Type::Pat { type_: Box::new(copy_type(type_)), pat: pat.clone() },
        Type::ImplTrait(bs) => {
            let mut out = Vec::new();
            let n = bs.len();
            for i in 0..n
                invariant
                    n == bs@.len(),
                    out@.len() == i,
                    forall|j: int| 0 <= j < i ==> same_bound(out@[j], bs@[j]),
            {
                out.push(copy_bound(&bs[i]));
            }
            Type::ImplTrait(out)
        },
        Type::Infer => Type::Infer,
        Type::RawPointer { is_mutable, type_ } => Type::RawPointer { is_mutable: *is_mutable, type_: Box::new(copy_type(type_)) },
        Type::BorrowedRef { lifetime, is_mutable, type_ } => Type::BorrowedRef {
            lifetime: copy_opt_str(lifetime),
            is_mutable: *is_mutable,
            type_: Box::new(copy_type(type_)),
        },
        Type::QualifiedPath { name, args, self_type, trait_ } => Type::QualifiedPath {
            name: name.clone(),
            args: Box::new(copy_args(args)),
            self_type: Box::new(copy_type(self_type)),
            trait_: match trait_ {
                Some(t) => Some(copy_path(t)),
                None => None,
            },
        },
    }
}

#[verifier::loop_isolation(false)]
fn copy_params(a: &Vec<GenericParamDef>) -> (res: Vec<GenericParamDef>)
    ensures
        res@.len() == a@.len(),
        forall|j: int| 0 <= j < a@.len() ==> same_param(res@[j], a@[j]),
{
    let mut out = Vec::new();
    let n = a.len();
    for i in 0..n
        invariant
            n == a@.len(),
            out@.len() == i,
            forall|j: int| 0 <= j < i ==> same_param(out@[j], a@[j]),
    {
        out.push(copy_param(&a[i]));
    }
    out
}

fn copy_pred(a: &WherePredicate) -> (res: WherePredicate)
    ensures
        same_pred(res, *a),
{
    match a {
        WherePredicate::BoundPredicate { type_, bounds, generic_params } => WherePredicate::BoundPredicate {
            type_: copy_type(type_),
            bounds: copy_bounds(bounds),
            generic_params: copy_params(generic_params),
        },
        WherePredicate::LifetimePredicate { lifetime, outlives } => WherePredicate::LifetimePredicate {
            lifetime: lifetime.clone(),
            outlives: copy_strs(outlives),
        },
        WherePredicate::EqPredicate { lhs, rhs } => WherePredicate::EqPredicate { lhs: copy_type(lhs), rhs: copy_term(rhs) },
    }
}

/// A copy of generics, equal to them parameter by parameter and predicate by predicate.
pub fn copy_generics(a: &Generics) -> (res: Generics)
    ensures
        same_generics(res, *a),
{
    let params = copy_params(&a.params);
    let mut preds = Vec::new();
    let n = a.where_predicates.len();
    for i in 0..n
        invariant
            n == a.where_predicates@.len(),
            preds@.len() == i,
            forall|j: int| 0 <= j < i ==> same_pred(preds@[j], a.where_predicates@[j]),
    {
        preds.push(copy_pred(&a.where_predicates[i]));
    }
    Generics { params, where_predicates: preds }
}

} // verus!
