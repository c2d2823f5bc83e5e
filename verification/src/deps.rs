//! Dependencies of items: which ids an item refers to through its types,
//! generics, fields, variants, impls and links, each recorded as a labelled
//! edge of the dependency graph.
//!
//! The traversal is described as a sequence of steps (`DepStep`); each step,
//! applied to the set of dependencies found so far and the edge list, either adds a
//! dependency and tries the edge, or does nothing.

use vstd::prelude::*;
use std::collections::HashSet;
use crate::model::{
    AssocItemConstraint, AssocItemConstraintKind, Crate, GenericArg, GenericArgs, GenericBound,
    GenericParamDef, GenericParamDefKind, Generics, Id, Item, ItemEnum, PolyTrait, StructKind,
    Term, Type, VariantKind, WherePredicate,
};
use crate::graph::{EdgeLabel, Edge, IdGraph, edges_after_add};

verus! {

broadcast use vstd::std_specs::hash::group_hash_axioms;

/// One step of the traversal: the edge from `source` to `target` with `label`.
/// A guarded step is taken only when `target` is not a known dependency yet, and
/// then records it as one; an unguarded step leaves the dependencies alone.
pub struct DepStep {
    pub source: Id,
    pub target: Id,
    pub label: EdgeLabel,
    pub guarded: bool,
}

pub open spec fn guarded(source: Id, target: Id, label: EdgeLabel) -> Seq<DepStep> {
    seq![DepStep { source, target, label, guarded: true }]
}

pub open spec fn unguarded(source: Id, target: Id, label: EdgeLabel) -> Seq<DepStep> {
    seq![DepStep { source, target, label, guarded: false }]
}

/// The effect of one step on the known dependencies and the edge list.
pub open spec fn apply_step(
    st: DepStep,
    deps: Set<Id>,
    es: Seq<Edge>,
    index: Map<Id, Item>,
) -> (Set<Id>, Seq<Edge>) {
    let e = Edge { source: st.source, target: st.target, label: st.label };
    if !index.contains_key(st.target) {
        (deps, es)
    } else if st.guarded {
        if deps.contains(st.target) {
            (deps, es)
        } else {
            (deps.insert(st.target), edges_after_add(es, e, index))
        }
    } else {
        (deps, edges_after_add(es, e, index))
    }
}

/// The effect of a sequence of steps, taken in order.
pub open spec fn apply_steps(
    steps: Seq<DepStep>,
    deps: Set<Id>,
    es: Seq<Edge>,
    index: Map<Id, Item>,
) -> (Set<Id>, Seq<Edge>)
    decreases steps.len(),
{
    if steps.len() == 0 {
        (deps, es)
    } else {
        let r = apply_step(steps[0], deps, es, index);
        apply_steps(steps.drop_first(), r.0, r.1, index)
    }
}

/// Steps only add: the known dependencies and the edges before them are kept, the
/// edge list grows at its end, and what they add are items of the index.
pub proof fn lemma_apply_steps_grow(steps: Seq<DepStep>, deps: Set<Id>, es: Seq<Edge>, index: Map<Id, Item>)
    ensures
        deps.subset_of(apply_steps(steps, deps, es, index).0),
        forall|x: Id| #[trigger] apply_steps(steps, deps, es, index).0.contains(x) && !deps.contains(x)
            ==> index.contains_key(x),
        es.is_prefix_of(apply_steps(steps, deps, es, index).1),
        forall|i: int| es.len() <= i < apply_steps(steps, deps, es, index).1.len()
            ==> index.contains_key(#[trigger] apply_steps(steps, deps, es, index).1[i].source)
                && index.contains_key(apply_steps(steps, deps, es, index).1[i].target),
    decreases steps.len(),
{
    if steps.len() > 0 {
        let r = apply_step(steps[0], deps, es, index);
        lemma_apply_steps_grow(steps.drop_first(), r.0, r.1, index);
        let f = apply_steps(steps, deps, es, index);
        assert(es.is_prefix_of(r.1));
        assert(es.is_prefix_of(f.1)) by {
            assert forall|i: int| 0 <= i < es.len() implies f.1[i] == es[i] by {
                assert(r.1[i] == es[i]);
            }
        }
        assert forall|i: int| es.len() <= i < f.1.len()
            implies index.contains_key(#[trigger] f.1[i].source) && index.contains_key(f.1[i].target) by {
            if i < r.1.len() {
                assert(f.1[i] == r.1[i]);
            }
        }
    }
}

pub proof fn lemma_apply_concat(
    a: Seq<DepStep>,
    b: Seq<DepStep>,
    deps: Set<Id>,
    es: Seq<Edge>,
    index: Map<Id, Item>,
)
    ensures
        apply_steps(a + b, deps, es, index) == ({
            let r = apply_steps(a, deps, es, index);
            apply_steps(b, r.0, r.1, index)
        }),
    decreases a.len(),
{
    if a.len() == 0 {
        assert(a + b =~= b);
    } else {
        let r = apply_step(a[0], deps, es, index);
        assert((a + b).drop_first() =~= a.drop_first() + b);
        lemma_apply_concat(a.drop_first(), b, r.0, r.1, index);
    }
}

pub proof fn lemma_apply_single(st: DepStep, deps: Set<Id>, es: Seq<Edge>, index: Map<Id, Item>)
    ensures
        apply_steps(seq![st], deps, es, index) == apply_step(st, deps, es, index),
{
    let r = apply_step(st, deps, es, index);
    assert(seq![st].drop_first() =~= Seq::<DepStep>::empty());
    assert(apply_steps(Seq::<DepStep>::empty(), r.0, r.1, index) == (r.0, r.1));
    assert(seq![st][0] == st);
}

/// The id a type names directly, looking through references, pointers, slices,
/// arrays, patterns and the self type of a qualified path.
pub open spec fn type_id_of(ty: Type) -> Option<Id>
    decreases ty,
{
    match ty {
        Type::ResolvedPath(p) => Some(p.id),
        Type::Slice(inner) => type_id_of(*inner),
        Type::Array { type_, .. } => type_id_of(*type_),
        Type::Pat { type_, .. } => type_id_of(*type_),
        Type::RawPointer { type_, .. } => type_id_of(*type_),
        Type::BorrowedRef { type_, .. } => type_id_of(*type_),
        Type::QualifiedPath { self_type, .. } => type_id_of(*self_type),
        _ => None,
    }
}

/// The id a type names directly, if any: see `type_id_of`.
pub fn get_type_id(ty: &Type) -> (res: Option<Id>)
    ensures
        res == type_id_of(*ty),
    decreases ty,
{
    match ty {
        Type::ResolvedPath(p) => Some(p.id),
        Type::Slice(inner) => get_type_id(inner),
        Type::Array { type_, .. } => get_type_id(type_),
        Type::Pat { type_, .. } => get_type_id(type_),
        Type::RawPointer { type_, .. } => get_type_id(type_),
        Type::BorrowedRef { type_, .. } => get_type_id(type_),
        Type::QualifiedPath { self_type, .. } => get_type_id(self_type),
        _ => None,
    }
}

/// The steps for a type referred to by item `src`, the type itself related to
/// `src` by `label`.
pub open spec fn type_steps(ty: Type, src: Id, label: EdgeLabel) -> Seq<DepStep>
    decreases ty, 1int,
{
    type_head_steps(ty, src, label) + type_body_steps(ty, src, label)
}

/// The step for the id the type names directly, if any.
pub open spec fn type_head_steps(ty: Type, src: Id, label: EdgeLabel) -> Seq<DepStep> {
    match type_id_of(ty) {
        Some(id) => guarded(src, id, label),
        None => Seq::empty(),
    }
}

/// The steps for the parts of a type.
pub open spec fn type_body_steps(ty: Type, src: Id, label: EdgeLabel) -> Seq<DepStep>
    decreases ty, 0int,
{
    match ty {
        Type::ResolvedPath(p) => guarded(src, p.id, label) + match p.args {
            Some(a) => args_steps(*a, src),
            None => Seq::empty(),
        },
        Type::Tuple(ts) => type_list_steps(ts@, 0, src, EdgeLabel::Dependency),
        Type::Slice(inner) => type_steps(*inner, src, EdgeLabel::Dependency),
        Type::Array { type_, .. } => type_steps(*type_, src, EdgeLabel::Dependency),
        Type::Pat { type_, .. } => type_steps(*type_, src, EdgeLabel::Dependency),
        Type::RawPointer { type_, .. } => type_steps(*type_, src, EdgeLabel::Dependency),
        Type::BorrowedRef { type_, .. } => type_steps(*type_, src, EdgeLabel::Dependency),
        Type::QualifiedPath { args, self_type, trait_, .. } => type_steps(*self_type, src, EdgeLabel::Dependency)
            + match trait_ {
                Some(tp) => guarded(src, tp.id, EdgeLabel::AssociatedType),
                None => Seq::empty(),
            } + args_steps(*args, src),
        Type::DynTrait(dt) => poly_list_steps(dt.traits@, 0, src),
        Type::ImplTrait(bounds) => bound_list_steps(bounds@, 0, src, EdgeLabel::ImplTraitBound),
        Type::FunctionPointer(fp) => param_list_steps(fp.generic_params@, 0, src)
            + input_list_steps(fp.sig.inputs@, 0, src, EdgeLabel::SignatureInput)
            + match fp.sig.output {
                Some(o) => type_steps(o, src, EdgeLabel::SignatureOutput),
                None => Seq::empty(),
            },
        _ => Seq::empty(),
    }
}

pub open spec fn type_list_steps(ts: Seq<Type>, i: int, src: Id, label: EdgeLabel) -> Seq<DepStep>
    decreases ts, ts.len() - i,
{
    if 0 <= i < ts.len() {
        type_steps(ts[i], src, label) + type_list_steps(ts, i + 1, src, label)
    } else {
        Seq::empty()
    }
}

pub open spec fn input_list_steps(ts: Seq<(String, Type)>, i: int, src: Id, label: EdgeLabel) -> Seq<DepStep>
    decreases ts, ts.len() - i,
{
    if 0 <= i < ts.len() {
        type_steps(ts[i].1, src, label) + input_list_steps(ts, i + 1, src, label)
    } else {
        Seq::empty()
    }
}

pub open spec fn poly_list_steps(pts: Seq<PolyTrait>, i: int, src: Id) -> Seq<DepStep>
    decreases pts, pts.len() - i,
{
    if 0 <= i < pts.len() {
        guarded(src, pts[i].trait_.id, EdgeLabel::DynTraitBound)
            + param_list_steps(pts[i].generic_params@, 0, src)
            + poly_list_steps(pts, i + 1, src)
    } else {
        Seq::empty()
    }
}

/// The steps for generic arguments used by item `src`.
pub open spec fn args_steps(args: GenericArgs, src: Id) -> Seq<DepStep>
    decreases args, 0int,
{
    match args {
        GenericArgs::AngleBracketed { args, constraints } => arg_list_steps(args@, 0, src)
            + constraint_list_steps(constraints@, 0, src),
        GenericArgs::Parenthesized { inputs, output } => type_list_steps(inputs@, 0, src, EdgeLabel::GenericArgument)
            + match output {
                Some(o) => type_steps(o, src, EdgeLabel::GenericArgument),
                None => Seq::empty(),
            },
        GenericArgs::ReturnTypeNotation => Seq::empty(),
    }
}

pub open spec fn arg_list_steps(args: Seq<GenericArg>, i: int, src: Id) -> Seq<DepStep>
    decreases args, args.len() - i,
{
    if 0 <= i < args.len() {
        (match args[i] {
            GenericArg::Type(t) => type_steps(t, src, EdgeLabel::GenericArgument),
            _ => Seq::empty(),
        }) + arg_list_steps(args, i + 1, src)
    } else {
        Seq::empty()
    }
}

pub open spec fn constraint_list_steps(cs: Seq<AssocItemConstraint>, i: int, src: Id) -> Seq<DepStep>
    decreases cs, cs.len() - i,
{
    if 0 <= i < cs.len() {
        (match cs[i].binding {
            AssocItemConstraintKind::Equality(term) => match term {
                Term::Type(t) => type_steps(t, src, EdgeLabel::AssociatedConstraint),
                Term::Constant(_) => Seq::empty(),
            },
            AssocItemConstraintKind::Constraint(bounds) => bound_list_steps(
                bounds@,
                0,
                src,
                EdgeLabel::AssociatedConstraint,
            ),
        }) + args_steps(cs[i].args, src) + constraint_list_steps(cs, i + 1, src)
    } else {
        Seq::empty()
    }
}

/// The steps for a bound imposed by item `src`, related to it by `label`.
pub open spec fn bound_steps(b: GenericBound, src: Id, label: EdgeLabel) -> Seq<DepStep>
    decreases b, 0int,
{
    match b {
        GenericBound::TraitBound { trait_, generic_params, .. } => guarded(src, trait_.id, label)
            + match trait_.args {
                Some(a) => args_steps(*a, src),
                None => Seq::empty(),
            } + param_list_steps(generic_params@, 0, src),
        _ => Seq::empty(),
    }
}

pub open spec fn bound_list_steps(bs: Seq<GenericBound>, i: int, src: Id, label: EdgeLabel) -> Seq<DepStep>
    decreases bs, bs.len() - i,
{
    if 0 <= i < bs.len() {
        bound_steps(bs[i], src, label) + bound_list_steps(bs, i + 1, src, label)
    } else {
        Seq::empty()
    }
}

/// The steps for a generic parameter defined by item `src`.
pub open spec fn param_steps(pd: GenericParamDef, src: Id) -> Seq<DepStep>
    decreases pd, 0int,
{
    match pd.kind {
        GenericParamDefKind::Lifetime { .. } => Seq::empty(),
        GenericParamDefKind::Type { bounds, default, .. } => bound_list_steps(bounds@, 0, src, EdgeLabel::ParamBound)
            + match default {
                Some(t) => type_steps(t, src, EdgeLabel::ParamType),
                None => Seq::empty(),
            },
        GenericParamDefKind::Const { type_, .. } => type_steps(type_, src, EdgeLabel::ParamType),
    }
}

pub open spec fn param_list_steps(ps: Seq<GenericParamDef>, i: int, src: Id) -> Seq<DepStep>
    decreases ps, ps.len() - i,
{
    if 0 <= i < ps.len() {
        param_steps(ps[i], src) + param_list_steps(ps, i + 1, src)
    } else {
        Seq::empty()
    }
}

pub open spec fn pred_list_steps(ps: Seq<WherePredicate>, i: int, src: Id) -> Seq<DepStep>
    decreases ps, ps.len() - i,
{
    if 0 <= i < ps.len() {
        (match ps[i] {
            WherePredicate::BoundPredicate { type_, bounds, generic_params } => type_steps(
                type_,
                src,
                EdgeLabel::PredicateType,
            ) + bound_list_steps(bounds@, 0, src, EdgeLabel::PredicateBound)
                + param_list_steps(generic_params@, 0, src),
            WherePredicate::LifetimePredicate { .. } => Seq::empty(),
            WherePredicate::EqPredicate { lhs, rhs } => type_steps(lhs, src, EdgeLabel::PredicateEqLhs)
                + match rhs {
                    Term::Type(t) => type_steps(t, src, EdgeLabel::PredicateEqRhs),
                    Term::Constant(_) => Seq::empty(),
                },
        }) + pred_list_steps(ps, i + 1, src)
    } else {
        Seq::empty()
    }
}

/// The steps for the generics of item `src`: its parameters, then its where clause.
pub open spec fn generics_steps(g: Generics, src: Id) -> Seq<DepStep> {
    param_list_steps(g.params@, 0, src) + pred_list_steps(g.where_predicates@, 0, src)
}

/// The state of a traversal: known dependencies and graph, after `steps` from
/// (`deps0`, `es0`).
pub open spec fn reached(
    steps: Seq<DepStep>,
    deps0: Set<Id>,
    es0: Seq<Edge>,
    index: Map<Id, Item>,
    deps: Set<Id>,
    es: Seq<Edge>,
) -> bool {
    apply_steps(steps, deps0, es0, index) == (deps, es)
}

/// Takes one guarded step: records `target` as a dependency and adds the edge,
/// when `target` is an item of `krate` not yet recorded.
fn guarded_step(
    source: Id,
    target: Id,
    label: EdgeLabel,
    krate: &Crate,
    dependencies: &mut HashSet<Id>,
    graph: &mut IdGraph,
)
    requires
        old(graph).wf(),
    ensures
        final(graph).wf(),
        reached(guarded(source, target, label), old(dependencies)@, old(graph).edge_seq(),
            krate.index_map(), final(dependencies)@, final(graph).edge_seq()),
{
    let ghost st = DepStep { source, target, label, guarded: true };
    proof {
        lemma_apply_single(st, dependencies@, graph.edge_seq(), krate.index_map());
        assert(guarded(source, target, label) == seq![st]);
    }
    let ghost r = apply_step(st, dependencies@, graph.edge_seq(), krate.index_map());
    let ghost d0 = dependencies@;
    if krate.contains(target) {
        if dependencies.insert(target) {
            assert(!d0.contains(target));
            assert(dependencies@ == d0.insert(target));
            graph.add_edge(source, target, label, krate);
            assert(r == (dependencies@, graph.edge_seq()));
        } else {
            assert(d0.contains(target));
            assert(r == (dependencies@, graph.edge_seq()));
        }
    }
}

/// Records the dependencies of item `source_id` through type `ty`, which relates
/// to it by `edge_label`: see `type_steps`.
pub fn find_type_dependencies(
    ty: &Type,
    source_id: Id,
    krate: &Crate,
    dependencies: &mut HashSet<Id>,
    graph: &mut IdGraph,
    edge_label: EdgeLabel,
)
    requires
        old(graph).wf(),
    ensures
        final(graph).wf(),
        reached(type_steps(*ty, source_id, edge_label), old(dependencies)@, old(graph).edge_seq(),
            krate.index_map(), final(dependencies)@, final(graph).edge_seq()),
    decreases ty,
{
    let ghost d0 = dependencies@;
    let ghost e0 = graph.edge_seq();
    let ghost idx = krate.index_map();
    let ghost head = type_head_steps(*ty, source_id, edge_label);
    match get_type_id(ty) {
        Some(id) => {
            guarded_step(source_id, id, edge_label, krate, dependencies, graph);
        },
        None => {},
    }
    let ghost d1 = dependencies@;
    let ghost e1 = graph.edge_seq();
    assert(apply_steps(head, d0, e0, idx) == (d1, e1));
    let ghost rest = type_body_steps(*ty, source_id, edge_label);
    proof {
        lemma_apply_concat(head, rest, d0, e0, idx);
    }
    match ty {
        Type::ResolvedPath(p) => {
            guarded_step(source_id, p.id, edge_label, krate, dependencies, graph);
            let ghost d2 = dependencies@;
            let ghost e2 = graph.edge_seq();
            match &p.args {
                Some(a) => {
                    find_generic_args_dependencies(a, source_id, krate, dependencies, graph);
                },
                None => {
                    proof {
                        assert(apply_steps(Seq::<DepStep>::empty(), d2, e2, idx) == (d2, e2));
                    }
                },
            }
            proof {
                let g = guarded(source_id, p.id, edge_label);
                let tail = match &p.args { Some(a) => args_steps(**a, source_id), None => Seq::<DepStep>::empty() };
                assert(rest =~= g + tail);
                assert(apply_steps(g, d1, e1, idx) == (d2, e2));
                assert(apply_steps(tail, d2, e2, idx) == (dependencies@, graph.edge_seq()));
                assert(apply_steps(head, d0, e0, idx) == (d1, e1));
                lemma_apply_concat(g, tail, d1, e1, idx);
                lemma_apply_concat(g, tail, d1, e1, idx);
            }
        },
        Type::Tuple(inner_types) => {
            type_list_dependencies(inner_types, source_id, krate, dependencies, graph, EdgeLabel::Dependency);
        },
        Type::Slice(inner) => {
            find_type_dependencies(inner, source_id, krate, dependencies, graph, EdgeLabel::Dependency);
        },
        Type::Array { type_, .. } => {
            find_type_dependencies(type_, source_id, krate, dependencies, graph, EdgeLabel::Dependency);
        },
        Type::Pat { type_, .. } => {
            find_type_dependencies(type_, source_id, krate, dependencies, graph, EdgeLabel::Dependency);
        },
        Type::RawPointer { type_, .. } => {
            find_type_dependencies(type_, source_id, krate, dependencies, graph, EdgeLabel::Dependency);
        },
        Type::BorrowedRef { type_, .. } => {
            find_type_dependencies(type_, source_id, krate, dependencies, graph, EdgeLabel::Dependency);
        },
        Type::QualifiedPath { args, self_type, trait_, .. } => {
            find_type_dependencies(self_type, source_id, krate, dependencies, graph, EdgeLabel::Dependency);
            let ghost d2 = dependencies@;
            let ghost e2 = graph.edge_seq();
            match trait_ {
                Some(trait_path) => {
                    guarded_step(source_id, trait_path.id, EdgeLabel::AssociatedType, krate, dependencies, graph);
                },
                None => {
                    proof {
                        assert(apply_steps(Seq::<DepStep>::empty(), d2, e2, idx) == (d2, e2));
                    }
                },
            }
            let ghost d3 = dependencies@;
            let ghost e3 = graph.edge_seq();
            find_generic_args_dependencies(args, source_id, krate, dependencies, graph);
            proof {
                let a = type_steps(**self_type, source_id, EdgeLabel::Dependency);
                let b = match trait_ {
                    Some(tp) => guarded(source_id, tp.id, EdgeLabel::AssociatedType),
                    None => Seq::<DepStep>::empty(),
                };
                let c = args_steps(**args, source_id);
                assert(rest =~= a + b + c);
                lemma_apply_concat(a, b, d1, e1, idx);
                lemma_apply_concat(a + b, c, d1, e1, idx);
            }
        },
        Type::DynTrait(dyn_trait) => {
            poly_list_dependencies(&dyn_trait.traits, source_id, krate, dependencies, graph);
        },
        Type::ImplTrait(bounds) => {
            bound_list_dependencies(bounds, source_id, krate, dependencies, graph, EdgeLabel::ImplTraitBound);
        },
        Type::FunctionPointer(fp) => {
            param_list_dependencies(&fp.generic_params, source_id, krate, dependencies, graph);
            let ghost d2 = dependencies@;
            let ghost e2 = graph.edge_seq();
            input_list_dependencies(&fp.sig.inputs, source_id, krate, dependencies, graph, EdgeLabel::SignatureInput);
            let ghost d3 = dependencies@;
            let ghost e3 = graph.edge_seq();
            match &fp.sig.output {
                Some(output) => {
                    find_type_dependencies(output, source_id, krate, dependencies, graph, EdgeLabel::SignatureOutput);
                },
                None => {
                    proof {
                        assert(apply_steps(Seq::<DepStep>::empty(), d3, e3, idx) == (d3, e3));
                    }
                },
            }
            proof {
                let a = param_list_steps(fp.generic_params@, 0, source_id);
                let b = input_list_steps(fp.sig.inputs@, 0, source_id, EdgeLabel::SignatureInput);
                let c = match &fp.sig.output {
                    Some(o) => type_steps(*o, source_id, EdgeLabel::SignatureOutput),
                    None => Seq::<DepStep>::empty(),
                };
                assert(rest =~= a + b + c);
                lemma_apply_concat(a, b, d1, e1, idx);
                lemma_apply_concat(a + b, c, d1, e1, idx);
            }
        },
        _ => {
            proof {
                assert(rest =~= Seq::<DepStep>::empty());
                assert(apply_steps(Seq::<DepStep>::empty(), d1, e1, idx) == (d1, e1));
            }
        },
    }
}

fn type_list_dependencies(
    ts: &Vec<Type>,
    source_id: Id,
    krate: &Crate,
    dependencies: &mut HashSet<Id>,
    graph: &mut IdGraph,
    edge_label: EdgeLabel,
)
    requires
        old(graph).wf(),
    ensures
        final(graph).wf(),
        reached(type_list_steps(ts@, 0, source_id, edge_label), old(dependencies)@, old(graph).edge_seq(),
            krate.index_map(), final(dependencies)@, final(graph).edge_seq()),
    decreases ts,
{
    let ghost goal = apply_steps(type_list_steps(ts@, 0, source_id, edge_label), dependencies@, graph.edge_seq(), krate.index_map());
    let n = ts.len();
    for k in 0..n
        invariant
            n == ts@.len(),
            graph.wf(),
            goal == apply_steps(type_list_steps(ts@, k as int, source_id, edge_label), dependencies@, graph.edge_seq(), krate.index_map()),
    {
        proof {
            lemma_apply_concat(type_steps(ts@[k as int], source_id, edge_label), type_list_steps(ts@, k + 1, source_id, edge_label),
                dependencies@, graph.edge_seq(), krate.index_map());
        }
        find_type_dependencies(&ts[k], source_id, krate, dependencies, graph, edge_label);
    }
}

fn input_list_dependencies(
    ts: &Vec<(String, Type)>,
    source_id: Id,
    krate: &Crate,
    dependencies: &mut HashSet<Id>,
    graph: &mut IdGraph,
    edge_label: EdgeLabel,
)
    requires
        old(graph).wf(),
    ensures
        final(graph).wf(),
        reached(input_list_steps(ts@, 0, source_id, edge_label), old(dependencies)@, old(graph).edge_seq(),
            krate.index_map(), final(dependencies)@, final(graph).edge_seq()),
    decreases ts,
{
    let ghost goal = apply_steps(input_list_steps(ts@, 0, source_id, edge_label), dependencies@, graph.edge_seq(), krate.index_map());
    let n = ts.len();
    for k in 0..n
        invariant
            n == ts@.len(),
            graph.wf(),
            goal == apply_steps(input_list_steps(ts@, k as int, source_id, edge_label), dependencies@, graph.edge_seq(), krate.index_map()),
    {
        proof {
            lemma_apply_concat(type_steps(ts@[k as int].1, source_id, edge_label), input_list_steps(ts@, k + 1, source_id, edge_label),
                dependencies@, graph.edge_seq(), krate.index_map());
        }
        find_type_dependencies(&ts[k].1, source_id, krate, dependencies, graph, edge_label);
    }
}

fn poly_list_dependencies(
    pts: &Vec<PolyTrait>,
    source_id: Id,
    krate: &Crate,
    dependencies: &mut HashSet<Id>,
    graph: &mut IdGraph,
)
    requires
        old(graph).wf(),
    ensures
        final(graph).wf(),
        reached(poly_list_steps(pts@, 0, source_id), old(dependencies)@, old(graph).edge_seq(),
            krate.index_map(), final(dependencies)@, final(graph).edge_seq()),
    decreases pts,
{
    let ghost goal = apply_steps(poly_list_steps(pts@, 0, source_id), dependencies@, graph.edge_seq(), krate.index_map());
    let n = pts.len();
    for k in 0..n
        invariant
            n == pts@.len(),
            graph.wf(),
            goal == apply_steps(poly_list_steps(pts@, k as int, source_id), dependencies@, graph.edge_seq(), krate.index_map()),
    {
        let ghost d0 = dependencies@;
        let ghost e0 = graph.edge_seq();
        let ghost a = guarded(source_id, pts@[k as int].trait_.id, EdgeLabel::DynTraitBound);
        let ghost b = param_list_steps(pts@[k as int].generic_params@, 0, source_id);
        let ghost c = poly_list_steps(pts@, k + 1, source_id);
        proof {
            lemma_apply_concat(a + b, c, d0, e0, krate.index_map());
            lemma_apply_concat(a, b, d0, e0, krate.index_map());
        }
        guarded_step(source_id, pts[k].trait_.id, EdgeLabel::DynTraitBound, krate, dependencies, graph);
        param_list_dependencies(&pts[k].generic_params, source_id, krate, dependencies, graph);
    }
}

/// Records the dependencies of item `source_id` through generic arguments: see
/// `args_steps`.
pub fn find_generic_args_dependencies(
    args: &GenericArgs,
    source_id: Id,
    krate: &Crate,
    dependencies: &mut HashSet<Id>,
    graph: &mut IdGraph,
)
    requires
        old(graph).wf(),
    ensures
        final(graph).wf(),
        reached(args_steps(*args, source_id), old(dependencies)@, old(graph).edge_seq(),
            krate.index_map(), final(dependencies)@, final(graph).edge_seq()),
    decreases args,
{
    let ghost d0 = dependencies@;
    let ghost e0 = graph.edge_seq();
    let ghost idx = krate.index_map();
    match args {
        GenericArgs::AngleBracketed { args, constraints } => {
            proof {
                lemma_apply_concat(arg_list_steps(args@, 0, source_id), constraint_list_steps(constraints@, 0, source_id), d0, e0, idx);
            }
            arg_list_dependencies(args, source_id, krate, dependencies, graph);
            constraint_list_dependencies(constraints, source_id, krate, dependencies, graph);
        },
        GenericArgs::Parenthesized { inputs, output } => {
            type_list_dependencies(inputs, source_id, krate, dependencies, graph, EdgeLabel::GenericArgument);
            let ghost d1 = dependencies@;
            let ghost e1 = graph.edge_seq();
            match output {
                Some(output_type) => {
                    find_type_dependencies(output_type, source_id, krate, dependencies, graph, EdgeLabel::GenericArgument);
                },
                None => {
                    proof {
                        assert(apply_steps(Seq::<DepStep>::empty(), d1, e1, idx) == (d1, e1));
                    }
                },
            }
            proof {
                let b = match output {
                    Some(o) => type_steps(*o, source_id, EdgeLabel::GenericArgument),
                    None => Seq::<DepStep>::empty(),
                };
                lemma_apply_concat(type_list_steps(inputs@, 0, source_id, EdgeLabel::GenericArgument), b, d0, e0, idx);
            }
        },
        GenericArgs::ReturnTypeNotation => {
            proof {
                assert(apply_steps(Seq::<DepStep>::empty(), d0, e0, idx) == (d0, e0));
            }
        },
    }
}

fn arg_list_dependencies(
    args: &Vec<GenericArg>,
    source_id: Id,
    krate: &Crate,
    dependencies: &mut HashSet<Id>,
    graph: &mut IdGraph,
)
    requires
        old(graph).wf(),
    ensures
        final(graph).wf(),
        reached(arg_list_steps(args@, 0, source_id), old(dependencies)@, old(graph).edge_seq(),
            krate.index_map(), final(dependencies)@, final(graph).edge_seq()),
    decreases args,
{
    let ghost goal = apply_steps(arg_list_steps(args@, 0, source_id), dependencies@, graph.edge_seq(), krate.index_map());
    let n = args.len();
    for k in 0..n
        invariant
            n == args@.len(),
            graph.wf(),
            goal == apply_steps(arg_list_steps(args@, k as int, source_id), dependencies@, graph.edge_seq(), krate.index_map()),
    {
        let ghost d0 = dependencies@;
        let ghost e0 = graph.edge_seq();
        let ghost a = match args@[k as int] {
            GenericArg::Type(t) => type_steps(t, source_id, EdgeLabel::GenericArgument),
            _ => Seq::<DepStep>::empty(),
        };
        proof {
            lemma_apply_concat(a, arg_list_steps(args@, k + 1, source_id), d0, e0, krate.index_map());
        }
        match &args[k] {
            GenericArg::Type(t) => {
                find_type_dependencies(t, source_id, krate, dependencies, graph, EdgeLabel::GenericArgument);
            },
            _ => {
                proof {
                    assert(apply_steps(Seq::<DepStep>::empty(), d0, e0, krate.index_map()) == (d0, e0));
                }
            },
        }
    }
}

fn constraint_list_dependencies(
    cs: &Vec<AssocItemConstraint>,
    source_id: Id,
    krate: &Crate,
    dependencies: &mut HashSet<Id>,
    graph: &mut IdGraph,
)
    requires
        old(graph).wf(),
    ensures
        final(graph).wf(),
        reached(constraint_list_steps(cs@, 0, source_id), old(dependencies)@, old(graph).edge_seq(),
            krate.index_map(), final(dependencies)@, final(graph).edge_seq()),
    decreases cs,
{
    let ghost goal = apply_steps(constraint_list_steps(cs@, 0, source_id), dependencies@, graph.edge_seq(), krate.index_map());
    let ghost idx = krate.index_map();
    let n = cs.len();
    for k in 0..n
        invariant
            n == cs@.len(),
            graph.wf(),
            idx == krate.index_map(),
            goal == apply_steps(constraint_list_steps(cs@, k as int, source_id), dependencies@, graph.edge_seq(), idx),
    {
        let ghost d0 = dependencies@;
        let ghost e0 = graph.edge_seq();
        let ghost a = match cs@[k as int].binding {
            AssocItemConstraintKind::Equality(term) => match term {
                Term::Type(t) => type_steps(t, source_id, EdgeLabel::AssociatedConstraint),
                Term::Constant(_) => Seq::<DepStep>::empty(),
            },
            AssocItemConstraintKind::Constraint(bounds) => bound_list_steps(bounds@, 0, source_id, EdgeLabel::AssociatedConstraint),
        };
        let ghost b = args_steps(cs@[k as int].args, source_id);
        let ghost c = constraint_list_steps(cs@, k + 1, source_id);
        proof {
            lemma_apply_concat(a + b, c, d0, e0, idx);
            lemma_apply_concat(a, b, d0, e0, idx);
        }
        match &cs[k].binding {
            AssocItemConstraintKind::Equality(term) => {
                match term {
                    Term::Type(t) => {
                        find_type_dependencies(t, source_id, krate, dependencies, graph, EdgeLabel::AssociatedConstraint);
                    },
                    Term::Constant(_) => {
                        proof {
                            assert(apply_steps(Seq::<DepStep>::empty(), d0, e0, idx) == (d0, e0));
                        }
                    },
                }
            },
            AssocItemConstraintKind::Constraint(bounds) => {
                bound_list_dependencies(bounds, source_id, krate, dependencies, graph, EdgeLabel::AssociatedConstraint);
            },
        }
        find_generic_args_dependencies(&cs[k].args, source_id, krate, dependencies, graph);
    }
}

/// Records the dependencies of item `source_id` through a bound, which relates to
/// it by `edge_label`: see `bound_steps`.
pub fn find_generic_bound_dependencies(
    bound: &GenericBound,
    source_id: Id,
    krate: &Crate,
    dependencies: &mut HashSet<Id>,
    graph: &mut IdGraph,
    edge_label: EdgeLabel,
)
    requires
        old(graph).wf(),
    ensures
        final(graph).wf(),
        reached(bound_steps(*bound, source_id, edge_label), old(dependencies)@, old(graph).edge_seq(),
            krate.index_map(), final(dependencies)@, final(graph).edge_seq()),
    decreases bound,
{
    let ghost d0 = dependencies@;
    let ghost e0 = graph.edge_seq();
    let ghost idx = krate.index_map();
    match bound {
        GenericBound::TraitBound { trait_, generic_params, .. } => {
            guarded_step(source_id, trait_.id, edge_label, krate, dependencies, graph);
            let ghost d1 = dependencies@;
            let ghost e1 = graph.edge_seq();
            match &trait_.args {
                Some(args) => {
                    find_generic_args_dependencies(args, source_id, krate, dependencies, graph);
                },
                None => {
                    proof {
                        assert(apply_steps(Seq::<DepStep>::empty(), d1, e1, idx) == (d1, e1));
                    }
                },
            }
            param_list_dependencies(generic_params, source_id, krate, dependencies, graph);
            proof {
                let a = guarded(source_id, trait_.id, edge_label);
                let b = match &trait_.args {
                    Some(x) => args_steps(**x, source_id),
                    None => Seq::<DepStep>::empty(),
                };
                let c = param_list_steps(generic_params@, 0, source_id);
                lemma_apply_concat(a, b, d0, e0, idx);
                lemma_apply_concat(a + b, c, d0, e0, idx);
            }
        },
        _ => {
            proof {
                assert(apply_steps(Seq::<DepStep>::empty(), d0, e0, idx) == (d0, e0));
            }
        },
    }
}

fn bound_list_dependencies(
    bs: &Vec<GenericBound>,
    source_id: Id,
    krate: &Crate,
    dependencies: &mut HashSet<Id>,
    graph: &mut IdGraph,
    edge_label: EdgeLabel,
)
    requires
        old(graph).wf(),
    ensures
        final(graph).wf(),
        reached(bound_list_steps(bs@, 0, source_id, edge_label), old(dependencies)@, old(graph).edge_seq(),
            krate.index_map(), final(dependencies)@, final(graph).edge_seq()),
    decreases bs,
{
    let ghost goal = apply_steps(bound_list_steps(bs@, 0, source_id, edge_label), dependencies@, graph.edge_seq(), krate.index_map());
    let n = bs.len();
    for k in 0..n
        invariant
            n == bs@.len(),
            graph.wf(),
            goal == apply_steps(bound_list_steps(bs@, k as int, source_id, edge_label), dependencies@, graph.edge_seq(), krate.index_map()),
    {
        proof {
            lemma_apply_concat(bound_steps(bs@[k as int], source_id, edge_label), bound_list_steps(bs@, k + 1, source_id, edge_label),
                dependencies@, graph.edge_seq(), krate.index_map());
        }
        find_generic_bound_dependencies(&bs[k], source_id, krate, dependencies, graph, edge_label);
    }
}

/// Records the dependencies of item `source_id` through a generic parameter it
/// defines: see `param_steps`.
pub fn find_generic_param_def_dependencies(
    param_def: &GenericParamDef,
    source_id: Id,
    krate: &Crate,
    dependencies: &mut HashSet<Id>,
    graph: &mut IdGraph,
)
    requires
        old(graph).wf(),
    ensures
        final(graph).wf(),
        reached(param_steps(*param_def, source_id), old(dependencies)@, old(graph).edge_seq(),
            krate.index_map(), final(dependencies)@, final(graph).edge_seq()),
    decreases param_def,
{
    let ghost d0 = dependencies@;
    let ghost e0 = graph.edge_seq();
    let ghost idx = krate.index_map();
    match &param_def.kind {
        GenericParamDefKind::Lifetime { .. } => {
            proof {
                assert(apply_steps(Seq::<DepStep>::empty(), d0, e0, idx) == (d0, e0));
            }
        },
        GenericParamDefKind::Type { bounds, default, .. } => {
            bound_list_dependencies(bounds, source_id, krate, dependencies, graph, EdgeLabel::ParamBound);
            let ghost d1 = dependencies@;
            let ghost e1 = graph.edge_seq();
            match default {
                Some(ty) => {
                    find_type_dependencies(ty, source_id, krate, dependencies, graph, EdgeLabel::ParamType);
                },
                None => {
                    proof {
                        assert(apply_steps(Seq::<DepStep>::empty(), d1, e1, idx) == (d1, e1));
                    }
                },
            }
            proof {
                let b = match default {
                    Some(t) => type_steps(*t, source_id, EdgeLabel::ParamType),
                    None => Seq::<DepStep>::empty(),
                };
                lemma_apply_concat(bound_list_steps(bounds@, 0, source_id, EdgeLabel::ParamBound), b, d0, e0, idx);
            }
        },
        GenericParamDefKind::Const { type_, .. } => {
            find_type_dependencies(type_, source_id, krate, dependencies, graph, EdgeLabel::ParamType);
        },
    }
}

fn param_list_dependencies(
    ps: &Vec<GenericParamDef>,
    source_id: Id,
    krate: &Crate,
    dependencies: &mut HashSet<Id>,
    graph: &mut IdGraph,
)
    requires
        old(graph).wf(),
    ensures
        final(graph).wf(),
        reached(param_list_steps(ps@, 0, source_id), old(dependencies)@, old(graph).edge_seq(),
            krate.index_map(), final(dependencies)@, final(graph).edge_seq()),
    decreases ps,
{
    let ghost goal = apply_steps(param_list_steps(ps@, 0, source_id), dependencies@, graph.edge_seq(), krate.index_map());
    let n = ps.len();
    for k in 0..n
        invariant
            n == ps@.len(),
            graph.wf(),
            goal == apply_steps(param_list_steps(ps@, k as int, source_id), dependencies@, graph.edge_seq(), krate.index_map()),
    {
        proof {
            lemma_apply_concat(param_steps(ps@[k as int], source_id), param_list_steps(ps@, k + 1, source_id),
                dependencies@, graph.edge_seq(), krate.index_map());
        }
        find_generic_param_def_dependencies(&ps[k], source_id, krate, dependencies, graph);
    }
}

fn pred_list_dependencies(
    ps: &Vec<WherePredicate>,
    source_id: Id,
    krate: &Crate,
    dependencies: &mut HashSet<Id>,
    graph: &mut IdGraph,
)
    requires
        old(graph).wf(),
    ensures
        final(graph).wf(),
        reached(pred_list_steps(ps@, 0, source_id), old(dependencies)@, old(graph).edge_seq(),
            krate.index_map(), final(dependencies)@, final(graph).edge_seq()),
    decreases ps,
{
    let ghost goal = apply_steps(pred_list_steps(ps@, 0, source_id), dependencies@, graph.edge_seq(), krate.index_map());
    let ghost idx = krate.index_map();
    let n = ps.len();
    for k in 0..n
        invariant
            n == ps@.len(),
            graph.wf(),
            idx == krate.index_map(),
            goal == apply_steps(pred_list_steps(ps@, k as int, source_id), dependencies@, graph.edge_seq(), idx),
    {
        let ghost d0 = dependencies@;
        let ghost e0 = graph.edge_seq();
        let ghost c = pred_list_steps(ps@, k + 1, source_id);
        match &ps[k] {
            WherePredicate::BoundPredicate { type_, bounds, generic_params } => {
                proof {
                    let a = type_steps(*type_, source_id, EdgeLabel::PredicateType);
                    let b = bound_list_steps(bounds@, 0, source_id, EdgeLabel::PredicateBound);
                    let p = param_list_steps(generic_params@, 0, source_id);
                    lemma_apply_concat(a + b + p, c, d0, e0, idx);
                    lemma_apply_concat(a + b, p, d0, e0, idx);
                    lemma_apply_concat(a, b, d0, e0, idx);
                }
                find_type_dependencies(type_, source_id, krate, dependencies, graph, EdgeLabel::PredicateType);
                bound_list_dependencies(bounds, source_id, krate, dependencies, graph, EdgeLabel::PredicateBound);
                param_list_dependencies(generic_params, source_id, krate, dependencies, graph);
            },
            WherePredicate::LifetimePredicate { .. } => {
                proof {
                    lemma_apply_concat(Seq::<DepStep>::empty(), c, d0, e0, idx);
                    assert(Seq::<DepStep>::empty() + c =~= c);
                }
            },
            WherePredicate::EqPredicate { lhs, rhs } => {
                let ghost b = match rhs {
                    Term::Type(t) => type_steps(*t, source_id, EdgeLabel::PredicateEqRhs),
                    Term::Constant(_) => Seq::<DepStep>::empty(),
                };
                proof {
                    let a = type_steps(*lhs, source_id, EdgeLabel::PredicateEqLhs);
                    lemma_apply_concat(a + b, c, d0, e0, idx);
                    lemma_apply_concat(a, b, d0, e0, idx);
                }
                find_type_dependencies(lhs, source_id, krate, dependencies, graph, EdgeLabel::PredicateEqLhs);
                let ghost d1 = dependencies@;
                let ghost e1 = graph.edge_seq();
                match rhs {
                    Term::Type(t) => {
                        find_type_dependencies(t, source_id, krate, dependencies, graph, EdgeLabel::PredicateEqRhs);
                    },
                    Term::Constant(_) => {
                        proof {
                            assert(apply_steps(Seq::<DepStep>::empty(), d1, e1, idx) == (d1, e1));
                        }
                    },
                }
            },
        }
    }
}

/// Records the dependencies of item `source_id` through its generics: see
/// `generics_steps`.
pub fn find_generics_dependencies(
    generics: &Generics,
    source_id: Id,
    krate: &Crate,
    dependencies: &mut HashSet<Id>,
    graph: &mut IdGraph,
)
    requires
        old(graph).wf(),
    ensures
        final(graph).wf(),
        reached(generics_steps(*generics, source_id), old(dependencies)@, old(graph).edge_seq(),
            krate.index_map(), final(dependencies)@, final(graph).edge_seq()),
{
    proof {
        lemma_apply_concat(param_list_steps(generics.params@, 0, source_id), pred_list_steps(generics.where_predicates@, 0, source_id),
            dependencies@, graph.edge_seq(), krate.index_map());
    }
    param_list_dependencies(&generics.params, source_id, krate, dependencies, graph);
    pred_list_dependencies(&generics.where_predicates, source_id, krate, dependencies, graph);
}

/// Guarded steps from `src` to each id of `ids` from position `i` on.
pub open spec fn guarded_list_steps(ids: Seq<Id>, i: int, src: Id, label: EdgeLabel) -> Seq<DepStep>
    decreases ids.len() - i,
{
    if 0 <= i < ids.len() {
        guarded(src, ids[i], label) + guarded_list_steps(ids, i + 1, src, label)
    } else {
        Seq::empty()
    }
}

/// Unguarded steps from `src` to each id of `ids` from position `i` on.
pub open spec fn unguarded_list_steps(ids: Seq<Id>, i: int, src: Id, label: EdgeLabel) -> Seq<DepStep>
    decreases ids.len() - i,
{
    if 0 <= i < ids.len() {
        unguarded(src, ids[i], label) + unguarded_list_steps(ids, i + 1, src, label)
    } else {
        Seq::empty()
    }
}

/// Guarded steps from `src` to each linked item, from position `i` on.
pub open spec fn link_list_steps(links: Seq<(String, Id)>, i: int, src: Id) -> Seq<DepStep>
    decreases links.len() - i,
{
    if 0 <= i < links.len() {
        guarded(src, links[i].1, EdgeLabel::IntraDocLink) + link_list_steps(links, i + 1, src)
    } else {
        Seq::empty()
    }
}

/// The steps for a field of item `src`: the field itself, then, when it is an item of
/// the crate holding a type, the field's type as a dependency of the field.
pub open spec fn field_steps(index: Map<Id, Item>, src: Id, field_id: Id, label: EdgeLabel) -> Seq<DepStep> {
    guarded(src, field_id, label) + (if index.contains_key(field_id) {
        match index[field_id].inner {
            ItemEnum::StructField(ty) => type_steps(ty, field_id, EdgeLabel::FieldType),
            _ => Seq::empty(),
        }
    } else {
        Seq::empty()
    })
}

pub open spec fn field_list_steps(index: Map<Id, Item>, fields: Seq<Id>, i: int, src: Id, label: EdgeLabel) -> Seq<DepStep>
    decreases fields.len() - i,
{
    if 0 <= i < fields.len() {
        field_steps(index, src, fields[i], label) + field_list_steps(index, fields, i + 1, src, label)
    } else {
        Seq::empty()
    }
}

pub open spec fn opt_field_list_steps(
    index: Map<Id, Item>,
    fields: Seq<Option<Id>>,
    i: int,
    src: Id,
    label: EdgeLabel,
) -> Seq<DepStep>
    decreases fields.len() - i,
{
    if 0 <= i < fields.len() {
        (match fields[i] {
            Some(f) => field_steps(index, src, f, label),
            None => Seq::empty(),
        }) + opt_field_list_steps(index, fields, i + 1, src, label)
    } else {
        Seq::empty()
    }
}

/// The steps for the item's own parts, by its kind.
pub open spec fn item_kind_steps(index: Map<Id, Item>, src: Id, inner: ItemEnum) -> Seq<DepStep> {
    match inner {
        ItemEnum::Module(m) => unguarded_list_steps(m.items@, 0, src, EdgeLabel::Contains),
        ItemEnum::Use(u) => match u.id {
            Some(t) => guarded(src, t, EdgeLabel::UseTarget),
            None => Seq::empty(),
        },
        ItemEnum::Struct(st) => guarded_list_steps(st.impls@, 0, src, EdgeLabel::ImplFor)
            + generics_steps(st.generics, src) + (match st.kind {
                StructKind::Plain { fields, .. } => field_list_steps(index, fields@, 0, src, EdgeLabel::StructField),
                StructKind::Tuple(fields) => opt_field_list_steps(index, fields@, 0, src, EdgeLabel::StructField),
                StructKind::Unit => Seq::empty(),
            }),
        ItemEnum::Enum(e) => guarded_list_steps(e.variants@, 0, src, EdgeLabel::EnumVariant)
            + guarded_list_steps(e.impls@, 0, src, EdgeLabel::ImplFor) + generics_steps(e.generics, src),
        ItemEnum::Variant(v) => match v.kind {
            VariantKind::Plain => Seq::empty(),
            VariantKind::Tuple(fields) => opt_field_list_steps(index, fields@, 0, src, EdgeLabel::VariantField),
            VariantKind::Struct { fields, .. } => field_list_steps(index, fields@, 0, src, EdgeLabel::VariantField),
        },
        ItemEnum::Function(f) => generics_steps(f.generics, src)
            + input_list_steps(f.sig.inputs@, 0, src, EdgeLabel::SignatureInput) + (match f.sig.output {
                Some(o) => type_steps(o, src, EdgeLabel::SignatureOutput),
                None => Seq::empty(),
            }),
        ItemEnum::Trait(t) => guarded_list_steps(t.items@, 0, src, EdgeLabel::TraitItem)
            + generics_steps(t.generics, src) + bound_list_steps(t.bounds@, 0, src, EdgeLabel::SuperTrait)
            + guarded_list_steps(t.implementations@, 0, src, EdgeLabel::Implements),
        ItemEnum::Impl(imp) => guarded_list_steps(imp.items@, 0, src, EdgeLabel::ImplItem) + (match imp.trait_ {
            Some(tp) => guarded(src, tp.id, EdgeLabel::Implements) + (match tp.args {
                Some(a) => args_steps(*a, src),
                None => Seq::empty(),
            }),
            None => Seq::empty(),
        }) + type_steps(imp.for_, src, EdgeLabel::ImplFor) + generics_steps(imp.generics, src),
        ItemEnum::TypeAlias(ta) => type_steps(ta.type_, src, EdgeLabel::AliasTo) + generics_steps(ta.generics, src),
        ItemEnum::Constant { type_, .. } => type_steps(type_, src, EdgeLabel::ReferencesType),
        ItemEnum::Static(st) => type_steps(st.type_, src, EdgeLabel::ReferencesType),
        ItemEnum::AssocConst { type_, .. } => type_steps(type_, src, EdgeLabel::ReferencesType),
        ItemEnum::AssocType { generics, bounds, type_ } => generics_steps(generics, src)
            + bound_list_steps(bounds@, 0, src, EdgeLabel::TraitBound) + (match type_ {
                Some(t) => type_steps(t, src, EdgeLabel::ReferencesType),
                None => Seq::empty(),
            }),
        ItemEnum::Union(u) => generics_steps(u.generics, src)
            + field_list_steps(index, u.fields@, 0, src, EdgeLabel::UnionField)
            + guarded_list_steps(u.impls@, 0, src, EdgeLabel::ImplFor),
        ItemEnum::TraitAlias(ta) => generics_steps(ta.generics, src)
            + bound_list_steps(ta.params@, 0, src, EdgeLabel::AliasTo),
        ItemEnum::StructField(ty) => type_steps(ty, src, EdgeLabel::FieldType),
        _ => Seq::empty(),
    }
}

/// The steps for item `src`: its intra-doc links, then its own parts; none when the
/// crate has no such item.
pub open spec fn item_steps(index: Map<Id, Item>, src: Id) -> Seq<DepStep> {
    if index.contains_key(src) {
        link_list_steps(index[src].links@, 0, src) + item_kind_steps(index, src, index[src].inner)
    } else {
        Seq::empty()
    }
}

/// The item of the index that a function's signature returns, when its output type
/// names one directly.
pub open spec fn function_output_target(index: Map<Id, Item>, s: Id) -> Option<Id> {
    if index.contains_key(s) {
        match index[s].inner {
            ItemEnum::Function(f) => match f.sig.output {
                Some(t) => match type_id_of(t) {
                    Some(x) => if index.contains_key(x) { Some(x) } else { None },
                    None => None,
                },
                None => None,
            },
            _ => None,
        }
    } else {
        None
    }
}

/// Whether a function item reaches nothing before its output type: no links, no
/// generic parameters or predicates, no inputs.
pub open spec fn output_comes_first(index: Map<Id, Item>, s: Id) -> bool {
    index.contains_key(s) && index[s].links@.len() == 0 && match index[s].inner {
        ItemEnum::Function(f) => f.generics.params@.len() == 0 && f.generics.where_predicates@.len() == 0
            && f.sig.inputs@.len() == 0,
        _ => false,
    }
}

/// A function depends on the item its signature returns: whatever else it refers to,
/// finding its dependencies (from none) records that item; and where nothing comes
/// before the output, the edge from the function to it is labelled `SignatureOutput`.
pub proof fn law_function_output_dependency(index: Map<Id, Item>, s: Id, x: Id, es: Seq<Edge>, deps: Set<Id>, es2: Seq<Edge>)
    requires
        function_output_target(index, s) == Some(x),
        reached(item_steps(index, s), Set::empty(), es, index, deps, es2),
    ensures
        deps.contains(x),
        output_comes_first(index, s) ==> es2.contains(Edge { source: s, target: x, label: EdgeLabel::SignatureOutput }),
{
    let item = index[s];
    if let ItemEnum::Function(f) = item.inner {
        let t = f.sig.output->Some_0;
        let l = link_list_steps(item.links@, 0, s);
        let g = generics_steps(f.generics, s);
        let i = input_list_steps(f.sig.inputs@, 0, s, EdgeLabel::SignatureInput);
        let h = guarded(s, x, EdgeLabel::SignatureOutput);
        let b = type_body_steps(t, s, EdgeLabel::SignatureOutput);
        assert(item_kind_steps(index, s, item.inner) == (g + i) + (h + b));
        assert(item_steps(index, s) == l + ((g + i) + (h + b)));
        lemma_apply_concat(l, (g + i) + (h + b), Set::empty(), es, index);
        let r_l = apply_steps(l, Set::empty(), es, index);
        lemma_apply_concat(g + i, h + b, r_l.0, r_l.1, index);
        let r_gi = apply_steps(g + i, r_l.0, r_l.1, index);
        lemma_apply_concat(h, b, r_gi.0, r_gi.1, index);
        lemma_apply_single(DepStep { source: s, target: x, label: EdgeLabel::SignatureOutput, guarded: true }, r_gi.0, r_gi.1, index);
        let r_h = apply_steps(h, r_gi.0, r_gi.1, index);
        let e = Edge { source: s, target: x, label: EdgeLabel::SignatureOutput };
        assert(r_h.0.contains(x));
        assert(!r_gi.0.contains(x) ==> r_h.1.contains(e)) by {
            if !r_gi.0.contains(x) {
                if !r_gi.1.contains(e) {
                    assert(r_h.1 == r_gi.1.push(e));
                    assert(r_h.1[r_gi.1.len() as int] == e);
                }
            }
        }
        lemma_apply_steps_grow(b, r_h.0, r_h.1, index);
        let fin = apply_steps(b, r_h.0, r_h.1, index);
        assert(fin == (deps, es2));
        if r_h.1.contains(e) {
            let q = choose|q: int| 0 <= q < r_h.1.len() && r_h.1[q] == e;
            assert(es2[q] == e);
        }
        if output_comes_first(index, s) {
            assert(l =~= Seq::<DepStep>::empty());
            assert(g =~= Seq::<DepStep>::empty());
            assert(i =~= Seq::<DepStep>::empty());
            assert(g + i =~= Seq::<DepStep>::empty());
            assert(r_l == (Set::<Id>::empty(), es));
            assert(r_gi == (Set::<Id>::empty(), es));
        }
    }
}

/// `law_function_output_dependency` for every result of the steps.
proof fn lemma_output_dependency_any(index: Map<Id, Item>, s: Id, es: Seq<Edge>)
    ensures
        forall|deps: Set<Id>, es2: Seq<Edge>| #[trigger] reached(item_steps(index, s), Set::empty(), es, index, deps, es2)
            ==> (function_output_target(index, s) matches Some(x) ==> deps.contains(x)
            && (output_comes_first(index, s) ==> es2.contains(Edge { source: s, target: x, label: EdgeLabel::SignatureOutput }))),
{
    assert forall|deps: Set<Id>, es2: Seq<Edge>| #[trigger] reached(item_steps(index, s), Set::empty(), es, index, deps, es2)
        implies (function_output_target(index, s) matches Some(x) ==> deps.contains(x)
        && (output_comes_first(index, s) ==> es2.contains(Edge { source: s, target: x, label: EdgeLabel::SignatureOutput }))) by {
        if let Some(x) = function_output_target(index, s) {
            law_function_output_dependency(index, s, x, es, deps, es2);
        }
    }
}

fn guarded_list_dependencies(
    ids: &Vec<Id>,
    source_id: Id,
    krate: &Crate,
    dependencies: &mut HashSet<Id>,
    graph: &mut IdGraph,
    edge_label: EdgeLabel,
)
    requires
        old(graph).wf(),
    ensures
        final(graph).wf(),
        reached(guarded_list_steps(ids@, 0, source_id, edge_label), old(dependencies)@, old(graph).edge_seq(),
            krate.index_map(), final(dependencies)@, final(graph).edge_seq()),
{
    let ghost goal = apply_steps(guarded_list_steps(ids@, 0, source_id, edge_label), dependencies@, graph.edge_seq(), krate.index_map());
    let n = ids.len();
    for k in 0..n
        invariant
            n == ids@.len(),
            graph.wf(),
            goal == apply_steps(guarded_list_steps(ids@, k as int, source_id, edge_label), dependencies@, graph.edge_seq(), krate.index_map()),
    {
        proof {
            lemma_apply_concat(guarded(source_id, ids@[k as int], edge_label), guarded_list_steps(ids@, k + 1, source_id, edge_label),
                dependencies@, graph.edge_seq(), krate.index_map());
        }
        guarded_step(source_id, ids[k], edge_label, krate, dependencies, graph);
    }
}

fn link_list_dependencies(
    links: &Vec<(String, Id)>,
    source_id: Id,
    krate: &Crate,
    dependencies: &mut HashSet<Id>,
    graph: &mut IdGraph,
)
    requires
        old(graph).wf(),
    ensures
        final(graph).wf(),
        reached(link_list_steps(links@, 0, source_id), old(dependencies)@, old(graph).edge_seq(),
            krate.index_map(), final(dependencies)@, final(graph).edge_seq()),
{
    let ghost goal = apply_steps(link_list_steps(links@, 0, source_id), dependencies@, graph.edge_seq(), krate.index_map());
    let n = links.len();
    for k in 0..n
        invariant
            n == links@.len(),
            graph.wf(),
            goal == apply_steps(link_list_steps(links@, k as int, source_id), dependencies@, graph.edge_seq(), krate.index_map()),
    {
        proof {
            lemma_apply_concat(guarded(source_id, links@[k as int].1, EdgeLabel::IntraDocLink), link_list_steps(links@, k + 1, source_id),
                dependencies@, graph.edge_seq(), krate.index_map());
        }
        guarded_step(source_id, links[k].1, EdgeLabel::IntraDocLink, krate, dependencies, graph);
    }
}

fn contains_list_edges(
    ids: &Vec<Id>,
    source_id: Id,
    krate: &Crate,
    dependencies: &HashSet<Id>,
    graph: &mut IdGraph,
)
    requires
        old(graph).wf(),
    ensures
        final(graph).wf(),
        reached(unguarded_list_steps(ids@, 0, source_id, EdgeLabel::Contains), dependencies@, old(graph).edge_seq(),
            krate.index_map(), dependencies@, final(graph).edge_seq()),
{
    let ghost goal = apply_steps(unguarded_list_steps(ids@, 0, source_id, EdgeLabel::Contains), dependencies@, graph.edge_seq(), krate.index_map());
    let n = ids.len();
    for k in 0..n
        invariant
            n == ids@.len(),
            graph.wf(),
            goal == apply_steps(unguarded_list_steps(ids@, k as int, source_id, EdgeLabel::Contains), dependencies@, graph.edge_seq(), krate.index_map()),
    {
        let ghost st = DepStep { source: source_id, target: ids@[k as int], label: EdgeLabel::Contains, guarded: false };
        proof {
            lemma_apply_concat(unguarded(source_id, ids@[k as int], EdgeLabel::Contains), unguarded_list_steps(ids@, k + 1, source_id, EdgeLabel::Contains),
                dependencies@, graph.edge_seq(), krate.index_map());
            lemma_apply_single(st, dependencies@, graph.edge_seq(), krate.index_map());
            assert(unguarded(source_id, ids@[k as int], EdgeLabel::Contains) == seq![st]);
        }
        if krate.contains(ids[k]) {
            graph.add_edge(source_id, ids[k], EdgeLabel::Contains, krate);
        }
    }
}

fn field_dependencies(
    field_id: Id,
    source_id: Id,
    krate: &Crate,
    dependencies: &mut HashSet<Id>,
    graph: &mut IdGraph,
    edge_label: EdgeLabel,
)
    requires
        old(graph).wf(),
    ensures
        final(graph).wf(),
        reached(field_steps(krate.index_map(), source_id, field_id, edge_label), old(dependencies)@, old(graph).edge_seq(),
            krate.index_map(), final(dependencies)@, final(graph).edge_seq()),
{
    let ghost d0 = dependencies@;
    let ghost e0 = graph.edge_seq();
    let ghost idx = krate.index_map();
    let ghost a = guarded(source_id, field_id, edge_label);
    let ghost b = if idx.contains_key(field_id) {
        match idx[field_id].inner {
            ItemEnum::StructField(ty) => type_steps(ty, field_id, EdgeLabel::FieldType),
            _ => Seq::<DepStep>::empty(),
        }
    } else {
        Seq::<DepStep>::empty()
    };
    proof {
        lemma_apply_concat(a, b, d0, e0, idx);
    }
    guarded_step(source_id, field_id, edge_label, krate, dependencies, graph);
    let ghost d1 = dependencies@;
    let ghost e1 = graph.edge_seq();
    match krate.get(field_id) {
        Some(field_item) => {
            match &field_item.inner {
                ItemEnum::StructField(field_type) => {
                    find_type_dependencies(field_type, field_id, krate, dependencies, graph, EdgeLabel::FieldType);
                },
                _ => {
                    proof {
                        assert(apply_steps(Seq::<DepStep>::empty(), d1, e1, idx) == (d1, e1));
                    }
                },
            }
        },
        None => {
            proof {
                assert(apply_steps(Seq::<DepStep>::empty(), d1, e1, idx) == (d1, e1));
            }
        },
    }
}

fn field_list_dependencies(
    fields: &Vec<Id>,
    source_id: Id,
    krate: &Crate,
    dependencies: &mut HashSet<Id>,
    graph: &mut IdGraph,
    edge_label: EdgeLabel,
)
    requires
        old(graph).wf(),
    ensures
        final(graph).wf(),
        reached(field_list_steps(krate.index_map(), fields@, 0, source_id, edge_label), old(dependencies)@, old(graph).edge_seq(),
            krate.index_map(), final(dependencies)@, final(graph).edge_seq()),
{
    let ghost idx = krate.index_map();
    let ghost goal = apply_steps(field_list_steps(idx, fields@, 0, source_id, edge_label), dependencies@, graph.edge_seq(), idx);
    let n = fields.len();
    for k in 0..n
        invariant
            n == fields@.len(),
            graph.wf(),
            idx == krate.index_map(),
            goal == apply_steps(field_list_steps(idx, fields@, k as int, source_id, edge_label), dependencies@, graph.edge_seq(), idx),
    {
        proof {
            lemma_apply_concat(field_steps(idx, source_id, fields@[k as int], edge_label), field_list_steps(idx, fields@, k + 1, source_id, edge_label),
                dependencies@, graph.edge_seq(), idx);
        }
        field_dependencies(fields[k], source_id, krate, dependencies, graph, edge_label);
    }
}

fn opt_field_list_dependencies(
    fields: &Vec<Option<Id>>,
    source_id: Id,
    krate: &Crate,
    dependencies: &mut HashSet<Id>,
    graph: &mut IdGraph,
    edge_label: EdgeLabel,
)
    requires
        old(graph).wf(),
    ensures
        final(graph).wf(),
        reached(opt_field_list_steps(krate.index_map(), fields@, 0, source_id, edge_label), old(dependencies)@, old(graph).edge_seq(),
            krate.index_map(), final(dependencies)@, final(graph).edge_seq()),
{
    let ghost idx = krate.index_map();
    let ghost goal = apply_steps(opt_field_list_steps(idx, fields@, 0, source_id, edge_label), dependencies@, graph.edge_seq(), idx);
    let n = fields.len();
    for k in 0..n
        invariant
            n == fields@.len(),
            graph.wf(),
            idx == krate.index_map(),
            goal == apply_steps(opt_field_list_steps(idx, fields@, k as int, source_id, edge_label), dependencies@, graph.edge_seq(), idx),
    {
        let ghost d0 = dependencies@;
        let ghost e0 = graph.edge_seq();
        let ghost a = match fields@[k as int] {
            Some(f) => field_steps(idx, source_id, f, edge_label),
            None => Seq::<DepStep>::empty(),
        };
        proof {
            lemma_apply_concat(a, opt_field_list_steps(idx, fields@, k + 1, source_id, edge_label), d0, e0, idx);
        }
        match fields[k] {
            Some(field_id) => {
                field_dependencies(field_id, source_id, krate, dependencies, graph, edge_label);
            },
            None => {
                proof {
                    assert(apply_steps(Seq::<DepStep>::empty(), d0, e0, idx) == (d0, e0));
                }
            },
        }
    }
}

/// Finds the dependencies of one item and adds the corresponding edges to the graph:
/// the steps of `item_steps`, taken from no known dependency. Returns the ids found.
pub fn build_graph_for_item(source_id: Id, krate: &Crate, graph: &mut IdGraph) -> (res: HashSet<Id>)
    requires
        old(graph).wf(),
    ensures
        final(graph).wf(),
        reached(item_steps(krate.index_map(), source_id), Set::empty(), old(graph).edge_seq(),
            krate.index_map(), res@, final(graph).edge_seq()),
        forall|x: Id| #[trigger] res@.contains(x) ==> krate.index_map().contains_key(x),
        function_output_target(krate.index_map(), source_id) matches Some(x) ==> res@.contains(x)
            && (output_comes_first(krate.index_map(), source_id) ==> final(graph).edge_seq().contains(
                Edge { source: source_id, target: x, label: EdgeLabel::SignatureOutput },
            )),
        old(graph).edge_seq().is_prefix_of(final(graph).edge_seq()),
        forall|i: int| old(graph).edge_seq().len() <= i < final(graph).edge_seq().len()
            ==> krate.index_map().contains_key(#[trigger] final(graph).edge_seq()[i].source)
                && krate.index_map().contains_key(final(graph).edge_seq()[i].target),
{
    proof {
        lemma_apply_steps_grow(item_steps(krate.index_map(), source_id), Set::empty(), graph.edge_seq(), krate.index_map());
    }
    proof {
        lemma_output_dependency_any(krate.index_map(), source_id, graph.edge_seq());
    }
    let mut item_deps: HashSet<Id> = HashSet::new();
    let ghost idx = krate.index_map();
    let ghost e0 = graph.edge_seq();
    match krate.get(source_id) {
        None => {
            proof {
                assert(apply_steps(Seq::<DepStep>::empty(), item_deps@, e0, idx) == (item_deps@, e0));
            }
            return item_deps;
        },
        Some(item) => {
            let ghost d0 = item_deps@;
            link_list_dependencies(&item.links, source_id, krate, &mut item_deps, graph);
            let ghost d1 = item_deps@;
            let ghost e1 = graph.edge_seq();
            proof {
                lemma_apply_concat(link_list_steps(item.links@, 0, source_id), item_kind_steps(idx, source_id, item.inner), d0, e0, idx);
            }
            item_kind_dependencies(&item.inner, source_id, krate, &mut item_deps, graph);
            return item_deps;
        },
    }
}

fn item_kind_dependencies(
    inner: &ItemEnum,
    source_id: Id,
    krate: &Crate,
    item_deps: &mut HashSet<Id>,
    graph: &mut IdGraph,
)
    requires
        old(graph).wf(),
    ensures
        final(graph).wf(),
        reached(item_kind_steps(krate.index_map(), source_id, *inner), old(item_deps)@, old(graph).edge_seq(),
            krate.index_map(), final(item_deps)@, final(graph).edge_seq()),
{
    let ghost idx = krate.index_map();
    let ghost d0 = item_deps@;
    let ghost e0 = graph.edge_seq();
    match inner {
        ItemEnum::Module(m) => {
            contains_list_edges(&m.items, source_id, krate, item_deps, graph);
        },
        ItemEnum::Use(use_item) => {
            match use_item.id {
                Some(target_id) => {
                    guarded_step(source_id, target_id, EdgeLabel::UseTarget, krate, item_deps, graph);
                },
                None => {
                    proof {
                        assert(apply_steps(Seq::<DepStep>::empty(), d0, e0, idx) == (d0, e0));
                    }
                },
            }
        },
        ItemEnum::Struct(s) => {
            let ghost a = guarded_list_steps(s.impls@, 0, source_id, EdgeLabel::ImplFor);
            let ghost b = generics_steps(s.generics, source_id);
            let ghost c = match &s.kind {
                StructKind::Plain { fields, .. } => field_list_steps(idx, fields@, 0, source_id, EdgeLabel::StructField),
                StructKind::Tuple(fields) => opt_field_list_steps(idx, fields@, 0, source_id, EdgeLabel::StructField),
                StructKind::Unit => Seq::<DepStep>::empty(),
            };
            proof {
                lemma_apply_concat(a + b, c, d0, e0, idx);
                lemma_apply_concat(a, b, d0, e0, idx);
            }
            guarded_list_dependencies(&s.impls, source_id, krate, item_deps, graph, EdgeLabel::ImplFor);
            find_generics_dependencies(&s.generics, source_id, krate, item_deps, graph);
            let ghost d2 = item_deps@;
            let ghost e2 = graph.edge_seq();
            match &s.kind {
                StructKind::Plain { fields, .. } => {
                    field_list_dependencies(fields, source_id, krate, item_deps, graph, EdgeLabel::StructField);
                },
                StructKind::Tuple(fields) => {
                    opt_field_list_dependencies(fields, source_id, krate, item_deps, graph, EdgeLabel::StructField);
                },
                StructKind::Unit => {
                    proof {
                        assert(apply_steps(Seq::<DepStep>::empty(), d2, e2, idx) == (d2, e2));
                    }
                },
            }
        },
        ItemEnum::Enum(e) => {
            let ghost a = guarded_list_steps(e.variants@, 0, source_id, EdgeLabel::EnumVariant);
            let ghost b = guarded_list_steps(e.impls@, 0, source_id, EdgeLabel::ImplFor);
            let ghost c = generics_steps(e.generics, source_id);
            proof {
                lemma_apply_concat(a + b, c, d0, e0, idx);
                lemma_apply_concat(a, b, d0, e0, idx);
            }
            guarded_list_dependencies(&e.variants, source_id, krate, item_deps, graph, EdgeLabel::EnumVariant);
            guarded_list_dependencies(&e.impls, source_id, krate, item_deps, graph, EdgeLabel::ImplFor);
            find_generics_dependencies(&e.generics, source_id, krate, item_deps, graph);
        },
        ItemEnum::Variant(v) => {
            match &v.kind {
                VariantKind::Plain => {
                    proof {
                        assert(apply_steps(Seq::<DepStep>::empty(), d0, e0, idx) == (d0, e0));
                    }
                },
                VariantKind::Tuple(fields) => {
                    opt_field_list_dependencies(fields, source_id, krate, item_deps, graph, EdgeLabel::VariantField);
                },
                VariantKind::Struct { fields, .. } => {
                    field_list_dependencies(fields, source_id, krate, item_deps, graph, EdgeLabel::VariantField);
                },
            }
        },
        ItemEnum::Function(f) => {
            let ghost a = generics_steps(f.generics, source_id);
            let ghost b = input_list_steps(f.sig.inputs@, 0, source_id, EdgeLabel::SignatureInput);
            let ghost c = match &f.sig.output {
                Some(o) => type_steps(*o, source_id, EdgeLabel::SignatureOutput),
                None => Seq::<DepStep>::empty(),
            };
            proof {
                lemma_apply_concat(a + b, c, d0, e0, idx);
                lemma_apply_concat(a, b, d0, e0, idx);
            }
            find_generics_dependencies(&f.generics, source_id, krate, item_deps, graph);
            input_list_dependencies(&f.sig.inputs, source_id, krate, item_deps, graph, EdgeLabel::SignatureInput);
            let ghost d2 = item_deps@;
            let ghost e2 = graph.edge_seq();
            match &f.sig.output {
                Some(output) => {
                    find_type_dependencies(output, source_id, krate, item_deps, graph, EdgeLabel::SignatureOutput);
                },
                None => {
                    proof {
                        assert(apply_steps(Seq::<DepStep>::empty(), d2, e2, idx) == (d2, e2));
                    }
                },
            }
        },
        ItemEnum::Trait(t) => {
            let ghost a = guarded_list_steps(t.items@, 0, source_id, EdgeLabel::TraitItem);
            let ghost b = generics_steps(t.generics, source_id);
            let ghost c = bound_list_steps(t.bounds@, 0, source_id, EdgeLabel::SuperTrait);
            let ghost d = guarded_list_steps(t.implementations@, 0, source_id, EdgeLabel::Implements);
            proof {
                lemma_apply_concat(a + b + c, d, d0, e0, idx);
                lemma_apply_concat(a + b, c, d0, e0, idx);
                lemma_apply_concat(a, b, d0, e0, idx);
            }
            guarded_list_dependencies(&t.items, source_id, krate, item_deps, graph, EdgeLabel::TraitItem);
            find_generics_dependencies(&t.generics, source_id, krate, item_deps, graph);
            bound_list_dependencies(&t.bounds, source_id, krate, item_deps, graph, EdgeLabel::SuperTrait);
            guarded_list_dependencies(&t.implementations, source_id, krate, item_deps, graph, EdgeLabel::Implements);
        },
        ItemEnum::Impl(imp) => {
            let ghost a = guarded_list_steps(imp.items@, 0, source_id, EdgeLabel::ImplItem);
            let ghost b = match &imp.trait_ {
                Some(tp) => guarded(source_id, tp.id, EdgeLabel::Implements) + (match &tp.args {
                    Some(x) => args_steps(**x, source_id),
                    None => Seq::<DepStep>::empty(),
                }),
                None => Seq::<DepStep>::empty(),
            };
            let ghost c = type_steps(imp.for_, source_id, EdgeLabel::ImplFor);
            let ghost d = generics_steps(imp.generics, source_id);
            proof {
                lemma_apply_concat(a + b + c, d, d0, e0, idx);
                lemma_apply_concat(a + b, c, d0, e0, idx);
                lemma_apply_concat(a, b, d0, e0, idx);
            }
            guarded_list_dependencies(&imp.items, source_id, krate, item_deps, graph, EdgeLabel::ImplItem);
            let ghost d1 = item_deps@;
            let ghost e1 = graph.edge_seq();
            match &imp.trait_ {
                Some(trait_path) => {
                    guarded_step(source_id, trait_path.id, EdgeLabel::Implements, krate, item_deps, graph);
                    let ghost d2 = item_deps@;
                    let ghost e2 = graph.edge_seq();
                    match &trait_path.args {
                        Some(args) => {
                            find_generic_args_dependencies(args, source_id, krate, item_deps, graph);
                        },
                        None => {
                            proof {
                                assert(apply_steps(Seq::<DepStep>::empty(), d2, e2, idx) == (d2, e2));
                            }
                        },
                    }
                    proof {
                        let tail = match &trait_path.args {
                            Some(x) => args_steps(**x, source_id),
                            None => Seq::<DepStep>::empty(),
                        };
                        lemma_apply_concat(guarded(source_id, trait_path.id, EdgeLabel::Implements), tail, d1, e1, idx);
                    }
                },
                None => {
                    proof {
                        assert(apply_steps(Seq::<DepStep>::empty(), d1, e1, idx) == (d1, e1));
                    }
                },
            }
            find_type_dependencies(&imp.for_, source_id, krate, item_deps, graph, EdgeLabel::ImplFor);
            find_generics_dependencies(&imp.generics, source_id, krate, item_deps, graph);
        },
        ItemEnum::TypeAlias(ta) => {
            proof {
                lemma_apply_concat(type_steps(ta.type_, source_id, EdgeLabel::AliasTo), generics_steps(ta.generics, source_id), d0, e0, idx);
            }
            find_type_dependencies(&ta.type_, source_id, krate, item_deps, graph, EdgeLabel::AliasTo);
            find_generics_dependencies(&ta.generics, source_id, krate, item_deps, graph);
        },
        ItemEnum::Constant { type_, .. } => {
            find_type_dependencies(type_, source_id, krate, item_deps, graph, EdgeLabel::ReferencesType);
        },
        ItemEnum::Static(s) => {
            find_type_dependencies(&s.type_, source_id, krate, item_deps, graph, EdgeLabel::ReferencesType);
        },
        ItemEnum::AssocConst { type_, .. } => {
            find_type_dependencies(type_, source_id, krate, item_deps, graph, EdgeLabel::ReferencesType);
        },
        ItemEnum::AssocType { generics, bounds, type_ } => {
            let ghost a = generics_steps(*generics, source_id);
            let ghost b = bound_list_steps(bounds@, 0, source_id, EdgeLabel::TraitBound);
            let ghost c = match type_ {
                Some(t) => type_steps(*t, source_id, EdgeLabel::ReferencesType),
                None => Seq::<DepStep>::empty(),
            };
            proof {
                lemma_apply_concat(a + b, c, d0, e0, idx);
                lemma_apply_concat(a, b, d0, e0, idx);
            }
            find_generics_dependencies(generics, source_id, krate, item_deps, graph);
            bound_list_dependencies(bounds, source_id, krate, item_deps, graph, EdgeLabel::TraitBound);
            let ghost d2 = item_deps@;
            let ghost e2 = graph.edge_seq();
            match type_ {
                Some(def_type) => {
                    find_type_dependencies(def_type, source_id, krate, item_deps, graph, EdgeLabel::ReferencesType);
                },
                None => {
                    proof {
                        assert(apply_steps(Seq::<DepStep>::empty(), d2, e2, idx) == (d2, e2));
                    }
                },
            }
        },
        ItemEnum::Union(u) => {
            let ghost a = generics_steps(u.generics, source_id);
            let ghost b = field_list_steps(idx, u.fields@, 0, source_id, EdgeLabel::UnionField);
            let ghost c = guarded_list_steps(u.impls@, 0, source_id, EdgeLabel::ImplFor);
            proof {
                lemma_apply_concat(a + b, c, d0, e0, idx);
                lemma_apply_concat(a, b, d0, e0, idx);
            }
            find_generics_dependencies(&u.generics, source_id, krate, item_deps, graph);
            field_list_dependencies(&u.fields, source_id, krate, item_deps, graph, EdgeLabel::UnionField);
            guarded_list_dependencies(&u.impls, source_id, krate, item_deps, graph, EdgeLabel::ImplFor);
        },
        ItemEnum::TraitAlias(ta) => {
            proof {
                lemma_apply_concat(generics_steps(ta.generics, source_id), bound_list_steps(ta.params@, 0, source_id, EdgeLabel::AliasTo), d0, e0, idx);
            }
            find_generics_dependencies(&ta.generics, source_id, krate, item_deps, graph);
            bound_list_dependencies(&ta.params, source_id, krate, item_deps, graph, EdgeLabel::AliasTo);
        },
        ItemEnum::StructField(ty) => {
            find_type_dependencies(ty, source_id, krate, item_deps, graph, EdgeLabel::FieldType);
        },
        _ => {
            proof {
                assert(apply_steps(Seq::<DepStep>::empty(), d0, e0, idx) == (d0, e0));
            }
        },
    }
}

} // verus!
