//! The item dependency graph: labelled edges between item ids, with forward and
//! reverse adjacency lists kept in step with the edge list.

use vstd::prelude::*;
use std::collections::HashMap;
use std::collections::HashSet;
use crate::model::{Crate, Id, Item};

verus! {

broadcast use vstd::std_specs::hash::group_hash_axioms;

/// How the source item of an edge relates to its target.
#[derive(Debug, Clone, Copy, PartialEq, Eq, Structural, Hash)]
pub enum EdgeLabel {
    Contains,
    ReferencesType,
    GenericArgument,
    AssociatedType,
    AssociatedConstant,
    TraitBound,
    Implements,
    ImplFor,
    ImplItem,
    TraitItem,
    EnumVariant,
    VariantField,
    StructField,
    UnionField,
    FieldType,
    AliasTo,
    SignatureInput,
    SignatureOutput,
    SuperTrait,
    Dependency,
    IntraDocLink,
    AssociatedConstraint,
    ParamType,
    ParamBound,
    PredicateType,
    PredicateBound,
    PredicateEqLhs,
    PredicateEqRhs,
    DynTraitBound,
    ImplTraitBound,
    UseTarget,
}

/// The name a label is shown by.
pub open spec fn label_name(l: EdgeLabel) -> Seq<char> {
    match l {
        EdgeLabel::Contains => "Contains"@,
        EdgeLabel::ReferencesType => "ReferencesType"@,
        EdgeLabel::GenericArgument => "GenericArgument"@,
        EdgeLabel::AssociatedType => "AssociatedType"@,
        EdgeLabel::AssociatedConstant => "AssociatedConstant"@,
        EdgeLabel::TraitBound => "TraitBound"@,
        EdgeLabel::Implements => "Implements"@,
        EdgeLabel::ImplFor => "ImplFor"@,
        EdgeLabel::ImplItem => "ImplItem"@,
        EdgeLabel::TraitItem => "TraitItem"@,
        EdgeLabel::EnumVariant => "EnumVariant"@,
        EdgeLabel::VariantField => "VariantField"@,
        EdgeLabel::StructField => "StructField"@,
        EdgeLabel::UnionField => "UnionField"@,
        EdgeLabel::FieldType => "FieldType"@,
        EdgeLabel::AliasTo => "AliasTo"@,
        EdgeLabel::SignatureInput => "SignatureInput"@,
        EdgeLabel::SignatureOutput => "SignatureOutput"@,
        EdgeLabel::SuperTrait => "SuperTrait"@,
        EdgeLabel::Dependency => "Dependency"@,
        EdgeLabel::IntraDocLink => "IntraDocLink"@,
        EdgeLabel::AssociatedConstraint => "AssociatedConstraint"@,
        EdgeLabel::ParamType => "ParamType"@,
        EdgeLabel::ParamBound => "ParamBound"@,
        EdgeLabel::PredicateType => "PredicateType"@,
        EdgeLabel::PredicateBound => "PredicateBound"@,
        EdgeLabel::PredicateEqLhs => "PredicateEqLhs"@,
        EdgeLabel::PredicateEqRhs => "PredicateEqRhs"@,
        EdgeLabel::DynTraitBound => "DynTraitBound"@,
        EdgeLabel::ImplTraitBound => "ImplTraitBound"@,
        EdgeLabel::UseTarget => "UseTarget"@,
    }
}

impl EdgeLabel {
    /// The label's name, as it is displayed.
    pub fn fmt(&self) -> (res: &'static str)
        ensures
            res@ == label_name(*self),
    {
        match self {
            EdgeLabel::Contains => "Contains",
            EdgeLabel::ReferencesType => "ReferencesType",
            EdgeLabel::GenericArgument => "GenericArgument",
            EdgeLabel::AssociatedType => "AssociatedType",
            EdgeLabel::AssociatedConstant => "AssociatedConstant",
            EdgeLabel::TraitBound => "TraitBound",
            EdgeLabel::Implements => "Implements",
            EdgeLabel::ImplFor => "ImplFor",
            EdgeLabel::ImplItem => "ImplItem",
            EdgeLabel::TraitItem => "TraitItem",
            EdgeLabel::EnumVariant => "EnumVariant",
            EdgeLabel::VariantField => "VariantField",
            EdgeLabel::StructField => "StructField",
            EdgeLabel::UnionField => "UnionField",
            EdgeLabel::FieldType => "FieldType",
            EdgeLabel::AliasTo => "AliasTo",
            EdgeLabel::SignatureInput => "SignatureInput",
            EdgeLabel::SignatureOutput => "SignatureOutput",
            EdgeLabel::SuperTrait => "SuperTrait",
            EdgeLabel::Dependency => "Dependency",
            EdgeLabel::IntraDocLink => "IntraDocLink",
            EdgeLabel::AssociatedConstraint => "AssociatedConstraint",
            EdgeLabel::ParamType => "ParamType",
            EdgeLabel::ParamBound => "ParamBound",
            EdgeLabel::PredicateType => "PredicateType",
            EdgeLabel::PredicateBound => "PredicateBound",
            EdgeLabel::PredicateEqLhs => "PredicateEqLhs",
            EdgeLabel::PredicateEqRhs => "PredicateEqRhs",
            EdgeLabel::DynTraitBound => "DynTraitBound",
            EdgeLabel::ImplTraitBound => "ImplTraitBound",
            EdgeLabel::UseTarget => "UseTarget",
        }
    }
}

/// A labelled edge from `source` to `target`.
#[derive(Debug, Clone, Copy, PartialEq, Eq, Structural, Hash)]
pub struct Edge {
    pub source: Id,
    pub target: Id,
    pub label: EdgeLabel,
}

/// The (target, label) pairs of the edges leaving `s`, in edge order.
pub open spec fn outgoing(es: Seq<Edge>, s: Id) -> Seq<(Id, EdgeLabel)>
    decreases es.len(),
{
    if es.len() == 0 {
        Seq::empty()
    } else {
        let prev = outgoing(es.drop_last(), s);
        if es.last().source == s {
            prev.push((es.last().target, es.last().label))
        } else {
            prev
        }
    }
}

/// The (source, label) pairs of the edges entering `t`, in edge order.
pub open spec fn incoming(es: Seq<Edge>, t: Id) -> Seq<(Id, EdgeLabel)>
    decreases es.len(),
{
    if es.len() == 0 {
        Seq::empty()
    } else {
        let prev = incoming(es.drop_last(), t);
        if es.last().target == t {
            prev.push((es.last().source, es.last().label))
        } else {
            prev
        }
    }
}

/// `n` is an endpoint of some edge.
pub open spec fn is_node(es: Seq<Edge>, n: Id) -> bool {
    exists|i: int| 0 <= i < es.len() && (es[i].source == n || es[i].target == n)
}

/// `n` is the target of some edge.
pub open spec fn has_incoming(es: Seq<Edge>, n: Id) -> bool {
    exists|i: int| 0 <= i < es.len() && es[i].target == n
}

/// The edge list after an attempt to add `e`: it is added when both endpoints are
/// items of the crate and it is not there yet.
pub open spec fn edges_after_add(es: Seq<Edge>, e: Edge, index: Map<Id, Item>) -> Seq<Edge> {
    if index.contains_key(e.source) && index.contains_key(e.target) && !es.contains(e) {
        es.push(e)
    } else {
        es
    }
}

/// Following edges from `a`, `b` is reached in at most `k` steps, each step landing
/// on a node of `allowed`.
pub open spec fn reaches_within(es: Seq<Edge>, allowed: Set<Id>, a: Id, b: Id, k: nat) -> bool
    decreases k,
{
    a == b || (k > 0 && exists|i: int|
        0 <= i < es.len() && #[trigger] es[i].source == a && allowed.contains(es[i].target)
            && reaches_within(es, allowed, es[i].target, b, (k - 1) as nat))
}

/// Following edges from `a`, `b` is reached, each step landing on a node of `allowed`.
pub open spec fn reaches(es: Seq<Edge>, allowed: Set<Id>, a: Id, b: Id) -> bool {
    exists|k: nat| reaches_within(es, allowed, a, b, k)
}

/// The edges of `es` whose two endpoints both lie in `keep`, in order.
pub open spec fn edges_within(es: Seq<Edge>, keep: Set<Id>) -> Seq<Edge>
    decreases es.len(),
{
    if es.len() == 0 {
        Seq::empty()
    } else {
        let prev = edges_within(es.drop_last(), keep);
        if keep.contains(es.last().source) && keep.contains(es.last().target) {
            prev.push(es.last())
        } else {
            prev
        }
    }
}

/// The nodes from which `leaf` is reached, when `leaf` is a node; otherwise none.
pub open spec fn nodes_reaching(es: Seq<Edge>, leaf: Id) -> Set<Id> {
    if is_node(es, leaf) {
        Set::new(|n: Id| reaches(es, Set::full(), n, leaf))
    } else {
        Set::empty()
    }
}

pub proof fn lemma_outgoing_contains(es: Seq<Edge>, s: Id, t: Id, l: EdgeLabel)
    ensures
        outgoing(es, s).contains((t, l)) <==> es.contains(Edge { source: s, target: t, label: l }),
    decreases es.len(),
{
    if es.len() > 0 {
        lemma_outgoing_contains(es.drop_last(), s, t, l);
        let e = Edge { source: s, target: t, label: l };
        if es.contains(e) {
            let i = choose|i: int| 0 <= i < es.len() && es[i] == e;
            if i < es.len() - 1 {
                assert(es.drop_last()[i] == e);
            }
        }
        if es.drop_last().contains(e) {
            let i = choose|i: int| 0 <= i < es.drop_last().len() && es.drop_last()[i] == e;
            assert(es[i] == e);
        }
        let prev = outgoing(es.drop_last(), s);
        if es.last().source == s {
            assert(prev.push((es.last().target, es.last().label)).last() == (es.last().target, es.last().label));
            if prev.contains((t, l)) {
                let j = choose|j: int| 0 <= j < prev.len() && prev[j] == (t, l);
                assert(prev.push((es.last().target, es.last().label))[j] == (t, l));
            }
            if prev.push((es.last().target, es.last().label)).contains((t, l)) {
                let j = choose|j: int| 0 <= j < prev.len() + 1 && prev.push((es.last().target, es.last().label))[j] == (t, l);
                if j < prev.len() {
                    assert(prev[j] == (t, l));
                } else {
                    assert(es[es.len() - 1] == e);
                }
            }
        }
    }
}

pub proof fn lemma_incoming_contains(es: Seq<Edge>, s: Id, t: Id, l: EdgeLabel)
    ensures
        incoming(es, t).contains((s, l)) <==> es.contains(Edge { source: s, target: t, label: l }),
    decreases es.len(),
{
    if es.len() > 0 {
        lemma_incoming_contains(es.drop_last(), s, t, l);
        let e = Edge { source: s, target: t, label: l };
        if es.contains(e) {
            let i = choose|i: int| 0 <= i < es.len() && es[i] == e;
            if i < es.len() - 1 {
                assert(es.drop_last()[i] == e);
            }
        }
        if es.drop_last().contains(e) {
            let i = choose|i: int| 0 <= i < es.drop_last().len() && es.drop_last()[i] == e;
            assert(es[i] == e);
        }
        let prev = incoming(es.drop_last(), t);
        if es.last().target == t {
            assert(prev.push((es.last().source, es.last().label)).last() == (es.last().source, es.last().label));
            if prev.contains((s, l)) {
                let j = choose|j: int| 0 <= j < prev.len() && prev[j] == (s, l);
                assert(prev.push((es.last().source, es.last().label))[j] == (s, l));
            }
            if prev.push((es.last().source, es.last().label)).contains((s, l)) {
                let j = choose|j: int| 0 <= j < prev.len() + 1 && prev.push((es.last().source, es.last().label))[j] == (s, l);
                if j < prev.len() {
                    assert(prev[j] == (s, l));
                } else {
                    assert(es[es.len() - 1] == e);
                }
            }
        }
    }
}

pub proof fn lemma_outgoing_len(es: Seq<Edge>, s: Id)
    ensures
        outgoing(es, s).len() > 0 <==> exists|i: int| 0 <= i < es.len() && es[i].source == s,
    decreases es.len(),
{
    if es.len() > 0 {
        lemma_outgoing_len(es.drop_last(), s);
        if exists|i: int| 0 <= i < es.drop_last().len() && es.drop_last()[i].source == s {
            let i = choose|i: int| 0 <= i < es.drop_last().len() && es.drop_last()[i].source == s;
            assert(es[i].source == s);
        }
        if exists|i: int| 0 <= i < es.len() && es[i].source == s {
            let i = choose|i: int| 0 <= i < es.len() && es[i].source == s;
            if i < es.len() - 1 {
                assert(es.drop_last()[i].source == s);
            }
        }
    }
}

pub proof fn lemma_incoming_len(es: Seq<Edge>, t: Id)
    ensures
        incoming(es, t).len() > 0 <==> has_incoming(es, t),
    decreases es.len(),
{
    if es.len() > 0 {
        lemma_incoming_len(es.drop_last(), t);
        if has_incoming(es.drop_last(), t) {
            let i = choose|i: int| 0 <= i < es.drop_last().len() && es.drop_last()[i].target == t;
            assert(es[i].target == t);
        }
        if has_incoming(es, t) {
            let i = choose|i: int| 0 <= i < es.len() && es[i].target == t;
            if i < es.len() - 1 {
                assert(es.drop_last()[i].target == t);
            }
        }
    }
}

/// The ids that may ever enter the search for nodes reaching `leaf`.
pub open spec fn node_candidates(es: Seq<Edge>, leaf: Id) -> Seq<Id> {
    seq![leaf] + es.map_values(|e: Edge| e.source)
}

pub proof fn lemma_reach_step(es: Seq<Edge>, allowed: Set<Id>, i: int, b: Id, k: nat)
    requires
        0 <= i < es.len(),
        allowed.contains(es[i].target),
        reaches_within(es, allowed, es[i].target, b, k),
    ensures
        reaches_within(es, allowed, es[i].source, b, k + 1),
{
    assert(reaches_within(es, allowed, es[i].target, b, ((k + 1) - 1) as nat));
}

/// A set that holds `leaf` and the source of every edge entering one of its
/// members holds every node from which `leaf` is reached.
pub proof fn lemma_closed_backward(es: Seq<Edge>, v: Set<Id>, leaf: Id, a: Id, k: nat)
    requires
        v.contains(leaf),
        forall|j: int| 0 <= j < es.len() && #[trigger] v.contains(es[j].target) ==> v.contains(es[j].source),
        reaches_within(es, Set::full(), a, leaf, k),
    ensures
        v.contains(a),
    decreases k,
{
    if a != leaf {
        let i = choose|i: int|
            0 <= i < es.len() && #[trigger] es[i].source == a && Set::<Id>::full().contains(es[i].target)
                && reaches_within(es, Set::full(), es[i].target, leaf, (k - 1) as nat);
        lemma_closed_backward(es, v, leaf, es[i].target, (k - 1) as nat);
    }
}

/// A set that holds `a` and the target, when allowed, of every edge leaving one of
/// its members holds every node reached from `a`.
pub proof fn lemma_closed_forward(es: Seq<Edge>, allowed: Set<Id>, v: Set<Id>, a: Id, b: Id, k: nat)
    requires
        v.contains(a),
        forall|j: int| 0 <= j < es.len() && #[trigger] v.contains(es[j].source)
            && allowed.contains(es[j].target) ==> v.contains(es[j].target),
        reaches_within(es, allowed, a, b, k),
    ensures
        v.contains(b),
    decreases k,
{
    if a != b {
        let i = choose|i: int|
            0 <= i < es.len() && #[trigger] es[i].source == a && allowed.contains(es[i].target)
                && reaches_within(es, allowed, es[i].target, b, (k - 1) as nat);
        lemma_closed_forward(es, allowed, v, es[i].target, b, (k - 1) as nat);
    }
}

pub proof fn lemma_nodup_subset_len(q: Seq<Id>, c: Seq<Id>)
    requires
        q.no_duplicates(),
        forall|x: Id| #[trigger] q.contains(x) ==> c.contains(x),
    ensures
        q.len() <= c.len(),
{
    q.unique_seq_to_set();
    c.lemma_cardinality_of_set();
    vstd::seq_lib::seq_to_set_is_finite(c);
    assert(q.to_set().subset_of(c.to_set()));
    vstd::set_lib::lemma_len_subset(q.to_set(), c.to_set());
}

pub proof fn lemma_edges_within_sub(es: Seq<Edge>, keep: Set<Id>, e: Edge)
    ensures
        edges_within(es, keep).contains(e) ==> es.contains(e),
        edges_within(es, keep).contains(e) ==> keep.contains(e.source) && keep.contains(e.target),
    decreases es.len(),
{
    if es.len() > 0 {
        lemma_edges_within_sub(es.drop_last(), keep, e);
        let prev = edges_within(es.drop_last(), keep);
        if edges_within(es, keep).contains(e) {
            let j = choose|j: int| 0 <= j < edges_within(es, keep).len() && edges_within(es, keep)[j] == e;
            if j < prev.len() {
                assert(prev[j] == e);
                let i = choose|i: int| 0 <= i < es.drop_last().len() && es.drop_last()[i] == e;
                assert(es[i] == e);
            } else {
                assert(es[es.len() - 1] == e);
            }
        }
    }
}

pub proof fn lemma_edges_within_empty(es: Seq<Edge>)
    ensures
        edges_within(es, Set::empty()) == Seq::<Edge>::empty(),
    decreases es.len(),
{
    if es.len() > 0 {
        lemma_edges_within_empty(es.drop_last());
    }
}

pub proof fn lemma_edges_within_ext(es: Seq<Edge>, k1: Set<Id>, k2: Set<Id>)
    requires
        k1 =~= k2,
    ensures
        edges_within(es, k1) == edges_within(es, k2),
{
}

/// Every edge joins two items of the crate.
pub open spec fn edges_in_index(es: Seq<Edge>, index: Map<Id, Item>) -> bool {
    forall|i: int| 0 <= i < es.len() ==> index.contains_key(#[trigger] es[i].source) && index.contains_key(es[i].target)
}

/// Adding an edge keeps the edges distinct and between items of the crate, and
/// adding it a second time changes nothing.
pub proof fn law_add_edge(es: Seq<Edge>, e: Edge, index: Map<Id, Item>)
    ensures
        es.no_duplicates() ==> edges_after_add(es, e, index).no_duplicates(),
        edges_in_index(es, index) ==> edges_in_index(edges_after_add(es, e, index), index),
        edges_after_add(edges_after_add(es, e, index), e, index) == edges_after_add(es, e, index),
{
    let es2 = edges_after_add(es, e, index);
    if index.contains_key(e.source) && index.contains_key(e.target) && !es.contains(e) {
        assert(es2.last() == e);
        assert(es2.contains(e)) by {
            assert(es2[es2.len() - 1] == e);
        }
        if es.no_duplicates() {
            assert forall|i: int, j: int| 0 <= i < es2.len() && 0 <= j < es2.len() && i != j implies es2[i] != es2[j] by {
                if i == es.len() {
                    assert(es.contains(es2[j]));
                } else if j == es.len() {
                    assert(es.contains(es2[i]));
                }
            }
        }
    }
}

/// The edges kept by `filter_to_leaf` are edges of the graph whose two ends both
/// reach the leaf.
pub proof fn law_filtered_edges_reach_leaf(es: Seq<Edge>, leaf: Id, e: Edge)
    ensures
        edges_within(es, nodes_reaching(es, leaf)).contains(e) ==> {
            &&& es.contains(e)
            &&& reaches(es, Set::full(), e.source, leaf)
            &&& reaches(es, Set::full(), e.target, leaf)
        },
{
    lemma_edges_within_sub(es, nodes_reaching(es, leaf), e);
}

/// The adjacency maps agree with the edge list.
pub open spec fn adjacency_agrees(
    es: Seq<Edge>,
    adj: Map<Id, Vec<(Id, EdgeLabel)>>,
    radj: Map<Id, Vec<(Id, EdgeLabel)>>,
) -> bool {
    &&& forall|s: Id| #[trigger] adj.contains_key(s) <==> outgoing(es, s).len() > 0
    &&& forall|s: Id| #[trigger] adj.contains_key(s) ==> adj[s]@ == outgoing(es, s)
    &&& forall|t: Id| #[trigger] radj.contains_key(t) <==> incoming(es, t).len() > 0
    &&& forall|t: Id| #[trigger] radj.contains_key(t) ==> radj[t]@ == incoming(es, t)
}

/// A graph over item ids: a list of distinct labelled edges, with the edges leaving
/// and entering each node listed by node.
#[derive(Debug, Clone)]
pub struct IdGraph {
    edges: Vec<Edge>,
    adjacency: HashMap<Id, Vec<(Id, EdgeLabel)>>,
    reverse_adjacency: HashMap<Id, Vec<(Id, EdgeLabel)>>,
}

impl IdGraph {
    /// The edges, in the order they were added.
    pub closed spec fn edge_seq(&self) -> Seq<Edge> {
        self.edges@
    }

    /// Well formed: the edges are distinct and the adjacency lists agree with them.
    pub closed spec fn wf(&self) -> bool {
        &&& self.edges@.no_duplicates()
        &&& adjacency_agrees(self.edges@, self.adjacency@, self.reverse_adjacency@)
    }

    /// The graph without edges.
    pub fn new() -> (res: IdGraph)
        ensures
            res.wf(),
            res.edge_seq() == Seq::<Edge>::empty(),
    {
        let res = IdGraph { edges: Vec::new(), adjacency: HashMap::new(), reverse_adjacency: HashMap::new() };
        assert(res.edges@ =~= Seq::<Edge>::empty());
        res
    }

    /// The edges, in the order they were added.
    pub fn edges(&self) -> (res: &Vec<Edge>)
        ensures
            res@ == self.edge_seq(),
    {
        &self.edges
    }

    /// Appends an edge that is not in the graph yet.
    fn push_new_edge(&mut self, e: Edge)
        requires
            old(self).wf(),
            !old(self).edge_seq().contains(e),
        ensures
            final(self).wf(),
            final(self).edge_seq() == old(self).edge_seq().push(e),
    {
        let ghost old_es = self.edges@;
        self.edges.push(e);
        let ghost es = self.edges@;
        assert(es.drop_last() =~= old_es);
        let ghost old_adj = self.adjacency@;
        let ghost old_radj = self.reverse_adjacency@;
        let removed = self.adjacency.remove(&e.source);
        let mut out = match removed {
            Some(v) => v,
            None => Vec::new(),
        };
        assert(out@ =~= outgoing(old_es, e.source));
        out.push((e.target, e.label));
        self.adjacency.insert(e.source, out);
        let removed_in = self.reverse_adjacency.remove(&e.target);
        let mut inc = match removed_in {
            Some(v) => v,
            None => Vec::new(),
        };
        assert(inc@ =~= incoming(old_es, e.target));
        inc.push((e.source, e.label));
        self.reverse_adjacency.insert(e.target, inc);
        proof {
            assert(self.adjacency@ == old_adj.insert(e.source, out));
            assert(self.reverse_adjacency@ == old_radj.insert(e.target, inc));
            assert forall|s: Id| outgoing(es, s) == if s == e.source {
                outgoing(old_es, s).push((e.target, e.label))
            } else {
                outgoing(old_es, s)
            } by {}
            assert forall|t: Id| incoming(es, t) == if t == e.target {
                incoming(old_es, t).push((e.source, e.label))
            } else {
                incoming(old_es, t)
            } by {}
            assert(es.no_duplicates()) by {
                assert forall|i: int, j: int| 0 <= i < es.len() && 0 <= j < es.len() && i != j
                    implies es[i] != es[j] by {
                    if j == es.len() - 1 {
                        assert(old_es[i] == es[i]);
                    } else if i == es.len() - 1 {
                        assert(old_es[j] == es[j]);
                    }
                }
            }
        }
    }

    /// Whether the graph has the edge.
    pub fn contains_edge(&self, e: Edge) -> (res: bool)
        requires
            self.wf(),
        ensures
            res == self.edge_seq().contains(e),
    {
        proof {
            lemma_outgoing_contains(self.edges@, e.source, e.target, e.label);
            lemma_outgoing_len(self.edges@, e.source);
        }
        match self.adjacency.get(&e.source) {
            None => {
                proof {
                    if self.edges@.contains(e) {
                        let i = choose|i: int| 0 <= i < self.edges@.len() && self.edges@[i] == e;
                        assert(self.edges@[i].source == e.source);
                    }
                }
                false
            },
            Some(out) => {
                assert(self.adjacency@.contains_key(e.source));
                assert(out@ == outgoing(self.edges@, e.source));
                let mut k: usize = 0;
                while k < out.len()
                    invariant
                        k <= out.len(),
                        forall|j: int| 0 <= j < k ==> out@[j] != (e.target, e.label),
                        out@ == outgoing(self.edges@, e.source),
                        outgoing(self.edges@, e.source).contains((e.target, e.label)) <==> self.edges@.contains(e),
                    decreases out.len() - k,
                {
                    if out[k].0 == e.target && out[k].1 == e.label {
                        assert(out@[k as int] == (e.target, e.label));
                        assert(out@.contains((e.target, e.label)));
                        return true;
                    }
                    k = k + 1;
                }
                false
            },
        }
    }

    /// Adds the edge from `source` to `target` with `label`, when both ends are items
    /// of `krate` and the graph does not have it yet.
    pub fn add_edge(&mut self, source: Id, target: Id, label: EdgeLabel, krate: &Crate)
        requires
            old(self).wf(),
        ensures
            final(self).wf(),
            final(self).edge_seq() == edges_after_add(
                old(self).edge_seq(),
                Edge { source, target, label },
                krate.index_map(),
            ),
    {
        if krate.contains(source) && krate.contains(target) {
            let edge = Edge { source, target, label };
            if !self.contains_edge(edge) {
                self.push_new_edge(edge);
            }
        }
    }

    /// The (target, label) pairs of the edges leaving `source_id`, if there are any.
    pub fn get_children(&self, source_id: Id) -> (res: Option<&Vec<(Id, EdgeLabel)>>)
        requires
            self.wf(),
        ensures
            match res {
                Some(v) => v@ == outgoing(self.edge_seq(), source_id) && v@.len() > 0,
                None => outgoing(self.edge_seq(), source_id).len() == 0,
            },
    {
        self.adjacency.get(&source_id)
    }

    /// The (source, label) pairs of the edges entering `target_id`, if there are any.
    pub fn get_parents(&self, target_id: Id) -> (res: Option<&Vec<(Id, EdgeLabel)>>)
        requires
            self.wf(),
        ensures
            match res {
                Some(v) => v@ == incoming(self.edge_seq(), target_id) && v@.len() > 0,
                None => incoming(self.edge_seq(), target_id).len() == 0,
            },
    {
        self.reverse_adjacency.get(&target_id)
    }

    /// Whether `id` is an endpoint of some edge.
    pub fn has_node(&self, id: Id) -> (res: bool)
        requires
            self.wf(),
        ensures
            res == is_node(self.edge_seq(), id),
    {
        proof {
            lemma_outgoing_len(self.edges@, id);
            lemma_incoming_len(self.edges@, id);
        }
        self.reverse_adjacency.contains_key(&id) || self.adjacency.contains_key(&id)
    }

    /// The nodes that no edge enters: every endpoint of an edge that is not a target.
    pub fn find_roots(&self) -> (res: HashSet<Id>)
        requires
            self.wf(),
        ensures
            forall|n: Id| #[trigger] res@.contains(n)
                <==> (is_node(self.edge_seq(), n) && !has_incoming(self.edge_seq(), n)),
    {
        let mut targets: HashSet<Id> = HashSet::new();
        let n = self.edges.len();
        for k in 0..n
            invariant
                n == self.edges@.len(),
                forall|t: Id| #[trigger] targets@.contains(t)
                    <==> exists|i: int| 0 <= i < k && self.edges@[i].target == t,
        {
            targets.insert(self.edges[k].target);
            proof {
                assert forall|t: Id| #[trigger] targets@.contains(t)
                    <==> exists|i: int| 0 <= i < k + 1 && self.edges@[i].target == t by {
                    if exists|i: int| 0 <= i < k + 1 && self.edges@[i].target == t {
                        let i = choose|i: int| 0 <= i < k + 1 && self.edges@[i].target == t;
                        if i < k {
                            assert(exists|i: int| 0 <= i < k && self.edges@[i].target == t);
                        }
                    }
                }
            }
        }
        let mut roots: HashSet<Id> = HashSet::new();
        for k in 0..n
            invariant
                n == self.edges@.len(),
                forall|t: Id| #[trigger] targets@.contains(t) <==> has_incoming(self.edges@, t),
                forall|x: Id| #[trigger] roots@.contains(x)
                    <==> (!has_incoming(self.edges@, x) && exists|i: int|
                        0 <= i < k && (self.edges@[i].source == x || self.edges@[i].target == x)),
        {
            let e = self.edges[k];
            if !targets.contains(&e.source) {
                roots.insert(e.source);
            }
            if !targets.contains(&e.target) {
                roots.insert(e.target);
            }
            proof {
                assert forall|x: Id| #[trigger] roots@.contains(x)
                    <==> (!has_incoming(self.edges@, x) && exists|i: int|
                        0 <= i < k + 1 && (self.edges@[i].source == x || self.edges@[i].target == x)) by {
                    if exists|i: int| 0 <= i < k + 1 && (self.edges@[i].source == x || self.edges@[i].target == x) {
                        let i = choose|i: int| 0 <= i < k + 1 && (self.edges@[i].source == x || self.edges@[i].target == x);
                        if i < k {
                            assert(exists|i: int| 0 <= i < k && (self.edges@[i].source == x || self.edges@[i].target == x));
                        }
                    }
                }
            }
        }
        roots
    }

    /// The subgraph of the edges both of whose ends reach `target_leaf_id`; no edges
    /// when `target_leaf_id` is not a node of the graph.
    pub fn filter_to_leaf(&self, target_leaf_id: Id) -> (res: IdGraph)
        requires
            self.wf(),
        ensures
            res.wf(),
            res.edge_seq() == edges_within(self.edge_seq(), nodes_reaching(self.edge_seq(), target_leaf_id)),
    {
        let mut filtered_graph = IdGraph::new();
        let ghost es = self.edges@;
        let ghost cands = node_candidates(es, target_leaf_id);
        if !self.has_node(target_leaf_id) {
            proof {
                lemma_edges_within_empty(es);
            }
            return filtered_graph;
        }
        let mut reachable_nodes: HashSet<Id> = HashSet::new();
        let mut queue: Vec<Id> = Vec::new();
        reachable_nodes.insert(target_leaf_id);
        queue.push(target_leaf_id);
        proof {
            assert(reaches_within(es, Set::full(), target_leaf_id, target_leaf_id, 0));
            assert(cands[0] == target_leaf_id);
            assert(queue@[0] == target_leaf_id);
        }
        let mut head: usize = 0;
        while head < queue.len()
            invariant
                self.wf(),
                es == self.edges@,
                cands == node_candidates(es, target_leaf_id),
                head <= queue.len(),
                queue@.no_duplicates(),
                queue@.contains(target_leaf_id),
                forall|x: Id| #[trigger] reachable_nodes@.contains(x) <==> queue@.contains(x),
                forall|x: Id| #[trigger] queue@.contains(x) ==> cands.contains(x),
                forall|x: Id| #[trigger] queue@.contains(x) ==> reaches(es, Set::full(), x, target_leaf_id),
                forall|i: int, j: int| 0 <= i < head && 0 <= j < es.len() && es[j].target == #[trigger] queue@[i]
                    ==> reachable_nodes@.contains(#[trigger] es[j].source),
            decreases cands.len() - head,
        {
            proof {
                lemma_nodup_subset_len(queue@, cands);
            }
            let current_id = queue[head];
            let ghost q0 = queue@;
            match self.get_parents(current_id) {
                Some(parents) => {
                    let np = parents.len();
                    for k in 0..np
                        invariant
                            self.wf(),
                            es == self.edges@,
                            cands == node_candidates(es, target_leaf_id),
                            np == parents@.len(),
                            parents@ == incoming(es, current_id),
                            head < q0.len(),
                            q0[head as int] == current_id,
                            queue@.len() >= q0.len(),
                            forall|i: int| 0 <= i < q0.len() ==> queue@[i] == q0[i],
                            queue@.no_duplicates(),
                            forall|x: Id| #[trigger] reachable_nodes@.contains(x) <==> queue@.contains(x),
                            forall|x: Id| #[trigger] queue@.contains(x) ==> cands.contains(x),
                            forall|x: Id| #[trigger] queue@.contains(x) ==> reaches(es, Set::full(), x, target_leaf_id),
                            forall|q: int| 0 <= q < k ==> reachable_nodes@.contains(#[trigger] parents@[q].0),
                    {
                        let parent_id = parents[k].0;
                        proof {
                            let l = parents@[k as int].1;
                            assert(incoming(es, current_id).contains((parent_id, l)));
                            lemma_incoming_contains(es, parent_id, current_id, l);
                            let i = choose|i: int| 0 <= i < es.len() && es[i] == Edge { source: parent_id, target: current_id, label: l };
                            assert(queue@.contains(current_id)) by {
                                assert(queue@[head as int] == current_id);
                            }
                            let kk = choose|kk: nat| reaches_within(es, Set::full(), current_id, target_leaf_id, kk);
                            lemma_reach_step(es, Set::full(), i, target_leaf_id, kk);
                            assert(cands[i + 1] == parent_id);
                        }
                        if reachable_nodes.insert(parent_id) {
                            let ghost before = queue@;
                            queue.push(parent_id);
                            proof {
                                assert forall|x: Id| #[trigger] queue@.contains(x) <==> (before.contains(x) || x == parent_id) by {
                                    if queue@.contains(x) {
                                        let j = choose|j: int| 0 <= j < queue@.len() && queue@[j] == x;
                                        if j < before.len() {
                                            assert(before[j] == x);
                                        }
                                    }
                                    if before.contains(x) {
                                        let j = choose|j: int| 0 <= j < before.len() && before[j] == x;
                                        assert(queue@[j] == x);
                                    }
                                    if x == parent_id {
                                        assert(queue@[queue@.len() - 1] == x);
                                    }
                                }
                                assert(queue@.no_duplicates()) by {
                                    assert forall|a: int, b: int| 0 <= a < queue@.len() && 0 <= b < queue@.len() && a != b
                                        implies queue@[a] != queue@[b] by {
                                        if a == queue@.len() - 1 {
                                            assert(before.contains(queue@[b]));
                                        } else if b == queue@.len() - 1 {
                                            assert(before.contains(queue@[a]));
                                        }
                                    }
                                }
                            }
                        }
                    }
                    proof {
                        assert forall|j: int| 0 <= j < es.len() && es[j].target == current_id
                            implies reachable_nodes@.contains(es[j].source) by {
                            lemma_incoming_contains(es, es[j].source, current_id, es[j].label);
                            assert(es.contains(es[j]));
                            let q = choose|q: int| 0 <= q < parents@.len() && parents@[q] == (es[j].source, es[j].label);
                            assert(reachable_nodes@.contains(parents@[q].0));
                        }
                    }
                },
                None => {
                    proof {
                        lemma_incoming_len(es, current_id);
                    }
                },
            }
            proof {
                assert forall|i: int, j: int| 0 <= i < head + 1 && 0 <= j < es.len() && es[j].target == #[trigger] queue@[i]
                    implies reachable_nodes@.contains(#[trigger] es[j].source) by {
                    if i == head {
                        assert(queue@[i] == current_id);
                    } else {
                        assert(queue@[i] == q0[i]);
                    }
                }
            }
            head = head + 1;
        }
        let ghost v = reachable_nodes@;
        proof {
            assert forall|j: int| 0 <= j < es.len() && #[trigger] v.contains(es[j].target)
                implies v.contains(es[j].source) by {
                let i = choose|i: int| 0 <= i < queue@.len() && queue@[i] == es[j].target;
                assert(es[j].target == queue@[i]);
            }
            assert forall|n: Id| v.contains(n) <==> nodes_reaching(es, target_leaf_id).contains(n) by {
                if nodes_reaching(es, target_leaf_id).contains(n) {
                    let kk = choose|kk: nat| reaches_within(es, Set::full(), n, target_leaf_id, kk);
                    lemma_closed_backward(es, v, target_leaf_id, n, kk);
                }
            }
            assert(v =~= nodes_reaching(es, target_leaf_id));
        }
        let n = self.edges.len();
        for k in 0..n
            invariant
                self.wf(),
                es == self.edges@,
                n == es.len(),
                v == reachable_nodes@,
                filtered_graph.wf(),
                filtered_graph.edges@ == edges_within(es.take(k as int), v),
        {
            let e = self.edges[k];
            proof {
                assert(es.take(k + 1).drop_last() =~= es.take(k as int));
                assert(es.take(k + 1).last() == e);
            }
            if reachable_nodes.contains(&e.source) && reachable_nodes.contains(&e.target) {
                proof {
                    lemma_edges_within_sub(es.take(k as int), v, e);
                    if es.take(k as int).contains(e) {
                        let i = choose|i: int| 0 <= i < k && es.take(k as int)[i] == e;
                        assert(es[i] == es[k as int]);
                    }
                }
                filtered_graph.push_new_edge(e);
            }
        }
        proof {
            assert(es.take(n as int) =~= es);
            lemma_edges_within_ext(es, v, nodes_reaching(es, target_leaf_id));
        }
        filtered_graph
    }

    /// The edges that enter `target_id`, in edge order.
    pub fn find_incoming_edges(&self, target_id: Id) -> (res: Vec<Edge>)
        ensures
            res@ == self.edge_seq().filter(|e: Edge| e.target == target_id),
    {
        let mut res: Vec<Edge> = Vec::new();
        let n = self.edges.len();
        for k in 0..n
            invariant
                n == self.edges@.len(),
                res@ == self.edges@.take(k as int).filter(|e: Edge| e.target == target_id),
        {
            let e = self.edges[k];
            proof {
                reveal_with_fuel(Seq::filter, 1);
                assert(self.edges@.take(k + 1).drop_last() =~= self.edges@.take(k as int));
            }
            if e.target == target_id {
                res.push(e);
            }
        }
        assert(self.edges@.take(n as int) =~= self.edges@);
        res
    }
}

} // verus!
