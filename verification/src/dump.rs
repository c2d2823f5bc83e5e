//! A text dump of the dependency graph: a tree from each root, each node with its
//! id, name, path and kind, each edge with its label.

use vstd::prelude::*;
use std::collections::HashSet;
use crate::graph::{EdgeLabel, IdGraph, label_name};
use crate::model::{Crate, Id, ItemEnum, ItemKind};
use crate::printer::{infer_item_kind, kind_of_id};
use crate::text::{decimal, join, views};

verus! {

/// The name of a kind, as its `Debug` form shows it.
pub open spec fn kind_name(k: ItemKind) -> Seq<char> {
    match k {
        ItemKind::Module => "Module"@,
        ItemKind::ExternCrate => "ExternCrate"@,
        ItemKind::Use => "Use"@,
        ItemKind::Struct => "Struct"@,
        ItemKind::StructField => "StructField"@,
        ItemKind::Union => "Union"@,
        ItemKind::Enum => "Enum"@,
        ItemKind::Variant => "Variant"@,
        ItemKind::Function => "Function"@,
        ItemKind::TypeAlias => "TypeAlias"@,
        ItemKind::Constant => "Constant"@,
        ItemKind::Trait => "Trait"@,
        ItemKind::TraitAlias => "TraitAlias"@,
        ItemKind::Impl => "Impl"@,
        ItemKind::Static => "Static"@,
        ItemKind::ExternType => "ExternType"@,
        ItemKind::Macro => "Macro"@,
        ItemKind::ProcAttribute => "ProcAttribute"@,
        ItemKind::ProcDerive => "ProcDerive"@,
        ItemKind::AssocConst => "AssocConst"@,
        ItemKind::AssocType => "AssocType"@,
        ItemKind::Primitive => "Primitive"@,
        ItemKind::Keyword => "Keyword"@,
    }
}

/// The name of a kind: see `kind_name`.
pub fn kind_str(k: ItemKind) -> (res: &'static str)
    ensures
        res@ == kind_name(k),
{
    match k {
        ItemKind::Module => "Module",
        ItemKind::ExternCrate => "ExternCrate",
        ItemKind::Use => "Use",
        ItemKind::Struct => "Struct",
        ItemKind::StructField => "StructField",
        ItemKind::Union => "Union",
        ItemKind::Enum => "Enum",
        ItemKind::Variant => "Variant",
        ItemKind::Function => "Function",
        ItemKind::TypeAlias => "TypeAlias",
        ItemKind::Constant => "Constant",
        ItemKind::Trait => "Trait",
        ItemKind::TraitAlias => "TraitAlias",
        ItemKind::Impl => "Impl",
        ItemKind::Static => "Static",
        ItemKind::ExternType => "ExternType",
        ItemKind::Macro => "Macro",
        ItemKind::ProcAttribute => "ProcAttribute",
        ItemKind::ProcDerive => "ProcDerive",
        ItemKind::AssocConst => "AssocConst",
        ItemKind::AssocType => "AssocType",
        ItemKind::Primitive => "Primitive",
        ItemKind::Keyword => "Keyword",
    }
}

/// A node as the dump shows it: `Id(N): name (Path: a::b, Kind: K)`, with
/// `{unnamed}`, `{no_path}` and `{UnknownKind}` for what is missing.
pub open spec fn item_info_text(k: &Crate, id: Id) -> Seq<char> {
    let name = if k.index_map().contains_key(id) && k.index_map()[id].name is Some {
        k.index_map()[id].name->Some_0@
    } else {
        "{unnamed}"@
    };
    let path = if k.paths_map().contains_key(id) {
        join(views(k.paths_map()[id].path@), "::"@)
    } else {
        "{no_path}"@
    };
    let kind = match kind_of_id(k, id) {
        Some(kd) => kind_name(kd),
        None => "{UnknownKind}"@,
    };
    "Id("@ + decimal(id as nat) + "): "@ + name + " (Path: "@ + path + ", Kind: "@ + kind + ")"@
}

/// A node as the dump shows it: see `item_info_text`.
pub fn get_item_info_string(id: Id, krate: &Crate) -> (res: String)
    ensures
        res@ == item_info_text(krate, id),
{
    let mut s = String::from_str("Id(");
    let d = crate::text::decimal_string(id as usize);
    s.append(d.as_str());
    s.append("): ");
    match krate.get(id) {
        Some(item) => match &item.name {
            Some(n) => s.append(n.as_str()),
            None => s.append("{unnamed}"),
        },
        None => s.append("{unnamed}"),
    }
    s.append(" (Path: ");
    match krate.get_path(id) {
        Some(summary) => {
            let p = crate::text::join_strings(&summary.path, "::");
            s.append(p.as_str());
        },
        None => s.append("{no_path}"),
    }
    s.append(", Kind: ");
    let kind = match krate.get(id) {
        Some(item) => Some(infer_item_kind(item)),
        None => match krate.get_path(id) {
            Some(summary) => Some(summary.kind),
            None => None,
        },
    };
    match kind {
        Some(kd) => s.append(kind_str(kd)),
        None => s.append("{UnknownKind}"),
    }
    s.append(")");
    s
}

/// The last `k` decimal digits of `n`, leading zeros included.
pub open spec fn padded_digits(n: int, k: nat) -> Seq<char>
    decreases k,
{
    if k == 0 {
        Seq::empty()
    } else {
        padded_digits(n / 10, (k - 1) as nat).push(crate::text::digit_char(n % 10))
    }
}

/// An id written with ten digits, so that the order of these strings is the order of
/// the numbers.
pub fn padded_id(id: Id) -> (res: String)
    ensures
        res@ == padded_digits(id as int, 10),
        res@.len() == 10,
{
    let mut digits: Vec<char> = Vec::new();
    let mut n: u32 = id;
    proof {
        lemma_padded_len(id as int, 10);
    }
    for i in 0..10usize
        invariant
            digits@.len() == i,
            padded_digits(n as int, (10 - i) as nat) + digits@ == padded_digits(id as int, 10),
    {
        let ghost d0 = digits@;
        let ghost n0 = n;
        let d = n % 10;
        let c = if d == 0 {
            '0'
        } else if d == 1 {
            '1'
        } else if d == 2 {
            '2'
        } else if d == 3 {
            '3'
        } else if d == 4 {
            '4'
        } else if d == 5 {
            '5'
        } else if d == 6 {
            '6'
        } else if d == 7 {
            '7'
        } else if d == 8 {
            '8'
        } else {
            '9'
        };
        digits.insert(0, c);
        n = n / 10;
        proof {
            assert(c == crate::text::digit_char(n0 as int % 10));
            assert(digits@ =~= seq![c] + d0);
            let p = padded_digits(n as int, (10 - i - 1) as nat);
            assert(padded_digits(n0 as int, (10 - i) as nat) == p.push(c));
            assert(p.push(c) + d0 =~= p + digits@);
        }
    }
    assert(padded_digits(n as int, 0) + digits@ =~= digits@);
    crate::text::string_of(&digits)
}

/// The padded digits have the length asked for.
proof fn lemma_padded_len(n: int, k: nat)
    ensures
        padded_digits(n, k).len() == k,
    decreases k,
{
    if k > 0 {
        lemma_padded_len(n / 10, (k - 1) as nat);
    }
}

/// What the dump keeps while it walks: the nodes met anywhere, the nodes on the
/// current path, and the text so far.
pub struct DumpState {
    pub visited: HashSet<Id>,
    pub path_to_target: HashSet<Id>,
    pub out: String,
}

/// `n` spaces.
fn spaces(n: usize) -> (res: String)
    ensures
        res@ == crate::text::repeated(' ', n as nat),
{
    crate::text::repeat_char(' ', n)
}

/// The sort key of each child: the target's ten-digit form, then the label's name.
pub open spec fn child_keys(children: Seq<(Id, EdgeLabel)>) -> Seq<Seq<Seq<char>>> {
    children.map_values(|c: (Id, EdgeLabel)| seq![padded_digits(c.0 as int, 10), label_name(c.1)])
}

/// The children of a node sorted by target id and then label.
fn sorted_children(graph: &IdGraph, node_id: Id) -> (res: Vec<(Id, EdgeLabel)>)
    requires
        graph.wf(),
    ensures
        crate::order::arranged(
            crate::graph::outgoing(graph.edge_seq(), node_id),
            child_keys(crate::graph::outgoing(graph.edge_seq(), node_id)),
            res@,
        ),
        res@.len() == crate::graph::outgoing(graph.edge_seq(), node_id).len(),
{
    match graph.get_children(node_id) {
        Some(children) => {
            let mut keys: Vec<Vec<String>> = Vec::new();
            let n = children.len();
            for i in 0..n
                invariant
                    n == children@.len(),
                    keys@.len() == i,
                    forall|j: int| 0 <= j < i ==> #[trigger] crate::order::key_views(keys@)[j] == child_keys(children@)[j],
            {
                let mut key: Vec<String> = Vec::new();
                key.push(padded_id(children[i].0));
                key.push(String::from_str(children[i].1.fmt()));
                let ghost kb = keys@;
                keys.push(key);
                proof {
                    assert forall|j: int| 0 <= j < i + 1 implies #[trigger] crate::order::key_views(keys@)[j] == child_keys(children@)[j] by {
                        assert(crate::order::key_views(keys@)[j] == views(keys@[j]@));
                        assert(child_keys(children@)[j] == seq![padded_digits(children@[j].0 as int, 10), label_name(children@[j].1)]);
                        if j < i {
                            assert(keys@[j] == kb[j]);
                            assert(crate::order::key_views(kb)[j] == views(kb[j]@));
                        } else {
                            assert(views(keys@[j]@) =~= seq![padded_digits(children@[j].0 as int, 10), label_name(children@[j].1)]);
                        }
                    }
                }
            }
            assert(crate::order::key_views(keys@) =~= child_keys(children@));
            crate::order::sort_by_keys(children, &keys)
        },
        None => {
            let res: Vec<(Id, EdgeLabel)> = Vec::new();
            proof {
                let e: Seq<usize> = Seq::empty();
                let out = crate::graph::outgoing(graph.edge_seq(), node_id);
                assert(crate::order::stably_sorted(child_keys(out), e));
                assert(res@ =~= e.map_values(|j: usize| out[j as int]));
            }
            res
        },
    }
}

/// Writes a node and, the first time it is met, its children below it, indented,
/// until `max_depth`; the current path is as before when it returns. `fuel` bounds
/// the recursion: a node is expanded only when met for the first time, so more
/// levels than there are nodes are never needed.
pub fn dump_node(
    node_id: Id,
    graph: &IdGraph,
    krate: &Crate,
    st: &mut DumpState,
    indent: usize,
    depth: usize,
    max_depth: Option<usize>,
    prefix: &str,
    parent_label: Option<EdgeLabel>,
    is_root_call: bool,
    fuel: usize,
)
    requires
        graph.wf(),
        indent + 4 * fuel + 8 < usize::MAX,
        depth + fuel < usize::MAX,
    ensures
        old(st).out@.is_prefix_of(final(st).out@),
        final(st).path_to_target@ == old(st).path_to_target@,
        old(st).visited@.subset_of(final(st).visited@),
        final(st).visited@.contains(node_id),
        ({
            let newly = !old(st).visited@.contains(node_id);
            let line = node_line(krate, node_id, indent, prefix@, parent_label, newly, is_root_call);
            let at_max = max_depth matches Some(m) && depth >= m;
            let out = crate::graph::outgoing(graph.edge_seq(), node_id);
            &&& (old(st).out@ + line).is_prefix_of(final(st).out@)
            &&& !newly ==> final(st).out@ == old(st).out@ + line
            &&& newly && at_max ==> final(st).out@ == old(st).out@ + line + (if out.len() > 0 {
                truncation_line(indent, out.len() == 1)
            } else {
                Seq::empty()
            })
        }),
    decreases fuel,
{
    let inserted_in_path = st.path_to_target.insert(node_id);
    let is_newly_visited = st.visited.insert(node_id);
    let should_print = is_root_call || is_newly_visited || st.path_to_target.contains(&node_id);
    if should_print {
        let info = get_item_info_string(node_id, krate);
        let mut line = spaces(indent);
        line.append(prefix);
        line.append(info.as_str());
        if let Some(l) = parent_label {
            line.append(" [");
            line.append(l.fmt());
            line.append("]");
        }
        if !is_newly_visited && st.path_to_target.contains(&node_id) && !is_root_call {
            line.append(" [... cycle or previously visited on current path ...]");
        } else if !is_newly_visited && !is_root_call {
            line.append(" [... previously visited (not on current path) ...]");
        }
        line.append("\n");
        proof {
            reveal_strlit("");
            assert(line@ =~= node_line(krate, node_id, indent, prefix@, parent_label, is_newly_visited, is_root_call));
        }
        st.out.append(line.as_str());
    }
    let ghost after_line = st.out@;
    let at_max = match max_depth {
        Some(max) => depth >= max,
        None => false,
    };
    if at_max {
        if is_newly_visited {
            if let Some(children) = graph.get_children(node_id) {
                let mut line = spaces(indent + 4);
                if children.len() == 1 {
                    line.append("└──");
                } else {
                    line.append("├──");
                }
                line.append(" [... children truncated due to max depth ...]\n");
                st.out.append(line.as_str());
            }
        }
        if inserted_in_path {
            st.path_to_target.remove(&node_id);
        }
        return;
    }
    if is_newly_visited && fuel > 0 {
        let children = sorted_children(graph, node_id);
        let n = children.len();
        let ghost mid = *st;
        for i in 0..n
            invariant
                n == children@.len(),
                graph.wf(),
                indent + 4 * fuel + 8 < usize::MAX,
                depth + fuel < usize::MAX,
                fuel > 0,
                mid.out@.is_prefix_of(st.out@),
                st.path_to_target@ == mid.path_to_target@,
                mid.visited@.subset_of(st.visited@),
        {
            let new_prefix = if i == n - 1 {
                "└── "
            } else {
                "├── "
            };
            dump_node(
                children[i].0,
                graph,
                krate,
                st,
                indent + 4,
                depth + 1,
                max_depth,
                new_prefix,
                Some(children[i].1),
                false,
                fuel - 1,
            );
        }
    }
    if inserted_in_path {
        st.path_to_target.remove(&node_id);
    }
}

/// The line of a node in the dump: its indentation, the tree prefix, the item's
/// description, the label of the edge from its parent, and a marker where the node
/// was met before (not for a root of the dump).
pub open spec fn node_line(
    k: &Crate,
    node: Id,
    indent: usize,
    prefix: Seq<char>,
    parent_label: Option<EdgeLabel>,
    newly_visited: bool,
    is_root_call: bool,
) -> Seq<char> {
    crate::text::repeated(' ', indent as nat) + prefix + item_info_text(k, node) + (match parent_label {
        Some(l) => " ["@ + label_name(l) + "]"@,
        None => Seq::empty(),
    }) + (if !newly_visited && !is_root_call {
        " [... cycle or previously visited on current path ...]"@
    } else {
        Seq::empty()
    }) + "\n"@
}

/// The line that says a node's children are cut off by the depth limit.
pub open spec fn truncation_line(indent: usize, one_child: bool) -> Seq<char> {
    crate::text::repeated(' ', (indent + 4) as nat) + (if one_child { "└──"@ } else { "├──"@ })
        + " [... children truncated due to max depth ...]\n"@
}

/// The distinct sources of the edges, in the order they first occur.
pub open spec fn first_sources(es: Seq<crate::graph::Edge>) -> Seq<Id>
    decreases es.len(),
{
    if es.len() == 0 {
        Seq::empty()
    } else {
        let before = first_sources(es.drop_last());
        if before.contains(es.last().source) {
            before
        } else {
            before.push(es.last().source)
        }
    }
}

/// The distinct sources of the graph's edges, in the order they first occur.
fn edge_sources(graph: &IdGraph) -> (res: Vec<Id>)
    ensures
        res@ == first_sources(graph.edge_seq()),
        res@.no_duplicates(),
{
    let mut res: Vec<Id> = Vec::new();
    let edges = graph.edges();
    let n = edges.len();
    for i in 0..n
        invariant
            n == edges@.len(),
            res@.no_duplicates(),
            res@ == first_sources(edges@.take(i as int)),
    {
        proof {
            assert(edges@.take(i + 1).drop_last() =~= edges@.take(i as int));
            assert(edges@.take(i + 1).last() == edges@[i as int]);
        }
        crate::select::insert_id(&mut res, edges[i].source);
    }
    assert(edges@.take(n as int) =~= edges@);
    res
}

/// The sort key of each id: its ten-digit form.
pub open spec fn numeric_keys(ids: Seq<Id>) -> Seq<Seq<Seq<char>>> {
    ids.map_values(|id: Id| seq![padded_digits(id as int, 10)])
}

/// The ids sorted by number: stably, by their ten-digit forms.
fn sort_ids_numerically(ids: &Vec<Id>) -> (res: Vec<Id>)
    ensures
        crate::order::arranged(ids@, numeric_keys(ids@), res@),
        res@.len() == ids@.len(),
        forall|i: int| 0 <= i < ids@.len() ==> res@.contains(#[trigger] ids@[i]),
        forall|i: int| 0 <= i < res@.len() ==> ids@.contains(#[trigger] res@[i]),
{
    let mut keys: Vec<Vec<String>> = Vec::new();
    let n = ids.len();
    for i in 0..n
        invariant
            n == ids@.len(),
            keys@.len() == i,
            forall|j: int| 0 <= j < i ==> #[trigger] crate::order::key_views(keys@)[j] == numeric_keys(ids@)[j],
    {
        let mut key: Vec<String> = Vec::new();
        key.push(padded_id(ids[i]));
        let ghost kb = keys@;
        keys.push(key);
        proof {
            assert forall|j: int| 0 <= j < i + 1 implies #[trigger] crate::order::key_views(keys@)[j] == numeric_keys(ids@)[j] by {
                assert(crate::order::key_views(keys@)[j] == views(keys@[j]@));
                assert(numeric_keys(ids@)[j] == seq![padded_digits(ids@[j] as int, 10)]);
                if j < i {
                    assert(keys@[j] == kb[j]);
                    assert(crate::order::key_views(kb)[j] == views(kb[j]@));
                } else {
                    assert(views(keys@[j]@) =~= seq![padded_digits(ids@[j] as int, 10)]);
                }
            }
        }
    }
    assert(crate::order::key_views(keys@) =~= numeric_keys(ids@));
    crate::order::sort_by_keys(ids, &keys)
}

/// The texts one after the other.
pub open spec fn concat(parts: Seq<Seq<char>>) -> Seq<char>
    decreases parts.len(),
{
    if parts.len() == 0 {
        Seq::empty()
    } else {
        concat(parts.drop_last()) + parts.last()
    }
}

/// Whether the ids come in the order of their ten-digit forms.
pub open spec fn numerically_sorted(ids: Seq<Id>) -> bool {
    forall|i: int, j: int| 0 <= i < j < ids.len() ==> !crate::order::key_lt(
        #[trigger] numeric_keys(ids)[j],
        #[trigger] numeric_keys(ids)[i],
    )
}

/// What `sort_ids_numerically` gives is sorted by number.
proof fn lemma_arranged_sorted(ids: Seq<Id>, res: Seq<Id>)
    requires
        crate::order::arranged(ids, numeric_keys(ids), res),
    ensures
        numerically_sorted(res),
{
    let order = choose|order: Seq<usize>| #[trigger] crate::order::stably_sorted(numeric_keys(ids), order)
        && res =~= order.map_values(|j: usize| ids[j as int]);
    assert forall|i: int, j: int| 0 <= i < j < res.len() implies !crate::order::key_lt(
        #[trigger] numeric_keys(res)[j],
        #[trigger] numeric_keys(res)[i],
    ) by {
        assert(numeric_keys(res)[j] == numeric_keys(ids)[order[j] as int]);
        assert(numeric_keys(res)[i] == numeric_keys(ids)[order[i] as int]);
        assert(crate::order::key_at(numeric_keys(ids), order[j] as int) == numeric_keys(ids)[order[j] as int]);
    }
}

/// What a tree of a dump cut at depth zero holds: its node's line, then the
/// truncation line where the node has children.
pub open spec fn depth_zero_tree(k: &Crate, es: Seq<crate::graph::Edge>, node: Id) -> Seq<char> {
    let out = crate::graph::outgoing(es, node);
    node_line(k, node, 0, Seq::empty(), None, true, true) + (if out.len() > 0 {
        truncation_line(0, out.len() == 1)
    } else {
        Seq::empty()
    })
}

/// What is known of the trees of a dump: the nodes it starts from, sorted by number,
/// one tree each, each tree empty (its node met in an earlier tree) or starting with
/// the node's line, the first one not empty; with a depth limit of zero, each tree
/// that is not empty is its node's line and the truncation line (see `depth_zero_tree`).
pub open spec fn dump_shape(
    k: &Crate,
    roots: Set<Id>,
    es: Seq<crate::graph::Edge>,
    max_depth: Option<usize>,
    starts: Seq<Id>,
    trees: Seq<Seq<char>>,
) -> bool {
    &&& max_depth == Some(0usize) ==> forall|i: int| 0 <= i < trees.len() && (#[trigger] trees[i]).len() > 0
        ==> trees[i] == depth_zero_tree(k, es, starts[i])
    &&& numerically_sorted(starts)
    &&& (forall|x: Id| #[trigger] starts.contains(x) <==> dump_starts(roots, es, x))
    &&& trees.len() == starts.len()
    &&& forall|i: int| 0 <= i < trees.len() ==> (#[trigger] trees[i]).len() == 0
        || node_line(k, starts[i], 0, Seq::empty(), None, true, true).is_prefix_of(trees[i])
    &&& trees.len() > 0 ==> node_line(k, starts[0], 0, Seq::empty(), None, true, true).is_prefix_of(trees[0])
}

/// The nodes a dump starts from: the roots, or, where there are none but there are
/// edges, the sources of the edges.
pub open spec fn dump_starts(roots: Set<Id>, es: Seq<crate::graph::Edge>, x: Id) -> bool {
    if roots.is_empty() && es.len() > 0 {
        first_sources(es).contains(x)
    } else {
        roots.contains(x)
    }
}

/// The first line of a dump: a warning that there are edges but no roots, or the
/// list of roots that follows.
pub open spec fn dump_header(no_roots_but_edges: bool, description: Seq<char>) -> Seq<char> {
    if no_roots_but_edges {
        "Warning: Graph has edges but no "@ + description
            + " roots found (potentially due to filtering or cycles). Dumping all nodes alphabetically:\n"@
    } else {
        "Graph Roots ("@ + description + "):\n"@
    }
}

/// The dump of the graph from the given roots, sorted by id, each once: a header
/// line, then a tree per root not met before. With no roots but some edges, a
/// warning line, then a tree from each source of an edge not met before.
pub fn dump_graph_subset(
    graph: &IdGraph,
    krate: &Crate,
    root_ids: &HashSet<Id>,
    dump_description: &str,
    max_depth: Option<usize>,
) -> (res: String)
    requires
        graph.wf(),
    ensures
        dump_header(root_ids@.is_empty() && graph.edge_seq().len() > 0, dump_description@).is_prefix_of(res@),
        root_ids@.is_empty() && graph.edge_seq().len() == 0 ==> res@ == dump_header(false, dump_description@),
        exists|starts: Seq<Id>, trees: Seq<Seq<char>>| #[trigger] dump_shape(krate, root_ids@, graph.edge_seq(), max_depth, starts, trees)
            && res@ == dump_header(root_ids@.is_empty() && graph.edge_seq().len() > 0, dump_description@) + concat(trees),
{
    let roots = crate::select::ids_of_set(root_ids);
    let sorted_roots = sort_ids_numerically(&roots);
    proof {
        if sorted_roots@.len() == 0 {
            assert forall|x: Id| !root_ids@.contains(x) by {
                if root_ids@.contains(x) {
                    assert(roots@.contains(x));
                }
            }
            assert(root_ids@ =~= Set::empty());
        } else {
            assert(roots@.contains(roots@[0]));
            assert(root_ids@.contains(roots@[0]));
        }
    }
    let mut st = DumpState { visited: HashSet::new(), path_to_target: HashSet::new(), out: String::new() };
    let edge_count = graph.edges().len();
    let fuel: usize = if edge_count < usize::MAX / 64 {
        2 * edge_count + 2
    } else {
        usize::MAX / 16
    };
    let starts = if sorted_roots.len() == 0 && edge_count > 0 {
        st.out.append("Warning: Graph has edges but no ");
        st.out.append(dump_description);
        st.out.append(" roots found (potentially due to filtering or cycles). Dumping all nodes alphabetically:\n");
        let sources = edge_sources(graph);
        sort_ids_numerically(&sources)
    } else {
        st.out.append("Graph Roots (");
        st.out.append(dump_description);
        st.out.append("):\n");
        sorted_roots
    };
    let ghost header = st.out@;
    assert(root_ids@.is_empty() && graph.edge_seq().len() == 0 ==> starts@.len() == 0);
    assert(header == dump_header(root_ids@.is_empty() && graph.edge_seq().len() > 0, dump_description@));
    proof {
        if sorted_roots@.len() == 0 && edge_count > 0 {
            let sources = first_sources(graph.edge_seq());
            assert forall|x: Id| #[trigger] starts@.contains(x) <==> dump_starts(root_ids@, graph.edge_seq(), x) by {
                if starts@.contains(x) {
                    let q = choose|q: int| 0 <= q < starts@.len() && starts@[q] == x;
                }
                if sources.contains(x) {
                    let q = choose|q: int| 0 <= q < sources.len() && sources[q] == x;
                }
            }
        } else {
            assert forall|x: Id| #[trigger] starts@.contains(x) <==> dump_starts(root_ids@, graph.edge_seq(), x) by {
                if starts@.contains(x) {
                    let q = choose|q: int| 0 <= q < starts@.len() && starts@[q] == x;
                    assert(roots@.contains(starts@[q]));
                }
                if root_ids@.contains(x) {
                    assert(roots@.contains(x));
                    let q = choose|q: int| 0 <= q < roots@.len() && roots@[q] == x;
                    assert(sorted_roots@.contains(roots@[q]));
                }
            }
        }
    }
    let ghost mut trees: Seq<Seq<char>> = Seq::empty();
    let n = starts.len();
    for i in 0..n
        invariant
            n == starts@.len(),
            graph.wf(),
            fuel <= usize::MAX / 16,
            header.is_prefix_of(st.out@),
            i == 0 ==> st.out@ == header,
            i == 0 ==> st.visited@ == Set::<Id>::empty(),
            trees.len() == i,
            st.out@ == header + concat(trees),
            forall|q: int| 0 <= q < i ==> (#[trigger] trees[q]).len() == 0
                || node_line(krate, starts@[q], 0, Seq::empty(), None, true, true).is_prefix_of(trees[q]),
            i > 0 ==> node_line(krate, starts@[0], 0, Seq::empty(), None, true, true).is_prefix_of(trees[0]),
            max_depth == Some(0usize) ==> forall|q: int| 0 <= q < i && (#[trigger] trees[q]).len() > 0
                ==> trees[q] == depth_zero_tree(krate, graph.edge_seq(), starts@[q]),
    {
        let ghost before = st.out@;
        let ghost tb = trees;
        if !st.visited.contains(&starts[i]) {
            st.path_to_target = HashSet::new();
            proof {
                reveal_strlit("");
            }
            dump_node(starts[i], graph, krate, &mut st, 0, 0, max_depth, "", None, true, fuel);
        }
        proof {
            let part = st.out@.subrange(before.len() as int, st.out@.len() as int);
            assert(st.out@ =~= before + part);
            trees = tb.push(part);
            assert(trees.drop_last() =~= tb);
            assert(concat(trees) == concat(tb) + part);
            assert(st.out@ =~= header + concat(trees));
            let line = node_line(krate, starts@[i as int], 0, Seq::empty(), None, true, true);
            if part.len() > 0 {
                assert((before + line).is_prefix_of(st.out@));
                assert forall|c: int| 0 <= c < line.len() implies part.subrange(0, line.len() as int)[c] == line[c] by {
                    assert(st.out@[before.len() + c] == (before + line)[before.len() + c]);
                }
                assert(part.subrange(0, line.len() as int) =~= line);
            }
            assert forall|q: int| 0 <= q < i + 1 implies (#[trigger] trees[q]).len() == 0
                || node_line(krate, starts@[q], 0, Seq::empty(), None, true, true).is_prefix_of(trees[q]) by {
                if q < i {
                    assert(trees[q] == tb[q]);
                }
            }
            if i > 0 {
                assert(trees[0] == tb[0]);
            }
            if max_depth == Some(0usize) {
                assert forall|q: int| 0 <= q < i + 1 && (#[trigger] trees[q]).len() > 0
                    implies trees[q] == depth_zero_tree(krate, graph.edge_seq(), starts@[q]) by {
                    if q < i {
                        assert(trees[q] == tb[q]);
                    } else {
                        assert(part == trees[q]);
                        assert(st.out@ =~= before + depth_zero_tree(krate, graph.edge_seq(), starts@[q]));
                        assert(part =~= depth_zero_tree(krate, graph.edge_seq(), starts@[q]));
                    }
                }
            }
        }
    }
    proof {
        lemma_arranged_sorted(if sorted_roots@.len() == 0 && edge_count > 0 { first_sources(graph.edge_seq()) } else { roots@ }, starts@);
        assert(forall|x: Id| #[trigger] starts@.contains(x) <==> dump_starts(root_ids@, graph.edge_seq(), x));
        assert(st.out@ == dump_header(root_ids@.is_empty() && graph.edge_seq().len() > 0, dump_description@) + concat(trees));
        assert(trees.len() == starts@.len());
        assert(dump_shape(krate, root_ids@, graph.edge_seq(), max_depth, starts@, trees));
    }
    st.out
}

/// Where a dump starts: the node given by id (none where the graph lacks it); or,
/// asked for modules, every module of the crate in the graph; otherwise the graph's
/// roots. With the dump's description: `ID <id>`, `modules` or `full`.
pub open spec fn dump_root_wanted(graph: &IdGraph, krate: &Crate, from_id: Option<Id>, modules: bool, x: Id) -> bool {
    match from_id {
        Some(r) => x == r && crate::graph::is_node(graph.edge_seq(), r),
        None => if modules {
            krate.index_map().contains_key(x) && krate.index_map()[x].inner is Module && crate::graph::is_node(graph.edge_seq(), x)
        } else {
            crate::graph::is_node(graph.edge_seq(), x) && !crate::graph::has_incoming(graph.edge_seq(), x)
        },
    }
}

/// The description of a dump's roots: see `dump_root_wanted`.
pub open spec fn dump_root_description(from_id: Option<Id>, modules: bool) -> Seq<char> {
    match from_id {
        Some(r) => "ID "@ + decimal(r as nat),
        None => if modules { "modules"@ } else { "full"@ },
    }
}

/// Chooses the nodes a dump starts from, and how the dump's header names them: see
/// `dump_root_wanted` and `dump_root_description`.
pub fn choose_dump_roots(graph: &IdGraph, krate: &Crate, from_id: Option<Id>, modules: bool) -> (res: (HashSet<Id>, String))
    requires
        graph.wf(),
        krate.wf(),
    ensures
        forall|x: Id| #[trigger] res.0@.contains(x) <==> dump_root_wanted(graph, krate, from_id, modules, x),
        res.1@ == dump_root_description(from_id, modules),
{
    match from_id {
        Some(r) => {
            let mut d = String::from_str("ID ");
            let num = crate::text::decimal_string(r as usize);
            d.append(num.as_str());
            let mut roots: HashSet<Id> = HashSet::new();
            if graph.has_node(r) {
                roots.insert(r);
            }
            proof {
                assert(d@ =~= dump_root_description(from_id, modules));
            }
            (roots, d)
        },
        None => {
            if modules {
                let mut roots: HashSet<Id> = HashSet::new();
                let ids = krate.ids();
                let n = ids.len();
                for i in 0..n
                    invariant
                        n == ids@.len(),
                        ids@ == krate.id_seq(),
                        krate.wf(),
                        graph.wf(),
                        from_id is None,
                        modules,
                        forall|x: Id| #[trigger] roots@.contains(x) <==> (ids@.take(i as int).contains(x)
                            && dump_root_wanted(graph, krate, from_id, modules, x)),
                {
                    let id = ids[i];
                    proof {
                        assert forall|x: Id| #[trigger] ids@.take(i + 1).contains(x) <==> (ids@.take(i as int).contains(x) || x == id) by {
                            crate::printer::lemma_take_contains(ids@, i as int, x);
                        }
                    }
                    let is_mod = match krate.get(id) {
                        Some(it) => match &it.inner {
                            ItemEnum::Module(_) => true,
                            _ => false,
                        },
                        None => false,
                    };
                    if is_mod && graph.has_node(id) {
                        roots.insert(id);
                    }
                }
                proof {
                    assert(ids@.take(n as int) =~= ids@);
                    assert forall|x: Id| #[trigger] roots@.contains(x) <==> dump_root_wanted(graph, krate, from_id, modules, x) by {
                        if dump_root_wanted(graph, krate, from_id, modules, x) {
                            krate.lemma_wf_ids(x);
                        }
                    }
                }
                (roots, String::from_str("modules"))
            } else {
                (graph.find_roots(), String::from_str("full"))
            }
        },
    }
}

} // verus!
