use rustdoc_markdown::graph::{EdgeLabel, IdGraph};
use rustdoc_markdown::deps::build_graph_for_item;
use rustdoc_markdown::model::{
    Crate, Generics, Item, ItemEnum, ItemKind, ItemSummary, Module, Path, StructKind, Struct, Type, Use,
};
use rustdoc_markdown::select::{
    build_resolved_module_index, ids_of_set, normalize_path, path_matches, select_items, SelectError,
};

fn item(id: u32, name: Option<&str>, inner: ItemEnum) -> Item {
    Item {
        id,
        crate_id: 0,
        name: name.map(|n| n.to_string()),
        span: None,
        docs: None,
        links: vec![],
        attrs: vec![],
        inner,
    }
}

fn module(id: u32, name: &str, items: Vec<u32>) -> Item {
    item(id, Some(name), ItemEnum::Module(Module { is_crate: id == 0, items, is_stripped: false }))
}

fn empty_generics() -> Generics {
    Generics { params: vec![], where_predicates: vec![] }
}

fn unit_struct(id: u32, name: &str) -> Item {
    item(id, Some(name), ItemEnum::Struct(Struct { kind: StructKind::Unit, generics: empty_generics(), impls: vec![] }))
}

fn field(id: u32, name: &str, ty: Type) -> Item {
    item(id, Some(name), ItemEnum::StructField(ty))
}

fn summary(path: &[&str], kind: ItemKind) -> ItemSummary {
    ItemSummary { crate_id: 0, path: path.iter().map(|s| s.to_string()).collect(), kind }
}

/// Crate `my-crate`: root module 0 holds struct Foo (1) with field `bar: Bar`
/// (field 2, Bar is 3) and module `inner` (4) holding struct Baz (5); the root
/// also glob-imports `inner`.
fn sample() -> Crate {
    let foo = item(1, Some("Foo"), ItemEnum::Struct(Struct {
        kind: StructKind::Plain { fields: vec![2], has_stripped_fields: false },
        generics: empty_generics(),
        impls: vec![],
    }));
    let bar_ty = Type::ResolvedPath(Path { path: "Bar".into(), id: 3, args: None });
    let glob = item(6, None, ItemEnum::Use(Use { source: "inner".into(), name: "inner".into(), id: Some(4), is_glob: true }));
    Crate::new(
        0,
        Some("1.0.0".into()),
        vec![
            module(0, "my-crate", vec![1, 3, 4, 6]),
            foo,
            field(2, "bar", bar_ty),
            unit_struct(3, "Bar"),
            module(4, "inner", vec![5]),
            unit_struct(5, "Baz"),
            glob,
        ],
        vec![
            (0, summary(&["my_crate"], ItemKind::Module)),
            (1, summary(&["my_crate", "Foo"], ItemKind::Struct)),
            (3, summary(&["my_crate", "Bar"], ItemKind::Struct)),
            (4, summary(&["my_crate", "inner"], ItemKind::Module)),
            (5, summary(&["my_crate", "inner", "Baz"], ItemKind::Struct)),
        ],
    )
}

fn strings(v: &[&str]) -> Vec<String> {
    v.iter().map(|s| s.to_string()).collect()
}

#[test]
fn paths_are_normalized() {
    assert_eq!(normalize_path("::style", "my-crate", "my_crate"), strings(&["my_crate", "style"]));
    assert_eq!(normalize_path("Foo", "my-crate", "my_crate"), strings(&["my_crate", "Foo"]));
    assert_eq!(normalize_path("my_module::MyStruct", "my-crate", "my_crate"), strings(&["my_crate", "my_module", "MyStruct"]));
    assert_eq!(normalize_path("my_crate::style", "my-crate", "my_crate"), strings(&["my_crate", "style"]));
    assert_eq!(normalize_path("my_crate", "my-crate", "my_crate"), strings(&["my_crate", "my_crate"]));
    assert_eq!(normalize_path("", "my-crate", "my_crate"), strings(&[""]));
}

#[test]
fn filters_match_by_prefix() {
    assert!(path_matches(&strings(&["a", "b", "c"]), &strings(&["a", "b"])));
    assert!(path_matches(&strings(&["a"]), &strings(&[])));
    assert!(!path_matches(&strings(&["a"]), &strings(&["a", "b"])));
    assert!(!path_matches(&strings(&["a", "x"]), &strings(&["a", "b"])));
}

#[test]
fn graph_edges_follow_dependencies() {
    let k = sample();
    let mut g = IdGraph::new();
    let deps = build_graph_for_item(1, &k, &mut g);
    assert!(deps.contains(&2));
    assert!(g.edges().iter().any(|e| e.source == 1 && e.target == 2 && e.label == EdgeLabel::StructField));
    let deps2 = build_graph_for_item(2, &k, &mut g);
    assert!(deps2.contains(&3));
    assert!(g.edges().iter().any(|e| e.source == 2 && e.target == 3 && e.label == EdgeLabel::FieldType));
    let before = g.edges().len();
    build_graph_for_item(1, &k, &mut g);
    assert_eq!(g.edges().len(), before, "adding the same edges again changes nothing");
}

#[test]
fn glob_imports_are_followed() {
    let k = sample();
    let index = build_resolved_module_index(&k);
    assert_eq!(index.len(), 2);
    let root: std::collections::HashSet<u32> = index[&0].items.iter().cloned().collect();
    assert_eq!(root, [1, 3, 4, 5].into_iter().collect());
    assert_eq!(index[&4].items, vec![5]);
}

#[test]
fn no_paths_selects_everything() {
    let k = sample();
    let index = build_resolved_module_index(&k);
    let (sel, _) = select_items(&k, &[], &index).unwrap();
    assert_eq!(sel.len(), 7);
}

#[test]
fn selection_pulls_in_dependencies() {
    let k = sample();
    let index = build_resolved_module_index(&k);
    let (sel, graph) = select_items(&k, &strings(&["Foo"]), &index).unwrap();
    let mut got: Vec<u32> = sel.into_iter().collect();
    got.sort();
    assert_eq!(got, vec![1, 2, 3]);
    assert!(graph.edges().len() >= 3);
    let (sel2, _) = select_items(&k, &strings(&["::inner"]), &index).unwrap();
    let mut got2: Vec<u32> = sel2.into_iter().collect();
    got2.sort();
    assert_eq!(got2, vec![4, 5]);
    let (none, _) = select_items(&k, &strings(&["Missing"]), &index).unwrap();
    assert!(none.is_empty());
}

#[test]
fn selection_needs_a_named_root() {
    let unnamed = Crate::new(9, None, vec![module(0, "x", vec![])], vec![]);
    let index = build_resolved_module_index(&unnamed);
    assert_eq!(select_items(&unnamed, &strings(&["x"]), &index).err(), Some(SelectError::RootNotFound));
    let mut root = module(0, "x", vec![]);
    root.name = None;
    let k = Crate::new(0, None, vec![root], vec![]);
    let index = build_resolved_module_index(&k);
    assert_eq!(select_items(&k, &strings(&["x"]), &index).err(), Some(SelectError::RootUnnamed));
}

#[test]
fn roots_and_leaf_filtering() {
    let k = sample();
    let index = build_resolved_module_index(&k);
    let (_, graph) = select_items(&k, &[], &index).unwrap();
    let roots = graph.find_roots();
    assert!(roots.contains(&0));
    assert!(!roots.contains(&3));
    let to_bar = graph.filter_to_leaf(3);
    assert!(to_bar.edges().iter().all(|e| graph.edges().contains(e)));
    assert!(to_bar.edges().iter().any(|e| e.target == 3));
    assert!(to_bar.edges().iter().all(|e| e.target != 5 && e.source != 5));
    assert!(graph.filter_to_leaf(77).edges().is_empty());
    let incoming = graph.find_incoming_edges(3);
    assert!(incoming.iter().all(|e| e.target == 3));
    assert_eq!(EdgeLabel::FieldType.fmt(), "FieldType");
}

#[test]
fn ids_of_a_set_each_once() {
    let set: std::collections::HashSet<u32> = [7u32, 3, 11].into_iter().collect();
    let mut ids = ids_of_set(&set);
    ids.sort();
    assert_eq!(ids, vec![3, 7, 11]);
    assert!(ids_of_set(&std::collections::HashSet::new()).is_empty());
}

#[test]
fn glob_cycle_keeps_direct_items() {
    let use_b = item(3, None, ItemEnum::Use(Use { source: "b".into(), name: "b".into(), id: Some(2), is_glob: true }));
    let use_a = item(4, None, ItemEnum::Use(Use { source: "a".into(), name: "a".into(), id: Some(1), is_glob: true }));
    let named = item(7, None, ItemEnum::Use(Use { source: "X".into(), name: "X".into(), id: Some(8), is_glob: false }));
    let k = Crate::new(
        0,
        None,
        vec![
            module(0, "c", vec![1, 2]),
            module(1, "a", vec![3, 5, 7]),
            module(2, "b", vec![4, 6]),
            use_b,
            use_a,
            unit_struct(5, "S"),
            unit_struct(6, "T"),
            named,
        ],
        vec![],
    );
    let index = build_resolved_module_index(&k);
    for m in [1u32, 2] {
        let items: std::collections::HashSet<u32> = index[&m].items.iter().cloned().collect();
        let direct: &[u32] = if m == 1 { &[5, 8] } else { &[6] };
        for x in direct {
            assert!(items.contains(x), "module {} lacks {}", m, x);
        }
    }
}
