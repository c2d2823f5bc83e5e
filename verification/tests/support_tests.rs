use rustdoc_markdown::dump::{dump_graph_subset, get_item_info_string, padded_id};
use rustdoc_markdown::graph::{EdgeLabel, IdGraph};
use rustdoc_markdown::markdown::{
    adjust_markdown_headers, has_docs, is_not_blank, is_white_space, parse_markdown, shift_heading_level, shift_headings,
    trim_white_space, HeadingMark,
};
use rustdoc_markdown::model::{Crate, Generics, Item, ItemEnum, ItemKind, ItemSummary, Module, Struct, StructKind};
use rustdoc_markdown::order::{key_less, sort_by_keys, sort_order, str_less};
use rustdoc_markdown::traits::template_marker;
use std::collections::HashSet;

fn strings(v: &[&str]) -> Vec<String> {
    v.iter().map(|s| s.to_string()).collect()
}

#[test]
fn string_order_is_by_characters() {
    assert!(str_less("a", "b"));
    assert!(str_less("ab", "abc"));
    assert!(!str_less("abc", "ab"));
    assert!(!str_less("same", "same"));
    assert!(str_less("Z", "a"));
}

#[test]
fn list_order_is_element_by_element() {
    assert!(key_less(&strings(&[]), &strings(&["x"])));
    assert!(key_less(&strings(&["a", "z"]), &strings(&["b"])));
    assert!(!key_less(&strings(&["b"]), &strings(&["a", "z"])));
    assert!(key_less(&strings(&["a"]), &strings(&["a", ""])));
}

#[test]
fn sort_is_stable() {
    let keys = vec![strings(&["b"]), strings(&["a"]), strings(&["b"]), strings(&["a"])];
    assert_eq!(sort_order(&keys), vec![1, 3, 0, 2]);
    let sorted = sort_by_keys(&vec![10u32, 11, 12, 13], &keys);
    assert_eq!(sorted, vec![11, 13, 10, 12]);
}

#[test]
fn white_space_and_trimming() {
    assert!(is_white_space(' '));
    assert!(is_white_space('\n'));
    assert!(is_white_space('\u{3000}'));
    assert!(!is_white_space('x'));
    assert_eq!(trim_white_space("  a b \n"), "a b");
    assert_eq!(trim_white_space(" \t "), "");
    assert!(is_not_blank(" x "));
    assert!(!is_not_blank(" \n\t"));
}

#[test]
fn has_docs_needs_non_blank_docs() {
    let mut it = Item {
        id: 1,
        crate_id: 0,
        name: None,
        span: None,
        docs: Some("  \n".to_string()),
        links: vec![],
        attrs: vec![],
        inner: ItemEnum::ExternType,
    };
    assert!(!has_docs(&it));
    it.docs = Some("Docs.".to_string());
    assert!(has_docs(&it));
    it.docs = None;
    assert!(!has_docs(&it));
}

#[test]
fn heading_levels_shift_and_stop_at_six() {
    assert_eq!(shift_heading_level(1, 2), 3);
    assert_eq!(shift_heading_level(5, 3), 6);
    assert_eq!(shift_heading_level(6, 0), 6);
}

#[test]
fn markdown_headings_move_down() {
    assert_eq!(adjust_markdown_headers("# Title\n\nText.", 2).unwrap(), "### Title\n\nText.");
    assert_eq!(adjust_markdown_headers("## Sub", 5).unwrap(), "###### Sub");
}

#[test]
fn template_markers() {
    assert_eq!(template_marker(&vec![]), "{{MISSING_DOCS}}");
    assert_eq!(template_marker(&vec![1, 2, 10]), "{{MISSING_DOCS_1_2_10}}");
}

fn unit_struct(id: u32, name: &str) -> Item {
    Item {
        id,
        crate_id: 0,
        name: Some(name.to_string()),
        span: None,
        docs: None,
        links: vec![],
        attrs: vec![],
        inner: ItemEnum::Struct(Struct {
            kind: StructKind::Unit,
            generics: Generics { params: vec![], where_predicates: vec![] },
            impls: vec![],
        }),
    }
}

fn small_crate() -> Crate {
    let root = Item {
        id: 0,
        crate_id: 0,
        name: Some("g".to_string()),
        span: None,
        docs: None,
        links: vec![],
        attrs: vec![],
        inner: ItemEnum::Module(Module { is_crate: true, items: vec![1, 2], is_stripped: false }),
    };
    Crate::new(
        0,
        None,
        vec![root, unit_struct(1, "A"), unit_struct(2, "B")],
        vec![(1, ItemSummary { crate_id: 0, path: strings(&["g", "A"]), kind: ItemKind::Struct })],
    )
}

#[test]
fn item_info_strings() {
    let krate = small_crate();
    assert_eq!(get_item_info_string(1, &krate), "Id(1): A (Path: g::A, Kind: Struct)");
    assert_eq!(get_item_info_string(2, &krate), "Id(2): B (Path: {no_path}, Kind: Struct)");
    assert_eq!(get_item_info_string(9, &krate), "Id(9): {unnamed} (Path: {no_path}, Kind: {UnknownKind})");
}

#[test]
fn padded_ids_sort_as_numbers() {
    assert_eq!(padded_id(42), "0000000042");
    assert!(str_less(&padded_id(9), &padded_id(10)));
}

#[test]
fn graph_dump_from_root() {
    let krate = small_crate();
    let mut g = IdGraph::new();
    g.add_edge(0, 1, EdgeLabel::Contains, &krate);
    g.add_edge(0, 2, EdgeLabel::Contains, &krate);
    g.add_edge(1, 2, EdgeLabel::FieldType, &krate);
    let mut roots = HashSet::new();
    roots.insert(0u32);
    let text = dump_graph_subset(&g, &krate, &roots, "full", None);
    let expected = String::new()
        + "Graph Roots (full):\n"
        + "Id(0): g (Path: {no_path}, Kind: Module)\n"
        + "    ├── Id(1): A (Path: g::A, Kind: Struct) [Contains]\n"
        + "        └── Id(2): B (Path: {no_path}, Kind: Struct) [FieldType]\n"
        + "    └── Id(2): B (Path: {no_path}, Kind: Struct) [Contains] [... cycle or previously visited on current path ...]\n";
    assert_eq!(text, expected);
}

#[test]
fn graph_dump_stops_at_max_depth() {
    let krate = small_crate();
    let mut g = IdGraph::new();
    g.add_edge(0, 1, EdgeLabel::Contains, &krate);
    g.add_edge(1, 2, EdgeLabel::FieldType, &krate);
    let mut roots = HashSet::new();
    roots.insert(0u32);
    let text = dump_graph_subset(&g, &krate, &roots, "full", Some(0));
    assert_eq!(
        text,
        "Graph Roots (full):\nId(0): g (Path: {no_path}, Kind: Module)\n    └── [... children truncated due to max depth ...]\n"
    );
}

#[test]
fn heading_marks_shift() {
    let mut md = parse_markdown("# Title\n\nText.\n\n##### Deep");
    let n = md.len();
    let before: Vec<HeadingMark> = (0..n).map(|i| md.mark(i)).collect();
    assert_eq!(before.first(), Some(&HeadingMark::Start(1)));
    assert!(before.contains(&HeadingMark::End(5)));
    shift_headings(&mut md, 3);
    let after: Vec<HeadingMark> = (0..n).map(|i| md.mark(i)).collect();
    assert_eq!(after.first(), Some(&HeadingMark::Start(4)));
    assert!(after.contains(&HeadingMark::End(6)));
    assert!(!after.contains(&HeadingMark::End(5)));
    assert_eq!(adjust_markdown_headers("# Title", 2).unwrap(), "### Title");
    assert_eq!(adjust_markdown_headers("# Title", 0).unwrap(), "# Title");
    assert_eq!(adjust_markdown_headers("##### A", 3).unwrap(), "###### A");
}

#[test]
fn dump_roots_chosen() {
    let krate = small_crate();
    let mut g = IdGraph::new();
    g.add_edge(1, 2, EdgeLabel::FieldType, &krate);
    let (roots, desc) = rustdoc_markdown::dump::choose_dump_roots(&g, &krate, Some(2), false);
    assert_eq!(desc, "ID 2");
    assert_eq!(roots, [2u32].into_iter().collect::<HashSet<u32>>());
    let (roots, desc) = rustdoc_markdown::dump::choose_dump_roots(&g, &krate, Some(9), false);
    assert_eq!(desc, "ID 9");
    assert!(roots.is_empty());
    let (roots, desc) = rustdoc_markdown::dump::choose_dump_roots(&g, &krate, None, false);
    assert_eq!(desc, "full");
    assert_eq!(roots, [1u32].into_iter().collect::<HashSet<u32>>());
    g.add_edge(0, 1, EdgeLabel::Contains, &krate);
    let (roots, desc) = rustdoc_markdown::dump::choose_dump_roots(&g, &krate, None, true);
    assert_eq!(desc, "modules");
    assert_eq!(roots, [0u32].into_iter().collect::<HashSet<u32>>());
}
