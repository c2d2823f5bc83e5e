use rustdoc_markdown::model::{
    Abi, Crate, Enum, Function, FunctionHeader, FunctionSignature, Generics, Impl, Item, ItemEnum, ItemKind,
    ItemSummary, Module, Path, Struct, StructKind, Type, Variant, VariantKind,
};
use rustdoc_markdown::printer::{
    check_printable, common_threshold, header_prefix, infer_item_kind, CrateManifestData, Printer,
};

fn item(id: u32, name: Option<&str>, docs: Option<&str>, inner: ItemEnum) -> Item {
    Item {
        id,
        crate_id: 0,
        name: name.map(|n| n.to_string()),
        span: None,
        docs: docs.map(|d| d.to_string()),
        links: vec![],
        attrs: vec![],
        inner,
    }
}

fn generics() -> Generics {
    Generics { params: vec![], where_predicates: vec![] }
}

fn summary(path: &[&str], kind: ItemKind) -> ItemSummary {
    ItemSummary { crate_id: 0, path: path.iter().map(|s| s.to_string()).collect(), kind }
}

/// Crate `demo` 0.1.0: a struct `Foo` with a documented field `x: u32` and an
/// `impl Clone for Foo`, an enum `Color` with a documented variant `Red` and an
/// undocumented `Green`, and a function `bar`.
fn demo() -> Crate {
    let root = item(0, Some("demo"), None, ItemEnum::Module(Module { is_crate: true, items: vec![1, 2, 3], is_stripped: false }));
    let foo = item(1, Some("Foo"), Some("A foo."), ItemEnum::Struct(Struct {
        kind: StructKind::Plain { fields: vec![10], has_stripped_fields: false },
        generics: generics(),
        impls: vec![20],
    }));
    let x = item(10, Some("x"), Some("The x."), ItemEnum::StructField(Type::Primitive("u32".to_string())));
    let bar = item(2, Some("bar"), None, ItemEnum::Function(Function {
        sig: FunctionSignature { inputs: vec![], output: None, is_c_variadic: false },
        generics: generics(),
        header: FunctionHeader { is_const: false, is_unsafe: false, is_async: false, abi: Abi::Rust },
        has_body: true,
    }));
    let color = item(3, Some("Color"), None, ItemEnum::Enum(Enum {
        generics: generics(),
        has_stripped_variants: false,
        variants: vec![30, 31],
        impls: vec![],
    }));
    let red = item(30, Some("Red"), Some("Red color."), ItemEnum::Variant(Variant { kind: VariantKind::Plain, discriminant: None }));
    let green = item(31, Some("Green"), None, ItemEnum::Variant(Variant { kind: VariantKind::Plain, discriminant: None }));
    let clone_impl = item(20, None, None, ItemEnum::Impl(Impl {
        is_unsafe: false,
        generics: generics(),
        provided_trait_methods: vec![],
        trait_: Some(Path { path: "Clone".to_string(), id: 40, args: None }),
        for_: Type::ResolvedPath(Path { path: "Foo".to_string(), id: 1, args: None }),
        items: vec![],
        is_negative: false,
        is_synthetic: false,
        blanket_impl: None,
    }));
    Crate::new(
        0,
        Some("0.1.0".to_string()),
        vec![root, foo, x, bar, color, red, green, clone_impl],
        vec![
            (0, summary(&["demo"], ItemKind::Module)),
            (1, summary(&["demo", "Foo"], ItemKind::Struct)),
            (2, summary(&["demo", "bar"], ItemKind::Function)),
            (3, summary(&["demo", "Color"], ItemKind::Enum)),
            (40, summary(&["core", "clone", "Clone"], ItemKind::Trait)),
        ],
    )
}

fn manifest() -> CrateManifestData {
    CrateManifestData {
        description: Some("A demo crate.".to_string()),
        homepage: None,
        repository: None,
        categories: vec![],
        license: Some("MIT".to_string()),
        rust_version: None,
        edition: None,
        features: vec![],
    }
}

const FRONT: &str = "# demo API (0.1.0)\n\nA demo crate.\n\n## 1: Manifest\n\n- License: MIT\n\n### 1.1: Features\n\n- None\n\n";

#[test]
fn demo_crate_is_printable() {
    assert!(check_printable(&demo()));
}

#[test]
fn prints_demo_crate_document() {
    let krate = demo();
    let doc = Printer::new(manifest(), &krate).print().unwrap();
    let expected = String::new()
        + FRONT
        + "\n## 2: Common Traits\n\n"
        + "The following traits are commonly implemented by types in this crate. Unless otherwise noted, you can assume these traits are implemented:\n\n"
        + "- `Clone`\n\n"
        + "\n## 3: Module: `demo`\n\n"
        + "\n### 3.1: Structs\n"
        + "\n#### 3.1.1: `struct demo::Foo`\n\n"
        + "```rust\npub struct Foo {\n    pub x: u32,\n}\n```\n\n"
        + "A foo.\n\n"
        + "##### 3.1.1.1: Fields\n\n"
        + "###### 3.1.1.1.1: `x`\n\n"
        + "The x.\n\n"
        + "\n### 3.2: Enums\n"
        + "\n#### 3.2.1: `enum demo::Color`\n\n"
        + "```rust\npub enum Color {\n    Red,\n    Green,\n}\n```\n\n"
        + "##### 3.2.1.1: Variants\n\n"
        + "###### 3.2.1.1.1: `Red`\n\n"
        + "Red color.\n\n"
        + "\n### 3.3: Functions\n"
        + "\n#### 3.3.1: `fn bar()`\n\n";
    assert_eq!(doc, expected);
}

#[test]
fn template_mode_puts_markers_for_docs() {
    let krate = demo();
    let doc = Printer::new(manifest(), &krate).template_mode().print().unwrap();
    assert!(doc.contains("\n#### 3.1.1: `struct demo::Foo`\n\n```rust\npub struct Foo {\n    pub x: u32,\n}\n```\n\n{{MISSING_DOCS_3_1_1_1}}\n\n"));
    assert!(doc.contains("###### 3.1.1.1.1: `x`\n\n{{MISSING_DOCS_3_1_1_1_1}}\n\n"));
    assert!(doc.contains("###### 3.2.1.1.1: `Red`\n\n{{MISSING_DOCS_3_2_1_1_1_1}}\n\n"));
}

#[test]
fn without_common_traits_lists_traits_with_the_type() {
    let krate = demo();
    let doc = Printer::new(manifest(), &krate).no_common_traits().print().unwrap();
    assert!(!doc.contains("Common Traits"));
    assert!(doc.contains("The x.\n\n##### 2.1.1.2: Trait Implementations for `Foo`\n\n- `Clone`\n\n### 2.2: Enums"));
    assert!(doc.starts_with(FRONT));
}

#[test]
fn no_selected_items_and_no_examples_gives_a_message() {
    let krate = demo();
    let doc = Printer::new(manifest(), &krate).paths(&["nothing_here".to_string()]).print().unwrap();
    assert_eq!(doc, "No items selected for documentation and no examples found.");
}

#[test]
fn path_filter_keeps_matching_items() {
    let krate = demo();
    let doc = Printer::new(manifest(), &krate).paths(&["bar".to_string()]).print().unwrap();
    assert!(doc.contains("`fn bar()`"));
    assert!(!doc.contains("Foo"));
}

#[test]
fn examples_appendix_lists_examples() {
    let krate = demo();
    let doc = Printer::new(manifest(), &krate)
        .example("simple.rs".to_string(), "fn main() {}".to_string())
        .print()
        .unwrap();
    assert!(doc.ends_with("\n## 4: Examples Appendix\n\n### 4.1: `simple.rs`\n\n```rust\nfn main() {}\n```\n\n"));
}

#[test]
fn readme_section_shifts_headings() {
    let krate = demo();
    let doc = Printer::new(manifest(), &krate).readme("# Intro\n\nHello.".to_string()).print().unwrap();
    assert!(doc.contains("\n## 2: README\n\n### Intro\n\nHello.\n\n"));
    assert!(doc.contains("\n## 3: Common Traits\n\n"));
}

#[test]
fn header_prefixes() {
    assert_eq!(header_prefix(&vec![]), "");
    assert_eq!(header_prefix(&vec![3]), "3:");
    assert_eq!(header_prefix(&vec![3, 1, 2]), "3.1.2:");
}

#[test]
fn common_threshold_is_half_rounded_up() {
    assert_eq!(common_threshold(0), 0);
    assert_eq!(common_threshold(1), 1);
    assert_eq!(common_threshold(3), 2);
    assert_eq!(common_threshold(4), 2);
}

#[test]
fn kinds_of_items() {
    let krate = demo();
    assert_eq!(infer_item_kind(krate.get(1).unwrap()), ItemKind::Struct);
    assert_eq!(infer_item_kind(krate.get(30).unwrap()), ItemKind::Variant);
    assert_eq!(infer_item_kind(krate.get(20).unwrap()), ItemKind::Impl);
}
