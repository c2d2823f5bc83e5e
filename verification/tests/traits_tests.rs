use rustdoc_markdown::impls::{format_impl_decl, generic_args_to_generics, trait_impl_has_associated_items};
use rustdoc_markdown::model::{
    Crate, GenericArg, GenericArgs, GenericParamDef, GenericParamDefKind, Generics, Impl, Item, ItemEnum, ItemKind,
    ItemSummary, Path, Struct, StructKind, Type, WherePredicate,
};
use rustdoc_markdown::traits::{generate_impl_trait_block, FormattedTraitImpl, TraitImplCategory};
use std::collections::{HashMap, HashSet};

fn item(id: u32, name: Option<&str>, docs: Option<&str>, inner: ItemEnum) -> Item {
    Item {
        id,
        crate_id: 0,
        name: name.map(|n| n.to_string()),
        span: None,
        docs: docs.map(|d| d.to_string()),
        links: vec![],
        attrs: vec![],
        inner,
    }
}

fn type_param(name: &str) -> GenericParamDef {
    GenericParamDef {
        name: name.to_string(),
        kind: GenericParamDefKind::Type { bounds: vec![], default: None, is_synthetic: false },
    }
}

fn no_generics() -> Generics {
    Generics { params: vec![], where_predicates: vec![] }
}

fn path(name: &str, id: u32, args: Option<GenericArgs>) -> Path {
    Path { path: name.to_string(), id, args: args.map(Box::new) }
}

fn angle(args: Vec<GenericArg>) -> GenericArgs {
    GenericArgs::AngleBracketed { args, constraints: vec![] }
}

fn imp(generics: Generics, trait_: Path, for_: Type, items: Vec<u32>, blanket: Option<Type>) -> Impl {
    Impl {
        is_unsafe: false,
        generics,
        provided_trait_methods: vec![],
        trait_: Some(trait_),
        for_,
        items,
        is_negative: false,
        is_synthetic: false,
        blanket_impl: blanket,
    }
}

fn summary(path: &[&str], kind: ItemKind) -> ItemSummary {
    ItemSummary { crate_id: 0, path: path.iter().map(|s| s.to_string()).collect(), kind }
}

/// `Wrapper<T>` (1) and `Foo` (2); `Item` (22) is an associated type `= u32`.
fn sample() -> Crate {
    let wrapper = item(1, Some("Wrapper"), None, ItemEnum::Struct(Struct {
        kind: StructKind::Unit,
        generics: Generics { params: vec![type_param("T")], where_predicates: vec![] },
        impls: vec![],
    }));
    let foo = item(2, Some("Foo"), None, ItemEnum::Struct(Struct { kind: StructKind::Unit, generics: no_generics(), impls: vec![] }));
    let assoc = item(22, Some("Item"), Some("The items."), ItemEnum::AssocType {
        generics: no_generics(),
        bounds: vec![],
        type_: Some(Type::Primitive("u32".to_string())),
    });
    Crate::new(
        0,
        None,
        vec![wrapper, foo, assoc],
        vec![
            (1, summary(&["mycrate", "Wrapper"], ItemKind::Struct)),
            (2, summary(&["mycrate", "Foo"], ItemKind::Struct)),
            (40, summary(&["core", "clone", "Clone"], ItemKind::Trait)),
            (41, summary(&["mycrate", "Iter"], ItemKind::Trait)),
            (42, summary(&["core", "any", "Any"], ItemKind::Trait)),
        ],
    )
}

fn all_selected() -> HashSet<u32> {
    [0u32, 1, 2, 22].into_iter().collect()
}

fn clone_for_wrapper() -> Impl {
    imp(
        Generics { params: vec![type_param("T")], where_predicates: vec![] },
        path("Clone", 40, None),
        Type::ResolvedPath(path("Wrapper", 1, Some(angle(vec![GenericArg::Type(Type::Generic("T".to_string()))])))),
        vec![],
        None,
    )
}

fn iter_for_foo() -> Impl {
    imp(no_generics(), path("Iter", 41, None), Type::ResolvedPath(path("Foo", 2, None)), vec![22], None)
}

#[test]
fn impl_declarations() {
    let krate = sample();
    assert_eq!(format_impl_decl(&clone_for_wrapper(), &krate), "impl<T> Clone for mycrate::Wrapper<T>");
    assert_eq!(format_impl_decl(&iter_for_foo(), &krate), "impl mycrate::Iter for mycrate::Foo");
}

#[test]
fn passthrough_impl_is_simple() {
    let krate = sample();
    let t = FormattedTraitImpl::from_impl(&clone_for_wrapper(), Some(20), &path("Clone", 40, None), &krate, &HashMap::new(), &all_selected(), false, &vec![]);
    assert_eq!(t.category, TraitImplCategory::Simple);
    assert_eq!(t.formatted_markdown_list_entry, "- `Clone`");
    assert_eq!(t.impl_id, Some(20));
    assert_eq!(t.trait_id, 40);
}

#[test]
fn impl_with_associated_type_shows_its_block() {
    let krate = sample();
    assert!(trait_impl_has_associated_items(&iter_for_foo(), &krate));
    let block = generate_impl_trait_block(&iter_for_foo(), None, &HashMap::new(), &krate, &all_selected(), false, &vec![]);
    assert_eq!(block.unwrap(), "impl mycrate::Iter for mycrate::Foo {\n    type Item = u32;\n}");
    let t = FormattedTraitImpl::from_impl(&iter_for_foo(), None, &path("Iter", 41, None), &krate, &HashMap::new(), &all_selected(), false, &vec![]);
    assert_eq!(t.category, TraitImplCategory::GenericOrComplex);
    assert_eq!(
        t.formatted_markdown_list_entry,
        "- `mycrate::Iter`\n\n    ```rust\n    impl mycrate::Iter for mycrate::Foo {\n        type Item = u32;\n    }\n    ```"
    );
}

#[test]
fn impl_block_marks_documented_items_in_template_mode() {
    let krate = sample();
    let block = generate_impl_trait_block(&iter_for_foo(), None, &HashMap::new(), &krate, &all_selected(), true, &vec![2, 3]);
    assert_eq!(block.unwrap(), "impl mycrate::Iter for mycrate::Foo {\n    type Item = u32;\n    // {{MISSING_DOCS_2_3_1}}\n}");
}

#[test]
fn impl_block_without_selected_items_is_none() {
    let krate = sample();
    let selected: HashSet<u32> = [0u32, 1, 2].into_iter().collect();
    assert!(generate_impl_trait_block(&iter_for_foo(), None, &HashMap::new(), &krate, &selected, false, &vec![]).is_none());
}

#[test]
fn blanket_impl_shows_its_where_clause() {
    let krate = sample();
    let blanket = imp(
        Generics {
            params: vec![type_param("T")],
            where_predicates: vec![WherePredicate::LifetimePredicate { lifetime: "'a".to_string(), outlives: vec!["'b".to_string()] }],
        },
        path("Any", 42, None),
        Type::Generic("T".to_string()),
        vec![],
        Some(Type::Generic("T".to_string())),
    );
    let t = FormattedTraitImpl::from_impl(&blanket, None, &path("Any", 42, None), &krate, &HashMap::new(), &all_selected(), false, &vec![]);
    assert_eq!(t.category, TraitImplCategory::Blanket);
    assert_eq!(t.formatted_markdown_list_entry, "- `any::Any` (`where 'a: 'b`)");
}

#[test]
fn negative_impls_show_a_bang() {
    let krate = sample();
    let mut neg = clone_for_wrapper();
    neg.is_negative = true;
    let t = FormattedTraitImpl::from_impl(&neg, None, &path("Clone", 40, None), &krate, &HashMap::new(), &all_selected(), false, &vec![]);
    assert_eq!(t.formatted_markdown_list_entry, "- `!Clone`");
    assert!(t.is_negative);
}

#[test]
fn normalized_impls_compare_without_entry() {
    let krate = sample();
    let a = FormattedTraitImpl::from_impl(&clone_for_wrapper(), Some(20), &path("Clone", 40, None), &krate, &HashMap::new(), &all_selected(), false, &vec![]);
    let b = FormattedTraitImpl::from_impl(&clone_for_wrapper(), None, &path("Clone", 40, None), &krate, &HashMap::new(), &all_selected(), false, &vec![]);
    let c = FormattedTraitImpl::from_impl(&iter_for_foo(), None, &path("Iter", 41, None), &krate, &HashMap::new(), &all_selected(), false, &vec![]);
    assert!(a.eq(&b));
    assert!(!a.eq(&c));
    assert!(a.copy().eq(&a));
}

#[test]
fn trait_path_arguments_become_generics() {
    let krate = sample();
    let args = Some(Box::new(angle(vec![GenericArg::Type(Type::Generic("U".to_string())), GenericArg::Lifetime("'a".to_string())])));
    let g = generic_args_to_generics(&args, &krate);
    assert_eq!(g.params.len(), 2);
    assert_eq!(g.params[0].name, "U");
    assert_eq!(g.params[1].name, "'a");
    assert!(matches!(g.params[1].kind, GenericParamDefKind::Lifetime { .. }));
    assert!(g.where_predicates.is_empty());
}

#[test]
fn normalized_impl_finds_its_impl() {
    let wrapper = item(1, Some("Wrapper"), None, ItemEnum::Struct(Struct {
        kind: StructKind::Unit,
        generics: Generics { params: vec![type_param("T")], where_predicates: vec![] },
        impls: vec![20],
    }));
    let impl_item = item(20, None, None, ItemEnum::Impl(clone_for_wrapper()));
    let krate = Crate::new(
        0,
        None,
        vec![wrapper, impl_item],
        vec![
            (1, summary(&["mycrate", "Wrapper"], ItemKind::Struct)),
            (40, summary(&["core", "clone", "Clone"], ItemKind::Trait)),
        ],
    );
    let with_id = FormattedTraitImpl::from_impl(&clone_for_wrapper(), Some(20), &path("Clone", 40, None), &krate, &HashMap::new(), &all_selected(), false, &vec![]);
    let (found, id) = with_id.get_impl_data(&krate).unwrap();
    assert_eq!(id, 20);
    assert!(found.trait_.is_some());
    let not_an_impl = FormattedTraitImpl::from_impl(&clone_for_wrapper(), Some(1), &path("Clone", 40, None), &krate, &HashMap::new(), &all_selected(), false, &vec![]);
    assert!(not_an_impl.get_impl_data(&krate).is_none());
    let without_id = FormattedTraitImpl::from_impl(&clone_for_wrapper(), None, &path("Clone", 40, None), &krate, &HashMap::new(), &all_selected(), false, &vec![]);
    assert!(without_id.get_impl_data(&krate).is_none());
}

#[test]
fn printed_impl_has_no_block() {
    let krate = sample();
    let mut printed: HashMap<u32, String> = HashMap::new();
    printed.insert(30, "2.1".to_string());
    assert!(generate_impl_trait_block(&iter_for_foo(), Some(30), &printed, &krate, &all_selected(), false, &vec![]).is_none());
    assert!(generate_impl_trait_block(&iter_for_foo(), Some(31), &printed, &krate, &all_selected(), false, &vec![]).is_some());
}
