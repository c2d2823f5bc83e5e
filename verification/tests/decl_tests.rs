use rustdoc_markdown::decl::{generate_item_declaration, generate_trait_code_block};
use rustdoc_markdown::model::{
    Abi, Crate, Function, FunctionHeader, FunctionSignature, Generics, Item, ItemEnum, Trait, Type, WherePredicate,
};

fn no_generics() -> Generics {
    Generics { params: vec![], where_predicates: vec![] }
}

fn item(id: u32, name: &str, attrs: Vec<&str>, inner: ItemEnum) -> Item {
    Item {
        id,
        crate_id: 0,
        name: Some(name.to_string()),
        span: None,
        docs: None,
        links: vec![],
        attrs: attrs.into_iter().map(|a| a.to_string()).collect(),
        inner,
    }
}

#[test]
fn function_declaration_is_simple() {
    let f = Function {
        sig: FunctionSignature { inputs: vec![], output: None, is_c_variadic: false },
        generics: Generics {
            params: vec![],
            where_predicates: vec![WherePredicate::BoundPredicate {
                type_: Type::Generic("T".to_string()),
                bounds: vec![],
                generic_params: vec![],
            }],
        },
        header: FunctionHeader { is_const: false, is_unsafe: false, is_async: false, abi: Abi::Rust },
        has_body: true,
    };
    let it = item(1, "bar", vec!["#[must_use]"], ItemEnum::Function(f));
    let krate = Crate::new(0, None, vec![], vec![]);
    assert_eq!(generate_item_declaration(&it, &krate, &[]), "fn bar()");
}

#[test]
fn auto_unsafe_trait_head() {
    let t = Trait {
        is_auto: true,
        is_unsafe: true,
        is_dyn_compatible: true,
        items: vec![],
        generics: no_generics(),
        bounds: vec![],
        implementations: vec![],
    };
    let it = item(2, "Marker", vec![], ItemEnum::Trait(t));
    let krate = Crate::new(0, None, vec![], vec![]);
    if let ItemEnum::Trait(t) = &it.inner {
        assert_eq!(generate_trait_code_block(&it, t, &krate), "pub unsafe auto trait Marker {}");
    }
}
