use rustdoc_markdown::format::{
    clean_trait_path, format_attributes, format_generics_full, format_generics_where_only, format_type,
    indent_string, format_abi, format_const_expr,
};
use rustdoc_markdown::model::{
    Abi, Constant, Crate, FunctionHeader, FunctionPointer, FunctionSignature, GenericArg, GenericArgs,
    GenericBound, GenericParamDef, GenericParamDefKind, Generics, Item, ItemEnum, ItemKind, ItemSummary,
    Module, Path, TraitBoundModifier, Type, WherePredicate,
};

fn module(id: u32, name: &str, items: Vec<u32>) -> Item {
    Item {
        id,
        crate_id: 0,
        name: Some(name.to_string()),
        span: None,
        docs: None,
        links: vec![],
        attrs: vec![],
        inner: ItemEnum::Module(Module { is_crate: id == 0, items, is_stripped: false }),
    }
}

fn krate() -> Crate {
    Crate::new(
        0,
        None,
        vec![module(0, "demo", vec![])],
        vec![
            (1, ItemSummary { crate_id: 1, path: vec!["core".into(), "clone".into(), "Clone".into()], kind: ItemKind::Trait }),
            (2, ItemSummary { crate_id: 1, path: vec!["alloc".into(), "vec".into(), "Vec".into()], kind: ItemKind::Struct }),
        ],
    )
}

fn path(id: u32, args: Option<GenericArgs>) -> Path {
    Path { path: String::new(), id, args: args.map(Box::new) }
}

fn generic(name: &str) -> Type {
    Type::Generic(name.to_string())
}

#[test]
fn trait_paths_are_cleaned() {
    assert_eq!(clean_trait_path("core::marker::Send"), "Send");
    assert_eq!(clean_trait_path("alloc::string::String"), "String");
    assert_eq!(clean_trait_path("std::io::Write"), "io::Write");
    assert_eq!(clean_trait_path("core::option::Option"), "option::Option");
    assert_eq!(clean_trait_path("mycrate::Thing"), "mycrate::Thing");
    assert_eq!(clean_trait_path("mystd::Foo"), "mystd::Foo");
    assert_eq!(clean_trait_path("a::core::Foo"), "a::Foo");
    assert_eq!(clean_trait_path("core::marker::PhantomData<alloc::string::String>"), "PhantomData<String>");
    assert_eq!(clean_trait_path("Box<std::rc::Rc<mystd::T>>"), "Box<rc::Rc<mystd::T>>");
}

#[test]
fn attributes_skip_derives() {
    assert_eq!(format_attributes(&[]), "");
    assert_eq!(
        format_attributes(&["#[derive(Debug)]".to_string(), "#[non_exhaustive]".to_string(), "#[repr(C)]".to_string()]),
        "#[non_exhaustive] #[repr(C)] "
    );
    assert_eq!(format_attributes(&["#[derive(Clone)]".to_string()]), "");
}

#[test]
fn indentation_prefixes_each_line() {
    assert_eq!(indent_string("a\nb", 2), "  a\n  b");
    assert_eq!(indent_string("a\n", 4), "    a");
    assert_eq!(indent_string("", 4), "");
}

#[test]
fn types_render_as_source() {
    let k = krate();
    let vec_of_t = Type::ResolvedPath(path(2, Some(GenericArgs::AngleBracketed {
        args: vec![GenericArg::Type(generic("T"))],
        constraints: vec![],
    })));
    assert_eq!(format_type(&vec_of_t, &k), "Vec<T>");
    let r = Type::BorrowedRef { lifetime: Some("'a".into()), is_mutable: true, type_: Box::new(generic("T")) };
    assert_eq!(format_type(&r, &k), "&'a mut T");
    let tuple = Type::Tuple(vec![Type::Primitive("u8".into()), Type::Infer]);
    assert_eq!(format_type(&tuple, &k), "(u8, _)");
    assert_eq!(format_type(&Type::Tuple(vec![]), &k), "()");
    let arr = Type::Array { type_: Box::new(Type::Primitive("i32".into())), len: "4".into() };
    assert_eq!(format_type(&arr, &k), "[i32; 4]");
    let ptr = Type::RawPointer { is_mutable: false, type_: Box::new(Type::Primitive("u8".into())) };
    assert_eq!(format_type(&ptr, &k), "*const u8");
    let unknown = Type::ResolvedPath(path(99, None));
    assert_eq!(format_type(&unknown, &k), "{id:99}");
    let qp = Type::QualifiedPath {
        name: "Output".into(),
        args: Box::new(GenericArgs::AngleBracketed { args: vec![], constraints: vec![] }),
        self_type: Box::new(generic("T")),
        trait_: Some(path(1, None)),
    };
    assert_eq!(format_type(&qp, &k), "<T as Clone>::Output");
}

#[test]
fn function_pointers_and_bounds() {
    let k = krate();
    let fp = Type::FunctionPointer(Box::new(FunctionPointer {
        sig: FunctionSignature {
            inputs: vec![("x".into(), Type::Primitive("i32".into()))],
            output: Some(Type::Primitive("bool".into())),
            is_c_variadic: false,
        },
        generic_params: vec![],
        header: FunctionHeader { is_const: false, is_unsafe: true, is_async: false, abi: Abi::C { unwind: false } },
    }));
    assert_eq!(format_type(&fp, &k), "unsafe extern \"C { unwind: false }\" fn(i32) -> bool");
    let imp = Type::ImplTrait(vec![
        GenericBound::TraitBound { trait_: path(1, None), generic_params: vec![], modifier: TraitBoundModifier::Unmodified },
        GenericBound::Outlives("'static".into()),
    ]);
    assert_eq!(format_type(&imp, &k), "impl Clone + 'static");
    assert_eq!(format_abi(&Abi::Other("sysv64".into())), "Other(\"sysv64\")");
}

#[test]
fn constants_show_differing_values() {
    assert_eq!(format_const_expr(&Constant { expr: "N".into(), value: Some("3".into()), is_literal: false }), "N /* = 3 */");
    assert_eq!(format_const_expr(&Constant { expr: "3".into(), value: Some("3".into()), is_literal: true }), "3");
    assert_eq!(format_const_expr(&Constant { expr: "3".into(), value: None, is_literal: true }), "3");
}

fn type_param(name: &str, bounds: Vec<GenericBound>) -> GenericParamDef {
    GenericParamDef {
        name: name.into(),
        kind: GenericParamDefKind::Type { bounds, default: None, is_synthetic: false },
    }
}

fn clone_bound() -> GenericBound {
    GenericBound::TraitBound { trait_: path(1, None), generic_params: vec![], modifier: TraitBoundModifier::Unmodified }
}

#[test]
fn where_clauses_break_lines_when_long_or_many() {
    let k = krate();
    assert_eq!(format_generics_where_only(&[], &k), "");
    let one = vec![WherePredicate::BoundPredicate { type_: generic("T"), bounds: vec![clone_bound()], generic_params: vec![] }];
    assert_eq!(format_generics_where_only(&one, &k), "where T: Clone");
    let two = vec![
        WherePredicate::BoundPredicate { type_: generic("T"), bounds: vec![clone_bound()], generic_params: vec![] },
        WherePredicate::LifetimePredicate { lifetime: "'a".into(), outlives: vec!["'b".into()] },
    ];
    assert_eq!(format_generics_where_only(&two, &k), "where\n    T: Clone,\n    'a: 'b");
    let long_name = "T".repeat(61);
    let long = vec![WherePredicate::BoundPredicate { type_: generic(&long_name), bounds: vec![], generic_params: vec![] }];
    assert_eq!(format_generics_where_only(&long, &k), format!("where\n    {}: ", long_name));
}

#[test]
fn full_generics() {
    let k = krate();
    let g = Generics { params: vec![type_param("T", vec![clone_bound()])], where_predicates: vec![] };
    assert_eq!(format_generics_full(&g, &k), "<T: Clone>");
    let g2 = Generics {
        params: vec![type_param("T", vec![]), type_param("U", vec![])],
        where_predicates: vec![
            WherePredicate::BoundPredicate { type_: generic("T"), bounds: vec![clone_bound()], generic_params: vec![] },
            WherePredicate::BoundPredicate { type_: generic("U"), bounds: vec![clone_bound()], generic_params: vec![] },
        ],
    };
    assert_eq!(format_generics_full(&g2, &k), "<T, U>\n  where\n    T: Clone,\n    U: Clone");
    let empty = Generics { params: vec![], where_predicates: vec![] };
    assert_eq!(format_generics_full(&empty, &k), "");
}

#[test]
fn indent_twice_adds_amounts() {
    let once = indent_string("fn a() {\n    b\n}\n", 2);
    assert_eq!(indent_string(&once, 3), indent_string("fn a() {\n    b\n}\n", 5));
    assert_eq!(indent_string(&indent_string("x\r\ny", 1), 1), "  x\n  y");
}
