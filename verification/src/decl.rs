//! Declarations of items as Rust source: the one-line header of an item and
//! the code blocks of structs, enums, unions, traits and functions.

use vstd::prelude::*;
use crate::model::{
    Crate, Enum, Function, GenericBound, Id, Item, ItemEnum, MacroKind, Struct, StructKind, Trait, Type, Union, Variant,
    VariantKind,
};
use crate::format::{
    abi_text, attrs_text, bounds_text, contains_char, discriminant_text, format_abi, format_attributes,
    format_bounds, format_discriminant_expr, format_generics_full, format_generics_params_only,
    format_generics_where_only, format_type, generics_full_text, params_only_text, type_text, where_text,
};
use crate::text::{contains_str, join, join_strings, occurs_at, views};

verus! {

/// The type of field `id`, when the crate has it as a struct field.
pub open spec fn field_type(k: &Crate, id: Id) -> Option<Type> {
    if k.index_map().contains_key(id) {
        match k.index_map()[id].inner {
            ItemEnum::StructField(t) => Some(t),
            _ => None,
        }
    } else {
        None
    }
}

/// The name, or `d` when there is none.
pub open spec fn name_or(name: Option<String>, d: Seq<char>) -> Seq<char> {
    match name {
        Some(n) => n@,
        None => d,
    }
}

/// Whether the text ends with a newline.
pub open spec fn ends_with_newline(s: Seq<char>) -> bool {
    s.len() > 0 && s.last() == '\n'
}

/// Whether the text holds `where` followed by a newline.
pub open spec fn has_multiline_where(s: Seq<char>) -> bool {
    exists|i: int| 0 <= i <= s.len() && #[trigger] occurs_at(s, "where\n"@, i)
}

/// The field item and its type, when the crate has `id` as a struct field.
fn field_item<'a>(krate: &'a Crate, id: Id) -> (res: Option<(&'a Item, &'a Type)>)
    ensures
        match res {
            Some((it, t)) => field_type(krate, id) == Some(*t) && *it == krate.index_map()[id],
            None => field_type(krate, id) is None,
        },
{
    match krate.get(id) {
        Some(item) => match &item.inner {
            ItemEnum::StructField(t) => Some((item, t)),
            _ => None,
        },
        None => None,
    }
}

/// Whether the string ends with a newline.
fn ends_with_newline_exec(s: &String) -> (res: bool)
    ensures
        res == ends_with_newline(s@),
{
    let cs = crate::text::chars_of(s.as_str());
    cs.len() > 0 && cs[cs.len() - 1] == '\n'
}

/// One line per named struct field of the list: attributes, `pub`, name and type.
pub open spec fn field_lines(k: &Crate, fields: Seq<Id>) -> Seq<char>
    decreases fields.len(),
{
    if fields.len() == 0 {
        Seq::empty()
    } else {
        let prev = field_lines(k, fields.drop_last());
        let id = fields.last();
        match field_type(k, id) {
            Some(t) => prev + "    "@ + attrs_text(k.index_map()[id].attrs@) + "pub "@
                + name_or(k.index_map()[id].name, "_"@) + ": "@ + type_text(k, t) + ",\n"@,
            None => prev,
        }
    }
}

/// Appends the lines of `field_lines` to `code`.
fn push_field_lines(code: &mut String, fields: &Vec<Id>, krate: &Crate)
    ensures
        final(code)@ == old(code)@ + field_lines(krate, fields@),
{
    let ghost c0 = code@;
    let n = fields.len();
    assert(fields@.take(0) =~= Seq::<Id>::empty());
    for j in 0..n
        invariant
            n == fields@.len(),
            code@ == c0 + field_lines(krate, fields@.take(j as int)),
    {
        proof {
            assert(fields@.take(j + 1).drop_last() =~= fields@.take(j as int));
            assert(fields@.take(j + 1).last() == fields@[j as int]);
        }
        match field_item(krate, fields[j]) {
            Some((field, ty)) => {
                code.append("    ");
                let a = format_attributes(field.attrs.as_slice());
                code.append(a.as_str());
                code.append("pub ");
                match &field.name {
                    Some(n) => {
                        code.append(n.as_str());
                    },
                    None => {
                        code.append("_");
                    },
                }
                code.append(": ");
                let t = format_type(ty, krate);
                code.append(t.as_str());
                code.append(",\n");
            },
            None => {},
        }
    }
    assert(fields@.take(n as int) =~= fields@);
}

/// The text of each field of a tuple struct: attributes, `pub` and type.
pub open spec fn tuple_field_texts(k: &Crate, fields: Seq<Option<Id>>, with_pub: bool, with_attrs: bool) -> Seq<Seq<char>>
    decreases fields.len(),
{
    if fields.len() == 0 {
        Seq::empty()
    } else {
        let prev = tuple_field_texts(k, fields.drop_last(), with_pub, with_attrs);
        match fields.last() {
            Some(id) => match field_type(k, id) {
                Some(t) => prev.push(
                    (if with_attrs { attrs_text(k.index_map()[id].attrs@) } else { Seq::empty() })
                        + (if with_pub { "pub "@ } else { Seq::empty() }) + type_text(k, t),
                ),
                None => prev,
            },
            None => prev,
        }
    }
}

/// The texts of `tuple_field_texts`.
fn tuple_fields(fields: &Vec<Option<Id>>, krate: &Crate, with_pub: bool, with_attrs: bool) -> (res: Vec<String>)
    ensures
        views(res@) == tuple_field_texts(krate, fields@, with_pub, with_attrs),
{
    let mut out: Vec<String> = Vec::new();
    let n = fields.len();
    assert(fields@.take(0) =~= Seq::<Option<Id>>::empty());
    for j in 0..n
        invariant
            n == fields@.len(),
            views(out@) == tuple_field_texts(krate, fields@.take(j as int), with_pub, with_attrs),
    {
        proof {
            assert(fields@.take(j + 1).drop_last() =~= fields@.take(j as int));
            assert(fields@.take(j + 1).last() == fields@[j as int]);
        }
        match fields[j] {
            Some(id) => match field_item(krate, id) {
                Some((field, ty)) => {
                    let mut s = String::new();
                    if with_attrs {
                        let a = format_attributes(field.attrs.as_slice());
                        s.append(a.as_str());
                    }
                    if with_pub {
                        s.append("pub ");
                    }
                    let t = format_type(ty, krate);
                    s.append(t.as_str());
                    let ghost before = views(out@);
                    let ghost sv = s@;
                    out.push(s);
                    assert(views(out@) =~= before.push(sv));
                },
                None => {},
            },
            None => {},
        }
    }
    assert(fields@.take(n as int) =~= fields@);
    out
}

/// The `struct` code block: attributes, `pub struct`, name and generics, then the
/// fields in braces one per line, or in parentheses, or none; a semicolon ends a
/// tuple or unit struct unless a where clause spans several lines.
pub open spec fn struct_block_text(k: &Crate, item: Item, st: Struct) -> Seq<char> {
    let g = generics_full_text(k, st.generics);
    let head = attrs_text(item.attrs@) + "pub struct "@ + name_or(item.name, Seq::empty()) + g;
    let semi = if has_multiline_where(g) { Seq::<char>::empty() } else { ";"@ };
    match st.kind {
        StructKind::Plain { fields, .. } => {
            let body = head + " {"@ + (if fields@.len() > 0 { "\n"@ } else { Seq::empty() }) + field_lines(k, fields@);
            body + (if fields@.len() > 0 && !ends_with_newline(body) { "\n"@ } else { Seq::empty() }) + "}"@
        },
        StructKind::Tuple(fields) => head + "("@ + join(tuple_field_texts(k, fields@, true, true), ", "@) + ")"@ + semi,
        StructKind::Unit => head + semi,
    }
}

/// The `struct` code block of a named struct item: see `struct_block_text`.
pub fn generate_struct_code_block(item: &Item, s: &Struct, krate: &Crate) -> (res: String)
    requires
        item.name is Some,
    ensures
        res@ == struct_block_text(krate, *item, *s),
{
    let name = match &item.name {
        Some(n) => n,
        None => {
            return String::new();
        },
    };
    let mut code = format_attributes(item.attrs.as_slice());
    code.append("pub struct ");
    code.append(name.as_str());
    let generics_str = format_generics_full(&s.generics, krate);
    let where_is_multiline = contains_str(generics_str.as_str(), "where\n");
    code.append(generics_str.as_str());
    match &s.kind {
        StructKind::Plain { fields, .. } => {
            code.append(" {");
            if fields.len() > 0 {
                code.append("\n");
            }
            push_field_lines(&mut code, fields, krate);
            if fields.len() > 0 && !ends_with_newline_exec(&code) {
                code.append("\n");
            }
            code.append("}");
        },
        StructKind::Tuple(fields) => {
            code.append("(");
            let field_types = tuple_fields(fields, krate, true, true);
            let joined = join_strings(&field_types, ", ");
            code.append(joined.as_str());
            code.append(")");
            if !where_is_multiline {
                code.append(";");
            }
        },
        StructKind::Unit => {
            if !where_is_multiline {
                code.append(";");
            }
        },
    }
    code
}

/// The `union` code block: like a struct with named fields.
pub open spec fn union_block_text(k: &Crate, item: Item, u: Union) -> Seq<char> {
    let body = attrs_text(item.attrs@) + "pub union "@ + name_or(item.name, Seq::empty()) + generics_full_text(k, u.generics)
        + " {"@ + (if u.fields@.len() > 0 { "\n"@ } else { Seq::empty() }) + field_lines(k, u.fields@);
    body + (if u.fields@.len() > 0 && !ends_with_newline(body) { "\n"@ } else { Seq::empty() }) + "}"@
}

/// The `union` code block of a named union item: see `union_block_text`.
pub fn generate_union_code_block(item: &Item, u: &Union, krate: &Crate) -> (res: String)
    requires
        item.name is Some,
    ensures
        res@ == union_block_text(krate, *item, *u),
{
    let name = match &item.name {
        Some(n) => n,
        None => {
            return String::new();
        },
    };
    let mut code = format_attributes(item.attrs.as_slice());
    code.append("pub union ");
    code.append(name.as_str());
    let generics_str = format_generics_full(&u.generics, krate);
    code.append(generics_str.as_str());
    code.append(" {");
    if u.fields.len() > 0 {
        code.append("\n");
    }
    push_field_lines(&mut code, &u.fields, krate);
    if u.fields.len() > 0 && !ends_with_newline_exec(&code) {
        code.append("\n");
    }
    code.append("}");
    code
}

/// The text of each field of a struct variant: attributes when asked for, name and type.
pub open spec fn struct_variant_field_texts(k: &Crate, fields: Seq<Id>, with_attrs: bool) -> Seq<Seq<char>>
    decreases fields.len(),
{
    if fields.len() == 0 {
        Seq::empty()
    } else {
        let prev = struct_variant_field_texts(k, fields.drop_last(), with_attrs);
        let id = fields.last();
        match field_type(k, id) {
            Some(t) => prev.push(
                (if with_attrs { attrs_text(k.index_map()[id].attrs@) } else { Seq::empty() })
                    + name_or(k.index_map()[id].name, "_"@) + ": "@ + type_text(k, t),
            ),
            None => prev,
        }
    }
}

/// The texts of `struct_variant_field_texts`.
fn struct_variant_fields(fields: &Vec<Id>, krate: &Crate, with_attrs: bool) -> (res: Vec<String>)
    ensures
        views(res@) == struct_variant_field_texts(krate, fields@, with_attrs),
{
    let mut out: Vec<String> = Vec::new();
    let n = fields.len();
    assert(fields@.take(0) =~= Seq::<Id>::empty());
    for j in 0..n
        invariant
            n == fields@.len(),
            views(out@) == struct_variant_field_texts(krate, fields@.take(j as int), with_attrs),
    {
        proof {
            assert(fields@.take(j + 1).drop_last() =~= fields@.take(j as int));
            assert(fields@.take(j + 1).last() == fields@[j as int]);
        }
        match field_item(krate, fields[j]) {
            Some((field, ty)) => {
                let mut s = String::new();
                if with_attrs {
                    let a = format_attributes(field.attrs.as_slice());
                    s.append(a.as_str());
                }
                match &field.name {
                    Some(n) => {
                        s.append(n.as_str());
                    },
                    None => {
                        s.append("_");
                    },
                }
                s.append(": ");
                let t = format_type(ty, krate);
                s.append(t.as_str());
                let ghost before = views(out@);
                let ghost sv = s@;
                out.push(s);
                assert(views(out@) =~= before.push(sv));
            },
            None => {},
        }
    }
    assert(fields@.take(n as int) =~= fields@);
    out
}

/// A variant as written in its enum's code block: attributes, name and fields.
pub open spec fn variant_definition_text(k: &Crate, item: Item, v: Variant) -> Seq<char> {
    let name = name_or(item.name, "{Unnamed}"@);
    let attrs = attrs_text(item.attrs@);
    match v.kind {
        VariantKind::Plain => attrs + name,
        VariantKind::Tuple(fields) => attrs + name + "("@ + join(tuple_field_texts(k, fields@, false, true), ", "@) + ")"@,
        VariantKind::Struct { fields, .. } => attrs + name + "{ "@
            + join(struct_variant_field_texts(k, fields@, true), ", "@) + " }"@,
    }
}

/// A variant as written in its enum's code block: see `variant_definition_text`.
pub fn format_variant_definition(item: &Item, v: &Variant, krate: &Crate) -> (res: String)
    ensures
        res@ == variant_definition_text(krate, *item, *v),
{
    let mut s = format_attributes(item.attrs.as_slice());
    match &item.name {
        Some(n) => {
            s.append(n.as_str());
        },
        None => {
            s.append("{Unnamed}");
        },
    }
    match &v.kind {
        VariantKind::Plain => {},
        VariantKind::Tuple(fields) => {
            let types = tuple_fields(fields, krate, false, true);
            s.append("(");
            let joined = join_strings(&types, ", ");
            s.append(joined.as_str());
            s.append(")");
        },
        VariantKind::Struct { fields, .. } => {
            let fs = struct_variant_fields(fields, krate, true);
            s.append("{ ");
            let joined = join_strings(&fs, ", ");
            s.append(joined.as_str());
            s.append(" }");
        },
    }
    s
}

/// A variant as its header shows it: name, field types or fields, and discriminant.
pub open spec fn variant_signature_text(k: &Crate, item: Item, v: Variant) -> Seq<char> {
    let name = name_or(item.name, "{Unnamed}"@);
    let sig = match v.kind {
        VariantKind::Plain => name,
        VariantKind::Tuple(fields) => name + "("@ + join(tuple_field_texts(k, fields@, false, false), ", "@) + ")"@,
        VariantKind::Struct { fields, .. } => name + " { "@ + join(struct_variant_field_texts(k, fields@, false), ", "@)
            + " }"@,
    };
    match v.discriminant {
        Some(d) => sig + " = "@ + discriminant_text(d),
        None => sig,
    }
}

/// A variant as its header shows it: see `variant_signature_text`.
pub fn format_variant_signature(item: &Item, v: &Variant, krate: &Crate) -> (res: String)
    ensures
        res@ == variant_signature_text(krate, *item, *v),
{
    let mut sig = match &item.name {
        Some(n) => n.clone(),
        None => String::from_str("{Unnamed}"),
    };
    match &v.kind {
        VariantKind::Plain => {},
        VariantKind::Tuple(fields) => {
            let types = tuple_fields(fields, krate, false, false);
            sig.append("(");
            let joined = join_strings(&types, ", ");
            sig.append(joined.as_str());
            sig.append(")");
        },
        VariantKind::Struct { fields, .. } => {
            let fs = struct_variant_fields(fields, krate, false);
            sig.append(" { ");
            let joined = join_strings(&fs, ", ");
            sig.append(joined.as_str());
            sig.append(" }");
        },
    }
    if let Some(discr) = &v.discriminant {
        sig.append(" = ");
        let d = format_discriminant_expr(discr);
        sig.append(d.as_str());
    }
    sig
}

/// One line per variant of the list that the crate has: its definition, its
/// discriminant, and a comma.
pub open spec fn variant_lines(k: &Crate, variants: Seq<Id>) -> Seq<char>
    decreases variants.len(),
{
    if variants.len() == 0 {
        Seq::empty()
    } else {
        let prev = variant_lines(k, variants.drop_last());
        let id = variants.last();
        if k.index_map().contains_key(id) {
            match k.index_map()[id].inner {
                ItemEnum::Variant(v) => prev + "    "@ + variant_definition_text(k, k.index_map()[id], v)
                    + match v.discriminant {
                        Some(d) => " = "@ + discriminant_text(d),
                        None => Seq::empty(),
                    } + ",\n"@,
                _ => prev,
            }
        } else {
            prev
        }
    }
}

/// The `enum` code block: attributes, `pub enum`, name, generics, and the
/// variants in braces one per line.
pub open spec fn enum_block_text(k: &Crate, item: Item, e: Enum) -> Seq<char> {
    let body = attrs_text(item.attrs@) + "pub enum "@ + name_or(item.name, Seq::empty()) + generics_full_text(k, e.generics)
        + " {"@ + (if e.variants@.len() > 0 { "\n"@ } else { Seq::empty() }) + variant_lines(k, e.variants@);
    body + (if e.variants@.len() > 0 && !ends_with_newline(body) { "\n"@ } else { Seq::empty() }) + "}"@
}

/// The `enum` code block of a named enum item: see `enum_block_text`.
pub fn generate_enum_code_block(item: &Item, e: &Enum, krate: &Crate) -> (res: String)
    requires
        item.name is Some,
    ensures
        res@ == enum_block_text(krate, *item, *e),
{
    let name = match &item.name {
        Some(n) => n,
        None => {
            return String::new();
        },
    };
    let mut code = format_attributes(item.attrs.as_slice());
    code.append("pub enum ");
    code.append(name.as_str());
    let generics_str = format_generics_full(&e.generics, krate);
    code.append(generics_str.as_str());
    code.append(" {");
    if e.variants.len() > 0 {
        code.append("\n");
    }
    let ghost c0 = code@;
    let n = e.variants.len();
    assert(e.variants@.take(0) =~= Seq::<Id>::empty());
    for j in 0..n
        invariant
            n == e.variants@.len(),
            code@ == c0 + variant_lines(krate, e.variants@.take(j as int)),
    {
        proof {
            assert(e.variants@.take(j + 1).drop_last() =~= e.variants@.take(j as int));
            assert(e.variants@.take(j + 1).last() == e.variants@[j as int]);
        }
        match krate.get(e.variants[j]) {
            Some(variant_item) => {
                if let ItemEnum::Variant(variant_data) = &variant_item.inner {
                    code.append("    ");
                    let d = format_variant_definition(variant_item, variant_data, krate);
                    code.append(d.as_str());
                    if let Some(discr) = &variant_data.discriminant {
                        code.append(" = ");
                        let t = format_discriminant_expr(discr);
                        code.append(t.as_str());
                    }
                    code.append(",\n");
                }
            },
            None => {},
        }
    }
    assert(e.variants@.take(n as int) =~= e.variants@);
    if e.variants.len() > 0 && !ends_with_newline_exec(&code) {
        code.append("\n");
    }
    code.append("}");
    code
}

/// The text of each argument of a signature: name, colon and type.
pub open spec fn fn_arg_texts(k: &Crate, ins: Seq<(String, Type)>) -> Seq<Seq<char>> {
    Seq::new(ins.len(), |j: int| ins[j].0@ + ": "@ + type_text(k, ins[j].1))
}

/// The arguments of a signature joined by `, `, with `, ...` for a C-variadic one,
/// in parentheses, then the return type.
pub open spec fn fn_args_and_output_text(k: &Crate, f: Function) -> Seq<char> {
    "("@ + join(fn_arg_texts(k, f.sig.inputs@), ", "@) + (if f.sig.is_c_variadic { ", ..."@ } else { Seq::empty() })
        + ")"@ + match f.sig.output {
            Some(t) => " -> "@ + type_text(k, t),
            None => Seq::empty(),
        }
}

/// Appends the parenthesized arguments and the return type: see `fn_args_and_output_text`.
fn push_args_and_output(code: &mut String, f: &Function, krate: &Crate)
    ensures
        final(code)@ == old(code)@ + fn_args_and_output_text(krate, *f),
{
    code.append("(");
    let mut args: Vec<String> = Vec::new();
    let n = f.sig.inputs.len();
    for j in 0..n
        invariant
            n == f.sig.inputs@.len(),
            args@.len() == j,
            forall|q: int| 0 <= q < j ==> (#[trigger] args@[q])@
                == f.sig.inputs@[q].0@ + ": "@ + type_text(krate, f.sig.inputs@[q].1),
    {
        let mut a = f.sig.inputs[j].0.clone();
        a.append(": ");
        let t = format_type(&f.sig.inputs[j].1, krate);
        a.append(t.as_str());
        args.push(a);
    }
    assert(views(args@) =~= fn_arg_texts(krate, f.sig.inputs@));
    let joined = join_strings(&args, ", ");
    code.append(joined.as_str());
    if f.sig.is_c_variadic {
        code.append(", ...");
    }
    code.append(")");
    if let Some(output_type) = &f.sig.output {
        code.append(" -> ");
        let t = format_type(output_type, krate);
        code.append(t.as_str());
    }
}

/// The full signature of a function: attributes, `pub`, qualifiers, ABI, name,
/// generics, arguments and return type, then `{ ... }` when it has a body, or a
/// semicolon unless a where clause spans several lines.
pub open spec fn function_block_text(k: &Crate, item: Item, f: Function) -> Seq<char> {
    let g = generics_full_text(k, f.generics);
    attrs_text(item.attrs@) + "pub "@ + fn_qualifiers_text(f) + "fn "@ + name_or(item.name, Seq::empty()) + g
        + fn_args_and_output_text(k, f) + (if f.has_body {
            " { ... }"@
        } else if !has_multiline_where(g) {
            ";"@
        } else {
            Seq::empty()
        })
}

/// The qualifiers of a function: `const`, `async`, `unsafe` and its ABI when not Rust's.
pub open spec fn fn_qualifiers_text(f: Function) -> Seq<char> {
    (if f.header.is_const { "const "@ } else { Seq::empty() })
        + (if f.header.is_async { "async "@ } else { Seq::empty() })
        + (if f.header.is_unsafe { "unsafe "@ } else { Seq::empty() })
        + (if f.header.abi is Rust { Seq::empty() } else { "extern \""@ + abi_text(f.header.abi) + "\" "@ })
}

/// Appends the qualifiers of a function: see `fn_qualifiers_text`.
fn push_fn_qualifiers(code: &mut String, f: &Function)
    ensures
        final(code)@ == old(code)@ + fn_qualifiers_text(*f),
{
    let ghost c0 = code@;
    if f.header.is_const {
        code.append("const ");
    }
    let ghost c1 = code@;
    if f.header.is_async {
        code.append("async ");
    }
    let ghost c2 = code@;
    if f.header.is_unsafe {
        code.append("unsafe ");
    }
    let ghost c3 = code@;
    if let crate::model::Abi::Rust = f.header.abi {
    } else {
        code.append("extern \"");
        let a = format_abi(&f.header.abi);
        code.append(a.as_str());
        code.append("\" ");
    }
    assert(code@ =~= c0 + fn_qualifiers_text(*f));
}

/// The full signature of a named function item: see `function_block_text`.
pub fn generate_function_code_block(item: &Item, f: &Function, krate: &Crate) -> (res: String)
    requires
        item.name is Some,
    ensures
        res@ == function_block_text(krate, *item, *f),
{
    let name = match &item.name {
        Some(n) => n,
        None => {
            return String::new();
        },
    };
    let mut code = format_attributes(item.attrs.as_slice());
    code.append("pub ");
    push_fn_qualifiers(&mut code, f);
    code.append("fn ");
    code.append(name.as_str());
    let generics_str = format_generics_full(&f.generics, krate);
    let where_is_multiline = contains_str(generics_str.as_str(), "where\n");
    code.append(generics_str.as_str());
    push_args_and_output(&mut code, f, krate);
    if f.has_body {
        code.append(" { ... }");
    } else if !where_is_multiline {
        code.append(";");
    }
    code
}

/// One line per associated constant, type or function of a trait's item list.
pub open spec fn trait_item_lines(k: &Crate, items: Seq<Id>) -> Seq<char>
    decreases items.len(),
{
    if items.len() == 0 {
        Seq::empty()
    } else {
        let prev = trait_item_lines(k, items.drop_last());
        let id = items.last();
        if !k.index_map().contains_key(id) {
            prev
        } else {
            let it = k.index_map()[id];
            match it.inner {
                ItemEnum::AssocConst { type_, value } => prev + assoc_const_line(k, it, type_, value),
                ItemEnum::AssocType { bounds, type_, .. } => prev + assoc_type_line(k, it, bounds@, type_),
                ItemEnum::Function(f) => prev + "    "@ + function_block_text(k, it, f) + ";\n"@,
                _ => prev,
            }
        }
    }
}

/// The line of an associated constant in a trait's code block.
pub open spec fn assoc_const_line(k: &Crate, it: Item, type_: Type, value: Option<String>) -> Seq<char> {
    "    "@ + attrs_text(it.attrs@) + "const "@ + name_or(it.name, "_"@) + ": "@ + type_text(k, type_) + match value {
        Some(v) => " = "@ + v@ + ";"@,
        None => ";"@,
    } + "\n"@
}

/// The line of an associated type in a trait's code block.
pub open spec fn assoc_type_line(k: &Crate, it: Item, bounds: Seq<GenericBound>, type_: Option<Type>) -> Seq<char> {
    "    "@ + attrs_text(it.attrs@) + "type "@ + name_or(it.name, "_"@) + (if bounds.len() > 0 {
        ": "@ + bounds_text(k, bounds)
    } else {
        Seq::empty()
    }) + match type_ {
        Some(t) => " = "@ + type_text(k, t) + ";"@,
        None => ";"@,
    } + "\n"@
}

/// Appends the name, or `_` when there is none.
fn push_name_or_underscore(code: &mut String, name: &Option<String>)
    ensures
        final(code)@ == old(code)@ + name_or(*name, "_"@),
{
    match name {
        Some(n) => {
            code.append(n.as_str());
        },
        None => {
            code.append("_");
        },
    }
}

/// Appends `assoc_const_line`.
fn push_assoc_const_line(code: &mut String, it: &Item, type_: &Type, value: &Option<String>, krate: &Crate)
    ensures
        final(code)@ == old(code)@ + assoc_const_line(krate, *it, *type_, *value),
{
    let ghost c0 = code@;
    code.append("    ");
    let a = format_attributes(it.attrs.as_slice());
    code.append(a.as_str());
    code.append("const ");
    push_name_or_underscore(code, &it.name);
    code.append(": ");
    let t = format_type(type_, krate);
    code.append(t.as_str());
    let ghost c1 = code@;
    match value {
        Some(val) => {
            code.append(" = ");
            code.append(val.as_str());
            code.append(";");
        },
        None => {
            code.append(";");
        },
    }
    code.append("\n");
}

/// Appends `assoc_type_line`.
fn push_assoc_type_line(code: &mut String, it: &Item, bounds: &Vec<GenericBound>, type_: &Option<Type>, krate: &Crate)
    ensures
        final(code)@ == old(code)@ + assoc_type_line(krate, *it, bounds@, *type_),
{
    code.append("    ");
    let a = format_attributes(it.attrs.as_slice());
    code.append(a.as_str());
    code.append("type ");
    push_name_or_underscore(code, &it.name);
    if bounds.len() > 0 {
        code.append(": ");
        let b = format_bounds(bounds, krate);
        code.append(b.as_str());
    }
    match type_ {
        Some(ty) => {
            code.append(" = ");
            let t = format_type(ty, krate);
            code.append(t.as_str());
            code.append(";");
        },
        None => {
            code.append(";");
        },
    }
    code.append("\n");
}

/// Every function among the listed items of the crate has a name.
pub open spec fn functions_named(k: &Crate, items: Seq<Id>) -> bool {
    forall|i: int| #![trigger items[i]] 0 <= i < items.len() && k.index_map().contains_key(items[i])
        && k.index_map()[items[i]].inner is Function ==> k.index_map()[items[i]].name is Some
}

/// The head of a trait declaration up to its where clause: attributes, `pub`, then
/// `unsafe` and `auto` where they apply, name, generic parameters and supertraits.
pub open spec fn trait_head_text(k: &Crate, item: Item, t: Trait) -> Seq<char> {
    attrs_text(item.attrs@) + "pub "@ + (if t.is_unsafe { "unsafe "@ } else { Seq::empty() }) + (if t.is_auto {
        "auto "@
    } else {
        Seq::empty()
    }) + "trait "@ + name_or(item.name, Seq::empty()) + params_only_text(k, t.generics.params@) + (if t.bounds@.len() > 0 {
        ": "@ + bounds_text(k, t.bounds@)
    } else {
        Seq::empty()
    })
}

/// The trait code block: its head, its where clause, and its associated items one
/// per line in braces.
pub open spec fn trait_block_text(k: &Crate, item: Item, t: Trait) -> Seq<char> {
    let wc = where_text(k, t.generics.where_predicates@);
    let head = trait_head_text(k, item, t) + (if wc.len() == 0 {
        Seq::empty()
    } else if wc.contains('\n') {
        "\n  "@ + wc
    } else {
        " "@ + wc
    });
    if t.items@.len() == 0 {
        head + " {}"@
    } else {
        let body = head + " {"@ + "\n"@ + trait_item_lines(k, t.items@);
        body + (if !ends_with_newline(body) { "\n"@ } else { Seq::empty() }) + "}"@
    }
}

/// Appends the head of a trait declaration: see `trait_head_text`.
fn push_trait_head(code: &mut String, item: &Item, t: &Trait, krate: &Crate)
    requires
        old(code)@.len() == 0,
    ensures
        final(code)@ == trait_head_text(krate, *item, *t),
{
    let a = format_attributes(item.attrs.as_slice());
    code.append(a.as_str());
    assert(code@ =~= attrs_text(item.attrs@));
    code.append("pub ");
    if t.is_unsafe {
        code.append("unsafe ");
    }
    let ghost c1 = code@;
    if t.is_auto {
        code.append("auto ");
    }
    let ghost c2 = code@;
    code.append("trait ");
    match &item.name {
        Some(n) => {
            code.append(n.as_str());
        },
        None => {},
    }
    let ghost c3 = code@;
    assert(c3 =~= c2 + "trait "@ + name_or(item.name, Seq::empty()));
    let g = format_generics_params_only(t.generics.params.as_slice(), krate);
    code.append(g.as_str());
    let ghost c4 = code@;
    if t.bounds.len() > 0 {
        code.append(": ");
        let b = format_bounds(&t.bounds, krate);
        code.append(b.as_str());
    }
    assert(code@ =~= c4 + (if t.bounds@.len() > 0 { ": "@ + bounds_text(krate, t.bounds@) } else { Seq::empty() }));
}

/// Appends the lines of `trait_item_lines`.
fn push_trait_item_lines(code: &mut String, items: &Vec<Id>, krate: &Crate)
    requires
        functions_named(krate, items@),
    ensures
        final(code)@ == old(code)@ + trait_item_lines(krate, items@),
{
    let ghost c0 = code@;
    let n = items.len();
    assert(items@.take(0) =~= Seq::<Id>::empty());
    for j in 0..n
        invariant
            n == items@.len(),
            functions_named(krate, items@),
            code@ == c0 + trait_item_lines(krate, items@.take(j as int)),
    {
        proof {
            assert(items@.take(j + 1).drop_last() =~= items@.take(j as int));
            assert(items@.take(j + 1).last() == items@[j as int]);
        }
        match krate.get(items[j]) {
            Some(assoc_item) => {
                match &assoc_item.inner {
                    ItemEnum::AssocConst { type_, value } => {
                        push_assoc_const_line(code, assoc_item, type_, value, krate);
                    },
                    ItemEnum::AssocType { bounds, type_, .. } => {
                        push_assoc_type_line(code, assoc_item, bounds, type_, krate);
                    },
                    ItemEnum::Function(f) => {
                        assert(items@[j as int] == items[j as int]);
                        code.append("    ");
                        let b = generate_function_code_block(assoc_item, f, krate);
                        code.append(b.as_str());
                        code.append(";\n");
                    },
                    _ => {},
                }
            },
            None => {},
        }
    }
    assert(items@.take(n as int) =~= items@);
}

/// The code block of a named trait whose functions are named: see `trait_block_text`.
pub fn generate_trait_code_block(item: &Item, t: &Trait, krate: &Crate) -> (res: String)
    requires
        item.name is Some,
        functions_named(krate, t.items@),
    ensures
        res@ == trait_block_text(krate, *item, *t),
{
    let mut code = String::new();
    push_trait_head(&mut code, item, t, krate);
    let where_clause = format_generics_where_only(t.generics.where_predicates.as_slice(), krate);
    let multiline = contains_char(where_clause.as_str(), '\n');
    if !where_clause.as_str().is_empty() {
        if multiline {
            code.append("\n  ");
            code.append(where_clause.as_str());
        } else {
            code.append(" ");
            code.append(where_clause.as_str());
        }
    }
    if t.items.len() == 0 {
        code.append(" {}");
    } else {
        code.append(" {");
        code.append("\n");
        push_trait_item_lines(&mut code, &t.items, krate);
        if !ends_with_newline_exec(&code) {
            code.append("\n");
        }
        code.append("}");
    }
    code
}

/// The name a declaration shows: the item's, or a placeholder.
pub open spec fn decl_name(item: Item) -> Seq<char> {
    match item.name {
        Some(n) => n@,
        None => if item.inner is StructField {
            "{unnamed_field}"@
        } else {
            "{unnamed}"@
        },
    }
}

/// The module path followed by the name, when it is not empty, joined by `::`.
pub open spec fn fq_path_text(path: Seq<String>, name: Seq<char>) -> Seq<char> {
    join(views(path) + (if name.len() > 0 { seq![name] } else { Seq::empty() }), "::"@)
}

pub open spec fn macro_kind_text(kind: MacroKind) -> Seq<char> {
    match kind {
        MacroKind::Bang => "!"@,
        MacroKind::Attr => "#[]"@,
        MacroKind::Derive => "#[derive]"@,
    }
}

/// `b` ends `a + b`.
proof fn lemma_ends_with(a: Seq<char>, b: Seq<char>)
    ensures
        b.is_suffix_of(a + b),
{
    assert((a + b).subrange(a.len() as int, (a + b).len() as int) =~= b);
}

/// A function's declaration and its code block show its return type last: after the
/// parenthesis that closes the arguments come ` -> ` and the output type where the
/// signature has one (then ` { ... }` in the code block of a function with a body);
/// without an output, the declaration ends with that parenthesis.
pub proof fn law_function_output_shown(k: &Crate, item: Item, path: Seq<String>)
    requires
        item.inner is Function,
    ensures
        match item.inner {
            ItemEnum::Function(f) => match f.sig.output {
                Some(t) => (")"@ + " -> "@ + type_text(k, t)).is_suffix_of(declaration_text(k, item, path))
                    && (f.has_body ==> (")"@ + " -> "@ + type_text(k, t) + " { ... }"@).is_suffix_of(
                    function_block_text(k, item, f))),
                None => ")"@.is_suffix_of(declaration_text(k, item, path))
                    && (f.has_body ==> (")"@ + " { ... }"@).is_suffix_of(function_block_text(k, item, f))),
            },
            _ => true,
        },
{
    if let ItemEnum::Function(f) = item.inner {
        let d = declaration_text(k, item, path);
        assert(d == "fn "@ + decl_name(item) + params_only_text(k, f.generics.params@) + fn_args_and_output_text(k, f));
        lemma_args_and_output_ends(k, f, "fn "@ + decl_name(item) + params_only_text(k, f.generics.params@), Seq::empty());
        if f.has_body {
            let g = generics_full_text(k, f.generics);
            let bhead = attrs_text(item.attrs@) + "pub "@ + fn_qualifiers_text(f) + "fn "@ + name_or(item.name, Seq::empty()) + g;
            assert(function_block_text(k, item, f) == bhead + fn_args_and_output_text(k, f) + " { ... }"@);
            lemma_args_and_output_ends(k, f, bhead, " { ... }"@);
        }
    }
}

/// Text that ends with a function's arguments and output, then `after`, ends with the
/// closing parenthesis, the output (if any), then `after`.
proof fn lemma_args_and_output_ends(k: &Crate, f: Function, before: Seq<char>, after: Seq<char>)
    ensures
        match f.sig.output {
            Some(t) => (")"@ + " -> "@ + type_text(k, t) + after).is_suffix_of(before + fn_args_and_output_text(k, f) + after),
            None => (")"@ + after).is_suffix_of(before + fn_args_and_output_text(k, f) + after),
        },
{
    let args = "("@ + join(fn_arg_texts(k, f.sig.inputs@), ", "@) + (if f.sig.is_c_variadic { ", ..."@ } else {
        Seq::empty()
    });
    match f.sig.output {
        Some(t) => {
            let tail = ")"@ + " -> "@ + type_text(k, t) + after;
            assert(before + fn_args_and_output_text(k, f) + after =~= (before + args) + tail);
            lemma_ends_with(before + args, tail);
        },
        None => {
            assert(before + fn_args_and_output_text(k, f) + after =~= (before + args) + (")"@ + after));
            lemma_ends_with(before + args, ")"@ + after);
        },
    }
}

/// The one-line declaration of an item, as its header shows it; for a function a simple
/// one, without attributes or where clause.
pub open spec fn declaration_text(k: &Crate, item: Item, path: Seq<String>) -> Seq<char> {
    let name = decl_name(item);
    match item.inner {
        ItemEnum::Struct(s) => "struct "@ + fq_path_text(path, name) + params_only_text(k, s.generics.params@),
        ItemEnum::Enum(e) => "enum "@ + fq_path_text(path, name) + params_only_text(k, e.generics.params@),
        ItemEnum::Union(u) => "union "@ + fq_path_text(path, name) + params_only_text(k, u.generics.params@),
        ItemEnum::Trait(t) => (if t.is_auto { "auto "@ } else { Seq::empty() }) + (if t.is_unsafe {
            "unsafe "@
        } else {
            Seq::empty()
        }) + "trait "@ + fq_path_text(path, name) + params_only_text(k, t.generics.params@),
        ItemEnum::Function(f) => "fn "@ + name + params_only_text(k, f.generics.params@)
            + fn_args_and_output_text(k, f),
        ItemEnum::TypeAlias(ta) => "type "@ + name + params_only_text(k, ta.generics.params@),
        ItemEnum::TraitAlias(ta) => "trait "@ + name + params_only_text(k, ta.generics.params@),
        ItemEnum::Constant { .. } => "const "@ + name,
        ItemEnum::Static(st) => "static "@ + (if st.is_mutable { "mut "@ } else { Seq::empty() }) + name,
        ItemEnum::Macro(_) => "macro "@ + name + "!"@,
        ItemEnum::ProcMacro(pm) => "proc_macro "@ + name + macro_kind_text(pm.kind),
        ItemEnum::Primitive(_) => "primitive "@ + name,
        ItemEnum::Module(_) => "mod "@ + name,
        ItemEnum::ExternCrate { name: crate_name, .. } => "extern crate "@ + crate_name@,
        ItemEnum::Use(_) => "use "@ + name,
        ItemEnum::ExternType => "extern type "@ + name,
        ItemEnum::Variant(v) => variant_signature_text(k, item, v),
        ItemEnum::StructField(_) => name,
        ItemEnum::AssocConst { .. } => "const "@ + name,
        ItemEnum::AssocType { .. } => "type "@ + name,
        ItemEnum::Impl(_) => "impl"@,
    }
}

/// The module path followed by the name: see `fq_path_text`.
fn fq_path(current_module_path: &[String], name: &String) -> (res: String)
    ensures
        res@ == fq_path_text(current_module_path@, name@),
{
    let mut parts: Vec<String> = Vec::new();
    let n = current_module_path.len();
    for j in 0..n
        invariant
            n == current_module_path@.len(),
            parts@ == current_module_path@.take(j as int),
    {
        parts.push(current_module_path[j].clone());
        assert(current_module_path@.take(j + 1) =~= current_module_path@.take(j as int).push(current_module_path@[j as int]));
    }
    assert(current_module_path@.take(n as int) =~= current_module_path@);
    if !name.as_str().is_empty() {
        parts.push(name.clone());
    }
    assert(views(parts@) =~= views(current_module_path@) + (if name@.len() > 0 { seq![name@] } else { Seq::empty() }));
    join_strings(&parts, "::")
}

/// The one-line declaration of an item: see `declaration_text`.
pub fn generate_item_declaration(item: &Item, krate: &Crate, current_module_path: &[String]) -> (res: String)
    ensures
        res@ == declaration_text(krate, *item, current_module_path@),
{
    let name = match &item.name {
        Some(n) => n.clone(),
        None => match &item.inner {
            ItemEnum::StructField(_) => String::from_str("{unnamed_field}"),
            _ => String::from_str("{unnamed}"),
        },
    };
    match &item.inner {
        ItemEnum::Struct(s) => {
            let mut code = String::from_str("struct ");
            let p = fq_path(current_module_path, &name);
            code.append(p.as_str());
            let g = format_generics_params_only(s.generics.params.as_slice(), krate);
            code.append(g.as_str());
            code
        },
        ItemEnum::Enum(e) => {
            let mut code = String::from_str("enum ");
            let p = fq_path(current_module_path, &name);
            code.append(p.as_str());
            let g = format_generics_params_only(e.generics.params.as_slice(), krate);
            code.append(g.as_str());
            code
        },
        ItemEnum::Union(u) => {
            let mut code = String::from_str("union ");
            let p = fq_path(current_module_path, &name);
            code.append(p.as_str());
            let g = format_generics_params_only(u.generics.params.as_slice(), krate);
            code.append(g.as_str());
            code
        },
        ItemEnum::Trait(t) => {
            let mut code = String::new();
            if t.is_auto {
                code.append("auto ");
            }
            if t.is_unsafe {
                code.append("unsafe ");
            }
            code.append("trait ");
            let p = fq_path(current_module_path, &name);
            code.append(p.as_str());
            let g = format_generics_params_only(t.generics.params.as_slice(), krate);
            code.append(g.as_str());
            code
        },
        ItemEnum::Function(f) => {
            let mut code = String::from_str("fn ");
            code.append(name.as_str());
            let g = format_generics_params_only(f.generics.params.as_slice(), krate);
            code.append(g.as_str());
            push_args_and_output(&mut code, f, krate);
            code
        },
        ItemEnum::TypeAlias(ta) => {
            let mut code = String::from_str("type ");
            code.append(name.as_str());
            let g = format_generics_params_only(ta.generics.params.as_slice(), krate);
            code.append(g.as_str());
            code
        },
        ItemEnum::TraitAlias(ta) => {
            let mut code = String::from_str("trait ");
            code.append(name.as_str());
            let g = format_generics_params_only(ta.generics.params.as_slice(), krate);
            code.append(g.as_str());
            code
        },
        ItemEnum::Constant { .. } => {
            let mut code = String::from_str("const ");
            code.append(name.as_str());
            code
        },
        ItemEnum::Static(st) => {
            let mut code = String::from_str("static ");
            if st.is_mutable {
                code.append("mut ");
            }
            code.append(name.as_str());
            code
        },
        ItemEnum::Macro(_) => {
            let mut code = String::from_str("macro ");
            code.append(name.as_str());
            code.append("!");
            code
        },
        ItemEnum::ProcMacro(pm) => {
            let mut code = String::from_str("proc_macro ");
            code.append(name.as_str());
            match pm.kind {
                MacroKind::Bang => code.append("!"),
                MacroKind::Attr => code.append("#[]"),
                MacroKind::Derive => code.append("#[derive]"),
            }
            code
        },
        ItemEnum::Primitive(_) => {
            let mut code = String::from_str("primitive ");
            code.append(name.as_str());
            code
        },
        ItemEnum::Module(_) => {
            let mut code = String::from_str("mod ");
            code.append(name.as_str());
            code
        },
        ItemEnum::ExternCrate { name: crate_name, .. } => {
            let mut code = String::from_str("extern crate ");
            code.append(crate_name.as_str());
            code
        },
        ItemEnum::Use(_) => {
            let mut code = String::from_str("use ");
            code.append(name.as_str());
            code
        },
        ItemEnum::ExternType => {
            let mut code = String::from_str("extern type ");
            code.append(name.as_str());
            code
        },
        ItemEnum::Variant(v) => format_variant_signature(item, v, krate),
        ItemEnum::StructField(_) => name,
        ItemEnum::AssocConst { .. } => {
            let mut code = String::from_str("const ");
            code.append(name.as_str());
            code
        },
        ItemEnum::AssocType { .. } => {
            let mut code = String::from_str("type ");
            code.append(name.as_str());
            code
        },
        ItemEnum::Impl(_) => String::from_str("impl"),
    }
}

} // verus!
