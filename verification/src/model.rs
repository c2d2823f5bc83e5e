//! The crate description that documentation is generated from: items, types,
//! generics and the crate's index, held as plain values.

use vstd::prelude::*;
use std::collections::HashMap;

verus! {

broadcast use vstd::std_specs::hash::group_hash_axioms;

/// Identifier of an item in a crate description.
pub type Id = u32;

#[derive(Debug)]
pub struct Path {
    pub path: String,
    pub id: Id,
    pub args: Option<Box<GenericArgs>>,
}

#[derive(Debug)]
pub struct PolyTrait {
    pub trait_: Path,
    pub generic_params: Vec<GenericParamDef>,
}

#[derive(Debug)]
pub struct DynTrait {
    pub traits: Vec<PolyTrait>,
    pub lifetime: Option<String>,
}

#[derive(Debug)]
pub enum GenericArgs {
    AngleBracketed { args: Vec<GenericArg>, constraints: Vec<AssocItemConstraint> },
    Parenthesized { inputs: Vec<Type>, output: Option<Type> },
    ReturnTypeNotation,
}

#[derive(Debug)]
pub enum GenericArg {
    Lifetime(String),
    Type(Type),
    Const(Constant),
    Infer,
}

#[derive(Debug)]
pub struct Constant {
    pub expr: String,
    pub value: Option<String>,
    pub is_literal: bool,
}

#[derive(Debug)]
pub struct AssocItemConstraint {
    pub name: String,
    pub args: GenericArgs,
    pub binding: AssocItemConstraintKind,
}

#[derive(Debug)]
pub enum AssocItemConstraintKind {
    Equality(Term),
    Constraint(Vec<GenericBound>),
}

#[derive(Debug, Clone, Copy, PartialEq, Eq, Structural)]
pub enum TraitBoundModifier {
    Unmodified,
    Maybe,
    MaybeConst,
}

#[derive(Debug)]
pub enum PreciseCapturingArg {
    Lifetime(String),
    Param(String),
}

#[derive(Debug)]
pub enum GenericBound {
    TraitBound {
        trait_: Path,
        generic_params: Vec<GenericParamDef>,
        modifier: TraitBoundModifier,
    },
    Outlives(String),
    Use(Vec<PreciseCapturingArg>),
}

#[derive(Debug)]
pub enum Term {
    Type(Type),
    Constant(Constant),
}

#[derive(Debug)]
pub struct GenericParamDef {
    pub name: String,
    pub kind: GenericParamDefKind,
}

#[derive(Debug)]
pub enum GenericParamDefKind {
    Lifetime { outlives: Vec<String> },
    Type { bounds: Vec<GenericBound>, default: Option<Type>, is_synthetic: bool },
    Const { type_: Type, default: Option<String> },
}

#[derive(Debug)]
pub enum WherePredicate {
    BoundPredicate {
        type_: Type,
        bounds: Vec<GenericBound>,
        generic_params: Vec<GenericParamDef>,
    },
    LifetimePredicate { lifetime: String, outlives: Vec<String> },
    EqPredicate { lhs: Type, rhs: Term },
}

#[derive(Debug)]
pub struct Generics {
    pub params: Vec<GenericParamDef>,
    pub where_predicates: Vec<WherePredicate>,
}

#[derive(Debug)]
pub enum Abi {
    Rust,
    C { unwind: bool },
    Cdecl { unwind: bool },
    Stdcall { unwind: bool },
    Fastcall { unwind: bool },
    Aapcs { unwind: bool },
    Win64 { unwind: bool },
    SysV64 { unwind: bool },
    System { unwind: bool },
    Other(String),
}

#[derive(Debug)]
pub struct FunctionHeader {
    pub is_const: bool,
    pub is_unsafe: bool,
    pub is_async: bool,
    pub abi: Abi,
}

#[derive(Debug)]
pub struct FunctionSignature {
    pub inputs: Vec<(String, Type)>,
    pub output: Option<Type>,
    pub is_c_variadic: bool,
}

#[derive(Debug)]
pub struct FunctionPointer {
    pub sig: FunctionSignature,
    pub generic_params: Vec<GenericParamDef>,
    pub header: FunctionHeader,
}

#[derive(Debug)]
pub enum Type {
    ResolvedPath(Path),
    DynTrait(DynTrait),
    Generic(String),
    Primitive(String),
    FunctionPointer(Box<FunctionPointer>),
    Tuple(Vec<Type>),
    Slice(Box<Type>),
    Array { type_: Box<Type>, len: String },
    Pat { type_: Box<Type>, pat: String },
    ImplTrait(Vec<GenericBound>),
    Infer,
    RawPointer { is_mutable: bool, type_: Box<Type> },
    BorrowedRef { lifetime: Option<String>, is_mutable: bool, type_: Box<Type> },
    QualifiedPath {
        name: String,
        args: Box<GenericArgs>,
        self_type: Box<Type>,
        trait_: Option<Path>,
    },
}

#[derive(Debug)]
pub struct Module {
    pub is_crate: bool,
    pub items: Vec<Id>,
    pub is_stripped: bool,
}

#[derive(Debug)]
pub struct Use {
    pub source: String,
    pub name: String,
    pub id: Option<Id>,
    pub is_glob: bool,
}

#[derive(Debug)]
pub struct Union {
    pub generics: Generics,
    pub has_stripped_fields: bool,
    pub fields: Vec<Id>,
    pub impls: Vec<Id>,
}

#[derive(Debug)]
pub enum StructKind {
    Unit,
    Tuple(Vec<Option<Id>>),
    Plain { fields: Vec<Id>, has_stripped_fields: bool },
}

#[derive(Debug)]
pub struct Struct {
    pub kind: StructKind,
    pub generics: Generics,
    pub impls: Vec<Id>,
}

#[derive(Debug)]
pub struct Enum {
    pub generics: Generics,
    pub has_stripped_variants: bool,
    pub variants: Vec<Id>,
    pub impls: Vec<Id>,
}

#[derive(Debug)]
pub struct Discriminant {
    pub expr: String,
    pub value: String,
}

#[derive(Debug)]
pub enum VariantKind {
    Plain,
    Tuple(Vec<Option<Id>>),
    Struct { fields: Vec<Id>, has_stripped_fields: bool },
}

#[derive(Debug)]
pub struct Variant {
    pub kind: VariantKind,
    pub discriminant: Option<Discriminant>,
}

#[derive(Debug)]
pub struct Function {
    pub sig: FunctionSignature,
    pub generics: Generics,
    pub header: FunctionHeader,
    pub has_body: bool,
}

#[derive(Debug)]
pub struct Trait {
    pub is_auto: bool,
    pub is_unsafe: bool,
    pub is_dyn_compatible: bool,
    pub items: Vec<Id>,
    pub generics: Generics,
    pub bounds: Vec<GenericBound>,
    pub implementations: Vec<Id>,
}

#[derive(Debug)]
pub struct TraitAlias {
    pub generics: Generics,
    pub params: Vec<GenericBound>,
}

#[derive(Debug)]
pub struct Impl {
    pub is_unsafe: bool,
    pub generics: Generics,
    pub provided_trait_methods: Vec<String>,
    pub trait_: Option<Path>,
    pub for_: Type,
    pub items: Vec<Id>,
    pub is_negative: bool,
    pub is_synthetic: bool,
    pub blanket_impl: Option<Type>,
}

#[derive(Debug)]
pub struct TypeAlias {
    pub type_: Type,
    pub generics: Generics,
}

#[derive(Debug)]
pub struct Static {
    pub type_: Type,
    pub is_mutable: bool,
    pub expr: String,
    pub is_unsafe: bool,
}

#[derive(Debug, Clone, Copy, PartialEq, Eq, Structural)]
pub enum MacroKind {
    Bang,
    Attr,
    Derive,
}

#[derive(Debug)]
pub struct ProcMacro {
    pub kind: MacroKind,
    pub helpers: Vec<String>,
}

#[derive(Debug)]
pub struct Primitive {
    pub name: String,
    pub impls: Vec<Id>,
}

#[derive(Debug)]
pub enum ItemEnum {
    Module(Module),
    ExternCrate { name: String, rename: Option<String> },
    Use(Use),
    Union(Union),
    Struct(Struct),
    StructField(Type),
    Enum(Enum),
    Variant(Variant),
    Function(Function),
    Trait(Trait),
    TraitAlias(TraitAlias),
    Impl(Impl),
    TypeAlias(TypeAlias),
    Constant { type_: Type, const_: Constant },
    Static(Static),
    ExternType,
    Macro(String),
    ProcMacro(ProcMacro),
    Primitive(Primitive),
    AssocConst { type_: Type, value: Option<String> },
    AssocType { generics: Generics, bounds: Vec<GenericBound>, type_: Option<Type> },
}

/// The kind of an item, as listed in a crate's path summaries.
#[derive(Debug, Clone, Copy, PartialEq, Eq, Structural, Hash)]
pub enum ItemKind {
    Module,
    ExternCrate,
    Use,
    Struct,
    StructField,
    Union,
    Enum,
    Variant,
    Function,
    TypeAlias,
    Constant,
    Trait,
    TraitAlias,
    Impl,
    Static,
    ExternType,
    Macro,
    ProcAttribute,
    ProcDerive,
    AssocConst,
    AssocType,
    Primitive,
    Keyword,
}

/// Source location of an item: file name and 0-based lines and columns of its start and end.
#[derive(Debug)]
pub struct Span {
    pub filename: String,
    pub begin_line: usize,
    pub begin_column: usize,
    pub end_line: usize,
    pub end_column: usize,
}

#[derive(Debug)]
pub struct Item {
    pub id: Id,
    pub crate_id: u32,
    pub name: Option<String>,
    pub span: Option<Span>,
    pub docs: Option<String>,
    /// Intra-doc links: link text and the item it resolves to.
    pub links: Vec<(String, Id)>,
    pub attrs: Vec<String>,
    pub inner: ItemEnum,
}

/// Summary of an item's canonical path.
#[derive(Debug)]
pub struct ItemSummary {
    pub crate_id: u32,
    pub path: Vec<String>,
    pub kind: ItemKind,
}

/// A crate description: its items by id, the path summaries by id, and its root module.
///
/// `ids` lists every key of `index` once, in the order the items were given.
pub struct Crate {
    root: Id,
    crate_version: Option<String>,
    index: HashMap<Id, Item>,
    ids: Vec<Id>,
    paths: HashMap<Id, ItemSummary>,
}

impl Crate {
    /// The id of the crate's root module.
    pub closed spec fn root_id(&self) -> Id {
        self.root
    }

    /// The crate's version, where known.
    pub closed spec fn version(&self) -> Option<String> {
        self.crate_version
    }

    /// The items of the crate by id.
    pub closed spec fn index_map(&self) -> Map<Id, Item> {
        self.index@
    }

    /// The path summaries of the crate by id.
    pub closed spec fn paths_map(&self) -> Map<Id, ItemSummary> {
        self.paths@
    }

    /// The ids of all items, each once.
    pub closed spec fn id_seq(&self) -> Seq<Id> {
        self.ids@
    }

    /// The crate has finitely many items.
    pub proof fn lemma_index_finite(&self)
        ensures
            self.index_map().dom().finite(),
    {
        assert(self.index@.dom().finite());
    }

    /// In a well formed crate, `id_seq` lists exactly the ids of the items.
    pub proof fn lemma_wf_ids(&self, k: Id)
        requires
            self.wf(),
        ensures
            self.id_seq().contains(k) <==> self.index_map().contains_key(k),
    {
    }

    /// The crate description is well formed: `id_seq` lists each id of the index once.
    pub closed spec fn wf(&self) -> bool {
        &&& self.ids@.no_duplicates()
        &&& forall|i: Id| #[trigger] self.ids@.contains(i) <==> self.index@.contains_key(i)
        &&& forall|i: Id| #[trigger] self.index@.contains_key(i) ==> self.index@[i].id == i
    }

    /// In a well formed crate description each item is filed under its own id.
    pub proof fn lemma_wf_item_id(&self, k: Id)
        requires
            self.wf(),
            self.index_map().contains_key(k),
        ensures
            self.index_map()[k].id == k,
    {
    }

    /// Builds a crate description from its items and path summaries.
    /// Where an id occurs twice, the later item or summary is the one kept.
    pub fn new(
        root: Id,
        crate_version: Option<String>,
        items: Vec<Item>,
        paths: Vec<(Id, ItemSummary)>,
    ) -> (res: Crate)
        ensures
            res.wf(),
            res.root_id() == root,
            res.version() == crate_version,
            forall|i: Id| #[trigger] res.index_map().contains_key(i)
                <==> exists|k: int| 0 <= k < items.len() && items@[k].id == i,
            forall|k: int| #![trigger items@[k]] 0 <= k < items.len()
                ==> (forall|j: int| k < j < items.len() ==> items@[j].id != items@[k].id)
                ==> res.index_map()[items@[k].id] == items@[k],
            forall|i: Id| #[trigger] res.paths_map().contains_key(i)
                <==> exists|k: int| 0 <= k < paths.len() && paths@[k].0 == i,
            forall|k: int| #![trigger paths@[k]] 0 <= k < paths.len()
                ==> (forall|j: int| k < j < paths.len() ==> paths@[j].0 != paths@[k].0)
                ==> res.paths_map()[paths@[k].0] == paths@[k].1,
    {
        let mut index: HashMap<Id, Item> = HashMap::new();
        let mut ids: Vec<Id> = Vec::new();
        let n = items.len();
        let mut items = items;
        let ghost all_items = items@;
        let mut rev: Vec<Item> = Vec::new();
        // take the items out back to front, then insert them front to back
        while items.len() > 0
            invariant
                items@ == all_items.take(items.len() as int),
                items.len() + rev.len() == n,
                n == all_items.len(),
                forall|j: int| 0 <= j < rev.len() ==> rev@[j] == all_items[n - 1 - j],
            decreases items.len(),
        {
            let it = items.pop().unwrap();
            rev.push(it);
        }
        let mut k: usize = 0;
        while rev.len() > 0
            invariant
                k + rev.len() == n,
                n == all_items.len(),
                forall|j: int| 0 <= j < rev.len() ==> rev@[j] == all_items[n - 1 - j],
                ids@.no_duplicates(),
                forall|i: Id| #[trigger] ids@.contains(i) <==> index@.contains_key(i),
                forall|i: Id| #[trigger] index@.contains_key(i) ==> index@[i].id == i,
                forall|i: Id| #[trigger] index@.contains_key(i)
                    <==> exists|q: int| 0 <= q < k && all_items[q].id == i,
                forall|q: int| #![trigger all_items[q]] 0 <= q < k
                    ==> (forall|j: int| q < j < k ==> all_items[j].id != all_items[q].id)
                    ==> index@[all_items[q].id] == all_items[q],
            decreases rev.len(),
        {
            let it = rev.pop().unwrap();
            assert(all_items[k as int] == it);
            let id = it.id;
            let ghost old_ids = ids@;
            if !index.contains_key(&id) {
                assert(!old_ids.contains(id));
                ids.push(id);
                assert forall|i: Id| #[trigger] ids@.contains(i) <==> (old_ids.contains(i) || i == id) by {
                    if ids@.contains(i) && i != id {
                        let q = choose|q: int| 0 <= q < ids@.len() && ids@[q] == i;
                        assert(old_ids[q] == i);
                    }
                    if i == id {
                        assert(ids@[ids@.len() - 1] == i);
                    }
                    if old_ids.contains(i) {
                        let q = choose|q: int| 0 <= q < old_ids.len() && old_ids[q] == i;
                        assert(ids@[q] == i);
                    }
                }
            } else {
                assert(old_ids.contains(id));
            }
            index.insert(id, it);
            k = k + 1;
            proof {
                assert forall|i: Id| #[trigger] index@.contains_key(i)
                    <==> exists|q: int| 0 <= q < k && all_items[q].id == i by {
                    if index@.contains_key(i) && i != id {
                        let q = choose|q: int| 0 <= q < k - 1 && all_items[q].id == i;
                        assert(0 <= q < k && all_items[q].id == i);
                    }
                    if exists|q: int| 0 <= q < k && all_items[q].id == i {
                        let q = choose|q: int| 0 <= q < k && all_items[q].id == i;
                        if q < k - 1 {
                            assert(exists|q: int| 0 <= q < k - 1 && all_items[q].id == i);
                        }
                    }
                }
            }
        }
        let mut pmap: HashMap<Id, ItemSummary> = HashMap::new();
        let mut p: usize = 0;
        let np = paths.len();
        let mut paths = paths;
        let ghost all_paths = paths@;
        let mut prev: Vec<(Id, ItemSummary)> = Vec::new();
        while paths.len() > 0
            invariant
                paths@ == all_paths.take(paths.len() as int),
                paths.len() + prev.len() == np,
                np == all_paths.len(),
                forall|j: int| 0 <= j < prev.len() ==> prev@[j] == all_paths[np - 1 - j],
            decreases paths.len(),
        {
            let it = paths.pop().unwrap();
            prev.push(it);
        }
        while prev.len() > 0
            invariant
                p + prev.len() == np,
                np == all_paths.len(),
                forall|j: int| 0 <= j < prev.len() ==> prev@[j] == all_paths[np - 1 - j],
                forall|i: Id| #[trigger] pmap@.contains_key(i)
                    <==> exists|q: int| 0 <= q < p && all_paths[q].0 == i,
                forall|q: int| #![trigger all_paths[q]] 0 <= q < p
                    ==> (forall|j: int| q < j < p ==> all_paths[j].0 != all_paths[q].0)
                    ==> pmap@[all_paths[q].0] == all_paths[q].1,
            decreases prev.len(),
        {
            let it = prev.pop().unwrap();
            assert(all_paths[p as int] == it);
            let (id, summary) = it;
            pmap.insert(id, summary);
            p = p + 1;
            proof {
                assert forall|i: Id| #[trigger] pmap@.contains_key(i)
                    <==> exists|q: int| 0 <= q < p && all_paths[q].0 == i by {
                    if pmap@.contains_key(i) && i != id {
                        let q = choose|q: int| 0 <= q < p - 1 && all_paths[q].0 == i;
                        assert(0 <= q < p && all_paths[q].0 == i);
                    }
                    if exists|q: int| 0 <= q < p && all_paths[q].0 == i {
                        let q = choose|q: int| 0 <= q < p && all_paths[q].0 == i;
                        if q < p - 1 {
                            assert(exists|q: int| 0 <= q < p - 1 && all_paths[q].0 == i);
                        }
                    }
                }
            }
        }
        Crate { root, crate_version, index, ids, paths: pmap }
    }

    /// The item with the given id, if the crate has one.
    pub fn get(&self, id: Id) -> (res: Option<&Item>)
        ensures
            match res {
                Some(it) => self.index_map().contains_key(id) && *it == self.index_map()[id],
                None => !self.index_map().contains_key(id),
            },
    {
        self.index.get(&id)
    }

    /// Whether the crate has an item with the given id.
    pub fn contains(&self, id: Id) -> (res: bool)
        ensures
            res == self.index_map().contains_key(id),
    {
        self.index.contains_key(&id)
    }

    /// The path summary of the given id, if the crate has one.
    pub fn get_path(&self, id: Id) -> (res: Option<&ItemSummary>)
        ensures
            match res {
                Some(s) => self.paths_map().contains_key(id) && *s == self.paths_map()[id],
                None => !self.paths_map().contains_key(id),
            },
    {
        self.paths.get(&id)
    }

    /// The id of the crate's root module.
    pub fn root(&self) -> (res: Id)
        ensures
            res == self.root_id(),
    {
        self.root
    }

    /// The crate's version, where known.
    pub fn crate_version(&self) -> (res: &Option<String>)
        ensures
            *res == self.version(),
    {
        &self.crate_version
    }

    /// The ids of all items, each once.
    pub fn ids(&self) -> (res: &Vec<Id>)
        ensures
            res@ == self.id_seq(),
    {
        &self.ids
    }
}

} // verus!
