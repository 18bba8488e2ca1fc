//! The module that binds a world to the runtime.
//!
//! For every function that the world imports or exports the module has a function that
//! converts between the canonical representation of values and that of the runtime.  The
//! bodies of these functions are generated elsewhere; the module lays down which indices
//! they refer to, and puts them together with the types, imports, exports and names.
use vstd::prelude::*;
use vstd::slice::slice_to_vec;
use vstd::string::StringExecFns;
use crate::encode::{encode_module, module_bytes, module_fits};
use crate::names::{build_name_section, name_section, names_fit, Name, NameV};
use crate::wasm::{
    lemma_views_push, views, Body, BodyV, ElementSegment, ElementSegmentV, EntityType, Export,
    ExportV, ExternKind, FuncType, FuncTypeV, GlobalType, Import, ImportV, Instruction,
    MemoryType, ModuleSection, ModuleSectionV, TableType, ValueType,
};

verus! {

/// What a function of the module does.
#[derive(Clone, Copy, Debug, PartialEq, Eq, Structural)]
pub enum FunctionKind {
    Import,
    Export,
    ExportLift,
    ExportLower,
    ExportPostReturn,
}

/// A function of the module.
#[derive(Debug, PartialEq, Eq)]
pub struct BoundFunction {
    pub kind: FunctionKind,
    /// The interface that it belongs to, if it does not belong to the world itself.
    pub interface: Option<String>,
    pub name: String,
    pub internal_name: String,
    /// The core type under which it is imported.
    pub import_type: FuncType,
    /// The core type of the function itself.
    pub export_type: FuncType,
    /// Whether the runtime calls it through the table.
    pub is_dispatchable: bool,
}

pub struct BoundFunctionV {
    pub kind: FunctionKind,
    pub interface: Option<Seq<char>>,
    pub name: Seq<char>,
    pub internal_name: Seq<char>,
    pub import_type: FuncTypeV,
    pub export_type: FuncTypeV,
    pub is_dispatchable: bool,
}

impl View for BoundFunction {
    type V = BoundFunctionV;

    open spec fn view(&self) -> BoundFunctionV {
        BoundFunctionV {
            kind: self.kind,
            interface: text_of(self.interface),
            name: self.name@,
            internal_name: self.internal_name@,
            import_type: self.import_type@,
            export_type: self.export_type@,
            is_dispatchable: self.is_dispatchable,
        }
    }
}

/// The text, if there is one.
pub open spec fn text_of(s: Option<String>) -> Option<Seq<char>> {
    match s {
        Some(s) => Some(s@),
        None => None,
    }
}

// The exports, each of which the runtime knows by its number.

#[verifier::external_type_specification]
#[verifier::external_body]
#[verifier::reject_recursive_types(T)]
#[verifier::reject_recursive_types(S)]
pub struct ExIndexSet<T, S>(indexmap::IndexSet<T, S>);

/// The items of a set in the order in which they went in.
pub uninterp spec fn set_items(set: indexmap::IndexSet<(Option<String>, String)>) -> Seq<
    (Option<Seq<char>>, Seq<char>),
>;

/// `indexmap::IndexSet::new`: a set without items.
#[verifier::external_body]
fn new_set() -> (set: indexmap::IndexSet<(Option<String>, String)>)
    ensures
        set_items(set) == Seq::<(Option<Seq<char>>, Seq<char>)>::empty(),
{
    indexmap::IndexSet::new()
}

/// `indexmap::IndexSet::insert` puts an item at the end, unless it is in the set.
#[verifier::external_body]
fn insert_item(
    set: &mut indexmap::IndexSet<(Option<String>, String)>,
    item: (Option<String>, String),
)
    ensures
        set_items(*final(set)) == if set_items(*old(set)).contains((text_of(item.0), item.1@)) {
            set_items(*old(set))
        } else {
            set_items(*old(set)).push((text_of(item.0), item.1@))
        },
{
    set.insert(item);
}

/// `indexmap::IndexSet::get_index_of`: the position of an item, if it is in the set.
#[verifier::external_body]
fn index_of_item(
    set: &indexmap::IndexSet<(Option<String>, String)>,
    item: &(Option<String>, String),
) -> (r: Option<usize>)
    ensures
        match r {
            Some(i) => i < set_items(*set).len() && set_items(*set)[i as int] == (
                text_of(item.0),
                item.1@,
            ),
            None => !set_items(*set).contains((text_of(item.0), item.1@)),
        },
{
    set.get_index_of(item)
}

/// What tells an export from the others.
pub open spec fn export_key(f: BoundFunctionV) -> (Option<Seq<char>>, Seq<char>) {
    (f.interface, f.name)
}

/// The exports, each once, in the order in which they come first.
pub open spec fn export_keys(fs: Seq<BoundFunctionV>) -> Seq<(Option<Seq<char>>, Seq<char>)>
    decreases fs.len(),
{
    if fs.len() == 0 {
        seq![]
    } else {
        let rest = export_keys(fs.drop_last());
        if fs.last().kind == FunctionKind::Export && !rest.contains(export_key(fs.last())) {
            rest.push(export_key(fs.last()))
        } else {
            rest
        }
    }
}

fn copy_interface(s: &Option<String>) -> (r: Option<String>)
    ensures
        text_of(r) == text_of(*s),
{
    match s {
        Some(s) => Some(s.clone()),
        None => None,
    }
}

fn collect_exports(functions: &Vec<BoundFunction>) -> (set: indexmap::IndexSet<
    (Option<String>, String),
>)
    ensures
        set_items(set) == export_keys(views(functions@)),
{
    let ghost all = views(functions@);
    let mut set = new_set();
    assert(set_items(set) =~= export_keys(all.take(0)));
    let mut i: usize = 0;
    while i < functions.len()
        invariant
            i <= functions.len(),
            all == views(functions@),
            set_items(set) == export_keys(all.take(i as int)),
        decreases functions.len() - i,
    {
        let f = &functions[i];
        assert(all.take(i + 1).drop_last() =~= all.take(i as int));
        assert(all.take(i + 1).last() == functions@[i as int]@);
        if f.kind == FunctionKind::Export {
            insert_item(&mut set, (copy_interface(&f.interface), f.name.clone()));
        }
        i += 1;
    }
    assert(all.take(i as int) =~= all);
    set
}

/// A function that the runtime offers to the module.
#[derive(Debug, PartialEq, Eq)]
pub struct Signature {
    pub name: String,
    pub ty: FuncType,
}

pub struct SignatureV {
    pub name: Seq<char>,
    pub ty: FuncTypeV,
}

impl View for Signature {
    type V = SignatureV;

    open spec fn view(&self) -> SignatureV {
        SignatureV { name: self.name@, ty: self.ty@ }
    }
}

/// So many integers of 32 bits.
pub open spec fn i32s(n: nat) -> Seq<ValueType> {
    Seq::new(n, |k: int| ValueType::I32)
}

fn build_i32s(n: usize) -> (types: Vec<ValueType>)
    ensures
        types@ == i32s(n as nat),
{
    let mut types: Vec<ValueType> = Vec::new();
    let mut i: usize = 0;
    while i < n
        invariant
            i <= n,
            types@ =~= i32s(i as nat),
        decreases n - i,
    {
        types.push(ValueType::I32);
        i += 1;
    }
    types
}

/// The functions that the runtime offers, in the order of their indices.
pub open spec fn signatures() -> Seq<SignatureV> {
    seq![
        SignatureV {
            name: "componentize_py#Dispatch"@,
            ty: FuncTypeV { params: i32s(7), results: seq![] },
        },
        SignatureV {
            name: "componentize_py#Allocate"@,
            ty: FuncTypeV { params: i32s(2), results: seq![ValueType::I32] },
        },
        SignatureV {
            name: "componentize_py#Free"@,
            ty: FuncTypeV { params: i32s(3), results: seq![] },
        },
        SignatureV {
            name: "componentize_py#LowerI32"@,
            ty: FuncTypeV { params: i32s(2), results: seq![ValueType::I32] },
        },
        SignatureV {
            name: "componentize_py#LowerI64"@,
            ty: FuncTypeV { params: i32s(2), results: seq![ValueType::I64] },
        },
        SignatureV {
            name: "componentize_py#LowerF32"@,
            ty: FuncTypeV { params: i32s(2), results: seq![ValueType::F32] },
        },
        SignatureV {
            name: "componentize_py#LowerF64"@,
            ty: FuncTypeV { params: i32s(2), results: seq![ValueType::F64] },
        },
        SignatureV {
            name: "componentize_py#LowerChar"@,
            ty: FuncTypeV { params: i32s(2), results: seq![ValueType::I32] },
        },
        SignatureV {
            name: "componentize_py#LowerString"@,
            ty: FuncTypeV { params: i32s(3), results: seq![] },
        },
        SignatureV {
            name: "componentize_py#GetField"@,
            ty: FuncTypeV { params: i32s(4), results: seq![ValueType::I32] },
        },
        SignatureV {
            name: "componentize_py#GetListLength"@,
            ty: FuncTypeV { params: i32s(2), results: seq![ValueType::I32] },
        },
        SignatureV {
            name: "componentize_py#GetListElement"@,
            ty: FuncTypeV { params: i32s(3), results: seq![ValueType::I32] },
        },
        SignatureV {
            name: "componentize_py#LiftI32"@,
            ty: FuncTypeV { params: i32s(2), results: seq![ValueType::I32] },
        },
        SignatureV {
            name: "componentize_py#LiftI64"@,
            ty: FuncTypeV {
                params: seq![ValueType::I32, ValueType::I64],
                results: seq![ValueType::I32],
            },
        },
        SignatureV {
            name: "componentize_py#LiftF32"@,
            ty: FuncTypeV {
                params: seq![ValueType::I32, ValueType::F32],
                results: seq![ValueType::I32],
            },
        },
        SignatureV {
            name: "componentize_py#LiftF64"@,
            ty: FuncTypeV {
                params: seq![ValueType::I32, ValueType::F64],
                results: seq![ValueType::I32],
            },
        },
        SignatureV {
            name: "componentize_py#LiftChar"@,
            ty: FuncTypeV { params: i32s(2), results: seq![ValueType::I32] },
        },
        SignatureV {
            name: "componentize_py#LiftString"@,
            ty: FuncTypeV { params: i32s(3), results: seq![ValueType::I32] },
        },
        SignatureV {
            name: "componentize_py#MakeList"@,
            ty: FuncTypeV { params: i32s(1), results: seq![ValueType::I32] },
        },
        SignatureV {
            name: "componentize_py#ListAppend"@,
            ty: FuncTypeV { params: i32s(3), results: seq![] },
        },
        SignatureV {
            name: "componentize_py#None"@,
            ty: FuncTypeV { params: i32s(1), results: seq![ValueType::I32] },
        },
        SignatureV {
            name: "componentize_py#GetBytes"@,
            ty: FuncTypeV { params: i32s(4), results: seq![] },
        },
        SignatureV {
            name: "componentize_py#MakeBytes"@,
            ty: FuncTypeV { params: i32s(3), results: seq![ValueType::I32] },
        },
    ]
}

fn pair(first: ValueType, second: ValueType) -> (types: Vec<ValueType>)
    ensures
        types@ == seq![first, second],
{
    let types = vec![first, second];
    assert(types@ =~= seq![first, second]);
    types
}

fn signature(name: &str, params: Vec<ValueType>, result: Option<ValueType>) -> (s: Signature)
    ensures
        s@ == (SignatureV {
            name: name@,
            ty: FuncTypeV {
                params: params@,
                results: match result {
                    Some(ty) => seq![ty],
                    None => seq![],
                },
            },
        }),
{
    let mut results: Vec<ValueType> = Vec::new();
    match result {
        Some(ty) => {
            results.push(ty);
            assert(results@ =~= seq![ty]);
        },
        None => {
            assert(results@ =~= seq![]);
        },
    }
    Signature { name: String::from_str(name), ty: FuncType { params, results } }
}

/// The number of functions that the runtime offers.
pub const SIGNATURES: u32 = 23;

/// The functions that the runtime offers, in the order of their indices.
pub fn import_signatures() -> (list: Vec<Signature>)
    ensures
        views(list@) == signatures(),
        list@.len() == SIGNATURES,
{
    let list = vec![
        signature("componentize_py#Dispatch", build_i32s(7), None),
        signature("componentize_py#Allocate", build_i32s(2), Some(ValueType::I32)),
        signature("componentize_py#Free", build_i32s(3), None),
        signature("componentize_py#LowerI32", build_i32s(2), Some(ValueType::I32)),
        signature("componentize_py#LowerI64", build_i32s(2), Some(ValueType::I64)),
        signature("componentize_py#LowerF32", build_i32s(2), Some(ValueType::F32)),
        signature("componentize_py#LowerF64", build_i32s(2), Some(ValueType::F64)),
        signature("componentize_py#LowerChar", build_i32s(2), Some(ValueType::I32)),
        signature("componentize_py#LowerString", build_i32s(3), None),
        signature("componentize_py#GetField", build_i32s(4), Some(ValueType::I32)),
        signature("componentize_py#GetListLength", build_i32s(2), Some(ValueType::I32)),
        signature("componentize_py#GetListElement", build_i32s(3), Some(ValueType::I32)),
        signature("componentize_py#LiftI32", build_i32s(2), Some(ValueType::I32)),
        signature(
            "componentize_py#LiftI64",
            pair(ValueType::I32, ValueType::I64),
            Some(ValueType::I32),
        ),
        signature(
            "componentize_py#LiftF32",
            pair(ValueType::I32, ValueType::F32),
            Some(ValueType::I32),
        ),
        signature(
            "componentize_py#LiftF64",
            pair(ValueType::I32, ValueType::F64),
            Some(ValueType::I32),
        ),
        signature("componentize_py#LiftChar", build_i32s(2), Some(ValueType::I32)),
        signature("componentize_py#LiftString", build_i32s(3), Some(ValueType::I32)),
        signature("componentize_py#MakeList", build_i32s(1), Some(ValueType::I32)),
        signature("componentize_py#ListAppend", build_i32s(3), None),
        signature("componentize_py#None", build_i32s(1), Some(ValueType::I32)),
        signature("componentize_py#GetBytes", build_i32s(4), None),
        signature("componentize_py#MakeBytes", build_i32s(3), Some(ValueType::I32)),
    ];
    assert(views(list@) =~= signatures());
    list
}

/// The functions that the world imports.
pub open spec fn imports_of(fs: Seq<BoundFunctionV>) -> Seq<BoundFunctionV>
    decreases fs.len(),
{
    if fs.len() == 0 {
        seq![]
    } else if fs.last().kind == FunctionKind::Import {
        imports_of(fs.drop_last()).push(fs.last())
    } else {
        imports_of(fs.drop_last())
    }
}

/// How many functions the runtime calls through the table.
pub open spec fn dispatchable_count(fs: Seq<BoundFunctionV>) -> nat
    decreases fs.len(),
{
    if fs.len() == 0 {
        0
    } else {
        dispatchable_count(fs.drop_last()) + if fs.last().is_dispatchable {
            1nat
        } else {
            0
        }
    }
}

/// The index of the first function of the module that is not imported.
pub open spec fn first_function(fs: Seq<BoundFunctionV>) -> nat {
    SIGNATURES as nat + imports_of(fs).len()
}

/// What the generator of a body has to know of a function.
#[derive(Clone, Copy, Debug, PartialEq, Eq, Structural)]
pub enum BodyRequest {
    /// The index of the function that is imported.
    Import { function: u32 },
    /// The number of the export, and the places in the table of the functions that lift
    /// and lower for it, which are the next two there.
    Export { number: u32, lift: u32, lower: u32 },
    ExportLift,
    ExportLower,
    ExportPostReturn,
}

/// The place of an item in a list.
pub open spec fn position<T>(items: Seq<T>, x: T) -> int {
    choose|i: int| 0 <= i < items.len() && items[i] == x
}

/// What the generator of the body of the function at `k` has to know.
pub open spec fn request(fs: Seq<BoundFunctionV>, k: int) -> BodyRequest {
    let before = fs.take(k);
    let slot = dispatchable_count(before);
    match fs[k].kind {
        FunctionKind::Import => BodyRequest::Import {
            function: (SIGNATURES + imports_of(before).len()) as u32,
        },
        FunctionKind::Export => BodyRequest::Export {
            number: position(export_keys(fs), export_key(fs[k])) as u32,
            lift: slot as u32,
            lower: (slot + 1) as u32,
        },
        FunctionKind::ExportLift => BodyRequest::ExportLift,
        FunctionKind::ExportLower => BodyRequest::ExportLower,
        FunctionKind::ExportPostReturn => BodyRequest::ExportPostReturn,
    }
}

/// There are indices for everything in the module.
pub open spec fn has_room(fs: Seq<BoundFunctionV>) -> bool {
    first_function(fs) + fs.len() + 2 <= u32::MAX
}

/// What the generators of the bodies have to know.
pub open spec fn requests(fs: Seq<BoundFunctionV>) -> Seq<BodyRequest> {
    Seq::new(fs.len(), |k: int| request(fs, k))
}

/// No export is counted twice.
pub proof fn lemma_export_keys(fs: Seq<BoundFunctionV>)
    ensures
        export_keys(fs).no_duplicates(),
        export_keys(fs).len() <= fs.len(),
        forall|k: int|
            0 <= k < fs.len() && (#[trigger] fs[k]).kind == FunctionKind::Export ==> export_keys(
                fs,
            ).contains(export_key(fs[k])),
    decreases fs.len(),
{
    if fs.len() > 0 {
        let rest = fs.drop_last();
        let keys = export_keys(rest);
        let key = export_key(fs.last());
        lemma_export_keys(rest);
        assert forall|k: int|
            0 <= k < fs.len() && (#[trigger] fs[k]).kind
                == FunctionKind::Export implies export_keys(fs).contains(export_key(fs[k])) by {
            if k < rest.len() {
                assert(rest[k] == fs[k]);
                let i = choose|i: int| 0 <= i < keys.len() && keys[i] == export_key(fs[k]);
                assert(export_keys(fs)[i] == export_key(fs[k]));
            } else if keys.contains(key) {
            } else {
                assert(export_keys(fs)[keys.len() as int] == key);
            }
        }
    }
}

proof fn lemma_counts(fs: Seq<BoundFunctionV>, k: int)
    requires
        0 <= k <= fs.len(),
    ensures
        dispatchable_count(fs.take(k)) <= k,
        imports_of(fs.take(k)).len() <= imports_of(fs).len(),
        imports_of(fs).len() <= fs.len(),
        dispatchable_count(fs) <= fs.len(),
    decreases fs.len(),
{
    if fs.len() > 0 {
        let rest = fs.drop_last();
        if k < fs.len() {
            lemma_counts(rest, k);
            assert(rest.take(k) =~= fs.take(k));
        } else {
            lemma_counts(rest, k - 1);
            assert(fs.take(k) =~= fs);
            assert(rest.take(k - 1) =~= rest);
        }
    }
}

/// The places that two functions that lift and lower for an export take in the table are
/// those given to the generator of the export's body, if the two follow it.
pub proof fn law_lift_and_lower_follow_export(fs: Seq<BoundFunctionV>, k: int)
    requires
        has_room(fs),
        0 <= k,
        k + 2 < fs.len(),
        fs[k].kind == FunctionKind::Export,
        !fs[k].is_dispatchable,
        fs[k + 1].is_dispatchable,
        fs[k + 2].is_dispatchable,
    ensures
        request(fs, k) matches BodyRequest::Export { lift, lower, .. } && {
            let slots = dispatch_slots(fs, first_function(fs));
            &&& lift < slots.len()
            &&& lower < slots.len()
            &&& slots[lift as int] == first_function(fs) + k + 1
            &&& slots[lower as int] == first_function(fs) + k + 2
        },
{
    let first = first_function(fs);
    lemma_counts(fs, k);
    assert(fs.take(k + 1).drop_last() =~= fs.take(k));
    assert(fs.take(k + 2).drop_last() =~= fs.take(k + 1));
    lemma_slot(fs, first, k + 1);
    lemma_slot(fs, first, k + 2);
}

/// A function that is called through the table stands there after those before it.
pub proof fn lemma_slot(fs: Seq<BoundFunctionV>, first: nat, k: int)
    requires
        0 <= k < fs.len(),
        fs[k].is_dispatchable,
        first + fs.len() <= u32::MAX,
    ensures
        dispatchable_count(fs.take(k)) < dispatch_slots(fs, first).len(),
        dispatch_slots(fs, first)[dispatchable_count(fs.take(k)) as int] == first + k,
        dispatch_slots(fs, first).len() == dispatchable_count(fs),
    decreases fs.len(),
{
    let rest = fs.drop_last();
    lemma_slot_count(rest, first);
    lemma_slot_count(fs, first);
    if k < rest.len() {
        assert(rest[k] == fs[k]);
        lemma_slot(rest, first, k);
        assert(rest.take(k) =~= fs.take(k));
    } else {
        assert(fs.take(k) =~= rest);
    }
}

pub proof fn lemma_slot_count(fs: Seq<BoundFunctionV>, first: nat)
    ensures
        dispatch_slots(fs, first).len() == dispatchable_count(fs),
    decreases fs.len(),
{
    if fs.len() > 0 {
        lemma_slot_count(fs.drop_last(), first);
    }
}

/// The functions that the runtime calls through the table, by their indices.
pub open spec fn dispatch_slots(fs: Seq<BoundFunctionV>, first: nat) -> Seq<u32>
    decreases fs.len(),
{
    if fs.len() == 0 {
        seq![]
    } else {
        let rest = dispatch_slots(fs.drop_last(), first);
        if fs.last().is_dispatchable {
            rest.push((first + fs.len() - 1) as u32)
        } else {
            rest
        }
    }
}

fn count_imports(functions: &Vec<BoundFunction>) -> (n: usize)
    ensures
        n == imports_of(views(functions@)).len(),
        n <= functions.len(),
{
    let ghost all = views(functions@);
    let mut n: usize = 0;
    let mut i: usize = 0;
    while i < functions.len()
        invariant
            i <= functions.len(),
            all == views(functions@),
            n <= i,
            n == imports_of(all.take(i as int)).len(),
        decreases functions.len() - i,
    {
        assert(all.take(i + 1).drop_last() =~= all.take(i as int));
        assert(all.take(i + 1).last() == functions@[i as int]@);
        if functions[i].kind == FunctionKind::Import {
            n += 1;
        }
        i += 1;
    }
    assert(all.take(i as int) =~= all);
    n
}

fn room(functions: &Vec<BoundFunction>) -> (r: Option<u32>)
    ensures
        match r {
            Some(first) => has_room(views(functions@)) && first == first_function(
                views(functions@),
            ),
            None => !has_room(views(functions@)),
        },
{
    let imports: u128 = count_imports(functions) as u128;
    if SIGNATURES as u128 + imports + functions.len() as u128 + 2 > u32::MAX as u128 {
        None
    } else {
        Some(SIGNATURES + imports as u32)
    }
}

/// Says what the generators of the bodies have to know, unless there are more functions
/// than indices.
pub fn body_requests(functions: &Vec<BoundFunction>) -> (r: Option<Vec<BodyRequest>>)
    ensures
        match r {
            Some(list) => has_room(views(functions@)) && list@ == requests(views(functions@)),
            None => !has_room(views(functions@)),
        },
{
    let ghost all = views(functions@);
    if room(functions).is_none() {
        return None;
    }
    let exports = collect_exports(functions);
    let mut list: Vec<BodyRequest> = Vec::new();
    let mut import_index: u32 = SIGNATURES;
    let mut dispatch_index: u32 = 0;
    let mut i: usize = 0;
    proof {
        lemma_export_keys(all);
        assert(all.take(0) =~= seq![]);
    }
    while i < functions.len()
        invariant
            i <= functions.len(),
            all == views(functions@),
            has_room(all),
            set_items(exports) == export_keys(all),
            export_keys(all).no_duplicates(),
            export_keys(all).len() <= all.len(),
            forall|k: int|
                0 <= k < all.len() && (#[trigger] all[k]).kind == FunctionKind::Export
                    ==> export_keys(all).contains(export_key(all[k])),
            import_index == SIGNATURES + imports_of(all.take(i as int)).len(),
            dispatch_index == dispatchable_count(all.take(i as int)),
            list@ =~= requests(all).take(i as int),
        decreases functions.len() - i,
    {
        let f = &functions[i];
        proof {
            assert(all[i as int] == functions@[i as int]@);
            assert(all.take(i + 1).drop_last() =~= all.take(i as int));
            assert(all.take(i + 1).last() == all[i as int]);
            lemma_counts(all, i as int);
            lemma_counts(all, i + 1);
        }
        let item = match f.kind {
            FunctionKind::Import => {
                let function: u32 = import_index;
                import_index += 1;
                BodyRequest::Import { function }
            },
            FunctionKind::Export => {
                let key = (copy_interface(&f.interface), f.name.clone());
                let number: u32 = match index_of_item(&exports, &key) {
                    Some(number) => number as u32,
                    None => 0,
                };
                proof {
                    let keys = export_keys(all);
                    assert(keys.contains(export_key(all[i as int])));
                    let p = position(keys, export_key(all[i as int]));
                    assert(0 <= p < keys.len() && keys[p] == export_key(all[i as int]));
                    assert(p == number);
                }
                BodyRequest::Export { number, lift: dispatch_index, lower: dispatch_index + 1 }
            },
            FunctionKind::ExportLift => BodyRequest::ExportLift,
            FunctionKind::ExportLower => BodyRequest::ExportLower,
            FunctionKind::ExportPostReturn => BodyRequest::ExportPostReturn,
        };
        if f.is_dispatchable {
            dispatch_index += 1;
        }
        assert(item == request(all, i as int));
        list.push(item);
        i += 1;
    }
    assert(list@ =~= requests(all));
    Some(list)
}

/// A generated body: the types of its locals, and its encoded instructions without the
/// `end`.
#[derive(Debug, PartialEq, Eq)]
pub struct GeneratedBody {
    pub locals: Vec<ValueType>,
    pub code: Vec<u8>,
}

pub struct GeneratedBodyV {
    pub locals: Seq<ValueType>,
    pub code: Seq<u8>,
}

impl View for GeneratedBody {
    type V = GeneratedBodyV;

    open spec fn view(&self) -> GeneratedBodyV {
        GeneratedBodyV { locals: self.locals@, code: self.code@ }
    }
}

/// The function through which the runtime calls those in the table: the name under which it
/// is exported, and the number of its parameters, the last of which is the place in the
/// table.
#[derive(Debug, PartialEq, Eq)]
pub struct Dispatch {
    pub name: String,
    pub params: u32,
}

pub struct DispatchV {
    pub name: Seq<char>,
    pub params: u32,
}

impl View for Dispatch {
    type V = DispatchV;

    open spec fn view(&self) -> DispatchV {
        DispatchV { name: self.name@, params: self.params }
    }
}

/// The type of the function that dispatches.
pub open spec fn dispatch_type(params: u32) -> FuncTypeV {
    FuncTypeV { params: i32s(params as nat), results: seq![] }
}

/// The type of the functions that it calls, which do not get the place in the table.
pub open spec fn dispatched_type(params: u32) -> FuncTypeV {
    FuncTypeV { params: i32s((params - 1) as nat), results: seq![] }
}

/// Hands its parameters on to a function in the table.
pub open spec fn dispatch_body(params: u32, ty: u32) -> BodyV {
    BodyV {
        locals: seq![],
        code: seq![],
        instructions: Seq::new(params as nat, |k: int| Instruction::LocalGet(k as u32)) + seq![
            Instruction::CallIndirect { ty, table: 0 },
            Instruction::End,
        ],
    }
}

/// The types of the functions of the runtime.
pub open spec fn runtime_types() -> Seq<FuncTypeV> {
    Seq::new(signatures().len(), |k: int| signatures()[k].ty)
}

/// The types of the functions that the world imports.
pub open spec fn world_types(fs: Seq<BoundFunctionV>) -> Seq<FuncTypeV> {
    Seq::new(imports_of(fs).len(), |k: int| imports_of(fs)[k].import_type)
}

/// The types of the functions of the module.
pub open spec fn own_types(fs: Seq<BoundFunctionV>) -> Seq<FuncTypeV> {
    Seq::new(fs.len(), |k: int| fs[k].export_type)
}

/// All types, the last of which are that of the function that dispatches and that of the
/// functions that it calls.
pub open spec fn binding_types(fs: Seq<BoundFunctionV>, params: u32) -> Seq<FuncTypeV> {
    runtime_types() + world_types(fs) + own_types(fs) + seq![
        dispatch_type(params),
        dispatched_type(params),
    ]
}

/// The imports of the functions of the runtime.
pub open spec fn runtime_imports() -> Seq<ImportV> {
    Seq::new(
        signatures().len(),
        |k: int|
            ImportV {
                module: "env"@,
                name: signatures()[k].name,
                ty: EntityType::Function(k as u32),
            },
    )
}

/// The module that an imported function comes from.
pub open spec fn import_module(world: Seq<char>, f: BoundFunctionV) -> Seq<char> {
    match f.interface {
        Some(interface) => interface,
        None => world,
    }
}

/// The imports of the functions that the world imports.
pub open spec fn world_imports(world: Seq<char>, fs: Seq<BoundFunctionV>) -> Seq<ImportV> {
    Seq::new(
        imports_of(fs).len(),
        |k: int|
            ImportV {
                module: import_module(world, imports_of(fs)[k]),
                name: imports_of(fs)[k].name,
                ty: EntityType::Function((SIGNATURES + k) as u32),
            },
    )
}

/// The index of the global that holds where the functions of the module start in the
/// table.
pub const TABLE_BASE: u32 = 0;

/// The index of the global that holds the stack pointer.
pub const STACK_POINTER: u32 = 1;

/// What the module shares with the others that it is linked with.
pub open spec fn shared_imports(slots: nat) -> Seq<ImportV> {
    seq![
        ImportV {
            module: "env"@,
            name: "__table_base"@,
            ty: EntityType::Global(GlobalType { val_type: ValueType::I32, mutable: false }),
        },
        ImportV {
            module: "env"@,
            name: "__stack_pointer"@,
            ty: EntityType::Global(GlobalType { val_type: ValueType::I32, mutable: true }),
        },
        ImportV {
            module: "env"@,
            name: "memory"@,
            ty: EntityType::Memory(
                MemoryType { minimum: 0, maximum: None, memory64: false, shared: false },
            ),
        },
        ImportV {
            module: "env"@,
            name: "__indirect_function_table"@,
            ty: EntityType::Table(TableType { minimum: slots as u32, maximum: None }),
        },
    ]
}

/// The functions of the module, each given by the index of its type, which is that of the
/// function.
pub open spec fn function_indices(fs: Seq<BoundFunctionV>, first: nat) -> Seq<u32> {
    Seq::new(fs.len(), |k: int| (first + k) as u32)
}

/// The name under which a function is exported.
pub open spec fn export_name(f: BoundFunctionV) -> Seq<char> {
    let name = match f.interface {
        Some(interface) => interface + "#"@ + f.name,
        None => f.name,
    };
    if f.kind == FunctionKind::ExportPostReturn {
        "cabi_post_"@ + name
    } else {
        name
    }
}

/// The exports, where the first function of the module has the given index.
pub open spec fn binding_exports(fs: Seq<BoundFunctionV>, first: nat) -> Seq<ExportV>
    decreases fs.len(),
{
    if fs.len() == 0 {
        seq![]
    } else {
        let rest = binding_exports(fs.drop_last(), first);
        let f = fs.last();
        if f.kind == FunctionKind::Export || f.kind == FunctionKind::ExportPostReturn {
            rest.push(
                ExportV {
                    name: export_name(f),
                    kind: ExternKind::Func,
                    index: (first + fs.len() - 1) as u32,
                },
            )
        } else {
            rest
        }
    }
}

/// The bodies that were generated, each with its `end`.
pub open spec fn ended_bodies(bodies: Seq<GeneratedBodyV>) -> Seq<BodyV> {
    Seq::new(
        bodies.len(),
        |k: int|
            BodyV {
                locals: bodies[k].locals,
                code: bodies[k].code,
                instructions: seq![Instruction::End],
            },
    )
}

/// The names of the functions of the runtime.
pub open spec fn runtime_names() -> Seq<NameV> {
    Seq::new(
        signatures().len(),
        |k: int| NameV { index: k as u32, name: signatures()[k].name },
    )
}

/// The names of the functions that the world imports.
pub open spec fn world_names(fs: Seq<BoundFunctionV>) -> Seq<NameV> {
    Seq::new(
        imports_of(fs).len(),
        |k: int|
            NameV {
                index: (SIGNATURES + k) as u32,
                name: imports_of(fs)[k].internal_name + "-import"@,
            },
    )
}

/// The names of the functions of the module.
pub open spec fn own_names(fs: Seq<BoundFunctionV>, first: nat) -> Seq<NameV> {
    Seq::new(
        fs.len(),
        |k: int| NameV { index: (first + k) as u32, name: fs[k].internal_name },
    )
}

/// All names of functions.
pub open spec fn function_names(fs: Seq<BoundFunctionV>) -> Seq<NameV> {
    runtime_names() + world_names(fs) + own_names(fs, first_function(fs))
}

/// The sections of the module.
pub open spec fn binding_sections(
    world: Seq<char>,
    fs: Seq<BoundFunctionV>,
    bodies: Seq<GeneratedBodyV>,
    component_type: Seq<u8>,
    dispatch: DispatchV,
) -> Seq<ModuleSectionV> {
    let first = first_function(fs);
    let index = (first + fs.len()) as u32;
    seq![
        ModuleSectionV::Types(binding_types(fs, dispatch.params)),
        ModuleSectionV::Imports(
            runtime_imports() + world_imports(world, fs) + shared_imports(dispatchable_count(fs)),
        ),
        ModuleSectionV::Functions(function_indices(fs, first).push(index)),
        ModuleSectionV::Exports(
            binding_exports(fs, first).push(
                ExportV { name: dispatch.name, kind: ExternKind::Func, index },
            ),
        ),
        ModuleSectionV::Elements(
            seq![
                ElementSegmentV {
                    table: 0,
                    offset_global: TABLE_BASE,
                    functions: dispatch_slots(fs, first),
                },
            ],
        ),
        ModuleSectionV::Code(
            ended_bodies(bodies).push(dispatch_body(dispatch.params, (index + 1) as u32)),
        ),
        ModuleSectionV::Custom {
            name: "name"@,
            content: name_section(function_names(fs), seq![]),
        },
        ModuleSectionV::Custom { name: "component-type:"@ + world, content: component_type },
    ]
}

/// Why the module could not be made.
#[derive(Clone, Copy, Debug, PartialEq, Eq, Structural)]
pub enum BindingsError {
    /// There is not one body for each function.
    BodyCount,
    /// The function that dispatches has no parameter for the place in the table.
    NoPlace,
    /// There are more functions than indices.
    TooMany,
    /// A section is too large to be encoded.
    TooLarge,
}

/// The module, or why it could not be made.
pub open spec fn bindings(
    world: Seq<char>,
    fs: Seq<BoundFunctionV>,
    bodies: Seq<GeneratedBodyV>,
    component_type: Seq<u8>,
    dispatch: DispatchV,
) -> Result<Seq<u8>, BindingsError> {
    let sections = binding_sections(world, fs, bodies, component_type, dispatch);
    if bodies.len() != fs.len() {
        Err(BindingsError::BodyCount)
    } else if dispatch.params == 0 {
        Err(BindingsError::NoPlace)
    } else if !has_room(fs) {
        Err(BindingsError::TooMany)
    } else if names_fit(function_names(fs)) && module_fits(sections) {
        Ok(module_bytes(sections))
    } else {
        Err(BindingsError::TooLarge)
    }
}

fn copy_type(ty: &FuncType) -> (r: FuncType)
    ensures
        r@ == ty@,
{
    FuncType {
        params: slice_to_vec(ty.params.as_slice()),
        results: slice_to_vec(ty.results.as_slice()),
    }
}

fn build_runtime_types(list: &Vec<Signature>) -> (items: Vec<FuncType>)
    requires
        views(list@) == signatures(),
        list@.len() == SIGNATURES,
    ensures
        views(items@) == runtime_types(),
{
    let mut items: Vec<FuncType> = Vec::new();
    let ghost all = runtime_types();
    let n: usize = list.len();
    assert(views(items@) =~= all.take(0));
    let mut i: usize = 0;
    while i < n
        invariant
            i <= n,
            n == list.len(),
            n == SIGNATURES,
            views(list@) == signatures(),
            all == runtime_types(),
            views(items@) == all.take(i as int),
        decreases n - i,
    {
        let x = &list[i];
        assert(signatures()[i as int] == list@[i as int]@);
        assert(signatures().len() == list@.len());
        let item = copy_type(&x.ty);
        proof {
            lemma_views_push(items@, item);
            assert(all.take(i + 1) =~= all.take(i as int).push(item@));
        }
        items.push(item);
        i += 1;
    }
    assert(all.take(i as int) =~= all);
    items
}

fn build_runtime_imports(list: &Vec<Signature>) -> (items: Vec<Import>)
    requires
        views(list@) == signatures(),
        list@.len() == SIGNATURES,
    ensures
        views(items@) == runtime_imports(),
{
    let mut items: Vec<Import> = Vec::new();
    let ghost all = runtime_imports();
    let n: usize = list.len();
    assert(views(items@) =~= all.take(0));
    let mut i: usize = 0;
    while i < n
        invariant
            i <= n,
            n == list.len(),
            n == SIGNATURES,
            views(list@) == signatures(),
            all == runtime_imports(),
            views(items@) == all.take(i as int),
        decreases n - i,
    {
        let x = &list[i];
        assert(signatures()[i as int] == list@[i as int]@);
        assert(signatures().len() == list@.len());
        let item = Import {
            module: String::from_str("env"),
            name: x.name.clone(),
            ty: EntityType::Function(i as u32),
        };
        proof {
            lemma_views_push(items@, item);
            assert(all.take(i + 1) =~= all.take(i as int).push(item@));
        }
        items.push(item);
        i += 1;
    }
    assert(all.take(i as int) =~= all);
    items
}

fn build_runtime_names(list: &Vec<Signature>) -> (items: Vec<Name>)
    requires
        views(list@) == signatures(),
        list@.len() == SIGNATURES,
    ensures
        views(items@) == runtime_names(),
{
    let mut items: Vec<Name> = Vec::new();
    let ghost all = runtime_names();
    let n: usize = list.len();
    assert(views(items@) =~= all.take(0));
    let mut i: usize = 0;
    while i < n
        invariant
            i <= n,
            n == list.len(),
            n == SIGNATURES,
            views(list@) == signatures(),
            all == runtime_names(),
            views(items@) == all.take(i as int),
        decreases n - i,
    {
        let x = &list[i];
        assert(signatures()[i as int] == list@[i as int]@);
        assert(signatures().len() == list@.len());
        let item = Name { index: i as u32, name: x.name.clone() };
        proof {
            lemma_views_push(items@, item);
            assert(all.take(i + 1) =~= all.take(i as int).push(item@));
        }
        items.push(item);
        i += 1;
    }
    assert(all.take(i as int) =~= all);
    items
}

fn build_world_types(functions: &Vec<BoundFunction>) -> (items: Vec<FuncType>)
    ensures
        views(items@) == world_types(views(functions@)),
{
    let ghost all = views(functions@);
    let mut items: Vec<FuncType> = Vec::new();
    assert(views(items@) =~= world_types(all.take(0)));
    let mut i: usize = 0;
    while i < functions.len()
        invariant
            i <= functions.len(),
            all == views(functions@),
            views(items@) == world_types(all.take(i as int)),
        decreases functions.len() - i,
    {
        let f = &functions[i];
        proof {
            assert(all.take(i + 1).drop_last() =~= all.take(i as int));
            assert(all.take(i + 1).last() == functions@[i as int]@);
            lemma_counts(all, i as int);
            lemma_counts(all, i + 1);
        }
        if f.kind == FunctionKind::Import {
            let item = copy_type(&f.import_type);
            proof {
                lemma_views_push(items@, item);
                assert(world_types(all.take(i + 1))
                    =~= world_types(all.take(i as int)).push(item@));
            }
            items.push(item);
        }
        i += 1;
    }
    assert(all.take(i as int) =~= all);
    items
}

fn build_world_imports(world: &String, functions: &Vec<BoundFunction>) -> (items: Vec<Import>)
    requires
        has_room(views(functions@)),
    ensures
        views(items@) == world_imports(world@, views(functions@)),
{
    let ghost all = views(functions@);
    let mut items: Vec<Import> = Vec::new();
    assert(views(items@) =~= world_imports(world@, all.take(0)));
    let mut i: usize = 0;
    while i < functions.len()
        invariant
            i <= functions.len(),
            all == views(functions@),
            has_room(all),
            items@.len() == imports_of(all.take(i as int)).len(),
            views(items@) == world_imports(world@, all.take(i as int)),
        decreases functions.len() - i,
    {
        let f = &functions[i];
        proof {
            assert(all.take(i + 1).drop_last() =~= all.take(i as int));
            assert(all.take(i + 1).last() == functions@[i as int]@);
            lemma_counts(all, i as int);
            lemma_counts(all, i + 1);
        }
        if f.kind == FunctionKind::Import {
            let item = Import {
                module: match &f.interface {
                    Some(interface) => interface.clone(),
                    None => world.clone(),
                },
                name: f.name.clone(),
                ty: EntityType::Function(SIGNATURES + items.len() as u32),
            };
            proof {
                lemma_views_push(items@, item);
                assert(world_imports(world@, all.take(i + 1))
                    =~= world_imports(world@, all.take(i as int)).push(item@));
            }
            items.push(item);
        }
        i += 1;
    }
    assert(all.take(i as int) =~= all);
    items
}

fn build_world_names(functions: &Vec<BoundFunction>) -> (items: Vec<Name>)
    requires
        has_room(views(functions@)),
    ensures
        views(items@) == world_names(views(functions@)),
{
    let ghost all = views(functions@);
    let mut items: Vec<Name> = Vec::new();
    assert(views(items@) =~= world_names(all.take(0)));
    let mut i: usize = 0;
    while i < functions.len()
        invariant
            i <= functions.len(),
            all == views(functions@),
            has_room(all),
            items@.len() == imports_of(all.take(i as int)).len(),
            views(items@) == world_names(all.take(i as int)),
        decreases functions.len() - i,
    {
        let f = &functions[i];
        proof {
            assert(all.take(i + 1).drop_last() =~= all.take(i as int));
            assert(all.take(i + 1).last() == functions@[i as int]@);
            lemma_counts(all, i as int);
            lemma_counts(all, i + 1);
        }
        if f.kind == FunctionKind::Import {
            let mut name = f.internal_name.clone();
            name.append("-import");
            let item = Name { index: SIGNATURES + items.len() as u32, name };
            proof {
                lemma_views_push(items@, item);
                assert(world_names(all.take(i + 1)) =~= world_names(all.take(i as int)).push(
                    item@,
                ));
            }
            items.push(item);
        }
        i += 1;
    }
    assert(all.take(i as int) =~= all);
    items
}

fn build_export_name(f: &BoundFunction) -> (name: String)
    ensures
        name@ == export_name(f@),
{
    let mut name = if f.kind == FunctionKind::ExportPostReturn {
        String::from_str("cabi_post_")
    } else {
        String::new()
    };
    match &f.interface {
        Some(interface) => {
            name.append(interface.as_str());
            name.append("#");
            name.append(f.name.as_str());
        },
        None => {
            name.append(f.name.as_str());
        },
    }
    assert(name@ =~= export_name(f@));
    name
}

fn build_dispatch_slots(functions: &Vec<BoundFunction>, first: u32) -> (items: Vec<u32>)
    requires
        first + functions@.len() <= u32::MAX,
    ensures
        views(items@) == dispatch_slots(views(functions@), first as nat),
{
    let ghost all = views(functions@);
    let mut items: Vec<u32> = Vec::new();
    assert(views(items@) =~= dispatch_slots(all.take(0), first as nat));
    let mut i: usize = 0;
    while i < functions.len()
        invariant
            i <= functions.len(),
            all == views(functions@),
            first + functions@.len() <= u32::MAX,
            views(items@) == dispatch_slots(all.take(i as int), first as nat),
        decreases functions.len() - i,
    {
        let f = &functions[i];
        proof {
            assert(all.take(i + 1).drop_last() =~= all.take(i as int));
            assert(all.take(i + 1).last() == functions@[i as int]@);
            lemma_counts(all, i as int);
            lemma_counts(all, i + 1);
        }
        if f.is_dispatchable {
            let item = first + i as u32;
            proof {
                lemma_views_push(items@, item);
                assert(dispatch_slots(all.take(i + 1), first as nat)
                    =~= dispatch_slots(all.take(i as int), first as nat).push(item@));
            }
            items.push(item);
        }
        i += 1;
    }
    assert(all.take(i as int) =~= all);
    items
}

fn build_exports(functions: &Vec<BoundFunction>, first: u32) -> (items: Vec<Export>)
    requires
        first + functions@.len() <= u32::MAX,
    ensures
        views(items@) == binding_exports(views(functions@), first as nat),
{
    let ghost all = views(functions@);
    let mut items: Vec<Export> = Vec::new();
    assert(views(items@) =~= binding_exports(all.take(0), first as nat));
    let mut i: usize = 0;
    while i < functions.len()
        invariant
            i <= functions.len(),
            all == views(functions@),
            first + functions@.len() <= u32::MAX,
            views(items@) == binding_exports(all.take(i as int), first as nat),
        decreases functions.len() - i,
    {
        let f = &functions[i];
        proof {
            assert(all.take(i + 1).drop_last() =~= all.take(i as int));
            assert(all.take(i + 1).last() == functions@[i as int]@);
            lemma_counts(all, i as int);
            lemma_counts(all, i + 1);
        }
        if f.kind == FunctionKind::Export || f.kind == FunctionKind::ExportPostReturn {
            let item = Export {
                name: build_export_name(f),
                kind: ExternKind::Func,
                index: first + i as u32,
            };
            proof {
                lemma_views_push(items@, item);
                assert(binding_exports(all.take(i + 1), first as nat)
                    =~= binding_exports(all.take(i as int), first as nat).push(item@));
            }
            items.push(item);
        }
        i += 1;
    }
    assert(all.take(i as int) =~= all);
    items
}

fn build_own_types(functions: &Vec<BoundFunction>) -> (items: Vec<FuncType>)
    ensures
        views(items@) == own_types(views(functions@)),
{
    let mut items: Vec<FuncType> = Vec::new();
    let ghost all = own_types(views(functions@));
    let n: usize = functions.len();
    assert(views(items@) =~= all.take(0));
    let mut i: usize = 0;
    while i < n
        invariant
            i <= n,
            n == functions.len(),
            all == own_types(views(functions@)),
            views(items@) == all.take(i as int),
        decreases n - i,
    {
        let f = &functions[i];
        assert(views(functions@)[i as int] == functions@[i as int]@);
        let item = copy_type(&f.export_type);
        proof {
            lemma_views_push(items@, item);
            assert(all.take(i + 1) =~= all.take(i as int).push(item@));
        }
        items.push(item);
        i += 1;
    }
    assert(all.take(i as int) =~= all);
    items
}

fn build_own_names(functions: &Vec<BoundFunction>, first: u32) -> (items: Vec<Name>)
    requires
        first + functions@.len() <= u32::MAX,
    ensures
        views(items@) == own_names(views(functions@), first as nat),
{
    let mut items: Vec<Name> = Vec::new();
    let ghost all = own_names(views(functions@), first as nat);
    let n: usize = functions.len();
    assert(views(items@) =~= all.take(0));
    let mut i: usize = 0;
    while i < n
        invariant
            i <= n,
            n == functions.len(),
            first + functions@.len() <= u32::MAX,
            all == own_names(views(functions@), first as nat),
            views(items@) == all.take(i as int),
        decreases n - i,
    {
        let f = &functions[i];
        assert(views(functions@)[i as int] == functions@[i as int]@);
        let item = Name { index: first + i as u32, name: f.internal_name.clone() };
        proof {
            lemma_views_push(items@, item);
            assert(all.take(i + 1) =~= all.take(i as int).push(item@));
        }
        items.push(item);
        i += 1;
    }
    assert(all.take(i as int) =~= all);
    items
}

fn build_function_indices(functions: &Vec<BoundFunction>, first: u32) -> (items: Vec<u32>)
    requires
        first + functions@.len() <= u32::MAX,
    ensures
        views(items@) == function_indices(views(functions@), first as nat),
{
    let mut items: Vec<u32> = Vec::new();
    let ghost all = function_indices(views(functions@), first as nat);
    let n: usize = functions.len();
    assert(views(items@) =~= all.take(0));
    let mut i: usize = 0;
    while i < n
        invariant
            i <= n,
            n == functions.len(),
            first + functions@.len() <= u32::MAX,
            all == function_indices(views(functions@), first as nat),
            views(items@) == all.take(i as int),
        decreases n - i,
    {
        let item: u32 = first + i as u32;
        proof {
            lemma_views_push(items@, item);
            assert(all.take(i + 1) =~= all.take(i as int).push(item@));
        }
        items.push(item);
        i += 1;
    }
    assert(all.take(i as int) =~= all);
    items
}

fn build_bodies(bodies: Vec<GeneratedBody>) -> (items: Vec<Body>)
    ensures
        views(items@) == ended_bodies(views(bodies@)),
{
    let ghost all = views(bodies@);
    let ghost target = ended_bodies(all);
    let mut items: Vec<Body> = Vec::new();
    assert(views(items@) =~= target.take(0));
    let mut i: usize = 0;
    while i < bodies.len()
        invariant
            i <= bodies.len(),
            all == views(bodies@),
            target == ended_bodies(all),
            views(items@) == target.take(i as int),
        decreases bodies.len() - i,
    {
        let b = &bodies[i];
        assert(all[i as int] == bodies@[i as int]@);
        let item = Body {
            locals: slice_to_vec(b.locals.as_slice()),
            code: slice_to_vec(b.code.as_slice()),
            instructions: vec![Instruction::End],
        };
        assert(item@.instructions =~= seq![Instruction::End]);
        proof {
            lemma_views_push(items@, item);
            assert(target.take(i + 1) =~= target.take(i as int).push(item@));
        }
        items.push(item);
        i += 1;
    }
    assert(target.take(i as int) =~= target);
    items
}

fn build_dispatch_body(params: u32, ty: u32) -> (body: Body)
    ensures
        body@ == dispatch_body(params, ty),
{
    let mut instructions: Vec<Instruction> = Vec::new();
    let mut local: u32 = 0;
    while local < params
        invariant
            local <= params,
            instructions@ =~= Seq::new(local as nat, |k: int| Instruction::LocalGet(k as u32)),
        decreases params - local,
    {
        instructions.push(Instruction::LocalGet(local));
        local += 1;
    }
    instructions.push(Instruction::CallIndirect { ty, table: 0 });
    instructions.push(Instruction::End);
    let body = Body { locals: vec![], code: vec![], instructions };
    assert(body@.locals =~= seq![]);
    assert(body@.code =~= seq![]);
    assert(body@.instructions =~= dispatch_body(params, ty).instructions);
    body
}

fn build_shared_imports(slots: u32) -> (items: Vec<Import>)
    ensures
        views(items@) == shared_imports(slots as nat),
{
    let items = vec![
        Import {
            module: String::from_str("env"),
            name: String::from_str("__table_base"),
            ty: EntityType::Global(GlobalType { val_type: ValueType::I32, mutable: false }),
        },
        Import {
            module: String::from_str("env"),
            name: String::from_str("__stack_pointer"),
            ty: EntityType::Global(GlobalType { val_type: ValueType::I32, mutable: true }),
        },
        Import {
            module: String::from_str("env"),
            name: String::from_str("memory"),
            ty: EntityType::Memory(
                MemoryType { minimum: 0, maximum: None, memory64: false, shared: false },
            ),
        },
        Import {
            module: String::from_str("env"),
            name: String::from_str("__indirect_function_table"),
            ty: EntityType::Table(TableType { minimum: slots, maximum: None }),
        },
    ];
    assert(views(items@) =~= shared_imports(slots as nat));
    items
}

fn append_items<T: View>(items: &mut Vec<T>, more: Vec<T>)
    ensures
        views(final(items)@) == views(old(items)@) + views(more@),
{
    let ghost before = items@;
    let mut more = more;
    let ghost added = more@;
    items.append(&mut more);
    assert(views(before + added) =~= views(before) + views(added));
}

/// Puts the module together and encodes it: `world` is the name of the world, `bodies`
/// are those of `functions`, `component_type` describes the world, and `dispatch` is the
/// function through which the runtime calls those in the table.
pub fn make_bindings(
    world: &String,
    functions: &Vec<BoundFunction>,
    bodies: Vec<GeneratedBody>,
    component_type: Vec<u8>,
    dispatch: &Dispatch,
) -> (r: Result<Vec<u8>, BindingsError>)
    ensures
        match r {
            Ok(bytes) => bindings(
                world@,
                views(functions@),
                views(bodies@),
                component_type@,
                dispatch@,
            ) == Ok::<_, BindingsError>(bytes@),
            Err(e) => bindings(
                world@,
                views(functions@),
                views(bodies@),
                component_type@,
                dispatch@,
            ) == Err::<Seq<u8>, _>(e),
        },
{
    let ghost fs = views(functions@);
    let ghost all = binding_sections(
        world@,
        fs,
        views(bodies@),
        component_type@,
        dispatch@,
    );
    if bodies.len() != functions.len() {
        return Err(BindingsError::BodyCount);
    }
    if dispatch.params == 0 {
        return Err(BindingsError::NoPlace);
    }
    let first: u32 = match room(functions) {
        Some(first) => first,
        None => {
            return Err(BindingsError::TooMany);
        },
    };
    let list = import_signatures();

    let mut types = build_runtime_types(&list);
    append_items(&mut types, build_world_types(functions));
    append_items(&mut types, build_own_types(functions));
    let own = FuncType { params: build_i32s(dispatch.params as usize), results: vec![] };
    let called = FuncType {
        params: build_i32s((dispatch.params - 1) as usize),
        results: vec![],
    };
    assert(own@.results =~= seq![]);
    assert(called@.results =~= seq![]);
    proof {
        lemma_views_push(types@, own);
        lemma_views_push(types@.push(own), called);
    }
    types.push(own);
    types.push(called);

    let slots = build_dispatch_slots(functions, first);
    proof {
        lemma_slot_count(fs, first as nat);
        lemma_counts(fs, fs.len() as int);
        assert(views(slots@) =~= slots@);
    }
    let mut imports = build_runtime_imports(&list);
    append_items(&mut imports, build_world_imports(world, functions));
    append_items(&mut imports, build_shared_imports(slots.len() as u32));

    let mut names = build_runtime_names(&list);
    append_items(&mut names, build_world_names(functions));
    append_items(&mut names, build_own_names(functions, first));
    let none: Vec<Name> = Vec::new();
    proof {
        lemma_no_names_fit();
        assert(views(none@) =~= seq![]);
    }
    let names_data = match build_name_section(&names, &none) {
        Some(bytes) => bytes,
        None => {
            return Err(BindingsError::TooLarge);
        },
    };

    let index: u32 = first + functions.len() as u32;
    let mut indices = build_function_indices(functions, first);
    let mut exports = build_exports(functions, first);
    let export = Export { name: dispatch.name.clone(), kind: ExternKind::Func, index };
    proof {
        lemma_views_push(indices@, index);
        lemma_views_push(exports@, export);
    }
    indices.push(index);
    exports.push(export);
    let segment = ElementSegment { table: 0, offset_global: TABLE_BASE, functions: slots };
    let elements = vec![segment];
    let mut code = build_bodies(bodies);
    let body = build_dispatch_body(dispatch.params, index + 1);
    proof {
        lemma_views_push(code@, body);
    }
    code.push(body);
    let mut custom_name = String::from_str("component-type:");
    custom_name.append(world.as_str());

    assert(ModuleSectionV::Types(views(types@)) == all[0]) by {
        assert(views(types@) =~= all[0]->Types_0);
    }
    assert(ModuleSectionV::Imports(views(imports@)) == all[1]);
    assert(ModuleSectionV::Functions(views(indices@)) == all[2]);
    assert(ModuleSectionV::Exports(views(exports@)) == all[3]);
    assert(ModuleSectionV::Elements(views(elements@)) == all[4]) by {
        assert(views(elements@) =~= all[4]->Elements_0);
    }
    assert(ModuleSectionV::Code(views(code@)) == all[5]);
    let sections = vec![
        ModuleSection::Types(types),
        ModuleSection::Imports(imports),
        ModuleSection::Functions(indices),
        ModuleSection::Exports(exports),
        ModuleSection::Elements(elements),
        ModuleSection::Code(code),
        ModuleSection::Custom { name: String::from_str("name"), content: names_data },
        ModuleSection::Custom { name: custom_name, content: component_type },
    ];
    assert(views(sections@) =~= all);
    match encode_module(&sections) {
        Ok(bytes) => Ok(bytes),
        Err(_) => Err(BindingsError::TooLarge),
    }
}

/// An import keeps its place among imports when more functions follow.
pub proof fn lemma_import_place(fs: Seq<BoundFunctionV>, k: int)
    requires
        0 <= k < fs.len(),
        fs[k].kind == FunctionKind::Import,
    ensures
        imports_of(fs.take(k)).len() < imports_of(fs).len(),
        imports_of(fs)[imports_of(fs.take(k)).len() as int] == fs[k],
    decreases fs.len(),
{
    let rest = fs.drop_last();
    if k < rest.len() {
        assert(rest[k] == fs[k]);
        assert(rest.take(k) =~= fs.take(k));
        lemma_import_place(rest, k);
    } else {
        assert(fs.take(k) =~= rest);
    }
}

/// The index given to the generator of an imported function's body is that of its import.
pub proof fn law_import_request_is_its_import(world: Seq<char>, fs: Seq<BoundFunctionV>, k: int)
    requires
        has_room(fs),
        0 <= k < fs.len(),
        fs[k].kind == FunctionKind::Import,
    ensures
        request(fs, k) matches BodyRequest::Import { function } && {
            let imports = runtime_imports() + world_imports(world, fs);
            &&& function < imports.len()
            &&& imports[function as int].name == fs[k].name
            &&& imports[function as int].module == import_module(world, fs[k])
            &&& imports[function as int].ty == EntityType::Function(function)
        },
{
    lemma_import_place(fs, k);
    lemma_counts(fs, k);
}

/// The type of a function is the one that its index says, in the list of types: that of
/// each function of the module, and that of each import.
pub proof fn law_types_have_the_indices_of_functions(
    world: Seq<char>,
    fs: Seq<BoundFunctionV>,
    params: u32,
)
    requires
        has_room(fs),
    ensures
        ({
            let types = binding_types(fs, params);
            let imports = runtime_imports() + world_imports(world, fs);
            let indices = function_indices(fs, first_function(fs));
            &&& imports.len() == first_function(fs)
            &&& forall|k: int|
                0 <= k < SIGNATURES ==> (#[trigger] imports[k]).ty == EntityType::Function(k as u32)
                    && types[k] == signatures()[k].ty
            &&& forall|k: int|
                SIGNATURES <= k < imports.len() ==> (#[trigger] imports[k]).ty
                    == EntityType::Function(k as u32) && types[k] == imports_of(
                    fs,
                )[k - SIGNATURES].import_type
            &&& forall|k: int|
                0 <= k < fs.len() ==> (#[trigger] indices[k]) == first_function(fs) + k
                    && types[indices[k] as int] == fs[k].export_type
            &&& types[(first_function(fs) + fs.len()) as int] == dispatch_type(params)
            &&& types[(first_function(fs) + fs.len() + 1) as int] == dispatched_type(params)
        }),
{
}

/// The function section and the code section have an entry each for every function, and for
/// the one that dispatches.  That one is exported, and calls functions that take what it
/// takes but for the place in the table.
pub proof fn law_every_function_has_a_body(
    world: Seq<char>,
    fs: Seq<BoundFunctionV>,
    bodies: Seq<GeneratedBodyV>,
    component_type: Seq<u8>,
    dispatch: DispatchV,
)
    requires
        bodies.len() == fs.len(),
        has_room(fs),
        dispatch.params > 0,
    ensures
        ({
            let sections = binding_sections(world, fs, bodies, component_type, dispatch);
            let types = sections[0]->Types_0;
            let functions = sections[2]->Functions_0;
            let code = sections[5]->Code_0;
            let n = fs.len() as int;
            &&& functions.len() == n + 1
            &&& code.len() == n + 1
            &&& types[functions[n] as int] == dispatch_type(dispatch.params)
            &&& code[n].instructions[dispatch.params as int] matches Instruction::CallIndirect {
                ty,
                table,
            } && table == 0 && types[ty as int].params.len() + 1 == dispatch.params
            &&& sections[3]->Exports_0.last() == (ExportV {
                name: dispatch.name,
                kind: ExternKind::Func,
                index: (first_function(fs) + n) as u32,
            })
        }),
{
}

/// Every export, and every function to be called after one, is exported under its name.
pub proof fn law_every_export_is_exported(fs: Seq<BoundFunctionV>, k: int)
    requires
        has_room(fs),
        0 <= k < fs.len(),
        fs[k].kind == FunctionKind::Export || fs[k].kind == FunctionKind::ExportPostReturn,
    ensures
        binding_exports(fs, first_function(fs)).contains(
            ExportV {
                name: export_name(fs[k]),
                kind: ExternKind::Func,
                index: (first_function(fs) + k) as u32,
            },
        ),
{
    lemma_exported(fs, first_function(fs), k);
}

proof fn lemma_exported(fs: Seq<BoundFunctionV>, first: nat, k: int)
    requires
        0 <= k < fs.len(),
        fs[k].kind == FunctionKind::Export || fs[k].kind == FunctionKind::ExportPostReturn,
    ensures
        binding_exports(fs, first).contains(
            ExportV {
                name: export_name(fs[k]),
                kind: ExternKind::Func,
                index: (first + k) as u32,
            },
        ),
    decreases fs.len(),
{
    let rest = fs.drop_last();
    let export = ExportV {
        name: export_name(fs[k]),
        kind: ExternKind::Func,
        index: (first + k) as u32,
    };
    let all = binding_exports(fs, first);
    if k < rest.len() {
        assert(rest[k] == fs[k]);
        lemma_exported(rest, first, k);
        let fewer = binding_exports(rest, first);
        let i = choose|i: int| 0 <= i < fewer.len() && fewer[i] == export;
        assert(all[i] == export);
    } else {
        assert(all[all.len() - 1] == export);
    }
}

/// Among the globals, which are all imported, those that bodies refer to have the indices
/// that are given for them.
pub proof fn law_globals_have_their_indices(slots: nat)
    ensures
        ({
            let shared = shared_imports(slots);
            &&& shared[TABLE_BASE as int].name == "__table_base"@
            &&& shared[TABLE_BASE as int].ty is Global
            &&& shared[STACK_POINTER as int].name == "__stack_pointer"@
            &&& shared[STACK_POINTER as int].ty is Global
            &&& forall|k: int| 2 <= k < shared.len() ==> !((#[trigger] shared[k]).ty is Global)
        }),
{
}

/// The table has room for the functions that are called through it, and for no more.
pub proof fn law_table_holds_the_dispatchable_functions(fs: Seq<BoundFunctionV>)
    requires
        has_room(fs),
    ensures
        shared_imports(dispatchable_count(fs))[3].ty == EntityType::Table(
            TableType {
                minimum: dispatch_slots(fs, first_function(fs)).len() as u32,
                maximum: None,
            },
        ),
        dispatch_slots(fs, first_function(fs)).len() <= u32::MAX,
{
    lemma_slot_count(fs, first_function(fs));
    lemma_counts(fs, fs.len() as int);
}

proof fn lemma_no_names_fit()
    ensures
        names_fit(seq![]),
{
}

} // verus!
