//! How the module that binds a world reads: which function every index stands for.
use vstd::prelude::*;
use vstd::utf8::encode_utf8;
use crate::bindings::{
    binding_exports, binding_sections, bindings, dispatchable_count, export_key, export_keys,
    export_name, first_function, function_names, has_room, imports_of, lemma_export_keys,
    lemma_import_place, lemma_slot, lemma_slot_count, position, requests, runtime_imports,
    shared_imports, signatures, world_imports, BindingsError, BodyRequest, BoundFunctionV,
    DispatchV, FunctionKind, GeneratedBodyV, STACK_POINTER,
};
use crate::encode::{module_bytes, module_fits};
use crate::getters::{global_imports, imported_memories, lemma_one_more};
use crate::names::{name_map, name_section};
use crate::wasm::{
    EntityType, ExternKind, GlobalType, ImportV, Instruction, MemoryType, ModuleSectionV, TableType,
    ValueType,
};

verus! {

/// How many of the functions are imported by the world.
pub open spec fn imported(fs: Seq<BoundFunctionV>) -> nat
    decreases fs.len(),
{
    if fs.len() == 0 {
        0
    } else if fs.last().kind == FunctionKind::Import {
        imported(fs.drop_last()) + 1
    } else {
        imported(fs.drop_last())
    }
}

/// How many of the functions the module exports.
pub open spec fn exported(fs: Seq<BoundFunctionV>) -> nat
    decreases fs.len(),
{
    if fs.len() == 0 {
        0
    } else if fs.last().kind == FunctionKind::Export || fs.last().kind
        == FunctionKind::ExportPostReturn {
        exported(fs.drop_last()) + 1
    } else {
        exported(fs.drop_last())
    }
}

/// How many of the functions are called through the table.
pub open spec fn dispatched(fs: Seq<BoundFunctionV>) -> nat
    decreases fs.len(),
{
    if fs.len() == 0 {
        0
    } else if fs.last().is_dispatchable {
        dispatched(fs.drop_last()) + 1
    } else {
        dispatched(fs.drop_last())
    }
}

/// The index of the function at `k`: after those of the runtime and those that the world
/// imports.
pub open spec fn index_of(fs: Seq<BoundFunctionV>, k: int) -> int {
    23 + imported(fs) + k
}

/// The module is made of the functions.
pub open spec fn is_bound(
    fs: Seq<BoundFunctionV>,
    bodies: Seq<GeneratedBodyV>,
    dispatch: DispatchV,
) -> bool {
    &&& bodies.len() == fs.len()
    &&& dispatch.params > 0
    &&& index_of(fs, fs.len() as int) + 2 <= u32::MAX
}

pub proof fn lemma_tallies(fs: Seq<BoundFunctionV>)
    ensures
        imports_of(fs).len() == imported(fs),
        dispatchable_count(fs) == dispatched(fs),
        first_function(fs) == 23 + imported(fs),
        imported(fs) <= fs.len(),
        dispatched(fs) <= fs.len(),
        exported(fs) <= fs.len(),
    decreases fs.len(),
{
    if fs.len() > 0 {
        lemma_tallies(fs.drop_last());
    }
}

proof fn lemma_tallies_grow(fs: Seq<BoundFunctionV>, k: int)
    requires
        0 <= k <= fs.len(),
    ensures
        imported(fs.take(k)) <= imported(fs),
        dispatched(fs.take(k)) <= dispatched(fs),
        exported(fs.take(k)) <= exported(fs),
    decreases fs.len(),
{
    if k < fs.len() {
        lemma_tallies_grow(fs.drop_last(), k);
        assert(fs.drop_last().take(k) =~= fs.take(k));
    } else {
        assert(fs.take(k) =~= fs);
    }
}

/// A name of the runtime, the number of its parameters that are integers of 32 bits, what
/// other parameter follows, and the result.
pub open spec fn offers(
    k: int,
    name: Seq<char>,
    integers: nat,
    other: Option<ValueType>,
    result: Option<ValueType>,
) -> bool {
    let s = signatures()[k];
    &&& s.name == "componentize_py#"@ + name
    &&& s.ty.params.len() == integers + (if other is Some {
        1nat
    } else {
        0
    })
    &&& forall|i: int| 0 <= i < integers ==> #[trigger] s.ty.params[i] == ValueType::I32
    &&& other is Some ==> s.ty.params.last() == other->Some_0
    &&& match result {
        Some(ty) => s.ty.results.len() == 1 && s.ty.results[0] == ty,
        None => s.ty.results.len() == 0,
    }
}

/// What the runtime offers: one function to hand a call on, two to manage memory, some to
/// take values apart, each of which returns the part in the type that is its own or stores
/// it, and some to put values together.
pub proof fn law_runtime_offers_these_functions()
    ensures
        signatures().len() == 23,
        offers(0, "Dispatch"@, 7, None, None),
        offers(1, "Allocate"@, 2, None, Some(ValueType::I32)),
        offers(2, "Free"@, 3, None, None),
        offers(3, "LowerI32"@, 2, None, Some(ValueType::I32)),
        offers(4, "LowerI64"@, 2, None, Some(ValueType::I64)),
        offers(5, "LowerF32"@, 2, None, Some(ValueType::F32)),
        offers(6, "LowerF64"@, 2, None, Some(ValueType::F64)),
        offers(7, "LowerChar"@, 2, None, Some(ValueType::I32)),
        offers(8, "LowerString"@, 3, None, None),
        offers(9, "GetField"@, 4, None, Some(ValueType::I32)),
        offers(10, "GetListLength"@, 2, None, Some(ValueType::I32)),
        offers(11, "GetListElement"@, 3, None, Some(ValueType::I32)),
        offers(12, "LiftI32"@, 2, None, Some(ValueType::I32)),
        offers(13, "LiftI64"@, 1, Some(ValueType::I64), Some(ValueType::I32)),
        offers(14, "LiftF32"@, 1, Some(ValueType::F32), Some(ValueType::I32)),
        offers(15, "LiftF64"@, 1, Some(ValueType::F64), Some(ValueType::I32)),
        offers(16, "LiftChar"@, 2, None, Some(ValueType::I32)),
        offers(17, "LiftString"@, 3, None, Some(ValueType::I32)),
        offers(18, "MakeList"@, 1, None, Some(ValueType::I32)),
        offers(19, "ListAppend"@, 3, None, None),
        offers(20, "None"@, 1, None, Some(ValueType::I32)),
        offers(21, "GetBytes"@, 4, None, None),
        offers(22, "MakeBytes"@, 3, None, Some(ValueType::I32)),
{
    reveal_strlit("componentize_py#");
    lemma_first_names();
    lemma_middle_names();
    lemma_last_names();
}

proof fn lemma_first_names()
    ensures
        "componentize_py#Dispatch"@ == "componentize_py#"@ + "Dispatch"@,
        "componentize_py#Allocate"@ == "componentize_py#"@ + "Allocate"@,
        "componentize_py#Free"@ == "componentize_py#"@ + "Free"@,
        "componentize_py#LowerI32"@ == "componentize_py#"@ + "LowerI32"@,
        "componentize_py#LowerI64"@ == "componentize_py#"@ + "LowerI64"@,
        "componentize_py#LowerF32"@ == "componentize_py#"@ + "LowerF32"@,
        "componentize_py#LowerF64"@ == "componentize_py#"@ + "LowerF64"@,
        "componentize_py#LowerChar"@ == "componentize_py#"@ + "LowerChar"@,
{
    reveal_strlit("componentize_py#");
    reveal_strlit("componentize_py#Dispatch");
    reveal_strlit("Dispatch");
    assert("componentize_py#Dispatch"@ =~= "componentize_py#"@ + "Dispatch"@);
    reveal_strlit("componentize_py#Allocate");
    reveal_strlit("Allocate");
    assert("componentize_py#Allocate"@ =~= "componentize_py#"@ + "Allocate"@);
    reveal_strlit("componentize_py#Free");
    reveal_strlit("Free");
    assert("componentize_py#Free"@ =~= "componentize_py#"@ + "Free"@);
    reveal_strlit("componentize_py#LowerI32");
    reveal_strlit("LowerI32");
    assert("componentize_py#LowerI32"@ =~= "componentize_py#"@ + "LowerI32"@);
    reveal_strlit("componentize_py#LowerI64");
    reveal_strlit("LowerI64");
    assert("componentize_py#LowerI64"@ =~= "componentize_py#"@ + "LowerI64"@);
    reveal_strlit("componentize_py#LowerF32");
    reveal_strlit("LowerF32");
    assert("componentize_py#LowerF32"@ =~= "componentize_py#"@ + "LowerF32"@);
    reveal_strlit("componentize_py#LowerF64");
    reveal_strlit("LowerF64");
    assert("componentize_py#LowerF64"@ =~= "componentize_py#"@ + "LowerF64"@);
    reveal_strlit("componentize_py#LowerChar");
    reveal_strlit("LowerChar");
    assert("componentize_py#LowerChar"@ =~= "componentize_py#"@ + "LowerChar"@);
}

proof fn lemma_middle_names()
    ensures
        "componentize_py#LowerString"@ == "componentize_py#"@ + "LowerString"@,
        "componentize_py#GetField"@ == "componentize_py#"@ + "GetField"@,
        "componentize_py#GetListLength"@ == "componentize_py#"@ + "GetListLength"@,
        "componentize_py#GetListElement"@ == "componentize_py#"@ + "GetListElement"@,
        "componentize_py#LiftI32"@ == "componentize_py#"@ + "LiftI32"@,
        "componentize_py#LiftI64"@ == "componentize_py#"@ + "LiftI64"@,
        "componentize_py#LiftF32"@ == "componentize_py#"@ + "LiftF32"@,
        "componentize_py#LiftF64"@ == "componentize_py#"@ + "LiftF64"@,
{
    reveal_strlit("componentize_py#");
    reveal_strlit("componentize_py#LowerString");
    reveal_strlit("LowerString");
    assert("componentize_py#LowerString"@ =~= "componentize_py#"@ + "LowerString"@);
    reveal_strlit("componentize_py#GetField");
    reveal_strlit("GetField");
    assert("componentize_py#GetField"@ =~= "componentize_py#"@ + "GetField"@);
    reveal_strlit("componentize_py#GetListLength");
    reveal_strlit("GetListLength");
    assert("componentize_py#GetListLength"@ =~= "componentize_py#"@ + "GetListLength"@);
    reveal_strlit("componentize_py#GetListElement");
    reveal_strlit("GetListElement");
    assert("componentize_py#GetListElement"@ =~= "componentize_py#"@ + "GetListElement"@);
    reveal_strlit("componentize_py#LiftI32");
    reveal_strlit("LiftI32");
    assert("componentize_py#LiftI32"@ =~= "componentize_py#"@ + "LiftI32"@);
    reveal_strlit("componentize_py#LiftI64");
    reveal_strlit("LiftI64");
    assert("componentize_py#LiftI64"@ =~= "componentize_py#"@ + "LiftI64"@);
    reveal_strlit("componentize_py#LiftF32");
    reveal_strlit("LiftF32");
    assert("componentize_py#LiftF32"@ =~= "componentize_py#"@ + "LiftF32"@);
    reveal_strlit("componentize_py#LiftF64");
    reveal_strlit("LiftF64");
    assert("componentize_py#LiftF64"@ =~= "componentize_py#"@ + "LiftF64"@);
}

proof fn lemma_last_names()
    ensures
        "componentize_py#LiftChar"@ == "componentize_py#"@ + "LiftChar"@,
        "componentize_py#LiftString"@ == "componentize_py#"@ + "LiftString"@,
        "componentize_py#MakeList"@ == "componentize_py#"@ + "MakeList"@,
        "componentize_py#ListAppend"@ == "componentize_py#"@ + "ListAppend"@,
        "componentize_py#None"@ == "componentize_py#"@ + "None"@,
        "componentize_py#GetBytes"@ == "componentize_py#"@ + "GetBytes"@,
        "componentize_py#MakeBytes"@ == "componentize_py#"@ + "MakeBytes"@,
{
    reveal_strlit("componentize_py#");
    reveal_strlit("componentize_py#LiftChar");
    reveal_strlit("LiftChar");
    assert("componentize_py#LiftChar"@ =~= "componentize_py#"@ + "LiftChar"@);
    reveal_strlit("componentize_py#LiftString");
    reveal_strlit("LiftString");
    assert("componentize_py#LiftString"@ =~= "componentize_py#"@ + "LiftString"@);
    reveal_strlit("componentize_py#MakeList");
    reveal_strlit("MakeList");
    assert("componentize_py#MakeList"@ =~= "componentize_py#"@ + "MakeList"@);
    reveal_strlit("componentize_py#ListAppend");
    reveal_strlit("ListAppend");
    assert("componentize_py#ListAppend"@ =~= "componentize_py#"@ + "ListAppend"@);
    reveal_strlit("componentize_py#None");
    reveal_strlit("None");
    assert("componentize_py#None"@ =~= "componentize_py#"@ + "None"@);
    reveal_strlit("componentize_py#GetBytes");
    reveal_strlit("GetBytes");
    assert("componentize_py#GetBytes"@ =~= "componentize_py#"@ + "GetBytes"@);
    reveal_strlit("componentize_py#MakeBytes");
    reveal_strlit("MakeBytes");
    assert("componentize_py#MakeBytes"@ =~= "componentize_py#"@ + "MakeBytes"@);
}

/// The functions of the runtime are imported first, from `env`, each under its name and in
/// its type.
pub proof fn law_runtime_functions_come_first(
    world: Seq<char>,
    fs: Seq<BoundFunctionV>,
    bodies: Seq<GeneratedBodyV>,
    component_type: Seq<u8>,
    dispatch: DispatchV,
    k: int,
)
    requires
        is_bound(fs, bodies, dispatch),
        0 <= k < 23,
    ensures
        ({
            let sections = binding_sections(world, fs, bodies, component_type, dispatch);
            let import = sections[1]->Imports_0[k];
            &&& sections[1]->Imports_0.len() == 23 + imported(fs) + 4
            &&& import.module == "env"@
            &&& import.name == signatures()[k].name
            &&& import.ty matches EntityType::Function(t) && sections[0]->Types_0[t as int]
                == signatures()[k].ty
        }),
{
    lemma_tallies(fs);
}

/// A function that the world imports has the index after those of the runtime and of the
/// imports before it: the generator of its body is told so, and there it is imported, from
/// its interface or else from the world, under its name and in its type.
pub proof fn law_import_has_its_index(
    world: Seq<char>,
    fs: Seq<BoundFunctionV>,
    bodies: Seq<GeneratedBodyV>,
    component_type: Seq<u8>,
    dispatch: DispatchV,
    k: int,
)
    requires
        is_bound(fs, bodies, dispatch),
        0 <= k < fs.len(),
        fs[k].kind == FunctionKind::Import,
    ensures
        ({
            let sections = binding_sections(world, fs, bodies, component_type, dispatch);
            let index = 23 + imported(fs.take(k));
            let import = sections[1]->Imports_0[index as int];
            &&& requests(fs)[k] == (BodyRequest::Import { function: index as u32 })
            &&& index < 23 + imported(fs) <= u32::MAX
            &&& match fs[k].interface {
                Some(interface) => import.module == interface,
                None => import.module == world,
            }
            &&& import.name == fs[k].name
            &&& import.ty matches EntityType::Function(t) && sections[0]->Types_0[t as int]
                == fs[k].import_type
            &&& function_names(fs)[index as int].index == index
            &&& function_names(fs)[index as int].name == fs[k].internal_name + "-import"@
        }),
{
    lemma_tallies(fs);
    lemma_tallies(fs.take(k));
    lemma_import_place(fs, k);
}

/// Every function of the module has the index that follows, with its type and the body that
/// was generated for it, to which an `end` is added.
pub proof fn law_function_has_its_type_and_body(
    world: Seq<char>,
    fs: Seq<BoundFunctionV>,
    bodies: Seq<GeneratedBodyV>,
    component_type: Seq<u8>,
    dispatch: DispatchV,
    k: int,
)
    requires
        is_bound(fs, bodies, dispatch),
        0 <= k < fs.len(),
    ensures
        ({
            let sections = binding_sections(world, fs, bodies, component_type, dispatch);
            let functions = sections[2]->Functions_0;
            let code = sections[5]->Code_0;
            &&& functions.len() == fs.len() + 1
            &&& code.len() == fs.len() + 1
            &&& sections[0]->Types_0[functions[k] as int] == fs[k].export_type
            &&& code[k].locals == bodies[k].locals
            &&& code[k].code == bodies[k].code
            &&& code[k].instructions.len() == 1
            &&& code[k].instructions[0] == Instruction::End
            &&& function_names(fs)[index_of(fs, k)].index == index_of(fs, k)
            &&& function_names(fs)[index_of(fs, k)].name == fs[k].internal_name
        }),
{
    lemma_tallies(fs);
}

/// The name section names every function but the one that dispatches, and nothing else, and
/// the last section holds the type of the component.
pub proof fn law_custom_sections(
    world: Seq<char>,
    fs: Seq<BoundFunctionV>,
    bodies: Seq<GeneratedBodyV>,
    component_type: Seq<u8>,
    dispatch: DispatchV,
)
    requires
        is_bound(fs, bodies, dispatch),
    ensures
        ({
            let sections = binding_sections(world, fs, bodies, component_type, dispatch);
            let names = function_names(fs);
            &&& sections.len() == 8
            &&& sections[6] == (ModuleSectionV::Custom {
                name: "name"@,
                content: name_section(names, seq![]),
            })
            &&& sections[7] == (ModuleSectionV::Custom {
                name: "component-type:"@ + world,
                content: component_type,
            })
            &&& names.len() == index_of(fs, fs.len() as int)
            &&& forall|j: int| 0 <= j < names.len() ==> (#[trigger] names[j]).index == j
            &&& forall|j: int| 0 <= j < 23 ==> (#[trigger] names[j]).name == signatures()[j].name
        }),
{
    lemma_tallies(fs);
}

/// The text that a function is exported under starts with its interface, if it has one, and
/// with `cabi_post_` before that exactly if it is to be called after another.
pub open spec fn is_export_name(f: BoundFunctionV, text: Seq<char>) -> bool {
    match (f.kind, f.interface) {
        (FunctionKind::Export, Some(interface)) => text == interface + "#"@ + f.name,
        (FunctionKind::Export, None) => text == f.name,
        (FunctionKind::ExportPostReturn, Some(interface)) => text == "cabi_post_"@ + interface
            + "#"@ + f.name,
        (FunctionKind::ExportPostReturn, None) => text == "cabi_post_"@ + f.name,
        _ => false,
    }
}

proof fn lemma_export_place(fs: Seq<BoundFunctionV>, first: nat, k: int)
    requires
        0 <= k < fs.len(),
        fs[k].kind == FunctionKind::Export || fs[k].kind == FunctionKind::ExportPostReturn,
        first + fs.len() <= u32::MAX,
    ensures
        exported(fs.take(k)) < binding_exports(fs, first).len(),
        is_export_name(fs[k], binding_exports(fs, first)[exported(fs.take(k)) as int].name),
        binding_exports(fs, first)[exported(fs.take(k)) as int].kind == ExternKind::Func,
        binding_exports(fs, first)[exported(fs.take(k)) as int].index == first + k,
        binding_exports(fs, first).len() == exported(fs),
    decreases fs.len(),
{
    let rest = fs.drop_last();
    lemma_export_count(rest, first);
    lemma_export_count(fs, first);
    if k < rest.len() {
        assert(rest[k] == fs[k]);
        assert(rest.take(k) =~= fs.take(k));
        lemma_export_place(rest, first, k);
    } else {
        assert(fs.take(k) =~= rest);
        let f = fs[k];
        if f.kind == FunctionKind::ExportPostReturn && f.interface is Some {
            assert("cabi_post_"@ + (f.interface->Some_0 + "#"@ + f.name) =~= "cabi_post_"@
                + f.interface->Some_0 + "#"@ + f.name);
        }
    }
}

proof fn lemma_export_count(fs: Seq<BoundFunctionV>, first: nat)
    ensures
        binding_exports(fs, first).len() == exported(fs),
    decreases fs.len(),
{
    if fs.len() > 0 {
        lemma_export_count(fs.drop_last(), first);
    }
}

/// An export, or a function to be called after one, is exported in the order of the
/// functions, by its own index, and under its own name: with `cabi_post_` before it wherever
/// the function is to be called after another, whether or not it has an interface.
pub proof fn law_export_has_its_name(
    world: Seq<char>,
    fs: Seq<BoundFunctionV>,
    bodies: Seq<GeneratedBodyV>,
    component_type: Seq<u8>,
    dispatch: DispatchV,
    k: int,
)
    requires
        is_bound(fs, bodies, dispatch),
        0 <= k < fs.len(),
        fs[k].kind == FunctionKind::Export || fs[k].kind == FunctionKind::ExportPostReturn,
    ensures
        ({
            let sections = binding_sections(world, fs, bodies, component_type, dispatch);
            let exports = sections[3]->Exports_0;
            let place = exported(fs.take(k)) as int;
            &&& place < exports.len() - 1
            &&& is_export_name(fs[k], exports[place].name)
            &&& exports[place].kind == ExternKind::Func
            &&& exports[place].index == index_of(fs, k)
        }),
{
    lemma_tallies(fs);
    lemma_export_place(fs, first_function(fs), k);
}

/// Nothing else is exported but the function that dispatches, which comes last.
pub proof fn law_nothing_else_is_exported(
    world: Seq<char>,
    fs: Seq<BoundFunctionV>,
    bodies: Seq<GeneratedBodyV>,
    component_type: Seq<u8>,
    dispatch: DispatchV,
)
    requires
        is_bound(fs, bodies, dispatch),
    ensures
        ({
            let sections = binding_sections(world, fs, bodies, component_type, dispatch);
            let exports = sections[3]->Exports_0;
            &&& exports.len() == exported(fs) + 1
            &&& exports.last().name == dispatch.name
            &&& exports.last().kind == ExternKind::Func
            &&& exports.last().index == index_of(fs, fs.len() as int)
        }),
{
    lemma_tallies(fs);
    lemma_export_count(fs, first_function(fs));
}

/// A function to be called after an export is never exported under the export's name.
pub proof fn law_post_return_has_a_name_of_its_own(f: BoundFunctionV, g: BoundFunctionV)
    requires
        f.kind == FunctionKind::Export,
        g.kind == FunctionKind::ExportPostReturn,
        f.interface == g.interface,
        f.name == g.name,
    ensures
        export_name(f) != export_name(g),
        export_name(g) == "cabi_post_"@ + export_name(f),
{
    reveal_strlit("cabi_post_");
    assert(export_name(g).len() == 10 + export_name(f).len());
}

/// The element segment fills the table, from where the functions of the module start, with
/// those that are called through it, each after those before it, and with no others.
pub proof fn law_table_has_each_function_in_its_place(
    world: Seq<char>,
    fs: Seq<BoundFunctionV>,
    bodies: Seq<GeneratedBodyV>,
    component_type: Seq<u8>,
    dispatch: DispatchV,
    k: int,
)
    requires
        is_bound(fs, bodies, dispatch),
    ensures
        ({
            let sections = binding_sections(world, fs, bodies, component_type, dispatch);
            let segments = sections[4]->Elements_0;
            &&& segments.len() == 1
            &&& segments[0].table == 0
            &&& segments[0].functions.len() == dispatched(fs)
            &&& 0 <= k < fs.len() && fs[k].is_dispatchable ==> {
                &&& dispatched(fs.take(k)) < dispatched(fs)
                &&& segments[0].functions[dispatched(fs.take(k)) as int] == index_of(fs, k)
            }
        }),
{
    lemma_tallies(fs);
    lemma_slot_count(fs, first_function(fs));
    if 0 <= k < fs.len() && fs[k].is_dispatchable {
        lemma_tallies(fs.take(k));
        lemma_slot(fs, first_function(fs), k);
    }
}

proof fn lemma_no_globals(imports: Seq<ImportV>)
    requires
        forall|k: int| 0 <= k < imports.len() ==> (#[trigger] imports[k]).ty is Function,
    ensures
        global_imports(imports) == Seq::<ImportV>::empty(),
        imported_memories(imports) == Seq::<ImportV>::empty(),
        imported_tables(imports) == Seq::<ImportV>::empty(),
    decreases imports.len(),
{
    if imports.len() > 0 {
        let rest = imports.drop_last();
        assert forall|k: int| 0 <= k < rest.len() implies (#[trigger] rest[k]).ty is Function by {
            assert(rest[k] == imports[k]);
        }
        lemma_no_globals(rest);
        assert(imports[imports.len() - 1].ty is Function);
    }
}

/// The imports of tables, in order.
pub open spec fn imported_tables(imports: Seq<ImportV>) -> Seq<ImportV>
    decreases imports.len(),
{
    if imports.len() == 0 {
        seq![]
    } else {
        let rest = imported_tables(imports.drop_last());
        if imports.last().ty is Table {
            rest.push(imports.last())
        } else {
            rest
        }
    }
}

/// The module shares a memory, a table and two globals with those that it is linked with: it
/// imports them from `env`.  The table has room for the functions that are called through
/// it, which start where the global `__table_base` says.
pub proof fn law_module_shares_memory_table_and_globals(
    world: Seq<char>,
    fs: Seq<BoundFunctionV>,
    bodies: Seq<GeneratedBodyV>,
    component_type: Seq<u8>,
    dispatch: DispatchV,
)
    requires
        is_bound(fs, bodies, dispatch),
    ensures
        ({
            let sections = binding_sections(world, fs, bodies, component_type, dispatch);
            let globals = global_imports(sections[1]->Imports_0);
            let memories = imported_memories(sections[1]->Imports_0);
            let tables = imported_tables(sections[1]->Imports_0);
            &&& globals.len() == 2
            &&& sections[4]->Elements_0[0].offset_global < 2
            &&& globals[sections[4]->Elements_0[0].offset_global as int] == (ImportV {
                module: "env"@,
                name: "__table_base"@,
                ty: EntityType::Global(GlobalType { val_type: ValueType::I32, mutable: false }),
            })
            &&& globals[STACK_POINTER as int] == (ImportV {
                module: "env"@,
                name: "__stack_pointer"@,
                ty: EntityType::Global(GlobalType { val_type: ValueType::I32, mutable: true }),
            })
            &&& memories.len() == 1
            &&& memories[0] == (ImportV {
                module: "env"@,
                name: "memory"@,
                ty: EntityType::Memory(
                    MemoryType { minimum: 0, maximum: None, memory64: false, shared: false },
                ),
            })
            &&& tables.len() == 1
            &&& tables[0] == (ImportV {
                module: "env"@,
                name: "__indirect_function_table"@,
                ty: EntityType::Table(
                    TableType { minimum: dispatched(fs) as u32, maximum: None },
                ),
            })
        }),
{
    lemma_tallies(fs);
    let functions = runtime_imports() + world_imports(world, fs);
    let shared = shared_imports(dispatchable_count(fs));
    lemma_no_globals(functions);
    lemma_four_more(functions, shared[0], shared[1], shared[2], shared[3]);
    assert(functions + shared =~= functions.push(shared[0]).push(shared[1]).push(
        shared[2],
    ).push(shared[3]));
}

proof fn lemma_four_more(
    functions: Seq<ImportV>,
    a: ImportV,
    b: ImportV,
    c: ImportV,
    d: ImportV,
)
    requires
        global_imports(functions) == Seq::<ImportV>::empty(),
        imported_memories(functions) == Seq::<ImportV>::empty(),
        imported_tables(functions) == Seq::<ImportV>::empty(),
        a.ty is Global,
        b.ty is Global,
        c.ty is Memory,
        d.ty is Table,
    ensures
        global_imports(functions.push(a).push(b).push(c).push(d)) == seq![a, b],
        imported_memories(functions.push(a).push(b).push(c).push(d)) == seq![c],
        imported_tables(functions.push(a).push(b).push(c).push(d)) == seq![d],
{
    lemma_one_more(functions, a);
    lemma_one_more(functions.push(a), b);
    lemma_one_more(functions.push(a).push(b), c);
    lemma_one_more(functions.push(a).push(b).push(c), d);
    lemma_table_more(functions, a);
    lemma_table_more(functions.push(a), b);
    lemma_table_more(functions.push(a).push(b), c);
    lemma_table_more(functions.push(a).push(b).push(c), d);
    let none = Seq::<ImportV>::empty();
    assert(none.push(a).push(b) =~= seq![a, b]);
    assert(none.push(c) =~= seq![c]);
    assert(none.push(d) =~= seq![d]);
}

proof fn lemma_table_more(imports: Seq<ImportV>, x: ImportV)
    ensures
        imported_tables(imports.push(x)) == if x.ty is Table {
            imported_tables(imports).push(x)
        } else {
            imported_tables(imports)
        },
{
    assert(imports.push(x).drop_last() =~= imports);
}

/// The function that dispatches takes so many integers, and hands all of them to an indirect
/// call, which takes the last for the place in the table and the others for the parameters of
/// the function there.
pub proof fn law_dispatch_hands_its_parameters_on(
    world: Seq<char>,
    fs: Seq<BoundFunctionV>,
    bodies: Seq<GeneratedBodyV>,
    component_type: Seq<u8>,
    dispatch: DispatchV,
)
    requires
        is_bound(fs, bodies, dispatch),
    ensures
        ({
            let sections = binding_sections(world, fs, bodies, component_type, dispatch);
            let n = fs.len() as int;
            let ty = sections[0]->Types_0[sections[2]->Functions_0[n] as int];
            let body = sections[5]->Code_0[n];
            let p = dispatch.params as int;
            &&& ty.params.len() == p
            &&& ty.results.len() == 0
            &&& forall|i: int| 0 <= i < p ==> #[trigger] ty.params[i] == ValueType::I32
            &&& body.locals.len() == 0
            &&& body.code.len() == 0
            &&& body.instructions.len() == p + 2
            &&& forall|i: int|
                0 <= i < p ==> #[trigger] body.instructions[i] == Instruction::LocalGet(i as u32)
            &&& body.instructions[p] matches Instruction::CallIndirect { ty: called, table }
                && table == 0 && {
                let callee = sections[0]->Types_0[called as int];
                &&& callee.params.len() == p - 1
                &&& callee.results.len() == 0
                &&& forall|i: int| 0 <= i < p - 1 ==> #[trigger] callee.params[i] == ty.params[i]
            }
            &&& body.instructions[p + 1] == Instruction::End
            &&& sections[0]->Types_0.len() == index_of(fs, n) + 2
        }),
{
    lemma_tallies(fs);
}

/// The generator of the body of an export is told the number of the export, and the places
/// in the table that come next; the other generators are told nothing.
pub proof fn law_requests_fit_the_kinds(fs: Seq<BoundFunctionV>, k: int)
    requires
        index_of(fs, fs.len() as int) + 2 <= u32::MAX,
        0 <= k < fs.len(),
    ensures
        has_room(fs),
        requests(fs).len() == fs.len(),
        match fs[k].kind {
            FunctionKind::Import => requests(fs)[k] is Import,
            FunctionKind::Export => requests(fs)[k] matches BodyRequest::Export {
                number,
                lift,
                lower,
            } && lift == dispatched(fs.take(k)) && lower == lift + 1,
            FunctionKind::ExportLift => requests(fs)[k] == BodyRequest::ExportLift,
            FunctionKind::ExportLower => requests(fs)[k] == BodyRequest::ExportLower,
            FunctionKind::ExportPostReturn => requests(fs)[k] == BodyRequest::ExportPostReturn,
        },
{
    lemma_tallies(fs.take(k));
    lemma_tallies(fs);
}

/// How many exports come first under their interface and name among the first `k` functions.
pub open spec fn new_exports(fs: Seq<BoundFunctionV>, k: nat) -> nat
    decreases k,
{
    if k == 0 {
        0
    } else if is_new_export(fs, k - 1) {
        new_exports(fs, (k - 1) as nat) + 1
    } else {
        new_exports(fs, (k - 1) as nat)
    }
}

/// The function at `k` is an export, and none before it is one of the same interface and
/// name.
pub open spec fn is_new_export(fs: Seq<BoundFunctionV>, k: int) -> bool {
    &&& 0 <= k < fs.len()
    &&& fs[k].kind == FunctionKind::Export
    &&& forall|j: int|
        0 <= j < k && (#[trigger] fs[j]).kind == FunctionKind::Export ==> fs[j].interface
            != fs[k].interface || fs[j].name != fs[k].name
}

proof fn lemma_keys_before(fs: Seq<BoundFunctionV>, k: int)
    requires
        0 <= k <= fs.len(),
    ensures
        export_keys(fs.take(k)).len() == new_exports(fs, k as nat),
        export_keys(fs.take(k)).is_prefix_of(export_keys(fs)),
    decreases fs.len() - k, k,
{
    lemma_new_exports(fs, k);
    lemma_keys_prefix(fs, k);
}

proof fn lemma_keys_prefix(fs: Seq<BoundFunctionV>, k: int)
    requires
        0 <= k <= fs.len(),
    ensures
        export_keys(fs.take(k)).is_prefix_of(export_keys(fs)),
    decreases fs.len(),
{
    if k < fs.len() {
        lemma_keys_prefix(fs.drop_last(), k);
        assert(fs.drop_last().take(k) =~= fs.take(k));
        assert(export_keys(fs.drop_last()).is_prefix_of(export_keys(fs)));
    } else {
        assert(fs.take(k) =~= fs);
    }
}

proof fn lemma_new_exports(fs: Seq<BoundFunctionV>, k: int)
    requires
        0 <= k <= fs.len(),
    ensures
        export_keys(fs.take(k)).len() == new_exports(fs, k as nat),
    decreases k,
{
    if k > 0 {
        let now = fs.take(k);
        let before = fs.take(k - 1);
        let f = fs[k - 1];
        lemma_new_exports(fs, k - 1);
        assert(now.drop_last() =~= before);
        assert(now.last() == f);
        lemma_export_keys(before);
        if f.kind == FunctionKind::Export {
            if export_keys(before).contains(export_key(f)) {
                lemma_key_comes_of_export(before, export_key(f));
                let j = choose|j: int|
                    0 <= j < before.len() && (#[trigger] before[j]).kind == FunctionKind::Export
                        && export_key(before[j]) == export_key(f);
                assert(fs[j] == before[j]);
                assert(!is_new_export(fs, k - 1));
            } else {
                assert forall|j: int|
                    0 <= j < k - 1 && (#[trigger] fs[j]).kind
                        == FunctionKind::Export implies fs[j].interface != f.interface
                    || fs[j].name != f.name by {
                    assert(before[j] == fs[j]);
                    assert(export_keys(before).contains(export_key(before[j])));
                }
                assert(is_new_export(fs, k - 1));
            }
        }
    }
}

proof fn lemma_key_comes_of_export(
    fs: Seq<BoundFunctionV>,
    key: (Option<Seq<char>>, Seq<char>),
)
    requires
        export_keys(fs).contains(key),
    ensures
        exists|j: int|
            0 <= j < fs.len() && (#[trigger] fs[j]).kind == FunctionKind::Export && export_key(
                fs[j],
            ) == key,
    decreases fs.len(),
{
    if fs.len() > 0 {
        let rest = fs.drop_last();
        if export_keys(rest).contains(key) {
            lemma_key_comes_of_export(rest, key);
            let j = choose|j: int|
                0 <= j < rest.len() && (#[trigger] rest[j]).kind == FunctionKind::Export
                    && export_key(rest[j]) == key;
            assert(fs[j] == rest[j]);
        } else {
            let i = choose|i: int| 0 <= i < export_keys(fs).len() && export_keys(fs)[i] == key;
            if i < export_keys(rest).len() {
                assert(export_keys(rest)[i] == key);
            }
            assert(fs[fs.len() - 1] == fs.last());
        }
    }
}

/// Exports are numbered from zero up, in the order in which they come first, and exports of
/// one interface and name, and no others, have the same number.
pub proof fn law_exports_are_numbered_in_order(fs: Seq<BoundFunctionV>, j: int, k: int)
    requires
        index_of(fs, fs.len() as int) + 2 <= u32::MAX,
        0 <= j < fs.len(),
        0 <= k < fs.len(),
        fs[j].kind == FunctionKind::Export,
        fs[k].kind == FunctionKind::Export,
    ensures
        requests(fs)[j] is Export,
        requests(fs)[k] is Export,
        requests(fs)[j]->number == requests(fs)[k]->number <==> fs[j].interface
            == fs[k].interface && fs[j].name == fs[k].name,
        is_new_export(fs, k) ==> requests(fs)[k]->number == new_exports(fs, k as nat),
{
    lemma_tallies(fs);
    lemma_export_keys(fs);
    let keys = export_keys(fs);
    let p = position(keys, export_key(fs[j]));
    let q = position(keys, export_key(fs[k]));
    assert(keys.contains(export_key(fs[j])));
    assert(keys.contains(export_key(fs[k])));
    assert(0 <= p < keys.len() && keys[p] == export_key(fs[j]));
    assert(0 <= q < keys.len() && keys[q] == export_key(fs[k]));
    assert(requests(fs)[j]->number == p);
    assert(requests(fs)[k]->number == q);
    if is_new_export(fs, k) {
        lemma_keys_before(fs, k);
        lemma_keys_before(fs, k + 1);
        let before = export_keys(fs.take(k));
        let after = export_keys(fs.take(k + 1));
        assert(fs.take(k + 1).drop_last() =~= fs.take(k));
        assert(fs.take(k + 1).last() == fs[k]);
        assert(after.len() == before.len() + 1);
        assert(after.last() == export_key(fs[k]));
        assert(after[before.len() as int] == keys[before.len() as int]);
        assert(keys[q] == keys[before.len() as int]);
    }
}

/// No text that names a function, no list of names and no section takes more bytes than 32
/// bits can count.
pub open spec fn sizes_fit(fs: Seq<BoundFunctionV>, sections: Seq<ModuleSectionV>) -> bool {
    let names = function_names(fs);
    &&& names.len() <= 0xffff_ffff
    &&& forall|k: int|
        0 <= k < names.len() ==> encode_utf8((#[trigger] names[k]).name).len() <= 0xffff_ffff
    &&& name_map(names).len() <= 0xffff_ffff
    &&& module_fits(sections)
}

/// Why no module is made: there is not one body for each function, or there is no parameter
/// for the place in the table, or an index does not fit, or a size.  Otherwise the module is
/// made of its sections.
pub proof fn law_bindings_fail_for_these_reasons(
    world: Seq<char>,
    fs: Seq<BoundFunctionV>,
    bodies: Seq<GeneratedBodyV>,
    component_type: Seq<u8>,
    dispatch: DispatchV,
)
    ensures
        match bindings(world, fs, bodies, component_type, dispatch) {
            Ok(bytes) => is_bound(fs, bodies, dispatch) && sizes_fit(
                fs,
                binding_sections(world, fs, bodies, component_type, dispatch),
            ) && bytes == module_bytes(
                binding_sections(world, fs, bodies, component_type, dispatch),
            ),
            Err(BindingsError::BodyCount) => bodies.len() != fs.len(),
            Err(BindingsError::NoPlace) => bodies.len() == fs.len() && dispatch.params == 0,
            Err(BindingsError::TooMany) => bodies.len() == fs.len() && dispatch.params > 0
                && index_of(fs, fs.len() as int) + 2 > u32::MAX,
            Err(BindingsError::TooLarge) => is_bound(fs, bodies, dispatch) && !sizes_fit(
                fs,
                binding_sections(world, fs, bodies, component_type, dispatch),
            ),
        },
{
    lemma_tallies(fs);
}

} // verus!
