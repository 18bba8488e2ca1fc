//! What the added functions do, read the way an engine reads them: an index counts the
//! things of its own sort, and a body runs on a stack.
use vstd::prelude::*;
use crate::instrument::{
    getter_aliases, getter_imports, getter_module, instrumented, lemma_live_globals,
    lemma_live_readable, lemma_stack_global, live, memory_aliases, memory_getter_body,
    memory_imports, readable, stack_global, stack_module, to_capture,
};
use crate::parse::{GlobalContent, GlobalDecl};
use crate::survey::{has_instance, ExposedV, SurveyV};
use crate::text::{decimal, lemma_decimal_injective};
use crate::wasm::{
    ComponentSectionV, ComponentType, CoreAliasV, EntityType, ExternKind, FuncExportV, GlobalType,
    ImportV, Instruction, Lift, ModuleSectionV, PrimitiveType, ValueType,
};

verus! {

/// The imports of globals, in order: the one at `g` is global `g` of the module.
pub open spec fn global_imports(imports: Seq<ImportV>) -> Seq<ImportV>
    decreases imports.len(),
{
    if imports.len() == 0 {
        seq![]
    } else {
        let rest = global_imports(imports.drop_last());
        if imports.last().ty is Global {
            rest.push(imports.last())
        } else {
            rest
        }
    }
}

/// The imports of memories, in order.
pub open spec fn imported_memories(imports: Seq<ImportV>) -> Seq<ImportV>
    decreases imports.len(),
{
    if imports.len() == 0 {
        seq![]
    } else {
        let rest = imported_memories(imports.drop_last());
        if imports.last().ty is Memory {
            rest.push(imports.last())
        } else {
            rest
        }
    }
}

/// The aliases of one kind, in order.
pub open spec fn aliases_of(aliases: Seq<CoreAliasV>, kind: ExternKind) -> Seq<CoreAliasV>
    decreases aliases.len(),
{
    if aliases.len() == 0 {
        seq![]
    } else {
        let rest = aliases_of(aliases.drop_last(), kind);
        if aliases.last().kind == kind {
            rest.push(aliases.last())
        } else {
            rest
        }
    }
}

/// An engine that runs a body with one local: the operands, as numbers without a sign, the
/// local, and the words that were stored, each with its address.
pub struct MachineV {
    pub operands: Seq<int>,
    pub local: int,
    pub stored: Seq<(int, int)>,
}

/// What an instruction does, in a module whose globals have the given values and whose memory
/// has the given number of pages.
pub open spec fn execute(
    globals: spec_fn(u32) -> int,
    pages: int,
    m: MachineV,
    i: Instruction,
) -> Option<MachineV> {
    let n = m.operands.len() as int;
    match i {
        Instruction::GlobalGet(g) => Some(
            MachineV { operands: m.operands.push(globals(g)), ..m },
        ),
        Instruction::LocalGet(0) => Some(MachineV { operands: m.operands.push(m.local), ..m }),
        Instruction::LocalTee(0) => if n >= 1 {
            Some(MachineV { local: m.operands[n - 1], ..m })
        } else {
            None
        },
        Instruction::I32Const(c) => Some(
            MachineV { operands: m.operands.push(c as int % 0x1_0000_0000), ..m },
        ),
        Instruction::I32Sub => if n >= 2 {
            Some(
                MachineV {
                    operands: m.operands.take(n - 2).push(
                        (m.operands[n - 2] - m.operands[n - 1]) % 0x1_0000_0000,
                    ),
                    ..m
                },
            )
        } else {
            None
        },
        Instruction::I32Mul => if n >= 2 {
            Some(
                MachineV {
                    operands: m.operands.take(n - 2).push(
                        (m.operands[n - 2] * m.operands[n - 1]) % 0x1_0000_0000,
                    ),
                    ..m
                },
            )
        } else {
            None
        },
        Instruction::I32Store(arg) => if n >= 2 && arg.align == 2 && arg.memory_index == 0 {
            Some(
                MachineV {
                    operands: m.operands.take(n - 2),
                    stored: m.stored.push((m.operands[n - 2] + arg.offset, m.operands[n - 1])),
                    ..m
                },
            )
        } else {
            None
        },
        Instruction::MemorySize(0) => Some(
            MachineV { operands: m.operands.push(pages), ..m },
        ),
        Instruction::End => Some(m),
        _ => None,
    }
}

/// What the instructions do, one after the other, from a local of zero.
pub open spec fn run(
    globals: spec_fn(u32) -> int,
    pages: int,
    code: Seq<Instruction>,
) -> Option<MachineV>
    decreases code.len(),
{
    if code.len() == 0 {
        Some(MachineV { operands: seq![], local: 0, stored: seq![] })
    } else {
        match run(globals, pages, code.drop_last()) {
            Some(m) => execute(globals, pages, m, code.last()),
            None => None,
        }
    }
}

proof fn lemma_run_next(
    globals: spec_fn(u32) -> int,
    pages: int,
    code: Seq<Instruction>,
    k: int,
)
    requires
        0 <= k < code.len(),
    ensures
        run(globals, pages, code.take(k + 1)) == match run(globals, pages, code.take(k)) {
            Some(m) => execute(globals, pages, m, code[k]),
            None => None,
        },
{
    assert(code.take(k + 1).drop_last() =~= code.take(k));
    assert(code.take(k + 1).last() == code[k]);
}

proof fn lemma_all_global(imports: Seq<ImportV>)
    requires
        forall|k: int| 0 <= k < imports.len() ==> (#[trigger] imports[k]).ty is Global,
    ensures
        global_imports(imports) == imports,
        imported_memories(imports) == Seq::<ImportV>::empty(),
    decreases imports.len(),
{
    if imports.len() > 0 {
        let rest = imports.drop_last();
        assert forall|k: int| 0 <= k < rest.len() implies (#[trigger] rest[k]).ty is Global by {
            assert(rest[k] == imports[k]);
        }
        lemma_all_global(rest);
        assert(imports[imports.len() - 1].ty is Global);
        assert(rest.push(imports.last()) =~= imports);
    }
    assert(global_imports(imports) =~= imports);
}

pub proof fn lemma_one_more(imports: Seq<ImportV>, x: ImportV)
    ensures
        global_imports(imports.push(x)) == if x.ty is Global {
            global_imports(imports).push(x)
        } else {
            global_imports(imports)
        },
        imported_memories(imports.push(x)) == if x.ty is Memory {
            imported_memories(imports).push(x)
        } else {
            imported_memories(imports)
        },
{
    assert(imports.push(x).drop_last() =~= imports);
}

proof fn lemma_all_aliases(aliases: Seq<CoreAliasV>, x: CoreAliasV, memory: CoreAliasV)
    requires
        forall|k: int|
            0 <= k < aliases.len() ==> (#[trigger] aliases[k]).kind == ExternKind::Func,
        x.kind == ExternKind::Func,
        memory.kind == ExternKind::Memory,
    ensures
        aliases_of(aliases, ExternKind::Func) == aliases,
        aliases_of(aliases + seq![x, memory], ExternKind::Func) == aliases.push(x),
        aliases_of(aliases + seq![x, memory], ExternKind::Memory) == seq![memory],
    decreases aliases.len(),
{
    if aliases.len() > 0 {
        let rest = aliases.drop_last();
        assert forall|k: int| 0 <= k < rest.len() implies (#[trigger] rest[k]).kind
            == ExternKind::Func by {
            assert(rest[k] == aliases[k]);
        }
        lemma_all_aliases(rest, x, memory);
        assert(aliases[aliases.len() - 1].kind == ExternKind::Func);
        assert(rest.push(aliases.last()) =~= aliases);
    }
    lemma_no_memory(aliases);
    reveal_with_fuel(aliases_of, 3);
    let all = aliases + seq![x, memory];
    assert(all.drop_last() =~= aliases.push(x));
    assert(aliases.push(x).drop_last() =~= aliases);
    assert(all.last() == memory);
    assert(aliases.push(x).last() == x);
    assert(Seq::<CoreAliasV>::empty().push(memory) =~= seq![memory]);
}

proof fn lemma_no_memory(aliases: Seq<CoreAliasV>)
    requires
        forall|k: int|
            0 <= k < aliases.len() ==> (#[trigger] aliases[k]).kind == ExternKind::Func,
    ensures
        aliases_of(aliases, ExternKind::Memory) == Seq::<CoreAliasV>::empty(),
    decreases aliases.len(),
{
    if aliases.len() > 0 {
        let rest = aliases.drop_last();
        assert forall|k: int| 0 <= k < rest.len() implies (#[trigger] rest[k]).kind
            == ExternKind::Func by {
            assert(rest[k] == aliases[k]);
        }
        lemma_no_memory(rest);
        assert(aliases[aliases.len() - 1].kind == ExternKind::Func);
    }
}

/// The parts of a component that instrumentation has added at its end.
pub struct AddedV {
    pub module: Seq<ModuleSectionV>,
    pub types: Seq<ComponentType>,
    pub aliases: Seq<CoreAliasV>,
    pub lifts: Seq<Lift>,
    pub exports: Seq<FuncExportV>,
}

/// The last six sections, where they are of the sorts that instrumentation adds.
pub open spec fn added_at_end(sections: Seq<ComponentSectionV>) -> Option<AddedV> {
    let n = sections.len() - 6;
    if n < 0 {
        None
    } else {
        match (
            sections[n],
            sections[n + 2],
            sections[n + 3],
            sections[n + 4],
            sections[n + 5],
        ) {
            (
                ComponentSectionV::Module(module),
                ComponentSectionV::Types(types),
                ComponentSectionV::Aliases(aliases),
                ComponentSectionV::Lifts(lifts),
                ComponentSectionV::Exports(exports),
            ) => Some(AddedV { module, types, aliases, lifts, exports }),
            _ => None,
        }
    }
}

/// The instrumented component is the one that was surveyed, and after it a module, an
/// instance of that module, and the functions that it is for.  The instance is given every
/// instance that there is, under the number of its module.
pub proof fn law_instance_is_given_every_instance(whole: SurveyV)
    requires
        instrumented(whole) is Ok,
    ensures
        ({
            let out = instrumented(whole)->Ok_0;
            let n = out.len() - 6;
            &&& n >= 0
            &&& out.take(n) == whole.sections
            &&& added_at_end(out) is Some
            &&& out[n + 1] matches ComponentSectionV::Instances(made) && made.len() == 1
                && made[0].module == whole.counts.modules && made[0].args.len()
                == whole.instantiations.len() && forall|j: int|
                0 <= j < whole.instantiations.len() ==> (#[trigger] made[0].args[j]).name
                    == decimal(whole.instantiations[j].module as nat)
                    && made[0].args[j].instance == whole.instantiations[j].instance
        }),
{
    let out = instrumented(whole)->Ok_0;
    assert(out.take(out.len() - 6) =~= whole.sections);
}

/// The function that is exported under the name of a captured global returns that global, in
/// the type that goes with its own.
pub proof fn law_function_returns_the_global(whole: SurveyV, k: int)
    requires
        instrumented(whole) is Ok,
        0 <= k < to_capture(live(whole)).globals.len(),
    ensures
        ({
            let g = to_capture(live(whole)).globals[k];
            let added = added_at_end(instrumented(whole)->Ok_0)->Some_0;
            let export = added.exports[k];
            let lift = added.lifts[export.function - whole.counts.functions];
            let alias = aliases_of(added.aliases, ExternKind::Func)[lift.core_function
                - whole.counts.core_functions];
            &&& k < added.exports.len()
            &&& export.name == "component-init-get-module"@ + decimal(g.module as nat)
                + "-global"@ + decimal(g.index as nat)
            &&& 0 <= export.function - whole.counts.functions < added.lifts.len()
            &&& lift.memory is None
            &&& 0 <= lift.core_function - whole.counts.core_functions < aliases_of(
                added.aliases,
                ExternKind::Func,
            ).len()
            &&& 0 <= lift.ty - whole.counts.types < added.types.len()
            &&& match g.ty {
                ValueType::I32 => added.types[lift.ty - whole.counts.types]
                    == ComponentType::Getter(PrimitiveType::S32),
                ValueType::I64 => added.types[lift.ty - whole.counts.types]
                    == ComponentType::Getter(PrimitiveType::S64),
                ValueType::F32 => added.types[lift.ty - whole.counts.types]
                    == ComponentType::Getter(PrimitiveType::Float32),
                ValueType::F64 => added.types[lift.ty - whole.counts.types]
                    == ComponentType::Getter(PrimitiveType::Float64),
                ValueType::V128 => false,
            }
            &&& alias.instance == whole.counts.instances
            &&& alias.name == export.name
        }),
{
    let s = live(whole);
    lemma_live_readable(whole);
    assert(readable(s.exposed[k]));
    lemma_added_aliases(whole);
    lemma_room(whole);
    let added = added_at_end(instrumented(whole)->Ok_0)->Some_0;
    let functions = aliases_of(added.aliases, ExternKind::Func);
    assert(functions.take(s.exposed.len() as int)[k] == functions[k]);
    assert(functions[k] == getter_aliases(s)[k]);
    assert(added.exports[k].function == whole.counts.functions + k);
    assert(added.lifts[k].core_function == whole.counts.core_functions + k);
}

proof fn lemma_added_aliases(whole: SurveyV)
    requires
        instrumented(whole) is Ok,
    ensures
        ({
            let s = live(whole);
            let added = added_at_end(instrumented(whole)->Ok_0)->Some_0;
            let functions = aliases_of(added.aliases, ExternKind::Func);
            let first = getter_aliases(s);
            &&& first.len() == s.exposed.len()
            &&& functions.len() >= first.len()
            &&& functions.take(first.len() as int) == first
            &&& s.memory is Some ==> functions == first.push(
                memory_aliases(s)[0],
            ) && aliases_of(added.aliases, ExternKind::Memory) == seq![
                memory_aliases(s)[1],
            ]
        }),
{
    let s = live(whole);
    let first = getter_aliases(s);
    let more = memory_aliases(s);
    lemma_all_aliases(first, more[0], more[1]);
    assert(more =~= seq![more[0], more[1]]);
    assert(first + Seq::<CoreAliasV>::empty() =~= first);
    assert(first.take(first.len() as int) =~= first);
    assert(first.push(more[0]).take(first.len() as int) =~= first);
}

/// In the added module, the function for a captured global is exported under the same name,
/// and its body gets the global that is imported, from the module and by the name that the
/// global is exported by.
pub proof fn law_body_gets_the_global(
    whole: SurveyV,
    k: int,
    value: spec_fn(u32) -> int,
    pages: int,
)
    requires
        instrumented(whole) is Ok,
        0 <= k < to_capture(live(whole)).globals.len(),
    ensures
        ({
            let g = to_capture(live(whole)).globals[k];
            let module = added_at_end(instrumented(whole)->Ok_0)->Some_0.module;
            let export = module[3]->Exports_0[k];
            let f = export.index as int;
            let imports = global_imports(module[1]->Imports_0);
            let body = module[4]->Code_0[f];
            &&& module.len() == 5
            &&& export.name == "component-init-get-module"@ + decimal(g.module as nat)
                + "-global"@ + decimal(g.index as nat)
            &&& export.kind == ExternKind::Func
            &&& module[0]->Types_0[module[2]->Functions_0[f] as int].params.len() == 0
            &&& module[0]->Types_0[module[2]->Functions_0[f] as int].results == seq![g.ty]
            &&& body.locals.len() == 0
            &&& body.code.len() == 0
            &&& exists|i: u32, x: int|
                {
                    &&& i < imports.len()
                    &&& 0 <= x < whole.exposed.len()
                    &&& run(value, pages, body.instructions) == Some(
                        MachineV {
                            operands: seq![#[trigger] value(i)],
                            local: 0,
                            stored: seq![],
                        },
                    )
                    &&& imports[i as int].module == decimal(g.module as nat)
                    &&& imports[i as int].ty == EntityType::Global(
                        GlobalType { val_type: g.ty, mutable: true },
                    )
                    &&& (#[trigger] whole.exposed[x]).module == g.module
                    &&& whole.exposed[x].index == g.index
                    &&& whole.exposed[x].content == GlobalContent::Value(g.ty)
                    &&& whole.exposed[x].name == Some(imports[i as int].name)
                }
        }),
{
    let s = live(whole);
    let g = to_capture(s).globals[k];
    lemma_live_readable(whole);
    assert(readable(s.exposed[k]));
    lemma_live_globals(whole.exposed, whole.instantiations);
    assert(whole.exposed.contains(s.exposed[k]));
    let x = choose|x: int| 0 <= x < whole.exposed.len() && whole.exposed[x] == s.exposed[k];
    let module = added_at_end(instrumented(whole)->Ok_0)->Some_0.module;
    assert(module == getter_module(s));
    let body = module[4]->Code_0[k];
    let code = body.instructions;
    assert(code.len() == 2);
    lemma_run_next(value, pages, code, 0);
    lemma_run_next(value, pages, code, 1);
    assert(code.take(0) =~= Seq::<Instruction>::empty());
    assert(code.take(2) =~= code);
    assert(Seq::<int>::empty().push(value(k as u32)) =~= seq![value(k as u32)]);
    lemma_module_imports(whole);
    let imports = global_imports(module[1]->Imports_0);
    assert(imports[k] == getter_imports(s.exposed)[k]);
    assert(whole.exposed[x] == s.exposed[k]);
}

proof fn lemma_module_imports(whole: SurveyV)
    requires
        instrumented(whole) is Ok,
    ensures
        ({
            let s = live(whole);
            let imports = getter_module(s)[1]->Imports_0;
            let more = memory_imports(s);
            &&& global_imports(imports).len() >= s.exposed.len()
            &&& global_imports(imports).take(s.exposed.len() as int) == getter_imports(s.exposed)
            &&& s.memory is Some ==> imported_memories(imports) == seq![more[0]]
            &&& s.memory is Some && more.len() == 2 ==> global_imports(imports)
                == getter_imports(s.exposed).push(more[1])
        }),
{
    let s = live(whole);
    let first = getter_imports(s.exposed);
    lemma_all_global(first);
    assert(first.take(first.len() as int) =~= first);
    if s.memory is Some {
        let more = memory_imports(s);
        lemma_one_more(first, more[0]);
        assert(Seq::<ImportV>::empty().push(more[0]) =~= seq![more[0]]);
        if more.len() == 2 {
            lemma_one_more(first.push(more[0]), more[1]);
            assert(first.push(more[0]).push(more[1]) =~= first + more);
            assert(first.push(more[1]).take(first.len() as int) =~= first);
        } else {
            assert(first.push(more[0]) =~= first + more);
        }
    } else {
        assert(first + Seq::<ImportV>::empty() =~= first);
    }
}

/// The function that is exported for the memory returns a list of bytes, and the list is in
/// the memory that the added module imports and exports: the memory of the component.
pub proof fn law_function_returns_the_memory(whole: SurveyV)
    requires
        instrumented(whole) is Ok,
        live(whole).memory is Some,
    ensures
        ({
            let n = to_capture(live(whole)).globals.len() as int;
            let added = added_at_end(instrumented(whole)->Ok_0)->Some_0;
            let export = added.exports[n];
            let lift = added.lifts[export.function - whole.counts.functions];
            let alias = aliases_of(added.aliases, ExternKind::Func)[lift.core_function
                - whole.counts.core_functions];
            let memory = aliases_of(added.aliases, ExternKind::Memory)[lift.memory->Some_0
                - whole.counts.core_memories];
            let imports = imported_memories(added.module[1]->Imports_0);
            &&& added.exports.len() == n + 1
            &&& export.name == "component-init-get-memory"@
            &&& 0 <= export.function - whole.counts.functions < added.lifts.len()
            &&& 0 <= lift.core_function - whole.counts.core_functions < aliases_of(
                added.aliases,
                ExternKind::Func,
            ).len()
            &&& 0 <= lift.ty - whole.counts.types < added.types.len()
            &&& added.types[lift.ty - whole.counts.types] matches ComponentType::DefinedGetter(
                list,
            ) && 0 <= list - whole.counts.types < added.types.len() && added.types[list
                - whole.counts.types] == ComponentType::List(PrimitiveType::U8)
            &&& alias.instance == whole.counts.instances
            &&& alias.name == export.name
            &&& lift.memory is Some
            &&& aliases_of(added.aliases, ExternKind::Memory).len() == 1
            &&& lift.memory->Some_0 == whole.counts.core_memories
            &&& memory.instance == whole.counts.instances
            &&& added.module[3]->Exports_0[n + 1].name == memory.name
            &&& added.module[3]->Exports_0[n + 1].kind == ExternKind::Memory
            &&& added.module[3]->Exports_0[n + 1].index == 0
            &&& added.module[3]->Exports_0.len() == n + 2
            &&& imports.len() == 1
            &&& whole.memory == Some((live(whole).memory->Some_0.0, imports[0].ty->Memory_0))
            &&& imports[0].module == decimal(live(whole).memory->Some_0.0 as nat)
            &&& imports[0].name == "memory"@
        }),
{
    lemma_added_aliases(whole);
    lemma_module_imports(whole);
}

/// The stack pointer that the added module works with is the global that the only module
/// which has a stack pointer exports by that name.
pub open spec fn is_stack_pointer(whole: SurveyV, import: ImportV) -> bool {
    &&& whole.stack_pointers.len() == 1
    &&& whole.stack_pointers[0].decl == Some(
        GlobalDecl { content: GlobalContent::Value(ValueType::I32), mutable: true },
    )
    &&& has_instance(whole.instantiations, whole.stack_pointers[0].module)
    &&& import.module == decimal(whole.stack_pointers[0].module as nat)
    &&& import.name == "__stack_pointer"@
    &&& import.ty is Global
}

proof fn lemma_stack_import(whole: SurveyV)
    requires
        instrumented(whole) is Ok,
        live(whole).memory is Some,
    ensures
        ({
            let s = live(whole);
            let imports = global_imports(getter_module(s)[1]->Imports_0);
            let g = stack_global(s.exposed, stack_module(s)->Some_0);
            &&& g < imports.len()
            &&& g <= s.exposed.len()
            &&& is_stack_pointer(whole, imports[g as int])
        }),
{
    let s = live(whole);
    let module = stack_module(s)->Some_0;
    let n = s.exposed.len() as int;
    lemma_module_imports(whole);
    lemma_stack_global(s.exposed, module, n);
    assert(s.exposed.take(n) =~= s.exposed);
    let g = stack_global(s.exposed, module);
    if g < n {
        lemma_is_stack_global(s.exposed, module);
        let imports = global_imports(getter_module(s)[1]->Imports_0);
        assert(imports.take(n)[g as int] == imports[g as int]);
        assert(imports[g as int] == getter_imports(s.exposed)[g as int]);
    }
}

proof fn lemma_is_stack_global(exposed: Seq<ExposedV>, module: u32)
    requires
        stack_global(exposed, module) < exposed.len(),
    ensures
        exposed[stack_global(exposed, module) as int].module == module,
        exposed[stack_global(exposed, module) as int].name == Some("__stack_pointer"@),
    decreases exposed.len(),
{
    let rest = exposed.drop_last();
    if stack_global(rest, module) < rest.len() {
        lemma_is_stack_global(rest, module);
        assert(rest[stack_global(rest, module) as int] == exposed[stack_global(
            rest,
            module,
        ) as int]);
    }
}

/// The function that the memory getter lifts starts with the stack pointer: the global that
/// its first instruction gets is imported from the module that has the stack pointer, by the
/// name `__stack_pointer`.
pub proof fn law_memory_getter_uses_the_stack_pointer(whole: SurveyV)
    requires
        instrumented(whole) is Ok,
        live(whole).memory is Some,
    ensures
        ({
            let n = to_capture(live(whole)).globals.len() as int;
            let module = added_at_end(instrumented(whole)->Ok_0)->Some_0.module;
            let imports = global_imports(module[1]->Imports_0);
            let export = module[3]->Exports_0[n];
            let body = module[4]->Code_0[export.index as int];
            &&& export.name == "component-init-get-memory"@
            &&& export.kind == ExternKind::Func
            &&& export.index < module[4]->Code_0.len()
            &&& body.code.len() == 0
            &&& body.instructions[0] matches Instruction::GlobalGet(g) && g < imports.len()
                && is_stack_pointer(whole, imports[g as int])
        }),
{
    lemma_stack_import(whole);
    lemma_room(whole);
}

proof fn lemma_room(whole: SurveyV)
    requires
        instrumented(whole) is Ok,
    ensures
        live(whole).exposed.len() <= u32::MAX,
        live(whole).memory is Some ==> live(whole).exposed.len() + 2 <= u32::MAX,
{
}

/// No global is imported twice: the stack pointer is imported besides the captured globals
/// only if it is none of them.
pub proof fn law_stack_pointer_is_imported_once(whole: SurveyV)
    requires
        instrumented(whole) is Ok,
    ensures
        ({
            let n = to_capture(live(whole)).globals.len() as int;
            let module = added_at_end(instrumented(whole)->Ok_0)->Some_0.module;
            let imports = global_imports(module[1]->Imports_0);
            &&& imports.len() == n || imports.len() == n + 1
            &&& imports.len() == n + 1 ==> live(whole).memory is Some && is_stack_pointer(
                whole,
                imports[n],
            ) && forall|k: int|
                0 <= k < n ==> (#[trigger] imports[k]).module != imports[n].module
                    || imports[k].name != imports[n].name
        }),
{
    let s = live(whole);
    let n = s.exposed.len() as int;
    lemma_module_imports(whole);
    lemma_import_count(whole);
    let imports = global_imports(getter_module(s)[1]->Imports_0);
    if imports.len() == n + 1 {
        let module = stack_module(s)->Some_0;
        lemma_stack_import(whole);
        lemma_live_readable(whole);
        assert forall|k: int| 0 <= k < n implies (#[trigger] imports[k]).module
            != imports[n].module || imports[k].name != imports[n].name by {
            assert(imports.take(n)[k] == imports[k]);
            assert(imports[k] == getter_imports(s.exposed)[k]);
            assert(readable(s.exposed[k]));
            if imports[k].module == imports[n].module && imports[k].name == imports[n].name {
                lemma_decimal_injective(s.exposed[k].module as nat, module as nat);
                lemma_first_is_before(s.exposed, module, k);
            }
        }
    }
}

proof fn lemma_import_count(whole: SurveyV)
    requires
        instrumented(whole) is Ok,
    ensures
        ({
            let s = live(whole);
            let n = s.exposed.len();
            let module = stack_module(s)->Some_0;
            let imports = global_imports(getter_module(s)[1]->Imports_0);
            imports.len() == if s.memory is Some && !(stack_global(s.exposed, module) < n) {
                n + 1
            } else {
                n
            }
        }),
{
    let s = live(whole);
    let first = getter_imports(s.exposed);
    lemma_all_global(first);
    lemma_module_imports(whole);
    if s.memory is Some {
        let more = memory_imports(s);
        if more.len() == 1 {
            lemma_one_more(first, more[0]);
            assert(first.push(more[0]) =~= first + more);
        }
    } else {
        assert(first + Seq::<ImportV>::empty() =~= first);
    }
}

proof fn lemma_first_is_before(exposed: Seq<ExposedV>, module: u32, k: int)
    requires
        0 <= k < exposed.len(),
        exposed[k].module == module,
        exposed[k].name == Some("__stack_pointer"@),
    ensures
        stack_global(exposed, module) <= k,
    decreases exposed.len(),
{
    let rest = exposed.drop_last();
    if k < rest.len() {
        assert(rest[k] == exposed[k]);
        lemma_first_is_before(rest, module, k);
    } else {
        lemma_stack_global(rest, module, rest.len() as int);
        assert(rest.take(rest.len() as int) =~= rest);
    }
}

/// Run with any stack pointer and any number of pages, the function that the memory getter
/// lifts returns an address eight bytes below the stack pointer, and has stored there where
/// the memory starts, zero, and after it how many bytes the memory has.
pub proof fn law_memory_getter_returns_the_whole_memory(
    whole: SurveyV,
    value: spec_fn(u32) -> int,
    pages: int,
)
    requires
        instrumented(whole) is Ok,
        live(whole).memory is Some,
    ensures
        ({
            let n = to_capture(live(whole)).globals.len() as int;
            let module = added_at_end(instrumented(whole)->Ok_0)->Some_0.module;
            let imports = global_imports(module[1]->Imports_0);
            let f = module[3]->Exports_0[n].index as int;
            let body = module[4]->Code_0[f];
            let ty = module[0]->Types_0[module[2]->Functions_0[f] as int];
            &&& ty.params.len() == 0
            &&& ty.results == seq![ValueType::I32]
            &&& body.locals == seq![ValueType::I32]
            &&& exists|g: u32|
                #![trigger value(g)]
                {
                    let top = (value(g) - 8) % 0x1_0000_0000;
                    &&& g < imports.len()
                    &&& is_stack_pointer(whole, imports[g as int])
                    &&& run(value, pages, body.instructions) == Some(
                        MachineV {
                            operands: seq![top],
                            local: top,
                            stored: seq![
                                (top, 0int),
                                (top + 4, (pages * 65536) % 0x1_0000_0000),
                            ],
                        },
                    )
                }
        }),
{
    let s = live(whole);
    let n = s.exposed.len() as int;
    lemma_stack_import(whole);
    lemma_room(whole);
    let g = stack_global(s.exposed, stack_module(s)->Some_0) as u32;
    let module = added_at_end(instrumented(whole)->Ok_0)->Some_0.module;
    assert(module == getter_module(s));
    let body = module[4]->Code_0[n];
    assert(body == memory_getter_body(g));
    lemma_memory_body(g, value, pages);
    assert(value(g) == value(g));
}

proof fn lemma_memory_body(g: u32, value: spec_fn(u32) -> int, pages: int)
    ensures
        ({
            let top = (value(g) - 8) % 0x1_0000_0000;
            run(value, pages, memory_getter_body(g).instructions) == Some(
                MachineV {
                    operands: seq![top],
                    local: top,
                    stored: seq![
                        (top, 0int),
                        (top + 4, (pages * 65536) % 0x1_0000_0000),
                    ],
                },
            )
        }),
{
    let code = memory_getter_body(g).instructions;
    let top = (value(g) - 8) % 0x1_0000_0000;
    let size = (pages * 65536) % 0x1_0000_0000;
    assert(code.len() == 13);
    assert(code.take(0) =~= Seq::<Instruction>::empty());
    assert(code.take(13) =~= code);
    let none: Seq<(int, int)> = seq![];
    let one: Seq<(int, int)> = seq![(top, 0int)];
    let two: Seq<(int, int)> = seq![(top, 0int), (top + 4, size)];
    lemma_run_next(value, pages, code, 0);
    lemma_run_next(value, pages, code, 1);
    lemma_run_next(value, pages, code, 2);
    lemma_run_next(value, pages, code, 3);
    let m4 = run(value, pages, code.take(4))->Some_0;
    assert(m4.operands =~= seq![top]);
    assert(m4 == MachineV { operands: seq![top], local: top, stored: none });
    lemma_run_next(value, pages, code, 4);
    lemma_run_next(value, pages, code, 5);
    let m6 = run(value, pages, code.take(6))->Some_0;
    assert(m6.operands =~= seq![]);
    assert(m6.stored =~= one);
    assert(m6 == MachineV { operands: seq![], local: top, stored: one });
    lemma_run_next(value, pages, code, 6);
    lemma_run_next(value, pages, code, 7);
    lemma_run_next(value, pages, code, 8);
    lemma_run_next(value, pages, code, 9);
    let m10 = run(value, pages, code.take(10))->Some_0;
    assert(m10.operands =~= seq![top, size]);
    assert(m10 == MachineV { operands: seq![top, size], local: top, stored: one });
    lemma_run_next(value, pages, code, 10);
    let m11 = run(value, pages, code.take(11))->Some_0;
    assert(m11.operands =~= seq![]);
    assert(m11.stored =~= two);
    lemma_run_next(value, pages, code, 11);
    lemma_run_next(value, pages, code, 12);
    assert(m11.operands.push(top) =~= seq![top]);
}

/// What is captured: the exposed globals of modules with an instance, by the type that each
/// was declared with, and the memory if its module has an instance.
pub proof fn law_capture_is_what_is_live(whole: SurveyV, k: int, j: int)
    requires
        instrumented(whole) is Ok,
    ensures
        ({
            let c = to_capture(live(whole));
            &&& 0 <= k < c.globals.len() ==> exists|x: int|
                {
                    &&& 0 <= x < whole.exposed.len()
                    &&& (#[trigger] whole.exposed[x]).module == c.globals[k].module
                    &&& whole.exposed[x].index == c.globals[k].index
                    &&& whole.exposed[x].content == GlobalContent::Value(c.globals[k].ty)
                }
            &&& 0 <= j < whole.exposed.len() && has_instance(
                whole.instantiations,
                whole.exposed[j].module,
            ) ==> exists|x: int|
                {
                    &&& 0 <= x < c.globals.len()
                    &&& (#[trigger] c.globals[x]).module == whole.exposed[j].module
                    &&& c.globals[x].index == whole.exposed[j].index
                }
            &&& c.memory is Some <==> whole.memory is Some && has_instance(
                whole.instantiations,
                whole.memory->Some_0.0,
            )
            &&& c.memory is Some ==> c.memory->Some_0 == whole.memory->Some_0.0
        }),
{
    let s = live(whole);
    let c = to_capture(s);
    lemma_live_readable(whole);
    lemma_live_globals(whole.exposed, whole.instantiations);
    if 0 <= k < c.globals.len() {
        assert(readable(s.exposed[k]));
        assert(whole.exposed.contains(s.exposed[k]));
        let x = choose|x: int| 0 <= x < whole.exposed.len() && whole.exposed[x] == s.exposed[k];
        assert(whole.exposed[x].module == c.globals[k].module);
    }
    if 0 <= j < whole.exposed.len() && has_instance(
        whole.instantiations,
        whole.exposed[j].module,
    ) {
        assert(s.exposed.contains(whole.exposed[j]));
        let x = choose|x: int| 0 <= x < s.exposed.len() && s.exposed[x] == whole.exposed[j];
        assert(c.globals[x].module == whole.exposed[j].module);
    }
}

/// Nothing is added but what reads the captured globals and the memory: a function for each,
/// with its type, and a list type and an alias of the memory if there is one.
pub proof fn law_nothing_else_is_added(whole: SurveyV)
    requires
        instrumented(whole) is Ok,
    ensures
        ({
            let n = to_capture(live(whole)).globals.len() as int;
            let m = if to_capture(live(whole)).memory is Some {
                1int
            } else {
                0int
            };
            let added = added_at_end(instrumented(whole)->Ok_0)->Some_0;
            &&& added.exports.len() == n + m
            &&& added.lifts.len() == n + m
            &&& added.types.len() == n + 2 * m
            &&& added.aliases.len() == n + 2 * m
            &&& added.module.len() == 5
            &&& added.module[0] is Types && added.module[0]->Types_0.len() == n + m
            &&& added.module[1] is Imports
            &&& added.module[2] is Functions && added.module[2]->Functions_0.len() == n + m
            &&& added.module[3] is Exports && added.module[3]->Exports_0.len() == n + 2 * m
            &&& added.module[4] is Code && added.module[4]->Code_0.len() == n + m
        }),
{
}

} // verus!
