//! The instrumented component.
//!
//! A component that keeps to the rules gets one more core module, whose functions read
//! the mutable globals and the memory of the others, and a component function for each
//! of them.  Through these functions the state of an instance can be captured.
//!
//! The function that reads the memory takes eight bytes below the stack pointer for the
//! pair of address and length by which a `list<u8>` is returned.
use vstd::prelude::*;
use vstd::string::StringExecFns;
use crate::encode::{component_bytes, component_fits, encode_component};
use crate::error::InitError;
use crate::fold::{fold, lemma_fold_step, lemma_fold_stop};
use crate::parse::{results, GlobalContent, GlobalDecl};
use crate::survey::{
    has_instance, is_instantiated, survey, surveyed, Exposed, ExposedV, Instantiated, Survey,
    SurveyV,
};
use crate::text::{decimal, to_decimal};
use crate::tree::{read_tree, tree};
use crate::wasm::{
    lemma_views_push, mem_arg, views, Body, BodyV, ComponentSection, ComponentSectionV,
    ComponentType, CoreAlias, CoreAliasV, EntityType, Export, ExportV, ExternKind, FuncExport,
    FuncExportV, FuncType, FuncTypeV, GlobalType, Import, ImportV, InstanceArg, InstanceArgV,
    Instantiation, InstantiationV, Instruction, Lift, MemArg, ModuleSection, ModuleSectionV,
    PrimitiveType, ValueType,
};

verus! {

/// The size of a page of memory.
pub const PAGE_SIZE_BYTES: i32 = 65536;

/// The type of the value of a global, where it holds one.
pub open spec fn value_type(x: ExposedV) -> ValueType {
    match x.content {
        GlobalContent::Value(ty) => ty,
        GlobalContent::Reference => ValueType::I32,
    }
}

/// The component type in which a value is returned.
pub open spec fn primitive(ty: ValueType) -> PrimitiveType {
    match ty {
        ValueType::I32 => PrimitiveType::S32,
        ValueType::I64 => PrimitiveType::S64,
        ValueType::F32 => PrimitiveType::Float32,
        _ => PrimitiveType::Float64,
    }
}

/// The name of the function that reads a global.  Each word of a name in kebab case
/// starts with a letter.
pub open spec fn getter_name(module: u32, index: u32) -> Seq<char> {
    "component-init-get-module"@ + decimal(module as nat) + "-global"@ + decimal(index as nat)
}

/// Writes the name of the function that reads a global.
pub fn global_getter(module: u32, index: u32) -> (name: String)
    ensures
        name@ == getter_name(module, index),
{
    let mut name = String::from_str("component-init-get-module");
    name.append(to_decimal(module as u64).as_str());
    name.append("-global");
    name.append(to_decimal(index as u64).as_str());
    name
}

/// The name of the function that reads the memory.
pub open spec fn memory_getter_name() -> Seq<char> {
    "component-init-get-memory"@
}

/// An exposed global must have a name, and hold a number.
pub open spec fn exposure_step() -> spec_fn((), ExposedV) -> Result<(), InitError> {
    |s: (), x: ExposedV|
        if x.name is None {
            Err(InitError::UnexportedGlobal { module: x.module, index: x.index })
        } else {
            match x.content {
                GlobalContent::Value(ValueType::V128) => Err(InitError::V128Global),
                GlobalContent::Value(_) => Ok(()),
                GlobalContent::Reference => Err(InitError::ReferenceGlobal),
            }
        }
}

fn check_exposed(exposed: &Vec<Exposed>) -> (r: Result<(), InitError>)
    ensures
        r == fold((), views(exposed@), exposure_step()),
{
    let ghost all = views(exposed@);
    let ghost step = exposure_step();
    let mut i: usize = 0;
    while i < exposed.len()
        invariant
            i <= exposed.len(),
            all == views(exposed@),
            step == exposure_step(),
            fold((), all.take(i as int), step) == Ok::<(), InitError>(()),
        decreases exposed.len() - i,
    {
        let x = &exposed[i];
        let checked: Result<(), InitError> = if x.name.is_none() {
            Err(InitError::UnexportedGlobal { module: x.module, index: x.index })
        } else {
            match x.content {
                GlobalContent::Value(ValueType::V128) => Err(InitError::V128Global),
                GlobalContent::Value(_) => Ok(()),
                GlobalContent::Reference => Err(InitError::ReferenceGlobal),
            }
        };
        proof {
            lemma_fold_step((), all, i as int, step);
            if checked is Err {
                lemma_fold_stop((), all, i as int, step);
            }
        }
        match checked {
            Ok(_) => {},
            Err(e) => {
                return Err(e);
            },
        }
        i += 1;
    }
    assert(all.take(i as int) =~= all);
    Ok(())
}

/// An exposed global that can be read by a function.
pub open spec fn readable(x: ExposedV) -> bool {
    &&& x.name is Some
    &&& x.content is Value
    &&& x.content->Value_0 != ValueType::V128
}

/// The check passes if and only if every exposed global can be read.
pub proof fn lemma_readable(exposed: Seq<ExposedV>)
    ensures
        fold((), exposed, exposure_step()) is Ok <==> forall|k: int|
            0 <= k < exposed.len() ==> readable(#[trigger] exposed[k]),
    decreases exposed.len(),
{
    if exposed.len() > 0 {
        let rest = exposed.drop_last();
        lemma_readable(rest);
        assert(fold((), exposed, exposure_step()) is Ok <==> fold((), rest, exposure_step()) is Ok
            && readable(exposed.last()));
        if fold((), exposed, exposure_step()) is Ok {
            assert forall|k: int| 0 <= k < exposed.len() implies readable(
                #[trigger] exposed[k],
            ) by {
                if k < rest.len() {
                    assert(rest[k] == exposed[k]);
                }
            }
        }
        if forall|k: int| 0 <= k < exposed.len() ==> readable(#[trigger] exposed[k]) {
            assert forall|k: int| 0 <= k < rest.len() implies readable(#[trigger] rest[k]) by {
                assert(rest[k] == exposed[k]);
            }
            assert(readable(exposed[exposed.len() - 1]));
        }
    }
}

/// The module whose stack pointer is used: the only one that exports a mutable
/// `__stack_pointer` of type I32, where no other module exports a global of that name.
pub open spec fn stack_module(s: SurveyV) -> Option<u32> {
    if s.stack_pointers.len() == 1 && s.stack_pointers[0].decl == Some(
        GlobalDecl { content: GlobalContent::Value(ValueType::I32), mutable: true },
    ) {
        Some(s.stack_pointers[0].module)
    } else {
        None
    }
}

fn find_stack_module(s: &Survey) -> (r: Option<u32>)
    ensures
        r == stack_module(s@),
{
    if s.stack_pointers.len() != 1 {
        return None;
    }
    match s.stack_pointers[0].decl {
        Some(decl) => if decl.mutable && decl.content == GlobalContent::Value(ValueType::I32) {
            Some(s.stack_pointers[0].module)
        } else {
            None
        },
        None => None,
    }
}

/// The index of the first exposed global that is the stack pointer of the given module,
/// or the number of exposed globals, if none is.
pub open spec fn stack_global(exposed: Seq<ExposedV>, module: u32) -> nat
    decreases exposed.len(),
{
    if exposed.len() == 0 {
        0
    } else {
        let before = stack_global(exposed.drop_last(), module);
        if before < exposed.len() - 1 {
            before
        } else if exposed.last().module == module && exposed.last().name == Some(
            "__stack_pointer"@,
        ) {
            (exposed.len() - 1) as nat
        } else {
            exposed.len()
        }
    }
}

pub proof fn lemma_stack_global(exposed: Seq<ExposedV>, module: u32, i: int)
    requires
        0 <= i <= exposed.len(),
    ensures
        stack_global(exposed.take(i), module) <= i,
        stack_global(exposed.take(i), module) < i ==> stack_global(exposed, module)
            == stack_global(exposed.take(i), module),
    decreases exposed.len(),
{
    if i == exposed.len() {
        assert(exposed.take(i) =~= exposed);
        if i > 0 {
            lemma_stack_global(exposed.drop_last(), module, i - 1);
            assert(exposed.drop_last().take(i - 1) =~= exposed.drop_last());
        }
    } else {
        lemma_stack_global(exposed.drop_last(), module, i);
        assert(exposed.drop_last().take(i) =~= exposed.take(i));
    }
}

fn find_stack_global(exposed: &Vec<Exposed>, module: u32) -> (n: usize)
    ensures
        n == stack_global(views(exposed@), module),
        n <= exposed.len(),
{
    let ghost all = views(exposed@);
    let stack_pointer: String = String::from_str("__stack_pointer");
    let mut i: usize = 0;
    while i < exposed.len()
        invariant
            i <= exposed.len(),
            all == views(exposed@),
            stack_pointer@ == "__stack_pointer"@,
            stack_global(all.take(i as int), module) == i,
        decreases exposed.len() - i,
    {
        proof {
            lemma_stack_global(all, module, i + 1);
            assert(all.take(i + 1).drop_last() =~= all.take(i as int));
            assert(all.take(i + 1).last() == all[i as int]);
        }
        let x = &exposed[i];
        if x.module == module {
            match &x.name {
                Some(name) => {
                    if *name == stack_pointer {
                        return i;
                    }
                },
                None => {},
            }
        }
        i += 1;
    }
    assert(all.take(i as int) =~= all);
    i
}

// The module that reads globals and memory.  Its functions, in order, are one for each
// exposed global and then, if there is a memory, one that reads it.

/// The types of the functions that read globals.
pub open spec fn getter_types(xs: Seq<ExposedV>) -> Seq<FuncTypeV> {
    Seq::new(
        xs.len(),
        |k: int| FuncTypeV { params: seq![], results: seq![value_type(xs[k])] },
    )
}

/// The type of the function that reads the memory.
pub open spec fn memory_getter_type() -> FuncTypeV {
    FuncTypeV { params: seq![], results: seq![ValueType::I32] }
}

/// The imports of the exposed globals, each from the instance given under the number of
/// its module.
pub open spec fn getter_imports(xs: Seq<ExposedV>) -> Seq<ImportV> {
    Seq::new(
        xs.len(),
        |k: int|
            ImportV {
                module: decimal(xs[k].module as nat),
                name: xs[k].name->Some_0,
                ty: EntityType::Global(
                    GlobalType { val_type: value_type(xs[k]), mutable: true },
                ),
            },
    )
}

/// The imports of the memory and of the stack pointer, unless the latter is one of the
/// exposed globals: no import occurs twice.
pub open spec fn memory_imports(s: SurveyV) -> Seq<ImportV> {
    let memory = ImportV {
        module: decimal(s.memory->Some_0.0 as nat),
        name: "memory"@,
        ty: EntityType::Memory(s.memory->Some_0.1),
    };
    let module = stack_module(s)->Some_0;
    if stack_global(s.exposed, module) < s.exposed.len() {
        seq![memory]
    } else {
        seq![
            memory,
            ImportV {
                module: decimal(module as nat),
                name: "__stack_pointer"@,
                ty: EntityType::Global(GlobalType { val_type: ValueType::I32, mutable: true }),
            },
        ]
    }
}

/// The indices from zero up.
pub open spec fn first_indices(n: nat) -> Seq<u32> {
    Seq::new(n, |k: int| k as u32)
}

/// The exports of the functions that read globals.
pub open spec fn getter_exports(xs: Seq<ExposedV>) -> Seq<ExportV> {
    Seq::new(
        xs.len(),
        |k: int|
            ExportV {
                name: getter_name(xs[k].module, xs[k].index),
                kind: ExternKind::Func,
                index: k as u32,
            },
    )
}

/// The exports of the function that reads the memory, and of the memory itself.
pub open spec fn memory_exports(n: nat) -> Seq<ExportV> {
    seq![
        ExportV { name: memory_getter_name(), kind: ExternKind::Func, index: n as u32 },
        ExportV { name: "memory"@, kind: ExternKind::Memory, index: 0 },
    ]
}

/// The bodies of the functions that read globals.
pub open spec fn getter_bodies(n: nat) -> Seq<BodyV> {
    Seq::new(
        n,
        |k: int|
            BodyV {
                locals: seq![],
                code: seq![],
                instructions: seq![Instruction::GlobalGet(k as u32), Instruction::End],
            },
    )
}

/// Takes eight bytes of stack, writes there the address zero and the size of the memory
/// in bytes, and returns where they are.
pub open spec fn memory_getter_body(stack: u32) -> BodyV {
    BodyV {
        locals: seq![ValueType::I32],
        code: seq![],
        instructions: seq![
            Instruction::GlobalGet(stack),
            Instruction::I32Const(8),
            Instruction::I32Sub,
            Instruction::LocalTee(0),
            Instruction::I32Const(0),
            Instruction::I32Store(MemArg { offset: 0, align: 2, memory_index: 0 }),
            Instruction::LocalGet(0),
            Instruction::MemorySize(0),
            Instruction::I32Const(PAGE_SIZE_BYTES),
            Instruction::I32Mul,
            Instruction::I32Store(MemArg { offset: 4, align: 2, memory_index: 0 }),
            Instruction::LocalGet(0),
            Instruction::End,
        ],
    }
}

/// What the memory adds, if there is one.
pub open spec fn if_memory<T>(s: SurveyV, more: Seq<T>) -> Seq<T> {
    if s.memory is Some {
        more
    } else {
        seq![]
    }
}

/// The sections of the module that reads globals and memory.
pub open spec fn getter_module(s: SurveyV) -> Seq<ModuleSectionV> {
    let n = s.exposed.len();
    let stack = stack_global(s.exposed, stack_module(s)->Some_0) as u32;
    seq![
        ModuleSectionV::Types(
            getter_types(s.exposed) + if_memory(s, seq![memory_getter_type()]),
        ),
        ModuleSectionV::Imports(getter_imports(s.exposed) + if_memory(s, memory_imports(s))),
        ModuleSectionV::Functions(first_indices(n) + if_memory(s, seq![n as u32])),
        ModuleSectionV::Exports(getter_exports(s.exposed) + if_memory(s, memory_exports(n))),
        ModuleSectionV::Code(getter_bodies(n) + if_memory(s, seq![memory_getter_body(stack)])),
    ]
}

/// The instances given to the module, each under the number of its module.
pub open spec fn getter_args(instantiations: Seq<Instantiated>) -> Seq<InstanceArgV> {
    Seq::new(
        instantiations.len(),
        |k: int|
            InstanceArgV {
                name: decimal(instantiations[k].module as nat),
                instance: instantiations[k].instance,
            },
    )
}

// The component functions, in the same order.

/// The types of the functions that return globals.
pub open spec fn component_getter_types(xs: Seq<ExposedV>) -> Seq<ComponentType> {
    Seq::new(xs.len(), |k: int| ComponentType::Getter(primitive(value_type(xs[k]))))
}

/// The types for the memory: a list of bytes, which comes first of the two and so has
/// the index after those of the other functions, and the function that returns one.
pub open spec fn memory_types(s: SurveyV) -> Seq<ComponentType> {
    seq![
        ComponentType::List(PrimitiveType::U8),
        ComponentType::DefinedGetter((s.counts.types + s.exposed.len()) as u32),
    ]
}

/// The aliases of the functions that read globals.
pub open spec fn getter_aliases(s: SurveyV) -> Seq<CoreAliasV> {
    Seq::new(
        s.exposed.len(),
        |k: int|
            CoreAliasV {
                instance: s.counts.instances,
                kind: ExternKind::Func,
                name: getter_name(s.exposed[k].module, s.exposed[k].index),
            },
    )
}

/// The aliases of the function that reads the memory, and of the memory.
pub open spec fn memory_aliases(s: SurveyV) -> Seq<CoreAliasV> {
    seq![
        CoreAliasV {
            instance: s.counts.instances,
            kind: ExternKind::Func,
            name: memory_getter_name(),
        },
        CoreAliasV { instance: s.counts.instances, kind: ExternKind::Memory, name: "memory"@ },
    ]
}

/// The functions that return globals, lifted from those that read them.
pub open spec fn getter_lifts(s: SurveyV) -> Seq<Lift> {
    Seq::new(
        s.exposed.len(),
        |k: int|
            Lift {
                core_function: (s.counts.core_functions + k) as u32,
                ty: (s.counts.types + k) as u32,
                memory: None,
            },
    )
}

/// The function that returns the memory.
pub open spec fn memory_lift(s: SurveyV) -> Lift {
    Lift {
        core_function: (s.counts.core_functions + s.exposed.len()) as u32,
        ty: (s.counts.types + s.exposed.len() + 1) as u32,
        memory: Some(s.counts.core_memories),
    }
}

/// The exports of the functions that return globals.
pub open spec fn component_getter_exports(s: SurveyV) -> Seq<FuncExportV> {
    Seq::new(
        s.exposed.len(),
        |k: int|
            FuncExportV {
                name: getter_name(s.exposed[k].module, s.exposed[k].index),
                function: (s.counts.functions + k) as u32,
            },
    )
}

/// The export of the function that returns the memory.
pub open spec fn memory_export(s: SurveyV) -> FuncExportV {
    FuncExportV {
        name: memory_getter_name(),
        function: (s.counts.functions + s.exposed.len()) as u32,
    }
}

/// The sections that instrumentation adds.
pub open spec fn added_sections(s: SurveyV) -> Seq<ComponentSectionV> {
    seq![
        ComponentSectionV::Module(getter_module(s)),
        ComponentSectionV::Instances(
            seq![
                InstantiationV { module: s.counts.modules, args: getter_args(s.instantiations) },
            ],
        ),
        ComponentSectionV::Types(
            component_getter_types(s.exposed) + if_memory(s, memory_types(s)),
        ),
        ComponentSectionV::Aliases(getter_aliases(s) + if_memory(s, memory_aliases(s))),
        ComponentSectionV::Lifts(getter_lifts(s) + if_memory(s, seq![memory_lift(s)])),
        ComponentSectionV::Exports(
            component_getter_exports(s) + if_memory(s, seq![memory_export(s)]),
        ),
    ]
}

/// How many functions instrumentation adds.
pub open spec fn added_functions(s: SurveyV) -> nat {
    s.exposed.len() + if_memory(s, seq![()]).len()
}

/// How many types instrumentation adds to the component.
pub open spec fn added_types(s: SurveyV) -> nat {
    s.exposed.len() + if_memory(s, seq![(), ()]).len()
}

/// The highest index that instrumentation adds to each index space is an index, and a
/// section can hold what is added.
pub open spec fn has_room(s: SurveyV) -> bool {
    &&& added_types(s) <= u32::MAX
    &&& added_types(s) > 0 ==> s.counts.types + added_types(s) - 1 <= u32::MAX
    &&& added_functions(s) > 0 ==> s.counts.core_functions + added_functions(s) - 1 <= u32::MAX
    &&& added_functions(s) > 0 ==> s.counts.functions + added_functions(s) - 1 <= u32::MAX
}

/// The exposed globals of modules that have an instance: the others have no state.
pub open spec fn live_globals(xs: Seq<ExposedV>, instantiations: Seq<Instantiated>) -> Seq<ExposedV>
    decreases xs.len(),
{
    if xs.len() == 0 {
        seq![]
    } else {
        let rest = live_globals(xs.drop_last(), instantiations);
        if has_instance(instantiations, xs.last().module) {
            rest.push(xs.last())
        } else {
            rest
        }
    }
}

/// The survey without the globals and the memory of modules that have no instance.
pub open spec fn live(s: SurveyV) -> SurveyV {
    SurveyV {
        exposed: live_globals(s.exposed, s.instantiations),
        memory: match s.memory {
            Some((module, ty)) => if has_instance(s.instantiations, module) {
                Some((module, ty))
            } else {
                None
            },
            None => None,
        },
        ..s
    }
}

/// The stack pointer that reading the memory takes is missing: no module may be it, or the
/// one that is has no instance, though the memory has.
pub open spec fn lacks_stack_pointer(s: SurveyV) -> bool {
    match stack_module(s) {
        Some(module) => live(s).memory is Some && !has_instance(s.instantiations, module),
        None => s.memory is Some,
    }
}

/// The sections of the instrumented component.
pub open spec fn instrumented(s: SurveyV) -> Result<Seq<ComponentSectionV>, InitError> {
    match fold((), s.exposed, exposure_step()) {
        Ok(_) => if s.reference_global {
            Err(InitError::ReferenceGlobal)
        } else if lacks_stack_pointer(s) {
            Err(InitError::StackPointer)
        } else if !has_room(live(s)) {
            Err(InitError::TooMany)
        } else {
            Ok(s.sections + added_sections(live(s)))
        },
        Err(e) => Err(e),
    }
}

/// Whether an exposed global is among those of modules that have an instance, and in
/// their order.
pub proof fn lemma_live_globals(xs: Seq<ExposedV>, instantiations: Seq<Instantiated>)
    ensures
        live_globals(xs, instantiations).len() <= xs.len(),
        forall|k: int|
            0 <= k < live_globals(xs, instantiations).len() ==> xs.contains(
                #[trigger] live_globals(xs, instantiations)[k],
            ) && has_instance(instantiations, live_globals(xs, instantiations)[k].module),
        forall|j: int|
            0 <= j < xs.len() && has_instance(instantiations, (#[trigger] xs[j]).module)
                ==> live_globals(xs, instantiations).contains(xs[j]),
    decreases xs.len(),
{
    if xs.len() > 0 {
        let rest = xs.drop_last();
        let fewer = live_globals(rest, instantiations);
        let all = live_globals(xs, instantiations);
        lemma_live_globals(rest, instantiations);
        assert forall|k: int| 0 <= k < all.len() implies xs.contains(#[trigger] all[k])
            && has_instance(instantiations, all[k].module) by {
            if k < fewer.len() {
                assert(all[k] == fewer[k]);
                let j = choose|j: int| 0 <= j < rest.len() && rest[j] == fewer[k];
                assert(xs[j] == fewer[k]);
            } else {
                assert(xs[xs.len() - 1] == all[k]);
            }
        }
        assert forall|j: int|
            0 <= j < xs.len() && has_instance(
                instantiations,
                (#[trigger] xs[j]).module,
            ) implies all.contains(xs[j]) by {
            if j < rest.len() {
                assert(rest[j] == xs[j]);
                let k = choose|k: int| 0 <= k < fewer.len() && fewer[k] == rest[j];
                assert(all[k] == xs[j]);
            } else {
                assert(all[all.len() - 1] == xs[j]);
            }
        }
    }
}

/// Where every exposed global can be read, so can those of modules that have an instance.
pub proof fn lemma_live_readable(s: SurveyV)
    requires
        fold((), s.exposed, exposure_step()) is Ok,
    ensures
        forall|k: int| 0 <= k < live(s).exposed.len() ==> readable(#[trigger] live(s).exposed[k]),
{
    lemma_readable(s.exposed);
    lemma_live_globals(s.exposed, s.instantiations);
    let xs = live(s).exposed;
    assert forall|k: int| 0 <= k < xs.len() implies readable(#[trigger] xs[k]) by {
        assert(s.exposed.contains(xs[k]));
        let j = choose|j: int| 0 <= j < s.exposed.len() && s.exposed[j] == xs[k];
        assert(readable(s.exposed[j]));
    }
}

fn keep_live<'a>(s: &Survey<'a>) -> (xs: Vec<Exposed>)
    ensures
        views(xs@) == live_globals(views(s.exposed@), s.instantiations@),
{
    let ghost all = views(s.exposed@);
    let mut xs: Vec<Exposed> = Vec::new();
    assert(views(xs@) =~= live_globals(all.take(0), s.instantiations@));
    let mut i: usize = 0;
    while i < s.exposed.len()
        invariant
            i <= s.exposed.len(),
            all == views(s.exposed@),
            views(xs@) == live_globals(all.take(i as int), s.instantiations@),
        decreases s.exposed.len() - i,
    {
        let x = &s.exposed[i];
        assert(all.take(i + 1).drop_last() =~= all.take(i as int));
        assert(all.take(i + 1).last() == s.exposed@[i as int]@);
        if is_instantiated(&s.instantiations, x.module) {
            let name = match &x.name {
                Some(name) => Some(name.clone()),
                None => None,
            };
            let copy = Exposed { module: x.module, index: x.index, name, content: x.content };
            assert(copy@ == x@);
            proof {
                lemma_views_push(xs@, copy);
            }
            xs.push(copy);
        }
        i += 1;
    }
    assert(all.take(i as int) =~= all);
    xs
}

fn type_of(x: &Exposed) -> (ty: ValueType)
    ensures
        ty == value_type(x@),
{
    match x.content {
        GlobalContent::Value(ty) => ty,
        GlobalContent::Reference => ValueType::I32,
    }
}

fn primitive_of(ty: ValueType) -> (p: PrimitiveType)
    ensures
        p == primitive(ty),
{
    match ty {
        ValueType::I32 => PrimitiveType::S32,
        ValueType::I64 => PrimitiveType::S64,
        ValueType::F32 => PrimitiveType::Float32,
        _ => PrimitiveType::Float64,
    }
}

fn build_getter_types(exposed: &Vec<Exposed>) -> (items: Vec<FuncType>)
    ensures
        views(items@) == getter_types(views(exposed@)),
{
    let n: usize = exposed.len();
    let mut items: Vec<FuncType> = Vec::new();
    assert(views(items@) =~= getter_types(views(exposed@)).take(0));
    let mut i: usize = 0;
    while i < n
        invariant
            i <= n,
            n == exposed.len(),
            views(items@) == getter_types(views(exposed@)).take(i as int),
        decreases n - i,
    {
        let item = FuncType { params: vec![], results: vec![type_of(&exposed[i])] };
        assert(item@.params =~= seq![]);
        assert(item@.results =~= seq![value_type(exposed@[i as int]@)]);
        proof {
            lemma_views_push(items@, item);
            assert(getter_types(views(exposed@)).take(i + 1)
                =~= getter_types(views(exposed@)).take(i as int).push(item@));
        }
        items.push(item);
        i += 1;
    }
    assert(getter_types(views(exposed@)).take(i as int) =~= getter_types(views(exposed@)));
    items
}

fn build_getter_imports(exposed: &Vec<Exposed>) -> (items: Vec<Import>)
    requires
        forall|k: int| 0 <= k < exposed@.len() ==> readable((#[trigger] exposed@[k])@),
    ensures
        views(items@) == getter_imports(views(exposed@)),
{
    let n: usize = exposed.len();
    let mut items: Vec<Import> = Vec::new();
    assert(views(items@) =~= getter_imports(views(exposed@)).take(0));
    let mut i: usize = 0;
    while i < n
        invariant
            i <= n,
            n == exposed.len(),
            forall|k: int| 0 <= k < exposed@.len() ==> readable((#[trigger] exposed@[k])@),
            views(items@) == getter_imports(views(exposed@)).take(i as int),
        decreases n - i,
    {
        let x = &exposed[i];
        assert(readable(exposed@[i as int]@));
        let name = match &x.name {
            Some(name) => name.clone(),
            None => String::new(),
        };
        let item = Import {
            module: to_decimal(x.module as u64),
            name,
            ty: EntityType::Global(GlobalType { val_type: type_of(x), mutable: true }),
        };
        proof {
            lemma_views_push(items@, item);
            assert(getter_imports(views(exposed@)).take(i + 1)
                =~= getter_imports(views(exposed@)).take(i as int).push(item@));
        }
        items.push(item);
        i += 1;
    }
    assert(getter_imports(views(exposed@)).take(i as int) =~= getter_imports(views(exposed@)));
    items
}

fn build_first_indices(count: u32) -> (items: Vec<u32>)
    ensures
        views(items@) == first_indices(count as nat),
{
    let n: usize = count as usize;
    let mut items: Vec<u32> = Vec::new();
    assert(views(items@) =~= first_indices(count as nat).take(0));
    let mut i: usize = 0;
    while i < n
        invariant
            i <= n,
            n == count,
            views(items@) == first_indices(count as nat).take(i as int),
        decreases n - i,
    {
        let item: u32 = i as u32;
        proof {
            lemma_views_push(items@, item);
            assert(first_indices(count as nat).take(i + 1)
                =~= first_indices(count as nat).take(i as int).push(item@));
        }
        items.push(item);
        i += 1;
    }
    assert(first_indices(count as nat).take(i as int) =~= first_indices(count as nat));
    items
}

fn build_getter_exports(exposed: &Vec<Exposed>) -> (items: Vec<Export>)
    requires
        exposed@.len() <= u32::MAX,
    ensures
        views(items@) == getter_exports(views(exposed@)),
{
    let n: usize = exposed.len();
    let mut items: Vec<Export> = Vec::new();
    assert(views(items@) =~= getter_exports(views(exposed@)).take(0));
    let mut i: usize = 0;
    while i < n
        invariant
            i <= n,
            n == exposed.len(),
            n <= u32::MAX,
            views(items@) == getter_exports(views(exposed@)).take(i as int),
        decreases n - i,
    {
        let item = Export {
            name: global_getter(exposed[i].module, exposed[i].index),
            kind: ExternKind::Func,
            index: i as u32,
        };
        proof {
            lemma_views_push(items@, item);
            assert(getter_exports(views(exposed@)).take(i + 1)
                =~= getter_exports(views(exposed@)).take(i as int).push(item@));
        }
        items.push(item);
        i += 1;
    }
    assert(getter_exports(views(exposed@)).take(i as int) =~= getter_exports(views(exposed@)));
    items
}

fn build_getter_bodies(count: u32) -> (items: Vec<Body>)
    ensures
        views(items@) == getter_bodies(count as nat),
{
    let n: usize = count as usize;
    let mut items: Vec<Body> = Vec::new();
    assert(views(items@) =~= getter_bodies(count as nat).take(0));
    let mut i: usize = 0;
    while i < n
        invariant
            i <= n,
            n == count,
            views(items@) == getter_bodies(count as nat).take(i as int),
        decreases n - i,
    {
        let item = Body {
            locals: vec![],
            code: vec![],
            instructions: vec![Instruction::GlobalGet(i as u32), Instruction::End],
        };
        assert(item@.locals =~= seq![]);
        assert(item@.code =~= seq![]);
        assert(item@.instructions =~= seq![Instruction::GlobalGet(i as u32), Instruction::End]);
        proof {
            lemma_views_push(items@, item);
            assert(getter_bodies(count as nat).take(i + 1)
                =~= getter_bodies(count as nat).take(i as int).push(item@));
        }
        items.push(item);
        i += 1;
    }
    assert(getter_bodies(count as nat).take(i as int) =~= getter_bodies(count as nat));
    items
}

fn build_getter_args(instantiations: &Vec<Instantiated>) -> (items: Vec<InstanceArg>)
    ensures
        views(items@) == getter_args(instantiations@),
{
    let n: usize = instantiations.len();
    let mut items: Vec<InstanceArg> = Vec::new();
    assert(views(items@) =~= getter_args(instantiations@).take(0));
    let mut i: usize = 0;
    while i < n
        invariant
            i <= n,
            n == instantiations.len(),
            views(items@) == getter_args(instantiations@).take(i as int),
        decreases n - i,
    {
        let item = InstanceArg {
            name: to_decimal(instantiations[i].module as u64),
            instance: instantiations[i].instance,
        };
        proof {
            lemma_views_push(items@, item);
            assert(getter_args(instantiations@).take(i + 1)
                =~= getter_args(instantiations@).take(i as int).push(item@));
        }
        items.push(item);
        i += 1;
    }
    assert(getter_args(instantiations@).take(i as int) =~= getter_args(instantiations@));
    items
}

fn build_component_getter_types(exposed: &Vec<Exposed>) -> (items: Vec<ComponentType>)
    ensures
        views(items@) == component_getter_types(views(exposed@)),
{
    let n: usize = exposed.len();
    let mut items: Vec<ComponentType> = Vec::new();
    assert(views(items@) =~= component_getter_types(views(exposed@)).take(0));
    let mut i: usize = 0;
    while i < n
        invariant
            i <= n,
            n == exposed.len(),
            views(items@) == component_getter_types(views(exposed@)).take(i as int),
        decreases n - i,
    {
        let item = ComponentType::Getter(primitive_of(type_of(&exposed[i])));
        proof {
            lemma_views_push(items@, item);
            assert(component_getter_types(views(exposed@)).take(i + 1)
                =~= component_getter_types(views(exposed@)).take(i as int).push(item@));
        }
        items.push(item);
        i += 1;
    }
    assert(component_getter_types(views(exposed@)).take(i as int)
        =~= component_getter_types(views(exposed@)));
    items
}

fn build_getter_aliases(s: &Survey) -> (items: Vec<CoreAlias>)
    ensures
        views(items@) == getter_aliases(s@),
{
    let n: usize = s.exposed.len();
    let mut items: Vec<CoreAlias> = Vec::new();
    assert(views(items@) =~= getter_aliases(s@).take(0));
    let mut i: usize = 0;
    while i < n
        invariant
            i <= n,
            n == s.exposed.len(),
            views(items@) == getter_aliases(s@).take(i as int),
        decreases n - i,
    {
        let item = CoreAlias {
            instance: s.counts.instances,
            kind: ExternKind::Func,
            name: global_getter(s.exposed[i].module, s.exposed[i].index),
        };
        proof {
            lemma_views_push(items@, item);
            assert(getter_aliases(s@).take(i + 1)
                =~= getter_aliases(s@).take(i as int).push(item@));
        }
        items.push(item);
        i += 1;
    }
    assert(getter_aliases(s@).take(i as int) =~= getter_aliases(s@));
    items
}

fn build_getter_lifts(s: &Survey) -> (items: Vec<Lift>)
    requires
        has_room(s@),
    ensures
        views(items@) == getter_lifts(s@),
{
    let n: usize = s.exposed.len();
    let mut items: Vec<Lift> = Vec::new();
    assert(views(items@) =~= getter_lifts(s@).take(0));
    let mut i: usize = 0;
    while i < n
        invariant
            i <= n,
            n == s.exposed.len(),
            has_room(s@),
            views(items@) == getter_lifts(s@).take(i as int),
        decreases n - i,
    {
        let item = Lift {
            core_function: s.counts.core_functions + i as u32,
            ty: s.counts.types + i as u32,
            memory: None,
        };
        proof {
            lemma_views_push(items@, item);
            assert(getter_lifts(s@).take(i + 1) =~= getter_lifts(s@).take(i as int).push(item@));
        }
        items.push(item);
        i += 1;
    }
    assert(getter_lifts(s@).take(i as int) =~= getter_lifts(s@));
    items
}

fn build_component_getter_exports(s: &Survey) -> (items: Vec<FuncExport>)
    requires
        has_room(s@),
    ensures
        views(items@) == component_getter_exports(s@),
{
    let n: usize = s.exposed.len();
    let mut items: Vec<FuncExport> = Vec::new();
    assert(views(items@) =~= component_getter_exports(s@).take(0));
    let mut i: usize = 0;
    while i < n
        invariant
            i <= n,
            n == s.exposed.len(),
            has_room(s@),
            views(items@) == component_getter_exports(s@).take(i as int),
        decreases n - i,
    {
        let item = FuncExport {
            name: global_getter(s.exposed[i].module, s.exposed[i].index),
            function: s.counts.functions + i as u32,
        };
        proof {
            lemma_views_push(items@, item);
            assert(component_getter_exports(s@).take(i + 1)
                =~= component_getter_exports(s@).take(i as int).push(item@));
        }
        items.push(item);
        i += 1;
    }
    assert(component_getter_exports(s@).take(i as int) =~= component_getter_exports(s@));
    items
}

fn build_memory_body(stack: u32) -> (body: Body)
    ensures
        body@ == memory_getter_body(stack),
{
    let body = Body {
        locals: vec![ValueType::I32],
        code: vec![],
        instructions: vec![
            Instruction::GlobalGet(stack),
            Instruction::I32Const(8),
            Instruction::I32Sub,
            Instruction::LocalTee(0),
            Instruction::I32Const(0),
            Instruction::I32Store(mem_arg(0, 2)),
            Instruction::LocalGet(0),
            Instruction::MemorySize(0),
            Instruction::I32Const(PAGE_SIZE_BYTES),
            Instruction::I32Mul,
            Instruction::I32Store(mem_arg(4, 2)),
            Instruction::LocalGet(0),
            Instruction::End,
        ],
    };
    assert(body@.locals =~= memory_getter_body(stack).locals);
    assert(body@.code =~= memory_getter_body(stack).code);
    assert(body@.instructions =~= memory_getter_body(stack).instructions);
    body
}

fn build_getter_module<'a>(s: &Survey) -> (sections: Vec<ModuleSection<'a>>)
    requires
        has_room(s@),
        forall|k: int| 0 <= k < s.exposed@.len() ==> readable((#[trigger] s.exposed@[k])@),
        s.memory is Some ==> stack_module(s@) is Some,
    ensures
        views(sections@) == getter_module(s@),
{
    let count: u32 = s.exposed.len() as u32;
    let mut types = build_getter_types(&s.exposed);
    let mut imports = build_getter_imports(&s.exposed);
    let mut functions = build_first_indices(count);
    let mut exports = build_getter_exports(&s.exposed);
    let mut bodies = build_getter_bodies(count);
    let ghost all = getter_module(s@);
    match (s.memory, find_stack_module(s)) {
        (Some((module, ty)), Some(stack)) => {
            let global: usize = find_stack_global(&s.exposed, stack);
            let getter = FuncType { params: vec![], results: vec![ValueType::I32] };
            assert(getter@.params =~= seq![]);
            assert(getter@.results =~= seq![ValueType::I32]);
            proof {
                lemma_views_push(types@, getter);
            }
            types.push(getter);
            let memory = Import {
                module: to_decimal(module as u64),
                name: String::from_str("memory"),
                ty: EntityType::Memory(ty),
            };
            proof {
                lemma_views_push(imports@, memory);
            }
            imports.push(memory);
            if global == s.exposed.len() {
                let pointer = Import {
                    module: to_decimal(stack as u64),
                    name: String::from_str("__stack_pointer"),
                    ty: EntityType::Global(
                        GlobalType { val_type: ValueType::I32, mutable: true },
                    ),
                };
                proof {
                    lemma_views_push(imports@, pointer);
                }
                imports.push(pointer);
            }
            proof {
                lemma_views_push(functions@, count);
            }
            functions.push(count);
            let export = Export {
                name: String::from_str("component-init-get-memory"),
                kind: ExternKind::Func,
                index: count,
            };
            proof {
                lemma_views_push(exports@, export);
            }
            exports.push(export);
            let export = Export {
                name: String::from_str("memory"),
                kind: ExternKind::Memory,
                index: 0,
            };
            proof {
                lemma_views_push(exports@, export);
            }
            exports.push(export);
            let body = build_memory_body(global as u32);
            proof {
                lemma_views_push(bodies@, body);
            }
            bodies.push(body);
        },
        _ => {},
    }
    assert(ModuleSectionV::Types(views(types@)) == all[0]) by {
        assert(views(types@) =~= all[0]->Types_0);
    }
    assert(ModuleSectionV::Imports(views(imports@)) == all[1]) by {
        assert(views(imports@) =~= all[1]->Imports_0);
    }
    assert(ModuleSectionV::Functions(views(functions@)) == all[2]) by {
        assert(views(functions@) =~= all[2]->Functions_0);
    }
    assert(ModuleSectionV::Exports(views(exports@)) == all[3]) by {
        assert(views(exports@) =~= all[3]->Exports_0);
    }
    assert(ModuleSectionV::Code(views(bodies@)) == all[4]) by {
        assert(views(bodies@) =~= all[4]->Code_0);
    }
    let sections = vec![
        ModuleSection::Types(types),
        ModuleSection::Imports(imports),
        ModuleSection::Functions(functions),
        ModuleSection::Exports(exports),
        ModuleSection::Code(bodies),
    ];
    assert(views(sections@) =~= all);
    sections
}

fn build_added_sections<'a>(s: &Survey) -> (sections: Vec<ComponentSection<'a>>)
    requires
        has_room(s@),
        forall|k: int| 0 <= k < s.exposed@.len() ==> readable((#[trigger] s.exposed@[k])@),
        s.memory is Some ==> stack_module(s@) is Some,
    ensures
        views(sections@) == added_sections(s@),
{
    let count: u32 = s.exposed.len() as u32;
    let ghost all = added_sections(s@);
    let module = build_getter_module(s);
    let instance = Instantiation {
        module: s.counts.modules,
        args: build_getter_args(&s.instantiations),
    };
    let instances = vec![instance];
    let mut types = build_component_getter_types(&s.exposed);
    let mut aliases = build_getter_aliases(s);
    let mut lifts = build_getter_lifts(s);
    let mut exports = build_component_getter_exports(s);
    if s.memory.is_some() {
        let list = ComponentType::List(PrimitiveType::U8);
        let getter = ComponentType::DefinedGetter(s.counts.types + count);
        proof {
            lemma_views_push(types@, list);
            lemma_views_push(types@.push(list), getter);
        }
        types.push(list);
        types.push(getter);
        let function = CoreAlias {
            instance: s.counts.instances,
            kind: ExternKind::Func,
            name: String::from_str("component-init-get-memory"),
        };
        let memory = CoreAlias {
            instance: s.counts.instances,
            kind: ExternKind::Memory,
            name: String::from_str("memory"),
        };
        proof {
            lemma_views_push(aliases@, function);
            lemma_views_push(aliases@.push(function), memory);
        }
        aliases.push(function);
        aliases.push(memory);
        let lift = Lift {
            core_function: s.counts.core_functions + count,
            ty: s.counts.types + count + 1,
            memory: Some(s.counts.core_memories),
        };
        proof {
            lemma_views_push(lifts@, lift);
        }
        lifts.push(lift);
        let export = FuncExport {
            name: String::from_str("component-init-get-memory"),
            function: s.counts.functions + count,
        };
        proof {
            lemma_views_push(exports@, export);
        }
        exports.push(export);
    }
    assert(ComponentSectionV::Instances(views(instances@)) == all[1]) by {
        assert(views(instances@) =~= all[1]->Instances_0);
    }
    assert(ComponentSectionV::Types(views(types@)) == all[2]) by {
        assert(views(types@) =~= all[2]->Types_0);
    }
    assert(ComponentSectionV::Aliases(views(aliases@)) == all[3]) by {
        assert(views(aliases@) =~= all[3]->Aliases_0);
    }
    assert(ComponentSectionV::Lifts(views(lifts@)) == all[4]) by {
        assert(views(lifts@) =~= all[4]->Lifts_0);
    }
    assert(ComponentSectionV::Exports(views(exports@)) == all[5]) by {
        assert(views(exports@) =~= all[5]->Exports_0);
    }
    let sections = vec![
        ComponentSection::Module(module),
        ComponentSection::Instances(instances),
        ComponentSection::Types(types),
        ComponentSection::Aliases(aliases),
        ComponentSection::Lifts(lifts),
        ComponentSection::Exports(exports),
    ];
    assert(views(sections@) =~= all);
    sections
}

/// The function that is exported for an exposed global of a module with an instance returns
/// that global: it is lifted
/// from the core function of the same name, in the type of the global, and that function
/// reads what is imported from the instance of the module that defines the global.
pub proof fn law_getter_returns_its_global(whole: SurveyV, k: int)
    requires
        instrumented(whole) is Ok,
        0 <= k < live(whole).exposed.len(),
    ensures
        ({
            let s = live(whole);
            let x = s.exposed[k];
            let added = added_sections(s);
            let export = added[5]->Exports_0[k];
            let lift = added[4]->Lifts_0[export.function - s.counts.functions];
            let alias = added[3]->Aliases_0[lift.core_function - s.counts.core_functions];
            let module = getter_module(s);
            let core_export = module[3]->Exports_0[k];
            let function = core_export.index as int;
            let body = module[4]->Code_0[function];
            let import = module[1]->Imports_0[k];
            &&& added[0] == ComponentSectionV::Module(module)
            &&& export.name == getter_name(x.module, x.index)
            &&& alias.instance == s.counts.instances
            &&& alias.kind == ExternKind::Func
            &&& alias.name == core_export.name
            &&& core_export.kind == ExternKind::Func
            &&& core_export.name == export.name
            &&& added[2]->Types_0[lift.ty - s.counts.types] == ComponentType::Getter(
                primitive(value_type(x)),
            )
            &&& module[0]->Types_0[module[2]->Functions_0[function] as int].results
                == seq![value_type(x)]
            &&& body.instructions == seq![Instruction::GlobalGet(k as u32), Instruction::End]
            &&& import.module == decimal(x.module as nat)
            &&& x.name == Some(import.name)
            &&& import.ty == EntityType::Global(
                GlobalType { val_type: value_type(x), mutable: true },
            )
        }),
{
    let s = live(whole);
    lemma_live_readable(whole);
    assert(readable(s.exposed[k]));
}

/// The function that is exported for the memory returns it: it is lifted from the core
/// function that describes the memory, as a list of bytes that lies in that memory.
pub proof fn law_getter_returns_memory(whole: SurveyV)
    requires
        instrumented(whole) is Ok,
        live(whole).memory is Some,
    ensures
        ({
            let s = live(whole);
            let n = s.exposed.len() as int;
            let added = added_sections(s);
            let export = added[5]->Exports_0[n];
            let lift = added[4]->Lifts_0[export.function - s.counts.functions];
            let alias = added[3]->Aliases_0[lift.core_function - s.counts.core_functions];
            let types = added[2]->Types_0;
            let module = getter_module(s);
            let core_export = module[3]->Exports_0[n];
            let stack = stack_global(s.exposed, stack_module(s)->Some_0);
            &&& export.name == memory_getter_name()
            &&& alias.name == core_export.name
            &&& alias.kind == ExternKind::Func
            &&& core_export == (ExportV {
                name: export.name,
                kind: ExternKind::Func,
                index: n as u32,
            })
            &&& types[lift.ty - s.counts.types] matches ComponentType::DefinedGetter(list)
                && types[list - s.counts.types] == ComponentType::List(PrimitiveType::U8)
            &&& lift.memory == Some(s.counts.core_memories)
            &&& added[3]->Aliases_0[n + 1] == (CoreAliasV {
                instance: s.counts.instances,
                kind: ExternKind::Memory,
                name: "memory"@,
            })
            &&& module[3]->Exports_0[n + 1] == (ExportV {
                name: "memory"@,
                kind: ExternKind::Memory,
                index: 0,
            })
            &&& module[4]->Code_0[n] == memory_getter_body(stack as u32)
            &&& stack <= n
            &&& module[1]->Imports_0[n] == (ImportV {
                module: decimal(s.memory->Some_0.0 as nat),
                name: "memory"@,
                ty: EntityType::Memory(s.memory->Some_0.1),
            })
        }),
{
    let s = live(whole);
    lemma_stack_global(s.exposed, stack_module(s)->Some_0, s.exposed.len() as int);
    assert(s.exposed.take(s.exposed.len() as int) =~= s.exposed);
}

/// An instance is given under the name.
pub open spec fn is_given(args: Seq<InstanceArgV>, name: Seq<char>) -> bool {
    exists|i: int| 0 <= i < args.len() && (#[trigger] args[i]).name == name
}

proof fn lemma_given(instantiations: Seq<Instantiated>, module: u32)
    requires
        has_instance(instantiations, module),
    ensures
        is_given(getter_args(instantiations), decimal(module as nat)),
{
    let i = choose|i: int|
        0 <= i < instantiations.len() && (#[trigger] instantiations[i]).module == module;
    assert(getter_args(instantiations)[i].name == decimal(module as nat));
}

/// The module that reads globals and memory imports only from instances that it is given.
pub proof fn law_imports_are_given(whole: SurveyV, k: int)
    requires
        instrumented(whole) is Ok,
        0 <= k < getter_module(live(whole))[1]->Imports_0.len(),
    ensures
        is_given(
            getter_args(whole.instantiations),
            getter_module(live(whole))[1]->Imports_0[k].module,
        ),
{
    let s = live(whole);
    lemma_live_globals(whole.exposed, whole.instantiations);
    if k < s.exposed.len() {
        lemma_given(whole.instantiations, s.exposed[k].module);
    } else {
        lemma_given(whole.instantiations, s.memory->Some_0.0);
        lemma_given(whole.instantiations, stack_module(whole)->Some_0);
    }
}

/// A global whose value is to be captured.
#[derive(Clone, Copy, Debug, PartialEq, Eq, Structural)]
pub struct CapturedGlobal {
    pub module: u32,
    pub index: u32,
    pub ty: ValueType,
}

/// What is to be captured: the globals, by module and index, and the memory, given by
/// the module that defines it.
#[derive(Debug, PartialEq, Eq)]
pub struct Capture {
    pub globals: Vec<CapturedGlobal>,
    pub memory: Option<u32>,
}

pub struct CaptureV {
    pub globals: Seq<CapturedGlobal>,
    pub memory: Option<u32>,
}

impl View for Capture {
    type V = CaptureV;

    open spec fn view(&self) -> CaptureV {
        CaptureV { globals: self.globals@, memory: self.memory }
    }
}

/// What is to be captured of a surveyed component.
pub open spec fn to_capture(s: SurveyV) -> CaptureV {
    CaptureV {
        globals: Seq::new(
            s.exposed.len(),
            |k: int|
                CapturedGlobal {
                    module: s.exposed[k].module,
                    index: s.exposed[k].index,
                    ty: value_type(s.exposed[k]),
                },
        ),
        memory: match s.memory {
            Some((module, _)) => Some(module),
            None => None,
        },
    }
}

fn build_capture(s: &Survey) -> (c: Capture)
    ensures
        c@ == to_capture(s@),
{
    let ghost all = to_capture(s@).globals;
    let mut globals: Vec<CapturedGlobal> = Vec::new();
    let mut i: usize = 0;
    while i < s.exposed.len()
        invariant
            i <= s.exposed.len(),
            all == to_capture(s@).globals,
            globals@ =~= all.take(i as int),
        decreases s.exposed.len() - i,
    {
        let x = &s.exposed[i];
        globals.push(CapturedGlobal { module: x.module, index: x.index, ty: type_of(x) });
        i += 1;
    }
    assert(globals@ =~= all);
    let memory = match s.memory {
        Some((module, _)) => Some(module),
        None => None,
    };
    Capture { globals, memory }
}

fn check_room(s: &Survey) -> (b: bool)
    ensures
        b == has_room(s@),
{
    let memory: u128 = if s.memory.is_some() {
        1
    } else {
        0
    };
    let functions: u128 = s.exposed.len() as u128 + memory;
    let types: u128 = functions + memory;
    let limit: u128 = u32::MAX as u128;
    types <= limit && (types == 0 || (s.counts.types as u128 + types - 1 <= limit
        && s.counts.core_functions as u128 + functions - 1 <= limit && s.counts.functions as u128
        + functions - 1 <= limit))
}

/// Puts the sections of the instrumented component together.
pub fn instrument_survey<'a>(s: Survey<'a>) -> (r: Result<
    (Vec<ComponentSection<'a>>, Capture),
    InitError,
>)
    ensures
        match r {
            Ok((sections, capture)) => {
                &&& instrumented(s@) == Ok::<_, InitError>(views(sections@))
                &&& capture@ == to_capture(live(s@))
            },
            Err(e) => instrumented(s@) == Err::<Seq<ComponentSectionV>, _>(e),
        },
{
    let ghost whole = s@;
    match check_exposed(&s.exposed) {
        Ok(_) => {},
        Err(e) => {
            return Err(e);
        },
    }
    let declared = s.memory.is_some();
    let stack = find_stack_module(&s);
    let xs = keep_live(&s);
    let mut s = s;
    s.exposed = xs;
    match s.memory {
        Some((module, _)) => {
            if !is_instantiated(&s.instantiations, module) {
                s.memory = None;
            }
        },
        None => {},
    }
    assert(s@ == live(whole));
    proof {
        lemma_live_readable(whole);
        assert forall|k: int| 0 <= k < s.exposed@.len() implies readable(
            (#[trigger] s.exposed@[k])@,
        ) by {
            assert(s@.exposed[k] == s.exposed@[k]@);
        }
    }
    if s.reference_global {
        return Err(InitError::ReferenceGlobal);
    }
    match stack {
        Some(module) => {
            if s.memory.is_some() && !is_instantiated(&s.instantiations, module) {
                return Err(InitError::StackPointer);
            }
        },
        None => {
            if declared {
                return Err(InitError::StackPointer);
            }
        },
    }
    if !check_room(&s) {
        return Err(InitError::TooMany);
    }
    let capture = build_capture(&s);
    let mut added = build_added_sections(&s);
    let mut sections = s.sections;
    assert(views(sections@ + added@) =~= views(sections@) + views(added@));
    sections.append(&mut added);
    Ok((sections, capture))
}

/// The survey of a component.
pub open spec fn survey_of(component: Seq<u8>) -> Result<SurveyV, InitError> {
    surveyed(component, tree(component))
}

/// The instrumented component, and what there is to capture.
pub open spec fn instrumented_bytes(component: Seq<u8>) -> Result<(Seq<u8>, CaptureV), InitError> {
    match survey_of(component) {
        Ok(s) => match instrumented(s) {
            Ok(sections) => if component_fits(sections) {
                Ok((component_bytes(sections), to_capture(live(s))))
            } else {
                Err(InitError::TooLarge)
            },
            Err(e) => Err(e),
        },
        Err(e) => Err(e),
    }
}

/// Nothing that is to be captured is a vector, and everything is of a module that has an
/// instance.
pub proof fn law_captured_globals_are_numbers(s: SurveyV, k: int)
    requires
        instrumented(s) is Ok,
        0 <= k < to_capture(live(s)).globals.len(),
    ensures
        ({
            let g = to_capture(live(s)).globals[k];
            &&& g.ty != ValueType::V128
            &&& live(s).exposed[k].content == GlobalContent::Value(g.ty)
            &&& has_instance(s.instantiations, g.module)
        }),
{
    lemma_live_readable(s);
    assert(readable(live(s).exposed[k]));
    lemma_live_globals(s.exposed, s.instantiations);
}

/// Instruments a component so that its state can be captured through functions that it
/// exports, and says what there is to capture.
pub fn instrument(component: &[u8]) -> (r: Result<(Vec<u8>, Capture), InitError>)
    ensures
        match r {
            Ok((bytes, capture)) => instrumented_bytes(component@) == Ok::<_, InitError>(
                (bytes@, capture@),
            ),
            Err(e) => instrumented_bytes(component@) == Err::<(Seq<u8>, CaptureV), _>(e),
        },
{
    let items = read_tree(component);
    match survey(component, &items) {
        Ok(s) => match instrument_survey(s) {
            Ok((sections, capture)) => match encode_component(&sections) {
                Ok(bytes) => Ok((bytes, capture)),
                Err(_) => Err(InitError::TooLarge),
            },
            Err(e) => Err(e),
        },
        Err(e) => Err(e),
    }
}

} // verus!
