//! What is known of a component that the first pass accepts.
use vstd::prelude::*;
use crate::error::InitError;
use crate::exposed::{defined_globals, globals_of, imported_globals, GlobalSlot};
use crate::fold::fold;
use crate::instrument::instrumented;
use crate::parse::{
    GlobalContent, GlobalDecl, GlobalEntry, InstanceKind, OperatorKind, ReadError, Sort,
};
use crate::survey::{
    before_payload, component_step, entering, export_step, global_step, has_instance, import_step,
    instance_step, memory_step, module_step, nothing_found, operator_step, sort_step, surveyed,
    Counts, ExportsV, Instantiated, ModuleSurveyV,
};
use crate::tree::{instantiated, instantiated_in, ContentV, ItemV, ModuleContentV, ModuleItemV};
use crate::wasm::{ExportV, ExternKind, MemoryType, ValueType};

verus! {

/// How many memories the items of a module define.
pub open spec fn module_memories(items: Seq<Result<ModuleItemV, ReadError>>) -> nat
    decreases items.len(),
{
    if items.len() == 0 {
        0
    } else {
        module_memories(items.drop_last()) + match items.last() {
            Ok(ModuleItemV { content: ModuleContentV::Memories(list), .. }) => list.len(),
            _ => 0,
        }
    }
}

/// How many tables the items of a module define.
pub open spec fn module_tables(items: Seq<Result<ModuleItemV, ReadError>>) -> nat
    decreases items.len(),
{
    if items.len() == 0 {
        0
    } else {
        module_tables(items.drop_last()) + match items.last() {
            Ok(ModuleItemV { content: ModuleContentV::Tables(count), .. }) => count as nat,
            _ => 0,
        }
    }
}

/// How many memories the modules of a component define.
pub open spec fn memories(items: Seq<Result<ItemV, ReadError>>) -> nat
    decreases items.len(),
{
    if items.len() == 0 {
        0
    } else {
        memories(items.drop_last()) + match items.last() {
            Ok(ItemV { content: ContentV::CoreModule(list), .. }) => module_memories(list),
            _ => 0,
        }
    }
}

/// How many tables the modules of a component define.
pub open spec fn tables(items: Seq<Result<ItemV, ReadError>>) -> nat
    decreases items.len(),
{
    if items.len() == 0 {
        0
    } else {
        tables(items.drop_last()) + match items.last() {
            Ok(ItemV { content: ContentV::CoreModule(list), .. }) => module_tables(list),
            _ => 0,
        }
    }
}

/// A payload of a module could be read, and no function in it changes a table.
pub open spec fn is_plain_module_item(item: Result<ModuleItemV, ReadError>) -> bool {
    match item {
        Ok(ModuleItemV { content: ModuleContentV::Operators(list), .. }) => forall|k: int|
            0 <= k < list.len() ==> #[trigger] list[k] == Ok::<OperatorKind, ReadError>(
                OperatorKind::Other,
            ),
        Ok(_) => true,
        Err(_) => false,
    }
}

/// A payload could be read, is no header of a core module, no subcomponent, and no module
/// that changes a table.
pub open spec fn is_plain_item(item: Result<ItemV, ReadError>) -> bool {
    match item {
        Ok(ItemV { content: ContentV::Header { component }, .. }) => component,
        Ok(ItemV { content: ContentV::Subcomponent, .. }) => false,
        Ok(ItemV { content: ContentV::CoreModule(list), .. }) => forall|k: int|
            0 <= k < list.len() ==> is_plain_module_item(#[trigger] list[k]),
        Ok(_) => true,
        Err(_) => false,
    }
}

/// One if it holds.
pub open spec fn one_if(b: bool) -> nat {
    if b {
        1
    } else {
        0
    }
}

proof fn lemma_memory_fold(
    memory: Option<(u32, MemoryType)>,
    module: u32,
    list: Seq<Result<MemoryType, ReadError>>,
)
    ensures
        fold(memory, list, memory_step(module)) matches Ok(found) ==> one_if(memory is Some)
            + list.len() == one_if(found is Some) && one_if(found is Some) <= 1,
    decreases list.len(),
{
    if list.len() > 0 {
        lemma_memory_fold(memory, module, list.drop_last());
    }
}

proof fn lemma_operator_fold(list: Seq<Result<OperatorKind, ReadError>>)
    ensures
        fold((), list, operator_step()) is Ok <==> forall|k: int|
            0 <= k < list.len() ==> #[trigger] list[k] == Ok::<OperatorKind, ReadError>(
                OperatorKind::Other,
            ),
    decreases list.len(),
{
    if list.len() > 0 {
        let rest = list.drop_last();
        lemma_operator_fold(rest);
        assert forall|k: int| 0 <= k < rest.len() implies rest[k] == list[k] by {}
        assert(list.last() == list[list.len() - 1]);
        if fold((), list, operator_step()) is Ok {
            assert forall|k: int| 0 <= k < list.len() implies #[trigger] list[k] == Ok::<
                OperatorKind,
                ReadError,
            >(OperatorKind::Other) by {
                if k < rest.len() {
                    assert(rest[k] == list[k]);
                }
            }
        }
    }
}

pub proof fn lemma_global_fold(
    s: ModuleSurveyV,
    module: u32,
    list: Seq<Result<GlobalEntry, ReadError>>,
)
    ensures
        fold(s, list, global_step(module)) matches Ok(m) ==> m.memory == s.memory && m.saw_table
            == s.saw_table && m.stack_pointers == s.stack_pointers && m.sections == s.sections,
    decreases list.len(),
{
    if list.len() > 0 {
        lemma_global_fold(s, module, list.drop_last());
    }
}

pub proof fn lemma_module_rules(
    s: ModuleSurveyV,
    bytes: Seq<u8>,
    module: u32,
    items: Seq<Result<ModuleItemV, ReadError>>,
)
    ensures
        fold(s, items, module_step(bytes, module)) matches Ok(m) ==> {
            &&& one_if(s.memory is Some) + module_memories(items) == one_if(m.memory is Some)
            &&& one_if(s.saw_table) + module_tables(items) == one_if(m.saw_table)
            &&& forall|k: int| 0 <= k < items.len() ==> is_plain_module_item(#[trigger] items[k])
        },
    decreases items.len(),
{
    if items.len() > 0 {
        let rest = items.drop_last();
        let step = module_step(bytes, module);
        lemma_module_rules(s, bytes, module, rest);
        if let Ok(m) = fold(s, items, step) {
            let before = fold(s, rest, step)->Ok_0;
            assert(step(before, items.last()) == Ok::<_, InitError>(m));
            let item = items.last()->Ok_0;
            let met = before_payload(before, item.section);
            match item.content {
                ModuleContentV::Memories(list) => {
                    lemma_memory_fold(met.memory, module, list);
                },
                ModuleContentV::Operators(list) => {
                    lemma_operator_fold(list);
                },
                ModuleContentV::Globals(list) => {
                    lemma_global_fold(met, module, list);
                },
                _ => {},
            }
            assert(is_plain_module_item(items.last()));
            assert forall|k: int| 0 <= k < items.len() implies is_plain_module_item(
                #[trigger] items[k],
            ) by {
                if k < rest.len() {
                    assert(rest[k] == items[k]);
                }
            }
        }
    }
}

/// The modules of the instances that are known.
pub open spec fn modules_of(s: Seq<Instantiated>) -> Seq<u32> {
    s.map_values(|x: Instantiated| x.module)
}

proof fn lemma_instance_fold(
    s: (u32, Seq<Instantiated>),
    list: Seq<Result<InstanceKind, ReadError>>,
)
    requires
        modules_of(s.1).no_duplicates(),
    ensures
        fold(s, list, instance_step()) matches Ok(found) ==> modules_of(found.1) == modules_of(s.1)
            + instantiated_in(list) && modules_of(found.1).no_duplicates(),
    decreases list.len(),
{
    if list.len() == 0 {
        assert(modules_of(s.1) + instantiated_in(list) =~= modules_of(s.1));
    } else {
        let rest = list.drop_last();
        lemma_instance_fold(s, rest);
        if let Ok(found) = fold(s, list, instance_step()) {
            let before = fold(s, rest, instance_step())->Ok_0;
            assert(instance_step()(before, list.last()) == Ok::<_, InitError>(found));
            match list.last() {
                Ok(InstanceKind::Instantiate { module }) => {
                    let old = modules_of(before.1);
                    assert(modules_of(found.1) =~= old.push(module));
                    assert(modules_of(s.1) + instantiated_in(list) =~= old.push(module));
                    assert forall|i: int, j: int|
                        0 <= i < j < old.push(module).len() implies old.push(module)[i] != old.push(
                        module,
                    )[j] by {
                        if j == old.len() {
                            assert(before.1[i].module == old[i]);
                        }
                    }
                },
                _ => {},
            }
        }
    }
}

pub proof fn lemma_rules(bytes: Seq<u8>, items: Seq<Result<ItemV, ReadError>>)
    ensures
        surveyed(bytes, items) matches Ok(s) ==> {
            &&& memories(items) == one_if(s.memory is Some)
            &&& tables(items) == one_if(s.saw_table)
            &&& forall|k: int| 0 <= k < items.len() ==> is_plain_item(#[trigger] items[k])
            &&& modules_of(s.instantiations) == instantiated(items)
            &&& instantiated(items).no_duplicates()
        },
    decreases items.len(),
{
    if items.len() == 0 {
        assert(modules_of(nothing_found().instantiations) =~= instantiated(items));
    } else {
        let rest = items.drop_last();
        let step = component_step(bytes);
        lemma_rules(bytes, rest);
        if let Ok(s) = surveyed(bytes, items) {
            let before = fold(nothing_found(), rest, step)->Ok_0;
            assert(surveyed(bytes, rest) == Ok::<_, InitError>(before));
            assert(step(before, items.last()) == Ok::<_, InitError>(s));
            let item = items.last()->Ok_0;
            match item.content {
                ContentV::CoreModule(list) => {
                    lemma_module_rules(entering(before), bytes, before.counts.modules, list);
                },
                ContentV::Instances(list) => {
                    lemma_instance_fold((before.counts.instances, before.instantiations), list);
                },
                _ => {},
            }
            assert(is_plain_item(items.last()));
            assert forall|k: int| 0 <= k < items.len() implies is_plain_item(
                #[trigger] items[k],
            ) by {
                if k < rest.len() {
                    assert(rest[k] == items[k]);
                }
            }
        }
    }
}

/// A component that is accepted has a flat structure, at most one memory, at most one
/// table and no function that changes it, and instantiates each module at most once.
pub proof fn law_accepted_component_keeps_rules(
    bytes: Seq<u8>,
    items: Seq<Result<ItemV, ReadError>>,
)
    requires
        surveyed(bytes, items) is Ok,
    ensures
        memories(items) <= 1,
        tables(items) <= 1,
        forall|k: int| 0 <= k < items.len() ==> is_plain_item(#[trigger] items[k]),
        instantiated(items).no_duplicates(),
{
    lemma_rules(bytes, items);
}

/// Everything in a list could be read.
pub open spec fn all_read<T>(list: Seq<Result<T, ReadError>>) -> bool {
    forall|k: int| 0 <= k < list.len() ==> (#[trigger] list[k]) is Ok
}

/// The section of a payload lies within the bytes, and everything in it could be read.
pub open spec fn reads_well_module(len: nat, item: Result<ModuleItemV, ReadError>) -> bool {
    match item {
        Ok(item) => {
            &&& item.section is Some ==> item.section->Some_0.within(len)
            &&& match item.content {
                ModuleContentV::Imports(list) => all_read(list),
                ModuleContentV::Memories(list) => all_read(list),
                ModuleContentV::Globals(list) => all_read(list),
                ModuleContentV::Exports(list) => all_read(list),
                _ => true,
            }
        },
        Err(_) => false,
    }
}

/// The same of a payload of a component.
pub open spec fn reads_well(len: nat, item: Result<ItemV, ReadError>) -> bool {
    match item {
        Ok(item) => {
            &&& item.section is Some ==> item.section->Some_0.within(len)
            &&& match item.content {
                ContentV::CoreModule(list) => forall|k: int|
                    0 <= k < list.len() ==> reads_well_module(len, #[trigger] list[k]),
                ContentV::Instances(list) => all_read(list),
                ContentV::Sorts(list) => all_read(list),
                _ => true,
            }
        },
        Err(_) => false,
    }
}

/// How many globals the items of a module define and import, at most.
pub open spec fn module_weight(items: Seq<Result<ModuleItemV, ReadError>>) -> nat
    decreases items.len(),
{
    if items.len() == 0 {
        0
    } else {
        module_weight(items.drop_last()) + match items.last() {
            Ok(ModuleItemV { content: ModuleContentV::Imports(list), .. }) => list.len(),
            Ok(ModuleItemV { content: ModuleContentV::Globals(list), .. }) => list.len(),
            _ => 0,
        }
    }
}

/// How many items of all kinds there are, at most.
pub open spec fn weight(items: Seq<Result<ItemV, ReadError>>) -> nat
    decreases items.len(),
{
    if items.len() == 0 {
        0
    } else {
        weight(items.drop_last()) + match items.last() {
            Ok(ItemV { content: ContentV::CoreModule(list), .. }) => 1 + module_weight(list),
            Ok(ItemV { content: ContentV::Instances(list), .. }) => list.len(),
            Ok(ItemV { content: ContentV::Types(count), .. }) => count as nat,
            Ok(ItemV { content: ContentV::Sorts(list), .. }) => list.len(),
            _ => 0,
        }
    }
}

proof fn lemma_all_read_prefix<T>(list: Seq<Result<T, ReadError>>)
    requires
        list.len() > 0,
        all_read(list),
    ensures
        all_read(list.drop_last()),
        list.last() is Ok,
{
    let rest = list.drop_last();
    assert forall|k: int| 0 <= k < rest.len() implies (#[trigger] rest[k]) is Ok by {
        assert(rest[k] == list[k]);
    }
    assert(list[list.len() - 1] is Ok);
}

proof fn lemma_imports_accepted(
    decls: Seq<GlobalDecl>,
    list: Seq<Result<Option<GlobalDecl>, ReadError>>,
)
    requires
        all_read(list),
        decls.len() + list.len() <= u32::MAX,
    ensures
        fold(decls, list, import_step()) matches Ok(found) && found.len() <= decls.len()
            + list.len(),
    decreases list.len(),
{
    if list.len() > 0 {
        lemma_all_read_prefix(list);
        lemma_imports_accepted(decls, list.drop_last());
    }
}

proof fn lemma_memories_accepted(
    memory: Option<(u32, MemoryType)>,
    module: u32,
    list: Seq<Result<MemoryType, ReadError>>,
)
    requires
        all_read(list),
        one_if(memory is Some) + list.len() <= 1,
    ensures
        fold(memory, list, memory_step(module)) is Ok,
    decreases list.len(),
{
    if list.len() > 0 {
        lemma_all_read_prefix(list);
        let rest = list.drop_last();
        lemma_memories_accepted(memory, module, rest);
        lemma_memory_fold(memory, module, rest);
    }
}

proof fn lemma_globals_accepted(
    s: ModuleSurveyV,
    module: u32,
    list: Seq<Result<GlobalEntry, ReadError>>,
)
    requires
        all_read(list),
        s.decls.len() + list.len() <= u32::MAX,
    ensures
        fold(s, list, global_step(module)) matches Ok(m) && m.decls.len() == s.decls.len()
            + list.len(),
    decreases list.len(),
{
    if list.len() > 0 {
        lemma_all_read_prefix(list);
        lemma_globals_accepted(s, module, list.drop_last());
    }
}

proof fn lemma_exports_accepted(
    s: ExportsV,
    module: u32,
    decls: Seq<GlobalDecl>,
    list: Seq<Result<ExportV, ReadError>>,
)
    requires
        all_read(list),
    ensures
        fold(s, list, export_step(module, decls)) is Ok,
    decreases list.len(),
{
    if list.len() > 0 {
        lemma_all_read_prefix(list);
        lemma_exports_accepted(s, module, decls, list.drop_last());
    }
}

proof fn lemma_sorts_accepted(c: Counts, list: Seq<Result<Sort, ReadError>>, bound: nat)
    requires
        all_read(list),
        counts_within(c, bound),
        bound + list.len() <= u32::MAX,
    ensures
        fold(c, list, sort_step()) matches Ok(found) && counts_within(found, bound + list.len()),
    decreases list.len(),
{
    if list.len() > 0 {
        lemma_all_read_prefix(list);
        lemma_sorts_accepted(c, list.drop_last(), bound);
    }
}

/// No count is above the bound.
pub open spec fn counts_within(c: Counts, bound: nat) -> bool {
    &&& c.modules <= bound
    &&& c.instances <= bound
    &&& c.core_functions <= bound
    &&& c.core_memories <= bound
    &&& c.functions <= bound
    &&& c.types <= bound
}

proof fn lemma_instances_accepted(
    s: (u32, Seq<Instantiated>),
    list: Seq<Result<InstanceKind, ReadError>>,
)
    requires
        all_read(list),
        s.0 + list.len() <= u32::MAX,
        (modules_of(s.1) + instantiated_in(list)).no_duplicates(),
    ensures
        fold(s, list, instance_step()) matches Ok(found) && found.0 == s.0 + list.len(),
    decreases list.len(),
{
    if list.len() > 0 {
        lemma_all_read_prefix(list);
        let rest = list.drop_last();
        let all = modules_of(s.1) + instantiated_in(list);
        let fewer = modules_of(s.1) + instantiated_in(rest);
        assert(fewer.no_duplicates()) by {
            assert forall|i: int, j: int| 0 <= i < j < fewer.len() implies fewer[i] != fewer[j] by {
                assert(fewer[i] == all[i] && fewer[j] == all[j]);
            }
        }
        lemma_instances_accepted(s, rest);
        assert(modules_of(s.1).no_duplicates()) by {
            assert forall|i: int, j: int|
                0 <= i < j < modules_of(s.1).len() implies modules_of(s.1)[i] != modules_of(
                s.1,
            )[j] by {
                assert(all[i] == modules_of(s.1)[i] && all[j] == modules_of(s.1)[j]);
            }
        }
        lemma_instance_fold(s, rest);
        let before = fold(s, rest, instance_step())->Ok_0;
        if let Ok(InstanceKind::Instantiate { module }) = list.last() {
            assert(all =~= fewer.push(module));
            if has_instance(before.1, module) {
                let j = choose|j: int|
                    0 <= j < before.1.len() && (#[trigger] before.1[j]).module == module;
                assert(modules_of(before.1)[j] == module);
                assert(fewer[j] == module);
                assert(all[j] == fewer[j]);
                assert(all[all.len() - 1] == module);
            }
        }
    }
}

proof fn lemma_module_accepted(
    s: ModuleSurveyV,
    bytes: Seq<u8>,
    module: u32,
    items: Seq<Result<ModuleItemV, ReadError>>,
)
    requires
        s.decls.len() == 0,
        forall|k: int| 0 <= k < items.len() ==> reads_well_module(bytes.len(), #[trigger] items[k]),
        forall|k: int| 0 <= k < items.len() ==> is_plain_module_item(#[trigger] items[k]),
        one_if(s.memory is Some) + module_memories(items) <= 1,
        one_if(s.saw_table) + module_tables(items) <= 1,
        module_weight(items) <= u32::MAX,
    ensures
        fold(s, items, module_step(bytes, module)) matches Ok(m) && m.decls.len() <= module_weight(
            items,
        ),
    decreases items.len(),
{
    if items.len() > 0 {
        let rest = items.drop_last();
        let step = module_step(bytes, module);
        assert forall|k: int| 0 <= k < rest.len() implies reads_well_module(
            bytes.len(),
            #[trigger] rest[k],
        ) && is_plain_module_item(rest[k]) by {
            assert(rest[k] == items[k]);
        }
        lemma_module_accepted(s, bytes, module, rest);
        lemma_module_rules(s, bytes, module, rest);
        let before = fold(s, rest, step)->Ok_0;
        assert(fold(s, items, step) == step(before, items.last()));
        let last = items[items.len() - 1];
        assert(reads_well_module(bytes.len(), last));
        assert(is_plain_module_item(last));
        let item = last->Ok_0;
        let met = before_payload(before, item.section);
        match item.content {
            ModuleContentV::Imports(list) => {
                lemma_imports_accepted(met.decls, list);
            },
            ModuleContentV::Memories(list) => {
                lemma_memories_accepted(met.memory, module, list);
            },
            ModuleContentV::Globals(list) => {
                lemma_globals_accepted(met, module, list);
            },
            ModuleContentV::Exports(list) => {
                lemma_exports_accepted(
                    ExportsV {
                        exposed: met.exposed,
                        stack_pointers: met.stack_pointers,
                        exports: seq![],
                    },
                    module,
                    met.decls,
                    list,
                );
            },
            ModuleContentV::Operators(list) => {
                lemma_operator_fold(list);
            },
            _ => {},
        }
    }
}

proof fn lemma_accepted(bytes: Seq<u8>, items: Seq<Result<ItemV, ReadError>>)
    requires
        forall|k: int| 0 <= k < items.len() ==> reads_well(bytes.len(), #[trigger] items[k]),
        forall|k: int| 0 <= k < items.len() ==> is_plain_item(#[trigger] items[k]),
        memories(items) <= 1,
        tables(items) <= 1,
        instantiated(items).no_duplicates(),
        weight(items) <= u32::MAX,
    ensures
        surveyed(bytes, items) matches Ok(s) && counts_within(s.counts, weight(items)),
    decreases items.len(),
{
    if items.len() > 0 {
        let rest = items.drop_last();
        let step = component_step(bytes);
        assert forall|k: int| 0 <= k < rest.len() implies reads_well(bytes.len(), #[trigger] rest[k])
            && is_plain_item(rest[k]) by {
            assert(rest[k] == items[k]);
        }
        let all = instantiated(items);
        let fewer = instantiated(rest);
        assert(fewer.no_duplicates()) by {
            assert forall|i: int, j: int| 0 <= i < j < fewer.len() implies fewer[i] != fewer[j] by {
                assert(fewer[i] == all[i] && fewer[j] == all[j]);
            }
        }
        lemma_accepted(bytes, rest);
        lemma_rules(bytes, rest);
        let before = fold(nothing_found(), rest, step)->Ok_0;
        assert(surveyed(bytes, rest) == Ok::<_, InitError>(before));
        assert(surveyed(bytes, items) == step(before, items.last()));
        let last = items[items.len() - 1];
        assert(reads_well(bytes.len(), last));
        assert(is_plain_item(last));
        let item = last->Ok_0;
        match item.content {
            ContentV::CoreModule(list) => {
                lemma_module_accepted(entering(before), bytes, before.counts.modules, list);
            },
            ContentV::Instances(list) => {
                lemma_instances_accepted((before.counts.instances, before.instantiations), list);
            },
            ContentV::Sorts(list) => {
                lemma_sorts_accepted(before.counts, list, weight(rest));
            },
            _ => {},
        }
    }
}

/// A component that can be read, that keeps to the rules and that has no more items than
/// there are indices is accepted.
pub proof fn law_component_that_keeps_rules_is_accepted(
    bytes: Seq<u8>,
    items: Seq<Result<ItemV, ReadError>>,
)
    requires
        forall|k: int| 0 <= k < items.len() ==> reads_well(bytes.len(), #[trigger] items[k]),
        forall|k: int| 0 <= k < items.len() ==> is_plain_item(#[trigger] items[k]),
        memories(items) <= 1,
        tables(items) <= 1,
        instantiated(items).no_duplicates(),
        weight(items) <= u32::MAX,
    ensures
        surveyed(bytes, items) is Ok,
{
    lemma_accepted(bytes, items);
}

/// Exports of globals under the name of the stack pointer.
pub open spec fn section_stack_pointers(list: Seq<Result<ExportV, ReadError>>) -> nat
    decreases list.len(),
{
    if list.len() == 0 {
        0
    } else {
        section_stack_pointers(list.drop_last()) + match list.last() {
            Ok(export) => one_if(
                export.kind == ExternKind::Global && export.name == "__stack_pointer"@,
            ),
            Err(_) => 0,
        }
    }
}

/// Those of a module.
pub open spec fn module_stack_pointers(items: Seq<Result<ModuleItemV, ReadError>>) -> nat
    decreases items.len(),
{
    if items.len() == 0 {
        0
    } else {
        module_stack_pointers(items.drop_last()) + match items.last() {
            Ok(ModuleItemV { content: ModuleContentV::Exports(list), .. }) =>
                section_stack_pointers(list),
            _ => 0,
        }
    }
}

/// Those of all modules of a component.
pub open spec fn stack_pointers(items: Seq<Result<ItemV, ReadError>>) -> nat
    decreases items.len(),
{
    if items.len() == 0 {
        0
    } else {
        stack_pointers(items.drop_last()) + match items.last() {
            Ok(ItemV { content: ContentV::CoreModule(list), .. }) => module_stack_pointers(list),
            _ => 0,
        }
    }
}

proof fn lemma_export_pointers(
    s: ExportsV,
    module: u32,
    decls: Seq<GlobalDecl>,
    list: Seq<Result<ExportV, ReadError>>,
)
    ensures
        fold(s, list, export_step(module, decls)) matches Ok(found) ==> found.stack_pointers.len()
            == s.stack_pointers.len() + section_stack_pointers(list),
    decreases list.len(),
{
    if list.len() > 0 {
        lemma_export_pointers(s, module, decls, list.drop_last());
    }
}

proof fn lemma_module_pointers(
    s: ModuleSurveyV,
    bytes: Seq<u8>,
    module: u32,
    items: Seq<Result<ModuleItemV, ReadError>>,
)
    ensures
        fold(s, items, module_step(bytes, module)) matches Ok(m) ==> m.stack_pointers.len()
            == s.stack_pointers.len() + module_stack_pointers(items),
    decreases items.len(),
{
    if items.len() > 0 {
        let rest = items.drop_last();
        let step = module_step(bytes, module);
        lemma_module_pointers(s, bytes, module, rest);
        if let Ok(m) = fold(s, items, step) {
            let before = fold(s, rest, step)->Ok_0;
            assert(step(before, items.last()) == Ok::<_, InitError>(m));
            let met = before_payload(before, items.last()->Ok_0.section);
            match items.last()->Ok_0.content {
                ModuleContentV::Exports(list) => {
                    let start = ExportsV {
                        exposed: met.exposed,
                        stack_pointers: met.stack_pointers,
                        exports: seq![],
                    };
                    lemma_export_pointers(start, module, met.decls, list);
                },
                ModuleContentV::Globals(list) => {
                    lemma_global_fold(met, module, list);
                },
                _ => {},
            }
        }
    }
}

proof fn lemma_pointers(bytes: Seq<u8>, items: Seq<Result<ItemV, ReadError>>)
    ensures
        surveyed(bytes, items) matches Ok(s) ==> s.stack_pointers.len() == stack_pointers(items),
    decreases items.len(),
{
    if items.len() > 0 {
        let rest = items.drop_last();
        let step = component_step(bytes);
        lemma_pointers(bytes, rest);
        if let Ok(s) = surveyed(bytes, items) {
            let before = fold(nothing_found(), rest, step)->Ok_0;
            assert(surveyed(bytes, rest) == Ok::<_, InitError>(before));
            assert(step(before, items.last()) == Ok::<_, InitError>(s));
            if let ContentV::CoreModule(list) = items.last()->Ok_0.content {
                lemma_module_pointers(entering(before), bytes, before.counts.modules, list);
            }
        }
    }
}

/// A component with a memory that is instrumented exports a global as `__stack_pointer`
/// exactly once, and that global can change and is of type I32.
pub proof fn law_memory_has_one_stack_pointer(bytes: Seq<u8>, items: Seq<Result<ItemV, ReadError>>)
    requires
        surveyed(bytes, items) is Ok,
        instrumented(surveyed(bytes, items)->Ok_0) is Ok,
        memories(items) > 0,
    ensures
        stack_pointers(items) == 1,
        surveyed(bytes, items)->Ok_0.stack_pointers[0].decl == Some(
            GlobalDecl { content: GlobalContent::Value(ValueType::I32), mutable: true },
        ),
{
    lemma_rules(bytes, items);
    lemma_pointers(bytes, items);
}

/// A global of a module that holds a reference and is not imported.
pub open spec fn is_own_reference(slot: GlobalSlot) -> bool {
    slot.defined && slot.decl.content == GlobalContent::Reference
}

/// There is no such global.
pub open spec fn no_own_reference(slots: Seq<GlobalSlot>) -> bool {
    forall|j: int| 0 <= j < slots.len() ==> !is_own_reference(#[trigger] slots[j])
}

proof fn lemma_global_references(
    s: ModuleSurveyV,
    module: u32,
    list: Seq<Result<GlobalEntry, ReadError>>,
)
    ensures
        fold(s, list, global_step(module)) matches Ok(m) ==> (m.reference_global <==> (
        s.reference_global || !no_own_reference(defined_globals(list)))),
    decreases list.len(),
{
    if list.len() > 0 {
        let rest = list.drop_last();
        let step = global_step(module);
        lemma_global_references(s, module, rest);
        if let Ok(m) = fold(s, list, step) {
            let before = fold(s, rest, step)->Ok_0;
            assert(step(before, list.last()) == Ok::<_, InitError>(m));
            let slot = GlobalSlot { decl: list.last()->Ok_0.decl, defined: true };
            lemma_reference_push(defined_globals(rest), slot);
        }
    }
}

proof fn lemma_reference_push(slots: Seq<GlobalSlot>, slot: GlobalSlot)
    ensures
        no_own_reference(slots.push(slot)) <==> no_own_reference(slots) && !is_own_reference(slot),
{
    let more = slots.push(slot);
    if no_own_reference(more) {
        assert forall|j: int| 0 <= j < slots.len() implies !is_own_reference(
            #[trigger] slots[j],
        ) by {
            assert(more[j] == slots[j]);
        }
        assert(!is_own_reference(more[slots.len() as int]));
    }
}

proof fn lemma_reference_append(slots: Seq<GlobalSlot>, more: Seq<GlobalSlot>)
    ensures
        no_own_reference(slots + more) <==> no_own_reference(slots) && no_own_reference(more),
    decreases more.len(),
{
    if more.len() == 0 {
        assert(slots + more =~= slots);
    } else {
        lemma_reference_append(slots, more.drop_last());
        lemma_reference_push(slots + more.drop_last(), more.last());
        lemma_reference_push(more.drop_last(), more.last());
        assert((slots + more.drop_last()).push(more.last()) =~= slots + more);
        assert(more.drop_last().push(more.last()) =~= more);
    }
}

proof fn lemma_imported_references(list: Seq<Result<Option<GlobalDecl>, ReadError>>)
    ensures
        no_own_reference(imported_globals(list)),
    decreases list.len(),
{
    if list.len() > 0 {
        lemma_imported_references(list.drop_last());
    }
}

proof fn lemma_module_references(
    s: ModuleSurveyV,
    bytes: Seq<u8>,
    module: u32,
    items: Seq<Result<ModuleItemV, ReadError>>,
)
    ensures
        fold(s, items, module_step(bytes, module)) matches Ok(m) ==> (m.reference_global <==> (
        s.reference_global || !no_own_reference(globals_of(items)))),
    decreases items.len(),
{
    if items.len() > 0 {
        let rest = items.drop_last();
        let step = module_step(bytes, module);
        lemma_module_references(s, bytes, module, rest);
        if let Ok(m) = fold(s, items, step) {
            let before = fold(s, rest, step)->Ok_0;
            assert(step(before, items.last()) == Ok::<_, InitError>(m));
            let slots = globals_of(rest);
            match items.last()->Ok_0.content {
                ModuleContentV::Imports(list) => {
                    lemma_imported_references(list);
                    lemma_reference_append(slots, imported_globals(list));
                },
                ModuleContentV::Globals(list) => {
                    lemma_global_references(
                        before_payload(before, items.last()->Ok_0.section),
                        module,
                        list,
                    );
                    lemma_reference_append(slots, defined_globals(list));
                },
                _ => {
                    assert(slots + Seq::<GlobalSlot>::empty() =~= slots);
                },
            }
        }
    }
}

/// No module of the component defines a global that holds a reference.
pub open spec fn no_reference_globals(items: Seq<Result<ItemV, ReadError>>) -> bool
    decreases items.len(),
{
    if items.len() == 0 {
        true
    } else {
        no_reference_globals(items.drop_last()) && match items.last() {
            Ok(ItemV { content: ContentV::CoreModule(list), .. }) => no_own_reference(
                globals_of(list),
            ),
            _ => true,
        }
    }
}

pub proof fn lemma_references(bytes: Seq<u8>, items: Seq<Result<ItemV, ReadError>>)
    ensures
        surveyed(bytes, items) matches Ok(s) ==> (s.reference_global <==> !no_reference_globals(
            items,
        )),
    decreases items.len(),
{
    if items.len() > 0 {
        let rest = items.drop_last();
        let step = component_step(bytes);
        lemma_references(bytes, rest);
        if let Ok(s) = surveyed(bytes, items) {
            let before = fold(nothing_found(), rest, step)->Ok_0;
            assert(surveyed(bytes, rest) == Ok::<_, InitError>(before));
            assert(step(before, items.last()) == Ok::<_, InitError>(s));
            if let ContentV::CoreModule(list) = items.last()->Ok_0.content {
                lemma_module_references(entering(before), bytes, before.counts.modules, list);
            }
        }
    }
}

/// No module of a component that is instrumented defines a global of reference type.
pub proof fn law_instrumented_component_has_no_reference_globals(
    bytes: Seq<u8>,
    items: Seq<Result<ItemV, ReadError>>,
)
    requires
        surveyed(bytes, items) is Ok,
        instrumented(surveyed(bytes, items)->Ok_0) is Ok,
    ensures
        no_reference_globals(items),
{
    lemma_references(bytes, items);
}

} // verus!
