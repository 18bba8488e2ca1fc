//! What a pass over a component finds, told by what stands in the component.
use vstd::prelude::*;
use crate::error::InitError;
use crate::exposed::{
    all_named, changing, changing_globals, decls_of, globals_of, is_exported,
    law_exposed_globals_are_exported, law_exposed_globals_have_names, lemma_module_places,
    lemma_places, modules, names_are_exported, places, GlobalSlot, Place,
};
use crate::faults::{
    can_be_read, has_indices, has_stack_pointer, law_instrumenting_fails_for_these_reasons,
};
use crate::fold::{fold, lemma_fold_err, lemma_fold_step};
use crate::instrument::{instrumented, lemma_live_globals, live};
use crate::parse::{GlobalContent, GlobalDecl, InstanceKind, ReadError, Sort};
use crate::preserved::{lemma_survey_outlines, outlined, outlines};
use crate::rules::{
    lemma_global_fold, lemma_references, lemma_rules, modules_of, no_reference_globals,
};
use crate::survey::{
    all_exported, before_payload, component_step, entering, export_step, has_instance,
    instance_step, memory_step, module_step, nothing_found, sort_step, surveyed, Counts, ExportsV,
    Instantiated, ModuleSurveyV, StackPointer,
};
use crate::tree::{instantiated, ContentV, ItemV, ModuleContentV, ModuleItemV};
use crate::wasm::{ComponentSectionV, ExportV, ExternKind, MemoryType, ValueType};

verus! {

/// How many items of a sort a section adds to the index space of that sort.
pub open spec fn of_sort(list: Seq<Result<Sort, ReadError>>, sort: Sort) -> nat
    decreases list.len(),
{
    if list.len() == 0 {
        0
    } else if list.last() == Ok::<Sort, ReadError>(sort) {
        of_sort(list.drop_last(), sort) + 1
    } else {
        of_sort(list.drop_last(), sort)
    }
}

/// How many items of a sort the imports, exports, aliases and canonical functions of a
/// component make.
pub open spec fn sorts(items: Seq<Result<ItemV, ReadError>>, sort: Sort) -> nat
    decreases items.len(),
{
    if items.len() == 0 {
        0
    } else {
        sorts(items.drop_last(), sort) + match items.last() {
            Ok(ItemV { content: ContentV::Sorts(list), .. }) => of_sort(list, sort),
            _ => 0,
        }
    }
}

/// How many types the type sections of a component define.
pub open spec fn defined_types(items: Seq<Result<ItemV, ReadError>>) -> nat
    decreases items.len(),
{
    if items.len() == 0 {
        0
    } else {
        defined_types(items.drop_last()) + match items.last() {
            Ok(ItemV { content: ContentV::Types(count), .. }) => count as nat,
            _ => 0,
        }
    }
}

/// The core instances of a component: the one at `n` is core instance `n`.
pub open spec fn core_instances(items: Seq<Result<ItemV, ReadError>>) -> Seq<
    Result<InstanceKind, ReadError>,
>
    decreases items.len(),
{
    if items.len() == 0 {
        seq![]
    } else {
        core_instances(items.drop_last()) + match items.last() {
            Ok(ItemV { content: ContentV::Instances(list), .. }) => list,
            _ => seq![],
        }
    }
}

proof fn lemma_sorts(c: Counts, list: Seq<Result<Sort, ReadError>>)
    ensures
        fold(c, list, sort_step()) matches Ok(found) ==> {
            &&& found.core_functions == c.core_functions + of_sort(list, Sort::CoreFunc)
            &&& found.core_memories == c.core_memories + of_sort(list, Sort::CoreMemory)
            &&& found.functions == c.functions + of_sort(list, Sort::Func)
            &&& found.types == c.types + of_sort(list, Sort::Type)
            &&& found.instances == c.instances
        },
    decreases list.len(),
{
    if list.len() > 0 {
        let rest = list.drop_last();
        lemma_sorts(c, rest);
        if let Ok(found) = fold(c, list, sort_step()) {
            let before = fold(c, rest, sort_step())->Ok_0;
            assert(sort_step()(before, list.last()) == Ok::<_, InitError>(found));
        }
    }
}

proof fn lemma_counts(bytes: Seq<u8>, items: Seq<Result<ItemV, ReadError>>)
    ensures
        surveyed(bytes, items) matches Ok(s) ==> {
            &&& s.counts.core_functions == sorts(items, Sort::CoreFunc)
            &&& s.counts.core_memories == sorts(items, Sort::CoreMemory)
            &&& s.counts.functions == sorts(items, Sort::Func)
            &&& s.counts.types == sorts(items, Sort::Type) + defined_types(items)
        },
    decreases items.len(),
{
    if items.len() > 0 {
        let rest = items.drop_last();
        let step = component_step(bytes);
        lemma_counts(bytes, rest);
        if let Ok(s) = surveyed(bytes, items) {
            let before = fold(nothing_found(), rest, step)->Ok_0;
            assert(surveyed(bytes, rest) == Ok::<_, InitError>(before));
            assert(step(before, items.last()) == Ok::<_, InitError>(s));
            match items.last()->Ok_0.content {
                ContentV::Sorts(list) => {
                    lemma_sorts(before.counts, list);
                },
                _ => {},
            }
        }
    }
}

/// The sizes of the index spaces of a component are found by counting what extends them.
pub proof fn law_index_spaces_are_counted(bytes: Seq<u8>, items: Seq<Result<ItemV, ReadError>>)
    requires
        surveyed(bytes, items) is Ok,
    ensures
        ({
            let counts = surveyed(bytes, items)->Ok_0.counts;
            &&& counts.modules == modules(items)
            &&& counts.instances == core_instances(items).len()
            &&& counts.core_functions == sorts(items, Sort::CoreFunc)
            &&& counts.core_memories == sorts(items, Sort::CoreMemory)
            &&& counts.functions == sorts(items, Sort::Func)
            &&& counts.types == sorts(items, Sort::Type) + defined_types(items)
        }),
{
    lemma_places(bytes, items);
    lemma_counts(bytes, items);
    lemma_instances(bytes, items);
}

/// What is known of instances is told by the list of them: each that is of a module is known
/// by its own index, and no others are.
pub open spec fn are_listed(
    known: Seq<Instantiated>,
    all: Seq<Result<InstanceKind, ReadError>>,
) -> bool {
    &&& forall|j: int| 0 <= j < known.len() ==> is_listed(all, #[trigger] known[j])
    &&& forall|n: int, module: u32|
        0 <= n < all.len() && #[trigger] is_instance_of(all, n, module) ==> known.contains(
            Instantiated { module, instance: n as u32 },
        )
}

/// The instance at `n` is one of the module.
pub open spec fn is_instance_of(
    all: Seq<Result<InstanceKind, ReadError>>,
    n: int,
    module: u32,
) -> bool {
    all[n] == Ok::<InstanceKind, ReadError>(InstanceKind::Instantiate { module })
}

/// The instance is in the list, in its place, as one of its module.
pub open spec fn is_listed(
    all: Seq<Result<InstanceKind, ReadError>>,
    x: Instantiated,
) -> bool {
    &&& x.instance < all.len()
    &&& is_instance_of(all, x.instance as int, x.module)
}

proof fn lemma_instance_list(
    s: (u32, Seq<Instantiated>),
    all: Seq<Result<InstanceKind, ReadError>>,
    list: Seq<Result<InstanceKind, ReadError>>,
)
    requires
        s.0 == all.len(),
        are_listed(s.1, all),
    ensures
        fold(s, list, instance_step()) matches Ok(found) ==> found.0 == all.len() + list.len()
            && are_listed(found.1, all + list),
    decreases list.len(),
{
    if list.len() == 0 {
        assert(all + list =~= all);
    } else {
        let rest = list.drop_last();
        lemma_instance_list(s, all, rest);
        if let Ok(found) = fold(s, list, instance_step()) {
            let before = fold(s, rest, instance_step())->Ok_0;
            assert(instance_step()(before, list.last()) == Ok::<_, InitError>(found));
            let known = all + rest;
            let more = all + list;
            assert(more =~= known.push(list.last()));
            let n = known.len() as int;
            assert forall|j: int| 0 <= j < found.1.len() implies is_listed(
                more,
                #[trigger] found.1[j],
            ) by {
                if j < before.1.len() {
                    assert(found.1[j] == before.1[j]);
                    assert(is_listed(known, before.1[j]));
                }
            }
            assert forall|i: int, module: u32|
                0 <= i < more.len() && #[trigger] is_instance_of(
                    more,
                    i,
                    module,
                ) implies found.1.contains(Instantiated { module, instance: i as u32 }) by {
                let x = Instantiated { module, instance: i as u32 };
                if i < n {
                    assert(is_instance_of(known, i, module));
                    assert(before.1.contains(x));
                    let j = choose|j: int| 0 <= j < before.1.len() && before.1[j] == x;
                    assert(found.1[j] == x);
                } else {
                    assert(found.1[found.1.len() - 1] == x);
                }
            }
        }
    }
}

proof fn lemma_instances(bytes: Seq<u8>, items: Seq<Result<ItemV, ReadError>>)
    ensures
        surveyed(bytes, items) matches Ok(s) ==> s.counts.instances == core_instances(items).len()
            && are_listed(s.instantiations, core_instances(items)),
    decreases items.len(),
{
    if items.len() > 0 {
        let rest = items.drop_last();
        let step = component_step(bytes);
        lemma_instances(bytes, rest);
        if let Ok(s) = surveyed(bytes, items) {
            let before = fold(nothing_found(), rest, step)->Ok_0;
            assert(surveyed(bytes, rest) == Ok::<_, InitError>(before));
            assert(step(before, items.last()) == Ok::<_, InitError>(s));
            let all = core_instances(rest);
            match items.last()->Ok_0.content {
                ContentV::Instances(list) => {
                    lemma_instance_list(
                        (before.counts.instances, before.instantiations),
                        all,
                        list,
                    );
                },
                ContentV::Sorts(list) => {
                    lemma_sorts(before.counts, list);
                    assert(all + Seq::<Result<InstanceKind, ReadError>>::empty() =~= all);
                },
                _ => {
                    assert(all + Seq::<Result<InstanceKind, ReadError>>::empty() =~= all);
                },
            }
        }
    }
}

/// An instance that is known is a core instance of the component, at its own index, and of
/// its own module; every core instance of a module is known.
pub proof fn law_instances_are_known_by_index(
    bytes: Seq<u8>,
    items: Seq<Result<ItemV, ReadError>>,
)
    requires
        surveyed(bytes, items) is Ok,
    ensures
        are_listed(surveyed(bytes, items)->Ok_0.instantiations, core_instances(items)),
{
    lemma_instances(bytes, items);
}

/// The memories that a module defines, with its number.
pub open spec fn memories_of(
    module: u32,
    items: Seq<Result<ModuleItemV, ReadError>>,
) -> Seq<(u32, Result<MemoryType, ReadError>)>
    decreases items.len(),
{
    if items.len() == 0 {
        seq![]
    } else {
        memories_of(module, items.drop_last()) + match items.last() {
            Ok(ModuleItemV { content: ModuleContentV::Memories(list), .. }) => list.map_values(
                |m: Result<MemoryType, ReadError>| (module, m),
            ),
            _ => seq![],
        }
    }
}

/// The memories that the modules of a component define, each with the number of its module.
pub open spec fn all_memories(items: Seq<Result<ItemV, ReadError>>) -> Seq<
    (u32, Result<MemoryType, ReadError>),
>
    decreases items.len(),
{
    if items.len() == 0 {
        seq![]
    } else {
        all_memories(items.drop_last()) + match items.last() {
            Ok(ItemV { content: ContentV::CoreModule(list), .. }) => memories_of(
                modules(items.drop_last()) as u32,
                list,
            ),
            _ => seq![],
        }
    }
}

/// The memory is the only one of the list, or there is none.
pub open spec fn is_only(
    memory: Option<(u32, MemoryType)>,
    all: Seq<(u32, Result<MemoryType, ReadError>)>,
) -> bool {
    match memory {
        Some((module, ty)) => all.len() == 1 && all[0] == (
            module,
            Ok::<MemoryType, ReadError>(ty),
        ),
        None => all.len() == 0,
    }
}

proof fn lemma_memory_list(
    module: u32,
    memory: Option<(u32, MemoryType)>,
    all: Seq<(u32, Result<MemoryType, ReadError>)>,
    list: Seq<Result<MemoryType, ReadError>>,
)
    requires
        is_only(memory, all),
    ensures
        fold(memory, list, memory_step(module)) matches Ok(found) ==> is_only(
            found,
            all + list.map_values(|m: Result<MemoryType, ReadError>| (module, m)),
        ),
    decreases list.len(),
{
    let pairs = list.map_values(|m: Result<MemoryType, ReadError>| (module, m));
    if list.len() == 0 {
        assert(all + pairs =~= all);
    } else {
        let rest = list.drop_last();
        lemma_memory_list(module, memory, all, rest);
        let fewer = rest.map_values(|m: Result<MemoryType, ReadError>| (module, m));
        if let Ok(found) = fold(memory, list, memory_step(module)) {
            let before = fold(memory, rest, memory_step(module))->Ok_0;
            assert(memory_step(module)(before, list.last()) == Ok::<_, InitError>(found));
            assert(all + pairs =~= (all + fewer).push((module, list.last())));
        }
    }
}

proof fn lemma_module_memory(
    s: ModuleSurveyV,
    all: Seq<(u32, Result<MemoryType, ReadError>)>,
    bytes: Seq<u8>,
    module: u32,
    items: Seq<Result<ModuleItemV, ReadError>>,
)
    requires
        is_only(s.memory, all),
    ensures
        fold(s, items, module_step(bytes, module)) matches Ok(m) ==> is_only(
            m.memory,
            all + memories_of(module, items),
        ),
    decreases items.len(),
{
    if items.len() == 0 {
        assert(all + memories_of(module, items) =~= all);
    } else {
        let rest = items.drop_last();
        let step = module_step(bytes, module);
        lemma_module_memory(s, all, bytes, module, rest);
        if let Ok(m) = fold(s, items, step) {
            let before = fold(s, rest, step)->Ok_0;
            assert(step(before, items.last()) == Ok::<_, InitError>(m));
            let known = all + memories_of(module, rest);
            let met = before_payload(before, items.last()->Ok_0.section);
            match items.last()->Ok_0.content {
                ModuleContentV::Memories(list) => {
                    lemma_memory_list(module, before.memory, known, list);
                    assert(all + memories_of(module, items) =~= known + list.map_values(
                        |m: Result<MemoryType, ReadError>| (module, m),
                    ));
                },
                ModuleContentV::Globals(list) => {
                    lemma_global_fold(met, module, list);
                    assert(all + memories_of(module, items) =~= known);
                },
                _ => {
                    assert(all + memories_of(module, items) =~= known);
                },
            }
        }
    }
}

proof fn lemma_memory(bytes: Seq<u8>, items: Seq<Result<ItemV, ReadError>>)
    ensures
        surveyed(bytes, items) matches Ok(s) ==> is_only(s.memory, all_memories(items)),
    decreases items.len(),
{
    if items.len() > 0 {
        let rest = items.drop_last();
        let step = component_step(bytes);
        lemma_memory(bytes, rest);
        if let Ok(s) = surveyed(bytes, items) {
            let before = fold(nothing_found(), rest, step)->Ok_0;
            assert(surveyed(bytes, rest) == Ok::<_, InitError>(before));
            assert(step(before, items.last()) == Ok::<_, InitError>(s));
            let all = all_memories(rest);
            match items.last()->Ok_0.content {
                ContentV::CoreModule(list) => {
                    lemma_places(bytes, rest);
                    lemma_module_memory(
                        entering(before),
                        all,
                        bytes,
                        before.counts.modules,
                        list,
                    );
                },
                _ => {
                    assert(all_memories(items) =~= all);
                },
            }
        }
    }
}

/// The memory that is found is the only one that a module of the component defines, with
/// its own type, and with the number of that module.
pub proof fn law_memory_is_the_only_one(bytes: Seq<u8>, items: Seq<Result<ItemV, ReadError>>)
    requires
        surveyed(bytes, items) is Ok,
    ensures
        is_only(surveyed(bytes, items)->Ok_0.memory, all_memories(items)),
{
    lemma_memory(bytes, items);
}

/// The exports of a section that are of globals and named `__stack_pointer`, each with the
/// type of its global.
pub open spec fn pointers_in(
    module: u32,
    decls: Seq<GlobalDecl>,
    list: Seq<Result<ExportV, ReadError>>,
) -> Seq<StackPointer>
    decreases list.len(),
{
    if list.len() == 0 {
        seq![]
    } else {
        let rest = pointers_in(module, decls, list.drop_last());
        match list.last() {
            Ok(export) => if export.kind == ExternKind::Global && export.name
                == "__stack_pointer"@ {
                rest.push(
                    StackPointer {
                        module,
                        decl: if export.index < decls.len() {
                            Some(decls[export.index as int])
                        } else {
                            None
                        },
                    },
                )
            } else {
                rest
            },
            Err(_) => rest,
        }
    }
}

/// Those of a module: a global is known by the sections before that of the export.
pub open spec fn pointers_of(
    module: u32,
    items: Seq<Result<ModuleItemV, ReadError>>,
) -> Seq<StackPointer>
    decreases items.len(),
{
    if items.len() == 0 {
        seq![]
    } else {
        pointers_of(module, items.drop_last()) + match items.last() {
            Ok(ModuleItemV { content: ModuleContentV::Exports(list), .. }) => pointers_in(
                module,
                decls_of(globals_of(items.drop_last())),
                list,
            ),
            _ => seq![],
        }
    }
}

/// Those of a component, each with the number of its module.
pub open spec fn all_pointers(items: Seq<Result<ItemV, ReadError>>) -> Seq<StackPointer>
    decreases items.len(),
{
    if items.len() == 0 {
        seq![]
    } else {
        all_pointers(items.drop_last()) + match items.last() {
            Ok(ItemV { content: ContentV::CoreModule(list), .. }) => pointers_of(
                modules(items.drop_last()) as u32,
                list,
            ),
            _ => seq![],
        }
    }
}

proof fn lemma_pointers_in(
    s: ExportsV,
    module: u32,
    decls: Seq<GlobalDecl>,
    list: Seq<Result<ExportV, ReadError>>,
)
    ensures
        fold(s, list, export_step(module, decls)) matches Ok(found) ==> found.stack_pointers
            == s.stack_pointers + pointers_in(module, decls, list),
    decreases list.len(),
{
    if list.len() == 0 {
        assert(s.stack_pointers + pointers_in(module, decls, list) =~= s.stack_pointers);
    } else {
        let rest = list.drop_last();
        let step = export_step(module, decls);
        lemma_pointers_in(s, module, decls, rest);
        if let Ok(found) = fold(s, list, step) {
            let before = fold(s, rest, step)->Ok_0;
            assert(step(before, list.last()) == Ok::<_, InitError>(found));
            assert(found.stack_pointers =~= s.stack_pointers + pointers_in(module, decls, list));
        }
    }
}

proof fn lemma_pointers_of(
    s: ModuleSurveyV,
    bytes: Seq<u8>,
    module: u32,
    items: Seq<Result<ModuleItemV, ReadError>>,
)
    requires
        s.decls.len() == 0,
        s.exposed.len() == 0,
    ensures
        fold(s, items, module_step(bytes, module)) matches Ok(m) ==> m.stack_pointers
            == s.stack_pointers + pointers_of(module, items),
    decreases items.len(),
{
    if items.len() == 0 {
        assert(s.stack_pointers + pointers_of(module, items) =~= s.stack_pointers);
    } else {
        let rest = items.drop_last();
        let step = module_step(bytes, module);
        lemma_pointers_of(s, bytes, module, rest);
        lemma_module_places(s, bytes, module, rest);
        if let Ok(m) = fold(s, items, step) {
            let before = fold(s, rest, step)->Ok_0;
            assert(step(before, items.last()) == Ok::<_, InitError>(m));
            let known = s.stack_pointers + pointers_of(module, rest);
            let met = before_payload(before, items.last()->Ok_0.section);
            match items.last()->Ok_0.content {
                ModuleContentV::Exports(list) => {
                    let start = ExportsV {
                        exposed: met.exposed,
                        stack_pointers: met.stack_pointers,
                        exports: seq![],
                    };
                    lemma_pointers_in(start, module, met.decls, list);
                    assert(m.stack_pointers =~= s.stack_pointers + pointers_of(module, items));
                },
                ModuleContentV::Globals(list) => {
                    lemma_global_fold(met, module, list);
                    assert(s.stack_pointers + pointers_of(module, items) =~= known);
                },
                _ => {
                    assert(s.stack_pointers + pointers_of(module, items) =~= known);
                },
            }
        }
    }
}

proof fn lemma_all_pointers(bytes: Seq<u8>, items: Seq<Result<ItemV, ReadError>>)
    ensures
        surveyed(bytes, items) matches Ok(s) ==> s.stack_pointers == all_pointers(items),
    decreases items.len(),
{
    if items.len() > 0 {
        let rest = items.drop_last();
        let step = component_step(bytes);
        lemma_all_pointers(bytes, rest);
        if let Ok(s) = surveyed(bytes, items) {
            let before = fold(nothing_found(), rest, step)->Ok_0;
            assert(surveyed(bytes, rest) == Ok::<_, InitError>(before));
            assert(step(before, items.last()) == Ok::<_, InitError>(s));
            match items.last()->Ok_0.content {
                ContentV::CoreModule(list) => {
                    lemma_places(bytes, rest);
                    lemma_pointers_of(entering(before), bytes, before.counts.modules, list);
                },
                _ => {
                    assert(all_pointers(items) =~= all_pointers(rest));
                },
            }
        }
    } else {
        assert(nothing_found().stack_pointers =~= all_pointers(items));
    }
}

/// The stack pointers that are found are the globals that modules export by that name, each
/// with the number of its module and the type that it was declared with.
pub proof fn law_stack_pointers_are_exported_globals(
    bytes: Seq<u8>,
    items: Seq<Result<ItemV, ReadError>>,
)
    requires
        surveyed(bytes, items) is Ok,
    ensures
        surveyed(bytes, items)->Ok_0.stack_pointers == all_pointers(items),
{
    lemma_all_pointers(bytes, items);
}

proof fn lemma_survey_prefix(bytes: Seq<u8>, items: Seq<Result<ItemV, ReadError>>, n: int)
    requires
        0 <= n <= items.len(),
        surveyed(bytes, items) is Ok,
    ensures
        surveyed(bytes, items.take(n)) is Ok,
        surveyed(bytes, items.take(n))->Ok_0.sections.is_prefix_of(
            surveyed(bytes, items)->Ok_0.sections,
        ),
        surveyed(bytes, items.take(n))->Ok_0.exposed.is_prefix_of(
            surveyed(bytes, items)->Ok_0.exposed,
        ),
    decreases items.len(),
{
    let step = component_step(bytes);
    if surveyed(bytes, items.take(n)) is Err {
        lemma_fold_err(nothing_found(), items, n, step);
    }
    if n == items.len() {
        assert(items.take(n) =~= items);
    } else {
        let rest = items.drop_last();
        let found = fold(nothing_found(), items, step)->Ok_0;
        let before = fold(nothing_found(), rest, step)->Ok_0;
        assert(step(before, items.last()) == Ok::<_, InitError>(found));
        assert(before.sections.is_prefix_of(found.sections));
        assert(before.exposed.is_prefix_of(found.exposed));
        assert(surveyed(bytes, rest) == Ok::<_, InitError>(before));
        lemma_survey_prefix(bytes, rest, n);
        assert(rest.take(n) =~= items.take(n));
    }
}

/// In an instrumented component, the module at `k` exports every one of its globals that are
/// exposed, by its index, and under the name by which it is read.
pub proof fn law_instrumented_module_exports_its_globals(
    bytes: Seq<u8>,
    items: Seq<Result<ItemV, ReadError>>,
    k: int,
    x: int,
)
    requires
        surveyed(bytes, items) is Ok,
        0 <= k < items.len(),
        items[k] is Ok,
        items[k]->Ok_0.content is CoreModule,
        0 <= x < surveyed(bytes, items)->Ok_0.exposed.len(),
        surveyed(bytes, items)->Ok_0.exposed[x].module == modules(items.take(k)),
    ensures
        ({
            let s = surveyed(bytes, items)->Ok_0;
            let place = outlines(bytes, items.take(k)).len() as int;
            &&& place < s.sections.len()
            &&& s.sections[place] is Module
            &&& s.exposed[x].name is Some
            &&& is_exported(
                s.sections[place]->Module_0,
                s.exposed[x].name->Some_0,
                s.exposed[x].index,
            )
        }),
{
    let s = surveyed(bytes, items)->Ok_0;
    let list = items[k]->Ok_0.content->CoreModule_0;
    let step = component_step(bytes);
    lemma_survey_prefix(bytes, items, k);
    lemma_survey_prefix(bytes, items, k + 1);
    lemma_fold_step(nothing_found(), items, k, step);
    let before = surveyed(bytes, items.take(k))->Ok_0;
    let after = surveyed(bytes, items.take(k + 1))->Ok_0;
    assert(step(before, items[k]) == Ok::<_, InitError>(after));
    lemma_places(bytes, items.take(k));
    lemma_survey_outlines(bytes, items.take(k));
    assert(outlined(before.sections).len() == before.sections.len());
    let module = before.counts.modules;
    let m = all_exported(fold(entering(before), list, module_step(bytes, module))->Ok_0);
    law_exposed_globals_are_exported(bytes, module, entering(before), list);
    let place = before.sections.len() as int;
    assert(after.sections[place] == ComponentSectionV::Module(m.sections));
    assert(s.sections[place] == after.sections[place]);
    lemma_own_exposed(bytes, items, k, x);
    let y = x - before.exposed.len();
    assert(after.exposed[x] == m.exposed[y]);
    assert(s.exposed[x] == after.exposed[x]);
    assert(names_are_exported(m.exposed, m.sections));
    assert(m.exposed[y].name is Some);
}

/// An exposed global with the number of a module comes of that module.
proof fn lemma_own_exposed(bytes: Seq<u8>, items: Seq<Result<ItemV, ReadError>>, k: int, x: int)
    requires
        surveyed(bytes, items) is Ok,
        0 <= k < items.len(),
        items[k] is Ok,
        items[k]->Ok_0.content is CoreModule,
        0 <= x < surveyed(bytes, items)->Ok_0.exposed.len(),
        surveyed(bytes, items)->Ok_0.exposed[x].module == modules(items.take(k)),
    ensures
        surveyed(bytes, items.take(k)) is Ok,
        surveyed(bytes, items.take(k))->Ok_0.exposed.len() <= x,
        surveyed(bytes, items.take(k + 1)) is Ok,
        x < surveyed(bytes, items.take(k + 1))->Ok_0.exposed.len(),
{
    lemma_survey_prefix(bytes, items, k);
    lemma_survey_prefix(bytes, items, k + 1);
    let s = surveyed(bytes, items)->Ok_0;
    let before = surveyed(bytes, items.take(k))->Ok_0;
    let after = surveyed(bytes, items.take(k + 1))->Ok_0;
    if x < before.exposed.len() {
        lemma_modules_below(bytes, items.take(k), x);
        assert(before.exposed[x] == s.exposed[x]);
    }
    if x >= after.exposed.len() {
        lemma_modules_above(bytes, items, k + 1, x);
        lemma_places(bytes, items.take(k + 1));
        assert(items.take(k + 1).drop_last() =~= items.take(k));
        assert(items.take(k + 1).last() == items[k]);
    }
}

proof fn lemma_exposed_numbers(
    s: ModuleSurveyV,
    bytes: Seq<u8>,
    module: u32,
    items: Seq<Result<ModuleItemV, ReadError>>,
)
    requires
        s.decls.len() == 0,
        s.exposed.len() == 0,
    ensures
        fold(s, items, module_step(bytes, module)) matches Ok(m) ==> forall|y: int|
            0 <= y < all_exported(m).exposed.len() ==> (#[trigger] all_exported(
                m,
            ).exposed[y]).module == module,
{
    lemma_module_places(s, bytes, module, items);
    if let Ok(m) = fold(s, items, module_step(bytes, module)) {
        lemma_changing_numbers(module, globals_of(items));
        let all = places(m.exposed);
        assert forall|y: int| 0 <= y < all_exported(m).exposed.len() implies (
        #[trigger] all_exported(m).exposed[y]).module == module by {
            assert(all[y].module == m.exposed[y].module);
            assert(all_exported(m).exposed[y].module == m.exposed[y].module);
        }
    }
}

proof fn lemma_changing_numbers(module: u32, slots: Seq<GlobalSlot>)
    ensures
        forall|y: int|
            0 <= y < changing(module, slots).len() ==> (#[trigger] changing(
                module,
                slots,
            )[y]).module == module,
    decreases slots.len(),
{
    if slots.len() > 0 {
        lemma_changing_numbers(module, slots.drop_last());
    }
}

proof fn lemma_modules_below(bytes: Seq<u8>, items: Seq<Result<ItemV, ReadError>>, x: int)
    requires
        surveyed(bytes, items) is Ok,
        0 <= x < surveyed(bytes, items)->Ok_0.exposed.len(),
    ensures
        surveyed(bytes, items)->Ok_0.exposed[x].module < modules(items),
    decreases items.len(),
{
    if items.len() > 0 {
        let step = component_step(bytes);
        let rest = items.drop_last();
        let found = fold(nothing_found(), items, step)->Ok_0;
        let before = fold(nothing_found(), rest, step)->Ok_0;
        assert(step(before, items.last()) == Ok::<_, InitError>(found));
        assert(surveyed(bytes, rest) == Ok::<_, InitError>(before));
        lemma_places(bytes, rest);
        if x < before.exposed.len() {
            lemma_modules_below(bytes, rest, x);
            assert(found.exposed[x] == before.exposed[x]);
        } else {
            let list = items.last()->Ok_0.content->CoreModule_0;
            let module = before.counts.modules;
            lemma_exposed_numbers(entering(before), bytes, module, list);
            let m = all_exported(fold(entering(before), list, module_step(bytes, module))->Ok_0);
            assert(found.exposed[x] == m.exposed[x - before.exposed.len()]);
        }
    }
}

proof fn lemma_modules_above(bytes: Seq<u8>, items: Seq<Result<ItemV, ReadError>>, n: int, x: int)
    requires
        0 <= n <= items.len(),
        surveyed(bytes, items) is Ok,
        surveyed(bytes, items.take(n)) is Ok,
        surveyed(bytes, items.take(n))->Ok_0.exposed.len() <= x,
        x < surveyed(bytes, items)->Ok_0.exposed.len(),
    ensures
        surveyed(bytes, items)->Ok_0.exposed[x].module >= modules(items.take(n)),
    decreases items.len(),
{
    if n == items.len() {
        assert(items.take(n) =~= items);
    } else {
        let step = component_step(bytes);
        let rest = items.drop_last();
        let found = fold(nothing_found(), items, step)->Ok_0;
        let before = fold(nothing_found(), rest, step)->Ok_0;
        assert(step(before, items.last()) == Ok::<_, InitError>(found));
        assert(surveyed(bytes, rest) == Ok::<_, InitError>(before));
        assert(rest.take(n) =~= items.take(n));
        if x < before.exposed.len() {
            lemma_modules_above(bytes, rest, n, x);
            assert(found.exposed[x] == before.exposed[x]);
        } else {
            let list = items.last()->Ok_0.content->CoreModule_0;
            let module = before.counts.modules;
            lemma_places(bytes, rest);
            lemma_modules_grow(rest, n);
            lemma_exposed_numbers(entering(before), bytes, module, list);
            let m = all_exported(fold(entering(before), list, module_step(bytes, module))->Ok_0);
            assert(found.exposed[x] == m.exposed[x - before.exposed.len()]);
        }
    }
}

proof fn lemma_modules_grow(items: Seq<Result<ItemV, ReadError>>, n: int)
    requires
        0 <= n <= items.len(),
    ensures
        modules(items.take(n)) <= modules(items),
    decreases items.len(),
{
    if n == items.len() {
        assert(items.take(n) =~= items);
    } else {
        lemma_modules_grow(items.drop_last(), n);
        assert(items.drop_last().take(n) =~= items.take(n));
    }
}

/// The global holds a number that is no vector.
pub open spec fn is_number(p: Place) -> bool {
    match p.content {
        GlobalContent::Value(ValueType::V128) => false,
        GlobalContent::Value(_) => true,
        GlobalContent::Reference => false,
    }
}

/// The stack pointer that a memory calls for is there: exactly one global of the component is
/// exported by its name, it can change and is of type I32, and its module has an instance if
/// that of the memory has one.
pub open spec fn has_pointer(items: Seq<Result<ItemV, ReadError>>) -> bool {
    let pointers = all_pointers(items);
    &&& pointers.len() == 1
    &&& pointers[0].decl == Some(
        GlobalDecl { content: GlobalContent::Value(ValueType::I32), mutable: true },
    )
    &&& instantiated(items).contains(all_memories(items)[0].0) ==> instantiated(items).contains(
        pointers[0].module,
    )
}

/// A component that is accepted is instrumented if its state can be read: every global that
/// can change holds a number that is no vector, no global is of reference type, there is a
/// stack pointer if there is a memory, and there are so many indices left as there are globals
/// that change, and two.
pub proof fn law_component_with_readable_state_is_instrumented(
    bytes: Seq<u8>,
    items: Seq<Result<ItemV, ReadError>>,
)
    requires
        surveyed(bytes, items) is Ok,
        forall|k: int|
            0 <= k < changing_globals(items).len() ==> is_number(
                #[trigger] changing_globals(items)[k],
            ),
        no_reference_globals(items),
        all_memories(items).len() > 0 ==> has_pointer(items),
        ({
            let more = changing_globals(items).len() + 2;
            &&& sorts(items, Sort::CoreFunc) + more <= u32::MAX
            &&& sorts(items, Sort::Func) + more <= u32::MAX
            &&& sorts(items, Sort::Type) + defined_types(items) + more <= u32::MAX
        }),
    ensures
        instrumented(surveyed(bytes, items)->Ok_0) is Ok,
{
    let s = surveyed(bytes, items)->Ok_0;
    lemma_places(bytes, items);
    lemma_counts(bytes, items);
    lemma_memory(bytes, items);
    lemma_all_pointers(bytes, items);
    lemma_references(bytes, items);
    lemma_rules(bytes, items);
    law_exposed_globals_have_names(bytes, items);
    law_instrumenting_fails_for_these_reasons(s);
    lemma_live_globals(s.exposed, s.instantiations);
    let all = places(s.exposed);
    assert(all.len() == s.exposed.len());
    assert forall|k: int| 0 <= k < s.exposed.len() implies can_be_read(#[trigger] s.exposed[k]) by {
        assert(is_number(changing_globals(items)[k]));
        assert(all[k].content == s.exposed[k].content);
        assert(all_named(s.exposed));
    }
    if s.memory is Some {
        lemma_listed(s.instantiations, s.memory->Some_0.0);
        lemma_listed(s.instantiations, s.stack_pointers[0].module);
        assert(has_stack_pointer(s));
    }
    assert(has_indices(s, live(s).exposed.len(), live(s).memory is Some));
}

proof fn lemma_listed(known: Seq<Instantiated>, module: u32)
    ensures
        has_instance(known, module) <==> modules_of(known).contains(module),
{
    let list = modules_of(known);
    if has_instance(known, module) {
        let j = choose|j: int| 0 <= j < known.len() && (#[trigger] known[j]).module == module;
        assert(list[j] == module);
    }
    if list.contains(module) {
        let j = choose|j: int| 0 <= j < list.len() && list[j] == module;
        assert(known[j].module == module);
    }
}

} // verus!
