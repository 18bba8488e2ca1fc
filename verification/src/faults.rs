//! Which error comes of which fault: the first fault decides.
use vstd::prelude::*;
use crate::error::InitError;
use crate::fold::{fold, lemma_fold_step, lemma_fold_stop};
use crate::instrument::{exposure_step, instrumented, lemma_readable, live, readable};
use crate::parse::{
    GlobalContent, GlobalDecl, GlobalEntry, InstanceKind, OperatorKind, ReadError, Sort,
};
use crate::rules::{
    lemma_module_rules, lemma_rules, memories, module_memories, module_tables, tables,
};
use crate::segments::segments_of;
use crate::snapshot::{
    image_step, initial_step, initialized, is_addressable, module_image, module_image_step,
    no_image, value_of, GlobalState, GlobalValue, GlobalsV, ModuleImageV, ModulePlan, SnapshotV,
};
use crate::survey::{
    before_payload, component_step, entering, export_step, global_step, has_instance, import_step,
    instance_step, memory_step, module_step, nothing_found, operator_step, sort_step, surveyed,
    Counts, ExportsV, ExposedV, ModuleSurveyV, SurveyV,
};
use crate::tree::{instantiated, ContentV, ItemV, ModuleContentV, ModuleItemV};
use crate::wasm::{ComponentSectionV, ExportV, ModuleSectionV, ValueType};

verus! {

/// A payload that cannot be read, a core module in place of a component, and a component in a
/// component are refused each by an error of its own.
pub proof fn law_component_faults(bytes: Seq<u8>, items: Seq<Result<ItemV, ReadError>>, k: int)
    requires
        0 <= k < items.len(),
        surveyed(bytes, items.take(k)) is Ok,
    ensures
        match items[k] {
            Err(e) => surveyed(bytes, items) == Err::<SurveyV, _>(
                InitError::Malformed { offset: e.offset },
            ),
            Ok(ItemV { content: ContentV::Header { component: false }, .. }) => surveyed(
                bytes,
                items,
            ) == Err::<SurveyV, _>(InitError::NotComponent),
            Ok(ItemV { content: ContentV::Subcomponent, .. }) => surveyed(bytes, items) == Err::<
                SurveyV,
                _,
            >(InitError::Subcomponent),
            Ok(ItemV { content: ContentV::Other, section: Some(r) }) => !(r.start <= r.end
                <= bytes.len()) ==> surveyed(bytes, items) == Err::<SurveyV, _>(
                InitError::Malformed { offset: r.start },
            ),
            Ok(ItemV { content: ContentV::Types(count), .. }) => surveyed(
                bytes,
                items.take(k),
            )->Ok_0.counts.types + count > u32::MAX ==> surveyed(bytes, items) == Err::<
                SurveyV,
                _,
            >(InitError::TooMany),
            _ => true,
        },
{
    let step = component_step(bytes);
    let s = surveyed(bytes, items.take(k))->Ok_0;
    if step(s, items[k]) is Err {
        lemma_fold_stop(nothing_found(), items, k, step);
    }
}

/// A second instance of a module is refused.
pub proof fn law_second_instance_is_refused(
    bytes: Seq<u8>,
    items: Seq<Result<ItemV, ReadError>>,
    k: int,
    list: Seq<Result<InstanceKind, ReadError>>,
    i: int,
    module: u32,
)
    requires
        0 <= k < items.len(),
        surveyed(bytes, items.take(k)) is Ok,
        items[k] is Ok,
        items[k]->Ok_0.content == ContentV::Instances(list),
        0 <= i < list.len(),
        list[i] == Ok::<_, ReadError>(InstanceKind::Instantiate { module }),
        ({
            let s = surveyed(bytes, items.take(k))->Ok_0;
            let known = fold(
                (s.counts.instances, s.instantiations),
                list.take(i),
                instance_step(),
            );
            known matches Ok((n, made)) && n < u32::MAX && has_instance(made, module)
        }),
    ensures
        surveyed(bytes, items) == Err::<SurveyV, _>(InitError::InstantiatedTwice),
{
    let s = surveyed(bytes, items.take(k))->Ok_0;
    lemma_fold_stop((s.counts.instances, s.instantiations), list, i, instance_step());
    lemma_fold_stop(nothing_found(), items, k, component_step(bytes));
}

/// What a fault in a module is refused by: a payload that cannot be read, a second table, a
/// second memory, or an operator that changes a table.
pub open spec fn module_fault(
    tables_before: nat,
    memories_before: nat,
    item: Result<ModuleItemV, ReadError>,
) -> Option<InitError> {
    match item {
        Err(e) => Some(InitError::Malformed { offset: e.offset }),
        Ok(ModuleItemV { content: ModuleContentV::Tables(count), .. }) => if tables_before + count
            > 1 {
            Some(InitError::SecondTable)
        } else {
            None
        },
        Ok(ModuleItemV { content: ModuleContentV::Memories(list), .. }) => if memories_before == 1
            && list.len() > 0 {
            Some(InitError::SecondMemory)
        } else if memories_before == 0 && list.len() > 1 && list[0] is Ok {
            Some(InitError::SecondMemory)
        } else {
            None
        },
        Ok(ModuleItemV { content: ModuleContentV::Operators(list), .. }) => if list.len() > 0
            && list[0] is Ok && list[0]->Ok_0 != OperatorKind::Other {
            Some(InitError::TableOperation)
        } else {
            None
        },
        _ => None,
    }
}

/// The first fault in a module decides what its component is refused by.
pub proof fn law_module_faults(
    bytes: Seq<u8>,
    items: Seq<Result<ItemV, ReadError>>,
    k: int,
    list: Seq<Result<ModuleItemV, ReadError>>,
    i: int,
    e: InitError,
)
    requires
        0 <= k < items.len(),
        surveyed(bytes, items.take(k)) is Ok,
        surveyed(bytes, items.take(k))->Ok_0.counts.modules < u32::MAX,
        items[k] is Ok,
        items[k]->Ok_0.content == ContentV::CoreModule(list),
        0 <= i < list.len(),
        ({
            let s = surveyed(bytes, items.take(k))->Ok_0;
            fold(entering(s), list.take(i), module_step(bytes, s.counts.modules)) is Ok
        }),
        module_fault(
            tables(items.take(k)) + module_tables(list.take(i)),
            memories(items.take(k)) + module_memories(list.take(i)),
            list[i],
        ) == Some(e),
    ensures
        surveyed(bytes, items) == Err::<SurveyV, _>(e),
{
    let s = surveyed(bytes, items.take(k))->Ok_0;
    let module = s.counts.modules;
    let step = module_step(bytes, module);
    let m = fold(entering(s), list.take(i), step)->Ok_0;
    lemma_rules(bytes, items.take(k));
    lemma_module_rules(entering(s), bytes, module, list.take(i));
    if let Ok(item) = list[i] {
        let met = before_payload(m, item.section);
        match item.content {
            ModuleContentV::Memories(l) => {
                if met.memory is Some {
                    assert(l.take(0) =~= seq![]);
                    lemma_fold_stop(met.memory, l, 0, memory_step(module));
                } else {
                    assert(l.take(0) =~= seq![]);
                    lemma_fold_step(met.memory, l, 0, memory_step(module));
                    assert(l.take(1).len() == 1);
                    lemma_fold_stop(met.memory, l, 1, memory_step(module));
                }
            },
            ModuleContentV::Operators(l) => {
                assert(l.take(0) =~= seq![]);
                lemma_fold_stop((), l, 0, operator_step());
            },
            _ => {},
        }
    }
    assert(step(m, list[i]) == Err::<ModuleSurveyV, _>(e));
    lemma_fold_stop(entering(s), list, i, step);
    lemma_fold_stop(nothing_found(), items, k, component_step(bytes));
}

/// Operators that change a table are refused wherever they stand.
pub proof fn law_table_operations_are_refused(list: Seq<Result<OperatorKind, ReadError>>, i: int)
    requires
        0 <= i < list.len(),
        forall|j: int|
            0 <= j < i ==> #[trigger] list[j] == Ok::<_, ReadError>(OperatorKind::Other),
    ensures
        match list[i] {
            Ok(OperatorKind::Other) => true,
            Ok(_) => fold((), list, operator_step()) == Err::<(), _>(InitError::TableOperation),
            Err(e) => fold((), list, operator_step()) == Err::<(), _>(
                InitError::Malformed { offset: e.offset },
            ),
        },
{
    lemma_plain_operators(list.take(i));
    if list[i] != Ok::<_, ReadError>(OperatorKind::Other) {
        lemma_fold_stop((), list, i, operator_step());
    }
}

proof fn lemma_plain_operators(list: Seq<Result<OperatorKind, ReadError>>)
    requires
        forall|j: int|
            0 <= j < list.len() ==> #[trigger] list[j] == Ok::<_, ReadError>(OperatorKind::Other),
    ensures
        fold((), list, operator_step()) == Ok::<(), InitError>(()),
    decreases list.len(),
{
    if list.len() > 0 {
        let rest = list.drop_last();
        assert forall|j: int| 0 <= j < rest.len() implies #[trigger] rest[j] == Ok::<
            _,
            ReadError,
        >(OperatorKind::Other) by {
            assert(rest[j] == list[j]);
        }
        lemma_plain_operators(rest);
        assert(list[list.len() - 1] == Ok::<_, ReadError>(OperatorKind::Other));
    }
}

/// There is the stack pointer that a component with a memory needs: exactly one module
/// exports a global by its name, the global can change and is of type I32, and the module
/// has an instance if the memory is one that is to be read.
pub open spec fn has_stack_pointer(s: SurveyV) -> bool {
    &&& s.stack_pointers.len() == 1
    &&& s.stack_pointers[0].decl == Some(
        GlobalDecl { content: GlobalContent::Value(ValueType::I32), mutable: true },
    )
    &&& has_instance(s.instantiations, s.memory->Some_0.0) ==> has_instance(
        s.instantiations,
        s.stack_pointers[0].module,
    )
}

/// The global can be read: it has a name, and holds a number that is no vector.
pub open spec fn can_be_read(x: ExposedV) -> bool {
    &&& x.name is Some
    &&& match x.content {
        GlobalContent::Value(ValueType::V128) => false,
        GlobalContent::Value(_) => true,
        GlobalContent::Reference => false,
    }
}

/// There are indices for so many globals more, and for what the memory adds: two types and
/// a function.
pub open spec fn has_indices(s: SurveyV, globals: nat, memory: bool) -> bool {
    let types = globals + (if memory {
        2nat
    } else {
        0
    });
    let functions = globals + (if memory {
        1nat
    } else {
        0
    });
    &&& types <= u32::MAX
    &&& types > 0 ==> s.counts.types + types <= 0x1_0000_0000
    &&& functions > 0 ==> s.counts.core_functions + functions <= 0x1_0000_0000
    &&& functions > 0 ==> s.counts.functions + functions <= 0x1_0000_0000
}

/// A component is instrumented exactly if every exposed global can be read, no global is of
/// reference type, there is a stack pointer if there is a memory, and there are indices for
/// what is added.  Otherwise the error says which of these fails.
pub proof fn law_instrumenting_fails_for_these_reasons(s: SurveyV)
    ensures
        instrumented(s) is Ok <==> {
            &&& forall|k: int| 0 <= k < s.exposed.len() ==> can_be_read(#[trigger] s.exposed[k])
            &&& !s.reference_global
            &&& s.memory is Some ==> has_stack_pointer(s)
            &&& has_indices(s, live(s).exposed.len(), live(s).memory is Some)
        },
        match instrumented(s) {
            Ok(_) => true,
            Err(InitError::UnexportedGlobal { module, index }) => exists|k: int|
                0 <= k < s.exposed.len() && (#[trigger] s.exposed[k]).name is None
                    && s.exposed[k].module == module && s.exposed[k].index == index,
            Err(InitError::V128Global) => exists|k: int|
                0 <= k < s.exposed.len() && (#[trigger] s.exposed[k]).content
                    == GlobalContent::Value(ValueType::V128),
            Err(InitError::ReferenceGlobal) => s.reference_global || exists|k: int|
                0 <= k < s.exposed.len() && (#[trigger] s.exposed[k]).content
                    == GlobalContent::Reference,
            Err(InitError::StackPointer) => s.memory is Some && !has_stack_pointer(s),
            Err(InitError::TooMany) => !has_indices(
                s,
                live(s).exposed.len(),
                live(s).memory is Some,
            ),
            Err(_) => false,
        },
{
    lemma_readable(s.exposed);
    assert forall|k: int| 0 <= k < s.exposed.len() implies readable(#[trigger] s.exposed[k])
        == can_be_read(s.exposed[k]) by {}
    lemma_unreadable(s.exposed);
    if fold((), s.exposed, exposure_step()) is Ok {
        assert forall|k: int| 0 <= k < s.exposed.len() implies can_be_read(
            #[trigger] s.exposed[k],
        ) by {
            assert(readable(s.exposed[k]));
        }
    } else {
        let k = choose|k: int| 0 <= k < s.exposed.len() && !readable(#[trigger] s.exposed[k]);
        assert(!can_be_read(s.exposed[k]));
    }
}

proof fn lemma_unreadable(exposed: Seq<ExposedV>)
    ensures
        match fold((), exposed, exposure_step()) {
            Ok(_) => true,
            Err(InitError::UnexportedGlobal { module, index }) => exists|k: int|
                0 <= k < exposed.len() && (#[trigger] exposed[k]).name is None
                    && exposed[k].module == module && exposed[k].index == index,
            Err(InitError::V128Global) => exists|k: int|
                0 <= k < exposed.len() && (#[trigger] exposed[k]).content == GlobalContent::Value(
                    ValueType::V128,
                ),
            Err(InitError::ReferenceGlobal) => exists|k: int|
                0 <= k < exposed.len() && (#[trigger] exposed[k]).content
                    == GlobalContent::Reference,
            Err(_) => false,
        },
    decreases exposed.len(),
{
    if exposed.len() > 0 {
        let rest = exposed.drop_last();
        lemma_unreadable(rest);
        let before = fold((), rest, exposure_step());
        let n = exposed.len() - 1;
        assert(exposed[n] == exposed.last());
        match before {
            Err(InitError::UnexportedGlobal { module, index }) => {
                let k = choose|k: int|
                    0 <= k < rest.len() && (#[trigger] rest[k]).name is None
                        && rest[k].module == module && rest[k].index == index;
                assert(exposed[k] == rest[k]);
            },
            Err(InitError::V128Global) => {
                let k = choose|k: int|
                    0 <= k < rest.len() && (#[trigger] rest[k]).content == GlobalContent::Value(
                        ValueType::V128,
                    );
                assert(exposed[k] == rest[k]);
            },
            Err(InitError::ReferenceGlobal) => {
                let k = choose|k: int|
                    0 <= k < rest.len() && (#[trigger] rest[k]).content
                        == GlobalContent::Reference;
                assert(exposed[k] == rest[k]);
            },
            _ => {},
        }
    }
}

/// The value is of the type.
pub open spec fn is_of(value: GlobalValue, ty: ValueType) -> bool {
    match value {
        GlobalValue::I32(_) => ty == ValueType::I32,
        GlobalValue::I64(_) => ty == ValueType::I64,
        GlobalValue::F32(_) => ty == ValueType::F32,
        GlobalValue::F64(_) => ty == ValueType::F64,
    }
}

/// The value that a snapshot has of a global is the first of its type that is there for the
/// index in the module, and it has none exactly if none is there.
pub proof fn law_value_is_the_first_of_its_type(
    globals: Seq<GlobalState>,
    module: u32,
    index: u32,
    ty: ValueType,
)
    ensures
        match value_of(globals, module, index, ty) {
            Some(value) => is_of(value, ty) && exists|k: int|
                {
                    &&& 0 <= k < globals.len()
                    &&& #[trigger] globals[k] == (GlobalState { module, index, value })
                    &&& forall|j: int|
                        0 <= j < k ==> !((#[trigger] globals[j]).module == module
                            && globals[j].index == index && is_of(globals[j].value, ty))
                },
            None => forall|k: int|
                0 <= k < globals.len() ==> !((#[trigger] globals[k]).module == module
                    && globals[k].index == index && is_of(globals[k].value, ty)),
        },
    decreases globals.len(),
{
    if globals.len() > 0 {
        let rest = globals.skip(1);
        law_value_is_the_first_of_its_type(rest, module, index, ty);
        let first = globals[0];
        let found = value_of(globals, module, index, ty);
        if first.module == module && first.index == index && is_of(first.value, ty) {
            assert(found == Some(first.value));
            assert(globals[0] == (GlobalState { module, index, value: first.value }));
        } else {
            assert(found == value_of(rest, module, index, ty));
            if let Some(value) = found {
                let k = choose|k: int|
                    {
                        &&& 0 <= k < rest.len()
                        &&& #[trigger] rest[k] == (GlobalState { module, index, value })
                        &&& forall|j: int|
                            0 <= j < k ==> !((#[trigger] rest[j]).module == module
                                && rest[j].index == index && is_of(rest[j].value, ty))
                    };
                assert(globals[k + 1] == rest[k]);
                assert forall|j: int| 0 <= j < k + 1 implies !((#[trigger] globals[j]).module
                    == module && globals[j].index == index && is_of(globals[j].value, ty)) by {
                    if j > 0 {
                        assert(globals[j] == rest[j - 1]);
                    }
                }
            } else {
                assert forall|k: int| 0 <= k < globals.len() implies !((
                #[trigger] globals[k]).module == module && globals[k].index == index && is_of(
                    globals[k].value,
                    ty,
                )) by {
                    if k > 0 {
                        assert(globals[k] == rest[k - 1]);
                    }
                }
            }
        }
    }
}

/// A global that can change, of a module with an instance, cannot be given a value if the
/// snapshot has none of its type for it: the error names the global.
pub proof fn law_missing_value_is_named(
    bytes: Seq<u8>,
    snapshot: SnapshotV,
    plan: ModulePlan,
    s: GlobalsV,
    list: Seq<Result<GlobalEntry, ReadError>>,
    j: int,
    ty: ValueType,
)
    requires
        0 <= j < list.len(),
        fold(s, list.take(j), initial_step(bytes, snapshot, plan)) is Ok,
        list[j] is Ok,
        list[j]->Ok_0.decl == (GlobalDecl { content: GlobalContent::Value(ty), mutable: true }),
        plan.has_instance,
        s.decls.len() + j < u32::MAX,
        forall|k: int|
            0 <= k < snapshot.globals.len() ==> !((#[trigger] snapshot.globals[k]).module
                == plan.module && snapshot.globals[k].index == s.decls.len() + j && is_of(
                snapshot.globals[k].value,
                ty,
            )),
    ensures
        fold(s, list, initial_step(bytes, snapshot, plan)) == Err::<GlobalsV, _>(
            InitError::MissingValue { module: plan.module, index: (s.decls.len() + j) as u32 },
        ),
{
    let step = initial_step(bytes, snapshot, plan);
    lemma_decl_count(bytes, snapshot, plan, s, list.take(j));
    let index = (s.decls.len() + j) as u32;
    law_value_is_the_first_of_its_type(snapshot.globals, plan.module, index, ty);
    assert(value_of(snapshot.globals, plan.module, index, ty) is None);
    lemma_fold_stop(s, list, j, step);
}

proof fn lemma_decl_count(
    bytes: Seq<u8>,
    snapshot: SnapshotV,
    plan: ModulePlan,
    s: GlobalsV,
    list: Seq<Result<GlobalEntry, ReadError>>,
)
    ensures
        fold(s, list, initial_step(bytes, snapshot, plan)) matches Ok(found) ==> found.decls.len()
            == s.decls.len() + list.len(),
    decreases list.len(),
{
    if list.len() > 0 {
        lemma_decl_count(bytes, snapshot, plan, s, list.drop_last());
    }
}

/// What stands in the way of an initialized component: a payload that cannot be read, another
/// component, or what stands in the way of a module of it.
pub proof fn law_initialization_faults(
    bytes: Seq<u8>,
    items: Seq<Result<ItemV, ReadError>>,
    snapshot: SnapshotV,
    k: int,
)
    requires
        0 <= k < items.len(),
        fold(
            no_image(),
            items.take(k),
            image_step(bytes, snapshot, instantiated(items)),
        ) is Ok,
    ensures
        match items[k] {
            Err(e) => initialized(bytes, items, snapshot) == Err::<Seq<ComponentSectionV>, _>(
                InitError::Malformed { offset: e.offset },
            ),
            Ok(ItemV { content: ContentV::Subcomponent, .. }) => initialized(
                bytes,
                items,
                snapshot,
            ) == Err::<Seq<ComponentSectionV>, _>(InitError::Subcomponent),
            Ok(ItemV { content: ContentV::Other, section: Some(r) }) => !(r.start <= r.end
                <= bytes.len()) ==> initialized(bytes, items, snapshot) == Err::<
                Seq<ComponentSectionV>,
                _,
            >(InitError::Malformed { offset: r.start }),
            _ => true,
        },
{
    let step = image_step(bytes, snapshot, instantiated(items));
    let s = fold(no_image(), items.take(k), step)->Ok_0;
    if step(s, items[k]) is Err {
        lemma_fold_stop(no_image(), items, k, step);
    }
}

/// A memory that holds data from two gigabytes on is refused, by an error of its own.
pub proof fn law_large_memory_is_refused(
    bytes: Seq<u8>,
    snapshot: SnapshotV,
    plan: ModulePlan,
    items: Seq<Result<ModuleItemV, ReadError>>,
    image: Seq<u8>,
    k: int,
)
    requires
        snapshot.memory == Some((plan.module, image)),
        0 <= k < segments_of(image).len(),
        segments_of(image)[k].0 >= 0x8000_0000,
        fold(
            ModuleImageV { decls: seq![], sections: seq![] },
            items,
            module_image_step(bytes, snapshot, plan),
        ) is Ok,
    ensures
        module_image(bytes, snapshot, plan, items) == Err::<Seq<ModuleSectionV>, _>(
            InitError::MemoryTooLarge,
        ),
{
    assert(!is_addressable(image)) by {
        assert(segments_of(image)[k].0 > i32::MAX);
    }
}

/// An entry of an import section that cannot be read is refused by where it stands, and so is
/// one of a global section.
pub proof fn law_unreadable_entries(
    decls: Seq<GlobalDecl>,
    imports: Seq<Result<Option<GlobalDecl>, ReadError>>,
    module: u32,
    s: ModuleSurveyV,
    globals: Seq<Result<GlobalEntry, ReadError>>,
    i: int,
    e: ReadError,
)
    ensures
        0 <= i < imports.len() && fold(decls, imports.take(i), import_step()) is Ok && imports[i]
            == Err::<Option<GlobalDecl>, _>(e) ==> fold(decls, imports, import_step()) == Err::<
            Seq<GlobalDecl>,
            _,
        >(InitError::Malformed { offset: e.offset }),
        0 <= i < globals.len() && fold(s, globals.take(i), global_step(module)) is Ok && globals[i]
            == Err::<GlobalEntry, _>(e) ==> fold(s, globals, global_step(module)) == Err::<
            ModuleSurveyV,
            _,
        >(InitError::Malformed { offset: e.offset }),
{
    if 0 <= i < imports.len() && fold(decls, imports.take(i), import_step()) is Ok && imports[i]
        == Err::<Option<GlobalDecl>, _>(e) {
        lemma_fold_stop(decls, imports, i, import_step());
    }
    if 0 <= i < globals.len() && fold(s, globals.take(i), global_step(module)) is Ok && globals[i]
        == Err::<GlobalEntry, _>(e) {
        lemma_fold_stop(s, globals, i, global_step(module));
    }
}

/// An export that cannot be read is refused by where it stands, and so is an item of a section
/// that extends index spaces.
pub proof fn law_unreadable_exports_and_sorts(
    s: ExportsV,
    module: u32,
    decls: Seq<GlobalDecl>,
    exports: Seq<Result<ExportV, ReadError>>,
    c: Counts,
    sorts: Seq<Result<Sort, ReadError>>,
    i: int,
    e: ReadError,
)
    ensures
        0 <= i < exports.len() && fold(s, exports.take(i), export_step(module, decls)) is Ok
            && exports[i] == Err::<ExportV, _>(e) ==> fold(s, exports, export_step(module, decls))
            == Err::<ExportsV, _>(InitError::Malformed { offset: e.offset }),
        0 <= i < sorts.len() && fold(c, sorts.take(i), sort_step()) is Ok && sorts[i] == Err::<
            Sort,
            _,
        >(e) ==> fold(c, sorts, sort_step()) == Err::<Counts, _>(
            InitError::Malformed { offset: e.offset },
        ),
{
    if 0 <= i < exports.len() && fold(s, exports.take(i), export_step(module, decls)) is Ok
        && exports[i] == Err::<ExportV, _>(e) {
        lemma_fold_stop(s, exports, i, export_step(module, decls));
    }
    if 0 <= i < sorts.len() && fold(c, sorts.take(i), sort_step()) is Ok && sorts[i] == Err::<
        Sort,
        _,
    >(e) {
        lemma_fold_stop(c, sorts, i, sort_step());
    }
}

} // verus!
