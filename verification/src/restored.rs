//! What the modules of an initialized component are made of, each in its place.
use vstd::prelude::*;
use crate::asked::{law_captured_global_starts_with_its_reply, starts_with_reply};
use crate::encode::{component_bytes, component_fits};
use crate::error::InitError;
use crate::exposed::{
    changing, changing_globals, defined_globals, globals_of, imported_globals,
    law_captured_globals_come_in_order, law_captured_globals_have_instances, lemma_places,
    lemma_sort_fold, modules, places, precedes, GlobalSlot, Place,
};
use crate::fold::{fold, lemma_fold_err, lemma_fold_step};
use crate::initialize::{capture_outcome, Call};
use crate::instrument::{
    instrumented, instrumented_bytes, law_captured_globals_are_numbers, live, survey_of, to_capture,
    value_type, CapturedGlobal,
};
use crate::parse::{GlobalContent, GlobalDecl, GlobalEntry, ReadError};
use crate::preserved::{
    law_globals_start_with_captured_values, lemma_image_outlines, lemma_image_sections,
    module_outlined, outlined, outlines, outlines_without_state, starts_as,
};
use crate::rules::{lemma_rules, modules_of};
use crate::snapshot::{
    image_segments, image_step, initial_step, initialized, initialized_bytes, module_image,
    module_image_step, no_image, plan_for, GlobalsV, ModuleImageV, ModulePlan, SnapshotV,
};
use crate::survey::{has_instance, import_step, Instantiated};
use crate::tallies::{all_memories, law_memory_is_the_only_one};
use crate::tree::{instantiated, tree, ContentV, ItemV, ModuleContentV, ModuleItemV};
use crate::wasm::{ComponentSectionV, GlobalType, ModuleSectionV, ValueType};

verus! {

/// A pass that succeeds has succeeded over the items that come first.
proof fn lemma_passed<S, T, E>(init: S, items: Seq<T>, n: int, step: spec_fn(S, T) -> Result<S, E>)
    requires
        0 <= n <= items.len(),
        fold(init, items, step) is Ok,
    ensures
        fold(init, items.take(n), step) is Ok,
{
    if fold(init, items.take(n), step) is Err {
        lemma_fold_err(init, items, n, step);
    }
}

proof fn lemma_image_prefix(
    bytes: Seq<u8>,
    items: Seq<Result<ItemV, ReadError>>,
    snapshot: SnapshotV,
    instances: Seq<u32>,
    n: int,
)
    requires
        0 <= n <= items.len(),
        fold(no_image(), items, image_step(bytes, snapshot, instances)) is Ok,
    ensures
        fold(no_image(), items.take(n), image_step(bytes, snapshot, instances)) is Ok,
        fold(
            no_image(),
            items.take(n),
            image_step(bytes, snapshot, instances),
        )->Ok_0.sections.is_prefix_of(
            fold(no_image(), items, image_step(bytes, snapshot, instances))->Ok_0.sections,
        ),
    decreases items.len(),
{
    let step = image_step(bytes, snapshot, instances);
    lemma_passed(no_image(), items, n, step);
    if n == items.len() {
        assert(items.take(n) =~= items);
    } else {
        let rest = items.drop_last();
        let found = fold(no_image(), items, step)->Ok_0;
        let before = fold(no_image(), rest, step)->Ok_0;
        assert(step(before, items.last()) == Ok::<_, InitError>(found));
        assert(before.sections.is_prefix_of(found.sections));
        lemma_image_prefix(bytes, rest, snapshot, instances, n);
        assert(rest.take(n) =~= items.take(n));
    }
}

proof fn lemma_image_modules(
    bytes: Seq<u8>,
    items: Seq<Result<ItemV, ReadError>>,
    snapshot: SnapshotV,
    instances: Seq<u32>,
)
    requires
        fold(no_image(), items, image_step(bytes, snapshot, instances)) is Ok,
    ensures
        fold(no_image(), items, image_step(bytes, snapshot, instances))->Ok_0.counts.modules
            == modules(items),
    decreases items.len(),
{
    let step = image_step(bytes, snapshot, instances);
    let found = fold(no_image(), items, step)->Ok_0;
    if items.len() > 0 {
        let rest = items.drop_last();
        let before = fold(no_image(), rest, step)->Ok_0;
        assert(step(before, items.last()) == Ok::<_, InitError>(found));
        lemma_image_modules(bytes, rest, snapshot, instances);
        match items.last() {
            Ok(ItemV { content: ContentV::Sorts(list), .. }) => {
                lemma_sort_fold(before.counts, list);
            },
            _ => {},
        }
    }
}

/// The plan by which a module is rebuilt: it has the number that its place gives it, it has
/// an instance if something instantiates that number, and it gets the segments of the image
/// if it defines the memory, and none else.
pub open spec fn fits_place(
    items: Seq<Result<ItemV, ReadError>>,
    k: int,
    snapshot: SnapshotV,
    plan: ModulePlan,
) -> bool {
    &&& plan.module == modules(items.take(k))
    &&& plan.has_instance == instantiated(items).contains(plan.module)
    &&& plan.segments == match snapshot.memory {
        Some((defining, image)) => if defining == plan.module {
            image_segments(image).len() as u32
        } else {
            0
        },
        None => 0,
    }
}

/// In an initialized component every module is rebuilt in its place, by the plan for it.
pub proof fn law_modules_are_rebuilt_in_place(
    bytes: Seq<u8>,
    items: Seq<Result<ItemV, ReadError>>,
    snapshot: SnapshotV,
    k: int,
) -> (plan: ModulePlan)
    requires
        initialized(bytes, items, snapshot) is Ok,
        0 <= k < items.len(),
        items[k] is Ok,
        items[k]->Ok_0.content is CoreModule,
    ensures
        fits_place(items, k, snapshot, plan),
        module_image(bytes, snapshot, plan, items[k]->Ok_0.content->CoreModule_0) is Ok,
        outlines(bytes, items.take(k)).len() < initialized(bytes, items, snapshot)->Ok_0.len(),
        initialized(bytes, items, snapshot)->Ok_0[outlines(bytes, items.take(k)).len() as int]
            == ComponentSectionV::Module(
            module_image(
                bytes,
                snapshot,
                plan,
                items[k]->Ok_0.content->CoreModule_0,
            )->Ok_0,
        ),
{
    let instances = instantiated(items);
    let step = image_step(bytes, snapshot, instances);
    let list = items[k]->Ok_0.content->CoreModule_0;
    lemma_image_prefix(bytes, items, snapshot, instances, k);
    lemma_image_prefix(bytes, items, snapshot, instances, k + 1);
    lemma_fold_step(no_image(), items, k, step);
    let before = fold(no_image(), items.take(k), step)->Ok_0;
    let after = fold(no_image(), items.take(k + 1), step)->Ok_0;
    lemma_image_modules(bytes, items.take(k), snapshot, instances);
    lemma_image_sections(bytes, items.take(k), snapshot, instances);
    assert(outlined(before.sections).len() == before.sections.len());
    let plan = plan_for(snapshot, instances, before.counts.modules);
    assert(step(before, items[k]) == Ok::<_, InitError>(after));
    let place = before.sections.len() as int;
    assert(after.sections[place] == ComponentSectionV::Module(
        module_image(bytes, snapshot, plan, list)->Ok_0,
    ));
    plan
}

proof fn lemma_module_prefix(
    bytes: Seq<u8>,
    snapshot: SnapshotV,
    plan: ModulePlan,
    items: Seq<Result<ModuleItemV, ReadError>>,
    n: int,
)
    requires
        0 <= n <= items.len(),
        fold(
            ModuleImageV { decls: seq![], sections: seq![] },
            items,
            module_image_step(bytes, snapshot, plan),
        ) is Ok,
    ensures
        ({
            let init = ModuleImageV { decls: seq![], sections: seq![] };
            let step = module_image_step(bytes, snapshot, plan);
            &&& fold(init, items.take(n), step) is Ok
            &&& fold(init, items.take(n), step)->Ok_0.sections.is_prefix_of(
                fold(init, items, step)->Ok_0.sections,
            )
        }),
    decreases items.len(),
{
    let init = ModuleImageV { decls: seq![], sections: seq![] };
    let step = module_image_step(bytes, snapshot, plan);
    lemma_passed(init, items, n, step);
    if n == items.len() {
        assert(items.take(n) =~= items);
    } else {
        let rest = items.drop_last();
        let found = fold(init, items, step)->Ok_0;
        let before = fold(init, rest, step)->Ok_0;
        assert(step(before, items.last()) == Ok::<_, InitError>(found));
        assert(before.sections.is_prefix_of(found.sections));
        lemma_module_prefix(bytes, snapshot, plan, rest, n);
        assert(rest.take(n) =~= items.take(n));
    }
}

proof fn lemma_module_decls(
    bytes: Seq<u8>,
    snapshot: SnapshotV,
    plan: ModulePlan,
    items: Seq<Result<ModuleItemV, ReadError>>,
)
    requires
        fold(
            ModuleImageV { decls: seq![], sections: seq![] },
            items,
            module_image_step(bytes, snapshot, plan),
        ) is Ok,
    ensures
        fold(
            ModuleImageV { decls: seq![], sections: seq![] },
            items,
            module_image_step(bytes, snapshot, plan),
        )->Ok_0.decls.len() == globals_of(items).len(),
    decreases items.len(),
{
    let init = ModuleImageV { decls: seq![], sections: seq![] };
    let step = module_image_step(bytes, snapshot, plan);
    if items.len() > 0 {
        let rest = items.drop_last();
        let found = fold(init, items, step)->Ok_0;
        let before = fold(init, rest, step)->Ok_0;
        assert(step(before, items.last()) == Ok::<_, InitError>(found));
        lemma_module_decls(bytes, snapshot, plan, rest);
        match items.last() {
            Ok(ModuleItemV { content: ModuleContentV::Imports(list), .. }) => {
                lemma_imported_count(before.decls, list);
            },
            Ok(ModuleItemV { content: ModuleContentV::Globals(list), .. }) => {
                law_globals_start_with_captured_values(bytes, snapshot, plan, before.decls, list);
                let globals = fold(
                    GlobalsV { decls: before.decls, globals: seq![] },
                    list,
                    initial_step(bytes, snapshot, plan),
                )->Ok_0;
                assert forall|j: int| 0 <= j < list.len() implies (#[trigger] list[j]) is Ok by {
                    assert(starts_as(
                        bytes,
                        snapshot,
                        plan,
                        (before.decls.len() + j) as u32,
                        list[j],
                        globals.globals[j],
                    ));
                }
                lemma_defined(list);
            },
            _ => {},
        }
    }
}

proof fn lemma_imported_count(
    decls: Seq<GlobalDecl>,
    list: Seq<Result<Option<GlobalDecl>, ReadError>>,
)
    ensures
        fold(decls, list, import_step()) matches Ok(found) ==> found.len()
            == decls.len() + imported_globals(list).len(),
    decreases list.len(),
{
    if list.len() > 0 {
        lemma_imported_count(decls, list.drop_last());
    }
}

proof fn lemma_defined(list: Seq<Result<GlobalEntry, ReadError>>)
    requires
        forall|j: int| 0 <= j < list.len() ==> (#[trigger] list[j]) is Ok,
    ensures
        defined_globals(list).len() == list.len(),
        forall|j: int|
            0 <= j < list.len() ==> #[trigger] defined_globals(list)[j] == (GlobalSlot {
                decl: list[j]->Ok_0.decl,
                defined: true,
            }),
    decreases list.len(),
{
    if list.len() > 0 {
        let rest = list.drop_last();
        assert forall|j: int| 0 <= j < rest.len() implies (#[trigger] rest[j]) is Ok by {
            assert(list[j] is Ok);
        }
        lemma_defined(rest);
        assert(list[list.len() - 1] is Ok);
        assert forall|j: int| 0 <= j < list.len() implies #[trigger] defined_globals(list)[j] == (
        GlobalSlot { decl: list[j]->Ok_0.decl, defined: true }) by {
            if j < rest.len() {
                assert(defined_globals(list)[j] == defined_globals(rest)[j]);
            }
        }
    }
}

/// In an initialized module every global section is rebuilt in its place.  Its globals have
/// the indices after those of the imports and globals before it.
pub proof fn law_global_sections_are_rebuilt_in_place(
    bytes: Seq<u8>,
    snapshot: SnapshotV,
    plan: ModulePlan,
    items: Seq<Result<ModuleItemV, ReadError>>,
    i: int,
) -> (decls: Seq<GlobalDecl>)
    requires
        module_image(bytes, snapshot, plan, items) is Ok,
        0 <= i < items.len(),
        items[i] is Ok,
        items[i]->Ok_0.content is Globals,
    ensures
        decls.len() == globals_of(items.take(i)).len(),
        ({
            let place = outlines_without_state(bytes, plan.segments, items.take(i)).len() as int;
            let sections = module_image(bytes, snapshot, plan, items)->Ok_0;
            let made = fold(
                GlobalsV { decls, globals: seq![] },
                items[i]->Ok_0.content->Globals_0,
                initial_step(bytes, snapshot, plan),
            );
            &&& made is Ok
            &&& place < sections.len()
            &&& sections[place] == ModuleSectionV::Globals(made->Ok_0.globals)
        }),
{
    let init = ModuleImageV { decls: seq![], sections: seq![] };
    let step = module_image_step(bytes, snapshot, plan);
    lemma_module_prefix(bytes, snapshot, plan, items, i);
    lemma_module_prefix(bytes, snapshot, plan, items, i + 1);
    lemma_fold_step(init, items, i, step);
    let before = fold(init, items.take(i), step)->Ok_0;
    let after = fold(init, items.take(i + 1), step)->Ok_0;
    assert(step(before, items[i]) == Ok::<_, InitError>(after));
    lemma_module_decls(bytes, snapshot, plan, items.take(i));
    lemma_image_outlines(bytes, snapshot, plan, items.take(i));
    assert(module_outlined(before.sections).len() == before.sections.len());
    let place = before.sections.len() as int;
    let whole = fold(init, items, step)->Ok_0.sections;
    assert(after.sections[place] == whole[place]);
    before.decls
}

proof fn lemma_slot_place(
    items: Seq<Result<ModuleItemV, ReadError>>,
    i: int,
    j: int,
)
    requires
        0 <= i < items.len(),
        items[i] is Ok,
        items[i]->Ok_0.content is Globals,
        0 <= j < items[i]->Ok_0.content->Globals_0.len(),
        forall|x: int|
            0 <= x < items[i]->Ok_0.content->Globals_0.len() ==> (
            #[trigger] items[i]->Ok_0.content->Globals_0[x]) is Ok,
    ensures
        globals_of(items.take(i)).len() + j < globals_of(items).len(),
        globals_of(items)[globals_of(items.take(i)).len() + j] == (GlobalSlot {
            decl: items[i]->Ok_0.content->Globals_0[j]->Ok_0.decl,
            defined: true,
        }),
    decreases items.len(),
{
    let rest = items.drop_last();
    if i < rest.len() {
        assert(rest[i] == items[i]);
        assert(rest.take(i) =~= items.take(i));
        lemma_slot_place(rest, i, j);
    } else {
        assert(items.take(i) =~= rest);
        lemma_defined(items[i]->Ok_0.content->Globals_0);
    }
}

proof fn lemma_changing_has(module: u32, slots: Seq<GlobalSlot>, n: int)
    requires
        0 <= n < slots.len(),
        slots[n].defined,
        slots[n].decl.mutable,
    ensures
        changing(module, slots).contains(
            Place { module, index: n as u32, content: slots[n].decl.content },
        ),
    decreases slots.len(),
{
    let rest = slots.drop_last();
    let place = Place { module, index: n as u32, content: slots[n].decl.content };
    let all = changing(module, slots);
    if n < rest.len() {
        assert(rest[n] == slots[n]);
        lemma_changing_has(module, rest, n);
        let fewer = changing(module, rest);
        let x = choose|x: int| 0 <= x < fewer.len() && fewer[x] == place;
        assert(all[x] == place);
    } else {
        assert(all[all.len() - 1] == place);
    }
}

proof fn lemma_component_changing_has(items: Seq<Result<ItemV, ReadError>>, k: int, p: Place)
    requires
        0 <= k < items.len(),
        items[k] is Ok,
        items[k]->Ok_0.content is CoreModule,
        changing(
            modules(items.take(k)) as u32,
            globals_of(items[k]->Ok_0.content->CoreModule_0),
        ).contains(p),
    ensures
        changing_globals(items).contains(p),
    decreases items.len(),
{
    let rest = items.drop_last();
    let all = changing_globals(items);
    let fewer = changing_globals(rest);
    if k < rest.len() {
        assert(rest[k] == items[k]);
        assert(rest.take(k) =~= items.take(k));
        lemma_component_changing_has(rest, k, p);
        let x = choose|x: int| 0 <= x < fewer.len() && fewer[x] == p;
        assert(all[x] == p);
    } else {
        assert(items.take(k) =~= rest);
        let own = changing(
            modules(rest) as u32,
            globals_of(items[k]->Ok_0.content->CoreModule_0),
        );
        let x = choose|x: int| 0 <= x < own.len() && own[x] == p;
        assert(all[fewer.len() + x] == p);
    }
}

proof fn lemma_is_captured_place(component: Seq<u8>, p: Place, ty: ValueType) -> (c: int)
    requires
        instrumented_bytes(component) is Ok,
        changing_globals(tree(component)).contains(p),
        instantiated(tree(component)).contains(p.module),
        p.content == GlobalContent::Value(ty),
    ensures
        0 <= c < instrumented_bytes(component)->Ok_0.1.globals.len(),
        instrumented_bytes(component)->Ok_0.1.globals[c] == (CapturedGlobal {
            module: p.module,
            index: p.index,
            ty,
        }),
{
    let items = tree(component);
    let s = survey_of(component)->Ok_0;
    lemma_places(component, items);
    lemma_rules(component, items);
    let all = places(s.exposed);
    let x = choose|x: int| 0 <= x < all.len() && all[x] == p;
    let e = s.exposed[x];
    assert(all[x] == (Place { module: e.module, index: e.index, content: e.content }));
    let list = modules_of(s.instantiations);
    let y = choose|y: int| 0 <= y < list.len() && list[y] == p.module;
    assert(s.instantiations[y].module == p.module);
    assert(has_instance(s.instantiations, e.module));
    assert(s.exposed.contains(e));
    law_captured_globals_have_instances(s, e);
    let c = choose|c: int| 0 <= c < live(s).exposed.len() && live(s).exposed[c] == e;
    assert(to_capture(live(s)).globals[c].ty == value_type(e));
    c
}

/// Every global of a component that can change, and whose module has an instance, starts in
/// the initialized component with what the instance replied when it was asked for it.
///
/// `k` is the place of the module among the items of the component, `i` that of the global
/// section among those of the module, and `j` that of the global in the section.
pub proof fn law_every_changing_global_starts_with_its_reply(
    component: Seq<u8>,
    made: Seq<Call>,
    snapshot: SnapshotV,
    k: int,
    i: int,
    j: int,
)
    requires
        instrumented_bytes(component) is Ok,
        capture_outcome(instrumented_bytes(component)->Ok_0.1, made, Ok(snapshot)),
        initialized(component, tree(component), snapshot) is Ok,
        0 <= k < tree(component).len(),
        tree(component)[k] is Ok,
        tree(component)[k]->Ok_0.content is CoreModule,
        ({
            let module = modules(tree(component).take(k)) as u32;
            let list = tree(component)[k]->Ok_0.content->CoreModule_0;
            &&& instantiated(tree(component)).contains(module)
            &&& 0 <= i < list.len()
            &&& list[i] is Ok
            &&& list[i]->Ok_0.content is Globals
            &&& 0 <= j < list[i]->Ok_0.content->Globals_0.len()
            &&& list[i]->Ok_0.content->Globals_0[j] is Ok
            &&& list[i]->Ok_0.content->Globals_0[j]->Ok_0.decl.mutable
        }),
    ensures
        ({
            let items = tree(component);
            let module = modules(items.take(k)) as u32;
            let list = items[k]->Ok_0.content->CoreModule_0;
            let decl = list[i]->Ok_0.content->Globals_0[j]->Ok_0.decl;
            let capture = instrumented_bytes(component)->Ok_0.1;
            let section = initialized(component, items, snapshot)->Ok_0[outlines(
                component,
                items.take(k),
            ).len() as int];
            exists|c: int, p: int|
                {
                    &&& 0 <= c < capture.globals.len()
                    &&& (#[trigger] capture.globals[c]).module == module
                    &&& capture.globals[c].index == globals_of(list.take(i)).len() + j
                    &&& decl.content == GlobalContent::Value(capture.globals[c].ty)
                    &&& section is Module
                    &&& 0 <= p < section->Module_0.len()
                    &&& (#[trigger] section->Module_0[p]) is Globals
                    &&& section->Module_0[p]->Globals_0.len()
                        == list[i]->Ok_0.content->Globals_0.len()
                    &&& section->Module_0[p]->Globals_0[j].ty == (GlobalType {
                        val_type: capture.globals[c].ty,
                        mutable: true,
                    })
                    &&& starts_with_reply(
                        made[c].reply,
                        section->Module_0[p]->Globals_0[j].init,
                    )
                }
        }),
{
    let items = tree(component);
    let list = items[k]->Ok_0.content->CoreModule_0;
    let entries = list[i]->Ok_0.content->Globals_0;
    let decl = entries[j]->Ok_0.decl;
    let plan = law_modules_are_rebuilt_in_place(component, items, snapshot, k);
    let module = plan.module;
    let decls = law_global_sections_are_rebuilt_in_place(component, snapshot, plan, list, i);
    law_globals_start_with_captured_values(component, snapshot, plan, decls, entries);
    let step = initial_step(component, snapshot, plan);
    let found = fold(GlobalsV { decls, globals: seq![] }, entries, step)->Ok_0;
    assert forall|x: int| 0 <= x < entries.len() implies (#[trigger] entries[x]) is Ok by {
        assert(starts_as(
            component,
            snapshot,
            plan,
            (decls.len() + x) as u32,
            entries[x],
            found.globals[x],
        ));
    }
    assert(starts_as(
        component,
        snapshot,
        plan,
        (decls.len() + j) as u32,
        entries[j],
        found.globals[j],
    ));
    let n = globals_of(list.take(i)).len() + j;
    lemma_slot_place(list, i, j);
    lemma_changing_has(module, globals_of(list), n);
    let ty = decl.content->Value_0;
    let place = Place { module, index: n as u32, content: decl.content };
    lemma_component_changing_has(items, k, place);
    let c = lemma_is_captured_place(component, place, ty);
    lemma_decls_fit(component, snapshot, plan, list, i, j);
    law_captured_global_starts_with_its_reply(
        component,
        made,
        snapshot,
        c,
        plan,
        decls,
        entries,
        j,
    );
    let sections = module_image(component, snapshot, plan, list)->Ok_0;
    let p = outlines_without_state(component, plan.segments, list.take(i)).len() as int;
    assert(sections[p] == ModuleSectionV::Globals(found.globals));
    let capture = instrumented_bytes(component)->Ok_0.1;
    let section = initialized(component, items, snapshot)->Ok_0[outlines(
        component,
        items.take(k),
    ).len() as int];
    assert(section == ComponentSectionV::Module(sections));
    assert(capture.globals[c].module == module);
    assert(capture.globals[c].index == globals_of(list.take(i)).len() + j);
    assert(section->Module_0[p] is Globals);
}

proof fn lemma_decls_fit(
    bytes: Seq<u8>,
    snapshot: SnapshotV,
    plan: ModulePlan,
    items: Seq<Result<ModuleItemV, ReadError>>,
    i: int,
    j: int,
)
    requires
        module_image(bytes, snapshot, plan, items) is Ok,
        0 <= i < items.len(),
        items[i] is Ok,
        items[i]->Ok_0.content is Globals,
        0 <= j < items[i]->Ok_0.content->Globals_0.len(),
    ensures
        globals_of(items.take(i)).len() + j <= u32::MAX,
{
    let init = ModuleImageV { decls: seq![], sections: seq![] };
    let step = module_image_step(bytes, snapshot, plan);
    let list = items[i]->Ok_0.content->Globals_0;
    lemma_module_prefix(bytes, snapshot, plan, items, i);
    lemma_module_prefix(bytes, snapshot, plan, items, i + 1);
    lemma_fold_step(init, items, i, step);
    let before = fold(init, items.take(i), step)->Ok_0;
    lemma_module_decls(bytes, snapshot, plan, items.take(i));
    let s = GlobalsV { decls: before.decls, globals: seq![] };
    lemma_passed(s, list, j, initial_step(bytes, snapshot, plan));
    lemma_passed(s, list, j + 1, initial_step(bytes, snapshot, plan));
    lemma_fold_step(s, list, j, initial_step(bytes, snapshot, plan));
    law_globals_start_with_captured_values(bytes, snapshot, plan, before.decls, list.take(j));
}

/// What is captured of a component is its state: the globals that can change, of modules that
/// have an instance, by module and index, and nothing else; and its memory, if the module that
/// defines it has an instance.
pub proof fn law_capture_is_the_state(component: Seq<u8>)
    requires
        instrumented_bytes(component) is Ok,
    ensures
        ({
            let items = tree(component);
            let capture = instrumented_bytes(component)->Ok_0.1;
            &&& forall|k: int|
                0 <= k < capture.globals.len() ==> is_state(items, #[trigger] capture.globals[k])
            &&& forall|g: CapturedGlobal| #[trigger]
                is_state(items, g) ==> capture.globals.contains(g)
            &&& forall|j: int, k: int|
                0 <= j < k < capture.globals.len() ==> comes_before(
                    #[trigger] capture.globals[j],
                    #[trigger] capture.globals[k],
                )
            &&& match capture.memory {
                Some(module) => all_memories(items).len() == 1 && all_memories(items)[0].0
                    == module && instantiated(items).contains(module),
                None => all_memories(items).len() == 0 || (all_memories(items).len() == 1
                    && !instantiated(items).contains(all_memories(items)[0].0)),
            }
        }),
{
    let items = tree(component);
    let s = survey_of(component)->Ok_0;
    let capture = instrumented_bytes(component)->Ok_0.1;
    lemma_places(component, items);
    lemma_rules(component, items);
    law_memory_is_the_only_one(component, items);
    law_captured_globals_come_in_order(component, items);
    let order = places(live(s).exposed);
    assert forall|k: int| 0 <= k < capture.globals.len() implies is_state(
        items,
        #[trigger] capture.globals[k],
    ) by {
        law_captured_globals_are_numbers(s, k);
        let e = live(s).exposed[k];
        assert(live(s).exposed.contains(e));
        law_captured_globals_have_instances(s, e);
        let x = choose|x: int| 0 <= x < s.exposed.len() && s.exposed[x] == e;
        let p = places(s.exposed)[x];
        assert(p == (Place { module: e.module, index: e.index, content: e.content }));
        assert(changing_globals(items).contains(p));
        lemma_instance_listed(s.instantiations, e.module);
    }
    assert forall|g: CapturedGlobal| #[trigger]
        is_state(items, g) implies capture.globals.contains(g) by {
        let p = Place {
            module: g.module,
            index: g.index,
            content: GlobalContent::Value(g.ty),
        };
        let c = lemma_is_captured_place(component, p, g.ty);
        assert(capture.globals[c] == g);
    }
    assert forall|j: int, k: int| 0 <= j < k < capture.globals.len() implies comes_before(
        #[trigger] capture.globals[j],
        #[trigger] capture.globals[k],
    ) by {
        assert(precedes(order[j], order[k]));
    }
    if s.memory is Some {
        let module = s.memory->Some_0.0;
        lemma_instance_listed(s.instantiations, module);
    }
}

/// The global can change, and its module has an instance.
pub open spec fn is_state(items: Seq<Result<ItemV, ReadError>>, g: CapturedGlobal) -> bool {
    &&& changing_globals(items).contains(
        Place { module: g.module, index: g.index, content: GlobalContent::Value(g.ty) },
    )
    &&& instantiated(items).contains(g.module)
}

/// One global comes before another, by module and index.
pub open spec fn comes_before(a: CapturedGlobal, b: CapturedGlobal) -> bool {
    a.module < b.module || (a.module == b.module && a.index < b.index)
}

proof fn lemma_instance_listed(instantiations: Seq<Instantiated>, module: u32)
    ensures
        has_instance(instantiations, module) <==> modules_of(instantiations).contains(module),
{
    let list = modules_of(instantiations);
    if has_instance(instantiations, module) {
        let j = choose|j: int|
            0 <= j < instantiations.len() && (#[trigger] instantiations[j]).module == module;
        assert(list[j] == module);
    }
    if list.contains(module) {
        let j = choose|j: int| 0 <= j < list.len() && list[j] == module;
        assert(instantiations[j].module == module);
    }
}

/// The bytes that are handed out are those of the sections, and there are none exactly if a
/// rule is broken or a section does not fit.
pub proof fn law_bytes_are_those_of_the_sections(component: Seq<u8>, snapshot: SnapshotV)
    ensures
        match instrumented_bytes(component) {
            Ok((bytes, _)) => {
                let made = instrumented(survey_of(component)->Ok_0);
                &&& survey_of(component) is Ok
                &&& made is Ok
                &&& component_fits(made->Ok_0)
                &&& bytes == component_bytes(made->Ok_0)
            },
            Err(e) => match survey_of(component) {
                Ok(s) => match instrumented(s) {
                    Ok(sections) => e == InitError::TooLarge && !component_fits(sections),
                    Err(x) => e == x,
                },
                Err(x) => e == x,
            },
        },
        match initialized_bytes(component, snapshot) {
            Ok(bytes) => initialized(component, tree(component), snapshot) matches Ok(sections)
                && component_fits(sections) && bytes == component_bytes(sections),
            Err(e) => match initialized(component, tree(component), snapshot) {
                Ok(sections) => e == InitError::TooLarge && !component_fits(sections),
                Err(x) => e == x,
            },
        },
{
}

} // verus!
