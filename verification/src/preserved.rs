//! What the initialized component has from the component, and what from the captured
//! state.
use vstd::prelude::*;
use crate::error::InitError;
use crate::exposed::{
    changing, changing_globals, decls_of, defined_globals, globals_of, imported_globals,
    law_exposed_globals_are_those_that_change, lemma_import_fold, lemma_places, places, GlobalSlot,
    Place,
};
use crate::fold::fold;
use crate::instrument::{
    instrumented, lemma_live_globals, lemma_live_readable, live, readable, to_capture, value_type,
    CaptureV,
};
use crate::parse::{GlobalContent, GlobalDecl, GlobalEntry, ReadError, SectionRange, Sort};
use crate::rules::{lemma_rules, modules_of};
use crate::segments::{in_segment, law_every_image_splits, lemma_covered, lemma_tight, segments_of};
use crate::snapshot::{
    image_segments, image_step, initial, initial_step, initialized, is_addressable, module_image,
    module_image_step, no_image, plan_for, value_of, GlobalsV, ModuleImageV, ModulePlan, SnapshotV,
};
use crate::survey::{
    all_exported, before_payload, component_step, entering, global_step, has_instance, module_step,
    nothing_found, raw_component_section, raw_module_section, sort_step, surveyed, Counts,
    ModuleSurveyV,
};
use crate::tree::{
    instantiated, is_placed, is_placed_module, well_placed, ContentV, ItemV, ModuleContentV,
    ModuleItemV,
};
use crate::wasm::{ComponentSectionV, DataSegmentV, GlobalV, ModuleSectionV};

verus! {

/// A value of the right type was captured of the global, if its module is among those that
/// have an instance.
pub open spec fn is_covered(snapshot: SnapshotV, instances: Seq<u32>, p: Place) -> bool {
    instances.contains(p.module) ==> match p.content {
        GlobalContent::Value(ty) => value_of(snapshot.globals, p.module, p.index, ty) is Some,
        GlobalContent::Reference => false,
    }
}

/// Of all of them.
pub open spec fn are_covered(snapshot: SnapshotV, instances: Seq<u32>, ps: Seq<Place>) -> bool {
    forall|k: int| 0 <= k < ps.len() ==> is_covered(snapshot, instances, #[trigger] ps[k])
}

/// The pass over globals only ever finds more of them, and more references.
proof fn lemma_reference_fold(
    s: ModuleSurveyV,
    module: u32,
    list: Seq<Result<GlobalEntry, ReadError>>,
)
    ensures
        fold(s, list, global_step(module)) matches Ok(m) ==> (s.reference_global
            ==> m.reference_global),
    decreases list.len(),
{
    if list.len() > 0 {
        lemma_reference_fold(s, module, list.drop_last());
    }
}

proof fn lemma_reference_module(
    s: ModuleSurveyV,
    bytes: Seq<u8>,
    module: u32,
    items: Seq<Result<ModuleItemV, ReadError>>,
)
    ensures
        fold(s, items, module_step(bytes, module)) matches Ok(m) ==> (s.reference_global
            ==> m.reference_global),
    decreases items.len(),
{
    if items.len() > 0 {
        let rest = items.drop_last();
        let step = module_step(bytes, module);
        lemma_reference_module(s, bytes, module, rest);
        if let Ok(m) = fold(s, items, step) {
            let before = fold(s, rest, step)->Ok_0;
            assert(step(before, items.last()) == Ok::<_, InitError>(m));
            if let ModuleContentV::Globals(list) = items.last()->Ok_0.content {
                let met = before_payload(before, items.last()->Ok_0.section);
                lemma_reference_fold(met, module, list);
            }
        }
    }
}

/// The globals that change among more globals include those among fewer.
proof fn lemma_changing_prefix(
    snapshot: SnapshotV,
    instances: Seq<u32>,
    module: u32,
    slots: Seq<GlobalSlot>,
    more: Seq<GlobalSlot>,
)
    requires
        are_covered(snapshot, instances, changing(module, slots + more)),
    ensures
        are_covered(snapshot, instances, changing(module, slots)),
    decreases more.len(),
{
    if more.len() == 0 {
        assert(slots + more =~= slots);
    } else {
        let all = slots + more;
        assert(all.drop_last() =~= slots + more.drop_last());
        let fewer = changing(module, all.drop_last());
        assert forall|k: int| 0 <= k < fewer.len() implies is_covered(
            snapshot,
            instances,
            #[trigger] fewer[k],
        ) by {
            assert(changing(module, all)[k] == fewer[k]);
        }
        lemma_changing_prefix(snapshot, instances, module, slots, more.drop_last());
    }
}

proof fn lemma_initial_fold(
    bytes: Seq<u8>,
    snapshot: SnapshotV,
    instances: Seq<u32>,
    plan: ModulePlan,
    s: ModuleSurveyV,
    slots: Seq<GlobalSlot>,
    list: Seq<Result<GlobalEntry, ReadError>>,
)
    requires
        plan.has_instance ==> instances.contains(plan.module),
        fold(s, list, global_step(plan.module)) is Ok,
        !fold(s, list, global_step(plan.module))->Ok_0.reference_global,
        s.decls == decls_of(slots),
        are_covered(snapshot, instances, changing(plan.module, slots + defined_globals(list))),
        forall|k: int|
            0 <= k < list.len() ==> (#[trigger] list[k] matches Ok(g) ==> g.init_start < g.init_end
                <= bytes.len()),
    ensures
        fold(
            GlobalsV { decls: s.decls, globals: seq![] },
            list,
            initial_step(bytes, snapshot, plan),
        ) matches Ok(found) && found.decls == fold(s, list, global_step(plan.module))->Ok_0.decls
            && found.decls == decls_of(slots + defined_globals(list)),
    decreases list.len(),
{
    if list.len() == 0 {
        assert(slots + defined_globals(list) =~= slots);
    } else {
        let rest = list.drop_last();
        let step = global_step(plan.module);
        let m = fold(s, list, step)->Ok_0;
        let before = fold(s, rest, step)->Ok_0;
        assert(step(before, list.last()) == Ok::<_, InitError>(m));
        let g = list.last()->Ok_0;
        let all = slots + defined_globals(list);
        let known = slots + defined_globals(rest);
        let slot = GlobalSlot { decl: g.decl, defined: true };
        assert(all =~= known.push(slot));
        assert(known.push(slot) =~= known + seq![slot]);
        lemma_changing_prefix(snapshot, instances, plan.module, known, seq![slot]);
        assert forall|k: int| 0 <= k < rest.len() implies (#[trigger] rest[k] matches Ok(
            g,
        ) ==> g.init_start < g.init_end <= bytes.len()) by {
            assert(rest[k] == list[k]);
        }
        lemma_initial_fold(bytes, snapshot, instances, plan, s, slots, rest);
        assert(list.last() == list[list.len() - 1]);
        assert(decls_of(all) =~= decls_of(known).push(g.decl));
        assert(all.drop_last() =~= known);
        assert(decls_of(known).len() == known.len());
        if g.decl.mutable {
            let ps = changing(plan.module, all);
            assert(is_covered(snapshot, instances, ps[ps.len() - 1]));
        }
    }
}

proof fn lemma_module_image_ok(
    bytes: Seq<u8>,
    snapshot: SnapshotV,
    instances: Seq<u32>,
    plan: ModulePlan,
    s: ModuleSurveyV,
    items: Seq<Result<ModuleItemV, ReadError>>,
)
    requires
        plan.has_instance ==> instances.contains(plan.module),
        s.decls.len() == 0,
        fold(s, items, module_step(bytes, plan.module)) is Ok,
        !fold(s, items, module_step(bytes, plan.module))->Ok_0.reference_global,
        are_covered(snapshot, instances, changing(plan.module, globals_of(items))),
        is_placed_module(bytes.len(), items),
    ensures
        fold(
            ModuleImageV { decls: seq![], sections: seq![] },
            items,
            module_image_step(bytes, snapshot, plan),
        ) matches Ok(found) && found.decls == decls_of(globals_of(items)) && found.decls == fold(
            s,
            items,
            module_step(bytes, plan.module),
        )->Ok_0.decls,
    decreases items.len(),
{
    if items.len() == 0 {
        assert(s.decls =~= decls_of(globals_of(items)));
    } else {
        let rest = items.drop_last();
        let step = module_step(bytes, plan.module);
        let m = fold(s, items, step)->Ok_0;
        let before = fold(s, rest, step)->Ok_0;
        assert(step(before, items.last()) == Ok::<_, InitError>(m));
        let item = items.last()->Ok_0;
        assert(items.last() == items[items.len() - 1]);
        assert(is_placed(bytes.len(), items.last()));
        let slots = globals_of(rest);
        let more = match item.content {
            ModuleContentV::Imports(list) => imported_globals(list),
            ModuleContentV::Globals(list) => defined_globals(list),
            _ => seq![],
        };
        assert(globals_of(items) =~= slots + more);
        lemma_changing_prefix(snapshot, instances, plan.module, slots, more);
        let met = before_payload(before, item.section);
        if let ModuleContentV::Globals(list) = item.content {
            lemma_reference_fold(met, plan.module, list);
        }
        assert(is_placed_module(bytes.len(), rest)) by {
            assert forall|k: int| 0 <= k < rest.len() implies is_placed(
                bytes.len(),
                #[trigger] rest[k],
            ) by {
                assert(rest[k] == items[k]);
            }
        }
        lemma_module_image_ok(bytes, snapshot, instances, plan, s, rest);
        assert(slots + Seq::<GlobalSlot>::empty() =~= slots);
        match item.content {
            ModuleContentV::Imports(list) => {
                lemma_import_fold(slots, list);
            },
            ModuleContentV::Globals(list) => {
                lemma_initial_fold(bytes, snapshot, instances, plan, met, slots, list);
            },
            _ => {},
        }
    }
}

/// The counts of modules of the two passes agree.
proof fn lemma_sort_modules(
    a: Counts,
    b: Counts,
    list: Seq<Result<Sort, ReadError>>,
)
    requires
        fold(a, list, sort_step()) is Ok,
        a.modules == b.modules,
        a.core_functions >= b.core_functions,
        a.core_memories >= b.core_memories,
        a.functions >= b.functions,
        a.types >= b.types,
    ensures
        ({
            let x = fold(a, list, sort_step())->Ok_0;
            fold(b, list, sort_step()) matches Ok(y) && x.modules == y.modules && x.core_functions
                >= y.core_functions && x.core_memories >= y.core_memories && x.functions
                >= y.functions && x.types >= y.types
        }),
    decreases list.len(),
{
    if list.len() > 0 {
        let rest = list.drop_last();
        lemma_sort_modules(a, b, rest);
        let x = fold(a, rest, sort_step())->Ok_0;
        let y = fold(b, rest, sort_step())->Ok_0;
        assert(sort_step()(x, list.last()) == fold(a, list, sort_step()));
        assert(sort_step()(y, list.last()) == fold(b, list, sort_step()));
    }
}

/// What the second pass counts is no more than what the first one counted.
pub open spec fn counts_agree(a: Counts, b: Counts) -> bool {
    &&& a.modules == b.modules
    &&& a.core_functions >= b.core_functions
    &&& a.core_memories >= b.core_memories
    &&& a.functions >= b.functions
    &&& a.types >= b.types
}

/// The error is that the memory holds data at an address that no data segment can have.
pub open spec fn is_beyond_reach(snapshot: SnapshotV, e: InitError) -> bool {
    &&& e == InitError::MemoryTooLarge
    &&& snapshot.memory is Some
    &&& !is_addressable(snapshot.memory->Some_0.1)
}

proof fn lemma_image_ok(
    bytes: Seq<u8>,
    items: Seq<Result<ItemV, ReadError>>,
    snapshot: SnapshotV,
    instances: Seq<u32>,
)
    requires
        surveyed(bytes, items) is Ok,
        !surveyed(bytes, items)->Ok_0.reference_global,
        are_covered(snapshot, instances, changing_globals(items)),
        well_placed(bytes.len(), items),
    ensures
        match fold(no_image(), items, image_step(bytes, snapshot, instances)) {
            Ok(found) => counts_agree(surveyed(bytes, items)->Ok_0.counts, found.counts),
            Err(e) => is_beyond_reach(snapshot, e),
        },
    decreases items.len(),
{
    if items.len() > 0 {
        let rest = items.drop_last();
        let step = component_step(bytes);
        let s = surveyed(bytes, items)->Ok_0;
        let before = fold(nothing_found(), rest, step)->Ok_0;
        assert(surveyed(bytes, rest) == Ok::<_, InitError>(before));
        assert(step(before, items.last()) == Ok::<_, InitError>(s));
        let item = items.last()->Ok_0;
        assert(items.last() == items[items.len() - 1]);
        let known = changing_globals(rest);
        let all = changing_globals(items);
        assert(are_covered(snapshot, instances, known)) by {
            assert forall|k: int| 0 <= k < known.len() implies is_covered(
                snapshot,
                instances,
                #[trigger] known[k],
            ) by {
                assert(all[k] == known[k]);
            }
        }
        assert(well_placed(bytes.len(), rest)) by {
            assert forall|k: int| 0 <= k < rest.len() implies (#[trigger] rest[k] matches Ok(
                item,
            ) ==> (item.content matches ContentV::CoreModule(list) ==> is_placed_module(
                bytes.len(),
                list,
            ))) by {
                assert(rest[k] == items[k]);
            }
        }
        if let ContentV::CoreModule(list) = item.content {
            lemma_reference_module(entering(before), bytes, before.counts.modules, list);
        }
        lemma_image_ok(bytes, rest, snapshot, instances);
        let image = fold(no_image(), rest, image_step(bytes, snapshot, instances));
        match item.content {
            ContentV::CoreModule(list) => {
                let module = before.counts.modules;
                lemma_places(bytes, rest);
                let more = changing(module, globals_of(list));
                assert(are_covered(snapshot, instances, more)) by {
                    assert forall|k: int| 0 <= k < more.len() implies is_covered(
                        snapshot,
                        instances,
                        #[trigger] more[k],
                    ) by {
                        assert(all[known.len() + k] == more[k]);
                    }
                }
                let plan = plan_for(snapshot, instances, module);
                lemma_module_image_ok(bytes, snapshot, instances, plan, entering(before), list);
            },
            ContentV::Sorts(list) => {
                if let Ok(image) = image {
                    lemma_sort_modules(before.counts, image.counts, list);
                }
            },
            _ => {},
        }
    }
}

/// The snapshot holds a value for everything that is to be captured.
pub open spec fn holds_all(snapshot: SnapshotV, capture: CaptureV) -> bool {
    forall|k: int|
        0 <= k < capture.globals.len() ==> value_of(
            snapshot.globals,
            (#[trigger] capture.globals[k]).module,
            capture.globals[k].index,
            capture.globals[k].ty,
        ) is Some
}

/// Once everything that is to be captured of a component has been captured, the
/// initialized component can be made: nothing is missing, and nothing else stands in the
/// way, unless the memory holds data at an address that no data segment can have.
pub proof fn law_captured_state_suffices(
    bytes: Seq<u8>,
    items: Seq<Result<ItemV, ReadError>>,
    snapshot: SnapshotV,
)
    requires
        well_placed(bytes.len(), items),
        surveyed(bytes, items) is Ok,
        instrumented(surveyed(bytes, items)->Ok_0) is Ok,
        holds_all(snapshot, to_capture(live(surveyed(bytes, items)->Ok_0))),
    ensures
        initialized(bytes, items, snapshot) matches Err(e) ==> is_beyond_reach(snapshot, e),
{
    let s = surveyed(bytes, items)->Ok_0;
    let instances = instantiated(items);
    let xs = live(s).exposed;
    law_exposed_globals_are_those_that_change(bytes, items);
    lemma_rules(bytes, items);
    lemma_live_readable(s);
    lemma_live_globals(s.exposed, s.instantiations);
    let ps = changing_globals(items);
    assert(are_covered(snapshot, instances, ps)) by {
        assert forall|k: int| 0 <= k < ps.len() implies is_covered(
            snapshot,
            instances,
            #[trigger] ps[k],
        ) by {
            if instances.contains(ps[k].module) {
                let x = s.exposed[k];
                assert(places(s.exposed)[k] == ps[k]);
                let i = choose|i: int| 0 <= i < instances.len() && instances[i] == x.module;
                assert(modules_of(s.instantiations)[i] == x.module);
                assert(s.instantiations[i].module == x.module);
                assert(has_instance(s.instantiations, x.module));
                assert(xs.contains(x));
                let q = choose|q: int| 0 <= q < xs.len() && xs[q] == x;
                assert(readable(xs[q]));
                assert(to_capture(live(s)).globals[q].ty == value_type(x));
            }
        }
    }
    lemma_image_ok(bytes, items, snapshot, instances);
}

/// A section with the contents of modules left out.
pub open spec fn outline(section: ComponentSectionV) -> ComponentSectionV {
    match section {
        ComponentSectionV::Module(_) => ComponentSectionV::Module(seq![]),
        other => other,
    }
}

/// The sections of a component as they stand in the bytes, with the contents of modules
/// left out.
pub open spec fn outlines(bytes: Seq<u8>, items: Seq<Result<ItemV, ReadError>>) -> Seq<
    ComponentSectionV,
>
    decreases items.len(),
{
    if items.len() == 0 {
        seq![]
    } else {
        let rest = outlines(bytes, items.drop_last());
        match items.last() {
            Ok(ItemV { content: ContentV::CoreModule(_), .. }) => rest.push(
                ComponentSectionV::Module(seq![]),
            ),
            Ok(ItemV { section: Some(r), .. }) => rest.push(
                ComponentSectionV::Raw {
                    id: r.id,
                    data: bytes.subrange(r.start as int, r.end as int),
                },
            ),
            _ => rest,
        }
    }
}

/// The outlines of all sections.
pub open spec fn outlined(sections: Seq<ComponentSectionV>) -> Seq<ComponentSectionV> {
    sections.map_values(|x: ComponentSectionV| outline(x))
}

/// The instrumented component has the sections of the component, in their order, and
/// then those that are added.  Only what is in modules may differ.
pub proof fn law_instrumented_component_keeps_sections(
    bytes: Seq<u8>,
    items: Seq<Result<ItemV, ReadError>>,
)
    requires
        surveyed(bytes, items) is Ok,
        instrumented(surveyed(bytes, items)->Ok_0) is Ok,
    ensures
        ({
            let sections = instrumented(surveyed(bytes, items)->Ok_0)->Ok_0;
            let kept = outlines(bytes, items);
            &&& kept.len() <= sections.len()
            &&& outlined(sections.take(kept.len() as int)) == kept
        }),
{
    let s = surveyed(bytes, items)->Ok_0;
    lemma_survey_outlines(bytes, items);
    let sections = instrumented(s)->Ok_0;
    assert(sections.take(s.sections.len() as int) =~= s.sections);
}

pub proof fn lemma_survey_outlines(bytes: Seq<u8>, items: Seq<Result<ItemV, ReadError>>)
    requires
        surveyed(bytes, items) is Ok,
    ensures
        outlined(surveyed(bytes, items)->Ok_0.sections) == outlines(bytes, items),
        surveyed(bytes, items)->Ok_0.sections.len() == outlines(bytes, items).len(),
    decreases items.len(),
{
    if items.len() == 0 {
        assert(outlined(nothing_found().sections) =~= outlines(bytes, items));
    } else {
        let rest = items.drop_last();
        let step = component_step(bytes);
        let s = surveyed(bytes, items)->Ok_0;
        let before = fold(nothing_found(), rest, step)->Ok_0;
        assert(surveyed(bytes, rest) == Ok::<_, InitError>(before));
        assert(step(before, items.last()) == Ok::<_, InitError>(s));
        lemma_survey_outlines(bytes, rest);
        assert(outlined(s.sections) =~= outlines(bytes, items));
    }
}

/// The initialized component has the sections of the component, in their order, and no
/// others.  Only what is in modules may differ.
pub proof fn law_initialized_component_keeps_sections(
    bytes: Seq<u8>,
    items: Seq<Result<ItemV, ReadError>>,
    snapshot: SnapshotV,
)
    requires
        initialized(bytes, items, snapshot) is Ok,
    ensures
        outlined(initialized(bytes, items, snapshot)->Ok_0) == outlines(bytes, items),
{
    lemma_image_sections(bytes, items, snapshot, instantiated(items));
}

pub proof fn lemma_image_sections(
    bytes: Seq<u8>,
    items: Seq<Result<ItemV, ReadError>>,
    snapshot: SnapshotV,
    instances: Seq<u32>,
)
    requires
        fold(no_image(), items, image_step(bytes, snapshot, instances)) is Ok,
    ensures
        outlined(fold(no_image(), items, image_step(bytes, snapshot, instances))->Ok_0.sections)
            == outlines(bytes, items),
    decreases items.len(),
{
    let step = image_step(bytes, snapshot, instances);
    let found = fold(no_image(), items, step)->Ok_0;
    if items.len() > 0 {
        let rest = items.drop_last();
        let before = fold(no_image(), rest, step)->Ok_0;
        assert(step(before, items.last()) == Ok::<_, InitError>(found));
        lemma_image_sections(bytes, rest, snapshot, instances);
    }
    assert(outlined(found.sections) =~= outlines(bytes, items));
}

/// A section of an initialized module that is no start section, no data section and no count
/// of data segments: their ids are 8, 11 and 12.
pub open spec fn is_kept(section: ModuleSectionV) -> bool {
    match section {
        ModuleSectionV::Raw { id, .. } => id != 8 && id != 11 && id != 12,
        ModuleSectionV::Data(_) => false,
        _ => true,
    }
}

proof fn lemma_module_image_kept(
    bytes: Seq<u8>,
    snapshot: SnapshotV,
    plan: ModulePlan,
    items: Seq<Result<ModuleItemV, ReadError>>,
)
    ensures
        fold(
            ModuleImageV { decls: seq![], sections: seq![] },
            items,
            module_image_step(bytes, snapshot, plan),
        ) matches Ok(found) ==> forall|k: int|
            0 <= k < found.sections.len() ==> is_kept(#[trigger] found.sections[k]),
    decreases items.len(),
{
    if items.len() > 0 {
        let init = ModuleImageV { decls: seq![], sections: seq![] };
        let rest = items.drop_last();
        let step = module_image_step(bytes, snapshot, plan);
        lemma_module_image_kept(bytes, snapshot, plan, rest);
        if let Ok(found) = fold(init, items, step) {
            let before = fold(init, rest, step)->Ok_0;
            assert(step(before, items.last()) == Ok::<_, InitError>(found));
            assert forall|k: int| 0 <= k < found.sections.len() implies is_kept(
                #[trigger] found.sections[k],
            ) by {
                if k < before.sections.len() {
                    assert(found.sections[k] == before.sections[k]);
                }
            }
        }
    }
}

/// An initialized module has no start function and none of the data that the module had.
/// It has a single data section, the last of its sections, which holds the memory, if it
/// defines the memory, and else none.
pub proof fn law_start_and_data_are_replaced(
    bytes: Seq<u8>,
    snapshot: SnapshotV,
    plan: ModulePlan,
    items: Seq<Result<ModuleItemV, ReadError>>,
)
    requires
        module_image(bytes, snapshot, plan, items) is Ok,
    ensures
        ({
            let sections = module_image(bytes, snapshot, plan, items)->Ok_0;
            let n = sections.len() - 1;
            if snapshot.memory is Some && snapshot.memory->Some_0.0 == plan.module {
                &&& sections.len() > 0
                &&& sections[n] == ModuleSectionV::Data(image_segments(snapshot.memory->Some_0.1))
                &&& forall|k: int| 0 <= k < n ==> is_kept(#[trigger] sections[k])
            } else {
                forall|k: int| 0 <= k < sections.len() ==> is_kept(#[trigger] sections[k])
            }
        }),
{
    lemma_module_image_kept(bytes, snapshot, plan, items);
}

/// The byte at an address after data segments have been written to a memory of zeros,
/// where no two of them write to one place.
pub open spec fn loaded_byte(segments: Seq<DataSegmentV>, p: int) -> u8 {
    if exists|k: int|
        0 <= k < segments.len() && (#[trigger] segments[k]).address <= p < segments[k].address
            + segments[k].data.len() {
        let k = choose|k: int|
            0 <= k < segments.len() && (#[trigger] segments[k]).address <= p < segments[k].address
                + segments[k].data.len();
        segments[k].data[p - segments[k].address]
    } else {
        0
    }
}

/// Loading the data segments of an image into a memory of zeros gives the image back.
pub proof fn law_memory_is_restored(image: Seq<u8>, p: int)
    requires
        image.len() <= usize::MAX,
        is_addressable(image),
        0 <= p < image.len(),
    ensures
        loaded_byte(image_segments(image), p) == image[p],
{
    law_every_image_splits(image);
    let segs = segments_of(image);
    let data = image_segments(image);
    assert forall|k: int| 0 <= k < segs.len() implies (#[trigger] data[k]).address == segs[k].0
        && data[k].data.len() == segs[k].1 by {
        lemma_tight(image, segs, k);
    }
    if exists|k: int|
        0 <= k < data.len() && (#[trigger] data[k]).address <= p < data[k].address
            + data[k].data.len() {
        let k = choose|k: int|
            0 <= k < data.len() && (#[trigger] data[k]).address <= p < data[k].address
                + data[k].data.len();
        lemma_tight(image, segs, k);
    } else {
        if image[p] != 0 {
            let i = lemma_covered(image, segs, p);
            assert(in_segment(segs[i], p));
            assert(data[i].address == segs[i].0);
        }
    }
}

/// The global is what becomes of the entry.
pub open spec fn starts_as(
    bytes: Seq<u8>,
    snapshot: SnapshotV,
    plan: ModulePlan,
    index: u32,
    entry: Result<GlobalEntry, ReadError>,
    global: GlobalV,
) -> bool {
    &&& entry is Ok
    &&& initial(bytes, snapshot, plan, index, entry->Ok_0) == Ok::<_, InitError>(global)
}

/// The globals of a section take their initial values each from its own entry: the
/// captured value, if it can change, and else what it had.
pub proof fn law_globals_start_with_captured_values(
    bytes: Seq<u8>,
    snapshot: SnapshotV,
    plan: ModulePlan,
    decls: Seq<GlobalDecl>,
    list: Seq<Result<GlobalEntry, ReadError>>,
)
    ensures
        fold(
            GlobalsV { decls, globals: seq![] },
            list,
            initial_step(bytes, snapshot, plan),
        ) matches Ok(found) ==> {
            &&& found.globals.len() == list.len()
            &&& found.decls.len() == decls.len() + list.len()
            &&& forall|j: int|
                0 <= j < list.len() ==> starts_as(
                    bytes,
                    snapshot,
                    plan,
                    (decls.len() + j) as u32,
                    list[j],
                    #[trigger] found.globals[j],
                )
        },
    decreases list.len(),
{
    if list.len() > 0 {
        let init = GlobalsV { decls, globals: seq![] };
        let rest = list.drop_last();
        let step = initial_step(bytes, snapshot, plan);
        law_globals_start_with_captured_values(bytes, snapshot, plan, decls, rest);
        if let Ok(found) = fold(init, list, step) {
            let before = fold(init, rest, step)->Ok_0;
            assert(step(before, list.last()) == Ok::<_, InitError>(found));
            assert(list.last() == list[list.len() - 1]);
            assert(before.decls.len() == decls.len() + rest.len());
            assert forall|j: int| 0 <= j < list.len() implies starts_as(
                bytes,
                snapshot,
                plan,
                (decls.len() + j) as u32,
                list[j],
                #[trigger] found.globals[j],
            ) by {
                if j < rest.len() {
                    assert(rest[j] == list[j]);
                    assert(found.globals[j] == before.globals[j]);
                }
            }
        }
    }
}

/// A section of a module with the globals left out.
pub open spec fn module_outline(section: ModuleSectionV) -> ModuleSectionV {
    match section {
        ModuleSectionV::Globals(_) => ModuleSectionV::Globals(seq![]),
        other => other,
    }
}

/// The outlines of all sections.
pub open spec fn module_outlined(sections: Seq<ModuleSectionV>) -> Seq<ModuleSectionV> {
    sections.map_values(|x: ModuleSectionV| module_outline(x))
}

/// The sections other than those of exports.
pub open spec fn besides_exports(sections: Seq<ModuleSectionV>) -> Seq<ModuleSectionV>
    decreases sections.len(),
{
    if sections.len() == 0 {
        seq![]
    } else {
        let rest = besides_exports(sections.drop_last());
        if sections.last() is Exports {
            rest
        } else {
            rest.push(sections.last())
        }
    }
}

/// The sections of a module as they stand in the bytes, other than those of exports.
pub open spec fn raw_besides_exports(
    bytes: Seq<u8>,
    items: Seq<Result<ModuleItemV, ReadError>>,
) -> Seq<ModuleSectionV>
    decreases items.len(),
{
    if items.len() == 0 {
        seq![]
    } else {
        let rest = raw_besides_exports(bytes, items.drop_last());
        match items.last() {
            Ok(ModuleItemV { content: ModuleContentV::Exports(_), .. }) => rest,
            Ok(ModuleItemV { section: Some(r), .. }) => rest.push(
                ModuleSectionV::Raw {
                    id: r.id,
                    data: bytes.subrange(r.start as int, r.end as int),
                },
            ),
            _ => rest,
        }
    }
}

proof fn lemma_besides_push(sections: Seq<ModuleSectionV>, more: ModuleSectionV)
    ensures
        besides_exports(sections.push(more)) == if more is Exports {
            besides_exports(sections)
        } else {
            besides_exports(sections).push(more)
        },
{
    assert(sections.push(more).drop_last() =~= sections);
}

/// The sections of a module as they stand in the bytes, with the globals left out, with
/// the new number of data segments, and without data sections and start functions: their ids
/// are 12, 11 and 8.
pub open spec fn outlines_without_state(
    bytes: Seq<u8>,
    segments: u32,
    items: Seq<Result<ModuleItemV, ReadError>>,
) -> Seq<ModuleSectionV>
    decreases items.len(),
{
    if items.len() == 0 {
        seq![]
    } else {
        let rest = outlines_without_state(bytes, segments, items.drop_last());
        match items.last() {
            Ok(ModuleItemV { content: ModuleContentV::Globals(_), .. }) => rest.push(
                ModuleSectionV::Globals(seq![]),
            ),
            Ok(ModuleItemV { section: Some(r), .. }) => if r.id == 8 || r.id == 11 {
                rest
            } else if r.id == 12 {
                rest.push(ModuleSectionV::DataCount(segments))
            } else {
                rest.push(
                    ModuleSectionV::Raw {
                        id: r.id,
                        data: bytes.subrange(r.start as int, r.end as int),
                    },
                )
            },
            _ => rest,
        }
    }
}

proof fn lemma_global_sections(
    s: ModuleSurveyV,
    module: u32,
    list: Seq<Result<GlobalEntry, ReadError>>,
)
    ensures
        fold(s, list, global_step(module)) matches Ok(m) ==> m.sections == s.sections,
    decreases list.len(),
{
    if list.len() > 0 {
        lemma_global_sections(s, module, list.drop_last());
    }
}

/// An instrumented module has the sections of the module, in their order and unchanged,
/// and no others, except for sections of exports.
pub proof fn law_instrumented_module_keeps_sections(
    bytes: Seq<u8>,
    module: u32,
    s: ModuleSurveyV,
    items: Seq<Result<ModuleItemV, ReadError>>,
)
    requires
        s.sections.len() == 0,
        fold(s, items, module_step(bytes, module)) is Ok,
    ensures
        besides_exports(fold(s, items, module_step(bytes, module))->Ok_0.sections)
            == raw_besides_exports(bytes, items),
        besides_exports(
            all_exported(fold(s, items, module_step(bytes, module))->Ok_0).sections,
        ) == raw_besides_exports(bytes, items),
    decreases items.len(),
{
    let step = module_step(bytes, module);
    let m = fold(s, items, step)->Ok_0;
    if items.len() > 0 {
        let rest = items.drop_last();
        let before = fold(s, rest, step)->Ok_0;
        assert(step(before, items.last()) == Ok::<_, InitError>(m));
        law_instrumented_module_keeps_sections(bytes, module, s, rest);
        let item = items.last()->Ok_0;
        let met = before_payload(before, item.section);
        assert(besides_exports(met.sections) == raw_besides_exports(bytes, rest));
        if let ModuleContentV::Globals(list) = item.content {
            lemma_global_sections(met, module, list);
        }
        if let ModuleContentV::Exports(_) = item.content {
            lemma_besides_push(met.sections, m.sections.last());
            assert(m.sections =~= met.sections.push(m.sections.last()));
        } else if let Some(r) = item.section {
            lemma_besides_push(
                met.sections,
                ModuleSectionV::Raw { id: r.id, data: r.of(bytes) },
            );
        }
    }
    lemma_besides_push(m.sections, all_exported(m).sections.last());
}

pub proof fn lemma_image_outlines(
    bytes: Seq<u8>,
    snapshot: SnapshotV,
    plan: ModulePlan,
    items: Seq<Result<ModuleItemV, ReadError>>,
)
    ensures
        fold(
            ModuleImageV { decls: seq![], sections: seq![] },
            items,
            module_image_step(bytes, snapshot, plan),
        ) matches Ok(found) ==> module_outlined(found.sections) == outlines_without_state(
            bytes,
            plan.segments,
            items,
        ),
    decreases items.len(),
{
    let init = ModuleImageV { decls: seq![], sections: seq![] };
    let step = module_image_step(bytes, snapshot, plan);
    if items.len() == 0 {
        assert(module_outlined(init.sections)
            =~= outlines_without_state(bytes, plan.segments, items));
    } else {
        let rest = items.drop_last();
        lemma_image_outlines(bytes, snapshot, plan, rest);
        if let Ok(found) = fold(init, items, step) {
            let before = fold(init, rest, step)->Ok_0;
            assert(step(before, items.last()) == Ok::<_, InitError>(found));
            assert(module_outlined(found.sections)
                =~= outlines_without_state(bytes, plan.segments, items));
        }
    }
}

/// An initialized module has the sections of the module, in their order, except for data
/// sections and start functions, and then, if it defines the memory, one data section.
/// Only what is in a global section may differ.
pub proof fn law_initialized_module_keeps_sections(
    bytes: Seq<u8>,
    snapshot: SnapshotV,
    plan: ModulePlan,
    items: Seq<Result<ModuleItemV, ReadError>>,
)
    requires
        module_image(bytes, snapshot, plan, items) is Ok,
    ensures
        module_outlined(module_image(bytes, snapshot, plan, items)->Ok_0)
            == outlines_without_state(bytes, plan.segments, items) + (if snapshot.memory is Some
            && snapshot.memory->Some_0.0 == plan.module {
            seq![ModuleSectionV::Data(image_segments(snapshot.memory->Some_0.1))]
        } else {
            seq![]
        }),
{
    lemma_image_outlines(bytes, snapshot, plan, items);
    let sections = module_image(bytes, snapshot, plan, items)->Ok_0;
    let init = ModuleImageV { decls: seq![], sections: seq![] };
    let found = fold(init, items, module_image_step(bytes, snapshot, plan))->Ok_0;
    if snapshot.memory is Some && snapshot.memory->Some_0.0 == plan.module {
        let data = ModuleSectionV::Data(image_segments(snapshot.memory->Some_0.1));
        assert(module_outlined(sections) =~= module_outlined(found.sections) + seq![data]);
    } else {
        assert(module_outlined(sections) =~= module_outlined(found.sections)
            + Seq::<ModuleSectionV>::empty());
    }
}

/// A section that is kept is copied with its id and its own bytes, behind those before it; one
/// that does not lie within the bytes is refused by where it starts.
pub proof fn law_sections_are_copied(
    bytes: Seq<u8>,
    r: SectionRange,
    inner: Seq<ModuleSectionV>,
    outer: Seq<ComponentSectionV>,
)
    ensures
        if r.start <= r.end <= bytes.len() {
            let data = bytes.subrange(r.start as int, r.end as int);
            &&& raw_module_section(bytes, inner, Some(r)) == Ok::<_, InitError>(
                inner.push(ModuleSectionV::Raw { id: r.id, data }),
            )
            &&& raw_component_section(bytes, outer, Some(r)) == Ok::<_, InitError>(
                outer.push(ComponentSectionV::Raw { id: r.id, data }),
            )
        } else {
            let e = InitError::Malformed { offset: r.start };
            &&& raw_module_section(bytes, inner, Some(r)) == Err::<Seq<ModuleSectionV>, _>(e)
            &&& raw_component_section(bytes, outer, Some(r)) == Err::<Seq<ComponentSectionV>, _>(e)
        },
        raw_module_section(bytes, inner, None) == Ok::<_, InitError>(inner),
        raw_component_section(bytes, outer, None) == Ok::<_, InitError>(outer),
{
}

} // verus!
