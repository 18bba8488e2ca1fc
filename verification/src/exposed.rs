//! Which globals are exposed, and under which names.
use vstd::prelude::*;
use crate::error::InitError;
use crate::fold::fold;
use crate::instrument::{
    component_getter_exports, getter_name, lemma_live_globals, live, live_globals,
    memory_getter_name,
};
use crate::parse::{GlobalContent, GlobalDecl, GlobalEntry, ReadError, Sort};
use crate::survey::{
    added_exports, all_exported, before_payload, component_step, entering, export_step, fresh_name,
    global_step, has_instance, has_unnamed, import_step, module_step, named, nothing_found,
    renamed, sort_step, surveyed, Counts, ExportsV, ExposedV, Instantiated, ModuleSurveyV, SurveyV,
};
use crate::text::{decimal, lemma_decimal_digits, lemma_decimal_injective};
use crate::tree::{ContentV, ItemV, ModuleContentV, ModuleItemV};
use crate::wasm::{ExportV, ExternKind, ModuleSectionV};

verus! {

/// A global of a module: its type, and whether the module defines it or imports it.
pub struct GlobalSlot {
    pub decl: GlobalDecl,
    pub defined: bool,
}

/// The globals that an import section adds.
pub open spec fn imported_globals(list: Seq<Result<Option<GlobalDecl>, ReadError>>) -> Seq<
    GlobalSlot,
>
    decreases list.len(),
{
    if list.len() == 0 {
        seq![]
    } else {
        let rest = imported_globals(list.drop_last());
        match list.last() {
            Ok(Some(decl)) => rest.push(GlobalSlot { decl, defined: false }),
            _ => rest,
        }
    }
}

/// The globals that a global section adds.
pub open spec fn defined_globals(list: Seq<Result<GlobalEntry, ReadError>>) -> Seq<GlobalSlot>
    decreases list.len(),
{
    if list.len() == 0 {
        seq![]
    } else {
        let rest = defined_globals(list.drop_last());
        match list.last() {
            Ok(g) => rest.push(GlobalSlot { decl: g.decl, defined: true }),
            Err(_) => rest,
        }
    }
}

/// The globals of a module by index.
pub open spec fn globals_of(items: Seq<Result<ModuleItemV, ReadError>>) -> Seq<GlobalSlot>
    decreases items.len(),
{
    if items.len() == 0 {
        seq![]
    } else {
        globals_of(items.drop_last()) + match items.last() {
            Ok(ModuleItemV { content: ModuleContentV::Imports(list), .. }) => imported_globals(
                list,
            ),
            Ok(ModuleItemV { content: ModuleContentV::Globals(list), .. }) => defined_globals(
                list,
            ),
            _ => seq![],
        }
    }
}

/// A global of a component: the module that defines it, its index there, and what it
/// holds.
pub struct Place {
    pub module: u32,
    pub index: u32,
    pub content: GlobalContent,
}

/// The globals that the module defines and that can change, by index.
pub open spec fn changing(module: u32, slots: Seq<GlobalSlot>) -> Seq<Place>
    decreases slots.len(),
{
    if slots.len() == 0 {
        seq![]
    } else {
        let rest = changing(module, slots.drop_last());
        let last = slots.last();
        if last.defined && last.decl.mutable {
            rest.push(
                Place { module, index: (slots.len() - 1) as u32, content: last.decl.content },
            )
        } else {
            rest
        }
    }
}

/// How many modules a section adds to the index space of modules.
pub open spec fn modules_in(list: Seq<Result<Sort, ReadError>>) -> nat
    decreases list.len(),
{
    if list.len() == 0 {
        0
    } else {
        modules_in(list.drop_last()) + if list.last() == Ok::<Sort, ReadError>(Sort::CoreModule) {
            1nat
        } else {
            0
        }
    }
}

/// How many core modules the items define, import or alias.
pub open spec fn modules(items: Seq<Result<ItemV, ReadError>>) -> nat
    decreases items.len(),
{
    if items.len() == 0 {
        0
    } else {
        modules(items.drop_last()) + match items.last() {
            Ok(ItemV { content: ContentV::CoreModule(_), .. }) => 1,
            Ok(ItemV { content: ContentV::Sorts(list), .. }) => modules_in(list),
            _ => 0,
        }
    }
}

/// The globals of a component that can change, by module and index.
pub open spec fn changing_globals(items: Seq<Result<ItemV, ReadError>>) -> Seq<Place>
    decreases items.len(),
{
    if items.len() == 0 {
        seq![]
    } else {
        let rest = changing_globals(items.drop_last());
        match items.last() {
            Ok(ItemV { content: ContentV::CoreModule(list), .. }) => rest + changing(
                modules(items.drop_last()) as u32,
                globals_of(list),
            ),
            _ => rest,
        }
    }
}

/// Where the exposed globals are.
pub open spec fn places(exposed: Seq<ExposedV>) -> Seq<Place> {
    exposed.map_values(
        |x: ExposedV| Place { module: x.module, index: x.index, content: x.content },
    )
}

/// The types of globals.
pub open spec fn decls_of(slots: Seq<GlobalSlot>) -> Seq<GlobalDecl> {
    slots.map_values(|x: GlobalSlot| x.decl)
}

pub proof fn lemma_import_fold(
    slots: Seq<GlobalSlot>,
    list: Seq<Result<Option<GlobalDecl>, ReadError>>,
)
    ensures
        fold(decls_of(slots), list, import_step()) matches Ok(found) ==> found == decls_of(
            slots + imported_globals(list),
        ),
    decreases list.len(),
{
    if list.len() == 0 {
        assert(slots + imported_globals(list) =~= slots);
    } else {
        let rest = list.drop_last();
        lemma_import_fold(slots, rest);
        if let Ok(Some(decl)) = list.last() {
            assert(decls_of(slots + imported_globals(list)) =~= decls_of(
                slots + imported_globals(rest),
            ).push(decl));
        }
    }
}

/// Imported globals are not exposed.
proof fn lemma_changing_imported(
    module: u32,
    slots: Seq<GlobalSlot>,
    list: Seq<Result<Option<GlobalDecl>, ReadError>>,
)
    ensures
        changing(module, slots + imported_globals(list)) == changing(module, slots),
    decreases list.len(),
{
    let more = slots + imported_globals(list);
    if list.len() == 0 {
        assert(more =~= slots);
    } else {
        let rest = list.drop_last();
        lemma_changing_imported(module, slots, rest);
        if let Ok(Some(decl)) = list.last() {
            assert(more.drop_last() =~= slots + imported_globals(rest));
        }
    }
}

proof fn lemma_global_fold(
    s: ModuleSurveyV,
    module: u32,
    slots: Seq<GlobalSlot>,
    list: Seq<Result<GlobalEntry, ReadError>>,
)
    requires
        s.decls == decls_of(slots),
        places(s.exposed) == changing(module, slots),
    ensures
        fold(s, list, global_step(module)) matches Ok(m) ==> m.decls == decls_of(
            slots + defined_globals(list),
        ) && places(m.exposed) == changing(module, slots + defined_globals(list)),
    decreases list.len(),
{
    if list.len() == 0 {
        assert(slots + defined_globals(list) =~= slots);
    } else {
        let rest = list.drop_last();
        lemma_global_fold(s, module, slots, rest);
        if let Ok(m) = fold(s, list, global_step(module)) {
            let before = fold(s, rest, global_step(module))->Ok_0;
            let known = slots + defined_globals(rest);
            let all = slots + defined_globals(list);
            assert(global_step(module)(before, list.last()) == Ok::<_, InitError>(m));
            let g = list.last()->Ok_0;
            assert(all =~= known.push(GlobalSlot { decl: g.decl, defined: true }));
            assert(all.drop_last() =~= known);
            assert(decls_of(all) =~= decls_of(known).push(g.decl));
            assert(decls_of(known).len() == known.len());
            assert(places(m.exposed) =~= changing(module, all));
        }
    }
}

proof fn lemma_renamed_places(exposed: Seq<ExposedV>, index: u32, name: Seq<char>)
    ensures
        places(renamed(exposed, index, name)) == places(exposed),
{
    assert(places(renamed(exposed, index, name)) =~= places(exposed));
}

proof fn lemma_export_fold(
    s: ExportsV,
    module: u32,
    decls: Seq<GlobalDecl>,
    list: Seq<Result<ExportV, ReadError>>,
)
    ensures
        fold(s, list, export_step(module, decls)) matches Ok(found) ==> places(found.exposed)
            == places(s.exposed),
    decreases list.len(),
{
    if list.len() > 0 {
        let rest = list.drop_last();
        let step = export_step(module, decls);
        lemma_export_fold(s, module, decls, rest);
        if let Ok(found) = fold(s, list, step) {
            let before = fold(s, rest, step)->Ok_0;
            assert(step(before, list.last()) == Ok::<_, InitError>(found));
            let export = list.last()->Ok_0;
            lemma_renamed_places(before.exposed, export.index, export.name);
        }
    }
}

proof fn lemma_all_exported_places(s: ModuleSurveyV)
    ensures
        places(all_exported(s).exposed) == places(s.exposed),
{
    assert(places(all_exported(s).exposed) =~= places(s.exposed));
}

pub proof fn lemma_module_places(
    s: ModuleSurveyV,
    bytes: Seq<u8>,
    module: u32,
    items: Seq<Result<ModuleItemV, ReadError>>,
)
    requires
        s.decls.len() == 0,
        s.exposed.len() == 0,
    ensures
        fold(s, items, module_step(bytes, module)) matches Ok(m) ==> m.decls == decls_of(
            globals_of(items),
        ) && places(m.exposed) == changing(module, globals_of(items)),
    decreases items.len(),
{
    if items.len() == 0 {
        assert(s.decls =~= decls_of(globals_of(items)));
        assert(places(s.exposed) =~= changing(module, globals_of(items)));
    } else {
        let rest = items.drop_last();
        let step = module_step(bytes, module);
        let slots = globals_of(rest);
        lemma_module_places(s, bytes, module, rest);
        if let Ok(m) = fold(s, items, step) {
            let before = fold(s, rest, step)->Ok_0;
            assert(step(before, items.last()) == Ok::<_, InitError>(m));
            let item = items.last()->Ok_0;
            let met = before_payload(before, item.section);
            lemma_all_exported_places(before);
            assert(slots + Seq::<GlobalSlot>::empty() =~= slots);
            match item.content {
                ModuleContentV::Imports(list) => {
                    lemma_import_fold(slots, list);
                    lemma_changing_imported(module, slots, list);
                },
                ModuleContentV::Globals(list) => {
                    lemma_global_fold(met, module, slots, list);
                },
                ModuleContentV::Exports(list) => {
                    let start = ExportsV {
                        exposed: met.exposed,
                        stack_pointers: met.stack_pointers,
                        exports: seq![],
                    };
                    lemma_export_fold(start, module, met.decls, list);
                    let found = fold(start, list, export_step(module, met.decls))->Ok_0;
                    assert(places(named(found.exposed)) =~= places(found.exposed));
                },
                _ => {},
            }
        }
    }
}

pub proof fn lemma_sort_fold(c: Counts, list: Seq<Result<Sort, ReadError>>)
    ensures
        fold(c, list, sort_step()) matches Ok(found) ==> found.modules == c.modules + modules_in(
            list,
        ),
    decreases list.len(),
{
    if list.len() > 0 {
        lemma_sort_fold(c, list.drop_last());
    }
}

pub proof fn lemma_places(bytes: Seq<u8>, items: Seq<Result<ItemV, ReadError>>)
    ensures
        surveyed(bytes, items) matches Ok(s) ==> s.counts.modules == modules(items) && places(
            s.exposed,
        ) == changing_globals(items),
    decreases items.len(),
{
    if items.len() == 0 {
        assert(places(nothing_found().exposed) =~= changing_globals(items));
    } else {
        let rest = items.drop_last();
        let step = component_step(bytes);
        lemma_places(bytes, rest);
        if let Ok(s) = surveyed(bytes, items) {
            let before = fold(nothing_found(), rest, step)->Ok_0;
            assert(surveyed(bytes, rest) == Ok::<_, InitError>(before));
            assert(step(before, items.last()) == Ok::<_, InitError>(s));
            let item = items.last()->Ok_0;
            match item.content {
                ContentV::CoreModule(list) => {
                    let module = before.counts.modules;
                    lemma_module_places(entering(before), bytes, module, list);
                    lemma_all_exported_places(
                        fold(entering(before), list, module_step(bytes, module))->Ok_0,
                    );
                    assert(places(s.exposed) =~= changing_globals(items));
                },
                ContentV::Sorts(list) => {
                    lemma_sort_fold(before.counts, list);
                },
                _ => {},
            }
        }
    }
}

/// The globals that are exposed are those that modules define and that can change, by
/// module and index: all of them, and no others.
pub proof fn law_exposed_globals_are_those_that_change(
    bytes: Seq<u8>,
    items: Seq<Result<ItemV, ReadError>>,
)
    requires
        surveyed(bytes, items) is Ok,
    ensures
        places(surveyed(bytes, items)->Ok_0.exposed) == changing_globals(items),
{
    lemma_places(bytes, items);
}

/// One global comes before another, by module and index.
pub open spec fn precedes(a: Place, b: Place) -> bool {
    a.module < b.module || (a.module == b.module && a.index < b.index)
}

/// The globals come in order, each once.
pub open spec fn in_order(all: Seq<Place>) -> bool {
    forall|i: int, j: int| 0 <= i < j < all.len() ==> precedes(#[trigger] all[i], #[trigger] all[j])
}

proof fn lemma_import_bound(
    decls: Seq<GlobalDecl>,
    list: Seq<Result<Option<GlobalDecl>, ReadError>>,
)
    requires
        decls.len() <= u32::MAX,
    ensures
        fold(decls, list, import_step()) matches Ok(found) ==> found.len() <= u32::MAX,
    decreases list.len(),
{
    if list.len() > 0 {
        lemma_import_bound(decls, list.drop_last());
    }
}

proof fn lemma_global_bound(
    s: ModuleSurveyV,
    module: u32,
    list: Seq<Result<GlobalEntry, ReadError>>,
)
    requires
        s.decls.len() <= u32::MAX,
    ensures
        fold(s, list, global_step(module)) matches Ok(m) ==> m.decls.len() <= u32::MAX,
    decreases list.len(),
{
    if list.len() > 0 {
        lemma_global_bound(s, module, list.drop_last());
    }
}

proof fn lemma_module_bound(
    s: ModuleSurveyV,
    bytes: Seq<u8>,
    module: u32,
    items: Seq<Result<ModuleItemV, ReadError>>,
)
    requires
        s.decls.len() <= u32::MAX,
    ensures
        fold(s, items, module_step(bytes, module)) matches Ok(m) ==> m.decls.len() <= u32::MAX,
    decreases items.len(),
{
    if items.len() > 0 {
        let rest = items.drop_last();
        let step = module_step(bytes, module);
        lemma_module_bound(s, bytes, module, rest);
        if let Ok(m) = fold(s, items, step) {
            let before = fold(s, rest, step)->Ok_0;
            assert(step(before, items.last()) == Ok::<_, InitError>(m));
            let item = items.last()->Ok_0;
            match item.content {
                ModuleContentV::Imports(list) => {
                    lemma_import_bound(before.decls, list);
                },
                ModuleContentV::Globals(list) => {
                    lemma_global_bound(before_payload(before, item.section), module, list);
                },
                _ => {},
            }
        }
    }
}

proof fn lemma_changing_in_order(module: u32, slots: Seq<GlobalSlot>)
    requires
        slots.len() <= u32::MAX,
    ensures
        in_order(changing(module, slots)),
        forall|i: int|
            0 <= i < changing(module, slots).len() ==> (#[trigger] changing(module, slots)[i]).module
                == module && changing(module, slots)[i].index < slots.len(),
    decreases slots.len(),
{
    if slots.len() > 0 {
        lemma_changing_in_order(module, slots.drop_last());
    }
}

proof fn lemma_in_order(bytes: Seq<u8>, items: Seq<Result<ItemV, ReadError>>)
    requires
        surveyed(bytes, items) is Ok,
    ensures
        in_order(changing_globals(items)),
        forall|i: int|
            0 <= i < changing_globals(items).len() ==> (#[trigger] changing_globals(items)[i]).module
                < modules(items),
    decreases items.len(),
{
    if items.len() > 0 {
        let rest = items.drop_last();
        let step = component_step(bytes);
        let s = surveyed(bytes, items)->Ok_0;
        let before = fold(nothing_found(), rest, step)->Ok_0;
        assert(surveyed(bytes, rest) == Ok::<_, InitError>(before));
        assert(step(before, items.last()) == Ok::<_, InitError>(s));
        lemma_in_order(bytes, rest);
        lemma_places(bytes, rest);
        let known = changing_globals(rest);
        let item = items.last()->Ok_0;
        if let ContentV::CoreModule(list) = item.content {
            let module = before.counts.modules;
            lemma_module_places(entering(before), bytes, module, list);
            lemma_module_bound(entering(before), bytes, module, list);
            assert(decls_of(globals_of(list)).len() == globals_of(list).len());
            let more = changing(module, globals_of(list));
            lemma_changing_in_order(module, globals_of(list));
            let all = changing_globals(items);
            assert(all == known + more);
            assert forall|i: int, j: int| 0 <= i < j < all.len() implies precedes(
                #[trigger] all[i],
                #[trigger] all[j],
            ) by {
                if i < known.len() {
                    assert(all[i] == known[i]);
                    if j < known.len() {
                        assert(all[j] == known[j]);
                    } else {
                        assert(all[j] == more[j - known.len()]);
                    }
                } else {
                    assert(all[i] == more[i - known.len()]);
                    assert(all[j] == more[j - known.len()]);
                }
            }
            assert forall|i: int| 0 <= i < all.len() implies (#[trigger] all[i]).module < modules(
                items,
            ) by {
                if i < known.len() {
                    assert(all[i] == known[i]);
                } else {
                    assert(all[i] == more[i - known.len()]);
                }
            }
        }
    }
}

/// Exposed globals come by module and index, each once.
pub proof fn law_exposed_globals_come_in_order(
    bytes: Seq<u8>,
    items: Seq<Result<ItemV, ReadError>>,
)
    requires
        surveyed(bytes, items) is Ok,
    ensures
        in_order(places(surveyed(bytes, items)->Ok_0.exposed)),
{
    lemma_places(bytes, items);
    lemma_in_order(bytes, items);
}

/// What stands before the first dash of a text made of digits, a dash, and more.
proof fn lemma_digits_before_dash(a: nat, b: nat, x: Seq<char>, y: Seq<char>)
    requires
        decimal(a) + x == decimal(b) + y,
        x.len() > 0,
        x[0] == '-',
        y.len() > 0,
        y[0] == '-',
    ensures
        a == b,
        x == y,
{
    lemma_decimal_digits(a);
    lemma_decimal_digits(b);
    let m = decimal(a).len() as int;
    let n = decimal(b).len() as int;
    let all = decimal(a) + x;
    assert(all[m] == '-');
    assert(all[n] == (decimal(b) + y)[n]);
    assert(all[n] == '-');
    if m < n {
        assert(all[m] == decimal(b)[m]);
    } else if n < m {
        assert(all[n] == decimal(a)[n]);
    }
    assert(decimal(a) =~= all.take(m));
    assert(decimal(b) =~= (decimal(b) + y).take(n));
    lemma_decimal_injective(a, b);
    assert(x =~= all.skip(m));
    assert(y =~= (decimal(b) + y).skip(n));
}

/// The name of a function that reads a global tells which global that is.
pub proof fn law_getter_name_is_injective(m1: u32, g1: u32, m2: u32, g2: u32)
    requires
        getter_name(m1, g1) == getter_name(m2, g2),
    ensures
        m1 == m2,
        g1 == g2,
{
    reveal_strlit("component-init-get-module");
    reveal_strlit("-global");
    let prefix = "component-init-get-module"@;
    let dash = "-global"@;
    let x = dash + decimal(g1 as nat);
    let y = dash + decimal(g2 as nat);
    assert(getter_name(m1, g1).skip(prefix.len() as int) =~= decimal(m1 as nat) + x);
    assert(getter_name(m2, g2).skip(prefix.len() as int) =~= decimal(m2 as nat) + y);
    lemma_digits_before_dash(m1 as nat, m2 as nat, x, y);
    assert(decimal(g1 as nat) =~= x.skip(dash.len() as int));
    assert(decimal(g2 as nat) =~= y.skip(dash.len() as int));
    lemma_decimal_injective(g1 as nat, g2 as nat);
}

/// No function that reads a global has the name of the one that reads the memory.
pub proof fn law_memory_getter_name_is_its_own(module: u32, index: u32)
    ensures
        getter_name(module, index) != memory_getter_name(),
{
    reveal_strlit("component-init-get-module");
    reveal_strlit("component-init-get-memory");
    assert(getter_name(module, index)[20] == 'o');
    assert(memory_getter_name()[20] == 'e');
}

proof fn lemma_live_in_order(xs: Seq<ExposedV>, instantiations: Seq<Instantiated>)
    requires
        in_order(places(xs)),
    ensures
        in_order(places(live_globals(xs, instantiations))),
    decreases xs.len(),
{
    if xs.len() > 0 {
        let rest = xs.drop_last();
        let fewer = live_globals(rest, instantiations);
        let all = live_globals(xs, instantiations);
        assert(in_order(places(rest))) by {
            assert forall|i: int, j: int| 0 <= i < j < rest.len() implies precedes(
                #[trigger] places(rest)[i],
                #[trigger] places(rest)[j],
            ) by {
                assert(places(rest)[i] == places(xs)[i]);
                assert(places(rest)[j] == places(xs)[j]);
            }
        }
        lemma_live_in_order(rest, instantiations);
        lemma_live_globals(rest, instantiations);
        assert forall|i: int, j: int| 0 <= i < j < all.len() implies precedes(
            #[trigger] places(all)[i],
            #[trigger] places(all)[j],
        ) by {
            assert(places(all)[i] == places(fewer)[i]);
            if j < fewer.len() {
                assert(places(all)[j] == places(fewer)[j]);
            } else {
                assert(rest.contains(fewer[i]));
                let k = choose|k: int| 0 <= k < rest.len() && rest[k] == fewer[i];
                assert(places(xs)[k] == places(all)[i]);
                assert(places(xs)[xs.len() - 1] == places(all)[j]);
            }
        }
    }
}

/// The globals that are captured come by module and index, each once.
pub proof fn law_captured_globals_come_in_order(
    bytes: Seq<u8>,
    items: Seq<Result<ItemV, ReadError>>,
)
    requires
        surveyed(bytes, items) is Ok,
    ensures
        in_order(places(live(surveyed(bytes, items)->Ok_0).exposed)),
{
    let s = surveyed(bytes, items)->Ok_0;
    law_exposed_globals_come_in_order(bytes, items);
    lemma_live_in_order(s.exposed, s.instantiations);
}

/// The globals that are captured are the exposed ones of modules that have an instance, all
/// of them and no others.
pub proof fn law_captured_globals_have_instances(s: SurveyV, x: ExposedV)
    ensures
        live(s).exposed.contains(x) <==> s.exposed.contains(x) && has_instance(
            s.instantiations,
            x.module,
        ),
{
    lemma_live_globals(s.exposed, s.instantiations);
    let xs = live(s).exposed;
    if xs.contains(x) {
        let k = choose|k: int| 0 <= k < xs.len() && xs[k] == x;
        assert(s.exposed.contains(xs[k]));
    }
    if s.exposed.contains(x) && has_instance(s.instantiations, x.module) {
        let j = choose|j: int| 0 <= j < s.exposed.len() && s.exposed[j] == x;
        assert(xs.contains(s.exposed[j]));
    }
}

/// The functions that instrumentation adds have different names.
pub proof fn law_export_names_are_distinct(
    bytes: Seq<u8>,
    items: Seq<Result<ItemV, ReadError>>,
    i: int,
    j: int,
)
    requires
        surveyed(bytes, items) is Ok,
        0 <= i < j < live(surveyed(bytes, items)->Ok_0).exposed.len(),
    ensures
        ({
            let exports = component_getter_exports(live(surveyed(bytes, items)->Ok_0));
            &&& exports[i].name != exports[j].name
            &&& exports[i].name != memory_getter_name()
            &&& exports[j].name != memory_getter_name()
        }),
{
    let s = live(surveyed(bytes, items)->Ok_0);
    law_captured_globals_come_in_order(bytes, items);
    let a = s.exposed[i];
    let b = s.exposed[j];
    assert(precedes(places(s.exposed)[i], places(s.exposed)[j]));
    if getter_name(a.module, a.index) == getter_name(b.module, b.index) {
        law_getter_name_is_injective(a.module, a.index, b.module, b.index);
    }
    law_memory_getter_name_is_its_own(a.module, a.index);
    law_memory_getter_name_is_its_own(b.module, b.index);
}

/// A section exports the global of that index under that name.
pub open spec fn is_exported(sections: Seq<ModuleSectionV>, name: Seq<char>, index: u32) -> bool {
    exists|j: int|
        0 <= j < sections.len() && (#[trigger] sections[j] matches ModuleSectionV::Exports(list)
            && list.contains(ExportV { name, kind: ExternKind::Global, index }))
}

/// Every global that has a name is exported under it.
pub open spec fn names_are_exported(
    exposed: Seq<ExposedV>,
    sections: Seq<ModuleSectionV>,
) -> bool {
    forall|k: int|
        0 <= k < exposed.len() ==> ((#[trigger] exposed[k]).name is Some ==> is_exported(
            sections,
            exposed[k].name->Some_0,
            exposed[k].index,
        ))
}

proof fn lemma_still_exported(
    exposed: Seq<ExposedV>,
    sections: Seq<ModuleSectionV>,
    more: ModuleSectionV,
)
    requires
        names_are_exported(exposed, sections),
    ensures
        names_are_exported(exposed, sections.push(more)),
{
    assert forall|k: int|
        0 <= k < exposed.len() && (#[trigger] exposed[k]).name is Some implies is_exported(
        sections.push(more),
        exposed[k].name->Some_0,
        exposed[k].index,
    ) by {
        if exposed[k].name is Some {
            lemma_exported_pushed(
                sections,
                more,
                exposed[k].name->Some_0,
                exposed[k].index,
            );
        }
    }
}

proof fn lemma_exported_pushed(
    sections: Seq<ModuleSectionV>,
    more: ModuleSectionV,
    name: Seq<char>,
    index: u32,
)
    requires
        is_exported(sections, name, index),
    ensures
        is_exported(sections.push(more), name, index),
{
    let export = ExportV { name, kind: ExternKind::Global, index };
    let j = choose|j: int|
        0 <= j < sections.len() && (#[trigger] sections[j] matches ModuleSectionV::Exports(list)
            && list.contains(export));
    assert(sections.push(more)[j] == sections[j]);
}

/// The exports of a section, as they are read.
pub open spec fn read_exports(list: Seq<Result<ExportV, ReadError>>) -> Seq<ExportV> {
    Seq::new(list.len(), |k: int| list[k]->Ok_0)
}

/// A global has the name that it had, or one of those in the section.
proof fn lemma_export_names(
    s: ExportsV,
    module: u32,
    decls: Seq<GlobalDecl>,
    list: Seq<Result<ExportV, ReadError>>,
)
    requires
        s.exports.len() == 0,
    ensures
        fold(s, list, export_step(module, decls)) matches Ok(found) ==> {
            &&& found.exports == read_exports(list)
            &&& found.exposed.len() == s.exposed.len()
            &&& forall|k: int|
                0 <= k < s.exposed.len() ==> has_old_or_listed_name(
                    s.exposed[k],
                    #[trigger] found.exposed[k],
                    found.exports,
                )
        },
    decreases list.len(),
{
    if list.len() == 0 {
        assert(s.exports =~= read_exports(list));
    } else {
        let rest = list.drop_last();
        let step = export_step(module, decls);
        lemma_export_names(s, module, decls, rest);
        if let Ok(found) = fold(s, list, step) {
            let before = fold(s, rest, step)->Ok_0;
            assert(step(before, list.last()) == Ok::<_, InitError>(found));
            let export = list.last()->Ok_0;
            assert(found.exports =~= read_exports(list));
            assert forall|k: int| 0 <= k < s.exposed.len() implies has_old_or_listed_name(
                s.exposed[k],
                #[trigger] found.exposed[k],
                found.exports,
            ) by {
                assert(has_old_or_listed_name(s.exposed[k], before.exposed[k], before.exports));
                if export.kind == ExternKind::Global && before.exposed[k].index == export.index {
                    assert(found.exports[rest.len() as int] == export);
                } else if before.exposed[k].name != s.exposed[k].name {
                    let e = ExportV {
                        name: before.exposed[k].name->Some_0,
                        kind: ExternKind::Global,
                        index: s.exposed[k].index,
                    };
                    let i = choose|i: int| 0 <= i < before.exports.len() && before.exports[i] == e;
                    assert(found.exports[i] == e);
                }
            }
        }
    }
}

/// The global is the same, and its name is the one it had or is in the list.
pub open spec fn has_old_or_listed_name(
    before: ExposedV,
    after: ExposedV,
    exports: Seq<ExportV>,
) -> bool {
    &&& after.index == before.index
    &&& after.name == before.name || (after.name is Some && exports.contains(
        ExportV {
            name: after.name->Some_0,
            kind: ExternKind::Global,
            index: after.index,
        },
    ))
}

proof fn lemma_added_export(exposed: Seq<ExposedV>, k: int)
    requires
        0 <= k < exposed.len(),
        exposed[k].name is None,
    ensures
        added_exports(exposed).contains(
            ExportV {
                name: fresh_name(exposed[k].index),
                kind: ExternKind::Global,
                index: exposed[k].index,
            },
        ),
    decreases exposed.len(),
{
    let rest = exposed.drop_last();
    let export = ExportV {
        name: fresh_name(exposed[k].index),
        kind: ExternKind::Global,
        index: exposed[k].index,
    };
    let all = added_exports(exposed);
    if k < rest.len() {
        assert(rest[k] == exposed[k]);
        lemma_added_export(rest, k);
        let fewer = added_exports(rest);
        let i = choose|i: int| 0 <= i < fewer.len() && fewer[i] == export;
        assert(all[i] == export);
    } else {
        assert(all[all.len() - 1] == export);
    }
}

/// What an export section does to names and exports.
proof fn lemma_export_section(
    before: ModuleSurveyV,
    after: ModuleSurveyV,
    module: u32,
    list: Seq<Result<ExportV, ReadError>>,
)
    requires
        names_are_exported(before.exposed, before.sections),
        ({
            let start = ExportsV {
                exposed: before.exposed,
                stack_pointers: before.stack_pointers,
                exports: seq![],
            };
            fold(start, list, export_step(module, before.decls)) matches Ok(found)
                && after.exposed == named(found.exposed) && after.sections
                == before.sections.push(
                ModuleSectionV::Exports(found.exports + added_exports(found.exposed)),
            )
        }),
    ensures
        names_are_exported(after.exposed, after.sections),
        forall|k: int| 0 <= k < after.exposed.len() ==> (#[trigger] after.exposed[k]).name is Some,
{
    let start = ExportsV {
        exposed: before.exposed,
        stack_pointers: before.stack_pointers,
        exports: seq![],
    };
    let found = fold(start, list, export_step(module, before.decls))->Ok_0;
    lemma_export_names(start, module, before.decls, list);
    let exports = found.exports + added_exports(found.exposed);
    let n = before.sections.len() as int;
    assert forall|k: int|
        0 <= k < after.exposed.len() && (
        #[trigger] after.exposed[k]).name is Some implies is_exported(
        after.sections,
        after.exposed[k].name->Some_0,
        after.exposed[k].index,
    ) by {
        let x = found.exposed[k];
        assert(has_old_or_listed_name(before.exposed[k], x, found.exports));
        let export = ExportV {
            name: after.exposed[k].name->Some_0,
            kind: ExternKind::Global,
            index: x.index,
        };
        assert(after.sections[n] == ModuleSectionV::Exports(exports));
        if x.name is None {
            lemma_added_export(found.exposed, k);
            let added = added_exports(found.exposed);
            let i = choose|i: int| 0 <= i < added.len() && added[i] == export;
            assert(exports[found.exports.len() + i] == export);
            assert(exports.contains(export));
        } else if x.name == before.exposed[k].name {
            assert(is_exported(
                before.sections,
                before.exposed[k].name->Some_0,
                before.exposed[k].index,
            ));
            lemma_exported_pushed(
                before.sections,
                ModuleSectionV::Exports(exports),
                export.name,
                export.index,
            );
        } else {
            let i = choose|i: int| 0 <= i < found.exports.len() && found.exports[i] == export;
            assert(exports[i] == export);
            assert(exports.contains(export));
        }
    }
}

/// A section that is added for globals without a name gives each of them one.
proof fn lemma_all_exported_names(s: ModuleSurveyV)
    requires
        names_are_exported(s.exposed, s.sections),
    ensures
        names_are_exported(all_exported(s).exposed, all_exported(s).sections),
        all_named(all_exported(s).exposed),
{
    let after = all_exported(s);
    if has_unnamed(s.exposed) {
        let exports = added_exports(s.exposed);
        let n = s.sections.len() as int;
        assert(after.sections[n] == ModuleSectionV::Exports(exports));
        assert forall|k: int|
            0 <= k < after.exposed.len() && (
            #[trigger] after.exposed[k]).name is Some implies is_exported(
            after.sections,
            after.exposed[k].name->Some_0,
            after.exposed[k].index,
        ) by {
            if s.exposed[k].name is None {
                lemma_added_export(s.exposed, k);
            } else {
                assert(is_exported(s.sections, s.exposed[k].name->Some_0, s.exposed[k].index));
                lemma_exported_pushed(
                    s.sections,
                    ModuleSectionV::Exports(exports),
                    s.exposed[k].name->Some_0,
                    s.exposed[k].index,
                );
            }
        }
    }
}

/// Every global has a name.
pub open spec fn all_named(exposed: Seq<ExposedV>) -> bool {
    forall|k: int| 0 <= k < exposed.len() ==> (#[trigger] exposed[k]).name is Some
}

proof fn lemma_global_names(
    s: ModuleSurveyV,
    module: u32,
    list: Seq<Result<GlobalEntry, ReadError>>,
)
    requires
        names_are_exported(s.exposed, s.sections),
    ensures
        fold(s, list, global_step(module)) matches Ok(m) ==> m.sections == s.sections
            && names_are_exported(m.exposed, m.sections),
    decreases list.len(),
{
    if list.len() > 0 {
        let rest = list.drop_last();
        let step = global_step(module);
        lemma_global_names(s, module, rest);
        if let Ok(m) = fold(s, list, step) {
            let before = fold(s, rest, step)->Ok_0;
            assert(step(before, list.last()) == Ok::<_, InitError>(m));
            assert forall|k: int|
                0 <= k < m.exposed.len() && (
                #[trigger] m.exposed[k]).name is Some implies is_exported(
                m.sections,
                m.exposed[k].name->Some_0,
                m.exposed[k].index,
            ) by {
                if k < before.exposed.len() {
                    assert(m.exposed[k] == before.exposed[k]);
                }
            }
        }
    }
}

proof fn lemma_names_are_exported(
    bytes: Seq<u8>,
    module: u32,
    s: ModuleSurveyV,
    items: Seq<Result<ModuleItemV, ReadError>>,
)
    requires
        s.exposed.len() == 0,
        fold(s, items, module_step(bytes, module)) is Ok,
    ensures
        names_are_exported(
            fold(s, items, module_step(bytes, module))->Ok_0.exposed,
            fold(s, items, module_step(bytes, module))->Ok_0.sections,
        ),
    decreases items.len(),
{
    let step = module_step(bytes, module);
    if items.len() > 0 {
        let m = fold(s, items, step)->Ok_0;
        let rest = items.drop_last();
        let before = fold(s, rest, step)->Ok_0;
        assert(step(before, items.last()) == Ok::<_, InitError>(m));
        lemma_names_are_exported(bytes, module, s, rest);
        let item = items.last()->Ok_0;
        let met = before_payload(before, item.section);
        lemma_all_exported_names(before);
        match item.content {
            ModuleContentV::Exports(list) => {
                lemma_export_section(met, m, module, list);
            },
            ModuleContentV::Globals(list) => {
                lemma_global_names(met, module, list);
                let found = fold(met, list, global_step(module))->Ok_0;
                if let Some(r) = item.section {
                    lemma_still_exported(
                        found.exposed,
                        found.sections,
                        ModuleSectionV::Raw { id: r.id, data: r.of(bytes) },
                    );
                }
            },
            _ => {
                if let Some(r) = item.section {
                    lemma_still_exported(
                        met.exposed,
                        met.sections,
                        ModuleSectionV::Raw { id: r.id, data: r.of(bytes) },
                    );
                }
            },
        }
    }
}


/// Every exposed global of a module has a name once the module has been passed over, and
/// the instrumented module exports it under that name, so that the functions that read it
/// can import it.
pub proof fn law_exposed_globals_are_exported(
    bytes: Seq<u8>,
    module: u32,
    s: ModuleSurveyV,
    items: Seq<Result<ModuleItemV, ReadError>>,
)
    requires
        s.exposed.len() == 0,
        fold(s, items, module_step(bytes, module)) is Ok,
    ensures
        ({
            let m = all_exported(fold(s, items, module_step(bytes, module))->Ok_0);
            all_named(m.exposed) && names_are_exported(m.exposed, m.sections)
        }),
{
    lemma_names_are_exported(bytes, module, s, items);
    lemma_all_exported_names(fold(s, items, module_step(bytes, module))->Ok_0);
}

/// Every exposed global of a component has a name.
pub proof fn law_exposed_globals_have_names(bytes: Seq<u8>, items: Seq<Result<ItemV, ReadError>>)
    requires
        surveyed(bytes, items) is Ok,
    ensures
        all_named(surveyed(bytes, items)->Ok_0.exposed),
    decreases items.len(),
{
    if items.len() > 0 {
        let rest = items.drop_last();
        let step = component_step(bytes);
        let s = surveyed(bytes, items)->Ok_0;
        let before = fold(nothing_found(), rest, step)->Ok_0;
        assert(surveyed(bytes, rest) == Ok::<_, InitError>(before));
        assert(step(before, items.last()) == Ok::<_, InitError>(s));
        law_exposed_globals_have_names(bytes, rest);
        if let ContentV::CoreModule(list) = items.last()->Ok_0.content {
            let module = before.counts.modules;
            law_exposed_globals_are_exported(bytes, module, entering(before), list);
            let m = all_exported(
                fold(entering(before), list, module_step(bytes, module))->Ok_0,
            );
            assert forall|k: int| 0 <= k < s.exposed.len() implies (
            #[trigger] s.exposed[k]).name is Some by {
                if k < before.exposed.len() {
                    assert(s.exposed[k] == before.exposed[k]);
                } else {
                    assert(s.exposed[k] == m.exposed[k - before.exposed.len()]);
                }
            }
        }
    }
}

} // verus!
