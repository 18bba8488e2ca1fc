//! The names by which globals are exported, and where the exports stand.
use vstd::prelude::*;
use crate::error::InitError;
use crate::fold::fold;
use crate::parse::{GlobalDecl, ReadError};
use crate::rules::lemma_global_fold;
use crate::survey::{
    added_exports, all_exported, before_payload, export_step, has_unnamed, module_payload,
    module_step, named, ExportsV, ExposedV, ModuleSurveyV,
};
use crate::text::decimal;
use crate::tree::{ModuleContentV, ModuleItemV};
use crate::wasm::{ExportV, ExternKind, ModuleSectionV};

verus! {

/// The name under which a list exports a global last.
pub open spec fn last_name(list: Seq<Result<ExportV, ReadError>>, index: u32) -> Option<Seq<char>>
    decreases list.len(),
{
    if list.len() == 0 {
        None
    } else {
        match list.last() {
            Ok(export) => if export.kind == ExternKind::Global && export.index == index {
                Some(export.name)
            } else {
                last_name(list.drop_last(), index)
            },
            Err(_) => last_name(list.drop_last(), index),
        }
    }
}

/// A pass over exports gives every exposed global the name under which it is exported last,
/// changes nothing else of it, and keeps the exports as they are.
pub proof fn law_last_export_names_the_global(
    s: ExportsV,
    module: u32,
    decls: Seq<GlobalDecl>,
    list: Seq<Result<ExportV, ReadError>>,
)
    ensures
        fold(s, list, export_step(module, decls)) matches Ok(found) ==> {
            &&& found.exposed.len() == s.exposed.len()
            &&& forall|x: int|
                0 <= x < s.exposed.len() ==> #[trigger] found.exposed[x] == (ExposedV {
                    module: s.exposed[x].module,
                    index: s.exposed[x].index,
                    content: s.exposed[x].content,
                    name: match last_name(list, s.exposed[x].index) {
                        Some(name) => Some(name),
                        None => s.exposed[x].name,
                    },
                })
            &&& found.exports.len() == s.exports.len() + list.len()
            &&& found.exports.take(s.exports.len() as int) == s.exports
            &&& forall|i: int|
                0 <= i < list.len() ==> #[trigger] list[i] == Ok::<_, ReadError>(
                    found.exports[s.exports.len() + i],
                )
        },
    decreases list.len(),
{
    if list.len() == 0 {
        assert(s.exports.take(s.exports.len() as int) =~= s.exports);
    } else {
        let rest = list.drop_last();
        let step = export_step(module, decls);
        law_last_export_names_the_global(s, module, decls, rest);
        if let Ok(found) = fold(s, list, step) {
            let before = fold(s, rest, step)->Ok_0;
            assert(step(before, list.last()) == Ok::<_, InitError>(found));
            assert(found.exports.take(s.exports.len() as int) =~= before.exports.take(
                s.exports.len() as int,
            ));
            assert forall|i: int| 0 <= i < list.len() implies #[trigger] list[i] == Ok::<
                _,
                ReadError,
            >(found.exports[s.exports.len() + i]) by {
                if i < rest.len() {
                    assert(rest[i] == list[i]);
                    assert(found.exports[s.exports.len() + i] == before.exports[s.exports.len()
                        + i]);
                }
            }
        }
    }
}

/// The export that a global gets which has no name.
pub open spec fn is_fresh_export(e: ExportV, index: u32) -> bool {
    &&& e.name == "component-init:"@ + decimal(index as nat)
    &&& e.kind == ExternKind::Global
    &&& e.index == index
}

/// The exports that are added are one for each global that has no name, in order.
pub proof fn law_unnamed_globals_are_exported(exposed: Seq<ExposedV>)
    ensures
        added_exports(exposed).len() == unnamed(exposed).len(),
        forall|j: int|
            0 <= j < unnamed(exposed).len() ==> is_fresh_export(
                #[trigger] added_exports(exposed)[j],
                unnamed(exposed)[j],
            ),
    decreases exposed.len(),
{
    if exposed.len() > 0 {
        law_unnamed_globals_are_exported(exposed.drop_last());
    }
}

/// The indices of the globals that have no name, in order.
pub open spec fn unnamed(exposed: Seq<ExposedV>) -> Seq<u32>
    decreases exposed.len(),
{
    if exposed.len() == 0 {
        seq![]
    } else {
        let rest = unnamed(exposed.drop_last());
        if exposed.last().name is None {
            rest.push(exposed.last().index)
        } else {
            rest
        }
    }
}

/// Once names have been given, a global has the one it had, or else one made of its index.
pub proof fn law_names_are_kept(exposed: Seq<ExposedV>, x: int)
    requires
        0 <= x < exposed.len(),
    ensures
        named(exposed).len() == exposed.len(),
        named(exposed)[x].module == exposed[x].module,
        named(exposed)[x].index == exposed[x].index,
        named(exposed)[x].content == exposed[x].content,
        match exposed[x].name {
            Some(name) => named(exposed)[x].name == Some(name),
            None => named(exposed)[x].name == Some(
                "component-init:"@ + decimal(exposed[x].index as nat),
            ),
        },
{
}

/// An export section of an instrumented module holds the exports that it had, in order, and
/// then one for each exposed global that none of them, and none before, names.
pub proof fn law_export_section_is_extended(
    bytes: Seq<u8>,
    module: u32,
    s: ModuleSurveyV,
    list: Seq<Result<ExportV, ReadError>>,
    item: ModuleItemV,
)
    requires
        item.content == ModuleContentV::Exports(list),
        module_payload(bytes, module, s, item) is Ok,
    ensures
        ({
            let m = module_payload(bytes, module, s, item)->Ok_0;
            let l = m.sections.last()->Exports_0;
            &&& m.sections.len() == s.sections.len() + 1
            &&& m.sections.drop_last() == s.sections
            &&& m.sections.last() is Exports
            &&& l.len() >= list.len()
            &&& forall|i: int|
                0 <= i < list.len() ==> #[trigger] list[i] == Ok::<_, ReadError>(l[i])
            &&& forall|j: int|
                list.len() <= j < l.len() ==> is_fresh_export(#[trigger] l[j], l[j].index)
                    && last_name(list, l[j].index) is None && exists|x: int|
                    0 <= x < s.exposed.len() && (#[trigger] s.exposed[x]).index == l[j].index
                        && s.exposed[x].name is None
            &&& m.exposed.len() == s.exposed.len()
            &&& forall|x: int|
                0 <= x < s.exposed.len() ==> (#[trigger] m.exposed[x]).index == s.exposed[x].index
                    && m.exposed[x].name == match last_name(list, s.exposed[x].index) {
                    Some(name) => Some(name),
                    None => match s.exposed[x].name {
                        Some(name) => Some(name),
                        None => Some("component-init:"@ + decimal(s.exposed[x].index as nat)),
                    },
                }
        }),
{
    let start = ExportsV {
        exposed: s.exposed,
        stack_pointers: s.stack_pointers,
        exports: seq![],
    };
    law_last_export_names_the_global(start, module, s.decls, list);
    let found = fold(start, list, export_step(module, s.decls))->Ok_0;
    let m = module_payload(bytes, module, s, item)->Ok_0;
    let l = m.sections.last()->Exports_0;
    assert(m.sections.drop_last() =~= s.sections);
    let added = added_exports(found.exposed);
    law_unnamed_globals_are_exported(found.exposed);
    assert(l == found.exports + added);
    assert forall|j: int| list.len() <= j < l.len() implies is_fresh_export(
        #[trigger] l[j],
        l[j].index,
    ) && last_name(list, l[j].index) is None && exists|x: int|
        0 <= x < s.exposed.len() && (#[trigger] s.exposed[x]).index == l[j].index
            && s.exposed[x].name is None by {
        let i = j - list.len();
        assert(l[j] == added[i]);
        let x = lemma_unnamed(found.exposed, i);
        assert(found.exposed[x].index == s.exposed[x].index);
        assert(s.exposed[x].index == l[j].index);
    }
    assert forall|i: int| 0 <= i < list.len() implies #[trigger] list[i] == Ok::<_, ReadError>(
        l[i],
    ) by {
        assert(l[i] == found.exports[0 + i]);
    }
}

proof fn lemma_unnamed(exposed: Seq<ExposedV>, j: int) -> (x: int)
    requires
        0 <= j < unnamed(exposed).len(),
    ensures
        0 <= x < exposed.len(),
        exposed[x].name is None,
        exposed[x].index == unnamed(exposed)[j],
    decreases exposed.len(),
{
    let rest = exposed.drop_last();
    if j < unnamed(rest).len() {
        let x = lemma_unnamed(rest, j);
        assert(rest[x] == exposed[x]);
        x
    } else {
        exposed.len() - 1
    }
}

/// A section that has to stand behind the export section: a start function, elements, a count
/// of data segments, code, or data.
pub open spec fn is_later(section: ModuleSectionV) -> bool {
    section matches ModuleSectionV::Raw { id, .. } && (id == 8 || id == 9 || id == 10 || id == 11
        || id == 12)
}

/// The sections of a module stand in the order that the format asks for, as far as exports
/// and the sections behind them go: no import, global or export stands behind one of those.
pub open spec fn is_ordered(items: Seq<Result<ModuleItemV, ReadError>>) -> bool {
    forall|i: int, j: int|
        0 <= i < j < items.len() && (#[trigger] items[i]) is Ok && (#[trigger] items[j]) is Ok
            && items[i]->Ok_0.section is Some && 8 <= items[i]->Ok_0.section->Some_0.id <= 12
            ==> !(items[j]->Ok_0.content is Imports || items[j]->Ok_0.content is Globals
            || items[j]->Ok_0.content is Exports)
}

/// No export section stands behind a section that has to stand behind it.
pub open spec fn exports_come_first(sections: Seq<ModuleSectionV>) -> bool {
    forall|i: int, j: int|
        0 <= i < j < sections.len() && is_later(#[trigger] sections[i])
            ==> !((#[trigger] sections[j]) is Exports)
}

/// No section stands there yet before which an export section would have to stand.
pub open spec fn no_later(sections: Seq<ModuleSectionV>) -> bool {
    forall|i: int| 0 <= i < sections.len() ==> !is_later(#[trigger] sections[i])
}

/// Where an export section is added, it is added in its place: if the sections of a module
/// stand in order, so do those of the instrumented module.
pub proof fn law_added_exports_stand_in_order(
    bytes: Seq<u8>,
    module: u32,
    s: ModuleSurveyV,
    items: Seq<Result<ModuleItemV, ReadError>>,
)
    requires
        s.exposed.len() == 0,
        s.sections.len() == 0,
        is_ordered(items),
        forall|k: int|
            0 <= k < items.len() && (#[trigger] items[k]) is Ok && (
            items[k]->Ok_0.content is Imports || items[k]->Ok_0.content is Globals
                || items[k]->Ok_0.content is Exports) ==> items[k]->Ok_0.section is Some
                && items[k]->Ok_0.section->Some_0.id < 8,
        fold(s, items, module_step(bytes, module)) is Ok,
    ensures
        exports_come_first(
            all_exported(fold(s, items, module_step(bytes, module))->Ok_0).sections,
        ),
{
    lemma_in_order(bytes, module, s, items);
    let m = fold(s, items, module_step(bytes, module))->Ok_0;
    if has_unnamed(m.exposed) {
        lemma_pushed(m.sections, ModuleSectionV::Exports(added_exports(m.exposed)));
    }
}

proof fn lemma_pushed(sections: Seq<ModuleSectionV>, more: ModuleSectionV)
    requires
        exports_come_first(sections),
        more is Exports ==> no_later(sections),
    ensures
        exports_come_first(sections.push(more)),
        no_later(sections) && !is_later(more) ==> no_later(sections.push(more)),
{
}

proof fn lemma_in_order(
    bytes: Seq<u8>,
    module: u32,
    s: ModuleSurveyV,
    items: Seq<Result<ModuleItemV, ReadError>>,
)
    requires
        s.exposed.len() == 0,
        s.sections.len() == 0,
        is_ordered(items),
        forall|k: int|
            0 <= k < items.len() && (#[trigger] items[k]) is Ok && (
            items[k]->Ok_0.content is Imports || items[k]->Ok_0.content is Globals
                || items[k]->Ok_0.content is Exports) ==> items[k]->Ok_0.section is Some
                && items[k]->Ok_0.section->Some_0.id < 8,
        fold(s, items, module_step(bytes, module)) is Ok,
    ensures
        ({
            let m = fold(s, items, module_step(bytes, module))->Ok_0;
            &&& exports_come_first(m.sections)
            &&& has_unnamed(m.exposed) ==> no_later(m.sections)
            &&& !no_later(m.sections) ==> exists|k: int|
                0 <= k < items.len() && (#[trigger] items[k]) is Ok
                    && items[k]->Ok_0.section is Some && 8
                    <= items[k]->Ok_0.section->Some_0.id <= 12
        }),
    decreases items.len(),
{
    if items.len() > 0 {
        let rest = items.drop_last();
        let n = items.len() - 1;
        let step = module_step(bytes, module);
        let m = fold(s, items, step)->Ok_0;
        let before = fold(s, rest, step)->Ok_0;
        assert(step(before, items.last()) == Ok::<_, InitError>(m));
        assert forall|i: int, j: int|
            0 <= i < j < rest.len() && (#[trigger] rest[i]) is Ok && (#[trigger] rest[j]) is Ok
                && rest[i]->Ok_0.section is Some && 8 <= rest[i]->Ok_0.section->Some_0.id
                <= 12 implies !(rest[j]->Ok_0.content is Imports
            || rest[j]->Ok_0.content is Globals || rest[j]->Ok_0.content is Exports) by {
            assert(items[i] == rest[i]);
            assert(items[j] == rest[j]);
        }
        assert forall|k: int|
            0 <= k < rest.len() && (#[trigger] rest[k]) is Ok && (rest[k]->Ok_0.content is Imports
                || rest[k]->Ok_0.content is Globals
                || rest[k]->Ok_0.content is Exports) implies rest[k]->Ok_0.section is Some
            && rest[k]->Ok_0.section->Some_0.id < 8 by {
            assert(items[k] == rest[k]);
        }
        lemma_in_order(bytes, module, s, rest);
        let item = items.last()->Ok_0;
        assert(items[n] == items.last());
        let met = before_payload(before, item.section);
        if !no_later(before.sections) {
            let k = choose|k: int|
                0 <= k < rest.len() && (#[trigger] rest[k]) is Ok
                    && rest[k]->Ok_0.section is Some && 8
                    <= rest[k]->Ok_0.section->Some_0.id <= 12;
            assert(items[k] == rest[k]);
            assert(!(item.content is Imports || item.content is Globals
                || item.content is Exports));
        }
        if has_unnamed(before.exposed) {
            lemma_pushed(
                before.sections,
                ModuleSectionV::Exports(added_exports(before.exposed)),
            );
        }
        assert(exports_come_first(met.sections));
        assert(has_unnamed(met.exposed) ==> no_later(met.sections));
        if no_later(before.sections) {
            assert(no_later(met.sections));
        }
        lemma_named_all(before.exposed);
        if let ModuleContentV::Globals(list) = item.content {
            lemma_global_fold(met, module, list);
        }
        if let ModuleContentV::Exports(list) = item.content {
            let start = ExportsV {
                exposed: met.exposed,
                stack_pointers: met.stack_pointers,
                exports: seq![],
            };
            let found = fold(start, list, export_step(module, met.decls))->Ok_0;
            lemma_named_all(found.exposed);
            lemma_pushed(met.sections, m.sections.last());
            assert(m.sections == met.sections.push(m.sections.last()));
        } else if item.section is Some {
            lemma_pushed(met.sections, m.sections.last());
            assert(m.sections =~= met.sections.push(m.sections.last()));
        }
    }
}

proof fn lemma_named_all(exposed: Seq<ExposedV>)
    ensures
        !has_unnamed(named(exposed)),
{
    assert forall|k: int| 0 <= k < named(exposed).len() implies (
    #[trigger] named(exposed)[k]).name is Some by {
        assert(named(exposed)[k].index == exposed[k].index);
    }
}

} // verus!
