//! The first pass over a component.
//!
//! The pass checks that the component keeps to the rules under which its state can be
//! captured, and collects what capturing it takes: where the memory is, which globals
//! can change, and how many items of each kind the component has.  The rules are:
//!
//! - flat structure, that is no subcomponents
//! - a single memory
//! - a single table
//! - no table operations at run time
//! - no globals of reference type
//! - each module instantiated at most once
//!
//! What the pass meets first decides which error comes.
use vstd::prelude::*;
use vstd::slice::slice_subrange;
use vstd::string::StringExecFns;
use crate::error::{malformed, viewed, InitError};
use crate::fold::{fold, lemma_fold_step, lemma_fold_stop};
use crate::get_and_increment;
use crate::parse::{
    results, GlobalContent, GlobalDecl, GlobalEntry, InstanceKind, OperatorKind, ReadError,
    SectionRange, Sort,
};
use crate::text::{decimal, to_decimal};
use crate::tree::{
    Content, ContentV, Item, ItemV, ModuleContent, ModuleContentV, ModuleItem, ModuleItemV,
};
use crate::wasm::{
    lemma_views_push, views, ComponentSection, ComponentSectionV, Export, ExportV, ExternKind,
    MemoryType, ModuleSection, ModuleSectionV,
};

verus! {

/// A mutable global that a module defines, with the name that the instrumented module
/// exports it under.
#[derive(Debug, PartialEq, Eq)]
pub struct Exposed {
    pub module: u32,
    pub index: u32,
    pub name: Option<String>,
    pub content: GlobalContent,
}

pub struct ExposedV {
    pub module: u32,
    pub index: u32,
    pub name: Option<Seq<char>>,
    pub content: GlobalContent,
}

impl View for Exposed {
    type V = ExposedV;

    open spec fn view(&self) -> ExposedV {
        ExposedV {
            module: self.module,
            index: self.index,
            name: match self.name {
                Some(name) => Some(name@),
                None => None,
            },
            content: self.content,
        }
    }
}

/// An export of a global named `__stack_pointer`; `decl` is the type of the global, if
/// there is one of that index.
#[derive(Clone, Copy, Debug, PartialEq, Eq, Structural)]
pub struct StackPointer {
    pub module: u32,
    pub decl: Option<GlobalDecl>,
}

/// The state of the pass within a module.
#[derive(Debug, PartialEq, Eq)]
pub struct ModuleSurvey<'a> {
    /// The memory of the component, with the module that defines it.
    pub memory: Option<(u32, MemoryType)>,
    pub saw_table: bool,
    pub stack_pointers: Vec<StackPointer>,
    /// The globals of the module by index, imported ones included.
    pub decls: Vec<GlobalDecl>,
    /// The mutable globals that the module defines, by index.
    pub exposed: Vec<Exposed>,
    pub reference_global: bool,
    /// The sections of the instrumented module.
    pub sections: Vec<ModuleSection<'a>>,
}

pub struct ModuleSurveyV {
    pub memory: Option<(u32, MemoryType)>,
    pub saw_table: bool,
    pub stack_pointers: Seq<StackPointer>,
    pub decls: Seq<GlobalDecl>,
    pub exposed: Seq<ExposedV>,
    pub reference_global: bool,
    pub sections: Seq<ModuleSectionV>,
}

impl<'a> View for ModuleSurvey<'a> {
    type V = ModuleSurveyV;

    open spec fn view(&self) -> ModuleSurveyV {
        ModuleSurveyV {
            memory: self.memory,
            saw_table: self.saw_table,
            stack_pointers: self.stack_pointers@,
            decls: self.decls@,
            exposed: views(self.exposed@),
            reference_global: self.reference_global,
            sections: views(self.sections@),
        }
    }
}

/// An import: a global takes the next index.
pub open spec fn import_step() -> spec_fn(
    Seq<GlobalDecl>,
    Result<Option<GlobalDecl>, ReadError>,
) -> Result<Seq<GlobalDecl>, InitError> {
    |decls: Seq<GlobalDecl>, item: Result<Option<GlobalDecl>, ReadError>|
        match item {
            Ok(Some(decl)) => if decls.len() < u32::MAX {
                Ok(decls.push(decl))
            } else {
                Err(InitError::TooMany)
            },
            Ok(None) => Ok(decls),
            Err(e) => Err(malformed(e)),
        }
}

pub(crate) fn survey_imports(
    decls: Vec<GlobalDecl>,
    items: &Vec<Result<Option<GlobalDecl>, ReadError>>,
) -> (r: Result<Vec<GlobalDecl>, InitError>)
    ensures
        viewed(r) == fold(decls@, items@, import_step()),
{
    let ghost init = decls@;
    let mut found = decls;
    let mut i: usize = 0;
    while i < items.len()
        invariant
            i <= items.len(),
            init == decls@,
            fold(init, items@.take(i as int), import_step()) == Ok::<_, InitError>(found@),
        decreases items.len() - i,
    {
        proof {
            lemma_fold_step(init, items@, i as int, import_step());
        }
        match &items[i] {
            Ok(Some(decl)) => {
                if found.len() < u32::MAX as usize {
                    found.push(*decl);
                } else {
                    proof {
                        lemma_fold_stop(init, items@, i as int, import_step());
                    }
                    return Err(InitError::TooMany);
                }
            },
            Ok(None) => {},
            Err(e) => {
                proof {
                    lemma_fold_stop(init, items@, i as int, import_step());
                }
                return Err(InitError::Malformed { offset: e.offset });
            },
        }
        i += 1;
    }
    assert(items@.take(i as int) =~= items@);
    Ok(found)
}

/// A memory: there may be one in the component.
pub open spec fn memory_step(module: u32) -> spec_fn(
    Option<(u32, MemoryType)>,
    Result<MemoryType, ReadError>,
) -> Result<Option<(u32, MemoryType)>, InitError> {
    |memory: Option<(u32, MemoryType)>, item: Result<MemoryType, ReadError>|
        if memory is Some {
            Err(InitError::SecondMemory)
        } else {
            match item {
                Ok(ty) => Ok(Some((module, ty))),
                Err(e) => Err(malformed(e)),
            }
        }
}

fn survey_memories(
    module: u32,
    memory: Option<(u32, MemoryType)>,
    items: &Vec<Result<MemoryType, ReadError>>,
) -> (r: Result<Option<(u32, MemoryType)>, InitError>)
    ensures
        r == fold(memory, items@, memory_step(module)),
{
    let mut found = memory;
    let mut i: usize = 0;
    while i < items.len()
        invariant
            i <= items.len(),
            fold(memory, items@.take(i as int), memory_step(module)) == Ok::<_, InitError>(found),
        decreases items.len() - i,
    {
        proof {
            lemma_fold_step(memory, items@, i as int, memory_step(module));
        }
        if found.is_some() {
            proof {
                lemma_fold_stop(memory, items@, i as int, memory_step(module));
            }
            return Err(InitError::SecondMemory);
        }
        match &items[i] {
            Ok(ty) => {
                found = Some((module, *ty));
            },
            Err(e) => {
                proof {
                    lemma_fold_stop(memory, items@, i as int, memory_step(module));
                }
                return Err(InitError::Malformed { offset: e.offset });
            },
        }
        i += 1;
    }
    assert(items@.take(i as int) =~= items@);
    Ok(found)
}

/// A defined global: it takes the next index, and is exposed if it can change.
pub open spec fn global_step(module: u32) -> spec_fn(
    ModuleSurveyV,
    Result<GlobalEntry, ReadError>,
) -> Result<ModuleSurveyV, InitError> {
    |s: ModuleSurveyV, item: Result<GlobalEntry, ReadError>|
        match item {
            Ok(global) => if s.decls.len() < u32::MAX {
                Ok(
                    ModuleSurveyV {
                        decls: s.decls.push(global.decl),
                        exposed: if global.decl.mutable {
                            s.exposed.push(
                                ExposedV {
                                    module,
                                    index: s.decls.len() as u32,
                                    name: None,
                                    content: global.decl.content,
                                },
                            )
                        } else {
                            s.exposed
                        },
                        reference_global: s.reference_global || global.decl.content
                            == GlobalContent::Reference,
                        ..s
                    },
                )
            } else {
                Err(InitError::TooMany)
            },
            Err(e) => Err(malformed(e)),
        }
}

fn survey_globals<'a>(
    module: u32,
    s: ModuleSurvey<'a>,
    items: &Vec<Result<GlobalEntry, ReadError>>,
) -> (r: Result<ModuleSurvey<'a>, InitError>)
    ensures
        viewed(r) == fold(s@, items@, global_step(module)),
{
    let ghost init = s@;
    let mut found = s;
    let mut i: usize = 0;
    while i < items.len()
        invariant
            i <= items.len(),
            init == s@,
            fold(init, items@.take(i as int), global_step(module)) == Ok::<_, InitError>(found@),
        decreases items.len() - i,
    {
        proof {
            lemma_fold_step(init, items@, i as int, global_step(module));
        }
        match &items[i] {
            Ok(global) => {
                if found.decls.len() >= u32::MAX as usize {
                    proof {
                        lemma_fold_stop(init, items@, i as int, global_step(module));
                    }
                    return Err(InitError::TooMany);
                }
                if global.decl.mutable {
                    let exposed = Exposed {
                        module,
                        index: found.decls.len() as u32,
                        name: None,
                        content: global.decl.content,
                    };
                    proof {
                        lemma_views_push(found.exposed@, exposed);
                    }
                    found.exposed.push(exposed);
                }
                found.decls.push(global.decl);
                if global.decl.content == GlobalContent::Reference {
                    found.reference_global = true;
                }
            },
            Err(e) => {
                proof {
                    lemma_fold_stop(init, items@, i as int, global_step(module));
                }
                return Err(InitError::Malformed { offset: e.offset });
            },
        }
        i += 1;
    }
    assert(items@.take(i as int) =~= items@);
    Ok(found)
}

/// The exposed globals after one of them has been given a name.
pub open spec fn renamed(exposed: Seq<ExposedV>, index: u32, name: Seq<char>) -> Seq<ExposedV> {
    exposed.map_values(
        |x: ExposedV|
            if x.index == index {
                ExposedV { name: Some(name), ..x }
            } else {
                x
            },
    )
}

fn rename(exposed: &mut Vec<Exposed>, index: u32, name: &String)
    ensures
        views(final(exposed)@) == renamed(views(old(exposed)@), index, name@),
{
    let ghost before = exposed@;
    let mut i: usize = 0;
    while i < exposed.len()
        invariant
            i <= exposed.len(),
            exposed.len() == before.len(),
            before == old(exposed)@,
            forall|j: int|
                0 <= j < i ==> (#[trigger] exposed@[j])@ == renamed(views(before), index, name@)[j],
            forall|j: int| i <= j < before.len() ==> #[trigger] exposed@[j] == before[j],
        decreases exposed.len() - i,
    {
        let x = &exposed[i];
        let (module, found, content) = (x.module, x.index, x.content);
        if found == index {
            exposed.set(i, Exposed { module, index, name: Some(name.clone()), content });
        }
        i += 1;
    }
    assert(views(exposed@) =~= renamed(views(before), index, name@));
}

/// What exports are collected into: the exposed globals with their names, the stack
/// pointers, and the exports themselves.
pub struct ExportsV {
    pub exposed: Seq<ExposedV>,
    pub stack_pointers: Seq<StackPointer>,
    pub exports: Seq<ExportV>,
}

struct Exports {
    exposed: Vec<Exposed>,
    stack_pointers: Vec<StackPointer>,
    exports: Vec<Export>,
}

impl View for Exports {
    type V = ExportsV;

    closed spec fn view(&self) -> ExportsV {
        ExportsV {
            exposed: views(self.exposed@),
            stack_pointers: self.stack_pointers@,
            exports: views(self.exports@),
        }
    }
}

/// The type of a global, if there is one of that index.
pub open spec fn decl_at(decls: Seq<GlobalDecl>, index: u32) -> Option<GlobalDecl> {
    if index < decls.len() {
        Some(decls[index as int])
    } else {
        None
    }
}

/// An export: the last name of an exposed global is the one it keeps.
pub open spec fn export_step(module: u32, decls: Seq<GlobalDecl>) -> spec_fn(
    ExportsV,
    Result<ExportV, ReadError>,
) -> Result<ExportsV, InitError> {
    |s: ExportsV, item: Result<ExportV, ReadError>|
        match item {
            Ok(export) => Ok(
                ExportsV {
                    exposed: if export.kind == ExternKind::Global {
                        renamed(s.exposed, export.index, export.name)
                    } else {
                        s.exposed
                    },
                    stack_pointers: if export.kind == ExternKind::Global && export.name
                        == "__stack_pointer"@ {
                        s.stack_pointers.push(
                            StackPointer { module, decl: decl_at(decls, export.index) },
                        )
                    } else {
                        s.stack_pointers
                    },
                    exports: s.exports.push(export),
                },
            ),
            Err(e) => Err(malformed(e)),
        }
}

fn survey_exports(
    module: u32,
    decls: &Vec<GlobalDecl>,
    s: Exports,
    items: &Vec<Result<Export, ReadError>>,
) -> (r: Result<Exports, InitError>)
    ensures
        viewed(r) == fold(s@, results(items@), export_step(module, decls@)),
{
    let ghost init = s@;
    let ghost all = results(items@);
    let ghost step = export_step(module, decls@);
    let mut found = s;
    let stack_pointer: String = String::from_str("__stack_pointer");
    let mut i: usize = 0;
    while i < items.len()
        invariant
            i <= items.len(),
            init == s@,
            all == results(items@),
            step == export_step(module, decls@),
            stack_pointer@ == "__stack_pointer"@,
            fold(init, all.take(i as int), step) == Ok::<_, InitError>(found@),
        decreases items.len() - i,
    {
        proof {
            lemma_fold_step(init, all, i as int, step);
        }
        match &items[i] {
            Ok(export) => {
                let kind = export.kind;
                let index: u32 = export.index;
                if kind == ExternKind::Global {
                    rename(&mut found.exposed, index, &export.name);
                    if export.name == stack_pointer {
                        let decl = if (index as usize) < decls.len() {
                            Some(decls[index as usize])
                        } else {
                            None
                        };
                        found.stack_pointers.push(StackPointer { module, decl });
                    }
                }
                let copy = Export { name: export.name.clone(), kind, index };
                proof {
                    lemma_views_push(found.exports@, copy);
                }
                found.exports.push(copy);
            },
            Err(e) => {
                proof {
                    lemma_fold_stop(init, all, i as int, step);
                }
                return Err(InitError::Malformed { offset: e.offset });
            },
        }
        i += 1;
    }
    assert(all.take(i as int) =~= all);
    Ok(found)
}

/// The name under which an instrumented module exports a global that had none.
pub open spec fn fresh_name(index: u32) -> Seq<char> {
    "component-init:"@ + decimal(index as nat)
}

/// The exposed globals after each has got a name.
pub open spec fn named(exposed: Seq<ExposedV>) -> Seq<ExposedV> {
    exposed.map_values(
        |x: ExposedV|
            ExposedV {
                name: match x.name {
                    Some(name) => Some(name),
                    None => Some(fresh_name(x.index)),
                },
                ..x
            },
    )
}

/// The exports of those that had no name.
pub open spec fn added_exports(exposed: Seq<ExposedV>) -> Seq<ExportV>
    decreases exposed.len(),
{
    if exposed.len() == 0 {
        seq![]
    } else {
        let rest = added_exports(exposed.drop_last());
        let x = exposed.last();
        if x.name is None {
            rest.push(ExportV { name: fresh_name(x.index), kind: ExternKind::Global, index: x.index })
        } else {
            rest
        }
    }
}

fn add_exports(exposed: &mut Vec<Exposed>, exports: &mut Vec<Export>)
    ensures
        views(final(exposed)@) == named(views(old(exposed)@)),
        views(final(exports)@) == views(old(exports)@) + added_exports(views(old(exposed)@)),
{
    let ghost before = views(exposed@);
    let ghost others = views(exports@);
    assert(others + added_exports(before.take(0)) =~= others);
    let mut i: usize = 0;
    while i < exposed.len()
        invariant
            i <= exposed.len(),
            exposed.len() == before.len(),
            before == views(old(exposed)@),
            others == views(old(exports)@),
            forall|j: int| 0 <= j < i ==> (#[trigger] exposed@[j])@ == named(before)[j],
            forall|j: int| i <= j < before.len() ==> (#[trigger] exposed@[j])@ == before[j],
            views(exports@) == others + added_exports(before.take(i as int)),
        decreases exposed.len() - i,
    {
        assert(before.take(i + 1).drop_last() =~= before.take(i as int));
        let x = &exposed[i];
        let (module, index, content) = (x.module, x.index, x.content);
        if x.name.is_none() {
            let mut name = String::from_str("component-init:");
            name.append(to_decimal(index as u64).as_str());
            let export = Export { name: name.clone(), kind: ExternKind::Global, index };
            proof {
                lemma_views_push(exports@, export);
                assert(views(exports@).push(export@) =~= others + added_exports(
                    before.take(i + 1),
                ));
            }
            exports.push(export);
            exposed.set(i, Exposed { module, index, name: Some(name), content });
        }
        i += 1;
    }
    assert(before.take(i as int) =~= before);
    assert(views(exposed@) =~= named(before));
}

/// A section that stands behind the export section of a module, if it has one.
pub open spec fn is_after_exports(id: u8) -> bool {
    8 <= id <= 12
}

/// There is a global without a name.
pub open spec fn has_unnamed(exposed: Seq<ExposedV>) -> bool {
    exists|k: int| 0 <= k < exposed.len() && (#[trigger] exposed[k]).name is None
}

/// The state after an export section has been added, if the module lacks one that its
/// globals need.
pub open spec fn all_exported(s: ModuleSurveyV) -> ModuleSurveyV {
    if has_unnamed(s.exposed) {
        ModuleSurveyV {
            exposed: named(s.exposed),
            sections: s.sections.push(ModuleSectionV::Exports(added_exports(s.exposed))),
            ..s
        }
    } else {
        s
    }
}

/// The state in which a payload is met: where it stands behind the place of an export
/// section, what is needed of one is there.
pub open spec fn before_payload(s: ModuleSurveyV, section: Option<SectionRange>) -> ModuleSurveyV {
    if section is Some && is_after_exports(section->Some_0.id) {
        all_exported(s)
    } else {
        s
    }
}

fn export_all<'a>(s: ModuleSurvey<'a>) -> (r: ModuleSurvey<'a>)
    ensures
        r@ == all_exported(s@),
{
    let mut s = s;
    let ghost exposed = views(s.exposed@);
    let mut i: usize = 0;
    while i < s.exposed.len() && s.exposed[i].name.is_some()
        invariant
            i <= s.exposed.len(),
            exposed == views(s.exposed@),
            forall|k: int| 0 <= k < i ==> (#[trigger] exposed[k]).name is Some,
        decreases s.exposed.len() - i,
    {
        assert(exposed[i as int] == s.exposed@[i as int]@);
        i += 1;
    }
    if i < s.exposed.len() {
        assert(exposed[i as int] == s.exposed@[i as int]@);
        assert(has_unnamed(exposed));
        let mut exports: Vec<Export> = Vec::new();
        let ghost none = views(exports@);
        add_exports(&mut s.exposed, &mut exports);
        assert(none + added_exports(exposed) =~= added_exports(exposed));
        let section = ModuleSection::Exports(exports);
        proof {
            lemma_views_push(s.sections@, section);
        }
        s.sections.push(section);
    }
    s
}

/// An operator: those that change a table are refused.
pub open spec fn operator_step() -> spec_fn((), Result<OperatorKind, ReadError>) -> Result<
    (),
    InitError,
> {
    |s: (), item: Result<OperatorKind, ReadError>|
        match item {
            Ok(OperatorKind::Other) => Ok(()),
            Ok(_) => Err(InitError::TableOperation),
            Err(e) => Err(malformed(e)),
        }
}

fn survey_operators(items: &Vec<Result<OperatorKind, ReadError>>) -> (r: Result<(), InitError>)
    ensures
        r == fold((), items@, operator_step()),
{
    let mut i: usize = 0;
    while i < items.len()
        invariant
            i <= items.len(),
            fold((), items@.take(i as int), operator_step()) == Ok::<(), InitError>(()),
        decreases items.len() - i,
    {
        proof {
            lemma_fold_step((), items@, i as int, operator_step());
        }
        match &items[i] {
            Ok(OperatorKind::Other) => {},
            Ok(_) => {
                proof {
                    lemma_fold_stop((), items@, i as int, operator_step());
                }
                return Err(InitError::TableOperation);
            },
            Err(e) => {
                proof {
                    lemma_fold_stop((), items@, i as int, operator_step());
                }
                return Err(InitError::Malformed { offset: e.offset });
            },
        }
        i += 1;
    }
    assert(items@.take(i as int) =~= items@);
    Ok(())
}

/// The section that a payload is, as it stands in the bytes.
pub open spec fn raw_module_section(
    bytes: Seq<u8>,
    sections: Seq<ModuleSectionV>,
    section: Option<SectionRange>,
) -> Result<Seq<ModuleSectionV>, InitError> {
    match section {
        Some(r) => if r.within(bytes.len()) {
            Ok(sections.push(ModuleSectionV::Raw { id: r.id, data: r.of(bytes) }))
        } else {
            Err(InitError::Malformed { offset: r.start })
        },
        None => Ok(sections),
    }
}

/// Appends a section of a core module unchanged, if the payload is one.
pub fn copy_module_section<'a>(
    bytes: &'a [u8],
    section: Option<SectionRange>,
    sections: Vec<ModuleSection<'a>>,
) -> (r: Result<Vec<ModuleSection<'a>>, InitError>)
    ensures
        match r {
            Ok(copied) => raw_module_section(bytes@, views(sections@), section) == Ok::<
                _,
                InitError,
            >(views(copied@)),
            Err(e) => raw_module_section(bytes@, views(sections@), section) == Err::<
                Seq<ModuleSectionV>,
                _,
            >(e),
        },
{
    let mut sections = sections;
    match section {
        Some(r) => if r.start <= r.end && r.end <= bytes.len() {
            let raw = ModuleSection::Raw {
                id: r.id,
                data: slice_subrange(bytes, r.start, r.end),
            };
            proof {
                lemma_views_push(sections@, raw);
            }
            sections.push(raw);
            Ok(sections)
        } else {
            Err(InitError::Malformed { offset: r.start })
        },
        None => Ok(sections),
    }
}

/// The state with the section of the payload appended.
pub open spec fn with_raw_section(
    bytes: Seq<u8>,
    s: ModuleSurveyV,
    section: Option<SectionRange>,
) -> Result<ModuleSurveyV, InitError> {
    match raw_module_section(bytes, s.sections, section) {
        Ok(sections) => Ok(ModuleSurveyV { sections, ..s }),
        Err(e) => Err(e),
    }
}

/// A payload of a module that could be read, in the state in which it is met.
pub open spec fn module_payload(
    bytes: Seq<u8>,
    module: u32,
    s: ModuleSurveyV,
    item: ModuleItemV,
) -> Result<ModuleSurveyV, InitError> {
    match item.content {
        ModuleContentV::Imports(items) => match fold(s.decls, items, import_step()) {
            Ok(decls) => with_raw_section(
                bytes,
                ModuleSurveyV { decls, ..s },
                item.section,
            ),
            Err(e) => Err(e),
        },
        ModuleContentV::Tables(count) => if count > 1 || (count == 1 && s.saw_table) {
            Err(InitError::SecondTable)
        } else {
            with_raw_section(
                bytes,
                ModuleSurveyV { saw_table: s.saw_table || count == 1, ..s },
                item.section,
            )
        },
        ModuleContentV::Memories(items) => match fold(
            s.memory,
            items,
            memory_step(module),
        ) {
            Ok(memory) => with_raw_section(
                bytes,
                ModuleSurveyV { memory, ..s },
                item.section,
            ),
            Err(e) => Err(e),
        },
        ModuleContentV::Globals(items) => match fold(s, items, global_step(module)) {
            Ok(s) => with_raw_section(bytes, s, item.section),
            Err(e) => Err(e),
        },
        ModuleContentV::Exports(items) => match fold(
            ExportsV {
                exposed: s.exposed,
                stack_pointers: s.stack_pointers,
                exports: seq![],
            },
            items,
            export_step(module, s.decls),
        ) {
            Ok(found) => Ok(
                ModuleSurveyV {
                    exposed: named(found.exposed),
                    stack_pointers: found.stack_pointers,
                    sections: s.sections.push(
                        ModuleSectionV::Exports(
                            found.exports + added_exports(found.exposed),
                        ),
                    ),
                    ..s
                },
            ),
            Err(e) => Err(e),
        },
        ModuleContentV::Operators(items) => match fold((), items, operator_step()) {
            Ok(_) => with_raw_section(bytes, s, item.section),
            Err(e) => Err(e),
        },
        ModuleContentV::Other => with_raw_section(bytes, s, item.section),
    }
}

/// A payload of a module.
pub open spec fn module_step(bytes: Seq<u8>, module: u32) -> spec_fn(
    ModuleSurveyV,
    Result<ModuleItemV, ReadError>,
) -> Result<ModuleSurveyV, InitError> {
    |s: ModuleSurveyV, item: Result<ModuleItemV, ReadError>|
        match item {
            Ok(item) => module_payload(bytes, module, before_payload(s, item.section), item),
            Err(e) => Err(malformed(e)),
        }
}

fn push_raw_section<'a>(
    bytes: &'a [u8],
    s: ModuleSurvey<'a>,
    section: Option<SectionRange>,
) -> (r: Result<ModuleSurvey<'a>, InitError>)
    ensures
        viewed(r) == with_raw_section(bytes@, s@, section),
{
    match copy_module_section(bytes, section, s.sections) {
        Ok(sections) => Ok(
            ModuleSurvey {
                memory: s.memory,
                saw_table: s.saw_table,
                stack_pointers: s.stack_pointers,
                decls: s.decls,
                exposed: s.exposed,
                reference_global: s.reference_global,
                sections,
            },
        ),
        Err(e) => Err(e),
    }
}

/// A payload as the passes see it.
pub open spec fn seen<T: View>(item: Result<T, ReadError>) -> Result<T::V, ReadError> {
    match item {
        Ok(x) => Ok(x@),
        Err(e) => Err(e),
    }
}

fn survey_module_item<'a>(
    bytes: &'a [u8],
    module: u32,
    s: ModuleSurvey<'a>,
    item: &Result<ModuleItem, ReadError>,
) -> (r: Result<ModuleSurvey<'a>, InitError>)
    ensures
        viewed(r) == module_step(bytes@, module)(s@, seen(*item)),
{
    match item {
        Err(e) => Err(InitError::Malformed { offset: e.offset }),
        Ok(item) => {
            let mut s = match item.section {
                Some(r) => if 8 <= r.id && r.id <= 12 {
                    export_all(s)
                } else {
                    s
                },
                None => s,
            };
            match &item.content {
                ModuleContent::Imports(items) => {
                    match survey_imports(s.decls, items) {
                        Ok(decls) => {
                            s.decls = decls;
                        },
                        Err(e) => {
                            return Err(e);
                        },
                    }
                    push_raw_section(bytes, s, item.section)
                },
                ModuleContent::Tables(count) => {
                    if *count > 1 || (*count == 1 && s.saw_table) {
                        return Err(InitError::SecondTable);
                    }
                    if *count == 1 {
                        s.saw_table = true;
                    }
                    push_raw_section(bytes, s, item.section)
                },
                ModuleContent::Memories(items) => {
                    match survey_memories(module, s.memory, items) {
                        Ok(memory) => {
                            s.memory = memory;
                        },
                        Err(e) => {
                            return Err(e);
                        },
                    }
                    push_raw_section(bytes, s, item.section)
                },
                ModuleContent::Globals(items) => match survey_globals(module, s, items) {
                    Ok(s) => push_raw_section(bytes, s, item.section),
                    Err(e) => Err(e),
                },
                ModuleContent::Exports(items) => {
                    let none: Vec<Export> = Vec::new();
                    assert(views(none@) =~= seq![]);
                    let start = Exports {
                        exposed: s.exposed,
                        stack_pointers: s.stack_pointers,
                        exports: none,
                    };
                    match survey_exports(module, &s.decls, start, items) {
                        Ok(found) => {
                            let mut exposed = found.exposed;
                            let mut exports = found.exports;
                            add_exports(&mut exposed, &mut exports);
                            s.exposed = exposed;
                            s.stack_pointers = found.stack_pointers;
                            let section = ModuleSection::Exports(exports);
                            proof {
                                lemma_views_push(s.sections@, section);
                            }
                            s.sections.push(section);
                            Ok(s)
                        },
                        Err(e) => Err(e),
                    }
                },
                ModuleContent::Operators(items) => match survey_operators(items) {
                    Ok(_) => push_raw_section(bytes, s, item.section),
                    Err(e) => Err(e),
                },
                ModuleContent::Other => push_raw_section(bytes, s, item.section),
            }
        },
    }
}

fn survey_module<'a>(
    bytes: &'a [u8],
    module: u32,
    s: ModuleSurvey<'a>,
    items: &Vec<Result<ModuleItem, ReadError>>,
) -> (r: Result<ModuleSurvey<'a>, InitError>)
    ensures
        viewed(r) == fold(s@, results(items@), module_step(bytes@, module)),
{
    let ghost init = s@;
    let ghost all = results(items@);
    let ghost step = module_step(bytes@, module);
    let mut found = s;
    let mut i: usize = 0;
    while i < items.len()
        invariant
            i <= items.len(),
            init == s@,
            all == results(items@),
            step == module_step(bytes@, module),
            fold(init, all.take(i as int), step) == Ok::<_, InitError>(found@),
        decreases items.len() - i,
    {
        proof {
            lemma_fold_step(init, all, i as int, step);
        }
        match survey_module_item(bytes, module, found, &items[i]) {
            Ok(next) => {
                found = next;
            },
            Err(e) => {
                proof {
                    lemma_fold_stop(init, all, i as int, step);
                }
                return Err(e);
            },
        }
        i += 1;
    }
    assert(all.take(i as int) =~= all);
    Ok(found)
}

/// How many items of each index space there are.
#[derive(Clone, Copy, Debug, PartialEq, Eq, Structural)]
pub struct Counts {
    pub modules: u32,
    pub instances: u32,
    pub core_functions: u32,
    pub core_memories: u32,
    pub functions: u32,
    pub types: u32,
}

/// A core instance of a module.
#[derive(Clone, Copy, Debug, PartialEq, Eq, Structural)]
pub struct Instantiated {
    pub module: u32,
    pub instance: u32,
}

/// What the pass finds in a component.
#[derive(Debug, PartialEq, Eq)]
pub struct Survey<'a> {
    pub counts: Counts,
    /// The memory, with the module that defines it.
    pub memory: Option<(u32, MemoryType)>,
    pub saw_table: bool,
    pub stack_pointers: Vec<StackPointer>,
    /// The mutable globals that modules define, by module and index.
    pub exposed: Vec<Exposed>,
    pub reference_global: bool,
    pub instantiations: Vec<Instantiated>,
    /// The sections of the instrumented component so far.
    pub sections: Vec<ComponentSection<'a>>,
}

pub struct SurveyV {
    pub counts: Counts,
    pub memory: Option<(u32, MemoryType)>,
    pub saw_table: bool,
    pub stack_pointers: Seq<StackPointer>,
    pub exposed: Seq<ExposedV>,
    pub reference_global: bool,
    pub instantiations: Seq<Instantiated>,
    pub sections: Seq<ComponentSectionV>,
}

impl<'a> View for Survey<'a> {
    type V = SurveyV;

    open spec fn view(&self) -> SurveyV {
        SurveyV {
            counts: self.counts,
            memory: self.memory,
            saw_table: self.saw_table,
            stack_pointers: self.stack_pointers@,
            exposed: views(self.exposed@),
            reference_global: self.reference_global,
            instantiations: self.instantiations@,
            sections: views(self.sections@),
        }
    }
}

/// Where the pass starts.
pub open spec fn nothing_found() -> SurveyV {
    SurveyV {
        counts: Counts {
            modules: 0,
            instances: 0,
            core_functions: 0,
            core_memories: 0,
            functions: 0,
            types: 0,
        },
        memory: None,
        saw_table: false,
        stack_pointers: seq![],
        exposed: seq![],
        reference_global: false,
        instantiations: seq![],
        sections: seq![],
    }
}

/// One item more of an index space.
pub open spec fn counted(c: Counts, sort: Sort) -> Result<Counts, InitError> {
    match sort {
        Sort::CoreModule => if c.modules < u32::MAX {
            Ok(Counts { modules: (c.modules + 1) as u32, ..c })
        } else {
            Err(InitError::TooMany)
        },
        Sort::CoreFunc => if c.core_functions < u32::MAX {
            Ok(Counts { core_functions: (c.core_functions + 1) as u32, ..c })
        } else {
            Err(InitError::TooMany)
        },
        Sort::CoreMemory => if c.core_memories < u32::MAX {
            Ok(Counts { core_memories: (c.core_memories + 1) as u32, ..c })
        } else {
            Err(InitError::TooMany)
        },
        Sort::Func => if c.functions < u32::MAX {
            Ok(Counts { functions: (c.functions + 1) as u32, ..c })
        } else {
            Err(InitError::TooMany)
        },
        Sort::Type => if c.types < u32::MAX {
            Ok(Counts { types: (c.types + 1) as u32, ..c })
        } else {
            Err(InitError::TooMany)
        },
        Sort::Other => Ok(c),
    }
}

/// Counts an item.
pub fn count(c: Counts, sort: Sort) -> (r: Result<Counts, InitError>)
    ensures
        r == counted(c, sort),
{
    let mut c = c;
    match sort {
        Sort::CoreModule => {
            if c.modules == u32::MAX {
                return Err(InitError::TooMany);
            }
            get_and_increment(&mut c.modules);
        },
        Sort::CoreFunc => {
            if c.core_functions == u32::MAX {
                return Err(InitError::TooMany);
            }
            get_and_increment(&mut c.core_functions);
        },
        Sort::CoreMemory => {
            if c.core_memories == u32::MAX {
                return Err(InitError::TooMany);
            }
            get_and_increment(&mut c.core_memories);
        },
        Sort::Func => {
            if c.functions == u32::MAX {
                return Err(InitError::TooMany);
            }
            get_and_increment(&mut c.functions);
        },
        Sort::Type => {
            if c.types == u32::MAX {
                return Err(InitError::TooMany);
            }
            get_and_increment(&mut c.types);
        },
        Sort::Other => {},
    }
    Ok(c)
}

/// An item of a section that extends index spaces.
pub open spec fn sort_step() -> spec_fn(Counts, Result<Sort, ReadError>) -> Result<
    Counts,
    InitError,
> {
    |c: Counts, item: Result<Sort, ReadError>|
        match item {
            Ok(sort) => counted(c, sort),
            Err(e) => Err(malformed(e)),
        }
}

/// Counts the items of a section.
pub fn count_sorts(c: Counts, items: &Vec<Result<Sort, ReadError>>) -> (r: Result<
    Counts,
    InitError,
>)
    ensures
        r == fold(c, items@, sort_step()),
{
    let mut found = c;
    let mut i: usize = 0;
    while i < items.len()
        invariant
            i <= items.len(),
            fold(c, items@.take(i as int), sort_step()) == Ok::<_, InitError>(found),
        decreases items.len() - i,
    {
        proof {
            lemma_fold_step(c, items@, i as int, sort_step());
        }
        let next = match &items[i] {
            Ok(sort) => count(found, *sort),
            Err(e) => Err(InitError::Malformed { offset: e.offset }),
        };
        match next {
            Ok(next) => {
                found = next;
            },
            Err(e) => {
                proof {
                    lemma_fold_stop(c, items@, i as int, sort_step());
                }
                return Err(e);
            },
        }
        i += 1;
    }
    assert(items@.take(i as int) =~= items@);
    Ok(found)
}

/// A module has an instance.
pub open spec fn has_instance(instantiations: Seq<Instantiated>, module: u32) -> bool {
    exists|j: int| 0 <= j < instantiations.len() && (#[trigger] instantiations[j]).module == module
}

/// A core instance: a module may have one.
pub open spec fn instance_step() -> spec_fn(
    (u32, Seq<Instantiated>),
    Result<InstanceKind, ReadError>,
) -> Result<(u32, Seq<Instantiated>), InitError> {
    |s: (u32, Seq<Instantiated>), item: Result<InstanceKind, ReadError>|
        if s.0 == u32::MAX {
            Err(InitError::TooMany)
        } else {
            match item {
                Ok(InstanceKind::Instantiate { module }) => if has_instance(s.1, module) {
                    Err(InitError::InstantiatedTwice)
                } else {
                    Ok(((s.0 + 1) as u32, s.1.push(Instantiated { module, instance: s.0 })))
                },
                Ok(InstanceKind::FromExports) => Ok(((s.0 + 1) as u32, s.1)),
                Err(e) => Err(malformed(e)),
            }
        }
}

pub(crate) fn is_instantiated(instantiations: &Vec<Instantiated>, module: u32) -> (b: bool)
    ensures
        b == has_instance(instantiations@, module),
{
    let mut i: usize = 0;
    while i < instantiations.len()
        invariant
            i <= instantiations.len(),
            forall|j: int| 0 <= j < i ==> (#[trigger] instantiations@[j]).module != module,
        decreases instantiations.len() - i,
    {
        if instantiations[i].module == module {
            return true;
        }
        i += 1;
    }
    false
}

fn survey_instances(
    count: u32,
    instantiations: Vec<Instantiated>,
    items: &Vec<Result<InstanceKind, ReadError>>,
) -> (r: Result<(u32, Vec<Instantiated>), InitError>)
    ensures
        match r {
            Ok((n, found)) => fold((count, instantiations@), items@, instance_step()) == Ok::<
                _,
                InitError,
            >((n, found@)),
            Err(e) => fold((count, instantiations@), items@, instance_step()) == Err::<
                (u32, Seq<Instantiated>),
                _,
            >(e),
        },
{
    let ghost init = (count, instantiations@);
    let ghost step = instance_step();
    let mut n = count;
    let mut found = instantiations;
    let mut i: usize = 0;
    while i < items.len()
        invariant
            i <= items.len(),
            init == (count, instantiations@),
            step == instance_step(),
            fold(init, items@.take(i as int), step) == Ok::<_, InitError>((n, found@)),
        decreases items.len() - i,
    {
        proof {
            lemma_fold_step(init, items@, i as int, step);
        }
        if n == u32::MAX {
            proof {
                lemma_fold_stop(init, items@, i as int, step);
            }
            return Err(InitError::TooMany);
        }
        let instance = get_and_increment(&mut n);
        match &items[i] {
            Ok(InstanceKind::Instantiate { module }) => {
                if is_instantiated(&found, *module) {
                    proof {
                        lemma_fold_stop(init, items@, i as int, step);
                    }
                    return Err(InitError::InstantiatedTwice);
                }
                found.push(Instantiated { module: *module, instance });
            },
            Ok(InstanceKind::FromExports) => {},
            Err(e) => {
                proof {
                    lemma_fold_stop(init, items@, i as int, step);
                }
                return Err(InitError::Malformed { offset: e.offset });
            },
        }
        i += 1;
    }
    assert(items@.take(i as int) =~= items@);
    Ok((n, found))
}

/// The section that a payload is, as it stands in the bytes.
pub open spec fn raw_component_section(
    bytes: Seq<u8>,
    sections: Seq<ComponentSectionV>,
    section: Option<SectionRange>,
) -> Result<Seq<ComponentSectionV>, InitError> {
    match section {
        Some(r) => if r.within(bytes.len()) {
            Ok(sections.push(ComponentSectionV::Raw { id: r.id, data: r.of(bytes) }))
        } else {
            Err(InitError::Malformed { offset: r.start })
        },
        None => Ok(sections),
    }
}

/// Appends a section of a component unchanged, if the payload is one.
pub fn copy_component_section<'a>(
    bytes: &'a [u8],
    section: Option<SectionRange>,
    sections: Vec<ComponentSection<'a>>,
) -> (r: Result<Vec<ComponentSection<'a>>, InitError>)
    ensures
        match r {
            Ok(copied) => raw_component_section(bytes@, views(sections@), section) == Ok::<
                _,
                InitError,
            >(views(copied@)),
            Err(e) => raw_component_section(bytes@, views(sections@), section) == Err::<
                Seq<ComponentSectionV>,
                _,
            >(e),
        },
{
    let mut sections = sections;
    match section {
        Some(r) => if r.start <= r.end && r.end <= bytes.len() {
            let raw = ComponentSection::Raw {
                id: r.id,
                data: slice_subrange(bytes, r.start, r.end),
            };
            proof {
                lemma_views_push(sections@, raw);
            }
            sections.push(raw);
            Ok(sections)
        } else {
            Err(InitError::Malformed { offset: r.start })
        },
        None => Ok(sections),
    }
}

/// The state with the section of the payload appended.
pub open spec fn with_raw_component_section(
    bytes: Seq<u8>,
    s: SurveyV,
    section: Option<SectionRange>,
) -> Result<SurveyV, InitError> {
    match raw_component_section(bytes, s.sections, section) {
        Ok(sections) => Ok(SurveyV { sections, ..s }),
        Err(e) => Err(e),
    }
}

/// Where the pass starts within a module.
pub open spec fn entering(s: SurveyV) -> ModuleSurveyV {
    ModuleSurveyV {
        memory: s.memory,
        saw_table: s.saw_table,
        stack_pointers: s.stack_pointers,
        decls: seq![],
        exposed: seq![],
        reference_global: s.reference_global,
        sections: seq![],
    }
}

/// The state after a module.
pub open spec fn leaving(s: SurveyV, counts: Counts, m: ModuleSurveyV) -> SurveyV {
    SurveyV {
        counts,
        memory: m.memory,
        saw_table: m.saw_table,
        stack_pointers: m.stack_pointers,
        exposed: s.exposed + m.exposed,
        reference_global: m.reference_global,
        sections: s.sections.push(ComponentSectionV::Module(m.sections)),
        ..s
    }
}

/// A payload of a component.
pub open spec fn component_step(bytes: Seq<u8>) -> spec_fn(
    SurveyV,
    Result<ItemV, ReadError>,
) -> Result<SurveyV, InitError> {
    |s: SurveyV, item: Result<ItemV, ReadError>|
        match item {
            Ok(item) => match item.content {
                ContentV::Header { component } => if component {
                    with_raw_component_section(bytes, s, item.section)
                } else {
                    Err(InitError::NotComponent)
                },
                ContentV::CoreModule(items) => match counted(s.counts, Sort::CoreModule) {
                    Ok(counts) => match fold(
                        entering(s),
                        items,
                        module_step(bytes, s.counts.modules),
                    ) {
                        Ok(m) => Ok(leaving(s, counts, all_exported(m))),
                        Err(e) => Err(e),
                    },
                    Err(e) => Err(e),
                },
                ContentV::Subcomponent => Err(InitError::Subcomponent),
                ContentV::Instances(items) => match fold(
                    (s.counts.instances, s.instantiations),
                    items,
                    instance_step(),
                ) {
                    Ok((instances, instantiations)) => with_raw_component_section(
                        bytes,
                        SurveyV {
                            counts: Counts { instances, ..s.counts },
                            instantiations,
                            ..s
                        },
                        item.section,
                    ),
                    Err(e) => Err(e),
                },
                ContentV::Types(count) => if s.counts.types + count <= u32::MAX {
                    with_raw_component_section(
                        bytes,
                        SurveyV {
                            counts: Counts { types: (s.counts.types + count) as u32, ..s.counts },
                            ..s
                        },
                        item.section,
                    )
                } else {
                    Err(InitError::TooMany)
                },
                ContentV::Sorts(items) => match fold(s.counts, items, sort_step()) {
                    Ok(counts) => with_raw_component_section(
                        bytes,
                        SurveyV { counts, ..s },
                        item.section,
                    ),
                    Err(e) => Err(e),
                },
                ContentV::Other => with_raw_component_section(bytes, s, item.section),
            },
            Err(e) => Err(malformed(e)),
        }
}

/// The pass over the items of a component.
pub open spec fn surveyed(bytes: Seq<u8>, items: Seq<Result<ItemV, ReadError>>) -> Result<
    SurveyV,
    InitError,
> {
    fold(nothing_found(), items, component_step(bytes))
}

fn push_raw_component_section<'a>(
    bytes: &'a [u8],
    s: Survey<'a>,
    section: Option<SectionRange>,
) -> (r: Result<Survey<'a>, InitError>)
    ensures
        viewed(r) == with_raw_component_section(bytes@, s@, section),
{
    match copy_component_section(bytes, section, s.sections) {
        Ok(sections) => Ok(
            Survey {
                counts: s.counts,
                memory: s.memory,
                saw_table: s.saw_table,
                stack_pointers: s.stack_pointers,
                exposed: s.exposed,
                reference_global: s.reference_global,
                instantiations: s.instantiations,
                sections,
            },
        ),
        Err(e) => Err(e),
    }
}

fn survey_core_module<'a>(
    bytes: &'a [u8],
    s: Survey<'a>,
    items: &Vec<Result<ModuleItem, ReadError>>,
) -> (r: Result<Survey<'a>, InitError>)
    ensures
        viewed(r) == match counted(s@.counts, Sort::CoreModule) {
            Ok(counts) => match fold(
                entering(s@),
                results(items@),
                module_step(bytes@, s@.counts.modules),
            ) {
                Ok(m) => Ok(leaving(s@, counts, all_exported(m))),
                Err(e) => Err(e),
            },
            Err(e) => Err(e),
        },
{
    let counts = match count(s.counts, Sort::CoreModule) {
        Ok(counts) => counts,
        Err(e) => {
            return Err(e);
        },
    };
    let ghost before = s@;
    let none: Vec<Exposed> = Vec::new();
    let empty: Vec<ModuleSection<'a>> = Vec::new();
    assert(views(none@) =~= seq![]);
    assert(views(empty@) =~= seq![]);
    let inner = ModuleSurvey {
        memory: s.memory,
        saw_table: s.saw_table,
        stack_pointers: s.stack_pointers,
        decls: Vec::new(),
        exposed: none,
        reference_global: s.reference_global,
        sections: empty,
    };
    assert(inner@ == entering(before));
    match survey_module(bytes, s.counts.modules, inner, items) {
        Ok(m) => {
            let m = export_all(m);
            let mut exposed = s.exposed;
            let mut more = m.exposed;
            let mut sections = s.sections;
            let section = ComponentSection::Module(m.sections);
            proof {
                assert(views(exposed@ + more@) =~= views(exposed@) + views(more@));
                lemma_views_push(sections@, section);
            }
            exposed.append(&mut more);
            sections.push(section);
            Ok(
                Survey {
                    counts,
                    memory: m.memory,
                    saw_table: m.saw_table,
                    stack_pointers: m.stack_pointers,
                    exposed,
                    reference_global: m.reference_global,
                    instantiations: s.instantiations,
                    sections,
                },
            )
        },
        Err(e) => Err(e),
    }
}

fn survey_item<'a>(bytes: &'a [u8], s: Survey<'a>, item: &Result<Item, ReadError>) -> (r: Result<
    Survey<'a>,
    InitError,
>)
    ensures
        viewed(r) == component_step(bytes@)(s@, seen(*item)),
{
    match item {
        Err(e) => Err(InitError::Malformed { offset: e.offset }),
        Ok(item) => {
            let mut s = s;
            match &item.content {
                Content::Header { component } => {
                    if !*component {
                        return Err(InitError::NotComponent);
                    }
                    push_raw_component_section(bytes, s, item.section)
                },
                Content::CoreModule(items) => survey_core_module(bytes, s, items),
                Content::Subcomponent => Err(InitError::Subcomponent),
                Content::Instances(items) => {
                    match survey_instances(s.counts.instances, s.instantiations, items) {
                        Ok((instances, instantiations)) => {
                            s.counts.instances = instances;
                            s.instantiations = instantiations;
                        },
                        Err(e) => {
                            return Err(e);
                        },
                    }
                    push_raw_component_section(bytes, s, item.section)
                },
                Content::Types(count) => {
                    if *count > u32::MAX - s.counts.types {
                        return Err(InitError::TooMany);
                    }
                    s.counts.types = s.counts.types + *count;
                    push_raw_component_section(bytes, s, item.section)
                },
                Content::Sorts(items) => {
                    match count_sorts(s.counts, items) {
                        Ok(counts) => {
                            s.counts = counts;
                        },
                        Err(e) => {
                            return Err(e);
                        },
                    }
                    push_raw_component_section(bytes, s, item.section)
                },
                Content::Other => push_raw_component_section(bytes, s, item.section),
            }
        },
    }
}

/// Checks the rules on the items of a component, whose ranges are those of `bytes`,
/// and collects what capturing its state takes.
pub fn survey<'a>(bytes: &'a [u8], items: &Vec<Result<Item, ReadError>>) -> (r: Result<
    Survey<'a>,
    InitError,
>)
    ensures
        viewed(r) == surveyed(bytes@, results(items@)),
{
    let ghost all = results(items@);
    let ghost step = component_step(bytes@);
    let none: Vec<Exposed> = Vec::new();
    let empty: Vec<ComponentSection<'a>> = Vec::new();
    assert(views(none@) =~= seq![]);
    assert(views(empty@) =~= seq![]);
    let mut found = Survey {
        counts: Counts {
            modules: 0,
            instances: 0,
            core_functions: 0,
            core_memories: 0,
            functions: 0,
            types: 0,
        },
        memory: None,
        saw_table: false,
        stack_pointers: Vec::new(),
        exposed: none,
        reference_global: false,
        instantiations: Vec::new(),
        sections: empty,
    };
    assert(found@ == nothing_found());
    let mut i: usize = 0;
    while i < items.len()
        invariant
            i <= items.len(),
            all == results(items@),
            step == component_step(bytes@),
            fold(nothing_found(), all.take(i as int), step) == Ok::<_, InitError>(found@),
        decreases items.len() - i,
    {
        proof {
            lemma_fold_step(nothing_found(), all, i as int, step);
        }
        match survey_item(bytes, found, &items[i]) {
            Ok(next) => {
                found = next;
            },
            Err(e) => {
                proof {
                    lemma_fold_stop(nothing_found(), all, i as int, step);
                }
                return Err(e);
            },
        }
        i += 1;
    }
    assert(all.take(i as int) =~= all);
    Ok(found)
}

} // verus!
