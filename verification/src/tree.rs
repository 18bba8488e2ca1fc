//! A component as a list of items, each with what its section holds.
use vstd::prelude::*;
use vstd::slice::slice_subrange;
use crate::parse::{
    aliases_in, canonicals_in, component_exports_in, component_imports_in, component_type_count,
    count_component_types, count_tables, exports_in, globals_in, imports_in, instances_in,
    memories_in, operators_in, parse_all, payloads, read_aliases, read_canonicals,
    read_component_exports, read_component_imports, read_exports, read_globals, read_imports,
    read_instances, read_memories, read_operators, results, table_count, GlobalDecl, GlobalEntry,
    InstanceKind, OperatorKind, Payload, PayloadKind, ReadError, SectionRange, Sort,
};
use crate::wasm::{Export, ExportV, MemoryType};

verus! {

/// The ids of the sections of a core module that are looked into.
pub const IMPORT_SECTION: u8 = 2;

pub const TABLE_SECTION: u8 = 4;

pub const MEMORY_SECTION: u8 = 5;

pub const GLOBAL_SECTION: u8 = 6;

pub const EXPORT_SECTION: u8 = 7;

pub const START_SECTION: u8 = 8;

pub const DATA_SECTION: u8 = 11;

/// The ids of the sections of a component that are looked into.
pub const CORE_MODULE_SECTION: u8 = 1;

pub const CORE_INSTANCE_SECTION: u8 = 2;

pub const ALIAS_SECTION: u8 = 6;

pub const COMPONENT_TYPE_SECTION: u8 = 7;

pub const CANONICAL_SECTION: u8 = 8;

pub const COMPONENT_IMPORT_SECTION: u8 = 10;

pub const COMPONENT_EXPORT_SECTION: u8 = 11;

/// What a payload of a core module holds.
#[derive(Debug, PartialEq, Eq)]
pub enum ModuleContent {
    Imports(Vec<Result<Option<GlobalDecl>, ReadError>>),
    Tables(usize),
    Memories(Vec<Result<MemoryType, ReadError>>),
    Globals(Vec<Result<GlobalEntry, ReadError>>),
    Exports(Vec<Result<Export, ReadError>>),
    Operators(Vec<Result<OperatorKind, ReadError>>),
    Other,
}

pub enum ModuleContentV {
    Imports(Seq<Result<Option<GlobalDecl>, ReadError>>),
    Tables(usize),
    Memories(Seq<Result<MemoryType, ReadError>>),
    Globals(Seq<Result<GlobalEntry, ReadError>>),
    Exports(Seq<Result<ExportV, ReadError>>),
    Operators(Seq<Result<OperatorKind, ReadError>>),
    Other,
}

impl View for ModuleContent {
    type V = ModuleContentV;

    open spec fn view(&self) -> ModuleContentV {
        match *self {
            ModuleContent::Imports(items) => ModuleContentV::Imports(items@),
            ModuleContent::Tables(count) => ModuleContentV::Tables(count),
            ModuleContent::Memories(items) => ModuleContentV::Memories(items@),
            ModuleContent::Globals(items) => ModuleContentV::Globals(items@),
            ModuleContent::Exports(items) => ModuleContentV::Exports(results(items@)),
            ModuleContent::Operators(items) => ModuleContentV::Operators(items@),
            ModuleContent::Other => ModuleContentV::Other,
        }
    }
}

/// A payload of a core module; `section` is the section that it is, if it is one.
#[derive(Debug, PartialEq, Eq)]
pub struct ModuleItem {
    pub section: Option<SectionRange>,
    pub content: ModuleContent,
}

pub struct ModuleItemV {
    pub section: Option<SectionRange>,
    pub content: ModuleContentV,
}

impl View for ModuleItem {
    type V = ModuleItemV;

    open spec fn view(&self) -> ModuleItemV {
        ModuleItemV { section: self.section, content: self.content@ }
    }
}

/// What a payload of a component holds.
#[derive(Debug, PartialEq, Eq)]
pub enum Content {
    Header { component: bool },
    CoreModule(Vec<Result<ModuleItem, ReadError>>),
    Subcomponent,
    Instances(Vec<Result<InstanceKind, ReadError>>),
    Types(u32),
    Sorts(Vec<Result<Sort, ReadError>>),
    Other,
}

pub enum ContentV {
    Header { component: bool },
    CoreModule(Seq<Result<ModuleItemV, ReadError>>),
    Subcomponent,
    Instances(Seq<Result<InstanceKind, ReadError>>),
    Types(u32),
    Sorts(Seq<Result<Sort, ReadError>>),
    Other,
}

impl View for Content {
    type V = ContentV;

    open spec fn view(&self) -> ContentV {
        match *self {
            Content::Header { component } => ContentV::Header { component },
            Content::CoreModule(items) => ContentV::CoreModule(results(items@)),
            Content::Subcomponent => ContentV::Subcomponent,
            Content::Instances(items) => ContentV::Instances(items@),
            Content::Types(count) => ContentV::Types(count),
            Content::Sorts(items) => ContentV::Sorts(items@),
            Content::Other => ContentV::Other,
        }
    }
}

/// A payload of a component; `section` is the section that it is, if it is one.
#[derive(Debug, PartialEq, Eq)]
pub struct Item {
    pub section: Option<SectionRange>,
    pub content: Content,
}

pub struct ItemV {
    pub section: Option<SectionRange>,
    pub content: ContentV,
}

impl View for Item {
    type V = ItemV;

    open spec fn view(&self) -> ItemV {
        ItemV { section: self.section, content: self.content@ }
    }
}

/// What a section of a core module holds.
pub open spec fn module_section(bytes: Seq<u8>, s: SectionRange) -> Result<
    ModuleContentV,
    ReadError,
> {
    if !s.within(bytes.len()) {
        Err(ReadError { offset: s.start })
    } else if s.id == IMPORT_SECTION {
        Ok(ModuleContentV::Imports(imports_in(s.of(bytes), s.start)))
    } else if s.id == TABLE_SECTION {
        match table_count(s.of(bytes), s.start) {
            Ok(count) => Ok(ModuleContentV::Tables(count)),
            Err(e) => Err(e),
        }
    } else if s.id == MEMORY_SECTION {
        Ok(ModuleContentV::Memories(memories_in(s.of(bytes), s.start)))
    } else if s.id == GLOBAL_SECTION {
        Ok(ModuleContentV::Globals(globals_in(s.of(bytes), s.start)))
    } else if s.id == EXPORT_SECTION {
        Ok(ModuleContentV::Exports(exports_in(s.of(bytes), s.start)))
    } else {
        Ok(ModuleContentV::Other)
    }
}

/// A payload of a core module as an item.
pub open spec fn module_item(bytes: Seq<u8>, p: Payload) -> Result<ModuleItemV, ReadError> {
    let content = match p.kind {
        PayloadKind::Body { start, end } => if start <= end <= bytes.len() {
            Ok(
                ModuleContentV::Operators(
                    operators_in(bytes.subrange(start as int, end as int), start),
                ),
            )
        } else {
            Err(ReadError { offset: start })
        },
        _ => match p.section {
            Some(s) => module_section(bytes, s),
            None => Ok(ModuleContentV::Other),
        },
    };
    match content {
        Ok(content) => Ok(ModuleItemV { section: p.section, content }),
        Err(e) => Err(e),
    }
}

/// What a section of a component holds, other than a core module.
pub open spec fn component_section(bytes: Seq<u8>, s: SectionRange) -> Result<
    ContentV,
    ReadError,
> {
    if !s.within(bytes.len()) {
        Err(ReadError { offset: s.start })
    } else if s.id == CORE_INSTANCE_SECTION {
        Ok(ContentV::Instances(instances_in(s.of(bytes), s.start)))
    } else if s.id == ALIAS_SECTION {
        Ok(ContentV::Sorts(aliases_in(s.of(bytes), s.start)))
    } else if s.id == COMPONENT_TYPE_SECTION {
        match component_type_count(s.of(bytes), s.start) {
            Ok(count) => Ok(ContentV::Types(count)),
            Err(e) => Err(e),
        }
    } else if s.id == CANONICAL_SECTION {
        Ok(ContentV::Sorts(canonicals_in(s.of(bytes), s.start)))
    } else if s.id == COMPONENT_IMPORT_SECTION {
        Ok(ContentV::Sorts(component_imports_in(s.of(bytes), s.start)))
    } else if s.id == COMPONENT_EXPORT_SECTION {
        Ok(ContentV::Sorts(component_exports_in(s.of(bytes), s.start)))
    } else {
        Ok(ContentV::Other)
    }
}

/// A payload of a component as an item, other than a core module.
pub open spec fn component_item(bytes: Seq<u8>, p: Payload) -> Result<ItemV, ReadError> {
    let content = match p.kind {
        PayloadKind::Version { component } => Ok(ContentV::Header { component }),
        PayloadKind::Nested => Ok(ContentV::Subcomponent),
        _ => match p.section {
            Some(s) => component_section(bytes, s),
            None => Ok(ContentV::Other),
        },
    };
    match content {
        Ok(content) => Ok(ItemV { section: p.section, content }),
        Err(e) => Err(e),
    }
}

/// Payloads are put together one after the other: `items` are those of the component
/// so far, `inner` those of the core module that is being read, if any.
pub struct WalkV {
    pub items: Seq<Result<ItemV, ReadError>>,
    pub inner: Option<(SectionRange, Seq<Result<ModuleItemV, ReadError>>)>,
}

/// The section of a core module, if the payload is one.
pub open spec fn opens(p: Payload) -> Option<SectionRange> {
    match (p.kind, p.section) {
        (PayloadKind::Nested, Some(s)) => if s.id == CORE_MODULE_SECTION {
            Some(s)
        } else {
            None
        },
        _ => None,
    }
}

/// A core module as an item of a component.
pub open spec fn core_module(
    section: SectionRange,
    items: Seq<Result<ModuleItemV, ReadError>>,
) -> ItemV {
    ItemV { section: Some(section), content: ContentV::CoreModule(items) }
}

/// One payload more.
pub open spec fn walk_step(bytes: Seq<u8>, w: WalkV, p: Result<Payload, ReadError>) -> WalkV {
    match (w.inner, p) {
        (Some((section, inner)), Err(e)) => WalkV {
            inner: Some((section, inner.push(Err(e)))),
            ..w
        },
        (Some((section, inner)), Ok(p)) => if p.kind is End {
            WalkV { items: w.items.push(Ok(core_module(section, inner))), inner: None }
        } else {
            WalkV { inner: Some((section, inner.push(module_item(bytes, p)))), ..w }
        },
        (None, Err(e)) => WalkV { items: w.items.push(Err(e)), ..w },
        (None, Ok(p)) => match opens(p) {
            Some(section) => WalkV { inner: Some((section, seq![])), ..w },
            None => WalkV { items: w.items.push(component_item(bytes, p)), ..w },
        },
    }
}

pub open spec fn walk(bytes: Seq<u8>, ps: Seq<Result<Payload, ReadError>>) -> WalkV
    decreases ps.len(),
{
    if ps.len() == 0 {
        WalkV { items: seq![], inner: None }
    } else {
        walk_step(bytes, walk(bytes, ps.drop_last()), ps.last())
    }
}

/// The items of a walk, with a core module that has no end.
pub open spec fn closed(w: WalkV) -> Seq<Result<ItemV, ReadError>> {
    match w.inner {
        Some((section, inner)) => w.items.push(Ok(core_module(section, inner))),
        None => w.items,
    }
}

/// The items of a component.
pub open spec fn tree(bytes: Seq<u8>) -> Seq<Result<ItemV, ReadError>> {
    closed(walk(bytes, payloads(bytes)))
}

/// The ranges in an item of a module lie within the bytes: that of an export section,
/// and those of the initial values of globals, none of which is empty.
pub open spec fn is_placed(len: nat, item: Result<ModuleItemV, ReadError>) -> bool {
    match item {
        Ok(ModuleItemV { section, content: ModuleContentV::Exports(_) }) => section is Some
            ==> section->Some_0.within(len),
        Ok(ModuleItemV { section: _, content: ModuleContentV::Globals(list) }) => forall|k: int|
            0 <= k < list.len() ==> (#[trigger] list[k] matches Ok(g) ==> g.init_start < g.init_end
                <= len),
        _ => true,
    }
}

/// The same of all items of a module.
pub open spec fn is_placed_module(len: nat, items: Seq<Result<ModuleItemV, ReadError>>) -> bool {
    forall|k: int| 0 <= k < items.len() ==> is_placed(len, #[trigger] items[k])
}

/// The same of all modules of a component.
pub open spec fn well_placed(len: nat, items: Seq<Result<ItemV, ReadError>>) -> bool {
    forall|k: int|
        0 <= k < items.len() ==> (#[trigger] items[k] matches Ok(item) ==> (
        item.content matches ContentV::CoreModule(list) ==> is_placed_module(len, list)))
}

/// The same of what has been walked over.
pub open spec fn is_placed_walk(len: nat, w: WalkV) -> bool {
    &&& well_placed(len, w.items)
    &&& w.inner matches Some((_, inner)) ==> is_placed_module(len, inner)
}

/// Appending to what was read appends its view.
proof fn lemma_results_push<T: View>(s: Seq<Result<T, ReadError>>, x: Result<T, ReadError>)
    ensures
        results(s.push(x)) == results(s).push(
            match x {
                Ok(x) => Ok(x@),
                Err(e) => Err(e),
            },
        ),
{
    assert(results(s.push(x)) =~= results(s).push(
        match x {
            Ok(x) => Ok(x@),
            Err(e) => Err(e),
        },
    ));
}

fn read_module_section(bytes: &[u8], s: SectionRange) -> (r: Result<ModuleContent, ReadError>)
    ensures
        match r {
            Ok(c) => {
                &&& module_section(bytes@, s) == Ok::<ModuleContentV, ReadError>(c@)
                &&& is_placed(
                    bytes@.len(),
                    Ok(ModuleItemV { section: Some(s), content: c@ }),
                )
            },
            Err(e) => module_section(bytes@, s) == Err::<ModuleContentV, ReadError>(e),
        },
{
    if !(s.start <= s.end && s.end <= bytes.len()) {
        return Err(ReadError { offset: s.start });
    }
    let data = slice_subrange(bytes, s.start, s.end);
    if s.id == IMPORT_SECTION {
        Ok(ModuleContent::Imports(read_imports(data, s.start)))
    } else if s.id == TABLE_SECTION {
        match count_tables(data, s.start) {
            Ok(count) => Ok(ModuleContent::Tables(count)),
            Err(e) => Err(e),
        }
    } else if s.id == MEMORY_SECTION {
        Ok(ModuleContent::Memories(read_memories(data, s.start)))
    } else if s.id == GLOBAL_SECTION {
        Ok(ModuleContent::Globals(read_globals(data, s.start)))
    } else if s.id == EXPORT_SECTION {
        Ok(ModuleContent::Exports(read_exports(data, s.start)))
    } else {
        Ok(ModuleContent::Other)
    }
}

fn read_module_item(bytes: &[u8], p: Payload) -> (r: Result<ModuleItem, ReadError>)
    ensures
        match r {
            Ok(item) => module_item(bytes@, p) == Ok::<ModuleItemV, ReadError>(item@)
                && is_placed(bytes@.len(), Ok(item@)),
            Err(e) => module_item(bytes@, p) == Err::<ModuleItemV, ReadError>(e),
        },
{
    let content = match p.kind {
        PayloadKind::Body { start, end } => if start <= end && end <= bytes.len() {
            Ok(ModuleContent::Operators(read_operators(slice_subrange(bytes, start, end), start)))
        } else {
            Err(ReadError { offset: start })
        },
        _ => match p.section {
            Some(s) => read_module_section(bytes, s),
            None => Ok(ModuleContent::Other),
        },
    };
    match content {
        Ok(content) => Ok(ModuleItem { section: p.section, content }),
        Err(e) => Err(e),
    }
}

fn read_component_section(bytes: &[u8], s: SectionRange) -> (r: Result<Content, ReadError>)
    ensures
        match r {
            Ok(c) => component_section(bytes@, s) == Ok::<ContentV, ReadError>(c@),
            Err(e) => component_section(bytes@, s) == Err::<ContentV, ReadError>(e),
        },
{
    if !(s.start <= s.end && s.end <= bytes.len()) {
        return Err(ReadError { offset: s.start });
    }
    let data = slice_subrange(bytes, s.start, s.end);
    if s.id == CORE_INSTANCE_SECTION {
        Ok(Content::Instances(read_instances(data, s.start)))
    } else if s.id == ALIAS_SECTION {
        Ok(Content::Sorts(read_aliases(data, s.start)))
    } else if s.id == COMPONENT_TYPE_SECTION {
        match count_component_types(data, s.start) {
            Ok(count) => Ok(Content::Types(count)),
            Err(e) => Err(e),
        }
    } else if s.id == CANONICAL_SECTION {
        Ok(Content::Sorts(read_canonicals(data, s.start)))
    } else if s.id == COMPONENT_IMPORT_SECTION {
        Ok(Content::Sorts(read_component_imports(data, s.start)))
    } else if s.id == COMPONENT_EXPORT_SECTION {
        Ok(Content::Sorts(read_component_exports(data, s.start)))
    } else {
        Ok(Content::Other)
    }
}

fn read_component_item(bytes: &[u8], p: Payload) -> (r: Result<Item, ReadError>)
    ensures
        match r {
            Ok(item) => component_item(bytes@, p) == Ok::<ItemV, ReadError>(item@),
            Err(e) => component_item(bytes@, p) == Err::<ItemV, ReadError>(e),
        },
{
    let content = match p.kind {
        PayloadKind::Version { component } => Ok(Content::Header { component }),
        PayloadKind::Nested => Ok(Content::Subcomponent),
        _ => match p.section {
            Some(s) => read_component_section(bytes, s),
            None => Ok(Content::Other),
        },
    };
    match content {
        Ok(content) => Ok(Item { section: p.section, content }),
        Err(e) => Err(e),
    }
}

fn opened(p: Payload) -> (r: Option<SectionRange>)
    ensures
        r == opens(p),
{
    match (p.kind, p.section) {
        (PayloadKind::Nested, Some(s)) => if s.id == CORE_MODULE_SECTION {
            Some(s)
        } else {
            None
        },
        _ => None,
    }
}

struct Walk {
    items: Vec<Result<Item, ReadError>>,
    inner: Option<(SectionRange, Vec<Result<ModuleItem, ReadError>>)>,
}

impl View for Walk {
    type V = WalkV;

    closed spec fn view(&self) -> WalkV {
        WalkV {
            items: results(self.items@),
            inner: match self.inner {
                Some((section, inner)) => Some((section, results(inner@))),
                None => None,
            },
        }
    }
}

fn take_step(bytes: &[u8], w: Walk, p: &Result<Payload, ReadError>) -> (r: Walk)
    ensures
        r@ == walk_step(bytes@, w@, *p),
        is_placed_walk(bytes@.len(), w@) ==> is_placed_walk(bytes@.len(), r@),
{
    let mut items = w.items;
    match (w.inner, p) {
        (Some((section, inner)), Err(e)) => {
            let mut inner = inner;
            proof {
                lemma_results_push(inner@, Err(*e));
            }
            inner.push(Err(*e));
            Walk { items, inner: Some((section, inner)) }
        },
        (Some((section, inner)), Ok(p)) => {
            let mut inner = inner;
            match p.kind {
                PayloadKind::End => {
                    let item = Item {
                        section: Some(section),
                        content: Content::CoreModule(inner),
                    };
                    proof {
                        lemma_results_push(items@, Ok(item));
                    }
                    items.push(Ok(item));
                    Walk { items, inner: None }
                },
                _ => {
                    let item = read_module_item(bytes, *p);
                    proof {
                        lemma_results_push(inner@, item);
                    }
                    inner.push(item);
                    Walk { items, inner: Some((section, inner)) }
                },
            }
        },
        (None, Err(e)) => {
            proof {
                lemma_results_push(items@, Err(*e));
            }
            items.push(Err(*e));
            Walk { items, inner: None }
        },
        (None, Ok(p)) => match opened(*p) {
            Some(section) => {
                let inner: Vec<Result<ModuleItem, ReadError>> = Vec::new();
                assert(results(inner@) =~= seq![]);
                Walk { items, inner: Some((section, inner)) }
            },
            None => {
                let item = read_component_item(bytes, *p);
                proof {
                    lemma_results_push(items@, item);
                }
                items.push(item);
                Walk { items, inner: None }
            },
        },
    }
}

/// Reads a component.
pub fn read_tree(bytes: &[u8]) -> (items: Vec<Result<Item, ReadError>>)
    ensures
        results(items@) == tree(bytes@),
        well_placed(bytes@.len(), tree(bytes@)),
{
    let ps = parse_all(bytes);
    let mut w = Walk { items: Vec::new(), inner: None };
    assert(results(w.items@) =~= seq![]);
    let mut i: usize = 0;
    while i < ps.len()
        invariant
            i <= ps.len(),
            w@ == walk(bytes@, ps@.take(i as int)),
            is_placed_walk(bytes@.len(), w@),
        decreases ps.len() - i,
    {
        assert(ps@.take(i + 1).drop_last() =~= ps@.take(i as int));
        w = take_step(bytes, w, &ps[i]);
        i += 1;
    }
    assert(ps@.take(i as int) =~= ps@);
    let mut items = w.items;
    match w.inner {
        Some((section, inner)) => {
            let item = Item { section: Some(section), content: Content::CoreModule(inner) };
            proof {
                lemma_results_push(items@, Ok(item));
            }
            items.push(Ok(item));
        },
        None => {},
    }
    items
}

/// The modules that the items of an instance section instantiate.
pub open spec fn instantiated_in(list: Seq<Result<InstanceKind, ReadError>>) -> Seq<u32>
    decreases list.len(),
{
    if list.len() == 0 {
        seq![]
    } else {
        let rest = instantiated_in(list.drop_last());
        match list.last() {
            Ok(InstanceKind::Instantiate { module }) => rest.push(module),
            _ => rest,
        }
    }
}

/// The modules that are instantiated, in order.
pub open spec fn instantiated(items: Seq<Result<ItemV, ReadError>>) -> Seq<u32>
    decreases items.len(),
{
    if items.len() == 0 {
        seq![]
    } else {
        let rest = instantiated(items.drop_last());
        match items.last() {
            Ok(ItemV { content: ContentV::Instances(list), .. }) => rest + instantiated_in(list),
            _ => rest,
        }
    }
}

fn collect_instantiated(list: &Vec<Result<InstanceKind, ReadError>>, found: &mut Vec<u32>)
    ensures
        final(found)@ == old(found)@ + instantiated_in(list@),
{
    let ghost before = found@;
    let mut i: usize = 0;
    assert(before + instantiated_in(list@.take(0)) =~= before);
    while i < list.len()
        invariant
            i <= list.len(),
            before == old(found)@,
            found@ == before + instantiated_in(list@.take(i as int)),
        decreases list.len() - i,
    {
        let ghost next = list@.take(i + 1);
        assert(next.drop_last() =~= list@.take(i as int));
        match &list[i] {
            Ok(InstanceKind::Instantiate { module }) => {
                found.push(*module);
                assert(found@ =~= before + instantiated_in(next));
            },
            _ => {},
        }
        i += 1;
    }
    assert(list@.take(i as int) =~= list@);
}

/// Says which modules are instantiated.
pub fn instantiated_modules(items: &Vec<Result<Item, ReadError>>) -> (found: Vec<u32>)
    ensures
        found@ == instantiated(results(items@)),
{
    let ghost all = results(items@);
    let mut found: Vec<u32> = Vec::new();
    let mut i: usize = 0;
    while i < items.len()
        invariant
            i <= items.len(),
            all == results(items@),
            found@ =~= instantiated(all.take(i as int)),
        decreases items.len() - i,
    {
        let ghost next = all.take(i + 1);
        assert(next.drop_last() =~= all.take(i as int));
        assert(next.last() == all[i as int]);
        match &items[i] {
            Ok(item) => match &item.content {
                Content::Instances(list) => {
                    collect_instantiated(list, &mut found);
                },
                _ => {},
            },
            Err(_) => {},
        }
        i += 1;
    }
    assert(all.take(i as int) =~= all);
    found
}

} // verus!
