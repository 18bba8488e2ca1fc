//! The initialized component.
//!
//! From the state that was captured a new component is made, identical to the one given
//! except that mutable globals start with the captured values, that data sections and
//! start functions are gone, and that a single data section holds the captured memory.
//! A section that gives the number of data segments gives the new number.  The globals of
//! a module without an instance have no state, and keep what they start with.
use vstd::prelude::*;
use vstd::slice::{slice_subrange, slice_to_vec};
use crate::encode::{component_bytes, component_fits, encode_component};
use crate::error::{malformed, viewed, InitError};
use crate::fold::{fold, lemma_fold_step, lemma_fold_stop};
use crate::parse::{results, GlobalContent, GlobalDecl, GlobalEntry, ReadError, SectionRange, Sort};
use crate::segments::{
    all_segments, law_segments_start_and_end_with_data, lemma_segment_count, lemma_tight,
    segments_of, splits,
};
use crate::survey::{
    copy_component_section, copy_module_section, count, count_sorts, counted, import_step,
    raw_component_section, raw_module_section, seen, sort_step, survey_imports, Counts,
};
use crate::tree::{
    instantiated, instantiated_modules, read_tree, tree, well_placed, Content, ContentV, Item,
    ItemV, ModuleContent, ModuleContentV, ModuleItem, ModuleItemV, DATA_SECTION, START_SECTION,
};
use crate::wasm::{
    lemma_views_push, views, ComponentSection, ComponentSectionV, ConstExpr, ConstExprV,
    DataSegment, DataSegmentV, Global, GlobalType, GlobalV, ModuleSection, ModuleSectionV,
    ValueType,
};

verus! {

/// The id of the section that gives the number of data segments.
pub const DATA_COUNT_SECTION: u8 = 12;

/// The lowest `n` bytes of a number, from the lowest up.
pub open spec fn little_endian(x: nat, n: nat) -> Seq<u8>
    decreases n,
{
    if n == 0 {
        seq![]
    } else {
        seq![(x % 256) as u8] + little_endian(x / 256, (n - 1) as nat)
    }
}

fn push_little_endian(x: u64, n: u32, code: &mut Vec<u8>)
    ensures
        final(code)@ == old(code)@ + little_endian(x as nat, n as nat),
    decreases n,
{
    let ghost before = code@;
    if n > 0 {
        let low: u8 = (x % 256) as u8;
        code.push(low);
        push_little_endian(x / 256, n - 1, code);
    }
    assert(code@ =~= before + little_endian(x as nat, n as nat));
}

/// The value of a global; a floating-point number is given by its bits.
#[derive(Clone, Copy, Debug, PartialEq, Eq, Structural)]
pub enum GlobalValue {
    I32(i32),
    I64(i64),
    F32(u32),
    F64(u64),
}

impl GlobalValue {
    /// The type of the value.
    pub open spec fn ty(self) -> ValueType {
        match self {
            GlobalValue::I32(_) => ValueType::I32,
            GlobalValue::I64(_) => ValueType::I64,
            GlobalValue::F32(_) => ValueType::F32,
            GlobalValue::F64(_) => ValueType::F64,
        }
    }

    /// The value as a constant expression.  That of a floating-point number is an opcode,
    /// `f32.const` or `f64.const`, with the bits from the lowest byte up.
    pub open spec fn expr(self) -> ConstExprV {
        match self {
            GlobalValue::I32(n) => ConstExprV::I32(n),
            GlobalValue::I64(n) => ConstExprV::I64(n),
            GlobalValue::F32(bits) => ConstExprV::Raw(
                seq![0x43u8] + little_endian(bits as nat, 4),
            ),
            GlobalValue::F64(bits) => ConstExprV::Raw(
                seq![0x44u8] + little_endian(bits as nat, 8),
            ),
        }
    }

    /// Says of what type the value is.
    pub fn value_type(&self) -> (ty: ValueType)
        ensures
            ty == self.ty(),
    {
        match *self {
            GlobalValue::I32(_) => ValueType::I32,
            GlobalValue::I64(_) => ValueType::I64,
            GlobalValue::F32(_) => ValueType::F32,
            GlobalValue::F64(_) => ValueType::F64,
        }
    }

    /// Writes the value as a constant expression.
    pub fn to_expr(&self) -> (e: ConstExpr)
        ensures
            e@ == self.expr(),
    {
        match *self {
            GlobalValue::I32(n) => ConstExpr::I32(n),
            GlobalValue::I64(n) => ConstExpr::I64(n),
            GlobalValue::F32(bits) => {
                let mut code: Vec<u8> = vec![0x43u8];
                push_little_endian(bits as u64, 4, &mut code);
                assert(code@ =~= seq![0x43u8] + little_endian(bits as nat, 4));
                ConstExpr::Raw(code)
            },
            GlobalValue::F64(bits) => {
                let mut code: Vec<u8> = vec![0x44u8];
                push_little_endian(bits, 8, &mut code);
                assert(code@ =~= seq![0x44u8] + little_endian(bits as nat, 8));
                ConstExpr::Raw(code)
            },
        }
    }
}

/// The captured value of a global.
#[derive(Clone, Copy, Debug, PartialEq, Eq, Structural)]
pub struct GlobalState {
    pub module: u32,
    pub index: u32,
    pub value: GlobalValue,
}

/// The captured contents of the memory, with the module that defines it.
#[derive(Debug, PartialEq, Eq)]
pub struct MemoryState {
    pub module: u32,
    pub image: Vec<u8>,
}

/// The captured state of an instance.
#[derive(Debug, PartialEq, Eq)]
pub struct Snapshot {
    pub globals: Vec<GlobalState>,
    pub memory: Option<MemoryState>,
}

pub struct SnapshotV {
    pub globals: Seq<GlobalState>,
    pub memory: Option<(u32, Seq<u8>)>,
}

impl View for Snapshot {
    type V = SnapshotV;

    open spec fn view(&self) -> SnapshotV {
        SnapshotV {
            globals: self.globals@,
            memory: match self.memory {
                Some(state) => Some((state.module, state.image@)),
                None => None,
            },
        }
    }
}

/// The state is that of a global of the given type.
pub open spec fn is_state_of(g: GlobalState, module: u32, index: u32, ty: ValueType) -> bool {
    g.module == module && g.index == index && g.value.ty() == ty
}

/// The first value that was captured of a global.
pub open spec fn value_of(
    globals: Seq<GlobalState>,
    module: u32,
    index: u32,
    ty: ValueType,
) -> Option<GlobalValue>
    decreases globals.len(),
{
    if globals.len() == 0 {
        None
    } else if is_state_of(globals[0], module, index, ty) {
        Some(globals[0].value)
    } else {
        value_of(globals.skip(1), module, index, ty)
    }
}

fn find_value(globals: &Vec<GlobalState>, module: u32, index: u32, ty: ValueType) -> (r: Option<
    GlobalValue,
>)
    ensures
        r == value_of(globals@, module, index, ty),
{
    let ghost target = value_of(globals@, module, index, ty);
    let mut i: usize = 0;
    assert(globals@.skip(0) =~= globals@);
    while i < globals.len()
        invariant
            i <= globals.len(),
            target == value_of(globals@, module, index, ty),
            value_of(globals@.skip(i as int), module, index, ty) == target,
        decreases globals.len() - i,
    {
        let g = globals[i];
        assert(globals@.skip(i as int)[0] == globals@[i as int]);
        assert(globals@.skip(i as int).skip(1) =~= globals@.skip(i + 1));
        if g.module == module && g.index == index && g.value.value_type() == ty {
            return Some(g.value);
        }
        i += 1;
    }
    None
}

/// What is known of a module when it is rebuilt: its index, whether it has an instance, and
/// how many data segments it is to have.
#[derive(Clone, Copy, Debug, PartialEq, Eq)]
pub struct ModulePlan {
    pub module: u32,
    pub has_instance: bool,
    pub segments: u32,
}

/// What a global starts with: the captured value, or what it had, if it cannot change or
/// the module has no instance.
pub open spec fn initial(
    bytes: Seq<u8>,
    snapshot: SnapshotV,
    plan: ModulePlan,
    index: u32,
    g: GlobalEntry,
) -> Result<GlobalV, InitError> {
    match g.decl.content {
        GlobalContent::Reference => Err(InitError::ReferenceGlobal),
        GlobalContent::Value(val_type) => {
            let ty = GlobalType { val_type, mutable: g.decl.mutable };
            if g.decl.mutable && plan.has_instance {
                match value_of(snapshot.globals, plan.module, index, val_type) {
                    Some(value) => Ok(GlobalV { ty, init: value.expr() }),
                    None => Err(InitError::MissingValue { module: plan.module, index }),
                }
            } else if g.init_start < g.init_end <= bytes.len() {
                Ok(
                    GlobalV {
                        ty,
                        init: ConstExprV::Raw(
                            bytes.subrange(g.init_start as int, g.init_end - 1),
                        ),
                    },
                )
            } else {
                Err(InitError::Malformed { offset: g.init_start })
            }
        },
    }
}

fn initial_global(
    bytes: &[u8],
    snapshot: &Snapshot,
    plan: ModulePlan,
    index: u32,
    g: &GlobalEntry,
) -> (r: Result<Global, InitError>)
    ensures
        viewed(r) == initial(bytes@, snapshot@, plan, index, *g),
{
    match g.decl.content {
        GlobalContent::Reference => Err(InitError::ReferenceGlobal),
        GlobalContent::Value(val_type) => {
            let ty = GlobalType { val_type, mutable: g.decl.mutable };
            if g.decl.mutable && plan.has_instance {
                match find_value(&snapshot.globals, plan.module, index, val_type) {
                    Some(value) => Ok(Global { ty, init: value.to_expr() }),
                    None => Err(InitError::MissingValue { module: plan.module, index }),
                }
            } else if g.init_start < g.init_end && g.init_end <= bytes.len() {
                let code = slice_subrange(bytes, g.init_start, g.init_end - 1);
                Ok(Global { ty, init: ConstExpr::Raw(slice_to_vec(code)) })
            } else {
                Err(InitError::Malformed { offset: g.init_start })
            }
        },
    }
}

/// The globals of a module: their types by index, imported ones included, and what has
/// been made of those of the section at hand.
pub struct GlobalsV {
    pub decls: Seq<GlobalDecl>,
    pub globals: Seq<GlobalV>,
}

/// A defined global.
pub open spec fn initial_step(bytes: Seq<u8>, snapshot: SnapshotV, plan: ModulePlan) -> spec_fn(
    GlobalsV,
    Result<GlobalEntry, ReadError>,
) -> Result<GlobalsV, InitError> {
    |s: GlobalsV, item: Result<GlobalEntry, ReadError>|
        match item {
            Ok(g) => if s.decls.len() < u32::MAX {
                match initial(bytes, snapshot, plan, s.decls.len() as u32, g) {
                    Ok(global) => Ok(
                        GlobalsV { decls: s.decls.push(g.decl), globals: s.globals.push(global) },
                    ),
                    Err(e) => Err(e),
                }
            } else {
                Err(InitError::TooMany)
            },
            Err(e) => Err(malformed(e)),
        }
}

struct Globals {
    decls: Vec<GlobalDecl>,
    globals: Vec<Global>,
}

impl View for Globals {
    type V = GlobalsV;

    closed spec fn view(&self) -> GlobalsV {
        GlobalsV { decls: self.decls@, globals: views(self.globals@) }
    }
}

fn rebuild_global(
    bytes: &[u8],
    snapshot: &Snapshot,
    plan: ModulePlan,
    s: Globals,
    item: &Result<GlobalEntry, ReadError>,
) -> (r: Result<Globals, InitError>)
    ensures
        viewed(r) == initial_step(bytes@, snapshot@, plan)(s@, *item),
{
    match item {
        Ok(g) => {
            if s.decls.len() >= u32::MAX as usize {
                return Err(InitError::TooMany);
            }
            match initial_global(bytes, snapshot, plan, s.decls.len() as u32, g) {
                Ok(global) => {
                    let mut decls = s.decls;
                    let mut globals = s.globals;
                    proof {
                        lemma_views_push(globals@, global);
                    }
                    decls.push(g.decl);
                    globals.push(global);
                    Ok(Globals { decls, globals })
                },
                Err(e) => Err(e),
            }
        },
        Err(e) => Err(InitError::Malformed { offset: e.offset }),
    }
}

fn rebuild_globals(
    bytes: &[u8],
    snapshot: &Snapshot,
    plan: ModulePlan,
    s: Globals,
    items: &Vec<Result<GlobalEntry, ReadError>>,
) -> (r: Result<Globals, InitError>)
    ensures
        viewed(r) == fold(s@, items@, initial_step(bytes@, snapshot@, plan)),
{
    let ghost init = s@;
    let ghost step = initial_step(bytes@, snapshot@, plan);
    let mut found = s;
    let mut i: usize = 0;
    while i < items.len()
        invariant
            i <= items.len(),
            init == s@,
            step == initial_step(bytes@, snapshot@, plan),
            fold(init, items@.take(i as int), step) == Ok::<_, InitError>(found@),
        decreases items.len() - i,
    {
        proof {
            lemma_fold_step(init, items@, i as int, step);
        }
        match rebuild_global(bytes, snapshot, plan, found, &items[i]) {
            Ok(next) => {
                found = next;
            },
            Err(e) => {
                proof {
                    lemma_fold_stop(init, items@, i as int, step);
                }
                return Err(e);
            },
        }
        i += 1;
    }
    assert(items@.take(i as int) =~= items@);
    Ok(found)
}

/// A section that the initialized module lacks: its data, and the start function.
pub open spec fn is_dropped(id: u8) -> bool {
    id == START_SECTION || id == DATA_SECTION
}

/// The state of the pass within a module: the globals by index, and the sections of the
/// initialized module.
#[derive(Debug, PartialEq, Eq)]
pub struct ModuleImage<'a> {
    pub decls: Vec<GlobalDecl>,
    pub sections: Vec<ModuleSection<'a>>,
}

pub struct ModuleImageV {
    pub decls: Seq<GlobalDecl>,
    pub sections: Seq<ModuleSectionV>,
}

impl<'a> View for ModuleImage<'a> {
    type V = ModuleImageV;

    open spec fn view(&self) -> ModuleImageV {
        ModuleImageV { decls: self.decls@, sections: views(self.sections@) }
    }
}

/// The state with the section of the payload appended, if it is one to keep.  Where it is
/// the number of data segments, the new number takes its place.
pub open spec fn with_kept_section(
    bytes: Seq<u8>,
    segments: u32,
    s: ModuleImageV,
    section: Option<SectionRange>,
) -> Result<ModuleImageV, InitError> {
    if section is Some && is_dropped(section->Some_0.id) {
        Ok(s)
    } else if section is Some && section->Some_0.id == DATA_COUNT_SECTION {
        Ok(ModuleImageV { sections: s.sections.push(ModuleSectionV::DataCount(segments)), ..s })
    } else {
        match raw_module_section(bytes, s.sections, section) {
            Ok(sections) => Ok(ModuleImageV { sections, ..s }),
            Err(e) => Err(e),
        }
    }
}

fn keep_section<'a>(
    bytes: &'a [u8],
    segments: u32,
    s: ModuleImage<'a>,
    section: Option<SectionRange>,
) -> (r: Result<ModuleImage<'a>, InitError>)
    ensures
        viewed(r) == with_kept_section(bytes@, segments, s@, section),
{
    match section {
        Some(range) => {
            if range.id == START_SECTION || range.id == DATA_SECTION {
                return Ok(s);
            }
            if range.id == DATA_COUNT_SECTION {
                let mut s = s;
                let section = ModuleSection::DataCount(segments);
                proof {
                    lemma_views_push(s.sections@, section);
                }
                s.sections.push(section);
                return Ok(s);
            }
        },
        None => {},
    }
    match copy_module_section(bytes, section, s.sections) {
        Ok(sections) => Ok(ModuleImage { decls: s.decls, sections }),
        Err(e) => Err(e),
    }
}

/// A payload of a module.
pub open spec fn module_image_step(
    bytes: Seq<u8>,
    snapshot: SnapshotV,
    plan: ModulePlan,
) -> spec_fn(
    ModuleImageV,
    Result<ModuleItemV, ReadError>,
) -> Result<ModuleImageV, InitError> {
    |s: ModuleImageV, item: Result<ModuleItemV, ReadError>|
        match item {
            Ok(item) => match item.content {
                ModuleContentV::Imports(items) => match fold(s.decls, items, import_step()) {
                    Ok(decls) => with_kept_section(
                        bytes,
                        plan.segments,
                        ModuleImageV { decls, ..s },
                        item.section,
                    ),
                    Err(e) => Err(e),
                },
                ModuleContentV::Globals(items) => match fold(
                    GlobalsV { decls: s.decls, globals: seq![] },
                    items,
                    initial_step(bytes, snapshot, plan),
                ) {
                    Ok(found) => Ok(
                        ModuleImageV {
                            decls: found.decls,
                            sections: s.sections.push(ModuleSectionV::Globals(found.globals)),
                        },
                    ),
                    Err(e) => Err(e),
                },
                _ => with_kept_section(bytes, plan.segments, s, item.section),
            },
            Err(e) => Err(malformed(e)),
        }
}

fn rebuild_module_item<'a>(
    bytes: &'a [u8],
    snapshot: &Snapshot,
    plan: ModulePlan,
    s: ModuleImage<'a>,
    item: &Result<ModuleItem, ReadError>,
) -> (r: Result<ModuleImage<'a>, InitError>)
    ensures
        viewed(r) == module_image_step(bytes@, snapshot@, plan)(s@, seen(*item)),
{
    match item {
        Ok(item) => {
            let mut s = s;
            match &item.content {
                ModuleContent::Imports(items) => {
                    match survey_imports(s.decls, items) {
                        Ok(decls) => {
                            s.decls = decls;
                        },
                        Err(e) => {
                            return Err(e);
                        },
                    }
                    keep_section(bytes, plan.segments, s, item.section)
                },
                ModuleContent::Globals(items) => {
                    let none: Vec<Global> = Vec::new();
                    assert(views(none@) =~= seq![]);
                    let start = Globals { decls: s.decls, globals: none };
                    match rebuild_globals(bytes, snapshot, plan, start, items) {
                        Ok(found) => {
                            let section = ModuleSection::Globals(found.globals);
                            proof {
                                lemma_views_push(s.sections@, section);
                            }
                            s.decls = found.decls;
                            s.sections.push(section);
                            Ok(s)
                        },
                        Err(e) => Err(e),
                    }
                },
                _ => keep_section(bytes, plan.segments, s, item.section),
            }
        },
        Err(e) => Err(InitError::Malformed { offset: e.offset }),
    }
}

/// The data segments that hold an image.
pub open spec fn image_segments(image: Seq<u8>) -> Seq<DataSegmentV> {
    let segs = segments_of(image);
    Seq::new(
        segs.len(),
        |k: int|
            DataSegmentV {
                address: segs[k].0 as i32,
                data: image.subrange(segs[k].0 as int, segs[k].0 + segs[k].1),
            },
    )
}

/// Every segment of the image has an address that a data segment can have.
pub open spec fn is_addressable(image: Seq<u8>) -> bool {
    let segs = segments_of(image);
    forall|k: int| 0 <= k < segs.len() ==> (#[trigger] segs[k]).0 <= i32::MAX
}

/// Splits an image into data segments.
pub fn data_segments<'a>(image: &'a [u8]) -> (r: Result<Vec<DataSegment<'a>>, InitError>)
    ensures
        match r {
            Ok(items) => is_addressable(image@) && views(items@) == image_segments(image@)
                && items@.len() <= u32::MAX,
            Err(e) => e == InitError::MemoryTooLarge && !is_addressable(image@),
        },
{
    let total: usize = image.len();
    let segs = all_segments(image);
    let ghost all = image_segments(image@);
    let mut items: Vec<DataSegment<'a>> = Vec::new();
    assert(views(items@) =~= all.take(0));
    let mut i: usize = 0;
    while i < segs.len()
        invariant
            i <= segs.len(),
            segs@ == segments_of(image@),
            splits(image@, segs@),
            total == image@.len(),
            all == image_segments(image@),
            views(items@) == all.take(i as int),
            forall|k: int| 0 <= k < i ==> (#[trigger] segs@[k]).0 <= i32::MAX,
        decreases segs.len() - i,
    {
        let (start, len) = segs[i];
        proof {
            lemma_tight(image@, segs@, i as int);
        }
        if start > i32::MAX as usize {
            assert(!is_addressable(image@));
            return Err(InitError::MemoryTooLarge);
        }
        let item = DataSegment {
            address: start as i32,
            data: slice_subrange(image, start, start + len),
        };
        proof {
            lemma_views_push(items@, item);
            assert(all.take(i + 1) =~= all.take(i as int).push(item@));
        }
        items.push(item);
        i += 1;
    }
    proof {
        assert(all.take(i as int) =~= all);
        lemma_segment_count(image@, segs@, i32::MAX as int);
    }
    Ok(items)
}

/// What is known of a module, given those that have an instance.
pub open spec fn plan_for(snapshot: SnapshotV, instantiated: Seq<u32>, module: u32) -> ModulePlan {
    ModulePlan {
        module,
        has_instance: instantiated.contains(module),
        segments: match snapshot.memory {
            Some((defining, image)) => if defining == module && is_addressable(image) {
                image_segments(image).len() as u32
            } else {
                0
            },
            None => 0,
        },
    }
}

/// The sections of an initialized module: what is kept and, if the module defines the
/// memory, its data.
pub open spec fn module_image(
    bytes: Seq<u8>,
    snapshot: SnapshotV,
    plan: ModulePlan,
    items: Seq<Result<ModuleItemV, ReadError>>,
) -> Result<Seq<ModuleSectionV>, InitError> {
    match fold(
        ModuleImageV { decls: seq![], sections: seq![] },
        items,
        module_image_step(bytes, snapshot, plan),
    ) {
        Ok(s) => match snapshot.memory {
            Some((defining, image)) => if defining != plan.module {
                Ok(s.sections)
            } else if is_addressable(image) {
                Ok(s.sections.push(ModuleSectionV::Data(image_segments(image))))
            } else {
                Err(InitError::MemoryTooLarge)
            },
            None => Ok(s.sections),
        },
        Err(e) => Err(e),
    }
}

fn is_listed(list: &Vec<u32>, x: u32) -> (b: bool)
    ensures
        b == list@.contains(x),
{
    let mut i: usize = 0;
    while i < list.len()
        invariant
            i <= list.len(),
            forall|j: int| 0 <= j < i ==> list@[j] != x,
        decreases list.len() - i,
    {
        if list[i] == x {
            return true;
        }
        i += 1;
    }
    false
}

fn rebuild_sections<'a>(
    bytes: &'a [u8],
    snapshot: &Snapshot,
    plan: ModulePlan,
    items: &Vec<Result<ModuleItem, ReadError>>,
) -> (r: Result<ModuleImage<'a>, InitError>)
    ensures
        viewed(r) == fold(
            ModuleImageV { decls: seq![], sections: seq![] },
            results(items@),
            module_image_step(bytes@, snapshot@, plan),
        ),
{
    let ghost init = ModuleImageV { decls: seq![], sections: seq![] };
    let ghost all = results(items@);
    let ghost step = module_image_step(bytes@, snapshot@, plan);
    let empty: Vec<ModuleSection<'a>> = Vec::new();
    assert(views(empty@) =~= seq![]);
    let mut found = ModuleImage { decls: Vec::new(), sections: empty };
    assert(found@ == init);
    let mut i: usize = 0;
    while i < items.len()
        invariant
            i <= items.len(),
            all == results(items@),
            step == module_image_step(bytes@, snapshot@, plan),
            init == (ModuleImageV { decls: seq![], sections: seq![] }),
            fold(init, all.take(i as int), step) == Ok::<_, InitError>(found@),
        decreases items.len() - i,
    {
        proof {
            lemma_fold_step(init, all, i as int, step);
        }
        match rebuild_module_item(bytes, snapshot, plan, found, &items[i]) {
            Ok(next) => {
                found = next;
            },
            Err(e) => {
                proof {
                    lemma_fold_stop(init, all, i as int, step);
                }
                return Err(e);
            },
        }
        i += 1;
    }
    assert(all.take(i as int) =~= all);
    Ok(found)
}

fn rebuild_module<'a>(
    bytes: &'a [u8],
    snapshot: &'a Snapshot,
    instantiated: &Vec<u32>,
    module: u32,
    items: &Vec<Result<ModuleItem, ReadError>>,
) -> (r: Result<Vec<ModuleSection<'a>>, InitError>)
    ensures
        ({
            let plan = plan_for(snapshot@, instantiated@, module);
            match r {
                Ok(sections) => module_image(bytes@, snapshot@, plan, results(items@)) == Ok::<
                    _,
                    InitError,
                >(views(sections@)),
                Err(e) => module_image(bytes@, snapshot@, plan, results(items@)) == Err::<
                    Seq<ModuleSectionV>,
                    _,
                >(e),
            }
        }),
{
    let data: Option<Result<Vec<DataSegment<'a>>, InitError>> = match &snapshot.memory {
        Some(state) => if state.module == module {
            Some(data_segments(state.image.as_slice()))
        } else {
            None
        },
        None => None,
    };
    let segments: u32 = match &data {
        Some(Ok(list)) => list.len() as u32,
        _ => 0,
    };
    let plan = ModulePlan { module, has_instance: is_listed(instantiated, module), segments };
    assert(plan == plan_for(snapshot@, instantiated@, module));
    let mut sections = match rebuild_sections(bytes, snapshot, plan, items) {
        Ok(found) => found.sections,
        Err(e) => {
            return Err(e);
        },
    };
    match data {
        Some(Ok(list)) => {
            let section = ModuleSection::Data(list);
            proof {
                lemma_views_push(sections@, section);
            }
            sections.push(section);
        },
        Some(Err(e)) => {
            return Err(e);
        },
        None => {},
    }
    Ok(sections)
}

/// The state of the second pass.
#[derive(Debug, PartialEq, Eq)]
pub struct Image<'a> {
    pub counts: Counts,
    pub sections: Vec<ComponentSection<'a>>,
}

pub struct ImageV {
    pub counts: Counts,
    pub sections: Seq<ComponentSectionV>,
}

impl<'a> View for Image<'a> {
    type V = ImageV;

    open spec fn view(&self) -> ImageV {
        ImageV { counts: self.counts, sections: views(self.sections@) }
    }
}

/// The state with the section of the payload appended.
pub open spec fn with_section(bytes: Seq<u8>, s: ImageV, section: Option<SectionRange>) -> Result<
    ImageV,
    InitError,
> {
    match raw_component_section(bytes, s.sections, section) {
        Ok(sections) => Ok(ImageV { sections, ..s }),
        Err(e) => Err(e),
    }
}

/// A payload of a component.
pub open spec fn image_step(
    bytes: Seq<u8>,
    snapshot: SnapshotV,
    instantiated: Seq<u32>,
) -> spec_fn(
    ImageV,
    Result<ItemV, ReadError>,
) -> Result<ImageV, InitError> {
    |s: ImageV, item: Result<ItemV, ReadError>|
        match item {
            Ok(item) => match item.content {
                ContentV::CoreModule(items) => match counted(s.counts, Sort::CoreModule) {
                    Ok(counts) => match module_image(
                        bytes,
                        snapshot,
                        plan_for(snapshot, instantiated, s.counts.modules),
                        items,
                    ) {
                        Ok(sections) => Ok(
                            ImageV {
                                counts,
                                sections: s.sections.push(ComponentSectionV::Module(sections)),
                            },
                        ),
                        Err(e) => Err(e),
                    },
                    Err(e) => Err(e),
                },
                ContentV::Sorts(items) => match fold(s.counts, items, sort_step()) {
                    Ok(counts) => with_section(bytes, ImageV { counts, ..s }, item.section),
                    Err(e) => Err(e),
                },
                ContentV::Subcomponent => Err(InitError::Subcomponent),
                _ => with_section(bytes, s, item.section),
            },
            Err(e) => Err(malformed(e)),
        }
}

/// Where the second pass starts.
pub open spec fn no_image() -> ImageV {
    ImageV {
        counts: Counts {
            modules: 0,
            instances: 0,
            core_functions: 0,
            core_memories: 0,
            functions: 0,
            types: 0,
        },
        sections: seq![],
    }
}

/// The sections of the initialized component.
pub open spec fn initialized(
    bytes: Seq<u8>,
    items: Seq<Result<ItemV, ReadError>>,
    snapshot: SnapshotV,
) -> Result<Seq<ComponentSectionV>, InitError> {
    match fold(no_image(), items, image_step(bytes, snapshot, instantiated(items))) {
        Ok(s) => Ok(s.sections),
        Err(e) => Err(e),
    }
}

fn push_section<'a>(bytes: &'a [u8], s: Image<'a>, section: Option<SectionRange>) -> (r: Result<
    Image<'a>,
    InitError,
>)
    ensures
        viewed(r) == with_section(bytes@, s@, section),
{
    match copy_component_section(bytes, section, s.sections) {
        Ok(sections) => Ok(Image { counts: s.counts, sections }),
        Err(e) => Err(e),
    }
}

fn rebuild_item<'a>(
    bytes: &'a [u8],
    snapshot: &'a Snapshot,
    instantiated: &Vec<u32>,
    s: Image<'a>,
    item: &Result<Item, ReadError>,
) -> (r: Result<Image<'a>, InitError>)
    ensures
        viewed(r) == image_step(bytes@, snapshot@, instantiated@)(s@, seen(*item)),
{
    match item {
        Ok(item) => {
            let mut s = s;
            match &item.content {
                Content::CoreModule(items) => {
                    let module: u32 = s.counts.modules;
                    match count(s.counts, Sort::CoreModule) {
                        Ok(counts) => {
                            s.counts = counts;
                        },
                        Err(e) => {
                            return Err(e);
                        },
                    }
                    match rebuild_module(bytes, snapshot, instantiated, module, items) {
                        Ok(sections) => {
                            let section = ComponentSection::Module(sections);
                            proof {
                                lemma_views_push(s.sections@, section);
                            }
                            s.sections.push(section);
                            Ok(s)
                        },
                        Err(e) => Err(e),
                    }
                },
                Content::Sorts(items) => {
                    match count_sorts(s.counts, items) {
                        Ok(counts) => {
                            s.counts = counts;
                        },
                        Err(e) => {
                            return Err(e);
                        },
                    }
                    push_section(bytes, s, item.section)
                },
                Content::Subcomponent => Err(InitError::Subcomponent),
                _ => push_section(bytes, s, item.section),
            }
        },
        Err(e) => Err(InitError::Malformed { offset: e.offset }),
    }
}

/// Puts the sections of the initialized component together from the items of the
/// component, whose ranges are those of `bytes`, and the captured state.
pub fn apply_snapshot<'a>(
    bytes: &'a [u8],
    items: &Vec<Result<Item, ReadError>>,
    snapshot: &'a Snapshot,
) -> (r: Result<Vec<ComponentSection<'a>>, InitError>)
    ensures
        match r {
            Ok(sections) => initialized(bytes@, results(items@), snapshot@) == Ok::<_, InitError>(
                views(sections@),
            ),
            Err(e) => initialized(bytes@, results(items@), snapshot@) == Err::<
                Seq<ComponentSectionV>,
                _,
            >(e),
        },
{
    let ghost all = results(items@);
    let found_instances = instantiated_modules(items);
    let ghost step = image_step(bytes@, snapshot@, found_instances@);
    let empty: Vec<ComponentSection<'a>> = Vec::new();
    assert(views(empty@) =~= seq![]);
    let mut found = Image {
        counts: Counts {
            modules: 0,
            instances: 0,
            core_functions: 0,
            core_memories: 0,
            functions: 0,
            types: 0,
        },
        sections: empty,
    };
    assert(found@ == no_image());
    let mut i: usize = 0;
    while i < items.len()
        invariant
            i <= items.len(),
            all == results(items@),
            found_instances@ == instantiated(all),
            step == image_step(bytes@, snapshot@, found_instances@),
            fold(no_image(), all.take(i as int), step) == Ok::<_, InitError>(found@),
        decreases items.len() - i,
    {
        proof {
            lemma_fold_step(no_image(), all, i as int, step);
        }
        match rebuild_item(bytes, snapshot, &found_instances, found, &items[i]) {
            Ok(next) => {
                found = next;
            },
            Err(e) => {
                proof {
                    lemma_fold_stop(no_image(), all, i as int, step);
                }
                return Err(e);
            },
        }
        i += 1;
    }
    assert(all.take(i as int) =~= all);
    Ok(found.sections)
}

/// What becomes of a component that is given the captured state.
pub open spec fn initialized_bytes(component: Seq<u8>, snapshot: SnapshotV) -> Result<
    Seq<u8>,
    InitError,
> {
    match initialized(component, tree(component), snapshot) {
        Ok(sections) => if component_fits(sections) {
            Ok(component_bytes(sections))
        } else {
            Err(InitError::TooLarge)
        },
        Err(e) => Err(e),
    }
}

/// Makes the initialized component from the component and its captured state.
pub fn restore(component: &[u8], snapshot: &Snapshot) -> (r: Result<Vec<u8>, InitError>)
    ensures
        viewed(r) == initialized_bytes(component@, snapshot@),
        well_placed(component@.len(), tree(component@)),
{
    let items = read_tree(component);
    match apply_snapshot(component, &items, snapshot) {
        Ok(sections) => match encode_component(&sections) {
            Ok(bytes) => Ok(bytes),
            Err(_) => Err(InitError::TooLarge),
        },
        Err(e) => Err(e),
    }
}

/// The data segments of an image are its segments, each at its own place and with its own
/// bytes; an image can be written exactly if every segment starts below two gigabytes.
pub proof fn law_data_segments_are_parts_of_the_image(image: Seq<u8>, k: int)
    requires
        image.len() <= usize::MAX,
    ensures
        is_addressable(image) <==> forall|j: int|
            0 <= j < segments_of(image).len() ==> (#[trigger] segments_of(image)[j]).0
                < 0x8000_0000,
        image_segments(image).len() == segments_of(image).len(),
        is_addressable(image) && 0 <= k < image_segments(image).len() ==> {
            let (start, len) = segments_of(image)[k];
            let segment = image_segments(image)[k];
            &&& segment.address == start
            &&& segment.data.len() == len
            &&& start + len <= image.len()
            &&& forall|i: int| 0 <= i < len ==> #[trigger] segment.data[i] == image[start + i]
        },
{
    if 0 <= k < image_segments(image).len() {
        law_segments_start_and_end_with_data(image, k);
    }
}

} // verus!
