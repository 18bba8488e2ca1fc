//! The part of the WebAssembly vocabulary that the library writes: types,
//! instructions, and the sections of core modules and of components.
//!
//! Everything here is plain data.  Each type that owns strings or vectors has a
//! mathematical counterpart, its view, in which the contracts are written.
use vstd::prelude::*;

verus! {

/// The views of the elements of a sequence.
pub open spec fn views<T: View>(s: Seq<T>) -> Seq<T::V> {
    s.map_values(|x: T| x@)
}

/// Appending an element appends its view.
pub proof fn lemma_views_push<T: View>(s: Seq<T>, x: T)
    ensures
        views(s.push(x)) == views(s).push(x@),
{
    assert(views(s.push(x)) =~= views(s).push(x@));
}

/// The views of a prefix, one element longer.
pub proof fn lemma_views_take<T: View>(s: Seq<T>, i: int)
    requires
        0 <= i < s.len(),
    ensures
        views(s).take(i + 1) == views(s).take(i).push(s[i]@),
{
    assert(views(s).take(i + 1) =~= views(s).take(i).push(s[i]@));
}

/// A type of number or vector that a global, a local or a parameter may have.
#[derive(Clone, Copy, Debug, PartialEq, Eq, Structural)]
pub enum ValueType {
    I32,
    I64,
    F32,
    F64,
    V128,
}

#[derive(Clone, Copy, Debug, PartialEq, Eq)]
pub struct GlobalType {
    pub val_type: ValueType,
    pub mutable: bool,
}

#[derive(Clone, Copy, Debug, PartialEq, Eq)]
pub struct MemoryType {
    pub minimum: u64,
    pub maximum: Option<u64>,
    pub memory64: bool,
    pub shared: bool,
}

/// A table of function references.
#[derive(Clone, Copy, Debug, PartialEq, Eq)]
pub struct TableType {
    pub minimum: u32,
    pub maximum: Option<u32>,
}

/// What a core export names.
#[derive(Clone, Copy, Debug, PartialEq, Eq, Structural)]
pub enum ExternKind {
    Func,
    Table,
    Memory,
    Global,
    Tag,
}

/// What a core import asks for.
#[derive(Clone, Copy, Debug, PartialEq, Eq)]
pub enum EntityType {
    Function(u32),
    Table(TableType),
    Memory(MemoryType),
    Global(GlobalType),
}

/// The immediate of a memory instruction; `align` is the exponent of a power of two.
#[derive(Clone, Copy, Debug, PartialEq, Eq)]
pub struct MemArg {
    pub offset: u64,
    pub align: u32,
    pub memory_index: u32,
}

/// The immediate of an instruction on the first memory.
pub fn mem_arg(offset: u64, align: u32) -> (arg: MemArg)
    ensures
        arg == (MemArg { offset, align, memory_index: 0 }),
{
    MemArg { offset, align, memory_index: 0 }
}

/// The instructions that synthesized functions are made of.
#[derive(Clone, Copy, Debug, PartialEq, Eq)]
pub enum Instruction {
    GlobalGet(u32),
    LocalGet(u32),
    LocalTee(u32),
    I32Const(i32),
    I32Sub,
    I32Mul,
    I32Store(MemArg),
    MemorySize(u32),
    CallIndirect { ty: u32, table: u32 },
    End,
}

/// A constant expression.  `Raw` holds encoded instructions without the `end`.
#[derive(Debug, PartialEq, Eq)]
pub enum ConstExpr {
    I32(i32),
    I64(i64),
    GlobalGet(u32),
    Raw(Vec<u8>),
}

pub enum ConstExprV {
    I32(i32),
    I64(i64),
    GlobalGet(u32),
    Raw(Seq<u8>),
}

impl View for ConstExpr {
    type V = ConstExprV;

    open spec fn view(&self) -> ConstExprV {
        match *self {
            ConstExpr::I32(n) => ConstExprV::I32(n),
            ConstExpr::I64(n) => ConstExprV::I64(n),
            ConstExpr::GlobalGet(n) => ConstExprV::GlobalGet(n),
            ConstExpr::Raw(bytes) => ConstExprV::Raw(bytes@),
        }
    }
}

#[derive(Debug, PartialEq, Eq)]
pub struct FuncType {
    pub params: Vec<ValueType>,
    pub results: Vec<ValueType>,
}

pub struct FuncTypeV {
    pub params: Seq<ValueType>,
    pub results: Seq<ValueType>,
}

impl View for FuncType {
    type V = FuncTypeV;

    open spec fn view(&self) -> FuncTypeV {
        FuncTypeV { params: self.params@, results: self.results@ }
    }
}

#[derive(Debug, PartialEq, Eq)]
pub struct Import {
    pub module: String,
    pub name: String,
    pub ty: EntityType,
}

pub struct ImportV {
    pub module: Seq<char>,
    pub name: Seq<char>,
    pub ty: EntityType,
}

impl View for Import {
    type V = ImportV;

    open spec fn view(&self) -> ImportV {
        ImportV { module: self.module@, name: self.name@, ty: self.ty }
    }
}

#[derive(Debug, PartialEq, Eq)]
pub struct Export {
    pub name: String,
    pub kind: ExternKind,
    pub index: u32,
}

pub struct ExportV {
    pub name: Seq<char>,
    pub kind: ExternKind,
    pub index: u32,
}

impl View for Export {
    type V = ExportV;

    open spec fn view(&self) -> ExportV {
        ExportV { name: self.name@, kind: self.kind, index: self.index }
    }
}

#[derive(Debug, PartialEq, Eq)]
pub struct Global {
    pub ty: GlobalType,
    pub init: ConstExpr,
}

pub struct GlobalV {
    pub ty: GlobalType,
    pub init: ConstExprV,
}

impl View for Global {
    type V = GlobalV;

    open spec fn view(&self) -> GlobalV {
        GlobalV { ty: self.ty, init: self.init@ }
    }
}

/// The body of a function: its locals, one type each, then `code`, which holds
/// encoded instructions, then `instructions`.
#[derive(Debug, PartialEq, Eq)]
pub struct Body {
    pub locals: Vec<ValueType>,
    pub code: Vec<u8>,
    pub instructions: Vec<Instruction>,
}

pub struct BodyV {
    pub locals: Seq<ValueType>,
    pub code: Seq<u8>,
    pub instructions: Seq<Instruction>,
}

impl View for Body {
    type V = BodyV;

    open spec fn view(&self) -> BodyV {
        BodyV {
            locals: self.locals@,
            code: self.code@,
            instructions: self.instructions@,
        }
    }
}

/// An active element segment of functions for the given table, at the offset that
/// an imported or defined global holds.
#[derive(Debug, PartialEq, Eq)]
pub struct ElementSegment {
    pub table: u32,
    pub offset_global: u32,
    pub functions: Vec<u32>,
}

pub struct ElementSegmentV {
    pub table: u32,
    pub offset_global: u32,
    pub functions: Seq<u32>,
}

impl View for ElementSegment {
    type V = ElementSegmentV;

    open spec fn view(&self) -> ElementSegmentV {
        ElementSegmentV {
            table: self.table,
            offset_global: self.offset_global,
            functions: self.functions@,
        }
    }
}

/// An active data segment for the first memory, at a constant address.
#[derive(Clone, Copy, Debug, PartialEq, Eq)]
pub struct DataSegment<'a> {
    pub address: i32,
    pub data: &'a [u8],
}

pub struct DataSegmentV {
    pub address: i32,
    pub data: Seq<u8>,
}

impl<'a> View for DataSegment<'a> {
    type V = DataSegmentV;

    open spec fn view(&self) -> DataSegmentV {
        DataSegmentV { address: self.address, data: self.data@ }
    }
}

/// A section of a core module.
#[derive(Debug, PartialEq, Eq)]
pub enum ModuleSection<'a> {
    Raw { id: u8, data: &'a [u8] },
    Types(Vec<FuncType>),
    Imports(Vec<Import>),
    Functions(Vec<u32>),
    Globals(Vec<Global>),
    Exports(Vec<Export>),
    Elements(Vec<ElementSegment>),
    DataCount(u32),
    Code(Vec<Body>),
    Data(Vec<DataSegment<'a>>),
    Custom { name: String, content: Vec<u8> },
}

pub enum ModuleSectionV {
    Raw { id: u8, data: Seq<u8> },
    Types(Seq<FuncTypeV>),
    Imports(Seq<ImportV>),
    Functions(Seq<u32>),
    Globals(Seq<GlobalV>),
    Exports(Seq<ExportV>),
    Elements(Seq<ElementSegmentV>),
    DataCount(u32),
    Code(Seq<BodyV>),
    Data(Seq<DataSegmentV>),
    Custom { name: Seq<char>, content: Seq<u8> },
}

impl<'a> View for ModuleSection<'a> {
    type V = ModuleSectionV;

    open spec fn view(&self) -> ModuleSectionV {
        match *self {
            ModuleSection::Raw { id, data } => ModuleSectionV::Raw { id, data: data@ },
            ModuleSection::Types(items) => ModuleSectionV::Types(views(items@)),
            ModuleSection::Imports(items) => ModuleSectionV::Imports(views(items@)),
            ModuleSection::Functions(items) => ModuleSectionV::Functions(views(items@)),
            ModuleSection::Globals(items) => ModuleSectionV::Globals(views(items@)),
            ModuleSection::Exports(items) => ModuleSectionV::Exports(views(items@)),
            ModuleSection::Elements(items) => ModuleSectionV::Elements(views(items@)),
            ModuleSection::DataCount(count) => ModuleSectionV::DataCount(count),
            ModuleSection::Code(items) => ModuleSectionV::Code(views(items@)),
            ModuleSection::Data(items) => ModuleSectionV::Data(views(items@)),
            ModuleSection::Custom { name, content } => ModuleSectionV::Custom {
                name: name@,
                content: content@,
            },
        }
    }
}

/// An argument of a core instantiation: the instance given for an import module.
#[derive(Debug, PartialEq, Eq)]
pub struct InstanceArg {
    pub name: String,
    pub instance: u32,
}

pub struct InstanceArgV {
    pub name: Seq<char>,
    pub instance: u32,
}

impl View for InstanceArg {
    type V = InstanceArgV;

    open spec fn view(&self) -> InstanceArgV {
        InstanceArgV { name: self.name@, instance: self.instance }
    }
}

/// A core instance made from a core module.
#[derive(Debug, PartialEq, Eq)]
pub struct Instantiation {
    pub module: u32,
    pub args: Vec<InstanceArg>,
}

pub struct InstantiationV {
    pub module: u32,
    pub args: Seq<InstanceArgV>,
}

impl View for Instantiation {
    type V = InstantiationV;

    open spec fn view(&self) -> InstantiationV {
        InstantiationV { module: self.module, args: views(self.args@) }
    }
}

/// An alias of an export of a core instance.
#[derive(Debug, PartialEq, Eq)]
pub struct CoreAlias {
    pub instance: u32,
    pub kind: ExternKind,
    pub name: String,
}

pub struct CoreAliasV {
    pub instance: u32,
    pub kind: ExternKind,
    pub name: Seq<char>,
}

impl View for CoreAlias {
    type V = CoreAliasV;

    open spec fn view(&self) -> CoreAliasV {
        CoreAliasV { instance: self.instance, kind: self.kind, name: self.name@ }
    }
}

/// A component function lifted from a core function, with strings in UTF-8 and, if
/// its result lies in memory, the memory to read.
#[derive(Clone, Copy, Debug, PartialEq, Eq)]
pub struct Lift {
    pub core_function: u32,
    pub ty: u32,
    pub memory: Option<u32>,
}

impl View for Lift {
    type V = Lift;

    open spec fn view(&self) -> Lift {
        *self
    }
}

/// The primitive types of the component model that results are given in.
#[derive(Clone, Copy, Debug, PartialEq, Eq, Structural)]
pub enum PrimitiveType {
    U8,
    S32,
    S64,
    Float32,
    Float64,
}

/// A component type: a list, or a function without parameters whose result is of a
/// primitive or of a defined type.
#[derive(Clone, Copy, Debug, PartialEq, Eq)]
pub enum ComponentType {
    List(PrimitiveType),
    Getter(PrimitiveType),
    DefinedGetter(u32),
}

impl View for ComponentType {
    type V = ComponentType;

    open spec fn view(&self) -> ComponentType {
        *self
    }
}

/// A component function exported under a kebab-case name.
#[derive(Debug, PartialEq, Eq)]
pub struct FuncExport {
    pub name: String,
    pub function: u32,
}

pub struct FuncExportV {
    pub name: Seq<char>,
    pub function: u32,
}

impl View for FuncExport {
    type V = FuncExportV;

    open spec fn view(&self) -> FuncExportV {
        FuncExportV { name: self.name@, function: self.function }
    }
}

/// A section of a component.
#[derive(Debug, PartialEq, Eq)]
pub enum ComponentSection<'a> {
    Raw { id: u8, data: &'a [u8] },
    Module(Vec<ModuleSection<'a>>),
    Instances(Vec<Instantiation>),
    Types(Vec<ComponentType>),
    Aliases(Vec<CoreAlias>),
    Lifts(Vec<Lift>),
    Exports(Vec<FuncExport>),
}

pub enum ComponentSectionV {
    Raw { id: u8, data: Seq<u8> },
    Module(Seq<ModuleSectionV>),
    Instances(Seq<InstantiationV>),
    Types(Seq<ComponentType>),
    Aliases(Seq<CoreAliasV>),
    Lifts(Seq<Lift>),
    Exports(Seq<FuncExportV>),
}

impl<'a> View for ComponentSection<'a> {
    type V = ComponentSectionV;

    open spec fn view(&self) -> ComponentSectionV {
        match *self {
            ComponentSection::Raw { id, data } => ComponentSectionV::Raw { id, data: data@ },
            ComponentSection::Module(sections) => ComponentSectionV::Module(views(sections@)),
            ComponentSection::Instances(items) => ComponentSectionV::Instances(views(items@)),
            ComponentSection::Types(items) => ComponentSectionV::Types(views(items@)),
            ComponentSection::Aliases(items) => ComponentSectionV::Aliases(views(items@)),
            ComponentSection::Lifts(items) => ComponentSectionV::Lifts(views(items@)),
            ComponentSection::Exports(items) => ComponentSectionV::Exports(views(items@)),
        }
    }
}

} // verus!
