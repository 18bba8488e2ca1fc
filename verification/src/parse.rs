//! Reading a component with `wasmparser`.
//!
//! `wasmparser` walks a binary and hands out its payloads; the sections that matter
//! here are then read item by item.  What each reader gives has a name, as a function
//! of the bytes, and holds plain values only: kinds, numbers, names, and ranges of
//! bytes.
//!
//! Where reading fails, a list holds the failure in place of the item, so that a walk
//! over the list meets whatever comes first.
use vstd::prelude::*;
use crate::wasm::{Export, ExportV, ExternKind, MemoryType, ValueType};

verus! {

/// The bytes are not WebAssembly from this offset on.
#[derive(Clone, Copy, Debug, PartialEq, Eq, Structural)]
pub struct ReadError {
    pub offset: usize,
}

/// The id of a section and the range of its contents.
#[derive(Clone, Copy, Debug, PartialEq, Eq, Structural)]
pub struct SectionRange {
    pub id: u8,
    pub start: usize,
    pub end: usize,
}

impl SectionRange {
    /// The range lies within `len` bytes.
    pub open spec fn within(self, len: nat) -> bool {
        self.start <= self.end <= len
    }

    /// The contents of the section.
    pub open spec fn of(self, bytes: Seq<u8>) -> Seq<u8> {
        bytes.subrange(self.start as int, self.end as int)
    }
}

/// What a payload is, beyond a section.
#[derive(Clone, Copy, Debug, PartialEq, Eq)]
pub enum PayloadKind {
    /// The header of a component or of a core module.
    Version { component: bool },
    /// A section that holds a core module or a component, whose payloads follow.
    Nested,
    /// The body of a function.
    Body { start: usize, end: usize },
    /// The end of a component or of a core module.
    End,
    /// Any other section.
    Section,
}

/// A payload of a binary.
#[derive(Clone, Copy, Debug, PartialEq, Eq)]
pub struct Payload {
    pub kind: PayloadKind,
    pub section: Option<SectionRange>,
}

/// What a global holds: a value, or a reference.
#[derive(Clone, Copy, Debug, PartialEq, Eq, Structural)]
pub enum GlobalContent {
    Value(ValueType),
    Reference,
}

/// The declared type of a global.
#[derive(Clone, Copy, Debug, PartialEq, Eq, Structural)]
pub struct GlobalDecl {
    pub content: GlobalContent,
    pub mutable: bool,
}

/// A global that a module defines, with the range of its initial value, an expression
/// that ends in `end`.
#[derive(Clone, Copy, Debug, PartialEq, Eq)]
pub struct GlobalEntry {
    pub decl: GlobalDecl,
    pub init_start: usize,
    pub init_end: usize,
}

/// The operators that change a table, and the others.
#[derive(Clone, Copy, Debug, PartialEq, Eq, Structural)]
pub enum OperatorKind {
    TableCopy,
    TableFill,
    TableGrow,
    TableInit,
    TableSet,
    Other,
}

/// A core instance: of a module, or made of exports.
#[derive(Clone, Copy, Debug, PartialEq, Eq, Structural)]
pub enum InstanceKind {
    Instantiate { module: u32 },
    FromExports,
}

/// The index space of a component that an import, an export, an alias or a canonical
/// function extends.
#[derive(Clone, Copy, Debug, PartialEq, Eq, Structural)]
pub enum Sort {
    CoreModule,
    CoreFunc,
    CoreMemory,
    Func,
    Type,
    Other,
}

// Outside types.

#[verifier::external_type_specification]
#[verifier::external_body]
pub struct ExParserRefType(wasmparser::RefType);

#[verifier::external_type_specification]
pub struct ExParserValType(wasmparser::ValType);

#[verifier::external_type_specification]
pub struct ExEncoding(wasmparser::Encoding);

#[verifier::external_type_specification]
pub struct ExExternalKind(wasmparser::ExternalKind);

#[verifier::external_type_specification]
pub struct ExComponentExternalKind(wasmparser::ComponentExternalKind);

#[verifier::external_type_specification]
pub struct ExComponentOuterAliasKind(wasmparser::ComponentOuterAliasKind);

/// What `wasmparser::Parser::parse_all` gives for the bytes, up to the first failure.
pub uninterp spec fn payloads(bytes: Seq<u8>) -> Seq<Result<Payload, ReadError>>;

/// The items of an import section at the given offset: the types of globals, and
/// `None` for other imports.
pub uninterp spec fn imports_in(data: Seq<u8>, offset: usize) -> Seq<
    Result<Option<GlobalDecl>, ReadError>,
>;

/// The number of items of a table section, where one that cannot be read ends the
/// section and counts.
pub uninterp spec fn table_count(data: Seq<u8>, offset: usize) -> Result<usize, ReadError>;

/// The items of a memory section.
pub uninterp spec fn memories_in(data: Seq<u8>, offset: usize) -> Seq<
    Result<MemoryType, ReadError>,
>;

/// The items of a global section.
pub uninterp spec fn globals_in(data: Seq<u8>, offset: usize) -> Seq<
    Result<GlobalEntry, ReadError>,
>;

/// The items of an export section.
pub uninterp spec fn exports_in(data: Seq<u8>, offset: usize) -> Seq<Result<ExportV, ReadError>>;

/// The operators of a function body.
pub uninterp spec fn operators_in(data: Seq<u8>, offset: usize) -> Seq<
    Result<OperatorKind, ReadError>,
>;

/// The items of a core instance section.
pub uninterp spec fn instances_in(data: Seq<u8>, offset: usize) -> Seq<
    Result<InstanceKind, ReadError>,
>;

/// The items of an alias section.
pub uninterp spec fn aliases_in(data: Seq<u8>, offset: usize) -> Seq<Result<Sort, ReadError>>;

/// The number of items that a component type section gives in front of them.
pub uninterp spec fn component_type_count(data: Seq<u8>, offset: usize) -> Result<u32, ReadError>;

/// The items of a section of canonical functions.
pub uninterp spec fn canonicals_in(data: Seq<u8>, offset: usize) -> Seq<Result<Sort, ReadError>>;

/// The items of a component import section.
pub uninterp spec fn component_imports_in(data: Seq<u8>, offset: usize) -> Seq<
    Result<Sort, ReadError>,
>;

/// The items of a component export section.
pub uninterp spec fn component_exports_in(data: Seq<u8>, offset: usize) -> Seq<
    Result<Sort, ReadError>,
>;

// Values of `wasmparser` as plain values.

fn global_content(ty: wasmparser::ValType) -> (c: GlobalContent)
    ensures
        match ty {
            wasmparser::ValType::I32 => c == GlobalContent::Value(ValueType::I32),
            wasmparser::ValType::I64 => c == GlobalContent::Value(ValueType::I64),
            wasmparser::ValType::F32 => c == GlobalContent::Value(ValueType::F32),
            wasmparser::ValType::F64 => c == GlobalContent::Value(ValueType::F64),
            wasmparser::ValType::V128 => c == GlobalContent::Value(ValueType::V128),
            wasmparser::ValType::Ref(_) => c == GlobalContent::Reference,
        },
{
    match ty {
        wasmparser::ValType::I32 => GlobalContent::Value(ValueType::I32),
        wasmparser::ValType::I64 => GlobalContent::Value(ValueType::I64),
        wasmparser::ValType::F32 => GlobalContent::Value(ValueType::F32),
        wasmparser::ValType::F64 => GlobalContent::Value(ValueType::F64),
        wasmparser::ValType::V128 => GlobalContent::Value(ValueType::V128),
        wasmparser::ValType::Ref(_) => GlobalContent::Reference,
    }
}

fn extern_kind(kind: wasmparser::ExternalKind) -> (k: ExternKind)
    ensures
        match kind {
            wasmparser::ExternalKind::Func => k == ExternKind::Func,
            wasmparser::ExternalKind::Table => k == ExternKind::Table,
            wasmparser::ExternalKind::Memory => k == ExternKind::Memory,
            wasmparser::ExternalKind::Global => k == ExternKind::Global,
            wasmparser::ExternalKind::Tag => k == ExternKind::Tag,
        },
{
    match kind {
        wasmparser::ExternalKind::Func => ExternKind::Func,
        wasmparser::ExternalKind::Table => ExternKind::Table,
        wasmparser::ExternalKind::Memory => ExternKind::Memory,
        wasmparser::ExternalKind::Global => ExternKind::Global,
        wasmparser::ExternalKind::Tag => ExternKind::Tag,
    }
}

fn core_sort(kind: wasmparser::ExternalKind) -> (s: Sort)
    ensures
        match kind {
            wasmparser::ExternalKind::Func => s == Sort::CoreFunc,
            wasmparser::ExternalKind::Memory => s == Sort::CoreMemory,
            _ => s == Sort::Other,
        },
{
    match kind {
        wasmparser::ExternalKind::Func => Sort::CoreFunc,
        wasmparser::ExternalKind::Memory => Sort::CoreMemory,
        _ => Sort::Other,
    }
}

fn component_sort(kind: wasmparser::ComponentExternalKind) -> (s: Sort)
    ensures
        match kind {
            wasmparser::ComponentExternalKind::Module => s == Sort::CoreModule,
            wasmparser::ComponentExternalKind::Func => s == Sort::Func,
            wasmparser::ComponentExternalKind::Type => s == Sort::Type,
            _ => s == Sort::Other,
        },
{
    match kind {
        wasmparser::ComponentExternalKind::Module => Sort::CoreModule,
        wasmparser::ComponentExternalKind::Func => Sort::Func,
        wasmparser::ComponentExternalKind::Type => Sort::Type,
        _ => Sort::Other,
    }
}

fn outer_sort(kind: wasmparser::ComponentOuterAliasKind) -> (s: Sort)
    ensures
        match kind {
            wasmparser::ComponentOuterAliasKind::CoreModule => s == Sort::CoreModule,
            wasmparser::ComponentOuterAliasKind::Type => s == Sort::Type,
            _ => s == Sort::Other,
        },
{
    match kind {
        wasmparser::ComponentOuterAliasKind::CoreModule => Sort::CoreModule,
        wasmparser::ComponentOuterAliasKind::Type => Sort::Type,
        _ => Sort::Other,
    }
}

fn is_component(encoding: wasmparser::Encoding) -> (b: bool)
    ensures
        b == (encoding is Component),
{
    match encoding {
        wasmparser::Encoding::Component => true,
        wasmparser::Encoding::Module => false,
    }
}

fn section_range(section: (u8, core::ops::Range<usize>)) -> (r: SectionRange)
    ensures
        r == (SectionRange { id: section.0, start: section.1.start, end: section.1.end }),
{
    SectionRange { id: section.0, start: section.1.start, end: section.1.end }
}

// Readers.

/// `wasmparser::Parser::parse_all`: the payloads of a binary that starts at offset
/// zero.  It ends after the first failure.  The payloads of nested modules and
/// components follow the section that holds them, and ranges count from the start of
/// `bytes`.
#[verifier::external_body]
pub(crate) fn parse_all(bytes: &[u8]) -> (r: Vec<Result<Payload, ReadError>>)
    ensures
        r@ == payloads(bytes@),
{
    wasmparser::Parser::new(0).parse_all(bytes).map(|payload| payload.map(|payload| Payload {
        kind: match &payload {
            wasmparser::Payload::Version { encoding, .. } => PayloadKind::Version {
                component: is_component(*encoding) },
            wasmparser::Payload::ModuleSection { .. } => PayloadKind::Nested,
            wasmparser::Payload::ComponentSection { .. } => PayloadKind::Nested,
            wasmparser::Payload::CodeSectionEntry(body) => PayloadKind::Body {
                start: body.range().start, end: body.range().end },
            wasmparser::Payload::End(_) => PayloadKind::End,
            _ => PayloadKind::Section,
        },
        section: payload.as_section().map(section_range),
    }).map_err(|e| ReadError { offset: e.offset() })).collect()
}

/// `wasmparser::ImportSectionReader`: the items of an import section in order, up to
/// the first failure.
#[verifier::external_body]
pub(crate) fn read_imports(data: &[u8], offset: usize) -> (r: Vec<Result<Option<GlobalDecl>, ReadError>>)
    requires
        offset + data@.len() <= usize::MAX,
    ensures
        r@ == imports_in(data@, offset),
{
    match wasmparser::ImportSectionReader::new(data, offset) {
        Err(e) => vec![Err(ReadError { offset: e.offset() })],
        Ok(reader) => {
            let mut items = reader.into_iter();
            core::iter::from_fn(|| items.next()).map(|item| item.map(|item| match item.ty {
                wasmparser::TypeRef::Global(ty) => Some(GlobalDecl {
                    content: global_content(ty.content_type),
                    mutable: ty.mutable,
                }),
                _ => None,
            }).map_err(|e| ReadError { offset: e.offset() })).collect()
        },
    }
}

/// `wasmparser::TableSectionReader`: how many items a table section yields.
#[verifier::external_body]
pub(crate) fn count_tables(data: &[u8], offset: usize) -> (r: Result<usize, ReadError>)
    requires
        offset + data@.len() <= usize::MAX,
    ensures
        r == table_count(data@, offset),
{
    match wasmparser::TableSectionReader::new(data, offset) {
        Err(e) => Err(ReadError { offset: e.offset() }),
        Ok(reader) => Ok(reader.into_iter().count()),
    }
}

/// `wasmparser::MemorySectionReader`: the items of a memory section in order, up to
/// the first failure.
#[verifier::external_body]
pub(crate) fn read_memories(data: &[u8], offset: usize) -> (r: Vec<Result<MemoryType, ReadError>>)
    requires
        offset + data@.len() <= usize::MAX,
    ensures
        r@ == memories_in(data@, offset),
{
    match wasmparser::MemorySectionReader::new(data, offset) {
        Err(e) => vec![Err(ReadError { offset: e.offset() })],
        Ok(reader) => {
            let mut items = reader.into_iter();
            core::iter::from_fn(|| items.next()).map(|item| item.map(|item| MemoryType {
                minimum: item.initial,
                maximum: item.maximum,
                memory64: item.memory64,
                shared: item.shared,
            }).map_err(|e| ReadError { offset: e.offset() })).collect()
        },
    }
}

/// `wasmparser::GlobalSectionReader`: the items of a global section in order, up to
/// the first failure.  An initial value lies within the section and is not empty.
#[verifier::external_body]
pub(crate) fn read_globals(data: &[u8], offset: usize) -> (r: Vec<Result<GlobalEntry, ReadError>>)
    requires
        offset + data@.len() <= usize::MAX,
    ensures
        r@ == globals_in(data@, offset),
        forall|i: int|
            0 <= i < r@.len() ==> (#[trigger] r@[i] matches Ok(g) ==> offset <= g.init_start
                < g.init_end <= offset + data@.len()),
{
    match wasmparser::GlobalSectionReader::new(data, offset) {
        Err(e) => vec![Err(ReadError { offset: e.offset() })],
        Ok(reader) => {
            let mut items = reader.into_iter();
            core::iter::from_fn(|| items.next()).map(|item| item.map(|item| GlobalEntry {
                decl: GlobalDecl {
                    content: global_content(item.ty.content_type),
                    mutable: item.ty.mutable,
                },
                init_start: item.init_expr.get_binary_reader().range().start,
                init_end: item.init_expr.get_binary_reader().range().end,
            }).map_err(|e| ReadError { offset: e.offset() })).collect()
        },
    }
}

/// `wasmparser::ExportSectionReader`: the items of an export section in order, up to
/// the first failure.
#[verifier::external_body]
pub(crate) fn read_exports(data: &[u8], offset: usize) -> (r: Vec<Result<Export, ReadError>>)
    requires
        offset + data@.len() <= usize::MAX,
    ensures
        results(r@) == exports_in(data@, offset),
{
    match wasmparser::ExportSectionReader::new(data, offset) {
        Err(e) => vec![Err(ReadError { offset: e.offset() })],
        Ok(reader) => {
            let mut items = reader.into_iter();
            core::iter::from_fn(|| items.next()).map(|item| item.map(|item| Export {
                name: item.name.to_owned(),
                kind: extern_kind(item.kind),
                index: item.index,
            }).map_err(|e| ReadError { offset: e.offset() })).collect()
        },
    }
}

/// `wasmparser::FunctionBody::get_operators_reader`: the operators of a body in order,
/// up to the first failure.
#[verifier::external_body]
pub(crate) fn read_operators(data: &[u8], offset: usize) -> (r: Vec<Result<OperatorKind, ReadError>>)
    requires
        offset + data@.len() <= usize::MAX,
    ensures
        r@ == operators_in(data@, offset),
{
    match wasmparser::FunctionBody::new(offset, data).get_operators_reader() {
        Err(e) => vec![Err(ReadError { offset: e.offset() })],
        Ok(reader) => reader.into_iter().map(|item| item.map(|item| match item {
            wasmparser::Operator::TableCopy { .. } => OperatorKind::TableCopy,
            wasmparser::Operator::TableFill { .. } => OperatorKind::TableFill,
            wasmparser::Operator::TableGrow { .. } => OperatorKind::TableGrow,
            wasmparser::Operator::TableInit { .. } => OperatorKind::TableInit,
            wasmparser::Operator::TableSet { .. } => OperatorKind::TableSet,
            _ => OperatorKind::Other,
        }).map_err(|e| ReadError { offset: e.offset() })).collect(),
    }
}

/// `wasmparser::InstanceSectionReader`: the items of a core instance section in order,
/// up to the first failure.
#[verifier::external_body]
pub(crate) fn read_instances(data: &[u8], offset: usize) -> (r: Vec<Result<InstanceKind, ReadError>>)
    requires
        offset + data@.len() <= usize::MAX,
    ensures
        r@ == instances_in(data@, offset),
{
    match wasmparser::InstanceSectionReader::new(data, offset) {
        Err(e) => vec![Err(ReadError { offset: e.offset() })],
        Ok(reader) => {
            let mut items = reader.into_iter();
            core::iter::from_fn(|| items.next()).map(|item| item.map(|item| match item {
                wasmparser::Instance::Instantiate { module_index, .. } => InstanceKind::Instantiate {
                    module: module_index,
                },
                wasmparser::Instance::FromExports(_) => InstanceKind::FromExports,
            }).map_err(|e| ReadError { offset: e.offset() })).collect()
        },
    }
}

/// `wasmparser::ComponentAliasSectionReader`: the items of an alias section in order,
/// up to the first failure.
#[verifier::external_body]
pub(crate) fn read_aliases(data: &[u8], offset: usize) -> (r: Vec<Result<Sort, ReadError>>)
    requires
        offset + data@.len() <= usize::MAX,
    ensures
        r@ == aliases_in(data@, offset),
{
    match wasmparser::ComponentAliasSectionReader::new(data, offset) {
        Err(e) => vec![Err(ReadError { offset: e.offset() })],
        Ok(reader) => {
            let mut items = reader.into_iter();
            core::iter::from_fn(|| items.next()).map(|item| item.map(|item| match item {
                wasmparser::ComponentAlias::InstanceExport { kind, .. } => component_sort(kind),
                wasmparser::ComponentAlias::CoreInstanceExport { kind, .. } => core_sort(kind),
                wasmparser::ComponentAlias::Outer { kind, .. } => outer_sort(kind),
            }).map_err(|e| ReadError { offset: e.offset() })).collect()
        },
    }
}

/// `wasmparser::ComponentTypeSectionReader::count`: the number of items that a component
/// type section gives in front of them.
#[verifier::external_body]
pub(crate) fn count_component_types(data: &[u8], offset: usize) -> (r: Result<u32, ReadError>)
    requires
        offset + data@.len() <= usize::MAX,
    ensures
        r == component_type_count(data@, offset),
{
    match wasmparser::ComponentTypeSectionReader::new(data, offset) {
        Err(e) => Err(ReadError { offset: e.offset() }),
        Ok(reader) => Ok(reader.count()),
    }
}

/// `wasmparser::ComponentCanonicalSectionReader`: the items of a section of canonical
/// functions in order, up to the first failure.
#[verifier::external_body]
pub(crate) fn read_canonicals(data: &[u8], offset: usize) -> (r: Vec<Result<Sort, ReadError>>)
    requires
        offset + data@.len() <= usize::MAX,
    ensures
        r@ == canonicals_in(data@, offset),
{
    match wasmparser::ComponentCanonicalSectionReader::new(data, offset) {
        Err(e) => vec![Err(ReadError { offset: e.offset() })],
        Ok(reader) => {
            let mut items = reader.into_iter();
            core::iter::from_fn(|| items.next()).map(|item| item.map(|item| match item {
                wasmparser::CanonicalFunction::Lift { .. } => Sort::Func,
                wasmparser::CanonicalFunction::Lower { .. } => Sort::CoreFunc,
                wasmparser::CanonicalFunction::ResourceNew { .. } => Sort::CoreFunc,
                wasmparser::CanonicalFunction::ResourceDrop { .. } => Sort::CoreFunc,
                wasmparser::CanonicalFunction::ResourceRep { .. } => Sort::CoreFunc,
            }).map_err(|e| ReadError { offset: e.offset() })).collect()
        },
    }
}

/// `wasmparser::ComponentImportSectionReader`: the items of a component import section
/// in order, up to the first failure.
#[verifier::external_body]
pub(crate) fn read_component_imports(data: &[u8], offset: usize) -> (r: Vec<Result<Sort, ReadError>>)
    requires
        offset + data@.len() <= usize::MAX,
    ensures
        r@ == component_imports_in(data@, offset),
{
    match wasmparser::ComponentImportSectionReader::new(data, offset) {
        Err(e) => vec![Err(ReadError { offset: e.offset() })],
        Ok(reader) => {
            let mut items = reader.into_iter();
            core::iter::from_fn(|| items.next()).map(
                |item| item.map(|item| component_sort(item.ty.kind())).map_err(
                    |e| ReadError { offset: e.offset() })).collect()
        },
    }
}

/// `wasmparser::ComponentExportSectionReader`: the items of a component export section
/// in order, up to the first failure.
#[verifier::external_body]
pub(crate) fn read_component_exports(data: &[u8], offset: usize) -> (r: Vec<Result<Sort, ReadError>>)
    requires
        offset + data@.len() <= usize::MAX,
    ensures
        r@ == component_exports_in(data@, offset),
{
    match wasmparser::ComponentExportSectionReader::new(data, offset) {
        Err(e) => vec![Err(ReadError { offset: e.offset() })],
        Ok(reader) => {
            let mut items = reader.into_iter();
            core::iter::from_fn(|| items.next()).map(
                |item| item.map(|item| component_sort(item.kind)).map_err(
                    |e| ReadError { offset: e.offset() })).collect()
        },
    }
}

/// The views of what was read.
pub open spec fn results<T: View>(s: Seq<Result<T, ReadError>>) -> Seq<Result<T::V, ReadError>> {
    s.map_values(
        |r: Result<T, ReadError>|
            match r {
                Ok(x) => Ok(x@),
                Err(e) => Err(e),
            },
    )
}

} // verus!
