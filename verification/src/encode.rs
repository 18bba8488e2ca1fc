//! Writing modules and components with `wasm_encoder`.
//!
//! A section builder of `wasm_encoder` holds the number of the items that have been added
//! to it and their bytes, a module or a component the bytes of its sections.  What each
//! holds has a name here, and what the methods do to it is stated in full: which bytes they
//! add.
use vstd::prelude::*;
use crate::format::{
    alias_bytes, body_bytes, component_export_bytes, component_type_bytes, data_bytes,
    element_bytes, encoded_bytes, encoded_text, export_bytes, framed, global_bytes, import_bytes,
    instance_bytes, instruction_bytes, instructions_bytes, leb128, leb128_len, lift_bytes,
    locals_bytes, type_bytes,
};
use crate::size::{all_bytes, all_writable, lemma_all, measure_all, text_len, within, Encoded};
use crate::wasm::{
    Body, ComponentSection, ComponentSectionV, ComponentType, ConstExpr, CoreAlias, DataSegment,
    ElementSegment, EntityType, Export, ExternKind, FuncExport, FuncType, Global, Import,
    Instantiation, Instruction, Lift, ModuleSection, ModuleSectionV, PrimitiveType, ValueType,
    views,
};

verus! {

// Outside types whose parts are public and plain.

#[verifier::external_type_specification]
pub struct ExHeapType(wasm_encoder::HeapType);

#[verifier::external_type_specification]
pub struct ExRefType(wasm_encoder::RefType);

#[verifier::external_type_specification]
pub struct ExValType(wasm_encoder::ValType);

#[verifier::external_type_specification]
pub struct ExExportKind(wasm_encoder::ExportKind);

#[verifier::external_type_specification]
pub struct ExDataCountSection(wasm_encoder::DataCountSection);

#[verifier::external_type_specification]
pub struct ExPrimitiveValType(wasm_encoder::PrimitiveValType);

// Outside collections.

#[verifier::external_type_specification]
#[verifier::external_body]
pub struct ExTypeSection(wasm_encoder::TypeSection);

#[verifier::external_type_specification]
#[verifier::external_body]
pub struct ExImportSection(wasm_encoder::ImportSection);

#[verifier::external_type_specification]
#[verifier::external_body]
pub struct ExFunctionSection(wasm_encoder::FunctionSection);

#[verifier::external_type_specification]
#[verifier::external_body]
pub struct ExGlobalSection(wasm_encoder::GlobalSection);

#[verifier::external_type_specification]
#[verifier::external_body]
pub struct ExExportSection(wasm_encoder::ExportSection);

#[verifier::external_type_specification]
#[verifier::external_body]
pub struct ExElementSection(wasm_encoder::ElementSection);

#[verifier::external_type_specification]
#[verifier::external_body]
pub struct ExFunction(wasm_encoder::Function);

#[verifier::external_type_specification]
#[verifier::external_body]
pub struct ExCodeSection(wasm_encoder::CodeSection);

#[verifier::external_type_specification]
#[verifier::external_body]
pub struct ExDataSection(wasm_encoder::DataSection);

#[verifier::external_type_specification]
#[verifier::external_body]
pub struct ExModule(wasm_encoder::Module);

#[verifier::external_type_specification]
#[verifier::external_body]
pub struct ExInstanceSection(wasm_encoder::InstanceSection);

#[verifier::external_type_specification]
#[verifier::external_body]
pub struct ExComponentTypeSection(wasm_encoder::ComponentTypeSection);

#[verifier::external_type_specification]
#[verifier::external_body]
pub struct ExComponentAliasSection(wasm_encoder::ComponentAliasSection);

#[verifier::external_type_specification]
#[verifier::external_body]
pub struct ExCanonicalFunctionSection(wasm_encoder::CanonicalFunctionSection);

#[verifier::external_type_specification]
#[verifier::external_body]
pub struct ExComponentExportSection(wasm_encoder::ComponentExportSection);

#[verifier::external_type_specification]
#[verifier::external_body]
pub struct ExComponent(wasm_encoder::Component);

/// What a section builder holds: the number of items, and their bytes.
pub struct Filling {
    pub count: nat,
    pub bytes: Seq<u8>,
}

/// A builder to which nothing has been added.
pub open spec fn unfilled() -> Filling {
    Filling { count: 0, bytes: seq![] }
}

/// A builder to which an item has been added.
pub open spec fn filled(c: Filling, item: Seq<u8>) -> Filling {
    Filling { count: c.count + 1, bytes: c.bytes + item }
}

/// A builder to which items have been added.
pub open spec fn filled_with<T: Encoded>(items: Seq<T::V>) -> Filling {
    Filling { count: items.len(), bytes: all_bytes::<T>(items) }
}

/// The contents of the section that a builder makes.
pub open spec fn filling_payload(c: Filling) -> Seq<u8> {
    leb128(c.count) + c.bytes
}

proof fn lemma_one_more<T: Encoded>(all: Seq<T::V>, i: int)
    requires
        0 <= i < all.len(),
    ensures
        filled_with::<T>(all.take(i + 1)) == filled(
            filled_with::<T>(all.take(i)),
            T::bytes_of(all[i]),
        ),
{
    assert(all.take(i + 1).drop_last() =~= all.take(i));
}

// What builders hold.

/// What a type section holds.
pub uninterp spec fn type_filling(section: wasm_encoder::TypeSection) -> Filling;

/// What an import section holds.
pub uninterp spec fn import_filling(section: wasm_encoder::ImportSection) -> Filling;

/// What a function section holds.
pub uninterp spec fn function_filling(section: wasm_encoder::FunctionSection) -> Filling;

/// What a global section holds.
pub uninterp spec fn global_filling(section: wasm_encoder::GlobalSection) -> Filling;

/// What an export section holds.
pub uninterp spec fn export_filling(section: wasm_encoder::ExportSection) -> Filling;

/// What an element section holds.
pub uninterp spec fn element_filling(section: wasm_encoder::ElementSection) -> Filling;

/// What a code section holds.
pub uninterp spec fn code_filling(section: wasm_encoder::CodeSection) -> Filling;

/// What a data section holds.
pub uninterp spec fn data_filling(section: wasm_encoder::DataSection) -> Filling;

/// What a core instance section holds.
pub uninterp spec fn instance_filling(section: wasm_encoder::InstanceSection) -> Filling;

/// What a component type section holds.
pub uninterp spec fn component_type_filling(section: wasm_encoder::ComponentTypeSection) -> Filling;

/// What an alias section holds.
pub uninterp spec fn alias_filling(section: wasm_encoder::ComponentAliasSection) -> Filling;

/// What a section of canonical functions holds.
pub uninterp spec fn lift_filling(section: wasm_encoder::CanonicalFunctionSection) -> Filling;

/// What a component export section holds.
pub uninterp spec fn component_export_filling(
    section: wasm_encoder::ComponentExportSection,
) -> Filling;

/// The bytes of a function body so far.
pub uninterp spec fn body_content(body: wasm_encoder::Function) -> Seq<u8>;

/// The bytes of a module so far.
pub uninterp spec fn module_content(module: wasm_encoder::Module) -> Seq<u8>;

/// The bytes of a component so far.
pub uninterp spec fn component_content(component: wasm_encoder::Component) -> Seq<u8>;

// Plain values in the vocabulary of `wasm_encoder`.

fn encoder_value_type(ty: ValueType) -> (r: wasm_encoder::ValType)
    ensures
        match ty {
            ValueType::I32 => r == wasm_encoder::ValType::I32,
            ValueType::I64 => r == wasm_encoder::ValType::I64,
            ValueType::F32 => r == wasm_encoder::ValType::F32,
            ValueType::F64 => r == wasm_encoder::ValType::F64,
            ValueType::V128 => r == wasm_encoder::ValType::V128,
        },
{
    match ty {
        ValueType::I32 => wasm_encoder::ValType::I32,
        ValueType::I64 => wasm_encoder::ValType::I64,
        ValueType::F32 => wasm_encoder::ValType::F32,
        ValueType::F64 => wasm_encoder::ValType::F64,
        ValueType::V128 => wasm_encoder::ValType::V128,
    }
}

fn encoder_export_kind(kind: ExternKind) -> (r: wasm_encoder::ExportKind)
    ensures
        match kind {
            ExternKind::Func => r == wasm_encoder::ExportKind::Func,
            ExternKind::Table => r == wasm_encoder::ExportKind::Table,
            ExternKind::Memory => r == wasm_encoder::ExportKind::Memory,
            ExternKind::Global => r == wasm_encoder::ExportKind::Global,
            ExternKind::Tag => r == wasm_encoder::ExportKind::Tag,
        },
{
    match kind {
        ExternKind::Func => wasm_encoder::ExportKind::Func,
        ExternKind::Table => wasm_encoder::ExportKind::Table,
        ExternKind::Memory => wasm_encoder::ExportKind::Memory,
        ExternKind::Global => wasm_encoder::ExportKind::Global,
        ExternKind::Tag => wasm_encoder::ExportKind::Tag,
    }
}

fn encoder_primitive(ty: PrimitiveType) -> (r: wasm_encoder::PrimitiveValType)
    ensures
        match ty {
            PrimitiveType::U8 => r == wasm_encoder::PrimitiveValType::U8,
            PrimitiveType::S32 => r == wasm_encoder::PrimitiveValType::S32,
            PrimitiveType::S64 => r == wasm_encoder::PrimitiveValType::S64,
            PrimitiveType::Float32 => r == wasm_encoder::PrimitiveValType::Float32,
            PrimitiveType::Float64 => r == wasm_encoder::PrimitiveValType::Float64,
        },
{
    match ty {
        PrimitiveType::U8 => wasm_encoder::PrimitiveValType::U8,
        PrimitiveType::S32 => wasm_encoder::PrimitiveValType::S32,
        PrimitiveType::S64 => wasm_encoder::PrimitiveValType::S64,
        PrimitiveType::Float32 => wasm_encoder::PrimitiveValType::Float32,
        PrimitiveType::Float64 => wasm_encoder::PrimitiveValType::Float64,
    }
}

// The type section.

/// `wasm_encoder::TypeSection::new`: a type section without types.
#[verifier::external_body]
fn new_types() -> (section: wasm_encoder::TypeSection)
    ensures
        type_filling(section) == unfilled(),
{
    wasm_encoder::TypeSection::new()
}

/// `wasm_encoder::TypeSection::function` adds a function type at the end.  It panics
/// where a length does not fit in 32 bits.
#[verifier::external_body]
fn push_type(section: &mut wasm_encoder::TypeSection, item: &FuncType)
    requires
        type_filling(*old(section)).count < u32::MAX,
        FuncType::bytes_of(item@).len() <= u32::MAX,
    ensures
        type_filling(*final(section)) == filled(type_filling(*old(section)), type_bytes(item@)),
{
    section.function(
        item.params.iter().map(|ty| encoder_value_type(*ty)),
        item.results.iter().map(|ty| encoder_value_type(*ty)),
    );
}

// The import section.

/// `wasm_encoder::ImportSection::new`: an import section without imports.
#[verifier::external_body]
fn new_imports() -> (section: wasm_encoder::ImportSection)
    ensures
        import_filling(section) == unfilled(),
{
    wasm_encoder::ImportSection::new()
}

/// `wasm_encoder::ImportSection::import` adds an import at the end.  It panics where
/// the length of a name does not fit in 32 bits.
#[verifier::external_body]
fn push_import(section: &mut wasm_encoder::ImportSection, item: &Import)
    requires
        import_filling(*old(section)).count < u32::MAX,
        Import::bytes_of(item@).len() <= u32::MAX,
    ensures
        import_filling(*final(section)) == filled(
            import_filling(*old(section)),
            import_bytes(item@),
        ),
{
    let ty = match item.ty {
        EntityType::Function(ty) => wasm_encoder::EntityType::Function(ty),
        EntityType::Table(ty) => wasm_encoder::TableType {
            element_type: wasm_encoder::RefType::FUNCREF, minimum: ty.minimum, maximum: ty.maximum,
        }.into(),
        EntityType::Memory(ty) => wasm_encoder::MemoryType {
            minimum: ty.minimum, maximum: ty.maximum, memory64: ty.memory64, shared: ty.shared,
        }.into(),
        EntityType::Global(ty) => wasm_encoder::GlobalType {
            val_type: encoder_value_type(ty.val_type), mutable: ty.mutable,
        }.into(),
    };
    section.import(&item.module, &item.name, ty);
}

// The function section.

/// `wasm_encoder::FunctionSection::new`: a function section without functions.
#[verifier::external_body]
fn new_functions() -> (section: wasm_encoder::FunctionSection)
    ensures
        function_filling(section) == unfilled(),
{
    wasm_encoder::FunctionSection::new()
}

/// `wasm_encoder::FunctionSection::function` adds a function, given by the index of
/// its type, at the end.
#[verifier::external_body]
fn push_function(section: &mut wasm_encoder::FunctionSection, ty: u32)
    requires
        function_filling(*old(section)).count < u32::MAX,
    ensures
        function_filling(*final(section)) == filled(
            function_filling(*old(section)),
            leb128(ty as nat),
        ),
        {
    section.function(ty);
}

// The global section.

/// `wasm_encoder::GlobalSection::new`: a global section without globals.
#[verifier::external_body]
fn new_globals() -> (section: wasm_encoder::GlobalSection)
    ensures
        global_filling(section) == unfilled(),
{
    wasm_encoder::GlobalSection::new()
}

/// `wasm_encoder::GlobalSection::global` adds a global at the end, its initial value
/// made by the constructor of `wasm_encoder::ConstExpr` of the same name.
#[verifier::external_body]
fn push_global(section: &mut wasm_encoder::GlobalSection, item: &Global)
    requires
        global_filling(*old(section)).count < u32::MAX,
    ensures
        global_filling(*final(section)) == filled(
            global_filling(*old(section)),
            global_bytes(item@),
        ),
{
    let ty = wasm_encoder::GlobalType {
        val_type: encoder_value_type(item.ty.val_type),
        mutable: item.ty.mutable,
    };
    let init = match &item.init {
        ConstExpr::I32(n) => wasm_encoder::ConstExpr::i32_const(*n),
        ConstExpr::I64(n) => wasm_encoder::ConstExpr::i64_const(*n),
        ConstExpr::GlobalGet(n) => wasm_encoder::ConstExpr::global_get(*n),
        ConstExpr::Raw(bytes) => wasm_encoder::ConstExpr::raw(bytes.iter().copied()),
    };
    section.global(ty, &init);
}

// The export section.

/// `wasm_encoder::ExportSection::new`: an export section without exports.
#[verifier::external_body]
fn new_exports() -> (section: wasm_encoder::ExportSection)
    ensures
        export_filling(section) == unfilled(),
{
    wasm_encoder::ExportSection::new()
}

/// `wasm_encoder::ExportSection::export` adds an export at the end.  It panics where
/// the length of the name does not fit in 32 bits.
#[verifier::external_body]
fn push_export(section: &mut wasm_encoder::ExportSection, item: &Export)
    requires
        export_filling(*old(section)).count < u32::MAX,
        Export::bytes_of(item@).len() <= u32::MAX,
    ensures
        export_filling(*final(section)) == filled(
            export_filling(*old(section)),
            export_bytes(item@),
        ),
{
    section.export(&item.name, encoder_export_kind(item.kind), item.index);
}

// The element section.

/// `wasm_encoder::ElementSection::new`: an element section without segments.
#[verifier::external_body]
fn new_elements() -> (section: wasm_encoder::ElementSection)
    ensures
        element_filling(section) == unfilled(),
{
    wasm_encoder::ElementSection::new()
}

/// `wasm_encoder::ElementSection::active` adds an active segment of functions at the
/// end.  It panics where their number does not fit in 32 bits.
#[verifier::external_body]
fn push_element(section: &mut wasm_encoder::ElementSection, item: &ElementSegment)
    requires
        element_filling(*old(section)).count < u32::MAX,
        ElementSegment::bytes_of(item@).len() <= u32::MAX,
    ensures
        element_filling(*final(section)) == filled(
            element_filling(*old(section)),
            element_bytes(item@),
        ),
{
    section.active(
        Some(item.table),
        &wasm_encoder::ConstExpr::global_get(item.offset_global),
        wasm_encoder::Elements::Functions(&item.functions),
    );
}

// Function bodies and the code section.

/// `wasm_encoder::Function::new_with_locals_types`: a body with these locals and no
/// instructions.  It panics where their number does not fit in 32 bits.
#[verifier::external_body]
fn new_body(locals: &Vec<ValueType>) -> (body: wasm_encoder::Function)
    requires
        locals@.len() <= u32::MAX,
    ensures
        body_content(body) == locals_bytes(locals@),
{
    wasm_encoder::Function::new_with_locals_types(locals.iter().map(|ty| encoder_value_type(*ty)))
}

/// `wasm_encoder::Function::raw` appends bytes to a body.
#[verifier::external_body]
fn push_code(body: &mut wasm_encoder::Function, code: &Vec<u8>)
    ensures
        body_content(*final(body)) == body_content(*old(body)) + code@,
{
    body.raw(code.iter().copied());
}

/// `wasm_encoder::Function::instruction` appends an instruction, the one of
/// `wasm_encoder::Instruction` with the same name.
#[verifier::external_body]
fn push_instruction(body: &mut wasm_encoder::Function, instruction: Instruction)
    ensures
        body_content(*final(body)) == body_content(*old(body)) + instruction_bytes(instruction),
{
    body.instruction(&match instruction {
        Instruction::GlobalGet(n) => wasm_encoder::Instruction::GlobalGet(n),
        Instruction::LocalGet(n) => wasm_encoder::Instruction::LocalGet(n),
        Instruction::LocalTee(n) => wasm_encoder::Instruction::LocalTee(n),
        Instruction::I32Const(n) => wasm_encoder::Instruction::I32Const(n),
        Instruction::I32Sub => wasm_encoder::Instruction::I32Sub,
        Instruction::I32Mul => wasm_encoder::Instruction::I32Mul,
        Instruction::I32Store(arg) => wasm_encoder::Instruction::I32Store(wasm_encoder::MemArg {
            offset: arg.offset, align: arg.align, memory_index: arg.memory_index,
        }),
        Instruction::MemorySize(n) => wasm_encoder::Instruction::MemorySize(n),
        Instruction::CallIndirect { ty, table } =>
            wasm_encoder::Instruction::CallIndirect { ty, table },
        Instruction::End => wasm_encoder::Instruction::End,
    });
}

/// `wasm_encoder::CodeSection::new`: a code section without bodies.
#[verifier::external_body]
fn new_code() -> (section: wasm_encoder::CodeSection)
    ensures
        code_filling(section) == unfilled(),
{
    wasm_encoder::CodeSection::new()
}

/// `wasm_encoder::CodeSection::function` adds a body at the end, with its size in front.
/// It panics where the size does not fit in 32 bits.
#[verifier::external_body]
fn push_body(section: &mut wasm_encoder::CodeSection, body: &wasm_encoder::Function)
    requires
        code_filling(*old(section)).count < u32::MAX,
        body_content(*body).len() <= u32::MAX,
    ensures
        code_filling(*final(section)) == filled(
            code_filling(*old(section)),
            encoded_bytes(body_content(*body)),
        ),
{
    section.function(body);
}

// The data section.

/// `wasm_encoder::DataSection::new`: a data section without segments.
#[verifier::external_body]
fn new_data() -> (section: wasm_encoder::DataSection)
    ensures
        data_filling(section) == unfilled(),
{
    wasm_encoder::DataSection::new()
}

/// `wasm_encoder::DataSection::active` adds an active segment for the first memory at
/// the end.  It panics where the length of the data does not fit in 32 bits.
#[verifier::external_body]
fn push_data<'a>(section: &mut wasm_encoder::DataSection, item: &DataSegment<'a>)
    requires
        data_filling(*old(section)).count < u32::MAX,
        DataSegment::bytes_of(item@).len() <= u32::MAX,
    ensures
        data_filling(*final(section)) == filled(data_filling(*old(section)), data_bytes(item@)),
{
    section.active(
        0,
        &wasm_encoder::ConstExpr::i32_const(item.address),
        item.data.iter().copied(),
    );
}

// Modules.

/// A section in the form in which it can be added to a module.
enum BuiltSection<'a> {
    Raw { id: u8, data: &'a [u8] },
    Types(wasm_encoder::TypeSection),
    Imports(wasm_encoder::ImportSection),
    Functions(wasm_encoder::FunctionSection),
    Globals(wasm_encoder::GlobalSection),
    Exports(wasm_encoder::ExportSection),
    Elements(wasm_encoder::ElementSection),
    DataCount(wasm_encoder::DataCountSection),
    Code(wasm_encoder::CodeSection),
    Data(wasm_encoder::DataSection),
    Custom { name: &'a str, data: &'a [u8] },
}

impl<'a> BuiltSection<'a> {
    spec fn id(self) -> u8 {
        match self {
            BuiltSection::Raw { id, .. } => id,
            BuiltSection::Types(_) => 1,
            BuiltSection::Imports(_) => 2,
            BuiltSection::Functions(_) => 3,
            BuiltSection::Globals(_) => 6,
            BuiltSection::Exports(_) => 7,
            BuiltSection::Elements(_) => 9,
            BuiltSection::DataCount(_) => 12,
            BuiltSection::Code(_) => 10,
            BuiltSection::Data(_) => 11,
            BuiltSection::Custom { .. } => 0,
        }
    }

    spec fn payload(self) -> Seq<u8> {
        match self {
            BuiltSection::Raw { data, .. } => data@,
            BuiltSection::Types(s) => filling_payload(type_filling(s)),
            BuiltSection::Imports(s) => filling_payload(import_filling(s)),
            BuiltSection::Functions(s) => filling_payload(function_filling(s)),
            BuiltSection::Globals(s) => filling_payload(global_filling(s)),
            BuiltSection::Exports(s) => filling_payload(export_filling(s)),
            BuiltSection::Elements(s) => filling_payload(element_filling(s)),
            BuiltSection::DataCount(s) => leb128(s.count as nat),
            BuiltSection::Code(s) => filling_payload(code_filling(s)),
            BuiltSection::Data(s) => filling_payload(data_filling(s)),
            BuiltSection::Custom { name, data } => encoded_text(name@) + data@,
        }
    }
}

/// What a module starts with: the magic number, and the version.
pub open spec fn module_header() -> Seq<u8> {
    seq![0x00u8, 0x61, 0x73, 0x6d, 0x01, 0x00, 0x00, 0x00]
}

/// `wasm_encoder::Module::new`: a module without sections.
#[verifier::external_body]
fn new_module() -> (module: wasm_encoder::Module)
    ensures
        module_content(module) == module_header(),
{
    wasm_encoder::Module::new()
}

/// `wasm_encoder::Module::section` adds a section at the end.  It panics where the
/// size of its contents does not fit in 32 bits.
#[verifier::external_body]
fn push_module_section<'a>(module: &mut wasm_encoder::Module, section: &BuiltSection<'a>)
    requires
        section.payload().len() <= u32::MAX,
    ensures
        module_content(*final(module)) == module_content(*old(module)) + framed(
            section.id(),
            section.payload(),
        ),
{
    match section {
        BuiltSection::Raw { id, data } => module.section(&wasm_encoder::RawSection { id: *id, data }),
        BuiltSection::Types(s) => module.section(s),
        BuiltSection::Imports(s) => module.section(s),
        BuiltSection::Functions(s) => module.section(s),
        BuiltSection::Globals(s) => module.section(s),
        BuiltSection::Exports(s) => module.section(s),
        BuiltSection::Elements(s) => module.section(s),
        BuiltSection::DataCount(s) => module.section(s),
        BuiltSection::Code(s) => module.section(s),
        BuiltSection::Data(s) => module.section(s),
        BuiltSection::Custom { name, data } => module.section(
            &wasm_encoder::CustomSection { name: (*name).into(), data: (*data).into() }),
    };
}

/// `wasm_encoder::Module::finish`: the bytes of a module.
#[verifier::external_body]
fn finish_module(module: wasm_encoder::Module) -> (bytes: Vec<u8>)
    ensures
        bytes@ == module_content(module),
{
    module.finish()
}

// Components.

/// `wasm_encoder::InstanceSection::new`: an instance section without instances.
#[verifier::external_body]
fn new_instances() -> (section: wasm_encoder::InstanceSection)
    ensures
        instance_filling(section) == unfilled(),
{
    wasm_encoder::InstanceSection::new()
}

/// `wasm_encoder::InstanceSection::instantiate` adds the instantiation of a module at
/// the end.  It panics where a length does not fit in 32 bits.
#[verifier::external_body]
fn push_instance(section: &mut wasm_encoder::InstanceSection, item: &Instantiation)
    requires
        instance_filling(*old(section)).count < u32::MAX,
        Instantiation::bytes_of(item@).len() <= u32::MAX,
    ensures
        instance_filling(*final(section)) == filled(
            instance_filling(*old(section)),
            instance_bytes(item@),
        ),
{
    section.instantiate(
        item.module,
        item.args.iter().map(|arg| (&arg.name, wasm_encoder::ModuleArg::Instance(arg.instance))),
    );
}

/// `wasm_encoder::ComponentTypeSection::new`: a type section without types.
#[verifier::external_body]
fn new_component_types() -> (section: wasm_encoder::ComponentTypeSection)
    ensures
        component_type_filling(section) == unfilled(),
{
    wasm_encoder::ComponentTypeSection::new()
}

/// `wasm_encoder::ComponentTypeSection::defined_type` and `function` each add a type
/// at the end, here a list or a function without parameters.
#[verifier::external_body]
fn push_component_type(section: &mut wasm_encoder::ComponentTypeSection, item: ComponentType)
    requires
        component_type_filling(*old(section)).count < u32::MAX,
    ensures
        component_type_filling(*final(section)) == filled(
            component_type_filling(*old(section)),
            component_type_bytes(item),
        ),
{
    let none = std::iter::empty::<(&str, wasm_encoder::ComponentValType)>();
    match item {
        ComponentType::List(ty) => section.defined_type().list(encoder_primitive(ty)),
        ComponentType::Getter(ty) => {
            section.function().params(none).result(encoder_primitive(ty));
        },
        ComponentType::DefinedGetter(ty) => {
            section.function().params(none).result(wasm_encoder::ComponentValType::Type(ty));
        },
    }
}

/// `wasm_encoder::ComponentAliasSection::new`: an alias section without aliases.
#[verifier::external_body]
fn new_aliases() -> (section: wasm_encoder::ComponentAliasSection)
    ensures
        alias_filling(section) == unfilled(),
{
    wasm_encoder::ComponentAliasSection::new()
}

/// `wasm_encoder::ComponentAliasSection::alias` adds an alias at the end, here of an
/// export of a core instance.  It panics where the length of the name does not fit in
/// 32 bits.
#[verifier::external_body]
fn push_alias(section: &mut wasm_encoder::ComponentAliasSection, item: &CoreAlias)
    requires
        alias_filling(*old(section)).count < u32::MAX,
        CoreAlias::bytes_of(item@).len() <= u32::MAX,
    ensures
        alias_filling(*final(section)) == filled(alias_filling(*old(section)), alias_bytes(item@)),
{
    section.alias(wasm_encoder::Alias::CoreInstanceExport {
        instance: item.instance,
        kind: encoder_export_kind(item.kind),
        name: &item.name,
    });
}

/// `wasm_encoder::CanonicalFunctionSection::new`: a section without functions.
#[verifier::external_body]
fn new_lifts() -> (section: wasm_encoder::CanonicalFunctionSection)
    ensures
        lift_filling(section) == unfilled(),
{
    wasm_encoder::CanonicalFunctionSection::new()
}

/// `wasm_encoder::CanonicalFunctionSection::lift` adds a lifted function at the end.
#[verifier::external_body]
fn push_lift(section: &mut wasm_encoder::CanonicalFunctionSection, item: Lift)
    requires
        lift_filling(*old(section)).count < u32::MAX,
    ensures
        lift_filling(*final(section)) == filled(lift_filling(*old(section)), lift_bytes(item)),
{
    let mut options = vec![wasm_encoder::CanonicalOption::UTF8];
    options.extend(item.memory.map(wasm_encoder::CanonicalOption::Memory));
    section.lift(item.core_function, item.ty, options);
}

/// `wasm_encoder::ComponentExportSection::new`: an export section without exports.
#[verifier::external_body]
fn new_component_exports() -> (section: wasm_encoder::ComponentExportSection)
    ensures
        component_export_filling(section) == unfilled(),
{
    wasm_encoder::ComponentExportSection::new()
}

/// `wasm_encoder::ComponentExportSection::export` adds an export at the end, here of a
/// function under a kebab-case name.  It panics where the length of the name does not
/// fit in 32 bits.
#[verifier::external_body]
fn push_component_export(section: &mut wasm_encoder::ComponentExportSection, item: &FuncExport)
    requires
        component_export_filling(*old(section)).count < u32::MAX,
        FuncExport::bytes_of(item@).len() <= u32::MAX,
    ensures
        component_export_filling(*final(section)) == filled(
            component_export_filling(*old(section)),
            component_export_bytes(item@),
        ),
{
    section.export(
        wasm_encoder::ComponentExternName::Kebab(&item.name),
        wasm_encoder::ComponentExportKind::Func,
        item.function,
        None,
    );
}

/// A section in the form in which it can be added to a component.
enum BuiltComponentSection<'a> {
    Raw { id: u8, data: &'a [u8] },
    Module(wasm_encoder::Module),
    Instances(wasm_encoder::InstanceSection),
    Types(wasm_encoder::ComponentTypeSection),
    Aliases(wasm_encoder::ComponentAliasSection),
    Lifts(wasm_encoder::CanonicalFunctionSection),
    Exports(wasm_encoder::ComponentExportSection),
}

impl<'a> BuiltComponentSection<'a> {
    spec fn id(self) -> u8 {
        match self {
            BuiltComponentSection::Raw { id, .. } => id,
            BuiltComponentSection::Module(_) => 1,
            BuiltComponentSection::Instances(_) => 2,
            BuiltComponentSection::Types(_) => 7,
            BuiltComponentSection::Aliases(_) => 6,
            BuiltComponentSection::Lifts(_) => 8,
            BuiltComponentSection::Exports(_) => 11,
        }
    }

    spec fn payload(self) -> Seq<u8> {
        match self {
            BuiltComponentSection::Raw { data, .. } => data@,
            BuiltComponentSection::Module(m) => module_content(m),
            BuiltComponentSection::Instances(s) => filling_payload(instance_filling(s)),
            BuiltComponentSection::Types(s) => filling_payload(component_type_filling(s)),
            BuiltComponentSection::Aliases(s) => filling_payload(alias_filling(s)),
            BuiltComponentSection::Lifts(s) => filling_payload(lift_filling(s)),
            BuiltComponentSection::Exports(s) => filling_payload(component_export_filling(s)),
        }
    }
}

/// What a component starts with: the magic number, and the version.
pub open spec fn component_header() -> Seq<u8> {
    seq![0x00u8, 0x61, 0x73, 0x6d, 0x0d, 0x00, 0x01, 0x00]
}

/// `wasm_encoder::Component::new`: a component without sections.
#[verifier::external_body]
fn new_component() -> (component: wasm_encoder::Component)
    ensures
        component_content(component) == component_header(),
{
    wasm_encoder::Component::new()
}

/// `wasm_encoder::Component::section` adds a section at the end.  It panics where the
/// size of its contents does not fit in 32 bits.
#[verifier::external_body]
fn push_component_section<'a>(
    component: &mut wasm_encoder::Component,
    section: &BuiltComponentSection<'a>,
)
    requires
        section.payload().len() <= u32::MAX,
    ensures
        component_content(*final(component)) == component_content(*old(component)) + framed(
            section.id(),
            section.payload(),
        ),
{
    match section {
        BuiltComponentSection::Raw { id, data } => component.section(
            &wasm_encoder::RawSection { id: *id, data }),
        BuiltComponentSection::Module(m) => component.section(&wasm_encoder::ModuleSection(m)),
        BuiltComponentSection::Instances(s) => component.section(s),
        BuiltComponentSection::Types(s) => component.section(s),
        BuiltComponentSection::Aliases(s) => component.section(s),
        BuiltComponentSection::Lifts(s) => component.section(s),
        BuiltComponentSection::Exports(s) => component.section(s),
    };
}

/// `wasm_encoder::Component::finish`: the bytes of a component.
#[verifier::external_body]
fn finish_component(component: wasm_encoder::Component) -> (bytes: Vec<u8>)
    ensures
        bytes@ == component_content(component),
{
    component.finish()
}

// Modules and components as bytes.

/// The id of a section of a module.
pub open spec fn section_id(s: ModuleSectionV) -> u8 {
    match s {
        ModuleSectionV::Raw { id, .. } => id,
        ModuleSectionV::Types(_) => 1,
        ModuleSectionV::Imports(_) => 2,
        ModuleSectionV::Functions(_) => 3,
        ModuleSectionV::Globals(_) => 6,
        ModuleSectionV::Exports(_) => 7,
        ModuleSectionV::Elements(_) => 9,
        ModuleSectionV::DataCount(_) => 12,
        ModuleSectionV::Code(_) => 10,
        ModuleSectionV::Data(_) => 11,
        ModuleSectionV::Custom { .. } => 0,
    }
}

/// The contents of a section of a module.
pub open spec fn section_payload(s: ModuleSectionV) -> Seq<u8> {
    match s {
        ModuleSectionV::Raw { data, .. } => data,
        ModuleSectionV::Types(items) => filling_payload(filled_with::<FuncType>(items)),
        ModuleSectionV::Imports(items) => filling_payload(filled_with::<Import>(items)),
        ModuleSectionV::Functions(items) => filling_payload(filled_with::<u32>(items)),
        ModuleSectionV::Globals(items) => filling_payload(filled_with::<Global>(items)),
        ModuleSectionV::Exports(items) => filling_payload(filled_with::<Export>(items)),
        ModuleSectionV::Elements(items) => filling_payload(filled_with::<ElementSegment>(items)),
        ModuleSectionV::DataCount(count) => leb128(count as nat),
        ModuleSectionV::Code(items) => filling_payload(filled_with::<Body>(items)),
        ModuleSectionV::Data(items) => filling_payload(filled_with::<DataSegment>(items)),
        ModuleSectionV::Custom { name, content } => encoded_text(name) + content,
    }
}

/// Every item of a section of a module can be written.
pub open spec fn section_is_writable(s: ModuleSectionV) -> bool {
    match s {
        ModuleSectionV::Code(items) => all_writable::<Body>(items),
        _ => true,
    }
}

impl<'a> Encoded for ModuleSection<'a> {
    open spec fn bytes_of(v: ModuleSectionV) -> Seq<u8> {
        framed(section_id(v), section_payload(v))
    }

    open spec fn is_writable(v: ModuleSectionV) -> bool {
        section_is_writable(v)
    }

    proof fn lemma_positive(v: ModuleSectionV) {
    }

    fn measure(&self) -> (r: Option<u64>) {
        match section_len(self) {
            Some(n) => within(1 + leb128_len(n) as u128 + n as u128),
            None => None,
        }
    }
}

fn payload_len(count: usize, items: Option<u64>) -> (r: Option<u64>)
    ensures
        match items {
            Some(n) => match r {
                Some(m) => m == leb128(count as nat).len() + n && m <= u32::MAX,
                None => leb128(count as nat).len() + n > u32::MAX,
            },
            None => r is None,
        },
{
    match items {
        Some(n) => within(leb128_len(count as u64) as u128 + n as u128),
        None => None,
    }
}

/// How many bytes the contents of a section of a module take, if they can be written and a
/// section can be that large.
fn section_len<'a>(section: &ModuleSection<'a>) -> (r: Option<u64>)
    ensures
        match r {
            Some(n) => section_is_writable(section@) && n == section_payload(section@).len() && n
                <= u32::MAX,
            None => !section_is_writable(section@) || section_payload(section@).len() > u32::MAX,
        },
{
    match section {
        ModuleSection::Raw { id, data } => within(data.len() as u128),
        ModuleSection::Types(items) => payload_len(items.len(), measure_all(items)),
        ModuleSection::Imports(items) => payload_len(items.len(), measure_all(items)),
        ModuleSection::Functions(items) => payload_len(items.len(), measure_all(items)),
        ModuleSection::Globals(items) => payload_len(items.len(), measure_all(items)),
        ModuleSection::Exports(items) => payload_len(items.len(), measure_all(items)),
        ModuleSection::Elements(items) => payload_len(items.len(), measure_all(items)),
        ModuleSection::DataCount(count) => Some(leb128_len(*count as u64)),
        ModuleSection::Code(items) => payload_len(items.len(), measure_all(items)),
        ModuleSection::Data(items) => payload_len(items.len(), measure_all(items)),
        ModuleSection::Custom { name, content } => within(text_len(name) + content.len() as u128),
    }
}

/// The bytes of a module of these sections.
pub open spec fn module_bytes(sections: Seq<ModuleSectionV>) -> Seq<u8> {
    module_header() + all_bytes::<ModuleSection>(sections)
}

/// The id of a section of a component.
pub open spec fn component_section_id(s: ComponentSectionV) -> u8 {
    match s {
        ComponentSectionV::Raw { id, .. } => id,
        ComponentSectionV::Module(_) => 1,
        ComponentSectionV::Instances(_) => 2,
        ComponentSectionV::Types(_) => 7,
        ComponentSectionV::Aliases(_) => 6,
        ComponentSectionV::Lifts(_) => 8,
        ComponentSectionV::Exports(_) => 11,
    }
}

/// The contents of a section of a component.
pub open spec fn component_section_payload(s: ComponentSectionV) -> Seq<u8> {
    match s {
        ComponentSectionV::Raw { data, .. } => data,
        ComponentSectionV::Module(sections) => module_bytes(sections),
        ComponentSectionV::Instances(items) => filling_payload(filled_with::<Instantiation>(items)),
        ComponentSectionV::Types(items) => filling_payload(filled_with::<ComponentType>(items)),
        ComponentSectionV::Aliases(items) => filling_payload(filled_with::<CoreAlias>(items)),
        ComponentSectionV::Lifts(items) => filling_payload(filled_with::<Lift>(items)),
        ComponentSectionV::Exports(items) => filling_payload(filled_with::<FuncExport>(items)),
    }
}

/// Every item of a section of a component can be written.
pub open spec fn component_section_is_writable(s: ComponentSectionV) -> bool {
    match s {
        ComponentSectionV::Module(sections) => all_writable::<ModuleSection>(sections),
        _ => true,
    }
}

impl<'a> Encoded for ComponentSection<'a> {
    open spec fn bytes_of(v: ComponentSectionV) -> Seq<u8> {
        framed(component_section_id(v), component_section_payload(v))
    }

    open spec fn is_writable(v: ComponentSectionV) -> bool {
        component_section_is_writable(v)
    }

    proof fn lemma_positive(v: ComponentSectionV) {
    }

    fn measure(&self) -> (r: Option<u64>) {
        match component_section_len(self) {
            Some(n) => within(1 + leb128_len(n) as u128 + n as u128),
            None => None,
        }
    }
}

/// How many bytes the contents of a section of a component take, if they can be written and
/// a section can be that large.
fn component_section_len<'a>(section: &ComponentSection<'a>) -> (r: Option<u64>)
    ensures
        match r {
            Some(n) => component_section_is_writable(section@) && n == component_section_payload(
                section@,
            ).len() && n <= u32::MAX,
            None => !component_section_is_writable(section@) || component_section_payload(
                section@,
            ).len() > u32::MAX,
        },
{
    match section {
        ComponentSection::Raw { id, data } => within(data.len() as u128),
        ComponentSection::Module(sections) => match measure_all(sections) {
            Some(n) => within(8 + n as u128),
            None => None,
        },
        ComponentSection::Instances(items) => payload_len(items.len(), measure_all(items)),
        ComponentSection::Types(items) => payload_len(items.len(), measure_all(items)),
        ComponentSection::Aliases(items) => payload_len(items.len(), measure_all(items)),
        ComponentSection::Lifts(items) => payload_len(items.len(), measure_all(items)),
        ComponentSection::Exports(items) => payload_len(items.len(), measure_all(items)),
    }
}

/// The bytes of a component of these sections.
pub open spec fn component_bytes(sections: Seq<ComponentSectionV>) -> Seq<u8> {
    component_header() + all_bytes::<ComponentSection>(sections)
}

// Sections from plain values.

fn build_types(items: &Vec<FuncType>) -> (section: wasm_encoder::TypeSection)
    requires
        all_bytes::<FuncType>(views(items@)).len() <= u32::MAX,
    ensures
        type_filling(section) == filled_with::<FuncType>(views(items@)),
{
    let ghost all = views(items@);
    let mut section = new_types();
    let mut i: usize = 0;
    proof {
        lemma_all::<FuncType>(all);
        assert(filled_with::<FuncType>(all.take(0)) == unfilled());
    }
    while i < items.len()
        invariant
            i <= items.len(),
            all == views(items@),
            all.len() <= u32::MAX,
            forall|j: int|
                0 <= j < all.len() ==> FuncType::bytes_of(#[trigger] all[j]).len() <= u32::MAX,
            type_filling(section) == filled_with::<FuncType>(all.take(i as int)),
        decreases items.len() - i,
    {
        proof {
            lemma_one_more::<FuncType>(all, i as int);
            assert(all[i as int] == items@[i as int]@);
        }
        push_type(&mut section, &items[i]);
        i += 1;
    }
    assert(all.take(i as int) =~= all);
    section
}

fn build_imports(items: &Vec<Import>) -> (section: wasm_encoder::ImportSection)
    requires
        all_bytes::<Import>(views(items@)).len() <= u32::MAX,
    ensures
        import_filling(section) == filled_with::<Import>(views(items@)),
{
    let ghost all = views(items@);
    let mut section = new_imports();
    let mut i: usize = 0;
    proof {
        lemma_all::<Import>(all);
        assert(filled_with::<Import>(all.take(0)) == unfilled());
    }
    while i < items.len()
        invariant
            i <= items.len(),
            all == views(items@),
            all.len() <= u32::MAX,
            forall|j: int|
                0 <= j < all.len() ==> Import::bytes_of(#[trigger] all[j]).len() <= u32::MAX,
            import_filling(section) == filled_with::<Import>(all.take(i as int)),
        decreases items.len() - i,
    {
        proof {
            lemma_one_more::<Import>(all, i as int);
            assert(all[i as int] == items@[i as int]@);
        }
        push_import(&mut section, &items[i]);
        i += 1;
    }
    assert(all.take(i as int) =~= all);
    section
}

fn build_functions(items: &Vec<u32>) -> (section: wasm_encoder::FunctionSection)
    requires
        all_bytes::<u32>(views(items@)).len() <= u32::MAX,
    ensures
        function_filling(section) == filled_with::<u32>(views(items@)),
{
    let ghost all = views(items@);
    let mut section = new_functions();
    let mut i: usize = 0;
    proof {
        lemma_all::<u32>(all);
        assert(filled_with::<u32>(all.take(0)) == unfilled());
    }
    while i < items.len()
        invariant
            i <= items.len(),
            all == views(items@),
            all.len() <= u32::MAX,
            forall|j: int|
                0 <= j < all.len() ==> u32::bytes_of(#[trigger] all[j]).len() <= u32::MAX,
            function_filling(section) == filled_with::<u32>(all.take(i as int)),
        decreases items.len() - i,
    {
        proof {
            lemma_one_more::<u32>(all, i as int);
            assert(all[i as int] == items@[i as int]@);
        }
        push_function(&mut section, items[i]);
        i += 1;
    }
    assert(all.take(i as int) =~= all);
    section
}

fn build_globals(items: &Vec<Global>) -> (section: wasm_encoder::GlobalSection)
    requires
        all_bytes::<Global>(views(items@)).len() <= u32::MAX,
    ensures
        global_filling(section) == filled_with::<Global>(views(items@)),
{
    let ghost all = views(items@);
    let mut section = new_globals();
    let mut i: usize = 0;
    proof {
        lemma_all::<Global>(all);
        assert(filled_with::<Global>(all.take(0)) == unfilled());
    }
    while i < items.len()
        invariant
            i <= items.len(),
            all == views(items@),
            all.len() <= u32::MAX,
            forall|j: int|
                0 <= j < all.len() ==> Global::bytes_of(#[trigger] all[j]).len() <= u32::MAX,
            global_filling(section) == filled_with::<Global>(all.take(i as int)),
        decreases items.len() - i,
    {
        proof {
            lemma_one_more::<Global>(all, i as int);
            assert(all[i as int] == items@[i as int]@);
        }
        push_global(&mut section, &items[i]);
        i += 1;
    }
    assert(all.take(i as int) =~= all);
    section
}

fn build_exports(items: &Vec<Export>) -> (section: wasm_encoder::ExportSection)
    requires
        all_bytes::<Export>(views(items@)).len() <= u32::MAX,
    ensures
        export_filling(section) == filled_with::<Export>(views(items@)),
{
    let ghost all = views(items@);
    let mut section = new_exports();
    let mut i: usize = 0;
    proof {
        lemma_all::<Export>(all);
        assert(filled_with::<Export>(all.take(0)) == unfilled());
    }
    while i < items.len()
        invariant
            i <= items.len(),
            all == views(items@),
            all.len() <= u32::MAX,
            forall|j: int|
                0 <= j < all.len() ==> Export::bytes_of(#[trigger] all[j]).len() <= u32::MAX,
            export_filling(section) == filled_with::<Export>(all.take(i as int)),
        decreases items.len() - i,
    {
        proof {
            lemma_one_more::<Export>(all, i as int);
            assert(all[i as int] == items@[i as int]@);
        }
        push_export(&mut section, &items[i]);
        i += 1;
    }
    assert(all.take(i as int) =~= all);
    section
}

fn build_elements(items: &Vec<ElementSegment>) -> (section: wasm_encoder::ElementSection)
    requires
        all_bytes::<ElementSegment>(views(items@)).len() <= u32::MAX,
    ensures
        element_filling(section) == filled_with::<ElementSegment>(views(items@)),
{
    let ghost all = views(items@);
    let mut section = new_elements();
    let mut i: usize = 0;
    proof {
        lemma_all::<ElementSegment>(all);
        assert(filled_with::<ElementSegment>(all.take(0)) == unfilled());
    }
    while i < items.len()
        invariant
            i <= items.len(),
            all == views(items@),
            all.len() <= u32::MAX,
            forall|j: int|
                0 <= j < all.len() ==> ElementSegment::bytes_of(#[trigger] all[j]).len() <= u32::MAX,
            element_filling(section) == filled_with::<ElementSegment>(all.take(i as int)),
        decreases items.len() - i,
    {
        proof {
            lemma_one_more::<ElementSegment>(all, i as int);
            assert(all[i as int] == items@[i as int]@);
        }
        push_element(&mut section, &items[i]);
        i += 1;
    }
    assert(all.take(i as int) =~= all);
    section
}

fn build_body(item: &Body) -> (body: wasm_encoder::Function)
    requires
        Body::is_writable(item@),
    ensures
        body_content(body) == body_bytes(item@),
{
    let mut body = new_body(&item.locals);
    push_code(&mut body, &item.code);
    let ghost start = locals_bytes(item.locals@) + item.code@;
    let ghost all = item.instructions@;
    let mut i: usize = 0;
    assert(body_content(body) =~= start + instructions_bytes(all.take(0)));
    while i < item.instructions.len()
        invariant
            i <= item.instructions.len(),
            all == item.instructions@,
            body_content(body) == start + instructions_bytes(all.take(i as int)),
        decreases item.instructions.len() - i,
    {
        push_instruction(&mut body, item.instructions[i]);
        proof {
            let next = all.take(i + 1);
            assert(next.drop_last() =~= all.take(i as int));
            assert(body_content(body) =~= start + instructions_bytes(next));
        }
        i += 1;
    }
    assert(all.take(i as int) =~= all);
    body
}

fn build_code(items: &Vec<Body>) -> (section: wasm_encoder::CodeSection)
    requires
        all_bytes::<Body>(views(items@)).len() <= u32::MAX,
        all_writable::<Body>(views(items@)),
    ensures
        code_filling(section) == filled_with::<Body>(views(items@)),
{
    let ghost all = views(items@);
    let mut section = new_code();
    let mut i: usize = 0;
    proof {
        lemma_all::<Body>(all);
        assert(filled_with::<Body>(all.take(0)) == unfilled());
    }
    while i < items.len()
        invariant
            i <= items.len(),
            all == views(items@),
            all.len() <= u32::MAX,
            all_writable::<Body>(all),
            forall|j: int|
                0 <= j < all.len() ==> Body::bytes_of(#[trigger] all[j]).len() <= u32::MAX,
            code_filling(section) == filled_with::<Body>(all.take(i as int)),
        decreases items.len() - i,
    {
        proof {
            lemma_one_more::<Body>(all, i as int);
            assert(all[i as int] == items@[i as int]@);
        }
        let body = build_body(&items[i]);
        push_body(&mut section, &body);
        i += 1;
    }
    assert(all.take(i as int) =~= all);
    section
}

fn build_data<'a>(items: &Vec<DataSegment<'a>>) -> (section: wasm_encoder::DataSection)
    requires
        all_bytes::<DataSegment>(views(items@)).len() <= u32::MAX,
    ensures
        data_filling(section) == filled_with::<DataSegment>(views(items@)),
{
    let ghost all = views(items@);
    let mut section = new_data();
    let mut i: usize = 0;
    proof {
        lemma_all::<DataSegment>(all);
        assert(filled_with::<DataSegment>(all.take(0)) == unfilled());
    }
    while i < items.len()
        invariant
            i <= items.len(),
            all == views(items@),
            all.len() <= u32::MAX,
            forall|j: int|
                0 <= j < all.len() ==> DataSegment::bytes_of(#[trigger] all[j]).len() <= u32::MAX,
            data_filling(section) == filled_with::<DataSegment>(all.take(i as int)),
        decreases items.len() - i,
    {
        proof {
            lemma_one_more::<DataSegment>(all, i as int);
            assert(all[i as int] == items@[i as int]@);
        }
        push_data(&mut section, &items[i]);
        i += 1;
    }
    assert(all.take(i as int) =~= all);
    section
}

fn build_section<'a>(section: &'a ModuleSection<'a>) -> (built: BuiltSection<'a>)
    requires
        section_is_writable(section@),
        section_payload(section@).len() <= u32::MAX,
    ensures
        built.id() == section_id(section@),
        built.payload() == section_payload(section@),
{
    match section {
        ModuleSection::Raw { id, data } => BuiltSection::Raw { id: *id, data },
        ModuleSection::Types(items) => BuiltSection::Types(build_types(items)),
        ModuleSection::Imports(items) => BuiltSection::Imports(build_imports(items)),
        ModuleSection::Functions(items) => BuiltSection::Functions(build_functions(items)),
        ModuleSection::Globals(items) => BuiltSection::Globals(build_globals(items)),
        ModuleSection::Exports(items) => BuiltSection::Exports(build_exports(items)),
        ModuleSection::Elements(items) => BuiltSection::Elements(build_elements(items)),
        ModuleSection::DataCount(count) => BuiltSection::DataCount(
            wasm_encoder::DataCountSection { count: *count },
        ),
        ModuleSection::Code(items) => BuiltSection::Code(build_code(items)),
        ModuleSection::Data(items) => BuiltSection::Data(build_data(items)),
        ModuleSection::Custom { name, content } => BuiltSection::Custom {
            name: name.as_str(),
            data: content.as_slice(),
        },
    }
}

/// A section is too large to be encoded.
#[derive(Clone, Copy, Debug, PartialEq, Eq, Structural)]
pub struct TooLarge;

/// The size of every section of a module, and every number in it, can be written.
pub open spec fn module_fits(sections: Seq<ModuleSectionV>) -> bool {
    forall|j: int|
        0 <= j < sections.len() ==> section_is_writable(#[trigger] sections[j])
            && section_payload(sections[j]).len() <= u32::MAX
}

/// The size of every section of a component, and every number in it, can be written.
pub open spec fn component_fits(sections: Seq<ComponentSectionV>) -> bool {
    forall|j: int|
        0 <= j < sections.len() ==> component_section_is_writable(#[trigger] sections[j])
            && component_section_payload(sections[j]).len() <= u32::MAX
}

fn build_module<'a>(sections: &'a Vec<ModuleSection<'a>>) -> (module: wasm_encoder::Module)
    requires
        module_fits(views(sections@)),
    ensures
        module_content(module) == module_bytes(views(sections@)),
{
    let ghost all = views(sections@);
    let mut module = new_module();
    let mut i: usize = 0;
    assert(module_content(module) =~= module_bytes(all.take(0)));
    while i < sections.len()
        invariant
            i <= sections.len(),
            all == views(sections@),
            module_fits(all),
            module_content(module) == module_bytes(all.take(i as int)),
        decreases sections.len() - i,
    {
        proof {
            lemma_one_more::<ModuleSection>(all, i as int);
            assert(all[i as int] == sections@[i as int]@);
        }
        let built = build_section(&sections[i]);
        push_module_section(&mut module, &built);
        assert(module_content(module) =~= module_bytes(all.take(i + 1)));
        i += 1;
    }
    assert(all.take(i as int) =~= all);
    module
}

/// The bytes of the module with the given sections.
pub fn encode_module<'a>(sections: &'a Vec<ModuleSection<'a>>) -> (r: Result<Vec<u8>, TooLarge>)
    ensures
        match r {
            Ok(bytes) => module_fits(views(sections@)) && bytes@ == module_bytes(views(sections@)),
            Err(_) => !module_fits(views(sections@)),
        },
{
    let ghost all = views(sections@);
    let mut i: usize = 0;
    while i < sections.len()
        invariant
            i <= sections.len(),
            all == views(sections@),
            forall|j: int|
                0 <= j < i ==> section_is_writable(#[trigger] all[j]) && section_payload(
                    all[j],
                ).len() <= u32::MAX,
        decreases sections.len() - i,
    {
        assert(all[i as int] == sections@[i as int]@);
        if section_len(&sections[i]).is_none() {
            assert(!module_fits(all));
            return Err(TooLarge);
        }
        i += 1;
    }
    Ok(finish_module(build_module(sections)))
}

/// A module that fits into a section has sections that fit.
proof fn lemma_module_fits(sections: Seq<ModuleSectionV>)
    requires
        all_writable::<ModuleSection>(sections),
        module_bytes(sections).len() <= u32::MAX,
    ensures
        module_fits(sections),
{
    lemma_all::<ModuleSection>(sections);
    assert forall|j: int| 0 <= j < sections.len() implies section_is_writable(
        #[trigger] sections[j],
    ) && section_payload(sections[j]).len() <= u32::MAX by {
        assert(ModuleSection::is_writable(sections[j]));
        assert(ModuleSection::bytes_of(sections[j]).len() <= all_bytes::<ModuleSection>(
            sections,
        ).len());
    }
}

fn build_instances(items: &Vec<Instantiation>) -> (section: wasm_encoder::InstanceSection)
    requires
        all_bytes::<Instantiation>(views(items@)).len() <= u32::MAX,
    ensures
        instance_filling(section) == filled_with::<Instantiation>(views(items@)),
{
    let ghost all = views(items@);
    let mut section = new_instances();
    let mut i: usize = 0;
    proof {
        lemma_all::<Instantiation>(all);
        assert(filled_with::<Instantiation>(all.take(0)) == unfilled());
    }
    while i < items.len()
        invariant
            i <= items.len(),
            all == views(items@),
            all.len() <= u32::MAX,
            forall|j: int|
                0 <= j < all.len() ==> Instantiation::bytes_of(#[trigger] all[j]).len() <= u32::MAX,
            instance_filling(section) == filled_with::<Instantiation>(all.take(i as int)),
        decreases items.len() - i,
    {
        proof {
            lemma_one_more::<Instantiation>(all, i as int);
            assert(all[i as int] == items@[i as int]@);
        }
        push_instance(&mut section, &items[i]);
        i += 1;
    }
    assert(all.take(i as int) =~= all);
    section
}

fn build_component_types(items: &Vec<ComponentType>) -> (section:
    wasm_encoder::ComponentTypeSection)
    requires
        all_bytes::<ComponentType>(views(items@)).len() <= u32::MAX,
    ensures
        component_type_filling(section) == filled_with::<ComponentType>(views(items@)),
{
    let ghost all = views(items@);
    let mut section = new_component_types();
    let mut i: usize = 0;
    proof {
        lemma_all::<ComponentType>(all);
        assert(filled_with::<ComponentType>(all.take(0)) == unfilled());
    }
    while i < items.len()
        invariant
            i <= items.len(),
            all == views(items@),
            all.len() <= u32::MAX,
            forall|j: int|
                0 <= j < all.len() ==> ComponentType::bytes_of(#[trigger] all[j]).len() <= u32::MAX,
            component_type_filling(section) == filled_with::<ComponentType>(all.take(i as int)),
        decreases items.len() - i,
    {
        proof {
            lemma_one_more::<ComponentType>(all, i as int);
            assert(all[i as int] == items@[i as int]@);
        }
        push_component_type(&mut section, items[i]);
        i += 1;
    }
    assert(all.take(i as int) =~= all);
    section
}

fn build_aliases(items: &Vec<CoreAlias>) -> (section: wasm_encoder::ComponentAliasSection)
    requires
        all_bytes::<CoreAlias>(views(items@)).len() <= u32::MAX,
    ensures
        alias_filling(section) == filled_with::<CoreAlias>(views(items@)),
{
    let ghost all = views(items@);
    let mut section = new_aliases();
    let mut i: usize = 0;
    proof {
        lemma_all::<CoreAlias>(all);
        assert(filled_with::<CoreAlias>(all.take(0)) == unfilled());
    }
    while i < items.len()
        invariant
            i <= items.len(),
            all == views(items@),
            all.len() <= u32::MAX,
            forall|j: int|
                0 <= j < all.len() ==> CoreAlias::bytes_of(#[trigger] all[j]).len() <= u32::MAX,
            alias_filling(section) == filled_with::<CoreAlias>(all.take(i as int)),
        decreases items.len() - i,
    {
        proof {
            lemma_one_more::<CoreAlias>(all, i as int);
            assert(all[i as int] == items@[i as int]@);
        }
        push_alias(&mut section, &items[i]);
        i += 1;
    }
    assert(all.take(i as int) =~= all);
    section
}

fn build_lifts(items: &Vec<Lift>) -> (section: wasm_encoder::CanonicalFunctionSection)
    requires
        all_bytes::<Lift>(views(items@)).len() <= u32::MAX,
    ensures
        lift_filling(section) == filled_with::<Lift>(views(items@)),
{
    let ghost all = views(items@);
    let mut section = new_lifts();
    let mut i: usize = 0;
    proof {
        lemma_all::<Lift>(all);
        assert(filled_with::<Lift>(all.take(0)) == unfilled());
    }
    while i < items.len()
        invariant
            i <= items.len(),
            all == views(items@),
            all.len() <= u32::MAX,
            forall|j: int|
                0 <= j < all.len() ==> Lift::bytes_of(#[trigger] all[j]).len() <= u32::MAX,
            lift_filling(section) == filled_with::<Lift>(all.take(i as int)),
        decreases items.len() - i,
    {
        proof {
            lemma_one_more::<Lift>(all, i as int);
            assert(all[i as int] == items@[i as int]@);
        }
        push_lift(&mut section, items[i]);
        i += 1;
    }
    assert(all.take(i as int) =~= all);
    section
}

fn build_component_exports(items: &Vec<FuncExport>) -> (section:
    wasm_encoder::ComponentExportSection)
    requires
        all_bytes::<FuncExport>(views(items@)).len() <= u32::MAX,
    ensures
        component_export_filling(section) == filled_with::<FuncExport>(views(items@)),
{
    let ghost all = views(items@);
    let mut section = new_component_exports();
    let mut i: usize = 0;
    proof {
        lemma_all::<FuncExport>(all);
        assert(filled_with::<FuncExport>(all.take(0)) == unfilled());
    }
    while i < items.len()
        invariant
            i <= items.len(),
            all == views(items@),
            all.len() <= u32::MAX,
            forall|j: int|
                0 <= j < all.len() ==> FuncExport::bytes_of(#[trigger] all[j]).len() <= u32::MAX,
            component_export_filling(section) == filled_with::<FuncExport>(all.take(i as int)),
        decreases items.len() - i,
    {
        proof {
            lemma_one_more::<FuncExport>(all, i as int);
            assert(all[i as int] == items@[i as int]@);
        }
        push_component_export(&mut section, &items[i]);
        i += 1;
    }
    assert(all.take(i as int) =~= all);
    section
}

fn build_component_section<'a>(section: &'a ComponentSection<'a>) -> (built: BuiltComponentSection<
    'a,
>)
    requires
        component_section_is_writable(section@),
        component_section_payload(section@).len() <= u32::MAX,
    ensures
        built.id() == component_section_id(section@),
        built.payload() == component_section_payload(section@),
{
    match section {
        ComponentSection::Raw { id, data } => BuiltComponentSection::Raw { id: *id, data },
        ComponentSection::Module(sections) => {
            proof {
                lemma_module_fits(views(sections@));
            }
            BuiltComponentSection::Module(build_module(sections))
        },
        ComponentSection::Instances(items) => BuiltComponentSection::Instances(
            build_instances(items),
        ),
        ComponentSection::Types(items) => BuiltComponentSection::Types(
            build_component_types(items),
        ),
        ComponentSection::Aliases(items) => BuiltComponentSection::Aliases(build_aliases(items)),
        ComponentSection::Lifts(items) => BuiltComponentSection::Lifts(build_lifts(items)),
        ComponentSection::Exports(items) => BuiltComponentSection::Exports(
            build_component_exports(items),
        ),
    }
}

/// The bytes of the component with the given sections.
pub fn encode_component<'a>(sections: &'a Vec<ComponentSection<'a>>) -> (r: Result<
    Vec<u8>,
    TooLarge,
>)
    ensures
        match r {
            Ok(bytes) => component_fits(views(sections@)) && bytes@ == component_bytes(
                views(sections@),
            ),
            Err(_) => !component_fits(views(sections@)),
        },
{
    let ghost all = views(sections@);
    let mut component = new_component();
    let mut i: usize = 0;
    assert(component_content(component) =~= component_bytes(all.take(0)));
    while i < sections.len()
        invariant
            i <= sections.len(),
            all == views(sections@),
            forall|j: int|
                0 <= j < i ==> component_section_is_writable(#[trigger] all[j])
                    && component_section_payload(all[j]).len() <= u32::MAX,
            component_content(component) == component_bytes(all.take(i as int)),
        decreases sections.len() - i,
    {
        proof {
            lemma_one_more::<ComponentSection>(all, i as int);
            assert(all[i as int] == sections@[i as int]@);
        }
        if component_section_len(&sections[i]).is_none() {
            assert(!component_fits(all));
            return Err(TooLarge);
        }
        let built = build_component_section(&sections[i]);
        push_component_section(&mut component, &built);
        assert(component_content(component) =~= component_bytes(all.take(i + 1)));
        i += 1;
    }
    assert(all.take(i as int) =~= all);
    Ok(finish_component(component))
}

} // verus!
