//! How numbers, texts, and the items of sections are written in a binary.
use vstd::prelude::*;
use vstd::utf8::encode_utf8;
use crate::wasm::{
    BodyV, ComponentType, ConstExprV, CoreAliasV, DataSegmentV, ElementSegmentV, EntityType,
    ExportV, ExternKind, FuncExportV, FuncTypeV, GlobalType, GlobalV, ImportV, InstanceArgV,
    InstantiationV, Instruction, Lift, MemArg, PrimitiveType, ValueType,
};

verus! {

/// A number in groups of seven bits, the lowest first, each group but the last with the
/// eighth bit set.
pub open spec fn leb128(n: nat) -> Seq<u8>
    decreases n,
{
    if n < 128 {
        seq![n as u8]
    } else {
        seq![(n % 128 + 128) as u8] + leb128(n / 128)
    }
}

/// A number with a sign in the same way; the last group ends with the sign.
pub open spec fn sleb128(n: int) -> Seq<u8>
    decreases
            if n < 0 {
                -n
            } else {
                n
            },
{
    if -64 <= n < 64 {
        seq![(n % 128) as u8]
    } else {
        seq![(n % 128 + 128) as u8] + sleb128(n / 128)
    }
}

/// The bytes of a text in UTF-8.
pub open spec fn text_size(s: Seq<char>) -> nat {
    encode_utf8(s).len()
}

/// A text as a length and that many bytes.
pub open spec fn encoded_text(s: Seq<char>) -> Seq<u8> {
    leb128(text_size(s)) + encode_utf8(s)
}

/// Bytes, with their number in front.
pub open spec fn encoded_bytes(b: Seq<u8>) -> Seq<u8> {
    leb128(b.len()) + b
}

/// The byte of a type of values.
pub open spec fn value_type_byte(ty: ValueType) -> u8 {
    match ty {
        ValueType::I32 => 0x7f,
        ValueType::I64 => 0x7e,
        ValueType::F32 => 0x7d,
        ValueType::F64 => 0x7c,
        ValueType::V128 => 0x7b,
    }
}

/// Types of values, with their number in front.
pub open spec fn value_types_bytes(types: Seq<ValueType>) -> Seq<u8> {
    encoded_bytes(Seq::new(types.len(), |k: int| value_type_byte(types[k])))
}

/// A function type.
pub open spec fn type_bytes(ty: FuncTypeV) -> Seq<u8> {
    seq![0x60u8] + value_types_bytes(ty.params) + value_types_bytes(ty.results)
}

/// The type of a global.
pub open spec fn global_type_bytes(ty: GlobalType) -> Seq<u8> {
    seq![value_type_byte(ty.val_type), if ty.mutable { 1u8 } else { 0u8 }]
}

/// The bits that say which parts a memory type has.
pub open spec fn memory_flags(maximum: bool, shared: bool, memory64: bool) -> u8 {
    ((if maximum { 1int } else { 0 }) + (if shared { 2int } else { 0 }) + (if memory64 {
        4int
    } else {
        0
    })) as u8
}

/// What an import asks for.
pub open spec fn entity_bytes(ty: EntityType) -> Seq<u8> {
    match ty {
        EntityType::Function(index) => seq![0x00u8] + leb128(index as nat),
        EntityType::Table(ty) => match ty.maximum {
            Some(max) => seq![0x01u8, 0x70, 0x01] + leb128(ty.minimum as nat) + leb128(max as nat),
            None => seq![0x01u8, 0x70, 0x00] + leb128(ty.minimum as nat),
        },
        EntityType::Memory(ty) => {
            let flags = memory_flags(ty.maximum is Some, ty.shared, ty.memory64);
            match ty.maximum {
                Some(max) => seq![0x02u8, flags] + leb128(ty.minimum as nat) + leb128(max as nat),
                None => seq![0x02u8, flags] + leb128(ty.minimum as nat),
            }
        },
        EntityType::Global(ty) => seq![0x03u8] + global_type_bytes(ty),
    }
}

/// An import.
pub open spec fn import_bytes(item: ImportV) -> Seq<u8> {
    encoded_text(item.module) + encoded_text(item.name) + entity_bytes(item.ty)
}

/// A constant expression, with its `end`.
pub open spec fn constant_bytes(e: ConstExprV) -> Seq<u8> {
    match e {
        ConstExprV::I32(n) => seq![0x41u8] + sleb128(n as int) + seq![0x0bu8],
        ConstExprV::I64(n) => seq![0x42u8] + sleb128(n as int) + seq![0x0bu8],
        ConstExprV::GlobalGet(index) => seq![0x23u8] + leb128(index as nat) + seq![0x0bu8],
        ConstExprV::Raw(code) => code + seq![0x0bu8],
    }
}

/// A global.
pub open spec fn global_bytes(item: GlobalV) -> Seq<u8> {
    global_type_bytes(item.ty) + constant_bytes(item.init)
}

/// The byte of what an export names.
pub open spec fn kind_byte(kind: ExternKind) -> u8 {
    match kind {
        ExternKind::Func => 0,
        ExternKind::Table => 1,
        ExternKind::Memory => 2,
        ExternKind::Global => 3,
        ExternKind::Tag => 4,
    }
}

/// An export.
pub open spec fn export_bytes(item: ExportV) -> Seq<u8> {
    encoded_text(item.name) + seq![kind_byte(item.kind)] + leb128(item.index as nat)
}

/// Indices, one after the other.
pub open spec fn indices_bytes(items: Seq<u32>) -> Seq<u8>
    decreases items.len(),
{
    if items.len() == 0 {
        seq![]
    } else {
        indices_bytes(items.drop_last()) + leb128(items.last() as nat)
    }
}

/// An active segment of functions.
pub open spec fn element_bytes(item: ElementSegmentV) -> Seq<u8> {
    seq![0x02u8] + leb128(item.table as nat) + constant_bytes(
        ConstExprV::GlobalGet(item.offset_global),
    ) + seq![0x00u8] + leb128(item.functions.len()) + indices_bytes(item.functions)
}

/// Locals of one type that follow one another.
#[derive(Clone, Copy, Debug, PartialEq, Eq)]
pub struct LocalRun {
    pub count: u32,
    pub ty: ValueType,
}

/// Locals by runs of one type.
pub open spec fn local_runs(locals: Seq<ValueType>) -> Seq<LocalRun>
    decreases locals.len(),
{
    if locals.len() == 0 {
        seq![]
    } else {
        let rest = local_runs(locals.drop_last());
        let ty = locals.last();
        if rest.len() > 0 && rest.last().ty == ty {
            rest.drop_last().push(LocalRun { count: (rest.last().count + 1) as u32, ty })
        } else {
            rest.push(LocalRun { count: 1, ty })
        }
    }
}

/// Runs of locals, one after the other.
pub open spec fn runs_bytes(runs: Seq<LocalRun>) -> Seq<u8>
    decreases runs.len(),
{
    if runs.len() == 0 {
        seq![]
    } else {
        runs_bytes(runs.drop_last()) + leb128(runs.last().count as nat) + seq![
            value_type_byte(runs.last().ty),
        ]
    }
}

/// The locals that a body starts with.
pub open spec fn locals_bytes(locals: Seq<ValueType>) -> Seq<u8> {
    leb128(local_runs(locals).len()) + runs_bytes(local_runs(locals))
}

/// The immediate of a memory instruction.
pub open spec fn mem_arg_bytes(arg: MemArg) -> Seq<u8> {
    if arg.memory_index == 0 {
        leb128(arg.align as nat) + leb128(arg.offset as nat)
    } else {
        leb128((arg.align | 64) as nat) + leb128(arg.memory_index as nat) + leb128(
            arg.offset as nat,
        )
    }
}

/// An instruction.
pub open spec fn instruction_bytes(item: Instruction) -> Seq<u8> {
    match item {
        Instruction::GlobalGet(n) => seq![0x23u8] + leb128(n as nat),
        Instruction::LocalGet(n) => seq![0x20u8] + leb128(n as nat),
        Instruction::LocalTee(n) => seq![0x22u8] + leb128(n as nat),
        Instruction::I32Const(n) => seq![0x41u8] + sleb128(n as int),
        Instruction::I32Sub => seq![0x6bu8],
        Instruction::I32Mul => seq![0x6cu8],
        Instruction::I32Store(arg) => seq![0x36u8] + mem_arg_bytes(arg),
        Instruction::MemorySize(n) => seq![0x3fu8] + leb128(n as nat),
        Instruction::CallIndirect { ty, table } => seq![0x11u8] + leb128(ty as nat) + leb128(
            table as nat,
        ),
        Instruction::End => seq![0x0bu8],
    }
}

/// Instructions, one after the other.
pub open spec fn instructions_bytes(items: Seq<Instruction>) -> Seq<u8>
    decreases items.len(),
{
    if items.len() == 0 {
        seq![]
    } else {
        instructions_bytes(items.drop_last()) + instruction_bytes(items.last())
    }
}

/// A body, without its size.
pub open spec fn body_bytes(item: BodyV) -> Seq<u8> {
    locals_bytes(item.locals) + item.code + instructions_bytes(item.instructions)
}

/// An active data segment for the first memory.
pub open spec fn data_bytes(item: DataSegmentV) -> Seq<u8> {
    seq![0x00u8] + constant_bytes(ConstExprV::I32(item.address)) + encoded_bytes(item.data)
}

/// An argument of an instantiation.
pub open spec fn instance_arg_bytes(item: InstanceArgV) -> Seq<u8> {
    encoded_text(item.name) + seq![0x12u8] + leb128(item.instance as nat)
}

/// Arguments, one after the other.
pub open spec fn instance_args_bytes(items: Seq<InstanceArgV>) -> Seq<u8>
    decreases items.len(),
{
    if items.len() == 0 {
        seq![]
    } else {
        instance_args_bytes(items.drop_last()) + instance_arg_bytes(items.last())
    }
}

/// A core instance of a module.
pub open spec fn instance_bytes(item: InstantiationV) -> Seq<u8> {
    seq![0x00u8] + leb128(item.module as nat) + leb128(item.args.len()) + instance_args_bytes(
        item.args,
    )
}

/// The byte of a primitive type.
pub open spec fn primitive_byte(ty: PrimitiveType) -> u8 {
    match ty {
        PrimitiveType::U8 => 0x7d,
        PrimitiveType::S32 => 0x7a,
        PrimitiveType::S64 => 0x78,
        PrimitiveType::Float32 => 0x76,
        PrimitiveType::Float64 => 0x75,
    }
}

/// A component type.
pub open spec fn component_type_bytes(item: ComponentType) -> Seq<u8> {
    match item {
        ComponentType::List(ty) => seq![0x70u8, primitive_byte(ty)],
        ComponentType::Getter(ty) => seq![0x40u8, 0x00, 0x00, primitive_byte(ty)],
        ComponentType::DefinedGetter(index) => seq![0x40u8, 0x00, 0x00] + sleb128(index as int),
    }
}

/// An alias of an export of a core instance.
pub open spec fn alias_bytes(item: CoreAliasV) -> Seq<u8> {
    seq![0x00u8, kind_byte(item.kind), 0x01] + leb128(item.instance as nat) + encoded_text(
        item.name,
    )
}

/// A lifted function.
pub open spec fn lift_bytes(item: Lift) -> Seq<u8> {
    seq![0x00u8, 0x00] + leb128(item.core_function as nat) + match item.memory {
        Some(memory) => seq![0x02u8, 0x00, 0x03] + leb128(memory as nat),
        None => seq![0x01u8, 0x00],
    } + leb128(item.ty as nat)
}

/// An export of a component function.
pub open spec fn component_export_bytes(item: FuncExportV) -> Seq<u8> {
    seq![0x00u8] + encoded_text(item.name) + seq![0x01u8] + leb128(item.function as nat) + seq![
        0x00u8,
    ]
}

/// A section in a binary: its id, its size, and its contents.
pub open spec fn framed(id: u8, payload: Seq<u8>) -> Seq<u8> {
    seq![id] + encoded_bytes(payload)
}

/// How many bytes a number takes.
pub fn leb128_len(n: u64) -> (len: u64)
    ensures
        len == leb128(n as nat).len(),
        0 < len <= 10,
    decreases n,
{
    proof {
        reveal_with_fuel(leb128, 10);
    }
    if n < 128 {
        1
    } else {
        1 + leb128_len(n / 128)
    }
}

/// How many bytes a number with a sign takes.
pub fn sleb128_len(n: i64) -> (len: u64)
    ensures
        len == sleb128(n as int).len(),
        0 < len <= 10,
    decreases
            if n < 0 {
                -n
            } else {
                n as int
            },
{
    proof {
        reveal_with_fuel(sleb128, 10);
    }
    if -64 <= n && n < 64 {
        1
    } else {
        let rest: i64 = if n >= 0 {
            n / 128
        } else {
            -1 - (-1 - n) / 128
        };
        assert(rest == (n as int) / 128);
        1 + sleb128_len(rest)
    }
}

/// A number takes a byte at least.
pub proof fn lemma_leb128_positive(n: nat)
    ensures
        leb128(n).len() > 0,
{
}

} // verus!
