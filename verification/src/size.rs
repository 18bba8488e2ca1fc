//! How large what is written gets.
//!
//! The binary format gives the size of a section in 32 bits.  How many bytes a section
//! takes is worked out here, item by item, so that one too large to encode is found
//! before it is handed to the encoder.
use vstd::prelude::*;
use crate::format::{
    alias_bytes, body_bytes, component_export_bytes, component_type_bytes, constant_bytes,
    data_bytes, element_bytes, encoded_bytes, encoded_text, entity_bytes, export_bytes,
    global_bytes, import_bytes, indices_bytes, instance_arg_bytes, instance_args_bytes,
    instance_bytes, instruction_bytes, instructions_bytes, leb128, leb128_len,
    lemma_leb128_positive, lift_bytes, local_runs, locals_bytes, mem_arg_bytes, runs_bytes,
    sleb128_len, text_size, type_bytes, value_type_byte, LocalRun,
};
use crate::wasm::{
    lemma_views_take, views, Body, BodyV, ComponentType, ConstExpr, CoreAlias, CoreAliasV,
    DataSegment, DataSegmentV, ElementSegment, ElementSegmentV, EntityType, Export, ExportV,
    FuncExport, FuncExportV, FuncType, FuncTypeV, Global, GlobalV, Import, ImportV, InstanceArg,
    InstanceArgV, Instantiation, InstantiationV, Instruction, Lift, MemArg, ValueType,
};

verus! {

/// What can be written into a binary.
pub trait Encoded: View {
    /// What it is written as.
    spec fn bytes_of(v: Self::V) -> Seq<u8>;

    /// Every number in it that is not a plain value has 32 bits at most.
    spec fn is_writable(v: Self::V) -> bool;

    /// Every item takes some room.
    proof fn lemma_positive(v: Self::V)
        ensures
            Self::bytes_of(v).len() > 0,
    ;

    /// How many bytes it takes, if it can be written and a section can be that large.
    fn measure(&self) -> (r: Option<u64>)
        ensures
            match r {
                Some(n) => Self::is_writable(self@) && n == Self::bytes_of(self@).len() && n
                    <= u32::MAX,
                None => !Self::is_writable(self@) || Self::bytes_of(self@).len() > u32::MAX,
            },
    ;
}

/// What several items are written as.
pub open spec fn all_bytes<T: Encoded>(s: Seq<T::V>) -> Seq<u8>
    decreases s.len(),
{
    if s.len() == 0 {
        seq![]
    } else {
        all_bytes::<T>(s.drop_last()) + T::bytes_of(s.last())
    }
}

/// Every item can be written.
pub open spec fn all_writable<T: Encoded>(s: Seq<T::V>) -> bool {
    forall|i: int| 0 <= i < s.len() ==> T::is_writable(#[trigger] s[i])
}

/// The number, if a section can be that large.
pub fn within(n: u128) -> (r: Option<u64>)
    ensures
        match r {
            Some(m) => m == n && m <= u32::MAX,
            None => n > u32::MAX,
        },
{
    if n <= u32::MAX as u128 {
        Some(n as u64)
    } else {
        None
    }
}

/// How many bytes a text takes, with its length.
pub fn text_len(s: &String) -> (n: u128)
    ensures
        n == encoded_text(s@).len(),
        n <= usize::MAX + 10,
{
    let len: usize = s.as_str().as_bytes().len();
    len as u128 + leb128_len(len as u64) as u128
}

/// The items before a prefix's last one take no more than all of them.
proof fn lemma_all_take<T: Encoded>(s: Seq<T::V>, i: int)
    requires
        0 <= i <= s.len(),
    ensures
        all_bytes::<T>(s.take(i)).len() <= all_bytes::<T>(s).len(),
    decreases s.len() - i,
{
    if i == s.len() {
        assert(s.take(i) =~= s);
    } else {
        lemma_all_take::<T>(s, i + 1);
        assert(s.take(i + 1).drop_last() =~= s.take(i));
    }
}

/// No item takes more than all of them, and there are no more items than bytes.
pub proof fn lemma_all<T: Encoded>(s: Seq<T::V>)
    ensures
        s.len() <= all_bytes::<T>(s).len(),
        forall|i: int|
            0 <= i < s.len() ==> T::bytes_of(#[trigger] s[i]).len() <= all_bytes::<T>(s).len(),
    decreases s.len(),
{
    if s.len() > 0 {
        lemma_all::<T>(s.drop_last());
        T::lemma_positive(s.last());
        assert forall|i: int| 0 <= i < s.len() implies T::bytes_of(#[trigger] s[i]).len()
            <= all_bytes::<T>(s).len() by {
            if i < s.len() - 1 {
                assert(s.drop_last()[i] == s[i]);
            }
        }
    }
}

/// How many bytes several items take.
pub fn measure_all<T: Encoded>(items: &Vec<T>) -> (r: Option<u64>)
    ensures
        match r {
            Some(n) => all_writable::<T>(views(items@)) && n == all_bytes::<T>(
                views(items@),
            ).len() && n <= u32::MAX,
            None => !all_writable::<T>(views(items@)) || all_bytes::<T>(views(items@)).len()
                > u32::MAX,
        },
{
    let ghost all = views(items@);
    let mut total: u64 = 0;
    let mut i: usize = 0;
    while i < items.len()
        invariant
            i <= items.len(),
            all == views(items@),
            total == all_bytes::<T>(all.take(i as int)).len(),
            total <= u32::MAX,
            forall|j: int| 0 <= j < i ==> T::is_writable(#[trigger] all[j]),
        decreases items.len() - i,
    {
        proof {
            lemma_views_take(items@, i as int);
            lemma_all_take::<T>(all, i + 1);
            assert(all[i as int] == items@[i as int]@);
            assert(all.take(i + 1).drop_last() =~= all.take(i as int));
        }
        match items[i].measure() {
            None => {
                return None;
            },
            Some(n) => {
                if total + n > u32::MAX as u64 {
                    return None;
                }
                total = total + n;
            },
        }
        i += 1;
    }
    assert(all.take(i as int) =~= all);
    Some(total)
}

impl Encoded for u32 {
    open spec fn bytes_of(v: u32) -> Seq<u8> {
        leb128(v as nat)
    }

    open spec fn is_writable(v: u32) -> bool {
        true
    }

    proof fn lemma_positive(v: u32) {
        lemma_leb128_positive(v as nat);
    }

    fn measure(&self) -> (r: Option<u64>) {
        Some(leb128_len(*self as u64))
    }
}

impl Encoded for FuncType {
    open spec fn bytes_of(v: FuncTypeV) -> Seq<u8> {
        type_bytes(v)
    }

    open spec fn is_writable(v: FuncTypeV) -> bool {
        true
    }

    proof fn lemma_positive(v: FuncTypeV) {
    }

    fn measure(&self) -> (r: Option<u64>) {
        let params: usize = self.params.len();
        let results: usize = self.results.len();
        within(
            1 + leb128_len(params as u64) as u128 + params as u128 + leb128_len(
                results as u64,
            ) as u128 + results as u128,
        )
    }
}

fn entity_len(ty: &EntityType) -> (n: u128)
    ensures
        n == entity_bytes(*ty).len(),
        n <= 64,
{
    match ty {
        EntityType::Function(index) => 1 + leb128_len(*index as u64) as u128,
        EntityType::Table(ty) => match ty.maximum {
            Some(max) => 3 + leb128_len(ty.minimum as u64) as u128 + leb128_len(
                max as u64,
            ) as u128,
            None => 3 + leb128_len(ty.minimum as u64) as u128,
        },
        EntityType::Memory(ty) => match ty.maximum {
            Some(max) => 2 + leb128_len(ty.minimum) as u128 + leb128_len(max) as u128,
            None => 2 + leb128_len(ty.minimum) as u128,
        },
        EntityType::Global(_) => 3,
    }
}

impl Encoded for Import {
    open spec fn bytes_of(v: ImportV) -> Seq<u8> {
        import_bytes(v)
    }

    open spec fn is_writable(v: ImportV) -> bool {
        true
    }

    proof fn lemma_positive(v: ImportV) {
        lemma_leb128_positive(text_size(v.module));
    }

    fn measure(&self) -> (r: Option<u64>) {
        within(text_len(&self.module) + text_len(&self.name) + entity_len(&self.ty))
    }
}

fn constant_len(e: &ConstExpr) -> (n: u128)
    ensures
        n == constant_bytes(e@).len(),
        n <= usize::MAX + 16,
{
    match e {
        ConstExpr::I32(n) => 2 + sleb128_len(*n as i64) as u128,
        ConstExpr::I64(n) => 2 + sleb128_len(*n) as u128,
        ConstExpr::GlobalGet(index) => 2 + leb128_len(*index as u64) as u128,
        ConstExpr::Raw(code) => 1 + code.len() as u128,
    }
}

impl Encoded for Global {
    open spec fn bytes_of(v: GlobalV) -> Seq<u8> {
        global_bytes(v)
    }

    open spec fn is_writable(v: GlobalV) -> bool {
        true
    }

    proof fn lemma_positive(v: GlobalV) {
    }

    fn measure(&self) -> (r: Option<u64>) {
        within(2 + constant_len(&self.init))
    }
}

impl Encoded for Export {
    open spec fn bytes_of(v: ExportV) -> Seq<u8> {
        export_bytes(v)
    }

    open spec fn is_writable(v: ExportV) -> bool {
        true
    }

    proof fn lemma_positive(v: ExportV) {
    }

    fn measure(&self) -> (r: Option<u64>) {
        within(text_len(&self.name) + 1 + leb128_len(self.index as u64) as u128)
    }
}

/// Indices are items too.
proof fn lemma_indices(items: Seq<u32>)
    ensures
        all_bytes::<u32>(items) == indices_bytes(items),
    decreases items.len(),
{
    if items.len() > 0 {
        lemma_indices(items.drop_last());
    }
}

impl Encoded for ElementSegment {
    open spec fn bytes_of(v: ElementSegmentV) -> Seq<u8> {
        element_bytes(v)
    }

    open spec fn is_writable(v: ElementSegmentV) -> bool {
        true
    }

    proof fn lemma_positive(v: ElementSegmentV) {
    }

    fn measure(&self) -> (r: Option<u64>) {
        proof {
            assert(views(self.functions@) =~= self.functions@);
            lemma_indices(self.functions@);
        }
        let count: usize = self.functions.len();
        match measure_all(&self.functions) {
            Some(n) => within(
                4 + leb128_len(self.table as u64) as u128 + leb128_len(
                    self.offset_global as u64,
                ) as u128 + leb128_len(count as u64) as u128 + n as u128,
            ),
            None => None,
        }
    }
}

impl View for LocalRun {
    type V = LocalRun;

    open spec fn view(&self) -> LocalRun {
        *self
    }
}

impl Encoded for LocalRun {
    open spec fn bytes_of(v: LocalRun) -> Seq<u8> {
        leb128(v.count as nat) + seq![value_type_byte(v.ty)]
    }

    open spec fn is_writable(v: LocalRun) -> bool {
        true
    }

    proof fn lemma_positive(v: LocalRun) {
    }

    fn measure(&self) -> (r: Option<u64>) {
        Some(leb128_len(self.count as u64) + 1)
    }
}

proof fn lemma_runs(runs: Seq<LocalRun>)
    ensures
        all_bytes::<LocalRun>(runs) == runs_bytes(runs),
    decreases runs.len(),
{
    if runs.len() > 0 {
        lemma_runs(runs.drop_last());
        let last = runs.last();
        assert(all_bytes::<LocalRun>(runs) =~= runs_bytes(runs));
    }
}

proof fn lemma_run_counts(locals: Seq<ValueType>)
    ensures
        local_runs(locals).len() <= locals.len(),
        locals.len() <= u32::MAX ==> forall|k: int|
            0 <= k < local_runs(locals).len() ==> (#[trigger] local_runs(locals)[k]).count
                <= locals.len(),
    decreases locals.len(),
{
    if locals.len() > 0 {
        lemma_run_counts(locals.drop_last());
    }
}

fn collect_runs(locals: &Vec<ValueType>) -> (runs: Vec<LocalRun>)
    requires
        locals@.len() <= u32::MAX,
    ensures
        runs@ == local_runs(locals@),
{
    let mut runs: Vec<LocalRun> = Vec::new();
    let mut i: usize = 0;
    while i < locals.len()
        invariant
            i <= locals.len(),
            locals@.len() <= u32::MAX,
            runs@ == local_runs(locals@.take(i as int)),
        decreases locals.len() - i,
    {
        proof {
            let next = locals@.take(i + 1);
            assert(next.drop_last() =~= locals@.take(i as int));
            assert(next.last() == locals@[i as int]);
            lemma_run_counts(locals@.take(i as int));
        }
        let ty = locals[i];
        let n: usize = runs.len();
        if n > 0 && runs[n - 1].ty == ty {
            let count: u32 = runs[n - 1].count + 1;
            runs.set(n - 1, LocalRun { count, ty });
            assert(runs@ =~= local_runs(locals@.take(i + 1)));
        } else {
            runs.push(LocalRun { count: 1, ty });
        }
        i += 1;
    }
    assert(locals@.take(i as int) =~= locals@);
    runs
}

fn locals_len(locals: &Vec<ValueType>) -> (r: Option<u64>)
    requires
        locals@.len() <= u32::MAX,
    ensures
        match r {
            Some(n) => n == locals_bytes(locals@).len() && n <= u32::MAX,
            None => locals_bytes(locals@).len() > u32::MAX,
        },
{
    let runs = collect_runs(locals);
    proof {
        assert(views(runs@) =~= runs@);
        lemma_runs(runs@);
    }
    let count: usize = runs.len();
    match measure_all(&runs) {
        Some(n) => within(leb128_len(count as u64) as u128 + n as u128),
        None => None,
    }
}

impl View for Instruction {
    type V = Instruction;

    open spec fn view(&self) -> Instruction {
        *self
    }
}

fn mem_arg_len(arg: MemArg) -> (n: u64)
    ensures
        n == mem_arg_bytes(arg).len(),
        n <= 30,
{
    if arg.memory_index == 0 {
        leb128_len(arg.align as u64) + leb128_len(arg.offset)
    } else {
        leb128_len((arg.align | 64) as u64) + leb128_len(arg.memory_index as u64) + leb128_len(
            arg.offset,
        )
    }
}

impl Encoded for Instruction {
    open spec fn bytes_of(v: Instruction) -> Seq<u8> {
        instruction_bytes(v)
    }

    open spec fn is_writable(v: Instruction) -> bool {
        true
    }

    proof fn lemma_positive(v: Instruction) {
    }

    fn measure(&self) -> (r: Option<u64>) {
        Some(
            match *self {
                Instruction::GlobalGet(n) => 1 + leb128_len(n as u64),
                Instruction::LocalGet(n) => 1 + leb128_len(n as u64),
                Instruction::LocalTee(n) => 1 + leb128_len(n as u64),
                Instruction::I32Const(n) => 1 + sleb128_len(n as i64),
                Instruction::I32Sub => 1,
                Instruction::I32Mul => 1,
                Instruction::I32Store(arg) => 1 + mem_arg_len(arg),
                Instruction::MemorySize(n) => 1 + leb128_len(n as u64),
                Instruction::CallIndirect { ty, table } => 1 + leb128_len(ty as u64) + leb128_len(
                    table as u64,
                ),
                Instruction::End => 1,
            },
        )
    }
}

proof fn lemma_instructions(items: Seq<Instruction>)
    ensures
        all_bytes::<Instruction>(items) == instructions_bytes(items),
    decreases items.len(),
{
    if items.len() > 0 {
        lemma_instructions(items.drop_last());
    }
}

impl Encoded for Body {
    open spec fn bytes_of(v: BodyV) -> Seq<u8> {
        encoded_bytes(body_bytes(v))
    }

    open spec fn is_writable(v: BodyV) -> bool {
        v.locals.len() <= u32::MAX
    }

    proof fn lemma_positive(v: BodyV) {
        lemma_leb128_positive(body_bytes(v).len());
    }

    fn measure(&self) -> (r: Option<u64>) {
        if self.locals.len() > u32::MAX as usize {
            return None;
        }
        proof {
            assert(views(self.instructions@) =~= self.instructions@);
            lemma_instructions(self.instructions@);
        }
        match (locals_len(&self.locals), measure_all(&self.instructions)) {
            (Some(locals), Some(instructions)) => match within(
                locals as u128 + self.code.len() as u128 + instructions as u128,
            ) {
                Some(n) => within(leb128_len(n) as u128 + n as u128),
                None => None,
            },
            _ => None,
        }
    }
}

impl<'a> Encoded for DataSegment<'a> {
    open spec fn bytes_of(v: DataSegmentV) -> Seq<u8> {
        data_bytes(v)
    }

    open spec fn is_writable(v: DataSegmentV) -> bool {
        true
    }

    proof fn lemma_positive(v: DataSegmentV) {
    }

    fn measure(&self) -> (r: Option<u64>) {
        let len: usize = self.data.len();
        within(
            3 + sleb128_len(self.address as i64) as u128 + leb128_len(len as u64) as u128
                + len as u128,
        )
    }
}

impl Encoded for InstanceArg {
    open spec fn bytes_of(v: InstanceArgV) -> Seq<u8> {
        instance_arg_bytes(v)
    }

    open spec fn is_writable(v: InstanceArgV) -> bool {
        true
    }

    proof fn lemma_positive(v: InstanceArgV) {
    }

    fn measure(&self) -> (r: Option<u64>) {
        within(text_len(&self.name) + 1 + leb128_len(self.instance as u64) as u128)
    }
}

proof fn lemma_instance_args(items: Seq<InstanceArgV>)
    ensures
        all_bytes::<InstanceArg>(items) == instance_args_bytes(items),
    decreases items.len(),
{
    if items.len() > 0 {
        lemma_instance_args(items.drop_last());
    }
}

impl Encoded for Instantiation {
    open spec fn bytes_of(v: InstantiationV) -> Seq<u8> {
        instance_bytes(v)
    }

    open spec fn is_writable(v: InstantiationV) -> bool {
        true
    }

    proof fn lemma_positive(v: InstantiationV) {
    }

    fn measure(&self) -> (r: Option<u64>) {
        proof {
            lemma_instance_args(views(self.args@));
        }
        let count: usize = self.args.len();
        match measure_all(&self.args) {
            Some(n) => within(
                1 + leb128_len(self.module as u64) as u128 + leb128_len(count as u64) as u128
                    + n as u128,
            ),
            None => None,
        }
    }
}

impl Encoded for ComponentType {
    open spec fn bytes_of(v: ComponentType) -> Seq<u8> {
        component_type_bytes(v)
    }

    open spec fn is_writable(v: ComponentType) -> bool {
        true
    }

    proof fn lemma_positive(v: ComponentType) {
    }

    fn measure(&self) -> (r: Option<u64>) {
        Some(
            match *self {
                ComponentType::List(_) => 2,
                ComponentType::Getter(_) => 4,
                ComponentType::DefinedGetter(index) => 3 + sleb128_len(index as i64),
            },
        )
    }
}

impl Encoded for CoreAlias {
    open spec fn bytes_of(v: CoreAliasV) -> Seq<u8> {
        alias_bytes(v)
    }

    open spec fn is_writable(v: CoreAliasV) -> bool {
        true
    }

    proof fn lemma_positive(v: CoreAliasV) {
    }

    fn measure(&self) -> (r: Option<u64>) {
        within(3 + leb128_len(self.instance as u64) as u128 + text_len(&self.name))
    }
}

impl Encoded for Lift {
    open spec fn bytes_of(v: Lift) -> Seq<u8> {
        lift_bytes(v)
    }

    open spec fn is_writable(v: Lift) -> bool {
        true
    }

    proof fn lemma_positive(v: Lift) {
    }

    fn measure(&self) -> (r: Option<u64>) {
        let options: u64 = match self.memory {
            Some(memory) => 3 + leb128_len(memory as u64),
            None => 2,
        };
        Some(2 + leb128_len(self.core_function as u64) + options + leb128_len(self.ty as u64))
    }
}

impl Encoded for FuncExport {
    open spec fn bytes_of(v: FuncExportV) -> Seq<u8> {
        component_export_bytes(v)
    }

    open spec fn is_writable(v: FuncExportV) -> bool {
        true
    }

    proof fn lemma_positive(v: FuncExportV) {
    }

    fn measure(&self) -> (r: Option<u64>) {
        within(3 + text_len(&self.name) + leb128_len(self.function as u64) as u128)
    }
}

} // verus!
