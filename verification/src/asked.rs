//! What an instance is asked, and what becomes of its replies.
use vstd::prelude::*;
use crate::capture::{question, recorded, Answer, QuestionV, ReplyKind};
use crate::encode::component_bytes;
use crate::error::InitError;
use crate::fold::fold;
use crate::initialize::{
    asked_outcome, capture_outcome, capture_refused, initialize_outcome, is_captured, is_history,
    law_first_failure_ends_the_calls, law_global_gets_captured_value,
    law_memory_gets_captured_image, lemma_globals_captured, outcome, since, started_outcome, Call,
    InitializeError, InvokeError, Invoker, Reply,
};
use crate::instrument::{instrumented_bytes, CaptureV};
use crate::parse::{GlobalContent, GlobalDecl, GlobalEntry, ReadError};
use crate::preserved::{
    law_globals_start_with_captured_values, law_memory_is_restored, law_start_and_data_are_replaced,
    loaded_byte, starts_as,
};
use crate::snapshot::{
    initial_step, initialized, initialized_bytes, little_endian, module_image, value_of,
    GlobalState, GlobalValue, GlobalsV, ModulePlan, SnapshotV,
};
use crate::text::decimal;
use crate::tree::{tree, ModuleItemV};
use crate::wasm::{ConstExprV, GlobalType, ModuleSectionV, ValueType};

verus! {

/// The value is what the reply holds, number for number and bit for bit, and the reply is
/// of the kind that goes with the type.
pub open spec fn holds_reply(ty: ValueType, reply: Reply, value: GlobalValue) -> bool {
    match reply {
        Reply::S32(Ok(n)) => ty == ValueType::I32 && value == GlobalValue::I32(n),
        Reply::S64(Ok(n)) => ty == ValueType::I64 && value == GlobalValue::I64(n),
        Reply::Float32(Ok(bits)) => ty == ValueType::F32 && value == GlobalValue::F32(bits),
        Reply::Float64(Ok(bits)) => ty == ValueType::F64 && value == GlobalValue::F64(bits),
        _ => false,
    }
}

/// The calls for globals have the names under which the globals are exposed, and what the
/// snapshot holds of each is what its call returned.
pub proof fn law_snapshot_holds_the_replies(
    capture: CaptureV,
    made: Seq<Call>,
    snapshot: SnapshotV,
    k: int,
)
    requires
        capture_outcome(capture, made, Ok(snapshot)),
        0 <= k < capture.globals.len(),
    ensures
        snapshot.globals.len() == capture.globals.len(),
        made.len() >= capture.globals.len(),
        snapshot.globals[k].module == capture.globals[k].module,
        snapshot.globals[k].index == capture.globals[k].index,
        holds_reply(capture.globals[k].ty, made[k].reply, snapshot.globals[k].value),
        made[k].function == "component-init-get-module"@ + decimal(
            capture.globals[k].module as nat,
        ) + "-global"@ + decimal(capture.globals[k].index as nat),
{
    lemma_globals_captured(capture, made, snapshot);
    let n = capture.globals.len() as int;
    assert(is_captured(capture.globals[k], made.take(n)[k], snapshot.globals[k]));
    assert(made.take(n)[k] == made[k]);
}

/// What the snapshot says of a captured global is the very number that the call for it
/// returned, in its own type and with all its bits.
pub proof fn law_reply_is_the_value_of_the_global(
    component: Seq<u8>,
    made: Seq<Call>,
    snapshot: SnapshotV,
    k: int,
)
    requires
        instrumented_bytes(component) is Ok,
        capture_outcome(instrumented_bytes(component)->Ok_0.1, made, Ok(snapshot)),
        0 <= k < instrumented_bytes(component)->Ok_0.1.globals.len(),
    ensures
        ({
            let g = instrumented_bytes(component)->Ok_0.1.globals[k];
            let globals = snapshot.globals;
            match made[k].reply {
                Reply::S32(Ok(n)) => value_of(globals, g.module, g.index, ValueType::I32) == Some(
                    GlobalValue::I32(n),
                ),
                Reply::S64(Ok(n)) => value_of(globals, g.module, g.index, ValueType::I64) == Some(
                    GlobalValue::I64(n),
                ),
                Reply::Float32(Ok(bits)) => value_of(
                    globals,
                    g.module,
                    g.index,
                    ValueType::F32,
                ) == Some(GlobalValue::F32(bits)),
                Reply::Float64(Ok(bits)) => value_of(
                    globals,
                    g.module,
                    g.index,
                    ValueType::F64,
                ) == Some(GlobalValue::F64(bits)),
                _ => false,
            }
        }),
{
    law_global_gets_captured_value(component, made, snapshot, k);
}

/// Where there is a memory to capture, the last call is for it, and the snapshot holds what
/// that call returned, with the module that defines the memory; else there is no such call,
/// and the snapshot holds no memory.
pub proof fn law_snapshot_holds_the_memory(capture: CaptureV, made: Seq<Call>, snapshot: SnapshotV)
    requires
        capture_outcome(capture, made, Ok(snapshot)),
    ensures
        match capture.memory {
            Some(module) => {
                &&& made.len() == capture.globals.len() + 1
                &&& made.last().function == "component-init-get-memory"@
                &&& made.last().reply matches Reply::ListU8(Ok(image)) && snapshot.memory == Some(
                    (module, image@),
                )
            },
            None => made.len() == capture.globals.len() && snapshot.memory is None,
        },
{
    lemma_globals_captured(capture, made, snapshot);
}

/// The same calls with the same replies give the same state, or the same error.
pub proof fn law_same_replies_give_the_same_state(
    capture: CaptureV,
    made: Seq<Call>,
    r1: Result<SnapshotV, InitializeError>,
    r2: Result<SnapshotV, InitializeError>,
)
    requires
        capture_outcome(capture, made, r1),
        capture_outcome(capture, made, r2),
    ensures
        r1 == r2,
{
    let n = capture.globals.len() as int;
    match (r1, r2) {
        (Ok(a), Ok(b)) => {
            lemma_globals_captured(capture, made, a);
            lemma_globals_captured(capture, made, b);
            assert forall|k: int| 0 <= k < n implies a.globals[k] == b.globals[k] by {
                assert(is_captured(capture.globals[k], made.take(n)[k], a.globals[k]));
                assert(is_captured(capture.globals[k], made.take(n)[k], b.globals[k]));
            }
            assert(a.globals =~= b.globals);
        },
        (Ok(a), Err(e)) => {
            lemma_not_both(capture, made, a, e);
        },
        (Err(e), Ok(a)) => {
            lemma_not_both(capture, made, a, e);
        },
        (Err(InitializeError::Invoke(d)), Err(InitializeError::Invoke(e))) => {
            law_first_failure_ends_the_calls(capture, made, d);
            law_first_failure_ends_the_calls(capture, made, e);
        },
        (Err(InitializeError::Invoke(e)), Err(InitializeError::Rule(_))) => {
            lemma_not_refused_too(capture, made, e);
        },
        (Err(InitializeError::Rule(_)), Err(InitializeError::Invoke(e))) => {
            lemma_not_refused_too(capture, made, e);
        },
        _ => {},
    }
}

proof fn lemma_not_both(capture: CaptureV, made: Seq<Call>, a: SnapshotV, e: InitializeError)
    requires
        capture_outcome(capture, made, Ok(a)),
    ensures
        !capture_outcome(capture, made, Err(e)),
{
    let n = capture.globals.len() as int;
    lemma_globals_captured(capture, made, a);
    law_snapshot_holds_the_memory(capture, made, a);
    if capture_outcome(capture, made, Err(e)) {
        if let InitializeError::Invoke(x) = e {
            law_first_failure_ends_the_calls(capture, made, x);
            if capture.memory is None {
                assert(is_captured(capture.globals[n - 1], made.take(n)[n - 1], a.globals[n - 1]));
            }
        }
    }
}

proof fn lemma_not_refused_too(capture: CaptureV, made: Seq<Call>, e: InvokeError)
    requires
        capture_outcome(capture, made, Err(InitializeError::Invoke(e))),
    ensures
        forall|x: InitError|
            !#[trigger] capture_outcome(capture, made, Err(InitializeError::Rule(x))),
{
    law_first_failure_ends_the_calls(capture, made, e);
    let k = made.len() - 1;
    assert forall|x: InitError|
        !#[trigger] capture_outcome(capture, made, Err(InitializeError::Rule(x))) by {
        if capture_outcome(capture, made, Err(InitializeError::Rule(x))) {
            let states = choose|states: Seq<GlobalState>|
                capture_refused(capture.globals, made, states);
            assert(is_captured(capture.globals.take(made.len() as int)[k], made[k], states[k]));
        }
    }
}

/// A global that holds a vector is not asked for: asking ends before it, once all before it
/// have been answered.
pub proof fn law_vectors_are_not_asked_for(capture: CaptureV, made: Seq<Call>, e: InitError)
    requires
        capture_outcome(capture, made, Err(InitializeError::Rule(e))),
    ensures
        e == InitError::V128Global,
        made.len() < capture.globals.len(),
        capture.globals[made.len() as int].ty == ValueType::V128,
        forall|k: int|
            0 <= k < made.len() ==> match (#[trigger] made[k]).reply {
                Reply::S32(Ok(_)) => capture.globals[k].ty == ValueType::I32,
                Reply::S64(Ok(_)) => capture.globals[k].ty == ValueType::I64,
                Reply::Float32(Ok(_)) => capture.globals[k].ty == ValueType::F32,
                Reply::Float64(Ok(_)) => capture.globals[k].ty == ValueType::F64,
                _ => false,
            },
{
    let states = choose|states: Seq<GlobalState>|
        capture_refused(capture.globals, made, states);
    assert forall|k: int| 0 <= k < made.len() implies match (#[trigger] made[k]).reply {
        Reply::S32(Ok(_)) => capture.globals[k].ty == ValueType::I32,
        Reply::S64(Ok(_)) => capture.globals[k].ty == ValueType::I64,
        Reply::Float32(Ok(_)) => capture.globals[k].ty == ValueType::F32,
        Reply::Float64(Ok(_)) => capture.globals[k].ty == ValueType::F64,
        _ => false,
    } by {
        assert(is_captured(capture.globals.take(made.len() as int)[k], made[k], states[k]));
    }
}

/// The constant expression is the reply: an integer as it is, a floating-point number by its
/// opcode and its bits from the lowest byte up.
pub open spec fn starts_with_reply(reply: Reply, init: ConstExprV) -> bool {
    match reply {
        Reply::S32(Ok(n)) => init == ConstExprV::I32(n),
        Reply::S64(Ok(n)) => init == ConstExprV::I64(n),
        Reply::Float32(Ok(bits)) => init matches ConstExprV::Raw(code) && code.len() == 5
            && code[0] == 0x43 && code[1] + 0x100 * code[2] + 0x1_0000 * code[3] + 0x100_0000
            * code[4] == bits,
        Reply::Float64(Ok(bits)) => init matches ConstExprV::Raw(code) && code.len() == 9
            && code[0] == 0x44 && code[1] + 0x100 * code[2] + 0x1_0000 * code[3] + 0x100_0000
            * code[4] + 0x1_0000_0000 * code[5] + 0x100_0000_0000 * code[6] + 0x1_0000_0000_0000
            * code[7] + 0x100_0000_0000_0000 * code[8] == bits,
        _ => false,
    }
}

pub proof fn lemma_four_bytes(x: nat)
    requires
        x <= u32::MAX,
    ensures
        little_endian(x, 4).len() == 4,
        little_endian(x, 4)[0] + 0x100 * little_endian(x, 4)[1] + 0x1_0000 * little_endian(
            x,
            4,
        )[2] + 0x100_0000 * little_endian(x, 4)[3] == x,
{
    reveal_with_fuel(little_endian, 5);
    let b = little_endian(x, 4);
    assert(b[0] == x % 256);
    assert(b[1] == x / 256 % 256);
    assert(b[2] == x / 256 / 256 % 256);
    assert(b[3] == x / 256 / 256 / 256 % 256);
}

pub proof fn lemma_eight_bytes(x: nat)
    requires
        x <= u64::MAX,
    ensures
        ({
            let b = little_endian(x, 8);
            &&& b.len() == 8
            &&& b[0] + 0x100 * b[1] + 0x1_0000 * b[2] + 0x100_0000 * b[3] + 0x1_0000_0000 * b[4]
                + 0x100_0000_0000 * b[5] + 0x1_0000_0000_0000 * b[6] + 0x100_0000_0000_0000 * b[7]
                == x
        }),
{
    let low = x % 0x1_0000_0000;
    let high = x / 0x1_0000_0000;
    let b = little_endian(x, 8);
    reveal_with_fuel(little_endian, 9);
    assert(b[0] == x % 256);
    assert(b[1] == x / 256 % 256);
    assert(b[2] == x / 256 / 256 % 256);
    assert(b[3] == x / 256 / 256 / 256 % 256);
    assert(b[4] == x / 256 / 256 / 256 / 256 % 256);
    assert(b[5] == x / 256 / 256 / 256 / 256 / 256 % 256);
    assert(b[6] == x / 256 / 256 / 256 / 256 / 256 / 256 % 256);
    assert(b[7] == x / 256 / 256 / 256 / 256 / 256 / 256 / 256 % 256);
}

/// A captured global starts, in the initialized module, with exactly what the call for it
/// returned.  `list` is the global section of the module, after globals of the types
/// `decls`, and `j` the place of the global there.
pub proof fn law_captured_global_starts_with_its_reply(
    component: Seq<u8>,
    made: Seq<Call>,
    snapshot: SnapshotV,
    k: int,
    plan: ModulePlan,
    decls: Seq<GlobalDecl>,
    list: Seq<Result<GlobalEntry, ReadError>>,
    j: int,
)
    requires
        instrumented_bytes(component) is Ok,
        capture_outcome(instrumented_bytes(component)->Ok_0.1, made, Ok(snapshot)),
        0 <= k < instrumented_bytes(component)->Ok_0.1.globals.len(),
        fold(
            GlobalsV { decls, globals: seq![] },
            list,
            initial_step(component, snapshot, plan),
        ) is Ok,
        0 <= j < list.len(),
        ({
            let g = instrumented_bytes(component)->Ok_0.1.globals[k];
            &&& plan.module == g.module
            &&& plan.has_instance
            &&& decls.len() + j == g.index
            &&& list[j] matches Ok(entry) && entry.decl == (GlobalDecl {
                content: GlobalContent::Value(g.ty),
                mutable: true,
            })
        }),
    ensures
        ({
            let g = instrumented_bytes(component)->Ok_0.1.globals[k];
            let found = fold(
                GlobalsV { decls, globals: seq![] },
                list,
                initial_step(component, snapshot, plan),
            )->Ok_0;
            &&& found.globals[j].ty == (GlobalType { val_type: g.ty, mutable: true })
            &&& starts_with_reply(made[k].reply, found.globals[j].init)
        }),
{
    let capture = instrumented_bytes(component)->Ok_0.1;
    law_globals_start_with_captured_values(component, snapshot, plan, decls, list);
    law_global_gets_captured_value(component, made, snapshot, k);
    law_snapshot_holds_the_replies(capture, made, snapshot, k);
    let found = fold(
        GlobalsV { decls, globals: seq![] },
        list,
        initial_step(component, snapshot, plan),
    )->Ok_0;
    assert(starts_as(
        component,
        snapshot,
        plan,
        (decls.len() + j) as u32,
        list[j],
        found.globals[j],
    ));
    match made[k].reply {
        Reply::Float32(Ok(bits)) => {
            lemma_four_bytes(bits as nat);
        },
        Reply::Float64(Ok(bits)) => {
            lemma_eight_bytes(bits as nat);
        },
        _ => {},
    }
}

/// A global that cannot change, or that is of a module without an instance, starts with what
/// it had, and every global keeps its type.
pub proof fn law_other_globals_are_kept(
    bytes: Seq<u8>,
    snapshot: SnapshotV,
    plan: ModulePlan,
    decls: Seq<GlobalDecl>,
    list: Seq<Result<GlobalEntry, ReadError>>,
    j: int,
)
    requires
        fold(
            GlobalsV { decls, globals: seq![] },
            list,
            initial_step(bytes, snapshot, plan),
        ) is Ok,
        0 <= j < list.len(),
    ensures
        ({
            let found = fold(
                GlobalsV { decls, globals: seq![] },
                list,
                initial_step(bytes, snapshot, plan),
            )->Ok_0;
            &&& found.globals.len() == list.len()
            &&& list[j] is Ok
            &&& list[j]->Ok_0.decl == (GlobalDecl {
                content: GlobalContent::Value(found.globals[j].ty.val_type),
                mutable: found.globals[j].ty.mutable,
            })
            &&& !(list[j]->Ok_0.decl.mutable && plan.has_instance) ==> found.globals[j].init
                == ConstExprV::Raw(
                bytes.subrange(
                    list[j]->Ok_0.init_start as int,
                    list[j]->Ok_0.init_end - 1,
                ),
            )
        }),
{
    law_globals_start_with_captured_values(bytes, snapshot, plan, decls, list);
    let found = fold(
        GlobalsV { decls, globals: seq![] },
        list,
        initial_step(bytes, snapshot, plan),
    )->Ok_0;
    assert(starts_as(
        bytes,
        snapshot,
        plan,
        (decls.len() + j) as u32,
        list[j],
        found.globals[j],
    ));
}

/// The initialized module that defines the memory ends with a data section that, loaded into
/// a memory of zeros, gives the image that the last call returned.
pub proof fn law_memory_starts_with_its_reply(
    bytes: Seq<u8>,
    capture: CaptureV,
    made: Seq<Call>,
    snapshot: SnapshotV,
    plan: ModulePlan,
    items: Seq<Result<ModuleItemV, ReadError>>,
    p: int,
)
    requires
        capture_outcome(capture, made, Ok(snapshot)),
        capture.memory == Some(plan.module),
        module_image(bytes, snapshot, plan, items) is Ok,
    ensures
        made.last().function == "component-init-get-memory"@,
        made.last().reply matches Reply::ListU8(Ok(image)) && {
            let sections = module_image(bytes, snapshot, plan, items)->Ok_0;
            &&& sections.len() > 0
            &&& sections.last() matches ModuleSectionV::Data(segments) && (0 <= p < image@.len()
                && image@.len() <= usize::MAX ==> loaded_byte(segments, p) == image@[p])
        },
{
    law_memory_gets_captured_image(capture, made, snapshot);
    law_start_and_data_are_replaced(bytes, snapshot, plan, items);
    if let Reply::ListU8(Ok(image)) = made.last().reply {
        if 0 <= p < image@.len() && image@.len() <= usize::MAX {
            law_memory_is_restored(image@, p);
        }
    }
}

/// The questions are those for the globals, one after the other, each by the name and in the
/// kind that go with the global, and then the one for the memory, if there is one.
pub proof fn law_questions_fit_the_globals(capture: CaptureV, k: int)
    requires
        0 <= k,
    ensures
        k < capture.globals.len() ==> {
            let g = capture.globals[k];
            let name = "component-init-get-module"@ + decimal(g.module as nat) + "-global"@
                + decimal(g.index as nat);
            match question(capture, k as nat) {
                Ok(Some(q)) => q.function == name && match q.kind {
                    ReplyKind::S32 => g.ty == ValueType::I32,
                    ReplyKind::S64 => g.ty == ValueType::I64,
                    ReplyKind::Float32 => g.ty == ValueType::F32,
                    ReplyKind::Float64 => g.ty == ValueType::F64,
                    ReplyKind::ListU8 => false,
                },
                Ok(None) => false,
                Err(e) => g.ty == ValueType::V128 && e == InitError::V128Global,
            }
        },
        k == capture.globals.len() && capture.memory is Some ==> question(capture, k as nat)
            == Ok::<_, InitError>(
            Some(
                QuestionV {
                    function: "component-init-get-memory"@,
                    kind: ReplyKind::ListU8,
                },
            ),
        ),
        k > capture.globals.len() || (k == capture.globals.len() && capture.memory is None)
            ==> question(capture, k as nat) == Ok::<Option<QuestionV>, InitError>(None),
{
}

/// An answer adds to what is known one value, the one it holds, of the global that was asked
/// for, or the memory, and changes nothing else.  It is refused if it is of another kind.
pub proof fn law_answer_is_recorded_as_it_is(
    capture: CaptureV,
    asked: nat,
    known: SnapshotV,
    a: Answer,
)
    ensures
        match recorded(capture, asked, known, a) {
            Some(s) => if asked < capture.globals.len() {
                let g = capture.globals[asked as int];
                &&& s.memory == known.memory
                &&& s.globals.len() == known.globals.len() + 1
                &&& s.globals.drop_last() == known.globals
                &&& s.globals.last().module == g.module
                &&& s.globals.last().index == g.index
                &&& match a {
                    Answer::S32(n) => g.ty == ValueType::I32 && s.globals.last().value
                        == GlobalValue::I32(n),
                    Answer::S64(n) => g.ty == ValueType::I64 && s.globals.last().value
                        == GlobalValue::I64(n),
                    Answer::Float32(bits) => g.ty == ValueType::F32 && s.globals.last().value
                        == GlobalValue::F32(bits),
                    Answer::Float64(bits) => g.ty == ValueType::F64 && s.globals.last().value
                        == GlobalValue::F64(bits),
                    Answer::ListU8(_) => false,
                }
            } else {
                &&& asked == capture.globals.len()
                &&& s.globals == known.globals
                &&& a matches Answer::ListU8(image) && capture.memory is Some && s.memory
                    == Some((capture.memory->Some_0, image@))
            },
            None => if asked < capture.globals.len() {
                match (capture.globals[asked as int].ty, a) {
                    (ValueType::I32, Answer::S32(_)) => false,
                    (ValueType::I64, Answer::S64(_)) => false,
                    (ValueType::F32, Answer::Float32(_)) => false,
                    (ValueType::F64, Answer::Float64(_)) => false,
                    _ => true,
                }
            } else {
                asked > capture.globals.len() || capture.memory is None || !(a is ListU8)
            },
        },
{
    if let Some(s) = recorded(capture, asked, known, a) {
        if asked < capture.globals.len() {
            assert(s.globals.drop_last() =~= known.globals);
        }
    }
}

/// Where a component comes of it, an instance has answered every call for its state, and the
/// component is made of the sections that the given one gets with that state.
pub proof fn law_component_is_made_from_the_replies(
    component: Seq<u8>,
    capture: CaptureV,
    made: Seq<Call>,
    bytes: Seq<u8>,
)
    requires
        asked_outcome(component, capture, made, Ok(bytes)),
    ensures
        exists|snapshot: SnapshotV| #[trigger]
            capture_outcome(capture, made, Ok(snapshot)) && (initialized(
                component,
                tree(component),
                snapshot,
            ) matches Ok(sections) && bytes == component_bytes(sections)),
{
    let captured = choose|captured: Result<SnapshotV, InitializeError>|
        outcome(component, capture, made, captured, Ok(bytes));
    let snapshot = captured->Ok_0;
    assert(capture_outcome(capture, made, Ok(snapshot)));
}

/// Where the error of a call comes of it, it is that of the last call, which failed.
pub proof fn law_error_is_that_of_the_last_call(
    component: Seq<u8>,
    capture: CaptureV,
    made: Seq<Call>,
    e: InvokeError,
)
    requires
        asked_outcome(component, capture, made, Err(InitializeError::Invoke(e))),
    ensures
        made.len() > 0,
        match made.last().reply {
            Reply::S32(Err(x)) => x == e,
            Reply::S64(Err(x)) => x == e,
            Reply::Float32(Err(x)) => x == e,
            Reply::Float64(Err(x)) => x == e,
            Reply::ListU8(Err(x)) => x == e,
            _ => false,
        },
{
    let captured = choose|captured: Result<SnapshotV, InitializeError>|
        outcome(
            component,
            capture,
            made,
            captured,
            Err(InitializeError::Invoke(e)),
        );
    law_first_failure_ends_the_calls(capture, made, e);
}

/// Where a rule is the error, a vector was to be captured, or what was captured cannot be
/// written, for the very reason that the error gives.
pub proof fn law_rule_that_is_broken_is_reported(
    component: Seq<u8>,
    capture: CaptureV,
    made: Seq<Call>,
    e: InitError,
)
    requires
        asked_outcome(component, capture, made, Err(InitializeError::Rule(e))),
    ensures
        capture_outcome(capture, made, Err(InitializeError::Rule(e))) || exists|
            snapshot: SnapshotV,
        | #[trigger]
            capture_outcome(capture, made, Ok(snapshot)) && initialized_bytes(
                component,
                snapshot,
            ) == Err::<Seq<u8>, _>(e),
{
    let captured = choose|captured: Result<SnapshotV, InitializeError>|
        outcome(component, capture, made, captured, Err(InitializeError::Rule(e)));
    if let Ok(snapshot) = captured {
        assert(capture_outcome(capture, made, Ok(snapshot)));
    }
}

/// Where `start` fails, or a call, its error is the one that comes of initializing.
pub proof fn law_failure_is_passed_on<
    F: FnOnce(&[u8]) -> Result<Box<dyn Invoker>, InvokeError>,
>(component: Seq<u8>, start: F, e: InvokeError)
    requires
        initialize_outcome(component, start, Err(InitializeError::Invoke(e))),
    ensures
        instrumented_bytes(component) matches Ok((given, capture)) && exists|
            input: &[u8],
            started: Result<Box<dyn Invoker>, InvokeError>,
        |
            {
                &&& #[trigger] call_ensures(start, (input,), started)
                &&& input@ == given
                &&& match started {
                    Ok(instance) => exists|after: Seq<Call>|
                        {
                            &&& #[trigger] instance.calls().is_prefix_of(after)
                            &&& after.len() > instance.calls().len()
                            &&& match after.last().reply {
                                Reply::S32(Err(x)) => x == e,
                                Reply::S64(Err(x)) => x == e,
                                Reply::Float32(Err(x)) => x == e,
                                Reply::Float64(Err(x)) => x == e,
                                Reply::ListU8(Err(x)) => x == e,
                                _ => false,
                            }
                        },
                    Err(x) => x == e,
                }
            },
{
    let made = instrumented_bytes(component)->Ok_0;
    let r = Err::<Seq<u8>, _>(InitializeError::Invoke(e));
    let (input, started) = choose|
        input: &[u8],
        started: Result<Box<dyn Invoker>, InvokeError>,
    | #[trigger]
        started_outcome(component, made.0, made.1, start, input, started, r);
    assert(call_ensures(start, (input,), started));
    if started is Ok {
        let before = started->Ok_0.calls();
        let after = choose|after: Seq<Call>|
            before.is_prefix_of(after) && #[trigger] is_history(
                started->Ok_0.histories(),
                before,
                after,
            ) && asked_outcome(component, made.1, since(before, after), r);
        law_error_is_that_of_the_last_call(component, made.1, since(before, after), e);
        assert(since(before, after).last() == after.last());
        assert(started->Ok_0.calls().is_prefix_of(after));
    }
}

/// The bytes are what the component becomes with the state that the replies give.
pub open spec fn came_of(
    component: Seq<u8>,
    capture: CaptureV,
    replies: Seq<Call>,
    bytes: Seq<u8>,
) -> bool {
    exists|snapshot: SnapshotV| #[trigger]
        capture_outcome(capture, replies, Ok(snapshot)) && (initialized(
            component,
            tree(component),
            snapshot,
        ) matches Ok(sections) && bytes == component_bytes(sections))
}

/// Where a component comes of initializing one, `start` was handed the instrumented
/// component, the instance that it made was asked for its state, and the component is made
/// of the replies.
pub proof fn law_initialized_component_comes_of_the_instance<
    F: FnOnce(&[u8]) -> Result<Box<dyn Invoker>, InvokeError>,
>(component: Seq<u8>, start: F, bytes: Seq<u8>)
    requires
        initialize_outcome(component, start, Ok(bytes)),
    ensures
        instrumented_bytes(component) matches Ok((given, capture)) && {
            exists|
                input: &[u8],
                started: Result<Box<dyn Invoker>, InvokeError>,
                after: Seq<Call>,
            |
                {
                    &&& #[trigger] call_ensures(start, (input,), started)
                    &&& started is Ok
                    &&& #[trigger] started->Ok_0.calls().is_prefix_of(after)
                    &&& after == started->Ok_0.calls() || (started->Ok_0.histories())(after)
                    &&& input@ == given
                    &&& came_of(
                        component,
                        capture,
                        after.skip(started->Ok_0.calls().len() as int),
                        bytes,
                    )
                }
        },
{
    let made = instrumented_bytes(component)->Ok_0;
    let (input, started) = choose|
        input: &[u8],
        started: Result<Box<dyn Invoker>, InvokeError>,
    | #[trigger]
        started_outcome(component, made.0, made.1, start, input, started, Ok(bytes));
    let before = started->Ok_0.calls();
    let after = choose|after: Seq<Call>|
        before.is_prefix_of(after) && #[trigger] is_history(
            started->Ok_0.histories(),
            before,
            after,
        ) && asked_outcome(component, made.1, since(before, after), Ok(bytes));
    law_component_is_made_from_the_replies(component, made.1, since(before, after), bytes);
    assert(came_of(
        component,
        made.1,
        after.skip(started->Ok_0.calls().len() as int),
        bytes,
    ));
    assert(call_ensures(start, (input,), started));
    assert(started->Ok_0.calls().is_prefix_of(after));
}

/// A component that breaks a rule is refused by it, and one that does not is refused by a
/// rule on sizes only.
pub proof fn law_component_that_breaks_a_rule_is_refused<
    F: FnOnce(&[u8]) -> Result<Box<dyn Invoker>, InvokeError>,
>(component: Seq<u8>, start: F, r: Result<Seq<u8>, InitializeError>)
    requires
        initialize_outcome(component, start, r),
    ensures
        instrumented_bytes(component) matches Err(e) ==> r == Err::<Seq<u8>, _>(
            InitializeError::Rule(e),
        ),
        r matches Err(InitializeError::Rule(e)) ==> instrumented_bytes(component) == Err::<
            (Seq<u8>, CaptureV),
            _,
        >(e) || e == InitError::MemoryTooLarge || e == InitError::TooLarge,
{
}

} // verus!
