//! Initializing a component ahead of time.
//!
//! A component is instrumented, started, and asked for its state; the state then goes
//! into a new component, which starts where the old one had got to.
use vstd::prelude::*;
use vstd::string::StringExecFns;
use crate::error::InitError;
use crate::exposed::{law_captured_globals_come_in_order, places, precedes};
use crate::instrument::{
    getter_name, global_getter, instrument, instrumented_bytes, law_captured_globals_are_numbers,
    live, memory_getter_name, survey_of, to_capture, Capture, CaptureV, CapturedGlobal,
};
use crate::preserved::{is_beyond_reach, law_captured_state_suffices};
use crate::snapshot::{
    initialized_bytes, restore, value_of, GlobalState, GlobalValue, MemoryState,
    Snapshot, SnapshotV,
};
use crate::tree::{tree, well_placed};
use crate::wasm::ValueType;

verus! {

/// Why an instance could not be made, or a function of it could not be called.
#[derive(Debug, PartialEq, Eq)]
pub struct InvokeError {
    pub message: String,
}

/// What a call returns; a floating-point number is given by its bits.
pub enum Reply {
    S32(Result<i32, InvokeError>),
    S64(Result<i64, InvokeError>),
    Float32(Result<u32, InvokeError>),
    Float64(Result<u64, InvokeError>),
    ListU8(Result<Vec<u8>, InvokeError>),
}

/// A call of a function without parameters, and what it returned.
pub struct Call {
    pub function: Seq<char>,
    pub reply: Reply,
}

/// Calls functions of an instance, which have no parameters and return what the name of
/// the method says.  Floating-point numbers are returned as their bits.
pub trait Invoker {
    /// The calls that have been made, oldest first.  An implementation that is verified
    /// gives its own account of them.
    open spec fn calls(&self) -> Seq<Call> {
        Seq::empty()
    }

    /// The accounts of calls that the instance can come to have.  They stay the same from
    /// call to call.  Through a trait object, that an account is one of them is learnt only
    /// by making its last call, so it stands for calls that this instance has got.
    open spec fn histories(&self) -> spec_fn(Seq<Call>) -> bool {
        |account: Seq<Call>| true
    }

    fn call_s32(&mut self, function: &str) -> (r: Result<i32, InvokeError>)
        ensures
            final(self).calls() == old(self).calls().push(
                Call { function: function@, reply: Reply::S32(r) },
            ),
            old(self).histories()(final(self).calls()),
            final(self).histories() == old(self).histories(),
    ;

    fn call_s64(&mut self, function: &str) -> (r: Result<i64, InvokeError>)
        ensures
            final(self).calls() == old(self).calls().push(
                Call { function: function@, reply: Reply::S64(r) },
            ),
            old(self).histories()(final(self).calls()),
            final(self).histories() == old(self).histories(),
    ;

    fn call_float32(&mut self, function: &str) -> (r: Result<u32, InvokeError>)
        ensures
            final(self).calls() == old(self).calls().push(
                Call { function: function@, reply: Reply::Float32(r) },
            ),
            old(self).histories()(final(self).calls()),
            final(self).histories() == old(self).histories(),
    ;

    fn call_float64(&mut self, function: &str) -> (r: Result<u64, InvokeError>)
        ensures
            final(self).calls() == old(self).calls().push(
                Call { function: function@, reply: Reply::Float64(r) },
            ),
            old(self).histories()(final(self).calls()),
            final(self).histories() == old(self).histories(),
    ;

    fn call_list_u8(&mut self, function: &str) -> (r: Result<Vec<u8>, InvokeError>)
        ensures
            final(self).calls() == old(self).calls().push(
                Call { function: function@, reply: Reply::ListU8(r) },
            ),
            old(self).histories()(final(self).calls()),
            final(self).histories() == old(self).histories(),
    ;
}

/// Why a component was not initialized.
#[derive(Debug, PartialEq, Eq)]
pub enum InitializeError {
    Rule(InitError),
    Invoke(InvokeError),
}

impl InitializeError {
    /// The text of an error.
    pub open spec fn text(self) -> Seq<char> {
        match self {
            InitializeError::Rule(e) => e.text(),
            InitializeError::Invoke(e) => e.message@,
        }
    }

    /// Says what is wrong.
    pub fn message(&self) -> (s: String)
        ensures
            s@ == self.text(),
    {
        match self {
            InitializeError::Rule(e) => e.message(),
            InitializeError::Invoke(e) => e.message.clone(),
        }
    }
}

/// The view of what was computed, or the error.
pub open spec fn shown<T: View>(r: Result<T, InitializeError>) -> Result<T::V, InitializeError> {
    match r {
        Ok(x) => Ok(x@),
        Err(e) => Err(e),
    }
}

/// The value in a reply to a question for a value of the given type, if there is one.
pub open spec fn answer(ty: ValueType, reply: Reply) -> Option<GlobalValue> {
    match (ty, reply) {
        (ValueType::I32, Reply::S32(Ok(n))) => Some(GlobalValue::I32(n)),
        (ValueType::I64, Reply::S64(Ok(n))) => Some(GlobalValue::I64(n)),
        (ValueType::F32, Reply::Float32(Ok(bits))) => Some(GlobalValue::F32(bits)),
        (ValueType::F64, Reply::Float64(Ok(bits))) => Some(GlobalValue::F64(bits)),
        _ => None,
    }
}

/// The error in a reply to such a question, if there is one.
pub open spec fn refusal(ty: ValueType, reply: Reply) -> Option<InvokeError> {
    match (ty, reply) {
        (ValueType::I32, Reply::S32(Err(e))) => Some(e),
        (ValueType::I64, Reply::S64(Err(e))) => Some(e),
        (ValueType::F32, Reply::Float32(Err(e))) => Some(e),
        (ValueType::F64, Reply::Float64(Err(e))) => Some(e),
        _ => None,
    }
}

/// The call asked for the global, and the state is what came back.
pub open spec fn is_captured(g: CapturedGlobal, call: Call, state: GlobalState) -> bool {
    &&& call.function == getter_name(g.module, g.index)
    &&& state.module == g.module
    &&& state.index == g.index
    &&& answer(g.ty, call.reply) == Some(state.value)
}

/// The calls asked for the globals one after the other, and the states are what came
/// back.
pub open spec fn are_captured(
    globals: Seq<CapturedGlobal>,
    made: Seq<Call>,
    states: Seq<GlobalState>,
) -> bool {
    &&& made.len() == globals.len()
    &&& states.len() == globals.len()
    &&& forall|k: int|
        0 <= k < globals.len() ==> is_captured(globals[k], made[k], #[trigger] states[k])
}

/// The calls asked for the globals one after the other, up to the first that failed.
pub open spec fn capture_failed(
    globals: Seq<CapturedGlobal>,
    made: Seq<Call>,
    states: Seq<GlobalState>,
    e: InvokeError,
) -> bool {
    let k = made.len() - 1;
    &&& 0 <= k < globals.len()
    &&& are_captured(globals.take(k), made.take(k), states)
    &&& made[k].function == getter_name(globals[k].module, globals[k].index)
    &&& refusal(globals[k].ty, made[k].reply) == Some(e)
}

/// The calls asked for the globals one after the other, up to one that holds a vector.
pub open spec fn capture_refused(
    globals: Seq<CapturedGlobal>,
    made: Seq<Call>,
    states: Seq<GlobalState>,
) -> bool {
    let k = made.len() as int;
    &&& k < globals.len()
    &&& are_captured(globals.take(k), made, states)
    &&& globals[k].ty == ValueType::V128
}

/// What asking for globals gives: their states, or why there are none, with what had
/// been captured by then.
pub open spec fn globals_outcome(
    globals: Seq<CapturedGlobal>,
    made: Seq<Call>,
    r: Result<Seq<GlobalState>, InitializeError>,
) -> bool {
    match r {
        Ok(states) => are_captured(globals, made, states),
        Err(InitializeError::Invoke(e)) => exists|states: Seq<GlobalState>|
            capture_failed(globals, made, states, e),
        Err(InitializeError::Rule(e)) => e == InitError::V128Global && exists|
            states: Seq<GlobalState>,
        |
            capture_refused(globals, made, states),
    }
}

/// The account is the one that the instance had, or one that it came to have by a call.
pub open spec fn is_history(
    histories: spec_fn(Seq<Call>) -> bool,
    before: Seq<Call>,
    after: Seq<Call>,
) -> bool {
    after == before || histories(after)
}

/// The calls made after others.
pub open spec fn since(before: Seq<Call>, after: Seq<Call>) -> Seq<Call> {
    after.skip(before.len() as int)
}

fn ask(invoker: &mut Box<dyn Invoker>, g: CapturedGlobal) -> (r: Result<
    GlobalState,
    InitializeError,
>)
    ensures
        final(invoker).histories() == old(invoker).histories(),
        is_history(old(invoker).histories(), old(invoker).calls(), final(invoker).calls()),
        match r {
            Ok(state) => {
                &&& final(invoker).calls().len() == old(invoker).calls().len() + 1
                &&& final(invoker).calls().drop_last() == old(invoker).calls()
                &&& is_captured(g, final(invoker).calls().last(), state)
            },
            Err(InitializeError::Invoke(e)) => {
                &&& final(invoker).calls().len() == old(invoker).calls().len() + 1
                &&& final(invoker).calls().drop_last() == old(invoker).calls()
                &&& final(invoker).calls().last().function == getter_name(g.module, g.index)
                &&& refusal(g.ty, final(invoker).calls().last().reply) == Some(e)
            },
            Err(InitializeError::Rule(e)) => {
                &&& e == InitError::V128Global
                &&& g.ty == ValueType::V128
                &&& final(invoker).calls() == old(invoker).calls()
            },
        },
{
    let name = global_getter(g.module, g.index);
    let ghost before = invoker.calls();
    let value = match g.ty {
        ValueType::I32 => match invoker.call_s32(name.as_str()) {
            Ok(n) => Ok(GlobalValue::I32(n)),
            Err(e) => Err(e),
        },
        ValueType::I64 => match invoker.call_s64(name.as_str()) {
            Ok(n) => Ok(GlobalValue::I64(n)),
            Err(e) => Err(e),
        },
        ValueType::F32 => match invoker.call_float32(name.as_str()) {
            Ok(bits) => Ok(GlobalValue::F32(bits)),
            Err(e) => Err(e),
        },
        ValueType::F64 => match invoker.call_float64(name.as_str()) {
            Ok(bits) => Ok(GlobalValue::F64(bits)),
            Err(e) => Err(e),
        },
        ValueType::V128 => {
            return Err(InitializeError::Rule(InitError::V128Global));
        },
    };
    assert(invoker.calls().drop_last() =~= before);
    match value {
        Ok(value) => Ok(GlobalState { module: g.module, index: g.index, value }),
        Err(e) => Err(InitializeError::Invoke(e)),
    }
}

fn capture_globals(invoker: &mut Box<dyn Invoker>, globals: &Vec<CapturedGlobal>) -> (r: Result<
    Vec<GlobalState>,
    InitializeError,
>)
    ensures
        final(invoker).histories() == old(invoker).histories(),
        is_history(old(invoker).histories(), old(invoker).calls(), final(invoker).calls()),
        final(invoker).calls() == old(invoker).calls() + since(
            old(invoker).calls(),
            final(invoker).calls(),
        ),
        globals_outcome(
            globals@,
            since(old(invoker).calls(), final(invoker).calls()),
            shown(r),
        ),
{
    let ghost before = invoker.calls();
    let mut states: Vec<GlobalState> = Vec::new();
    let mut i: usize = 0;
    assert(invoker.calls() =~= before + since(before, invoker.calls()));
    while i < globals.len()
        invariant
            i <= globals.len(),
            before == old(invoker).calls(),
            invoker.histories() == old(invoker).histories(),
            is_history(old(invoker).histories(), before, invoker.calls()),
            invoker.calls() == before + since(before, invoker.calls()),
            are_captured(
                globals@.take(i as int),
                since(before, invoker.calls()),
                states@,
            ),
        decreases globals.len() - i,
    {
        let ghost calls = invoker.calls();
        let ghost made = since(before, calls);
        let g = globals[i];
        let asked = ask(invoker, g);
        let ghost now = since(before, invoker.calls());
        proof {
            if asked is Err && asked->Err_0 is Rule {
                assert(capture_refused(globals@, now, states@));
            } else {
                assert(invoker.calls() =~= calls.push(invoker.calls().last()));
                assert(now =~= made.push(invoker.calls().last()));
            }
            assert(invoker.calls() =~= before + now);
            if asked is Err && asked->Err_0 is Invoke {
                assert(now.take(made.len() as int) =~= made);
                assert(capture_failed(globals@, now, states@, asked->Err_0->Invoke_0));
            }
        }
        match asked {
            Ok(state) => {
                let ghost known = states@;
                states.push(state);
                proof {
                    let gs = globals@.take(i + 1);
                    assert forall|k: int| 0 <= k < gs.len() implies is_captured(
                        gs[k],
                        now[k],
                        #[trigger] states@[k],
                    ) by {
                        if k < i {
                            assert(states@[k] == known[k]);
                            assert(globals@.take(i as int)[k] == gs[k]);
                        }
                    }
                }
            },
            Err(e) => {
                return Err(e);
            },
        }
        i += 1;
    }
    assert(globals@.take(i as int) =~= globals@);
    Ok(states)
}

/// What asking for the whole state gives: the globals are asked for first, then, if
/// there is one, the memory.
pub open spec fn capture_outcome(
    capture: CaptureV,
    made: Seq<Call>,
    r: Result<SnapshotV, InitializeError>,
) -> bool {
    let n = capture.globals.len() as int;
    match capture.memory {
        None => globals_outcome(
            capture.globals,
            made,
            match r {
                Ok(snapshot) => Ok(snapshot.globals),
                Err(e) => Err(e),
            },
        ) && (r is Ok ==> r->Ok_0.memory is None),
        Some(module) => {
            ||| r is Err && globals_outcome(capture.globals, made, Err(r->Err_0))
            ||| {
                &&& made.len() == n + 1
                &&& made[n].function == memory_getter_name()
                &&& match made[n].reply {
                    Reply::ListU8(Ok(image)) => {
                        &&& r is Ok
                        &&& r->Ok_0.memory == Some((module, image@))
                        &&& are_captured(capture.globals, made.take(n), r->Ok_0.globals)
                    },
                    Reply::ListU8(Err(e)) => {
                        &&& r == Err::<SnapshotV, _>(InitializeError::Invoke(e))
                        &&& exists|states: Seq<GlobalState>|
                            are_captured(capture.globals, made.take(n), states)
                    },
                    _ => false,
                }
            }
        },
    }
}

/// Asks an instance for its state.
pub fn capture_state(invoker: &mut Box<dyn Invoker>, capture: &Capture) -> (r: Result<
    Snapshot,
    InitializeError,
>)
    ensures
        final(invoker).histories() == old(invoker).histories(),
        is_history(old(invoker).histories(), old(invoker).calls(), final(invoker).calls()),
        final(invoker).calls() == old(invoker).calls() + since(
            old(invoker).calls(),
            final(invoker).calls(),
        ),
        capture_outcome(
            capture@,
            since(old(invoker).calls(), final(invoker).calls()),
            shown(r),
        ),
{
    let ghost before = invoker.calls();
    let globals = match capture_globals(invoker, &capture.globals) {
        Ok(globals) => globals,
        Err(e) => {
            return Err(e);
        },
    };
    match capture.memory {
        None => Ok(Snapshot { globals, memory: None }),
        Some(module) => {
            let ghost made = since(before, invoker.calls());
            let reply = invoker.call_list_u8("component-init-get-memory");
            proof {
                let now = since(before, invoker.calls());
                assert(now =~= made.push(invoker.calls().last()));
                assert(now.take(made.len() as int) =~= made);
                assert(invoker.calls() =~= before + now);
            }
            match reply {
                Ok(image) => Ok(
                    Snapshot { globals, memory: Some(MemoryState { module, image }) },
                ),
                Err(e) => Err(InitializeError::Invoke(e)),
            }
        },
    }
}

/// What comes of a component once an instance of the instrumented one has been asked for
/// its state by the given calls.
pub open spec fn outcome(
    component: Seq<u8>,
    capture: CaptureV,
    made: Seq<Call>,
    captured: Result<SnapshotV, InitializeError>,
    r: Result<Seq<u8>, InitializeError>,
) -> bool {
    &&& capture_outcome(capture, made, captured)
    &&& match captured {
        Ok(snapshot) => r == match initialized_bytes(component, snapshot) {
            Ok(bytes) => Ok(bytes),
            Err(e) => Err(InitializeError::Rule(e)),
        },
        Err(e) => r == Err::<Seq<u8>, _>(e),
    }
}

proof fn lemma_found(states: Seq<GlobalState>, k: int, ty: ValueType)
    requires
        0 <= k < states.len(),
        states[k].value.ty() == ty,
        forall|j: int|
            0 <= j < k ==> !((#[trigger] states[j]).module == states[k].module && states[j].index
                == states[k].index),
    ensures
        value_of(states, states[k].module, states[k].index, ty) == Some(states[k].value),
    decreases states.len(),
{
    if k > 0 {
        let rest = states.skip(1);
        assert(rest[k - 1] == states[k]);
        assert forall|j: int| 0 <= j < k - 1 implies !((#[trigger] rest[j]).module
            == rest[k - 1].module && rest[j].index == rest[k - 1].index) by {
            assert(rest[j] == states[j + 1]);
        }
        assert(!(states[0].module == states[k].module && states[0].index == states[k].index));
        lemma_found(rest, k - 1, ty);
    }
}

/// The calls that asked for the globals, whether or not there is a memory.
pub proof fn lemma_globals_captured(capture: CaptureV, made: Seq<Call>, snapshot: SnapshotV)
    requires
        capture_outcome(capture, made, Ok(snapshot)),
    ensures
        made.len() >= capture.globals.len(),
        are_captured(
            capture.globals,
            made.take(capture.globals.len() as int),
            snapshot.globals,
        ),
{
    assert(made.take(made.len() as int) =~= made);
}

/// Every global that is to be captured gets the value that the function that reads it
/// returned.
pub proof fn law_global_gets_captured_value(
    component: Seq<u8>,
    made: Seq<Call>,
    snapshot: SnapshotV,
    k: int,
)
    requires
        instrumented_bytes(component) is Ok,
        capture_outcome(instrumented_bytes(component)->Ok_0.1, made, Ok(snapshot)),
        0 <= k < instrumented_bytes(component)->Ok_0.1.globals.len(),
    ensures
        ({
            let g = instrumented_bytes(component)->Ok_0.1.globals[k];
            &&& made[k].function == getter_name(g.module, g.index)
            &&& answer(g.ty, made[k].reply) is Some
            &&& value_of(snapshot.globals, g.module, g.index, g.ty) == answer(
                g.ty,
                made[k].reply,
            )
        }),
{
    let s = survey_of(component)->Ok_0;
    let capture = to_capture(live(s));
    lemma_globals_captured(capture, made, snapshot);
    let states = snapshot.globals;
    assert(is_captured(
        capture.globals[k],
        made.take(capture.globals.len() as int)[k],
        states[k],
    ));
    law_captured_globals_come_in_order(component, tree(component));
    assert forall|j: int| 0 <= j < k implies !((#[trigger] states[j]).module == states[k].module
        && states[j].index == states[k].index) by {
        assert(is_captured(
            capture.globals[j],
            made.take(capture.globals.len() as int)[j],
            states[j],
        ));
        assert(precedes(places(live(s).exposed)[j], places(live(s).exposed)[k]));
    }
    lemma_found(states, k, capture.globals[k].ty);
}

/// The memory that is to be captured gets the image that the function that reads it
/// returned, in the last call.
pub proof fn law_memory_gets_captured_image(
    capture: CaptureV,
    made: Seq<Call>,
    snapshot: SnapshotV,
)
    requires
        capture_outcome(capture, made, Ok(snapshot)),
        capture.memory is Some,
    ensures
        made.len() == capture.globals.len() + 1,
        made.last().function == memory_getter_name(),
        made.last().reply matches Reply::ListU8(Ok(image)) && snapshot.memory == Some(
            (capture.memory->Some_0, image@),
        ),
{
}

/// There is one call for each global and then one for the memory, if there is one, and no
/// other.  So where there is nothing to capture, nothing is called.
pub proof fn law_one_call_for_each_part(capture: CaptureV, made: Seq<Call>, snapshot: SnapshotV)
    requires
        capture_outcome(capture, made, Ok(snapshot)),
    ensures
        made.len() == capture.globals.len() + if capture.memory is Some {
            1nat
        } else {
            0
        },
        capture.memory is None ==> snapshot.memory is None,
        forall|k: int|
            0 <= k < capture.globals.len() ==> (#[trigger] made[k]).function == getter_name(
                capture.globals[k].module,
                capture.globals[k].index,
            ) && answer(capture.globals[k].ty, made[k].reply) is Some,
{
    lemma_globals_captured(capture, made, snapshot);
    let n = capture.globals.len() as int;
    assert forall|k: int| 0 <= k < n implies (#[trigger] made[k]).function == getter_name(
        capture.globals[k].module,
        capture.globals[k].index,
    ) && answer(capture.globals[k].ty, made[k].reply) is Some by {
        assert(is_captured(capture.globals[k], made.take(n)[k], snapshot.globals[k]));
    }
}

/// The error in a reply, if there is one.
pub open spec fn failure(reply: Reply) -> Option<InvokeError> {
    match reply {
        Reply::S32(Err(e)) => Some(e),
        Reply::S64(Err(e)) => Some(e),
        Reply::Float32(Err(e)) => Some(e),
        Reply::Float64(Err(e)) => Some(e),
        Reply::ListU8(Err(e)) => Some(e),
        _ => None,
    }
}

proof fn lemma_no_failure(
    globals: Seq<CapturedGlobal>,
    made: Seq<Call>,
    states: Seq<GlobalState>,
    k: int,
)
    requires
        are_captured(globals, made, states),
        0 <= k < made.len(),
    ensures
        failure(made[k].reply) is None,
{
    assert(is_captured(globals[k], made[k], states[k]));
}

/// The error of a call that fails is the one that is returned, and no call follows it.
pub proof fn law_first_failure_ends_the_calls(capture: CaptureV, made: Seq<Call>, e: InvokeError)
    requires
        capture_outcome(capture, made, Err(InitializeError::Invoke(e))),
    ensures
        made.len() > 0,
        failure(made.last().reply) == Some(e),
        forall|k: int| 0 <= k < made.len() - 1 ==> failure((#[trigger] made[k]).reply) is None,
{
    let globals = capture.globals;
    let n = made.len() - 1;
    if exists|states: Seq<GlobalState>| capture_failed(globals, made, states, e) {
        let states = choose|states: Seq<GlobalState>| capture_failed(globals, made, states, e);
        assert forall|k: int| 0 <= k < n implies failure((#[trigger] made[k]).reply) is None by {
            lemma_no_failure(globals.take(n), made.take(n), states, k);
        }
    } else {
        let states = choose|states: Seq<GlobalState>|
            are_captured(globals, made.take(globals.len() as int), states);
        assert forall|k: int| 0 <= k < n implies failure((#[trigger] made[k]).reply) is None by {
            lemma_no_failure(globals, made.take(globals.len() as int), states, k);
        }
    }
}

/// Once the state has been captured, what can stand in the way is its size alone: the
/// memory holds data at an address that no data segment can have, or a section is too
/// large to be encoded.
pub proof fn law_captured_state_fails_by_size_only(
    component: Seq<u8>,
    made: Seq<Call>,
    snapshot: SnapshotV,
)
    requires
        well_placed(component.len(), tree(component)),
        instrumented_bytes(component) is Ok,
        capture_outcome(instrumented_bytes(component)->Ok_0.1, made, Ok(snapshot)),
    ensures
        match initialized_bytes(component, snapshot) {
            Ok(_) => true,
            Err(e) => is_beyond_reach(snapshot, e) || e == InitError::TooLarge,
        },
{
    let s = survey_of(component)->Ok_0;
    let capture = to_capture(live(s));
    assert forall|k: int| 0 <= k < capture.globals.len() implies value_of(
        snapshot.globals,
        (#[trigger] capture.globals[k]).module,
        capture.globals[k].index,
        capture.globals[k].ty,
    ) is Some by {
        law_global_gets_captured_value(component, made, snapshot, k);
    }
    law_captured_state_suffices(component, tree(component), snapshot);
}

/// What comes of a component once an instance has been asked for its state by the given
/// calls, and by no others.
pub open spec fn asked_outcome(
    component: Seq<u8>,
    capture: CaptureV,
    made: Seq<Call>,
    r: Result<Seq<u8>, InitializeError>,
) -> bool {
    exists|captured: Result<SnapshotV, InitializeError>|
        outcome(component, capture, made, captured, r)
}

/// What comes of a component once the instance with these histories, which had got the
/// calls `before`, has been asked for its state: `after` is the account that it then has.
pub open spec fn possible_outcome(
    component: Seq<u8>,
    capture: CaptureV,
    histories: spec_fn(Seq<Call>) -> bool,
    before: Seq<Call>,
    r: Result<Seq<u8>, InitializeError>,
) -> bool {
    exists|after: Seq<Call>|
        before.is_prefix_of(after) && #[trigger] is_history(histories, before, after)
            && asked_outcome(component, capture, since(before, after), r)
}

/// If the outcome is an error of the library's own, a size is the reason.
pub open spec fn fails_by_size_only(r: Result<Seq<u8>, InitializeError>) -> bool {
    match r {
        Err(InitializeError::Rule(e)) => e == InitError::MemoryTooLarge || e
            == InitError::TooLarge,
        _ => true,
    }
}

/// The capture is what there is to capture of the component.
pub open spec fn is_capture_of(component: Seq<u8>, capture: CaptureV) -> bool {
    instrumented_bytes(component) is Ok && instrumented_bytes(component)->Ok_0.1 == capture
}

proof fn lemma_not_refused(component: Seq<u8>, made: Seq<Call>, e: InitializeError)
    requires
        instrumented_bytes(component) is Ok,
        capture_outcome(instrumented_bytes(component)->Ok_0.1, made, Err(e)),
    ensures
        e is Invoke,
{
    let s = survey_of(component)->Ok_0;
    let capture = to_capture(live(s));
    if let InitializeError::Rule(e) = e {
        let states = choose|states: Seq<GlobalState>|
            capture_refused(capture.globals, made, states);
        assert(capture_refused(capture.globals, made, states));
        law_captured_globals_are_numbers(s, made.len() as int);
    }
}

/// Asks an instance for its state, and makes the initialized component from it.  The calls
/// that the instance gets are those for the state, up to the first that fails, and no
/// others.
pub fn complete(component: &[u8], capture: &Capture, invoker: &mut Box<dyn Invoker>) -> (r: Result<
    Vec<u8>,
    InitializeError,
>)
    ensures
        final(invoker).histories() == old(invoker).histories(),
        is_history(old(invoker).histories(), old(invoker).calls(), final(invoker).calls()),
        old(invoker).calls().is_prefix_of(final(invoker).calls()),
        asked_outcome(
            component@,
            capture@,
            since(old(invoker).calls(), final(invoker).calls()),
            shown(r),
        ),
        is_capture_of(component@, capture@) ==> fails_by_size_only(shown(r)),
{
    let ghost before = invoker.calls();
    let captured = capture_state(invoker, capture);
    let ghost made = since(before, invoker.calls());
    assert(before.is_prefix_of(invoker.calls()));
    match captured {
        Ok(snapshot) => {
            let r = match restore(component, &snapshot) {
                Ok(bytes) => Ok(bytes),
                Err(e) => Err(InitializeError::Rule(e)),
            };
            assert(outcome(component@, capture@, made, Ok(snapshot@), shown(r)));
            proof {
                if is_capture_of(component@, capture@) {
                    law_captured_state_fails_by_size_only(component@, made, snapshot@);
                }
            }
            r
        },
        Err(e) => {
            assert(outcome(component@, capture@, made, Err(e), shown::<Vec<u8>>(Err(e))));
            proof {
                if is_capture_of(component@, capture@) {
                    lemma_not_refused(component@, made, e);
                }
            }
            Err(e)
        },
    }
}

/// What comes of a component that keeps to the rules: `start` is handed the instrumented
/// component, and makes an instance of it or fails.
pub open spec fn started_outcome<F: FnOnce(&[u8]) -> Result<Box<dyn Invoker>, InvokeError>>(
    component: Seq<u8>,
    instrumented: Seq<u8>,
    capture: CaptureV,
    start: F,
    input: &[u8],
    started: Result<Box<dyn Invoker>, InvokeError>,
    r: Result<Seq<u8>, InitializeError>,
) -> bool {
    &&& input@ == instrumented
    &&& call_ensures(start, (input,), started)
    &&& match started {
        Ok(invoker) => possible_outcome(
            component,
            capture,
            invoker.histories(),
            invoker.calls(),
            r,
        ) && fails_by_size_only(r),
        Err(e) => r == Err::<Seq<u8>, _>(InitializeError::Invoke(e)),
    }
}

/// What can come of any component.
pub open spec fn initialize_outcome<F: FnOnce(&[u8]) -> Result<Box<dyn Invoker>, InvokeError>>(
    component: Seq<u8>,
    start: F,
    r: Result<Seq<u8>, InitializeError>,
) -> bool {
    match instrumented_bytes(component) {
        Ok(made) => exists|input: &[u8], started: Result<Box<dyn Invoker>, InvokeError>|
            #[trigger] started_outcome(component, made.0, made.1, start, input, started, r),
        Err(e) => r == Err::<Seq<u8>, _>(InitializeError::Rule(e)),
    }
}

proof fn lemma_started<F: FnOnce(&[u8]) -> Result<Box<dyn Invoker>, InvokeError>>(
    component: Seq<u8>,
    bytes: Seq<u8>,
    capture: CaptureV,
    start: F,
    input: &[u8],
    started: Result<Box<dyn Invoker>, InvokeError>,
    r: Result<Seq<u8>, InitializeError>,
)
    requires
        instrumented_bytes(component) == Ok::<_, InitError>((bytes, capture)),
        started_outcome(component, bytes, capture, start, input, started, r),
    ensures
        initialize_outcome(component, start, r),
{
    let made = instrumented_bytes(component)->Ok_0;
    assert(started_outcome(component, made.0, made.1, start, input, started, r));
}

/// Instruments a component, has `start` make an instance of it, and captures the state
/// of the instance in a new component.
pub fn initialize<F: FnOnce(&[u8]) -> Result<Box<dyn Invoker>, InvokeError>>(
    component: &[u8],
    start: F,
) -> (r: Result<Vec<u8>, InitializeError>)
    requires
        forall|input: &[u8]| #[trigger] call_requires(start, (input,)),
    ensures
        initialize_outcome(component@, start, shown(r)),
{
    let (bytes, capture) = match instrument(component) {
        Ok(instrumented) => instrumented,
        Err(e) => {
            return Err(InitializeError::Rule(e));
        },
    };
    let input = bytes.as_slice();
    let started = start(input);
    let ghost given = started;
    let r = match started {
        Ok(invoker) => {
            let mut invoker = invoker;
            let ghost before = invoker.calls();
            let ghost histories = invoker.histories();
            let r = complete(component, &capture, &mut invoker);
            assert(is_history(histories, before, invoker.calls()));
            assert(possible_outcome(component@, capture@, histories, before, shown(r)));
            r
        },
        Err(e) => Err(InitializeError::Invoke(e)),
    };
    proof {
        lemma_started(component@, bytes@, capture@, start, input, given, shown(r));
    }
    r
}

} // verus!
