//! Capturing the state of an instance question by question, for those who make the calls
//! themselves.
use vstd::prelude::*;
use vstd::string::StringExecFns;
use crate::error::InitError;
use crate::initialize::{answer, are_captured, capture_outcome, is_captured, Call, Reply};
use crate::instrument::{getter_name, global_getter, memory_getter_name, Capture, CaptureV};
use crate::snapshot::{GlobalState, GlobalValue, MemoryState, Snapshot, SnapshotV};
use crate::wasm::ValueType;

verus! {

/// What a function without parameters returns.
#[derive(Clone, Copy, Debug, PartialEq, Eq, Structural)]
pub enum ReplyKind {
    S32,
    S64,
    Float32,
    Float64,
    ListU8,
}

/// A call to be made.
#[derive(Debug, PartialEq, Eq)]
pub struct Question {
    pub function: String,
    pub kind: ReplyKind,
}

pub struct QuestionV {
    pub function: Seq<char>,
    pub kind: ReplyKind,
}

impl View for Question {
    type V = QuestionV;

    open spec fn view(&self) -> QuestionV {
        QuestionV { function: self.function@, kind: self.kind }
    }
}

/// What a call returned; a floating-point number is given by its bits.
#[derive(Debug, PartialEq, Eq)]
pub enum Answer {
    S32(i32),
    S64(i64),
    Float32(u32),
    Float64(u64),
    ListU8(Vec<u8>),
}

/// The call to be made after so many others: one for each global, and then one for the
/// memory.
pub open spec fn question(capture: CaptureV, asked: nat) -> Result<Option<QuestionV>, InitError> {
    if asked < capture.globals.len() {
        let g = capture.globals[asked as int];
        let function = getter_name(g.module, g.index);
        match g.ty {
            ValueType::I32 => Ok(Some(QuestionV { function, kind: ReplyKind::S32 })),
            ValueType::I64 => Ok(Some(QuestionV { function, kind: ReplyKind::S64 })),
            ValueType::F32 => Ok(Some(QuestionV { function, kind: ReplyKind::Float32 })),
            ValueType::F64 => Ok(Some(QuestionV { function, kind: ReplyKind::Float64 })),
            ValueType::V128 => Err(InitError::V128Global),
        }
    } else if asked == capture.globals.len() && capture.memory is Some {
        Ok(Some(QuestionV { function: memory_getter_name(), kind: ReplyKind::ListU8 }))
    } else {
        Ok(None)
    }
}

/// Says which call is to be made after so many others, if one is.
pub fn next_question(capture: &Capture, asked: usize) -> (r: Result<Option<Question>, InitError>)
    ensures
        match r {
            Ok(Some(q)) => question(capture@, asked as nat) == Ok::<_, InitError>(Some(q@)),
            Ok(None) => question(capture@, asked as nat) == Ok::<Option<QuestionV>, InitError>(
                None,
            ),
            Err(e) => question(capture@, asked as nat) == Err::<Option<QuestionV>, _>(e),
        },
{
    if asked < capture.globals.len() {
        let g = capture.globals[asked];
        let kind = match g.ty {
            ValueType::I32 => ReplyKind::S32,
            ValueType::I64 => ReplyKind::S64,
            ValueType::F32 => ReplyKind::Float32,
            ValueType::F64 => ReplyKind::Float64,
            ValueType::V128 => {
                return Err(InitError::V128Global);
            },
        };
        Ok(Some(Question { function: global_getter(g.module, g.index), kind }))
    } else if asked == capture.globals.len() && capture.memory.is_some() {
        Ok(
            Some(
                Question {
                    function: String::from_str("component-init-get-memory"),
                    kind: ReplyKind::ListU8,
                },
            ),
        )
    } else {
        Ok(None)
    }
}

/// The reply of a call that did not fail.
pub open spec fn reply_of(a: Answer) -> Reply {
    match a {
        Answer::S32(n) => Reply::S32(Ok(n)),
        Answer::S64(n) => Reply::S64(Ok(n)),
        Answer::Float32(bits) => Reply::Float32(Ok(bits)),
        Answer::Float64(bits) => Reply::Float64(Ok(bits)),
        Answer::ListU8(data) => Reply::ListU8(Ok(data)),
    }
}

/// What is known once the answer to the question after so many others has come, unless it
/// is no answer to it.
pub open spec fn recorded(capture: CaptureV, asked: nat, known: SnapshotV, a: Answer) -> Option<
    SnapshotV,
> {
    if asked < capture.globals.len() {
        let g = capture.globals[asked as int];
        match answer(g.ty, reply_of(a)) {
            Some(value) => Some(
                SnapshotV {
                    globals: known.globals.push(
                        GlobalState { module: g.module, index: g.index, value },
                    ),
                    ..known
                },
            ),
            None => None,
        }
    } else if asked == capture.globals.len() && capture.memory is Some {
        match a {
            Answer::ListU8(data) => Some(
                SnapshotV { memory: Some((capture.memory->Some_0, data@)), ..known },
            ),
            _ => None,
        }
    } else {
        None
    }
}

/// Records the answer to the question after so many others.
pub fn record(capture: &Capture, asked: usize, known: Snapshot, a: Answer) -> (r: Option<Snapshot>)
    ensures
        match r {
            Some(s) => recorded(capture@, asked as nat, known@, a) == Some(s@),
            None => recorded(capture@, asked as nat, known@, a) is None,
        },
{
    let mut known = known;
    if asked < capture.globals.len() {
        let g = capture.globals[asked];
        let value = match (g.ty, a) {
            (ValueType::I32, Answer::S32(n)) => GlobalValue::I32(n),
            (ValueType::I64, Answer::S64(n)) => GlobalValue::I64(n),
            (ValueType::F32, Answer::Float32(bits)) => GlobalValue::F32(bits),
            (ValueType::F64, Answer::Float64(bits)) => GlobalValue::F64(bits),
            _ => {
                return None;
            },
        };
        known.globals.push(GlobalState { module: g.module, index: g.index, value });
        Some(known)
    } else if asked == capture.globals.len() {
        match (capture.memory, a) {
            (Some(module), Answer::ListU8(image)) => {
                known.memory = Some(MemoryState { module, image });
                Some(known)
            },
            _ => None,
        }
    } else {
        None
    }
}

/// Nothing is known yet.
pub open spec fn nothing_known() -> SnapshotV {
    SnapshotV { globals: seq![], memory: None }
}

/// What to start from when nothing has been asked yet.
pub fn no_answers() -> (s: Snapshot)
    ensures
        s@ == nothing_known(),
{
    Snapshot { globals: Vec::new(), memory: None }
}

/// What is known once answers to the first questions have come.
pub open spec fn recorded_all(capture: CaptureV, answers: Seq<Answer>) -> Option<SnapshotV>
    decreases answers.len(),
{
    if answers.len() == 0 {
        Some(nothing_known())
    } else {
        match recorded_all(capture, answers.drop_last()) {
            Some(known) => recorded(
                capture,
                (answers.len() - 1) as nat,
                known,
                answers.last(),
            ),
            None => None,
        }
    }
}

/// The calls that were made for the answers.
pub open spec fn calls_for(capture: CaptureV, answers: Seq<Answer>) -> Seq<Call> {
    Seq::new(
        answers.len(),
        |k: int|
            Call {
                function: question(capture, k as nat)->Ok_0->Some_0.function,
                reply: reply_of(answers[k]),
            },
    )
}

proof fn lemma_recorded(capture: CaptureV, answers: Seq<Answer>)
    requires
        recorded_all(capture, answers) is Some,
        answers.len() <= capture.globals.len(),
    ensures
        ({
            let known = recorded_all(capture, answers)->Some_0;
            &&& known.memory is None
            &&& are_captured(
                capture.globals.take(answers.len() as int),
                calls_for(capture, answers),
                known.globals,
            )
        }),
    decreases answers.len(),
{
    if answers.len() > 0 {
        let rest = answers.drop_last();
        let n = rest.len() as int;
        lemma_recorded(capture, rest);
        let before = recorded_all(capture, rest)->Some_0;
        let known = recorded_all(capture, answers)->Some_0;
        let globals = capture.globals.take(n + 1);
        let made = calls_for(capture, answers);
        assert(known.globals.len() == n + 1);
        assert forall|k: int| 0 <= k < globals.len() implies is_captured(
            globals[k],
            made[k],
            #[trigger] known.globals[k],
        ) by {
            if k < n {
                assert(known.globals[k] == before.globals[k]);
                assert(capture.globals.take(n)[k] == globals[k]);
                assert(calls_for(capture, rest)[k] == made[k]);
            }
        }
    }
}

/// Once every question has been answered, what is known is the captured state: the same
/// that asking in one go gives for the same replies.
pub proof fn law_answers_are_the_captured_state(capture: CaptureV, answers: Seq<Answer>)
    requires
        recorded_all(capture, answers) is Some,
        question(capture, answers.len()) == Ok::<Option<QuestionV>, InitError>(None),
    ensures
        capture_outcome(
            capture,
            calls_for(capture, answers),
            Ok(recorded_all(capture, answers)->Some_0),
        ),
{
    let n = capture.globals.len() as int;
    if answers.len() == n {
        lemma_recorded(capture, answers);
        assert(capture.globals.take(n) =~= capture.globals);
    } else {
        let rest = answers.drop_last();
        lemma_not_beyond(capture, answers);
        assert(rest.len() == n);
        lemma_recorded(capture, rest);
        assert(capture.globals.take(n) =~= capture.globals);
        assert(calls_for(capture, answers).take(n) =~= calls_for(capture, rest));
    }
}

/// Before anything has been asked nothing is known, and the first answer is the first thing
/// that is known.
pub proof fn law_nothing_is_known_at_first(capture: CaptureV, a: Answer)
    ensures
        nothing_known().globals.len() == 0,
        nothing_known().memory is None,
        recorded_all(capture, seq![a]) matches Some(known) ==> known.globals.len()
            + (if known.memory is Some {
            1int
        } else {
            0
        }) == 1,
{
    reveal_with_fuel(recorded_all, 2);
    assert(seq![a].drop_last() =~= Seq::<Answer>::empty());
}

proof fn lemma_not_beyond(capture: CaptureV, answers: Seq<Answer>)
    requires
        recorded_all(capture, answers) is Some,
    ensures
        answers.len() <= capture.globals.len() + 1,
        answers.len() == capture.globals.len() + 1 ==> capture.memory is Some,
{
}

} // verus!
