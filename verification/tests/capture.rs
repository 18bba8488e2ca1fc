use componentize_py::capture::{next_question, no_answers, record, Answer, Question, ReplyKind};
use componentize_py::error::InitError;
use componentize_py::instrument::{Capture, CapturedGlobal};
use componentize_py::snapshot::{GlobalState, GlobalValue, MemoryState, Snapshot};
use componentize_py::wasm::ValueType;

fn capture() -> Capture {
    Capture {
        globals: vec![
            CapturedGlobal { module: 0, index: 1, ty: ValueType::I32 },
            CapturedGlobal { module: 0, index: 2, ty: ValueType::I64 },
            CapturedGlobal { module: 3, index: 0, ty: ValueType::F32 },
            CapturedGlobal { module: 3, index: 4, ty: ValueType::F64 },
        ],
        memory: Some(3),
    }
}

fn question(function: &str, kind: ReplyKind) -> Result<Option<Question>, InitError> {
    Ok(Some(Question { function: function.to_string(), kind }))
}

#[test]
fn questions_come_in_order() {
    let capture = capture();
    assert_eq!(
        next_question(&capture, 0),
        question("component-init-get-module0-global1", ReplyKind::S32)
    );
    assert_eq!(
        next_question(&capture, 1),
        question("component-init-get-module0-global2", ReplyKind::S64)
    );
    assert_eq!(
        next_question(&capture, 2),
        question("component-init-get-module3-global0", ReplyKind::Float32)
    );
    assert_eq!(
        next_question(&capture, 3),
        question("component-init-get-module3-global4", ReplyKind::Float64)
    );
    assert_eq!(
        next_question(&capture, 4),
        question("component-init-get-memory", ReplyKind::ListU8)
    );
    assert_eq!(next_question(&capture, 5), Ok(None));
}

#[test]
fn without_memory_there_is_no_question_for_it() {
    let mut capture = capture();
    capture.memory = None;
    assert_eq!(next_question(&capture, 4), Ok(None));
    capture.globals[0].ty = ValueType::V128;
    assert_eq!(next_question(&capture, 0), Err(InitError::V128Global));
}

#[test]
fn answers_make_the_snapshot() {
    let capture = capture();
    let answers = vec![
        Answer::S32(-7),
        Answer::S64(8),
        Answer::Float32(9),
        Answer::Float64(10),
        Answer::ListU8(vec![1, 2]),
    ];
    let mut known = no_answers();
    for (asked, answer) in answers.into_iter().enumerate() {
        known = record(&capture, asked, known, answer).unwrap();
    }
    assert_eq!(
        known,
        Snapshot {
            globals: vec![
                GlobalState { module: 0, index: 1, value: GlobalValue::I32(-7) },
                GlobalState { module: 0, index: 2, value: GlobalValue::I64(8) },
                GlobalState { module: 3, index: 0, value: GlobalValue::F32(9) },
                GlobalState { module: 3, index: 4, value: GlobalValue::F64(10) },
            ],
            memory: Some(MemoryState { module: 3, image: vec![1, 2] }),
        }
    );
}

#[test]
fn an_answer_must_be_of_the_kind_that_was_asked_for() {
    assert_eq!(record(&capture(), 0, no_answers(), Answer::S64(1)), None);
    assert_eq!(record(&capture(), 4, no_answers(), Answer::S32(1)), None);
    assert_eq!(record(&capture(), 5, no_answers(), Answer::ListU8(vec![])), None);
}
