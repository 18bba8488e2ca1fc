use componentize_py::error::InitError;
use componentize_py::initialize::{
    capture_state, initialize, InitializeError, InvokeError, Invoker,
};
use componentize_py::instrument::{Capture, CapturedGlobal};
use componentize_py::snapshot::{GlobalState, GlobalValue, MemoryState, Snapshot};
use componentize_py::wasm::ValueType;
use std::cell::RefCell;
use std::rc::Rc;
use wasmtime::component::{Component, ComponentNamedList, Instance, Lift, Linker, Lower};
use wasmtime::{Config, Engine, Store};

const COUNTER: &str = r#"
(component
  (core module $m
    (memory (export "memory") 1)
    (global $sp (export "__stack_pointer") (mut i32) (i32.const 1024))
    (global $hidden (mut i64) (i64.const 7))
    (global $fixed i32 (i32.const 3))
    (global $single (export "single") (mut f32) (f32.const 1.5))
    (global $double (mut f64) (f64.const 0))
    (data (i32.const 2000) "hello")
    (func $start (i32.store8 (i32.const 4000) (i32.add (i32.load8_u (i32.const 4000)) (i32.const 1))))
    (start $start)
    (func (export "run") (result i32)
      (global.set $hidden (i64.add (global.get $hidden) (i64.const 35)))
      (global.set $single (f32.const -0.25))
      (global.set $double (f64.const 6.5))
      (i32.store8 (i32.const 3000) (i32.add (i32.load8_u (i32.const 3000)) (i32.const 1)))
      (i32.add (global.get $fixed) (i32.load8_u (i32.const 3000)))))
  (core instance $i (instantiate $m))
  (func (export "run") (result s32) (canon lift (core func $i "run"))))
"#;

fn engine() -> Engine {
    let mut config = Config::new();
    config.wasm_component_model(true);
    config.static_memory_maximum_size(0);
    config.dynamic_memory_guard_size(65536);
    config.dynamic_memory_reserved_for_growth(0);
    Engine::new(&config).unwrap()
}

struct Running {
    store: Store<()>,
    instance: Instance,
}

impl Running {
    fn new(bytes: &[u8]) -> Running {
        let engine = engine();
        let component = Component::new(&engine, bytes).unwrap();
        let mut store = Store::new(&engine, ());
        let instance = Linker::new(&engine).instantiate(&mut store, &component).unwrap();
        Running { store, instance }
    }

    fn call<T: Lift + Lower>(&mut self, function: &str) -> Result<T, InvokeError>
    where
        (T,): ComponentNamedList + Lift,
    {
        let function = match self.instance.get_typed_func::<(), (T,)>(&mut self.store, function) {
            Ok(function) => function,
            Err(e) => return Err(InvokeError { message: e.to_string() }),
        };
        let (value,) = function.call(&mut self.store, ()).unwrap();
        function.post_return(&mut self.store).unwrap();
        Ok(value)
    }
}

impl Invoker for Running {
    fn call_s32(&mut self, function: &str) -> Result<i32, InvokeError> {
        self.call(function)
    }
    fn call_s64(&mut self, function: &str) -> Result<i64, InvokeError> {
        self.call(function)
    }
    fn call_float32(&mut self, function: &str) -> Result<u32, InvokeError> {
        self.call::<f32>(function).map(f32::to_bits)
    }
    fn call_float64(&mut self, function: &str) -> Result<u64, InvokeError> {
        self.call::<f64>(function).map(f64::to_bits)
    }
    fn call_list_u8(&mut self, function: &str) -> Result<Vec<u8>, InvokeError> {
        self.call(function)
    }
}

#[test]
fn an_initialized_component_starts_where_the_instance_was() {
    let component = wat::parse_str(COUNTER).unwrap();
    let initialized = initialize(&component, |bytes: &[u8]| {
        let mut running = Running::new(bytes);
        assert_eq!(running.call::<i32>("run").unwrap(), 4);
        assert_eq!(running.call::<i32>("run").unwrap(), 5);
        Ok(Box::new(running) as Box<dyn Invoker>)
    })
    .unwrap();
    // The run that follows goes on from the two that were made.
    let mut running = Running::new(&initialized);
    assert_eq!(running.call::<i32>("run").unwrap(), 6);
    // The state of the new component can be captured in turn, before anything runs.
    let again = initialize(&initialized, |bytes: &[u8]| {
        let mut running = Running::new(bytes);
        let capture = Capture {
            globals: vec![
                CapturedGlobal { module: 0, index: 0, ty: ValueType::I32 },
                CapturedGlobal { module: 0, index: 1, ty: ValueType::I64 },
                CapturedGlobal { module: 0, index: 3, ty: ValueType::F32 },
                CapturedGlobal { module: 0, index: 4, ty: ValueType::F64 },
            ],
            memory: Some(0),
        };
        let mut invoker: Box<dyn Invoker> = Box::new(Running::new(bytes));
        let snapshot = capture_state(&mut invoker, &capture).unwrap();
        assert_eq!(
            snapshot.globals,
            vec![
                GlobalState { module: 0, index: 0, value: GlobalValue::I32(1024) },
                GlobalState { module: 0, index: 1, value: GlobalValue::I64(77) },
                GlobalState { module: 0, index: 3, value: GlobalValue::F32((-0.25f32).to_bits()) },
                GlobalState { module: 0, index: 4, value: GlobalValue::F64(6.5f64.to_bits()) },
            ]
        );
        let memory = snapshot.memory.unwrap();
        assert_eq!(memory.module, 0);
        assert_eq!(&memory.image[2000..2005], b"hello");
        assert_eq!(memory.image[3000], 2);
        // The start function has run once, not twice.
        assert_eq!(memory.image[4000], 1);
        assert_eq!(running.call::<i32>("run").unwrap(), 6);
        Ok(Box::new(Running::new(bytes)) as Box<dyn Invoker>)
    })
    .unwrap();
    let mut running = Running::new(&again);
    assert_eq!(running.call::<i32>("run").unwrap(), 6);
}

/// Answers every question in the same way, and keeps the questions.
struct Scripted {
    asked: Rc<RefCell<Vec<String>>>,
    fail_at: Option<usize>,
}

impl Scripted {
    fn answer<T>(&mut self, function: &str, value: T) -> Result<T, InvokeError> {
        let mut asked = self.asked.borrow_mut();
        asked.push(function.to_string());
        if self.fail_at == Some(asked.len()) {
            return Err(InvokeError { message: "no answer".to_string() });
        }
        Ok(value)
    }
}

impl Invoker for Scripted {
    fn call_s32(&mut self, function: &str) -> Result<i32, InvokeError> {
        self.answer(function, -1)
    }
    fn call_s64(&mut self, function: &str) -> Result<i64, InvokeError> {
        self.answer(function, -2)
    }
    fn call_float32(&mut self, function: &str) -> Result<u32, InvokeError> {
        self.answer(function, 3)
    }
    fn call_float64(&mut self, function: &str) -> Result<u64, InvokeError> {
        self.answer(function, 4)
    }
    fn call_list_u8(&mut self, function: &str) -> Result<Vec<u8>, InvokeError> {
        self.answer(function, vec![1, 2, 3])
    }
}

fn scripted(fail_at: Option<usize>) -> (Rc<RefCell<Vec<String>>>, Box<dyn Invoker>) {
    let asked = Rc::new(RefCell::new(Vec::new()));
    (asked.clone(), Box::new(Scripted { asked, fail_at }))
}

fn everything() -> Capture {
    Capture {
        globals: vec![
            CapturedGlobal { module: 0, index: 2, ty: ValueType::I32 },
            CapturedGlobal { module: 0, index: 10, ty: ValueType::I64 },
            CapturedGlobal { module: 1, index: 0, ty: ValueType::F32 },
            CapturedGlobal { module: 12, index: 7, ty: ValueType::F64 },
        ],
        memory: Some(1),
    }
}

#[test]
fn globals_are_asked_for_in_order_and_then_the_memory() {
    let (asked, mut invoker) = scripted(None);
    let snapshot = capture_state(&mut invoker, &everything()).unwrap();
    assert_eq!(
        *asked.borrow(),
        vec![
            "component-init-get-module0-global2",
            "component-init-get-module0-global10",
            "component-init-get-module1-global0",
            "component-init-get-module12-global7",
            "component-init-get-memory",
        ]
    );
    assert_eq!(
        snapshot,
        Snapshot {
            globals: vec![
                GlobalState { module: 0, index: 2, value: GlobalValue::I32(-1) },
                GlobalState { module: 0, index: 10, value: GlobalValue::I64(-2) },
                GlobalState { module: 1, index: 0, value: GlobalValue::F32(3) },
                GlobalState { module: 12, index: 7, value: GlobalValue::F64(4) },
            ],
            memory: Some(MemoryState { module: 1, image: vec![1, 2, 3] }),
        }
    );
}

#[test]
fn the_first_failing_call_is_the_last() {
    for at in 1..=5 {
        let (asked, mut invoker) = scripted(Some(at));
        let e = capture_state(&mut invoker, &everything()).unwrap_err();
        assert_eq!(e, InitializeError::Invoke(InvokeError { message: "no answer".to_string() }));
        assert_eq!(e.message(), "no answer");
        assert_eq!(asked.borrow().len(), at);
    }
}

#[test]
fn a_vector_cannot_be_captured() {
    let (asked, mut invoker) = scripted(None);
    let mut capture = everything();
    capture.globals[1].ty = ValueType::V128;
    let e = capture_state(&mut invoker, &capture).unwrap_err();
    assert_eq!(e, InitializeError::Rule(InitError::V128Global));
    assert_eq!(e.message(), "V128 not yet supported");
    assert_eq!(asked.borrow().len(), 1);
}

#[test]
fn without_memory_none_is_asked_for() {
    let (asked, mut invoker) = scripted(None);
    let mut capture = everything();
    capture.memory = None;
    let snapshot = capture_state(&mut invoker, &capture).unwrap();
    assert_eq!(snapshot.memory, None);
    assert_eq!(asked.borrow().len(), 4);
}

#[test]
fn a_failure_to_start_is_handed_on() {
    let component = wat::parse_str(COUNTER).unwrap();
    let r = initialize(&component, |_: &[u8]| {
        Err::<Box<dyn Invoker>, _>(InvokeError { message: "no start".to_string() })
    });
    assert_eq!(
        r,
        Err(InitializeError::Invoke(InvokeError { message: "no start".to_string() }))
    );
}

#[test]
fn nothing_is_started_of_a_component_that_breaks_a_rule() {
    let component = wat::parse_str("(module)").unwrap();
    let r = initialize(&component, |_: &[u8]| -> Result<Box<dyn Invoker>, InvokeError> {
        panic!("started")
    });
    assert_eq!(r, Err(InitializeError::Rule(InitError::NotComponent)));
}

const TWO_MODULES: &str = r#"
(component
  (type $t (func (result s32)))
  (core module $a
    (memory (export "memory") 1)
    (global (export "__stack_pointer") (mut i32) (i32.const 512)))
  (core instance $ai (instantiate $a))
  (core module $b
    (import "a" "__stack_pointer" (global $sp (mut i32)))
    (import "a" "memory" (memory 1))
    (global $count (mut i32) (i32.const 10))
    (data (i32.const 100) "data of another module")
    (func (export "run") (result i32)
      (global.set $count (i32.add (global.get $count) (i32.const 1)))
      (global.set $sp (i32.sub (global.get $sp) (i32.const 16)))
      (i32.store (i32.const 200) (i32.add (i32.load (i32.const 200)) (global.get $count)))
      (i32.add (i32.load (i32.const 200)) (global.get $sp))))
  (core instance $bi (instantiate $b (with "a" (instance $ai))))
  (func $run (type $t) (canon lift (core func $bi "run")))
  (export "run" (func $run)))
"#;

#[test]
fn the_state_of_all_modules_is_kept() {
    let component = wat::parse_str(TWO_MODULES).unwrap();
    // Eleven, twelve and thirteen add up in memory, and the stack pointer moves down.
    let mut untouched = Running::new(&component);
    assert_eq!(untouched.call::<i32>("run").unwrap(), 11 + 496);
    assert_eq!(untouched.call::<i32>("run").unwrap(), 23 + 480);
    assert_eq!(untouched.call::<i32>("run").unwrap(), 36 + 464);
    let initialized = initialize(&component, |bytes: &[u8]| {
        let mut running = Running::new(bytes);
        assert_eq!(running.call::<i32>("run").unwrap(), 11 + 496);
        assert_eq!(running.call::<i32>("run").unwrap(), 23 + 480);
        Ok(Box::new(running) as Box<dyn Invoker>)
    })
    .unwrap();
    let mut running = Running::new(&initialized);
    assert_eq!(running.call::<i32>("run").unwrap(), 36 + 464);
    // The memory of the new component holds what the data of the second module was.
    let again = initialize(&initialized, |bytes: &[u8]| {
        let mut running = Running::new(bytes);
        let image = running.call::<Vec<u8>>("component-init-get-memory").unwrap();
        assert_eq!(&image[100..122], b"data of another module");
        assert_eq!(running.call::<i32>("component-init-get-module1-global1").unwrap(), 12);
        assert_eq!(running.call::<i32>("component-init-get-module0-global0").unwrap(), 480);
        Ok(Box::new(running) as Box<dyn Invoker>)
    });
    // Nothing ran in between, so the state is what it was.
    assert_eq!(again.unwrap(), initialized);
}
