use componentize_py::error::InitError;
use componentize_py::get_and_increment;
use componentize_py::instrument::{global_getter, instrument, instrument_survey, CapturedGlobal};
use componentize_py::parse::{
    GlobalContent, GlobalDecl, InstanceKind, OperatorKind, ReadError, SectionRange, Sort,
};
use componentize_py::survey::{
    count, survey, Counts, Exposed, Instantiated, StackPointer,
};
use componentize_py::tree::{read_tree, Content, Item, ModuleContent, ModuleItem};
use componentize_py::wasm::{
    mem_arg, ComponentSection, ComponentType, CoreAlias, EntityType, Export, ExternKind,
    FuncExport, FuncType, GlobalType, Import, InstanceArg, Instantiation, Instruction, Lift,
    MemoryType, ModuleSection, PrimitiveType, ValueType,
};
use wasmtime::component::{Component, Linker};
use wasmtime::{Config, Engine, Store};

const COUNTER: &str = r#"
(component
  (core module $m
    (memory (export "memory") 1)
    (global $sp (export "__stack_pointer") (mut i32) (i32.const 1024))
    (global $hidden (mut i64) (i64.const 7))
    (global $fixed i32 (i32.const 3))
    (global $single (export "single") (mut f32) (f32.const 1.5))
    (data (i32.const 2000) "hello")
    (func (export "run")
      (global.set $hidden (i64.const 42))
      (i32.store8 (i32.const 3000) (i32.const 9))))
  (core instance $i (instantiate $m))
  (func (export "run") (canon lift (core func $i "run"))))
"#;

fn parse(text: &str) -> Vec<u8> {
    wat::parse_str(text).unwrap()
}

fn engine() -> Engine {
    let mut config = Config::new();
    config.wasm_component_model(true);
    config.static_memory_maximum_size(0);
    config.dynamic_memory_guard_size(65536);
    config.dynamic_memory_reserved_for_growth(0);
    Engine::new(&config).unwrap()
}

fn error_of(text: &str) -> InitError {
    instrument(&parse(text)).unwrap_err()
}

fn module_error(fields: &str) -> InitError {
    error_of(&format!("(component (core module $m {fields}) (core instance (instantiate $m)))"))
}

const STACK: &str = r#"(memory (export "memory") 1) (global (export "__stack_pointer") (mut i32) (i32.const 64))"#;

#[test]
fn globals_and_memory_of_an_instance_can_be_read() {
    let (bytes, capture) = instrument(&parse(COUNTER)).unwrap();
    assert_eq!(capture.memory, Some(0));
    assert_eq!(
        capture.globals,
        vec![
            CapturedGlobal { module: 0, index: 0, ty: ValueType::I32 },
            CapturedGlobal { module: 0, index: 1, ty: ValueType::I64 },
            CapturedGlobal { module: 0, index: 3, ty: ValueType::F32 },
        ]
    );
    let engine = engine();
    let component = Component::new(&engine, &bytes).unwrap();
    let mut store = Store::new(&engine, ());
    let instance = Linker::new(&engine).instantiate(&mut store, &component).unwrap();
    let run = instance.get_typed_func::<(), ()>(&mut store, "run").unwrap();
    run.call(&mut store, ()).unwrap();
    run.post_return(&mut store).unwrap();
    let sp = instance.get_typed_func::<(), (i32,)>(&mut store, &global_getter(0, 0)).unwrap();
    assert_eq!(sp.call(&mut store, ()).unwrap(), (1024,));
    sp.post_return(&mut store).unwrap();
    let hidden = instance.get_typed_func::<(), (i64,)>(&mut store, &global_getter(0, 1)).unwrap();
    assert_eq!(hidden.call(&mut store, ()).unwrap(), (42,));
    hidden.post_return(&mut store).unwrap();
    let single = instance.get_typed_func::<(), (f32,)>(&mut store, &global_getter(0, 3)).unwrap();
    assert_eq!(single.call(&mut store, ()).unwrap(), (1.5,));
    single.post_return(&mut store).unwrap();
    let memory = instance
        .get_typed_func::<(), (Vec<u8>,)>(&mut store, "component-init-get-memory")
        .unwrap();
    let (image,) = memory.call(&mut store, ()).unwrap();
    memory.post_return(&mut store).unwrap();
    assert_eq!(image.len(), 65536);
    assert_eq!(&image[2000..2005], b"hello");
    assert_eq!(image[3000], 9);
}

#[test]
fn indices_go_on_from_those_of_the_component() {
    // The component has types, imports, aliases and functions of its own, and two modules,
    // one of which imports what the other defines.
    let text = r#"
    (component
      (type $t (func (result u32)))
      (import "host" (func $host (type $t)))
      (core module $a
        (memory (export "memory") 1)
        (global (export "__stack_pointer") (mut i32) (i32.const 512))
        (func (export "one") (result i32) (i32.const 1)))
      (core instance $ai (instantiate $a))
      (core func $host-lowered (canon lower (func $host)))
      (core module $b
        (import "a" "__stack_pointer" (global (mut i32)))
        (import "a" "memory" (memory 1))
        (import "a" "host" (func (result i32)))
        (global $own (mut f64) (f64.const 2.5))
        (func (export "two") (result i32) (i32.const 2)))
      (core instance $args
        (export "__stack_pointer" (global $ai "__stack_pointer"))
        (export "memory" (memory $ai "memory"))
        (export "host" (func $host-lowered)))
      (core instance $bi (instantiate $b (with "a" (instance $args))))
      (func $two (type $t) (canon lift (core func $bi "two")))
      (export "two" (func $two)))
    "#;
    let bytes = parse(text);
    let (instrumented, capture) = instrument(&bytes).unwrap();
    assert_eq!(capture.memory, Some(0));
    assert_eq!(
        capture.globals,
        vec![
            CapturedGlobal { module: 0, index: 0, ty: ValueType::I32 },
            CapturedGlobal { module: 1, index: 1, ty: ValueType::F64 },
        ]
    );
    let engine = engine();
    let component = Component::new(&engine, &instrumented).unwrap();
    let mut store = Store::new(&engine, ());
    let mut linker = Linker::new(&engine);
    linker.root().func_wrap("host", |_, (): ()| Ok((5u32,))).unwrap();
    let instance = linker.instantiate(&mut store, &component).unwrap();
    let own = instance.get_typed_func::<(), (f64,)>(&mut store, &global_getter(1, 1)).unwrap();
    assert_eq!(own.call(&mut store, ()).unwrap(), (2.5,));
    own.post_return(&mut store).unwrap();
    let memory = instance
        .get_typed_func::<(), (Vec<u8>,)>(&mut store, "component-init-get-memory")
        .unwrap();
    assert_eq!(memory.call(&mut store, ()).unwrap().0.len(), 65536);
    memory.post_return(&mut store).unwrap();
    let two = instance.get_typed_func::<(), (u32,)>(&mut store, "two").unwrap();
    assert_eq!(two.call(&mut store, ()).unwrap(), (2,));
}

#[test]
fn a_component_without_state_gets_no_functions() {
    let (bytes, capture) = instrument(&parse("(component)")).unwrap();
    assert_eq!(capture.globals, vec![]);
    assert_eq!(capture.memory, None);
    Component::new(&engine(), &bytes).unwrap();
}

#[test]
fn a_core_module_is_no_component() {
    assert_eq!(error_of("(module)"), InitError::NotComponent);
    assert_eq!(InitError::NotComponent.message(), "expected component; got Module");
}

#[test]
fn a_component_must_be_flat() {
    assert_eq!(error_of("(component (component))"), InitError::Subcomponent);
    assert_eq!(InitError::Subcomponent.message(), "subcomponents not allowed");
}

#[test]
fn there_may_be_one_table() {
    assert_eq!(module_error("(table 1 funcref) (table 1 funcref)"), InitError::SecondTable);
    assert_eq!(
        error_of("(component (core module (table 1 funcref)) (core module (table 1 funcref)))"),
        InitError::SecondTable
    );
    assert_eq!(InitError::SecondTable.message(), "only one table allowed per component");
    assert!(instrument(&parse("(component (core module (table 1 funcref)))")).is_ok());
}

#[test]
fn there_may_be_one_memory() {
    assert_eq!(
        error_of("(component (core module (memory 1)) (core module (memory 1)))"),
        InitError::SecondMemory
    );
    assert_eq!(InitError::SecondMemory.message(), "only one memory allowed per component");
}

#[test]
fn tables_may_not_be_changed() {
    for operation in [
        "(table.copy (i32.const 0) (i32.const 0) (i32.const 0))",
        "(table.fill (i32.const 0) (ref.null func) (i32.const 0))",
        "(drop (table.grow (ref.null func) (i32.const 0)))",
        "(table.init $e (i32.const 0) (i32.const 0) (i32.const 0))",
        "(table.set (i32.const 0) (ref.null func))",
    ] {
        let fields = format!("(table 1 funcref) (elem $e func) (func {operation})");
        assert_eq!(module_error(&fields), InitError::TableOperation);
    }
    assert_eq!(InitError::TableOperation.message(), "table operations not allowed");
    let reading = "(component (core module (table 1 funcref) (func (drop (table.size)))))";
    assert!(instrument(&parse(reading)).is_ok());
}

#[test]
fn a_module_may_have_one_instance() {
    assert_eq!(
        error_of(
            "(component (core module $m) (core instance (instantiate $m)) (core instance (instantiate $m)))"
        ),
        InitError::InstantiatedTwice
    );
    assert_eq!(
        InitError::InstantiatedTwice.message(),
        "modules may be instantiated at most once"
    );
}

#[test]
fn vectors_cannot_be_captured() {
    let global = "(global (export \"v\") (mut v128) (v128.const i64x2 0 0))";
    assert_eq!(module_error(global), InitError::V128Global);
    assert_eq!(InitError::V128Global.message(), "V128 not yet supported");
    let fixed = "(component (core module (global v128 (v128.const i64x2 0 0))))";
    assert!(instrument(&parse(fixed)).is_ok());
    let unused = format!("(component (core module {global}))");
    assert_eq!(error_of(&unused), InitError::V128Global);
}

#[test]
fn references_are_refused() {
    assert_eq!(
        module_error("(global (export \"r\") (mut funcref) (ref.null func))"),
        InitError::ReferenceGlobal
    );
    assert_eq!(module_error("(global funcref (ref.null func))"), InitError::ReferenceGlobal);
    assert_eq!(InitError::ReferenceGlobal.message(), "reference types not supported");
}

#[test]
fn a_memory_needs_a_stack_pointer() {
    for fields in [
        "(memory (export \"memory\") 1)".to_string(),
        "(memory (export \"memory\") 1) (global (export \"__stack_pointer\") i32 (i32.const 0))".to_string(),
        "(memory (export \"memory\") 1) (global (export \"__stack_pointer\") (mut i64) (i64.const 0))".to_string(),
        format!("{STACK}) (core module (global (export \"__stack_pointer\") (mut i32) (i32.const 0))"),
    ] {
        assert_eq!(module_error(&fields), InitError::StackPointer);
    }
    assert_eq!(
        InitError::StackPointer.message(),
        "component with memory must contain exactly one module which \
         exports a mutable `__stack_pointer` global of type I32"
    );
    let two = "(component (core module (global (export \"__stack_pointer\") i32 (i32.const 0))))";
    assert!(instrument(&parse(two)).is_ok());
}

#[test]
fn a_module_without_exports_gets_an_export_section() {
    // The section must stand before those of code and data, and the start function.
    let text = r#"
    (component
      (core module $m
        (global i32 (i32.const 0))
        (global $g (mut i32) (i32.const 40))
        (func $start (global.set $g (i32.add (global.get $g) (i32.const 2))))
        (start $start))
      (core instance $i (instantiate $m)))
    "#;
    let (bytes, capture) = instrument(&parse(text)).unwrap();
    assert_eq!(capture.globals, vec![CapturedGlobal { module: 0, index: 1, ty: ValueType::I32 }]);
    let engine = engine();
    let component = Component::new(&engine, &bytes).unwrap();
    let mut store = Store::new(&engine, ());
    let instance = Linker::new(&engine).instantiate(&mut store, &component).unwrap();
    let getter = instance.get_typed_func::<(), (i32,)>(&mut store, &global_getter(0, 1)).unwrap();
    assert_eq!(getter.call(&mut store, ()).unwrap(), (42,));
    // A module of nothing but globals gets it at its end.
    let text = "(component (core module $m (global (mut i32) (i32.const 7))) (core instance (instantiate $m)))";
    let (bytes, _) = instrument(&parse(text)).unwrap();
    Component::new(&engine, &bytes).unwrap();
}

#[test]
fn a_global_without_a_name_cannot_be_read() {
    let items = vec![
        header(),
        Ok(Item {
            section: None,
            content: Content::Instances(vec![Ok(InstanceKind::Instantiate { module: 3 })]),
        }),
    ];
    let mut found = survey(&[], &items).unwrap();
    found.exposed.push(Exposed {
        module: 3,
        index: 12,
        name: None,
        content: GlobalContent::Value(ValueType::I64),
    });
    let e = instrument_survey(found).unwrap_err();
    assert_eq!(e, InitError::UnexportedGlobal { module: 3, index: 12 });
    assert_eq!(e.message(), "no export of global 12 of module 3");
}

#[test]
fn a_module_without_an_instance_has_no_state() {
    let text = format!(
        r#"(component
            (core module $unused {STACK})
            (core module $used (global (export "g") (mut i64) (i64.const 5)))
            (core instance (instantiate $used)))"#
    );
    let (bytes, capture) = instrument(&parse(&text)).unwrap();
    assert_eq!(capture.memory, None);
    assert_eq!(capture.globals, vec![CapturedGlobal { module: 1, index: 0, ty: ValueType::I64 }]);
    Component::new(&engine(), &bytes).unwrap();
    // The memory can be read only where the stack pointer has an instance too.
    let text = r#"(component
        (core module $a (memory (export "memory") 1))
        (core module $b (global (export "__stack_pointer") (mut i32) (i32.const 64)))
        (core instance (instantiate $a)))"#;
    assert_eq!(error_of(text), InitError::StackPointer);
    let both = text.replace("(core instance (instantiate $a))", "(core instance (instantiate $a)) (core instance (instantiate $b))");
    let (bytes, capture) = instrument(&parse(&both)).unwrap();
    assert_eq!(capture.memory, Some(0));
    Component::new(&engine(), &bytes).unwrap();
}

#[test]
fn the_last_index_can_be_used() {
    let items = vec![
        header(),
        Ok(Item {
            section: None,
            content: Content::Instances(vec![Ok(InstanceKind::Instantiate { module: 0 })]),
        }),
    ];
    let with = |types: u32, globals: u32| {
        let mut found = survey(&[], &items).unwrap();
        found.counts.types = types;
        for index in 0..globals {
            found.exposed.push(Exposed {
                module: 0,
                index,
                name: Some("g".to_string()),
                content: GlobalContent::Value(ValueType::I64),
            });
        }
        instrument_survey(found).map(|_| ())
    };
    assert_eq!(with(u32::MAX, 0), Ok(()));
    assert_eq!(with(u32::MAX, 1), Ok(()));
    assert_eq!(with(u32::MAX, 2), Err(InitError::TooMany));
    assert_eq!(with(u32::MAX - 1, 2), Ok(()));
}

#[test]
fn what_cannot_be_read_is_malformed() {
    assert!(matches!(instrument(b"not wasm"), Err(InitError::Malformed { offset: 0 })));
    let mut bytes = parse(COUNTER);
    bytes.truncate(bytes.len() - 3);
    assert!(matches!(instrument(&bytes), Err(InitError::Malformed { .. })));
    assert_eq!(
        InitError::Malformed { offset: 208 }.message(),
        "malformed binary at offset 208"
    );
}

#[test]
fn what_comes_first_decides_the_error() {
    // The memory rule is met in the first module, the table rule in the second.
    let text = "(component (core module (memory 1)) (core module (memory 1) (table 1 funcref) (table 1 funcref)))";
    assert_eq!(error_of(text), InitError::SecondTable);
    let text = "(component (core module (memory 1)) (core module (memory 1)) (component))";
    assert_eq!(error_of(text), InitError::SecondMemory);
}

#[test]
fn the_items_of_a_component_are_read() {
    let bytes = parse(COUNTER);
    let items = read_tree(&bytes);
    assert_eq!(items[0].as_ref().unwrap().content, Content::Header { component: true });
    let module = match &items[1].as_ref().unwrap().content {
        Content::CoreModule(module) => module,
        other => panic!("{other:?}"),
    };
    let contents: Vec<&ModuleContent> = module.iter().map(|x| &x.as_ref().unwrap().content).collect();
    assert!(contents.contains(&&ModuleContent::Memories(vec![Ok(MemoryType {
        minimum: 1,
        maximum: None,
        memory64: false,
        shared: false,
    })])));
    assert!(contents.contains(&&ModuleContent::Exports(vec![
        Ok(Export { name: "memory".to_string(), kind: ExternKind::Memory, index: 0 }),
        Ok(Export { name: "__stack_pointer".to_string(), kind: ExternKind::Global, index: 0 }),
        Ok(Export { name: "single".to_string(), kind: ExternKind::Global, index: 3 }),
        Ok(Export { name: "run".to_string(), kind: ExternKind::Func, index: 0 }),
    ])));
    let globals = contents
        .iter()
        .find_map(|x| match x {
            ModuleContent::Globals(list) => Some(list),
            _ => None,
        })
        .unwrap();
    let decls: Vec<GlobalDecl> = globals.iter().map(|g| g.unwrap().decl).collect();
    assert_eq!(
        decls,
        vec![
            GlobalDecl { content: GlobalContent::Value(ValueType::I32), mutable: true },
            GlobalDecl { content: GlobalContent::Value(ValueType::I64), mutable: true },
            GlobalDecl { content: GlobalContent::Value(ValueType::I32), mutable: false },
            GlobalDecl { content: GlobalContent::Value(ValueType::F32), mutable: true },
        ]
    );
    for global in globals {
        let global = global.unwrap();
        assert_eq!(bytes[global.init_end - 1], 0x0b);
    }
    let fixed = globals[2].unwrap();
    assert_eq!(&bytes[fixed.init_start..fixed.init_end], &[0x41, 3, 0x0b]);
    assert!(items.iter().any(|x| x.as_ref().unwrap().content
        == Content::Instances(vec![Ok(InstanceKind::Instantiate { module: 0 })])));
    assert!(items
        .iter()
        .any(|x| x.as_ref().unwrap().content == Content::Sorts(vec![Ok(Sort::CoreFunc)])));
}

#[test]
fn every_index_space_is_counted() {
    let text = r#"
    (component
      (import "f" (func $f))
      (import "m" (core module $m))
      (import "t" (type $t (sub resource)))
      (core module $n (memory (export "memory") 1)
        (global (export "__stack_pointer") (mut i32) (i32.const 64)))
      (core instance $i (instantiate $n))
      (alias core export $i "memory" (core memory $mem))
      (core func $lowered (canon lower (func $f)))
      (export "g" (func $f)))
    "#;
    let bytes = parse(text);
    let items = read_tree(&bytes);
    let found = survey(&bytes, &items).unwrap();
    assert_eq!(found.counts.modules, 2);
    assert_eq!(found.counts.instances, 1);
    assert_eq!(found.counts.core_functions, 1);
    assert_eq!(found.counts.core_memories, 1);
    assert_eq!(found.counts.functions, 2);
    assert_eq!(found.instantiations, vec![Instantiated { module: 1, instance: 0 }]);
    assert_eq!(found.memory.unwrap().0, 1);
    assert_eq!(
        found.stack_pointers,
        vec![StackPointer {
            module: 1,
            decl: Some(GlobalDecl {
                content: GlobalContent::Value(ValueType::I32),
                mutable: true
            }),
        }]
    );
    assert_eq!(
        found.exposed,
        vec![Exposed {
            module: 1,
            index: 0,
            name: Some("__stack_pointer".to_string()),
            content: GlobalContent::Value(ValueType::I32),
        }]
    );
}

fn raw(id: u8, start: usize, end: usize) -> Option<SectionRange> {
    Some(SectionRange { id, start, end })
}

fn header() -> Result<Item, ReadError> {
    Ok(Item { section: None, content: Content::Header { component: true } })
}

#[test]
fn a_surveyed_component_is_instrumented_section_by_section() {
    let bytes = [1, 2, 3, 4, 5, 6, 7, 8];
    let module = vec![
        Ok(ModuleItem {
            section: raw(5, 0, 2),
            content: ModuleContent::Memories(vec![Ok(MemoryType {
                minimum: 2,
                maximum: Some(9),
                memory64: false,
                shared: false,
            })]),
        }),
        Ok(ModuleItem {
            section: raw(7, 4, 6),
            content: ModuleContent::Exports(vec![Ok(Export {
                name: "run".to_string(),
                kind: ExternKind::Func,
                index: 4,
            })]),
        }),
        Ok(ModuleItem {
            section: None,
            content: ModuleContent::Operators(vec![Ok(OperatorKind::Other)]),
        }),
    ];
    let items = vec![
        header(),
        Ok(Item { section: raw(1, 0, 8), content: Content::CoreModule(module) }),
        Ok(Item { section: raw(7, 2, 3), content: Content::Types(6) }),
        Ok(Item {
            section: raw(2, 3, 4),
            content: Content::Instances(vec![
                Ok(InstanceKind::FromExports),
                Ok(InstanceKind::Instantiate { module: 0 }),
            ]),
        }),
        Ok(Item {
            section: raw(6, 4, 5),
            content: Content::Sorts(vec![Ok(Sort::CoreFunc), Ok(Sort::Func), Ok(Sort::CoreMemory)]),
        }),
    ];
    let mut found = survey(&bytes, &items).unwrap();
    assert_eq!(
        found.counts,
        Counts {
            modules: 1,
            instances: 2,
            core_functions: 1,
            core_memories: 1,
            functions: 1,
            types: 6
        }
    );
    // What a global section would have added.
    found.exposed.push(Exposed {
        module: 0,
        index: 3,
        name: Some("x".to_string()),
        content: GlobalContent::Value(ValueType::I64),
    });
    found.stack_pointers.push(StackPointer {
        module: 0,
        decl: Some(GlobalDecl { content: GlobalContent::Value(ValueType::I32), mutable: true }),
    });
    let (sections, capture) = instrument_survey(found).unwrap();
    assert_eq!(capture.globals, vec![CapturedGlobal { module: 0, index: 3, ty: ValueType::I64 }]);
    assert_eq!(capture.memory, Some(0));
    let getter = "component-init-get-module0-global3".to_string();
    let memory_getter = "component-init-get-memory".to_string();
    let stack = GlobalType { val_type: ValueType::I32, mutable: true };
    let expected = vec![
        ComponentSection::Module(vec![
            ModuleSection::Raw { id: 5, data: &bytes[0..2] },
            ModuleSection::Exports(vec![Export {
                name: "run".to_string(),
                kind: ExternKind::Func,
                index: 4,
            }]),
        ]),
        ComponentSection::Raw { id: 7, data: &bytes[2..3] },
        ComponentSection::Raw { id: 2, data: &bytes[3..4] },
        ComponentSection::Raw { id: 6, data: &bytes[4..5] },
        ComponentSection::Module(vec![
            ModuleSection::Types(vec![
                FuncType { params: vec![], results: vec![ValueType::I64] },
                FuncType { params: vec![], results: vec![ValueType::I32] },
            ]),
            ModuleSection::Imports(vec![
                Import {
                    module: "0".to_string(),
                    name: "x".to_string(),
                    ty: EntityType::Global(GlobalType { val_type: ValueType::I64, mutable: true }),
                },
                Import {
                    module: "0".to_string(),
                    name: "memory".to_string(),
                    ty: EntityType::Memory(MemoryType {
                        minimum: 2,
                        maximum: Some(9),
                        memory64: false,
                        shared: false,
                    }),
                },
                Import {
                    module: "0".to_string(),
                    name: "__stack_pointer".to_string(),
                    ty: EntityType::Global(stack),
                },
            ]),
            ModuleSection::Functions(vec![0, 1]),
            ModuleSection::Exports(vec![
                Export { name: getter.clone(), kind: ExternKind::Func, index: 0 },
                Export { name: memory_getter.clone(), kind: ExternKind::Func, index: 1 },
                Export { name: "memory".to_string(), kind: ExternKind::Memory, index: 0 },
            ]),
            ModuleSection::Code(vec![
                componentize_py::wasm::Body {
                    locals: vec![],
                    code: vec![],
                    instructions: vec![Instruction::GlobalGet(0), Instruction::End],
                },
                componentize_py::wasm::Body {
                    locals: vec![ValueType::I32],
                    code: vec![],
                    instructions: vec![
                        Instruction::GlobalGet(1),
                        Instruction::I32Const(8),
                        Instruction::I32Sub,
                        Instruction::LocalTee(0),
                        Instruction::I32Const(0),
                        Instruction::I32Store(mem_arg(0, 2)),
                        Instruction::LocalGet(0),
                        Instruction::MemorySize(0),
                        Instruction::I32Const(65536),
                        Instruction::I32Mul,
                        Instruction::I32Store(mem_arg(4, 2)),
                        Instruction::LocalGet(0),
                        Instruction::End,
                    ],
                },
            ]),
        ]),
        ComponentSection::Instances(vec![Instantiation {
            module: 1,
            args: vec![InstanceArg { name: "0".to_string(), instance: 1 }],
        }]),
        ComponentSection::Types(vec![
            ComponentType::Getter(PrimitiveType::S64),
            ComponentType::List(PrimitiveType::U8),
            ComponentType::DefinedGetter(7),
        ]),
        ComponentSection::Aliases(vec![
            CoreAlias { instance: 2, kind: ExternKind::Func, name: getter.clone() },
            CoreAlias { instance: 2, kind: ExternKind::Func, name: memory_getter.clone() },
            CoreAlias { instance: 2, kind: ExternKind::Memory, name: "memory".to_string() },
        ]),
        ComponentSection::Lifts(vec![
            Lift { core_function: 1, ty: 6, memory: None },
            Lift { core_function: 2, ty: 8, memory: Some(1) },
        ]),
        ComponentSection::Exports(vec![
            FuncExport { name: getter, function: 1 },
            FuncExport { name: memory_getter, function: 2 },
        ]),
    ];
    assert_eq!(sections, expected);
}

#[test]
fn hidden_globals_are_exported_and_the_last_name_counts() {
    let global = |mutable| GlobalDecl { content: GlobalContent::Value(ValueType::I32), mutable };
    let entry = |mutable| {
        Ok(componentize_py::parse::GlobalEntry { decl: global(mutable), init_start: 0, init_end: 1 })
    };
    let export = |name: &str, index| {
        Ok(Export { name: name.to_string(), kind: ExternKind::Global, index })
    };
    let module = vec![
        Ok(ModuleItem {
            section: raw(2, 0, 1),
            content: ModuleContent::Imports(vec![Ok(Some(global(true))), Ok(None)]),
        }),
        Ok(ModuleItem {
            section: raw(6, 1, 2),
            content: ModuleContent::Globals(vec![entry(true), entry(false), entry(true), entry(true)]),
        }),
        Ok(ModuleItem {
            section: raw(7, 2, 3),
            content: ModuleContent::Exports(vec![export("a", 1), export("b", 1), export("c", 0)]),
        }),
    ];
    let items = vec![header(), Ok(Item { section: raw(1, 0, 3), content: Content::CoreModule(module) })];
    let bytes = [9, 8, 7];
    let found = survey(&bytes, &items).unwrap();
    let exposed: Vec<(u32, Option<&str>)> =
        found.exposed.iter().map(|x| (x.index, x.name.as_deref())).collect();
    assert_eq!(
        exposed,
        vec![(1, Some("b")), (3, Some("component-init:3")), (4, Some("component-init:4"))]
    );
    let export = |name: &str, index| Export { name: name.to_string(), kind: ExternKind::Global, index };
    assert_eq!(
        found.sections,
        vec![ComponentSection::Module(vec![
            ModuleSection::Raw { id: 2, data: &[9] },
            ModuleSection::Raw { id: 6, data: &[8] },
            ModuleSection::Exports(vec![
                export("a", 1),
                export("b", 1),
                export("c", 0),
                export("component-init:3", 3),
                export("component-init:4", 4),
            ]),
        ])]
    );
}

#[test]
fn a_range_outside_the_bytes_is_malformed() {
    let items = vec![header(), Ok(Item { section: raw(0, 1, 9), content: Content::Other })];
    assert_eq!(survey(&[0; 8], &items), Err(InitError::Malformed { offset: 1 }));
    assert!(survey(&[0; 9], &items).is_ok());
}

#[test]
fn counters_stop_at_the_last_index() {
    let mut n = 6;
    assert_eq!(get_and_increment(&mut n), 6);
    assert_eq!(n, 7);
    let full = Counts {
        modules: u32::MAX,
        instances: 0,
        core_functions: 1,
        core_memories: 2,
        functions: 3,
        types: 4,
    };
    assert_eq!(count(full, Sort::CoreModule), Err(InitError::TooMany));
    assert_eq!(InitError::TooMany.message(), "too many items");
    assert_eq!(count(full, Sort::Func).unwrap().functions, 4);
    assert_eq!(count(full, Sort::CoreFunc).unwrap().core_functions, 2);
    assert_eq!(count(full, Sort::CoreMemory).unwrap().core_memories, 3);
    assert_eq!(count(full, Sort::Type).unwrap().types, 5);
    assert_eq!(count(full, Sort::Other), Ok(full));
    let items = vec![
        header(),
        Ok(Item { section: None, content: Content::Types(u32::MAX) }),
        Ok(Item { section: None, content: Content::Types(1) }),
    ];
    assert_eq!(survey(&[], &items), Err(InitError::TooMany));
}

#[test]
fn getter_names_differ() {
    let mut names = vec!["component-init-get-memory".to_string()];
    for module in [0, 1, 10, 11, 111] {
        for index in [0, 1, 10, 11, 111] {
            names.push(global_getter(module, index));
        }
    }
    let count = names.len();
    names.sort();
    names.dedup();
    assert_eq!(names.len(), count);
    assert_eq!(global_getter(12, 340), "component-init-get-module12-global340");
}
