use componentize_py::encode::{encode_component, encode_module};
use componentize_py::error::InitError;
use componentize_py::parse::{GlobalContent, GlobalDecl, GlobalEntry, InstanceKind, SectionRange};
use componentize_py::snapshot::{
    apply_snapshot, data_segments, restore, GlobalState, GlobalValue, MemoryState, Snapshot,
};
use componentize_py::size::{measure_all, Encoded};
use componentize_py::tree::{read_tree, Content, Item, ModuleContent, ModuleItem};
use componentize_py::wasm::{
    mem_arg, Body, ComponentSection, ComponentType, ConstExpr, CoreAlias, DataSegment,
    ElementSegment, EntityType, Export, ExternKind, FuncExport, FuncType, Global, GlobalType,
    Import, InstanceArg, Instantiation, Instruction, Lift, MemArg, MemoryType, ModuleSection,
    PrimitiveType, TableType, ValueType,
};
use wasmparser::{Parser, Payload};

fn parse(text: &str) -> Vec<u8> {
    wat::parse_str(text).unwrap()
}

fn empty() -> Snapshot {
    Snapshot { globals: vec![], memory: None }
}

fn raw(id: u8, start: usize, end: usize) -> Option<SectionRange> {
    Some(SectionRange { id, start, end })
}

fn entry(ty: ValueType, mutable: bool) -> GlobalEntry {
    GlobalEntry {
        decl: GlobalDecl { content: GlobalContent::Value(ty), mutable },
        init_start: 2,
        init_end: 5,
    }
}

fn state(module: u32, index: u32, value: GlobalValue) -> GlobalState {
    GlobalState { module, index, value }
}

#[test]
fn values_are_constant_expressions() {
    assert_eq!(GlobalValue::I32(-5).to_expr(), ConstExpr::I32(-5));
    assert_eq!(GlobalValue::I64(i64::MIN).to_expr(), ConstExpr::I64(i64::MIN));
    assert_eq!(
        GlobalValue::F32(1.5f32.to_bits()).to_expr(),
        ConstExpr::Raw([&[0x43][..], &1.5f32.to_le_bytes()].concat())
    );
    assert_eq!(
        GlobalValue::F64((-2.25f64).to_bits()).to_expr(),
        ConstExpr::Raw([&[0x44][..], &(-2.25f64).to_le_bytes()].concat())
    );
    assert_eq!(GlobalValue::F64(0).value_type(), ValueType::F64);
}

#[test]
fn a_module_is_rebuilt_section_by_section() {
    let bytes = [10, 11, 12, 13, 14, 15, 16, 17, 18, 19];
    let module = vec![
        Ok(ModuleItem {
            section: raw(2, 0, 1),
            content: ModuleContent::Imports(vec![Ok(Some(entry(ValueType::I32, true).decl))]),
        }),
        Ok(ModuleItem {
            section: raw(6, 1, 6),
            content: ModuleContent::Globals(vec![
                Ok(entry(ValueType::I32, true)),
                Ok(entry(ValueType::I64, false)),
                Ok(entry(ValueType::F32, true)),
            ]),
        }),
        Ok(ModuleItem { section: raw(7, 6, 7), content: ModuleContent::Exports(vec![]) }),
        Ok(ModuleItem { section: raw(8, 7, 8), content: ModuleContent::Other }),
        Ok(ModuleItem { section: raw(12, 7, 8), content: ModuleContent::Other }),
        Ok(ModuleItem { section: raw(10, 8, 9), content: ModuleContent::Other }),
        Ok(ModuleItem { section: raw(11, 9, 10), content: ModuleContent::Other }),
        Ok(ModuleItem { section: raw(0, 9, 10), content: ModuleContent::Other }),
    ];
    let items = vec![
        Ok(Item { section: raw(0, 0, 2), content: Content::Other }),
        Ok(Item { section: raw(1, 0, 9), content: Content::CoreModule(module) }),
        Ok(Item {
            section: raw(2, 3, 5),
            content: Content::Instances(vec![Ok(InstanceKind::Instantiate { module: 0 })]),
        }),
    ];
    let snapshot = Snapshot {
        globals: vec![
            state(1, 1, GlobalValue::I32(1)),
            state(0, 1, GlobalValue::I64(2)),
            state(0, 1, GlobalValue::I32(3)),
            state(0, 1, GlobalValue::I32(4)),
            state(0, 3, GlobalValue::F32(0x01020304)),
        ],
        memory: Some(MemoryState { module: 0, image: vec![0, 0, 7] }),
    };
    let sections = apply_snapshot(&bytes, &items, &snapshot).unwrap();
    let ty = |val_type, mutable| GlobalType { val_type, mutable };
    let expected = vec![
        ComponentSection::Raw { id: 0, data: &[10, 11] },
        ComponentSection::Module(vec![
            ModuleSection::Raw { id: 2, data: &[10] },
            ModuleSection::Globals(vec![
                Global { ty: ty(ValueType::I32, true), init: ConstExpr::I32(3) },
                Global { ty: ty(ValueType::I64, false), init: ConstExpr::Raw(vec![12, 13]) },
                Global {
                    ty: ty(ValueType::F32, true),
                    init: ConstExpr::Raw(vec![0x43, 4, 3, 2, 1]),
                },
            ]),
            ModuleSection::Raw { id: 7, data: &[16] },
            ModuleSection::DataCount(1),
            ModuleSection::Raw { id: 10, data: &[18] },
            ModuleSection::Raw { id: 0, data: &[19] },
            ModuleSection::Data(vec![DataSegment { address: 0, data: &[0, 0, 7] }]),
        ]),
        ComponentSection::Raw { id: 2, data: &[13, 14] },
    ];
    assert_eq!(sections, expected);

    // A value of another type is no value of the global.
    let lacking = Snapshot {
        globals: vec![state(0, 1, GlobalValue::I64(2)), state(0, 3, GlobalValue::F32(0))],
        memory: None,
    };
    let e = apply_snapshot(&bytes, &items, &lacking).unwrap_err();
    assert_eq!(e, InitError::MissingValue { module: 0, index: 1 });
    assert_eq!(e.message(), "no value for global 1 of module 0");

    // The globals of a module without an instance keep what they start with.
    let unused = vec![items.into_iter().nth(1).unwrap()];
    let sections = apply_snapshot(&bytes, &unused, &lacking).unwrap();
    let kept = ConstExpr::Raw(vec![12, 13]);
    match &sections[0] {
        ComponentSection::Module(sections) => match &sections[1] {
            ModuleSection::Globals(globals) => assert!(globals.iter().all(|g| g.init == kept)),
            other => panic!("{other:?}"),
        },
        other => panic!("{other:?}"),
    }
}

#[test]
fn an_image_becomes_data_segments() {
    let mut image = vec![0; 1000];
    image[500..503].copy_from_slice(b"abc");
    image[999] = 1;
    assert_eq!(
        data_segments(&image).unwrap(),
        vec![
            DataSegment { address: 500, data: b"abc" },
            DataSegment { address: 999, data: &[1] },
        ]
    );
}

#[test]
fn an_address_must_fit() {
    let mut image = vec![0u8; (1 << 31) + 20];
    image[(1 << 31) - 1] = 1;
    assert_eq!(data_segments(&image).unwrap()[0].address, i32::MAX);
    image[(1 << 31) + 15] = 1;
    assert_eq!(data_segments(&image).unwrap_err(), InitError::MemoryTooLarge);
    assert_eq!(InitError::MemoryTooLarge.message(), "memory too large");
}

#[test]
fn a_component_without_state_is_kept() {
    let bytes = parse("(component (core module (func)) (core module $b (global i32 (i32.const 5))))");
    let restored = restore(&bytes, &empty()).unwrap();
    let count = |bytes: &[u8]| {
        let mut modules = 0;
        let mut inits = Vec::new();
        for payload in Parser::new(0).parse_all(bytes) {
            match payload.unwrap() {
                Payload::ModuleSection { .. } => modules += 1,
                Payload::GlobalSection(reader) => {
                    for global in reader {
                        let mut reader = global.unwrap().init_expr.get_binary_reader();
                        let len = reader.bytes_remaining();
                        inits.push(reader.read_bytes(len).unwrap().to_vec());
                    }
                }
                _ => (),
            }
        }
        (modules, inits)
    };
    assert_eq!(count(&restored), count(&bytes));
    assert_eq!(count(&restored), (2, vec![vec![0x41, 5, 0x0b]]));
}

#[test]
fn data_and_start_are_removed_from_every_module() {
    let bytes = parse(
        r#"(component (core module (memory 1) (data (i32.const 0) "x") (func $s) (start $s)))"#,
    );
    let restored = restore(&bytes, &empty()).unwrap();
    for payload in Parser::new(0).parse_all(&restored) {
        assert!(!matches!(
            payload.unwrap(),
            Payload::DataSection(_) | Payload::StartSection { .. }
        ));
    }
    // The code does not depend on data, so what is left is a module.
    wasmparser::Validator::new_with_features(wasmparser::WasmFeatures {
        component_model: true,
        ..Default::default()
    })
    .validate_all(&restored)
    .unwrap();
}

#[test]
fn restoring_meets_the_same_rules() {
    assert_eq!(
        restore(&parse("(component (component))"), &empty()),
        Err(InitError::Subcomponent)
    );
    assert!(matches!(restore(b"\0asm", &empty()), Err(InitError::Malformed { .. })));
    let reference = parse("(component (core module (global funcref (ref.null func))))");
    assert_eq!(restore(&reference, &empty()), Err(InitError::ReferenceGlobal));
}

#[test]
fn the_items_read_are_those_restored() {
    let bytes = parse(
        "(component (core module $m (global (mut i32) (i32.const 1))) (core instance (instantiate $m)))",
    );
    let items = read_tree(&bytes);
    let snapshot = Snapshot { globals: vec![state(0, 0, GlobalValue::I32(9))], memory: None };
    let sections = apply_snapshot(&bytes, &items, &snapshot).unwrap();
    assert_eq!(encode_component(&sections).unwrap(), restore(&bytes, &snapshot).unwrap());
}

#[test]
fn a_section_must_fit() {
    let block = vec![1u8; 1 << 26];
    let segments = |n: usize| {
        ModuleSection::Data(vec![DataSegment { address: 0, data: &block }; n])
    };
    let large = vec![segments(64)];
    assert!(encode_module(&large).is_err());
    let component = vec![ComponentSection::Module(vec![segments(40), segments(40)])];
    assert!(encode_component(&component).is_err());
    assert_eq!(InitError::TooLarge.message(), "section too large");
    let small = vec![ModuleSection::Data(vec![DataSegment { address: 0, data: &block[..2] }])];
    assert_eq!(
        encode_module(&small).unwrap(),
        b"\0asm\x01\0\0\0\x0b\x08\x01\0\x41\0\x0b\x02\x01\x01"
    );
}

#[test]
fn the_number_of_data_segments_is_the_new_one() {
    let text = r#"
    (component
      (core module $m
        (memory (export "memory") 1)
        (global (export "__stack_pointer") (mut i32) (i32.const 64))
        (data (i32.const 0) "a")
        (data (i32.const 100) "b")
        (data (i32.const 200) "c")
        (func (data.drop 0)))
      (core module $n (memory 1) (data "x") (func (data.drop 0)))
      (core instance (instantiate $m)))
    "#;
    // The second module defines a memory too, so only the second pass takes the component.
    let bytes = parse(text);
    let counts = |bytes: &[u8]| -> Vec<u32> {
        Parser::new(0)
            .parse_all(bytes)
            .filter_map(|payload| match payload.unwrap() {
                Payload::DataCountSection { count, .. } => Some(count),
                _ => None,
            })
            .collect()
    };
    assert_eq!(counts(&bytes), vec![3, 1]);
    let mut image = vec![0; 300];
    image[0] = 1;
    image[50] = 1;
    let snapshot = Snapshot {
        globals: vec![state(0, 0, GlobalValue::I32(64))],
        memory: Some(MemoryState { module: 0, image }),
    };
    let restored = restore(&bytes, &snapshot).unwrap();
    assert_eq!(counts(&restored), vec![2, 0]);
}

#[test]
fn the_limit_of_a_section_is_exact() {
    let block = vec![1u8; 1 << 26];
    let segment = |len: usize| DataSegment { address: 0, data: &block[..len] };
    // A count of one byte or two, and for each segment a flag, a constant, and a length.
    let mut list = vec![segment(1 << 26); 63];
    let rest = u32::MAX as usize - 1 - 63 * (8 + (1 << 26)) - 8;
    assert!(rest < 1 << 26);
    list.push(segment(rest));
    assert_eq!(ModuleSection::Data(list).measure(), None);
    let mut list = vec![segment(1 << 26); 62];
    list.push(segment(1 << 10));
    let expected = 62 * (8 + (1u64 << 26)) + 4 + 2 + (1 << 10);
    assert_eq!(measure_all(&list), Some(expected));
    let mut list = vec![segment(1 << 26); 63];
    list.push(segment(rest));
    assert_eq!(measure_all(&list), Some(u32::MAX as u64 - 1));
    list.push(segment(0));
    assert_eq!(measure_all(&list), None);
}

#[test]
fn what_is_measured_is_what_is_written() {
    let numbers = [0, 1, 63, 64, 127, 128, 8191, 8192, 1 << 20, u32::MAX];
    let signed = [0, -1, 63, 64, -64, -65, 8191, 8192, i32::MIN, i32::MAX];
    let text = |n: u32| "x".repeat(n as usize % 300);
    let types = vec![ValueType::I32, ValueType::I32, ValueType::F64, ValueType::V128, ValueType::I32];
    let sections = vec![
        ModuleSection::Types(vec![
            FuncType { params: types.clone(), results: vec![] },
            FuncType { params: vec![ValueType::F32; 200], results: vec![ValueType::I64] },
        ]),
        ModuleSection::Imports(
            numbers
                .iter()
                .flat_map(|n| {
                    let memory = |maximum, memory64, shared| {
                        EntityType::Memory(MemoryType { minimum: *n as u64, maximum, memory64, shared })
                    };
                    let table = |maximum| EntityType::Table(TableType { minimum: *n, maximum });
                    let ty = GlobalType { val_type: ValueType::F32, mutable: n % 2 == 0 };
                    [
                        EntityType::Function(*n),
                        table(None),
                        table(Some(*n)),
                        memory(None, false, false),
                        memory(Some(u64::MAX), true, true),
                        EntityType::Global(ty),
                    ]
                })
                .enumerate()
                .map(|(k, ty)| Import { module: text(k as u32), name: text(7 * k as u32), ty })
                .collect(),
        ),
        ModuleSection::Functions(numbers.to_vec()),
        ModuleSection::Globals(
            signed
                .iter()
                .flat_map(|n| {
                    [
                        ConstExpr::I32(*n),
                        ConstExpr::I64((*n as i64) << 31),
                        ConstExpr::GlobalGet(*n as u32),
                        ConstExpr::Raw(vec![1; (*n as u32 % 200) as usize]),
                    ]
                })
                .map(|init| Global {
                    ty: GlobalType { val_type: ValueType::I64, mutable: true },
                    init,
                })
                .collect(),
        ),
        ModuleSection::Exports(
            numbers
                .iter()
                .map(|n| Export { name: text(*n), kind: ExternKind::Tag, index: *n })
                .collect(),
        ),
        ModuleSection::Elements(vec![ElementSegment {
            table: 300,
            offset_global: 200,
            functions: numbers.to_vec(),
        }]),
        ModuleSection::DataCount(1 << 14),
        ModuleSection::Code(vec![
            Body {
                locals: types,
                code: vec![1; 130],
                instructions: vec![
                    Instruction::GlobalGet(128),
                    Instruction::LocalGet(127),
                    Instruction::LocalTee(1 << 14),
                    Instruction::I32Const(-65),
                    Instruction::I32Sub,
                    Instruction::I32Mul,
                    Instruction::I32Store(mem_arg(1 << 40, 2)),
                    Instruction::I32Store(MemArg { offset: 3, align: 200, memory_index: 5 }),
                    Instruction::MemorySize(0),
                    Instruction::CallIndirect { ty: 300, table: 128 },
                    Instruction::End,
                ],
            },
            Body { locals: vec![ValueType::I64; 1000], code: vec![], instructions: vec![] },
        ]),
        ModuleSection::Data(
            signed.iter().map(|n| DataSegment { address: *n, data: &[9; 200] }).collect(),
        ),
        ModuleSection::Custom { name: text(200), content: vec![1, 2, 3] },
        ModuleSection::Raw { id: 99, data: &[5; 128] },
    ];
    let mut total = 8;
    for section in &sections {
        total += section.measure().unwrap();
    }
    let module = encode_module(&sections).unwrap();
    assert_eq!(module.len() as u64, total);
    let sections = vec![
        ComponentSection::Raw { id: 0, data: &[1; 300] },
        ComponentSection::Module(sections),
        ComponentSection::Instances(vec![Instantiation {
            module: 128,
            args: numbers
                .iter()
                .map(|n| InstanceArg { name: text(*n), instance: *n })
                .collect(),
        }]),
        ComponentSection::Types(
            numbers
                .iter()
                .map(|n| ComponentType::DefinedGetter(*n))
                .chain([
                    ComponentType::List(PrimitiveType::U8),
                    ComponentType::Getter(PrimitiveType::S64),
                ])
                .collect(),
        ),
        ComponentSection::Aliases(
            numbers
                .iter()
                .map(|n| CoreAlias { instance: *n, kind: ExternKind::Memory, name: text(*n) })
                .collect(),
        ),
        ComponentSection::Lifts(
            numbers
                .iter()
                .flat_map(|n| {
                    [
                        Lift { core_function: *n, ty: *n, memory: None },
                        Lift { core_function: *n, ty: 0, memory: Some(*n) },
                    ]
                })
                .collect(),
        ),
        ComponentSection::Exports(
            numbers.iter().map(|n| FuncExport { name: text(*n), function: *n }).collect(),
        ),
    ];
    let mut total = 8;
    for section in &sections {
        total += section.measure().unwrap();
    }
    let component = encode_component(&sections).unwrap();
    assert_eq!(component.len() as u64, total);
    // The module stands in the component as it is.
    assert!(component.windows(module.len()).any(|window| window == module));
}

#[test]
fn items_are_written_byte_by_byte() {
    let module = |section| encode_module(&vec![section]).unwrap()[8..].to_vec();
    assert_eq!(
        module(ModuleSection::Types(vec![FuncType {
            params: vec![ValueType::I32, ValueType::I64],
            results: vec![ValueType::F32, ValueType::F64, ValueType::V128],
        }])),
        [1, 9, 1, 0x60, 2, 0x7f, 0x7e, 3, 0x7d, 0x7c, 0x7b]
    );
    assert_eq!(
        module(ModuleSection::Exports(vec![Export {
            name: "ab".to_string(),
            kind: ExternKind::Global,
            index: 200,
        }])),
        [7, 7, 1, 2, b'a', b'b', 3, 0xc8, 1]
    );
    assert_eq!(
        module(ModuleSection::Globals(vec![Global {
            ty: GlobalType { val_type: ValueType::I32, mutable: true },
            init: ConstExpr::I32(-65),
        }])),
        [6, 7, 1, 0x7f, 1, 0x41, 0xbf, 0x7f, 0x0b]
    );
    assert_eq!(
        module(ModuleSection::Elements(vec![ElementSegment {
            table: 0,
            offset_global: 1,
            functions: vec![5, 6],
        }])),
        [9, 10, 1, 2, 0, 0x23, 1, 0x0b, 0, 2, 5, 6]
    );
    assert_eq!(
        module(ModuleSection::Code(vec![Body {
            locals: vec![ValueType::I32, ValueType::I32, ValueType::I64],
            code: vec![1],
            instructions: vec![Instruction::I32Store(mem_arg(4, 2)), Instruction::End],
        }])),
        [10, 12, 1, 10, 2, 2, 0x7f, 1, 0x7e, 1, 0x36, 2, 4, 0x0b]
    );
    assert_eq!(module(ModuleSection::DataCount(3)), [12, 1, 3]);
    let component = |section| encode_component(&vec![section]).unwrap()[8..].to_vec();
    assert_eq!(
        component(ComponentSection::Lifts(vec![Lift { core_function: 1, ty: 2, memory: Some(3) }])),
        [8, 9, 1, 0, 0, 1, 2, 0, 3, 3, 2]
    );
    assert_eq!(
        component(ComponentSection::Aliases(vec![CoreAlias {
            instance: 4,
            kind: ExternKind::Memory,
            name: "m".to_string(),
        }])),
        [6, 7, 1, 0, 2, 1, 4, 1, b'm']
    );
    assert_eq!(
        component(ComponentSection::Types(vec![
            ComponentType::List(PrimitiveType::U8),
            ComponentType::Getter(PrimitiveType::S32),
            ComponentType::DefinedGetter(64),
        ])),
        [7, 12, 3, 0x70, 0x7d, 0x40, 0, 0, 0x7a, 0x40, 0, 0, 0xc0, 0]
    );
    assert_eq!(
        component(ComponentSection::Instances(vec![Instantiation {
            module: 2,
            args: vec![InstanceArg { name: "0".to_string(), instance: 7 }],
        }])),
        [2, 8, 1, 0, 2, 1, 1, b'0', 0x12, 7]
    );
    assert_eq!(
        component(ComponentSection::Exports(vec![FuncExport {
            name: "f".to_string(),
            function: 9,
        }])),
        [11, 7, 1, 0, 1, b'f', 1, 9, 0]
    );
}
