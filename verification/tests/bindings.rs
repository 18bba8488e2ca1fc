use componentize_py::bindings::{
    body_requests, import_signatures, make_bindings, BindingsError, BodyRequest, BoundFunction,
    Dispatch, FunctionKind, GeneratedBody,
};
use componentize_py::names::{build_name_section, Name};
use componentize_py::wasm::{FuncType, ValueType};
use wasmparser::{ElementItems, ElementKind, ExternalKind, Parser, Payload, TypeRef, ValType};

fn ty(params: Vec<ValueType>, results: Vec<ValueType>) -> FuncType {
    FuncType { params, results }
}

fn function(kind: FunctionKind, interface: Option<&str>, name: &str, internal: &str) -> BoundFunction {
    BoundFunction {
        kind,
        interface: interface.map(|x| x.to_string()),
        name: name.to_string(),
        internal_name: internal.to_string(),
        import_type: ty(vec![ValueType::I64], vec![ValueType::F32]),
        export_type: ty(vec![ValueType::F64], vec![]),
        is_dispatchable: !matches!(
            kind,
            FunctionKind::Export | FunctionKind::ExportPostReturn
        ),
    }
}

fn functions() -> Vec<BoundFunction> {
    vec![
        function(FunctionKind::Import, Some("logging"), "log", "logging-log"),
        function(FunctionKind::Export, Some("greeter"), "greet", "greet-export"),
        function(FunctionKind::ExportLift, Some("greeter"), "greet", "greet-lift"),
        function(FunctionKind::ExportLower, Some("greeter"), "greet", "greet-lower"),
        function(FunctionKind::ExportPostReturn, Some("greeter"), "greet", "greet-post"),
        function(FunctionKind::Import, None, "now", "now"),
        function(FunctionKind::Export, None, "run", "run-export"),
        function(FunctionKind::ExportLift, None, "run", "run-lift"),
        function(FunctionKind::ExportLower, None, "run", "run-lower"),
    ]
}

fn dispatch(params: u32) -> Dispatch {
    Dispatch { name: "dispatch".to_string(), params }
}

fn bodies(n: usize) -> Vec<GeneratedBody> {
    (0..n)
        .map(|k| GeneratedBody { locals: vec![ValueType::I32, ValueType::I32], code: vec![0x01; k] })
        .collect()
}

#[test]
fn bodies_are_generated_for_their_indices() {
    assert_eq!(
        body_requests(&functions()).unwrap(),
        vec![
            BodyRequest::Import { function: 23 },
            BodyRequest::Export { number: 0, lift: 1, lower: 2 },
            BodyRequest::ExportLift,
            BodyRequest::ExportLower,
            BodyRequest::ExportPostReturn,
            BodyRequest::Import { function: 24 },
            BodyRequest::Export { number: 1, lift: 4, lower: 5 },
            BodyRequest::ExportLift,
            BodyRequest::ExportLower,
        ]
    );
}

#[test]
fn an_export_that_comes_twice_has_one_number() {
    let list = vec![
        function(FunctionKind::Export, None, "a", "a"),
        function(FunctionKind::Export, Some("i"), "a", "a"),
        function(FunctionKind::Export, None, "a", "a"),
        function(FunctionKind::Export, None, "b", "b"),
    ];
    let numbers: Vec<u32> = body_requests(&list)
        .unwrap()
        .iter()
        .map(|x| match x {
            BodyRequest::Export { number, .. } => *number,
            other => panic!("{other:?}"),
        })
        .collect();
    assert_eq!(numbers, vec![0, 1, 0, 2]);
}

#[test]
fn the_runtime_offers_its_functions() {
    let list = import_signatures();
    assert_eq!(list.len(), 23);
    assert_eq!(list[0].name, "componentize_py#Dispatch");
    assert_eq!(list[0].ty, ty(vec![ValueType::I32; 7], vec![]));
    assert_eq!(list[14].name, "componentize_py#LiftF32");
    assert_eq!(list[14].ty, ty(vec![ValueType::I32, ValueType::F32], vec![ValueType::I32]));
    assert_eq!(list[22].name, "componentize_py#MakeBytes");
    assert_eq!(list[22].ty, ty(vec![ValueType::I32; 3], vec![ValueType::I32]));
}

#[test]
fn the_module_has_its_sections() {
    let list = functions();
    let n = list.len();
    let bytes = make_bindings(&"my-world".to_string(), &list, bodies(n), vec![1, 2, 3], &dispatch(4)).unwrap();
    let mut order = Vec::new();
    let mut operators = Vec::new();
    for payload in Parser::new(0).parse_all(&bytes) {
        let payload = payload.unwrap();
        if let Some((id, _)) = payload.as_section() {
            order.push(id);
        }
        match payload {
            Payload::TypeSection(reader) => {
                let types: Vec<_> = reader
                    .into_iter_err_on_gc_types()
                    .map(|x| x.unwrap())
                    .map(|x| (x.params().to_vec(), x.results().to_vec()))
                    .collect();
                assert_eq!(types.len(), 23 + 2 + n + 2);
                assert_eq!(types[1], (vec![ValType::I32; 2], vec![ValType::I32]));
                assert_eq!(types[24], (vec![ValType::I64], vec![ValType::F32]));
                assert_eq!(types[25], (vec![ValType::F64], vec![]));
                assert_eq!(types[25 + n], (vec![ValType::I32; 4], vec![]));
                assert_eq!(types[26 + n], (vec![ValType::I32; 3], vec![]));
            }
            Payload::ImportSection(reader) => {
                let imports: Vec<_> = reader.into_iter().map(|x| x.unwrap()).collect();
                assert_eq!(imports.len(), 23 + 2 + 4);
                for (k, import) in imports[..25].iter().enumerate() {
                    assert!(matches!(import.ty, TypeRef::Func(ty) if ty == k as u32));
                }
                assert_eq!((imports[2].module, imports[2].name), ("env", "componentize_py#Free"));
                assert_eq!((imports[23].module, imports[23].name), ("logging", "log"));
                assert_eq!((imports[24].module, imports[24].name), ("my-world", "now"));
                let names: Vec<_> = imports[25..].iter().map(|x| (x.module, x.name)).collect();
                assert_eq!(
                    names,
                    vec![
                        ("env", "__table_base"),
                        ("env", "__stack_pointer"),
                        ("env", "memory"),
                        ("env", "__indirect_function_table"),
                    ]
                );
                match imports[25].ty {
                    TypeRef::Global(global) => assert!(!global.mutable),
                    other => panic!("{other:?}"),
                }
                match imports[26].ty {
                    TypeRef::Global(global) => assert!(global.mutable),
                    other => panic!("{other:?}"),
                }
                match imports[28].ty {
                    TypeRef::Table(table) => assert_eq!((table.initial, table.maximum), (6, None)),
                    other => panic!("{other:?}"),
                }
            }
            Payload::FunctionSection(reader) => {
                let types: Vec<u32> = reader.into_iter().map(|x| x.unwrap()).collect();
                assert_eq!(types, (25..=25 + n as u32).collect::<Vec<_>>());
            }
            Payload::ExportSection(reader) => {
                let exports: Vec<_> = reader
                    .into_iter()
                    .map(|x| x.unwrap())
                    .map(|x| (x.name, x.kind, x.index))
                    .collect();
                assert_eq!(
                    exports,
                    vec![
                        ("greeter#greet", ExternalKind::Func, 26),
                        ("cabi_post_greeter#greet", ExternalKind::Func, 29),
                        ("run", ExternalKind::Func, 31),
                        ("dispatch", ExternalKind::Func, 25 + n as u32),
                    ]
                );
            }
            Payload::ElementSection(reader) => {
                for element in reader {
                    let element = element.unwrap();
                    match element.kind {
                        ElementKind::Active { offset_expr, .. } => {
                            let mut reader = offset_expr.get_binary_reader();
                            assert_eq!(reader.read_bytes(3).unwrap(), &[0x23, 0, 0x0b]);
                        }
                        _ => panic!("not active"),
                    }
                    match element.items {
                        ElementItems::Functions(items) => assert_eq!(
                            items.into_iter().map(|x| x.unwrap()).collect::<Vec<u32>>(),
                            vec![25, 27, 28, 30, 32, 33]
                        ),
                        _ => panic!("not functions"),
                    }
                }
            }
            Payload::CodeSectionEntry(body) => {
                let locals: Vec<_> =
                    body.get_locals_reader().unwrap().into_iter().map(|x| x.unwrap()).collect();
                let list: Vec<String> = body
                    .get_operators_reader()
                    .unwrap()
                    .into_iter()
                    .map(|x| format!("{:?}", x.unwrap()))
                    .collect();
                operators.push((locals, list));
            }
            Payload::CustomSection(section) if section.name() != "name" => {
                assert_eq!(section.name(), "component-type:my-world");
                assert_eq!(section.data(), &[1, 2, 3]);
            }
            Payload::CustomSection(section) => {
                let mut names: Vec<Name> = import_signatures()
                    .into_iter()
                    .enumerate()
                    .map(|(k, x)| Name { index: k as u32, name: x.name })
                    .collect();
                names.push(Name { index: 23, name: "logging-log-import".to_string() });
                names.push(Name { index: 24, name: "now-import".to_string() });
                for (k, f) in list.iter().enumerate() {
                    names.push(Name { index: 25 + k as u32, name: f.internal_name.clone() });
                }
                assert_eq!(section.data(), build_name_section(&names, &vec![]).unwrap());
            }
            _ => (),
        }
    }
    assert_eq!(order, vec![1, 2, 3, 7, 9, 10, 0, 0]);
    // One body for each function, and the one that dispatches.
    assert_eq!(operators.len(), n + 1);
    for k in 0..n {
        assert_eq!(operators[k].0, vec![(2, ValType::I32)]);
        assert_eq!(operators[k].1.len(), k + 1);
    }
    assert_eq!(operators[n].0, vec![]);
    assert_eq!(operators[n].1.len(), 6);
    for k in 0..4 {
        assert_eq!(operators[n].1[k], format!("LocalGet {{ local_index: {k} }}"));
    }
    let call = &operators[n].1[4];
    assert!(call.starts_with(&format!("CallIndirect {{ type_index: {}, table_index: 0", 26 + n)));
    assert_eq!(operators[n].1[5], "End");
    wasmparser::Validator::new().validate_all(&bytes).unwrap();
}

#[test]
fn the_function_that_dispatches_takes_a_place_in_the_table() {
    let n = functions().len();
    assert_eq!(
        make_bindings(&"w".to_string(), &functions(), bodies(n), vec![], &dispatch(0)),
        Err(BindingsError::NoPlace)
    );
    let bytes = make_bindings(&"w".to_string(), &functions(), bodies(n), vec![], &dispatch(1));
    wasmparser::Validator::new().validate_all(&bytes.unwrap()).unwrap();
}

#[test]
fn there_is_one_body_for_each_function() {
    assert_eq!(
        make_bindings(&"w".to_string(), &functions(), bodies(8), vec![], &dispatch(4)),
        Err(BindingsError::BodyCount)
    );
}

#[test]
fn names_are_written_with_their_lengths() {
    let names = vec![
        Name { index: 5, name: "ab".to_string() },
        Name { index: 300, name: "\u{e9}".to_string() },
    ];
    assert_eq!(
        build_name_section(&names, &vec![]).unwrap(),
        vec![1, 10, 2, 5, 2, b'a', b'b', 0xac, 0x02, 2, 0xc3, 0xa9, 7, 1, 0]
    );
    let long = vec![Name { index: 0, name: "x".repeat(130) }];
    let section = build_name_section(&vec![], &long).unwrap();
    assert_eq!(&section[..10], &[1, 1, 0, 7, 0x86, 0x01, 1, 0, 0x82, 0x01]);
    assert_eq!(section.len(), 10 + 130);
}
