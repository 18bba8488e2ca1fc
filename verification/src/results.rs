//! What the functions return, said of their arguments and results as they are.
use vstd::prelude::*;
use crate::asked::{
    law_answer_is_recorded_as_it_is, law_questions_fit_the_globals, lemma_eight_bytes,
    lemma_four_bytes,
};
use crate::bindings::{
    binding_sections, bindings, body_requests, has_room, import_signatures, make_bindings, requests,
    signatures, BindingsError, BodyRequest, BoundFunction, Dispatch, FunctionKind, GeneratedBody,
    Signature,
};
use crate::bound::{
    dispatched, exported, imported, index_of, is_bound, is_new_export,
    law_bindings_fail_for_these_reasons, law_export_has_its_name, law_exports_are_numbered_in_order,
    law_requests_fit_the_kinds, lemma_tallies, new_exports,
};
use crate::capture::{
    next_question, no_answers, nothing_known, question, record, recorded, Answer, Question,
    QuestionV, ReplyKind,
};
use crate::encode::{
    component_bytes, component_fits, encode_component, encode_module, module_bytes, module_fits,
    section_payload, TooLarge,
};
use crate::error::{viewed, InitError};
use crate::faults::is_of;
use crate::format::{leb128, leb128_len};
use crate::initialize::{
    initialize, initialize_outcome, shown, InitializeError, InvokeError, Invoker,
};
use crate::instrument::{
    global_getter, instrument, instrumented, instrumented_bytes, survey_of, Capture, CapturedGlobal,
};
use crate::launch::{
    environment, guest_path, guest_python_path, join, law_environment_finds_the_directories,
    law_mounts_are_the_search_path, numbered, python_mounts, search_path, snake_case, split,
    variables, world_dir, Mount, Variable,
};
use crate::link::{
    contents, decoded, law_adapter_is_linked_unless_there_is_a_stub,
    law_bindings_and_stub_are_linked_as_they_are, law_images_are_decompressed_one_by_one,
    law_linking_fails_by_images_only, link_inputs, linked_from, unpack, unpacked, DecodeError,
    Images, Library, LinkInputs, LinkInputsV,
};
use crate::names::{build_name_section, name_map, name_section, Name};
use crate::parse::{results, ReadError, Sort};
use crate::preserved::{law_memory_is_restored, loaded_byte};
use crate::read::law_instantiated_modules_have_core_instances;
use crate::restored::{is_state, law_bytes_are_those_of_the_sections, law_capture_is_the_state};
use crate::rules::one_if;
use crate::segments::{
    all_segments, law_every_byte_that_is_not_zero_is_stored, law_segments_start_and_end_with_data,
    segments_of,
};
use crate::snapshot::{
    apply_snapshot, data_segments, image_segments, initialized, initialized_bytes, is_addressable,
    restore, GlobalState, GlobalValue, Snapshot, SnapshotV,
};
use crate::survey::{count, counted, survey, surveyed, Counts, Survey, SurveyV};
use crate::tallies::{core_instances, is_instance_of};
use crate::text::{decimal, law_decimal_stands_for_the_number, number_of, to_decimal};
use crate::tree::{instantiated, instantiated_modules, read_tree, tree, Item};
use crate::wasm::{views, ComponentSection, ConstExpr, DataSegment, ModuleSection, ValueType};
use crate::written::{
    has_component_id, has_module_id, law_component_is_read_back, law_module_is_read_back,
    law_name_section_is_read_back, read_sections,
};

verus! {

/// The environment holds the name of the application as it was given, and the search path
/// names the directory of the standard library and then the numbered ones.
pub proof fn law_environment(app_name: &String, count: usize, list: Vec<Variable>)
    requires
        call_ensures(environment, (app_name, count), list),
        count > 0,
    ensures
        list@.len() == 4,
        list@[0].name@ == "PYTHONUNBUFFERED"@ && list@[0].value@ == "1"@,
        list@[1].name@ == "COMPONENTIZE_PY_APP_NAME"@ && list@[1].value@ == app_name@,
        list@[2].name@ == "PYTHONHOME"@ && list@[2].value@ == "/python"@,
        list@[3].name@ == "PYTHONPATH"@,
        split(list@[3].value@, ':').len() == count + 1,
        split(list@[3].value@, ':')[0] == "/python"@,
        forall|k: int|
            0 <= k < count ==> #[trigger] split(list@[3].value@, ':')[k + 1] == "/"@ + decimal(
                k as nat,
            ),
{
    assert(views(list@) == variables(app_name@, count as nat));
    law_environment_finds_the_directories(app_name@, count as nat);
    assert(views(list@)[0] == list@[0]@);
    assert(views(list@)[1] == list@[1]@);
    assert(views(list@)[2] == list@[2]@);
    assert(views(list@)[3] == list@[3]@);
}

/// The search path that is written is the one in the environment.
pub proof fn law_guest_python_path(
    app_name: &String,
    count: usize,
    path: String,
    list: Vec<Variable>,
)
    requires
        call_ensures(guest_python_path, (count,), path),
        call_ensures(environment, (app_name, count), list),
    ensures
        list@.len() == 4,
        list@[3].value@ == path@,
{
    assert(views(list@) == variables(app_name@, count as nat));
    assert(views(list@)[3] == list@[3]@);
    assert(path@ == guest_path(count as nat));
}

/// The directories, put together again, are the search path and then the generated code; no
/// one of them holds a delimiter, and each is seen under its number.
pub proof fn law_python_mounts(
    python_path: &String,
    generated: &String,
    delimiter: char,
    mounts: Vec<Mount>,
)
    requires
        call_ensures(python_mounts, (python_path, generated, delimiter), mounts),
    ensures
        join(Seq::new(mounts@.len(), |k: int| mounts@[k].host@), delimiter) == python_path@
            + seq![delimiter] + generated@,
        forall|k: int|
            0 <= k < mounts@.len() ==> !(#[trigger] mounts@[k]).host@.contains(delimiter)
                && mounts@[k].guest@ == decimal(k as nat),
{
    let all = numbered(search_path(python_path@, generated@, delimiter));
    assert(views(mounts@) == all);
    law_mounts_are_the_search_path(python_path@, generated@, delimiter);
    assert forall|k: int| 0 <= k < mounts@.len() implies all[k] == #[trigger] mounts@[k]@ by {
        assert(views(mounts@)[k] == mounts@[k]@);
    }
    assert(Seq::new(mounts@.len(), |k: int| mounts@[k].host@) =~= Seq::new(
        all.len(),
        |k: int| all[k].host,
    ));
    assert forall|k: int| 0 <= k < mounts@.len() implies !(#[trigger] mounts@[k]).host@.contains(
        delimiter,
    ) && mounts@[k].guest@ == decimal(k as nat) by {
        assert(all[k] == mounts@[k]@);
        assert(!all[k].host.contains(delimiter));
    }
}

/// The directory of a world has the name of the world in snake case.
pub proof fn law_world_dir(world: &String, dir: String)
    requires
        call_ensures(world_dir, (world,), dir),
    ensures
        dir@ == snake_case(world@),
{
}

/// A number that is written in decimal stands for itself.
pub proof fn law_to_decimal(n: u64, s: String)
    requires
        call_ensures(to_decimal, (n,), s),
    ensures
        number_of(s@) == n,
        s@.len() > 0,
        s@[0] == '0' ==> s@.len() == 1,
{
    assert(s@ == decimal(n as nat));
    law_decimal_stands_for_the_number(n as nat);
}

/// The name of the function for a global is made of the numbers of its module and of itself.
pub proof fn law_global_getter(module: u32, index: u32, name: String)
    requires
        call_ensures(global_getter, (module, index), name),
    ensures
        name@ == "component-init-get-module"@ + decimal(module as nat) + "-global"@ + decimal(
            index as nat,
        ),
{
}

/// A component is linked from the bindings as they are given, and from the stub as it is
/// given or else the adapter, besides the libraries that every component has.
pub proof fn law_link_inputs(
    images: &Images,
    bindings: Vec<u8>,
    stub: Option<Vec<u8>>,
    inputs: LinkInputs,
)
    requires
        call_ensures(link_inputs, (images, bindings, stub), Ok(inputs)),
    ensures
        ({
            let libraries = inputs.libraries@;
            &&& libraries.len() == if stub is Some {
                7int
            } else {
                6int
            }
            &&& libraries[0].name@ == "libcomponentize_py_runtime.so"@
            &&& libraries[1].name@ == "libpython3.11.so"@
            &&& libraries[2].name@ == "libc.so"@
            &&& libraries[3].name@ == "libc++.so"@
            &&& libraries[4].name@ == "libc++abi.so"@
            &&& Some(libraries[0].data@) == decoded(images.runtime@)
            &&& Some(libraries[1].data@) == decoded(images.python@)
            &&& Some(libraries[2].data@) == decoded(images.libc@)
            &&& Some(libraries[3].data@) == decoded(images.libcxx@)
            &&& Some(libraries[4].data@) == decoded(images.libcxxabi@)
            &&& libraries[5].name@ == "libcomponentize_py_bindings.so"@
            &&& libraries[5].data@ == bindings@
            &&& stub is Some ==> libraries[6].name@ == "libcomponentize_py_wasi_stub.so"@
                && libraries[6].data@ == stub->Some_0@
            &&& !inputs.dl_openable
            &&& match inputs.adapter {
                Some(adapter) => stub is None && adapter.name@ == "wasi_snapshot_preview1"@ && Some(
                    adapter.data@,
                ) == decoded(images.adapter@),
                None => stub is Some,
            }
        }),
{
    let given = contents(stub);
    assert(linked_from(*images, bindings@, given) == Ok::<_, Seq<char>>(inputs@));
    law_bindings_and_stub_are_linked_as_they_are(*images, bindings@, given);
    law_adapter_is_linked_unless_there_is_a_stub(*images, bindings@, given);
    let libraries = inputs.libraries@;
    assert(views(libraries)[0] == libraries[0]@);
    assert(views(libraries)[1] == libraries[1]@);
    assert(views(libraries)[2] == libraries[2]@);
    assert(views(libraries)[3] == libraries[3]@);
    assert(views(libraries)[4] == libraries[4]@);
    assert(views(libraries)[5] == libraries[5]@);
    if stub is Some {
        assert(views(libraries)[6] == libraries[6]@);
    }
}

/// Linking fails by an image that cannot be decompressed, and only by one that is wanted.
pub proof fn law_link_inputs_error(
    images: &Images,
    bindings: Vec<u8>,
    stub: Option<Vec<u8>>,
    e: DecodeError,
)
    requires
        call_ensures(link_inputs, (images, bindings, stub), Err(e)),
    ensures
        ({
            ||| e.name@ == "libcomponentize_py_runtime.so"@ && decoded(images.runtime@) is None
            ||| e.name@ == "libpython3.11.so"@ && decoded(images.python@) is None
            ||| e.name@ == "libc.so"@ && decoded(images.libc@) is None
            ||| e.name@ == "libc++.so"@ && decoded(images.libcxx@) is None
            ||| e.name@ == "libc++abi.so"@ && decoded(images.libcxxabi@) is None
            ||| e.name@ == "wasi_snapshot_preview1"@ && decoded(images.adapter@) is None
        }),
        stub is Some ==> {
            ||| decoded(images.runtime@) is None
            ||| decoded(images.python@) is None
            ||| decoded(images.libc@) is None
            ||| decoded(images.libcxx@) is None
            ||| decoded(images.libcxxabi@) is None
        },
{
    let given = contents(stub);
    assert(linked_from(*images, bindings@, given) == Err::<
        LinkInputsV,
        _,
    >(e.name@));
    law_linking_fails_by_images_only(*images, bindings@, given);
}

/// Images that are decompressed keep their order and their names.
pub proof fn law_unpack(list: &Vec<Library>, done: Vec<Library>, k: int)
    requires
        call_ensures(unpack, (list,), Ok(done)),
    ensures
        done@.len() == list@.len(),
        0 <= k < list@.len() ==> done@[k].name@ == list@[k].name@ && Some(done@[k].data@)
            == decoded(list@[k].data@),
{
    assert(unpacked(views(list@)) == Ok::<_, Seq<char>>(views(done@)));
    law_images_are_decompressed_one_by_one(views(list@));
    if 0 <= k < list@.len() {
        assert(views(done@)[k] == done@[k]@);
        assert(views(list@)[k] == list@[k]@);
    }
}

/// A question asks for the global that comes next, by its name and in its kind, and for the
/// memory once there is no global left.
pub proof fn law_next_question(
    capture: &Capture,
    asked: usize,
    r: Result<Option<Question>, InitError>,
)
    requires
        call_ensures(next_question, (capture, asked), r),
    ensures
        if asked < capture.globals@.len() {
            let g = capture.globals@[asked as int];
            match r {
                Ok(Some(q)) => q.function@ == "component-init-get-module"@ + decimal(
                    g.module as nat,
                ) + "-global"@ + decimal(g.index as nat) && match q.kind {
                    ReplyKind::S32 => g.ty == ValueType::I32,
                    ReplyKind::S64 => g.ty == ValueType::I64,
                    ReplyKind::Float32 => g.ty == ValueType::F32,
                    ReplyKind::Float64 => g.ty == ValueType::F64,
                    ReplyKind::ListU8 => false,
                },
                Ok(None) => false,
                Err(e) => g.ty == ValueType::V128 && e == InitError::V128Global,
            }
        } else {
            match r {
                Ok(Some(q)) => asked == capture.globals@.len() && capture.memory is Some
                    && q.function@ == "component-init-get-memory"@ && q.kind == ReplyKind::ListU8,
                Ok(None) => asked > capture.globals@.len() || capture.memory is None,
                Err(_) => false,
            }
        },
{
    law_questions_fit_the_globals(capture@, asked as int);
    assert(match r {
        Ok(Some(q)) => question(capture@, asked as nat) == Ok::<_, InitError>(
            Some(q@),
        ),
        Ok(None) => question(capture@, asked as nat) == Ok::<
            Option<QuestionV>,
            InitError,
        >(None),
        Err(e) => question(capture@, asked as nat) == Err::<
            Option<QuestionV>,
            _,
        >(e),
    });
}

/// An answer is recorded as it is, for the global that was asked for, behind what was known.
pub proof fn law_record(
    capture: &Capture,
    asked: usize,
    known: Snapshot,
    a: Answer,
    r: Option<Snapshot>,
)
    requires
        call_ensures(record, (capture, asked, known, a), r),
        asked < capture.globals@.len(),
    ensures
        ({
            let g = capture.globals@[asked as int];
            let value = match a {
                Answer::S32(n) => Some((ValueType::I32, GlobalValue::I32(n))),
                Answer::S64(n) => Some((ValueType::I64, GlobalValue::I64(n))),
                Answer::Float32(bits) => Some((ValueType::F32, GlobalValue::F32(bits))),
                Answer::Float64(bits) => Some((ValueType::F64, GlobalValue::F64(bits))),
                Answer::ListU8(_) => None,
            };
            match value {
                Some((ty, value)) => if ty == g.ty {
                    r matches Some(s) && s.globals@ == known.globals@.push(
                        GlobalState { module: g.module, index: g.index, value },
                    )
                } else {
                    r is None
                },
                None => r is None,
            }
        }),
{
    law_answer_is_recorded_as_it_is(capture@, asked as nat, known@, a);
    assert(match r {
        Some(s) => recorded(capture@, asked as nat, known@, a) == Some(s@),
        None => recorded(capture@, asked as nat, known@, a) is None,
    });
    if let Some(s) = r {
        let g = capture.globals@[asked as int];
        assert(s@.globals =~= s@.globals.drop_last().push(s@.globals.last()));
        assert(s.globals@ == s@.globals);
    }
}

/// The answer for the memory is recorded as it is, with the module that defines the memory.
pub proof fn law_record_memory(
    capture: &Capture,
    asked: usize,
    known: Snapshot,
    image: Vec<u8>,
    r: Option<Snapshot>,
)
    requires
        call_ensures(record, (capture, asked, known, Answer::ListU8(image)), r),
        asked == capture.globals@.len(),
    ensures
        match capture.memory {
            Some(module) => {
                &&& r is Some
                &&& r->Some_0.globals@ == known.globals@
                &&& r->Some_0.memory is Some
                &&& r->Some_0.memory->Some_0.module == module
                &&& r->Some_0.memory->Some_0.image@ == image@
            },
            None => r is None,
        },
{
    let a = Answer::ListU8(image);
    law_answer_is_recorded_as_it_is(capture@, asked as nat, known@, a);
    assert(match r {
        Some(s) => recorded(capture@, asked as nat, known@, a) == Some(s@),
        None => recorded(capture@, asked as nat, known@, a) is None,
    });
}

/// Before any question nothing is known.
pub proof fn law_no_answers(s: Snapshot)
    requires
        call_ensures(no_answers, (), s),
    ensures
        s.globals@.len() == 0,
        s.memory is None,
{
    assert(s@ == nothing_known());
}

/// The value of a global is written in its own type, bit for bit.
pub proof fn law_to_expr(value: &GlobalValue, e: ConstExpr)
    requires
        call_ensures(GlobalValue::to_expr, (value,), e),
    ensures
        match *value {
            GlobalValue::I32(n) => e == ConstExpr::I32(n),
            GlobalValue::I64(n) => e == ConstExpr::I64(n),
            GlobalValue::F32(bits) => e matches ConstExpr::Raw(code) && code@.len() == 5 && code@[0]
                == 0x43 && code@[1] + 0x100 * code@[2] + 0x1_0000 * code@[3] + 0x100_0000 * code@[4]
                == bits,
            GlobalValue::F64(bits) => e matches ConstExpr::Raw(code) && code@.len() == 9 && code@[0]
                == 0x44 && code@[1] + 0x100 * code@[2] + 0x1_0000 * code@[3] + 0x100_0000 * code@[4]
                + 0x1_0000_0000 * code@[5] + 0x100_0000_0000 * code@[6] + 0x1_0000_0000_0000
                * code@[7] + 0x100_0000_0000_0000 * code@[8] == bits,
        },
{
    assert(e@ == value.expr());
    match *value {
        GlobalValue::F32(bits) => {
            lemma_four_bytes(bits as nat);
        },
        GlobalValue::F64(bits) => {
            lemma_eight_bytes(bits as nat);
        },
        _ => {},
    }
}

/// The text of an error of the library is its own; that of a call is what the call said.
pub proof fn law_message(e: &InitializeError, s: String)
    requires
        call_ensures(InitializeError::message, (e,), s),
    ensures
        match *e {
            InitializeError::Rule(x) => s@ == x.text(),
            InitializeError::Invoke(x) => s@ == x.message@,
        },
{
    assert(s@ == e.text());
}

/// Loading the data segments of an image into a memory of zeros gives the image back.  Images
/// whose data starts below two gigabytes always have data segments.
pub proof fn law_data_segments<'a>(
    image: &'a [u8],
    r: Result<Vec<DataSegment<'a>>, InitError>,
    p: int,
)
    requires
        call_ensures(data_segments, (image,), r),
        0 <= p < image@.len(),
        image@.len() <= 0x8000_0000,
        image@.len() <= usize::MAX,
    ensures
        r matches Ok(items) && loaded_byte(views(items@), p) == image@[p],
{
    assert(match r {
        Ok(items) => is_addressable(image@) && views(items@) == image_segments(
            image@,
        ) && items@.len() <= u32::MAX,
        Err(e) => e == InitError::MemoryTooLarge && !is_addressable(image@),
    });
    assert forall|k: int| 0 <= k < segments_of(image@).len() implies (
    #[trigger] segments_of(image@)[k]).0 <= i32::MAX by {
        law_segments_start_and_end_with_data(image@, k);
    }
    law_memory_is_restored(image@, p);
}

/// The modules that are said to be instantiated are those of the core instances.
pub proof fn law_instantiated_modules(
    items: &Vec<Result<Item, ReadError>>,
    found: Vec<u32>,
    module: u32,
)
    requires
        call_ensures(instantiated_modules, (items,), found),
    ensures
        found@.contains(module) <==> exists|n: int|
            0 <= n < core_instances(results(items@)).len() && #[trigger] is_instance_of(
                core_instances(results(items@)),
                n,
                module,
            ),
{
    assert(found@ == instantiated(results(items@)));
    law_instantiated_modules_have_core_instances(results(items@), module);
}

/// The items that are read are those that the payloads become.
pub proof fn law_read_tree(bytes: &[u8], items: Vec<Result<Item, ReadError>>)
    requires
        call_ensures(read_tree, (bytes,), items),
    ensures
        results(items@) == tree(bytes@),
{
}

/// What comes of instrumenting is written from the sections of the instrumented component,
/// together with what there is to capture: its state, all of it and nothing else.
pub proof fn law_instrument(component: &[u8], bytes: Vec<u8>, capture: Capture, g: CapturedGlobal)
    requires
        call_ensures(instrument, (component,), Ok((bytes, capture))),
    ensures
        survey_of(component@) is Ok,
        instrumented(survey_of(component@)->Ok_0) is Ok,
        bytes@ == component_bytes(instrumented(survey_of(component@)->Ok_0)->Ok_0),
        capture.globals@.contains(g) <==> is_state(tree(component@), g),
        instrumented_bytes(component@) == Ok::<_, InitError>((bytes@, capture@)),
{
    assert(instrumented_bytes(component@) == Ok::<_, InitError>((bytes@, capture@)));
    law_bytes_are_those_of_the_sections(
        component@,
        SnapshotV { globals: seq![], memory: None },
    );
    law_capture_is_the_state(component@);
    assert(capture@.globals == capture.globals@);
    if capture.globals@.contains(g) {
        let k = choose|k: int| 0 <= k < capture.globals@.len() && capture.globals@[k] == g;
        assert(is_state(tree(component@), capture@.globals[k]));
    }
}

/// What comes of restoring is written from the sections of the initialized component.
pub proof fn law_restore(component: &[u8], snapshot: &Snapshot, bytes: Vec<u8>)
    requires
        call_ensures(restore, (component, snapshot), Ok(bytes)),
    ensures
        initialized(component@, tree(component@), snapshot@) matches Ok(sections) && bytes@
            == component_bytes(sections),
{
    assert(viewed(Ok::<_, InitError>(bytes))
        == initialized_bytes(component@, snapshot@));
    law_bytes_are_those_of_the_sections(component@, snapshot@);
}

/// The functions that the runtime offers are listed as they are.
pub proof fn law_import_signatures(list: Vec<Signature>, k: int)
    requires
        call_ensures(import_signatures, (), list),
        0 <= k < 23,
    ensures
        list@.len() == 23,
        list@[k].name@ == signatures()[k].name,
        list@[k].ty.params@ == signatures()[k].ty.params,
        list@[k].ty.results@ == signatures()[k].ty.results,
{
    assert(views(list@) == signatures());
    assert(views(list@)[k] == list@[k]@);
}

/// The function, as it is seen by the laws on bindings, is the function that is given.
proof fn lemma_function(functions: &Vec<BoundFunction>, k: int)
    requires
        0 <= k < functions@.len(),
    ensures
        views(functions@)[k] == functions@[k]@,
        views(functions@).len() == functions@.len(),
{
}

/// The generator of the body of an imported function is told its index: the one after those
/// of the runtime and of the imports before it.  The generators for lifts, for lowerings and
/// for what is to be called after an export are told nothing.
pub proof fn law_body_requests(
    functions: &Vec<BoundFunction>,
    list: Vec<BodyRequest>,
    k: int,
)
    requires
        call_ensures(body_requests, (functions,), Some(list)),
        0 <= k < functions@.len(),
    ensures
        list@.len() == functions@.len(),
        match functions@[k].kind {
            FunctionKind::Import => list@[k] == (BodyRequest::Import {
                function: (23 + imported(views(functions@).take(k))) as u32,
            }),
            FunctionKind::Export => list@[k] matches BodyRequest::Export {
                number,
                lift,
                lower,
            } && lift == dispatched(views(functions@).take(k)) && lower == lift + 1,
            FunctionKind::ExportLift => list@[k] == BodyRequest::ExportLift,
            FunctionKind::ExportLower => list@[k] == BodyRequest::ExportLower,
            FunctionKind::ExportPostReturn => list@[k] == BodyRequest::ExportPostReturn,
        },
{
    let fs = views(functions@);
    assert(has_room(fs) && list@ == requests(fs));
    lemma_function(functions, k);
    lemma_tallies(fs);
    lemma_tallies(fs.take(k));
    law_requests_fit_the_kinds(fs, k);
}

/// Two exports have the same number exactly if they are of one interface and one name, and an
/// export that comes first under its own has as number how many have come so before it.
pub proof fn law_body_requests_number_exports(
    functions: &Vec<BoundFunction>,
    list: Vec<BodyRequest>,
    j: int,
    k: int,
)
    requires
        call_ensures(body_requests, (functions,), Some(list)),
        0 <= j < functions@.len(),
        0 <= k < functions@.len(),
        functions@[j].kind == FunctionKind::Export,
        functions@[k].kind == FunctionKind::Export,
    ensures
        list@.len() == functions@.len(),
        list@[j] is Export,
        list@[k] is Export,
        list@[j]->number == list@[k]->number <==> functions@[j]@.interface
            == functions@[k]@.interface && functions@[j].name@ == functions@[k].name@,
        is_new_export(views(functions@), k) ==> list@[k]->number == new_exports(
            views(functions@),
            k as nat,
        ),
{
    let fs = views(functions@);
    assert(has_room(fs) && list@ == requests(fs));
    lemma_function(functions, j);
    lemma_function(functions, k);
    lemma_tallies(fs);
    law_exports_are_numbered_in_order(fs, j, k);
}

/// The module that is made is written from the sections of the bindings, and an export of it
/// has the index and the name of its function: with `cabi_post_` before the name wherever the
/// function is to be called after another.
pub proof fn law_make_bindings(
    world: &String,
    functions: &Vec<BoundFunction>,
    bodies: Vec<GeneratedBody>,
    component_type: Vec<u8>,
    dispatch: &Dispatch,
    bytes: Vec<u8>,
    k: int,
)
    requires
        call_ensures(
            make_bindings,
            (world, functions, bodies, component_type, dispatch),
            Ok(bytes),
        ),
    ensures
        ({
            let fs = views(functions@);
            let sections = binding_sections(
                world@,
                fs,
                views(bodies@),
                component_type@,
                dispatch@,
            );
            &&& is_bound(fs, views(bodies@), dispatch@)
            &&& bytes@ == module_bytes(sections)
            &&& 0 <= k < functions@.len() && (functions@[k].kind == FunctionKind::Export
                || functions@[k].kind == FunctionKind::ExportPostReturn) ==> {
                let export = sections[3]->Exports_0[exported(fs.take(k)) as int];
                &&& exported(fs.take(k)) < sections[3]->Exports_0.len()
                &&& export.index == index_of(fs, k)
                &&& match (functions@[k].kind, functions@[k].interface) {
                    (FunctionKind::Export, Some(interface)) => export.name == interface@ + "#"@
                        + functions@[k].name@,
                    (FunctionKind::Export, None) => export.name == functions@[k].name@,
                    (_, Some(interface)) => export.name == "cabi_post_"@ + interface@ + "#"@
                        + functions@[k].name@,
                    (_, None) => export.name == "cabi_post_"@ + functions@[k].name@,
                }
            }
        }),
{
    let fs = views(functions@);
    assert(bindings(
        world@,
        fs,
        views(bodies@),
        component_type@,
        dispatch@,
    ) == Ok::<_, BindingsError>(bytes@));
    law_bindings_fail_for_these_reasons(
        world@,
        fs,
        views(bodies@),
        component_type@,
        dispatch@,
    );
    if 0 <= k < functions@.len() && (functions@[k].kind == FunctionKind::Export
        || functions@[k].kind == FunctionKind::ExportPostReturn) {
        lemma_function(functions, k);
        law_export_has_its_name(world@, fs, views(bodies@), component_type@, dispatch@, k);
    }
}

/// Why no module is made.
pub proof fn law_make_bindings_error(
    world: &String,
    functions: &Vec<BoundFunction>,
    bodies: Vec<GeneratedBody>,
    component_type: Vec<u8>,
    dispatch: &Dispatch,
    e: BindingsError,
)
    requires
        call_ensures(
            make_bindings,
            (world, functions, bodies, component_type, dispatch),
            Err(e),
        ),
    ensures
        match e {
            BindingsError::BodyCount => bodies@.len() != functions@.len(),
            BindingsError::NoPlace => dispatch.params == 0,
            BindingsError::TooMany => 23 + imported(views(functions@)) + functions@.len() + 2
                > u32::MAX,
            BindingsError::TooLarge => is_bound(views(functions@), views(bodies@), dispatch@),
        },
{
    let fs = views(functions@);
    assert(bindings(
        world@,
        fs,
        views(bodies@),
        component_type@,
        dispatch@,
    ) == Err::<Seq<u8>, _>(e));
    law_bindings_fail_for_these_reasons(
        world@,
        fs,
        views(bodies@),
        component_type@,
        dispatch@,
    );
}

/// The name section that is written is read back.
pub proof fn law_build_name_section(functions: &Vec<Name>, globals: &Vec<Name>, bytes: Vec<u8>)
    requires
        call_ensures(build_name_section, (functions, globals), Some(bytes)),
    ensures
        read_sections(bytes@, 2) matches Some((found, end)) && end.len() == 0 && found.len() == 2
            && found[0] == (1u8, name_map(views(functions@))) && found[1] == (
            7u8,
            name_map(views(globals@)),
        ),
{
    assert(bytes@ == name_section(views(functions@), views(globals@)));
    law_name_section_is_read_back(views(functions@), views(globals@));
}

/// The length of a number is that of what it is written as.
pub proof fn law_leb128_len(n: u64, len: u64)
    requires
        call_ensures(leb128_len, (n,), len),
    ensures
        len == leb128(n as nat).len(),
{
}

/// What the laws on bindings say of a function, they say of its own fields.
pub proof fn law_functions_are_seen_as_they_are(
    f: BoundFunction,
    body: GeneratedBody,
    dispatch: Dispatch,
)
    ensures
        f@.kind == f.kind,
        match f.interface {
            Some(interface) => f@.interface == Some(interface@),
            None => f@.interface is None,
        },
        f@.name == f.name@,
        f@.internal_name == f.internal_name@,
        f@.import_type.params == f.import_type.params@,
        f@.import_type.results == f.import_type.results@,
        f@.export_type.params == f.export_type.params@,
        f@.export_type.results == f.export_type.results@,
        f@.is_dispatchable == f.is_dispatchable,
        body@.locals == body.locals@,
        body@.code == body.code@,
        dispatch@.name == dispatch.name@,
        dispatch@.params == dispatch.params,
{
}

/// What the laws on snapshots and captures say of one, they say of its own fields.
pub proof fn law_states_are_seen_as_they_are(snapshot: Snapshot, capture: Capture)
    ensures
        snapshot@.globals == snapshot.globals@,
        match snapshot.memory {
            Some(state) => snapshot@.memory == Some((state.module, state.image@)),
            None => snapshot@.memory is None,
        },
        capture@.globals == capture.globals@,
        capture@.memory == capture.memory,
{
}

/// A survey finds what the items hold.
pub proof fn law_survey<'a>(
    bytes: &'a [u8],
    items: &Vec<Result<Item, ReadError>>,
    r: Result<Survey<'a>, InitError>,
)
    requires
        call_ensures(survey, (bytes, items), r),
    ensures
        match r {
            Ok(s) => surveyed(bytes@, results(items@)) == Ok::<_, InitError>(s@),
            Err(e) => surveyed(bytes@, results(items@)) == Err::<SurveyV, _>(e),
        },
{
    assert(viewed(r) == surveyed(bytes@, results(items@)));
}

/// The sections of the initialized component are made from the items and the snapshot.
pub proof fn law_apply_snapshot<'a>(
    bytes: &'a [u8],
    items: &Vec<Result<Item, ReadError>>,
    snapshot: &'a Snapshot,
    sections: Vec<ComponentSection<'a>>,
)
    requires
        call_ensures(apply_snapshot, (bytes, items, snapshot), Ok(sections)),
    ensures
        initialized(bytes@, results(items@), snapshot@) == Ok::<_, InitError>(views(sections@)),
{
}

/// A module that is encoded is read back.
pub proof fn law_encode_module<'a>(
    sections: &'a Vec<ModuleSection<'a>>,
    r: Result<Vec<u8>, TooLarge>,
)
    requires
        call_ensures(encode_module, (sections,), r),
    ensures
        match r {
            Ok(bytes) => bytes@.take(8) == seq![0u8, 0x61, 0x73, 0x6d, 1, 0, 0, 0] && (
            read_sections(bytes@.skip(8), sections@.len()) matches Some((found, end)) && end.len()
                == 0 && found.len() == sections@.len() && forall|k: int|
                0 <= k < sections@.len() ==> has_module_id(
                    sections@[k]@,
                    (#[trigger] found[k]).0,
                ) && found[k].1 == section_payload(sections@[k]@)),
            Err(_) => !module_fits(views(sections@)),
        },
{
    let all = views(sections@);
    assert(match r {
        Ok(bytes) => module_fits(all) && bytes@ == module_bytes(all),
        Err(_) => !module_fits(all),
    });
    law_module_is_read_back(all);
    if r is Ok {
        let found = read_sections(module_bytes(all).skip(8), all.len())->Some_0.0;
        assert forall|k: int| 0 <= k < sections@.len() implies has_module_id(
            sections@[k]@,
            (#[trigger] found[k]).0,
        ) && found[k].1 == section_payload(sections@[k]@) by {
            assert(all[k] == sections@[k]@);
        }
    }
}

/// A component that is encoded is read back.
pub proof fn law_encode_component<'a>(
    sections: &'a Vec<ComponentSection<'a>>,
    r: Result<Vec<u8>, TooLarge>,
)
    requires
        call_ensures(encode_component, (sections,), r),
    ensures
        match r {
            Ok(bytes) => bytes@.take(8) == seq![0u8, 0x61, 0x73, 0x6d, 0x0d, 0, 1, 0] && (
            read_sections(bytes@.skip(8), sections@.len()) matches Some((found, end)) && end.len()
                == 0 && found.len() == sections@.len() && forall|k: int|
                0 <= k < sections@.len() ==> has_component_id(
                    sections@[k]@,
                    (#[trigger] found[k]).0,
                )),
            Err(_) => !component_fits(views(sections@)),
        },
{
    let all = views(sections@);
    assert(match r {
        Ok(bytes) => component_fits(all) && bytes@ == component_bytes(all),
        Err(_) => !component_fits(all),
    });
    law_component_is_read_back(all);
    if r is Ok {
        let found = read_sections(component_bytes(all).skip(8), all.len())->Some_0.0;
        assert forall|k: int| 0 <= k < sections@.len() implies has_component_id(
            sections@[k]@,
            (#[trigger] found[k]).0,
        ) by {
            assert(all[k] == sections@[k]@);
        }
    }
}

/// Every byte of an image that is not zero lies in one of the segments.
pub proof fn law_all_segments(bytes: &[u8], segs: Vec<(usize, usize)>, p: int)
    requires
        call_ensures(all_segments, (bytes,), segs),
        bytes@.len() <= usize::MAX,
        0 <= p < bytes@.len(),
        bytes@[p] != 0,
    ensures
        exists|k: int|
            0 <= k < segs@.len() && (#[trigger] segs@[k]).0 <= p < segs@[k].0 + segs@[k].1,
{
    assert(segs@ == segments_of(bytes@));
    law_every_byte_that_is_not_zero_is_stored(bytes@, p);
    let k = choose|k: int|
        0 <= k < segments_of(bytes@).len() && (#[trigger] segments_of(bytes@)[k]).0 <= p
            < segments_of(bytes@)[k].0 + segments_of(bytes@)[k].1;
    assert(segs@[k].0 <= p < segs@[k].0 + segs@[k].1);
}

/// The type of a value is that of the number that it holds.
pub proof fn law_value_type(value: &GlobalValue, ty: ValueType)
    requires
        call_ensures(GlobalValue::value_type, (value,), ty),
    ensures
        is_of(*value, ty),
{
    assert(ty == value.ty());
}

/// Counting an item takes one index more of its own space, and none of the others; if there
/// is none left, the error is that there are too many.
pub proof fn law_count(c: Counts, sort: Sort, r: Result<Counts, InitError>)
    requires
        call_ensures(count, (c, sort), r),
    ensures
        match r {
            Ok(d) => {
                &&& d.instances == c.instances
                &&& d.modules == c.modules + one_if(sort == Sort::CoreModule)
                &&& d.core_functions == c.core_functions + one_if(sort == Sort::CoreFunc)
                &&& d.core_memories == c.core_memories + one_if(sort == Sort::CoreMemory)
                &&& d.functions == c.functions + one_if(sort == Sort::Func)
                &&& d.types == c.types + one_if(sort == Sort::Type)
            },
            Err(e) => e == InitError::TooMany && match sort {
                Sort::CoreModule => c.modules == u32::MAX,
                Sort::CoreFunc => c.core_functions == u32::MAX,
                Sort::CoreMemory => c.core_memories == u32::MAX,
                Sort::Func => c.functions == u32::MAX,
                Sort::Type => c.types == u32::MAX,
                Sort::Other => false,
            },
        },
{
    assert(r == counted(c, sort));
}

/// The message of an error is its text.
pub proof fn law_init_error_message(e: &InitError, s: String)
    requires
        call_ensures(InitError::message, (e,), s),
    ensures
        match *e {
            InitError::Malformed { offset } => s@ == "malformed binary at offset "@ + decimal(
                offset as nat,
            ),
            InitError::NotComponent => s@ == "expected component; got Module"@,
            InitError::Subcomponent => s@ == "subcomponents not allowed"@,
            InitError::SecondTable => s@ == "only one table allowed per component"@,
            InitError::SecondMemory => s@ == "only one memory allowed per component"@,
            InitError::TableOperation => s@ == "table operations not allowed"@,
            InitError::InstantiatedTwice => s@ == "modules may be instantiated at most once"@,
            InitError::V128Global => s@ == "V128 not yet supported"@,
            InitError::ReferenceGlobal => s@ == "reference types not supported"@,
            _ => s@ == e.text(),
        },
{
    assert(s@ == e.text());
}

/// A component that is initialized comes of an instance that was asked for its state, or of
/// a failure that is passed on.
pub proof fn law_initialize<F: FnOnce(&[u8]) -> Result<Box<dyn Invoker>, InvokeError>>(
    component: &[u8],
    start: F,
    r: Result<Vec<u8>, InitializeError>,
)
    requires
        call_ensures(initialize::<F>, (component, start), r),
    ensures
        match r {
            Ok(bytes) => initialize_outcome(component@, start, Ok(bytes@)),
            Err(e) => initialize_outcome(component@, start, Err(e)),
        },
{
    assert(initialize_outcome(component@, start, shown(r)));
}

} // verus!
