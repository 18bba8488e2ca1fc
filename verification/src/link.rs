//! What a component is linked from.
use vstd::prelude::*;
use vstd::string::StringExecFns;
use crate::fold::{fold, lemma_fold_step, lemma_fold_stop};
use crate::wasm::{lemma_views_push, views};

verus! {

/// A named image: a library or an adapter, compressed or not.
#[derive(Debug, PartialEq, Eq)]
pub struct Library {
    pub name: String,
    pub data: Vec<u8>,
}

pub struct LibraryV {
    pub name: Seq<char>,
    pub data: Seq<u8>,
}

impl View for Library {
    type V = LibraryV;

    open spec fn view(&self) -> LibraryV {
        LibraryV { name: self.name@, data: self.data@ }
    }
}

/// The compressed images that every component is linked from.
#[derive(Debug, PartialEq, Eq)]
pub struct Images {
    pub runtime: Vec<u8>,
    pub python: Vec<u8>,
    pub libc: Vec<u8>,
    pub libcxx: Vec<u8>,
    pub libcxxabi: Vec<u8>,
    pub adapter: Vec<u8>,
}

/// The image that could not be decompressed.
#[derive(Debug, PartialEq, Eq)]
pub struct DecodeError {
    pub name: String,
}

/// What `zstd::decode_all` makes of the bytes; nothing, if they are no zstd frames.
pub uninterp spec fn decoded(bytes: Seq<u8>) -> Option<Seq<u8>>;

/// The contents, if there are any.
pub open spec fn contents(data: Option<Vec<u8>>) -> Option<Seq<u8>> {
    match data {
        Some(data) => Some(data@),
        None => None,
    }
}

/// `zstd::decode_all`: the decompressed bytes.
#[verifier::external_body]
fn decode_all(bytes: &Vec<u8>) -> (r: Option<Vec<u8>>)
    ensures
        contents(r) == decoded(bytes@),
{
    zstd::decode_all(bytes.as_slice()).ok()
}

/// Decompresses one image more; the error is the name of one that cannot be.
pub open spec fn unpack_step() -> spec_fn(Seq<LibraryV>, LibraryV) -> Result<
    Seq<LibraryV>,
    Seq<char>,
> {
    |done: Seq<LibraryV>, x: LibraryV|
        match decoded(x.data) {
            Some(data) => Ok(done.push(LibraryV { name: x.name, data })),
            None => Err(x.name),
        }
}

/// The images decompressed, or the name of the first that cannot be.
pub open spec fn unpacked(list: Seq<LibraryV>) -> Result<Seq<LibraryV>, Seq<char>> {
    fold(seq![], list, unpack_step())
}

/// Decompresses images.
pub fn unpack(list: &Vec<Library>) -> (r: Result<Vec<Library>, DecodeError>)
    ensures
        match r {
            Ok(done) => unpacked(views(list@)) == Ok::<_, Seq<char>>(views(done@)),
            Err(e) => unpacked(views(list@)) == Err::<Seq<LibraryV>, _>(e.name@),
        },
{
    let ghost all = views(list@);
    let ghost init = Seq::<LibraryV>::empty();
    let ghost step = unpack_step();
    let mut done: Vec<Library> = Vec::new();
    assert(views(done@) =~= init);
    let mut i: usize = 0;
    while i < list.len()
        invariant
            i <= list.len(),
            all == views(list@),
            init == Seq::<LibraryV>::empty(),
            step == unpack_step(),
            fold(init, all.take(i as int), step) == Ok::<_, Seq<char>>(views(done@)),
        decreases list.len() - i,
    {
        let x = &list[i];
        proof {
            assert(all[i as int] == list@[i as int]@);
            lemma_fold_step(init, all, i as int, step);
        }
        match decode_all(&x.data) {
            Some(data) => {
                let library = Library { name: x.name.clone(), data };
                proof {
                    lemma_views_push(done@, library);
                }
                done.push(library);
            },
            None => {
                proof {
                    lemma_fold_stop(init, all, i as int, step);
                }
                return Err(DecodeError { name: x.name.clone() });
            },
        }
        i += 1;
    }
    assert(all.take(i as int) =~= all);
    Ok(done)
}

/// The compressed libraries, in the order in which they are linked.
pub open spec fn packed_libraries(images: Images) -> Seq<LibraryV> {
    seq![
        LibraryV { name: "libcomponentize_py_runtime.so"@, data: images.runtime@ },
        LibraryV { name: "libpython3.11.so"@, data: images.python@ },
        LibraryV { name: "libc.so"@, data: images.libc@ },
        LibraryV { name: "libc++.so"@, data: images.libcxx@ },
        LibraryV { name: "libc++abi.so"@, data: images.libcxxabi@ },
    ]
}

/// What a component is linked from: libraries, in this order, and an adapter.  The flag says
/// whether the exports of the libraries can be looked up at run time.
#[derive(Debug, PartialEq, Eq)]
pub struct LinkInputs {
    pub libraries: Vec<Library>,
    pub dl_openable: bool,
    pub adapter: Option<Library>,
}

pub struct LinkInputsV {
    pub libraries: Seq<LibraryV>,
    pub dl_openable: bool,
    pub adapter: Option<LibraryV>,
}

impl View for LinkInputs {
    type V = LinkInputsV;

    open spec fn view(&self) -> LinkInputsV {
        LinkInputsV {
            libraries: views(self.libraries@),
            dl_openable: self.dl_openable,
            adapter: match self.adapter {
                Some(adapter) => Some(adapter@),
                None => None,
            },
        }
    }
}

/// The library that binds the world.
pub open spec fn bindings_library(bindings: Seq<u8>) -> LibraryV {
    LibraryV { name: "libcomponentize_py_bindings.so"@, data: bindings }
}

/// The library that stands in for WASI.
pub open spec fn stub_library(stub: Seq<u8>) -> LibraryV {
    LibraryV { name: "libcomponentize_py_wasi_stub.so"@, data: stub }
}

/// The name of the adapter.
pub open spec fn adapter_name() -> Seq<char> {
    "wasi_snapshot_preview1"@
}

/// The libraries decompressed, then the one that binds the world, and then either the
/// library that stands in for WASI or the adapter.  No export can be looked up at run time.
/// Or the name of the first image that cannot be decompressed.
pub open spec fn linked_from(images: Images, bindings: Seq<u8>, stub: Option<Seq<u8>>) -> Result<
    LinkInputsV,
    Seq<char>,
> {
    match unpacked(packed_libraries(images)) {
        Ok(libraries) => {
            let bound = libraries.push(bindings_library(bindings));
            match stub {
                Some(stub) => Ok(
                    LinkInputsV {
                        libraries: bound.push(stub_library(stub)),
                        dl_openable: false,
                        adapter: None,
                    },
                ),
                None => match decoded(images.adapter@) {
                    Some(data) => Ok(
                        LinkInputsV {
                            libraries: bound,
                            dl_openable: false,
                            adapter: Some(LibraryV { name: adapter_name(), data }),
                        },
                    ),
                    None => Err(adapter_name()),
                },
            }
        },
        Err(name) => Err(name),
    }
}

fn copy_bytes(bytes: &Vec<u8>) -> (copy: Vec<u8>)
    ensures
        copy@ == bytes@,
{
    vstd::slice::slice_to_vec(bytes.as_slice())
}

/// Collects what a component is linked from; `stub` is the library that stands in for
/// WASI, where one is wanted.
pub fn link_inputs(images: &Images, bindings: Vec<u8>, stub: Option<Vec<u8>>) -> (r: Result<
    LinkInputs,
    DecodeError,
>)
    ensures
        match r {
            Ok(inputs) => linked_from(*images, bindings@, contents(stub)) == Ok::<_, Seq<char>>(
                inputs@,
            ),
            Err(e) => linked_from(*images, bindings@, contents(stub)) == Err::<LinkInputsV, _>(
                e.name@,
            ),
        },
{
    let packed = vec![
        Library {
            name: String::from_str("libcomponentize_py_runtime.so"),
            data: copy_bytes(&images.runtime),
        },
        Library { name: String::from_str("libpython3.11.so"), data: copy_bytes(&images.python) },
        Library { name: String::from_str("libc.so"), data: copy_bytes(&images.libc) },
        Library { name: String::from_str("libc++.so"), data: copy_bytes(&images.libcxx) },
        Library { name: String::from_str("libc++abi.so"), data: copy_bytes(&images.libcxxabi) },
    ];
    assert(views(packed@) =~= packed_libraries(*images));
    let mut libraries = match unpack(&packed) {
        Ok(libraries) => libraries,
        Err(e) => {
            return Err(e);
        },
    };
    let bound = Library {
        name: String::from_str("libcomponentize_py_bindings.so"),
        data: bindings,
    };
    proof {
        lemma_views_push(libraries@, bound);
    }
    libraries.push(bound);
    match stub {
        Some(stub) => {
            let library = Library {
                name: String::from_str("libcomponentize_py_wasi_stub.so"),
                data: stub,
            };
            proof {
                lemma_views_push(libraries@, library);
            }
            libraries.push(library);
            Ok(LinkInputs { libraries, dl_openable: false, adapter: None })
        },
        None => match decode_all(&images.adapter) {
            Some(data) => Ok(
                LinkInputs {
                    libraries,
                    dl_openable: false,
                    adapter: Some(
                        Library { name: String::from_str("wasi_snapshot_preview1"), data },
                    ),
                },
            ),
            None => Err(DecodeError { name: String::from_str("wasi_snapshot_preview1") }),
        },
    }
}

/// Images that are decompressed stay in order and keep their names, and each holds what its
/// own bytes give.  If one cannot be, the error is the name of the first such image.
pub proof fn law_images_are_decompressed_one_by_one(list: Seq<LibraryV>)
    ensures
        match unpacked(list) {
            Ok(done) => {
                &&& done.len() == list.len()
                &&& forall|k: int|
                    0 <= k < list.len() ==> (#[trigger] done[k]).name == list[k].name && Some(
                        done[k].data,
                    ) == decoded(list[k].data)
            },
            Err(name) => exists|k: int|
                {
                    &&& 0 <= k < list.len()
                    &&& (#[trigger] list[k]).name == name
                    &&& decoded(list[k].data) is None
                    &&& forall|j: int| 0 <= j < k ==> decoded((#[trigger] list[j]).data) is Some
                },
        },
    decreases list.len(),
{
    if list.len() > 0 {
        let rest = list.drop_last();
        law_images_are_decompressed_one_by_one(rest);
        let before = unpacked(rest);
        if before is Err {
            let k = choose|k: int|
                {
                    &&& 0 <= k < rest.len()
                    &&& (#[trigger] rest[k]).name == before->Err_0
                    &&& decoded(rest[k].data) is None
                    &&& forall|j: int| 0 <= j < k ==> decoded((#[trigger] rest[j]).data) is Some
                };
            assert(list[k] == rest[k]);
            assert forall|j: int| 0 <= j < k implies decoded((#[trigger] list[j]).data) is Some by {
                assert(list[j] == rest[j]);
            }
        } else {
            assert forall|j: int| 0 <= j < rest.len() implies decoded(
                (#[trigger] list[j]).data,
            ) is Some by {
                assert(rest[j] == list[j]);
                assert(before->Ok_0[j].name == rest[j].name);
            }
            let last = list.len() - 1;
            assert(list[last] == list.last());
            if unpacked(list) is Ok {
                let done = unpacked(list)->Ok_0;
                assert forall|k: int| 0 <= k < list.len() implies (#[trigger] done[k]).name
                    == list[k].name && Some(done[k].data) == decoded(list[k].data) by {
                    if k < rest.len() {
                        assert(rest[k] == list[k]);
                        assert(done[k] == before->Ok_0[k]);
                    }
                }
            }
        }
    }
}

/// A component is linked from the five libraries that every component has, then the bindings
/// as they are, under their own name, and then the stub as it is, if there is one.
pub proof fn law_bindings_and_stub_are_linked_as_they_are(
    images: Images,
    bindings: Seq<u8>,
    stub: Option<Seq<u8>>,
)
    ensures
        linked_from(images, bindings, stub) matches Ok(inputs) ==> {
            let libraries = inputs.libraries;
            &&& libraries.len() == if stub is Some {
                7int
            } else {
                6int
            }
            &&& libraries[0].name == "libcomponentize_py_runtime.so"@
            &&& libraries[1].name == "libpython3.11.so"@
            &&& libraries[2].name == "libc.so"@
            &&& libraries[3].name == "libc++.so"@
            &&& libraries[4].name == "libc++abi.so"@
            &&& Some(libraries[0].data) == decoded(images.runtime@)
            &&& Some(libraries[1].data) == decoded(images.python@)
            &&& Some(libraries[2].data) == decoded(images.libc@)
            &&& Some(libraries[3].data) == decoded(images.libcxx@)
            &&& Some(libraries[4].data) == decoded(images.libcxxabi@)
            &&& libraries[5].name == "libcomponentize_py_bindings.so"@
            &&& libraries[5].data == bindings
            &&& stub is Some ==> libraries[6].name == "libcomponentize_py_wasi_stub.so"@
                && libraries[6].data == stub->Some_0
            &&& !inputs.dl_openable
        },
{
    law_images_are_decompressed_one_by_one(packed_libraries(images));
    if let Ok(done) = unpacked(packed_libraries(images)) {
        let packed = packed_libraries(images);
        assert(done[0].name == packed[0].name);
        assert(done[1].name == packed[1].name);
        assert(done[2].name == packed[2].name);
        assert(done[3].name == packed[3].name);
        assert(done[4].name == packed[4].name);
    }
}

/// There is an adapter exactly if there is no stub, and it is decompressed from its own image.
pub proof fn law_adapter_is_linked_unless_there_is_a_stub(
    images: Images,
    bindings: Seq<u8>,
    stub: Option<Seq<u8>>,
)
    ensures
        linked_from(images, bindings, stub) matches Ok(inputs) ==> match inputs.adapter {
            Some(adapter) => stub is None && adapter.name == "wasi_snapshot_preview1"@ && Some(
                adapter.data,
            ) == decoded(images.adapter@),
            None => stub is Some,
        },
{
}

/// Whether there is a stub changes none of the libraries before it.
pub proof fn law_stub_is_only_added(
    images: Images,
    bindings: Seq<u8>,
    stub: Seq<u8>,
    with: LinkInputsV,
    without: LinkInputsV,
)
    requires
        linked_from(images, bindings, Some(stub)) == Ok::<_, Seq<char>>(with),
        linked_from(images, bindings, None) == Ok::<_, Seq<char>>(without),
    ensures
        with.libraries.drop_last() == without.libraries,
        with.libraries.last().data == stub,
{
    assert(with.libraries.drop_last() =~= without.libraries);
}

/// Nothing is linked exactly if an image that is wanted cannot be decompressed: the adapter is
/// wanted only where there is no stub.
pub proof fn law_linking_fails_by_images_only(
    images: Images,
    bindings: Seq<u8>,
    stub: Option<Seq<u8>>,
)
    ensures
        linked_from(images, bindings, stub) is Ok <==> {
            &&& decoded(images.runtime@) is Some
            &&& decoded(images.python@) is Some
            &&& decoded(images.libc@) is Some
            &&& decoded(images.libcxx@) is Some
            &&& decoded(images.libcxxabi@) is Some
            &&& stub is None ==> decoded(images.adapter@) is Some
        },
        linked_from(images, bindings, stub) matches Err(name) ==> {
            ||| name == "libcomponentize_py_runtime.so"@ && decoded(images.runtime@) is None
            ||| name == "libpython3.11.so"@ && decoded(images.python@) is None
            ||| name == "libc.so"@ && decoded(images.libc@) is None
            ||| name == "libc++.so"@ && decoded(images.libcxx@) is None
            ||| name == "libc++abi.so"@ && decoded(images.libcxxabi@) is None
            ||| name == "wasi_snapshot_preview1"@ && decoded(images.adapter@) is None
        },
{
    let packed = packed_libraries(images);
    law_images_are_decompressed_one_by_one(packed);
    match unpacked(packed) {
        Ok(done) => {
            assert(done[0].name == packed[0].name);
            assert(done[1].name == packed[1].name);
            assert(done[2].name == packed[2].name);
            assert(done[3].name == packed[3].name);
            assert(done[4].name == packed[4].name);
        },
        Err(name) => {
            let k = choose|k: int|
                0 <= k < packed.len() && (#[trigger] packed[k]).name == name && decoded(
                    packed[k].data,
                ) is None;
            assert(k == 0 || k == 1 || k == 2 || k == 3 || k == 4);
        },
    }
}

} // verus!
