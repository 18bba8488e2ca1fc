use componentize_py::link::{link_inputs, unpack, DecodeError, Images, Library};

fn pack(text: &str) -> Vec<u8> {
    zstd::encode_all(text.as_bytes(), 3).unwrap()
}

fn images() -> Images {
    Images {
        runtime: pack("runtime"),
        python: pack("python"),
        libc: pack("libc"),
        libcxx: pack("libc++"),
        libcxxabi: pack("libc++abi"),
        adapter: pack("adapter"),
    }
}

fn library(name: &str, data: &str) -> Library {
    Library { name: name.to_string(), data: data.as_bytes().to_vec() }
}

#[test]
fn libraries_are_linked_in_order_with_the_adapter() {
    let inputs = link_inputs(&images(), b"bindings".to_vec(), None).unwrap();
    assert_eq!(
        inputs.libraries,
        vec![
            library("libcomponentize_py_runtime.so", "runtime"),
            library("libpython3.11.so", "python"),
            library("libc.so", "libc"),
            library("libc++.so", "libc++"),
            library("libc++abi.so", "libc++abi"),
            library("libcomponentize_py_bindings.so", "bindings"),
        ]
    );
    assert!(!inputs.dl_openable);
    assert_eq!(inputs.adapter, Some(library("wasi_snapshot_preview1", "adapter")));
}

#[test]
fn a_stub_takes_the_place_of_the_adapter() {
    let mut images = images();
    images.adapter = b"never looked at".to_vec();
    let inputs = link_inputs(&images, b"bindings".to_vec(), Some(b"stub".to_vec())).unwrap();
    assert_eq!(inputs.libraries.len(), 7);
    assert_eq!(inputs.libraries[6], library("libcomponentize_py_wasi_stub.so", "stub"));
    assert_eq!(inputs.adapter, None);
}

#[test]
fn the_first_image_that_is_broken_is_named() {
    let mut broken = images();
    broken.libc = b"broken".to_vec();
    broken.libcxx = b"broken".to_vec();
    assert_eq!(
        link_inputs(&broken, vec![], None),
        Err(DecodeError { name: "libc.so".to_string() })
    );
    let mut broken = images();
    broken.adapter = b"broken".to_vec();
    assert_eq!(
        link_inputs(&broken, vec![], None),
        Err(DecodeError { name: "wasi_snapshot_preview1".to_string() })
    );
}

#[test]
fn images_are_unpacked_one_by_one() {
    let packed = vec![Library { name: "x".to_string(), data: pack("xyz") }];
    assert_eq!(unpack(&packed), Ok(vec![library("x", "xyz")]));
    assert_eq!(unpack(&vec![]), Ok(vec![]));
}
