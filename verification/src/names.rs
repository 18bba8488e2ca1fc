//! The section that gives names to functions and globals.
use vstd::prelude::*;
use crate::format::{encoded_bytes, encoded_text, leb128, text_size};
use crate::wasm::views;

verus! {

/// `wasm_encoder::Encode::encode` of a `u32` appends the number as LEB128.
#[verifier::external_body]
fn encode_number(n: u32, sink: &mut Vec<u8>)
    ensures
        final(sink)@ == old(sink)@ + leb128(n as nat),
{
    wasm_encoder::Encode::encode(&n, sink)
}

/// `wasm_encoder::Encode::encode` of a `str` appends the number of its bytes as LEB128,
/// and then the bytes.  It panics where that number does not fit in 32 bits.
#[verifier::external_body]
fn encode_text(s: &str, sink: &mut Vec<u8>)
    requires
        text_size(s@) <= u32::MAX,
    ensures
        final(sink)@ == old(sink)@ + encoded_text(s@),
{
    wasm_encoder::Encode::encode(s, sink)
}

/// `wasm_encoder::Encode::encode` of a `[u8]` appends the number of the bytes as LEB128,
/// and then the bytes.  It panics where that number does not fit in 32 bits.
#[verifier::external_body]
fn encode_bytes(b: &[u8], sink: &mut Vec<u8>)
    requires
        b@.len() <= u32::MAX,
    ensures
        final(sink)@ == old(sink)@ + encoded_bytes(b@),
{
    wasm_encoder::Encode::encode(b, sink)
}

/// An index and the name that goes with it.
#[derive(Debug, PartialEq, Eq)]
pub struct Name {
    pub index: u32,
    pub name: String,
}

pub struct NameV {
    pub index: u32,
    pub name: Seq<char>,
}

impl View for Name {
    type V = NameV;

    open spec fn view(&self) -> NameV {
        NameV { index: self.index, name: self.name@ }
    }
}

/// Indices, each with its name.
pub open spec fn encoded_names(names: Seq<NameV>) -> Seq<u8>
    decreases names.len(),
{
    if names.len() == 0 {
        seq![]
    } else {
        encoded_names(names.drop_last()) + leb128(names.last().index as nat) + encoded_text(
            names.last().name,
        )
    }
}

/// What a list of names is written as: their number, and then each.
pub open spec fn name_map(names: Seq<NameV>) -> Seq<u8> {
    leb128(names.len()) + encoded_names(names)
}

/// Every length in a list of names, and that of the list, can be written.
pub open spec fn names_fit(names: Seq<NameV>) -> bool {
    &&& names.len() <= u32::MAX
    &&& forall|k: int| 0 <= k < names.len() ==> text_size((#[trigger] names[k]).name) <= u32::MAX
    &&& name_map(names).len() <= u32::MAX
}

/// A part of the section: its id, and a list of names.
pub open spec fn subsection(id: u8, names: Seq<NameV>) -> Seq<u8> {
    seq![id] + encoded_bytes(name_map(names))
}

fn encode_names(names: &Vec<Name>) -> (r: Option<Vec<u8>>)
    ensures
        match r {
            Some(bytes) => names_fit(views(names@)) && bytes@ == name_map(views(names@)),
            None => !names_fit(views(names@)),
        },
{
    let ghost all = views(names@);
    if names.len() > u32::MAX as usize {
        return None;
    }
    let mut bytes: Vec<u8> = Vec::new();
    encode_number(names.len() as u32, &mut bytes);
    assert(bytes@ =~= leb128(all.len()) + encoded_names(all.take(0)));
    let mut i: usize = 0;
    while i < names.len()
        invariant
            i <= names.len(),
            names.len() <= u32::MAX,
            all == views(names@),
            forall|k: int| 0 <= k < i ==> text_size((#[trigger] all[k]).name) <= u32::MAX,
            bytes@ == leb128(all.len()) + encoded_names(all.take(i as int)),
        decreases names.len() - i,
    {
        let name = &names[i];
        assert(all[i as int] == names@[i as int]@);
        if name.name.as_str().as_bytes().len() > u32::MAX as usize {
            assert(!names_fit(all));
            return None;
        }
        encode_number(name.index, &mut bytes);
        encode_text(name.name.as_str(), &mut bytes);
        proof {
            let next = all.take(i + 1);
            assert(next.drop_last() =~= all.take(i as int));
            assert(next.last() == all[i as int]);
            assert(bytes@ =~= leb128(all.len()) + encoded_names(next));
        }
        i += 1;
    }
    assert(all.take(i as int) =~= all);
    if bytes.len() > u32::MAX as usize {
        return None;
    }
    Some(bytes)
}

/// The ids of the lists of function names and of global names.
pub const FUNCTION_NAMES: u8 = 1;

pub const GLOBAL_NAMES: u8 = 7;

/// The contents of the section.
pub open spec fn name_section(functions: Seq<NameV>, globals: Seq<NameV>) -> Seq<u8> {
    subsection(FUNCTION_NAMES, functions) + subsection(GLOBAL_NAMES, globals)
}

/// Writes the contents of the section, if every length in it can be written.
pub fn build_name_section(functions: &Vec<Name>, globals: &Vec<Name>) -> (r: Option<Vec<u8>>)
    ensures
        match r {
            Some(bytes) => {
                &&& names_fit(views(functions@))
                &&& names_fit(views(globals@))
                &&& bytes@ == name_section(views(functions@), views(globals@))
            },
            None => !(names_fit(views(functions@)) && names_fit(views(globals@))),
        },
{
    match (encode_names(functions), encode_names(globals)) {
        (Some(first), Some(second)) => {
            let mut bytes: Vec<u8> = Vec::new();
            bytes.push(FUNCTION_NAMES);
            encode_bytes(first.as_slice(), &mut bytes);
            bytes.push(GLOBAL_NAMES);
            encode_bytes(second.as_slice(), &mut bytes);
            assert(bytes@ =~= name_section(views(functions@), views(globals@)));
            Some(bytes)
        },
        _ => None,
    }
}

} // verus!
