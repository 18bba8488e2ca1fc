//! Components from Python applications.
//!
//! Two things are done here.  Bindings between a world and the runtime are put together
//! as a core module ([`bindings`]), which is linked with the runtime and its libraries
//! ([`link`]).  And a component is initialized ahead of time ([`initialize`]): it is
//! instrumented ([`instrument`]) so that its globals and its memory can be read from
//! outside, started, and asked for its state, which then becomes the initial state of a
//! new component ([`snapshot`]).
//!
//! Contracts are written over mathematical counterparts of the types in [`wasm`].  What
//! holds of accepted components stands in [`rules`], and which error comes of which fault
//! in [`faults`].  How payloads become items stands in [`read`], what is found in them in
//! [`tallies`], which globals are captured in [`exposed`], and under which names they are
//! exported in [`named`].  What the added functions return stands in [`getters`], what an
//! instance is asked and what becomes of its replies in [`asked`], and what an initialized
//! component keeps and what it is given in [`preserved`] and [`restored`].  How bindings
//! read stands in [`bound`], and how all that is written is read back in [`written`].
//! What the functions return is said of the functions themselves in [`results`].
pub mod asked;
pub mod bindings;
pub mod bound;
pub mod capture;
pub mod encode;
pub mod error;
pub mod exposed;
pub mod faults;
pub mod fold;
pub mod format;
pub mod getters;
pub mod initialize;
pub mod instrument;
pub mod launch;
pub mod link;
pub mod named;
pub mod names;
pub mod parse;
pub mod preserved;
pub mod read;
pub mod restored;
pub mod results;
pub mod rules;
pub mod segments;
pub mod size;
pub mod snapshot;
pub mod survey;
pub mod tallies;
pub mod text;
pub mod tree;
pub mod wasm;
pub mod written;

use vstd::prelude::*;

verus! {

/// Returns the value of a counter and advances it by one.
pub fn get_and_increment(n: &mut u32) -> (v: u32)
    requires
        *old(n) < u32::MAX,
    ensures
        v == *old(n),
        *final(n) == *old(n) + 1,
{
    let v: u32 = *n;
    *n += 1;
    v
}

} // verus!
