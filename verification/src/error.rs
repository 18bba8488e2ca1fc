//! Why a component cannot be initialized ahead of time.
use vstd::prelude::*;
use vstd::string::StringExecFns;
use crate::parse::ReadError;
use crate::text::{decimal, to_decimal};

verus! {

#[derive(Clone, Copy, Debug, PartialEq, Eq, Structural)]
pub enum InitError {
    /// The bytes are not a well-formed binary, from this offset on.
    Malformed { offset: usize },
    /// The binary is a core module.
    NotComponent,
    /// A component stands inside the component.
    Subcomponent,
    /// More than one table is defined.
    SecondTable,
    /// More than one memory is defined.
    SecondMemory,
    /// A function changes a table.
    TableOperation,
    /// A module is instantiated again.
    InstantiatedTwice,
    /// A mutable global holds a vector.
    V128Global,
    /// A global holds a reference.
    ReferenceGlobal,
    /// The stack pointer that the memory calls for is missing, or is not unique.
    StackPointer,
    /// No name is known under which this mutable global is exported.
    UnexportedGlobal { module: u32, index: u32 },
    /// There are more items than indices.
    TooMany,
    /// A section is too large to be encoded.
    TooLarge,
    /// No value was given for a mutable global.
    MissingValue { module: u32, index: u32 },
    /// The memory holds data at an address that no data segment can have.
    MemoryTooLarge,
}

/// The failure to read as an error.
pub open spec fn malformed(e: ReadError) -> InitError {
    InitError::Malformed { offset: e.offset }
}

/// The views of what was computed, or the error.
pub open spec fn viewed<T: View>(r: Result<T, InitError>) -> Result<T::V, InitError> {
    match r {
        Ok(x) => Ok(x@),
        Err(e) => Err(e),
    }
}

impl InitError {
    /// The text of an error.
    pub open spec fn text(self) -> Seq<char> {
        match self {
            InitError::Malformed { offset } => "malformed binary at offset "@ + decimal(
                offset as nat,
            ),
            InitError::NotComponent => "expected component; got Module"@,
            InitError::Subcomponent => "subcomponents not allowed"@,
            InitError::SecondTable => "only one table allowed per component"@,
            InitError::SecondMemory => "only one memory allowed per component"@,
            InitError::TableOperation => "table operations not allowed"@,
            InitError::InstantiatedTwice => "modules may be instantiated at most once"@,
            InitError::V128Global => "V128 not yet supported"@,
            InitError::ReferenceGlobal => "reference types not supported"@,
            InitError::StackPointer =>
                "component with memory must contain exactly one module which exports a mutable `__stack_pointer` global of type I32"@,
            InitError::UnexportedGlobal { module, index } => "no export of global "@
                + decimal(index as nat) + " of module "@ + decimal(module as nat),
            InitError::TooMany => "too many items"@,
            InitError::TooLarge => "section too large"@,
            InitError::MissingValue { module, index } => "no value for global "@ + decimal(
                index as nat,
            ) + " of module "@ + decimal(module as nat),
            InitError::MemoryTooLarge => "memory too large"@,
        }
    }

    /// Says what is wrong.
    pub fn message(&self) -> (s: String)
        ensures
            s@ == self.text(),
    {
        match *self {
            InitError::Malformed { offset } => {
                let mut s = String::from_str("malformed binary at offset ");
                s.append(to_decimal(offset as u64).as_str());
                s
            },
            InitError::NotComponent => String::from_str("expected component; got Module"),
            InitError::Subcomponent => String::from_str("subcomponents not allowed"),
            InitError::SecondTable => String::from_str("only one table allowed per component"),
            InitError::SecondMemory => String::from_str("only one memory allowed per component"),
            InitError::TableOperation => String::from_str("table operations not allowed"),
            InitError::InstantiatedTwice => String::from_str(
                "modules may be instantiated at most once",
            ),
            InitError::V128Global => String::from_str("V128 not yet supported"),
            InitError::ReferenceGlobal => String::from_str("reference types not supported"),
            InitError::StackPointer => String::from_str(
                "component with memory must contain exactly one module which exports a mutable `__stack_pointer` global of type I32",
            ),
            InitError::UnexportedGlobal { module, index } => {
                let mut s = String::from_str("no export of global ");
                s.append(to_decimal(index as u64).as_str());
                s.append(" of module ");
                s.append(to_decimal(module as u64).as_str());
                s
            },
            InitError::TooMany => String::from_str("too many items"),
            InitError::TooLarge => String::from_str("section too large"),
            InitError::MissingValue { module, index } => {
                let mut s = String::from_str("no value for global ");
                s.append(to_decimal(index as u64).as_str());
                s.append(" of module ");
                s.append(to_decimal(module as u64).as_str());
                s
            },
            InitError::MemoryTooLarge => String::from_str("memory too large"),
        }
    }
}

/// Every error has a text of its own, and where it names a place, so does its text.
pub proof fn law_texts_say_what_is_wrong(e: InitError)
    ensures
        match e {
            InitError::Malformed { offset } => e.text() == "malformed binary at offset "@
                + decimal(offset as nat),
            InitError::NotComponent => e.text() == "expected component; got Module"@,
            InitError::Subcomponent => e.text() == "subcomponents not allowed"@,
            InitError::SecondTable => e.text() == "only one table allowed per component"@,
            InitError::SecondMemory => e.text() == "only one memory allowed per component"@,
            InitError::TableOperation => e.text() == "table operations not allowed"@,
            InitError::InstantiatedTwice => e.text()
                == "modules may be instantiated at most once"@,
            InitError::V128Global => e.text() == "V128 not yet supported"@,
            InitError::ReferenceGlobal => e.text() == "reference types not supported"@,
            InitError::StackPointer => e.text()
                == "component with memory must contain exactly one module which exports a mutable `__stack_pointer` global of type I32"@,
            InitError::UnexportedGlobal { module, index } => e.text() == "no export of global "@
                + decimal(index as nat) + " of module "@ + decimal(module as nat),
            InitError::TooMany => e.text() == "too many items"@,
            InitError::TooLarge => e.text() == "section too large"@,
            InitError::MissingValue { module, index } => e.text() == "no value for global "@
                + decimal(index as nat) + " of module "@ + decimal(module as nat),
            InitError::MemoryTooLarge => e.text() == "memory too large"@,
        },
{
}

} // verus!
