//! Why a request cannot be answered.
use vstd::prelude::*;

use crate::text::join3;
use crate::variable::{VariableLocation, VariableType};

verus! {

/// Why a request to resolve variables or functions cannot be answered.
///
/// `NeedsMemory` and `NeedsValue` ask for something that the target has not been read for yet.
/// The caller reads it, adds the reply to the [`Target`](crate::target::Target), and asks again.
#[derive(Debug)]
pub enum DebugError<S = String> {
    /// The debugging information cannot be read.
    Dwarf(S),
    /// There is no entry at this offset of the unit.
    NoEntry(usize),
    /// Anything else, in words.
    Other(S),
    /// The value of a register does not fit into 64 bits.
    RegisterTooWide,
    /// The target refused to have its memory read.
    MemoryRead {
        /// The address of the first byte.
        address: u64,
        /// The number of bytes.
        size: usize,
    },
    /// The memory of the target must be read first.
    NeedsMemory {
        /// The address of the first byte.
        address: u64,
        /// The number of bytes.
        size: usize,
    },
    /// The value of a variable must be decoded first.
    NeedsValue {
        /// The type of the variable.
        variable_type: VariableType<S>,
        /// Where the variable is kept.
        memory_location: VariableLocation<S>,
        /// How many bytes the variable takes.
        byte_size: u64,
    },
    /// An expression asks for a number of bytes from memory that is not supported.
    UnsupportedMemorySize(u8),
    /// The address of a variable is above the largest address.
    AddressOverflow,
    /// The types of the program are nested deeper than the caller allows.
    NestedTooDeep,
    /// The cache holds no variable with this key.
    UnknownVariable(i64),
    /// The cache holds no variable with this key that could be a parent.
    UnknownParent(i64),
    /// The cache has given out all its keys.
    KeysExhausted,
}

/// An error as contracts speak of it.
pub type DebugErrorView = DebugError<Seq<char>>;

impl View for DebugError {
    type V = DebugErrorView;

    open spec fn view(&self) -> DebugErrorView {
        match *self {
            DebugError::Dwarf(s) => DebugError::Dwarf(s@),
            DebugError::NoEntry(offset) => DebugError::NoEntry(offset),
            DebugError::Other(s) => DebugError::Other(s@),
            DebugError::RegisterTooWide => DebugError::RegisterTooWide,
            DebugError::MemoryRead { address, size } => DebugError::MemoryRead { address, size },
            DebugError::NeedsMemory { address, size } => DebugError::NeedsMemory { address, size },
            DebugError::NeedsValue { variable_type, memory_location, byte_size } =>
                DebugError::NeedsValue {
                variable_type: variable_type@,
                memory_location: memory_location@,
                byte_size,
            },
            DebugError::UnsupportedMemorySize(size) => DebugError::UnsupportedMemorySize(size),
            DebugError::AddressOverflow => DebugError::AddressOverflow,
            DebugError::NestedTooDeep => DebugError::NestedTooDeep,
            DebugError::UnknownVariable(key) => DebugError::UnknownVariable(key),
            DebugError::UnknownParent(key) => DebugError::UnknownParent(key),
            DebugError::KeysExhausted => DebugError::KeysExhausted,
        }
    }
}

impl DebugError<Seq<char>> {
    /// Whether the error stands for something that only the caller can decide.
    pub open spec fn for_caller(self) -> bool {
        self is NeedsMemory || self is UnsupportedMemorySize
    }

    /// An error of an expression as in a diagnostic.
    pub open spec fn described(self) -> Seq<char> {
        match self {
            DebugError::Dwarf(text) => "Dwarf("@ + text + ")"@,
            DebugError::Other(text) => "Other("@ + text + ")"@,
            DebugError::RegisterTooWide => "RegisterTooWide"@,
            _ => "Unexpected"@,
        }
    }
}

impl DebugError {
    /// Whether the error stands for something that only the caller can decide.
    pub fn is_for_caller(&self) -> (r: bool)
        ensures
            r == self@.for_caller(),
    {
        match self {
            DebugError::NeedsMemory { .. } => true,
            DebugError::UnsupportedMemorySize(_) => true,
            _ => false,
        }
    }

    /// An error of an expression as in a diagnostic.
    pub fn describe(&self) -> (r: String)
        ensures
            r@ == self@.described(),
    {
        match self {
            DebugError::Dwarf(text) => join3("Dwarf(", text.as_str(), ")"),
            DebugError::Other(text) => join3("Other(", text.as_str(), ")"),
            DebugError::RegisterTooWide => String::from_str("RegisterTooWide"),
            _ => String::from_str("Unexpected"),
        }
    }
}

/// The view of a result whose value has a view.
pub open spec fn result_view<T: View>(
    result: Result<T, DebugError>,
) -> Result<T::V, DebugErrorView> {
    match result {
        Ok(value) => Ok(value@),
        Err(error) => Err(error@),
    }
}

/// The view of a result without a value.
pub open spec fn unit_view(result: Result<(), DebugError>) -> Result<(), DebugErrorView> {
    match result {
        Ok(_) => Ok(()),
        Err(error) => Err(error@),
    }
}

} // verus!
