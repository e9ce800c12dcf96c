//! What is known of the target: its registers, and the replies to reads of its memory.
use vstd::prelude::*;

use crate::text::same_text;
use crate::variable::{Variable, VariableLocation, VariableName, VariableType, VariableValue};
#[allow(unused_imports)]
use crate::variable::VariableView;

verus! {

/// The value of a register.
#[derive(Debug, Clone, Copy, PartialEq, Eq, Structural)]
pub enum RegisterValue {
    /// Of a 32-bit register.
    U32(u32),
    /// Of a 64-bit register.
    U64(u64),
    /// Of a 128-bit register.
    U128(u128),
}

impl RegisterValue {
    /// The number that the register holds.
    pub open spec fn number(self) -> nat {
        match self {
            RegisterValue::U32(v) => v as nat,
            RegisterValue::U64(v) => v as nat,
            RegisterValue::U128(v) => v as nat,
        }
    }

    /// The number that the register holds.
    pub fn value(&self) -> (r: u128)
        ensures
            r == self.number(),
    {
        match *self {
            RegisterValue::U32(v) => v as u128,
            RegisterValue::U64(v) => v as u128,
            RegisterValue::U128(v) => v,
        }
    }

    /// The number that the register holds, if it fits into 64 bits.
    pub fn to_u64(&self) -> (r: Option<u64>)
        ensures
            r == (if self.number() <= u64::MAX {
                Some(self.number() as u64)
            } else {
                None
            }),
    {
        let v: u128 = self.value();
        if v <= 0xffff_ffff_ffff_ffff {
            Some(v as u64)
        } else {
            None
        }
    }
}

/// A register that debugging information can refer to.
#[derive(Debug, Clone, Copy)]
pub struct DebugRegister {
    /// The number by which debugging information refers to it.
    pub dwarf_id: u16,
    /// Its value, if it is known.
    pub value: Option<RegisterValue>,
}

/// The registers of a stack frame.
#[derive(Debug)]
pub struct DebugRegisters {
    /// The program counter, if it is known.
    pub program_counter: Option<RegisterValue>,
    /// The frame pointer, if it is known.
    pub frame_pointer: Option<RegisterValue>,
    /// The registers that debugging information can refer to.
    pub registers: Vec<DebugRegister>,
}

/// The value of the first register of `registers` with the number `id`, if it is known.
pub open spec fn register_value(registers: Seq<DebugRegister>, id: u16) -> Option<RegisterValue>
    decreases registers.len(),
{
    if registers.len() == 0 {
        None
    } else if registers[0].dwarf_id == id {
        registers[0].value
    } else {
        register_value(registers.drop_first(), id)
    }
}

impl DebugRegisters {
    /// The value of the register with the number `id`, if it is known.
    pub fn get_register_by_dwarf_id(&self, id: u16) -> (r: Option<RegisterValue>)
        ensures
            r == register_value(self.registers@, id),
    {
        let mut i: usize = 0;
        assert(self.registers@.skip(0) =~= self.registers@);
        while i < self.registers.len()
            invariant
                i <= self.registers.len(),
                register_value(self.registers@, id) == register_value(
                    self.registers@.skip(i as int),
                    id,
                ),
            decreases self.registers.len() - i,
        {
            if self.registers[i].dwarf_id == id {
                return self.registers[i].value;
            }
            assert(self.registers@.skip(i as int).drop_first() =~= self.registers@.skip(i + 1));
            i = i + 1;
        }
        None
    }
}

/// The reply to a read of the memory of the target.
#[derive(Debug)]
pub struct MemoryRead {
    /// The address of the first byte.
    pub address: u64,
    /// The number of bytes that were asked for.
    pub size: usize,
    /// The bytes; `None` where the target refused.
    pub data: Option<Vec<u8>>,
}

impl MemoryRead {
    /// Whether this is a reply to a read of `size` bytes at `address`. A reply with another
    /// number of bytes is none.
    pub open spec fn answers(self, address: u64, size: usize) -> bool {
        &&& self.address == address
        &&& self.size == size
        &&& self.data matches Some(data) ==> data@.len() == size
    }

    /// The bytes of the reply; `None` where the target refused.
    pub open spec fn bytes(self) -> Option<Seq<u8>> {
        match self.data {
            Some(data) => Some(data@),
            None => None,
        }
    }
}

/// The first of `reads` that is a reply to a read of `size` bytes at `address`: `None` where
/// there is none, `Some(None)` where the target refused.
pub open spec fn memory_reply(reads: Seq<MemoryRead>, address: u64, size: usize) -> Option<
    Option<Seq<u8>>,
>
    decreases reads.len(),
{
    if reads.len() == 0 {
        None
    } else if reads[0].answers(address, size) {
        Some(reads[0].bytes())
    } else {
        memory_reply(reads.drop_first(), address, size)
    }
}

/// The outcome of looking for a reply.
#[derive(Debug)]
pub enum MemoryReply {
    /// There was no such read yet.
    Missing,
    /// The target refused.
    Refused,
    /// The bytes.
    Bytes(Vec<u8>),
}

/// The value of a variable, as decoded from the target.
#[derive(Debug)]
pub struct KnownValue {
    /// The type of the variable.
    pub variable_type: VariableType,
    /// Where the variable is kept.
    pub memory_location: VariableLocation,
    /// How many bytes the variable takes.
    pub byte_size: u64,
    /// Its value.
    pub value: VariableValue,
}

impl KnownValue {
    /// Whether this is the value of `variable`.
    pub open spec fn answers(self, variable: VariableView) -> bool {
        &&& self.variable_type@ == variable.variable_type
        &&& self.memory_location@ == variable.memory_location
        &&& self.byte_size == variable.byte_size
    }
}

/// The first of `values` that is the value of `variable`.
pub open spec fn known_value(values: Seq<KnownValue>, variable: VariableView) -> Option<
    VariableValue<Seq<char>>,
>
    decreases values.len(),
{
    if values.len() == 0 {
        None
    } else if values[0].answers(variable) {
        Some(values[0].value@)
    } else {
        known_value(values.drop_first(), variable)
    }
}

/// The target as far as it has been read. It is halted: reading it again gives the same.
#[derive(Debug)]
pub struct Target {
    /// The registers of the stack frame.
    pub registers: DebugRegisters,
    /// The replies to reads of its memory.
    pub memory: Vec<MemoryRead>,
    /// The values of variables that were decoded.
    pub values: Vec<KnownValue>,
}

impl Target {
    /// The reply to a read of `size` bytes at `address`.
    pub fn read(&self, address: u64, size: usize) -> (r: MemoryReply)
        ensures
            match r {
                MemoryReply::Missing => memory_reply(self.memory@, address, size) is None,
                MemoryReply::Refused => memory_reply(self.memory@, address, size) == Some(
                    None::<Seq<u8>>,
                ),
                MemoryReply::Bytes(data) => {
                    &&& data@.len() == size
                    &&& memory_reply(self.memory@, address, size) == Some(Some(data@))
                },
            },
    {
        let mut i: usize = 0;
        assert(self.memory@.skip(0) =~= self.memory@);
        while i < self.memory.len()
            invariant
                i <= self.memory.len(),
                memory_reply(self.memory@, address, size) == memory_reply(
                    self.memory@.skip(i as int),
                    address,
                    size,
                ),
            decreases self.memory.len() - i,
        {
            let reply = &self.memory[i];
            if reply.address == address && reply.size == size {
                match &reply.data {
                    None => {
                        return MemoryReply::Refused;
                    },
                    Some(data) => {
                        if data.len() == size {
                            return MemoryReply::Bytes(copy_bytes(data));
                        }
                    },
                }
            }
            assert(self.memory@.skip(i as int).drop_first() =~= self.memory@.skip(i + 1));
            i = i + 1;
        }
        MemoryReply::Missing
    }

    /// The value of `variable`, if it was decoded.
    pub fn value_of(&self, variable: &Variable) -> (r: Option<VariableValue>)
        ensures
            match r {
                Some(value) => known_value(self.values@, variable@) == Some(value@),
                None => known_value(self.values@, variable@) is None,
            },
    {
        let mut i: usize = 0;
        assert(self.values@.skip(0) =~= self.values@);
        while i < self.values.len()
            invariant
                i <= self.values.len(),
                known_value(self.values@, variable@) == known_value(
                    self.values@.skip(i as int),
                    variable@,
                ),
            decreases self.values.len() - i,
        {
            let known = &self.values[i];
            if known.byte_size == variable.byte_size && same_type(
                &known.variable_type,
                &variable.variable_type,
            ) && same_location(&known.memory_location, &variable.memory_location) {
                return Some(known.value.clone());
            }
            assert(self.values@.skip(i as int).drop_first() =~= self.values@.skip(i + 1));
            i = i + 1;
        }
        None
    }
}

/// A copy of `data`.
pub fn copy_bytes(data: &Vec<u8>) -> (r: Vec<u8>)
    ensures
        r@ == data@,
{
    let mut r: Vec<u8> = Vec::new();
    let mut i: usize = 0;
    while i < data.len()
        invariant
            i <= data.len(),
            r@ == data@.take(i as int),
        decreases data.len() - i,
    {
        r.push(data[i]);
        i = i + 1;
        assert(r@ =~= data@.take(i as int));
    }
    assert(r@ =~= data@);
    r
}

/// Whether two names are equal.
pub fn same_name(a: &VariableName, b: &VariableName) -> (r: bool)
    ensures
        r == (a@ == b@),
{
    match (a, b) {
        (VariableName::StaticScope, VariableName::StaticScope) => true,
        (VariableName::Artifical, VariableName::Artifical) => true,
        (VariableName::AnonymousNamespace, VariableName::AnonymousNamespace) => true,
        (VariableName::Namespace(s), VariableName::Namespace(t)) => same_text(
            s.as_str(),
            t.as_str(),
        ),
        (VariableName::Named(s), VariableName::Named(t)) => same_text(s.as_str(), t.as_str()),
        (VariableName::Unknown, VariableName::Unknown) => true,
        _ => false,
    }
}

/// Whether two types are equal.
pub fn same_type(a: &VariableType, b: &VariableType) -> (r: bool)
    ensures
        r == (a@ == b@),
{
    match (a, b) {
        (VariableType::Base(s), VariableType::Base(t)) => same_text(s.as_str(), t.as_str()),
        (VariableType::Struct(s), VariableType::Struct(t)) => same_text(s.as_str(), t.as_str()),
        (VariableType::Enum(s), VariableType::Enum(t)) => same_text(s.as_str(), t.as_str()),
        (VariableType::Namespace, VariableType::Namespace) => true,
        (VariableType::Pointer(Some(s)), VariableType::Pointer(Some(t))) => same_text(
            s.as_str(),
            t.as_str(),
        ),
        (VariableType::Pointer(None), VariableType::Pointer(None)) => true,
        (
            VariableType::Array { count: n, entry_type: s },
            VariableType::Array { count: m, entry_type: t },
        ) => *n == *m && same_name(s, t),
        (VariableType::Unknown, VariableType::Unknown) => true,
        (VariableType::Other(s), VariableType::Other(t)) => same_text(s.as_str(), t.as_str()),
        _ => false,
    }
}

/// Whether two places are equal.
pub fn same_location(a: &VariableLocation, b: &VariableLocation) -> (r: bool)
    ensures
        r == (a@ == b@),
{
    match (a, b) {
        (VariableLocation::Unknown, VariableLocation::Unknown) => true,
        (VariableLocation::Unavailable, VariableLocation::Unavailable) => true,
        (VariableLocation::Address(n), VariableLocation::Address(m)) => *n == *m,
        (VariableLocation::Value, VariableLocation::Value) => true,
        (VariableLocation::Register(n), VariableLocation::Register(m)) => *n == *m,
        (VariableLocation::Unsupported(s), VariableLocation::Unsupported(t)) => same_text(
            s.as_str(),
            t.as_str(),
        ),
        _ => false,
    }
}

} // verus!
