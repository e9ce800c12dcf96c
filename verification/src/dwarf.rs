//! The debugging information of one unit, as plain values.
use vstd::prelude::*;

use crate::error::DebugError;
#[allow(unused_imports)]
use crate::error::DebugErrorView;

verus! {

pub const DW_TAG_ARRAY_TYPE: u16 = 0x01;

pub const DW_TAG_ENUMERATION_TYPE: u16 = 0x04;

pub const DW_TAG_FORMAL_PARAMETER: u16 = 0x05;

pub const DW_TAG_LEXICAL_BLOCK: u16 = 0x0b;

pub const DW_TAG_MEMBER: u16 = 0x0d;

pub const DW_TAG_POINTER_TYPE: u16 = 0x0f;

pub const DW_TAG_COMPILE_UNIT: u16 = 0x11;

pub const DW_TAG_STRUCTURE_TYPE: u16 = 0x13;

pub const DW_TAG_SUBROUTINE_TYPE: u16 = 0x15;

pub const DW_TAG_UNION_TYPE: u16 = 0x17;

pub const DW_TAG_VARIANT: u16 = 0x19;

pub const DW_TAG_INLINED_SUBROUTINE: u16 = 0x1d;

pub const DW_TAG_SUBRANGE_TYPE: u16 = 0x21;

pub const DW_TAG_BASE_TYPE: u16 = 0x24;

pub const DW_TAG_ENUMERATOR: u16 = 0x28;

pub const DW_TAG_SUBPROGRAM: u16 = 0x2e;

pub const DW_TAG_TEMPLATE_TYPE_PARAMETER: u16 = 0x2f;

pub const DW_TAG_VARIANT_PART: u16 = 0x33;

pub const DW_TAG_VARIABLE: u16 = 0x34;

pub const DW_TAG_NAMESPACE: u16 = 0x39;

pub const DW_AT_LOCATION: u16 = 0x02;

pub const DW_AT_NAME: u16 = 0x03;

pub const DW_AT_BYTE_SIZE: u16 = 0x0b;

pub const DW_AT_LOW_PC: u16 = 0x11;

pub const DW_AT_HIGH_PC: u16 = 0x12;

pub const DW_AT_DISCR: u16 = 0x15;

pub const DW_AT_DISCR_VALUE: u16 = 0x16;

pub const DW_AT_COMP_DIR: u16 = 0x1b;

pub const DW_AT_CONST_VALUE: u16 = 0x1c;

pub const DW_AT_CONTAINING_TYPE: u16 = 0x1d;

pub const DW_AT_LOWER_BOUND: u16 = 0x22;

pub const DW_AT_UPPER_BOUND: u16 = 0x2f;

pub const DW_AT_ABSTRACT_ORIGIN: u16 = 0x31;

pub const DW_AT_ADDRESS_CLASS: u16 = 0x33;

pub const DW_AT_ARTIFICIAL: u16 = 0x34;

pub const DW_AT_COUNT: u16 = 0x37;

pub const DW_AT_DATA_MEMBER_LOCATION: u16 = 0x38;

pub const DW_AT_DECL_COLUMN: u16 = 0x39;

pub const DW_AT_DECL_FILE: u16 = 0x3a;

pub const DW_AT_DECL_LINE: u16 = 0x3b;

pub const DW_AT_DECLARATION: u16 = 0x3c;

pub const DW_AT_ENCODING: u16 = 0x3e;

pub const DW_AT_EXTERNAL: u16 = 0x3f;

pub const DW_AT_FRAME_BASE: u16 = 0x40;

pub const DW_AT_TYPE: u16 = 0x49;

pub const DW_AT_RANGES: u16 = 0x55;

pub const DW_AT_ENUM_CLASS: u16 = 0x6d;

pub const DW_AT_LINKAGE_NAME: u16 = 0x6e;

pub const DW_AT_ALIGNMENT: u16 = 0x88;

/// A range of addresses, with its end excluded.
#[derive(Debug, Clone, Copy, PartialEq, Eq, Structural)]
pub struct Range {
    /// The first address.
    pub begin: u64,
    /// The address behind the last one.
    pub end: u64,
}

impl Range {
    /// Whether `address` lies in the range.
    pub open spec fn holds(self, address: nat) -> bool {
        self.begin <= address < self.end
    }

    /// Whether `address` lies in the range.
    pub fn contains(&self, address: u128) -> (r: bool)
        ensures
            r == self.holds(address as nat),
    {
        self.begin as u128 <= address && address < self.end as u128
    }
}

/// Where a variable is kept while the program counter lies in a range.
#[derive(Debug)]
pub struct LocationEntry {
    /// The range of the program counter.
    pub range: Range,
    /// The expression that computes the place.
    pub expression: Vec<u8>,
}

/// Where a variable is kept, for several ranges of the program counter.
#[derive(Debug)]
pub enum LocationList {
    /// The list cannot be read; why.
    Unreadable(String),
    /// The list can be read, up to an error if there is one.
    Entries {
        /// The entries before the error.
        entries: Vec<LocationEntry>,
        /// The error.
        error: Option<String>,
    },
}

/// The value of an attribute, as far as it is put to use.
#[derive(Debug)]
pub enum AttributeValue {
    /// An address.
    Addr(u64),
    /// An unsigned number.
    Udata(u64),
    /// A byte.
    Data1(u8),
    /// A flag.
    Flag(bool),
    /// The offset of another entry of the unit.
    UnitRef(usize),
    /// An expression.
    Exprloc(Vec<u8>),
    /// A list of places.
    LocationListsRef(LocationList),
    /// A list of ranges, up to an error if there is one.
    RangeListsRef(Vec<Range>),
    /// The number of an address class.
    AddressClass(u64),
    /// The number of a source file of the unit.
    FileIndex(u64),
    /// Anything else.
    Other,
}

/// An attribute of an entry.
#[derive(Debug)]
pub struct Attribute {
    /// The number of its name.
    pub name: u16,
    /// Its value.
    pub value: AttributeValue,
    /// Its value as an unsigned number, where it is one in any form.
    pub udata: Option<u64>,
    /// Its value as a text.
    pub text: String,
    /// Its value as in a diagnostic.
    pub debug: String,
}

/// An entry of the debugging information.
#[derive(Debug)]
pub struct Entry {
    /// Its offset in the unit.
    pub offset: usize,
    /// The number of its tag.
    pub tag: u16,
    /// Whether it is of a kind that has children.
    pub has_children: bool,
    /// How much deeper it stands than the entry before it.
    pub depth: i64,
    /// Its attributes, up to an error if there is one.
    pub attributes: Vec<Attribute>,
    /// The error.
    pub attributes_error: Option<String>,
    /// The offsets of its children, up to an error if there is one.
    pub children: Vec<usize>,
    /// The error.
    pub children_error: Option<String>,
    /// The addresses of its code, up to an error if there is one; or why there is no telling.
    pub ranges: Result<Vec<Range>, String>,
}

/// A source file of a unit.
#[derive(Debug)]
pub struct SourceFile {
    /// Its number.
    pub index: u64,
    /// Its directory.
    pub directory: String,
    /// Its name.
    pub file: String,
}

/// How numbers are encoded in a unit.
#[derive(Debug, Clone, Copy, PartialEq, Eq, Structural)]
pub struct Encoding {
    /// The number of bytes of an address.
    pub address_size: u8,
    /// Whether offsets take 64 bits.
    pub is_64_bit: bool,
    /// The version of the format.
    pub version: u16,
}

/// The debugging information of one unit.
#[derive(Debug)]
pub struct UnitInfo {
    /// The offset of the unit in the debugging information.
    pub header_offset: Option<usize>,
    /// How its numbers are encoded.
    pub encoding: Encoding,
    /// The least offset at which an entry can stand.
    pub first_offset: usize,
    /// The offset behind the last one at which an entry can stand.
    pub end_offset: usize,
    /// Its entries: those that a walk meets, each before its children and these before what follows
    /// it; and then those that are only referred to.
    pub entries: Vec<Entry>,
    /// How many entries a walk meets.
    pub walked: usize,
    /// Its source files.
    pub files: Vec<SourceFile>,
}

/// The first of `attributes` with the name `name`.
pub open spec fn first_named(attributes: Seq<Attribute>, name: u16) -> Option<Attribute>
    decreases attributes.len(),
{
    if attributes.len() == 0 {
        None
    } else if attributes[0].name == name {
        Some(attributes[0])
    } else {
        first_named(attributes.drop_first(), name)
    }
}

/// The place of the first of `entries`, from `from` on, that has the offset `offset`.
pub open spec fn entry_from(entries: Seq<Entry>, offset: usize, from: int) -> Option<int>
    decreases entries.len() - from,
{
    if from >= entries.len() {
        None
    } else if entries[from].offset == offset {
        Some(from)
    } else {
        entry_from(entries, offset, from + 1)
    }
}

/// The directory and the name of the first of `files` with the number `index`.
pub open spec fn file_named(files: Seq<SourceFile>, index: u64) -> Option<(Seq<char>, Seq<char>)>
    decreases files.len(),
{
    if files.len() == 0 {
        None
    } else if files[0].index == index {
        Some((files[0].directory@, files[0].file@))
    } else {
        file_named(files.drop_first(), index)
    }
}

impl Entry {
    /// The outcome of looking for the attribute `name`: an attribute behind the error is not
    /// found, and that there is none is known only where there is no error.
    pub open spec fn attribute(self, name: u16) -> Result<Option<Attribute>, Seq<char>> {
        match first_named(self.attributes@, name) {
            Some(attribute) => Ok(Some(attribute)),
            None => match self.attributes_error {
                Some(error) => Err(error@),
                None => Ok(None),
            },
        }
    }

    /// The number of bytes that the entry gives as its size; 0 where it gives none.
    pub open spec fn size_in_bytes(self) -> u64 {
        match self.attribute(DW_AT_BYTE_SIZE) {
            Ok(Some(attribute)) => match attribute.value {
                AttributeValue::Udata(size) => size,
                _ => 0,
            },
            _ => 0,
        }
    }

    /// The attribute `name`.
    pub fn attr(&self, name: u16) -> (r: Result<Option<&Attribute>, &String>)
        ensures
            match r {
                Ok(Some(attribute)) => self.attribute(name) == Ok::<_, Seq<char>>(Some(*attribute)),
                Ok(None) => self.attribute(name) == Ok::<Option<Attribute>, Seq<char>>(None),
                Err(error) => self.attribute(name) == Err::<Option<Attribute>, _>(error@),
            },
    {
        let mut i: usize = 0;
        assert(self.attributes@.skip(0) =~= self.attributes@);
        while i < self.attributes.len()
            invariant
                i <= self.attributes.len(),
                first_named(self.attributes@, name) == first_named(
                    self.attributes@.skip(i as int),
                    name,
                ),
            decreases self.attributes.len() - i,
        {
            if self.attributes[i].name == name {
                return Ok(Some(&self.attributes[i]));
            }
            assert(self.attributes@.skip(i as int).drop_first() =~= self.attributes@.skip(i + 1));
            i = i + 1;
        }
        match &self.attributes_error {
            Some(error) => Err(error),
            None => Ok(None),
        }
    }

    /// The number of bytes that the entry gives as its size; 0 where it gives none.
    pub fn extract_byte_size(&self) -> (r: u64)
        ensures
            r == self.size_in_bytes(),
    {
        match self.attr(DW_AT_BYTE_SIZE) {
            Ok(Some(attribute)) => match attribute.value {
                AttributeValue::Udata(size) => size,
                _ => 0,
            },
            _ => 0,
        }
    }
}

impl UnitInfo {
    /// Whether the unit is one that can be put to use: a walk meets none but its entries.
    pub open spec fn wf(self) -> bool {
        self.walked <= self.entries@.len()
    }

    /// The place of the entry with the offset `offset`.
    pub open spec fn entry_at(self, offset: usize) -> Option<int> {
        entry_from(self.entries@, offset, 0)
    }

    /// The place of the entry with the offset `offset`.
    pub fn find_entry(&self, offset: usize) -> (r: Result<usize, DebugError>)
        ensures
            match r {
                Ok(i) => i < self.entries@.len() && self.entry_at(offset) == Some(i as int),
                Err(error) => error@ == DebugErrorView::NoEntry(offset) && self.entry_at(
                    offset,
                ) is None,
            },
    {
        let mut i: usize = 0;
        while i < self.entries.len()
            invariant
                i <= self.entries.len(),
                self.entry_at(offset) == entry_from(self.entries@, offset, i as int),
            decreases self.entries.len() - i,
        {
            if self.entries[i].offset == offset {
                return Ok(i);
            }
            i = i + 1;
        }
        Err(DebugError::NoEntry(offset))
    }

    /// The directory and the name of the source file with the number `index`.
    pub fn find_file(&self, index: u64) -> (r: Option<(String, String)>)
        ensures
            match r {
                Some((directory, file)) => file_named(self.files@, index) == Some(
                    (directory@, file@),
                ),
                None => file_named(self.files@, index) is None,
            },
    {
        let mut i: usize = 0;
        assert(self.files@.skip(0) =~= self.files@);
        while i < self.files.len()
            invariant
                i <= self.files.len(),
                file_named(self.files@, index) == file_named(self.files@.skip(i as int), index),
            decreases self.files.len() - i,
        {
            if self.files[i].index == index {
                return Some((self.files[i].directory.clone(), self.files[i].file.clone()));
            }
            assert(self.files@.skip(i as int).drop_first() =~= self.files@.skip(i + 1));
            i = i + 1;
        }
        None
    }
}

} // verus!
