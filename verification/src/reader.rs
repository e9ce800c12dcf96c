//! The debugging information of a unit, read from the sections of a program by gimli.
//!
//! gimli adds and multiplies some of the numbers that it reads without a check. What it is asked
//! for is looked through for numbers that are too large first.
use vstd::prelude::*;

use gimli::AttributeValue as GimliValue;
use gimli::{RawLocListEntry, RawRngListEntry, Reader};

use crate::dwarf::{
    Attribute, AttributeValue, Encoding, Entry, LocationEntry, LocationList, Range, SourceFile,
    UnitInfo, DW_AT_COMP_DIR, DW_AT_HIGH_PC, DW_AT_LOW_PC, DW_AT_NAME, DW_AT_RANGES,
    DW_TAG_INLINED_SUBROUTINE, DW_TAG_SUBPROGRAM,
};
#[allow(unused_imports)]
use crate::dwarf::{entry_from, file_named};
use crate::error::DebugError;
#[allow(unused_imports)]
use crate::error::DebugErrorView;
use crate::text::{join2, same_text};
#[allow(unused_imports)]
use crate::variable::text_view;

verus! {

/// A section of a program.
#[derive(Debug)]
pub struct Section {
    /// Its name.
    pub name: String,
    /// What it holds.
    pub data: Vec<u8>,
}

/// What the debugging information of a unit is read from.
pub struct UnitSource {
    /// The sections of the program, by name.
    pub sections: Seq<(Seq<char>, Seq<u8>)>,
    /// The offset of the unit.
    pub offset: usize,
}

/// The names and contents of `sections`.
pub open spec fn section_views(sections: Seq<Section>) -> Seq<(Seq<char>, Seq<u8>)> {
    Seq::new(sections.len(), |i: int| (sections[i].name@, sections[i].data@))
}

/// What the header of a unit says.
#[derive(Debug, Clone, Copy)]
pub struct UnitLayout {
    /// The offset of the unit in the debugging information.
    pub header_offset: Option<usize>,
    /// How its numbers are encoded.
    pub encoding: Encoding,
    /// The least offset at which an entry can stand.
    pub first_offset: usize,
    /// The offset behind the last one at which an entry can stand.
    pub end_offset: usize,
    /// Where the offsets of the lists of ranges stand.
    pub range_lists_base: usize,
}

/// An index into a table, which an attribute may have for a value.
#[derive(Debug, Clone, Copy, PartialEq, Eq, Structural)]
pub enum Index {
    /// Into the addresses.
    Address(usize),
    /// Into the offsets of texts.
    Text(usize),
    /// Into the offsets of lists of ranges.
    RangeList(usize),
    /// The value is no such index.
    Missing,
}

/// An entry of a list of ranges or places, as far as gimli does arithmetic on it.
#[derive(Debug, Clone, Copy, PartialEq, Eq, Structural)]
pub enum ListEntry {
    /// An address that others are relative to.
    Base,
    /// The index of an address that others are relative to.
    BaseIndex(usize),
    /// Two offsets or addresses.
    Pair,
    /// The indices of two addresses.
    Indices(usize, usize),
    /// The index of an address, and a length.
    IndexLength(usize, u64),
    /// An address, and a length.
    AddressLength(u64, u64),
    /// Something on which gimli does no arithmetic.
    Plain,
}

impl ListEntry {
    /// Whether the entry says what those behind it are relative to, and nothing else.
    pub open spec fn is_base(self) -> bool {
        self is Base || self is BaseIndex
    }
}

/// The value of an attribute as it is encoded.
#[derive(Debug)]
pub enum RawValue<B = Vec<u8>> {
    /// An address.
    Addr(u64),
    /// An unsigned number.
    Udata(u64),
    /// A byte.
    Data1(u8),
    /// A flag.
    Flag(bool),
    /// The number of an address class.
    AddressClass(u64),
    /// The number of a source file.
    FileIndex(u64),
    /// The offset of another entry of the unit.
    UnitRef(usize),
    /// An expression.
    Exprloc(B),
    /// The offset of a list of places.
    LocationListsRef(usize),
    /// The offset of a list of ranges.
    RangeListsRef(usize),
    /// Anything else.
    Other,
}

impl View for RawValue {
    type V = RawValue<Seq<u8>>;

    open spec fn view(&self) -> RawValue<Seq<u8>> {
        match *self {
            RawValue::Addr(v) => RawValue::Addr(v),
            RawValue::Udata(v) => RawValue::Udata(v),
            RawValue::Data1(v) => RawValue::Data1(v),
            RawValue::Flag(v) => RawValue::Flag(v),
            RawValue::AddressClass(v) => RawValue::AddressClass(v),
            RawValue::FileIndex(v) => RawValue::FileIndex(v),
            RawValue::UnitRef(v) => RawValue::UnitRef(v),
            RawValue::Exprloc(v) => RawValue::Exprloc(v@),
            RawValue::LocationListsRef(v) => RawValue::LocationListsRef(v),
            RawValue::RangeListsRef(v) => RawValue::RangeListsRef(v),
            RawValue::Other => RawValue::Other,
        }
    }
}

impl RawValue<Seq<u8>> {
    /// Whether the value refers to something: an entry, an expression or a list.
    pub open spec fn refers(self) -> bool {
        self is UnitRef || self is Exprloc || self is LocationListsRef || self is RangeListsRef
    }
}

/// The sections of a program as gimli has them: its `Dwarf`, whose parameter is bound by a trait of
/// gimli where it is put to use, and the section that holds the offsets of lists of ranges.
#[verifier::external_body]
pub struct DebugSections<'a> {
    dwarf: gimli::Dwarf<gimli::EndianSlice<'a, gimli::LittleEndian>>,
    lists: gimli::EndianSlice<'a, gimli::LittleEndian>,
}

/// A unit that gimli has opened: its `Unit`, whose parameter is bound by a trait of gimli, and the
/// sections that it is read from.
#[verifier::external_body]
pub struct DebugUnit<'a> {
    dwarf: gimli::Dwarf<gimli::EndianSlice<'a, gimli::LittleEndian>>,
    lists: gimli::EndianSlice<'a, gimli::LittleEndian>,
    unit: gimli::Unit<gimli::EndianSlice<'a, gimli::LittleEndian>>,
}

/// What `sections` were made of: names and contents.
pub uninterp spec fn sections_source(sections: DebugSections) -> Seq<(Seq<char>, Seq<u8>)>;

/// The names of the attributes of the first entry of a unit, each with the index that it has for a
/// value, if they can be read.
pub uninterp spec fn gimli_root(source: UnitSource) -> Option<Seq<(u16, Index)>>;

/// The numbers of bytes of an address and of an offset of a unit, if its header can be read.
pub uninterp spec fn gimli_sizes(source: UnitSource) -> Option<(u8, u8)>;

/// What `unit` was opened from.
pub uninterp spec fn unit_source(unit: DebugUnit) -> UnitSource;

/// The text of the error that gimli meets when it opens a unit, if it does.
pub uninterp spec fn gimli_unit_error(source: UnitSource) -> Option<Seq<char>>;

/// What the header of a unit says.
pub uninterp spec fn gimli_layout(source: UnitSource) -> UnitLayout;

/// How much deeper the first entry stands than the unit, and its offset, if it can be read.
pub uninterp spec fn gimli_first_entry(source: UnitSource) -> Option<(i64, usize)>;

/// How much deeper the entry behind the entry at `previous` stands, and its offset. `None` where no
/// entry follows that can be read.
pub uninterp spec fn gimli_next_entry(source: UnitSource, previous: usize) -> Option<(i64, usize)>;

/// The tag of the entry at `offset`, and whether it is of a kind that has children.
pub uninterp spec fn gimli_entry(source: UnitSource, offset: usize) -> Option<(u16, bool)>;

/// The names of the attributes of the entry at `offset`, up to an error if there is one.
pub uninterp spec fn gimli_attribute_names(source: UnitSource, offset: usize) -> Seq<u16>;

/// The text of the error behind the attributes of the entry at `offset`, if there is one.
pub uninterp spec fn gimli_attributes_error(source: UnitSource, offset: usize) -> Option<Seq<char>>;

/// The value of the `index`-th attribute of the entry at `offset`.
pub uninterp spec fn gimli_value(source: UnitSource, offset: usize, index: usize) -> RawValue<
    Seq<u8>,
>;

/// The index that the `index`-th attribute of the entry at `offset` has for a value, if it has one.
pub uninterp spec fn gimli_index(source: UnitSource, offset: usize, index: usize) -> Index;

/// The address with the index `index`, if there is one.
pub uninterp spec fn gimli_address(source: UnitSource, index: usize) -> Option<u64>;

/// The offset of a list of ranges that stands at `position` among these, if there is one.
pub uninterp spec fn gimli_list_offset(source: UnitSource, position: usize) -> Option<usize>;

/// The entries of the list of ranges at `list`, up to an error if there is one.
pub uninterp spec fn gimli_raw_ranges(source: UnitSource, list: usize) -> Seq<ListEntry>;

/// The entries of the list of places at `list`, up to an error if there is one.
pub uninterp spec fn gimli_raw_locations(source: UnitSource, list: usize) -> Seq<ListEntry>;

/// The value of the `index`-th attribute of the entry at `offset` as an unsigned number.
pub uninterp spec fn gimli_udata(source: UnitSource, offset: usize, index: usize) -> Option<u64>;

/// The value of the `index`-th attribute of the entry at `offset` as a text.
pub uninterp spec fn gimli_text(source: UnitSource, offset: usize, index: usize) -> Option<
    Seq<char>,
>;

/// The value of the `index`-th attribute of the entry at `offset` as in a diagnostic.
pub uninterp spec fn gimli_debug(source: UnitSource, offset: usize, index: usize) -> Seq<char>;

/// The offset of the first child of the entry at `offset`, if it has one.
pub uninterp spec fn gimli_first_child(source: UnitSource, offset: usize) -> Result<
    Option<usize>,
    Seq<char>,
>;

/// The offset of the next child of the parent of the entry at `offset`, if it has one.
pub uninterp spec fn gimli_next_sibling(source: UnitSource, offset: usize) -> Result<
    Option<usize>,
    Seq<char>,
>;

/// The addresses of the code of the entry at `offset`, up to an error if there is one, and `steps`
/// of them at most.
pub uninterp spec fn gimli_die_ranges(source: UnitSource, offset: usize, steps: usize) -> Result<
    Seq<Range>,
    Seq<char>,
>;

/// The ranges of the list at `list`, up to an error if there is one, and `steps` of them at most.
pub uninterp spec fn gimli_ranges(source: UnitSource, list: usize, steps: usize) -> Seq<Range>;

/// The ranges and expressions of the list of places at `list`, up to an error if there is one, and
/// `steps` of them at most.
pub uninterp spec fn gimli_locations(source: UnitSource, list: usize, steps: usize) -> Result<
    Seq<(Range, Seq<u8>)>,
    Seq<char>,
>;

/// The text of the error that is met within `steps` steps through the list of places at `list`, if
/// there is one.
pub uninterp spec fn gimli_locations_error(
    source: UnitSource,
    list: usize,
    steps: usize,
) -> Option<Seq<char>>;

/// The number of the directory of the source file with the number `index`, if there is one.
pub uninterp spec fn gimli_file_directory(source: UnitSource, index: u64) -> Option<u64>;

/// The indices that the directory and the name of the source file with the number `index` are given
/// by, where they are; if there is such a file.
pub uninterp spec fn gimli_file_texts(source: UnitSource, index: u64) -> Option<(Index, Index)>;

/// The directory and the name of the source file with the number `index`, if there is one.
pub uninterp spec fn gimli_file(source: UnitSource, index: u64) -> Option<(Seq<char>, Seq<char>)>;

/// The contents of the first of `sections` with the name `name`.
pub open spec fn section_named(sections: Seq<Section>, name: Seq<char>) -> Option<Seq<u8>>
    decreases sections.len(),
{
    if sections.len() == 0 {
        None
    } else if sections[0].name@ == name {
        Some(sections[0].data@)
    } else {
        section_named(sections.drop_first(), name)
    }
}

/// The contents of the first of `sections` with the name `name`.
pub fn find_section<'a>(sections: &'a Vec<Section>, name: &str) -> (r: Option<&'a Vec<u8>>)
    ensures
        section_named(sections@, name@) == (match r {
            Some(data) => Some(data@),
            None => None,
        }),
{
    let mut i: usize = 0;
    assert(sections@.skip(0) =~= sections@);
    while i < sections.len()
        invariant
            i <= sections.len(),
            section_named(sections@, name@) == section_named(sections@.skip(i as int), name@),
        decreases sections.len() - i,
    {
        if same_text(sections[i].name.as_str(), name) {
            return Some(&sections[i].data);
        }
        assert(sections@.skip(i as int).drop_first() =~= sections@.skip(i + 1));
        i = i + 1;
    }
    None
}

/// Whether the `index`-th of numbers that take `size` bytes each has a position that gimli can
/// compute.
pub open spec fn product_fits(index: usize, size: nat) -> bool {
    index * size <= u64::MAX
}

/// The number of bytes of an offset.
pub open spec fn word_size(is_64_bit: bool) -> nat {
    if is_64_bit {
        8
    } else {
        4
    }
}

/// Whether gimli can find what `index` stands for where addresses take `address_size` bytes and
/// offsets `word` bytes.
pub open spec fn index_fits(index: Index, address_size: u8, word: nat) -> bool {
    match index {
        Index::Address(index) => product_fits(index, address_size as nat),
        Index::Text(index) => product_fits(index, word),
        Index::RangeList(index) => product_fits(index, word),
        Index::Missing => true,
    }
}

/// The index that the last of `attributes` with the name `name` has for a value.
pub open spec fn last_index(attributes: Seq<(u16, Index)>, name: u16) -> Index
    decreases attributes.len(),
{
    if attributes.len() == 0 {
        Index::Missing
    } else if attributes.last().0 == name {
        attributes.last().1
    } else {
        last_index(attributes.drop_last(), name)
    }
}

/// Whether gimli can find what the first entry of a unit says of its name, its directory and its
/// first address.
pub open spec fn root_fits(source: UnitSource) -> bool {
    match (gimli_root(source), gimli_sizes(source)) {
        (Some(attributes), Some((address_size, word))) => {
            &&& last_index(attributes, DW_AT_NAME) matches Index::Text(index) ==> product_fits(
                index,
                word as nat,
            )
            &&& last_index(attributes, DW_AT_COMP_DIR) matches Index::Text(index) ==> product_fits(
                index,
                word as nat,
            )
            &&& last_index(attributes, DW_AT_LOW_PC) matches Index::Address(index)
                ==> product_fits(index, address_size as nat)
        },
        _ => true,
    }
}

/// The contents of the section with the offsets of lists of ranges.
pub open spec fn lists_of(sections: Seq<Section>) -> Seq<u8> {
    match section_named(sections, ".debug_rnglists"@) {
        Some(data) => data,
        None => Seq::empty(),
    }
}

/// `gimli::Dwarf::load`, which asks for each section by the name of its `gimli::SectionId`: the
/// sections of a program. `lists` is that with the offsets of lists of ranges.
#[verifier::external_body]
fn load<'a>(sections: &'a Vec<Section>, lists: &'a Vec<u8>) -> (r: DebugSections<'a>)
    requires
        lists@ == lists_of(sections@),
    ensures
        sections_source(r) == section_views(sections@),
{
    let dwarf = gimli::Dwarf::load(|id: gimli::SectionId| -> gimli::Result<_> {
        let data = find_section(sections, id.name()).map_or(&[][..], |data| &data[..]);
        Ok(gimli::EndianSlice::new(data, gimli::LittleEndian))
    });
    let lists = gimli::EndianSlice::new(lists, gimli::LittleEndian);
    DebugSections { dwarf: dwarf.unwrap(), lists }
}

impl<'a> DebugSections<'a> {
    /// `gimli::DebugInfo::header_from_offset`, `gimli::UnitHeader::abbreviations` and
    /// `gimli::EntriesCursor::next_dfs`: the first entry of the unit at `offset`, by the names of
    /// its attributes and the indices that these have for values, if all can be read.
    #[verifier::external_body]
    fn root(&self, offset: usize) -> (r: Option<Vec<(u16, Index)>>)
        ensures
            match r {
                Some(attributes) => gimli_root(
                    (UnitSource { sections: sections_source(*self), offset }),
                ) == Some(attributes@),
                None => gimli_root(
                    (UnitSource { sections: sections_source(*self), offset }),
                ) is None,
            },
    {
        let header = self.dwarf.debug_info.header_from_offset(gimli::DebugInfoOffset(offset)).ok()?;
        let abbreviations = header.abbreviations(&self.dwarf.debug_abbrev).ok()?;
        let mut cursor = header.entries(&abbreviations);
        let mut attributes = cursor.next_dfs().ok()??.1.attrs();
        let attributes = std::iter::from_fn(|| attributes.next().transpose());
        attributes.map(|attribute| attribute.ok().map(|a| (a.name().0, match a.value() {
            GimliValue::DebugAddrIndex(v) => Index::Address(v.0),
            GimliValue::DebugStrOffsetsIndex(v) => Index::Text(v.0),
            _ => Index::Missing,
        }))).collect()
    }

    /// `gimli::DebugInfo::header_from_offset` and `gimli::UnitHeader::encoding`: the numbers of
    /// bytes of an address and of an offset of the unit at `offset`.
    #[verifier::external_body]
    fn sizes(&self, offset: usize) -> (r: Option<(u8, u8)>)
        ensures
            r == gimli_sizes((UnitSource { sections: sections_source(*self), offset })),
    {
        let header = self.dwarf.debug_info.header_from_offset(gimli::DebugInfoOffset(offset)).ok()?;
        Some((header.encoding().address_size, header.encoding().format.word_size()))
    }

    /// `gimli::DebugInfo::header_from_offset` and `gimli::Dwarf::unit`: the unit at `offset`,
    /// opened, or the error that gimli meets. gimli resolves the indices that the first entry gives
    /// for its name, its directory and its first address.
    #[verifier::external_body]
    fn open_unit(self, offset: usize) -> (r: Result<DebugUnit<'a>, String>)
        requires
            root_fits((UnitSource { sections: sections_source(self), offset })),
        ensures
            match r {
                Ok(unit) => unit_source(unit) == (UnitSource {
                    sections: sections_source(self),
                    offset,
                }) && gimli_unit_error(unit_source(unit)) is None,
                Err(text) => gimli_unit_error(
                    (UnitSource { sections: sections_source(self), offset }),
                ) == Some(text@),
            },
    {
        let header = self.dwarf.debug_info.header_from_offset(gimli::DebugInfoOffset(offset));
        let unit = self.dwarf.unit(header.map_err(|error| error.to_string())?);
        let unit = unit.map_err(|error| error.to_string())?;
        Ok(DebugUnit { dwarf: self.dwarf, lists: self.lists, unit })
    }
}

impl<'a> DebugUnit<'a> {
    /// `gimli::UnitHeader`, its `offset`, `encoding`, `header_size` and `length_including_self`,
    /// and `gimli::Unit::rnglists_base`: what the header says, and where offsets of lists stand.
    #[verifier::external_body]
    fn layout(&self) -> (r: UnitLayout)
        ensures
            r == gimli_layout(unit_source(*self)),
    {
        let header = &self.unit.header;
        UnitLayout {
            header_offset: header.offset().as_debug_info_offset().map(|offset| offset.0),
            encoding: Encoding {
                address_size: header.encoding().address_size,
                is_64_bit: header.encoding().format == gimli::Format::Dwarf64,
                version: header.encoding().version,
            },
            first_offset: header.header_size(),
            end_offset: header.length_including_self(),
            range_lists_base: self.unit.rnglists_base.0,
        }
    }

    /// `gimli::Unit::entries` and `gimli::EntriesCursor::next_dfs`: the first entry. There is an
    /// entry at the offset that is found.
    #[verifier::external_body]
    fn first_entry(&self) -> (r: Option<(i64, usize)>)
        ensures
            r == gimli_first_entry(unit_source(*self)),
            r matches Some((_, offset)) ==> gimli_entry(unit_source(*self), offset) is Some,
    {
        let mut cursor = self.unit.entries();
        let (depth, entry) = cursor.next_dfs().ok()??;
        Some((depth as i64, entry.offset().0))
    }

    /// `gimli::Unit::entries_at_offset` and `gimli::EntriesCursor::next_dfs`: the entry behind
    /// another one, which has a larger offset. There is an entry at the offset that is found. A
    /// cursor that is set on an entry goes on as one that came there.
    #[verifier::external_body]
    fn next_entry(&self, previous: usize) -> (r: Option<(i64, usize)>)
        ensures
            r == gimli_next_entry(unit_source(*self), previous),
            r matches Some((_, offset)) ==> previous < offset,
            r matches Some((_, offset)) ==> gimli_entry(unit_source(*self), offset) is Some,
    {
        let mut cursor = self.unit.entries_at_offset(gimli::UnitOffset(previous)).ok()?;
        cursor.next_dfs().ok()?;
        let (depth, entry) = cursor.next_dfs().ok()??;
        Some((depth as i64, entry.offset().0))
    }

    /// `gimli::Unit::entry`: the tag of an entry, and whether it is of a kind that has children.
    #[verifier::external_body]
    fn entry(&self, offset: usize) -> (r: Option<(u16, bool)>)
        ensures
            r == gimli_entry(unit_source(*self), offset),
    {
        let entry = self.unit.entry(gimli::UnitOffset(offset)).ok()?;
        Some((entry.tag().0, entry.has_children()))
    }

    /// `gimli::AttrsIter::next`, up to the last attribute or an error: the names of the attributes.
    #[verifier::external_body]
    fn attribute_names(&self, offset: usize) -> (r: Vec<u16>)
        requires
            gimli_entry(unit_source(*self), offset) is Some,
        ensures
            r@ == gimli_attribute_names(unit_source(*self), offset),
    {
        let entry = self.unit.entry(gimli::UnitOffset(offset)).unwrap();
        let mut attributes = entry.attrs();
        std::iter::from_fn(|| attributes.next().ok().flatten().map(|a| a.name().0)).collect()
    }

    /// `gimli::AttrsIter::next`, up to the last attribute or an error: the error by its `Debug`,
    /// but for the address that the end of the input has for a mark.
    #[verifier::external_body]
    fn attributes_error(&self, offset: usize) -> (r: Option<String>)
        requires
            gimli_entry(unit_source(*self), offset) is Some,
        ensures
            text_view(r) == gimli_attributes_error(unit_source(*self), offset),
    {
        let entry = self.unit.entry(gimli::UnitOffset(offset)).unwrap();
        let mut attributes = entry.attrs();
        let mut attributes = std::iter::from_fn(|| attributes.next().transpose());
        attributes.find_map(|attribute| attribute.err()).map(|error| match error {
            gimli::Error::UnexpectedEof(_) => String::from("UnexpectedEof"),
            error => format!("{:?}", error),
        })
    }

    /// `gimli::Attribute::value`: the value of an attribute, if it does not refer to anything.
    #[verifier::external_body]
    fn plain_value(&self, offset: usize, index: usize) -> (r: RawValue)
        requires
            gimli_entry(unit_source(*self), offset) is Some,
            index < gimli_attribute_names(unit_source(*self), offset).len(),
        ensures
            gimli_value(unit_source(*self), offset, index).refers() || r@ == gimli_value(
                unit_source(*self),
                offset,
                index,
            ),
    {
        let entry = self.unit.entry(gimli::UnitOffset(offset)).unwrap();
        let mut attributes = entry.attrs();
        let mut attributes = std::iter::from_fn(|| attributes.next().ok().flatten());
        match attributes.nth(index).unwrap().value() {
            GimliValue::Addr(v) => RawValue::Addr(v),
            GimliValue::Udata(v) => RawValue::Udata(v),
            GimliValue::Data1(v) => RawValue::Data1(v),
            GimliValue::Flag(v) => RawValue::Flag(v),
            GimliValue::AddressClass(v) => RawValue::AddressClass(v.0),
            GimliValue::FileIndex(v) => RawValue::FileIndex(v),
            _ => RawValue::Other,
        }
    }

    /// `gimli::Attribute::value`: the value of an attribute, if it refers to something.
    #[verifier::external_body]
    fn reference(&self, offset: usize, index: usize) -> (r: Option<RawValue>)
        requires
            gimli_entry(unit_source(*self), offset) is Some,
            index < gimli_attribute_names(unit_source(*self), offset).len(),
        ensures
            match r {
                Some(value) => gimli_value(unit_source(*self), offset, index) == value@,
                None => !gimli_value(unit_source(*self), offset, index).refers(),
            },
    {
        let entry = self.unit.entry(gimli::UnitOffset(offset)).unwrap();
        let mut attributes = entry.attrs();
        let mut attributes = std::iter::from_fn(|| attributes.next().ok().flatten());
        match attributes.nth(index).unwrap().value() {
            GimliValue::UnitRef(v) => Some(RawValue::UnitRef(v.0)),
            GimliValue::Exprloc(v) => Some(RawValue::Exprloc(v.0.slice().to_vec())),
            GimliValue::LocationListsRef(v) => Some(RawValue::LocationListsRef(v.0)),
            GimliValue::RangeListsRef(v) => Some(RawValue::RangeListsRef(v.0)),
            _ => None,
        }
    }

    /// `gimli::Attribute::value`: the index that an attribute has for a value, if it has one.
    #[verifier::external_body]
    fn index(&self, offset: usize, index: usize) -> (r: Index)
        requires
            gimli_entry(unit_source(*self), offset) is Some,
            index < gimli_attribute_names(unit_source(*self), offset).len(),
        ensures
            r == gimli_index(unit_source(*self), offset, index),
    {
        let entry = self.unit.entry(gimli::UnitOffset(offset)).unwrap();
        let mut attributes = entry.attrs();
        let mut attributes = std::iter::from_fn(|| attributes.next().ok().flatten());
        match attributes.nth(index).unwrap().value() {
            GimliValue::DebugAddrIndex(v) => Index::Address(v.0),
            GimliValue::DebugStrOffsetsIndex(v) => Index::Text(v.0),
            GimliValue::DebugRngListsIndex(v) => Index::RangeList(v.0),
            _ => Index::Missing,
        }
    }

    /// `gimli::Dwarf::address`: an address by its index. gimli multiplies the index by the number
    /// of bytes of an address.
    #[verifier::external_body]
    fn address(&self, index: usize) -> (r: Option<u64>)
        requires
            product_fits(index, self.address_size() as nat),
        ensures
            r == gimli_address(unit_source(*self), index),
    {
        self.dwarf.address(&self.unit, gimli::DebugAddrIndex(index)).ok()
    }

    /// `gimli::Reader::skip` and `gimli::Reader::read_offset`: the offset that stands at a position
    /// of the section with the offsets of lists of ranges.
    #[verifier::external_body]
    fn list_offset(&self, position: usize) -> (r: Option<usize>)
        ensures
            r == gimli_list_offset(unit_source(*self), position),
    {
        let mut lists = self.lists;
        lists.skip(position).ok()?;
        lists.read_offset(self.unit.header.format()).ok()
    }

    /// `gimli::Dwarf::raw_ranges`, and `gimli::RawRngListIter::next` up to the last entry or an
    /// error: the entries of a list of ranges. On these gimli does no arithmetic yet.
    #[verifier::external_body]
    fn raw_ranges(&self, list: usize) -> (r: Vec<ListEntry>)
        ensures
            r@ == gimli_raw_ranges(unit_source(*self), list),
    {
        let mut list = self.dwarf.raw_ranges(&self.unit, gimli::RangeListsOffset(list)).ok();
        let entries = std::iter::from_fn(|| list.as_mut()?.next().ok().flatten());
        entries.map(|entry| match entry {
            RawRngListEntry::BaseAddress { .. } => ListEntry::Base,
            RawRngListEntry::BaseAddressx { addr } => ListEntry::BaseIndex(addr.0),
            RawRngListEntry::AddressOrOffsetPair { .. } | RawRngListEntry::OffsetPair { .. } =>
                ListEntry::Pair,
            RawRngListEntry::StartxEndx { begin, end } => ListEntry::Indices(begin.0, end.0),
            RawRngListEntry::StartxLength { begin, length } =>
                ListEntry::IndexLength(begin.0, length),
            RawRngListEntry::StartLength { begin, length } =>
                ListEntry::AddressLength(begin, length),
            _ => ListEntry::Plain,
        }).collect()
    }

    /// `gimli::Dwarf::raw_locations`, and `gimli::RawLocListIter::next` up to the last entry
    /// or an error: the entries of a list of places. On these gimli does no arithmetic yet.
    #[verifier::external_body]
    fn raw_locations(&self, list: usize) -> (r: Vec<ListEntry>)
        ensures
            r@ == gimli_raw_locations(unit_source(*self), list),
    {
        let list = gimli::LocationListsOffset(list);
        let mut list = self.dwarf.raw_locations(&self.unit, list).ok();
        let entries = std::iter::from_fn(|| list.as_mut()?.next().ok().flatten());
        entries.map(|entry| match entry {
            RawLocListEntry::BaseAddress { .. } => ListEntry::Base,
            RawLocListEntry::BaseAddressx { addr } => ListEntry::BaseIndex(addr.0),
            RawLocListEntry::AddressOrOffsetPair { .. } | RawLocListEntry::OffsetPair { .. } =>
                ListEntry::Pair,
            RawLocListEntry::StartxEndx { begin, end, .. } => ListEntry::Indices(begin.0, end.0),
            RawLocListEntry::StartxLength { begin, length, .. } =>
                ListEntry::IndexLength(begin.0, length),
            RawLocListEntry::StartLength { begin, length, .. } =>
                ListEntry::AddressLength(begin, length),
            _ => ListEntry::Plain,
        }).collect()
    }

    /// `gimli::Attribute::udata_value`: the value of an attribute as an unsigned number, where it
    /// is one in any form.
    #[verifier::external_body]
    fn udata(&self, offset: usize, index: usize) -> (r: Option<u64>)
        requires
            gimli_entry(unit_source(*self), offset) is Some,
            index < gimli_attribute_names(unit_source(*self), offset).len(),
        ensures
            r == gimli_udata(unit_source(*self), offset, index),
    {
        let entry = self.unit.entry(gimli::UnitOffset(offset)).unwrap();
        let mut attributes = entry.attrs();
        let mut attributes = std::iter::from_fn(|| attributes.next().ok().flatten());
        attributes.nth(index).unwrap().udata_value()
    }

    /// `gimli::Dwarf::attr_string`: the value of an attribute as a text, where it is one in any
    /// form. What is no text in UTF-8 is replaced. gimli multiplies an index by the number of bytes
    /// of an offset.
    #[verifier::external_body]
    fn text(&self, offset: usize, index: usize) -> (r: Option<String>)
        requires
            gimli_entry(unit_source(*self), offset) is Some,
            index < gimli_attribute_names(unit_source(*self), offset).len(),
            self.fits(gimli_index(unit_source(*self), offset, index)),
        ensures
            text_view(r) == gimli_text(unit_source(*self), offset, index),
    {
        let entry = self.unit.entry(gimli::UnitOffset(offset)).unwrap();
        let mut attributes = entry.attrs();
        let mut attributes = std::iter::from_fn(|| attributes.next().ok().flatten());
        let value = attributes.nth(index).unwrap().value();
        let text = self.dwarf.attr_string(&self.unit, value).ok()?;
        Some(text.to_string_lossy().to_string())
    }

    /// `gimli::Attribute::value` by its `Debug`: the value of an attribute as in a diagnostic.
    #[verifier::external_body]
    fn debug(&self, offset: usize, index: usize) -> (r: String)
        requires
            gimli_entry(unit_source(*self), offset) is Some,
            index < gimli_attribute_names(unit_source(*self), offset).len(),
        ensures
            r@ == gimli_debug(unit_source(*self), offset, index),
    {
        let entry = self.unit.entry(gimli::UnitOffset(offset)).unwrap();
        let mut attributes = entry.attrs();
        let mut attributes = std::iter::from_fn(|| attributes.next().ok().flatten());
        format!("{:?}", attributes.nth(index).unwrap().value())
    }

    /// `gimli::EntriesTreeIter::next` on the children of an entry: the first child, which has a
    /// larger offset than the entry.
    #[verifier::external_body]
    fn first_child(&self, offset: usize) -> (r: Result<Option<usize>, String>)
        ensures
            match r {
                Ok(child) => gimli_first_child(unit_source(*self), offset) matches Ok(first)
                    && first == child,
                Err(text) => gimli_first_child(unit_source(*self), offset) matches Err(error)
                    && error == text@,
            },
            r matches Ok(Some(child)) ==> offset < child,
    {
        let tree = self.unit.entries_tree(Some(gimli::UnitOffset(offset)));
        let mut tree = tree.map_err(|error| error.to_string())?;
        let root = tree.root().map_err(|error| error.to_string())?;
        let mut children = root.children();
        let child = children.next().map_err(|error| error.to_string())?;
        Ok(child.map(|child| child.entry().offset().0))
    }

    /// `gimli::EntriesCursor::next_sibling`: the next child of the parent of an entry, which has a
    /// larger offset than the entry.
    #[verifier::external_body]
    fn next_sibling(&self, offset: usize) -> (r: Result<Option<usize>, String>)
        ensures
            match r {
                Ok(sibling) => gimli_next_sibling(unit_source(*self), offset) matches Ok(next)
                    && next == sibling,
                Err(text) => gimli_next_sibling(unit_source(*self), offset) matches Err(error)
                    && error == text@,
            },
            r matches Ok(Some(sibling)) ==> offset < sibling,
    {
        let cursor = self.unit.entries_at_offset(gimli::UnitOffset(offset));
        let mut cursor = cursor.map_err(|error| error.to_string())?;
        cursor.next_dfs().map_err(|error| error.to_string())?;
        let sibling = cursor.next_sibling().map_err(|error| error.to_string())?;
        Ok(sibling.map(|sibling| sibling.offset().0))
    }

    /// `gimli::Dwarf::die_ranges`, and `gimli::RangeIter::next` up to the last range or an error,
    /// and `steps` times at most: the addresses of the code of an entry. gimli resolves indices,
    /// adds the length of the code to its first address, and does arithmetic on the entries of a
    /// list.
    #[verifier::external_body]
    fn die_ranges(&self, offset: usize, steps: usize) -> (r: Result<Vec<Range>, String>)
        requires
            gimli_entry(unit_source(*self), offset) is Some,
            code_steps(unit_source(*self), offset, 0, None, None) matches Some(most) && steps
                <= most,
        ensures
            match r {
                Ok(ranges) => gimli_die_ranges(unit_source(*self), offset, steps) matches Ok(all)
                    && all == ranges@,
                Err(text) => gimli_die_ranges(unit_source(*self), offset, steps) matches Err(error)
                    && error == text@,
            },
    {
        let entry = self.unit.entry(gimli::UnitOffset(offset)).unwrap();
        let ranges = self.dwarf.die_ranges(&self.unit, &entry);
        let mut ranges = ranges.map_err(|error| error.to_string())?;
        let ranges = std::iter::from_fn(|| ranges.next().ok().flatten()).take(steps);
        Ok(ranges.map(|range| Range { begin: range.begin, end: range.end }).collect())
    }

    /// `gimli::Dwarf::ranges_offset_from_raw`, `gimli::Dwarf::ranges`, and
    /// `gimli::RngListIter::next` up to the last range or an error, and `steps` times at most: the
    /// ranges of a list. gimli does arithmetic on the entries.
    #[verifier::external_body]
    fn ranges(&self, list: usize, steps: usize) -> (r: Vec<Range>)
        requires
            steps <= range_steps(unit_source(*self), list),
        ensures
            r@ == gimli_ranges(unit_source(*self), list, steps),
    {
        let list = gimli::RawRangeListsOffset(list);
        let list = self.dwarf.ranges_offset_from_raw(&self.unit, list);
        let mut ranges = self.dwarf.ranges(&self.unit, list).ok();
        let ranges = std::iter::from_fn(|| ranges.as_mut()?.next().ok().flatten()).take(steps);
        ranges.map(|range| Range { begin: range.begin, end: range.end }).collect()
    }

    /// `gimli::Dwarf::locations`, and `gimli::LocListIter::next` up to the last place or an
    /// error, and `steps` times at most: the places of a list, or an error as in
    /// `attributes_error`. gimli does arithmetic on the entries.
    #[verifier::external_body]
    fn locations(&self, list: usize, steps: usize) -> (r: Result<Vec<LocationEntry>, String>)
        requires
            steps <= location_steps(unit_source(*self), list),
        ensures
            match r {
                Ok(entries) => gimli_locations(unit_source(*self), list, steps) matches Ok(all)
                    && all == location_views(entries@),
                Err(text) => gimli_locations(unit_source(*self), list, steps) matches Err(error)
                    && error == text@,
            },
    {
        let places = self.dwarf.locations(&self.unit, gimli::LocationListsOffset(list));
        let mut places = places.map_err(|error| match error {
            gimli::Error::UnexpectedEof(_) => String::from("UnexpectedEof"),
            error => format!("{:?}", error),
        })?;
        let places = std::iter::from_fn(|| places.next().ok().flatten()).take(steps);
        Ok(places.map(|place| LocationEntry {
            range: Range { begin: place.range.begin, end: place.range.end },
            expression: place.data.0.slice().to_vec(),
        }).collect())
    }

    /// `gimli::Dwarf::locations`, and `gimli::LocListIter::next` up to the last place or an
    /// error, and `steps` times at most: the error, as in `attributes_error`.
    #[verifier::external_body]
    fn locations_error(&self, list: usize, steps: usize) -> (r: Option<String>)
        requires
            steps <= location_steps(unit_source(*self), list),
        ensures
            text_view(r) == gimli_locations_error(unit_source(*self), list, steps),
    {
        let places = self.dwarf.locations(&self.unit, gimli::LocationListsOffset(list));
        let mut places = places.ok()?;
        let mut places = std::iter::from_fn(|| places.next().transpose()).take(steps);
        places.find_map(|place| place.err()).map(|error| match error {
            gimli::Error::UnexpectedEof(_) => String::from("UnexpectedEof"),
            error => format!("{:?}", error),
        })
    }

    /// `gimli::LineProgramHeader::file` and `gimli::FileEntry::directory_index`: the number of the
    /// directory of a source file. gimli takes the number of a file for a `usize`.
    #[verifier::external_body]
    fn file_directory(&self, index: u64) -> (r: Option<u64>)
        requires
            index <= usize::MAX,
        ensures
            r == gimli_file_directory(unit_source(*self), index),
    {
        let file = self.unit.line_program.as_ref()?.header().file(index)?;
        Some(file.directory_index())
    }

    /// `gimli::LineProgramHeader::file` and `gimli::FileEntry`, its `directory` and `path_name`:
    /// the indices that they are given by, where they are. gimli takes the numbers of a file and of
    /// a directory for a `usize`.
    #[verifier::external_body]
    fn file_texts(&self, index: u64) -> (r: Option<(Index, Index)>)
        requires
            index <= usize::MAX,
            gimli_file_directory(unit_source(*self), index) matches Some(directory) ==> directory
                <= usize::MAX,
        ensures
            r == gimli_file_texts(unit_source(*self), index),
    {
        let header = self.unit.line_program.as_ref()?.header();
        let file = header.file(index)?;
        let texts = [file.directory(header)?, file.path_name()];
        let [directory, path_name] = texts.map(|text| match text {
            GimliValue::DebugStrOffsetsIndex(v) => Index::Text(v.0),
            _ => Index::Missing,
        });
        Some((directory, path_name))
    }

    /// `gimli::LineProgramHeader::file` and `gimli::FileEntry`, its `directory` and `path_name`:
    /// the directory and the name of a source file, where they are texts. gimli takes the numbers
    /// of a file and of a directory for a `usize`, and multiplies an index by the number of bytes
    /// of an offset.
    #[verifier::external_body]
    fn file(&self, index: u64) -> (r: Option<(String, String)>)
        requires
            file_fits(unit_source(*self), index),
        ensures
            match r {
                Some((directory, file)) => gimli_file(unit_source(*self), index) == Some(
                    (directory@, file@),
                ),
                None => gimli_file(unit_source(*self), index) is None,
            },
    {
        let header = self.unit.line_program.as_ref()?.header();
        let file = header.file(index)?;
        let directory = self.dwarf.attr_string(&self.unit, file.directory(header)?).ok()?;
        let path_name = self.dwarf.attr_string(&self.unit, file.path_name()).ok()?;
        let directory = directory.to_string_lossy().to_string();
        Some((directory, path_name.to_string_lossy().to_string()))
    }
}

/// Whether gimli can do its arithmetic on `entry`.
pub open spec fn list_entry_fits(source: UnitSource, entry: ListEntry) -> bool {
    let size = gimli_layout(source).encoding.address_size;
    match entry {
        ListEntry::Base => true,
        ListEntry::BaseIndex(index) => product_fits(index, size as nat),
        ListEntry::Pair => 1 <= size <= 8,
        ListEntry::Indices(begin, end) => product_fits(begin, size as nat) && product_fits(
            end,
            size as nat,
        ),
        ListEntry::IndexLength(begin, length) => product_fits(begin, size as nat) && (
        gimli_address(source, begin) matches Some(begin) ==> begin + length <= u64::MAX),
        ListEntry::AddressLength(begin, length) => begin + length <= u64::MAX,
        ListEntry::Plain => true,
    }
}

/// How many steps gimli can go through a list that has `entries` from `from` on, `taken` of which
/// it has gone before: up to the first entry on which it cannot do its arithmetic. It passes over
/// entries that only say what others are relative to. There is no bound where it can do all of it,
/// or meets an error in such an entry.
pub open spec fn steps_from(
    source: UnitSource,
    entries: Seq<ListEntry>,
    from: int,
    taken: nat,
) -> nat
    decreases entries.len() - from,
{
    if from >= entries.len() {
        usize::MAX as nat
    } else if !list_entry_fits(source, entries[from]) {
        taken
    } else if entries[from] matches ListEntry::BaseIndex(index) && gimli_address(source, index)
        is None {
        usize::MAX as nat
    } else if entries[from].is_base() {
        steps_from(source, entries, from + 1, taken)
    } else {
        steps_from(source, entries, from + 1, taken + 1)
    }
}

/// How many steps gimli can go through the list of ranges at `list`.
pub open spec fn range_steps(source: UnitSource, list: usize) -> nat {
    steps_from(source, gimli_raw_ranges(source, list), 0, 0)
}

/// How many steps gimli can go through the list of places at `list`.
pub open spec fn location_steps(source: UnitSource, list: usize) -> nat {
    steps_from(source, gimli_raw_locations(source, list), 0, 0)
}

/// What gimli finds where an attribute should give an address.
pub enum Bound {
    /// The address.
    Found(u64),
    /// An error.
    Failed,
    /// Nothing: it cannot do its arithmetic.
    Unfit,
}

/// What gimli finds where the `index`-th attribute of the entry at `offset` should give an address.
pub open spec fn bound_given(source: UnitSource, offset: usize, index: usize) -> Bound {
    match gimli_value(source, offset, index) {
        RawValue::Addr(address) => Bound::Found(address),
        _ => match gimli_index(source, offset, index) {
            Index::Address(index) => if product_fits(
                index,
                gimli_layout(source).encoding.address_size as nat,
            ) {
                match gimli_address(source, index) {
                    Some(address) => Bound::Found(address),
                    None => Bound::Failed,
                }
            } else {
                Bound::Unfit
            },
            _ => Bound::Failed,
        },
    }
}

/// How many steps gimli can go through the list of ranges with the index `index`, if it can find
/// the list.
pub open spec fn indexed_steps(source: UnitSource, index: usize) -> Option<nat> {
    let layout = gimli_layout(source);
    let word = word_size(layout.encoding.is_64_bit);
    if !product_fits(index, word) {
        None
    } else if layout.range_lists_base + index * word > usize::MAX {
        Some(usize::MAX as nat)
    } else {
        match gimli_list_offset(source, (layout.range_lists_base + index * word) as usize) {
            None => Some(usize::MAX as nat),
            Some(list) => if layout.range_lists_base + list > usize::MAX {
                None
            } else {
                Some(range_steps(source, (layout.range_lists_base + list) as usize))
            },
        }
    }
}

/// How many steps gimli can go through the addresses of the code of the entry at `offset`, if it
/// can do its arithmetic: by the attributes from the `from`-th on, where those before gave the
/// first address `low` and the length `length`. There is no bound where it meets an error.
pub open spec fn code_steps(
    source: UnitSource,
    offset: usize,
    from: int,
    low: Option<u64>,
    length: Option<u64>,
) -> Option<nat>
    decreases gimli_attribute_names(source, offset).len() - from,
{
    let names = gimli_attribute_names(source, offset);
    let unbounded = Some(usize::MAX as nat);
    if from >= names.len() {
        match (gimli_attributes_error(source, offset), low, length) {
            (None, Some(low), Some(length)) => if low + length <= u64::MAX {
                unbounded
            } else {
                None
            },
            _ => unbounded,
        }
    } else if names[from] == DW_AT_LOW_PC {
        match bound_given(source, offset, from as usize) {
            Bound::Found(low) => code_steps(source, offset, from + 1, Some(low), length),
            Bound::Failed => unbounded,
            Bound::Unfit => None,
        }
    } else if names[from] == DW_AT_HIGH_PC {
        match gimli_value(source, offset, from as usize) {
            RawValue::Udata(length) => code_steps(source, offset, from + 1, low, Some(length)),
            _ => match bound_given(source, offset, from as usize) {
                Bound::Found(_) => code_steps(source, offset, from + 1, low, length),
                Bound::Failed => unbounded,
                Bound::Unfit => None,
            },
        }
    } else if names[from] == DW_AT_RANGES {
        match gimli_value(source, offset, from as usize) {
            RawValue::RangeListsRef(list) => Some(range_steps(source, list)),
            _ => match gimli_index(source, offset, from as usize) {
                Index::RangeList(index) => indexed_steps(source, index),
                _ => code_steps(source, offset, from + 1, low, length),
            },
        }
    } else {
        code_steps(source, offset, from + 1, low, length)
    }
}

/// The ranges and expressions of `entries`.
pub open spec fn location_views(entries: Seq<LocationEntry>) -> Seq<(Range, Seq<u8>)> {
    Seq::new(entries.len(), |i: int| (entries[i].range, entries[i].expression@))
}

/// The error behind the places of the list at `offset`, if there is one: the one that gimli meets,
/// or that the next place has an address that does not fit.
pub open spec fn list_error(source: UnitSource, offset: usize) -> Option<Seq<char>> {
    let steps = location_steps(source, offset);
    match gimli_locations_error(source, offset, steps as usize) {
        Some(error) => Some(error),
        None => if steps < usize::MAX {
            Some("Address out of range"@)
        } else {
            None
        },
    }
}

/// Whether `list` is what the list of places at `offset` says, up to an error or an address that
/// does not fit.
pub open spec fn list_read(source: UnitSource, offset: usize, list: LocationList) -> bool {
    match gimli_locations(source, offset, location_steps(source, offset) as usize) {
        Err(error) => list matches LocationList::Unreadable(text) && text@ == error,
        Ok(all) => list matches LocationList::Entries { entries, error } && location_views(entries@)
            == all && text_view(error) == list_error(source, offset),
    }
}

/// Whether `value` is what `raw` says, with the lists that it refers to.
pub open spec fn value_read(
    source: UnitSource,
    raw: RawValue<Seq<u8>>,
    value: AttributeValue,
) -> bool {
    match raw {
        RawValue::Addr(v) => value == AttributeValue::Addr(v),
        RawValue::Udata(v) => value == AttributeValue::Udata(v),
        RawValue::Data1(v) => value == AttributeValue::Data1(v),
        RawValue::Flag(v) => value == AttributeValue::Flag(v),
        RawValue::AddressClass(v) => value == AttributeValue::AddressClass(v),
        RawValue::FileIndex(v) => value == AttributeValue::FileIndex(v),
        RawValue::UnitRef(v) => value == AttributeValue::UnitRef(v),
        RawValue::Exprloc(v) => value matches AttributeValue::Exprloc(expression) && expression@
            == v,
        RawValue::LocationListsRef(v) => value matches AttributeValue::LocationListsRef(list)
            && list_read(source, v, list),
        RawValue::RangeListsRef(v) => value matches AttributeValue::RangeListsRef(ranges)
            && ranges@ == gimli_ranges(source, v, range_steps(source, v) as usize),
        RawValue::Other => value is Other,
    }
}

/// Whether gimli can find what `index` stands for.
pub open spec fn fits(source: UnitSource, index: Index) -> bool {
    let encoding = gimli_layout(source).encoding;
    index_fits(index, encoding.address_size, word_size(encoding.is_64_bit))
}

/// The value of the `index`-th attribute of the entry at `offset` as a text, if it is one.
pub open spec fn text_given(source: UnitSource, offset: usize, index: usize) -> Option<Seq<char>> {
    if fits(source, gimli_index(source, offset, index)) {
        gimli_text(source, offset, index)
    } else {
        None
    }
}

/// Whether gimli can find the directory and the name of the source file with the number `index`.
pub open spec fn file_fits(source: UnitSource, index: u64) -> bool {
    &&& index <= usize::MAX
    &&& gimli_file_directory(source, index) matches Some(directory) ==> directory <= usize::MAX
    &&& gimli_file_texts(source, index) matches Some((directory, path_name)) ==> fits(
        source,
        directory,
    ) && fits(source, path_name)
}

/// The directory and the name of the source file with the number `index`, if they are texts.
pub open spec fn file_given(source: UnitSource, index: u64) -> Option<(Seq<char>, Seq<char>)> {
    if file_fits(source, index) {
        gimli_file(source, index)
    } else {
        None
    }
}

/// The text of an attribute, or what it is instead.
pub open spec fn text_or_debug(text: Option<Seq<char>>, debug: Seq<char>) -> Seq<char> {
    match text {
        Some(text) => text,
        None => "Unimplemented: Evaluate name from "@ + debug,
    }
}

/// Whether `attribute` is the `index`-th attribute of the entry at `offset`.
pub open spec fn attribute_read(
    source: UnitSource,
    offset: usize,
    index: int,
    attribute: Attribute,
) -> bool {
    &&& attribute.name == gimli_attribute_names(source, offset)[index]
    &&& value_read(source, gimli_value(source, offset, index as usize), attribute.value)
    &&& attribute.udata == gimli_udata(source, offset, index as usize)
    &&& attribute.debug@ == gimli_debug(source, offset, index as usize)
    &&& attribute.text@ == text_or_debug(
        text_given(source, offset, index as usize),
        attribute.debug@,
    )
}

/// The offsets of the children of an entry from `next` on, which come behind `previous`, and the
/// text of the error behind them if there is one.
pub open spec fn children_listed(
    source: UnitSource,
    next: Result<Option<usize>, Seq<char>>,
    previous: usize,
) -> (Seq<usize>, Option<Seq<char>>)
    decreases usize::MAX - previous,
{
    match next {
        Err(error) => (Seq::empty(), Some(error)),
        Ok(None) => (Seq::empty(), None),
        Ok(Some(child)) => if previous < child {
            let (rest, error) = children_listed(source, gimli_next_sibling(source, child), child);
            (seq![child] + rest, error)
        } else {
            (Seq::empty(), None)
        },
    }
}

/// Whether the addresses of the code of an entry with the tag `tag` are of interest.
pub open spec fn has_code(tag: u16) -> bool {
    tag == DW_TAG_SUBPROGRAM || tag == DW_TAG_INLINED_SUBROUTINE
}

/// Whether `ranges` are the addresses of the code of the entry at `offset`, where they are of
/// interest: up to an error or an address that does not fit. Code that reaches beyond the last
/// address has none.
pub open spec fn ranges_read(
    source: UnitSource,
    offset: usize,
    tag: u16,
    ranges: Result<Vec<Range>, String>,
) -> bool {
    if has_code(tag) {
        match code_steps(source, offset, 0, None, None) {
            Some(steps) => match gimli_die_ranges(source, offset, steps as usize) {
                Ok(all) => ranges matches Ok(ranges) && ranges@ == all,
                Err(error) => ranges matches Err(text) && text@ == error,
            },
            None => ranges matches Ok(ranges) && ranges@.len() == 0,
        }
    } else {
        ranges matches Ok(ranges) && ranges@.len() == 0
    }
}

/// Whether `entry` is the entry at `offset`, which stands deeper than the one before it by `depth`.
pub open spec fn entry_read(source: UnitSource, depth: i64, offset: usize, entry: Entry) -> bool {
    &&& entry.depth == depth
    &&& entry.offset == offset
    &&& gimli_entry(source, offset) == Some((entry.tag, entry.has_children))
    &&& entry.attributes@.len() == gimli_attribute_names(source, offset).len()
    &&& forall|i: int| #![trigger entry.attributes@[i]]
        0 <= i < entry.attributes@.len() ==> attribute_read(
            source,
            offset,
            i,
            entry.attributes@[i],
        )
    &&& text_view(entry.attributes_error) == gimli_attributes_error(source, offset)
    &&& (entry.children@, text_view(entry.children_error)) == children_listed(
        source,
        gimli_first_child(source, offset),
        offset,
    )
    &&& ranges_read(source, offset, entry.tag, entry.ranges)
}

/// How much deeper each entry from `next` on stands than the one before it, and its offset.
pub open spec fn entries_listed(source: UnitSource, next: Option<(i64, usize)>) -> Seq<(i64, usize)>
    decreases
            match next {
                None => 0,
                Some((_, offset)) => usize::MAX - offset + 1,
            },
{
    match next {
        None => Seq::empty(),
        Some((depth, offset)) => {
            let behind = gimli_next_entry(source, offset);
            if behind matches Some((_, further)) && further <= offset {
                seq![(depth, offset)]
            } else {
                seq![(depth, offset)] + entries_listed(source, behind)
            }
        },
    }
}

/// Whether `entries` are the entries that `listed` lists.
pub open spec fn entries_read(
    source: UnitSource,
    listed: Seq<(i64, usize)>,
    entries: Seq<Entry>,
) -> bool {
    &&& entries.len() == listed.len()
    &&& forall|i: int| #![trigger entries[i]]
        0 <= i < entries.len() ==> entry_read(source, listed[i].0, listed[i].1, entries[i])
}

/// Whether `files` has the source file that `value` refers to, if it refers to one.
pub open spec fn file_read(
    source: UnitSource,
    value: AttributeValue,
    files: Seq<SourceFile>,
) -> bool {
    value matches AttributeValue::FileIndex(index) ==> file_named(files, index) == file_given(
        source,
        index,
    )
}

/// Whether `entry` refers to an entry at `offset`: as a child, or by an attribute.
pub open spec fn refers_to(entry: Entry, offset: usize) -> bool {
    ||| entry.children@.contains(offset)
    ||| exists|i: int|
        0 <= i < entry.attributes@.len() && (#[trigger] entry.attributes@[i]).value
            == AttributeValue::UnitRef(offset)
}

/// Whether one of `entries` has the offset `offset`.
pub open spec fn has_entry(entries: Seq<Entry>, offset: usize) -> bool {
    exists|i: int| 0 <= i < entries.len() && (#[trigger] entries[i]).offset == offset
}

/// Whether `entries` has all entries that `entry` refers to and that there are.
pub open spec fn references_read(source: UnitSource, entry: Entry, entries: Seq<Entry>) -> bool {
    forall|offset: usize| #[trigger]
        refers_to(entry, offset) && gimli_entry(source, offset) is Some ==> has_entry(
            entries,
            offset,
        )
}

/// Whether `unit` is what the sections of the program say of a unit.
pub open spec fn unit_read(source: UnitSource, unit: UnitInfo) -> bool {
    &&& unit.header_offset == gimli_layout(source).header_offset
    &&& unit.encoding == gimli_layout(source).encoding
    &&& unit.first_offset == gimli_layout(source).first_offset
    &&& unit.end_offset == gimli_layout(source).end_offset
    &&& unit.wf()
    &&& entries_read(
        source,
        entries_listed(source, gimli_first_entry(source)),
        unit.entries@.take(unit.walked as int),
    )
    &&& forall|i: int| #![trigger unit.entries@[i]]
        unit.walked <= i < unit.entries@.len() ==> entry_read(
            source,
            0,
            unit.entries@[i].offset,
            unit.entries@[i],
        )
    &&& forall|i: int| #![trigger unit.entries@[i]]
        0 <= i < unit.entries@.len() ==> references_read(source, unit.entries@[i], unit.entries@)
    &&& forall|i: int, j: int| #![trigger unit.entries@[i].attributes@[j]]
        0 <= i < unit.entries@.len() && 0 <= j < unit.entries@[i].attributes@.len() ==> file_read(
            source,
            unit.entries@[i].attributes@[j].value,
            unit.files@,
        )
}

/// Whether the `index`-th of numbers that take `size` bytes each has a position that gimli can
/// compute.
fn check_product(index: usize, size: u8) -> (r: bool)
    ensures
        r == product_fits(index, size as nat),
{
    assert(index * size <= usize::MAX * 255) by (nonlinear_arith)
        requires
            index <= usize::MAX,
            size <= 255,
    ;
    index as u128 * size as u128 <= u64::MAX as u128
}

/// The number of bytes of an offset.
fn bytes_of_offset(is_64_bit: bool) -> (r: u8)
    ensures
        r == word_size(is_64_bit),
{
    if is_64_bit {
        8
    } else {
        4
    }
}

/// Whether gimli can find what `index` stands for where addresses take `address_size` bytes and
/// offsets `word` bytes.
fn check_index(index: Index, address_size: u8, word: u8) -> (r: bool)
    ensures
        r == index_fits(index, address_size, word as nat),
{
    match index {
        Index::Address(index) => check_product(index, address_size),
        Index::Text(index) => check_product(index, word),
        Index::RangeList(index) => check_product(index, word),
        Index::Missing => true,
    }
}

/// The index that the last of `attributes` with the name `name` has for a value.
fn find_last_index(attributes: &Vec<(u16, Index)>, name: u16) -> (r: Index)
    ensures
        r == last_index(attributes@, name),
{
    let mut i: usize = attributes.len();
    assert(attributes@.take(i as int) =~= attributes@);
    while i > 0
        invariant
            i <= attributes@.len(),
            last_index(attributes@, name) == last_index(attributes@.take(i as int), name),
        decreases i,
    {
        i = i - 1;
        assert(attributes@.take(i + 1).drop_last() =~= attributes@.take(i as int));
        if attributes[i].0 == name {
            return attributes[i].1;
        }
    }
    Index::Missing
}

impl<'a> DebugSections<'a> {
    /// Whether gimli can find what the first entry of the unit at `offset` says of its name, its
    /// directory and its first address.
    fn check_root(&self, offset: usize) -> (r: bool)
        ensures
            r == root_fits((UnitSource { sections: sections_source(*self), offset })),
    {
        match (self.root(offset), self.sizes(offset)) {
            (Some(attributes), Some((address_size, word))) => {
                let name = match find_last_index(&attributes, DW_AT_NAME) {
                    Index::Text(index) => check_product(index, word),
                    _ => true,
                };
                let directory = match find_last_index(&attributes, DW_AT_COMP_DIR) {
                    Index::Text(index) => check_product(index, word),
                    _ => true,
                };
                let address = match find_last_index(&attributes, DW_AT_LOW_PC) {
                    Index::Address(index) => check_product(index, address_size),
                    _ => true,
                };
                name && directory && address
            },
            _ => true,
        }
    }
}

impl<'a> DebugUnit<'a> {
    /// The number of bytes of an address of the unit.
    pub open spec fn address_size(self) -> u8 {
        gimli_layout(unit_source(self)).encoding.address_size
    }

    /// Whether gimli can find what `index` stands for.
    pub open spec fn fits(self, index: Index) -> bool {
        fits(unit_source(self), index)
    }

    /// Whether gimli can find what `index` stands for.
    fn check(&self, index: Index) -> (r: bool)
        ensures
            r == self.fits(index),
    {
        let encoding = self.layout().encoding;
        check_index(index, encoding.address_size, bytes_of_offset(encoding.is_64_bit))
    }

    /// Whether gimli can do its arithmetic on `entry`.
    fn check_list_entry(&self, entry: ListEntry) -> (r: bool)
        ensures
            r == list_entry_fits(unit_source(*self), entry),
    {
        let size: u8 = self.layout().encoding.address_size;
        match entry {
            ListEntry::Base => true,
            ListEntry::BaseIndex(index) => check_product(index, size),
            ListEntry::Pair => 1 <= size && size <= 8,
            ListEntry::Indices(begin, end) => check_product(
                begin,
                size,
            ) && check_product(end, size),
            ListEntry::IndexLength(begin, length) => if check_product(begin, size) {
                match self.address(begin) {
                    Some(begin) => begin <= u64::MAX - length,
                    None => true,
                }
            } else {
                false
            },
            ListEntry::AddressLength(begin, length) => begin <= u64::MAX - length,
            ListEntry::Plain => true,
        }
    }

    /// How many steps gimli can go through a list that has `entries`.
    fn count_steps(&self, entries: &Vec<ListEntry>) -> (r: usize)
        ensures
            r == steps_from(unit_source(*self), entries@, 0, 0),
    {
        let mut taken: usize = 0;
        let mut i: usize = 0;
        while i < entries.len()
            invariant
                taken <= i <= entries.len(),
                steps_from(unit_source(*self), entries@, 0, 0) == steps_from(
                    unit_source(*self),
                    entries@,
                    i as int,
                    taken as nat,
                ),
            decreases entries.len() - i,
        {
            if !self.check_list_entry(entries[i]) {
                return taken;
            }
            match entries[i] {
                ListEntry::Base => {},
                ListEntry::BaseIndex(index) => if self.address(index).is_none() {
                    return usize::MAX;
                },
                _ => {
                    taken = taken + 1;
                },
            }
            i = i + 1;
        }
        usize::MAX
    }

    /// The list of places at `offset`.
    fn read_list(&self, offset: usize) -> (r: LocationList)
        ensures
            list_read(unit_source(*self), offset, r),
    {
        let steps: usize = self.count_steps(&self.raw_locations(offset));
        match self.locations(offset, steps) {
            Ok(entries) => {
                let error = match self.locations_error(offset, steps) {
                    Some(error) => Some(error),
                    None => if steps < usize::MAX {
                        Some(String::from_str("Address out of range"))
                    } else {
                        None
                    },
                };
                LocationList::Entries { entries, error }
            },
            Err(text) => LocationList::Unreadable(text),
        }
    }

    /// The ranges of the list at `list`.
    fn read_ranges(&self, list: usize) -> (r: Vec<Range>)
        ensures
            r@ == gimli_ranges(
                unit_source(*self),
                list,
                range_steps(unit_source(*self), list) as usize,
            ),
    {
        let steps: usize = self.count_steps(&self.raw_ranges(list));
        self.ranges(list, steps)
    }

    /// The value of the `index`-th attribute of the entry at `offset`, as it is encoded.
    fn raw_value(&self, offset: usize, index: usize) -> (r: RawValue)
        requires
            gimli_entry(unit_source(*self), offset) is Some,
            index < gimli_attribute_names(unit_source(*self), offset).len(),
        ensures
            r@ == gimli_value(unit_source(*self), offset, index),
    {
        match self.reference(offset, index) {
            Some(raw) => raw,
            None => self.plain_value(offset, index),
        }
    }

    /// The value of the `index`-th attribute of the entry at `offset`.
    fn read_value(&self, offset: usize, index: usize) -> (r: AttributeValue)
        requires
            gimli_entry(unit_source(*self), offset) is Some,
            index < gimli_attribute_names(unit_source(*self), offset).len(),
        ensures
            value_read(unit_source(*self), gimli_value(unit_source(*self), offset, index), r),
    {
        match self.raw_value(offset, index) {
            RawValue::Addr(v) => AttributeValue::Addr(v),
            RawValue::Udata(v) => AttributeValue::Udata(v),
            RawValue::Data1(v) => AttributeValue::Data1(v),
            RawValue::Flag(v) => AttributeValue::Flag(v),
            RawValue::AddressClass(v) => AttributeValue::AddressClass(v),
            RawValue::FileIndex(v) => AttributeValue::FileIndex(v),
            RawValue::UnitRef(v) => AttributeValue::UnitRef(v),
            RawValue::Exprloc(v) => AttributeValue::Exprloc(v),
            RawValue::LocationListsRef(v) => AttributeValue::LocationListsRef(self.read_list(v)),
            RawValue::RangeListsRef(v) => AttributeValue::RangeListsRef(self.read_ranges(v)),
            RawValue::Other => AttributeValue::Other,
        }
    }

    /// The attributes of the entry at `offset`.
    fn read_attributes(&self, offset: usize) -> (r: Vec<Attribute>)
        requires
            gimli_entry(unit_source(*self), offset) is Some,
        ensures
            r@.len() == gimli_attribute_names(unit_source(*self), offset).len(),
            forall|i: int| #![trigger r@[i]]
                0 <= i < r@.len() ==> attribute_read(unit_source(*self), offset, i, r@[i]),
    {
        let names = self.attribute_names(offset);
        let mut attributes: Vec<Attribute> = Vec::new();
        let mut i: usize = 0;
        while i < names.len()
            invariant
                gimli_entry(unit_source(*self), offset) is Some,
                i == attributes@.len() <= names@.len(),
                names@ == gimli_attribute_names(unit_source(*self), offset),
                forall|j: int| #![trigger attributes@[j]]
                    0 <= j < i ==> attribute_read(unit_source(*self), offset, j, attributes@[j]),
            decreases names.len() - i,
        {
            let debug = self.debug(offset, i);
            let given = if self.check(self.index(offset, i)) {
                self.text(offset, i)
            } else {
                None
            };
            let text = match given {
                Some(text) => text,
                None => join2("Unimplemented: Evaluate name from ", debug.as_str()),
            };
            attributes.push(
                Attribute {
                    name: names[i],
                    value: self.read_value(offset, i),
                    udata: self.udata(offset, i),
                    text,
                    debug,
                },
            );
            i = i + 1;
        }
        attributes
    }

    /// The offsets of the children of the entry at `offset`, and the error behind them if there is
    /// one.
    fn read_children(&self, offset: usize) -> (r: (Vec<usize>, Option<String>))
        ensures
            (r.0@, text_view(r.1)) == children_listed(
                unit_source(*self),
                gimli_first_child(unit_source(*self), offset),
                offset,
            ),
    {
        let ghost source = unit_source(*self);
        let ghost all = children_listed(source, gimli_first_child(source, offset), offset);
        let mut children: Vec<usize> = Vec::new();
        let mut previous: usize = offset;
        let mut next = self.first_child(offset);
        assert(all.0 =~= children@ + all.0);
        loop
            invariant
                source == unit_source(*self),
                next matches Ok(Some(child)) ==> previous < child,
                ({
                    let rest = children_listed(source, child_view(next), previous);
                    all.0 == children@ + rest.0 && all.1 == rest.1
                }),
                all == children_listed(source, gimli_first_child(source, offset), offset),
            decreases usize::MAX - previous,
        {
            let child: usize = match next {
                Ok(Some(child)) => child,
                Ok(None) => {
                    assert(all.0 =~= children@);
                    return (children, None);
                },
                Err(text) => {
                    assert(all.0 =~= children@);
                    return (children, Some(text));
                },
            };
            children.push(child);
            next = self.next_sibling(child);
            assert(child_view(next) == gimli_next_sibling(source, child));
            previous = child;
            assert(all.0 =~= children@ + children_listed(source, child_view(next), previous).0);
        }
    }

    /// What gimli finds where the `index`-th attribute of the entry at `offset` should give an
    /// address.
    fn find_bound(&self, offset: usize, index: usize) -> (r: Bound)
        requires
            gimli_entry(unit_source(*self), offset) is Some,
            index < gimli_attribute_names(unit_source(*self), offset).len(),
        ensures
            r == bound_given(unit_source(*self), offset, index),
    {
        match self.raw_value(offset, index) {
            RawValue::Addr(address) => Bound::Found(address),
            _ => match self.index(offset, index) {
                Index::Address(index) => if check_product(
                    index,
                    self.layout().encoding.address_size,
                ) {
                    match self.address(index) {
                        Some(address) => Bound::Found(address),
                        None => Bound::Failed,
                    }
                } else {
                    Bound::Unfit
                },
                _ => Bound::Failed,
            },
        }
    }

    /// How many steps gimli can go through the list of ranges with the index `index`, if it can
    /// find the list.
    fn find_indexed_steps(&self, index: usize) -> (r: Option<usize>)
        ensures
            (match r {
                Some(steps) => Some(steps as nat),
                None => None,
            }) == indexed_steps(unit_source(*self), index),
    {
        let layout = self.layout();
        let word: u8 = bytes_of_offset(layout.encoding.is_64_bit);
        if !check_product(index, word) {
            return None;
        }
        let ghost product = index * word;
        assert(product == index * word_size(layout.encoding.is_64_bit));
        let position: u128 = layout.range_lists_base as u128 + index as u128 * word as u128;
        if position > usize::MAX as u128 {
            return Some(usize::MAX);
        }
        match self.list_offset(position as usize) {
            None => Some(usize::MAX),
            Some(list) => if list > usize::MAX - layout.range_lists_base {
                None
            } else {
                Some(self.count_steps(&self.raw_ranges(layout.range_lists_base + list)))
            },
        }
    }

    /// How many steps gimli can go through the addresses of the code of the entry at `offset`, if
    /// it can do its arithmetic.
    fn find_code_steps(&self, offset: usize) -> (r: Option<usize>)
        requires
            gimli_entry(unit_source(*self), offset) is Some,
        ensures
            (match r {
                Some(steps) => Some(steps as nat),
                None => None,
            }) == code_steps(unit_source(*self), offset, 0, None, None),
    {
        let names = self.attribute_names(offset);
        let ghost source = unit_source(*self);
        let mut low: Option<u64> = None;
        let mut length: Option<u64> = None;
        let mut i: usize = 0;
        while i < names.len()
            invariant
                source == unit_source(*self),
                gimli_entry(source, offset) is Some,
                names@ == gimli_attribute_names(source, offset),
                i <= names.len(),
                code_steps(source, offset, 0, None, None) == code_steps(
                    source,
                    offset,
                    i as int,
                    low,
                    length,
                ),
            decreases names.len() - i,
        {
            if names[i] == DW_AT_LOW_PC {
                match self.find_bound(offset, i) {
                    Bound::Found(address) => {
                        low = Some(address);
                    },
                    Bound::Failed => {
                        return Some(usize::MAX);
                    },
                    Bound::Unfit => {
                        return None;
                    },
                }
            } else if names[i] == DW_AT_HIGH_PC {
                match self.raw_value(offset, i) {
                    RawValue::Udata(given) => {
                        length = Some(given);
                    },
                    _ => match self.find_bound(offset, i) {
                        Bound::Found(_) => {},
                        Bound::Failed => {
                            return Some(usize::MAX);
                        },
                        Bound::Unfit => {
                            return None;
                        },
                    },
                }
            } else if names[i] == DW_AT_RANGES {
                match self.raw_value(offset, i) {
                    RawValue::RangeListsRef(list) => {
                        return Some(self.count_steps(&self.raw_ranges(list)));
                    },
                    _ => match self.index(offset, i) {
                        Index::RangeList(index) => {
                            return self.find_indexed_steps(index);
                        },
                        _ => {},
                    },
                }
            }
            i = i + 1;
        }
        match (self.attributes_error(offset), low, length) {
            (None, Some(low), Some(length)) => if low <= u64::MAX - length {
                Some(usize::MAX)
            } else {
                None
            },
            _ => Some(usize::MAX),
        }
    }

    /// The addresses of the code of the entry at `offset`.
    fn read_code(&self, offset: usize) -> (r: Result<Vec<Range>, String>)
        requires
            gimli_entry(unit_source(*self), offset) is Some,
        ensures
            ranges_read(unit_source(*self), offset, DW_TAG_SUBPROGRAM, r),
    {
        match self.find_code_steps(offset) {
            Some(steps) => self.die_ranges(offset, steps),
            None => Ok(Vec::new()),
        }
    }

    /// The entry at `offset`, which stands deeper than the one before it by `depth`.
    fn read_entry(&self, depth: i64, offset: usize) -> (r: Option<Entry>)
        ensures
            match r {
                Some(entry) => entry_read(unit_source(*self), depth, offset, entry),
                None => gimli_entry(unit_source(*self), offset) is None,
            },
    {
        let (tag, has_children) = match self.entry(offset) {
            Some(entry) => entry,
            None => {
                return None;
            },
        };
        let (children, children_error) = self.read_children(offset);
        let ranges: Result<Vec<Range>, String> = if tag == DW_TAG_SUBPROGRAM || tag
            == DW_TAG_INLINED_SUBROUTINE {
            self.read_code(offset)
        } else {
            Ok(Vec::new())
        };
        Some(
            Entry {
                offset,
                tag,
                has_children,
                depth,
                attributes: self.read_attributes(offset),
                attributes_error: self.attributes_error(offset),
                children,
                children_error,
                ranges,
            },
        )
    }

    /// All entries, each before its children and these before what follows it.
    fn read_entries(&self) -> (r: Vec<Entry>)
        ensures
            entries_read(
                unit_source(*self),
                entries_listed(
                    unit_source(*self),
                    gimli_first_entry(unit_source(*self)),
                ),
                r@,
            ),
    {
        let ghost source = unit_source(*self);
        let ghost all = entries_listed(source, gimli_first_entry(source));
        let mut entries: Vec<Entry> = Vec::new();
        let mut next = self.first_entry();
        assert(all.skip(0) =~= all);
        loop
            invariant
                source == unit_source(*self),
                all == entries_listed(source, gimli_first_entry(source)),
                entries@.len() <= all.len(),
                all.skip(entries@.len() as int) == entries_listed(source, next),
                next matches Some((_, offset)) ==> gimli_entry(source, offset) is Some,
                forall|i: int| #![trigger entries@[i]]
                    0 <= i < entries@.len() ==> entry_read(
                        source,
                        all[i].0,
                        all[i].1,
                        entries@[i],
                    ),
            decreases
                    match next {
                        None => 0,
                        Some((_, offset)) => usize::MAX - offset + 1,
                    },
        {
            let (depth, offset) = match next {
                Some(next) => next,
                None => {
                    return entries;
                },
            };
            let ghost rest = all.skip(entries@.len() as int);
            assert(rest[0] == (depth, offset));
            match self.read_entry(depth, offset) {
                Some(entry) => {
                    entries.push(entry);
                },
                None => {
                    assert(false);
                },
            }
            next = self.next_entry(offset);
            assert(all.skip(entries@.len() as int) =~= rest.skip(1));
            assert(rest.skip(1) =~= entries_listed(source, next));
        }
    }

    /// Adds the entry at `offset` to `entries`, unless it is there or there is none.
    fn add_entry(&self, offset: usize, entries: &mut Vec<Entry>)
        ensures
            old(entries)@.is_prefix_of(final(entries)@),
            forall|i: int| #![trigger final(entries)@[i]]
                old(entries)@.len() <= i < final(entries)@.len() ==> entry_read(
                    unit_source(*self),
                    0,
                    final(entries)@[i].offset,
                    final(entries)@[i],
                ),
            gimli_entry(unit_source(*self), offset) is Some ==> has_entry(
                final(entries)@,
                offset,
            ),
    {
        let mut i: usize = 0;
        while i < entries.len()
            invariant
                i <= entries.len(),
                entries@ == old(entries)@,
            decreases entries.len() - i,
        {
            if entries[i].offset == offset {
                assert(entries@[i as int].offset == offset);
                return;
            }
            i = i + 1;
        }
        match self.read_entry(0, offset) {
            Some(entry) => {
                entries.push(entry);
                assert(entries@[entries@.len() - 1].offset == offset);
            },
            None => {},
        }
    }

    /// Adds the entries that `entries` refer to, and those that they refer to, and so on.
    fn read_references(&self, entries: Vec<Entry>) -> (r: Vec<Entry>)
        ensures
            entries@.is_prefix_of(r@),
            forall|i: int| #![trigger r@[i]]
                entries@.len() <= i < r@.len() ==> entry_read(
                    unit_source(*self),
                    0,
                    r@[i].offset,
                    r@[i],
                ),
            forall|i: int| #![trigger r@[i]]
                0 <= i < r@.len() ==> references_read(unit_source(*self), r@[i], r@),
    {
        let ghost source = unit_source(*self);
        let mut all = entries;
        let mut i: usize = 0;
        while i < all.len()
            invariant
                source == unit_source(*self),
                i <= all.len(),
                entries@.is_prefix_of(all@),
                forall|k: int| #![trigger all@[k]]
                    entries@.len() <= k < all@.len() ==> entry_read(
                        source,
                        0,
                        all@[k].offset,
                        all@[k],
                    ),
                forall|k: int| #![trigger all@[k]]
                    0 <= k < i ==> references_read(source, all@[k], all@),
            decreases usize::MAX - i,
        {
            let offsets = referenced(&all[i]);
            let ghost entry = all@[i as int];
            let mut j: usize = 0;
            while j < offsets.len()
                invariant
                    source == unit_source(*self),
                    i < all.len(),
                    j <= offsets.len(),
                    entry == all@[i as int],
                    entries@.is_prefix_of(all@),
                    forall|k: int| #![trigger all@[k]]
                        entries@.len() <= k < all@.len() ==> entry_read(
                            source,
                            0,
                            all@[k].offset,
                            all@[k],
                        ),
                    forall|k: int| #![trigger all@[k]]
                        0 <= k < i ==> references_read(source, all@[k], all@),
                    forall|k: int| #![trigger offsets@[k]]
                        0 <= k < j && gimli_entry(source, offsets@[k]) is Some ==> has_entry(
                            all@,
                            offsets@[k],
                        ),
                decreases offsets.len() - j,
            {
                let ghost before = all@;
                self.add_entry(offsets[j], &mut all);
                proof {
                    lemma_entries_stay(source, before, all@);
                    assert(before.len() > i && all@[i as int] == before[i as int]);
                    assert forall|k: int| #![trigger all@[k]]
                        entries@.len() <= k < all@.len() implies entry_read(
                        source,
                        0,
                        all@[k].offset,
                        all@[k],
                    ) by {
                        if k < before.len() {
                            assert(all@[k] == before[k]);
                        }
                    }
                    assert forall|k: int| #![trigger all@[k]] 0 <= k < i implies references_read(
                        source,
                        all@[k],
                        all@,
                    ) by {
                        assert(all@[k] == before[k]);
                    }
                    assert(entries@.is_prefix_of(all@)) by {
                        assert forall|k: int| 0 <= k < entries@.len() implies entries@[k]
                            == all@[k] by {
                            assert(before[k] == all@[k]);
                        }
                        assert(entries@ =~= all@.subrange(0, entries@.len() as int));
                    }
                }
                j = j + 1;
            }
            assert(references_read(source, entry, all@)) by {
                assert forall|offset: usize| #[trigger]
                    refers_to(entry, offset) && gimli_entry(
                        source,
                        offset,
                    ) is Some implies has_entry(
                    all@,
                    offset,
                ) by {
                    assert(offsets@.contains(offset));
                    let k = choose|k: int| 0 <= k < offsets@.len() && offsets@[k] == offset;
                    assert(offsets@[k] == offset);
                }
            }
            i = i + 1;
        }
        all
    }

    /// Whether gimli can find the directory and the name of the source file with the number
    /// `index`.
    fn check_file(&self, index: u64) -> (r: bool)
        ensures
            r == file_fits(unit_source(*self), index),
    {
        if index > usize::MAX as u64 {
            return false;
        }
        match self.file_directory(index) {
            Some(directory) => if directory > usize::MAX as u64 {
                return false;
            },
            None => {},
        }
        match self.file_texts(index) {
            Some((directory, path_name)) => self.check(directory) && self.check(path_name),
            None => true,
        }
    }

    /// Adds the source file with the number `index` to `files`, unless it is there or cannot be
    /// found.
    fn add_file(&self, index: u64, files: &mut Vec<SourceFile>)
        requires
            files_right(unit_source(*self), old(files)@),
        ensures
            files_right(unit_source(*self), final(files)@),
            old(files)@.is_prefix_of(final(files)@),
            file_given(unit_source(*self), index) is Some ==> has_file(final(files)@, index),
    {
        let mut i: usize = 0;
        while i < files.len()
            invariant
                i <= files.len(),
                files@ == old(files)@,
                files_right(unit_source(*self), files@),
            decreases files.len() - i,
        {
            if files[i].index == index {
                assert(files@[i as int].index == index);
                return;
            }
            i = i + 1;
        }
        let found = if self.check_file(index) {
            self.file(index)
        } else {
            None
        };
        match found {
            Some((directory, file)) => {
                files.push(SourceFile { index, directory, file });
                assert(files@[files@.len() - 1].index == index);
            },
            None => {},
        }
    }

    /// The source files that the attributes of `entries` refer to.
    fn read_files(&self, entries: &Vec<Entry>) -> (r: Vec<SourceFile>)
        ensures
            forall|i: int, j: int| #![trigger entries@[i].attributes@[j]]
                0 <= i < entries@.len() && 0 <= j < entries@[i].attributes@.len() ==> file_read(
                    unit_source(*self),
                    entries@[i].attributes@[j].value,
                    r@,
                ),
    {
        let ghost source = unit_source(*self);
        let mut files: Vec<SourceFile> = Vec::new();
        let mut i: usize = 0;
        while i < entries.len()
            invariant
                i <= entries.len(),
                source == unit_source(*self),
                files_right(source, files@),
                forall|k: int, l: int| #![trigger entries@[k].attributes@[l]]
                    0 <= k < i && 0 <= l < entries@[k].attributes@.len() ==> file_found(
                        source,
                        entries@[k].attributes@[l].value,
                        files@,
                    ),
            decreases entries.len() - i,
        {
            let attributes = &entries[i].attributes;
            let mut j: usize = 0;
            while j < attributes.len()
                invariant
                    i < entries.len(),
                    j <= attributes.len(),
                    attributes@ == entries@[i as int].attributes@,
                    source == unit_source(*self),
                    files_right(source, files@),
                    forall|k: int, l: int| #![trigger entries@[k].attributes@[l]]
                        0 <= k < i && 0 <= l < entries@[k].attributes@.len() ==> file_found(
                            source,
                            entries@[k].attributes@[l].value,
                            files@,
                        ),
                    forall|l: int| #![trigger entries@[i as int].attributes@[l]]
                        0 <= l < j ==> file_found(
                            source,
                            entries@[i as int].attributes@[l].value,
                            files@,
                        ),
                decreases attributes.len() - j,
            {
                match attributes[j].value {
                    AttributeValue::FileIndex(index) => {
                        let ghost before = files@;
                        self.add_file(index, &mut files);
                        assert forall|value: AttributeValue|
                            #[trigger] file_found(source, value, before) implies file_found(
                            source,
                            value,
                            files@,
                        ) by {
                            lemma_file_stays(source, value, before, files@);
                        }
                    },
                    _ => {},
                }
                j = j + 1;
            }
            i = i + 1;
        }
        assert forall|k: int, l: int| #![trigger entries@[k].attributes@[l]]
            0 <= k < entries@.len() && 0 <= l < entries@[k].attributes@.len() implies file_read(
            source,
            entries@[k].attributes@[l].value,
            files@,
        ) by {
            if let AttributeValue::FileIndex(index) = entries@[k].attributes@[l].value {
                lemma_file_named(source, files@, index);
            }
        }
        files
    }
}

/// The offsets of the entries that `entry` refers to.
fn referenced(entry: &Entry) -> (r: Vec<usize>)
    ensures
        forall|offset: usize| #[trigger] refers_to(*entry, offset) ==> r@.contains(offset),
{
    let mut offsets: Vec<usize> = Vec::new();
    let mut i: usize = 0;
    while i < entry.children.len()
        invariant
            i == offsets@.len() <= entry.children@.len(),
            offsets@ =~= entry.children@.take(i as int),
        decreases entry.children.len() - i,
    {
        offsets.push(entry.children[i]);
        i = i + 1;
    }
    assert(offsets@ =~= entry.children@);
    let mut j: usize = 0;
    while j < entry.attributes.len()
        invariant
            j <= entry.attributes@.len(),
            entry.children@.is_prefix_of(offsets@),
            forall|k: int| #![trigger entry.attributes@[k]]
                0 <= k < j ==> match entry.attributes@[k].value {
                    AttributeValue::UnitRef(offset) => offsets@.contains(offset),
                    _ => true,
                },
        decreases entry.attributes.len() - j,
    {
        let ghost before = offsets@;
        match entry.attributes[j].value {
            AttributeValue::UnitRef(offset) => {
                offsets.push(offset);
                assert(offsets@[offsets@.len() - 1] == offset);
            },
            _ => {},
        }
        assert forall|offset: usize| before.contains(offset) implies offsets@.contains(offset) by {
            let k = choose|k: int| 0 <= k < before.len() && before[k] == offset;
            assert(offsets@[k] == offset);
        }
        j = j + 1;
    }
    assert forall|offset: usize| #[trigger] refers_to(*entry, offset) implies offsets@.contains(
        offset,
    ) by {
        if entry.children@.contains(offset) {
            let k = choose|k: int| 0 <= k < entry.children@.len() && entry.children@[k] == offset;
            assert(offsets@[k] == offset);
        }
    }
    offsets
}

/// An entry that was found stays so when others are added.
proof fn lemma_entries_stay(source: UnitSource, before: Seq<Entry>, after: Seq<Entry>)
    requires
        before.is_prefix_of(after),
    ensures
        forall|offset: usize| has_entry(before, offset) ==> #[trigger] has_entry(after, offset),
        forall|entry: Entry|
            references_read(source, entry, before) ==> #[trigger] references_read(
                source,
                entry,
                after,
            ),
{
    assert forall|offset: usize| has_entry(before, offset) implies #[trigger] has_entry(
        after,
        offset,
    ) by {
        let i = choose|i: int| 0 <= i < before.len() && (#[trigger] before[i]).offset == offset;
        assert(after[i].offset == offset);
    }
}

/// A reference is resolved where there is an entry, and only there.
pub proof fn law_references_resolved(source: UnitSource, unit: UnitInfo, node: int, offset: usize)
    requires
        unit_read(source, unit),
        0 <= node < unit.entries@.len(),
        refers_to(unit.entries@[node], offset),
    ensures
        unit.entry_at(offset) is Some <==> gimli_entry(source, offset) is Some,
        unit.entry_at(offset) matches Some(found) ==> 0 <= found < unit.entries@.len()
            && unit.entries@[found].offset == offset,
{
    lemma_entry_from(unit.entries@, offset, 0);
    assert(references_read(source, unit.entries@[node], unit.entries@));
    if let Some(found) = unit.entry_at(offset) {
        if found < unit.walked {
            let walked = unit.entries@.take(unit.walked as int);
            assert(walked[found] == unit.entries@[found]);
        }
    }
}

/// An entry is found by its offset where there is one.
proof fn lemma_entry_from(entries: Seq<Entry>, offset: usize, from: int)
    requires
        0 <= from,
    ensures
        entry_from(entries, offset, from) matches Some(found) ==> from <= found < entries.len()
            && entries[found].offset == offset,
        entry_from(entries, offset, from) is None ==> forall|i: int|
            from <= i < entries.len() ==> (#[trigger] entries[i]).offset != offset,
    decreases entries.len() - from,
{
    if from < entries.len() {
        lemma_entry_from(entries, offset, from + 1);
    }
}

/// The view of an offset of a child that may be missing.
pub open spec fn child_view(child: Result<Option<usize>, String>) -> Result<
    Option<usize>,
    Seq<char>,
> {
    match child {
        Ok(child) => Ok(child),
        Err(text) => Err(text@),
    }
}

/// Whether all of `files` are as their numbers say.
spec fn files_right(source: UnitSource, files: Seq<SourceFile>) -> bool {
    forall|i: int| #![trigger files[i]]
        0 <= i < files.len() ==> file_given(source, files[i].index) == Some(
            (files[i].directory@, files[i].file@),
        )
}

/// Whether one of `files` has the number `index`.
spec fn has_file(files: Seq<SourceFile>, index: u64) -> bool {
    exists|i: int| 0 <= i < files.len() && (#[trigger] files[i]).index == index
}

/// Whether `files` has the source file that `value` refers to, if it refers to one that there is.
spec fn file_found(source: UnitSource, value: AttributeValue, files: Seq<SourceFile>) -> bool {
    value matches AttributeValue::FileIndex(index) ==> file_given(source, index) is Some
        ==> has_file(files, index)
}

/// A source file that was found stays so when others are added.
proof fn lemma_file_stays(
    source: UnitSource,
    value: AttributeValue,
    before: Seq<SourceFile>,
    after: Seq<SourceFile>,
)
    requires
        file_found(source, value, before),
        before.is_prefix_of(after),
    ensures
        file_found(source, value, after),
{
    if let AttributeValue::FileIndex(index) = value {
        if has_file(before, index) {
            let i = choose|i: int|
                0 <= i < before.len() && (#[trigger] before[i]).index == index;
            assert(after[i].index == index);
        }
    }
}

/// A source file is found by its number.
proof fn lemma_file_named(source: UnitSource, files: Seq<SourceFile>, index: u64)
    requires
        files_right(source, files),
        file_given(source, index) is Some ==> has_file(files, index),
    ensures
        file_named(files, index) == file_given(source, index),
    decreases files.len(),
{
    if files.len() > 0 {
        assert(file_given(source, files[0].index) == Some((files[0].directory@, files[0].file@)));
        if files[0].index != index {
            let rest = files.drop_first();
            assert forall|i: int| #![trigger rest[i]] 0 <= i < rest.len() implies file_given(
                source,
                rest[i].index,
            ) == Some((rest[i].directory@, rest[i].file@)) by {
                assert(rest[i] == files[i + 1]);
            }
            if has_file(files, index) {
                let i = choose|i: int|
                    0 <= i < files.len() && (#[trigger] files[i]).index == index;
                assert(rest[i - 1].index == index);
            }
            lemma_file_named(source, rest, index);
        }
    } else if has_file(files, index) {
        let i = choose|i: int| 0 <= i < files.len() && (#[trigger] files[i]).index == index;
    }
}

/// Reads the debugging information of the unit at `offset` from the sections of a program.
///
/// A unit is refused where an index that its first entry gives for its name, its directory or its
/// first address is too large for a position.
pub fn read_unit(sections: &Vec<Section>, offset: usize) -> (r: Result<UnitInfo, DebugError>)
    ensures
        ({
            let source = UnitSource { sections: section_views(sections@), offset };
            if !root_fits(source) {
                r matches Err(error) && error@ == DebugErrorView::Other("Index out of range"@)
            } else {
                match gimli_unit_error(source) {
                    Some(text) => r matches Err(error) && error@ == DebugErrorView::Dwarf(text),
                    None => r matches Ok(unit) && unit_read(source, unit),
                }
            }
        }),
{
    let missing: Vec<u8> = Vec::new();
    let lists = match find_section(sections, ".debug_rnglists") {
        Some(lists) => lists,
        None => &missing,
    };
    assert(lists@ =~= lists_of(sections@));
    let sections = load(sections, lists);
    if !sections.check_root(offset) {
        return Err(DebugError::Other(String::from_str("Index out of range")));
    }
    let unit = match sections.open_unit(offset) {
        Ok(unit) => unit,
        Err(text) => {
            return Err(DebugError::Dwarf(text));
        },
    };
    let layout = unit.layout();
    let walk = unit.read_entries();
    let walked: usize = walk.len();
    let entries = unit.read_references(walk);
    assert(entries@.take(walked as int) =~= walk@);
    let files = unit.read_files(&entries);
    Ok(
        UnitInfo {
            header_offset: layout.header_offset,
            encoding: layout.encoding,
            first_offset: layout.first_offset,
            end_offset: layout.end_offset,
            entries,
            walked,
            files,
        },
    )
}

} // verus!
