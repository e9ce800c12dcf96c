//! What a unit that was read holds of the sections of a program.
use vstd::prelude::*;

#[allow(unused_imports)]
use crate::dwarf::{
    AttributeValue, LocationList, UnitInfo, DW_AT_HIGH_PC, DW_AT_LOW_PC, DW_AT_RANGES,
    DW_TAG_INLINED_SUBROUTINE, DW_TAG_SUBPROGRAM,
};
#[allow(unused_imports)]
use crate::reader::{
    attribute_read, children_listed, code_steps, entries_listed, entry_read, gimli_attribute_names,
    gimli_attributes_error, gimli_debug, gimli_die_ranges, gimli_entry, gimli_first_child,
    gimli_first_entry, gimli_index, gimli_locations, gimli_locations_error, gimli_next_entry,
    gimli_next_sibling, gimli_ranges, gimli_raw_locations, gimli_raw_ranges, gimli_text,
    gimli_udata, gimli_value, index_fits, last_index, list_entry_fits, location_views,
    section_named, steps_from, unit_read, word_size, Index, ListEntry, RawValue, Section,
    UnitSource,
};
#[allow(unused_imports)]
use crate::variable::text_view;

verus! {

/// The first of several sections with a name is the one that has it.
pub proof fn law_section(sections: Seq<Section>, name: Seq<char>, at: int)
    requires
        0 <= at <= sections.len(),
        forall|i: int| 0 <= i < at ==> (#[trigger] sections[i]).name@ != name,
    ensures
        at < sections.len() && sections[at].name@ == name ==> section_named(sections, name) == Some(
            sections[at].data@,
        ),
        at == sections.len() ==> section_named(sections, name) is None,
    decreases at,
{
    if at > 0 {
        assert(sections[0].name@ != name);
        let rest = sections.drop_first();
        assert forall|i: int| 0 <= i < at - 1 implies (#[trigger] rest[i]).name@ != name by {
            assert(rest[i] == sections[i + 1]);
        }
        law_section(rest, name, at - 1);
    }
}

/// Of several attributes with a name, the last one counts.
pub proof fn law_last_index(attributes: Seq<(u16, Index)>, name: u16, at: int)
    requires
        -1 <= at < attributes.len(),
        forall|i: int| at < i < attributes.len() ==> (#[trigger] attributes[i]).0 != name,
    ensures
        at >= 0 && attributes[at].0 == name ==> last_index(attributes, name) == attributes[at].1,
        at == -1 ==> last_index(attributes, name) == Index::Missing,
    decreases attributes.len(),
{
    if attributes.len() > 0 && attributes.len() - 1 > at {
        assert(attributes[attributes.len() - 1].0 != name);
        law_last_index(attributes.drop_last(), name, at);
    }
}

/// gimli can find what an index stands for where the position does not exceed 64 bits.
pub proof fn law_index_fits(index: usize, address_size: u8, is_64_bit: bool)
    ensures
        index_fits(Index::Missing, address_size, word_size(is_64_bit)),
        index_fits(Index::Address(index), address_size, word_size(is_64_bit)) <==> index
            * address_size <= u64::MAX,
        index_fits(Index::Text(index), address_size, word_size(is_64_bit)) <==> index * (
        if is_64_bit {
            8int
        } else {
            4int
        }) <= u64::MAX,
        index_fits(Index::RangeList(index), address_size, word_size(is_64_bit))
            == index_fits(Index::Text(index), address_size, word_size(is_64_bit)),
{
}

/// Whether `children` are the offsets from `next` on of entries that follow each other as siblings,
/// and `error` is the error behind them.
pub open spec fn follow_as_siblings(
    source: UnitSource,
    next: Result<Option<usize>, Seq<char>>,
    previous: usize,
    children: Seq<usize>,
    error: Option<Seq<char>>,
) -> bool {
    &&& match next {
        Ok(Some(child)) => previous < child ==> children.len() > 0 && children[0] == child,
        Ok(None) => children.len() == 0 && error is None,
        Err(text) => children.len() == 0 && error == Some(text),
    }
    &&& children.len() > 0 ==> next == Ok::<_, Seq<char>>(Some(children[0])) && previous
        < children[0]
    &&& forall|i: int|
        #![trigger children[i]]
        0 <= i < children.len() ==> match gimli_next_sibling(source, children[i]) {
            Ok(Some(child)) => children[i] < child ==> i + 1 < children.len() && children[i + 1]
                == child,
            Ok(None) => i + 1 == children.len() && error is None,
            Err(text) => i + 1 == children.len() && error == Some(text),
        }
    &&& forall|i: int|
        #![trigger children[i]]
        0 < i < children.len() ==> children[i - 1] < children[i]
}

/// Siblings are listed one after the other.
proof fn lemma_children_listed(
    source: UnitSource,
    next: Result<Option<usize>, Seq<char>>,
    previous: usize,
)
    ensures
        ({
            let (children, error) = children_listed(source, next, previous);
            follow_as_siblings(source, next, previous, children, error)
        }),
    decreases usize::MAX - previous,
{
    if let Ok(Some(child)) = next {
        if previous < child {
            let behind = gimli_next_sibling(source, child);
            lemma_children_listed(source, behind, child);
            let (rest, error) = children_listed(source, behind, child);
            let children = seq![child] + rest;
            assert forall|i: int|
                #![trigger children[i]]
                0 <= i < children.len() implies match gimli_next_sibling(source, children[i]) {
                Ok(Some(sibling)) => children[i] < sibling ==> i + 1 < children.len() && children[i
                    + 1] == sibling,
                Ok(None) => i + 1 == children.len() && error is None,
                Err(text) => i + 1 == children.len() && error == Some(text),
            } by {
                if i > 0 {
                    assert(children[i] == rest[i - 1]);
                    if i + 1 < children.len() {
                        assert(children[i + 1] == rest[i]);
                    }
                } else if rest.len() > 0 {
                    assert(children[1] == rest[0]);
                }
            }
            assert forall|i: int|
                #![trigger children[i]]
                0 < i < children.len() implies children[i - 1] < children[i] by {
                assert(children[i] == rest[i - 1]);
                if i > 1 {
                    assert(children[i - 1] == rest[i - 2]);
                }
            }
        }
    }
}

/// The children of an entry are its first child and all siblings that follow it, in their order, up
/// to the last one or an error; none is left out, and nothing else is a child.
pub proof fn law_children_read(source: UnitSource, unit: UnitInfo, node: int)
    requires
        unit_read(source, unit),
        0 <= node < unit.entries@.len(),
    ensures
        follow_as_siblings(
            source,
            gimli_first_child(source, unit.entries@[node].offset),
            unit.entries@[node].offset,
            unit.entries@[node].children@,
            text_view(unit.entries@[node].children_error),
        ),
{
    let offset = unit.entries@[node].offset;
    lemma_entry_read(source, unit, node);
    lemma_children_listed(source, gimli_first_child(source, offset), offset);
}

/// Each entry of a unit was read.
proof fn lemma_entry_read(source: UnitSource, unit: UnitInfo, node: int)
    requires
        unit_read(source, unit),
        0 <= node < unit.entries@.len(),
    ensures
        exists|depth: i64| #[trigger]
            entry_read(source, depth, unit.entries@[node].offset, unit.entries@[node]),
{
    let walked = unit.entries@.take(unit.walked as int);
    if node < unit.walked {
        assert(walked[node] == unit.entries@[node]);
        let listed = entries_listed(source, gimli_first_entry(source));
        assert(entry_read(source, listed[node].0, listed[node].1, walked[node]));
        assert(entry_read(
            source,
            listed[node].0,
            unit.entries@[node].offset,
            unit.entries@[node],
        ));
    } else {
        assert(entry_read(source, 0, unit.entries@[node].offset, unit.entries@[node]));
    }
}

/// The first entry is listed first.
proof fn lemma_first_listed(source: UnitSource, next: Option<(i64, usize)>, first: (i64, usize))
    requires
        next == Some(first),
    ensures
        entries_listed(source, next).len() > 0,
        entries_listed(source, next)[0] == first,
{
}

/// Entries are listed one after the other.
proof fn lemma_entries_listed(source: UnitSource, next: Option<(i64, usize)>, at: int)
    requires
        0 <= at < entries_listed(source, next).len(),
    ensures
        ({
            let listed = entries_listed(source, next);
            &&& next == Some(listed[0])
            &&& match gimli_next_entry(source, listed[at].1) {
                Some((depth, offset)) => if listed[at].1 < offset {
                    at + 1 < listed.len() && listed[at + 1] == (depth, offset)
                } else {
                    at + 1 == listed.len()
                },
                None => at + 1 == listed.len(),
            }
        }),
    decreases at,
{
    if let Some((depth, offset)) = next {
        let behind = gimli_next_entry(source, offset);
        let listed = entries_listed(source, next);
        assert(listed[0] == (depth, offset));
        if behind matches Some((_, further)) && further <= offset {
        } else {
            let rest = entries_listed(source, behind);
            assert(listed =~= seq![(depth, offset)] + rest);
            if at > 0 {
                lemma_entries_listed(source, behind, at - 1);
                assert(listed[at] == rest[at - 1]);
                if at + 1 < listed.len() {
                    assert(listed[at + 1] == rest[at]);
                }
            } else if let Some(first) = behind {
                lemma_first_listed(source, behind, first);
                assert(listed[1] == rest[0]);
            }
        }
    }
}

/// The entries of a unit are walked from the first one on, each followed by the next one, with how
/// much deeper it stands; none is left out.
pub proof fn law_entries_read(source: UnitSource, unit: UnitInfo, node: int)
    requires
        unit_read(source, unit),
        0 <= node < unit.walked,
    ensures
        gimli_first_entry(source) == Some((unit.entries@[0].depth as i64, unit.entries@[0].offset)),
        match gimli_next_entry(source, unit.entries@[node].offset) {
            Some((depth, offset)) => if unit.entries@[node].offset < offset {
                node + 1 < unit.walked && unit.entries@[node + 1].offset == offset
                    && unit.entries@[node + 1].depth == depth
            } else {
                node + 1 == unit.walked
            },
            None => node + 1 == unit.walked,
        },
{
    let listed = entries_listed(source, gimli_first_entry(source));
    let walked = unit.entries@.take(unit.walked as int);
    lemma_entries_listed(source, gimli_first_entry(source), node);
    assert(walked[0] == unit.entries@[0]);
    assert(walked[node] == unit.entries@[node]);
    if node + 1 < unit.walked {
        assert(walked[node + 1] == unit.entries@[node + 1]);
    }
}

/// A unit with a first entry has entries, and one without has none.
pub proof fn law_first_entry_read(source: UnitSource, unit: UnitInfo)
    requires
        unit_read(source, unit),
    ensures
        unit.walked > 0 <==> gimli_first_entry(source) is Some,
{
    assert(unit.entries@.take(unit.walked as int).len() == unit.walked);
}

/// An entry has the tag and the attributes that stand at its offset, in their order, each with its
/// name, its number and its value.
pub proof fn law_attributes_read(source: UnitSource, unit: UnitInfo, node: int, at: int)
    requires
        unit_read(source, unit),
        0 <= node < unit.entries@.len(),
    ensures
        ({
            let entry = unit.entries@[node];
            let names = gimli_attribute_names(source, entry.offset);
            &&& gimli_entry(source, entry.offset) == Some((entry.tag, entry.has_children))
            &&& entry.attributes@.len() == names.len()
            &&& text_view(entry.attributes_error) == gimli_attributes_error(source, entry.offset)
            &&& 0 <= at < names.len() ==> {
                let attribute = entry.attributes@[at];
                &&& attribute.name == names[at]
                &&& attribute.udata == gimli_udata(source, entry.offset, at as usize)
                &&& match gimli_value(source, entry.offset, at as usize) {
                    RawValue::Addr(n) => attribute.value == AttributeValue::Addr(n),
                    RawValue::Udata(n) => attribute.value == AttributeValue::Udata(n),
                    RawValue::Data1(n) => attribute.value == AttributeValue::Data1(n),
                    RawValue::Flag(flag) => attribute.value == AttributeValue::Flag(flag),
                    RawValue::FileIndex(n) => attribute.value == AttributeValue::FileIndex(n),
                    RawValue::UnitRef(n) => attribute.value == AttributeValue::UnitRef(n),
                    RawValue::Exprloc(bytes) => attribute.value matches AttributeValue::Exprloc(
                        expression,
                    ) && expression@ == bytes,
                    _ => true,
                }
                &&& gimli_index(source, entry.offset, at as usize) == Index::Missing
                    ==> attribute.text@ == (match gimli_text(source, entry.offset, at as usize) {
                    Some(text) => text,
                    None => "Unimplemented: Evaluate name from "@ + gimli_debug(
                        source,
                        entry.offset,
                        at as usize,
                    ),
                })
            }
        }),
{
    let entry = unit.entries@[node];
    lemma_entry_read(source, unit, node);
    if 0 <= at < entry.attributes@.len() {
        assert(attribute_read(source, entry.offset, at, entry.attributes@[at]));
    }
}

/// gimli goes through the whole of a list on which it can do its arithmetic, and otherwise up to
/// the first entry on which it cannot.
pub proof fn law_list_steps(
    source: UnitSource,
    entries: Seq<ListEntry>,
    from: int,
    taken: nat,
    at: int,
)
    requires
        0 <= from <= at <= entries.len(),
        forall|i: int|
            from <= i < at ==> list_entry_fits(source, #[trigger] entries[i])
                && !entries[i].is_base(),
    ensures
        at == entries.len() ==> steps_from(source, entries, from, taken) == usize::MAX,
        at < entries.len() && !list_entry_fits(source, entries[at]) ==> steps_from(
            source,
            entries,
            from,
            taken,
        ) == taken + (at - from),
    decreases at - from,
{
    if from < at {
        assert(list_entry_fits(source, entries[from]) && !entries[from].is_base());
        law_list_steps(source, entries, from + 1, taken + 1, at);
    }
}

/// Whether gimli can do its arithmetic on all of `entries`, and none only says what others are
/// relative to.
pub open spec fn all_fit(source: UnitSource, entries: Seq<ListEntry>) -> bool {
    forall|i: int|
        0 <= i < entries.len() ==> list_entry_fits(source, #[trigger] entries[i])
            && !entries[i].is_base()
}

/// A list on which gimli can do its arithmetic is read as a whole: the ranges of one of ranges, and
/// the ranges and expressions of one of places, in their order.
pub proof fn law_lists_read(
    source: UnitSource,
    unit: UnitInfo,
    node: int,
    at: int,
    list: usize,
    i: int,
)
    requires
        unit_read(source, unit),
        0 <= node < unit.entries@.len(),
        0 <= at < unit.entries@[node].attributes@.len(),
    ensures
        ({
            let raw = gimli_value(source, unit.entries@[node].offset, at as usize);
            let value = unit.entries@[node].attributes@[at].value;
            &&& raw == RawValue::<Seq<u8>>::RangeListsRef(list) && all_fit(
                source,
                gimli_raw_ranges(source, list),
            ) ==> (value matches AttributeValue::RangeListsRef(ranges) && ranges@ == gimli_ranges(
                source,
                list,
                usize::MAX,
            ))
            &&& raw == RawValue::<Seq<u8>>::LocationListsRef(list) && all_fit(
                source,
                gimli_raw_locations(source, list),
            ) ==> match gimli_locations(source, list, usize::MAX) {
                Ok(all) => value matches AttributeValue::LocationListsRef(
                    LocationList::Entries { entries, error },
                ) && entries@.len() == all.len() && (0 <= i < all.len() ==> entries@[i].range
                    == all[i].0 && entries@[i].expression@ == all[i].1) && text_view(error)
                    == gimli_locations_error(source, list, usize::MAX),
                Err(text) => value matches AttributeValue::LocationListsRef(
                    LocationList::Unreadable(error),
                ) && error@ == text,
            }
        }),
{
    let entry = unit.entries@[node];
    lemma_entry_read(source, unit, node);
    assert(attribute_read(source, entry.offset, at, entry.attributes@[at]));
    let ranges = gimli_raw_ranges(source, list);
    if all_fit(source, ranges) {
        law_list_steps(source, ranges, 0, 0, ranges.len() as int);
    }
    let locations = gimli_raw_locations(source, list);
    if all_fit(source, locations) {
        law_list_steps(source, locations, 0, 0, locations.len() as int);
    }
    if let AttributeValue::LocationListsRef(LocationList::Entries { entries, .. }) =
        entry.attributes@[at].value {
        if 0 <= i < entries@.len() {
            assert(location_views(entries@)[i] == (entries@[i].range, entries@[i].expression@));
        }
    }
}

/// Whether the attribute `name` says where code begins, ends or lies.
pub open spec fn says_code(name: u16) -> bool {
    name == DW_AT_LOW_PC || name == DW_AT_HIGH_PC || name == DW_AT_RANGES
}

/// What bounds the steps through the code of an entry is its first address and its length.
proof fn lemma_code_steps(
    source: UnitSource,
    offset: usize,
    from: int,
    low: Option<u64>,
    length: Option<u64>,
    low_at: int,
    first: u64,
    length_at: int,
    size: u64,
)
    requires
        0 <= from,
        gimli_attributes_error(source, offset) is None,
        0 <= low_at < gimli_attribute_names(source, offset).len() <= usize::MAX,
        0 <= length_at < gimli_attribute_names(source, offset).len(),
        gimli_attribute_names(source, offset)[low_at] == DW_AT_LOW_PC,
        gimli_attribute_names(source, offset)[length_at] == DW_AT_HIGH_PC,
        gimli_value(source, offset, low_at as usize) == RawValue::<Seq<u8>>::Addr(first),
        gimli_value(source, offset, length_at as usize) == RawValue::<Seq<u8>>::Udata(size),
        forall|i: int|
            0 <= i < gimli_attribute_names(source, offset).len() && i != low_at && i != length_at
                ==> !says_code(#[trigger] gimli_attribute_names(source, offset)[i]),
        low_at < from ==> low == Some(first),
        length_at < from ==> length == Some(size),
    ensures
        code_steps(source, offset, from, low, length) == (if first + size <= u64::MAX {
            Some(usize::MAX as nat)
        } else {
            None::<nat>
        }),
    decreases gimli_attribute_names(source, offset).len() - from,
{
    let names = gimli_attribute_names(source, offset);
    if from < names.len() {
        let (low, length) = if from == low_at {
            (Some(first), length)
        } else if from == length_at {
            (low, Some(size))
        } else {
            assert(!says_code(names[from]));
            (low, length)
        };
        lemma_code_steps(
            source,
            offset,
            from + 1,
            low,
            length,
            low_at,
            first,
            length_at,
            size,
        );
    }
}

/// A function whose code has a first address and a length has the addresses that gimli gives for
/// it, all of them, unless the code would reach beyond the last address: it has none then. Entries
/// that are no functions have none either.
pub proof fn law_code_read(
    source: UnitSource,
    unit: UnitInfo,
    node: int,
    low_at: int,
    first: u64,
    length_at: int,
    size: u64,
)
    requires
        unit_read(source, unit),
        0 <= node < unit.entries@.len(),
    ensures
        ({
            let entry = unit.entries@[node];
            let names = gimli_attribute_names(source, entry.offset);
            let is_function = entry.tag == DW_TAG_SUBPROGRAM || entry.tag
                == DW_TAG_INLINED_SUBROUTINE;
            &&& !is_function ==> (entry.ranges matches Ok(ranges) && ranges@.len() == 0)
            &&& is_function && gimli_attributes_error(source, entry.offset) is None && 0 <= low_at
                < names.len() && 0 <= length_at < names.len() && names[low_at] == DW_AT_LOW_PC
                && names[length_at] == DW_AT_HIGH_PC && gimli_value(
                source,
                entry.offset,
                low_at as usize,
            ) == RawValue::<Seq<u8>>::Addr(first) && gimli_value(
                source,
                entry.offset,
                length_at as usize,
            ) == RawValue::<Seq<u8>>::Udata(size) && (forall|i: int|
                0 <= i < names.len() && i != low_at && i != length_at ==> !says_code(
                    #[trigger] names[i],
                )) ==> if first + size > u64::MAX {
                entry.ranges matches Ok(ranges) && ranges@.len() == 0
            } else {
                match gimli_die_ranges(source, entry.offset, usize::MAX) {
                    Ok(all) => entry.ranges matches Ok(ranges) && ranges@ == all,
                    Err(error) => entry.ranges matches Err(text) && text@ == error,
                }
            }
        }),
{
    let entry = unit.entries@[node];
    let offset = entry.offset;
    let names = gimli_attribute_names(source, offset);
    lemma_entry_read(source, unit, node);
    assert(entry.attributes.len() == names.len());
    if gimli_attributes_error(source, offset) is None && 0 <= low_at < names.len() && 0 <= length_at
        < names.len() && names[low_at] == DW_AT_LOW_PC && names[length_at] == DW_AT_HIGH_PC
        && gimli_value(source, offset, low_at as usize) == RawValue::<Seq<u8>>::Addr(first)
        && gimli_value(source, offset, length_at as usize) == RawValue::<Seq<u8>>::Udata(size) && (
    forall|i: int|
        0 <= i < names.len() && i != low_at && i != length_at ==> !says_code(#[trigger] names[i])) {
        lemma_code_steps(source, offset, 0, None, None, low_at, first, length_at, size);
    }
}

} // verus!
