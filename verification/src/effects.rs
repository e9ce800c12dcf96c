//! What single steps make of a variable, in plain terms.
use vstd::prelude::*;

#[allow(unused_imports)]
use crate::attributes::PairOutcome;
#[allow(unused_imports)]
use crate::cache::CacheView;
#[allow(unused_imports)]
use crate::dwarf::{
    file_named, first_named, Attribute, AttributeValue, Encoding, Entry, LocationEntry,
    LocationList, SourceFile, UnitInfo, DW_AT_ABSTRACT_ORIGIN, DW_AT_ADDRESS_CLASS, DW_AT_ALIGNMENT,
    DW_AT_ARTIFICIAL, DW_AT_BYTE_SIZE, DW_AT_CONST_VALUE, DW_AT_CONTAINING_TYPE, DW_AT_COUNT,
    DW_AT_DATA_MEMBER_LOCATION, DW_AT_DECLARATION, DW_AT_DECL_COLUMN, DW_AT_DECL_FILE,
    DW_AT_DECL_LINE, DW_AT_DISCR, DW_AT_DISCR_VALUE, DW_AT_ENCODING, DW_AT_ENUM_CLASS,
    DW_AT_EXTERNAL, DW_AT_FRAME_BASE, DW_AT_HIGH_PC, DW_AT_LINKAGE_NAME, DW_AT_LOCATION,
    DW_AT_LOWER_BOUND, DW_AT_LOW_PC, DW_AT_NAME, DW_AT_RANGES, DW_AT_TYPE, DW_AT_UPPER_BOUND,
    DW_TAG_ARRAY_TYPE, DW_TAG_BASE_TYPE, DW_TAG_ENUMERATION_TYPE, DW_TAG_ENUMERATOR,
    DW_TAG_FORMAL_PARAMETER, DW_TAG_INLINED_SUBROUTINE, DW_TAG_LEXICAL_BLOCK, DW_TAG_MEMBER,
    DW_TAG_NAMESPACE, DW_TAG_POINTER_TYPE, DW_TAG_STRUCTURE_TYPE, DW_TAG_SUBPROGRAM,
    DW_TAG_SUBRANGE_TYPE, DW_TAG_SUBROUTINE_TYPE, DW_TAG_TEMPLATE_TYPE_PARAMETER, DW_TAG_UNION_TYPE,
    DW_TAG_VARIABLE, DW_TAG_VARIANT, DW_TAG_VARIANT_PART,
};
#[allow(unused_imports)]
use crate::error::DebugErrorView;
#[allow(unused_imports)]
use crate::evaluation::evaluated;
#[allow(unused_imports)]
use crate::frame::{lemma_outset, Frame};
#[allow(unused_imports)]
use crate::location::{expression_at, located_by};
#[allow(unused_imports)]
use crate::target::Target;
#[allow(unused_imports)]
use crate::text::decimal;
#[allow(unused_imports)]
use crate::tree::{discriminated, namespace_name, scope_of};
#[allow(unused_imports)]
use crate::types::{indexed, shown_at_once};
#[allow(unused_imports)]
use crate::variable::{
    Variable, VariableLocation, VariableName, VariableNodeType, VariableType, VariableValue,
    VariableView, VariantRole,
};

verus! {

/// Whether the `at`-th of `attributes` is the first with the name `name`.
pub open spec fn is_first(attributes: Seq<Attribute>, name: u16, at: int) -> bool {
    &&& 0 <= at < attributes.len()
    &&& attributes[at].name == name
    &&& forall|i: int| 0 <= i < at ==> (#[trigger] attributes[i]).name != name
}

/// Whether none of `attributes` has the name `name`.
pub open spec fn has_none(attributes: Seq<Attribute>, name: u16) -> bool {
    forall|i: int| 0 <= i < attributes.len() ==> (#[trigger] attributes[i]).name != name
}

/// The first attribute with a name is found.
proof fn lemma_first_named(attributes: Seq<Attribute>, name: u16)
    ensures
        match first_named(attributes, name) {
            Some(attribute) => exists|at: int| #[trigger]
                is_first(attributes, name, at) && attributes[at] == attribute,
            None => has_none(attributes, name),
        },
    decreases attributes.len(),
{
    if attributes.len() > 0 {
        if attributes[0].name == name {
            assert(is_first(attributes, name, 0));
        } else {
            let rest = attributes.drop_first();
            lemma_first_named(rest, name);
            match first_named(rest, name) {
                Some(attribute) => {
                    let at = choose|at: int| #[trigger]
                        is_first(rest, name, at) && rest[at] == attribute;
                    assert(attributes[at + 1] == rest[at]);
                    assert forall|i: int| 0 <= i < at + 1 implies (#[trigger] attributes[i]).name
                        != name by {
                        if i > 0 {
                            assert(rest[i - 1] == attributes[i]);
                        }
                    }
                    assert(is_first(attributes, name, at + 1));
                },
                None => {
                    assert forall|i: int| 0 <= i < attributes.len() implies (
                    #[trigger] attributes[i]).name != name by {
                        if i > 0 {
                            assert(rest[i - 1] == attributes[i]);
                        }
                    }
                },
            }
        }
    }
}

/// The attribute of an entry with a name is the first that has it. That there is none is known only
/// where all attributes can be read.
pub proof fn law_attribute(entry: Entry, name: u16)
    ensures
        match entry.attribute(name) {
            Ok(Some(attribute)) => exists|at: int| #[trigger]
                is_first(entry.attributes@, name, at) && entry.attributes@[at] == attribute,
            Ok(None) => has_none(entry.attributes@, name) && entry.attributes_error is None,
            Err(text) => has_none(entry.attributes@, name) && (
            entry.attributes_error matches Some(error) && error@ == text),
        },
{
    lemma_first_named(entry.attributes@, name);
}

/// The size of what an entry describes is the number that its attribute for it holds, and 0 where
/// it holds none.
pub proof fn law_byte_size(entry: Entry)
    ensures
        match entry.attribute(DW_AT_BYTE_SIZE) {
            Ok(Some(attribute)) => match attribute.value {
                AttributeValue::Udata(size) => entry.size_in_bytes() == size,
                _ => entry.size_in_bytes() == 0,
            },
            _ => entry.size_in_bytes() == 0,
        },
{
}

/// The source file with a number is the first that has it.
pub proof fn law_source_file(files: Seq<SourceFile>, index: u64, at: int)
    requires
        0 <= at <= files.len(),
        forall|i: int| 0 <= i < at ==> (#[trigger] files[i]).index != index,
    ensures
        at < files.len() && files[at].index == index ==> file_named(files, index) == Some(
            (files[at].directory@, files[at].file@),
        ),
        at == files.len() ==> file_named(files, index) is None,
    decreases files.len(),
{
    if at > 0 {
        let rest = files.drop_first();
        assert(files[0].index != index);
        assert forall|i: int| 0 <= i < at - 1 implies (#[trigger] rest[i]).index != index by {
            assert(rest[i] == files[i + 1]);
        }
        law_source_file(rest, index, at - 1);
    }
}

/// A variant whose discriminant is given as a byte has exactly that discriminant, whichever it is,
/// and nothing else of its variable changes.
pub proof fn law_variant_discriminant(variable: VariableView, entry: Entry, discriminant: u8)
    requires
        entry.tag == DW_TAG_VARIANT,
        entry.attribute(DW_AT_DISCR_VALUE) matches Ok(Some(attribute)) && attribute.value
            == AttributeValue::Data1(discriminant),
    ensures
        discriminated(variable, entry) == (Variable {
            role: VariantRole::Variant(discriminant as u64),
            ..variable
        }),
{
}

/// Two variants whose discriminants are given as bytes have the same discriminant only where the
/// bytes are the same.
pub proof fn law_variants_differ(
    variable: VariableView,
    first: Entry,
    second: Entry,
    a: u8,
    b: u8,
)
    requires
        first.tag == DW_TAG_VARIANT,
        second.tag == DW_TAG_VARIANT,
        first.attribute(DW_AT_DISCR_VALUE) matches Ok(Some(attribute)) && attribute.value
            == AttributeValue::Data1(a),
        second.attribute(DW_AT_DISCR_VALUE) matches Ok(Some(attribute)) && attribute.value
            == AttributeValue::Data1(b),
    ensures
        discriminated(variable, first).role == discriminated(variable, second).role <==> a == b,
        discriminated(variable, first).role != VariantRole::Variant(u64::MAX),
{
}

/// The name of a namespace is what it is called, behind the path of the namespace around it if
/// there is one; without a name it is anonymous. A namespace with a name cannot stand in one that
/// is no path.
pub proof fn law_namespace_name(entry: Entry, outer: Seq<char>, other: VariableName<Seq<char>>)
    ensures
        match entry.attribute(DW_AT_NAME) {
            Ok(Some(attribute)) => {
                &&& namespace_name(entry, None) matches Ok(name) && name == VariableName::Namespace(
                    attribute.text@,
                )
                &&& namespace_name(entry, Some(VariableName::Namespace(outer))) matches Ok(name)
                    && name == VariableName::Namespace(outer + "::"@ + attribute.text@)
                &&& !(other is Namespace) ==> namespace_name(entry, Some(other)) is Err
            },
            _ => {
                &&& namespace_name(entry, None) matches Ok(name) && name is AnonymousNamespace
                &&& namespace_name(entry, Some(other)) matches Ok(name)
                    && name is AnonymousNamespace
            },
        },
{
}

/// Whether the two attributes of `entry` for the bounds of its code say that `address` lies between
/// them: the second is an address or a length.
pub open spec fn bounds_hold(entry: Entry, address: u64) -> bool {
    &&& entry.attribute(DW_AT_LOW_PC) matches Ok(Some(first))
    &&& first.value matches AttributeValue::Addr(low)
    &&& entry.attribute(DW_AT_HIGH_PC) matches Ok(Some(last))
    &&& match last.value {
        AttributeValue::Addr(high) => low <= address && address < high,
        AttributeValue::Udata(length) => low <= address && address < low + length,
        _ => false,
    }
}

/// Whether `address` lies in one of the ranges that an attribute of `entry` lists.
pub open spec fn listed_hold(entry: Entry, address: u64) -> bool {
    &&& entry.attribute(DW_AT_RANGES) matches Ok(Some(attribute))
    &&& attribute.value matches AttributeValue::RangeListsRef(ranges)
    &&& exists|i: int|
        0 <= i < ranges@.len() && (#[trigger] ranges@[i]).begin <= address && address
            < ranges@[i].end
}

/// A block is in scope exactly where the program counter lies between the two bounds that it gives,
/// or in one of the ranges that it lists; and where it lies between the bounds, or there is nothing
/// of the kind, the variable is left as it is. A first bound that is no address, or a missing last
/// one, makes an error of it.
pub proof fn law_scope(entry: Entry, variable: VariableView, program_counter: u64)
    ensures
        match scope_of(entry, variable, program_counter) {
            Ok((updated, in_scope)) => {
                &&& in_scope <==> bounds_hold(entry, program_counter) || listed_hold(
                    entry,
                    program_counter,
                )
                &&& bounds_hold(entry, program_counter) ==> updated == variable
                &&& updated == Variable { value: updated.value, ..variable }
                &&& !(entry.attribute(DW_AT_LOW_PC) matches Ok(Some(_))) && !(entry.attribute(
                    DW_AT_RANGES,
                ) matches Ok(Some(_))) ==> updated == variable
                &&& entry.attribute(DW_AT_LOW_PC) matches Ok(Some(first)) ==> (!(
                first.value is Addr) || (entry.attribute(DW_AT_HIGH_PC) matches Ok(None))
                    ==> !updated.valid())
            },
            Err(error) => {
                &&& error is AddressOverflow
                &&& entry.attribute(DW_AT_LOW_PC) matches Ok(Some(first))
                    && first.value matches AttributeValue::Addr(low) && entry.attribute(
                    DW_AT_HIGH_PC,
                ) matches Ok(Some(last)) && last.value matches AttributeValue::Udata(length) && low
                    + length > u64::MAX
            },
        },
{
    if let Ok(Some(attribute)) = entry.attribute(DW_AT_RANGES) {
        if let AttributeValue::RangeListsRef(ranges) = attribute.value {
            assert forall|i: int| 0 <= i < ranges@.len() implies (#[trigger] ranges@[i]).holds(
                program_counter as nat,
            ) == (ranges@[i].begin <= program_counter && program_counter < ranges@[i].end) by {}
        }
    }
}

/// A member at an offset is kept as far behind the place of its parent; where the parent is not in
/// memory, neither is the member.
pub proof fn law_member_place(
    variable: VariableView,
    parent: VariableView,
    attribute: Attribute,
    encoding: Encoding,
    target: Target,
    offset: u64,
)
    requires
        attribute.name == DW_AT_LOCATION || attribute.name == DW_AT_DATA_MEMBER_LOCATION
            || attribute.name == DW_AT_FRAME_BASE,
        attribute.value == AttributeValue::Udata(offset),
    ensures
        ({
            let outcome = located_by(variable, parent, attribute, encoding, target);
            match parent.memory_location {
                VariableLocation::Address(address) => if address + offset <= u64::MAX {
                    outcome.1 is Ok && outcome.0 == Variable {
                        memory_location: VariableLocation::Address((address + offset) as u64),
                        ..variable
                    }
                } else {
                    outcome.1 is Err
                },
                _ => outcome.1 is Ok && outcome.0 == Variable {
                    memory_location: VariableLocation::Unavailable,
                    ..variable
                },
            }
        }),
{
}

/// Where an expression says where a variable is kept, it is evaluated; a failure that nobody else
/// can decide becomes the value of the variable, and its place stays as it is.
pub proof fn law_place_by_expression(
    variable: VariableView,
    parent: VariableView,
    attribute: Attribute,
    expression: Vec<u8>,
    encoding: Encoding,
    target: Target,
)
    requires
        attribute.name == DW_AT_LOCATION || attribute.name == DW_AT_DATA_MEMBER_LOCATION
            || attribute.name == DW_AT_FRAME_BASE,
        attribute.value == AttributeValue::Exprloc(expression),
    ensures
        ({
            let outcome = located_by(variable, parent, attribute, encoding, target);
            let direct = evaluated(variable, expression@, encoding, target);
            &&& direct.1 is Ok ==> outcome == direct
            &&& direct.1 is Err && outcome.1 is Ok ==> outcome.0.value is Error && outcome.0 == (
            Variable { value: outcome.0.value, ..variable })
            &&& outcome.1 is Err ==> outcome == direct
        }),
{
}

/// The expression of the first entry of a list whose range holds an address is found.
pub proof fn law_expression_at(entries: Seq<LocationEntry>, address: nat, from: int, at: int)
    requires
        0 <= from <= at <= entries.len(),
        forall|i: int|
            from <= i < at ==> !((#[trigger] entries[i]).range.begin <= address && address
                < entries[i].range.end),
    ensures
        at < entries.len() && entries[at].range.begin <= address && address < entries[at].range.end
            ==> expression_at(entries, address, from) == Some(entries[at].expression@),
        at == entries.len() ==> expression_at(entries, address, from) is None,
    decreases at - from,
{
    if from < at {
        assert(!(entries[from].range.begin <= address && address < entries[from].range.end));
        law_expression_at(entries, address, from + 1, at);
    }
}

/// Where a list says where a variable is kept, the entry for the program counter counts; without
/// one the variable is out of scope.
pub proof fn law_place_by_list(
    variable: VariableView,
    parent: VariableView,
    attribute: Attribute,
    entries: Vec<LocationEntry>,
    error: Option<String>,
    encoding: Encoding,
    target: Target,
)
    requires
        attribute.name == DW_AT_LOCATION || attribute.name == DW_AT_DATA_MEMBER_LOCATION
            || attribute.name == DW_AT_FRAME_BASE,
        attribute.value == AttributeValue::LocationListsRef(
            LocationList::Entries { entries, error },
        ),
    ensures
        ({
            let outcome = located_by(variable, parent, attribute, encoding, target);
            match target.registers.program_counter {
                None => outcome.1 is Ok && outcome.0.value is Error,
                Some(program_counter) => match expression_at(
                    entries@,
                    program_counter.number(),
                    0,
                ) {
                    Some(expression) => {
                        let direct = evaluated(variable, expression, encoding, target);
                        direct.1 is Ok ==> outcome == direct
                    },
                    None => outcome.1 is Ok && outcome.0.value is Error,
                },
            }
        }),
{
}

/// An attribute that does not say where a variable is kept does not change its place.
pub proof fn law_no_place(
    variable: VariableView,
    parent: VariableView,
    attribute: Attribute,
    encoding: Encoding,
    target: Target,
)
    requires
        attribute.name != DW_AT_LOCATION,
        attribute.name != DW_AT_DATA_MEMBER_LOCATION,
        attribute.name != DW_AT_FRAME_BASE,
    ensures
        ({
            let outcome = located_by(variable, parent, attribute, encoding, target);
            &&& outcome.1 is Ok
            &&& outcome.0.memory_location == variable.memory_location
            &&& attribute.name != DW_AT_ADDRESS_CLASS ==> outcome.0 == variable
            &&& attribute.name == DW_AT_ADDRESS_CLASS && attribute.value
                == AttributeValue::AddressClass(0) ==> outcome.0 == variable
        }),
{
}

/// Whether applying an attribute succeeded, left the parent and the cache as they are, and made
/// `made` of the variable.
pub open spec fn made(
    outcome: PairOutcome,
    parent: VariableView,
    cache: CacheView,
    made: VariableView,
) -> bool {
    outcome.0 == cache && outcome.1 == parent && (outcome.2 matches Ok(v) && v == made)
}

impl UnitInfo {
    /// What the attributes that need nothing but themselves do: a name is the name, a constant is
    /// the value, the type is the value of a class of enumerators, bounds are the bounds of a range
    /// of indices, and an artificial variable is called so. Each changes nothing else.
    pub proof fn law_plain_attributes(
        self,
        node: int,
        attribute: Attribute,
        parent: VariableView,
        variable: VariableView,
        target: Target,
        cache: CacheView,
        fuel: nat,
    )
        ensures
            ({
                let outcome = self.attribute_applied(
                    node,
                    attribute,
                    parent,
                    variable,
                    target,
                    cache,
                    fuel,
                );
                &&& attribute.name == DW_AT_NAME ==> made(
                    outcome,
                    parent,
                    cache,
                    Variable { name: VariableName::Named(attribute.text@), ..variable },
                )
                &&& attribute.name == DW_AT_ARTIFICIAL ==> made(
                    outcome,
                    parent,
                    cache,
                    Variable { name: VariableName::Artifical, ..variable },
                )
                &&& attribute.name == DW_AT_CONST_VALUE ==> match attribute.value {
                    AttributeValue::Udata(n) => made(
                        outcome,
                        parent,
                        cache,
                        Variable { value: VariableValue::Valid(decimal(n as nat)), ..variable },
                    ),
                    _ => outcome.2 matches Ok(v) && v.value is Error,
                }
                &&& attribute.name == DW_AT_ENUM_CLASS ==> if attribute.value
                    == AttributeValue::Flag(true) {
                    made(
                        outcome,
                        parent,
                        cache,
                        Variable {
                            value: VariableValue::Valid(variable.variable_type.described()),
                            ..variable
                        },
                    )
                } else {
                    outcome.2 matches Ok(v) && v.value is Error
                }
                &&& attribute.name == DW_AT_LOWER_BOUND ==> match attribute.udata {
                    Some(n) => n <= i64::MAX ==> made(
                        outcome,
                        parent,
                        cache,
                        Variable { range_lower_bound: n as i64, ..variable },
                    ),
                    None => outcome.2 matches Ok(v) && v.value is Error,
                }
                &&& attribute.name == DW_AT_UPPER_BOUND || attribute.name == DW_AT_COUNT
                    ==> match attribute.udata {
                    Some(n) => n <= i64::MAX ==> made(
                        outcome,
                        parent,
                        cache,
                        Variable { range_upper_bound: n as i64, ..variable },
                    ),
                    None => outcome.2 matches Ok(v) && v.value is Error,
                }
            }),
    {
    }

    /// An attribute that is not known makes an error of the variable and changes nothing else; and
    /// one that is put to use elsewhere changes nothing.
    pub proof fn law_unknown_attribute(
        self,
        node: int,
        attribute: Attribute,
        parent: VariableView,
        variable: VariableView,
        target: Target,
        cache: CacheView,
        fuel: nat,
    )
        ensures
            ({
                let outcome = self.attribute_applied(
                    node,
                    attribute,
                    parent,
                    variable,
                    target,
                    cache,
                    fuel,
                );
                &&& used_elsewhere(attribute.name) ==> made(outcome, parent, cache, variable)
                &&& !used_elsewhere(attribute.name) && !used_here(attribute.name) ==> (
                outcome.2 matches Ok(v) && v.value is Error && made(
                    outcome,
                    parent,
                    cache,
                    Variable { value: v.value, ..variable },
                ))
            }),
    {
    }

    /// What the entries below another one are resolved as: namespaces, variables with members and
    /// enumerators, variants and what tells the active one, ranges, and blocks. Types, functions
    /// and parameters change nothing, and any other entry makes an error of the parent.
    pub proof fn law_kinds_of_children(
        self,
        child: int,
        parent: VariableView,
        program_counter: u64,
        target: Target,
        cache: CacheView,
        fuel: nat,
    )
        ensures
            ({
                let tag = self.entries@[child].tag;
                let outcome = self.child_processed(
                    child,
                    parent,
                    program_counter,
                    target,
                    cache,
                    fuel,
                );
                &&& tag == DW_TAG_NAMESPACE ==> outcome == self.namespace_processed(
                    child,
                    parent,
                    target,
                    cache,
                    fuel,
                )
                &&& tag == DW_TAG_VARIABLE || tag == DW_TAG_MEMBER || tag == DW_TAG_ENUMERATOR
                    ==> outcome == self.member_processed(child, parent, target, cache, fuel)
                &&& tag == DW_TAG_VARIANT_PART ==> outcome == self.variant_part_processed(
                    child,
                    parent,
                    target,
                    cache,
                    fuel,
                )
                &&& tag == DW_TAG_VARIANT ==> outcome == self.variant_processed(
                    child,
                    parent,
                    target,
                    cache,
                    fuel,
                )
                &&& tag == DW_TAG_SUBRANGE_TYPE ==> outcome == self.subrange_processed(
                    child,
                    parent,
                    target,
                    cache,
                    fuel,
                )
                &&& tag == DW_TAG_LEXICAL_BLOCK ==> outcome == self.block_processed(
                    child,
                    parent,
                    program_counter,
                    target,
                    cache,
                    fuel,
                )
                &&& tag == DW_TAG_TEMPLATE_TYPE_PARAMETER || tag == DW_TAG_FORMAL_PARAMETER || tag
                    == DW_TAG_INLINED_SUBROUTINE || tag == DW_TAG_BASE_TYPE || tag
                    == DW_TAG_POINTER_TYPE || tag == DW_TAG_STRUCTURE_TYPE || tag
                    == DW_TAG_ENUMERATION_TYPE || tag == DW_TAG_ARRAY_TYPE || tag
                    == DW_TAG_SUBROUTINE_TYPE || tag == DW_TAG_SUBPROGRAM || tag
                    == DW_TAG_UNION_TYPE ==> outcome.0 == cache && (outcome.1 matches Ok(updated)
                    && updated == parent)
                &&& tag != DW_TAG_NAMESPACE && tag != DW_TAG_VARIABLE && tag != DW_TAG_MEMBER && tag
                    != DW_TAG_ENUMERATOR && tag != DW_TAG_VARIANT_PART && tag != DW_TAG_VARIANT
                    && tag != DW_TAG_SUBRANGE_TYPE && tag != DW_TAG_LEXICAL_BLOCK && tag
                    != DW_TAG_TEMPLATE_TYPE_PARAMETER && tag != DW_TAG_FORMAL_PARAMETER && tag
                    != DW_TAG_INLINED_SUBROUTINE && tag != DW_TAG_BASE_TYPE && tag
                    != DW_TAG_POINTER_TYPE && tag != DW_TAG_STRUCTURE_TYPE && tag
                    != DW_TAG_ENUMERATION_TYPE && tag != DW_TAG_ARRAY_TYPE && tag
                    != DW_TAG_SUBROUTINE_TYPE && tag != DW_TAG_SUBPROGRAM && tag
                    != DW_TAG_UNION_TYPE ==> outcome.0 == cache && (outcome.1 matches Ok(updated)
                    && updated.value is Error && updated == (Variable {
                    value: updated.value,
                    ..parent
                }))
            }),
    {
    }

    /// The line of a declaration becomes the line of the source location, and the file of a
    /// declaration, if it is known, its file and its directory; the other parts of the source
    /// location stay, and so does all else.
    pub proof fn law_declaration(
        self,
        node: int,
        attribute: Attribute,
        parent: VariableView,
        variable: VariableView,
        target: Target,
        cache: CacheView,
        fuel: nat,
        n: u64,
    )
        ensures
            ({
                let outcome = self.attribute_applied(
                    node,
                    attribute,
                    parent,
                    variable,
                    target,
                    cache,
                    fuel,
                );
                &&& attribute.name == DW_AT_DECL_LINE && attribute.value == AttributeValue::Udata(n)
                    ==> outcome.0 == cache && outcome.1 == parent && (outcome.2 matches Ok(v)
                    && v.source_location matches Some(location) && location.line == Some(n)
                    && v == (Variable { source_location: v.source_location, ..variable }) && (
                variable.source_location matches Some(before) ==> location.file == before.file
                    && location.directory == before.directory && location.column == before.column)
                    && (variable.source_location is None ==> location.file is None
                    && location.directory is None && location.column is None) && location.low_pc
                    is None && location.high_pc is None)
                &&& attribute.name == DW_AT_DECL_FILE && attribute.value
                    == AttributeValue::FileIndex(n) ==> match file_named(self.files@, n) {
                    Some((directory, file)) => outcome.0 == cache && outcome.1 == parent && (
                    outcome.2 matches Ok(v) && v.source_location matches Some(location)
                        && location.file == Some(file) && location.directory == Some(directory)
                        && v == (Variable { source_location: v.source_location, ..variable }) && (
                    variable.source_location matches Some(before) ==> location.line == before.line
                        && location.column == before.column) && (variable.source_location is None
                        ==> location.line is None && location.column is None) && location.low_pc
                        is None && location.high_pc is None),
                    None => made(outcome, parent, cache, variable),
                }
            }),
    {
    }
}

/// Whether attributes with the name `name` tell something of a variable beside its place.
pub open spec fn used_here(name: u16) -> bool {
    ||| name == DW_AT_NAME
    ||| name == DW_AT_DECL_FILE
    ||| name == DW_AT_DECL_LINE
    ||| name == DW_AT_ENUM_CLASS
    ||| name == DW_AT_CONST_VALUE
    ||| name == DW_AT_ARTIFICIAL
    ||| name == DW_AT_LOWER_BOUND
    ||| name == DW_AT_UPPER_BOUND
    ||| name == DW_AT_COUNT
    ||| name == DW_AT_TYPE
    ||| name == DW_AT_DISCR
}

/// Whether attributes with the name `name` tell the place of a variable, or are of no interest.
pub open spec fn used_elsewhere(name: u16) -> bool {
    ||| name == DW_AT_LOCATION
    ||| name == DW_AT_DATA_MEMBER_LOCATION
    ||| name == DW_AT_DECL_COLUMN
    ||| name == DW_AT_CONTAINING_TYPE
    ||| name == DW_AT_ALIGNMENT
    ||| name == DW_AT_EXTERNAL
    ||| name == DW_AT_DECLARATION
    ||| name == DW_AT_ENCODING
    ||| name == DW_AT_DISCR_VALUE
    ||| name == DW_AT_BYTE_SIZE
    ||| name == DW_AT_ABSTRACT_ORIGIN
    ||| name == DW_AT_LINKAGE_NAME
    ||| name == DW_AT_ADDRESS_CLASS
}

/// The name of a type, where it has one.
pub open spec fn type_text(entry: Entry) -> Option<Seq<char>> {
    match entry.attribute(DW_AT_NAME) {
        Ok(Some(attribute)) => Some(attribute.text@),
        _ => None,
    }
}

/// What a type is called: its name, or that it has none.
pub open spec fn type_name_of(entry: Entry) -> Seq<char> {
    match type_text(entry) {
        Some(text) => text,
        None => "<unnamed>"@,
    }
}

/// Whether `entry` gives `size` as its number of bytes.
pub open spec fn gives_size(entry: Entry, size: u64) -> bool {
    entry.attribute(DW_AT_BYTE_SIZE) matches Ok(Some(attribute)) && attribute.value
        == AttributeValue::Udata(size)
}

/// Variables are resolved at once where the name of their structure begins with one of six words,
/// or the name of their pointer with one of two.
pub proof fn law_shown_at_once(name: Seq<char>)
    ensures
        shown_at_once(VariableType::Struct(name)) <==> {
            ||| "&str"@.is_prefix_of(name)
            ||| "Option"@.is_prefix_of(name)
            ||| "Some"@.is_prefix_of(name)
            ||| "Result"@.is_prefix_of(name)
            ||| "Ok"@.is_prefix_of(name)
            ||| "Err"@.is_prefix_of(name)
        },
        shown_at_once(VariableType::Pointer(Some(name))) <==> {
            ||| "*const"@.is_prefix_of(name)
            ||| "*mut"@.is_prefix_of(name)
        },
        !shown_at_once(VariableType::Unknown),
        !shown_at_once(VariableType::Base(name)),
        !shown_at_once(VariableType::Enum(name)),
        !shown_at_once(VariableType::Pointer(None)),
        !shown_at_once(VariableType::Other(name)),
        !shown_at_once(VariableType::Namespace),
{
}

/// How the children of a variable are found that was found by `before` and has the type
/// `variable_type` so far.
pub open spec fn node_type_for(
    before: VariableNodeType,
    variable_type: VariableType<Seq<char>>,
) -> VariableNodeType {
    if shown_at_once(variable_type) {
        VariableNodeType::RecurseToBaseType
    } else {
        before
    }
}

impl UnitInfo {
    /// A variable of a base type gets the name and the size of the type and nothing else; an
    /// element of an array also gets its place: as many sizes of the type behind the place of the
    /// array as its index says.
    pub proof fn law_base_type(
        self,
        node: int,
        parent: VariableView,
        variable: VariableView,
        target: Target,
        cache: CacheView,
        fuel: nat,
        size: u64,
        address: u64,
        index: i64,
    )
        requires
            fuel > 0,
            self.entries@[node].tag == DW_TAG_BASE_TYPE,
            self.entries@[node].attribute(DW_AT_NAME) is Ok,
            gives_size(self.entries@[node], size),
            variable.valid(),
        ensures
            ({
                let typed = Variable {
                    variable_type: VariableType::Base(type_name_of(self.entries@[node])),
                    byte_size: size,
                    variable_node_type: node_type_for(
                        variable.variable_node_type,
                        variable.variable_type,
                    ),
                    ..variable
                };
                let outcome = self.type_extracted(node, parent, variable, target, cache, fuel);
                &&& variable.member_index is None ==> outcome == cache.stored(
                    Some(parent.variable_key),
                    typed,
                    target,
                )
                &&& variable.member_index == Some(index) && index >= 0 && parent.memory_location
                    == VariableLocation::<Seq<char>>::Address(address) && address + index * size
                    <= u64::MAX ==> outcome == cache.stored(
                    Some(parent.variable_key),
                    Variable {
                        memory_location: VariableLocation::Address(
                            (address + index * size) as u64,
                        ),
                        ..typed
                    },
                    target,
                )
                &&& variable.member_index is Some && !(parent.memory_location is Address)
                    ==> outcome == cache.stored(
                    Some(parent.variable_key),
                    Variable { memory_location: VariableLocation::Unavailable, ..typed },
                    target,
                )
            }),
    {
        if index >= 0 {
            lemma_element_offset(address, index, size);
        }
    }

    /// The elements of an array lie next to each other: an element of a base, structure or union
    /// type is kept as many sizes of the type behind the place of the array as its index says.
    pub proof fn law_element_place(
        self,
        node: int,
        parent: VariableView,
        variable: VariableView,
        target: Target,
        cache: CacheView,
        fuel: nat,
        size: u64,
        address: u64,
        index: i64,
    )
        requires
            cache.wf(),
            cache.has(variable.variable_key),
            self.entries@[node].tag == DW_TAG_BASE_TYPE || self.entries@[node].tag
                == DW_TAG_STRUCTURE_TYPE || self.entries@[node].tag == DW_TAG_UNION_TYPE,
            self.entries@[node].attribute(DW_AT_NAME) is Ok,
            gives_size(self.entries@[node], size),
            variable.valid(),
            variable.member_index == Some(index),
            index >= 0,
            parent.memory_location == VariableLocation::<Seq<char>>::Address(address),
            address + index * size <= u64::MAX,
        ensures
            self.type_extracted(node, parent, variable, target, cache, fuel).1 matches Ok(element)
                ==> element.byte_size == size && element.memory_location
                == VariableLocation::<Seq<char>>::Address((address + index * size) as u64),
    {
        if fuel > 0 {
            lemma_element_offset(address, index, size);
            let key = variable.variable_key;
            let rest = (fuel - 1) as nat;
            let frame = Frame { base: cache, key, parent: parent.variable_key, parts: true };
            lemma_outset(frame);
            let sized = Variable {
                variable_node_type: node_type_for(
                    variable.variable_node_type,
                    variable.variable_type,
                ),
                byte_size: size,
                ..variable
            };
            let element = Variable {
                memory_location: VariableLocation::Address((address + index * size) as u64),
                ..sized
            };
            assert(indexed(sized, parent) == Ok::<VariableView, DebugErrorView>(element));
            let named = Variable {
                variable_type: VariableType::Struct(type_name_of(self.entries@[node])),
                ..element
            };
            self.lemma_tree_frame(frame, node, element, target, cache, rest);
            self.lemma_tree_frame(frame, node, named, target, cache, rest);
        }
    }

    /// The places of an element and of the next one differ by the size of their type.
    pub proof fn law_next_element(
        self,
        node: int,
        parent: VariableView,
        first: VariableView,
        second: VariableView,
        target: Target,
        before: CacheView,
        later: CacheView,
        fuel: nat,
        size: u64,
        address: u64,
        index: i64,
    )
        requires
            before.wf(),
            before.has(first.variable_key),
            later.wf(),
            later.has(second.variable_key),
            self.entries@[node].tag == DW_TAG_BASE_TYPE || self.entries@[node].tag
                == DW_TAG_STRUCTURE_TYPE || self.entries@[node].tag == DW_TAG_UNION_TYPE,
            self.entries@[node].attribute(DW_AT_NAME) is Ok,
            gives_size(self.entries@[node], size),
            first.valid(),
            second.valid(),
            0 <= index < i64::MAX,
            first.member_index == Some(index),
            second.member_index == Some((index + 1) as i64),
            parent.memory_location == VariableLocation::<Seq<char>>::Address(address),
            address + (index + 1) * size <= u64::MAX,
        ensures
            self.type_extracted(node, parent, first, target, before, fuel).1 matches Ok(a)
                ==> self.type_extracted(node, parent, second, target, later, fuel).1 matches Ok(b)
                ==> a.memory_location matches VariableLocation::Address(from)
                && b.memory_location matches VariableLocation::Address(to) && to - from == size,
    {
        assert(address + index * size + size == address + (index + 1) * size) by (nonlinear_arith);
        self.law_element_place(
            node,
            parent,
            first,
            target,
            before,
            fuel,
            size,
            address,
            index,
        );
        self.law_element_place(
            node,
            parent,
            second,
            target,
            later,
            fuel,
            size,
            address,
            (index + 1) as i64,
        );
    }

    /// A pointer refers to the entry of what it points to, and has the name and the size of its
    /// type; its place stays. Its target is noted to be resolved exactly where the pointer itself
    /// is resolved at once.
    pub proof fn law_pointer_type(
        self,
        node: int,
        parent: VariableView,
        variable: VariableView,
        target: Target,
        cache: CacheView,
        fuel: nat,
        size: u64,
        offset: usize,
    )
        requires
            fuel > 0,
            self.entries@[node].tag == DW_TAG_POINTER_TYPE,
            self.entries@[node].attribute(DW_AT_NAME) is Ok,
            self.entries@[node].attribute(DW_AT_TYPE) matches Ok(Some(attribute))
                && attribute.value == AttributeValue::UnitRef(offset),
            self.entries@[node].size_in_bytes() == size,
            variable.valid(),
        ensures
            ({
                let noted = if node_type_for(variable.variable_node_type, variable.variable_type)
                    == VariableNodeType::RecurseToBaseType {
                    CacheView {
                        expansions: cache.expansions.push(variable.variable_key),
                        ..cache
                    }
                } else {
                    cache
                };
                self.type_extracted(node, parent, variable, target, cache, fuel) == noted.stored(
                    Some(parent.variable_key),
                    Variable {
                        variable_type: VariableType::Pointer(type_text(self.entries@[node])),
                        variable_node_type: VariableNodeType::ReferenceOffset(offset),
                        byte_size: size,
                        ..variable
                    },
                    target,
                )
            }),
    {
    }

    /// A structure whose parts are not resolved at once refers to the entry of its type for them;
    /// one that has no place has no parts that could be resolved. Each has the name and the size of
    /// its type.
    pub proof fn law_structure_later(
        self,
        node: int,
        parent: VariableView,
        variable: VariableView,
        target: Target,
        cache: CacheView,
        fuel: nat,
    )
        requires
            fuel > 0,
            self.entries@[node].tag == DW_TAG_STRUCTURE_TYPE,
            self.entries@[node].attribute(DW_AT_NAME) is Ok,
            variable.valid(),
            variable.member_index is None,
        ensures
            ({
                let typed = Variable {
                    variable_type: VariableType::Struct(type_name_of(self.entries@[node])),
                    byte_size: self.entries@[node].size_in_bytes(),
                    ..variable
                };
                let outcome = self.type_extracted(node, parent, variable, target, cache, fuel);
                if variable.memory_location is Unavailable {
                    outcome == cache.stored(
                        Some(parent.variable_key),
                        Variable { variable_node_type: VariableNodeType::DoNotRecurse, ..typed },
                        target,
                    )
                } else {
                    node_type_for(variable.variable_node_type, variable.variable_type)
                        != VariableNodeType::RecurseToBaseType ==> outcome == cache.stored(
                        Some(parent.variable_key),
                        Variable {
                            variable_node_type: VariableNodeType::TypeOffset(
                                self.entries@[node].offset,
                            ),
                            ..typed
                        },
                        target,
                    )
                }
            }),
    {
    }

    /// A structure whose parts are resolved at once, and that has a place, is resolved as all that
    /// is below the entry of its type; so is a union, which keeps the type it had, and whose value,
    /// if it has no parts, is that type.
    pub proof fn law_structure_at_once(
        self,
        node: int,
        parent: VariableView,
        variable: VariableView,
        target: Target,
        cache: CacheView,
        fuel: nat,
    )
        requires
            fuel > 0,
            self.entries@[node].attribute(DW_AT_NAME) is Ok,
            variable.valid(),
            variable.member_index is None,
        ensures
            ({
                let sized = Variable {
                    byte_size: self.entries@[node].size_in_bytes(),
                    variable_node_type: node_type_for(
                        variable.variable_node_type,
                        variable.variable_type,
                    ),
                    ..variable
                };
                let named = Variable {
                    variable_type: VariableType::Struct(type_name_of(self.entries@[node])),
                    ..sized
                };
                let outcome = self.type_extracted(node, parent, variable, target, cache, fuel);
                let structure = self.tree_processed(node, named, target, cache, (fuel - 1) as nat);
                let union = self.tree_processed(node, sized, target, cache, (fuel - 1) as nat);
                &&& self.entries@[node].tag == DW_TAG_STRUCTURE_TYPE && !(
                variable.memory_location is Unavailable) && sized.variable_node_type
                    == VariableNodeType::RecurseToBaseType ==> match structure.1 {
                    Ok(updated) => outcome == structure.0.stored(
                        Some(parent.variable_key),
                        updated,
                        target,
                    ),
                    Err(_) => outcome == structure,
                }
                &&& self.entries@[node].tag == DW_TAG_UNION_TYPE ==> match union.1 {
                    Ok(updated) => outcome == union.0.stored(
                        Some(parent.variable_key),
                        if updated.valid() && !union.0.has_children(updated.variable_key) {
                            Variable {
                                value: VariableValue::Valid(updated.variable_type.described()),
                                ..updated
                            }
                        } else {
                            updated
                        },
                        target,
                    ),
                    Err(_) => outcome == union,
                }
            }),
    {
    }
}

/// How far an element lies behind the place of its array.
proof fn lemma_element_offset(address: u64, index: i64, size: u64)
    requires
        index >= 0,
    ensures
        (index as u64) * size == index * size,
        index * size >= 0,
{
    assert(index * size >= 0) by (nonlinear_arith)
        requires
            index >= 0,
            size >= 0,
    ;
}

} // verus!
