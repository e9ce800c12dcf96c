//! The types of variables.
use vstd::prelude::*;

use crate::cache::VariableCache;
#[allow(unused_imports)]
use crate::cache::{children_of, latest, views, CacheView};
#[allow(unused_imports)]
use crate::describe::text_described;
use crate::dwarf::{
    AttributeValue, UnitInfo, DW_AT_NAME, DW_AT_TYPE, DW_TAG_ARRAY_TYPE, DW_TAG_BASE_TYPE,
    DW_TAG_COMPILE_UNIT, DW_TAG_ENUMERATION_TYPE, DW_TAG_POINTER_TYPE, DW_TAG_STRUCTURE_TYPE,
    DW_TAG_SUBROUTINE_TYPE, DW_TAG_UNION_TYPE,
};
#[allow(unused_imports)]
use crate::dwarf::Attribute;
use crate::error::DebugError;
#[allow(unused_imports)]
use crate::error::{result_view, DebugErrorView};
use crate::names::describe_tag;
#[allow(unused_imports)]
use crate::names::gimli_tag_name;
use crate::target::{MemoryReply, Target};
#[allow(unused_imports)]
use crate::target::memory_reply;
#[allow(unused_imports)]
use crate::text::{decimal, signed_decimal};
use crate::text::{i64_text, join2, join3, join4, same_text, starts_with, u64_text};
#[allow(unused_imports)]
use crate::tree::{Outcome, NESTING_LIMIT};
use crate::variable::{
    clone_source, Variable, VariableLocation, VariableName, VariableNodeType, VariableType,
    VariableValue,
};
#[allow(unused_imports)]
use crate::variable::{text_view, VariableView};

verus! {

/// Whether `text` starts with `prefix`.
pub open spec fn has_prefix(text: Seq<char>, prefix: Seq<char>) -> bool {
    prefix.is_prefix_of(text)
}

/// Whether variables of this type are resolved at once, so that their values can be shown at
/// first glance.
pub open spec fn shown_at_once(variable_type: VariableType<Seq<char>>) -> bool {
    match variable_type {
        VariableType::Struct(name) => {
            ||| has_prefix(name, "&str"@)
            ||| has_prefix(name, "Option"@)
            ||| has_prefix(name, "Some"@)
            ||| has_prefix(name, "Result"@)
            ||| has_prefix(name, "Ok"@)
            ||| has_prefix(name, "Err"@)
        },
        VariableType::Pointer(Some(name)) => has_prefix(name, "*const"@) || has_prefix(
            name,
            "*mut"@,
        ),
        _ => false,
    }
}

/// `text`, or that there is none.
pub open spec fn or_unnamed(text: Option<Seq<char>>) -> Seq<char> {
    match text {
        Some(text) => text,
        None => "<unnamed>"@,
    }
}

/// `variable` at its place in the array `parent`, if it is an element of one.
pub open spec fn indexed(variable: VariableView, parent: VariableView) -> Result<
    VariableView,
    DebugErrorView,
> {
    match variable.member_index {
        None => Ok(variable),
        Some(index) => match parent.memory_location {
            VariableLocation::Address(address) => {
                let offset = (index as u64) * variable.byte_size;
                if offset > u64::MAX {
                    Err(DebugError::AddressOverflow)
                } else if address + offset > u64::MAX {
                    Err(DebugError::Other("Overflow calculating variable address"@))
                } else {
                    Ok(
                        Variable {
                            memory_location: VariableLocation::Address((address + offset) as u64),
                            ..variable
                        },
                    )
                }
            },
            _ => Ok(Variable { memory_location: VariableLocation::Unavailable, ..variable }),
        },
    }
}

/// What an attribute that should refer to a type refers to.
pub enum TypeReference {
    /// The entry at this offset.
    Entry(usize),
    /// Something else.
    Other(Attribute),
    /// There is no such attribute.
    Missing,
    /// There is no telling; why.
    Unreadable(Seq<char>),
}

/// What `attribute`, the outcome of looking for it, refers to.
pub open spec fn type_reference(attribute: Result<Option<Attribute>, Seq<char>>) -> TypeReference {
    match attribute {
        Ok(Some(attribute)) => match attribute.value {
            AttributeValue::UnitRef(offset) => TypeReference::Entry(offset),
            _ => TypeReference::Other(attribute),
        },
        Ok(None) => TypeReference::Missing,
        Err(text) => TypeReference::Unreadable(text),
    }
}

/// `variable` once it is known that its type refers to no other type that could be resolved.
pub open spec fn without_reference(
    variable: VariableView,
    reference: TypeReference,
) -> VariableView {
    match reference {
        TypeReference::Entry(_) => variable,
        TypeReference::Other(attribute) => variable.with_error(
            "Unimplemented: Attribute Value for DW_AT_type "@ + attribute.debug@,
        ),
        TypeReference::Missing => variable.with_error(
            "Error: No Attribute Value for DW_AT_type for variable "@ + variable.name.described(),
        ),
        TypeReference::Unreadable(text) => variable.with_error(
            "Error: Failed to decode pointer reference: "@ + text,
        ),
    }
}

/// The name of the first of `enumerators` whose value is `value`.
pub open spec fn enumerator_named(enumerators: Seq<VariableView>, value: Seq<char>) -> VariableName<
    Seq<char>,
>
    decreases enumerators.len(),
{
    if enumerators.len() == 0 {
        VariableName::Named("<Error: Unresolved enum value>"@)
    } else if enumerators[0].value.shown() == value {
        enumerators[0].name
    } else {
        enumerator_named(enumerators.drop_first(), value)
    }
}

/// The outcome of putting the value of the enumeration `variable` in place of its enumerators.
pub open spec fn enumeration_valued(
    variable: VariableView,
    target: Target,
    cache: CacheView,
) -> Outcome {
    match variable.memory_location {
        VariableLocation::Address(address) => match memory_reply(target.memory@, address, 1) {
            None => (cache, Err(DebugError::NeedsMemory { address, size: 1 })),
            Some(None) => (cache, Err(DebugError::MemoryRead { address, size: 1 })),
            Some(Some(bytes)) => {
                let name = enumerator_named(
                    children_of(cache.entries, variable.variable_key),
                    decimal(bytes[0] as nat),
                );
                (
                    cache.cleared(variable.variable_key),
                    Ok(
                        variable.with_value(
                            VariableValue::Valid(
                                variable.variable_type.shown() + "::"@ + name.shown(),
                            ),
                        ),
                    ),
                )
            },
        },
        _ => (
            cache.cleared(variable.variable_key),
            Ok(
                variable.with_error(
                    "Unsupported variable location "@ + variable.memory_location.described(),
                ),
            ),
        ),
    }
}

/// `variable`, an array, with the bounds of `range`.
pub open spec fn bounded(variable: VariableView, range: VariableView) -> VariableView {
    let bounded = Variable {
        range_lower_bound: range.range_lower_bound,
        range_upper_bound: range.range_upper_bound,
        ..variable
    };
    if range.range_lower_bound < 0 || range.range_upper_bound < 0 {
        bounded.with_error(
            "Unimplemented: Array has a sub-range of "@ + signed_decimal(
                range.range_lower_bound as int,
            ) + ".."@ + signed_decimal(range.range_upper_bound as int) + " for "@,
        )
    } else {
        bounded
    }
}

/// `element` as the element `index` of `array`.
pub open spec fn element_of(
    element: VariableView,
    array: VariableView,
    index: i64,
) -> VariableView {
    Variable {
        member_index: Some(index),
        name: VariableName::Named("__"@ + signed_decimal(index as int)),
        source_location: array.source_location,
        ..element
    }
}

impl UnitInfo {
    /// The outcome of giving `variable`, a part of `parent`, the type that the entry `node`
    /// describes, to a depth of `fuel` entries and types.
    pub open spec fn type_extracted(
        self,
        node: int,
        parent: VariableView,
        variable: VariableView,
        target: Target,
        cache: CacheView,
        fuel: nat,
    ) -> Outcome
        decreases fuel, 0int, 0int,
    {
        if fuel == 0 {
            (cache, Err(DebugError::NestedTooDeep))
        } else {
            let (variable, text) = match self.entries@[node].attribute(DW_AT_NAME) {
                Ok(Some(attribute)) => (variable, Some(attribute.text@)),
                Ok(None) => (variable, None),
                Err(error) => {
                    let message = "Error: evaluating type name: "@ + error + " "@;
                    (variable.with_error(message), Some(message))
                },
            };
            if variable.valid() {
                let sized = Variable {
                    variable_node_type: if shown_at_once(variable.variable_type) {
                        VariableNodeType::RecurseToBaseType
                    } else {
                        variable.variable_node_type
                    },
                    byte_size: self.entries@[node].size_in_bytes(),
                    ..variable
                };
                match self.typed(node, parent, sized, text, target, cache, (fuel - 1) as nat) {
                    (after, Ok(variable)) => after.stored(
                        Some(parent.variable_key),
                        variable,
                        target,
                    ),
                    (after, Err(error)) => (after, Err(error)),
                }
            } else {
                cache.stored(Some(parent.variable_key), variable, target)
            }
        }
    }

    /// The outcome of giving `variable` the type that the entry `node` describes and that has the
    /// name `text`.
    pub open spec fn typed(
        self,
        node: int,
        parent: VariableView,
        variable: VariableView,
        text: Option<Seq<char>>,
        target: Target,
        cache: CacheView,
        fuel: nat,
    ) -> Outcome
        decreases fuel, 5int, 0int,
    {
        let tag = self.entries@[node].tag;
        if tag == DW_TAG_BASE_TYPE {
            match indexed(variable, parent) {
                Err(error) => (cache, Err(error)),
                Ok(variable) => (
                    cache,
                    Ok(
                        Variable { variable_type: VariableType::Base(
                            or_unnamed(text),
                        ), ..variable },
                    ),
                ),
            }
        } else if tag == DW_TAG_POINTER_TYPE {
            self.pointer_typed(
                node,
                Variable { variable_type: VariableType::Pointer(text), ..variable },
                cache,
            )
        } else if tag == DW_TAG_STRUCTURE_TYPE {
            match indexed(variable, parent) {
                Err(error) => (cache, Err(error)),
                Ok(variable) => self.structure_typed(
                    node,
                    Variable { variable_type: VariableType::Struct(or_unnamed(text)), ..variable },
                    target,
                    cache,
                    fuel,
                ),
            }
        } else if tag == DW_TAG_ENUMERATION_TYPE {
            match self.tree_processed(
                node,
                Variable { variable_type: VariableType::Enum(or_unnamed(text)), ..variable },
                target,
                cache,
                fuel,
            ) {
                (after, Err(error)) => (after, Err(error)),
                (after, Ok(variable)) => if parent.valid() && variable.valid() {
                    enumeration_valued(variable, target, after)
                } else {
                    (after, Ok(variable))
                },
            }
        } else if tag == DW_TAG_ARRAY_TYPE {
            self.array_typed(node, variable, target, cache, fuel)
        } else if tag == DW_TAG_UNION_TYPE {
            match indexed(variable, parent) {
                Err(error) => (cache, Err(error)),
                Ok(variable) => match self.tree_processed(node, variable, target, cache, fuel) {
                    (after, Err(error)) => (after, Err(error)),
                    (after, Ok(variable)) => if variable.valid() && !after.has_children(
                        variable.variable_key,
                    ) {
                        (
                            after,
                            Ok(
                                variable.with_value(
                                    VariableValue::Valid(variable.variable_type.described()),
                                ),
                            ),
                        )
                    } else {
                        (after, Ok(variable))
                    },
                },
            }
        } else if tag == DW_TAG_SUBROUTINE_TYPE {
            (cache, self.subroutine_typed(node, variable))
        } else if tag == DW_TAG_COMPILE_UNIT {
            self.tree_processed(node, variable, target, cache, fuel)
        } else {
            (
                cache.cleared(variable.variable_key),
                Ok(
                    Variable {
                        variable_type: VariableType::Other("unimplemented"@),
                        ..variable.with_error(
                            "<unimplemented: type : "@ + text_described(gimli_tag_name(tag))
                                + ">"@,
                        )
                    },
                ),
            )
        }
    }

    /// The outcome of giving `variable` the pointer type that the entry `node` describes.
    pub open spec fn pointer_typed(
        self,
        node: int,
        variable: VariableView,
        cache: CacheView,
    ) -> Outcome {
        let reference = type_reference(self.entries@[node].attribute(DW_AT_TYPE));
        match reference {
            TypeReference::Entry(offset) => (
                if variable.variable_node_type == VariableNodeType::RecurseToBaseType {
                    cache.expanding(variable.variable_key)
                } else {
                    cache
                },
                Ok(
                    Variable {
                        variable_node_type: VariableNodeType::ReferenceOffset(offset),
                        ..variable
                    },
                ),
            ),
            _ => (cache, Ok(without_reference(variable, reference))),
        }
    }

    /// The outcome of giving `variable` the structure type that the entry `node` describes: its
    /// parts are resolved at once or later.
    pub open spec fn structure_typed(
        self,
        node: int,
        variable: VariableView,
        target: Target,
        cache: CacheView,
        fuel: nat,
    ) -> Outcome
        decreases fuel, 4int, 0int,
    {
        if variable.memory_location is Unavailable {
            (
                cache,
                Ok(
                    Variable {
                        variable_node_type: VariableNodeType::DoNotRecurse,
                        ..variable
                    },
                ),
            )
        } else if variable.variable_node_type == VariableNodeType::RecurseToBaseType {
            self.tree_processed(node, variable, target, cache, fuel)
        } else {
            (
                cache,
                Ok(
                    Variable {
                        variable_node_type: VariableNodeType::TypeOffset(
                            self.entries@[node].offset,
                        ),
                        ..variable
                    },
                ),
            )
        }
    }

    /// The outcome of giving `variable` the array type that the entry `node` describes: its bounds
    /// are resolved, and all its elements.
    pub open spec fn array_typed(
        self,
        node: int,
        variable: VariableView,
        target: Target,
        cache: CacheView,
        fuel: nat,
    ) -> Outcome
        decreases fuel, 4int, 0int,
    {
        let reference = type_reference(self.entries@[node].attribute(DW_AT_TYPE));
        match reference {
            TypeReference::Entry(offset) => match cache.stored(
                Some(variable.variable_key),
                self.variable_of(node),
                target,
            ) {
                (after, Err(error)) => (after, Err(error)),
                (after, Ok(range)) => match self.tree_processed(node, range, target, after, fuel) {
                    (after, Err(error)) => (after, Err(error)),
                    (after, Ok(range)) => match after.removed(range.variable_key) {
                        (after, Err(error)) => (after, Err(error)),
                        (after, Ok(_)) => self.elements_from(
                            offset,
                            range.range_lower_bound as int,
                            range.range_upper_bound,
                            bounded(variable, range),
                            target,
                            after,
                            fuel,
                        ),
                    },
                },
            },
            _ => (cache, Ok(without_reference(variable, reference))),
        }
    }

    /// The outcome of resolving the elements of `array`, from the `from`-th on. Their type is
    /// described by the entry at `offset`; there are none where no entry stands.
    pub open spec fn elements_from(
        self,
        offset: usize,
        from: int,
        upper_bound: i64,
        array: VariableView,
        target: Target,
        cache: CacheView,
        fuel: nat,
    ) -> Outcome
        decreases fuel, 3int, upper_bound - from,
    {
        if from >= upper_bound {
            (cache, Ok(array))
        } else {
            match self.element_processed(
                offset,
                from as i64,
                upper_bound,
                array,
                target,
                cache,
                fuel,
            ) {
                (after, Err(error)) => (after, Err(error)),
                (after, Ok(array)) => self.elements_from(
                    offset,
                    from + 1,
                    upper_bound,
                    array,
                    target,
                    after,
                    fuel,
                ),
            }
        }
    }

    /// The outcome of resolving the element `index` of `array`.
    pub open spec fn element_processed(
        self,
        offset: usize,
        index: i64,
        upper_bound: i64,
        array: VariableView,
        target: Target,
        cache: CacheView,
        fuel: nat,
    ) -> Outcome
        decreases fuel, 2int, 0int,
    {
        match self.entry_at(offset) {
            None => if self.first_offset <= offset < self.end_offset {
                (cache, Ok(array))
            } else {
                (cache, Err(DebugError::NoEntry(offset)))
            },
            Some(node) => match cache.stored(
                Some(array.variable_key),
                self.variable_of(node),
                target,
            ) {
                (after, Err(error)) => (after, Err(error)),
                (after, Ok(element)) => match self.attributes_processed(
                    node,
                    array,
                    element,
                    target,
                    after,
                    fuel,
                ) {
                    (after, _, Err(error)) => (after, Err(error)),
                    (after, array, Ok(element)) => {
                        let array = Variable {
                            variable_type: VariableType::Array {
                                count: upper_bound as usize,
                                entry_type: element.name,
                            },
                            ..array
                        };
                        match self.type_extracted(
                            node,
                            array,
                            element_of(element, array, index),
                            target,
                            after,
                            fuel,
                        ) {
                            (after, Err(error)) => (after, Err(error)),
                            (after, Ok(_)) => (after, Ok(array)),
                        }
                    },
                },
            },
        }
    }

    /// What becomes of `variable` when it gets the type of the routine that the entry `node`
    /// describes, which is the name of what the routine returns.
    pub open spec fn subroutine_typed(self, node: int, variable: VariableView) -> Result<
        VariableView,
        DebugErrorView,
    > {
        match type_reference(self.entries@[node].attribute(DW_AT_TYPE)) {
            TypeReference::Entry(offset) => match self.entry_at(offset) {
                None => Err(DebugError::NoEntry(offset)),
                Some(returned) => Ok(
                    Variable {
                        variable_type: match self.entries@[returned].attribute(DW_AT_NAME) {
                            Ok(Some(attribute)) => VariableType::Other(attribute.text@),
                            Ok(None) => VariableType::Unknown,
                            Err(text) => VariableType::Other(
                                "Error: evaluating subroutine type name: "@ + text + " "@,
                            ),
                        },
                        ..variable
                    },
                ),
            },
            TypeReference::Other(attribute) => Ok(
                variable.with_error(
                    "Unimplemented: Attribute Value for DW_AT_type "@ + attribute.debug@,
                ),
            ),
            TypeReference::Missing => Ok(
                Variable {
                    variable_type: VariableType::Unknown,
                    ..variable.with_value(VariableValue::Valid("<No Return Value>"@))
                },
            ),
            TypeReference::Unreadable(text) => Ok(
                variable.with_error(
                    "Error: Failed to decode subroutine type reference: "@ + text,
                ),
            ),
        }
    }
}

/// Whether variables of this type are resolved at once.
fn is_shown_at_once(variable_type: &VariableType) -> (r: bool)
    ensures
        r == shown_at_once(variable_type@),
{
    match variable_type {
        VariableType::Struct(name) => {
            let name = name.as_str();
            starts_with(name, "&str") || starts_with(name, "Option") || starts_with(name, "Some")
                || starts_with(name, "Result") || starts_with(name, "Ok") || starts_with(
                name,
                "Err",
            )
        },
        VariableType::Pointer(Some(name)) => {
            let name = name.as_str();
            starts_with(name, "*const") || starts_with(name, "*mut")
        },
        _ => false,
    }
}

/// `text`, or that there is none.
fn text_or_unnamed(text: Option<String>) -> (r: String)
    ensures
        r@ == or_unnamed(text_view(text)),
{
    match text {
        Some(text) => text,
        None => String::from_str("<unnamed>"),
    }
}

/// Puts `variable` at its place in the array `parent`, if it is an element of one.
fn index_into(variable: &mut Variable, parent: &Variable) -> (r: Result<(), DebugError>)
    ensures
        match r {
            Ok(_) => indexed(old(variable)@, parent@) == Ok::<VariableView, DebugErrorView>(
                final(variable)@,
            ),
            Err(error) => indexed(old(variable)@, parent@) == Err::<VariableView, DebugErrorView>(
                error@,
            ),
        },
{
    match variable.member_index {
        None => {},
        Some(index) => match &parent.memory_location {
            VariableLocation::Address(address) => {
                let offset: u64 = match (index as u64).checked_mul(variable.byte_size) {
                    Some(offset) => offset,
                    None => {
                        return Err(DebugError::AddressOverflow);
                    },
                };
                match address.checked_add(offset) {
                    Some(location) => {
                        variable.memory_location = VariableLocation::Address(location);
                    },
                    None => {
                        return Err(
                            DebugError::Other(
                                String::from_str("Overflow calculating variable address"),
                            ),
                        );
                    },
                }
            },
            _ => {
                variable.memory_location = VariableLocation::Unavailable;
            },
        },
    }
    Ok(())
}

/// The name of the first of `enumerators` whose value is `value`.
fn find_enumerator(enumerators: &Vec<Variable>, value: &str) -> (r: VariableName)
    ensures
        r@ == enumerator_named(views(enumerators@), value@),
{
    let ghost all = views(enumerators@);
    let mut i: usize = 0;
    assert(all.skip(0) =~= all);
    while i < enumerators.len()
        invariant
            i <= enumerators.len(),
            all == views(enumerators@),
            enumerator_named(all, value@) == enumerator_named(all.skip(i as int), value@),
        decreases enumerators.len() - i,
    {
        if same_text(enumerators[i].get_value().as_str(), value) {
            return enumerators[i].name.clone();
        }
        assert(all.skip(i as int).drop_first() =~= all.skip(i + 1));
        i = i + 1;
    }
    VariableName::Named(String::from_str("<Error: Unresolved enum value>"))
}

/// Puts the value of the enumeration `variable` in place of its enumerators.
fn value_enumeration(variable: Variable, target: &Target, cache: &mut VariableCache) -> (r: Result<
    Variable,
    DebugError,
>)
    requires
        old(cache)@.wf(),
    ensures
        final(cache)@.wf(),
        (final(cache)@, result_view(r)) == enumeration_valued(variable@, *target, old(cache)@),
{
    let mut variable = variable;
    let address: Option<u64> = match variable.memory_location {
        VariableLocation::Address(address) => Some(address),
        _ => None,
    };
    match address {
        Some(address) => {
            // An enumeration is taken to be one byte wide.
            let bytes = match target.read(address, 1) {
                MemoryReply::Missing => {
                    return Err(DebugError::NeedsMemory { address, size: 1 });
                },
                MemoryReply::Refused => {
                    return Err(DebugError::MemoryRead { address, size: 1 });
                },
                MemoryReply::Bytes(bytes) => bytes,
            };
            let enumerators = cache.get_children(variable.variable_key);
            let name = find_enumerator(&enumerators, u64_text(bytes[0] as u64).as_str());
            let text = join3(
                variable.variable_type.display().as_str(),
                "::",
                name.display().as_str(),
            );
            variable.set_value(VariableValue::Valid(text));
        },
        None => {
            let place = variable.memory_location.describe();
            variable.set_error(join2("Unsupported variable location ", place.as_str()));
        },
    }
    cache.remove_cache_entry_children(variable.variable_key);
    Ok(variable)
}

/// Gives `variable`, an array, the bounds of `range`.
fn bound(variable: &mut Variable, range: &Variable)
    ensures
        final(variable)@ == bounded(old(variable)@, range@),
{
    variable.range_lower_bound = range.range_lower_bound;
    variable.range_upper_bound = range.range_upper_bound;
    if range.range_lower_bound < 0 || range.range_upper_bound < 0 {
        let head = join4(
            "Unimplemented: Array has a sub-range of ",
            i64_text(range.range_lower_bound).as_str(),
            "..",
            i64_text(range.range_upper_bound).as_str(),
        );
        variable.set_error(join2(head.as_str(), " for "));
    }
}

impl UnitInfo {
    /// The offset of the type that the entry `node` refers to. Where it refers to none, what is
    /// wrong goes into the value of `variable`.
    fn find_type_reference(&self, node: usize, variable: &mut Variable) -> (r: Option<usize>)
        requires
            node < self.entries@.len(),
        ensures
            ({
                let reference = type_reference(self.entries@[node as int].attribute(DW_AT_TYPE));
                &&& match r {
                    Some(offset) => reference == TypeReference::Entry(offset),
                    None => !(reference is Entry),
                }
                &&& final(variable)@ == without_reference(old(variable)@, reference)
            }),
    {
        match self.entries[node].attr(DW_AT_TYPE) {
            Ok(Some(attribute)) => match attribute.value {
                AttributeValue::UnitRef(offset) => Some(offset),
                _ => {
                    variable.set_error(
                        join2(
                            "Unimplemented: Attribute Value for DW_AT_type ",
                            attribute.debug.as_str(),
                        ),
                    );
                    None
                },
            },
            Ok(None) => {
                let name = variable.name.describe();
                variable.set_error(
                    join2(
                        "Error: No Attribute Value for DW_AT_type for variable ",
                        name.as_str(),
                    ),
                );
                None
            },
            Err(text) => {
                variable.set_error(
                    join2("Error: Failed to decode pointer reference: ", text.as_str()),
                );
                None
            },
        }
    }

    /// Gives `variable` the pointer type that the entry `node` describes.
    fn type_pointer(&self, node: usize, variable: Variable, cache: &mut VariableCache) -> (r:
        Variable)
        requires
            node < self.entries@.len(),
            old(cache)@.wf(),
        ensures
            final(cache)@.wf(),
            (final(cache)@, Ok::<_, DebugErrorView>(r@)) == self.pointer_typed(
                node as int,
                variable@,
                old(cache)@,
            ),
    {
        let mut updated = variable;
        match self.find_type_reference(node, &mut updated) {
            Some(offset) => {
                // What the pointer refers to is essential for its value.
                if updated.variable_node_type == VariableNodeType::RecurseToBaseType {
                    cache.request_expansion(updated.variable_key);
                }
                updated.variable_node_type = VariableNodeType::ReferenceOffset(offset);
            },
            None => {},
        }
        updated
    }

    /// Gives `variable` the structure type that the entry `node` describes.
    fn type_structure(
        &self,
        node: usize,
        variable: Variable,
        target: &Target,
        cache: &mut VariableCache,
        fuel: u32,
    ) -> (r: Result<Variable, DebugError>)
        requires
            self.wf(),
            node < self.entries@.len(),
            old(cache)@.wf(),
        ensures
            final(cache)@.wf(),
            (final(cache)@, result_view(r)) == self.structure_typed(
                node as int,
                variable@,
                *target,
                old(cache)@,
                fuel as nat,
            ),
        decreases fuel, 4int,
    {
        let mut variable = variable;
        let unavailable = match variable.memory_location {
            VariableLocation::Unavailable => true,
            _ => false,
        };
        if unavailable {
            // If something is already broken, then do nothing.
            variable.variable_node_type = VariableNodeType::DoNotRecurse;
            Ok(variable)
        } else if variable.variable_node_type == VariableNodeType::RecurseToBaseType {
            self.process_tree_within(node, variable, target, cache, fuel)
        } else {
            // Its parts are resolved when they are asked for.
            variable.variable_node_type = VariableNodeType::TypeOffset(self.entries[node].offset);
            Ok(variable)
        }
    }

    /// Resolves the element `index` of `array`.
    fn process_element(
        &self,
        offset: usize,
        index: i64,
        upper_bound: i64,
        array: Variable,
        target: &Target,
        cache: &mut VariableCache,
        fuel: u32,
    ) -> (r: Result<Variable, DebugError>)
        requires
            self.wf(),
            old(cache)@.wf(),
        ensures
            final(cache)@.wf(),
            (final(cache)@, result_view(r)) == self.element_processed(
                offset,
                index,
                upper_bound,
                array@,
                *target,
                old(cache)@,
                fuel as nat,
            ),
        decreases fuel, 2int,
    {
        let mut array = array;
        let node = match self.find_entry(offset) {
            Ok(node) => node,
            Err(error) => {
                if self.first_offset <= offset && offset < self.end_offset {
                    return Ok(array);
                }
                return Err(error);
            },
        };
        let element = match cache.cache_variable(
            Some(array.variable_key),
            self.new_variable(node),
            target,
        ) {
            Ok(element) => element,
            Err(error) => {
                return Err(error);
            },
        };
        let mut element = match self.process_tree_node_attributes_within(
            node,
            &mut array,
            element,
            target,
            cache,
            fuel,
        ) {
            Ok(element) => element,
            Err(error) => {
                return Err(error);
            },
        };
        array.variable_type = VariableType::Array {
            count: upper_bound as usize,
            entry_type: element.name.clone(),
        };
        element.member_index = Some(index);
        element.name = VariableName::Named(join2("__", i64_text(index).as_str()));
        element.source_location = clone_source(&array.source_location);
        match self.extract_type_within(node, &array, element, target, cache, fuel) {
            Ok(_) => Ok(array),
            Err(error) => Err(error),
        }
    }

    /// Resolves the elements of `array`, whose type the entry at `offset` describes.
    fn process_elements(
        &self,
        offset: usize,
        lower_bound: i64,
        upper_bound: i64,
        array: Variable,
        target: &Target,
        cache: &mut VariableCache,
        fuel: u32,
    ) -> (r: Result<Variable, DebugError>)
        requires
            self.wf(),
            old(cache)@.wf(),
        ensures
            final(cache)@.wf(),
            (final(cache)@, result_view(r)) == self.elements_from(
                offset,
                lower_bound as int,
                upper_bound,
                array@,
                *target,
                old(cache)@,
                fuel as nat,
            ),
        decreases fuel, 3int,
    {
        let mut updated = array;
        let mut index: i64 = lower_bound;
        while index < upper_bound
            invariant
                self.wf(),
                cache@.wf(),
                self.elements_from(
                    offset,
                    lower_bound as int,
                    upper_bound,
                    array@,
                    *target,
                    old(cache)@,
                    fuel as nat,
                ) == self.elements_from(
                    offset,
                    index as int,
                    upper_bound,
                    updated@,
                    *target,
                    cache@,
                    fuel as nat,
                ),
            decreases upper_bound - index,
        {
            updated = match self.process_element(
                offset,
                index,
                upper_bound,
                updated,
                target,
                cache,
                fuel,
            ) {
                Ok(updated) => updated,
                Err(error) => {
                    return Err(error);
                },
            };
            index = index + 1;
        }
        Ok(updated)
    }

    /// Gives `variable` the array type that the entry `node` describes.
    fn type_array(
        &self,
        node: usize,
        variable: Variable,
        target: &Target,
        cache: &mut VariableCache,
        fuel: u32,
    ) -> (r: Result<Variable, DebugError>)
        requires
            self.wf(),
            node < self.entries@.len(),
            old(cache)@.wf(),
        ensures
            final(cache)@.wf(),
            (final(cache)@, result_view(r)) == self.array_typed(
                node as int,
                variable@,
                *target,
                old(cache)@,
                fuel as nat,
            ),
        decreases fuel, 4int,
    {
        let mut updated = variable;
        let offset = match self.find_type_reference(node, &mut updated) {
            Some(offset) => offset,
            None => {
                return Ok(updated);
            },
        };
        // The bounds of the array are in a child of the entry.
        let range = match cache.cache_variable(
            Some(updated.variable_key),
            self.new_variable(node),
            target,
        ) {
            Ok(range) => range,
            Err(error) => {
                return Err(error);
            },
        };
        let range = match self.process_tree_within(node, range, target, cache, fuel) {
            Ok(range) => range,
            Err(error) => {
                return Err(error);
            },
        };
        bound(&mut updated, &range);
        match cache.remove_cache_entry(range.variable_key) {
            Ok(_) => {},
            Err(error) => {
                return Err(error);
            },
        }
        self.process_elements(
            offset,
            range.range_lower_bound,
            range.range_upper_bound,
            updated,
            target,
            cache,
            fuel,
        )
    }

    /// Gives `variable` the type of the routine that the entry `node` describes.
    fn type_subroutine(&self, node: usize, variable: Variable) -> (r: Result<Variable, DebugError>)
        requires
            node < self.entries@.len(),
        ensures
            result_view(r) == self.subroutine_typed(node as int, variable@),
    {
        let mut variable = variable;
        match self.entries[node].attr(DW_AT_TYPE) {
            Ok(Some(attribute)) => match attribute.value {
                AttributeValue::UnitRef(offset) => {
                    let returned = match self.find_entry(offset) {
                        Ok(returned) => returned,
                        Err(error) => {
                            return Err(error);
                        },
                    };
                    variable.variable_type = match self.entries[returned].attr(DW_AT_NAME) {
                        Ok(Some(name)) => VariableType::Other(name.text.clone()),
                        Ok(None) => VariableType::Unknown,
                        Err(text) => VariableType::Other(
                            join3(
                                "Error: evaluating subroutine type name: ",
                                text.as_str(),
                                " ",
                            ),
                        ),
                    };
                },
                _ => {
                    variable.set_error(
                        join2(
                            "Unimplemented: Attribute Value for DW_AT_type ",
                            attribute.debug.as_str(),
                        ),
                    );
                },
            },
            Ok(None) => {
                variable.set_value(VariableValue::Valid(String::from_str("<No Return Value>")));
                variable.variable_type = VariableType::Unknown;
            },
            Err(text) => {
                variable.set_error(
                    join2("Error: Failed to decode subroutine type reference: ", text.as_str()),
                );
            },
        }
        Ok(variable)
    }

    /// Gives `variable` the type that the entry `node` describes and that has the name `text`.
    fn type_variable(
        &self,
        node: usize,
        parent: &Variable,
        variable: Variable,
        text: Option<String>,
        target: &Target,
        cache: &mut VariableCache,
        fuel: u32,
    ) -> (r: Result<Variable, DebugError>)
        requires
            self.wf(),
            node < self.entries@.len(),
            old(cache)@.wf(),
        ensures
            final(cache)@.wf(),
            (final(cache)@, result_view(r)) == self.typed(
                node as int,
                parent@,
                variable@,
                text_view(text),
                *target,
                old(cache)@,
                fuel as nat,
            ),
        decreases fuel, 5int,
    {
        let mut updated = variable;
        let tag = self.entries[node].tag;
        if tag == DW_TAG_BASE_TYPE {
            match index_into(&mut updated, parent) {
                Ok(_) => {},
                Err(error) => {
                    return Err(error);
                },
            }
            updated.variable_type = VariableType::Base(text_or_unnamed(text));
            Ok(updated)
        } else if tag == DW_TAG_POINTER_TYPE {
            updated.variable_type = VariableType::Pointer(text);
            Ok(self.type_pointer(node, updated, cache))
        } else if tag == DW_TAG_STRUCTURE_TYPE {
            match index_into(&mut updated, parent) {
                Ok(_) => {},
                Err(error) => {
                    return Err(error);
                },
            }
            updated.variable_type = VariableType::Struct(text_or_unnamed(text));
            self.type_structure(node, updated, target, cache, fuel)
        } else if tag == DW_TAG_ENUMERATION_TYPE {
            updated.variable_type = VariableType::Enum(text_or_unnamed(text));
            match self.process_tree_within(node, updated, target, cache, fuel) {
                Ok(updated) => {
                    if parent.is_valid() && updated.is_valid() {
                        value_enumeration(updated, target, cache)
                    } else {
                        Ok(updated)
                    }
                },
                Err(error) => Err(error),
            }
        } else if tag == DW_TAG_ARRAY_TYPE {
            self.type_array(node, updated, target, cache, fuel)
        } else if tag == DW_TAG_UNION_TYPE {
            match index_into(&mut updated, parent) {
                Ok(_) => {},
                Err(error) => {
                    return Err(error);
                },
            }
            // There is no telling which arm of the union is in use, so all are shown.
            match self.process_tree_within(node, updated, target, cache, fuel) {
                Ok(mut updated) => {
                    if updated.is_valid() && !cache.has_children(&updated) {
                        let text = updated.variable_type.describe();
                        updated.set_value(VariableValue::Valid(text));
                    }
                    Ok(updated)
                },
                Err(error) => Err(error),
            }
        } else if tag == DW_TAG_SUBROUTINE_TYPE {
            self.type_subroutine(node, updated)
        } else if tag == DW_TAG_COMPILE_UNIT {
            // This happens when the statics are resolved later than the rest.
            self.process_tree_within(node, updated, target, cache, fuel)
        } else {
            updated.set_error(
                join3("<unimplemented: type : ", describe_tag(tag).as_str(), ">"),
            );
            updated.variable_type = VariableType::Other(String::from_str("unimplemented"));
            cache.remove_cache_entry_children(updated.variable_key);
            Ok(updated)
        }
    }

    /// Gives `variable`, a part of `parent`, the type that the entry `node` describes, and stores
    /// it. The result is the variable as it stands in the cache.
    ///
    /// Only base types have values. Other types are trees of entries, which are resolved by
    /// [`process_tree`](UnitInfo::process_tree).
    pub fn extract_type(
        &self,
        node: usize,
        parent: &Variable,
        variable: Variable,
        target: &Target,
        cache: &mut VariableCache,
    ) -> (r: Result<Variable, DebugError>)
        requires
            self.wf(),
            node < self.entries@.len(),
            old(cache)@.wf(),
        ensures
            final(cache)@.wf(),
            r matches Ok(stored) ==> latest(final(cache)@, stored@),
            (final(cache)@, result_view(r)) == self.type_extracted(
                node as int,
                parent@,
                variable@,
                *target,
                old(cache)@,
                NESTING_LIMIT as nat,
            ),
    {
        self.extract_type_within(node, parent, variable, target, cache, NESTING_LIMIT)
    }

    /// Gives `variable` its type as [`extract_type`](UnitInfo::extract_type) does, for callers that
    /// have to spare the stack: entries and types that are nested deeper than `fuel` are refused.
    pub fn extract_type_within(
        &self,
        node: usize,
        parent: &Variable,
        variable: Variable,
        target: &Target,
        cache: &mut VariableCache,
        fuel: u32,
    ) -> (r: Result<Variable, DebugError>)
        requires
            self.wf(),
            node < self.entries@.len(),
            old(cache)@.wf(),
        ensures
            final(cache)@.wf(),
            r matches Ok(stored) ==> latest(final(cache)@, stored@),
            (final(cache)@, result_view(r)) == self.type_extracted(
                node as int,
                parent@,
                variable@,
                *target,
                old(cache)@,
                fuel as nat,
            ),
        decreases fuel, 0int,
    {
        if fuel == 0 {
            return Err(DebugError::NestedTooDeep);
        }
        let mut updated = variable;
        let text = match self.entries[node].attr(DW_AT_NAME) {
            Ok(Some(attribute)) => Some(attribute.text.clone()),
            Ok(None) => None,
            Err(error) => {
                let message = join3("Error: evaluating type name: ", error.as_str(), " ");
                updated.set_error(message.clone());
                Some(message)
            },
        };
        if updated.is_valid() {
            if is_shown_at_once(&updated.variable_type) {
                updated.variable_node_type = VariableNodeType::RecurseToBaseType;
            }
            updated.byte_size = self.entries[node].extract_byte_size();
            updated = match self.type_variable(
                node,
                parent,
                updated,
                text,
                target,
                cache,
                fuel - 1,
            ) {
                Ok(updated) => updated,
                Err(error) => {
                    return Err(error);
                },
            };
        }
        cache.cache_variable(Some(parent.variable_key), updated, target)
    }
}

} // verus!
