//! Where variables are kept.
use vstd::prelude::*;

use crate::cache::VariableCache;
#[allow(unused_imports)]
use crate::cache::{latest, CacheView};
use crate::dwarf::{
    Attribute, AttributeValue, LocationEntry, LocationList, UnitInfo, DW_AT_ADDRESS_CLASS,
    DW_AT_DATA_MEMBER_LOCATION, DW_AT_FRAME_BASE, DW_AT_LOCATION,
};
#[allow(unused_imports)]
use crate::dwarf::Encoding;
use crate::error::DebugError;
#[allow(unused_imports)]
use crate::error::{result_view, unit_view, DebugErrorView};
#[allow(unused_imports)]
use crate::evaluation::evaluated;
use crate::target::Target;
#[allow(unused_imports)]
use crate::text::decimal;
use crate::text::{join2, join3, u64_text};
use crate::variable::{Variable, VariableLocation};
#[allow(unused_imports)]
use crate::variable::VariableView;

verus! {

/// The expression of the first of `entries`, from `from` on, whose range holds `address`.
pub open spec fn expression_at(entries: Seq<LocationEntry>, address: nat, from: int) -> Option<
    Seq<u8>,
>
    decreases entries.len() - from,
{
    if from >= entries.len() {
        None
    } else if entries[from].range.holds(address) {
        Some(entries[from].expression@)
    } else {
        expression_at(entries, address, from + 1)
    }
}

/// What becomes of `variable` when `expression` says where it is kept: an error goes into its
/// value, unless only the caller can decide it.
pub open spec fn placed(
    variable: VariableView,
    expression: Seq<u8>,
    encoding: Encoding,
    target: Target,
) -> (VariableView, Result<(), DebugErrorView>) {
    match evaluated(variable, expression, encoding, target) {
        (updated, Ok(_)) => (updated, Ok(())),
        (updated, Err(error)) => if error.for_caller() {
            (updated, Err(error))
        } else {
            (
                updated.with_error(
                    "Error: Determining memory location for this variable: "@ + error.described(),
                ),
                Ok(()),
            )
        },
    }
}

/// What becomes of `variable` when `list` says where it is kept.
pub open spec fn placed_by_list(
    variable: VariableView,
    list: LocationList,
    encoding: Encoding,
    target: Target,
) -> (VariableView, Result<(), DebugErrorView>) {
    match list {
        LocationList::Unreadable(text) => (
            variable.with_error("Error: Resolving variable Location: "@ + text@),
            Ok(()),
        ),
        LocationList::Entries { entries, error } => match target.registers.program_counter {
            None => (
                variable.with_error(
                    "Cannot determine variable location without a valid program counter."@,
                ),
                Ok(()),
            ),
            Some(program_counter) => match expression_at(
                entries@,
                program_counter.number(),
                0,
            ) {
                Some(expression) => placed(variable, expression, encoding, target),
                None => {
                    let iterated = match error {
                        Some(text) => variable.with_error(
                            "Error: Iterating LocationLists for this variable: "@ + text@,
                        ),
                        None => variable,
                    };
                    (iterated.with_error("<value out of scope - moved or dropped>"@), Ok(()))
                },
            },
        },
    }
}

/// What becomes of `variable`, a part of `parent`, by one of its attributes.
pub open spec fn located_by(
    variable: VariableView,
    parent: VariableView,
    attribute: Attribute,
    encoding: Encoding,
    target: Target,
) -> (VariableView, Result<(), DebugErrorView>) {
    if attribute.name == DW_AT_LOCATION || attribute.name == DW_AT_DATA_MEMBER_LOCATION
        || attribute.name == DW_AT_FRAME_BASE {
        match attribute.value {
            AttributeValue::Exprloc(expression) => placed(
                variable,
                expression@,
                encoding,
                target,
            ),
            AttributeValue::Udata(offset) => match parent.memory_location {
                VariableLocation::Address(address) => if address + offset <= u64::MAX {
                    (
                        Variable {
                            memory_location: VariableLocation::Address((address + offset) as u64),
                            ..variable
                        },
                        Ok(()),
                    )
                } else {
                    (variable, Err(DebugError::AddressOverflow))
                },
                _ => (
                    Variable { memory_location: VariableLocation::Unavailable, ..variable },
                    Ok(()),
                ),
            },
            AttributeValue::LocationListsRef(list) => placed_by_list(
                variable,
                list,
                encoding,
                target,
            ),
            _ => (
                variable.with_error(
                    "Unimplemented: extract_location() Could not extract location from: "@
                        + attribute.debug@,
                ),
                Ok(()),
            ),
        }
    } else if attribute.name == DW_AT_ADDRESS_CLASS {
        match attribute.value {
            AttributeValue::AddressClass(class) => if class == 0 {
                (variable, Ok(()))
            } else {
                (
                    variable.with_error(
                        "Unimplemented: extract_location() found unsupported DW_AT_address_class(gimli::DwAddr(DwAddr("@
                            + decimal(class as nat) + ")))"@,
                    ),
                    Ok(()),
                )
            },
            _ => (
                variable.with_error(
                    "Unimplemented: extract_location() found invalid DW_AT_address_class: "@
                        + attribute.debug@,
                ),
                Ok(()),
            ),
        }
    } else {
        (variable, Ok(()))
    }
}

/// What becomes of `variable`, a part of `parent`, by its attributes from `from` on.
pub open spec fn located_from(
    variable: VariableView,
    parent: VariableView,
    attributes: Seq<Attribute>,
    from: int,
    encoding: Encoding,
    target: Target,
) -> (VariableView, Result<(), DebugErrorView>)
    decreases attributes.len() - from,
{
    if from >= attributes.len() {
        (variable, Ok(()))
    } else {
        match located_by(variable, parent, attributes[from], encoding, target) {
            (updated, Ok(_)) => located_from(
                updated,
                parent,
                attributes,
                from + 1,
                encoding,
                target,
            ),
            (updated, Err(error)) => (updated, Err(error)),
        }
    }
}

impl UnitInfo {
    /// The cache and the variable once the place of `variable`, a part of `parent`, was determined
    /// from the attributes of the entry `node`.
    pub open spec fn location_extracted(
        self,
        node: int,
        parent: VariableView,
        variable: VariableView,
        target: Target,
        cache: CacheView,
    ) -> (CacheView, Result<VariableView, DebugErrorView>) {
        match located_from(
            variable,
            parent,
            self.entries@[node].attributes@,
            0,
            self.encoding,
            target,
        ) {
            (updated, Ok(_)) => cache.stored(updated.parent_key, updated, target),
            (_, Err(error)) => (cache, Err(error)),
        }
    }

    /// Updates `variable` by evaluating `expression`; an error goes into its value, unless only
    /// the caller can decide it.
    fn place(&self, target: &Target, variable: &mut Variable, expression: &Vec<u8>) -> (r: Result<
        (),
        DebugError,
    >)
        requires
            self.wf(),
        ensures
            (final(variable)@, unit_view(r)) == placed(
                old(variable)@,
                expression@,
                self.encoding,
                *target,
            ),
    {
        match self.evaluate_expression(target, variable, expression) {
            Ok(_) => Ok(()),
            Err(error) => {
                if error.is_for_caller() {
                    return Err(error);
                }
                variable.set_error(
                    join2(
                        "Error: Determining memory location for this variable: ",
                        error.describe().as_str(),
                    ),
                );
                Ok(())
            },
        }
    }

    /// Updates `variable`, of which `list` says where it is kept.
    fn place_by_list(&self, target: &Target, variable: &mut Variable, list: &LocationList) -> (r:
        Result<(), DebugError>)
        requires
            self.wf(),
        ensures
            (final(variable)@, unit_view(r)) == placed_by_list(
                old(variable)@,
                *list,
                self.encoding,
                *target,
            ),
    {
        match list {
            LocationList::Unreadable(text) => {
                variable.set_error(join2("Error: Resolving variable Location: ", text.as_str()));
                Ok(())
            },
            LocationList::Entries { entries, error } => {
                let program_counter: u128 = match target.registers.program_counter {
                    Some(program_counter) => program_counter.value(),
                    None => {
                        variable.set_error(
                            String::from_str(
                                "Cannot determine variable location without a valid program counter.",
                            ),
                        );
                        return Ok(());
                    },
                };
                let mut i: usize = 0;
                while i < entries.len()
                    invariant
                        i <= entries.len(),
                        variable@ == old(variable)@,
                        self.wf(),
                        *list == (LocationList::Entries { entries: *entries, error: *error }),
                        target.registers.program_counter matches Some(counter)
                            && counter.number() == program_counter,
                        expression_at(entries@, program_counter as nat, 0) == expression_at(
                            entries@,
                            program_counter as nat,
                            i as int,
                        ),
                    decreases entries.len() - i,
                {
                    if entries[i].range.contains(program_counter) {
                        return self.place(target, variable, &entries[i].expression);
                    }
                    i = i + 1;
                }
                match error {
                    Some(text) => {
                        variable.set_error(
                            join2(
                                "Error: Iterating LocationLists for this variable: ",
                                text.as_str(),
                            ),
                        );
                    },
                    None => {},
                }
                variable.set_error(String::from_str("<value out of scope - moved or dropped>"));
                Ok(())
            },
        }
    }

    /// Updates `variable`, a part of `parent`, by one of its attributes.
    fn locate_by(
        &self,
        target: &Target,
        parent: &Variable,
        variable: &mut Variable,
        attribute: &Attribute,
    ) -> (r: Result<(), DebugError>)
        requires
            self.wf(),
        ensures
            (final(variable)@, unit_view(r)) == located_by(
                old(variable)@,
                parent@,
                *attribute,
                self.encoding,
                *target,
            ),
    {
        if attribute.name == DW_AT_LOCATION || attribute.name == DW_AT_DATA_MEMBER_LOCATION
            || attribute.name == DW_AT_FRAME_BASE {
            match &attribute.value {
                AttributeValue::Exprloc(expression) => {
                    return self.place(target, variable, expression);
                },
                AttributeValue::Udata(offset) => match &parent.memory_location {
                    VariableLocation::Address(address) => match address.checked_add(*offset) {
                        Some(sum) => {
                            variable.memory_location = VariableLocation::Address(sum);
                        },
                        None => {
                            return Err(DebugError::AddressOverflow);
                        },
                    },
                    _ => {
                        variable.memory_location = VariableLocation::Unavailable;
                    },
                },
                AttributeValue::LocationListsRef(list) => {
                    return self.place_by_list(target, variable, list);
                },
                _ => {
                    variable.set_error(
                        join2(
                            "Unimplemented: extract_location() Could not extract location from: ",
                            attribute.debug.as_str(),
                        ),
                    );
                },
            }
        } else if attribute.name == DW_AT_ADDRESS_CLASS {
            match &attribute.value {
                AttributeValue::AddressClass(class) => {
                    // Nothing to do in this case where it is zero.
                    if *class != 0 {
                        variable.set_error(
                            join3(
                                "Unimplemented: extract_location() found unsupported DW_AT_address_class(gimli::DwAddr(DwAddr(",
                                u64_text(*class).as_str(),
                                ")))",
                            ),
                        );
                    }
                },
                _ => {
                    variable.set_error(
                        join2(
                            "Unimplemented: extract_location() found invalid DW_AT_address_class: ",
                            attribute.debug.as_str(),
                        ),
                    );
                },
            }
        }
        Ok(())
    }

    /// Finds out where `variable`, a part of `parent`, is kept by the attributes of the entry
    /// `node`, and stores it. The result is the variable as it stands in the cache.
    ///
    /// This sets either the place or the value of the variable.
    pub fn extract_location(
        &self,
        node: usize,
        parent: &Variable,
        variable: Variable,
        target: &Target,
        cache: &mut VariableCache,
    ) -> (r: Result<Variable, DebugError>)
        requires
            self.wf(),
            node < self.entries@.len(),
            old(cache)@.wf(),
        ensures
            final(cache)@.wf(),
            r matches Ok(stored) ==> latest(final(cache)@, stored@),
            (final(cache)@, result_view(r)) == self.location_extracted(
                node as int,
                parent@,
                variable@,
                *target,
                old(cache)@,
            ),
    {
        let mut updated = variable;
        let attributes = &self.entries[node].attributes;
        let mut i: usize = 0;
        while i < attributes.len()
            invariant
                i <= attributes.len(),
                node < self.entries@.len(),
                attributes@ == self.entries@[node as int].attributes@,
                self.wf(),
                cache@ == old(cache)@,
                cache@.wf(),
                located_from(variable@, parent@, attributes@, 0, self.encoding, *target)
                    == located_from(
                    updated@,
                    parent@,
                    attributes@,
                    i as int,
                    self.encoding,
                    *target,
                ),
            decreases attributes.len() - i,
        {
            match self.locate_by(target, parent, &mut updated, &attributes[i]) {
                Ok(_) => {},
                Err(error) => {
                    return Err(error);
                },
            }
            i = i + 1;
        }
        cache.cache_variable(updated.parent_key, updated, target)
    }
}

} // verus!
