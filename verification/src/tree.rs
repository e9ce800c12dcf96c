//! The variables below an entry.
use vstd::prelude::*;

use crate::cache::VariableCache;
#[allow(unused_imports)]
use crate::cache::{latest, CacheView};
#[allow(unused_imports)]
use crate::describe::text_described;
use crate::dwarf::{
    AttributeValue, Entry, Range, UnitInfo, DW_AT_DISCR_VALUE, DW_AT_HIGH_PC, DW_AT_LOW_PC,
    DW_AT_NAME, DW_AT_RANGES, DW_TAG_ARRAY_TYPE, DW_TAG_BASE_TYPE, DW_TAG_ENUMERATION_TYPE,
    DW_TAG_ENUMERATOR, DW_TAG_FORMAL_PARAMETER, DW_TAG_INLINED_SUBROUTINE, DW_TAG_LEXICAL_BLOCK,
    DW_TAG_MEMBER, DW_TAG_NAMESPACE, DW_TAG_POINTER_TYPE, DW_TAG_STRUCTURE_TYPE,
    DW_TAG_SUBPROGRAM, DW_TAG_SUBRANGE_TYPE, DW_TAG_SUBROUTINE_TYPE,
    DW_TAG_TEMPLATE_TYPE_PARAMETER, DW_TAG_UNION_TYPE, DW_TAG_VARIABLE, DW_TAG_VARIANT,
    DW_TAG_VARIANT_PART,
};
use crate::error::DebugError;
#[allow(unused_imports)]
use crate::error::{result_view, DebugErrorView};
use crate::names::describe_tag;
#[allow(unused_imports)]
use crate::names::gimli_tag_name;
use crate::target::Target;
use crate::text::{join2, join3, join4};
use crate::variable::{
    Variable, VariableLocation, VariableName, VariableType, VariantRole,
};
#[allow(unused_imports)]
use crate::variable::VariableView;

verus! {

/// How deep entries and types may be nested: deeper than any stack is.
pub const NESTING_LIMIT: u32 = 0xffff_ffff;

/// A cache together with the variable that is the outcome of a step, if it does not fail.
pub type Outcome = (CacheView, Result<VariableView, DebugErrorView>);

/// What becomes of `variable` when its discriminant is read from `entry`, the entry of a variant.
/// Where none is given, the variant is the default one.
pub open spec fn discriminated(variable: VariableView, entry: Entry) -> VariableView {
    if entry.tag != DW_TAG_VARIANT {
        variable
    } else {
        match entry.attribute(DW_AT_DISCR_VALUE) {
            Ok(Some(attribute)) => match attribute.value {
                AttributeValue::Data1(value) => Variable {
                    role: VariantRole::Variant(value as u64),
                    ..variable
                },
                _ => Variable {
                    role: VariantRole::Variant(u64::MAX),
                    ..variable.with_error(
                        "Unimplemented: Attribute Value for DW_AT_discr_value: "@
                            + attribute.debug@,
                    )
                },
            },
            Ok(None) => Variable { role: VariantRole::Variant(u64::MAX), ..variable },
            Err(_) => Variable {
                role: VariantRole::NonVariant,
                ..variable.with_error(
                    "Error: Retrieving DW_AT_discr_value for variable "@ + variable.described(),
                )
            },
        }
    }
}

/// Whether one of `ranges` holds `address`.
pub open spec fn in_ranges(ranges: Seq<Range>, address: nat) -> bool {
    exists|i: int| 0 <= i < ranges.len() && (#[trigger] ranges[i]).holds(address)
}

/// The bounds that `entry` gives by two attributes, if it does: the first address of its code
/// and the one behind the last; or that there is no such address. Where the first one is not given
/// as an address there are none to go by, and the bounds hold nothing.
pub open spec fn discrete_scope(entry: Entry) -> Result<Option<(u64, u64)>, DebugErrorView> {
    match entry.attribute(DW_AT_LOW_PC) {
        Ok(Some(low_attribute)) => match low_attribute.value {
            AttributeValue::Addr(low) => match entry.attribute(DW_AT_HIGH_PC) {
                Ok(Some(high_attribute)) => match high_attribute.value {
                    AttributeValue::Addr(address) => Ok(Some((low, address))),
                    AttributeValue::Udata(length) => if low + length <= u64::MAX {
                        Ok(Some((low, (low + length) as u64)))
                    } else {
                        Err(DebugError::AddressOverflow)
                    },
                    _ => Ok(Some((low, 0))),
                },
                _ => Ok(Some((low, 0))),
            },
            _ => Ok(Some((u64::MAX, 0))),
        },
        _ => Ok(None),
    }
}

/// `variable` once it is known that the bounds of a block in it are `bounds`.
pub open spec fn scope_checked(variable: VariableView, bounds: Option<(u64, u64)>) -> VariableView {
    match bounds {
        Some((low, high)) => if low == u64::MAX || high == 0 {
            variable.with_error(
                "Error: Processing of variables failed because of invalid/unsupported scope information. Please log a bug at 'https://github.com/probe-rs/probe-rs/issues'"@,
            )
        } else {
            variable
        },
        None => variable,
    }
}

/// Whether `address` lies between `bounds`.
pub open spec fn between(bounds: Option<(u64, u64)>, address: u64) -> bool {
    match bounds {
        Some((low, high)) => low <= address < high,
        None => false,
    }
}

/// Whether the block `entry` of `variable` is in scope at `program_counter`, and what becomes of
/// the variable by looking for it.
pub open spec fn scope_of(entry: Entry, variable: VariableView, program_counter: u64) -> Result<
    (VariableView, bool),
    DebugErrorView,
> {
    match discrete_scope(entry) {
        Err(error) => Err(error),
        Ok(bounds) => {
            let checked = scope_checked(variable, bounds);
            if between(bounds, program_counter) {
                Ok((checked, true))
            } else {
                match entry.attribute(DW_AT_RANGES) {
                    Ok(Some(attribute)) => match attribute.value {
                        AttributeValue::RangeListsRef(ranges) => Ok(
                            (checked, in_ranges(ranges@, program_counter as nat)),
                        ),
                        _ => Ok(
                            (
                                checked.with_error(
                                    "Found unexpected scope attribute: "@ + attribute.debug@
                                        + " for variable "@ + checked.name.described(),
                                ),
                                false,
                            ),
                        ),
                    },
                    _ => Ok((checked, false)),
                }
            }
        },
    }
}

/// The name of the namespace `entry` in the namespace `outer`, if that is one.
pub open spec fn namespace_name(entry: Entry, outer: Option<VariableName<Seq<char>>>) -> Result<
    VariableName<Seq<char>>,
    DebugErrorView,
> {
    match entry.attribute(DW_AT_NAME) {
        Ok(Some(attribute)) => match outer {
            None => Ok(VariableName::Namespace(attribute.text@)),
            Some(VariableName::Namespace(name)) => Ok(
                VariableName::Namespace(name + "::"@ + attribute.text@),
            ),
            Some(other) => Err(
                DebugError::Other(
                    "Unable to construct namespace variable, unexpected parent name: "@
                        + other.described(),
                ),
            ),
        },
        _ => Ok(VariableName::AnonymousNamespace),
    }
}

/// Whether entries with the tag `tag` are of no concern among the children of an entry: they are
/// put to use elsewhere, or not at all.
pub open spec fn passed_over(tag: u16) -> bool {
    ||| tag == DW_TAG_TEMPLATE_TYPE_PARAMETER
    ||| tag == DW_TAG_FORMAL_PARAMETER
    ||| tag == DW_TAG_INLINED_SUBROUTINE
    ||| tag == DW_TAG_BASE_TYPE
    ||| tag == DW_TAG_POINTER_TYPE
    ||| tag == DW_TAG_STRUCTURE_TYPE
    ||| tag == DW_TAG_ENUMERATION_TYPE
    ||| tag == DW_TAG_ARRAY_TYPE
    ||| tag == DW_TAG_SUBROUTINE_TYPE
    ||| tag == DW_TAG_SUBPROGRAM
    ||| tag == DW_TAG_UNION_TYPE
}

/// `parent` with what `range` says of the elements of an array, if it is valid.
pub open spec fn ranged(parent: VariableView, range: VariableView) -> VariableView {
    if range.valid() {
        Variable {
            variable_type: range.variable_type,
            range_lower_bound: range.range_lower_bound,
            range_upper_bound: range.range_upper_bound,
            ..parent
        }
    } else {
        parent
    }
}

impl UnitInfo {
    /// A new variable that the entry `node` describes.
    pub open spec fn variable_of(self, node: int) -> VariableView {
        VariableView::fresh(self.header_offset, Some(self.entries@[node].offset))
    }

    /// A new variable for the namespace `node`.
    pub open spec fn namespace_of(self, node: int, name: VariableName<Seq<char>>) -> VariableView {
        Variable {
            name,
            variable_type: VariableType::Namespace,
            memory_location: VariableLocation::Unavailable,
            ..self.variable_of(node)
        }
    }

    /// The outcome of a step once the variable with the key `key` was removed, if it can be.
    pub open spec fn dropping(
        self,
        cache: CacheView,
        key: i64,
        variable: VariableView,
    ) -> Outcome {
        match cache.removed(key) {
            (after, Ok(_)) => (after, Ok(variable)),
            (after, Err(error)) => (after, Err(error)),
        }
    }

    /// The outcome of resolving all below the entry `node` as parts of `parent`, to a depth of
    /// `fuel` entries and types.
    pub open spec fn tree_processed(
        self,
        node: int,
        parent: VariableView,
        target: Target,
        cache: CacheView,
        fuel: nat,
    ) -> Outcome
        decreases fuel, 0int, 0int,
    {
        if fuel == 0 {
            (cache, Err(DebugError::NestedTooDeep))
        } else if !parent.valid() {
            cache.stored(parent.parent_key, parent, target)
        } else {
            match target.registers.program_counter {
                None => (
                    cache,
                    Err(
                        DebugError::Other(
                            "Cannot unwind `Variable` without a valid PC (program_counter)"@,
                        ),
                    ),
                ),
                Some(program_counter) => if program_counter.number() > u64::MAX {
                    (cache, Err(DebugError::RegisterTooWide))
                } else {
                    match self.children_from(
                        node,
                        0,
                        parent,
                        program_counter.number() as u64,
                        target,
                        cache,
                        (fuel - 1) as nat,
                    ) {
                        (after, Ok(updated)) => after.stored(updated.parent_key, updated, target),
                        (after, Err(error)) => (after, Err(error)),
                    }
                },
            }
        }
    }

    /// The outcome of resolving the children of the entry `node`, from the `from`-th on, as parts
    /// of `parent`.
    pub open spec fn children_from(
        self,
        node: int,
        from: int,
        parent: VariableView,
        program_counter: u64,
        target: Target,
        cache: CacheView,
        fuel: nat,
    ) -> Outcome
        decreases fuel, 5int, self.entries@[node].children@.len() - from,
    {
        let children = self.entries@[node].children@;
        if from >= children.len() {
            match self.entries@[node].children_error {
                Some(text) => (cache, Err(DebugError::Dwarf(text@))),
                None => (cache, Ok(parent)),
            }
        } else {
            match self.entry_at(children[from]) {
                None => (cache, Err(DebugError::NoEntry(children[from]))),
                Some(child) => match self.child_processed(
                    child,
                    parent,
                    program_counter,
                    target,
                    cache,
                    fuel,
                ) {
                    (after, Ok(updated)) => self.children_from(
                        node,
                        from + 1,
                        updated,
                        program_counter,
                        target,
                        after,
                        fuel,
                    ),
                    (after, Err(error)) => (after, Err(error)),
                },
            }
        }
    }

    /// The outcome of resolving the entry `child` as a part of `parent`.
    pub open spec fn child_processed(
        self,
        child: int,
        parent: VariableView,
        program_counter: u64,
        target: Target,
        cache: CacheView,
        fuel: nat,
    ) -> Outcome
        decreases fuel, 4int, 0int,
    {
        let tag = self.entries@[child].tag;
        if tag == DW_TAG_NAMESPACE {
            self.namespace_processed(child, parent, target, cache, fuel)
        } else if tag == DW_TAG_VARIABLE || tag == DW_TAG_MEMBER || tag == DW_TAG_ENUMERATOR {
            self.member_processed(child, parent, target, cache, fuel)
        } else if tag == DW_TAG_VARIANT_PART {
            self.variant_part_processed(child, parent, target, cache, fuel)
        } else if tag == DW_TAG_VARIANT {
            self.variant_processed(child, parent, target, cache, fuel)
        } else if tag == DW_TAG_SUBRANGE_TYPE {
            self.subrange_processed(child, parent, target, cache, fuel)
        } else if tag == DW_TAG_LEXICAL_BLOCK {
            self.block_processed(child, parent, program_counter, target, cache, fuel)
        } else if passed_over(tag) {
            (cache, Ok(parent))
        } else {
            (
                cache,
                Ok(
                    parent.with_error(
                        "Unimplemented: Encountered unimplemented DwTag "@ + text_described(
                            gimli_tag_name(tag),
                        ) + " for Variable "@ + parent.described(),
                    ),
                ),
            )
        }
    }

    /// The outcome of resolving the namespace `child`. It is kept only if it has children.
    pub open spec fn namespace_processed(
        self,
        child: int,
        parent: VariableView,
        target: Target,
        cache: CacheView,
        fuel: nat,
    ) -> Outcome
        decreases fuel, 3int, 0int,
    {
        match namespace_name(self.entries@[child], None) {
            Err(error) => (cache, Err(error)),
            Ok(name) => match cache.stored(
                Some(parent.variable_key),
                self.namespace_of(child, name),
                target,
            ) {
                (after, Err(error)) => (after, Err(error)),
                (after, Ok(namespace)) => match self.namespace_children_from(
                    child,
                    0,
                    namespace,
                    target,
                    after,
                    fuel,
                ) {
                    (after, Err(error)) => (after, Err(error)),
                    (after, Ok(namespace)) => if after.has_children(namespace.variable_key) {
                        (after, Ok(parent))
                    } else {
                        self.dropping(after, namespace.variable_key, parent)
                    },
                },
            },
        }
    }

    /// The outcome of resolving the children of the namespace `node`, from the `from`-th on.
    pub open spec fn namespace_children_from(
        self,
        node: int,
        from: int,
        namespace: VariableView,
        target: Target,
        cache: CacheView,
        fuel: nat,
    ) -> Outcome
        decreases fuel, 2int, self.entries@[node].children@.len() - from,
    {
        let children = self.entries@[node].children@;
        if from >= children.len() {
            match self.entries@[node].children_error {
                Some(text) => (cache, Err(DebugError::Dwarf(text@))),
                None => (cache, Ok(namespace)),
            }
        } else {
            match self.entry_at(children[from]) {
                None => (cache, Err(DebugError::NoEntry(children[from]))),
                Some(child) => match self.namespace_child_processed(
                    child,
                    namespace,
                    target,
                    cache,
                    fuel,
                ) {
                    (after, Ok(updated)) => self.namespace_children_from(
                        node,
                        from + 1,
                        updated,
                        target,
                        after,
                        fuel,
                    ),
                    (after, Err(error)) => (after, Err(error)),
                },
            }
        }
    }

    /// The outcome of resolving the entry `child` of a namespace: only variables, which are the
    /// statics of the namespace, and further namespaces count.
    pub open spec fn namespace_child_processed(
        self,
        child: int,
        namespace: VariableView,
        target: Target,
        cache: CacheView,
        fuel: nat,
    ) -> Outcome
        decreases fuel, 1int, 0int,
    {
        let tag = self.entries@[child].tag;
        if tag == DW_TAG_VARIABLE {
            match cache.stored(
                Some(namespace.variable_key),
                self.variable_of(child),
                target,
            ) {
                (after, Err(error)) => (after, Err(error)),
                (after, Ok(variable)) => match self.attributes_processed(
                    child,
                    namespace,
                    variable,
                    target,
                    after,
                    fuel,
                ) {
                    (after, updated, Ok(_)) => (after, Ok(updated)),
                    (after, _, Err(error)) => (after, Err(error)),
                },
            }
        } else if tag == DW_TAG_NAMESPACE {
            match namespace_name(self.entries@[child], Some(namespace.name)) {
                Err(error) => (cache, Err(error)),
                Ok(name) => match cache.stored(
                    Some(namespace.variable_key),
                    self.namespace_of(child, name),
                    target,
                ) {
                    (after, Err(error)) => (after, Err(error)),
                    (after, Ok(inner)) => match self.tree_processed(
                        child,
                        inner,
                        target,
                        after,
                        fuel,
                    ) {
                        (after, Err(error)) => (after, Err(error)),
                        (after, Ok(inner)) => if after.has_children(inner.variable_key) {
                            (after, Ok(namespace))
                        } else {
                            self.dropping(after, inner.variable_key, namespace)
                        },
                    },
                },
            }
        } else {
            (cache, Ok(namespace))
        }
    }

    /// The outcome of resolving the variable, member or enumerator `child`. What holds no data of
    /// its own is not kept.
    pub open spec fn member_processed(
        self,
        child: int,
        parent: VariableView,
        target: Target,
        cache: CacheView,
        fuel: nat,
    ) -> Outcome
        decreases fuel, 3int, 0int,
    {
        match cache.stored(Some(parent.variable_key), self.variable_of(child), target) {
            (after, Err(error)) => (after, Err(error)),
            (after, Ok(variable)) => match self.attributes_processed(
                child,
                parent,
                variable,
                target,
                after,
                fuel,
            ) {
                (after, _, Err(error)) => (after, Err(error)),
                (after, updated, Ok(variable)) => if variable.variable_type.phantom_data()
                    || variable.name is Artifical {
                    self.dropping(after, variable.variable_key, updated)
                } else if variable.valid() {
                    match self.tree_processed(child, variable, target, after, fuel) {
                        (after, Err(error)) => (after, Err(error)),
                        (after, Ok(_)) => (after, Ok(updated)),
                    }
                } else {
                    (after, Ok(updated))
                },
            },
        }
    }

    /// The outcome of resolving the variant part `child`: its attributes tell which of its
    /// variants is active, and the parts of that one become parts of `parent`.
    pub open spec fn variant_part_processed(
        self,
        child: int,
        parent: VariableView,
        target: Target,
        cache: CacheView,
        fuel: nat,
    ) -> Outcome
        decreases fuel, 3int, 0int,
    {
        match cache.stored(Some(parent.variable_key), self.variable_of(child), target) {
            (after, Err(error)) => (after, Err(error)),
            (after, Ok(variable)) => match self.attributes_processed(
                child,
                Variable { role: VariantRole::VariantPart(u64::MAX), ..parent },
                variable,
                target,
                after,
                fuel,
            ) {
                (after, _, Err(error)) => (after, Err(error)),
                (after, updated, Ok(variable)) => match after.removed(variable.variable_key) {
                    (after, Err(error)) => (after, Err(error)),
                    (after, Ok(_)) => self.tree_processed(child, updated, target, after, fuel),
                },
            },
        }
    }

    /// The outcome of resolving the variant `child`, unless one was resolved before. Its parts
    /// become parts of `parent` if it is the active variant or the default one.
    pub open spec fn variant_processed(
        self,
        child: int,
        parent: VariableView,
        target: Target,
        cache: CacheView,
        fuel: nat,
    ) -> Outcome
        decreases fuel, 3int, 0int,
    {
        if cache.has_children(parent.variable_key) {
            (cache, Ok(parent))
        } else {
            match cache.stored(Some(parent.variable_key), self.variable_of(child), target) {
                (after, Err(error)) => (after, Err(error)),
                (after, Ok(variable)) => match self.attributes_processed(
                    child,
                    parent,
                    discriminated(variable, self.entries@[child]),
                    target,
                    after,
                    fuel,
                ) {
                    (after, _, Err(error)) => (after, Err(error)),
                    (after, updated, Ok(variable)) => if !variable.valid() {
                        self.dropping(after, variable.variable_key, updated)
                    } else {
                        match variable.role {
                            VariantRole::Variant(discriminant) => if updated.role
                                == VariantRole::VariantPart(discriminant) || discriminant
                                == u64::MAX {
                                self.variant_adopted(
                                    child,
                                    updated,
                                    Variable {
                                        memory_location: updated.memory_location,
                                        ..variable
                                    },
                                    target,
                                    after,
                                    fuel,
                                )
                            } else {
                                self.dropping(after, variable.variable_key, updated)
                            },
                            _ => (after, Ok(updated)),
                        }
                    },
                },
            }
        }
    }

    /// The outcome of resolving all below the variant `child` and moving its parts to `parent`.
    pub open spec fn variant_adopted(
        self,
        child: int,
        parent: VariableView,
        variable: VariableView,
        target: Target,
        cache: CacheView,
        fuel: nat,
    ) -> Outcome
        decreases fuel, 1int, 0int,
    {
        match self.tree_processed(child, variable, target, cache, fuel) {
            (after, Err(error)) => (after, Err(error)),
            (after, Ok(variable)) => if variable.valid() {
                match after.adopt(parent.variable_key, variable.variable_key) {
                    (after, Err(error)) => (after, Err(error)),
                    (after, Ok(_)) => (after, Ok(parent)),
                }
            } else {
                (after, Ok(parent))
            },
        }
    }

    /// The outcome of reading the bounds of an array from the entry `child`.
    pub open spec fn subrange_processed(
        self,
        child: int,
        parent: VariableView,
        target: Target,
        cache: CacheView,
        fuel: nat,
    ) -> Outcome
        decreases fuel, 3int, 0int,
    {
        match cache.stored(Some(parent.variable_key), self.variable_of(child), target) {
            (after, Err(error)) => (after, Err(error)),
            (after, Ok(variable)) => match self.attributes_processed(
                child,
                parent,
                variable,
                target,
                after,
                fuel,
            ) {
                (after, _, Err(error)) => (after, Err(error)),
                (after, updated, Ok(variable)) => self.dropping(
                    after,
                    variable.variable_key,
                    ranged(updated, variable),
                ),
            },
        }
    }

    /// The outcome of resolving the block `child`: what is in it becomes part of `parent` if the
    /// block is in scope.
    pub open spec fn block_processed(
        self,
        child: int,
        parent: VariableView,
        program_counter: u64,
        target: Target,
        cache: CacheView,
        fuel: nat,
    ) -> Outcome
        decreases fuel, 3int, 0int,
    {
        match scope_of(self.entries@[child], parent, program_counter) {
            Err(error) => (cache, Err(error)),
            Ok((updated, true)) => self.tree_processed(child, updated, target, cache, fuel),
            Ok((updated, false)) => (
                cache,
                Ok(updated.with_error("<lexical block no longer in scope>"@)),
            ),
        }
    }
}

impl UnitInfo {
    /// A new variable that the entry `node` describes.
    pub(crate) fn new_variable(&self, node: usize) -> (r: Variable)
        requires
            node < self.entries@.len(),
        ensures
            r@ == self.variable_of(node as int),
    {
        Variable::new(self.header_offset, Some(self.entries[node].offset))
    }

    /// The name of the namespace `node` in the namespace `outer`, if that is one.
    fn name_namespace(&self, node: usize, outer: Option<&VariableName>) -> (r: Result<
        VariableName,
        DebugError,
    >)
        requires
            node < self.entries@.len(),
        ensures
            result_view(r) == namespace_name(
                self.entries@[node as int],
                match outer {
                    Some(name) => Some(name@),
                    None => None,
                },
            ),
    {
        match self.entries[node].attr(DW_AT_NAME) {
            Ok(Some(attribute)) => match outer {
                None => Ok(VariableName::Namespace(attribute.text.clone())),
                Some(VariableName::Namespace(name)) => Ok(
                    VariableName::Namespace(
                        join3(name.as_str(), "::", attribute.text.as_str()),
                    ),
                ),
                Some(other) => Err(
                    DebugError::Other(
                        join2(
                            "Unable to construct namespace variable, unexpected parent name: ",
                            other.describe().as_str(),
                        ),
                    ),
                ),
            },
            _ => Ok(VariableName::AnonymousNamespace),
        }
    }

    /// A new variable for the namespace `node`.
    fn new_namespace(&self, node: usize, name: VariableName) -> (r: Variable)
        requires
            node < self.entries@.len(),
        ensures
            r@ == self.namespace_of(node as int, name@),
    {
        let mut namespace = self.new_variable(node);
        namespace.name = name;
        namespace.variable_type = VariableType::Namespace;
        namespace.memory_location = VariableLocation::Unavailable;
        namespace
    }

    /// Removes the variable with the key `key` from the cache and hands back `variable`.
    fn remove(&self, cache: &mut VariableCache, key: i64, variable: Variable) -> (r: Result<
        Variable,
        DebugError,
    >)
        requires
            old(cache)@.wf(),
        ensures
            final(cache)@.wf(),
            (final(cache)@, result_view(r)) == self.dropping(old(cache)@, key, variable@),
    {
        match cache.remove_cache_entry(key) {
            Ok(_) => Ok(variable),
            Err(error) => Err(error),
        }
    }

    /// Computes the discriminant of `variable` where the entry `node` describes a variant. Where
    /// none is given, the variant is the default one.
    pub fn extract_variant_discriminant(&self, node: usize, variable: &mut Variable) -> (r: Result<
        (),
        DebugError,
    >)
        requires
            node < self.entries@.len(),
        ensures
            r is Ok,
            final(variable)@ == discriminated(old(variable)@, self.entries@[node as int]),
    {
        if self.entries[node].tag == DW_TAG_VARIANT {
            variable.role = match self.entries[node].attr(DW_AT_DISCR_VALUE) {
                Ok(Some(attribute)) => match attribute.value {
                    AttributeValue::Data1(value) => VariantRole::Variant(value as u64),
                    _ => {
                        variable.set_error(
                            join2(
                                "Unimplemented: Attribute Value for DW_AT_discr_value: ",
                                attribute.debug.as_str(),
                            ),
                        );
                        VariantRole::Variant(u64::MAX)
                    },
                },
                Ok(None) => VariantRole::Variant(u64::MAX),
                Err(_) => {
                    let text = variable.describe();
                    variable.set_error(
                        join2(
                            "Error: Retrieving DW_AT_discr_value for variable ",
                            text.as_str(),
                        ),
                    );
                    VariantRole::NonVariant
                },
            };
        }
        Ok(())
    }

    /// The bounds that the entry `node` gives by two attributes, if it does.
    fn find_discrete_scope(&self, node: usize) -> (r: Result<Option<(u64, u64)>, DebugError>)
        requires
            node < self.entries@.len(),
        ensures
            match r {
                Ok(bounds) => discrete_scope(self.entries@[node as int]) == Ok::<
                    _,
                    DebugErrorView,
                >(bounds),
                Err(error) => discrete_scope(self.entries@[node as int]) == Err::<
                    Option<(u64, u64)>,
                    _,
                >(error@),
            },
    {
        let entry = &self.entries[node];
        let low: u64 = match entry.attr(DW_AT_LOW_PC) {
            Ok(Some(attribute)) => match attribute.value {
                AttributeValue::Addr(address) => address,
                _ => {
                    return Ok(Some((u64::MAX, 0)));
                },
            },
            _ => {
                return Ok(None);
            },
        };
        let high: u64 = match entry.attr(DW_AT_HIGH_PC) {
            Ok(Some(attribute)) => match attribute.value {
                AttributeValue::Addr(address) => address,
                AttributeValue::Udata(length) => match low.checked_add(length) {
                    Some(sum) => sum,
                    None => {
                        return Err(DebugError::AddressOverflow);
                    },
                },
                _ => 0,
            },
            _ => 0,
        };
        Ok(Some((low, high)))
    }

    /// Whether the block `node` of `variable` is in scope at `program_counter`. What is wrong with
    /// its bounds goes into the value of the variable.
    fn find_scope(&self, node: usize, variable: Variable, program_counter: u64) -> (r: Result<
        (Variable, bool),
        DebugError,
    >)
        requires
            node < self.entries@.len(),
        ensures
            match r {
                Ok((updated, in_scope)) => scope_of(
                    self.entries@[node as int],
                    variable@,
                    program_counter,
                ) == Ok::<_, DebugErrorView>((updated@, in_scope)),
                Err(error) => scope_of(self.entries@[node as int], variable@, program_counter)
                    == Err::<(VariableView, bool), _>(error@),
            },
    {
        let mut updated = variable;
        let bounds = match self.find_discrete_scope(node) {
            Ok(bounds) => bounds,
            Err(error) => {
                return Err(error);
            },
        };
        match bounds {
            Some((low, high)) => {
                if low == u64::MAX || high == 0 {
                    updated.set_error(
                        String::from_str(
                            "Error: Processing of variables failed because of invalid/unsupported scope information. Please log a bug at 'https://github.com/probe-rs/probe-rs/issues'",
                        ),
                    );
                }
                if low <= program_counter && program_counter < high {
                    return Ok((updated, true));
                }
            },
            None => {},
        }
        match self.entries[node].attr(DW_AT_RANGES) {
            Ok(Some(attribute)) => match &attribute.value {
                AttributeValue::RangeListsRef(ranges) => {
                    let in_scope = ranges_hold(ranges, program_counter as u128);
                    Ok((updated, in_scope))
                },
                _ => {
                    let name = updated.name.describe();
                    updated.set_error(
                        join4(
                            "Found unexpected scope attribute: ",
                            attribute.debug.as_str(),
                            " for variable ",
                            name.as_str(),
                        ),
                    );
                    Ok((updated, false))
                },
            },
            _ => Ok((updated, false)),
        }
    }

    /// Resolves the block `child` if it is in scope. What is in it becomes part of `parent`.
    fn process_block(
        &self,
        child: usize,
        parent: Variable,
        program_counter: u64,
        target: &Target,
        cache: &mut VariableCache,
        fuel: u32,
    ) -> (r: Result<Variable, DebugError>)
        requires
            self.wf(),
            child < self.entries@.len(),
            old(cache)@.wf(),
        ensures
            final(cache)@.wf(),
            (final(cache)@, result_view(r)) == self.block_processed(
                child as int,
                parent@,
                program_counter,
                *target,
                old(cache)@,
                fuel as nat,
            ),
        decreases fuel, 3int,
    {
        match self.find_scope(child, parent, program_counter) {
            Err(error) => Err(error),
            Ok((updated, true)) => self.process_tree_within(child, updated, target, cache, fuel),
            Ok((mut updated, false)) => {
                updated.set_error(String::from_str("<lexical block no longer in scope>"));
                Ok(updated)
            },
        }
    }

    /// Reads the bounds of an array from the entry `child`.
    fn process_subrange(
        &self,
        child: usize,
        parent: Variable,
        target: &Target,
        cache: &mut VariableCache,
        fuel: u32,
    ) -> (r: Result<Variable, DebugError>)
        requires
            self.wf(),
            child < self.entries@.len(),
            old(cache)@.wf(),
        ensures
            final(cache)@.wf(),
            (final(cache)@, result_view(r)) == self.subrange_processed(
                child as int,
                parent@,
                *target,
                old(cache)@,
                fuel as nat,
            ),
        decreases fuel, 3int,
    {
        let mut parent = parent;
        let variable = match cache.cache_variable(
            Some(parent.variable_key),
            self.new_variable(child),
            target,
        ) {
            Ok(variable) => variable,
            Err(error) => {
                return Err(error);
            },
        };
        let variable = match self.process_tree_node_attributes_within(
            child,
            &mut parent,
            variable,
            target,
            cache,
            fuel,
        ) {
            Ok(variable) => variable,
            Err(error) => {
                return Err(error);
            },
        };
        if variable.is_valid() {
            parent.variable_type = variable.variable_type.clone();
            parent.range_lower_bound = variable.range_lower_bound;
            parent.range_upper_bound = variable.range_upper_bound;
        }
        self.remove(cache, variable.variable_key, parent)
    }

    /// Resolves the variable, member or enumerator `child`.
    fn process_member(
        &self,
        child: usize,
        parent: Variable,
        target: &Target,
        cache: &mut VariableCache,
        fuel: u32,
    ) -> (r: Result<Variable, DebugError>)
        requires
            self.wf(),
            child < self.entries@.len(),
            old(cache)@.wf(),
        ensures
            final(cache)@.wf(),
            (final(cache)@, result_view(r)) == self.member_processed(
                child as int,
                parent@,
                *target,
                old(cache)@,
                fuel as nat,
            ),
        decreases fuel, 3int,
    {
        let mut parent = parent;
        let variable = match cache.cache_variable(
            Some(parent.variable_key),
            self.new_variable(child),
            target,
        ) {
            Ok(variable) => variable,
            Err(error) => {
                return Err(error);
            },
        };
        let variable = match self.process_tree_node_attributes_within(
            child,
            &mut parent,
            variable,
            target,
            cache,
            fuel,
        ) {
            Ok(variable) => variable,
            Err(error) => {
                return Err(error);
            },
        };
        // What holds no data of its own, and what was put to use already, is not kept.
        let artificial = match variable.name {
            VariableName::Artifical => true,
            _ => false,
        };
        if variable.variable_type.is_phantom_data() || artificial {
            self.remove(cache, variable.variable_key, parent)
        } else if variable.is_valid() {
            match self.process_tree_within(child, variable, target, cache, fuel) {
                Ok(_) => Ok(parent),
                Err(error) => Err(error),
            }
        } else {
            Ok(parent)
        }
    }

    /// Resolves the variant part `child`: finds out which variant is active, and resolves it.
    fn process_variant_part(
        &self,
        child: usize,
        parent: Variable,
        target: &Target,
        cache: &mut VariableCache,
        fuel: u32,
    ) -> (r: Result<Variable, DebugError>)
        requires
            self.wf(),
            child < self.entries@.len(),
            old(cache)@.wf(),
        ensures
            final(cache)@.wf(),
            (final(cache)@, result_view(r)) == self.variant_part_processed(
                child as int,
                parent@,
                *target,
                old(cache)@,
                fuel as nat,
            ),
        decreases fuel, 3int,
    {
        let mut parent = parent;
        let variable = match cache.cache_variable(
            Some(parent.variable_key),
            self.new_variable(child),
            target,
        ) {
            Ok(variable) => variable,
            Err(error) => {
                return Err(error);
            },
        };
        // Without a discriminant there is one variant, the default one.
        parent.role = VariantRole::VariantPart(u64::MAX);
        let variable = match self.process_tree_node_attributes_within(
            child,
            &mut parent,
            variable,
            target,
            cache,
            fuel,
        ) {
            Ok(variable) => variable,
            Err(error) => {
                return Err(error);
            },
        };
        match cache.remove_cache_entry(variable.variable_key) {
            Ok(_) => self.process_tree_within(child, parent, target, cache, fuel),
            Err(error) => Err(error),
        }
    }

    /// Resolves the variant `child` if it is the active one, unless one was resolved before.
    fn process_variant(
        &self,
        child: usize,
        parent: Variable,
        target: &Target,
        cache: &mut VariableCache,
        fuel: u32,
    ) -> (r: Result<Variable, DebugError>)
        requires
            self.wf(),
            child < self.entries@.len(),
            old(cache)@.wf(),
        ensures
            final(cache)@.wf(),
            (final(cache)@, result_view(r)) == self.variant_processed(
                child as int,
                parent@,
                *target,
                old(cache)@,
                fuel as nat,
            ),
        decreases fuel, 3int,
    {
        if cache.has_children(&parent) {
            return Ok(parent);
        }
        let mut parent = parent;
        let mut variable = match cache.cache_variable(
            Some(parent.variable_key),
            self.new_variable(child),
            target,
        ) {
            Ok(variable) => variable,
            Err(error) => {
                return Err(error);
            },
        };
        match self.extract_variant_discriminant(child, &mut variable) {
            Ok(_) => {},
            Err(error) => {
                return Err(error);
            },
        }
        let variable = match self.process_tree_node_attributes_within(
            child,
            &mut parent,
            variable,
            target,
            cache,
            fuel,
        ) {
            Ok(variable) => variable,
            Err(error) => {
                return Err(error);
            },
        };
        if !variable.is_valid() {
            return self.remove(cache, variable.variable_key, parent);
        }
        match variable.role {
            VariantRole::Variant(discriminant) => {
                if parent.role == VariantRole::VariantPart(discriminant) || discriminant
                    == u64::MAX {
                    self.adopt_variant(child, parent, variable, target, cache, fuel)
                } else {
                    self.remove(cache, variable.variable_key, parent)
                }
            },
            _ => Ok(parent),
        }
    }

    /// Resolves all below the variant `child` and moves its parts to `parent`.
    fn adopt_variant(
        &self,
        child: usize,
        parent: Variable,
        variable: Variable,
        target: &Target,
        cache: &mut VariableCache,
        fuel: u32,
    ) -> (r: Result<Variable, DebugError>)
        requires
            self.wf(),
            child < self.entries@.len(),
            old(cache)@.wf(),
        ensures
            final(cache)@.wf(),
            (final(cache)@, result_view(r)) == self.variant_adopted(
                child as int,
                parent@,
                Variable { memory_location: parent@.memory_location, ..variable@ },
                *target,
                old(cache)@,
                fuel as nat,
            ),
        decreases fuel, 1int,
    {
        let mut variable = variable;
        variable.memory_location = parent.memory_location.clone();
        match self.process_tree_within(child, variable, target, cache, fuel) {
            Ok(variable) => {
                if variable.is_valid() {
                    // The variant itself is of no interest, but its parts are.
                    match cache.adopt_grand_children(&parent, &variable) {
                        Ok(_) => Ok(parent),
                        Err(error) => Err(error),
                    }
                } else {
                    Ok(parent)
                }
            },
            Err(error) => Err(error),
        }
    }

    /// Resolves the entry `child` of a namespace.
    fn process_namespace_child(
        &self,
        child: usize,
        namespace: Variable,
        target: &Target,
        cache: &mut VariableCache,
        fuel: u32,
    ) -> (r: Result<Variable, DebugError>)
        requires
            self.wf(),
            child < self.entries@.len(),
            old(cache)@.wf(),
        ensures
            final(cache)@.wf(),
            (final(cache)@, result_view(r)) == self.namespace_child_processed(
                child as int,
                namespace@,
                *target,
                old(cache)@,
                fuel as nat,
            ),
        decreases fuel, 1int,
    {
        let mut namespace = namespace;
        let tag = self.entries[child].tag;
        if tag == DW_TAG_VARIABLE {
            // Only the variables at the top level of the namespace, its statics, count.
            let variable = match cache.cache_variable(
                Some(namespace.variable_key),
                self.new_variable(child),
                target,
            ) {
                Ok(variable) => variable,
                Err(error) => {
                    return Err(error);
                },
            };
            match self.process_tree_node_attributes_within(
                child,
                &mut namespace,
                variable,
                target,
                cache,
                fuel,
            ) {
                Ok(_) => Ok(namespace),
                Err(error) => Err(error),
            }
        } else if tag == DW_TAG_NAMESPACE {
            let name = match self.name_namespace(child, Some(&namespace.name)) {
                Ok(name) => name,
                Err(error) => {
                    return Err(error);
                },
            };
            let inner = match cache.cache_variable(
                Some(namespace.variable_key),
                self.new_namespace(child, name),
                target,
            ) {
                Ok(inner) => inner,
                Err(error) => {
                    return Err(error);
                },
            };
            match self.process_tree_within(child, inner, target, cache, fuel) {
                Ok(inner) => {
                    if cache.has_children(&inner) {
                        Ok(namespace)
                    } else {
                        self.remove(cache, inner.variable_key, namespace)
                    }
                },
                Err(error) => Err(error),
            }
        } else {
            Ok(namespace)
        }
    }

    /// Resolves the namespace `child`, which holds the statics of the program.
    fn process_namespace(
        &self,
        child: usize,
        parent: Variable,
        target: &Target,
        cache: &mut VariableCache,
        fuel: u32,
    ) -> (r: Result<Variable, DebugError>)
        requires
            self.wf(),
            child < self.entries@.len(),
            old(cache)@.wf(),
        ensures
            final(cache)@.wf(),
            (final(cache)@, result_view(r)) == self.namespace_processed(
                child as int,
                parent@,
                *target,
                old(cache)@,
                fuel as nat,
            ),
        decreases fuel, 3int,
    {
        let name = match self.name_namespace(child, None) {
            Ok(name) => name,
            Err(error) => {
                return Err(error);
            },
        };
        let mut namespace = match cache.cache_variable(
            Some(parent.variable_key),
            self.new_namespace(child, name),
            target,
        ) {
            Ok(namespace) => namespace,
            Err(error) => {
                return Err(error);
            },
        };
        let children = &self.entries[child].children;
        let ghost all = self.namespace_children_from(
            child as int,
            0,
            namespace@,
            *target,
            cache@,
            fuel as nat,
        );
        let mut i: usize = 0;
        while i < children.len()
            invariant
                i <= children.len(),
                self.wf(),
                child < self.entries@.len(),
                children@ == self.entries@[child as int].children@,
                cache@.wf(),
                all == self.namespace_children_from(
                    child as int,
                    i as int,
                    namespace@,
                    *target,
                    cache@,
                    fuel as nat,
                ),
                all matches (_, Err(error)) ==> self.namespace_processed(
                    child as int,
                    parent@,
                    *target,
                    old(cache)@,
                    fuel as nat,
                ) == (all.0, Err::<VariableView, DebugErrorView>(error)),
            decreases children.len() - i,
        {
            let node = match self.find_entry(children[i]) {
                Ok(node) => node,
                Err(error) => {
                    return Err(error);
                },
            };
            namespace = match self.process_namespace_child(node, namespace, target, cache, fuel) {
                Ok(namespace) => namespace,
                Err(error) => {
                    return Err(error);
                },
            };
            i = i + 1;
        }
        match &self.entries[child].children_error {
            Some(text) => {
                return Err(DebugError::Dwarf(text.clone()));
            },
            None => {},
        }
        if cache.has_children(&namespace) {
            Ok(parent)
        } else {
            self.remove(cache, namespace.variable_key, parent)
        }
    }

    /// Resolves the entry `child` as a part of `parent`.
    fn process_child(
        &self,
        child: usize,
        parent: Variable,
        program_counter: u64,
        target: &Target,
        cache: &mut VariableCache,
        fuel: u32,
    ) -> (r: Result<Variable, DebugError>)
        requires
            self.wf(),
            child < self.entries@.len(),
            old(cache)@.wf(),
        ensures
            final(cache)@.wf(),
            (final(cache)@, result_view(r)) == self.child_processed(
                child as int,
                parent@,
                program_counter,
                *target,
                old(cache)@,
                fuel as nat,
            ),
        decreases fuel, 4int,
    {
        let tag = self.entries[child].tag;
        if tag == DW_TAG_NAMESPACE {
            self.process_namespace(child, parent, target, cache, fuel)
        } else if tag == DW_TAG_VARIABLE || tag == DW_TAG_MEMBER || tag == DW_TAG_ENUMERATOR {
            self.process_member(child, parent, target, cache, fuel)
        } else if tag == DW_TAG_VARIANT_PART {
            self.process_variant_part(child, parent, target, cache, fuel)
        } else if tag == DW_TAG_VARIANT {
            self.process_variant(child, parent, target, cache, fuel)
        } else if tag == DW_TAG_SUBRANGE_TYPE {
            self.process_subrange(child, parent, target, cache, fuel)
        } else if tag == DW_TAG_LEXICAL_BLOCK {
            self.process_block(child, parent, program_counter, target, cache, fuel)
        } else if is_passed_over(tag) {
            Ok(parent)
        } else {
            let mut parent = parent;
            let text = parent.describe();
            parent.set_error(
                join4(
                    "Unimplemented: Encountered unimplemented DwTag ",
                    describe_tag(tag).as_str(),
                    " for Variable ",
                    text.as_str(),
                ),
            );
            Ok(parent)
        }
    }

    /// Resolves all below the entry `node` as parts of `parent`, and stores what it finds and
    /// `parent` itself. The result is `parent` as it stands in the cache.
    pub fn process_tree(
        &self,
        node: usize,
        parent: Variable,
        target: &Target,
        cache: &mut VariableCache,
    ) -> (r: Result<Variable, DebugError>)
        requires
            self.wf(),
            node < self.entries@.len(),
            old(cache)@.wf(),
        ensures
            final(cache)@.wf(),
            r matches Ok(stored) ==> latest(final(cache)@, stored@),
            (final(cache)@, result_view(r)) == self.tree_processed(
                node as int,
                parent@,
                *target,
                old(cache)@,
                NESTING_LIMIT as nat,
            ),
    {
        self.process_tree_within(node, parent, target, cache, NESTING_LIMIT)
    }

    /// Resolves all below the entry `node` as [`process_tree`](UnitInfo::process_tree) does, for
    /// callers that have to spare the stack: entries and types that are nested deeper than `fuel`
    /// are refused.
    pub fn process_tree_within(
        &self,
        node: usize,
        parent: Variable,
        target: &Target,
        cache: &mut VariableCache,
        fuel: u32,
    ) -> (r: Result<Variable, DebugError>)
        requires
            self.wf(),
            node < self.entries@.len(),
            old(cache)@.wf(),
        ensures
            final(cache)@.wf(),
            r matches Ok(stored) ==> latest(final(cache)@, stored@),
            (final(cache)@, result_view(r)) == self.tree_processed(
                node as int,
                parent@,
                *target,
                old(cache)@,
                fuel as nat,
            ),
        decreases fuel, 0int,
    {
        if fuel == 0 {
            return Err(DebugError::NestedTooDeep);
        }
        if !parent.is_valid() {
            return cache.cache_variable(parent.parent_key, parent, target);
        }
        let program_counter: u64 = match target.registers.program_counter {
            Some(program_counter) => match program_counter.to_u64() {
                Some(program_counter) => program_counter,
                None => {
                    return Err(DebugError::RegisterTooWide);
                },
            },
            None => {
                return Err(
                    DebugError::Other(
                        String::from_str(
                            "Cannot unwind `Variable` without a valid PC (program_counter)",
                        ),
                    ),
                );
            },
        };
        let mut updated = parent;
        let children = &self.entries[node].children;
        let ghost all = self.children_from(
            node as int,
            0,
            updated@,
            program_counter,
            *target,
            cache@,
            (fuel - 1) as nat,
        );
        let mut i: usize = 0;
        while i < children.len()
            invariant
                i <= children.len(),
                self.wf(),
                node < self.entries@.len(),
                children@ == self.entries@[node as int].children@,
                cache@.wf(),
                fuel > 0,
                all == self.children_from(
                    node as int,
                    i as int,
                    updated@,
                    program_counter,
                    *target,
                    cache@,
                    (fuel - 1) as nat,
                ),
                all matches (_, Err(error)) ==> self.tree_processed(
                    node as int,
                    parent@,
                    *target,
                    old(cache)@,
                    fuel as nat,
                ) == (all.0, Err::<VariableView, DebugErrorView>(error)),
            decreases children.len() - i,
        {
            let child = match self.find_entry(children[i]) {
                Ok(child) => child,
                Err(error) => {
                    return Err(error);
                },
            };
            updated = match self.process_child(
                child,
                updated,
                program_counter,
                target,
                cache,
                fuel - 1,
            ) {
                Ok(updated) => updated,
                Err(error) => {
                    return Err(error);
                },
            };
            i = i + 1;
        }
        match &self.entries[node].children_error {
            Some(text) => {
                return Err(DebugError::Dwarf(text.clone()));
            },
            None => {},
        }
        cache.cache_variable(updated.parent_key, updated, target)
    }
}

/// Whether one of `ranges` holds `address`.
pub(crate) fn ranges_hold(ranges: &Vec<Range>, address: u128) -> (r: bool)
    ensures
        r == in_ranges(ranges@, address as nat),
{
    let mut i: usize = 0;
    while i < ranges.len()
        invariant
            i <= ranges.len(),
            forall|j: int| 0 <= j < i ==> !(#[trigger] ranges@[j]).holds(address as nat),
        decreases ranges.len() - i,
    {
        if ranges[i].contains(address) {
            assert(ranges@[i as int].holds(address as nat));
            return true;
        }
        i = i + 1;
    }
    false
}

/// Whether entries with the tag `tag` are of no concern among the children of an entry.
fn is_passed_over(tag: u16) -> (r: bool)
    ensures
        r == passed_over(tag),
{
    tag == DW_TAG_TEMPLATE_TYPE_PARAMETER || tag == DW_TAG_FORMAL_PARAMETER || tag
        == DW_TAG_INLINED_SUBROUTINE || tag == DW_TAG_BASE_TYPE || tag == DW_TAG_POINTER_TYPE
        || tag == DW_TAG_STRUCTURE_TYPE || tag == DW_TAG_ENUMERATION_TYPE || tag
        == DW_TAG_ARRAY_TYPE || tag == DW_TAG_SUBROUTINE_TYPE || tag == DW_TAG_SUBPROGRAM || tag
        == DW_TAG_UNION_TYPE
}

} // verus!
