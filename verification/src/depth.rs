//! How the bound on the depth of entries and types bears on what is resolved: not at all, unless it
//! is exceeded.
use vstd::prelude::*;

#[allow(unused_imports)]
use crate::cache::CacheView;
#[allow(unused_imports)]
use crate::dwarf::{
    Attribute, AttributeValue, UnitInfo, DW_AT_DISCR, DW_AT_NAME, DW_AT_TYPE, DW_TAG_ARRAY_TYPE,
    DW_TAG_COMPILE_UNIT, DW_TAG_ENUMERATION_TYPE, DW_TAG_ENUMERATOR, DW_TAG_LEXICAL_BLOCK,
    DW_TAG_MEMBER, DW_TAG_NAMESPACE, DW_TAG_STRUCTURE_TYPE, DW_TAG_SUBRANGE_TYPE,
    DW_TAG_UNION_TYPE, DW_TAG_VARIABLE, DW_TAG_VARIANT, DW_TAG_VARIANT_PART,
};
#[allow(unused_imports)]
use crate::error::{DebugError, DebugErrorView};
#[allow(unused_imports)]
use crate::target::Target;
#[allow(unused_imports)]
use crate::tree::{discriminated, namespace_name, scope_of};
#[allow(unused_imports)]
use crate::types::{
    bounded, element_of, indexed, or_unnamed, shown_at_once, type_reference, TypeReference,
};
#[allow(unused_imports)]
use crate::variable::{Variable, VariableNodeType, VariableType, VariableView, VariantRole};

verus! {

/// Whether a result is that the bound on the depth was exceeded.
pub open spec fn too_deep<T>(result: Result<T, DebugErrorView>) -> bool {
    result matches Err(DebugError::NestedTooDeep)
}

impl UnitInfo {
    /// A larger bound leaves the outcome of `tree_processed` as it is, unless the bound is
    /// exceeded.
    proof fn lemma_tree_depth(
        self,
        node: int,
        parent: VariableView,
        target: Target,
        cache: CacheView,
        fuel: nat,
    )
        requires
            !too_deep(self.tree_processed(node, parent, target, cache, fuel).1),
        ensures
            self.tree_processed(
                node,
                parent,
                target,
                cache,
                fuel + 1,
            ) == self.tree_processed(node, parent, target, cache, fuel),
        decreases fuel, 0int, 0int,
    {
        if parent.valid() {
            if let Some(program_counter) = target.registers.program_counter {
                if program_counter.number() <= u64::MAX {
                    self.lemma_children_depth(
                        node,
                        0,
                        parent,
                        program_counter.number() as u64,
                        target,
                        cache,
                        (fuel - 1) as nat,
                    );
                }
            }
        }
    }

    /// A larger bound leaves the outcome of `children_from` as it is, unless the bound is exceeded.
    proof fn lemma_children_depth(
        self,
        node: int,
        from: int,
        parent: VariableView,
        program_counter: u64,
        target: Target,
        cache: CacheView,
        fuel: nat,
    )
        requires
            !too_deep(
                self.children_from(node, from, parent, program_counter, target, cache, fuel).1,
            ),
        ensures
            self.children_from(
                node,
                from,
                parent,
                program_counter,
                target,
                cache,
                fuel + 1,
            ) == self.children_from(node, from, parent, program_counter, target, cache, fuel),
        decreases fuel, 5int, self.entries@[node].children@.len() - from,
    {
        let children = self.entries@[node].children@;
        if from < children.len() {
            if let Some(child) = self.entry_at(children[from]) {
                self.lemma_child_depth(child, parent, program_counter, target, cache, fuel);
                let (after, result) = self.child_processed(
                    child,
                    parent,
                    program_counter,
                    target,
                    cache,
                    fuel,
                );
                if let Ok(updated) = result {
                    self.lemma_children_depth(
                        node,
                        from + 1,
                        updated,
                        program_counter,
                        target,
                        after,
                        fuel,
                    );
                }
            }
        }
    }

    /// A larger bound leaves the outcome of `child_processed` as it is, unless the bound is
    /// exceeded.
    proof fn lemma_child_depth(
        self,
        child: int,
        parent: VariableView,
        program_counter: u64,
        target: Target,
        cache: CacheView,
        fuel: nat,
    )
        requires
            !too_deep(self.child_processed(child, parent, program_counter, target, cache, fuel).1),
        ensures
            self.child_processed(
                child,
                parent,
                program_counter,
                target,
                cache,
                fuel + 1,
            ) == self.child_processed(child, parent, program_counter, target, cache, fuel),
        decreases fuel, 4int, 0int,
    {
        let tag = self.entries@[child].tag;
        if tag == DW_TAG_NAMESPACE {
            self.lemma_namespace_depth(child, parent, target, cache, fuel);
        } else if tag == DW_TAG_VARIABLE || tag == DW_TAG_MEMBER || tag == DW_TAG_ENUMERATOR {
            self.lemma_member_depth(child, parent, target, cache, fuel);
        } else if tag == DW_TAG_VARIANT_PART {
            self.lemma_variant_part_depth(child, parent, target, cache, fuel);
        } else if tag == DW_TAG_VARIANT {
            self.lemma_variant_depth(child, parent, target, cache, fuel);
        } else if tag == DW_TAG_SUBRANGE_TYPE {
            self.lemma_subrange_depth(child, parent, target, cache, fuel);
        } else if tag == DW_TAG_LEXICAL_BLOCK {
            self.lemma_block_depth(child, parent, program_counter, target, cache, fuel);
        }
    }

    /// A larger bound leaves the outcome of `namespace_processed` as it is, unless the bound is
    /// exceeded.
    proof fn lemma_namespace_depth(
        self,
        child: int,
        parent: VariableView,
        target: Target,
        cache: CacheView,
        fuel: nat,
    )
        requires
            !too_deep(self.namespace_processed(child, parent, target, cache, fuel).1),
        ensures
            self.namespace_processed(
                child,
                parent,
                target,
                cache,
                fuel + 1,
            ) == self.namespace_processed(child, parent, target, cache, fuel),
        decreases fuel, 3int, 0int,
    {
        if let Ok(name) = namespace_name(self.entries@[child], None) {
            let (after, result) = cache.stored(
                Some(parent.variable_key),
                self.namespace_of(child, name),
                target,
            );
            if let Ok(namespace) = result {
                self.lemma_namespace_children_depth(child, 0, namespace, target, after, fuel);
            }
        }
    }

    /// A larger bound leaves the outcome of `namespace_children_from` as it is, unless the bound is
    /// exceeded.
    proof fn lemma_namespace_children_depth(
        self,
        node: int,
        from: int,
        namespace: VariableView,
        target: Target,
        cache: CacheView,
        fuel: nat,
    )
        requires
            !too_deep(self.namespace_children_from(node, from, namespace, target, cache, fuel).1),
        ensures
            self.namespace_children_from(
                node,
                from,
                namespace,
                target,
                cache,
                fuel + 1,
            ) == self.namespace_children_from(node, from, namespace, target, cache, fuel),
        decreases fuel, 2int, self.entries@[node].children@.len() - from,
    {
        let children = self.entries@[node].children@;
        if from < children.len() {
            if let Some(child) = self.entry_at(children[from]) {
                self.lemma_namespace_child_depth(child, namespace, target, cache, fuel);
                let (after, result) = self.namespace_child_processed(
                    child,
                    namespace,
                    target,
                    cache,
                    fuel,
                );
                if let Ok(updated) = result {
                    self.lemma_namespace_children_depth(
                        node,
                        from + 1,
                        updated,
                        target,
                        after,
                        fuel,
                    );
                }
            }
        }
    }

    /// A larger bound leaves the outcome of `namespace_child_processed` as it is, unless the bound
    /// is exceeded.
    proof fn lemma_namespace_child_depth(
        self,
        child: int,
        namespace: VariableView,
        target: Target,
        cache: CacheView,
        fuel: nat,
    )
        requires
            !too_deep(self.namespace_child_processed(child, namespace, target, cache, fuel).1),
        ensures
            self.namespace_child_processed(
                child,
                namespace,
                target,
                cache,
                fuel + 1,
            ) == self.namespace_child_processed(child, namespace, target, cache, fuel),
        decreases fuel, 1int, 0int,
    {
        let tag = self.entries@[child].tag;
        if tag == DW_TAG_VARIABLE {
            let (after, result) = cache.stored(
                Some(namespace.variable_key),
                self.variable_of(child),
                target,
            );
            if let Ok(variable) = result {
                self.lemma_attributes_depth(child, namespace, variable, target, after, fuel);
            }
        } else if tag == DW_TAG_NAMESPACE {
            if let Ok(name) = namespace_name(self.entries@[child], Some(namespace.name)) {
                let (after, result) = cache.stored(
                    Some(namespace.variable_key),
                    self.namespace_of(child, name),
                    target,
                );
                if let Ok(inner) = result {
                    self.lemma_tree_depth(child, inner, target, after, fuel);
                }
            }
        }
    }

    /// A larger bound leaves the outcome of `member_processed` as it is, unless the bound is
    /// exceeded.
    proof fn lemma_member_depth(
        self,
        child: int,
        parent: VariableView,
        target: Target,
        cache: CacheView,
        fuel: nat,
    )
        requires
            !too_deep(self.member_processed(child, parent, target, cache, fuel).1),
        ensures
            self.member_processed(
                child,
                parent,
                target,
                cache,
                fuel + 1,
            ) == self.member_processed(child, parent, target, cache, fuel),
        decreases fuel, 3int, 0int,
    {
        let (after, result) = cache.stored(
            Some(parent.variable_key),
            self.variable_of(child),
            target,
        );
        if let Ok(variable) = result {
            self.lemma_attributes_depth(child, parent, variable, target, after, fuel);
            let (after, updated, result) = self.attributes_processed(
                child,
                parent,
                variable,
                target,
                after,
                fuel,
            );
            if let Ok(variable) = result {
                if !(variable.variable_type.phantom_data() || variable.name is Artifical)
                    && variable.valid() {
                    self.lemma_tree_depth(child, variable, target, after, fuel);
                }
            }
        }
    }

    /// A larger bound leaves the outcome of `variant_part_processed` as it is, unless the bound is
    /// exceeded.
    proof fn lemma_variant_part_depth(
        self,
        child: int,
        parent: VariableView,
        target: Target,
        cache: CacheView,
        fuel: nat,
    )
        requires
            !too_deep(self.variant_part_processed(child, parent, target, cache, fuel).1),
        ensures
            self.variant_part_processed(
                child,
                parent,
                target,
                cache,
                fuel + 1,
            ) == self.variant_part_processed(child, parent, target, cache, fuel),
        decreases fuel, 3int, 0int,
    {
        let part = Variable { role: VariantRole::VariantPart(u64::MAX), ..parent };
        let (after, result) = cache.stored(
            Some(parent.variable_key),
            self.variable_of(child),
            target,
        );
        if let Ok(variable) = result {
            self.lemma_attributes_depth(child, part, variable, target, after, fuel);
            let (after, updated, result) = self.attributes_processed(
                child,
                part,
                variable,
                target,
                after,
                fuel,
            );
            if let Ok(variable) = result {
                let (after, result) = after.removed(variable.variable_key);
                if result is Ok {
                    self.lemma_tree_depth(child, updated, target, after, fuel);
                }
            }
        }
    }

    /// A larger bound leaves the outcome of `variant_processed` as it is, unless the bound is
    /// exceeded.
    proof fn lemma_variant_depth(
        self,
        child: int,
        parent: VariableView,
        target: Target,
        cache: CacheView,
        fuel: nat,
    )
        requires
            !too_deep(self.variant_processed(child, parent, target, cache, fuel).1),
        ensures
            self.variant_processed(
                child,
                parent,
                target,
                cache,
                fuel + 1,
            ) == self.variant_processed(child, parent, target, cache, fuel),
        decreases fuel, 3int, 0int,
    {
        if !cache.has_children(parent.variable_key) {
            let (after, result) = cache.stored(
                Some(parent.variable_key),
                self.variable_of(child),
                target,
            );
            if let Ok(variable) = result {
                let variable = discriminated(variable, self.entries@[child]);
                self.lemma_attributes_depth(child, parent, variable, target, after, fuel);
                let (after, updated, result) = self.attributes_processed(
                    child,
                    parent,
                    variable,
                    target,
                    after,
                    fuel,
                );
                if let Ok(variable) = result {
                    if let VariantRole::Variant(discriminant) = variable.role {
                        if variable.valid() && (updated.role == VariantRole::VariantPart(
                            discriminant,
                        ) || discriminant == u64::MAX) {
                            self.lemma_variant_adopted_depth(
                                child,
                                updated,
                                Variable { memory_location: updated.memory_location, ..variable },
                                target,
                                after,
                                fuel,
                            );
                        }
                    }
                }
            }
        }
    }

    /// A larger bound leaves the outcome of `variant_adopted` as it is, unless the bound is
    /// exceeded.
    proof fn lemma_variant_adopted_depth(
        self,
        child: int,
        parent: VariableView,
        variable: VariableView,
        target: Target,
        cache: CacheView,
        fuel: nat,
    )
        requires
            !too_deep(self.variant_adopted(child, parent, variable, target, cache, fuel).1),
        ensures
            self.variant_adopted(
                child,
                parent,
                variable,
                target,
                cache,
                fuel + 1,
            ) == self.variant_adopted(child, parent, variable, target, cache, fuel),
        decreases fuel, 1int, 0int,
    {
        self.lemma_tree_depth(child, variable, target, cache, fuel);
    }

    /// A larger bound leaves the outcome of `subrange_processed` as it is, unless the bound is
    /// exceeded.
    proof fn lemma_subrange_depth(
        self,
        child: int,
        parent: VariableView,
        target: Target,
        cache: CacheView,
        fuel: nat,
    )
        requires
            !too_deep(self.subrange_processed(child, parent, target, cache, fuel).1),
        ensures
            self.subrange_processed(
                child,
                parent,
                target,
                cache,
                fuel + 1,
            ) == self.subrange_processed(child, parent, target, cache, fuel),
        decreases fuel, 3int, 0int,
    {
        let (after, result) = cache.stored(
            Some(parent.variable_key),
            self.variable_of(child),
            target,
        );
        if let Ok(variable) = result {
            self.lemma_attributes_depth(child, parent, variable, target, after, fuel);
        }
    }

    /// A larger bound leaves the outcome of `block_processed` as it is, unless the bound is
    /// exceeded.
    proof fn lemma_block_depth(
        self,
        child: int,
        parent: VariableView,
        program_counter: u64,
        target: Target,
        cache: CacheView,
        fuel: nat,
    )
        requires
            !too_deep(self.block_processed(child, parent, program_counter, target, cache, fuel).1),
        ensures
            self.block_processed(
                child,
                parent,
                program_counter,
                target,
                cache,
                fuel + 1,
            ) == self.block_processed(child, parent, program_counter, target, cache, fuel),
        decreases fuel, 3int, 0int,
    {
        if let Ok((updated, in_scope)) = scope_of(self.entries@[child], parent, program_counter) {
            if in_scope {
                self.lemma_tree_depth(child, updated, target, cache, fuel);
            }
        }
    }

    /// A larger bound leaves the outcome of `attributes_processed` as it is, unless the bound is
    /// exceeded.
    proof fn lemma_attributes_depth(
        self,
        node: int,
        parent: VariableView,
        variable: VariableView,
        target: Target,
        cache: CacheView,
        fuel: nat,
    )
        requires
            !too_deep(self.attributes_processed(node, parent, variable, target, cache, fuel).2),
        ensures
            self.attributes_processed(
                node,
                parent,
                variable,
                target,
                cache,
                fuel + 1,
            ) == self.attributes_processed(node, parent, variable, target, cache, fuel),
        decreases fuel, 0int, 0int,
    {
        let placed = Variable { parent_key: Some(parent.variable_key), ..variable };
        if let Ok((origin, found)) = self.origin_of(node, placed) {
            if let Ok(named) = self.named_by(origin, found) {
                let (after, result) = self.location_extracted(node, parent, named, target, cache);
                if let Ok(located) = result {
                    self.lemma_attributes_stored_depth(
                        node,
                        origin,
                        parent,
                        located,
                        target,
                        after,
                        (fuel - 1) as nat,
                    );
                }
            }
        }
    }

    /// A larger bound leaves the outcome of `attributes_stored` as it is, unless the bound is
    /// exceeded.
    proof fn lemma_attributes_stored_depth(
        self,
        node: int,
        origin: Option<int>,
        parent: VariableView,
        variable: VariableView,
        target: Target,
        cache: CacheView,
        fuel: nat,
    )
        requires
            !too_deep(
                self.attributes_stored(node, origin, parent, variable, target, cache, fuel).2,
            ),
        ensures
            self.attributes_stored(
                node,
                origin,
                parent,
                variable,
                target,
                cache,
                fuel + 1,
            ) == self.attributes_stored(node, origin, parent, variable, target, cache, fuel),
        decreases fuel, 4int, 0int,
    {
        if let Some(origin) = origin {
            self.lemma_attributes_from_depth(
                node,
                origin,
                0,
                parent,
                variable,
                target,
                cache,
                fuel,
            );
        }
    }

    /// A larger bound leaves the outcome of `attributes_from` as it is, unless the bound is
    /// exceeded.
    proof fn lemma_attributes_from_depth(
        self,
        node: int,
        origin: int,
        from: int,
        parent: VariableView,
        variable: VariableView,
        target: Target,
        cache: CacheView,
        fuel: nat,
    )
        requires
            !too_deep(
                self.attributes_from(node, origin, from, parent, variable, target, cache, fuel).2,
            ),
        ensures
            self.attributes_from(
                node,
                origin,
                from,
                parent,
                variable,
                target,
                cache,
                fuel + 1,
            ) == self.attributes_from(node, origin, from, parent, variable, target, cache, fuel),
        decreases fuel, 3int, self.entries@[origin].attributes@.len() - from,
    {
        let attributes = self.entries@[origin].attributes@;
        if from < attributes.len() {
            let attribute = attributes[from];
            self.lemma_attribute_depth(node, attribute, parent, variable, target, cache, fuel);
            let (after, updated, result) = self.attribute_applied(
                node,
                attribute,
                parent,
                variable,
                target,
                cache,
                fuel,
            );
            if let Ok(variable) = result {
                self.lemma_attributes_from_depth(
                    node,
                    origin,
                    from + 1,
                    updated,
                    variable,
                    target,
                    after,
                    fuel,
                );
            }
        }
    }

    /// A larger bound leaves the outcome of `attribute_applied` as it is, unless the bound is
    /// exceeded.
    proof fn lemma_attribute_depth(
        self,
        node: int,
        attribute: Attribute,
        parent: VariableView,
        variable: VariableView,
        target: Target,
        cache: CacheView,
        fuel: nat,
    )
        requires
            !too_deep(
                self.attribute_applied(node, attribute, parent, variable, target, cache, fuel).2,
            ),
        ensures
            self.attribute_applied(
                node,
                attribute,
                parent,
                variable,
                target,
                cache,
                fuel + 1,
            ) == self.attribute_applied(node, attribute, parent, variable, target, cache, fuel),
        decreases fuel, 2int, 0int,
    {
        if attribute.name == DW_AT_TYPE {
            if let AttributeValue::UnitRef(offset) = attribute.value {
                if let Some(type_node) = self.entry_at(offset) {
                    self.lemma_type_depth(type_node, parent, variable, target, cache, fuel);
                }
            }
        } else if attribute.name == DW_AT_DISCR {
            if let AttributeValue::UnitRef(offset) = attribute.value {
                self.lemma_discriminant_depth(offset, parent, target, cache, fuel);
            }
        }
    }

    /// A larger bound leaves the outcome of `discriminant_resolved` as it is, unless the bound is
    /// exceeded.
    proof fn lemma_discriminant_depth(
        self,
        offset: usize,
        parent: VariableView,
        target: Target,
        cache: CacheView,
        fuel: nat,
    )
        requires
            !too_deep(self.discriminant_resolved(offset, parent, target, cache, fuel).2),
        ensures
            self.discriminant_resolved(
                offset,
                parent,
                target,
                cache,
                fuel + 1,
            ) == self.discriminant_resolved(offset, parent, target, cache, fuel),
        decreases fuel, 1int, 0int,
    {
        if let Some(node) = self.entry_at(offset) {
            let (after, result) = cache.stored(
                Some(parent.variable_key),
                self.variable_of(node),
                target,
            );
            if let Ok(discriminant) = result {
                self.lemma_attributes_depth(node, parent, discriminant, target, after, fuel);
            }
        }
    }

    /// A larger bound leaves the outcome of `type_extracted` as it is, unless the bound is
    /// exceeded.
    proof fn lemma_type_depth(
        self,
        node: int,
        parent: VariableView,
        variable: VariableView,
        target: Target,
        cache: CacheView,
        fuel: nat,
    )
        requires
            !too_deep(self.type_extracted(node, parent, variable, target, cache, fuel).1),
        ensures
            self.type_extracted(
                node,
                parent,
                variable,
                target,
                cache,
                fuel + 1,
            ) == self.type_extracted(node, parent, variable, target, cache, fuel),
        decreases fuel, 0int, 0int,
    {
        let (named, text) = match self.entries@[node].attribute(DW_AT_NAME) {
            Ok(Some(attribute)) => (variable, Some(attribute.text@)),
            Ok(None) => (variable, None),
            Err(error) => {
                let message = "Error: evaluating type name: "@ + error + " "@;
                (variable.with_error(message), Some(message))
            },
        };
        if named.valid() {
            let sized = Variable {
                variable_node_type: if shown_at_once(named.variable_type) {
                    VariableNodeType::RecurseToBaseType
                } else {
                    named.variable_node_type
                },
                byte_size: self.entries@[node].size_in_bytes(),
                ..named
            };
            self.lemma_typed_depth(node, parent, sized, text, target, cache, (fuel - 1) as nat);
        }
    }

    /// A larger bound leaves the outcome of `typed` as it is, unless the bound is exceeded.
    proof fn lemma_typed_depth(
        self,
        node: int,
        parent: VariableView,
        variable: VariableView,
        text: Option<Seq<char>>,
        target: Target,
        cache: CacheView,
        fuel: nat,
    )
        requires
            !too_deep(self.typed(node, parent, variable, text, target, cache, fuel).1),
        ensures
            self.typed(
                node,
                parent,
                variable,
                text,
                target,
                cache,
                fuel + 1,
            ) == self.typed(node, parent, variable, text, target, cache, fuel),
        decreases fuel, 5int, 0int,
    {
        let tag = self.entries@[node].tag;
        if tag == DW_TAG_STRUCTURE_TYPE {
            if let Ok(placed) = indexed(variable, parent) {
                self.lemma_structure_depth(
                    node,
                    Variable { variable_type: VariableType::Struct(or_unnamed(text)), ..placed },
                    target,
                    cache,
                    fuel,
                );
            }
        } else if tag == DW_TAG_ENUMERATION_TYPE {
            self.lemma_tree_depth(
                node,
                Variable { variable_type: VariableType::Enum(or_unnamed(text)), ..variable },
                target,
                cache,
                fuel,
            );
        } else if tag == DW_TAG_ARRAY_TYPE {
            self.lemma_array_depth(node, variable, target, cache, fuel);
        } else if tag == DW_TAG_UNION_TYPE {
            if let Ok(placed) = indexed(variable, parent) {
                self.lemma_tree_depth(node, placed, target, cache, fuel);
            }
        } else if tag == DW_TAG_COMPILE_UNIT {
            self.lemma_tree_depth(node, variable, target, cache, fuel);
        }
    }

    /// A larger bound leaves the outcome of `structure_typed` as it is, unless the bound is
    /// exceeded.
    proof fn lemma_structure_depth(
        self,
        node: int,
        variable: VariableView,
        target: Target,
        cache: CacheView,
        fuel: nat,
    )
        requires
            !too_deep(self.structure_typed(node, variable, target, cache, fuel).1),
        ensures
            self.structure_typed(
                node,
                variable,
                target,
                cache,
                fuel + 1,
            ) == self.structure_typed(node, variable, target, cache, fuel),
        decreases fuel, 4int, 0int,
    {
        if !(variable.memory_location is Unavailable) && variable.variable_node_type
            == VariableNodeType::RecurseToBaseType {
            self.lemma_tree_depth(node, variable, target, cache, fuel);
        }
    }

    /// A larger bound leaves the outcome of `array_typed` as it is, unless the bound is exceeded.
    proof fn lemma_array_depth(
        self,
        node: int,
        variable: VariableView,
        target: Target,
        cache: CacheView,
        fuel: nat,
    )
        requires
            !too_deep(self.array_typed(node, variable, target, cache, fuel).1),
        ensures
            self.array_typed(
                node,
                variable,
                target,
                cache,
                fuel + 1,
            ) == self.array_typed(node, variable, target, cache, fuel),
        decreases fuel, 4int, 0int,
    {
        if let TypeReference::Entry(offset) = type_reference(
            self.entries@[node].attribute(DW_AT_TYPE),
        ) {
            let (after, result) = cache.stored(
                Some(variable.variable_key),
                self.variable_of(node),
                target,
            );
            if let Ok(range) = result {
                self.lemma_tree_depth(node, range, target, after, fuel);
                let (after, result) = self.tree_processed(node, range, target, after, fuel);
                if let Ok(range) = result {
                    let (after, result) = after.removed(range.variable_key);
                    if result is Ok {
                        self.lemma_elements_depth(
                            offset,
                            range.range_lower_bound as int,
                            range.range_upper_bound,
                            bounded(variable, range),
                            target,
                            after,
                            fuel,
                        );
                    }
                }
            }
        }
    }

    /// A larger bound leaves the outcome of `elements_from` as it is, unless the bound is exceeded.
    proof fn lemma_elements_depth(
        self,
        offset: usize,
        from: int,
        upper_bound: i64,
        array: VariableView,
        target: Target,
        cache: CacheView,
        fuel: nat,
    )
        requires
            !too_deep(self.elements_from(offset, from, upper_bound, array, target, cache, fuel).1),
        ensures
            self.elements_from(
                offset,
                from,
                upper_bound,
                array,
                target,
                cache,
                fuel + 1,
            ) == self.elements_from(offset, from, upper_bound, array, target, cache, fuel),
        decreases fuel, 3int, upper_bound - from,
    {
        if from < upper_bound {
            let index = from as i64;
            self.lemma_element_depth(offset, index, upper_bound, array, target, cache, fuel);
            let (after, result) = self.element_processed(
                offset,
                index,
                upper_bound,
                array,
                target,
                cache,
                fuel,
            );
            if let Ok(updated) = result {
                self.lemma_elements_depth(
                    offset,
                    from + 1,
                    upper_bound,
                    updated,
                    target,
                    after,
                    fuel,
                );
            }
        }
    }

    /// A larger bound leaves the outcome of `element_processed` as it is, unless the bound is
    /// exceeded.
    proof fn lemma_element_depth(
        self,
        offset: usize,
        index: i64,
        upper_bound: i64,
        array: VariableView,
        target: Target,
        cache: CacheView,
        fuel: nat,
    )
        requires
            !too_deep(
                self.element_processed(offset, index, upper_bound, array, target, cache, fuel).1,
            ),
        ensures
            self.element_processed(
                offset,
                index,
                upper_bound,
                array,
                target,
                cache,
                fuel + 1,
            ) == self.element_processed(offset, index, upper_bound, array, target, cache, fuel),
        decreases fuel, 2int, 0int,
    {
        if let Some(node) = self.entry_at(offset) {
            let (after, result) = cache.stored(
                Some(array.variable_key),
                self.variable_of(node),
                target,
            );
            if let Ok(element) = result {
                self.lemma_attributes_depth(node, array, element, target, after, fuel);
                let (after, updated, result) = self.attributes_processed(
                    node,
                    array,
                    element,
                    target,
                    after,
                    fuel,
                );
                if let Ok(element) = result {
                    let typed = Variable {
                        variable_type: VariableType::Array {
                            count: upper_bound as usize,
                            entry_type: element.name,
                        },
                        ..updated
                    };
                    self.lemma_type_depth(
                        node,
                        typed,
                        element_of(element, typed, index),
                        target,
                        after,
                        fuel,
                    );
                }
            }
        }
    }

    /// The outcome of resolving what is below an entry does not depend on the bound on the depth,
    /// as long as the bound is not
    /// exceeded.
    pub proof fn law_tree_depth(
        self,
        node: int,
        parent: VariableView,
        target: Target,
        cache: CacheView,
        fuel: nat,
        more: nat,
    )
        requires
            fuel <= more,
            !too_deep(self.tree_processed(node, parent, target, cache, fuel).1),
        ensures
            self.tree_processed(
                node,
                parent,
                target,
                cache,
                more,
            ) == self.tree_processed(node, parent, target, cache, fuel),
        decreases more - fuel,
    {
        if fuel < more {
            self.lemma_tree_depth(node, parent, target, cache, fuel);
            self.law_tree_depth(node, parent, target, cache, fuel + 1, more);
        }
    }

    /// The outcome of resolving a variable from its attributes does not depend on the bound on the
    /// depth, as long as the bound is not
    /// exceeded.
    pub proof fn law_attributes_depth(
        self,
        node: int,
        parent: VariableView,
        variable: VariableView,
        target: Target,
        cache: CacheView,
        fuel: nat,
        more: nat,
    )
        requires
            fuel <= more,
            !too_deep(self.attributes_processed(node, parent, variable, target, cache, fuel).2),
        ensures
            self.attributes_processed(
                node,
                parent,
                variable,
                target,
                cache,
                more,
            ) == self.attributes_processed(node, parent, variable, target, cache, fuel),
        decreases more - fuel,
    {
        if fuel < more {
            self.lemma_attributes_depth(node, parent, variable, target, cache, fuel);
            self.law_attributes_depth(node, parent, variable, target, cache, fuel + 1, more);
        }
    }

    /// The outcome of giving a variable its type does not depend on the bound on the depth, as long
    /// as the bound is not
    /// exceeded.
    pub proof fn law_type_depth(
        self,
        node: int,
        parent: VariableView,
        variable: VariableView,
        target: Target,
        cache: CacheView,
        fuel: nat,
        more: nat,
    )
        requires
            fuel <= more,
            !too_deep(self.type_extracted(node, parent, variable, target, cache, fuel).1),
        ensures
            self.type_extracted(
                node,
                parent,
                variable,
                target,
                cache,
                more,
            ) == self.type_extracted(node, parent, variable, target, cache, fuel),
        decreases more - fuel,
    {
        if fuel < more {
            self.lemma_type_depth(node, parent, variable, target, cache, fuel);
            self.law_type_depth(node, parent, variable, target, cache, fuel + 1, more);
        }
    }
}

} // verus!
