//! What becomes of a request that the caller answers: nothing that was known changes, and nothing
//! is asked for twice.
use vstd::prelude::*;

#[allow(unused_imports)]
use crate::attributes::discriminant_of;
#[allow(unused_imports)]
use crate::cache::CacheView;
#[allow(unused_imports)]
use crate::dwarf::{
    Attribute, AttributeValue, Encoding, LocationList, UnitInfo, DW_AT_DISCR, DW_AT_NAME,
    DW_AT_TYPE, DW_TAG_ARRAY_TYPE, DW_TAG_COMPILE_UNIT, DW_TAG_ENUMERATION_TYPE,
    DW_TAG_ENUMERATOR, DW_TAG_LEXICAL_BLOCK, DW_TAG_MEMBER, DW_TAG_NAMESPACE,
    DW_TAG_STRUCTURE_TYPE, DW_TAG_SUBRANGE_TYPE, DW_TAG_UNION_TYPE, DW_TAG_VARIABLE,
    DW_TAG_VARIANT, DW_TAG_VARIANT_PART,
};
#[allow(unused_imports)]
use crate::error::{DebugError, DebugErrorView};
#[allow(unused_imports)]
use crate::evaluation::{
    answer_to, begun, gimli_evaluation, pieces_from, EvaluationHistory, EvaluationRequest,
    OPERATION_LIMIT,
};
#[allow(unused_imports)]
use crate::location::{expression_at, located_by, located_from, placed};
#[allow(unused_imports)]
use crate::operations::reduced;
#[allow(unused_imports)]
use crate::target::{known_value, memory_reply, KnownValue, MemoryRead, RegisterValue, Target};
#[allow(unused_imports)]
use crate::tree::{discriminated, namespace_name, scope_of};
#[allow(unused_imports)]
use crate::types::{
    bounded, element_of, enumeration_valued, indexed, or_unnamed, shown_at_once, type_reference,
    TypeReference,
};
#[allow(unused_imports)]
use crate::variable::{
    Variable, VariableLocation, VariableNodeType, VariableType, VariableValue, VariableView,
    VariantRole,
};

verus! {

/// Whether a result asks for memory that has not been read yet.
pub open spec fn asks<T>(result: Result<T, DebugErrorView>) -> bool {
    result matches Err(DebugError::NeedsMemory { .. })
}

/// Whether a result, if it asks for memory, asks for some to which `target` has no reply.
pub open spec fn asks_anew<T>(result: Result<T, DebugErrorView>, target: Target) -> bool {
    result matches Err(DebugError::NeedsMemory { address, size }) ==> memory_reply(
        target.memory@,
        address,
        size,
    ) is None
}

/// Whether a result, if it asks for the value of a variable, asks for one that `target` does not
/// have.
pub open spec fn wants_anew<T>(result: Result<T, DebugErrorView>, target: Target) -> bool {
    result matches Err(DebugError::NeedsValue { variable_type, memory_location, byte_size })
        ==> forall|variable: VariableView|
        variable.variable_type == variable_type && variable.memory_location == memory_location
            && variable.byte_size == byte_size ==> no_value(
            #[trigger] known_value(target.values@, variable),
        )
}

/// Whether nothing is known.
pub open spec fn no_value(value: Option<VariableValue<Seq<char>>>) -> bool {
    value is None || value->0 is Empty
}

/// Whether the value of `variable` is known as far as `target` knows it.
pub open spec fn settled(variable: VariableView, target: Target) -> bool {
    variable.value is Empty && variable.variable_type is Base ==> no_value(
        known_value(target.values@, variable),
    )
}

/// What the target knows of a variable depends on its type, its place and its size.
proof fn lemma_known_value(values: Seq<KnownValue>, a: VariableView, b: VariableView)
    requires
        a.variable_type == b.variable_type,
        a.memory_location == b.memory_location,
        a.byte_size == b.byte_size,
    ensures
        known_value(values, a) == known_value(values, b),
    decreases values.len(),
{
    if values.len() > 0 {
        lemma_known_value(values.drop_first(), a, b);
    }
}

/// The value of a variable that was stored is known as far as the target knows it.
proof fn lemma_stored_settled(
    cache: CacheView,
    parent_key: Option<i64>,
    variable: VariableView,
    target: Target,
)
    ensures
        cache.stored(parent_key, variable, target).1 matches Ok(stored) ==> settled(
            stored,
            target,
        ),
{
    if let Ok(stored) = cache.stored(parent_key, variable, target).1 {
        lemma_known_value(target.values@, variable, stored);
        let placed = Variable {
            variable_key: stored.variable_key,
            parent_key: stored.parent_key,
            ..variable
        };
        lemma_known_value(target.values@, placed, stored);
    }
}

/// A discriminant that is asked for is one that the target does not have.
proof fn lemma_discriminant_wanted(variable: VariableView, target: Target)
    requires
        settled(variable, target),
    ensures
        wants_anew(discriminant_of(variable), target),
{
    assert forall|other: VariableView|
        variable.value is Empty && variable.variable_type is Base && other.variable_type
            == variable.variable_type && other.memory_location == variable.memory_location
            && other.byte_size == variable.byte_size implies no_value(
        #[trigger] known_value(target.values@, other),
    ) by {
        lemma_known_value(target.values@, other, variable);
    }
}

/// Whether `more` is `target` with further replies to reads of its memory.
pub open spec fn extends(target: Target, more: Target) -> bool {
    &&& more.registers == target.registers
    &&& more.values == target.values
    &&& target.memory@.is_prefix_of(more.memory@)
}

/// Further replies leave the replies that there are as they are.
proof fn lemma_reply_stays(reads: Seq<MemoryRead>, more: Seq<MemoryRead>, address: u64, size: usize)
    requires
        reads.is_prefix_of(more),
    ensures
        memory_reply(reads, address, size) is Some ==> memory_reply(more, address, size)
            == memory_reply(reads, address, size),
    decreases reads.len(),
{
    if reads.len() > 0 {
        assert(more[0] == reads[0]);
        assert(reads.drop_first().is_prefix_of(more.drop_first())) by {
            assert forall|i: int| 0 <= i < reads.len() - 1 implies reads.drop_first()[i]
                == more.drop_first()[i] by {
                assert(reads[i + 1] == more[i + 1]);
            }
            assert(reads.drop_first() =~= more.drop_first().subrange(
                0,
                reads.drop_first().len() as int,
            ));
        }
        lemma_reply_stays(reads.drop_first(), more.drop_first(), address, size);
    }
}

/// What an expression asks for, and what it evaluates to, with further replies.
proof fn lemma_pieces_replies(
    history: EvaluationHistory,
    target: Target,
    more: Target,
    frame_base: RegisterValue,
)
    requires
        extends(target, more),
    ensures
        asks_anew(pieces_from(history, target, frame_base), target),
        wants_anew(pieces_from(history, target, frame_base), target),
        asks(pieces_from(history, target, frame_base)) || pieces_from(history, more, frame_base)
            == pieces_from(history, target, frame_base),
    decreases OPERATION_LIMIT + 1 - history.answers.len(),
{
    if let Ok(request) = gimli_evaluation(history) {
        if let EvaluationRequest::Memory { address, size } = request {
            lemma_reply_stays(target.memory@, more.memory@, address, size as usize);
        }
        if let Ok(answer) = answer_to(request, target, frame_base) {
            if history.answers.len() <= OPERATION_LIMIT && !(request is Complete) {
                lemma_pieces_replies(history.told(answer), target, more, frame_base);
            }
        }
    }
}

/// What is asked for to find out where a variable is kept, and what is found, with further
/// replies.
proof fn lemma_placed_replies(
    variable: VariableView,
    expression: Seq<u8>,
    encoding: Encoding,
    target: Target,
    more: Target,
)
    requires
        extends(target, more),
    ensures
        asks_anew(placed(variable, expression, encoding, target).1, target),
        wants_anew(placed(variable, expression, encoding, target).1, target),
        asks(placed(variable, expression, encoding, target).1) || placed(
            variable,
            expression,
            encoding,
            more,
        ) == placed(variable, expression, encoding, target),
{
    if let Some(frame_base) = target.registers.frame_pointer {
        lemma_pieces_replies(
            begun(reduced(expression, encoding), encoding),
            target,
            more,
            frame_base,
        );
    }
}

/// What the attributes of a variable ask for, and where they say it is kept, with further replies.
proof fn lemma_located_replies(
    variable: VariableView,
    parent: VariableView,
    attributes: Seq<Attribute>,
    from: int,
    encoding: Encoding,
    target: Target,
    more: Target,
)
    requires
        extends(target, more),
    ensures
        asks_anew(
            located_from(variable, parent, attributes, from, encoding, target).1,
            target,
        ),
        wants_anew(
            located_from(variable, parent, attributes, from, encoding, target).1,
            target,
        ),
        asks(located_from(variable, parent, attributes, from, encoding, target).1)
            || located_from(variable, parent, attributes, from, encoding, more) == located_from(
            variable,
            parent,
            attributes,
            from,
            encoding,
            target,
        ),
    decreases attributes.len() - from,
{
    if from < attributes.len() {
        let attribute = attributes[from];
        match attribute.value {
            AttributeValue::Exprloc(expression) => {
                lemma_placed_replies(variable, expression@, encoding, target, more);
            },
            AttributeValue::LocationListsRef(LocationList::Entries { entries, error }) => {
                if let Some(program_counter) = target.registers.program_counter {
                    if let Some(expression) = expression_at(
                        entries@,
                        program_counter.number(),
                        0,
                    ) {
                        lemma_placed_replies(variable, expression, encoding, target, more);
                    }
                }
            },
            _ => {},
        }
        let (updated, result) = located_by(variable, parent, attribute, encoding, target);
        if result is Ok {
            lemma_located_replies(updated, parent, attributes, from + 1, encoding, target, more);
        }
    }
}

/// What the value of an enumeration asks for, and what it is, with further replies.
proof fn lemma_enumeration_replies(
    variable: VariableView,
    target: Target,
    more: Target,
    cache: CacheView,
)
    requires
        extends(target, more),
    ensures
        asks_anew(enumeration_valued(variable, target, cache).1, target),
        asks(enumeration_valued(variable, target, cache).1) || enumeration_valued(
            variable,
            more,
            cache,
        ) == enumeration_valued(variable, target, cache),
{
    if let VariableLocation::Address(address) = variable.memory_location {
        lemma_reply_stays(target.memory@, more.memory@, address, 1);
    }
}

impl UnitInfo {
    /// What `tree_processed` asks for, and its outcome with further replies.
    proof fn lemma_tree_replies(
        self,
        node: int,
        parent: VariableView,
        target: Target,
        more: Target,
        cache: CacheView,
        fuel: nat,
    )
        requires
            extends(target, more),
        ensures
            ({
                let now = self.tree_processed(node, parent, target, cache, fuel);
                let later = self.tree_processed(node, parent, more, cache, fuel);
                &&& asks_anew(now.1, target)
                &&& wants_anew(now.1, target)
                &&& asks(now.1) || later == now
            }),
        decreases fuel, 0int, 0int,
    {
        if fuel > 0 && parent.valid() {
            if let Some(program_counter) = target.registers.program_counter {
                if program_counter.number() <= u64::MAX {
                    self.lemma_children_replies(
                        node,
                        0,
                        parent,
                        program_counter.number() as u64,
                        target,
                        more,
                        cache,
                        (fuel - 1) as nat,
                    );
                }
            }
        }
    }

    /// What `children_from` asks for, and its outcome with further replies.
    proof fn lemma_children_replies(
        self,
        node: int,
        from: int,
        parent: VariableView,
        program_counter: u64,
        target: Target,
        more: Target,
        cache: CacheView,
        fuel: nat,
    )
        requires
            extends(target, more),
        ensures
            ({
                let now = self.children_from(
                    node,
                    from,
                    parent,
                    program_counter,
                    target,
                    cache,
                    fuel,
                );
                let later = self.children_from(
                    node,
                    from,
                    parent,
                    program_counter,
                    more,
                    cache,
                    fuel,
                );
                &&& asks_anew(now.1, target)
                &&& wants_anew(now.1, target)
                &&& asks(now.1) || later == now
            }),
        decreases fuel, 5int, self.entries@[node].children@.len() - from,
    {
        let children = self.entries@[node].children@;
        if from < children.len() {
            if let Some(child) = self.entry_at(children[from]) {
                self.lemma_child_replies(child, parent, program_counter, target, more, cache, fuel);
                let (after, result) = self.child_processed(
                    child,
                    parent,
                    program_counter,
                    target,
                    cache,
                    fuel,
                );
                if let Ok(updated) = result {
                    self.lemma_children_replies(
                        node,
                        from + 1,
                        updated,
                        program_counter,
                        target,
                        more,
                        after,
                        fuel,
                    );
                }
            }
        }
    }

    /// What `child_processed` asks for, and its outcome with further replies.
    proof fn lemma_child_replies(
        self,
        child: int,
        parent: VariableView,
        program_counter: u64,
        target: Target,
        more: Target,
        cache: CacheView,
        fuel: nat,
    )
        requires
            extends(target, more),
        ensures
            ({
                let now = self.child_processed(child, parent, program_counter, target, cache, fuel);
                let later = self.child_processed(child, parent, program_counter, more, cache, fuel);
                &&& asks_anew(now.1, target)
                &&& wants_anew(now.1, target)
                &&& asks(now.1) || later == now
            }),
        decreases fuel, 4int, 0int,
    {
        let tag = self.entries@[child].tag;
        if tag == DW_TAG_NAMESPACE {
            self.lemma_namespace_replies(child, parent, target, more, cache, fuel);
        } else if tag == DW_TAG_VARIABLE || tag == DW_TAG_MEMBER || tag == DW_TAG_ENUMERATOR {
            self.lemma_member_replies(child, parent, target, more, cache, fuel);
        } else if tag == DW_TAG_VARIANT_PART {
            self.lemma_variant_part_replies(child, parent, target, more, cache, fuel);
        } else if tag == DW_TAG_VARIANT {
            self.lemma_variant_replies(child, parent, target, more, cache, fuel);
        } else if tag == DW_TAG_SUBRANGE_TYPE {
            self.lemma_subrange_replies(child, parent, target, more, cache, fuel);
        } else if tag == DW_TAG_LEXICAL_BLOCK {
            self.lemma_block_replies(child, parent, program_counter, target, more, cache, fuel);
        }
    }

    /// What `namespace_processed` asks for, and its outcome with further replies.
    proof fn lemma_namespace_replies(
        self,
        child: int,
        parent: VariableView,
        target: Target,
        more: Target,
        cache: CacheView,
        fuel: nat,
    )
        requires
            extends(target, more),
        ensures
            ({
                let now = self.namespace_processed(child, parent, target, cache, fuel);
                let later = self.namespace_processed(child, parent, more, cache, fuel);
                &&& asks_anew(now.1, target)
                &&& wants_anew(now.1, target)
                &&& asks(now.1) || later == now
            }),
        decreases fuel, 3int, 0int,
    {
        if let Ok(name) = namespace_name(self.entries@[child], None) {
            let (after, result) = cache.stored(
                Some(parent.variable_key),
                self.namespace_of(child, name),
                target,
            );
            if let Ok(namespace) = result {
                self.lemma_namespace_children_replies(
                    child,
                    0,
                    namespace,
                    target,
                    more,
                    after,
                    fuel,
                );
            }
        }
    }

    /// What `namespace_children_from` asks for, and its outcome with further replies.
    proof fn lemma_namespace_children_replies(
        self,
        node: int,
        from: int,
        namespace: VariableView,
        target: Target,
        more: Target,
        cache: CacheView,
        fuel: nat,
    )
        requires
            extends(target, more),
        ensures
            ({
                let now = self.namespace_children_from(node, from, namespace, target, cache, fuel);
                let later = self.namespace_children_from(node, from, namespace, more, cache, fuel);
                &&& asks_anew(now.1, target)
                &&& wants_anew(now.1, target)
                &&& asks(now.1) || later == now
            }),
        decreases fuel, 2int, self.entries@[node].children@.len() - from,
    {
        let children = self.entries@[node].children@;
        if from < children.len() {
            if let Some(child) = self.entry_at(children[from]) {
                self.lemma_namespace_child_replies(child, namespace, target, more, cache, fuel);
                let (after, result) = self.namespace_child_processed(
                    child,
                    namespace,
                    target,
                    cache,
                    fuel,
                );
                if let Ok(updated) = result {
                    self.lemma_namespace_children_replies(
                        node,
                        from + 1,
                        updated,
                        target,
                        more,
                        after,
                        fuel,
                    );
                }
            }
        }
    }

    /// What `namespace_child_processed` asks for, and its outcome with further replies.
    proof fn lemma_namespace_child_replies(
        self,
        child: int,
        namespace: VariableView,
        target: Target,
        more: Target,
        cache: CacheView,
        fuel: nat,
    )
        requires
            extends(target, more),
        ensures
            ({
                let now = self.namespace_child_processed(child, namespace, target, cache, fuel);
                let later = self.namespace_child_processed(child, namespace, more, cache, fuel);
                &&& asks_anew(now.1, target)
                &&& wants_anew(now.1, target)
                &&& asks(now.1) || later == now
            }),
        decreases fuel, 1int, 0int,
    {
        let tag = self.entries@[child].tag;
        if tag == DW_TAG_VARIABLE {
            let (after, result) = cache.stored(
                Some(namespace.variable_key),
                self.variable_of(child),
                target,
            );
            if let Ok(variable) = result {
                self.lemma_attributes_replies(
                    child,
                    namespace,
                    variable,
                    target,
                    more,
                    after,
                    fuel,
                );
            }
        } else if tag == DW_TAG_NAMESPACE {
            if let Ok(name) = namespace_name(self.entries@[child], Some(namespace.name)) {
                let (after, result) = cache.stored(
                    Some(namespace.variable_key),
                    self.namespace_of(child, name),
                    target,
                );
                if let Ok(inner) = result {
                    self.lemma_tree_replies(child, inner, target, more, after, fuel);
                }
            }
        }
    }

    /// What `member_processed` asks for, and its outcome with further replies.
    proof fn lemma_member_replies(
        self,
        child: int,
        parent: VariableView,
        target: Target,
        more: Target,
        cache: CacheView,
        fuel: nat,
    )
        requires
            extends(target, more),
        ensures
            ({
                let now = self.member_processed(child, parent, target, cache, fuel);
                let later = self.member_processed(child, parent, more, cache, fuel);
                &&& asks_anew(now.1, target)
                &&& wants_anew(now.1, target)
                &&& asks(now.1) || later == now
            }),
        decreases fuel, 3int, 0int,
    {
        let (after, result) = cache.stored(
            Some(parent.variable_key),
            self.variable_of(child),
            target,
        );
        if let Ok(variable) = result {
            self.lemma_attributes_replies(child, parent, variable, target, more, after, fuel);
            let (after, updated, result) = self.attributes_processed(
                child,
                parent,
                variable,
                target,
                after,
                fuel,
            );
            if let Ok(variable) = result {
                if !(variable.variable_type.phantom_data() || variable.name is Artifical)
                    && variable.valid() {
                    self.lemma_tree_replies(child, variable, target, more, after, fuel);
                }
            }
        }
    }

    /// What `variant_part_processed` asks for, and its outcome with further replies.
    proof fn lemma_variant_part_replies(
        self,
        child: int,
        parent: VariableView,
        target: Target,
        more: Target,
        cache: CacheView,
        fuel: nat,
    )
        requires
            extends(target, more),
        ensures
            ({
                let now = self.variant_part_processed(child, parent, target, cache, fuel);
                let later = self.variant_part_processed(child, parent, more, cache, fuel);
                &&& asks_anew(now.1, target)
                &&& wants_anew(now.1, target)
                &&& asks(now.1) || later == now
            }),
        decreases fuel, 3int, 0int,
    {
        let part = Variable { role: VariantRole::VariantPart(u64::MAX), ..parent };
        let (after, result) = cache.stored(
            Some(parent.variable_key),
            self.variable_of(child),
            target,
        );
        if let Ok(variable) = result {
            self.lemma_attributes_replies(child, part, variable, target, more, after, fuel);
            let (after, updated, result) = self.attributes_processed(
                child,
                part,
                variable,
                target,
                after,
                fuel,
            );
            if let Ok(variable) = result {
                let (after, result) = after.removed(variable.variable_key);
                if result is Ok {
                    self.lemma_tree_replies(child, updated, target, more, after, fuel);
                }
            }
        }
    }

    /// What `variant_processed` asks for, and its outcome with further replies.
    proof fn lemma_variant_replies(
        self,
        child: int,
        parent: VariableView,
        target: Target,
        more: Target,
        cache: CacheView,
        fuel: nat,
    )
        requires
            extends(target, more),
        ensures
            ({
                let now = self.variant_processed(child, parent, target, cache, fuel);
                let later = self.variant_processed(child, parent, more, cache, fuel);
                &&& asks_anew(now.1, target)
                &&& wants_anew(now.1, target)
                &&& asks(now.1) || later == now
            }),
        decreases fuel, 3int, 0int,
    {
        if !cache.has_children(parent.variable_key) {
            let (after, result) = cache.stored(
                Some(parent.variable_key),
                self.variable_of(child),
                target,
            );
            if let Ok(variable) = result {
                let variable = discriminated(variable, self.entries@[child]);
                self.lemma_attributes_replies(child, parent, variable, target, more, after, fuel);
                let (after, updated, result) = self.attributes_processed(
                    child,
                    parent,
                    variable,
                    target,
                    after,
                    fuel,
                );
                if let Ok(variable) = result {
                    if let VariantRole::Variant(discriminant) = variable.role {
                        if variable.valid() && (updated.role == VariantRole::VariantPart(
                            discriminant,
                        ) || discriminant == u64::MAX) {
                            self.lemma_variant_adopted_replies(
                                child,
                                updated,
                                Variable { memory_location: updated.memory_location, ..variable },
                                target,
                                more,
                                after,
                                fuel,
                            );
                        }
                    }
                }
            }
        }
    }

    /// What `variant_adopted` asks for, and its outcome with further replies.
    proof fn lemma_variant_adopted_replies(
        self,
        child: int,
        parent: VariableView,
        variable: VariableView,
        target: Target,
        more: Target,
        cache: CacheView,
        fuel: nat,
    )
        requires
            extends(target, more),
        ensures
            ({
                let now = self.variant_adopted(child, parent, variable, target, cache, fuel);
                let later = self.variant_adopted(child, parent, variable, more, cache, fuel);
                &&& asks_anew(now.1, target)
                &&& wants_anew(now.1, target)
                &&& asks(now.1) || later == now
            }),
        decreases fuel, 1int, 0int,
    {
        self.lemma_tree_replies(child, variable, target, more, cache, fuel);
    }

    /// What `subrange_processed` asks for, and its outcome with further replies.
    proof fn lemma_subrange_replies(
        self,
        child: int,
        parent: VariableView,
        target: Target,
        more: Target,
        cache: CacheView,
        fuel: nat,
    )
        requires
            extends(target, more),
        ensures
            ({
                let now = self.subrange_processed(child, parent, target, cache, fuel);
                let later = self.subrange_processed(child, parent, more, cache, fuel);
                &&& asks_anew(now.1, target)
                &&& wants_anew(now.1, target)
                &&& asks(now.1) || later == now
            }),
        decreases fuel, 3int, 0int,
    {
        let (after, result) = cache.stored(
            Some(parent.variable_key),
            self.variable_of(child),
            target,
        );
        if let Ok(variable) = result {
            self.lemma_attributes_replies(child, parent, variable, target, more, after, fuel);
        }
    }

    /// What `block_processed` asks for, and its outcome with further replies.
    proof fn lemma_block_replies(
        self,
        child: int,
        parent: VariableView,
        program_counter: u64,
        target: Target,
        more: Target,
        cache: CacheView,
        fuel: nat,
    )
        requires
            extends(target, more),
        ensures
            ({
                let now = self.block_processed(child, parent, program_counter, target, cache, fuel);
                let later = self.block_processed(child, parent, program_counter, more, cache, fuel);
                &&& asks_anew(now.1, target)
                &&& wants_anew(now.1, target)
                &&& asks(now.1) || later == now
            }),
        decreases fuel, 3int, 0int,
    {
        if let Ok((updated, in_scope)) = scope_of(self.entries@[child], parent, program_counter) {
            if in_scope {
                self.lemma_tree_replies(child, updated, target, more, cache, fuel);
            }
        }
    }

    /// What `attributes_processed` asks for, and its outcome with further replies.
    proof fn lemma_attributes_replies(
        self,
        node: int,
        parent: VariableView,
        variable: VariableView,
        target: Target,
        more: Target,
        cache: CacheView,
        fuel: nat,
    )
        requires
            extends(target, more),
        ensures
            ({
                let now = self.attributes_processed(node, parent, variable, target, cache, fuel);
                let later = self.attributes_processed(node, parent, variable, more, cache, fuel);
                &&& asks_anew(now.2, target)
                &&& wants_anew(now.2, target)
                &&& now.2 matches Ok(stored) ==> settled(stored, target)
                &&& asks(now.2) || later == now
            }),
        decreases fuel, 0int, 0int,
    {
        let placed = Variable { parent_key: Some(parent.variable_key), ..variable };
        if let Ok((origin, found)) = self.origin_of(node, placed) {
            if let Ok(named) = self.named_by(origin, found) {
                lemma_located_replies(
                    named,
                    parent,
                    self.entries@[node].attributes@,
                    0,
                    self.encoding,
                    target,
                    more,
                );
                let (after, result) = self.location_extracted(node, parent, named, target, cache);
                if fuel > 0 && result is Ok {
                    let located = result->Ok_0;
                    self.lemma_attributes_stored_replies(
                        node,
                        origin,
                        parent,
                        located,
                        target,
                        more,
                        after,
                        (fuel - 1) as nat,
                    );
                }
            }
        }
    }

    /// What `attributes_stored` asks for, and its outcome with further replies.
    proof fn lemma_attributes_stored_replies(
        self,
        node: int,
        origin: Option<int>,
        parent: VariableView,
        variable: VariableView,
        target: Target,
        more: Target,
        cache: CacheView,
        fuel: nat,
    )
        requires
            extends(target, more),
        ensures
            ({
                let now = self.attributes_stored(
                    node,
                    origin,
                    parent,
                    variable,
                    target,
                    cache,
                    fuel,
                );
                let later = self.attributes_stored(
                    node,
                    origin,
                    parent,
                    variable,
                    more,
                    cache,
                    fuel,
                );
                &&& asks_anew(now.2, target)
                &&& wants_anew(now.2, target)
                &&& now.2 matches Ok(stored) ==> settled(stored, target)
                &&& asks(now.2) || later == now
            }),
        decreases fuel, 4int, 0int,
    {
        lemma_stored_settled(cache, variable.parent_key, variable, target);
        if let Some(origin) = origin {
            self.lemma_attributes_from_replies(
                node,
                origin,
                0,
                parent,
                variable,
                target,
                more,
                cache,
                fuel,
            );
            let (after, updated, result) = self.attributes_from(
                node,
                origin,
                0,
                parent,
                variable,
                target,
                cache,
                fuel,
            );
            if let Ok(variable) = result {
                lemma_stored_settled(after, variable.parent_key, variable, target);
            }
        }
    }

    /// What `attributes_from` asks for, and its outcome with further replies.
    proof fn lemma_attributes_from_replies(
        self,
        node: int,
        origin: int,
        from: int,
        parent: VariableView,
        variable: VariableView,
        target: Target,
        more: Target,
        cache: CacheView,
        fuel: nat,
    )
        requires
            extends(target, more),
        ensures
            ({
                let now = self.attributes_from(
                    node,
                    origin,
                    from,
                    parent,
                    variable,
                    target,
                    cache,
                    fuel,
                );
                let later = self.attributes_from(
                    node,
                    origin,
                    from,
                    parent,
                    variable,
                    more,
                    cache,
                    fuel,
                );
                &&& asks_anew(now.2, target)
                &&& wants_anew(now.2, target)
                &&& asks(now.2) || later == now
            }),
        decreases fuel, 3int, self.entries@[origin].attributes@.len() - from,
    {
        let attributes = self.entries@[origin].attributes@;
        if from < attributes.len() {
            let attribute = attributes[from];
            self.lemma_attribute_replies(
                node,
                attribute,
                parent,
                variable,
                target,
                more,
                cache,
                fuel,
            );
            let (after, updated, result) = self.attribute_applied(
                node,
                attribute,
                parent,
                variable,
                target,
                cache,
                fuel,
            );
            if let Ok(variable) = result {
                self.lemma_attributes_from_replies(
                    node,
                    origin,
                    from + 1,
                    updated,
                    variable,
                    target,
                    more,
                    after,
                    fuel,
                );
            }
        }
    }

    /// What `attribute_applied` asks for, and its outcome with further replies.
    proof fn lemma_attribute_replies(
        self,
        node: int,
        attribute: Attribute,
        parent: VariableView,
        variable: VariableView,
        target: Target,
        more: Target,
        cache: CacheView,
        fuel: nat,
    )
        requires
            extends(target, more),
        ensures
            ({
                let now = self.attribute_applied(
                    node,
                    attribute,
                    parent,
                    variable,
                    target,
                    cache,
                    fuel,
                );
                let later = self.attribute_applied(
                    node,
                    attribute,
                    parent,
                    variable,
                    more,
                    cache,
                    fuel,
                );
                &&& asks_anew(now.2, target)
                &&& wants_anew(now.2, target)
                &&& asks(now.2) || later == now
            }),
        decreases fuel, 2int, 0int,
    {
        if attribute.name == DW_AT_TYPE {
            if let AttributeValue::UnitRef(offset) = attribute.value {
                if let Some(type_node) = self.entry_at(offset) {
                    self.lemma_type_replies(type_node, parent, variable, target, more, cache, fuel);
                }
            }
        } else if attribute.name == DW_AT_DISCR {
            if let AttributeValue::UnitRef(offset) = attribute.value {
                self.lemma_discriminant_replies(offset, parent, target, more, cache, fuel);
            }
        }
    }

    /// What `discriminant_resolved` asks for, and its outcome with further replies.
    proof fn lemma_discriminant_replies(
        self,
        offset: usize,
        parent: VariableView,
        target: Target,
        more: Target,
        cache: CacheView,
        fuel: nat,
    )
        requires
            extends(target, more),
        ensures
            ({
                let now = self.discriminant_resolved(offset, parent, target, cache, fuel);
                let later = self.discriminant_resolved(offset, parent, more, cache, fuel);
                &&& asks_anew(now.2, target)
                &&& wants_anew(now.2, target)
                &&& asks(now.2) || later == now
            }),
        decreases fuel, 1int, 0int,
    {
        if let Some(node) = self.entry_at(offset) {
            let (after, result) = cache.stored(
                Some(parent.variable_key),
                self.variable_of(node),
                target,
            );
            if let Ok(discriminant) = result {
                self.lemma_attributes_replies(
                    node,
                    parent,
                    discriminant,
                    target,
                    more,
                    after,
                    fuel,
                );
                let (after, updated, result) = self.attributes_processed(
                    node,
                    parent,
                    discriminant,
                    target,
                    after,
                    fuel,
                );
                if let Ok(discriminant) = result {
                    lemma_discriminant_wanted(discriminant, target);
                }
            }
        }
    }

    /// What `type_extracted` asks for, and its outcome with further replies.
    proof fn lemma_type_replies(
        self,
        node: int,
        parent: VariableView,
        variable: VariableView,
        target: Target,
        more: Target,
        cache: CacheView,
        fuel: nat,
    )
        requires
            extends(target, more),
        ensures
            ({
                let now = self.type_extracted(node, parent, variable, target, cache, fuel);
                let later = self.type_extracted(node, parent, variable, more, cache, fuel);
                &&& asks_anew(now.1, target)
                &&& wants_anew(now.1, target)
                &&& asks(now.1) || later == now
            }),
        decreases fuel, 0int, 0int,
    {
        let (named, text) = match self.entries@[node].attribute(DW_AT_NAME) {
            Ok(Some(attribute)) => (variable, Some(attribute.text@)),
            Ok(None) => (variable, None),
            Err(error) => {
                let message = "Error: evaluating type name: "@ + error + " "@;
                (variable.with_error(message), Some(message))
            },
        };
        if fuel > 0 && named.valid() {
            let sized = Variable {
                variable_node_type: if shown_at_once(named.variable_type) {
                    VariableNodeType::RecurseToBaseType
                } else {
                    named.variable_node_type
                },
                byte_size: self.entries@[node].size_in_bytes(),
                ..named
            };
            self.lemma_typed_replies(
                node,
                parent,
                sized,
                text,
                target,
                more,
                cache,
                (fuel - 1) as nat,
            );
        }
    }

    /// What `typed` asks for, and its outcome with further replies.
    proof fn lemma_typed_replies(
        self,
        node: int,
        parent: VariableView,
        variable: VariableView,
        text: Option<Seq<char>>,
        target: Target,
        more: Target,
        cache: CacheView,
        fuel: nat,
    )
        requires
            extends(target, more),
        ensures
            ({
                let now = self.typed(node, parent, variable, text, target, cache, fuel);
                let later = self.typed(node, parent, variable, text, more, cache, fuel);
                &&& asks_anew(now.1, target)
                &&& wants_anew(now.1, target)
                &&& asks(now.1) || later == now
            }),
        decreases fuel, 5int, 0int,
    {
        let tag = self.entries@[node].tag;
        if tag == DW_TAG_STRUCTURE_TYPE {
            if let Ok(placed) = indexed(variable, parent) {
                self.lemma_structure_replies(
                    node,
                    Variable { variable_type: VariableType::Struct(or_unnamed(text)), ..placed },
                    target,
                    more,
                    cache,
                    fuel,
                );
            }
        } else if tag == DW_TAG_ENUMERATION_TYPE {
            let enumeration = Variable {
                variable_type: VariableType::Enum(or_unnamed(text)),
                ..variable
            };
            self.lemma_tree_replies(node, enumeration, target, more, cache, fuel);
            let (after, result) = self.tree_processed(node, enumeration, target, cache, fuel);
            if let Ok(updated) = result {
                lemma_enumeration_replies(updated, target, more, after);
            }
        } else if tag == DW_TAG_ARRAY_TYPE {
            self.lemma_array_replies(node, variable, target, more, cache, fuel);
        } else if tag == DW_TAG_UNION_TYPE {
            if let Ok(placed) = indexed(variable, parent) {
                self.lemma_tree_replies(node, placed, target, more, cache, fuel);
            }
        } else if tag == DW_TAG_COMPILE_UNIT {
            self.lemma_tree_replies(node, variable, target, more, cache, fuel);
        }
    }

    /// What `structure_typed` asks for, and its outcome with further replies.
    proof fn lemma_structure_replies(
        self,
        node: int,
        variable: VariableView,
        target: Target,
        more: Target,
        cache: CacheView,
        fuel: nat,
    )
        requires
            extends(target, more),
        ensures
            ({
                let now = self.structure_typed(node, variable, target, cache, fuel);
                let later = self.structure_typed(node, variable, more, cache, fuel);
                &&& asks_anew(now.1, target)
                &&& wants_anew(now.1, target)
                &&& asks(now.1) || later == now
            }),
        decreases fuel, 4int, 0int,
    {
        if !(variable.memory_location is Unavailable) && variable.variable_node_type
            == VariableNodeType::RecurseToBaseType {
            self.lemma_tree_replies(node, variable, target, more, cache, fuel);
        }
    }

    /// What `array_typed` asks for, and its outcome with further replies.
    proof fn lemma_array_replies(
        self,
        node: int,
        variable: VariableView,
        target: Target,
        more: Target,
        cache: CacheView,
        fuel: nat,
    )
        requires
            extends(target, more),
        ensures
            ({
                let now = self.array_typed(node, variable, target, cache, fuel);
                let later = self.array_typed(node, variable, more, cache, fuel);
                &&& asks_anew(now.1, target)
                &&& wants_anew(now.1, target)
                &&& asks(now.1) || later == now
            }),
        decreases fuel, 4int, 0int,
    {
        if let TypeReference::Entry(offset) = type_reference(
            self.entries@[node].attribute(DW_AT_TYPE),
        ) {
            let (after, result) = cache.stored(
                Some(variable.variable_key),
                self.variable_of(node),
                target,
            );
            if let Ok(range) = result {
                self.lemma_tree_replies(node, range, target, more, after, fuel);
                let (after, result) = self.tree_processed(node, range, target, after, fuel);
                if let Ok(range) = result {
                    let (after, result) = after.removed(range.variable_key);
                    if result is Ok {
                        self.lemma_elements_replies(
                            offset,
                            range.range_lower_bound as int,
                            range.range_upper_bound,
                            bounded(variable, range),
                            target,
                            more,
                            after,
                            fuel,
                        );
                    }
                }
            }
        }
    }

    /// What `elements_from` asks for, and its outcome with further replies.
    proof fn lemma_elements_replies(
        self,
        offset: usize,
        from: int,
        upper_bound: i64,
        array: VariableView,
        target: Target,
        more: Target,
        cache: CacheView,
        fuel: nat,
    )
        requires
            extends(target, more),
        ensures
            ({
                let now = self.elements_from(offset, from, upper_bound, array, target, cache, fuel);
                let later = self.elements_from(offset, from, upper_bound, array, more, cache, fuel);
                &&& asks_anew(now.1, target)
                &&& wants_anew(now.1, target)
                &&& asks(now.1) || later == now
            }),
        decreases fuel, 3int, upper_bound - from,
    {
        if from < upper_bound {
            let index = from as i64;
            self.lemma_element_replies(
                offset,
                index,
                upper_bound,
                array,
                target,
                more,
                cache,
                fuel,
            );
            let (after, result) = self.element_processed(
                offset,
                index,
                upper_bound,
                array,
                target,
                cache,
                fuel,
            );
            if let Ok(updated) = result {
                self.lemma_elements_replies(
                    offset,
                    from + 1,
                    upper_bound,
                    updated,
                    target,
                    more,
                    after,
                    fuel,
                );
            }
        }
    }

    /// What `element_processed` asks for, and its outcome with further replies.
    proof fn lemma_element_replies(
        self,
        offset: usize,
        index: i64,
        upper_bound: i64,
        array: VariableView,
        target: Target,
        more: Target,
        cache: CacheView,
        fuel: nat,
    )
        requires
            extends(target, more),
        ensures
            ({
                let now = self.element_processed(
                    offset,
                    index,
                    upper_bound,
                    array,
                    target,
                    cache,
                    fuel,
                );
                let later = self.element_processed(
                    offset,
                    index,
                    upper_bound,
                    array,
                    more,
                    cache,
                    fuel,
                );
                &&& asks_anew(now.1, target)
                &&& wants_anew(now.1, target)
                &&& asks(now.1) || later == now
            }),
        decreases fuel, 2int, 0int,
    {
        if let Some(node) = self.entry_at(offset) {
            let (after, result) = cache.stored(
                Some(array.variable_key),
                self.variable_of(node),
                target,
            );
            if let Ok(element) = result {
                self.lemma_attributes_replies(node, array, element, target, more, after, fuel);
                let (after, updated, result) = self.attributes_processed(
                    node,
                    array,
                    element,
                    target,
                    after,
                    fuel,
                );
                if let Ok(element) = result {
                    let typed = Variable {
                        variable_type: VariableType::Array {
                            count: upper_bound as usize,
                            entry_type: element.name,
                        },
                        ..updated
                    };
                    self.lemma_type_replies(
                        node,
                        typed,
                        element_of(element, typed, index),
                        target,
                        more,
                        after,
                        fuel,
                    );
                }
            }
        }
    }

    /// Asking again once memory was read gives what was asked for before: further replies leave the
    /// outcome of resolving what is below an entry as it is, unless it asks for memory; and it asks
    /// only for memory to which
    /// there is no reply, and for values that are not known.
    pub proof fn law_tree_replies(
        self,
        node: int,
        parent: VariableView,
        target: Target,
        more: Target,
        cache: CacheView,
        fuel: nat,
    )
        requires
            extends(target, more),
        ensures
            ({
                let now = self.tree_processed(node, parent, target, cache, fuel);
                let later = self.tree_processed(node, parent, more, cache, fuel);
                &&& asks_anew(now.1, target)
                &&& wants_anew(now.1, target)
                &&& asks(now.1) || later == now
            }),
    {
        self.lemma_tree_replies(node, parent, target, more, cache, fuel);
    }

    /// Asking again once memory was read gives what was asked for before: further replies leave the
    /// outcome of resolving a variable from its attributes as it is, unless it asks for memory; and
    /// it asks only for memory to which
    /// there is no reply, and for values that are not known.
    pub proof fn law_attributes_replies(
        self,
        node: int,
        parent: VariableView,
        variable: VariableView,
        target: Target,
        more: Target,
        cache: CacheView,
        fuel: nat,
    )
        requires
            extends(target, more),
        ensures
            ({
                let now = self.attributes_processed(node, parent, variable, target, cache, fuel);
                let later = self.attributes_processed(node, parent, variable, more, cache, fuel);
                &&& asks_anew(now.2, target)
                &&& wants_anew(now.2, target)
                &&& asks(now.2) || later == now
            }),
    {
        self.lemma_attributes_replies(node, parent, variable, target, more, cache, fuel);
    }

    /// Asking again once memory was read gives what was asked for before: further replies leave the
    /// outcome of giving a variable its type as it is, unless it asks for memory; and it asks only
    /// for memory to which
    /// there is no reply, and for values that are not known.
    pub proof fn law_type_replies(
        self,
        node: int,
        parent: VariableView,
        variable: VariableView,
        target: Target,
        more: Target,
        cache: CacheView,
        fuel: nat,
    )
        requires
            extends(target, more),
        ensures
            ({
                let now = self.type_extracted(node, parent, variable, target, cache, fuel);
                let later = self.type_extracted(node, parent, variable, more, cache, fuel);
                &&& asks_anew(now.1, target)
                &&& wants_anew(now.1, target)
                &&& asks(now.1) || later == now
            }),
    {
        self.lemma_type_replies(node, parent, variable, target, more, cache, fuel);
    }
}

} // verus!
