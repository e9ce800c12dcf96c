//! Which parts of a type with variants are kept.
use vstd::prelude::*;

#[allow(unused_imports)]
use crate::attributes::discriminant_of;
#[allow(unused_imports)]
use crate::cache::{lemma_position, lemma_stored_wf, moved, parent_stands, position, CacheView};
#[allow(unused_imports)]
use crate::dwarf::{
    Attribute, AttributeValue, Encoding, UnitInfo, DW_AT_ABSTRACT_ORIGIN, DW_AT_DISCR,
    DW_AT_DISCR_VALUE, DW_AT_NAME, DW_TAG_VARIANT, DW_TAG_VARIANT_PART,
};
#[allow(unused_imports)]
use crate::effects::{is_first, law_attribute, law_variant_discriminant};
#[allow(unused_imports)]
use crate::error::DebugErrorView;
#[allow(unused_imports)]
use crate::frame::{
    holds, lemma_key_positive, lemma_outset, lemma_store, still, Frame,
};
#[allow(unused_imports)]
use crate::kept::{
    is_member, is_part, lemma_all_kept, lemma_others_kept, lemma_removal_keeps, lemma_stored_new,
    others_kept,
};
#[allow(unused_imports)]
use crate::laws::{
    idle, law_adopted, law_discriminant_default, law_discriminant_is_the_value,
    law_discriminant_unreadable, law_removed,
};
#[allow(unused_imports)]
use crate::location::located_from;
#[allow(unused_imports)]
use crate::target::Target;
#[allow(unused_imports)]
use crate::text::decimal;
#[allow(unused_imports)]
use crate::tree::{discriminated, Outcome};
#[allow(unused_imports)]
use crate::variable::{Variable, VariableValue, VariableView, VariantRole};

verus! {

/// Whether all of `attributes`, from the `from`-th on, have no effect on the variable of their
/// entry.
pub open spec fn all_idle(attributes: Seq<Attribute>, from: int) -> bool {
    forall|i: int| from <= i < attributes.len() ==> idle((#[trigger] attributes[i]).name)
}

/// Attributes without effect say nothing of the place of a variable.
proof fn lemma_idle_place(
    variable: VariableView,
    parent: VariableView,
    attributes: Seq<Attribute>,
    from: int,
    encoding: Encoding,
    target: Target,
)
    requires
        0 <= from,
        forall|i: int|
            from <= i < attributes.len() ==> idle((#[trigger] attributes[i]).name)
                || attributes[i].name == DW_AT_DISCR,
    ensures
        located_from(variable, parent, attributes, from, encoding, target).0 == variable,
        located_from(variable, parent, attributes, from, encoding, target).1 is Ok,
    decreases attributes.len() - from,
{
    if from < attributes.len() {
        assert(idle(attributes[from].name) || attributes[from].name == DW_AT_DISCR);
        lemma_idle_place(variable, parent, attributes, from + 1, encoding, target);
    }
}

/// Whether the variables of two caches are the same.
pub open spec fn same_variables(a: CacheView, b: CacheView) -> bool {
    forall|variable: VariableView| #[trigger] holds(a, variable) <==> holds(b, variable)
}

/// Two well-formed caches with the same variables have the same ones under each parent.
proof fn lemma_same_children(a: CacheView, b: CacheView, key: i64)
    requires
        same_variables(a, b),
        a.has_children(key),
    ensures
        b.has_children(key),
{
    let i = choose|i: int|
        0 <= i < a.entries.len() && (#[trigger] a.entries[i]).parent_key == Some(key);
    assert(holds(a, a.entries[i]));
    let j = choose|j: int| 0 <= j < b.entries.len() && #[trigger] b.entries[j] == a.entries[i];
    assert(b.entries[j].parent_key == Some(key));
}

/// Two caches with the same variables have the same keys.
proof fn lemma_same_has(a: CacheView, b: CacheView, key: i64)
    requires
        same_variables(b, a),
        a.has(key),
    ensures
        b.has(key),
{
    let i = position(a.entries, key);
    assert(a.entries[i].variable_key == key && holds(a, a.entries[i]));
    assert(holds(b, a.entries[i]));
    let j = choose|j: int| 0 <= j < b.entries.len() && #[trigger] b.entries[j] == a.entries[i];
    assert(b.entries[j].variable_key == key);
}

impl UnitInfo {
    /// Attributes without effect leave the cache, the parent and the variable as they are.
    proof fn lemma_idle_attributes(
        self,
        node: int,
        origin: int,
        from: int,
        parent: VariableView,
        variable: VariableView,
        target: Target,
        cache: CacheView,
        fuel: nat,
    )
        requires
            0 <= from,
            all_idle(self.entries@[origin].attributes@, from),
        ensures
            self.attributes_from(node, origin, from, parent, variable, target, cache, fuel) == (
                cache,
                parent,
                Ok::<VariableView, DebugErrorView>(variable),
            ),
        decreases self.entries@[origin].attributes@.len() - from,
    {
        let attributes = self.entries@[origin].attributes@;
        if from < attributes.len() {
            assert(idle(attributes[from].name));
            assert(self.attribute_applied(
                node,
                attributes[from],
                parent,
                variable,
                target,
                cache,
                fuel,
            ) == (cache, parent, Ok::<VariableView, DebugErrorView>(variable)));
            self.lemma_idle_attributes(
                node,
                origin,
                from + 1,
                parent,
                variable,
                target,
                cache,
                fuel,
            );
        }
    }

    /// Whether the entry `node` describes the variant with the discriminant `discriminant`, and
    /// says nothing else of it that has an effect. The discriminant of the default variant, for
    /// which none is given, is the largest number.
    pub open spec fn is_variant(self, node: int, discriminant: u64) -> bool {
        &&& self.entries@[node].tag == DW_TAG_VARIANT
        &&& all_idle(self.entries@[node].attributes@, 0)
        &&& match self.entries@[node].attribute(DW_AT_DISCR_VALUE) {
            Ok(Some(attribute)) => attribute.value matches AttributeValue::Data1(byte)
                && discriminant == byte,
            Ok(None) => discriminant == u64::MAX,
            Err(_) => false,
        }
    }

    /// Whether `cache` holds what the entry `child`, an entry of a variant, describes, as a part of
    /// the variable with the key `parent`, and as its attributes make it as a part of the variant
    /// `variant`.
    pub open spec fn has_moved_part(
        self,
        cache: CacheView,
        child: int,
        variant: VariableView,
        parent: i64,
        target: Target,
        fuel: nat,
    ) -> bool {
        exists|i: int|
            0 <= i < cache.entries.len() && is_part(
                #[trigger] cache.entries[i],
                self.entries@[child],
                parent,
            ) && self.made_from(
                child,
                variant,
                target,
                fuel,
                Variable { parent_key: Some(variant.variable_key), ..cache.entries[i] },
            )
    }

    /// Whether `cache` holds what the entries of the variant `node` describe, as parts of the
    /// variable with the key `parent`: each variable, member and enumerator, unless it holds no
    /// data, and with the place of `variant` as the place of the variant.
    pub open spec fn variant_kept(
        self,
        node: int,
        cache: CacheView,
        variant: VariableView,
        parent: i64,
        target: Target,
        fuel: nat,
    ) -> bool {
        forall|at: int, child: int| #[trigger]
            self.child_is(node, at, child) && is_member(self.entries@[child].tag)
                ==> self.has_moved_part(cache, child, variant, parent, target, fuel)
                || self.holds_no_data(child, target, fuel)
    }

    /// Whether `cache` holds the parts of the variant `node` as parts of `parent`, in whose place
    /// they are kept.
    pub open spec fn variant_shown(
        self,
        node: int,
        cache: CacheView,
        parent: VariableView,
        target: Target,
        fuel: nat,
    ) -> bool {
        exists|variant: VariableView| #[trigger]
            self.variant_kept(node, cache, variant, parent.variable_key, target, fuel)
                && variant.memory_location == parent.memory_location
    }

    /// Whether `cache` holds the variant `node` itself as a part of `parent`, and something is
    /// wrong with it.
    pub open spec fn variant_failed(
        self,
        node: int,
        cache: CacheView,
        parent: VariableView,
    ) -> bool {
        exists|i: int|
            0 <= i < cache.entries.len() && is_part(
                #[trigger] cache.entries[i],
                self.entries@[node],
                parent.variable_key,
            ) && !cache.entries[i].valid()
    }

    /// The discriminant of a variant becomes its part in the type.
    proof fn lemma_variant_role(self, node: int, variable: VariableView, discriminant: u64)
        requires
            self.is_variant(node, discriminant),
        ensures
            discriminated(variable, self.entries@[node]) == (Variable {
                role: VariantRole::Variant(discriminant),
                ..variable
            }),
    {
        if let Ok(Some(_)) = self.entries@[node].attribute(DW_AT_DISCR_VALUE) {
            law_variant_discriminant(variable, self.entries@[node], discriminant as u8);
        } else {
            law_discriminant_default(variable, self.entries@[node]);
        }
    }

    /// A variant for which nothing but a discriminant is given is a new variable with that
    /// discriminant.
    proof fn lemma_variant_attributes(
        self,
        node: int,
        parent: VariableView,
        target: Target,
        cache: CacheView,
        fuel: nat,
        discriminant: u64,
    )
        requires
            cache.wf(),
            self.is_variant(node, discriminant),
            cache.stored(Some(parent.variable_key), self.variable_of(node), target).1 is Ok,
        ensures
            ({
                let (base, new) = cache.stored(
                    Some(parent.variable_key),
                    self.variable_of(node),
                    target,
                );
                let variable = discriminated(new->Ok_0, self.entries@[node]);
                let outcome = self.attributes_processed(
                    node,
                    parent,
                    variable,
                    target,
                    base,
                    fuel,
                );
                outcome.2 matches Ok(updated) ==> outcome.1 == parent && updated == Variable {
                    variable_key: cache.next_key,
                    parent_key: Some(parent.variable_key),
                    role: VariantRole::Variant(discriminant),
                    ..self.variable_of(node)
                } && outcome.0.entries == cache.entries.push(updated)
            }),
    {
        let entry = self.entries@[node];
        let (base, new) = cache.stored(Some(parent.variable_key), self.variable_of(node), target);
        let variable = discriminated(new->Ok_0, entry);
        self.lemma_variant_role(node, new->Ok_0, discriminant);
        law_attribute(entry, DW_AT_ABSTRACT_ORIGIN);
        law_attribute(entry, DW_AT_NAME);
        lemma_idle_place(variable, parent, entry.attributes@, 0, self.encoding, target);
        if fuel > 0 {
            let (after, stored) = base.stored(variable.parent_key, variable, target);
            lemma_stored_wf(cache, Some(parent.variable_key), self.variable_of(node), target);
            lemma_stored_wf(base, variable.parent_key, variable, target);
            let own = cache.entries.len() as int;
            lemma_position(base, own);
            lemma_position(after, own);
            if stored is Ok {
                let last = after.stored(variable.parent_key, variable, target).0;
                assert(last.entries =~= cache.entries.push(variable));
            }
            self.lemma_idle_attributes(
                node,
                node,
                0,
                parent,
                variable,
                target,
                after,
                (fuel - 1) as nat,
            );
        }
    }

    /// A variant with a given discriminant is shown only where that is the discriminant that was
    /// read from the target, and the default one whatever was read: its parts become parts of the
    /// variable then, unless something is wrong with it; where another one was read, nothing of the
    /// variant is kept.
    pub proof fn law_variant(
        self,
        node: int,
        parent: VariableView,
        target: Target,
        cache: CacheView,
        fuel: nat,
        discriminant: u64,
        active: u64,
    )
        requires
            cache.wf(),
            cache.has(parent.variable_key),
            !cache.has_children(parent.variable_key),
            self.is_variant(node, discriminant),
            parent.role == VariantRole::VariantPart(active),
            fuel > 0,
        ensures
            ({
                let outcome = self.variant_processed(node, parent, target, cache, fuel);
                outcome.1 matches Ok(updated) ==> updated == parent && outcome.0.wf() && (
                if discriminant == active || discriminant == u64::MAX {
                    self.variant_shown(node, outcome.0, parent, target, (fuel - 1) as nat)
                        || self.variant_failed(node, outcome.0, parent)
                } else {
                    same_variables(outcome.0, cache)
                })
            }),
    {
        let key = parent.variable_key;
        let outcome = self.variant_processed(node, parent, target, cache, fuel);
        if outcome.1 is Ok {
            let fresh = self.variable_of(node);
            lemma_stored_new(cache, key, fresh, target);
            let (base, new) = cache.stored(Some(key), fresh, target);
            self.lemma_variant_attributes(node, parent, target, cache, fuel, discriminant);
            let variable = discriminated(new->Ok_0, self.entries@[node]);
            self.lemma_variant_role(node, new->Ok_0, discriminant);
            self.lemma_new_attributes(node, parent, variable, target, cache, base, fuel);
            let (after, updated, result) = self.attributes_processed(
                node,
                parent,
                variable,
                target,
                base,
                fuel,
            );
            let resolved = result->Ok_0;
            if discriminant == active || discriminant == u64::MAX {
                let variant = Variable { memory_location: parent.memory_location, ..resolved };
                self.law_children_kept(node, variant, target, after, fuel);
                self.lemma_new_tree(node, variant, target, cache, after, fuel);
                let (grown, result) = self.tree_processed(node, variant, target, after, fuel);
                let last = result->Ok_0;
                let own = cache.next_key;
                let at = position(cache.entries, key);
                assert(cache.entries[at].variable_key == key);
                assert(holds(cache, cache.entries[at]));
                if last.valid() {
                    law_adopted(grown, key, own);
                    assert forall|at: int, child: int| #[trigger]
                        self.child_is(node, at, child) && is_member(
                            self.entries@[child].tag,
                        ) implies self.has_moved_part(
                        outcome.0,
                        child,
                        variant,
                        key,
                        target,
                        (fuel - 1) as nat,
                    ) || self.holds_no_data(child, target, (fuel - 1) as nat) by {
                        let rest = (fuel - 1) as nat;
                        assert(self.child_kept(child, grown, variant, target, rest));
                        if self.has_part(grown, child, variant, target, rest) {
                            let i = choose|i: int|
                                0 <= i < grown.entries.len() && is_part(
                                    #[trigger] grown.entries[i],
                                    self.entries@[child],
                                    variant.variable_key,
                                ) && self.made_from(
                                    child,
                                    variant,
                                    target,
                                    rest,
                                    grown.entries[i],
                                );
                            let e = grown.entries[i];
                            assert(holds(grown, e));
                            assert(e.variable_key != own) by {
                                assert(parent_stands(grown.entries, e));
                            }
                            let there = moved(e, key, own);
                            assert(holds(outcome.0, there));
                            let j = choose|j: int|
                                0 <= j < outcome.0.entries.len()
                                    && #[trigger] outcome.0.entries[j] == there;
                            assert(Variable { parent_key: Some(own), ..there } == e);
                            assert(is_part(outcome.0.entries[j], self.entries@[child], key));
                        }
                    }
                    assert(self.variant_kept(
                        node,
                        outcome.0,
                        variant,
                        key,
                        target,
                        (fuel - 1) as nat,
                    ));
                } else {
                    let i = position(grown.entries, own);
                    assert(grown.entries[i] == last);
                    assert(is_part(grown.entries[i], self.entries@[node], key));
                }
            } else {
                lemma_removal_keeps(cache, after);
                law_removed(after, cache.next_key);
                assert forall|v: VariableView| #[trigger] holds(outcome.0, v) implies holds(
                    cache,
                    v,
                ) by {
                    assert(holds(after, v));
                    let i = choose|i: int|
                        0 <= i < after.entries.len() && #[trigger] after.entries[i] == v;
                    assert(i < cache.entries.len());
                    assert(cache.entries[i] == v);
                }
            }
        }
    }

    /// Once a part of a variable is known, no further variant is looked at.
    pub proof fn law_single_variant(
        self,
        node: int,
        parent: VariableView,
        target: Target,
        cache: CacheView,
        fuel: nat,
    )
        requires
            cache.has_children(parent.variable_key),
        ensures
            ({
                let outcome = self.variant_processed(node, parent, target, cache, fuel);
                outcome.0 == cache && (outcome.1 matches Ok(updated) && updated == parent)
            }),
    {
    }

    /// Whether the children of the entry `node` describe variants with these discriminants.
    pub open spec fn has_variants(self, node: int, discriminants: Seq<u64>) -> bool {
        &&& discriminants.len() == self.entries@[node].children@.len()
        &&& forall|at: int, child: int| #[trigger]
            self.child_is(node, at, child) ==> self.is_variant(child, discriminants[at])
    }

    /// A variant is resolved as one.
    proof fn lemma_variant_child(
        self,
        child: int,
        parent: VariableView,
        program_counter: u64,
        target: Target,
        cache: CacheView,
        fuel: nat,
    )
        requires
            self.entries@[child].tag == DW_TAG_VARIANT,
        ensures
            self.child_processed(child, parent, program_counter, target, cache, fuel)
                == self.variant_processed(child, parent, target, cache, fuel),
    {
    }

    /// Variants that are not active change nothing.
    proof fn lemma_inactive(
        self,
        node: int,
        from: int,
        to: int,
        parent: VariableView,
        program_counter: u64,
        target: Target,
        cache: CacheView,
        fuel: nat,
        discriminants: Seq<u64>,
        active: u64,
    ) -> (after: CacheView)
        requires
            cache.wf(),
            cache.has(parent.variable_key),
            !cache.has_children(parent.variable_key),
            self.has_variants(node, discriminants),
            parent.role == VariantRole::VariantPart(active),
            fuel > 0,
            0 <= from <= to <= discriminants.len(),
            forall|at: int|
                from <= at < to ==> (#[trigger] discriminants[at]) != active && discriminants[at]
                    != u64::MAX,
        ensures
            ({
                let outcome = self.children_from(
                    node,
                    from,
                    parent,
                    program_counter,
                    target,
                    cache,
                    fuel,
                );
                outcome.1 is Ok ==> {
                    &&& after.wf()
                    &&& same_variables(after, cache)
                    &&& outcome == self.children_from(
                        node,
                        to,
                        parent,
                        program_counter,
                        target,
                        after,
                        fuel,
                    )
                }
            }),
        decreases to - from,
    {
        let outcome = self.children_from(node, from, parent, program_counter, target, cache, fuel);
        if from < to && outcome.1 is Ok {
            let first = self.entry_at(self.entries@[node].children@[from])->0;
            assert(self.child_is(node, from, first));
            self.lemma_variant_child(first, parent, program_counter, target, cache, fuel);
            self.law_variant(
                first,
                parent,
                target,
                cache,
                fuel,
                discriminants[from],
                active,
            );
            let next = self.variant_processed(first, parent, target, cache, fuel).0;
            let key = parent.variable_key;
            lemma_same_has(cache, next, key);
            if next.has_children(key) {
                lemma_same_children(next, cache, key);
            }
            self.lemma_inactive(
                node,
                from + 1,
                to,
                parent,
                program_counter,
                target,
                next,
                fuel,
                discriminants,
                active,
            )
        } else {
            cache
        }
    }

    /// What is shown of a variant stays where all variables but the parent are kept.
    proof fn lemma_shown_stays(
        self,
        node: int,
        before: CacheView,
        after: CacheView,
        parent: VariableView,
        target: Target,
        fuel: nat,
    )
        requires
            before.wf(),
            others_kept(before, after, parent.variable_key),
            self.variant_shown(node, before, parent, target, fuel) || self.variant_failed(
                node,
                before,
                parent,
            ),
        ensures
            self.variant_shown(node, after, parent, target, fuel) || self.variant_failed(
                node,
                after,
                parent,
            ),
    {
        let key = parent.variable_key;
        if self.variant_failed(node, before, parent) {
            let i = choose|i: int|
                0 <= i < before.entries.len() && is_part(
                    #[trigger] before.entries[i],
                    self.entries@[node],
                    key,
                ) && !before.entries[i].valid();
            assert(parent_stands(before.entries, before.entries[i]));
            assert(holds(before, before.entries[i]));
            let j = choose|j: int|
                0 <= j < after.entries.len() && #[trigger] after.entries[j] == before.entries[i];
            assert(is_part(after.entries[j], self.entries@[node], key));
        } else {
            let variant = choose|variant: VariableView| #[trigger]
                self.variant_kept(node, before, variant, key, target, fuel)
                    && variant.memory_location == parent.memory_location;
            assert forall|at: int, child: int| #[trigger]
                self.child_is(node, at, child) && is_member(
                    self.entries@[child].tag,
                ) implies self.has_moved_part(after, child, variant, key, target, fuel)
                || self.holds_no_data(child, target, fuel) by {
                if self.has_moved_part(before, child, variant, key, target, fuel) {
                    let i = choose|i: int|
                        0 <= i < before.entries.len() && is_part(
                            #[trigger] before.entries[i],
                            self.entries@[child],
                            key,
                        ) && self.made_from(
                            child,
                            variant,
                            target,
                            fuel,
                            Variable {
                                parent_key: Some(variant.variable_key),
                                ..before.entries[i]
                            },
                        );
                    assert(parent_stands(before.entries, before.entries[i]));
                    assert(holds(before, before.entries[i]));
                    let j = choose|j: int|
                        0 <= j < after.entries.len() && #[trigger] after.entries[j]
                            == before.entries[i];
                    assert(is_part(after.entries[j], self.entries@[child], key));
                }
            }
            assert(self.variant_kept(node, after, variant, key, target, fuel));
        }
    }

    /// The active variant is shown, whatever is behind it.
    proof fn lemma_active(
        self,
        node: int,
        at: int,
        child: int,
        parent: VariableView,
        program_counter: u64,
        target: Target,
        cache: CacheView,
        fuel: nat,
        discriminant: u64,
        active: u64,
    )
        requires
            cache.wf(),
            cache.has(parent.variable_key),
            !cache.has_children(parent.variable_key),
            self.child_is(node, at, child),
            self.is_variant(child, discriminant),
            parent.role == VariantRole::VariantPart(active),
            discriminant == active || discriminant == u64::MAX,
            fuel > 0,
        ensures
            ({
                let outcome = self.children_from(
                    node,
                    at,
                    parent,
                    program_counter,
                    target,
                    cache,
                    fuel,
                );
                outcome.1 matches Ok(updated) ==> {
                    &&& outcome.0.wf()
                    &&& outcome.0.has(parent.variable_key)
                    &&& still(updated, parent)
                    &&& self.variant_shown(child, outcome.0, parent, target, (fuel - 1) as nat)
                        || self.variant_failed(child, outcome.0, parent)
                }
            }),
    {
        let key = parent.variable_key;
        let outcome = self.children_from(node, at, parent, program_counter, target, cache, fuel);
        if outcome.1 is Ok {
            self.lemma_variant_child(child, parent, program_counter, target, cache, fuel);
            self.law_variant(
                child,
                parent,
                target,
                cache,
                fuel,
                discriminant,
                active,
            );
            let shown = self.variant_processed(child, parent, target, cache, fuel).0;
            let frame = Frame { base: cache, key, parent: key, parts: false };
            lemma_outset(frame);
            self.lemma_variant_frame(frame, child, parent, target, cache, fuel);
            let later = Frame { base: shown, key, parent: key, parts: false };
            lemma_outset(later);
            self.lemma_children_frame(
                later,
                node,
                at + 1,
                parent,
                program_counter,
                target,
                shown,
                fuel,
            );
            lemma_others_kept(later, outcome.0);
            self.lemma_shown_stays(child, shown, outcome.0, parent, target, (fuel - 1) as nat);
        }
    }

    /// Of the variants of a type the first one with the discriminant that was read from the target,
    /// or the default one, is shown, unless something is wrong with it; whatever other variants
    /// there are, before it or behind it.
    pub proof fn law_active_variant_shown(
        self,
        node: int,
        parent: VariableView,
        target: Target,
        cache: CacheView,
        fuel: nat,
        discriminants: Seq<u64>,
        active: u64,
        at: int,
        child: int,
    )
        requires
            cache.wf(),
            cache.has(parent.variable_key),
            !cache.has_children(parent.variable_key),
            parent.valid(),
            parent.role == VariantRole::VariantPart(active),
            self.has_variants(node, discriminants),
            self.child_is(node, at, child),
            discriminants[at] == active || discriminants[at] == u64::MAX,
            forall|i: int|
                0 <= i < at ==> (#[trigger] discriminants[i]) != active && discriminants[i]
                    != u64::MAX,
            fuel > 1,
        ensures
            ({
                let outcome = self.tree_processed(node, parent, target, cache, fuel);
                outcome.1 is Ok ==> self.variant_shown(
                    child,
                    outcome.0,
                    parent,
                    target,
                    (fuel - 2) as nat,
                ) || self.variant_failed(child, outcome.0, parent)
            }),
    {
        let key = parent.variable_key;
        let rest = (fuel - 1) as nat;
        let outcome = self.tree_processed(node, parent, target, cache, fuel);
        if outcome.1 is Ok {
            let program_counter = target.registers.program_counter->0.number() as u64;
            let before = self.lemma_inactive(
                node,
                0,
                at,
                parent,
                program_counter,
                target,
                cache,
                rest,
                discriminants,
                active,
            );
            lemma_same_has(cache, before, key);
            if before.has_children(key) {
                lemma_same_children(before, cache, key);
            }
            self.lemma_active(
                node,
                at,
                child,
                parent,
                program_counter,
                target,
                before,
                rest,
                discriminants[at],
                active,
            );
            let (grown, result) = self.children_from(
                node,
                at,
                parent,
                program_counter,
                target,
                before,
                rest,
            );
            let updated = result->Ok_0;
            let last = Frame { base: grown, key, parent: key, parts: false };
            lemma_outset(last);
            lemma_key_positive(last);
            lemma_store(last, grown, updated.parent_key, updated, target);
            lemma_others_kept(last, outcome.0);
            self.lemma_shown_stays(child, grown, outcome.0, parent, target, (fuel - 2) as nat);
        }
    }

    /// Where no variant of a type has the discriminant that was read from the target, none is
    /// shown: the cache holds no variable that it did not hold before, but for the parent.
    pub proof fn law_no_active_variant(
        self,
        node: int,
        parent: VariableView,
        target: Target,
        cache: CacheView,
        fuel: nat,
        discriminants: Seq<u64>,
        active: u64,
    )
        requires
            cache.wf(),
            cache.has(parent.variable_key),
            !cache.has_children(parent.variable_key),
            parent.valid(),
            parent.role == VariantRole::VariantPart(active),
            self.has_variants(node, discriminants),
            forall|i: int|
                0 <= i < discriminants.len() ==> (#[trigger] discriminants[i]) != active
                    && discriminants[i] != u64::MAX,
            fuel > 1,
        ensures
            ({
                let outcome = self.tree_processed(node, parent, target, cache, fuel);
                outcome.1 is Ok ==> forall|variable: VariableView| #[trigger]
                    holds(outcome.0, variable) && variable.variable_key != parent.variable_key
                        ==> holds(cache, variable)
            }),
    {
        let key = parent.variable_key;
        let rest = (fuel - 1) as nat;
        let outcome = self.tree_processed(node, parent, target, cache, fuel);
        if outcome.1 is Ok {
            let program_counter = target.registers.program_counter->0.number() as u64;
            let after = self.lemma_inactive(
                node,
                0,
                discriminants.len() as int,
                parent,
                program_counter,
                target,
                cache,
                rest,
                discriminants,
                active,
            );
            lemma_same_has(cache, after, key);
            let at = position(after.entries, key);
            assert(after.entries[at].variable_key == key);
            assert forall|variable: VariableView| #[trigger]
                holds(outcome.0, variable) && variable.variable_key != key implies holds(
                cache,
                variable,
            ) by {
                let i = choose|i: int|
                    0 <= i < outcome.0.entries.len() && #[trigger] outcome.0.entries[i] == variable;
                assert(after.entries[i] == variable);
                assert(holds(after, variable));
            }
        }
    }

    /// Attributes without effect are passed over.
    proof fn lemma_idle_prefix(
        self,
        node: int,
        from: int,
        to: int,
        parent: VariableView,
        variable: VariableView,
        target: Target,
        cache: CacheView,
        fuel: nat,
    )
        requires
            0 <= from <= to <= self.entries@[node].attributes@.len(),
            forall|i: int|
                from <= i < to ==> idle((#[trigger] self.entries@[node].attributes@[i]).name),
        ensures
            self.attributes_from(node, node, from, parent, variable, target, cache, fuel)
                == self.attributes_from(node, node, to, parent, variable, target, cache, fuel),
        decreases to - from,
    {
        let attributes = self.entries@[node].attributes@;
        if from < to {
            assert(idle(attributes[from].name));
            assert(self.attribute_applied(
                node,
                attributes[from],
                parent,
                variable,
                target,
                cache,
                fuel,
            ) == (cache, parent, Ok::<VariableView, DebugErrorView>(variable)));
            self.lemma_idle_prefix(node, from + 1, to, parent, variable, target, cache, fuel);
        }
    }

    /// Whether the entry `node` describes the variants of a type, refers to the entry at `offset`
    /// for the discriminant, and says nothing else that has an effect.
    pub open spec fn tells_discriminant(self, node: int, at: int, offset: usize) -> bool {
        &&& self.entries@[node].tag == DW_TAG_VARIANT_PART
        &&& is_first(self.entries@[node].attributes@, DW_AT_DISCR, at)
        &&& self.entries@[node].attributes@[at].value == AttributeValue::UnitRef(offset)
        &&& forall|i: int|
            0 <= i < self.entries@[node].attributes@.len() && i != at ==> idle(
                (#[trigger] self.entries@[node].attributes@[i]).name,
            )
    }

    /// Whether the number that `variable` shows, if it shows one, is `n`; an error, and a text that
    /// is empty or has another character than digits, show the largest one.
    pub open spec fn shows(variable: VariableView, n: u64) -> bool {
        &&& forall|m: u64|
            variable.value == VariableValue::Valid(#[trigger] decimal(m as nat)) ==> m == n
        &&& variable.value is Error ==> n == u64::MAX
        &&& variable.value matches VariableValue::Valid(text) ==> (text.len() == 0 || (exists|
            i: int,
        |
            0 < i < text.len() && !('0' <= #[trigger] text[i] <= '9')) ==> n == u64::MAX)
    }

    /// What is read of a discriminant becomes the part of the parent in the type.
    proof fn lemma_discriminant(
        self,
        offset: usize,
        parent: VariableView,
        target: Target,
        cache: CacheView,
        fuel: nat,
    ) -> (r: (VariableView, u64))
        requires
            cache.wf(),
            cache.has(parent.variable_key),
        ensures
            ({
                let outcome = self.discriminant_resolved(offset, parent, target, cache, fuel);
                outcome.2 is Ok ==> {
                    &&& self.makes(self.entry_at(offset)->0, parent, target, cache, fuel, r.0)
                    &&& Self::shows(r.0, r.1)
                    &&& outcome.1 == Variable { role: VariantRole::VariantPart(r.1), ..parent }
                }
            }),
    {
        let key = parent.variable_key;
        let outcome = self.discriminant_resolved(offset, parent, target, cache, fuel);
        let node = self.entry_at(offset)->0;
        let fresh = self.variable_of(node);
        let (with, new) = cache.stored(Some(key), fresh, target);
        let (between, above, result) = self.attributes_processed(
            node,
            parent,
            new->Ok_0,
            target,
            with,
            fuel,
        );
        let member = result->Ok_0;
        let active = discriminant_of(member)->Ok_0;
        if outcome.2 is Ok {
            assert forall|m: u64|
                member.value == VariableValue::Valid(
                    #[trigger] decimal(m as nat),
                ) implies m == active by {
                law_discriminant_is_the_value(member, m);
            }
            if let VariableValue::Valid(text) = member.value {
                let at = choose|i: int|
                    0 < i < text.len() && !('0' <= #[trigger] text[i] <= '9');
                law_discriminant_unreadable(member, text, at);
            }
            lemma_stored_new(cache, key, fresh, target);
            self.lemma_new_attributes(node, parent, new->Ok_0, target, cache, with, fuel);
        }
        (member, active)
    }

    /// The attributes of the entry of the variants do nothing but find out the active one.
    proof fn lemma_part_attributes(
        self,
        child: int,
        parent: VariableView,
        variable: VariableView,
        target: Target,
        base: CacheView,
        fuel: nat,
        at: int,
        offset: usize,
    )
        requires
            self.tells_discriminant(child, at, offset),
            fuel > 0,
            variable.parent_key == Some(parent.variable_key),
        ensures
            ({
                let outcome = self.attributes_processed(
                    child,
                    parent,
                    variable,
                    target,
                    base,
                    fuel,
                );
                let placed = base.stored(variable.parent_key, variable, target);
                outcome.2 is Ok ==> {
                    let resolved = self.discriminant_resolved(
                        offset,
                        parent,
                        target,
                        placed.0,
                        (fuel - 1) as nat,
                    );
                    &&& placed.1 is Ok
                    &&& resolved.2 is Ok
                    &&& outcome.1 == resolved.1
                }
            }),
    {
        let rest = (fuel - 1) as nat;
        let entry = self.entries@[child];
        let attributes = entry.attributes@;
        law_attribute(entry, DW_AT_ABSTRACT_ORIGIN);
        law_attribute(entry, DW_AT_NAME);
        lemma_idle_place(variable, parent, attributes, 0, self.encoding, target);
        assert(!(entry.attribute(DW_AT_ABSTRACT_ORIGIN) matches Ok(Some(_))));
        assert(self.origin_of(child, variable) == Ok::<_, DebugErrorView>((Some(child), variable)));
        assert(!(entry.attribute(DW_AT_NAME) matches Ok(Some(_))));
        let (placed, stored) = base.stored(variable.parent_key, variable, target);
        if let Ok(located) = stored {
            self.lemma_idle_prefix(child, 0, at, parent, located, target, placed, rest);
            let resolved = self.discriminant_resolved(offset, parent, target, placed, rest);
            let applied = self.attribute_applied(
                child,
                attributes[at],
                parent,
                located,
                target,
                placed,
                rest,
            );
            assert(applied.1 == resolved.1 && applied.0 == resolved.0);
            assert(applied.2 is Ok <==> resolved.2 is Ok);
            self.lemma_idle_attributes(
                child,
                child,
                at + 1,
                resolved.1,
                located,
                target,
                resolved.0,
                rest,
            );
        }
    }

    /// Whether the variants of the entry `child` are resolved with the number that the member at
    /// `offset` holds: the attributes of the entry of that member make `member` of it, which shows
    /// `active`, and with that number as the active variant all is resolved that is below the
    /// entry.
    pub open spec fn resolved_by(
        self,
        outcome: Outcome,
        child: int,
        parent: VariableView,
        target: Target,
        fuel: nat,
        offset: usize,
        active: u64,
    ) -> bool {
        exists|member: VariableView, between: CacheView, after: CacheView| #[trigger]
            self.makes(
                self.entry_at(offset)->0,
                Variable { role: VariantRole::VariantPart(u64::MAX), ..parent },
                target,
                between,
                (fuel - 1) as nat,
                member,
            ) && Self::shows(member, active) && after.wf() && outcome
                == #[trigger] self.tree_processed(
                child,
                Variable { role: VariantRole::VariantPart(active), ..parent },
                target,
                after,
                fuel,
            )
    }

    /// The active variant is the one whose discriminant the member that the entry refers to holds:
    /// the attributes of the entry of that member make a variable of which the number is read, and
    /// with that number the variants are resolved.
    pub proof fn law_discriminant_read(
        self,
        child: int,
        parent: VariableView,
        target: Target,
        cache: CacheView,
        fuel: nat,
        at: int,
        offset: usize,
    )
        requires
            cache.wf(),
            cache.has(parent.variable_key),
            self.tells_discriminant(child, at, offset),
            fuel > 0,
        ensures
            self.variant_part_processed(child, parent, target, cache, fuel).1 is Ok ==> exists|
                active: u64,
            | #[trigger]
                self.resolved_by(
                    self.variant_part_processed(child, parent, target, cache, fuel),
                    child,
                    parent,
                    target,
                    fuel,
                    offset,
                    active,
                ),
    {
        let key = parent.variable_key;
        let rest = (fuel - 1) as nat;
        let outcome = self.variant_part_processed(child, parent, target, cache, fuel);
        if outcome.1 is Ok {
            let part = Variable { role: VariantRole::VariantPart(u64::MAX), ..parent };
            let fresh = self.variable_of(child);
            lemma_stored_new(cache, key, fresh, target);
            let (base, new) = cache.stored(Some(key), fresh, target);
            let variable = new->Ok_0;
            self.lemma_part_attributes(child, part, variable, target, base, fuel, at, offset);
            let placed = base.stored(variable.parent_key, variable, target).0;
            let own = position(cache.entries, key);
            assert(cache.entries[own].variable_key == key && holds(cache, cache.entries[own]));
            let frame = Frame { base, key: cache.next_key, parent: key, parts: true };
            lemma_outset(frame);
            lemma_key_positive(frame);
            lemma_store(frame, base, variable.parent_key, variable, target);
            lemma_all_kept(cache, frame, placed);
            assert(holds(placed, cache.entries[own]));
            assert(placed.has(key));
            let (member, active) = self.lemma_discriminant(offset, part, target, placed, rest);
            self.lemma_new_attributes(child, part, variable, target, cache, base, fuel);
            let (grown, updated, last) = self.attributes_processed(
                child,
                part,
                variable,
                target,
                base,
                fuel,
            );
            lemma_removal_keeps(cache, grown);
            let after = grown.removed(last->Ok_0.variable_key).0;
            assert(updated == Variable { role: VariantRole::VariantPart(active), ..parent });
            assert(outcome == self.tree_processed(child, updated, target, after, fuel));
            assert(self.resolved_by(outcome, child, parent, target, fuel, offset, active));
        }
    }

    /// Where the entry of the variants refers to no member for the discriminant, they are resolved
    /// with the largest number as the active variant, which is that of a variant without a
    /// discriminant.
    pub proof fn law_discriminant_missing(
        self,
        child: int,
        parent: VariableView,
        target: Target,
        cache: CacheView,
        fuel: nat,
    )
        requires
            cache.wf(),
            all_idle(self.entries@[child].attributes@, 0),
            fuel > 0,
        ensures
            self.variant_part_processed(child, parent, target, cache, fuel).1 is Ok ==> exists|
                after: CacheView,
            |
                after.wf() && self.variant_part_processed(child, parent, target, cache, fuel)
                    == #[trigger] self.tree_processed(
                    child,
                    Variable { role: VariantRole::VariantPart(u64::MAX), ..parent },
                    target,
                    after,
                    fuel,
                ),
    {
        let key = parent.variable_key;
        let rest = (fuel - 1) as nat;
        let entry = self.entries@[child];
        let outcome = self.variant_part_processed(child, parent, target, cache, fuel);
        if outcome.1 is Ok {
            let part = Variable { role: VariantRole::VariantPart(u64::MAX), ..parent };
            let fresh = self.variable_of(child);
            lemma_stored_new(cache, key, fresh, target);
            let (base, new) = cache.stored(Some(key), fresh, target);
            let variable = new->Ok_0;
            law_attribute(entry, DW_AT_ABSTRACT_ORIGIN);
            law_attribute(entry, DW_AT_NAME);
            lemma_idle_place(variable, part, entry.attributes@, 0, self.encoding, target);
            let (placed, stored) = base.stored(variable.parent_key, variable, target);
            self.lemma_idle_attributes(
                child,
                child,
                0,
                part,
                stored->Ok_0,
                target,
                placed,
                rest,
            );
            self.lemma_new_attributes(child, part, variable, target, cache, base, fuel);
            let (grown, updated, last) = self.attributes_processed(
                child,
                part,
                variable,
                target,
                base,
                fuel,
            );
            lemma_removal_keeps(cache, grown);
            let after = grown.removed(last->Ok_0.variable_key).0;
            assert(updated == part);
            assert(outcome == self.tree_processed(child, part, target, after, fuel));
        }
    }
}

} // verus!
