//! What is found in the cache once variables were resolved.
use vstd::prelude::*;

#[allow(unused_imports)]
use crate::cache::{
    below, latest, law_stored_is_latest, lemma_stored_wf, parent_stands, position, CacheView,
};
#[allow(unused_imports)]
use crate::dwarf::{
    AttributeValue, Entry, UnitInfo, DW_AT_LOW_PC, DW_AT_NAME, DW_AT_TYPE, DW_TAG_ARRAY_TYPE,
    DW_TAG_BASE_TYPE, DW_TAG_ENUMERATOR, DW_TAG_LEXICAL_BLOCK, DW_TAG_MEMBER, DW_TAG_NAMESPACE,
    DW_TAG_STRUCTURE_TYPE, DW_TAG_UNION_TYPE, DW_TAG_VARIABLE,
};
#[allow(unused_imports)]
use crate::effects::{
    bounds_hold, gives_size, law_scope, listed_hold, node_type_for, type_name_of,
};
#[allow(unused_imports)]
use crate::error::DebugErrorView;
#[allow(unused_imports)]
use crate::frame::{
    holds, lemma_below_younger, lemma_key_positive, lemma_outset, lemma_store, same_entry, still,
    Frame,
};
#[allow(unused_imports)]
use crate::laws::law_removed;
#[allow(unused_imports)]
use crate::stored::law_stored_again;
#[allow(unused_imports)]
use crate::target::Target;
#[allow(unused_imports)]
use crate::text::signed_decimal;
#[allow(unused_imports)]
use crate::tree::namespace_name;
#[allow(unused_imports)]
use crate::types::{bounded, element_of};
#[allow(unused_imports)]
use crate::variable::{
    Variable, VariableLocation, VariableName, VariableNodeType, VariableType, VariableValue,
    VariableView,
};

verus! {

/// Whether `variable` is the variable that `entry` describes, as a part of the variable with the
/// key `parent`.
pub open spec fn is_part(variable: VariableView, entry: Entry, parent: i64) -> bool {
    variable.variable_unit_offset == Some(entry.offset) && variable.parent_key == Some(parent)
}

/// Whether `cache` holds the variable that `entry` describes, as a part of the variable with the
/// key `parent`, under the key `key` or one behind it.
pub open spec fn part_behind(cache: CacheView, entry: Entry, parent: i64, key: i64) -> bool {
    exists|i: int|
        0 <= i < cache.entries.len() && is_part(#[trigger] cache.entries[i], entry, parent)
            && cache.entries[i].variable_key >= key
}

/// Whether `cache` holds the variables that `first` and `second` describe, as parts of the variable
/// with the key `parent` and in this order.
pub open spec fn in_order(cache: CacheView, first: Entry, second: Entry, parent: i64) -> bool {
    exists|i: int, j: int|
        0 <= i < j < cache.entries.len() && is_part(#[trigger] cache.entries[i], first, parent)
            && is_part(#[trigger] cache.entries[j], second, parent)
}

/// Whether the entries with the tag `tag` describe variables of their own: variables, members and
/// enumerators.
pub open spec fn is_member(tag: u16) -> bool {
    tag == DW_TAG_VARIABLE || tag == DW_TAG_MEMBER || tag == DW_TAG_ENUMERATOR
}

/// Whether all variables of `before` are in `after` as they were.
pub open spec fn all_kept(before: CacheView, after: CacheView) -> bool {
    forall|variable: VariableView| #[trigger]
        holds(before, variable) ==> holds(after, variable)
}

/// Whether all variables of `before`, but for that with the key `key`, are in `after` as they were.
pub open spec fn others_kept(before: CacheView, after: CacheView, key: i64) -> bool {
    forall|variable: VariableView| #[trigger]
        holds(before, variable) && variable.variable_key != key ==> holds(after, variable)
}

/// What a frame keeps that lets the parts of its variable alone.
pub(crate) proof fn lemma_others_kept(frame: Frame, after: CacheView)
    requires
        frame.keeps(after),
        !frame.parts,
    ensures
        others_kept(frame.base, after, frame.key),
{
    assert forall|v: VariableView| #[trigger]
        holds(frame.base, v) && v.variable_key != frame.key implies holds(after, v) by {
        let i = choose|i: int|
            0 <= i < frame.base.entries.len() && #[trigger] frame.base.entries[i] == v;
        assert(frame.stays(frame.base.entries[i]));
    }
}

/// A new variable is stored behind the others.
pub(crate) proof fn lemma_stored_new(
    cache: CacheView,
    parent: i64,
    variable: VariableView,
    target: Target,
)
    requires
        cache.wf(),
        variable.variable_key == 0,
        cache.stored(Some(parent), variable, target).1 is Ok,
    ensures
        ({
            let (after, result) = cache.stored(Some(parent), variable, target);
            &&& after.wf()
            &&& all_kept(cache, after)
            &&& after.has(cache.next_key)
            &&& !cache.has(cache.next_key)
            &&& result->Ok_0.variable_key == cache.next_key
            &&& latest(after, result->Ok_0)
            &&& after.next_key == cache.next_key + 1
        }),
{
    lemma_stored_wf(cache, Some(parent), variable, target);
    law_stored_is_latest(cache, Some(parent), variable, target);
    let (after, result) = cache.stored(Some(parent), variable, target);
    assert forall|v: VariableView| #[trigger] holds(cache, v) implies holds(after, v) by {
        let i = choose|i: int| 0 <= i < cache.entries.len() && #[trigger] cache.entries[i] == v;
        assert(after.entries[i] == v);
    }
}

/// What was there before a new variable is not a part of it.
pub(crate) proof fn lemma_older(cache: CacheView, after: CacheView, variable: VariableView)
    requires
        cache.wf(),
        after.wf(),
        holds(cache, variable),
        holds(after, variable),
    ensures
        variable.variable_key < cache.next_key,
        !below(after.entries, variable, cache.next_key),
{
    let i = choose|i: int| 0 <= i < cache.entries.len() && #[trigger] cache.entries[i] == variable;
    assert(cache.entries[i].variable_key < cache.next_key);
    if below(after.entries, variable, cache.next_key) {
        lemma_below_younger(after, variable, cache.next_key);
    }
}

/// What a frame around a new variable keeps is all that was there before it.
pub(crate) proof fn lemma_all_kept(cache: CacheView, frame: Frame, after: CacheView)
    requires
        cache.wf(),
        frame.wf(),
        frame.key == cache.next_key,
        all_kept(cache, frame.base),
        frame.keeps(after),
    ensures
        all_kept(cache, after),
{
    assert forall|v: VariableView| #[trigger] holds(cache, v) implies holds(after, v) by {
        assert(holds(frame.base, v));
        lemma_older(cache, frame.base, v);
        let i = choose|i: int|
            0 <= i < frame.base.entries.len() && #[trigger] frame.base.entries[i] == v;
        assert(frame.stays(frame.base.entries[i]));
    }
}

/// Removing a new variable keeps all that was there before it.
pub(crate) proof fn lemma_removal_keeps(cache: CacheView, after: CacheView)
    requires
        cache.wf(),
        after.wf(),
        all_kept(cache, after),
    ensures
        all_kept(cache, after.removed(cache.next_key).0),
        after.removed(cache.next_key).0.wf(),
{
    if after.has(cache.next_key) {
        law_removed(after, cache.next_key);
        assert forall|v: VariableView| #[trigger] holds(cache, v) implies holds(
            after.removed(cache.next_key).0,
            v,
        ) by {
            assert(holds(after, v));
            lemma_older(cache, after, v);
        }
    }
}

impl UnitInfo {
    /// Whether the entry `child` is the `at`-th child of the entry `node`.
    pub open spec fn child_is(self, node: int, at: int, child: int) -> bool {
        &&& 0 <= at < self.entries@[node].children@.len()
        &&& self.entry_at(self.entries@[node].children@[at]) == Some(child)
    }

    /// Whether the attributes of the entry `child` make `made` of a new variable, as a part of
    /// `parent`.
    pub open spec fn makes(
        self,
        child: int,
        parent: VariableView,
        target: Target,
        cache: CacheView,
        fuel: nat,
        made: VariableView,
    ) -> bool {
        let (base, new) = cache.stored(
            Some(parent.variable_key),
            VariableView::fresh(self.header_offset, Some(self.entries@[child].offset)),
            target,
        );
        &&& cache.wf()
        &&& new matches Ok(variable) && self.attributes_processed(
            child,
            parent,
            variable,
            target,
            base,
            fuel,
        ).2 matches Ok(updated) && updated == made
    }

    /// Whether `variable` is what the attributes of the entry `child` make of a new variable, as a
    /// part of `parent`; but for what its own parts say of it.
    pub open spec fn made_from(
        self,
        child: int,
        parent: VariableView,
        target: Target,
        fuel: nat,
        variable: VariableView,
    ) -> bool {
        exists|above: VariableView, cache: CacheView, made: VariableView| #[trigger]
            self.makes(child, above, target, cache, fuel, made) && still(above, parent) && still(
                variable,
                made,
            )
    }

    /// Whether `cache` holds the variable that the entry `child` describes, as a part of `parent`
    /// and as its attributes make it.
    pub open spec fn has_part(
        self,
        cache: CacheView,
        child: int,
        parent: VariableView,
        target: Target,
        fuel: nat,
    ) -> bool {
        exists|i: int|
            0 <= i < cache.entries.len() && is_part(
                #[trigger] cache.entries[i],
                self.entries@[child],
                parent.variable_key,
            ) && self.made_from(child, parent, target, fuel, cache.entries[i])
    }

    /// Whether `cache` holds the namespace that the entry `outer` describes, as a part of `parent`
    /// and under its name, and in it the variable that the entry `inner` describes.
    pub open spec fn has_static(
        self,
        cache: CacheView,
        outer: int,
        inner: int,
        parent: VariableView,
        target: Target,
        fuel: nat,
    ) -> bool {
        exists|i: int|
            0 <= i < cache.entries.len() && is_part(
                #[trigger] cache.entries[i],
                self.entries@[outer],
                parent.variable_key,
            ) && cache.entries[i].variable_type is Namespace && cache.entries[i].name == (
            match self.entries@[outer].attribute(DW_AT_NAME) {
                Ok(Some(attribute)) => VariableName::Namespace(attribute.text@),
                _ => VariableName::AnonymousNamespace,
            }) && self.has_part(cache, inner, cache.entries[i], target, fuel)
    }

    /// Whether `cache` holds the namespace that the entry `middle` describes, as a part of
    /// `namespace` and under its path, and in it the variable that the entry `inner` describes.
    pub open spec fn has_nested(
        self,
        cache: CacheView,
        middle: int,
        inner: int,
        namespace: VariableView,
        target: Target,
        fuel: nat,
    ) -> bool {
        exists|i: int|
            0 <= i < cache.entries.len() && is_part(
                #[trigger] cache.entries[i],
                self.entries@[middle],
                namespace.variable_key,
            ) && self.is_path(middle, cache.entries[i].name, namespace.name) && self.has_part(
                cache,
                inner,
                cache.entries[i],
                target,
                fuel,
            )
    }

    /// Whether `name` is the name of the namespace that the entry `node` describes, in the
    /// namespace with the name `outer`.
    pub open spec fn is_path(
        self,
        node: int,
        name: VariableName<Seq<char>>,
        outer: VariableName<Seq<char>>,
    ) -> bool {
        match self.entries@[node].attribute(DW_AT_NAME) {
            Ok(Some(attribute)) => outer matches VariableName::Namespace(path) && name
                == VariableName::<Seq<char>>::Namespace(path + "::"@ + attribute.text@),
            _ => name is AnonymousNamespace,
        }
    }

    /// Whether `cache` holds all that the entry `middle`, a namespace in `namespace`, has: each
    /// variable, member and enumerator, unless it holds no data.
    pub open spec fn nested_kept(
        self,
        middle: int,
        cache: CacheView,
        namespace: VariableView,
        target: Target,
        fuel: nat,
    ) -> bool {
        forall|at: int, inner: int| #[trigger]
            self.child_is(middle, at, inner) && is_member(self.entries@[inner].tag)
                ==> self.has_nested(cache, middle, inner, namespace, target, fuel)
                || self.holds_no_data(inner, target, fuel)
    }

    /// Whether `cache` holds the namespace that the entry `outer` describes, as a part of `parent`,
    /// in it the one that the entry `middle` describes, and in that the variable that the entry
    /// `inner` describes.
    pub open spec fn has_nested_static(
        self,
        cache: CacheView,
        outer: int,
        middle: int,
        inner: int,
        parent: VariableView,
        target: Target,
        fuel: nat,
    ) -> bool {
        exists|i: int|
            0 <= i < cache.entries.len() && is_part(
                #[trigger] cache.entries[i],
                self.entries@[outer],
                parent.variable_key,
            ) && self.has_nested(cache, middle, inner, cache.entries[i], target, fuel)
    }

    /// A namespace in a namespace stays with what it has where all variables but that with the key
    /// `key` are kept, which is not younger.
    proof fn lemma_nested_stays(
        self,
        before: CacheView,
        after: CacheView,
        middle: int,
        inner: int,
        namespace: VariableView,
        target: Target,
        fuel: nat,
        key: i64,
    )
        requires
            before.wf(),
            others_kept(before, after, key),
            self.has_nested(before, middle, inner, namespace, target, fuel),
            key <= namespace.variable_key,
        ensures
            self.has_nested(after, middle, inner, namespace, target, fuel),
    {
        let i = choose|i: int|
            0 <= i < before.entries.len() && is_part(
                #[trigger] before.entries[i],
                self.entries@[middle],
                namespace.variable_key,
            ) && self.is_path(middle, before.entries[i].name, namespace.name) && self.has_part(
                before,
                inner,
                before.entries[i],
                target,
                fuel,
            );
        let variable = before.entries[i];
        assert(parent_stands(before.entries, variable));
        assert(holds(before, variable));
        self.lemma_part_stays(before, after, inner, variable, target, fuel, key);
        let j = choose|j: int|
            0 <= j < after.entries.len() && #[trigger] after.entries[j] == variable;
        assert(is_part(after.entries[j], self.entries@[middle], namespace.variable_key));
    }

    /// What is in a namespace in another one stays where all variables but the parent are kept.
    proof fn lemma_nested_static_stays(
        self,
        before: CacheView,
        after: CacheView,
        outer: int,
        middle: int,
        inner: int,
        parent: VariableView,
        target: Target,
        fuel: nat,
    )
        requires
            before.wf(),
            others_kept(before, after, parent.variable_key),
            self.has_nested_static(before, outer, middle, inner, parent, target, fuel),
        ensures
            self.has_nested_static(after, outer, middle, inner, parent, target, fuel),
    {
        let key = parent.variable_key;
        let i = choose|i: int|
            0 <= i < before.entries.len() && is_part(
                #[trigger] before.entries[i],
                self.entries@[outer],
                key,
            ) && self.has_nested(before, middle, inner, before.entries[i], target, fuel);
        let variable = before.entries[i];
        assert(parent_stands(before.entries, variable));
        assert(holds(before, variable));
        self.lemma_nested_stays(before, after, middle, inner, variable, target, fuel, key);
        let j = choose|j: int|
            0 <= j < after.entries.len() && #[trigger] after.entries[j] == variable;
        assert(is_part(after.entries[j], self.entries@[outer], key));
    }

    /// A part of `parent` stays where all variables but that with the key `key` are kept, which is
    /// not younger than the parent.
    proof fn lemma_part_stays(
        self,
        before: CacheView,
        after: CacheView,
        child: int,
        parent: VariableView,
        target: Target,
        fuel: nat,
        key: i64,
    )
        requires
            before.wf(),
            others_kept(before, after, key),
            self.has_part(before, child, parent, target, fuel),
            key <= parent.variable_key,
        ensures
            self.has_part(after, child, parent, target, fuel),
    {
        let i = choose|i: int|
            0 <= i < before.entries.len() && is_part(
                #[trigger] before.entries[i],
                self.entries@[child],
                parent.variable_key,
            ) && self.made_from(child, parent, target, fuel, before.entries[i]);
        assert(parent_stands(before.entries, before.entries[i]));
        assert(holds(before, before.entries[i]));
        let j = choose|j: int|
            0 <= j < after.entries.len() && #[trigger] after.entries[j] == before.entries[i];
        assert(is_part(after.entries[j], self.entries@[child], parent.variable_key));
    }

    /// What is a part of a variable is one of the variable as it was before.
    proof fn lemma_part_of_same(
        self,
        cache: CacheView,
        child: int,
        updated: VariableView,
        parent: VariableView,
        target: Target,
        fuel: nat,
    )
        requires
            self.has_part(cache, child, updated, target, fuel),
            still(updated, parent),
        ensures
            self.has_part(cache, child, parent, target, fuel),
    {
        let i = choose|i: int|
            0 <= i < cache.entries.len() && is_part(
                #[trigger] cache.entries[i],
                self.entries@[child],
                updated.variable_key,
            ) && self.made_from(child, updated, target, fuel, cache.entries[i]);
        let (above, earlier, made) = choose|
            above: VariableView,
            earlier: CacheView,
            made: VariableView,
        | #[trigger]
            self.makes(child, above, target, earlier, fuel, made) && still(above, updated) && still(
                cache.entries[i],
                made,
            );
        assert(still(above, parent));
        assert(self.made_from(child, parent, target, fuel, cache.entries[i]));
        assert(is_part(cache.entries[i], self.entries@[child], parent.variable_key));
    }

    /// What is a static of a namespace in a variable is one of the variable as it was before.
    proof fn lemma_static_of_same(
        self,
        cache: CacheView,
        outer: int,
        inner: int,
        updated: VariableView,
        parent: VariableView,
        target: Target,
        fuel: nat,
    )
        requires
            self.has_static(cache, outer, inner, updated, target, fuel),
            updated.variable_key == parent.variable_key,
        ensures
            self.has_static(cache, outer, inner, parent, target, fuel),
    {
    }

    /// A static stays where all variables but the parent are kept.
    proof fn lemma_static_stays(
        self,
        before: CacheView,
        after: CacheView,
        outer: int,
        inner: int,
        parent: VariableView,
        target: Target,
        fuel: nat,
    )
        requires
            before.wf(),
            others_kept(before, after, parent.variable_key),
            self.has_static(before, outer, inner, parent, target, fuel),
        ensures
            self.has_static(after, outer, inner, parent, target, fuel),
    {
        let key = parent.variable_key;
        let i = choose|i: int|
            0 <= i < before.entries.len() && is_part(
                #[trigger] before.entries[i],
                self.entries@[outer],
                key,
            ) && before.entries[i].variable_type is Namespace && before.entries[i].name == (
            match self.entries@[outer].attribute(DW_AT_NAME) {
                Ok(Some(attribute)) => VariableName::Namespace(attribute.text@),
                _ => VariableName::AnonymousNamespace,
            }) && self.has_part(before, inner, before.entries[i], target, fuel);
        let variable = before.entries[i];
        assert(parent_stands(before.entries, variable));
        assert(holds(before, variable));
        self.lemma_part_stays(before, after, inner, variable, target, fuel, key);
        let j = choose|j: int|
            0 <= j < after.entries.len() && #[trigger] after.entries[j] == variable;
        assert(is_part(after.entries[j], self.entries@[outer], key));
    }

    /// Resolving a variable that is new keeps all that was there before, and the variable.
    pub(crate) proof fn lemma_new_attributes(
        self,
        child: int,
        parent: VariableView,
        variable: VariableView,
        target: Target,
        cache: CacheView,
        base: CacheView,
        fuel: nat,
    )
        requires
            cache.wf(),
            base.wf(),
            all_kept(cache, base),
            base.has(cache.next_key),
            variable.variable_key == cache.next_key,
        ensures
            ({
                let outcome = self.attributes_processed(
                    child,
                    parent,
                    variable,
                    target,
                    base,
                    fuel,
                );
                &&& outcome.0.wf()
                &&& outcome.0.has(cache.next_key)
                &&& all_kept(cache, outcome.0)
                &&& outcome.1 == Variable { role: outcome.1.role, ..parent }
                &&& outcome.2 matches Ok(updated) ==> latest(outcome.0, updated) && same_entry(
                    updated,
                    Variable { parent_key: Some(parent.variable_key), ..variable },
                )
            }),
    {
        let frame = Frame {
            base,
            key: cache.next_key,
            parent: parent.variable_key,
            parts: true,
        };
        lemma_outset(frame);
        self.lemma_attributes_frame(frame, child, parent, variable, target, base, fuel);
        let outcome = self.attributes_processed(child, parent, variable, target, base, fuel);
        lemma_all_kept(cache, frame, outcome.0);
    }

    /// Resolving what is below an entry as parts of a variable that is new keeps all that was there
    /// before, and the variable.
    pub(crate) proof fn lemma_new_tree(
        self,
        node: int,
        variable: VariableView,
        target: Target,
        cache: CacheView,
        base: CacheView,
        fuel: nat,
    )
        requires
            cache.wf(),
            base.wf(),
            all_kept(cache, base),
            base.has(cache.next_key),
            variable.variable_key == cache.next_key,
        ensures
            ({
                let outcome = self.tree_processed(node, variable, target, base, fuel);
                &&& outcome.0.wf()
                &&& outcome.0.has(cache.next_key)
                &&& all_kept(cache, outcome.0)
                &&& outcome.1 matches Ok(updated) ==> latest(outcome.0, updated) && still(
                    updated,
                    variable,
                )
            }),
    {
        let key = cache.next_key;
        let frame = Frame { base, key, parent: key, parts: true };
        lemma_outset(frame);
        self.lemma_tree_frame(frame, node, variable, target, base, fuel);
        lemma_all_kept(cache, frame, self.tree_processed(node, variable, target, base, fuel).0);
    }

    /// Resolving an entry of a namespace keeps all that was there before; and if it is a variable,
    /// it is there then.
    proof fn lemma_namespace_child_kept(
        self,
        child: int,
        namespace: VariableView,
        target: Target,
        cache: CacheView,
        fuel: nat,
    )
        requires
            cache.wf(),
        ensures
            ({
                let outcome = self.namespace_child_processed(child, namespace, target, cache, fuel);
                outcome.1 is Ok ==> {
                    &&& outcome.0.wf()
                    &&& all_kept(cache, outcome.0)
                    &&& still(outcome.1->Ok_0, namespace)
                    &&& self.entries@[child].tag == DW_TAG_VARIABLE ==> self.has_part(
                        outcome.0,
                        child,
                        namespace,
                        target,
                        fuel,
                    )
                    &&& self.entries@[child].tag == DW_TAG_NAMESPACE && fuel > 0
                        ==> self.nested_kept(
                        child,
                        outcome.0,
                        namespace,
                        target,
                        (fuel - 1) as nat,
                    )
                }
            }),
        decreases fuel, 1int, 0int,
    {
        let key = namespace.variable_key;
        let outcome = self.namespace_child_processed(child, namespace, target, cache, fuel);
        let tag = self.entries@[child].tag;
        if outcome.1 is Ok && tag == DW_TAG_VARIABLE {
            let fresh = self.variable_of(child);
            lemma_stored_new(cache, key, fresh, target);
            let (base, result) = cache.stored(Some(key), fresh, target);
            let variable = result->Ok_0;
            self.lemma_new_attributes(child, namespace, variable, target, cache, base, fuel);
            let (after, _, result) = self.attributes_processed(
                child,
                namespace,
                variable,
                target,
                base,
                fuel,
            );
            let updated = result->Ok_0;
            let at = position(after.entries, updated.variable_key);
            assert(after.entries[at] == updated);
            assert(self.makes(child, namespace, target, cache, fuel, updated));
            assert(is_part(after.entries[at], self.entries@[child], key));
        } else if outcome.1 is Ok && tag == DW_TAG_NAMESPACE {
            let name = namespace_name(self.entries@[child], Some(namespace.name))->Ok_0;
            let fresh = self.namespace_of(child, name);
            lemma_stored_new(cache, key, fresh, target);
            let (base, result) = cache.stored(Some(key), fresh, target);
            let inner = result->Ok_0;
            self.lemma_new_tree(child, inner, target, cache, base, fuel);
            let (after, result) = self.tree_processed(child, inner, target, base, fuel);
            lemma_removal_keeps(cache, after);
            if fuel > 0 {
                let rest = (fuel - 1) as nat;
                self.law_children_kept(child, inner, target, base, fuel);
                let last = result->Ok_0;
                let at = position(after.entries, last.variable_key);
                assert(after.entries[at] == last);
                assert forall|place: int, member: int| #[trigger]
                    self.child_is(child, place, member) && is_member(
                        self.entries@[member].tag,
                    ) implies self.has_nested(
                    outcome.0,
                    child,
                    member,
                    namespace,
                    target,
                    rest,
                ) || self.holds_no_data(member, target, rest) by {
                    assert(self.child_kept(member, after, inner, target, rest));
                    if self.has_part(after, member, inner, target, rest) {
                        let i = choose|i: int|
                            0 <= i < after.entries.len() && is_part(
                                #[trigger] after.entries[i],
                                self.entries@[member],
                                inner.variable_key,
                            ) && self.made_from(member, inner, target, rest, after.entries[i]);
                        assert(after.entries[i].parent_key == Some(inner.variable_key));
                        assert(after.has_children(inner.variable_key));
                        self.lemma_part_of_same(after, member, inner, last, target, rest);
                        assert(is_part(after.entries[at], self.entries@[child], key));
                    }
                }
            }
        }
    }

    /// The statics among the children of a namespace, from the `from`-th on, are in the cache then,
    /// and so is all that was there before.
    proof fn lemma_statics_kept(
        self,
        node: int,
        from: int,
        namespace: VariableView,
        target: Target,
        cache: CacheView,
        fuel: nat,
    )
        requires
            cache.wf(),
            0 <= from,
        ensures
            ({
                let outcome = self.namespace_children_from(
                    node,
                    from,
                    namespace,
                    target,
                    cache,
                    fuel,
                );
                outcome.1 is Ok ==> {
                    &&& outcome.0.wf()
                    &&& all_kept(cache, outcome.0)
                    &&& still(outcome.1->Ok_0, namespace)
                    &&& forall|at: int, child: int| #[trigger]
                        self.child_is(node, at, child) && from <= at && self.entries@[child].tag
                            == DW_TAG_VARIABLE ==> self.has_part(
                            outcome.0,
                            child,
                            namespace,
                            target,
                            fuel,
                        )
                    &&& forall|at: int, child: int| #[trigger]
                        self.child_is(node, at, child) && from <= at && self.entries@[child].tag
                            == DW_TAG_NAMESPACE && fuel > 0 ==> self.nested_kept(
                            child,
                            outcome.0,
                            namespace,
                            target,
                            (fuel - 1) as nat,
                        )
                }
            }),
        decreases fuel, 2int, self.entries@[node].children@.len() - from,
    {
        let children = self.entries@[node].children@;
        let outcome = self.namespace_children_from(node, from, namespace, target, cache, fuel);
        if from < children.len() && outcome.1 is Ok {
            let first = self.entry_at(children[from])->0;
            self.lemma_namespace_child_kept(first, namespace, target, cache, fuel);
            let (after, result) = self.namespace_child_processed(
                first,
                namespace,
                target,
                cache,
                fuel,
            );
            let updated = result->Ok_0;
            self.lemma_statics_kept(node, from + 1, updated, target, after, fuel);
            if self.entries@[first].tag == DW_TAG_VARIABLE {
                self.lemma_part_stays(
                    after,
                    outcome.0,
                    first,
                    namespace,
                    target,
                    fuel,
                    namespace.variable_key,
                );
            }
            assert forall|at: int, child: int| #[trigger]
                self.child_is(node, at, child) && from <= at && self.entries@[child].tag
                    == DW_TAG_VARIABLE implies self.has_part(
                outcome.0,
                child,
                namespace,
                target,
                fuel,
            ) by {
                if at > from {
                    self.lemma_part_of_same(outcome.0, child, updated, namespace, target, fuel);
                }
            }
            assert forall|at: int, child: int| #[trigger]
                self.child_is(node, at, child) && from <= at && self.entries@[child].tag
                    == DW_TAG_NAMESPACE && fuel > 0 implies self.nested_kept(
                child,
                outcome.0,
                namespace,
                target,
                (fuel - 1) as nat,
            ) by {
                let rest = (fuel - 1) as nat;
                if at > from {
                    assert(self.nested_kept(child, outcome.0, updated, target, rest));
                    assert forall|place: int, inner: int| #[trigger]
                        self.child_is(child, place, inner) && self.has_nested(
                            outcome.0,
                            child,
                            inner,
                            updated,
                            target,
                            rest,
                        ) implies self.has_nested(
                        outcome.0,
                        child,
                        inner,
                        namespace,
                        target,
                        rest,
                    ) by {}
                } else {
                    assert forall|place: int, inner: int| #[trigger]
                        self.child_is(child, place, inner) && self.has_nested(
                            after,
                            child,
                            inner,
                            namespace,
                            target,
                            rest,
                        ) implies self.has_nested(
                        outcome.0,
                        child,
                        inner,
                        namespace,
                        target,
                        rest,
                    ) by {
                        self.lemma_nested_stays(
                            after,
                            outcome.0,
                            child,
                            inner,
                            namespace,
                            target,
                            rest,
                            namespace.variable_key,
                        );
                    }
                }
            }
        }
    }

    /// Whether `cache` holds all that the namespaces in the namespace that the entry `outer`
    /// describes have, unless it holds no data.
    pub open spec fn all_nested_kept(
        self,
        outer: int,
        cache: CacheView,
        parent: VariableView,
        target: Target,
        fuel: nat,
    ) -> bool {
        forall|at: int, middle: int, to: int, inner: int|
            #![trigger self.child_is(outer, at, middle), self.child_is(middle, to, inner)]
            self.child_is(outer, at, middle) && self.entries@[middle].tag == DW_TAG_NAMESPACE
                && self.child_is(middle, to, inner) && is_member(self.entries@[inner].tag)
                ==> self.has_nested_static(cache, outer, middle, inner, parent, target, fuel)
                || self.holds_no_data(inner, target, fuel)
    }

    /// A namespace that was resolved is in the cache with all its statics.
    proof fn lemma_namespace_kept(
        self,
        child: int,
        parent: VariableView,
        target: Target,
        cache: CacheView,
        fuel: nat,
    )
        requires
            cache.wf(),
        ensures
            ({
                let outcome = self.namespace_processed(child, parent, target, cache, fuel);
                outcome.1 is Ok ==> {
                    &&& outcome.0.wf()
                    &&& all_kept(cache, outcome.0)
                    &&& forall|at: int, inner: int| #[trigger]
                        self.child_is(child, at, inner) && self.entries@[inner].tag
                            == DW_TAG_VARIABLE ==> self.has_static(
                            outcome.0,
                            child,
                            inner,
                            parent,
                            target,
                            fuel,
                        )
                    &&& fuel > 0 ==> self.all_nested_kept(
                        child,
                        outcome.0,
                        parent,
                        target,
                        (fuel - 1) as nat,
                    )
                }
            }),
        decreases fuel, 3int, 0int,
    {
        let key = parent.variable_key;
        let outcome = self.namespace_processed(child, parent, target, cache, fuel);
        if outcome.1 is Ok {
            let name = namespace_name(self.entries@[child], None)->Ok_0;
            let fresh = self.namespace_of(child, name);
            lemma_stored_new(cache, key, fresh, target);
            let (base, result) = cache.stored(Some(key), fresh, target);
            let namespace = result->Ok_0;
            self.lemma_statics_kept(child, 0, namespace, target, base, fuel);
            let (after, result) = self.namespace_children_from(
                child,
                0,
                namespace,
                target,
                base,
                fuel,
            );
            assert(all_kept(cache, after)) by {
                assert forall|v: VariableView| #[trigger] holds(cache, v) implies holds(
                    after,
                    v,
                ) by {
                    assert(holds(base, v));
                }
            }
            lemma_removal_keeps(cache, after);
            let at = position(base.entries, namespace.variable_key);
            assert(base.entries[at] == namespace);
            assert(holds(base, namespace));
            assert(holds(after, namespace));
            let place = choose|i: int|
                0 <= i < after.entries.len() && #[trigger] after.entries[i] == namespace;
            assert forall|at: int, inner: int| #[trigger]
                self.child_is(child, at, inner) && self.entries@[inner].tag
                    == DW_TAG_VARIABLE implies self.has_static(
                outcome.0,
                child,
                inner,
                parent,
                target,
                fuel,
            ) by {
                assert(self.has_part(after, inner, namespace, target, fuel));
                let i = choose|i: int|
                    0 <= i < after.entries.len() && is_part(
                        #[trigger] after.entries[i],
                        self.entries@[inner],
                        namespace.variable_key,
                    ) && self.made_from(inner, namespace, target, fuel, after.entries[i]);
                assert(after.entries[i].parent_key == Some(namespace.variable_key));
                assert(after.has_children(namespace.variable_key));
                assert(is_part(after.entries[place], self.entries@[child], key));
            }
            if fuel > 0 {
                let rest = (fuel - 1) as nat;
                assert forall|at: int, middle: int, to: int, inner: int|
                    #![trigger self.child_is(child, at, middle), self.child_is(middle, to, inner)]
                    self.child_is(child, at, middle) && self.entries@[middle].tag
                        == DW_TAG_NAMESPACE && self.child_is(middle, to, inner) && is_member(
                        self.entries@[inner].tag,
                    ) implies self.has_nested_static(
                    outcome.0,
                    child,
                    middle,
                    inner,
                    parent,
                    target,
                    rest,
                ) || self.holds_no_data(inner, target, rest) by {
                    assert(self.nested_kept(middle, after, namespace, target, rest));
                    if self.has_nested(after, middle, inner, namespace, target, rest) {
                        let i = choose|i: int|
                            0 <= i < after.entries.len() && is_part(
                                #[trigger] after.entries[i],
                                self.entries@[middle],
                                namespace.variable_key,
                            ) && self.is_path(middle, after.entries[i].name, namespace.name)
                                && self.has_part(after, inner, after.entries[i], target, rest);
                        assert(after.entries[i].parent_key == Some(namespace.variable_key));
                        assert(after.has_children(namespace.variable_key));
                        assert(is_part(after.entries[place], self.entries@[child], key));
                    }
                }
            }
        }
    }

    /// Whether what the entry `child` describes has no data of its own: where its attributes are
    /// applied to a new variable, this becomes a helper, or a `PhantomData`.
    pub open spec fn holds_no_data(self, child: int, target: Target, fuel: nat) -> bool {
        exists|parent: VariableView, cache: CacheView, made: VariableView| #[trigger]
            self.makes(child, parent, target, cache, fuel, made) && (made.name is Artifical || (
            made.variable_type matches VariableType::Struct(name) && "PhantomData"@.is_prefix_of(
                name,
            )))
    }

    /// A member that was resolved is in the cache, unless it holds no data; and so is all that was
    /// there before.
    proof fn lemma_member_kept(
        self,
        child: int,
        parent: VariableView,
        target: Target,
        cache: CacheView,
        fuel: nat,
    )
        requires
            cache.wf(),
        ensures
            ({
                let outcome = self.member_processed(child, parent, target, cache, fuel);
                outcome.1 is Ok ==> {
                    &&& outcome.0.wf()
                    &&& all_kept(cache, outcome.0)
                    &&& self.has_part(outcome.0, child, parent, target, fuel)
                        || self.holds_no_data(child, target, fuel)
                    &&& part_behind(
                        outcome.0,
                        self.entries@[child],
                        parent.variable_key,
                        cache.next_key,
                    ) || self.holds_no_data(child, target, fuel)
                }
            }),
    {
        let key = parent.variable_key;
        let outcome = self.member_processed(child, parent, target, cache, fuel);
        if outcome.1 is Ok {
            let fresh = self.variable_of(child);
            lemma_stored_new(cache, key, fresh, target);
            let (base, result) = cache.stored(Some(key), fresh, target);
            let variable = result->Ok_0;
            self.lemma_new_attributes(child, parent, variable, target, cache, base, fuel);
            let (after, updated, result) = self.attributes_processed(
                child,
                parent,
                variable,
                target,
                base,
                fuel,
            );
            let resolved = result->Ok_0;
            assert(self.makes(child, parent, target, cache, fuel, resolved));
            if resolved.variable_type.phantom_data() || resolved.name is Artifical {
                lemma_removal_keeps(cache, after);
            } else {
                if resolved.valid() {
                    self.lemma_new_tree(child, resolved, target, cache, after, fuel);
                    let last = self.tree_processed(child, resolved, target, after, fuel);
                    let at = position(last.0.entries, cache.next_key);
                    assert(last.0.entries[at] == last.1->Ok_0);
                    assert(is_part(last.0.entries[at], self.entries@[child], key));
                } else {
                    let at = position(after.entries, cache.next_key);
                    assert(after.entries[at] == resolved);
                    assert(is_part(after.entries[at], self.entries@[child], key));
                }
            }
        }
    }

    /// Whether `cache` holds, as a part of `parent`, what the entry `child` describes: a variable,
    /// a member or an enumerator, unless it holds no data; and the statics of a namespace.
    pub open spec fn child_kept(
        self,
        child: int,
        cache: CacheView,
        parent: VariableView,
        target: Target,
        fuel: nat,
    ) -> bool {
        let entry = self.entries@[child];
        &&& is_member(entry.tag) ==> self.has_part(cache, child, parent, target, fuel)
            || self.holds_no_data(child, target, fuel)
        &&& entry.tag == DW_TAG_NAMESPACE ==> forall|at: int, inner: int| #[trigger]
            self.child_is(child, at, inner) && self.entries@[inner].tag == DW_TAG_VARIABLE
                ==> self.has_static(cache, child, inner, parent, target, fuel)
        &&& entry.tag == DW_TAG_NAMESPACE && fuel > 0 ==> self.all_nested_kept(
            child,
            cache,
            parent,
            target,
            (fuel - 1) as nat,
        )
    }

    /// What is kept stays where all variables but the parent are kept.
    proof fn lemma_child_stays(
        self,
        child: int,
        before: CacheView,
        after: CacheView,
        parent: VariableView,
        target: Target,
        fuel: nat,
    )
        requires
            before.wf(),
            others_kept(before, after, parent.variable_key),
            self.child_kept(child, before, parent, target, fuel),
        ensures
            self.child_kept(child, after, parent, target, fuel),
    {
        let entry = self.entries@[child];
        if is_member(entry.tag) && self.has_part(before, child, parent, target, fuel) {
            self.lemma_part_stays(
                before,
                after,
                child,
                parent,
                target,
                fuel,
                parent.variable_key,
            );
        }
        if entry.tag == DW_TAG_NAMESPACE {
            assert forall|at: int, inner: int| #[trigger]
                self.child_is(child, at, inner) && self.entries@[inner].tag
                    == DW_TAG_VARIABLE implies self.has_static(
                after,
                child,
                inner,
                parent,
                target,
                fuel,
            ) by {
                self.lemma_static_stays(before, after, child, inner, parent, target, fuel);
            }
            if fuel > 0 {
                let rest = (fuel - 1) as nat;
                assert forall|at: int, middle: int, to: int, inner: int|
                    #![trigger self.child_is(child, at, middle), self.child_is(middle, to, inner)]
                    self.child_is(child, at, middle) && self.entries@[middle].tag
                        == DW_TAG_NAMESPACE && self.child_is(middle, to, inner) && is_member(
                        self.entries@[inner].tag,
                    ) implies self.has_nested_static(
                    after,
                    child,
                    middle,
                    inner,
                    parent,
                    target,
                    rest,
                ) || self.holds_no_data(inner, target, rest) by {
                    if self.has_nested_static(
                        before,
                        child,
                        middle,
                        inner,
                        parent,
                        target,
                        rest,
                    ) {
                        self.lemma_nested_static_stays(
                            before,
                            after,
                            child,
                            middle,
                            inner,
                            parent,
                            target,
                            rest,
                        );
                    }
                }
            }
        }
    }

    /// What is kept of a variable is kept of the variable as it was before.
    proof fn lemma_child_of_same(
        self,
        child: int,
        cache: CacheView,
        updated: VariableView,
        parent: VariableView,
        target: Target,
        fuel: nat,
    )
        requires
            self.child_kept(child, cache, updated, target, fuel),
            still(updated, parent),
        ensures
            self.child_kept(child, cache, parent, target, fuel),
    {
        if self.has_part(cache, child, updated, target, fuel) {
            self.lemma_part_of_same(cache, child, updated, parent, target, fuel);
        }
        assert forall|at: int, inner: int| #[trigger]
            self.child_is(child, at, inner) && self.has_static(
                cache,
                child,
                inner,
                updated,
                target,
                fuel,
            ) implies self.has_static(cache, child, inner, parent, target, fuel) by {
            self.lemma_static_of_same(cache, child, inner, updated, parent, target, fuel);
        }
        if fuel > 0 && self.entries@[child].tag == DW_TAG_NAMESPACE {
            let rest = (fuel - 1) as nat;
            assert(self.all_nested_kept(child, cache, updated, target, rest));
            assert forall|at: int, middle: int, to: int, inner: int|
                #![trigger self.child_is(child, at, middle), self.child_is(middle, to, inner)]
                self.child_is(child, at, middle) && self.child_is(middle, to, inner)
                    && self.has_nested_static(
                    cache,
                    child,
                    middle,
                    inner,
                    updated,
                    target,
                    rest,
                ) implies self.has_nested_static(
                cache,
                child,
                middle,
                inner,
                parent,
                target,
                rest,
            ) by {}
        }
    }

    /// The children of an entry, from the `from`-th on, are in the cache once they were resolved.
    proof fn lemma_children_kept(
        self,
        node: int,
        from: int,
        parent: VariableView,
        program_counter: u64,
        target: Target,
        cache: CacheView,
        fuel: nat,
    )
        requires
            cache.wf(),
            cache.has(parent.variable_key),
            0 <= from,
        ensures
            ({
                let outcome = self.children_from(
                    node,
                    from,
                    parent,
                    program_counter,
                    target,
                    cache,
                    fuel,
                );
                outcome.1 is Ok ==> {
                    &&& outcome.0.wf()
                    &&& outcome.0.has(parent.variable_key)
                    &&& others_kept(cache, outcome.0, parent.variable_key)
                    &&& still(outcome.1->Ok_0, parent)
                    &&& forall|at: int, child: int| #[trigger]
                        self.child_is(node, at, child) && from <= at ==> self.child_kept(
                            child,
                            outcome.0,
                            parent,
                            target,
                            fuel,
                        )
                }
            }),
        decreases fuel, 4int, self.entries@[node].children@.len() - from,
    {
        let children = self.entries@[node].children@;
        let key = parent.variable_key;
        let outcome = self.children_from(node, from, parent, program_counter, target, cache, fuel);
        if from < children.len() && outcome.1 is Ok {
            let first = self.entry_at(children[from])->0;
            let frame = Frame { base: cache, key, parent: key, parts: false };
            lemma_outset(frame);
            self.lemma_child_frame(frame, first, parent, program_counter, target, cache, fuel);
            let (after, result) = self.child_processed(
                first,
                parent,
                program_counter,
                target,
                cache,
                fuel,
            );
            let updated = result->Ok_0;
            lemma_others_kept(frame, after);
            self.lemma_namespace_kept(first, parent, target, cache, fuel);
            self.lemma_member_kept(first, parent, target, cache, fuel);
            assert(self.child_kept(first, after, parent, target, fuel));
            self.lemma_children_kept(
                node,
                from + 1,
                updated,
                program_counter,
                target,
                after,
                fuel,
            );
            self.lemma_child_stays(first, after, outcome.0, parent, target, fuel);
            assert forall|at: int, child: int| #[trigger]
                self.child_is(node, at, child) && from <= at implies self.child_kept(
                child,
                outcome.0,
                parent,
                target,
                fuel,
            ) by {
                if at > from {
                    self.lemma_child_of_same(child, outcome.0, updated, parent, target, fuel);
                }
            }
        }
    }

    /// A child is in the cache, once all from the `from`-th on were resolved, behind what was there
    /// before.
    proof fn lemma_behind(
        self,
        node: int,
        from: int,
        parent: VariableView,
        program_counter: u64,
        target: Target,
        cache: CacheView,
        fuel: nat,
        at: int,
        child: int,
    )
        requires
            cache.wf(),
            cache.has(parent.variable_key),
            0 <= from <= at,
            self.child_is(node, at, child),
            is_member(self.entries@[child].tag),
        ensures
            ({
                let outcome = self.children_from(
                    node,
                    from,
                    parent,
                    program_counter,
                    target,
                    cache,
                    fuel,
                );
                outcome.1 is Ok ==> part_behind(
                    outcome.0,
                    self.entries@[child],
                    parent.variable_key,
                    cache.next_key,
                ) || self.holds_no_data(child, target, fuel)
            }),
        decreases at - from,
    {
        let key = parent.variable_key;
        let outcome = self.children_from(node, from, parent, program_counter, target, cache, fuel);
        if outcome.1 is Ok {
            let first = self.entry_at(self.entries@[node].children@[from])->0;
            let frame = Frame { base: cache, key, parent: key, parts: false };
            lemma_outset(frame);
            self.lemma_child_frame(frame, first, parent, program_counter, target, cache, fuel);
            let (after, result) = self.child_processed(
                first,
                parent,
                program_counter,
                target,
                cache,
                fuel,
            );
            let updated = result->Ok_0;
            if from == at {
                self.lemma_member_kept(first, parent, target, cache, fuel);
                self.lemma_children_kept(
                    node,
                    from + 1,
                    updated,
                    program_counter,
                    target,
                    after,
                    fuel,
                );
                if part_behind(after, self.entries@[child], key, cache.next_key) {
                    let i = choose|i: int|
                        0 <= i < after.entries.len() && is_part(
                            #[trigger] after.entries[i],
                            self.entries@[child],
                            key,
                        ) && after.entries[i].variable_key >= cache.next_key;
                    assert(parent_stands(after.entries, after.entries[i]));
                    assert(holds(after, after.entries[i]));
                    assert(holds(outcome.0, after.entries[i]));
                    let j = choose|j: int|
                        0 <= j < outcome.0.entries.len() && #[trigger] outcome.0.entries[j]
                            == after.entries[i];
                    assert(is_part(outcome.0.entries[j], self.entries@[child], key));
                }
            } else {
                self.lemma_behind(
                    node,
                    from + 1,
                    updated,
                    program_counter,
                    target,
                    after,
                    fuel,
                    at,
                    child,
                );
            }
        }
    }

    /// Two children are in the cache in their order once all from the `from`-th on were resolved.
    proof fn lemma_in_order(
        self,
        node: int,
        from: int,
        parent: VariableView,
        program_counter: u64,
        target: Target,
        cache: CacheView,
        fuel: nat,
        at: int,
        first: int,
        behind: int,
        second: int,
    )
        requires
            cache.wf(),
            cache.has(parent.variable_key),
            0 <= from <= at < behind,
            self.child_is(node, at, first),
            self.child_is(node, behind, second),
            is_member(self.entries@[first].tag),
            is_member(self.entries@[second].tag),
        ensures
            ({
                let outcome = self.children_from(
                    node,
                    from,
                    parent,
                    program_counter,
                    target,
                    cache,
                    fuel,
                );
                outcome.1 is Ok ==> in_order(
                    outcome.0,
                    self.entries@[first],
                    self.entries@[second],
                    parent.variable_key,
                ) || self.holds_no_data(first, target, fuel) || self.holds_no_data(
                    second,
                    target,
                    fuel,
                )
            }),
        decreases at - from,
    {
        let key = parent.variable_key;
        let outcome = self.children_from(node, from, parent, program_counter, target, cache, fuel);
        if outcome.1 is Ok {
            let child = self.entry_at(self.entries@[node].children@[from])->0;
            let frame = Frame { base: cache, key, parent: key, parts: false };
            lemma_outset(frame);
            self.lemma_child_frame(frame, child, parent, program_counter, target, cache, fuel);
            let (after, result) = self.child_processed(
                child,
                parent,
                program_counter,
                target,
                cache,
                fuel,
            );
            let updated = result->Ok_0;
            if from < at {
                self.lemma_in_order(
                    node,
                    from + 1,
                    updated,
                    program_counter,
                    target,
                    after,
                    fuel,
                    at,
                    first,
                    behind,
                    second,
                );
            } else {
                let one = self.entries@[first];
                let other = self.entries@[second];
                self.lemma_member_kept(child, parent, target, cache, fuel);
                self.lemma_behind(
                    node,
                    from + 1,
                    updated,
                    program_counter,
                    target,
                    after,
                    fuel,
                    behind,
                    second,
                );
                self.lemma_children_kept(
                    node,
                    from + 1,
                    updated,
                    program_counter,
                    target,
                    after,
                    fuel,
                );
                if part_behind(after, one, key, cache.next_key) && part_behind(
                    outcome.0,
                    other,
                    key,
                    after.next_key,
                ) {
                    let i = choose|i: int|
                        0 <= i < after.entries.len() && is_part(
                            #[trigger] after.entries[i],
                            one,
                            key,
                        ) && after.entries[i].variable_key >= cache.next_key;
                    assert(parent_stands(after.entries, after.entries[i]));
                    assert(holds(after, after.entries[i]));
                    assert(holds(outcome.0, after.entries[i]));
                    let j = choose|j: int|
                        0 <= j < outcome.0.entries.len() && #[trigger] outcome.0.entries[j]
                            == after.entries[i];
                    let k = choose|k: int|
                        0 <= k < outcome.0.entries.len() && is_part(
                            #[trigger] outcome.0.entries[k],
                            other,
                            key,
                        ) && outcome.0.entries[k].variable_key >= after.next_key;
                    assert(outcome.0.entries[j].variable_key < after.next_key);
                    assert(j < k);
                    assert(is_part(outcome.0.entries[j], one, key));
                }
            }
        }
    }

    /// The parts of a variable stand in the cache in the order of the entries that describe them.
    pub proof fn law_parts_in_order(
        self,
        node: int,
        parent: VariableView,
        target: Target,
        cache: CacheView,
        fuel: nat,
        at: int,
        first: int,
        behind: int,
        second: int,
    )
        requires
            cache.wf(),
            cache.has(parent.variable_key),
            parent.valid(),
            fuel > 0,
            at < behind,
            self.child_is(node, at, first),
            self.child_is(node, behind, second),
            is_member(self.entries@[first].tag),
            is_member(self.entries@[second].tag),
        ensures
            ({
                let outcome = self.tree_processed(node, parent, target, cache, fuel);
                let rest = (fuel - 1) as nat;
                outcome.1 is Ok ==> in_order(
                    outcome.0,
                    self.entries@[first],
                    self.entries@[second],
                    parent.variable_key,
                ) || self.holds_no_data(first, target, rest) || self.holds_no_data(
                    second,
                    target,
                    rest,
                )
            }),
    {
        let key = parent.variable_key;
        let rest = (fuel - 1) as nat;
        let outcome = self.tree_processed(node, parent, target, cache, fuel);
        if outcome.1 is Ok {
            let program_counter = target.registers.program_counter->0.number() as u64;
            self.lemma_children_kept(node, 0, parent, program_counter, target, cache, rest);
            self.lemma_in_order(
                node,
                0,
                parent,
                program_counter,
                target,
                cache,
                rest,
                at,
                first,
                behind,
                second,
            );
            let (after, result) = self.children_from(
                node,
                0,
                parent,
                program_counter,
                target,
                cache,
                rest,
            );
            let updated = result->Ok_0;
            law_stored_again(after, updated.parent_key, updated, target);
            if in_order(after, self.entries@[first], self.entries@[second], key) {
                let (i, j) = choose|i: int, j: int|
                    0 <= i < j < after.entries.len() && is_part(
                        #[trigger] after.entries[i],
                        self.entries@[first],
                        key,
                    ) && is_part(#[trigger] after.entries[j], self.entries@[second], key);
                assert(parent_stands(after.entries, after.entries[i]));
                assert(parent_stands(after.entries, after.entries[j]));
                assert(outcome.0.entries[i] == after.entries[i]);
                assert(outcome.0.entries[j] == after.entries[j]);
            }
        }
    }

    /// All that is below an entry is kept: once it was resolved, the cache holds every variable,
    /// member and enumerator below the entry, as a part of the parent, unless it holds no data; and
    /// every static of a namespace below the entry, as a part of that namespace, however many there
    /// are, and so on for the namespaces in it. All that was in the cache before, but for the
    /// parent, is still there as it was.
    pub proof fn law_children_kept(
        self,
        node: int,
        parent: VariableView,
        target: Target,
        cache: CacheView,
        fuel: nat,
    )
        requires
            cache.wf(),
            cache.has(parent.variable_key),
            parent.valid(),
            fuel > 0,
        ensures
            ({
                let outcome = self.tree_processed(node, parent, target, cache, fuel);
                outcome.1 is Ok ==> {
                    &&& others_kept(cache, outcome.0, parent.variable_key)
                    &&& forall|at: int, child: int| #[trigger]
                        self.child_is(node, at, child) ==> self.child_kept(
                            child,
                            outcome.0,
                            parent,
                            target,
                            (fuel - 1) as nat,
                        )
                }
            }),
        decreases fuel, 0int, 0int,
    {
        let key = parent.variable_key;
        let rest = (fuel - 1) as nat;
        let outcome = self.tree_processed(node, parent, target, cache, fuel);
        if outcome.1 is Ok {
            let program_counter = target.registers.program_counter->0.number() as u64;
            self.lemma_children_kept(node, 0, parent, program_counter, target, cache, rest);
            let (after, result) = self.children_from(
                node,
                0,
                parent,
                program_counter,
                target,
                cache,
                rest,
            );
            let updated = result->Ok_0;
            let frame = Frame { base: after, key, parent: key, parts: false };
            lemma_outset(frame);
            lemma_store(frame, after, updated.parent_key, updated, target);
            lemma_others_kept(frame, outcome.0);
            assert forall|v: VariableView| #[trigger]
                holds(cache, v) && v.variable_key != key implies holds(outcome.0, v) by {
                assert(holds(after, v));
            }
            assert forall|at: int, child: int| #[trigger]
                self.child_is(node, at, child) implies self.child_kept(
                child,
                outcome.0,
                parent,
                target,
                rest,
            ) by {
                self.lemma_child_stays(child, after, outcome.0, parent, target, rest);
            }
        }
    }
}

/// Whether `variable` is the element `index` of the array with the key `array`, under the name that
/// elements have.
pub open spec fn is_element(variable: VariableView, array: i64, index: i64) -> bool {
    &&& variable.parent_key == Some(array)
    &&& variable.member_index == Some(index)
    &&& variable.name == VariableName::Named("__"@ + signed_decimal(index as int))
}

/// Whether `variable` is declared where `array` is, and, unless something is wrong with it, is kept
/// as many sizes of its type, which `entry` describes, behind the place of the array as `index`
/// says; or nowhere, where the array is not in memory.
pub open spec fn is_placed(
    variable: VariableView,
    array: VariableView,
    entry: Entry,
    index: i64,
) -> bool {
    &&& variable.source_location == array.source_location
    &&& match array.memory_location {
        VariableLocation::Address(address) => forall|size: u64| #[trigger]
            gives_size(entry, size) && variable.valid() && index >= 0 && (entry.tag
                == DW_TAG_BASE_TYPE || entry.tag == DW_TAG_STRUCTURE_TYPE || entry.tag
                == DW_TAG_UNION_TYPE) && entry.attribute(DW_AT_NAME) is Ok && address + index * size
                <= u64::MAX ==> variable.byte_size == size && variable.memory_location
                == VariableLocation::<Seq<char>>::Address((address + index * size) as u64),
        _ => variable.valid() && (entry.tag == DW_TAG_BASE_TYPE || entry.tag
            == DW_TAG_STRUCTURE_TYPE) && entry.attribute(DW_AT_NAME) is Ok
            ==> variable.memory_location is Unavailable,
    }
}

/// Whether `cache` holds the element `index` of `array` in its place.
pub open spec fn has_element(
    cache: CacheView,
    array: VariableView,
    entry: Entry,
    index: i64,
) -> bool {
    exists|i: int|
        0 <= i < cache.entries.len() && is_element(
            #[trigger] cache.entries[i],
            array.variable_key,
            index,
        ) && is_placed(cache.entries[i], array, entry, index)
}

/// An element stays where all variables but its array are kept.
proof fn lemma_element_stays(
    before: CacheView,
    after: CacheView,
    array: VariableView,
    entry: Entry,
    index: i64,
)
    requires
        before.wf(),
        others_kept(before, after, array.variable_key),
        has_element(before, array, entry, index),
    ensures
        has_element(after, array, entry, index),
{
    let i = choose|i: int|
        0 <= i < before.entries.len() && is_element(
            #[trigger] before.entries[i],
            array.variable_key,
            index,
        ) && is_placed(before.entries[i], array, entry, index);
    assert(parent_stands(before.entries, before.entries[i]));
    assert(holds(before, before.entries[i]));
    let j = choose|j: int|
        0 <= j < after.entries.len() && #[trigger] after.entries[j] == before.entries[i];
    assert(is_element(after.entries[j], array.variable_key, index));
}

impl UnitInfo {
    /// Whether the type is that of an array of `count` members, under the name that the entry
    /// `node` gives the type of the members.
    pub open spec fn is_array_of(
        self,
        variable_type: VariableType<Seq<char>>,
        count: i64,
        node: int,
    ) -> bool {
        variable_type matches VariableType::Array { count: members, entry_type } && members
            == count as usize && forall|name: VariableName<Seq<char>>| #[trigger]
            self.plainly_named(node, name) ==> entry_type == name
    }

    /// An element that was resolved is in the cache, and so is all that was there before.
    proof fn lemma_element_kept(
        self,
        offset: usize,
        index: i64,
        upper_bound: i64,
        array: VariableView,
        target: Target,
        cache: CacheView,
        fuel: nat,
    )
        requires
            cache.wf(),
            self.entry_at(offset) is Some,
        ensures
            ({
                let outcome = self.element_processed(
                    offset,
                    index,
                    upper_bound,
                    array,
                    target,
                    cache,
                    fuel,
                );
                outcome.1 is Ok ==> {
                    &&& outcome.0.wf()
                    &&& all_kept(cache, outcome.0)
                    &&& outcome.1->Ok_0 == Variable {
                        variable_type: outcome.1->Ok_0.variable_type,
                        role: outcome.1->Ok_0.role,
                        ..array
                    }
                    &&& self.is_array_of(
                        outcome.1->Ok_0.variable_type,
                        upper_bound,
                        self.entry_at(offset)->0,
                    )
                    &&& has_element(
                        outcome.0,
                        array,
                        self.entries@[self.entry_at(offset)->0],
                        index,
                    )
                }
            }),
    {
        let node = self.entry_at(offset)->0;
        let key = array.variable_key;
        let outcome = self.element_processed(
            offset,
            index,
            upper_bound,
            array,
            target,
            cache,
            fuel,
        );
        if outcome.1 is Ok {
            let fresh = self.variable_of(node);
            lemma_stored_new(cache, key, fresh, target);
            let (base, result) = cache.stored(Some(key), fresh, target);
            let new = result->Ok_0;
            self.lemma_new_attributes(node, array, new, target, cache, base, fuel);
            let (after, updated, result) = self.attributes_processed(
                node,
                array,
                new,
                target,
                base,
                fuel,
            );
            let element = result->Ok_0;
            let typed = Variable {
                variable_type: VariableType::Array {
                    count: upper_bound as usize,
                    entry_type: element.name,
                },
                ..updated
            };
            assert(self.makes(node, array, target, cache, fuel, element));
            assert forall|name: VariableName<Seq<char>>| #[trigger]
                self.plainly_named(node, name) implies element.name == name by {
                self.law_named(node, array, target, cache, fuel, element, name);
            }
            let named = element_of(element, typed, index);
            let frame = Frame { base: after, key: cache.next_key, parent: key, parts: true };
            lemma_outset(frame);
            self.lemma_type_frame(frame, node, typed, named, target, after, fuel);
            let (last, result) = self.type_extracted(node, typed, named, target, after, fuel);
            lemma_all_kept(cache, frame, last);
            let resolved = result->Ok_0;
            let at = position(last.entries, cache.next_key);
            assert(last.entries[at] == resolved);
            let entry = self.entries@[node];
            if let VariableLocation::Address(address) = array.memory_location {
                assert forall|size: u64| #[trigger]
                    gives_size(entry, size) && resolved.valid() && index >= 0 && (entry.tag
                        == DW_TAG_BASE_TYPE || entry.tag == DW_TAG_STRUCTURE_TYPE || entry.tag
                        == DW_TAG_UNION_TYPE) && entry.attribute(DW_AT_NAME) is Ok && address
                        + index * size <= u64::MAX implies resolved.byte_size == size
                    && resolved.memory_location == VariableLocation::<Seq<char>>::Address(
                    (address + index * size) as u64,
                ) by {
                    if named.valid() {
                        self.law_element_place(
                            node,
                            typed,
                            named,
                            target,
                            after,
                            fuel,
                            size,
                            address,
                            index,
                        );
                    } else {
                        assert(!resolved.valid());
                    }
                }
            }
            assert(is_placed(last.entries[at], array, entry, index));
            assert(is_element(last.entries[at], key, index));
        }
    }

    /// The elements of an array, from the `from`-th on, are in the cache once they were resolved.
    proof fn lemma_elements_kept(
        self,
        offset: usize,
        from: int,
        upper_bound: i64,
        array: VariableView,
        target: Target,
        cache: CacheView,
        fuel: nat,
    )
        requires
            cache.wf(),
            self.entry_at(offset) is Some,
            i64::MIN <= from,
        ensures
            ({
                let outcome = self.elements_from(
                    offset,
                    from,
                    upper_bound,
                    array,
                    target,
                    cache,
                    fuel,
                );
                outcome.1 is Ok ==> {
                    &&& outcome.0.wf()
                    &&& all_kept(cache, outcome.0)
                    &&& outcome.1->Ok_0 == Variable {
                        variable_type: outcome.1->Ok_0.variable_type,
                        role: outcome.1->Ok_0.role,
                        ..array
                    }
                    &&& from < upper_bound ==> self.is_array_of(
                        outcome.1->Ok_0.variable_type,
                        upper_bound,
                        self.entry_at(offset)->0,
                    )
                    &&& forall|index: i64|
                        from <= index < upper_bound ==> #[trigger] has_element(
                            outcome.0,
                            array,
                            self.entries@[self.entry_at(offset)->0],
                            index,
                        )
                }
            }),
        decreases upper_bound - from,
    {
        let outcome = self.elements_from(offset, from, upper_bound, array, target, cache, fuel);
        if from < upper_bound && outcome.1 is Ok {
            let first = from as i64;
            let entry = self.entries@[self.entry_at(offset)->0];
            self.lemma_element_kept(offset, first, upper_bound, array, target, cache, fuel);
            let (after, result) = self.element_processed(
                offset,
                first,
                upper_bound,
                array,
                target,
                cache,
                fuel,
            );
            let updated = result->Ok_0;
            self.lemma_elements_kept(
                offset,
                from + 1,
                upper_bound,
                updated,
                target,
                after,
                fuel,
            );
            assert forall|index: i64| from <= index < upper_bound implies #[trigger] has_element(
                outcome.0,
                array,
                entry,
                index,
            ) by {
                if index == first {
                    lemma_element_stays(after, outcome.0, array, entry, index);
                } else {
                    assert(has_element(outcome.0, updated, entry, index));
                    let i = choose|i: int|
                        0 <= i < outcome.0.entries.len() && is_element(
                            #[trigger] outcome.0.entries[i],
                            updated.variable_key,
                            index,
                        ) && is_placed(outcome.0.entries[i], updated, entry, index);
                    assert(is_element(outcome.0.entries[i], array.variable_key, index));
                    assert(is_placed(outcome.0.entries[i], array, entry, index));
                }
            }
        }
    }

    /// Every element of an array is kept: once an array was resolved, the cache holds one element
    /// for each index of the range that the entries below its type give, each under the name for
    /// its index and in its place; and the array has the bounds of the range, and as many members
    /// as the upper one says. A range with a negative bound is an error.
    pub proof fn law_elements_kept(
        self,
        node: int,
        parent: VariableView,
        variable: VariableView,
        target: Target,
        cache: CacheView,
        fuel: nat,
        offset: usize,
    )
        requires
            fuel > 0,
            cache.wf(),
            cache.has(variable.variable_key),
            self.entries@[node].tag == DW_TAG_ARRAY_TYPE,
            self.entries@[node].attribute(DW_AT_NAME) is Ok,
            self.entries@[node].attribute(DW_AT_TYPE) matches Ok(Some(attribute))
                && attribute.value == AttributeValue::UnitRef(offset),
            self.entry_at(offset) is Some,
            variable.valid(),
        ensures
            ({
                let outcome = self.type_extracted(node, parent, variable, target, cache, fuel);
                let (base, new) = cache.stored(
                    Some(variable.variable_key),
                    VariableView::fresh(self.header_offset, Some(self.entries@[node].offset)),
                    target,
                );
                outcome.1 matches Ok(array) ==> new matches Ok(range) && self.tree_processed(
                    node,
                    range,
                    target,
                    base,
                    (fuel - 1) as nat,
                ).1 matches Ok(bounds) && {
                    &&& array.range_lower_bound == bounds.range_lower_bound
                    &&& array.range_upper_bound == bounds.range_upper_bound
                    &&& array.memory_location == variable.memory_location
                    &&& array.byte_size == self.entries@[node].size_in_bytes()
                    &&& bounds.range_lower_bound < bounds.range_upper_bound ==> self.is_array_of(
                        array.variable_type,
                        bounds.range_upper_bound,
                        self.entry_at(offset)->0,
                    )
                    &&& bounds.range_lower_bound < 0 || bounds.range_upper_bound < 0
                        ==> !array.valid()
                    &&& forall|index: i64|
                        bounds.range_lower_bound <= index < bounds.range_upper_bound
                            ==> #[trigger] has_element(
                            outcome.0,
                            variable,
                            self.entries@[self.entry_at(offset)->0],
                            index,
                        )
                }
            }),
    {
        let outcome = self.type_extracted(node, parent, variable, target, cache, fuel);
        if outcome.1 is Ok {
            let rest = (fuel - 1) as nat;
            let key = variable.variable_key;
            let entry = self.entries@[self.entry_at(offset)->0];
            let sized = Variable {
                variable_node_type: node_type_for(
                    variable.variable_node_type,
                    variable.variable_type,
                ),
                byte_size: self.entries@[node].size_in_bytes(),
                ..variable
            };
            let fresh = self.variable_of(node);
            lemma_stored_new(cache, key, fresh, target);
            let (base, result) = cache.stored(Some(key), fresh, target);
            let range = result->Ok_0;
            self.lemma_new_tree(node, range, target, cache, base, rest);
            let (after, result) = self.tree_processed(node, range, target, base, rest);
            let bounds = result->Ok_0;
            lemma_removal_keeps(cache, after);
            let removed = after.removed(bounds.variable_key).0;
            let array = bounded(sized, bounds);
            self.lemma_elements_kept(
                offset,
                bounds.range_lower_bound as int,
                bounds.range_upper_bound,
                array,
                target,
                removed,
                rest,
            );
            let (last, result) = self.elements_from(
                offset,
                bounds.range_lower_bound as int,
                bounds.range_upper_bound,
                array,
                target,
                removed,
                rest,
            );
            let resolved = result->Ok_0;
            let own = position(cache.entries, key);
            assert(cache.entries[own].variable_key == key);
            assert(holds(cache, cache.entries[own]));
            assert(holds(removed, cache.entries[own]));
            assert(holds(last, cache.entries[own]));
            assert(last.has(key));
            let frame = Frame { base: last, key, parent: parent.variable_key, parts: false };
            lemma_outset(frame);
            lemma_key_positive(frame);
            lemma_store(frame, last, Some(parent.variable_key), resolved, target);
            lemma_others_kept(frame, outcome.0);
            assert forall|index: i64|
                bounds.range_lower_bound <= index
                    < bounds.range_upper_bound implies #[trigger] has_element(
                outcome.0,
                variable,
                entry,
                index,
            ) by {
                assert(has_element(last, array, entry, index));
                lemma_element_stays(last, outcome.0, array, entry, index);
                let i = choose|i: int|
                    0 <= i < outcome.0.entries.len() && is_element(
                        #[trigger] outcome.0.entries[i],
                        array.variable_key,
                        index,
                    ) && is_placed(outcome.0.entries[i], array, entry, index);
                assert(is_element(outcome.0.entries[i], key, index));
                assert(is_placed(outcome.0.entries[i], variable, entry, index));
            }
        }
    }

    /// An array whose range has no index has no elements: it gets its bounds and its size, and the
    /// cache holds nothing else that is new.
    pub proof fn law_empty_array(
        self,
        node: int,
        parent: VariableView,
        variable: VariableView,
        target: Target,
        cache: CacheView,
        fuel: nat,
        offset: usize,
        range: VariableView,
        bounds: VariableView,
    )
        requires
            fuel > 0,
            self.entries@[node].tag == DW_TAG_ARRAY_TYPE,
            self.entries@[node].attribute(DW_AT_NAME) is Ok,
            self.entries@[node].attribute(DW_AT_TYPE) matches Ok(Some(attribute))
                && attribute.value == AttributeValue::UnitRef(offset),
            variable.valid(),
            cache.stored(
                Some(variable.variable_key),
                VariableView::fresh(self.header_offset, Some(self.entries@[node].offset)),
                target,
            ).1 == Ok::<VariableView, DebugErrorView>(range),
            self.tree_processed(
                node,
                range,
                target,
                cache.stored(
                    Some(variable.variable_key),
                    VariableView::fresh(self.header_offset, Some(self.entries@[node].offset)),
                    target,
                ).0,
                (fuel - 1) as nat,
            ).1 == Ok::<VariableView, DebugErrorView>(bounds),
            0 <= bounds.range_upper_bound <= bounds.range_lower_bound,
        ensures
            ({
                let outcome = self.type_extracted(node, parent, variable, target, cache, fuel);
                let below = self.tree_processed(
                    node,
                    range,
                    target,
                    cache.stored(
                        Some(variable.variable_key),
                        VariableView::fresh(self.header_offset, Some(self.entries@[node].offset)),
                        target,
                    ).0,
                    (fuel - 1) as nat,
                ).0;
                let removed = below.removed(bounds.variable_key);
                removed.1 is Ok ==> outcome == removed.0.stored(
                    Some(parent.variable_key),
                    Variable {
                        range_lower_bound: bounds.range_lower_bound,
                        range_upper_bound: bounds.range_upper_bound,
                        byte_size: self.entries@[node].size_in_bytes(),
                        variable_node_type: node_type_for(
                            variable.variable_node_type,
                            variable.variable_type,
                        ),
                        ..variable
                    },
                    target,
                )
            }),
    {
    }

    /// The parts of a structure and of a union are kept: once such a variable was resolved at once,
    /// the cache holds every member of its type, as a part of the variable, unless it holds no
    /// data.
    pub proof fn law_members_kept(
        self,
        node: int,
        parent: VariableView,
        variable: VariableView,
        target: Target,
        cache: CacheView,
        fuel: nat,
    )
        requires
            fuel > 1,
            cache.wf(),
            cache.has(variable.variable_key),
            self.entries@[node].attribute(DW_AT_NAME) is Ok,
            variable.valid(),
            variable.member_index is None,
            self.entries@[node].tag == DW_TAG_UNION_TYPE || self.entries@[node].tag
                == DW_TAG_STRUCTURE_TYPE && !(variable.memory_location is Unavailable)
                && node_type_for(variable.variable_node_type, variable.variable_type)
                == VariableNodeType::RecurseToBaseType,
        ensures
            ({
                let outcome = self.type_extracted(node, parent, variable, target, cache, fuel);
                let placed = Variable {
                    byte_size: self.entries@[node].size_in_bytes(),
                    variable_node_type: node_type_for(
                        variable.variable_node_type,
                        variable.variable_type,
                    ),
                    ..variable
                };
                outcome.1 is Ok ==> forall|at: int, child: int| #[trigger]
                    self.child_is(node, at, child) ==> self.child_kept(
                        child,
                        outcome.0,
                        placed,
                        target,
                        (fuel - 2) as nat,
                    )
            }),
    {
        let outcome = self.type_extracted(node, parent, variable, target, cache, fuel);
        if outcome.1 is Ok {
            let key = variable.variable_key;
            let below = (fuel - 1) as nat;
            let rest = (fuel - 2) as nat;
            self.law_structure_at_once(node, parent, variable, target, cache, fuel);
            let placed = Variable {
                byte_size: self.entries@[node].size_in_bytes(),
                variable_node_type: node_type_for(
                    variable.variable_node_type,
                    variable.variable_type,
                ),
                ..variable
            };
            let above = if self.entries@[node].tag == DW_TAG_UNION_TYPE {
                placed
            } else {
                Variable {
                    variable_type: VariableType::Struct(type_name_of(self.entries@[node])),
                    ..placed
                }
            };
            self.law_children_kept(node, above, target, cache, below);
            let frame = Frame { base: cache, key, parent: key, parts: true };
            lemma_outset(frame);
            self.lemma_tree_frame(frame, node, above, target, cache, below);
            let (grown, result) = self.tree_processed(node, above, target, cache, below);
            let resolved = result->Ok_0;
            let last = Frame { base: grown, key, parent: parent.variable_key, parts: false };
            lemma_outset(last);
            lemma_key_positive(last);
            let stored = if self.entries@[node].tag == DW_TAG_UNION_TYPE && resolved.valid()
                && !grown.has_children(key) {
                Variable {
                    value: VariableValue::Valid(resolved.variable_type.described()),
                    ..resolved
                }
            } else {
                resolved
            };
            lemma_store(last, grown, Some(parent.variable_key), stored, target);
            lemma_others_kept(last, outcome.0);
            assert forall|at: int, child: int| #[trigger]
                self.child_is(node, at, child) implies self.child_kept(
                child,
                outcome.0,
                placed,
                target,
                rest,
            ) by {
                self.lemma_child_stays(child, grown, outcome.0, above, target, rest);
                self.lemma_child_of_same(child, outcome.0, above, placed, target, rest);
            }
        }
    }

    /// What is in a block is kept where the block is in scope, as parts of the variable around it;
    /// and where it is not, nothing of it is kept, and the variable says so.
    pub proof fn law_block_kept(
        self,
        block: int,
        parent: VariableView,
        program_counter: u64,
        target: Target,
        cache: CacheView,
        fuel: nat,
    )
        requires
            fuel > 0,
            cache.wf(),
            cache.has(parent.variable_key),
            parent.valid(),
            self.entries@[block].tag == DW_TAG_LEXICAL_BLOCK,
        ensures
            ({
                let entry = self.entries@[block];
                let outcome = self.child_processed(
                    block,
                    parent,
                    program_counter,
                    target,
                    cache,
                    fuel,
                );
                &&& bounds_hold(entry, program_counter) && outcome.1 is Ok ==> forall|
                    at: int,
                    child: int,
                | #[trigger]
                    self.child_is(block, at, child) ==> self.child_kept(
                        child,
                        outcome.0,
                        parent,
                        target,
                        (fuel - 1) as nat,
                    )
                &&& !bounds_hold(entry, program_counter) && !listed_hold(entry, program_counter)
                    ==> outcome.0 == cache && (outcome.1 matches Ok(updated) ==> !updated.valid())
            }),
    {
        let entry = self.entries@[block];
        law_scope(entry, parent, program_counter);
        if bounds_hold(entry, program_counter) {
            self.law_children_kept(block, parent, target, cache, fuel);
        }
    }

    /// What is in a block that lists the ranges of its code, and gives no bounds, is kept where one
    /// of these ranges holds the program counter.
    pub proof fn law_listed_block_kept(
        self,
        block: int,
        parent: VariableView,
        program_counter: u64,
        target: Target,
        cache: CacheView,
        fuel: nat,
    )
        requires
            fuel > 0,
            cache.wf(),
            cache.has(parent.variable_key),
            parent.valid(),
            self.entries@[block].tag == DW_TAG_LEXICAL_BLOCK,
            !(self.entries@[block].attribute(DW_AT_LOW_PC) matches Ok(Some(_))),
            listed_hold(self.entries@[block], program_counter),
        ensures
            ({
                let outcome = self.child_processed(
                    block,
                    parent,
                    program_counter,
                    target,
                    cache,
                    fuel,
                );
                outcome.1 is Ok ==> forall|at: int, child: int| #[trigger]
                    self.child_is(block, at, child) ==> self.child_kept(
                        child,
                        outcome.0,
                        parent,
                        target,
                        (fuel - 1) as nat,
                    )
            }),
    {
        law_scope(self.entries@[block], parent, program_counter);
        self.law_children_kept(block, parent, target, cache, fuel);
    }
}

} // verus!
