//! What is left alone while a variable is resolved.
use vstd::prelude::*;

#[allow(unused_imports)]
use crate::attributes::PairOutcome;
#[allow(unused_imports)]
use crate::cache::{
    adopted, below, goes, has_key, latest, law_stored_is_latest, lemma_adopted, lemma_adopted_wf,
    lemma_position, lemma_pruned, lemma_pruned_wf, lemma_stored_wf, moved, parent_stands, position,
    pruned, CacheView,
};
#[allow(unused_imports)]
use crate::dwarf::{
    Attribute, AttributeValue, UnitInfo, DW_AT_DISCR, DW_AT_NAME, DW_AT_TYPE, DW_TAG_ARRAY_TYPE,
    DW_TAG_BASE_TYPE, DW_TAG_COMPILE_UNIT, DW_TAG_ENUMERATION_TYPE, DW_TAG_ENUMERATOR,
    DW_TAG_LEXICAL_BLOCK, DW_TAG_MEMBER, DW_TAG_NAMESPACE, DW_TAG_POINTER_TYPE,
    DW_TAG_STRUCTURE_TYPE, DW_TAG_SUBRANGE_TYPE, DW_TAG_SUBROUTINE_TYPE, DW_TAG_UNION_TYPE,
    DW_TAG_VARIABLE, DW_TAG_VARIANT, DW_TAG_VARIANT_PART,
};
#[allow(unused_imports)]
use crate::laws::law_removed;
#[allow(unused_imports)]
use crate::location::{located_by, located_from, placed};
#[allow(unused_imports)]
use crate::target::Target;
#[allow(unused_imports)]
use crate::tree::{discriminated, namespace_name, scope_of};
#[allow(unused_imports)]
use crate::types::{
    bounded, element_of, indexed, or_unnamed, shown_at_once, type_reference, TypeReference,
};
#[allow(unused_imports)]
use crate::variable::{Variable, VariableNodeType, VariableType, VariableView, VariantRole};

verus! {

/// Whether `cache` holds the variable `variable` as it is.
pub open spec fn holds(cache: CacheView, variable: VariableView) -> bool {
    exists|i: int| 0 <= i < cache.entries.len() && #[trigger] cache.entries[i] == variable
}

/// Whether two variables have the same place in a cache: their key and their parent.
pub open spec fn same_place(a: VariableView, b: VariableView) -> bool {
    a.variable_key == b.variable_key && a.parent_key == b.parent_key
}

/// Whether two variables have the same place in a cache, are described by the same entry, and are
/// the same member of an array.
pub open spec fn same_entry(a: VariableView, b: VariableView) -> bool {
    &&& same_place(a, b)
    &&& a.unit_header_offset == b.unit_header_offset
    &&& a.variable_unit_offset == b.variable_unit_offset
    &&& a.member_index == b.member_index
}

/// Whether `updated` is `variable` but for what its type says of it: its type, its value, its
/// place, its size, its bounds, how its children are found, and its part in a type with variants.
pub open spec fn retyped(updated: VariableView, variable: VariableView) -> bool {
    updated == Variable {
        value: updated.value,
        variable_type: updated.variable_type,
        variable_node_type: updated.variable_node_type,
        memory_location: updated.memory_location,
        byte_size: updated.byte_size,
        range_lower_bound: updated.range_lower_bound,
        range_upper_bound: updated.range_upper_bound,
        role: updated.role,
        ..variable
    }
}

/// Whether `updated` is `variable` but for its type, its value, its bounds and its part in a type
/// with variants: it has the same place in a cache, and it is called, declared, kept, found and
/// counted as before.
pub open spec fn still(updated: VariableView, variable: VariableView) -> bool {
    updated == Variable {
        value: updated.value,
        variable_type: updated.variable_type,
        range_lower_bound: updated.range_lower_bound,
        range_upper_bound: updated.range_upper_bound,
        role: updated.role,
        ..variable
    }
}

/// Whether every variable of `before` other than that with the key `key` and its parts is in
/// `after` as it was.
pub open spec fn outside_kept(before: CacheView, after: CacheView, key: i64) -> bool {
    forall|i: int| #![trigger before.entries[i]]
        0 <= i < before.entries.len() && before.entries[i].variable_key != key && !below(
            before.entries,
            before.entries[i],
            key,
        ) ==> holds(after, before.entries[i])
}

/// Whether the `i`-th variable of `after` was not there before: it has a key that no variable had.
pub open spec fn added(before: CacheView, after: CacheView, i: int) -> bool {
    0 <= i < after.entries.len() && after.entries[i].variable_key >= before.next_key
}

/// Whether all variables of `after` were there before or are new.
pub open spec fn nothing_revived(before: CacheView, after: CacheView) -> bool {
    forall|i: int| #![trigger after.entries[i]]
        0 <= i < after.entries.len() && !added(before, after, i) ==> before.has(
            after.entries[i].variable_key,
        )
}

/// The part of a cache that may change while the variable with the key `key` is resolved, which
/// is or becomes a part of the variable with the key `parent`.
pub struct Frame {
    /// The cache at the outset.
    pub base: CacheView,
    /// The key of the variable.
    pub key: i64,
    /// The key of its parent.
    pub parent: i64,
    /// Whether the parts that it has at the outset may change too.
    pub parts: bool,
}

impl Frame {
    /// Whether the variable is one of a well-formed cache.
    pub open spec fn wf(self) -> bool {
        self.base.wf() && self.base.has(self.key)
    }

    /// Whether a variable with the key `key` was not there at the outset.
    pub open spec fn is_new(self, key: i64) -> bool {
        key >= self.base.next_key
    }

    /// Whether new variables may be parts of the variable with the key `key`.
    pub open spec fn holder(self, key: i64) -> bool {
        key == self.key || key == self.parent || self.is_new(key)
    }

    /// Whether the parent of a new variable may be the one with the key `parent_key`.
    pub open spec fn attached(self, parent_key: Option<i64>) -> bool {
        parent_key matches Some(parent) && self.holder(parent)
    }

    /// Whether `variable` may change.
    pub open spec fn free(self, variable: VariableView) -> bool {
        ||| variable.variable_key == self.key
        ||| self.is_new(variable.variable_key) && self.attached(variable.parent_key)
    }

    /// Whether `variable`, which was there at the outset, stays as it is.
    pub open spec fn stays(self, variable: VariableView) -> bool {
        variable.variable_key != self.key && !(self.parts && below(
            self.base.entries,
            variable,
            self.key,
        ))
    }

    /// Whether no more than what may change has changed on the way to `cache`.
    pub open spec fn keeps(self, cache: CacheView) -> bool {
        &&& cache.wf()
        &&& cache.has(self.key)
        &&& self.base.next_key <= cache.next_key
        &&& forall|i: int| #![trigger cache.entries[i]]
            0 <= i < cache.entries.len() ==> if self.is_new(cache.entries[i].variable_key) {
                self.attached(cache.entries[i].parent_key)
            } else {
                self.base.has(cache.entries[i].variable_key)
            }
        &&& forall|i: int| #![trigger self.base.entries[i]]
            0 <= i < self.base.entries.len() && self.stays(self.base.entries[i]) ==> holds(
                cache,
                self.base.entries[i],
            )
    }
}

/// A variable is younger than all that it is a part of.
pub proof fn lemma_below_younger(cache: CacheView, variable: VariableView, key: i64)
    requires
        cache.wf(),
        holds(cache, variable),
        below(cache.entries, variable, key),
    ensures
        key < variable.variable_key,
        cache.has(key),
    decreases variable.variable_key,
{
    let i = choose|i: int| 0 <= i < cache.entries.len() && #[trigger] cache.entries[i] == variable;
    assert(parent_stands(cache.entries, cache.entries[i]));
    let parent = variable.parent_key->0;
    if parent != key {
        let p = position(cache.entries, parent);
        assert(0 <= p < cache.entries.len());
        assert(holds(cache, cache.entries[p]));
        lemma_below_younger(cache, cache.entries[p], key);
    }
}

/// What stays does not become a part of what changes.
proof fn lemma_stays_outside(frame: Frame, cache: CacheView, variable: VariableView)
    requires
        frame.wf(),
        frame.keeps(cache),
        holds(frame.base, variable),
        frame.parts,
        frame.stays(variable),
    ensures
        holds(cache, variable),
        !below(cache.entries, variable, frame.key),
    decreases variable.variable_key,
{
    let base = frame.base;
    let i = choose|i: int| 0 <= i < base.entries.len() && #[trigger] base.entries[i] == variable;
    assert(parent_stands(base.entries, base.entries[i]));
    assert(holds(cache, base.entries[i]));
    if let Some(parent) = variable.parent_key {
        let p = position(base.entries, parent);
        assert(has_key(base.entries, parent));
        assert(0 <= p < base.entries.len() && base.entries[p].variable_key == parent);
        assert(holds(base, base.entries[p]));
        assert(frame.stays(base.entries[p]));
        lemma_stays_outside(frame, cache, base.entries[p]);
        let j = choose|j: int|
            0 <= j < cache.entries.len() && #[trigger] cache.entries[j] == base.entries[p];
        lemma_position(cache, j);
    }
}

/// Nothing has changed at the outset.
pub(crate) proof fn lemma_outset(frame: Frame)
    requires
        frame.wf(),
    ensures
        frame.keeps(frame.base),
{
    let base = frame.base;
    assert forall|i: int| #![trigger base.entries[i]]
        0 <= i < base.entries.len() implies !frame.is_new(
        base.entries[i].variable_key,
    ) && base.has(base.entries[i].variable_key) && holds(base, base.entries[i]) by {
        lemma_position(base, i);
    }
}

/// Storing a variable that may change, or a new one, changes no more than may change, and the
/// variable is what the cache has under its key.
pub(crate) proof fn lemma_store(
    frame: Frame,
    cache: CacheView,
    parent_key: Option<i64>,
    variable: VariableView,
    target: Target,
)
    requires
        frame.wf(),
        frame.keeps(cache),
        variable.variable_key == frame.key || variable.variable_key == 0 || frame.is_new(
            variable.variable_key,
        ),
        variable.variable_key != frame.key ==> frame.attached(
            match parent_key {
                Some(_) => parent_key,
                None => variable.parent_key,
            },
        ),
    ensures
        frame.keeps(cache.stored(parent_key, variable, target).0),
        cache.stored(parent_key, variable, target).1 matches Ok(stored) ==> latest(
            cache.stored(parent_key, variable, target).0,
            stored,
        ),
{
    lemma_stored_wf(cache, parent_key, variable, target);
    law_stored_is_latest(cache, parent_key, variable, target);
    let (after, result) = cache.stored(parent_key, variable, target);
    if let Ok(stored) = result {
        let at = if variable.variable_key == 0 {
            cache.entries.len() as int
        } else {
            position(cache.entries, variable.variable_key)
        };
        if variable.variable_key != 0 {
            assert(0 <= at < cache.entries.len() && cache.entries[at].variable_key
                == variable.variable_key);
        }
        assert(after.entries[at] == stored);
        let own = position(cache.entries, frame.key);
        assert(0 <= own < cache.entries.len() && cache.entries[own].variable_key == frame.key);
        assert(after.entries[own].variable_key == frame.key);
        assert forall|i: int| #![trigger after.entries[i]] 0 <= i < after.entries.len() implies (
        if frame.is_new(after.entries[i].variable_key) {
            frame.attached(after.entries[i].parent_key)
        } else {
            frame.base.has(after.entries[i].variable_key)
        }) by {
            if i != at {
                assert(after.entries[i] == cache.entries[i]);
            }
        }
        assert forall|i: int| #![trigger frame.base.entries[i]]
            0 <= i < frame.base.entries.len() && frame.stays(frame.base.entries[i]) implies holds(
            after,
            frame.base.entries[i],
        ) by {
            let e = frame.base.entries[i];
            assert(holds(cache, e));
            let j = choose|j: int| 0 <= j < cache.entries.len() && #[trigger] cache.entries[j] == e;
            assert(after.entries[j] == e);
        }
    }
}

/// Removing a new variable changes no more than may change; so does removing all below a variable
/// that may change.
pub(crate) proof fn lemma_prune(frame: Frame, cache: CacheView, key: i64, itself: bool)
    requires
        frame.wf(),
        frame.keeps(cache),
        frame.is_new(key) || (key == frame.key && !itself && frame.parts),
    ensures
        frame.keeps(
            (CacheView { entries: pruned(cache.entries, cache.entries, key, itself), ..cache }),
        ),
{
    let after = CacheView { entries: pruned(cache.entries, cache.entries, key, itself), ..cache };
    lemma_pruned_wf(cache, key, itself);
    lemma_pruned(cache.entries, cache.entries, key, itself);
    let at = position(cache.entries, frame.key);
    let changed = cache.entries[at];
    assert(0 <= at < cache.entries.len() && changed.variable_key == frame.key);
    assert(holds(cache, changed));
    if below(cache.entries, changed, key) {
        lemma_key_positive(frame);
        lemma_below_younger(cache, changed, key);
    }
    let remains = |v: VariableView| !goes(cache.entries, v, key, itself);
    assert(remains(changed));
    assert(after.entries.contains(cache.entries[at]));
    let place = choose|k: int| 0 <= k < after.entries.len() && after.entries[k] == changed;
    assert(after.entries[place].variable_key == frame.key);
    assert forall|i: int| #![trigger after.entries[i]] 0 <= i < after.entries.len() implies (
    if frame.is_new(after.entries[i].variable_key) {
        frame.attached(after.entries[i].parent_key)
    } else {
        frame.base.has(after.entries[i].variable_key)
    }) by {
        let j = choose|j: int|
            0 <= j < cache.entries.len() && #[trigger] cache.entries[j] == after.entries[i];
        assert(cache.entries[j] == after.entries[i]);
    }
    assert forall|i: int| #![trigger frame.base.entries[i]]
        0 <= i < frame.base.entries.len() && frame.stays(frame.base.entries[i]) implies holds(
        after,
        frame.base.entries[i],
    ) by {
        let e = frame.base.entries[i];
        assert(holds(frame.base, e));
        if frame.parts {
            lemma_stays_outside(frame, cache, e);
        }
        assert(holds(cache, e));
        if below(cache.entries, e, key) {
            lemma_below_younger(cache, e, key);
        }
        let stays = |v: VariableView| !goes(cache.entries, v, key, itself);
        assert(stays(e));
        let j = choose|j: int| 0 <= j < cache.entries.len() && #[trigger] cache.entries[j] == e;
        assert(after.entries.contains(cache.entries[j]));
        let k = choose|k: int| 0 <= k < after.entries.len() && after.entries[k] == e;
        assert(after.entries[k] == e);
    }
}

/// Moving the parts of a new variable changes no more than may change.
pub(crate) proof fn lemma_adopt(frame: Frame, cache: CacheView, parent: i64, child: i64)
    requires
        frame.wf(),
        frame.keeps(cache),
        frame.is_new(child),
        frame.holder(parent),
    ensures
        frame.keeps(cache.adopt(parent, child).0),
{
    let (after, result) = cache.adopt(parent, child);
    if result is Ok {
        lemma_adopted_wf(cache, parent, child);
        lemma_adopted(cache.entries, parent, child);
        lemma_key_positive(frame);
        let at = position(cache.entries, frame.key);
        assert(0 <= at < cache.entries.len() && cache.entries[at].variable_key == frame.key);
        let changed = moved(cache.entries[at], parent, child);
        assert(adopted(cache.entries, parent, child).contains(changed));
        let place = choose|k: int| 0 <= k < after.entries.len() && after.entries[k] == changed;
        assert(after.entries[place].variable_key == frame.key);
        assert forall|i: int| #![trigger after.entries[i]] 0 <= i < after.entries.len() implies (
        if frame.is_new(after.entries[i].variable_key) {
            frame.attached(after.entries[i].parent_key)
        } else {
            frame.base.has(after.entries[i].variable_key)
        }) by {
            assert(adopted(cache.entries, parent, child)[i] == after.entries[i]);
            let j = choose|j: int|
                0 <= j < cache.entries.len() && (#[trigger] cache.entries[j]).variable_key != child
                    && after.entries[i] == moved(cache.entries[j], parent, child);
            assert(after.entries[i] == moved(cache.entries[j], parent, child));
        }
        assert forall|i: int| #![trigger frame.base.entries[i]]
            0 <= i < frame.base.entries.len() && frame.stays(frame.base.entries[i]) implies holds(
            after,
            frame.base.entries[i],
        ) by {
            let e = frame.base.entries[i];
            assert(holds(cache, e));
            let j = choose|j: int| 0 <= j < cache.entries.len() && #[trigger] cache.entries[j] == e;
            assert(parent_stands(cache.entries, cache.entries[j]));
            assert(e.variable_key < frame.base.next_key);
            assert(moved(e, parent, child) == e);
            assert(
                adopted(cache.entries, parent, child).contains(
                    moved(cache.entries[j], parent, child),
                )
            );
            let k = choose|k: int| 0 <= k < after.entries.len() && after.entries[k] == e;
            assert(after.entries[k] == e);
        }
    }
}

/// Keys are positive.
pub(crate) proof fn lemma_key_positive(frame: Frame)
    requires
        frame.wf(),
    ensures
        1 <= frame.key < frame.base.next_key,
{
    let i = position(frame.base.entries, frame.key);
    assert(0 <= i < frame.base.entries.len() && frame.base.entries[i].variable_key == frame.key);
}

/// To note a pointer for later changes no variable.
proof fn lemma_expand(frame: Frame, cache: CacheView, key: i64)
    requires
        frame.keeps(cache),
    ensures
        frame.keeps(cache.expanding(key)),
{
    let after = cache.expanding(key);
    assert(after.entries == cache.entries);
    assert forall|i: int| #![trigger frame.base.entries[i]]
        0 <= i < frame.base.entries.len() && frame.stays(frame.base.entries[i]) implies holds(
        after,
        frame.base.entries[i],
    ) by {
        assert(holds(cache, frame.base.entries[i]));
    }
}

/// Storing a new variable as a part of one that may have new parts changes no more than may change.
pub(crate) proof fn lemma_store_new(
    frame: Frame,
    cache: CacheView,
    parent: i64,
    variable: VariableView,
    target: Target,
)
    requires
        frame.wf(),
        frame.keeps(cache),
        variable.variable_key == 0,
        frame.holder(parent),
    ensures
        frame.keeps(cache.stored(Some(parent), variable, target).0),
        cache.stored(Some(parent), variable, target).1 matches Ok(stored) ==> {
            &&& frame.is_new(stored.variable_key)
            &&& stored.parent_key == Some(parent)
        },
{
    lemma_key_positive(frame);
    lemma_store(frame, cache, Some(parent), variable, target);
}

/// What a frame keeps is what the laws speak of.
proof fn lemma_frame_told(frame: Frame, cache: CacheView)
    requires
        frame.keeps(cache),
    ensures
        outside_kept(frame.base, cache, frame.key),
        nothing_revived(frame.base, cache),
{
    assert forall|i: int| #![trigger frame.base.entries[i]]
        0 <= i < frame.base.entries.len() && frame.base.entries[i].variable_key != frame.key
            && !below(frame.base.entries, frame.base.entries[i], frame.key) implies holds(
        cache,
        frame.base.entries[i],
    ) by {
        assert(frame.stays(frame.base.entries[i]));
    }
}

/// What is new is a part of the variable or of its parent.
proof fn lemma_added_below(frame: Frame, cache: CacheView, i: int)
    requires
        frame.keeps(cache),
        added(frame.base, cache, i),
    ensures
        below(cache.entries, cache.entries[i], frame.key) || below(
            cache.entries,
            cache.entries[i],
            frame.parent,
        ),
    decreases cache.entries[i].variable_key,
{
    assert(frame.is_new(cache.entries[i].variable_key));
    assert(parent_stands(cache.entries, cache.entries[i]));
    let parent = cache.entries[i].parent_key->0;
    if parent != frame.key && parent != frame.parent {
        let p = position(cache.entries, parent);
        assert(0 <= p < cache.entries.len() && cache.entries[p].variable_key == parent);
        lemma_added_below(frame, cache, p);
    }
}

/// Finding out where a variable is kept does not move it in the cache.
proof fn lemma_located_place(
    variable: VariableView,
    parent: VariableView,
    attributes: Seq<Attribute>,
    from: int,
    encoding: crate::dwarf::Encoding,
    target: Target,
)
    ensures
        same_entry(
            located_from(variable, parent, attributes, from, encoding, target).0,
            variable,
        ),
    decreases attributes.len() - from,
{
    if from < attributes.len() {
        let (updated, result) = located_by(variable, parent, attributes[from], encoding, target);
        assert(same_entry(updated, variable));
        if result is Ok {
            lemma_located_place(updated, parent, attributes, from + 1, encoding, target);
        }
    }
}

/// Looking for the scope of a block does not move its variable in the cache.
proof fn lemma_scope_place(entry: crate::dwarf::Entry, variable: VariableView, program_counter: u64)
    ensures
        scope_of(entry, variable, program_counter) matches Ok((updated, _)) ==> still(
            updated,
            variable,
        ),
{
}

impl UnitInfo {
    /// Finding out where a variable is kept changes no more than may change.
    pub(crate) proof fn lemma_location_frame(
        self,
        frame: Frame,
        node: int,
        parent: VariableView,
        variable: VariableView,
        target: Target,
        cache: CacheView,
    )
        requires
            frame.wf(),
            frame.keeps(cache),
            variable.variable_key == frame.key || frame.is_new(variable.variable_key),
            variable.variable_key != frame.key ==> frame.attached(variable.parent_key),
        ensures
            ({
                let outcome = self.location_extracted(node, parent, variable, target, cache);
                &&& frame.keeps(outcome.0)
                &&& outcome.1 matches Ok(updated) ==> same_entry(updated, variable) && latest(
                    outcome.0,
                    updated,
                )
            }),
    {
        let attributes = self.entries@[node].attributes@;
        lemma_located_place(variable, parent, attributes, 0, self.encoding, target);
        let (updated, result) = located_from(
            variable,
            parent,
            attributes,
            0,
            self.encoding,
            target,
        );
        if result is Ok {
            lemma_key_positive(frame);
            lemma_store(frame, cache, updated.parent_key, updated, target);
        }
    }

    /// Resolving what is below an entry changes no more than may change.
    pub(crate) proof fn lemma_tree_frame(
        self,
        frame: Frame,
        node: int,
        parent: VariableView,
        target: Target,
        cache: CacheView,
        fuel: nat,
    )
        requires
            frame.wf(),
            frame.keeps(cache),
            frame.free(parent),
        ensures
            ({
                let outcome = self.tree_processed(node, parent, target, cache, fuel);
                &&& frame.keeps(outcome.0)
                &&& outcome.1 matches Ok(updated) ==> still(updated, parent)
                &&& outcome.1 matches Ok(updated) ==> latest(outcome.0, updated)
            }),
        decreases fuel, 0int, 0int,
    {
        lemma_key_positive(frame);
        if fuel > 0 {
            if !parent.valid() {
                lemma_store(frame, cache, parent.parent_key, parent, target);
            } else if let Some(program_counter) = target.registers.program_counter {
                if program_counter.number() <= u64::MAX {
                    let program_counter = program_counter.number() as u64;
                    self.lemma_children_frame(
                        frame,
                        node,
                        0,
                        parent,
                        program_counter,
                        target,
                        cache,
                        (fuel - 1) as nat,
                    );
                    let (after, result) = self.children_from(
                        node,
                        0,
                        parent,
                        program_counter,
                        target,
                        cache,
                        (fuel - 1) as nat,
                    );
                    if let Ok(updated) = result {
                        lemma_store(frame, after, updated.parent_key, updated, target);
                    }
                }
            }
        }
    }

    /// Resolving the children of an entry changes no more than may change.
    pub(crate) proof fn lemma_children_frame(
        self,
        frame: Frame,
        node: int,
        from: int,
        parent: VariableView,
        program_counter: u64,
        target: Target,
        cache: CacheView,
        fuel: nat,
    )
        requires
            frame.wf(),
            frame.keeps(cache),
            frame.free(parent),
        ensures
            ({
                let outcome = self.children_from(
                    node,
                    from,
                    parent,
                    program_counter,
                    target,
                    cache,
                    fuel,
                );
                &&& frame.keeps(outcome.0)
                &&& outcome.1 matches Ok(updated) ==> still(updated, parent)
            }),
        decreases fuel, 5int, self.entries@[node].children@.len() - from,
    {
        let children = self.entries@[node].children@;
        if from < children.len() {
            if let Some(child) = self.entry_at(children[from]) {
                self.lemma_child_frame(frame, child, parent, program_counter, target, cache, fuel);
                let (after, result) = self.child_processed(
                    child,
                    parent,
                    program_counter,
                    target,
                    cache,
                    fuel,
                );
                if let Ok(updated) = result {
                    self.lemma_children_frame(
                        frame,
                        node,
                        from + 1,
                        updated,
                        program_counter,
                        target,
                        after,
                        fuel,
                    );
                }
            }
        }
    }

    /// Resolving an entry changes no more than may change.
    pub(crate) proof fn lemma_child_frame(
        self,
        frame: Frame,
        child: int,
        parent: VariableView,
        program_counter: u64,
        target: Target,
        cache: CacheView,
        fuel: nat,
    )
        requires
            frame.wf(),
            frame.keeps(cache),
            frame.free(parent),
        ensures
            ({
                let outcome = self.child_processed(
                    child,
                    parent,
                    program_counter,
                    target,
                    cache,
                    fuel,
                );
                &&& frame.keeps(outcome.0)
                &&& outcome.1 matches Ok(updated) ==> still(updated, parent)
            }),
        decreases fuel, 4int, 0int,
    {
        let tag = self.entries@[child].tag;
        if tag == DW_TAG_NAMESPACE {
            self.lemma_namespace_frame(frame, child, parent, target, cache, fuel);
        } else if tag == DW_TAG_VARIABLE || tag == DW_TAG_MEMBER || tag == DW_TAG_ENUMERATOR {
            self.lemma_member_frame(frame, child, parent, target, cache, fuel);
        } else if tag == DW_TAG_VARIANT_PART {
            self.lemma_variant_part_frame(frame, child, parent, target, cache, fuel);
        } else if tag == DW_TAG_VARIANT {
            self.lemma_variant_frame(frame, child, parent, target, cache, fuel);
        } else if tag == DW_TAG_SUBRANGE_TYPE {
            self.lemma_subrange_frame(frame, child, parent, target, cache, fuel);
        } else if tag == DW_TAG_LEXICAL_BLOCK {
            self.lemma_block_frame(frame, child, parent, program_counter, target, cache, fuel);
        }
    }

    /// Resolving a namespace changes no more than may change.
    pub(crate) proof fn lemma_namespace_frame(
        self,
        frame: Frame,
        child: int,
        parent: VariableView,
        target: Target,
        cache: CacheView,
        fuel: nat,
    )
        requires
            frame.wf(),
            frame.keeps(cache),
            frame.free(parent),
        ensures
            ({
                let outcome = self.namespace_processed(child, parent, target, cache, fuel);
                &&& frame.keeps(outcome.0)
                &&& outcome.1 matches Ok(updated) ==> still(updated, parent)
            }),
        decreases fuel, 3int, 0int,
    {
        if let Ok(name) = namespace_name(self.entries@[child], None) {
            let fresh = self.namespace_of(child, name);
            lemma_store_new(frame, cache, parent.variable_key, fresh, target);
            let (after, result) = cache.stored(Some(parent.variable_key), fresh, target);
            if let Ok(namespace) = result {
                self.lemma_namespace_children_frame(
                    frame,
                    child,
                    0,
                    namespace,
                    target,
                    after,
                    fuel,
                );
                let (after, result) = self.namespace_children_from(
                    child,
                    0,
                    namespace,
                    target,
                    after,
                    fuel,
                );
                if let Ok(namespace) = result {
                    lemma_prune(frame, after, namespace.variable_key, true);
                }
            }
        }
    }

    /// Resolving the children of a namespace changes no more than may change.
    pub(crate) proof fn lemma_namespace_children_frame(
        self,
        frame: Frame,
        node: int,
        from: int,
        namespace: VariableView,
        target: Target,
        cache: CacheView,
        fuel: nat,
    )
        requires
            frame.wf(),
            frame.keeps(cache),
            frame.free(namespace),
        ensures
            ({
                let outcome = self.namespace_children_from(
                    node,
                    from,
                    namespace,
                    target,
                    cache,
                    fuel,
                );
                &&& frame.keeps(outcome.0)
                &&& outcome.1 matches Ok(updated) ==> still(updated, namespace)
            }),
        decreases fuel, 2int, self.entries@[node].children@.len() - from,
    {
        let children = self.entries@[node].children@;
        if from < children.len() {
            if let Some(child) = self.entry_at(children[from]) {
                self.lemma_namespace_child_frame(frame, child, namespace, target, cache, fuel);
                let (after, result) = self.namespace_child_processed(
                    child,
                    namespace,
                    target,
                    cache,
                    fuel,
                );
                if let Ok(updated) = result {
                    self.lemma_namespace_children_frame(
                        frame,
                        node,
                        from + 1,
                        updated,
                        target,
                        after,
                        fuel,
                    );
                }
            }
        }
    }

    /// Resolving an entry of a namespace changes no more than may change.
    pub(crate) proof fn lemma_namespace_child_frame(
        self,
        frame: Frame,
        child: int,
        namespace: VariableView,
        target: Target,
        cache: CacheView,
        fuel: nat,
    )
        requires
            frame.wf(),
            frame.keeps(cache),
            frame.free(namespace),
        ensures
            ({
                let outcome = self.namespace_child_processed(child, namespace, target, cache, fuel);
                &&& frame.keeps(outcome.0)
                &&& outcome.1 matches Ok(updated) ==> still(updated, namespace)
            }),
        decreases fuel, 1int, 0int,
    {
        let tag = self.entries@[child].tag;
        if tag == DW_TAG_VARIABLE {
            let fresh = self.variable_of(child);
            lemma_store_new(frame, cache, namespace.variable_key, fresh, target);
            let (after, result) = cache.stored(Some(namespace.variable_key), fresh, target);
            if let Ok(variable) = result {
                self.lemma_attributes_frame(
                    frame,
                    child,
                    namespace,
                    variable,
                    target,
                    after,
                    fuel,
                );
            }
        } else if tag == DW_TAG_NAMESPACE {
            if let Ok(name) = namespace_name(self.entries@[child], Some(namespace.name)) {
                let fresh = self.namespace_of(child, name);
                lemma_store_new(frame, cache, namespace.variable_key, fresh, target);
                let (after, result) = cache.stored(Some(namespace.variable_key), fresh, target);
                if let Ok(inner) = result {
                    self.lemma_tree_frame(frame, child, inner, target, after, fuel);
                    let (after, result) = self.tree_processed(child, inner, target, after, fuel);
                    if let Ok(inner) = result {
                        lemma_prune(frame, after, inner.variable_key, true);
                    }
                }
            }
        }
    }

    /// Resolving a member changes no more than may change.
    pub(crate) proof fn lemma_member_frame(
        self,
        frame: Frame,
        child: int,
        parent: VariableView,
        target: Target,
        cache: CacheView,
        fuel: nat,
    )
        requires
            frame.wf(),
            frame.keeps(cache),
            frame.free(parent),
        ensures
            ({
                let outcome = self.member_processed(child, parent, target, cache, fuel);
                &&& frame.keeps(outcome.0)
                &&& outcome.1 matches Ok(updated) ==> still(updated, parent)
            }),
        decreases fuel, 3int, 0int,
    {
        let fresh = self.variable_of(child);
        lemma_store_new(frame, cache, parent.variable_key, fresh, target);
        let (after, result) = cache.stored(Some(parent.variable_key), fresh, target);
        if let Ok(variable) = result {
            self.lemma_attributes_frame(frame, child, parent, variable, target, after, fuel);
            let (after, updated, result) = self.attributes_processed(
                child,
                parent,
                variable,
                target,
                after,
                fuel,
            );
            if let Ok(variable) = result {
                lemma_prune(frame, after, variable.variable_key, true);
                self.lemma_tree_frame(frame, child, variable, target, after, fuel);
            }
        }
    }

    /// Resolving a variant part changes no more than may change.
    pub(crate) proof fn lemma_variant_part_frame(
        self,
        frame: Frame,
        child: int,
        parent: VariableView,
        target: Target,
        cache: CacheView,
        fuel: nat,
    )
        requires
            frame.wf(),
            frame.keeps(cache),
            frame.free(parent),
        ensures
            ({
                let outcome = self.variant_part_processed(child, parent, target, cache, fuel);
                &&& frame.keeps(outcome.0)
                &&& outcome.1 matches Ok(updated) ==> still(updated, parent)
            }),
        decreases fuel, 3int, 0int,
    {
        let part = Variable { role: VariantRole::VariantPart(u64::MAX), ..parent };
        let fresh = self.variable_of(child);
        lemma_store_new(frame, cache, parent.variable_key, fresh, target);
        let (after, result) = cache.stored(Some(parent.variable_key), fresh, target);
        if let Ok(variable) = result {
            self.lemma_attributes_frame(frame, child, part, variable, target, after, fuel);
            let (after, updated, result) = self.attributes_processed(
                child,
                part,
                variable,
                target,
                after,
                fuel,
            );
            if let Ok(variable) = result {
                lemma_prune(frame, after, variable.variable_key, true);
                let (after, result) = after.removed(variable.variable_key);
                if result is Ok {
                    self.lemma_tree_frame(frame, child, updated, target, after, fuel);
                }
            }
        }
    }

    /// Resolving a variant changes no more than may change.
    pub(crate) proof fn lemma_variant_frame(
        self,
        frame: Frame,
        child: int,
        parent: VariableView,
        target: Target,
        cache: CacheView,
        fuel: nat,
    )
        requires
            frame.wf(),
            frame.keeps(cache),
            frame.free(parent),
        ensures
            ({
                let outcome = self.variant_processed(child, parent, target, cache, fuel);
                &&& frame.keeps(outcome.0)
                &&& outcome.1 matches Ok(updated) ==> still(updated, parent)
            }),
        decreases fuel, 3int, 0int,
    {
        if !cache.has_children(parent.variable_key) {
            let fresh = self.variable_of(child);
            lemma_store_new(frame, cache, parent.variable_key, fresh, target);
            let (after, result) = cache.stored(Some(parent.variable_key), fresh, target);
            if let Ok(variable) = result {
                let variable = discriminated(variable, self.entries@[child]);
                self.lemma_attributes_frame(frame, child, parent, variable, target, after, fuel);
                let (after, updated, result) = self.attributes_processed(
                    child,
                    parent,
                    variable,
                    target,
                    after,
                    fuel,
                );
                if let Ok(variable) = result {
                    lemma_prune(frame, after, variable.variable_key, true);
                    self.lemma_variant_adopted_frame(
                        frame,
                        child,
                        updated,
                        Variable { memory_location: updated.memory_location, ..variable },
                        target,
                        after,
                        fuel,
                    );
                }
            }
        }
    }

    /// Moving the parts of a variant changes no more than may change.
    pub(crate) proof fn lemma_variant_adopted_frame(
        self,
        frame: Frame,
        child: int,
        parent: VariableView,
        variable: VariableView,
        target: Target,
        cache: CacheView,
        fuel: nat,
    )
        requires
            frame.wf(),
            frame.keeps(cache),
            frame.free(parent),
            frame.is_new(variable.variable_key),
            frame.free(variable),
        ensures
            ({
                let outcome = self.variant_adopted(child, parent, variable, target, cache, fuel);
                &&& frame.keeps(outcome.0)
                &&& outcome.1 matches Ok(updated) ==> still(updated, parent)
            }),
        decreases fuel, 1int, 0int,
    {
        self.lemma_tree_frame(frame, child, variable, target, cache, fuel);
        let (after, result) = self.tree_processed(child, variable, target, cache, fuel);
        if let Ok(variable) = result {
            lemma_adopt(frame, after, parent.variable_key, variable.variable_key);
        }
    }

    /// Reading the bounds of an array changes no more than may change.
    pub(crate) proof fn lemma_subrange_frame(
        self,
        frame: Frame,
        child: int,
        parent: VariableView,
        target: Target,
        cache: CacheView,
        fuel: nat,
    )
        requires
            frame.wf(),
            frame.keeps(cache),
            frame.free(parent),
        ensures
            ({
                let outcome = self.subrange_processed(child, parent, target, cache, fuel);
                &&& frame.keeps(outcome.0)
                &&& outcome.1 matches Ok(updated) ==> still(updated, parent)
            }),
        decreases fuel, 3int, 0int,
    {
        let fresh = self.variable_of(child);
        lemma_store_new(frame, cache, parent.variable_key, fresh, target);
        let (after, result) = cache.stored(Some(parent.variable_key), fresh, target);
        if let Ok(variable) = result {
            self.lemma_attributes_frame(frame, child, parent, variable, target, after, fuel);
            let (after, updated, result) = self.attributes_processed(
                child,
                parent,
                variable,
                target,
                after,
                fuel,
            );
            if let Ok(variable) = result {
                lemma_prune(frame, after, variable.variable_key, true);
            }
        }
    }

    /// Resolving a block changes no more than may change.
    pub(crate) proof fn lemma_block_frame(
        self,
        frame: Frame,
        child: int,
        parent: VariableView,
        program_counter: u64,
        target: Target,
        cache: CacheView,
        fuel: nat,
    )
        requires
            frame.wf(),
            frame.keeps(cache),
            frame.free(parent),
        ensures
            ({
                let outcome = self.block_processed(
                    child,
                    parent,
                    program_counter,
                    target,
                    cache,
                    fuel,
                );
                &&& frame.keeps(outcome.0)
                &&& outcome.1 matches Ok(updated) ==> still(updated, parent)
            }),
        decreases fuel, 3int, 0int,
    {
        lemma_scope_place(self.entries@[child], parent, program_counter);
        if let Ok((updated, in_scope)) = scope_of(self.entries@[child], parent, program_counter) {
            if in_scope {
                self.lemma_tree_frame(frame, child, updated, target, cache, fuel);
            }
        }
    }

    /// Resolving a variable from its attributes changes no more than may change, and of the parent
    /// only its role.
    pub(crate) proof fn lemma_attributes_frame(
        self,
        frame: Frame,
        node: int,
        parent: VariableView,
        variable: VariableView,
        target: Target,
        cache: CacheView,
        fuel: nat,
    )
        requires
            frame.wf(),
            frame.keeps(cache),
            frame.holder(parent.variable_key),
            variable.variable_key == frame.key && frame.parts || frame.is_new(
                variable.variable_key,
            ),
        ensures
            ({
                let outcome = self.attributes_processed(
                    node,
                    parent,
                    variable,
                    target,
                    cache,
                    fuel,
                );
                &&& frame.keeps(outcome.0)
                &&& outcome.1 == Variable { role: outcome.1.role, ..parent }
                &&& outcome.2 matches Ok(updated) ==> same_entry(
                    updated,
                    Variable { parent_key: Some(parent.variable_key), ..variable },
                )
                &&& outcome.2 matches Ok(updated) ==> latest(outcome.0, updated)
            }),
        decreases fuel, 0int, 0int,
    {
        if fuel > 0 {
            let placed = Variable { parent_key: Some(parent.variable_key), ..variable };
            if let Ok((origin, found)) = self.origin_of(node, placed) {
                assert(same_entry(found, placed));
                if let Ok(named) = self.named_by(origin, found) {
                    assert(same_entry(named, placed));
                    self.lemma_location_frame(frame, node, parent, named, target, cache);
                    let (after, result) = self.location_extracted(
                        node,
                        parent,
                        named,
                        target,
                        cache,
                    );
                    if let Ok(located) = result {
                        self.lemma_attributes_stored_frame(
                            frame,
                            node,
                            origin,
                            parent,
                            located,
                            target,
                            after,
                            (fuel - 1) as nat,
                        );
                    }
                }
            }
        }
    }

    /// Storing a variable with all its attributes changes no more than may change.
    pub(crate) proof fn lemma_attributes_stored_frame(
        self,
        frame: Frame,
        node: int,
        origin: Option<int>,
        parent: VariableView,
        variable: VariableView,
        target: Target,
        cache: CacheView,
        fuel: nat,
    )
        requires
            frame.wf(),
            frame.keeps(cache),
            frame.holder(parent.variable_key),
            variable.variable_key == frame.key && frame.parts || frame.is_new(
                variable.variable_key,
            ),
            variable.parent_key == Some(parent.variable_key),
        ensures
            ({
                let outcome = self.attributes_stored(
                    node,
                    origin,
                    parent,
                    variable,
                    target,
                    cache,
                    fuel,
                );
                &&& frame.keeps(outcome.0)
                &&& outcome.1 == Variable { role: outcome.1.role, ..parent }
                &&& outcome.2 matches Ok(updated) ==> same_entry(
                    updated,
                    Variable { parent_key: Some(parent.variable_key), ..variable },
                )
                &&& outcome.2 matches Ok(updated) ==> latest(outcome.0, updated)
            }),
        decreases fuel, 4int, 0int,
    {
        lemma_key_positive(frame);
        match origin {
            Some(origin) => {
                self.lemma_attributes_from_frame(
                    frame,
                    node,
                    origin,
                    0,
                    parent,
                    variable,
                    target,
                    cache,
                    fuel,
                );
                let (after, updated, result) = self.attributes_from(
                    node,
                    origin,
                    0,
                    parent,
                    variable,
                    target,
                    cache,
                    fuel,
                );
                if let Ok(variable) = result {
                    lemma_store(frame, after, variable.parent_key, variable, target);
                }
            },
            None => {
                lemma_store(frame, cache, variable.parent_key, variable, target);
            },
        }
    }

    /// Applying attributes changes no more than may change.
    pub(crate) proof fn lemma_attributes_from_frame(
        self,
        frame: Frame,
        node: int,
        origin: int,
        from: int,
        parent: VariableView,
        variable: VariableView,
        target: Target,
        cache: CacheView,
        fuel: nat,
    )
        requires
            frame.wf(),
            frame.keeps(cache),
            frame.holder(parent.variable_key),
            variable.variable_key == frame.key && frame.parts || frame.is_new(
                variable.variable_key,
            ),
            variable.parent_key == Some(parent.variable_key),
        ensures
            ({
                let outcome = self.attributes_from(
                    node,
                    origin,
                    from,
                    parent,
                    variable,
                    target,
                    cache,
                    fuel,
                );
                &&& frame.keeps(outcome.0)
                &&& outcome.1 == Variable { role: outcome.1.role, ..parent }
                &&& outcome.2 matches Ok(updated) ==> same_entry(
                    updated,
                    Variable { parent_key: Some(parent.variable_key), ..variable },
                )
            }),
        decreases fuel, 3int, self.entries@[origin].attributes@.len() - from,
    {
        let attributes = self.entries@[origin].attributes@;
        if from < attributes.len() {
            let attribute = attributes[from];
            self.lemma_attribute_frame(
                frame,
                node,
                attribute,
                parent,
                variable,
                target,
                cache,
                fuel,
            );
            let (after, updated, result) = self.attribute_applied(
                node,
                attribute,
                parent,
                variable,
                target,
                cache,
                fuel,
            );
            if let Ok(variable) = result {
                self.lemma_attributes_from_frame(
                    frame,
                    node,
                    origin,
                    from + 1,
                    updated,
                    variable,
                    target,
                    after,
                    fuel,
                );
            }
        }
    }

    /// Applying an attribute changes no more than may change.
    pub(crate) proof fn lemma_attribute_frame(
        self,
        frame: Frame,
        node: int,
        attribute: Attribute,
        parent: VariableView,
        variable: VariableView,
        target: Target,
        cache: CacheView,
        fuel: nat,
    )
        requires
            frame.wf(),
            frame.keeps(cache),
            frame.holder(parent.variable_key),
            variable.variable_key == frame.key && frame.parts || frame.is_new(
                variable.variable_key,
            ),
            variable.parent_key == Some(parent.variable_key),
        ensures
            ({
                let outcome = self.attribute_applied(
                    node,
                    attribute,
                    parent,
                    variable,
                    target,
                    cache,
                    fuel,
                );
                &&& frame.keeps(outcome.0)
                &&& outcome.1 == Variable { role: outcome.1.role, ..parent }
                &&& outcome.2 matches Ok(updated) ==> same_entry(
                    updated,
                    Variable { parent_key: Some(parent.variable_key), ..variable },
                )
            }),
        decreases fuel, 2int, 0int,
    {
        if attribute.name == DW_AT_TYPE {
            if let AttributeValue::UnitRef(offset) = attribute.value {
                if let Some(type_node) = self.entry_at(offset) {
                    self.lemma_type_frame(frame, type_node, parent, variable, target, cache, fuel);
                }
            }
        } else if attribute.name == DW_AT_DISCR {
            if let AttributeValue::UnitRef(offset) = attribute.value {
                self.lemma_discriminant_frame(frame, offset, parent, target, cache, fuel);
            }
        } else {
            assert(same_entry(self.described_by(node, attribute, variable), variable));
        }
    }

    /// Finding out the active variant changes no more than may change.
    pub(crate) proof fn lemma_discriminant_frame(
        self,
        frame: Frame,
        offset: usize,
        parent: VariableView,
        target: Target,
        cache: CacheView,
        fuel: nat,
    )
        requires
            frame.wf(),
            frame.keeps(cache),
            frame.holder(parent.variable_key),
        ensures
            ({
                let outcome = self.discriminant_resolved(offset, parent, target, cache, fuel);
                &&& frame.keeps(outcome.0)
                &&& outcome.1 == Variable { role: outcome.1.role, ..parent }
            }),
        decreases fuel, 1int, 0int,
    {
        if let Some(node) = self.entry_at(offset) {
            let fresh = self.variable_of(node);
            lemma_store_new(frame, cache, parent.variable_key, fresh, target);
            let (after, result) = cache.stored(Some(parent.variable_key), fresh, target);
            if let Ok(discriminant) = result {
                self.lemma_attributes_frame(
                    frame,
                    node,
                    parent,
                    discriminant,
                    target,
                    after,
                    fuel,
                );
                let (after, updated, result) = self.attributes_processed(
                    node,
                    parent,
                    discriminant,
                    target,
                    after,
                    fuel,
                );
                if let Ok(discriminant) = result {
                    lemma_prune(frame, after, discriminant.variable_key, true);
                }
            }
        }
    }

    /// Giving a variable its type changes no more than may change.
    pub(crate) proof fn lemma_type_frame(
        self,
        frame: Frame,
        node: int,
        parent: VariableView,
        variable: VariableView,
        target: Target,
        cache: CacheView,
        fuel: nat,
    )
        requires
            frame.wf(),
            frame.keeps(cache),
            variable.variable_key != frame.key ==> frame.holder(parent.variable_key),
            variable.variable_key == frame.key ==> frame.parts,
            frame.free(variable),
        ensures
            ({
                let outcome = self.type_extracted(node, parent, variable, target, cache, fuel);
                &&& frame.keeps(outcome.0)
                &&& outcome.1 matches Ok(updated) ==> latest(outcome.0, updated) && retyped(
                    updated,
                    Variable { parent_key: Some(parent.variable_key), ..variable },
                )
                &&& outcome.1 matches Ok(updated) ==> (variable.member_index is None
                    ==> updated.memory_location == variable.memory_location)
                &&& outcome.1 matches Ok(updated) ==> (variable.valid()
                    && self.entries@[node].attribute(DW_AT_NAME) is Ok ==> updated.byte_size
                    == self.entries@[node].size_in_bytes())
            }),
        decreases fuel, 0int, 0int,
    {
        lemma_key_positive(frame);
        if fuel > 0 {
            let (named, text) = match self.entries@[node].attribute(DW_AT_NAME) {
                Ok(Some(attribute)) => (variable, Some(attribute.text@)),
                Ok(None) => (variable, None),
                Err(error) => {
                    let message = "Error: evaluating type name: "@ + error + " "@;
                    (variable.with_error(message), Some(message))
                },
            };
            if named.valid() {
                let sized = Variable {
                    variable_node_type: if shown_at_once(named.variable_type) {
                        VariableNodeType::RecurseToBaseType
                    } else {
                        named.variable_node_type
                    },
                    byte_size: self.entries@[node].size_in_bytes(),
                    ..named
                };
                self.lemma_typed_frame(
                    frame,
                    node,
                    parent,
                    sized,
                    text,
                    target,
                    cache,
                    (fuel - 1) as nat,
                );
                let (after, result) = self.typed(
                    node,
                    parent,
                    sized,
                    text,
                    target,
                    cache,
                    (fuel - 1) as nat,
                );
                if let Ok(updated) = result {
                    lemma_store(frame, after, Some(parent.variable_key), updated, target);
                }
            } else {
                lemma_store(frame, cache, Some(parent.variable_key), named, target);
            }
        }
    }

    /// Giving a variable a type by its tag changes no more than may change.
    pub(crate) proof fn lemma_typed_frame(
        self,
        frame: Frame,
        node: int,
        parent: VariableView,
        variable: VariableView,
        text: Option<Seq<char>>,
        target: Target,
        cache: CacheView,
        fuel: nat,
    )
        requires
            frame.wf(),
            frame.keeps(cache),
            frame.free(variable),
            variable.variable_key == frame.key ==> frame.parts,
        ensures
            ({
                let outcome = self.typed(node, parent, variable, text, target, cache, fuel);
                &&& frame.keeps(outcome.0)
                &&& outcome.1 matches Ok(updated) ==> retyped(updated, variable)
                &&& outcome.1 matches Ok(updated) ==> updated.byte_size == variable.byte_size
                &&& outcome.1 matches Ok(updated) ==> (variable.member_index is None
                    ==> updated.memory_location == variable.memory_location)
            }),
        decreases fuel, 5int, 0int,
    {
        let tag = self.entries@[node].tag;
        if tag == DW_TAG_POINTER_TYPE {
            let pointer = Variable { variable_type: VariableType::Pointer(text), ..variable };
            lemma_expand(frame, cache, variable.variable_key);
            assert(self.pointer_typed(node, pointer, cache).1 matches Ok(updated) ==> retyped(
                updated,
                variable,
            ));
        } else if tag == DW_TAG_STRUCTURE_TYPE {
            if let Ok(placed) = indexed(variable, parent) {
                self.lemma_structure_frame(
                    frame,
                    node,
                    Variable { variable_type: VariableType::Struct(or_unnamed(text)), ..placed },
                    target,
                    cache,
                    fuel,
                );
            }
        } else if tag == DW_TAG_ENUMERATION_TYPE {
            let enumeration = Variable {
                variable_type: VariableType::Enum(or_unnamed(text)),
                ..variable
            };
            self.lemma_tree_frame(frame, node, enumeration, target, cache, fuel);
            let (after, result) = self.tree_processed(node, enumeration, target, cache, fuel);
            if let Ok(updated) = result {
                lemma_prune(frame, after, updated.variable_key, false);
            }
        } else if tag == DW_TAG_ARRAY_TYPE {
            self.lemma_array_frame(frame, node, variable, target, cache, fuel);
        } else if tag == DW_TAG_UNION_TYPE {
            if let Ok(placed) = indexed(variable, parent) {
                self.lemma_tree_frame(frame, node, placed, target, cache, fuel);
            }
        } else if tag == DW_TAG_SUBROUTINE_TYPE {
            assert(self.subroutine_typed(node, variable) matches Ok(updated) ==> retyped(
                updated,
                variable,
            ));
        } else if tag == DW_TAG_COMPILE_UNIT {
            self.lemma_tree_frame(frame, node, variable, target, cache, fuel);
        } else if tag != DW_TAG_BASE_TYPE {
            lemma_prune(frame, cache, variable.variable_key, false);
        }
    }

    /// Giving a variable a structure type changes no more than may change.
    pub(crate) proof fn lemma_structure_frame(
        self,
        frame: Frame,
        node: int,
        variable: VariableView,
        target: Target,
        cache: CacheView,
        fuel: nat,
    )
        requires
            frame.wf(),
            frame.keeps(cache),
            frame.free(variable),
        ensures
            ({
                let outcome = self.structure_typed(node, variable, target, cache, fuel);
                &&& frame.keeps(outcome.0)
                &&& outcome.1 matches Ok(updated) ==> retyped(updated, variable)
                &&& outcome.1 matches Ok(updated) ==> updated.byte_size == variable.byte_size
                    && updated.memory_location == variable.memory_location
            }),
        decreases fuel, 4int, 0int,
    {
        self.lemma_tree_frame(frame, node, variable, target, cache, fuel);
    }

    /// Giving a variable an array type changes no more than may change.
    pub(crate) proof fn lemma_array_frame(
        self,
        frame: Frame,
        node: int,
        variable: VariableView,
        target: Target,
        cache: CacheView,
        fuel: nat,
    )
        requires
            frame.wf(),
            frame.keeps(cache),
            frame.free(variable),
        ensures
            ({
                let outcome = self.array_typed(node, variable, target, cache, fuel);
                &&& frame.keeps(outcome.0)
                &&& outcome.1 matches Ok(updated) ==> retyped(updated, variable)
                &&& outcome.1 matches Ok(updated) ==> updated.byte_size == variable.byte_size
                    && updated.memory_location == variable.memory_location
            }),
        decreases fuel, 4int, 0int,
    {
        if let TypeReference::Entry(offset) = type_reference(
            self.entries@[node].attribute(DW_AT_TYPE),
        ) {
            let fresh = self.variable_of(node);
            lemma_store_new(frame, cache, variable.variable_key, fresh, target);
            let (after, result) = cache.stored(Some(variable.variable_key), fresh, target);
            if let Ok(range) = result {
                self.lemma_tree_frame(frame, node, range, target, after, fuel);
                let (after, result) = self.tree_processed(node, range, target, after, fuel);
                if let Ok(range) = result {
                    lemma_prune(frame, after, range.variable_key, true);
                    let (after, result) = after.removed(range.variable_key);
                    if result is Ok {
                        self.lemma_elements_frame(
                            frame,
                            offset,
                            range.range_lower_bound as int,
                            range.range_upper_bound,
                            bounded(variable, range),
                            target,
                            after,
                            fuel,
                        );
                    }
                }
            }
        }
    }

    /// Resolving the elements of an array changes no more than may change.
    pub(crate) proof fn lemma_elements_frame(
        self,
        frame: Frame,
        offset: usize,
        from: int,
        upper_bound: i64,
        array: VariableView,
        target: Target,
        cache: CacheView,
        fuel: nat,
    )
        requires
            frame.wf(),
            frame.keeps(cache),
            frame.free(array),
        ensures
            ({
                let outcome = self.elements_from(
                    offset,
                    from,
                    upper_bound,
                    array,
                    target,
                    cache,
                    fuel,
                );
                &&& frame.keeps(outcome.0)
                &&& outcome.1 matches Ok(updated) ==> retyped(updated, array)
                &&& outcome.1 matches Ok(updated) ==> updated.byte_size == array.byte_size
                    && updated.memory_location == array.memory_location
            }),
        decreases fuel, 3int, upper_bound - from,
    {
        if from < upper_bound {
            let index = from as i64;
            self.lemma_element_frame(
                frame,
                offset,
                index,
                upper_bound,
                array,
                target,
                cache,
                fuel,
            );
            let (after, result) = self.element_processed(
                offset,
                index,
                upper_bound,
                array,
                target,
                cache,
                fuel,
            );
            if let Ok(updated) = result {
                self.lemma_elements_frame(
                    frame,
                    offset,
                    from + 1,
                    upper_bound,
                    updated,
                    target,
                    after,
                    fuel,
                );
            }
        }
    }

    /// Resolving an element of an array changes no more than may change.
    pub(crate) proof fn lemma_element_frame(
        self,
        frame: Frame,
        offset: usize,
        index: i64,
        upper_bound: i64,
        array: VariableView,
        target: Target,
        cache: CacheView,
        fuel: nat,
    )
        requires
            frame.wf(),
            frame.keeps(cache),
            frame.free(array),
        ensures
            ({
                let outcome = self.element_processed(
                    offset,
                    index,
                    upper_bound,
                    array,
                    target,
                    cache,
                    fuel,
                );
                &&& frame.keeps(outcome.0)
                &&& outcome.1 matches Ok(updated) ==> retyped(updated, array)
                &&& outcome.1 matches Ok(updated) ==> updated.byte_size == array.byte_size
                    && updated.memory_location == array.memory_location
            }),
        decreases fuel, 2int, 0int,
    {
        if let Some(node) = self.entry_at(offset) {
            let fresh = self.variable_of(node);
            lemma_store_new(frame, cache, array.variable_key, fresh, target);
            let (after, result) = cache.stored(Some(array.variable_key), fresh, target);
            if let Ok(element) = result {
                self.lemma_attributes_frame(frame, node, array, element, target, after, fuel);
                let (after, updated, result) = self.attributes_processed(
                    node,
                    array,
                    element,
                    target,
                    after,
                    fuel,
                );
                if let Ok(element) = result {
                    let typed = Variable {
                        variable_type: VariableType::Array {
                            count: upper_bound as usize,
                            entry_type: element.name,
                        },
                        ..updated
                    };
                    self.lemma_type_frame(
                        frame,
                        node,
                        typed,
                        element_of(element, typed, index),
                        target,
                        after,
                        fuel,
                    );
                }
            }
        }
    }

    /// Resolving what is below an entry leaves alone every variable that is neither the parent nor
    /// a part of it. What it adds to the cache is a part of the parent, and nothing that was gone
    /// comes back. Of the parent itself no more changes than its type, its value, its bounds and
    /// its part in a type with variants.
    pub proof fn law_tree_frame(
        self,
        node: int,
        parent: VariableView,
        target: Target,
        cache: CacheView,
        fuel: nat,
    )
        requires
            cache.wf(),
            cache.has(parent.variable_key),
        ensures
            ({
                let outcome = self.tree_processed(node, parent, target, cache, fuel);
                &&& outside_kept(cache, outcome.0, parent.variable_key)
                &&& nothing_revived(cache, outcome.0)
                &&& forall|i: int| #![trigger outcome.0.entries[i]]
                    added(cache, outcome.0, i) ==> below(
                        outcome.0.entries,
                        outcome.0.entries[i],
                        parent.variable_key,
                    )
                &&& outcome.1 matches Ok(updated) ==> still(updated, parent)
            }),
    {
        let key = parent.variable_key;
        let frame = Frame { base: cache, key, parent: key, parts: true };
        lemma_outset(frame);
        self.lemma_tree_frame(frame, node, parent, target, cache, fuel);
        let after = self.tree_processed(node, parent, target, cache, fuel).0;
        lemma_frame_told(frame, after);
        assert forall|i: int| #![trigger after.entries[i]] added(cache, after, i) implies below(
            after.entries,
            after.entries[i],
            key,
        ) by {
            lemma_added_below(frame, after, i);
        }
    }

    /// Resolving a variable from its attributes leaves alone every variable that is neither the
    /// variable nor a part of it, and of the parent in hand all but its role. What it adds to the
    /// cache is a part of the variable or of the parent, and nothing that was gone comes back. The
    /// variable is described by the same entry as before.
    pub proof fn law_attributes_frame(
        self,
        node: int,
        parent: VariableView,
        variable: VariableView,
        target: Target,
        cache: CacheView,
        fuel: nat,
    )
        requires
            cache.wf(),
            cache.has(variable.variable_key),
        ensures
            ({
                let outcome = self.attributes_processed(
                    node,
                    parent,
                    variable,
                    target,
                    cache,
                    fuel,
                );
                &&& outside_kept(cache, outcome.0, variable.variable_key)
                &&& nothing_revived(cache, outcome.0)
                &&& forall|i: int| #![trigger outcome.0.entries[i]]
                    added(cache, outcome.0, i) ==> below(
                        outcome.0.entries,
                        outcome.0.entries[i],
                        variable.variable_key,
                    ) || below(
                        outcome.0.entries,
                        outcome.0.entries[i],
                        parent.variable_key,
                    )
                &&& outcome.1 == Variable { role: outcome.1.role, ..parent }
                &&& outcome.2 matches Ok(updated) ==> same_entry(
                    updated,
                    Variable { parent_key: Some(parent.variable_key), ..variable },
                )
            }),
    {
        let key = variable.variable_key;
        let frame = Frame { base: cache, key, parent: parent.variable_key, parts: true };
        lemma_outset(frame);
        self.lemma_attributes_frame(frame, node, parent, variable, target, cache, fuel);
        let after = self.attributes_processed(node, parent, variable, target, cache, fuel).0;
        lemma_frame_told(frame, after);
        assert forall|i: int| #![trigger after.entries[i]] added(cache, after, i) implies below(
            after.entries,
            after.entries[i],
            key,
        ) || below(after.entries, after.entries[i], parent.variable_key) by {
            lemma_added_below(frame, after, i);
        }
    }

    /// Giving a variable its type leaves alone every variable that is neither the variable nor a
    /// part of it. What it adds to the cache is a part of the variable, and nothing that was gone
    /// comes back. The variable keeps its name and where it is declared, and gets the size of the
    /// type; and its place stays, unless it is an element of an array.
    pub proof fn law_type_frame(
        self,
        node: int,
        parent: VariableView,
        variable: VariableView,
        target: Target,
        cache: CacheView,
        fuel: nat,
    )
        requires
            cache.wf(),
            cache.has(variable.variable_key),
        ensures
            ({
                let outcome = self.type_extracted(node, parent, variable, target, cache, fuel);
                &&& outside_kept(cache, outcome.0, variable.variable_key)
                &&& nothing_revived(cache, outcome.0)
                &&& forall|i: int| #![trigger outcome.0.entries[i]]
                    added(cache, outcome.0, i) ==> below(
                        outcome.0.entries,
                        outcome.0.entries[i],
                        variable.variable_key,
                    )
                &&& outcome.1 matches Ok(updated) ==> retyped(
                    updated,
                    Variable { parent_key: Some(parent.variable_key), ..variable },
                )
                &&& outcome.1 matches Ok(updated) ==> (variable.member_index is None
                    ==> updated.memory_location == variable.memory_location)
                &&& outcome.1 matches Ok(updated) ==> (variable.valid()
                    && self.entries@[node].attribute(DW_AT_NAME) is Ok ==> updated.byte_size
                    == self.entries@[node].size_in_bytes())
            }),
    {
        let key = variable.variable_key;
        let frame = Frame { base: cache, key, parent: key, parts: true };
        lemma_outset(frame);
        self.lemma_type_frame(frame, node, parent, variable, target, cache, fuel);
        let after = self.type_extracted(node, parent, variable, target, cache, fuel).0;
        lemma_frame_told(frame, after);
        assert forall|i: int| #![trigger after.entries[i]] added(cache, after, i) implies below(
            after.entries,
            after.entries[i],
            key,
        ) by {
            lemma_added_below(frame, after, i);
        }
    }

    /// A namespace is kept only where it holds something.
    pub proof fn law_no_empty_namespace(
        self,
        child: int,
        parent: VariableView,
        target: Target,
        cache: CacheView,
        fuel: nat,
    )
        requires
            cache.wf(),
            cache.has(parent.variable_key),
        ensures
            ({
                let outcome = self.namespace_processed(child, parent, target, cache, fuel);
                outcome.1 is Ok && outcome.0.has(cache.next_key) ==> outcome.0.has_children(
                    cache.next_key,
                )
            }),
    {
        let key = parent.variable_key;
        let frame = Frame { base: cache, key, parent: key, parts: true };
        lemma_outset(frame);
        if let Ok(name) = namespace_name(self.entries@[child], None) {
            let fresh = self.namespace_of(child, name);
            lemma_store_new(frame, cache, key, fresh, target);
            let (after, result) = cache.stored(Some(key), fresh, target);
            if let Ok(namespace) = result {
                self.lemma_namespace_children_frame(
                    frame,
                    child,
                    0,
                    namespace,
                    target,
                    after,
                    fuel,
                );
                let (after, result) = self.namespace_children_from(
                    child,
                    0,
                    namespace,
                    target,
                    after,
                    fuel,
                );
                if result is Ok && after.has(cache.next_key) {
                    law_removed(after, cache.next_key);
                }
            }
        }
    }

    /// A variant that is neither the active one nor the default one leaves neither itself nor any
    /// part of it in the cache.
    pub proof fn law_inactive_variant(
        self,
        child: int,
        parent: VariableView,
        target: Target,
        cache: CacheView,
        fuel: nat,
        discriminant: u64,
        resolved: PairOutcome,
    )
        requires
            cache.wf(),
            cache.has(parent.variable_key),
            !cache.has_children(parent.variable_key),
            cache.stored(Some(parent.variable_key), self.variable_of(child), target).1 matches Ok(
                variable,
            ) && resolved == self.attributes_processed(
                child,
                parent,
                discriminated(variable, self.entries@[child]),
                target,
                cache.stored(Some(parent.variable_key), self.variable_of(child), target).0,
                fuel,
            ),
            resolved.2 matches Ok(variable) && variable.role == VariantRole::Variant(discriminant),
            resolved.1.role != VariantRole::VariantPart(discriminant),
            discriminant != u64::MAX,
        ensures
            ({
                let outcome = self.variant_processed(child, parent, target, cache, fuel);
                outcome.1 is Ok ==> !outcome.0.has(cache.next_key) && forall|
                    variable: VariableView,
                |
                    #[trigger] holds(outcome.0, variable) ==> !below(
                        resolved.0.entries,
                        variable,
                        cache.next_key,
                    )
            }),
    {
        let key = parent.variable_key;
        let frame = Frame { base: cache, key, parent: key, parts: true };
        lemma_outset(frame);
        let fresh = self.variable_of(child);
        lemma_store_new(frame, cache, key, fresh, target);
        let (after, result) = cache.stored(Some(key), fresh, target);
        let variable = discriminated(result->Ok_0, self.entries@[child]);
        self.lemma_attributes_frame(frame, child, parent, variable, target, after, fuel);
        if resolved.0.has(cache.next_key) {
            law_removed(resolved.0, cache.next_key);
        }
    }

    /// A member without data, or one that only tells which variant is active, leaves neither itself
    /// nor any part of it in the cache.
    pub proof fn law_no_data_not_kept(
        self,
        child: int,
        parent: VariableView,
        target: Target,
        cache: CacheView,
        fuel: nat,
        resolved: PairOutcome,
    )
        requires
            cache.wf(),
            cache.has(parent.variable_key),
            cache.stored(Some(parent.variable_key), self.variable_of(child), target).1 matches Ok(
                variable,
            ) && resolved == self.attributes_processed(
                child,
                parent,
                variable,
                target,
                cache.stored(Some(parent.variable_key), self.variable_of(child), target).0,
                fuel,
            ),
            resolved.2 matches Ok(variable) && (variable.variable_type.phantom_data()
                || variable.name is Artifical),
        ensures
            ({
                let outcome = self.member_processed(child, parent, target, cache, fuel);
                outcome.1 is Ok ==> !outcome.0.has(cache.next_key) && forall|
                    variable: VariableView,
                |
                    #[trigger] holds(outcome.0, variable) ==> !below(
                        resolved.0.entries,
                        variable,
                        cache.next_key,
                    )
            }),
    {
        let key = parent.variable_key;
        let frame = Frame { base: cache, key, parent: key, parts: true };
        lemma_outset(frame);
        let fresh = self.variable_of(child);
        lemma_store_new(frame, cache, key, fresh, target);
        let (after, result) = cache.stored(Some(key), fresh, target);
        self.lemma_attributes_frame(frame, child, parent, result->Ok_0, target, after, fuel);
        if resolved.0.has(cache.next_key) {
            law_removed(resolved.0, cache.next_key);
        }
    }

    /// The variable that is made to read the bounds of an array is not kept.
    pub proof fn law_subrange_not_kept(
        self,
        child: int,
        parent: VariableView,
        target: Target,
        cache: CacheView,
        fuel: nat,
    )
        requires
            cache.wf(),
            cache.has(parent.variable_key),
        ensures
            self.subrange_processed(child, parent, target, cache, fuel).1 is Ok
                ==> !self.subrange_processed(child, parent, target, cache, fuel).0.has(
                cache.next_key,
            ),
    {
        let key = parent.variable_key;
        let frame = Frame { base: cache, key, parent: key, parts: true };
        lemma_outset(frame);
        let fresh = self.variable_of(child);
        lemma_store_new(frame, cache, key, fresh, target);
        let (after, result) = cache.stored(Some(key), fresh, target);
        if let Ok(variable) = result {
            self.lemma_attributes_frame(frame, child, parent, variable, target, after, fuel);
            let resolved = self.attributes_processed(child, parent, variable, target, after, fuel);
            if resolved.0.has(cache.next_key) {
                law_removed(resolved.0, cache.next_key);
            }
        }
    }

    /// The variable that is made to find out the active variant is not kept.
    pub proof fn law_discriminant_not_kept(
        self,
        offset: usize,
        parent: VariableView,
        target: Target,
        cache: CacheView,
        fuel: nat,
    )
        requires
            cache.wf(),
            cache.has(parent.variable_key),
        ensures
            self.discriminant_resolved(offset, parent, target, cache, fuel).2 is Ok
                ==> !self.discriminant_resolved(offset, parent, target, cache, fuel).0.has(
                cache.next_key,
            ),
    {
        let key = parent.variable_key;
        let frame = Frame { base: cache, key, parent: key, parts: true };
        lemma_outset(frame);
        if let Some(node) = self.entry_at(offset) {
            let fresh = self.variable_of(node);
            lemma_store_new(frame, cache, key, fresh, target);
            let (after, result) = cache.stored(Some(key), fresh, target);
            if let Ok(variable) = result {
                self.lemma_attributes_frame(frame, node, parent, variable, target, after, fuel);
                let resolved = self.attributes_processed(
                    node,
                    parent,
                    variable,
                    target,
                    after,
                    fuel,
                );
                if resolved.0.has(cache.next_key) {
                    law_removed(resolved.0, cache.next_key);
                }
            }
        }
    }
}

} // verus!
