//! Namespaces: none is left without parts.
use vstd::prelude::*;

#[allow(unused_imports)]
use crate::attributes::PairOutcome;
#[allow(unused_imports)]
use crate::cache::{
    adopted, below, goes, has_key, lemma_adopted, lemma_adopted_wf, lemma_position, lemma_pruned,
    lemma_pruned_wf, lemma_stored_wf, moved, parent_stands, position, pruned, CacheView,
};
#[allow(unused_imports)]
use crate::dwarf::{
    Attribute, AttributeValue, Encoding, UnitInfo, DW_AT_DISCR, DW_AT_NAME, DW_AT_TYPE,
    DW_TAG_ARRAY_TYPE, DW_TAG_BASE_TYPE, DW_TAG_COMPILE_UNIT, DW_TAG_ENUMERATION_TYPE,
    DW_TAG_ENUMERATOR, DW_TAG_LEXICAL_BLOCK, DW_TAG_MEMBER, DW_TAG_NAMESPACE, DW_TAG_POINTER_TYPE,
    DW_TAG_STRUCTURE_TYPE, DW_TAG_SUBRANGE_TYPE, DW_TAG_SUBROUTINE_TYPE, DW_TAG_UNION_TYPE,
    DW_TAG_VARIABLE, DW_TAG_VARIANT, DW_TAG_VARIANT_PART,
};
#[allow(unused_imports)]
use crate::error::DebugErrorView;
#[allow(unused_imports)]
use crate::frame::{holds, lemma_below_younger, same_place};
#[allow(unused_imports)]
use crate::location::{located_by, located_from};
#[allow(unused_imports)]
use crate::target::Target;
#[allow(unused_imports)]
use crate::tree::{discriminated, namespace_name, scope_of, Outcome};
#[allow(unused_imports)]
use crate::types::{
    bounded, element_of, indexed, or_unnamed, shown_at_once, type_reference, without_reference,
    TypeReference,
};
#[allow(unused_imports)]
use crate::variable::{Variable, VariableNodeType, VariableType, VariableView, VariantRole};

verus! {

/// Whether every namespace of `cache` but those with keys in `exempt` has parts.
pub open spec fn tended(cache: CacheView, exempt: Set<i64>) -> bool {
    forall|i: int| #![trigger cache.entries[i]]
        0 <= i < cache.entries.len() && cache.entries[i].variable_type is Namespace
            && !exempt.contains(cache.entries[i].variable_key) ==> cache.has_children(
            cache.entries[i].variable_key,
        )
}

/// Whether the variables of `before` with keys below `limit` are in `after` as they were.
spec fn kept(before: CacheView, after: CacheView, limit: int) -> bool {
    forall|i: int| #![trigger before.entries[i]]
        0 <= i < before.entries.len() && before.entries[i].variable_key < limit ==> holds(
            after,
            before.entries[i],
        )
}

/// Whether `cache` has a variable with the key `key` as a part of that with the key `parent_key`,
/// or of none.
pub open spec fn seated(cache: CacheView, key: i64, parent_key: Option<i64>) -> bool {
    exists|i: int|
        0 <= i < cache.entries.len() && (#[trigger] cache.entries[i]).variable_key == key
            && cache.entries[i].parent_key == parent_key
}

/// Whether `cache` is in order but for the namespaces in `exempt`, among them the variable with the
/// key `key`, which has the parent `parent_key`.
spec fn sound(cache: CacheView, exempt: Set<i64>, key: i64, parent_key: Option<i64>) -> bool {
    &&& cache.wf()
    &&& tended(cache, exempt)
    &&& exempt.contains(key)
    &&& seated(cache, key, parent_key)
}

/// Whether `after` stands where `before` does, and is no namespace unless that is one.
spec fn alike(before: VariableView, after: VariableView) -> bool {
    same_place(after, before) && (after.variable_type is Namespace
        ==> before.variable_type is Namespace)
}

/// Whether a step on `variable` leaves the cache in order, and older variables alone.
spec fn follows(
    exempt: Set<i64>,
    cache: CacheView,
    variable: VariableView,
    outcome: Outcome,
) -> bool {
    outcome.1 matches Ok(updated) ==> {
        &&& sound(outcome.0, exempt, variable.variable_key, variable.parent_key)
        &&& kept(cache, outcome.0, variable.variable_key as int)
        &&& alike(variable, updated)
    }
}

/// Whether a step on `variable`, a part of `parent`, leaves the cache in order, and older variables
/// alone.
spec fn pair_follows(
    exempt: Set<i64>,
    cache: CacheView,
    parent: VariableView,
    variable: VariableView,
    outcome: PairOutcome,
) -> bool {
    let part = Variable { parent_key: Some(parent.variable_key), ..variable };
    &&& same_place(outcome.1, parent)
    &&& outcome.1.variable_type == parent.variable_type
    &&& follows(exempt, cache, part, (outcome.0, outcome.2))
}

/// The variable that was stored, if it was, is in the cache.
spec fn is_stored(outcome: Outcome) -> bool {
    outcome.1 matches Ok(updated) ==> holds(outcome.0, updated)
}

/// What is kept over two steps is kept over both.
proof fn lemma_kept(before: CacheView, between: CacheView, after: CacheView, limit: int)
    requires
        kept(before, between, limit),
        kept(between, after, limit),
    ensures
        kept(before, after, limit),
{
    assert forall|i: int| #![trigger before.entries[i]]
        0 <= i < before.entries.len() && before.entries[i].variable_key < limit implies holds(
        after,
        before.entries[i],
    ) by {
        let j = choose|j: int|
            0 <= j < between.entries.len() && #[trigger] between.entries[j] == before.entries[i];
        assert(holds(after, between.entries[j]));
    }
}

/// A variable that is kept has the parent that it had.
proof fn lemma_seated(
    before: CacheView,
    after: CacheView,
    limit: int,
    key: i64,
    parent_key: Option<i64>,
)
    requires
        kept(before, after, limit),
        seated(before, key, parent_key),
        key < limit,
    ensures
        seated(after, key, parent_key),
{
    let i = choose|i: int|
        0 <= i < before.entries.len() && (#[trigger] before.entries[i]).variable_key == key
            && before.entries[i].parent_key == parent_key;
    assert(holds(after, before.entries[i]));
    let j = choose|j: int|
        0 <= j < after.entries.len() && #[trigger] after.entries[j] == before.entries[i];
    assert(after.entries[j].variable_key == key);
}

/// The key of a variable in the cache is below the next one, and above that of its parent.
proof fn lemma_seat(cache: CacheView, key: i64, parent_key: Option<i64>)
    requires
        cache.wf(),
        seated(cache, key, parent_key),
    ensures
        1 <= key < cache.next_key,
        cache.has(key),
        cache.entries[position(cache.entries, key)].parent_key == parent_key,
        parent_key matches Some(parent) ==> parent < key && cache.has(parent),
{
    let i = choose|i: int|
        0 <= i < cache.entries.len() && (#[trigger] cache.entries[i]).variable_key == key
            && cache.entries[i].parent_key == parent_key;
    lemma_position(cache, i);
    assert(parent_stands(cache.entries, cache.entries[i]));
}

/// Storing a new variable leaves the cache in order but for that variable.
proof fn lemma_store_part(
    exempt: Set<i64>,
    cache: CacheView,
    parent: i64,
    variable: VariableView,
    target: Target,
)
    requires
        cache.wf(),
        tended(cache, exempt),
        variable.variable_key == 0,
    ensures
        ({
            let outcome = cache.stored(Some(parent), variable, target);
            outcome.1 matches Ok(stored) ==> {
                &&& sound(
                    outcome.0,
                    exempt.insert(stored.variable_key),
                    stored.variable_key,
                    Some(parent),
                )
                &&& kept(cache, outcome.0, cache.next_key as int)
                &&& holds(outcome.0, stored)
                &&& stored.variable_key == cache.next_key
                &&& stored.parent_key == Some(parent)
                &&& stored.variable_type == variable.variable_type
            }
        }),
{
    lemma_stored_wf(cache, Some(parent), variable, target);
    let (after, result) = cache.stored(Some(parent), variable, target);
    if let Ok(stored) = result {
        let last = cache.entries.len() as int;
        assert(after.entries[last] == stored);
        assert forall|i: int| #![trigger cache.entries[i]]
            0 <= i < cache.entries.len() implies holds(after, cache.entries[i]) by {
            assert(after.entries[i] == cache.entries[i]);
        }
        assert forall|i: int| #![trigger after.entries[i]]
            0 <= i < after.entries.len() && after.entries[i].variable_type is Namespace
                && !exempt.insert(stored.variable_key).contains(
                after.entries[i].variable_key,
            ) implies after.has_children(after.entries[i].variable_key) by {
            assert(after.entries[i] == cache.entries[i]);
            let key = cache.entries[i].variable_key;
            assert(cache.has_children(key));
            let j = choose|j: int|
                0 <= j < cache.entries.len() && (#[trigger] cache.entries[j]).parent_key == Some(
                    key,
                );
            assert(after.entries[j] == cache.entries[j]);
        }
    }
}

/// Storing a variable again in its place leaves the cache in order.
proof fn lemma_store_again(
    exempt: Set<i64>,
    cache: CacheView,
    parent_key: Option<i64>,
    variable: VariableView,
    target: Target,
)
    requires
        sound(
            cache,
            exempt,
            variable.variable_key,
            match parent_key {
                Some(_) => parent_key,
                None => variable.parent_key,
            },
        ),
    ensures
        ({
            let outcome = cache.stored(parent_key, variable, target);
            outcome.1 matches Ok(stored) ==> {
                &&& sound(
                    outcome.0,
                    exempt,
                    variable.variable_key,
                    match parent_key {
                        Some(_) => parent_key,
                        None => variable.parent_key,
                    },
                )
                &&& kept(cache, outcome.0, variable.variable_key as int)
                &&& holds(outcome.0, stored)
                &&& stored.variable_key == variable.variable_key
                &&& stored.parent_key == (match parent_key {
                    Some(_) => parent_key,
                    None => variable.parent_key,
                })
                &&& stored.variable_type == variable.variable_type
            }
        }),
{
    let place = match parent_key {
        Some(_) => parent_key,
        None => variable.parent_key,
    };
    lemma_seat(cache, variable.variable_key, place);
    lemma_stored_wf(cache, parent_key, variable, target);
    let (after, result) = cache.stored(parent_key, variable, target);
    if let Ok(stored) = result {
        let at = position(cache.entries, variable.variable_key);
        assert(0 <= at < cache.entries.len() && cache.entries[at].variable_key
            == variable.variable_key);
        assert(after.entries[at] == stored);
        assert forall|i: int| #![trigger cache.entries[i]]
            0 <= i < cache.entries.len() && cache.entries[i].variable_key
                < variable.variable_key implies holds(after, cache.entries[i]) by {
            assert(after.entries[i] == cache.entries[i]);
        }
        assert forall|i: int| #![trigger after.entries[i]]
            0 <= i < after.entries.len() && after.entries[i].variable_type is Namespace
                && !exempt.contains(after.entries[i].variable_key) implies after.has_children(
            after.entries[i].variable_key,
        ) by {
            assert(after.entries[i] == cache.entries[i]);
            let key = cache.entries[i].variable_key;
            assert(cache.has_children(key));
            let j = choose|j: int|
                0 <= j < cache.entries.len() && (#[trigger] cache.entries[j]).parent_key == Some(
                    key,
                );
            assert(after.entries[j].parent_key == Some(key));
        }
    }
}

/// A variable that is no namespace, or has parts, need not be exempt.
proof fn lemma_drop(exempt: Set<i64>, cache: CacheView, variable: VariableView)
    requires
        cache.wf(),
        tended(cache, exempt.insert(variable.variable_key)),
        holds(cache, variable),
        variable.variable_type is Namespace ==> cache.has_children(variable.variable_key),
    ensures
        tended(cache, exempt),
{
    let k = choose|k: int| 0 <= k < cache.entries.len() && #[trigger] cache.entries[k] == variable;
    lemma_position(cache, k);
    assert forall|i: int| #![trigger cache.entries[i]]
        0 <= i < cache.entries.len() && cache.entries[i].variable_type is Namespace
            && !exempt.contains(cache.entries[i].variable_key) implies cache.has_children(
        cache.entries[i].variable_key,
    ) by {
        lemma_position(cache, i);
        if cache.entries[i].variable_key == variable.variable_key {
            assert(i == k);
        }
    }
}

/// Removing the parts of a variable that is exempt, or the variable itself if its parent is, leaves
/// the cache in order.
proof fn lemma_prune_tended(
    exempt: Set<i64>,
    cache: CacheView,
    key: i64,
    parent_key: Option<i64>,
    itself: bool,
)
    requires
        sound(cache, exempt.insert(key), key, parent_key),
        !itself ==> exempt.contains(key),
        itself ==> (parent_key matches Some(parent) ==> exempt.contains(parent)),
    ensures
        ({
            let after = CacheView {
                entries: pruned(cache.entries, cache.entries, key, itself),
                ..cache
            };
            &&& after.wf()
            &&& tended(after, exempt)
            &&& kept(cache, after, key as int)
            &&& !itself ==> seated(after, key, parent_key)
        }),
{
    let all = cache.entries;
    let after = CacheView { entries: pruned(all, all, key, itself), ..cache };
    let stays = |v: VariableView| !goes(all, v, key, itself);
    lemma_seat(cache, key, parent_key);
    lemma_pruned_wf(cache, key, itself);
    lemma_pruned(all, all, key, itself);
    assert forall|i: int| #![trigger all[i]]
        0 <= i < all.len() && (all[i].variable_key < key || (!itself && all[i].variable_key
            == key)) implies holds(after, all[i]) by {
        if below(all, all[i], key) {
            assert(holds(cache, all[i]));
            lemma_below_younger(cache, all[i], key);
        }
        assert(stays(all[i]));
        assert(after.entries.contains(all[i]));
        let k = choose|k: int| 0 <= k < after.entries.len() && after.entries[k] == all[i];
        assert(after.entries[k] == all[i]);
    }
    if !itself {
        let at = position(all, key);
        assert(0 <= at < all.len() && all[at].variable_key == key);
        assert(holds(after, all[at]));
        let k = choose|k: int|
            0 <= k < after.entries.len() && #[trigger] after.entries[k] == all[at];
        assert(after.entries[k].variable_key == key);
    }
    assert forall|i: int| #![trigger after.entries[i]]
        0 <= i < after.entries.len() && after.entries[i].variable_type is Namespace
            && !exempt.contains(after.entries[i].variable_key) implies after.has_children(
        after.entries[i].variable_key,
    ) by {
        let e = after.entries[i];
        assert(stays(e));
        let j = choose|j: int| 0 <= j < all.len() && #[trigger] all[j] == e;
        lemma_position(cache, j);
        assert(!exempt.insert(key).contains(all[j].variable_key));
        assert(cache.has_children(e.variable_key));
        let x = choose|x: int|
            0 <= x < all.len() && (#[trigger] all[x]).parent_key == Some(e.variable_key);
        assert(parent_stands(all, all[x]));
        if goes(all, all[x], key, itself) {
            if itself && all[x].variable_key == key {
                lemma_position(cache, x);
            }
            assert(false);
        }
        assert(stays(all[x]));
        assert(after.entries.contains(all[x]));
        let k = choose|k: int| 0 <= k < after.entries.len() && after.entries[k] == all[x];
        assert(after.entries[k].parent_key == Some(e.variable_key));
    }
}

/// Removing a variable whose parent is exempt leaves the cache in order.
proof fn lemma_remove(exempt: Set<i64>, cache: CacheView, key: i64, parent: i64)
    requires
        sound(cache, exempt.insert(key), key, Some(parent)),
        exempt.contains(parent),
    ensures
        cache.removed(key).0.wf(),
        tended(cache.removed(key).0, exempt),
        kept(cache, cache.removed(key).0, key as int),
        cache.removed(key).1 is Ok,
{
    lemma_seat(cache, key, Some(parent));
    lemma_prune_tended(exempt, cache, key, Some(parent), true);
}

/// Removing the parts of a variable that is exempt leaves the cache in order.
proof fn lemma_clear(exempt: Set<i64>, cache: CacheView, key: i64, parent_key: Option<i64>)
    requires
        sound(cache, exempt, key, parent_key),
    ensures
        sound(cache.cleared(key), exempt, key, parent_key),
        kept(cache, cache.cleared(key), key as int),
{
    assert(exempt.insert(key) =~= exempt);
    lemma_prune_tended(exempt, cache, key, parent_key, false);
}

/// Moving the parts of a variable to its parent, which is exempt, leaves the cache in order.
proof fn lemma_adopt_tended(exempt: Set<i64>, cache: CacheView, parent: i64, child: i64)
    requires
        sound(cache, exempt.insert(child), child, Some(parent)),
        exempt.contains(parent),
    ensures
        cache.adopt(parent, child).0.wf(),
        tended(cache.adopt(parent, child).0, exempt),
        kept(cache, cache.adopt(parent, child).0, child as int),
        cache.adopt(parent, child).1 is Ok,
{
    let all = cache.entries;
    let after = cache.adopt(parent, child).0;
    lemma_seat(cache, child, Some(parent));
    lemma_adopted_wf(cache, parent, child);
    lemma_adopted(all, parent, child);
    assert forall|i: int| #![trigger all[i]]
        0 <= i < all.len() && all[i].variable_key < child implies holds(after, all[i]) by {
        assert(parent_stands(all, all[i]));
        assert(moved(all[i], parent, child) == all[i]);
        assert(after.entries.contains(moved(all[i], parent, child)));
        let k = choose|k: int| 0 <= k < after.entries.len() && after.entries[k] == all[i];
        assert(after.entries[k] == all[i]);
    }
    assert forall|i: int| #![trigger after.entries[i]]
        0 <= i < after.entries.len() && after.entries[i].variable_type is Namespace
            && !exempt.contains(after.entries[i].variable_key) implies after.has_children(
        after.entries[i].variable_key,
    ) by {
        let e = after.entries[i];
        assert(adopted(all, parent, child)[i] == e);
        let j = choose|j: int|
            0 <= j < all.len() && (#[trigger] all[j]).variable_key != child && e == moved(
                all[j],
                parent,
                child,
            );
        assert(!exempt.insert(child).contains(all[j].variable_key));
        assert(cache.has_children(e.variable_key));
        let x = choose|x: int|
            0 <= x < all.len() && (#[trigger] all[x]).parent_key == Some(e.variable_key);
        if all[x].variable_key == child {
            lemma_position(cache, x);
            assert(false);
        }
        assert(after.entries.contains(moved(all[x], parent, child)));
        let k = choose|k: int|
            0 <= k < after.entries.len() && after.entries[k] == moved(all[x], parent, child);
        assert(after.entries[k].parent_key == Some(e.variable_key));
    }
}

/// A step that leaves alone what there was leaves the variable `parent` where it is.
proof fn lemma_step(
    exempt: Set<i64>,
    cache: CacheView,
    after: CacheView,
    key: i64,
    parent_key: Option<i64>,
)
    requires
        sound(cache, exempt, key, parent_key),
        after.wf(),
        tended(after, exempt),
        kept(cache, after, cache.next_key as int),
    ensures
        sound(after, exempt, key, parent_key),
        kept(cache, after, key as int),
{
    lemma_seat(cache, key, parent_key);
    lemma_seated(cache, after, cache.next_key as int, key, parent_key);
}

/// Finding out where a variable is kept does not make it a namespace, nor move it.
proof fn lemma_located_kind(
    variable: VariableView,
    parent: VariableView,
    attributes: Seq<Attribute>,
    from: int,
    encoding: Encoding,
    target: Target,
)
    ensures
        ({
            let updated = located_from(variable, parent, attributes, from, encoding, target).0;
            same_place(updated, variable) && updated.variable_type == variable.variable_type
        }),
    decreases attributes.len() - from,
{
    if from < attributes.len() {
        let (updated, result) = located_by(variable, parent, attributes[from], encoding, target);
        assert(same_place(updated, variable) && updated.variable_type == variable.variable_type);
        if result is Ok {
            lemma_located_kind(updated, parent, attributes, from + 1, encoding, target);
        }
    }
}

impl UnitInfo {
    /// Resolving what is below an entry leaves the cache in order.
    proof fn lemma_tree_tended(
        self,
        exempt: Set<i64>,
        node: int,
        parent: VariableView,
        target: Target,
        cache: CacheView,
        fuel: nat,
    )
        requires
            sound(cache, exempt, parent.variable_key, parent.parent_key),
        ensures
            follows(exempt, cache, parent, self.tree_processed(node, parent, target, cache, fuel)),
            is_stored(self.tree_processed(node, parent, target, cache, fuel)),
        decreases fuel, 0int, 0int,
    {
        if fuel > 0 {
            if !parent.valid() {
                lemma_store_again(exempt, cache, parent.parent_key, parent, target);
            } else if let Some(program_counter) = target.registers.program_counter {
                if program_counter.number() <= u64::MAX {
                    let program_counter = program_counter.number() as u64;
                    let rest = (fuel - 1) as nat;
                    self.lemma_children_tended(
                        exempt,
                        node,
                        0,
                        parent,
                        program_counter,
                        target,
                        cache,
                        rest,
                    );
                    let (after, result) = self.children_from(
                        node,
                        0,
                        parent,
                        program_counter,
                        target,
                        cache,
                        rest,
                    );
                    if let Ok(updated) = result {
                        lemma_store_again(exempt, after, updated.parent_key, updated, target);
                        let last = after.stored(updated.parent_key, updated, target).0;
                        if after.stored(updated.parent_key, updated, target).1 is Ok {
                            lemma_kept(cache, after, last, parent.variable_key as int);
                        }
                    }
                }
            }
        }
    }

    /// Resolving the children of an entry leaves the cache in order.
    proof fn lemma_children_tended(
        self,
        exempt: Set<i64>,
        node: int,
        from: int,
        parent: VariableView,
        program_counter: u64,
        target: Target,
        cache: CacheView,
        fuel: nat,
    )
        requires
            sound(cache, exempt, parent.variable_key, parent.parent_key),
        ensures
            follows(
                exempt,
                cache,
                parent,
                self.children_from(node, from, parent, program_counter, target, cache, fuel),
            ),
        decreases fuel, 5int, self.entries@[node].children@.len() - from,
    {
        let children = self.entries@[node].children@;
        if from < children.len() {
            if let Some(child) = self.entry_at(children[from]) {
                self.lemma_child_tended(
                    exempt,
                    child,
                    parent,
                    program_counter,
                    target,
                    cache,
                    fuel,
                );
                let (after, result) = self.child_processed(
                    child,
                    parent,
                    program_counter,
                    target,
                    cache,
                    fuel,
                );
                if let Ok(updated) = result {
                    self.lemma_children_tended(
                        exempt,
                        node,
                        from + 1,
                        updated,
                        program_counter,
                        target,
                        after,
                        fuel,
                    );
                    let (last, result) = self.children_from(
                        node,
                        from + 1,
                        updated,
                        program_counter,
                        target,
                        after,
                        fuel,
                    );
                    if result is Ok {
                        lemma_kept(cache, after, last, parent.variable_key as int);
                    }
                }
            }
        } else {
            assert(kept(cache, cache, parent.variable_key as int)) by {
                lemma_same(cache);
            }
        }
    }

    /// Resolving an entry leaves the cache in order.
    proof fn lemma_child_tended(
        self,
        exempt: Set<i64>,
        child: int,
        parent: VariableView,
        program_counter: u64,
        target: Target,
        cache: CacheView,
        fuel: nat,
    )
        requires
            sound(cache, exempt, parent.variable_key, parent.parent_key),
        ensures
            follows(
                exempt,
                cache,
                parent,
                self.child_processed(child, parent, program_counter, target, cache, fuel),
            ),
        decreases fuel, 4int, 0int,
    {
        lemma_same(cache);
        let tag = self.entries@[child].tag;
        if tag == DW_TAG_NAMESPACE {
            self.lemma_namespace_tended(exempt, child, parent, target, cache, fuel);
        } else if tag == DW_TAG_VARIABLE || tag == DW_TAG_MEMBER || tag == DW_TAG_ENUMERATOR {
            self.lemma_member_tended(exempt, child, parent, target, cache, fuel);
        } else if tag == DW_TAG_VARIANT_PART {
            self.lemma_variant_part_tended(exempt, child, parent, target, cache, fuel);
        } else if tag == DW_TAG_VARIANT {
            self.lemma_variant_tended(exempt, child, parent, target, cache, fuel);
        } else if tag == DW_TAG_SUBRANGE_TYPE {
            self.lemma_subrange_tended(exempt, child, parent, target, cache, fuel);
        } else if tag == DW_TAG_LEXICAL_BLOCK {
            self.lemma_block_tended(exempt, child, parent, program_counter, target, cache, fuel);
        }
    }

    /// Resolving a namespace leaves the cache in order: it is kept only if it has parts.
    proof fn lemma_namespace_tended(
        self,
        exempt: Set<i64>,
        child: int,
        parent: VariableView,
        target: Target,
        cache: CacheView,
        fuel: nat,
    )
        requires
            sound(cache, exempt, parent.variable_key, parent.parent_key),
        ensures
            follows(
                exempt,
                cache,
                parent,
                self.namespace_processed(child, parent, target, cache, fuel),
            ),
        decreases fuel, 3int, 0int,
    {
        if let Ok(name) = namespace_name(self.entries@[child], None) {
            let fresh = self.namespace_of(child, name);
            let key = parent.variable_key;
            lemma_store_part(exempt, cache, key, fresh, target);
            let (first, result) = cache.stored(Some(key), fresh, target);
            if let Ok(namespace) = result {
                let inner = namespace.variable_key;
                self.lemma_namespace_children_tended(
                    exempt.insert(inner),
                    child,
                    0,
                    namespace,
                    target,
                    first,
                    fuel,
                );
                let (second, result) = self.namespace_children_from(
                    child,
                    0,
                    namespace,
                    target,
                    first,
                    fuel,
                );
                if result is Ok {
                    lemma_kept(cache, first, second, cache.next_key as int);
                    if second.has_children(inner) {
                        lemma_drop_seated(exempt, second, inner, Some(key));
                        lemma_step(exempt, cache, second, key, parent.parent_key);
                    } else {
                        lemma_remove(exempt, second, inner, key);
                        let third = second.removed(inner).0;
                        lemma_kept(cache, second, third, cache.next_key as int);
                        lemma_step(exempt, cache, third, key, parent.parent_key);
                    }
                }
            }
        }
    }

    /// Resolving the children of a namespace leaves the cache in order.
    proof fn lemma_namespace_children_tended(
        self,
        exempt: Set<i64>,
        node: int,
        from: int,
        namespace: VariableView,
        target: Target,
        cache: CacheView,
        fuel: nat,
    )
        requires
            sound(cache, exempt, namespace.variable_key, namespace.parent_key),
        ensures
            follows(
                exempt,
                cache,
                namespace,
                self.namespace_children_from(node, from, namespace, target, cache, fuel),
            ),
        decreases fuel, 2int, self.entries@[node].children@.len() - from,
    {
        lemma_same(cache);
        let children = self.entries@[node].children@;
        if from < children.len() {
            if let Some(child) = self.entry_at(children[from]) {
                self.lemma_namespace_child_tended(exempt, child, namespace, target, cache, fuel);
                let (after, result) = self.namespace_child_processed(
                    child,
                    namespace,
                    target,
                    cache,
                    fuel,
                );
                if let Ok(updated) = result {
                    self.lemma_namespace_children_tended(
                        exempt,
                        node,
                        from + 1,
                        updated,
                        target,
                        after,
                        fuel,
                    );
                    let (last, result) = self.namespace_children_from(
                        node,
                        from + 1,
                        updated,
                        target,
                        after,
                        fuel,
                    );
                    if result is Ok {
                        lemma_kept(cache, after, last, namespace.variable_key as int);
                    }
                }
            }
        }
    }

    /// Resolving an entry of a namespace leaves the cache in order.
    proof fn lemma_namespace_child_tended(
        self,
        exempt: Set<i64>,
        child: int,
        namespace: VariableView,
        target: Target,
        cache: CacheView,
        fuel: nat,
    )
        requires
            sound(cache, exempt, namespace.variable_key, namespace.parent_key),
        ensures
            follows(
                exempt,
                cache,
                namespace,
                self.namespace_child_processed(child, namespace, target, cache, fuel),
            ),
        decreases fuel, 1int, 0int,
    {
        lemma_same(cache);
        let tag = self.entries@[child].tag;
        let key = namespace.variable_key;
        if tag == DW_TAG_VARIABLE {
            self.lemma_part_tended(exempt, child, namespace, target, cache, fuel);
        } else if tag == DW_TAG_NAMESPACE {
            if let Ok(name) = namespace_name(self.entries@[child], Some(namespace.name)) {
                let fresh = self.namespace_of(child, name);
                lemma_store_part(exempt, cache, key, fresh, target);
                let (first, result) = cache.stored(Some(key), fresh, target);
                if let Ok(stored) = result {
                    let inner = stored.variable_key;
                    self.lemma_tree_tended(
                        exempt.insert(inner),
                        child,
                        stored,
                        target,
                        first,
                        fuel,
                    );
                    let (second, result) = self.tree_processed(child, stored, target, first, fuel);
                    if result is Ok {
                        lemma_kept(cache, first, second, cache.next_key as int);
                        if second.has_children(inner) {
                            lemma_drop_seated(exempt, second, inner, Some(key));
                            lemma_step(exempt, cache, second, key, namespace.parent_key);
                        } else {
                            lemma_remove(exempt, second, inner, key);
                            let third = second.removed(inner).0;
                            lemma_kept(cache, second, third, cache.next_key as int);
                            lemma_step(exempt, cache, third, key, namespace.parent_key);
                        }
                    }
                }
            }
        }
    }

    /// Storing a new part of a variable and resolving it from its attributes leaves the cache in
    /// order and what there was alone; the part is no namespace.
    proof fn lemma_part_tended(
        self,
        exempt: Set<i64>,
        node: int,
        parent: VariableView,
        target: Target,
        cache: CacheView,
        fuel: nat,
    )
        requires
            sound(cache, exempt, parent.variable_key, parent.parent_key),
        ensures
            ({
                let (first, result) = cache.stored(
                    Some(parent.variable_key),
                    self.variable_of(node),
                    target,
                );
                result matches Ok(part) ==> {
                    let outcome = self.attributes_processed(
                        node,
                        parent,
                        part,
                        target,
                        first,
                        fuel,
                    );
                    part_follows(exempt, cache, parent, part, outcome)
                }
            }),
        decreases fuel, 0int, 2int,
    {
        let fresh = self.variable_of(node);
        lemma_store_part(exempt, cache, parent.variable_key, fresh, target);
        let (first, result) = cache.stored(Some(parent.variable_key), fresh, target);
        if let Ok(part) = result {
            self.lemma_resolved_tended(exempt, node, parent, part, target, cache, first, fuel);
        }
    }

    /// Resolving a new part of a variable from its attributes leaves the cache in order and what
    /// there was alone; the part is no namespace.
    proof fn lemma_resolved_tended(
        self,
        exempt: Set<i64>,
        node: int,
        parent: VariableView,
        part: VariableView,
        target: Target,
        cache: CacheView,
        first: CacheView,
        fuel: nat,
    )
        requires
            sound(cache, exempt, parent.variable_key, parent.parent_key),
            sound(
                first,
                exempt.insert(part.variable_key),
                part.variable_key,
                Some(parent.variable_key),
            ),
            kept(cache, first, cache.next_key as int),
            part.variable_key == cache.next_key,
            !(part.variable_type is Namespace),
        ensures
            part_follows(
                exempt,
                cache,
                parent,
                part,
                self.attributes_processed(node, parent, part, target, first, fuel),
            ),
        decreases fuel, 0int, 1int,
    {
        let all = exempt.insert(part.variable_key);
        self.lemma_attributes_tended(all, node, parent, part, target, first, fuel);
        let (second, updated, result) = self.attributes_processed(
            node,
            parent,
            part,
            target,
            first,
            fuel,
        );
        if let Ok(part) = result {
            lemma_kept(cache, first, second, cache.next_key as int);
            lemma_drop(exempt, second, part);
            lemma_step(exempt, cache, second, parent.variable_key, parent.parent_key);
        }
    }

    /// Resolving a member leaves the cache in order.
    proof fn lemma_member_tended(
        self,
        exempt: Set<i64>,
        child: int,
        parent: VariableView,
        target: Target,
        cache: CacheView,
        fuel: nat,
    )
        requires
            sound(cache, exempt, parent.variable_key, parent.parent_key),
        ensures
            follows(
                exempt,
                cache,
                parent,
                self.member_processed(child, parent, target, cache, fuel),
            ),
        decreases fuel, 3int, 0int,
    {
        self.lemma_part_tended(exempt, child, parent, target, cache, fuel);
        let fresh = self.variable_of(child);
        let (first, result) = cache.stored(Some(parent.variable_key), fresh, target);
        if let Ok(part) = result {
            let (second, updated, result) = self.attributes_processed(
                child,
                parent,
                part,
                target,
                first,
                fuel,
            );
            if let Ok(variable) = result {
                let key = variable.variable_key;
                lemma_gone(exempt, cache, second, parent, key);
                let all = exempt.insert(key);
                self.lemma_tree_tended(all, child, variable, target, second, fuel);
                let (third, result) = self.tree_processed(child, variable, target, second, fuel);
                if let Ok(variable) = result {
                    lemma_kept(cache, second, third, cache.next_key as int);
                    lemma_drop(exempt, third, variable);
                    lemma_step(exempt, cache, third, parent.variable_key, parent.parent_key);
                }
            }
        }
    }

    /// Resolving a variant part leaves the cache in order.
    proof fn lemma_variant_part_tended(
        self,
        exempt: Set<i64>,
        child: int,
        parent: VariableView,
        target: Target,
        cache: CacheView,
        fuel: nat,
    )
        requires
            sound(cache, exempt, parent.variable_key, parent.parent_key),
        ensures
            follows(
                exempt,
                cache,
                parent,
                self.variant_part_processed(child, parent, target, cache, fuel),
            ),
        decreases fuel, 3int, 0int,
    {
        let outer = Variable { role: VariantRole::VariantPart(u64::MAX), ..parent };
        self.lemma_part_tended(exempt, child, outer, target, cache, fuel);
        let fresh = self.variable_of(child);
        let (first, result) = cache.stored(Some(parent.variable_key), fresh, target);
        if let Ok(part) = result {
            let (second, updated, result) = self.attributes_processed(
                child,
                outer,
                part,
                target,
                first,
                fuel,
            );
            if let Ok(variable) = result {
                let key = variable.variable_key;
                lemma_gone(exempt, cache, second, parent, key);
                let (third, result) = second.removed(key);
                if result is Ok {
                    self.lemma_tree_tended(exempt, child, updated, target, third, fuel);
                    let (last, result) = self.tree_processed(child, updated, target, third, fuel);
                    if result is Ok {
                        lemma_kept(cache, third, last, parent.variable_key as int);
                    }
                }
            }
        }
    }

    /// Resolving a variant leaves the cache in order.
    proof fn lemma_variant_tended(
        self,
        exempt: Set<i64>,
        child: int,
        parent: VariableView,
        target: Target,
        cache: CacheView,
        fuel: nat,
    )
        requires
            sound(cache, exempt, parent.variable_key, parent.parent_key),
        ensures
            follows(
                exempt,
                cache,
                parent,
                self.variant_processed(child, parent, target, cache, fuel),
            ),
        decreases fuel, 3int, 0int,
    {
        lemma_same(cache);
        if !cache.has_children(parent.variable_key) {
            let fresh = self.variable_of(child);
            lemma_store_part(exempt, cache, parent.variable_key, fresh, target);
            let (first, result) = cache.stored(Some(parent.variable_key), fresh, target);
            if let Ok(part) = result {
                let variant = discriminated(part, self.entries@[child]);
                self.lemma_resolved_tended(
                    exempt,
                    child,
                    parent,
                    variant,
                    target,
                    cache,
                    first,
                    fuel,
                );
                let (second, updated, result) = self.attributes_processed(
                    child,
                    parent,
                    variant,
                    target,
                    first,
                    fuel,
                );
                if let Ok(variable) = result {
                    lemma_gone(exempt, cache, second, parent, variable.variable_key);
                    self.lemma_variant_adopted_tended(
                        exempt,
                        child,
                        updated,
                        Variable { memory_location: updated.memory_location, ..variable },
                        target,
                        cache,
                        second,
                        fuel,
                    );
                }
            }
        }
    }

    /// Moving the parts of a variant leaves the cache in order.
    proof fn lemma_variant_adopted_tended(
        self,
        exempt: Set<i64>,
        child: int,
        parent: VariableView,
        variable: VariableView,
        target: Target,
        base: CacheView,
        cache: CacheView,
        fuel: nat,
    )
        requires
            sound(base, exempt, parent.variable_key, parent.parent_key),
            sound(
                cache,
                exempt.insert(variable.variable_key),
                variable.variable_key,
                variable.parent_key,
            ),
            kept(base, cache, base.next_key as int),
            variable.variable_key == base.next_key,
            variable.parent_key == Some(parent.variable_key),
            !(variable.variable_type is Namespace),
        ensures
            follows(
                exempt,
                base,
                parent,
                self.variant_adopted(child, parent, variable, target, cache, fuel),
            ),
        decreases fuel, 1int, 0int,
    {
        let key = variable.variable_key;
        let all = exempt.insert(key);
        self.lemma_tree_tended(all, child, variable, target, cache, fuel);
        let (after, result) = self.tree_processed(child, variable, target, cache, fuel);
        if let Ok(variable) = result {
            lemma_kept(base, cache, after, base.next_key as int);
            if variable.valid() {
                lemma_adopt_tended(exempt, after, parent.variable_key, key);
                let last = after.adopt(parent.variable_key, key).0;
                lemma_kept(base, after, last, base.next_key as int);
                lemma_step(exempt, base, last, parent.variable_key, parent.parent_key);
            } else {
                lemma_drop(exempt, after, variable);
                lemma_step(exempt, base, after, parent.variable_key, parent.parent_key);
            }
        }
    }

    /// Reading the bounds of an array leaves the cache in order.
    proof fn lemma_subrange_tended(
        self,
        exempt: Set<i64>,
        child: int,
        parent: VariableView,
        target: Target,
        cache: CacheView,
        fuel: nat,
    )
        requires
            sound(cache, exempt, parent.variable_key, parent.parent_key),
        ensures
            follows(
                exempt,
                cache,
                parent,
                self.subrange_processed(child, parent, target, cache, fuel),
            ),
        decreases fuel, 3int, 0int,
    {
        self.lemma_part_tended(exempt, child, parent, target, cache, fuel);
        let fresh = self.variable_of(child);
        let (first, result) = cache.stored(Some(parent.variable_key), fresh, target);
        if let Ok(part) = result {
            let (second, updated, result) = self.attributes_processed(
                child,
                parent,
                part,
                target,
                first,
                fuel,
            );
            if let Ok(variable) = result {
                lemma_gone(exempt, cache, second, parent, variable.variable_key);
            }
        }
    }

    /// Resolving a block leaves the cache in order.
    proof fn lemma_block_tended(
        self,
        exempt: Set<i64>,
        child: int,
        parent: VariableView,
        program_counter: u64,
        target: Target,
        cache: CacheView,
        fuel: nat,
    )
        requires
            sound(cache, exempt, parent.variable_key, parent.parent_key),
        ensures
            follows(
                exempt,
                cache,
                parent,
                self.block_processed(child, parent, program_counter, target, cache, fuel),
            ),
        decreases fuel, 3int, 0int,
    {
        lemma_same(cache);
        if let Ok((updated, in_scope)) = scope_of(self.entries@[child], parent, program_counter) {
            assert(same_place(updated, parent) && updated.variable_type == parent.variable_type);
            if in_scope {
                self.lemma_tree_tended(exempt, child, updated, target, cache, fuel);
            }
        }
    }

    /// Resolving a variable from its attributes leaves the cache in order.
    proof fn lemma_attributes_tended(
        self,
        exempt: Set<i64>,
        node: int,
        parent: VariableView,
        variable: VariableView,
        target: Target,
        cache: CacheView,
        fuel: nat,
    )
        requires
            exempt.contains(parent.variable_key),
            sound(cache, exempt, variable.variable_key, Some(parent.variable_key)),
        ensures
            pair_follows(
                exempt,
                cache,
                parent,
                variable,
                self.attributes_processed(node, parent, variable, target, cache, fuel),
            ),
            ({
                let outcome = self.attributes_processed(
                    node,
                    parent,
                    variable,
                    target,
                    cache,
                    fuel,
                );
                is_stored((outcome.0, outcome.2))
            }),
        decreases fuel, 0int, 0int,
    {
        if fuel > 0 {
            let placed = Variable { parent_key: Some(parent.variable_key), ..variable };
            if let Ok((origin, found)) = self.origin_of(node, placed) {
                assert(alike(placed, found));
                if let Ok(named) = self.named_by(origin, found) {
                    assert(alike(placed, named));
                    let attributes = self.entries@[node].attributes@;
                    lemma_located_kind(named, parent, attributes, 0, self.encoding, target);
                    let updated = located_from(
                        named,
                        parent,
                        attributes,
                        0,
                        self.encoding,
                        target,
                    ).0;
                    lemma_store_again(exempt, cache, updated.parent_key, updated, target);
                    let (after, result) = self.location_extracted(
                        node,
                        parent,
                        named,
                        target,
                        cache,
                    );
                    if let Ok(located) = result {
                        let rest = (fuel - 1) as nat;
                        self.lemma_attributes_stored_tended(
                            exempt,
                            node,
                            origin,
                            parent,
                            located,
                            target,
                            after,
                            rest,
                        );
                        let (last, _, result) = self.attributes_stored(
                            node,
                            origin,
                            parent,
                            located,
                            target,
                            after,
                            rest,
                        );
                        if result is Ok {
                            lemma_kept(cache, after, last, variable.variable_key as int);
                        }
                    }
                }
            }
        }
    }

    /// Storing a variable with all its attributes leaves the cache in order.
    proof fn lemma_attributes_stored_tended(
        self,
        exempt: Set<i64>,
        node: int,
        origin: Option<int>,
        parent: VariableView,
        variable: VariableView,
        target: Target,
        cache: CacheView,
        fuel: nat,
    )
        requires
            exempt.contains(parent.variable_key),
            sound(cache, exempt, variable.variable_key, Some(parent.variable_key)),
            variable.parent_key == Some(parent.variable_key),
        ensures
            pair_follows(
                exempt,
                cache,
                parent,
                variable,
                self.attributes_stored(node, origin, parent, variable, target, cache, fuel),
            ),
            ({
                let outcome = self.attributes_stored(
                    node,
                    origin,
                    parent,
                    variable,
                    target,
                    cache,
                    fuel,
                );
                is_stored((outcome.0, outcome.2))
            }),
        decreases fuel, 4int, 0int,
    {
        match origin {
            Some(origin) => {
                self.lemma_attributes_from_tended(
                    exempt,
                    node,
                    origin,
                    0,
                    parent,
                    variable,
                    target,
                    cache,
                    fuel,
                );
                let (after, updated, result) = self.attributes_from(
                    node,
                    origin,
                    0,
                    parent,
                    variable,
                    target,
                    cache,
                    fuel,
                );
                if let Ok(complete) = result {
                    lemma_store_again(exempt, after, complete.parent_key, complete, target);
                    let (last, result) = after.stored(complete.parent_key, complete, target);
                    if result is Ok {
                        lemma_kept(cache, after, last, variable.variable_key as int);
                    }
                }
            },
            None => {
                lemma_store_again(exempt, cache, variable.parent_key, variable, target);
            },
        }
    }

    /// Applying attributes leaves the cache in order.
    proof fn lemma_attributes_from_tended(
        self,
        exempt: Set<i64>,
        node: int,
        origin: int,
        from: int,
        parent: VariableView,
        variable: VariableView,
        target: Target,
        cache: CacheView,
        fuel: nat,
    )
        requires
            exempt.contains(parent.variable_key),
            sound(cache, exempt, variable.variable_key, Some(parent.variable_key)),
            variable.parent_key == Some(parent.variable_key),
        ensures
            pair_follows(
                exempt,
                cache,
                parent,
                variable,
                self.attributes_from(node, origin, from, parent, variable, target, cache, fuel),
            ),
        decreases fuel, 3int, self.entries@[origin].attributes@.len() - from,
    {
        lemma_same(cache);
        let attributes = self.entries@[origin].attributes@;
        if from < attributes.len() {
            let attribute = attributes[from];
            self.lemma_attribute_tended(
                exempt,
                node,
                attribute,
                parent,
                variable,
                target,
                cache,
                fuel,
            );
            let (after, updated, result) = self.attribute_applied(
                node,
                attribute,
                parent,
                variable,
                target,
                cache,
                fuel,
            );
            if let Ok(applied) = result {
                self.lemma_attributes_from_tended(
                    exempt,
                    node,
                    origin,
                    from + 1,
                    updated,
                    applied,
                    target,
                    after,
                    fuel,
                );
                let (last, _, result) = self.attributes_from(
                    node,
                    origin,
                    from + 1,
                    updated,
                    applied,
                    target,
                    after,
                    fuel,
                );
                if result is Ok {
                    lemma_kept(cache, after, last, variable.variable_key as int);
                }
            }
        }
    }

    /// Applying an attribute leaves the cache in order.
    proof fn lemma_attribute_tended(
        self,
        exempt: Set<i64>,
        node: int,
        attribute: Attribute,
        parent: VariableView,
        variable: VariableView,
        target: Target,
        cache: CacheView,
        fuel: nat,
    )
        requires
            exempt.contains(parent.variable_key),
            sound(cache, exempt, variable.variable_key, Some(parent.variable_key)),
            variable.parent_key == Some(parent.variable_key),
        ensures
            pair_follows(
                exempt,
                cache,
                parent,
                variable,
                self.attribute_applied(node, attribute, parent, variable, target, cache, fuel),
            ),
        decreases fuel, 2int, 0int,
    {
        lemma_same(cache);
        if attribute.name == DW_AT_TYPE {
            if let AttributeValue::UnitRef(offset) = attribute.value {
                if let Some(type_node) = self.entry_at(offset) {
                    self.lemma_type_tended(
                        exempt,
                        type_node,
                        parent,
                        variable,
                        target,
                        cache,
                        fuel,
                    );
                }
            }
        } else if attribute.name == DW_AT_DISCR {
            if let AttributeValue::UnitRef(offset) = attribute.value {
                lemma_seat(cache, variable.variable_key, variable.parent_key);
                self.lemma_discriminant_tended(exempt, offset, parent, target, cache, fuel);
                let (after, _, result) = self.discriminant_resolved(
                    offset,
                    parent,
                    target,
                    cache,
                    fuel,
                );
                if result is Ok {
                    lemma_step(
                        exempt,
                        cache,
                        after,
                        variable.variable_key,
                        variable.parent_key,
                    );
                }
            }
        } else {
            assert(alike(variable, self.described_by(node, attribute, variable)));
        }
    }

    /// Finding out the active variant leaves the cache in order and what there was alone.
    proof fn lemma_discriminant_tended(
        self,
        exempt: Set<i64>,
        offset: usize,
        parent: VariableView,
        target: Target,
        cache: CacheView,
        fuel: nat,
    )
        requires
            cache.wf(),
            tended(cache, exempt),
            exempt.contains(parent.variable_key),
            cache.has(parent.variable_key),
        ensures
            ({
                let outcome = self.discriminant_resolved(offset, parent, target, cache, fuel);
                &&& same_place(outcome.1, parent)
                &&& outcome.1.variable_type == parent.variable_type
                &&& outcome.2 is Ok ==> outcome.0.wf() && tended(outcome.0, exempt) && kept(
                    cache,
                    outcome.0,
                    cache.next_key as int,
                )
            }),
        decreases fuel, 1int, 0int,
    {
        if let Some(node) = self.entry_at(offset) {
            let at = position(cache.entries, parent.variable_key);
            let held = cache.entries[at];
            assert(held.variable_key == parent.variable_key);
            let fresh = self.variable_of(node);
            lemma_store_part(exempt, cache, parent.variable_key, fresh, target);
            let (first, result) = cache.stored(Some(parent.variable_key), fresh, target);
            if let Ok(part) = result {
                let all = exempt.insert(part.variable_key);
                self.lemma_attributes_tended(all, node, parent, part, target, first, fuel);
                let (second, updated, result) = self.attributes_processed(
                    node,
                    parent,
                    part,
                    target,
                    first,
                    fuel,
                );
                if let Ok(discriminant) = result {
                    let key = discriminant.variable_key;
                    lemma_kept(cache, first, second, cache.next_key as int);
                    lemma_remove(exempt, second, key, parent.variable_key);
                    lemma_kept(cache, second, second.removed(key).0, cache.next_key as int);
                }
            }
        }
    }

    /// Giving a variable its type leaves the cache in order.
    proof fn lemma_type_tended(
        self,
        exempt: Set<i64>,
        node: int,
        parent: VariableView,
        variable: VariableView,
        target: Target,
        cache: CacheView,
        fuel: nat,
    )
        requires
            sound(cache, exempt, variable.variable_key, Some(parent.variable_key)),
            variable.parent_key == Some(parent.variable_key),
        ensures
            follows(
                exempt,
                cache,
                variable,
                self.type_extracted(node, parent, variable, target, cache, fuel),
            ),
            is_stored(self.type_extracted(node, parent, variable, target, cache, fuel)),
        decreases fuel, 0int, 0int,
    {
        if fuel > 0 {
            let (named, text) = match self.entries@[node].attribute(DW_AT_NAME) {
                Ok(Some(attribute)) => (variable, Some(attribute.text@)),
                Ok(None) => (variable, None),
                Err(error) => {
                    let message = "Error: evaluating type name: "@ + error + " "@;
                    (variable.with_error(message), Some(message))
                },
            };
            if named.valid() {
                let sized = Variable {
                    variable_node_type: if shown_at_once(named.variable_type) {
                        VariableNodeType::RecurseToBaseType
                    } else {
                        named.variable_node_type
                    },
                    byte_size: self.entries@[node].size_in_bytes(),
                    ..named
                };
                let rest = (fuel - 1) as nat;
                self.lemma_typed_tended(exempt, node, parent, sized, text, target, cache, rest);
                let (after, result) = self.typed(node, parent, sized, text, target, cache, rest);
                if let Ok(updated) = result {
                    let place = Some(parent.variable_key);
                    lemma_store_again(exempt, after, place, updated, target);
                    let (last, result) = after.stored(place, updated, target);
                    if result is Ok {
                        lemma_kept(cache, after, last, variable.variable_key as int);
                    }
                }
            } else {
                lemma_store_again(exempt, cache, Some(parent.variable_key), named, target);
            }
        }
    }

    /// Giving a variable a type by its tag leaves the cache in order.
    proof fn lemma_typed_tended(
        self,
        exempt: Set<i64>,
        node: int,
        parent: VariableView,
        variable: VariableView,
        text: Option<Seq<char>>,
        target: Target,
        cache: CacheView,
        fuel: nat,
    )
        requires
            sound(cache, exempt, variable.variable_key, variable.parent_key),
        ensures
            follows(
                exempt,
                cache,
                variable,
                self.typed(node, parent, variable, text, target, cache, fuel),
            ),
        decreases fuel, 5int, 0int,
    {
        lemma_same(cache);
        let tag = self.entries@[node].tag;
        if tag == DW_TAG_POINTER_TYPE {
            let pointer = Variable { variable_type: VariableType::Pointer(text), ..variable };
            let (after, result) = self.pointer_typed(node, pointer, cache);
            assert(result matches Ok(updated) ==> alike(variable, updated));
            lemma_entries(exempt, cache, after, variable.variable_key, variable.parent_key);
        } else if tag == DW_TAG_STRUCTURE_TYPE {
            if let Ok(placed) = indexed(variable, parent) {
                self.lemma_structure_tended(
                    exempt,
                    node,
                    Variable { variable_type: VariableType::Struct(or_unnamed(text)), ..placed },
                    target,
                    cache,
                    fuel,
                );
            }
        } else if tag == DW_TAG_ENUMERATION_TYPE {
            let enumeration = Variable {
                variable_type: VariableType::Enum(or_unnamed(text)),
                ..variable
            };
            self.lemma_tree_tended(exempt, node, enumeration, target, cache, fuel);
            let (after, result) = self.tree_processed(node, enumeration, target, cache, fuel);
            if let Ok(updated) = result {
                let key = variable.variable_key;
                lemma_clear(exempt, after, key, variable.parent_key);
                lemma_kept(cache, after, after.cleared(key), key as int);
            }
        } else if tag == DW_TAG_ARRAY_TYPE {
            self.lemma_array_tended(exempt, node, variable, target, cache, fuel);
        } else if tag == DW_TAG_UNION_TYPE {
            if let Ok(placed) = indexed(variable, parent) {
                self.lemma_tree_tended(exempt, node, placed, target, cache, fuel);
            }
        } else if tag == DW_TAG_SUBROUTINE_TYPE {
            assert(self.subroutine_typed(node, variable) matches Ok(updated) ==> alike(
                variable,
                updated,
            ));
        } else if tag == DW_TAG_COMPILE_UNIT {
            self.lemma_tree_tended(exempt, node, variable, target, cache, fuel);
        } else if tag != DW_TAG_BASE_TYPE {
            lemma_clear(exempt, cache, variable.variable_key, variable.parent_key);
        }
    }

    /// Giving a variable a structure type leaves the cache in order.
    proof fn lemma_structure_tended(
        self,
        exempt: Set<i64>,
        node: int,
        variable: VariableView,
        target: Target,
        cache: CacheView,
        fuel: nat,
    )
        requires
            sound(cache, exempt, variable.variable_key, variable.parent_key),
        ensures
            follows(
                exempt,
                cache,
                variable,
                self.structure_typed(node, variable, target, cache, fuel),
            ),
        decreases fuel, 4int, 0int,
    {
        lemma_same(cache);
        self.lemma_tree_tended(exempt, node, variable, target, cache, fuel);
    }

    /// Giving a variable an array type leaves the cache in order.
    proof fn lemma_array_tended(
        self,
        exempt: Set<i64>,
        node: int,
        variable: VariableView,
        target: Target,
        cache: CacheView,
        fuel: nat,
    )
        requires
            sound(cache, exempt, variable.variable_key, variable.parent_key),
        ensures
            follows(exempt, cache, variable, self.array_typed(node, variable, target, cache, fuel)),
        decreases fuel, 4int, 0int,
    {
        lemma_same(cache);
        if let TypeReference::Entry(offset) = type_reference(
            self.entries@[node].attribute(DW_AT_TYPE),
        ) {
            let key = variable.variable_key;
            let fresh = self.variable_of(node);
            lemma_store_part(exempt, cache, key, fresh, target);
            let (first, result) = cache.stored(Some(key), fresh, target);
            if let Ok(range) = result {
                let all = exempt.insert(range.variable_key);
                self.lemma_tree_tended(all, node, range, target, first, fuel);
                let (second, result) = self.tree_processed(node, range, target, first, fuel);
                if let Ok(range) = result {
                    lemma_kept(cache, first, second, cache.next_key as int);
                    lemma_remove(exempt, second, range.variable_key, key);
                    let third = second.removed(range.variable_key).0;
                    lemma_kept(cache, second, third, cache.next_key as int);
                    lemma_step(exempt, cache, third, key, variable.parent_key);
                    let array = bounded(variable, range);
                    assert(alike(variable, array));
                    let lower = range.range_lower_bound as int;
                    let upper = range.range_upper_bound;
                    self.lemma_elements_tended(
                        exempt,
                        offset,
                        lower,
                        upper,
                        array,
                        target,
                        third,
                        fuel,
                    );
                    let (last, result) = self.elements_from(
                        offset,
                        lower,
                        upper,
                        array,
                        target,
                        third,
                        fuel,
                    );
                    if result is Ok {
                        lemma_kept(cache, third, last, key as int);
                    }
                }
            }
        } else {
            let reference = type_reference(self.entries@[node].attribute(DW_AT_TYPE));
            assert(alike(variable, without_reference(variable, reference)));
        }
    }

    /// Resolving the elements of an array leaves the cache in order.
    proof fn lemma_elements_tended(
        self,
        exempt: Set<i64>,
        offset: usize,
        from: int,
        upper_bound: i64,
        array: VariableView,
        target: Target,
        cache: CacheView,
        fuel: nat,
    )
        requires
            sound(cache, exempt, array.variable_key, array.parent_key),
        ensures
            follows(
                exempt,
                cache,
                array,
                self.elements_from(offset, from, upper_bound, array, target, cache, fuel),
            ),
        decreases fuel, 3int, upper_bound - from,
    {
        lemma_same(cache);
        if from < upper_bound {
            let index = from as i64;
            self.lemma_element_tended(
                exempt,
                offset,
                index,
                upper_bound,
                array,
                target,
                cache,
                fuel,
            );
            let (after, result) = self.element_processed(
                offset,
                index,
                upper_bound,
                array,
                target,
                cache,
                fuel,
            );
            if let Ok(updated) = result {
                self.lemma_elements_tended(
                    exempt,
                    offset,
                    from + 1,
                    upper_bound,
                    updated,
                    target,
                    after,
                    fuel,
                );
                let (last, result) = self.elements_from(
                    offset,
                    from + 1,
                    upper_bound,
                    updated,
                    target,
                    after,
                    fuel,
                );
                if result is Ok {
                    lemma_kept(cache, after, last, array.variable_key as int);
                }
            }
        }
    }

    /// Resolving an element of an array leaves the cache in order.
    proof fn lemma_element_tended(
        self,
        exempt: Set<i64>,
        offset: usize,
        index: i64,
        upper_bound: i64,
        array: VariableView,
        target: Target,
        cache: CacheView,
        fuel: nat,
    )
        requires
            sound(cache, exempt, array.variable_key, array.parent_key),
        ensures
            follows(
                exempt,
                cache,
                array,
                self.element_processed(offset, index, upper_bound, array, target, cache, fuel),
            ),
        decreases fuel, 2int, 0int,
    {
        lemma_same(cache);
        if let Some(node) = self.entry_at(offset) {
            self.lemma_part_tended(exempt, node, array, target, cache, fuel);
            let fresh = self.variable_of(node);
            let (first, result) = cache.stored(Some(array.variable_key), fresh, target);
            if let Ok(part) = result {
                let (second, updated, result) = self.attributes_processed(
                    node,
                    array,
                    part,
                    target,
                    first,
                    fuel,
                );
                if let Ok(element) = result {
                    let typed = Variable {
                        variable_type: VariableType::Array {
                            count: upper_bound as usize,
                            entry_type: element.name,
                        },
                        ..updated
                    };
                    let placed = element_of(element, typed, index);
                    let all = exempt.insert(element.variable_key);
                    self.lemma_type_tended(all, node, typed, placed, target, second, fuel);
                    let (third, result) = self.type_extracted(
                        node,
                        typed,
                        placed,
                        target,
                        second,
                        fuel,
                    );
                    if let Ok(element) = result {
                        lemma_kept(cache, second, third, cache.next_key as int);
                        lemma_drop(exempt, third, element);
                        lemma_step(exempt, cache, third, array.variable_key, array.parent_key);
                    }
                }
            }
        }
    }

    /// Resolving what is below an entry leaves no namespace without parts, but for the parent:
    /// where each namespace of the cache has parts at the outset, each has at the end. The parent
    /// is the part of another variable that the cache says it is.
    pub proof fn law_namespaces_have_parts(
        self,
        node: int,
        parent: VariableView,
        target: Target,
        cache: CacheView,
        fuel: nat,
    )
        requires
            cache.wf(),
            seated(cache, parent.variable_key, parent.parent_key),
            tended(cache, set![parent.variable_key]),
        ensures
            ({
                let outcome = self.tree_processed(node, parent, target, cache, fuel);
                outcome.1 is Ok ==> tended(outcome.0, set![parent.variable_key])
            }),
    {
        self.lemma_tree_tended(set![parent.variable_key], node, parent, target, cache, fuel);
    }
}

/// Removing a part leaves the cache in order and what there was alone.
proof fn lemma_gone(
    exempt: Set<i64>,
    base: CacheView,
    cache: CacheView,
    parent: VariableView,
    key: i64,
)
    requires
        sound(base, exempt, parent.variable_key, parent.parent_key),
        sound(cache, exempt.insert(key), key, Some(parent.variable_key)),
        kept(base, cache, base.next_key as int),
        key == base.next_key,
    ensures
        sound(cache.removed(key).0, exempt, parent.variable_key, parent.parent_key),
        kept(base, cache.removed(key).0, parent.variable_key as int),
        cache.removed(key).1 is Ok,
{
    lemma_remove(exempt, cache, key, parent.variable_key);
    let after = cache.removed(key).0;
    lemma_kept(base, cache, after, base.next_key as int);
    lemma_step(exempt, base, after, parent.variable_key, parent.parent_key);
}

/// Whether resolving the new part `part` of `parent` leaves the cache in order and what there was
/// alone, and the part is no namespace.
spec fn part_follows(
    exempt: Set<i64>,
    cache: CacheView,
    parent: VariableView,
    part: VariableView,
    outcome: PairOutcome,
) -> bool {
    &&& same_place(outcome.1, parent)
    &&& outcome.1.variable_type == parent.variable_type
    &&& outcome.2 matches Ok(updated) ==> {
        &&& part.variable_key == cache.next_key
        &&& updated.variable_key == part.variable_key
        &&& updated.parent_key == Some(parent.variable_key)
        &&& !(updated.variable_type is Namespace)
        &&& holds(outcome.0, updated)
        &&& sound(outcome.0, exempt, parent.variable_key, parent.parent_key)
        &&& sound(
            outcome.0,
            exempt.insert(part.variable_key),
            part.variable_key,
            Some(parent.variable_key),
        )
        &&& kept(cache, outcome.0, cache.next_key as int)
        &&& kept(cache, outcome.0, parent.variable_key as int)
    }
}

/// A cache keeps what it has.
proof fn lemma_same(cache: CacheView)
    ensures
        forall|limit: int| #[trigger] kept(cache, cache, limit),
{
    assert forall|i: int| #![trigger cache.entries[i]] 0 <= i < cache.entries.len() implies holds(
        cache,
        cache.entries[i],
    ) by {}
}

/// A cache with the same variables is in order too.
proof fn lemma_entries(
    exempt: Set<i64>,
    cache: CacheView,
    after: CacheView,
    key: i64,
    parent_key: Option<i64>,
)
    requires
        sound(cache, exempt, key, parent_key),
        after.entries == cache.entries,
        after.next_key == cache.next_key,
    ensures
        sound(after, exempt, key, parent_key),
        kept(cache, after, key as int),
{
    assert forall|i: int| #![trigger after.entries[i]]
        0 <= i < after.entries.len() && after.entries[i].variable_type is Namespace
            && !exempt.contains(after.entries[i].variable_key) implies after.has_children(
        after.entries[i].variable_key,
    ) by {
        assert(cache.has_children(cache.entries[i].variable_key));
    }
    assert forall|i: int| #![trigger cache.entries[i]] 0 <= i < cache.entries.len() implies holds(
        after,
        cache.entries[i],
    ) by {
        assert(after.entries[i] == cache.entries[i]);
    }
}

/// A variable that has parts need not be exempt.
proof fn lemma_drop_seated(
    exempt: Set<i64>,
    cache: CacheView,
    key: i64,
    parent_key: Option<i64>,
)
    requires
        sound(cache, exempt.insert(key), key, parent_key),
        cache.has_children(key),
    ensures
        tended(cache, exempt),
{
    let i = choose|i: int|
        0 <= i < cache.entries.len() && (#[trigger] cache.entries[i]).variable_key == key
            && cache.entries[i].parent_key == parent_key;
    assert(holds(cache, cache.entries[i]));
    lemma_drop(exempt, cache, cache.entries[i]);
}

} // verus!
