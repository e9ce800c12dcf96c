//! What the cache holds once something was stored, moved or removed, and what enumerations show.
use vstd::prelude::*;

#[allow(unused_imports)]
use crate::cache::{
    adopted, ascending, below, children_of, lemma_adopted, lemma_position, moved, position,
    CacheView,
};
#[allow(unused_imports)]
use crate::frame::holds;
#[allow(unused_imports)]
use crate::target::{known_value, memory_reply, Target};
#[allow(unused_imports)]
use crate::text::decimal;
#[allow(unused_imports)]
use crate::types::{enumeration_valued, enumerator_named};
#[allow(unused_imports)]
use crate::variable::{Variable, VariableLocation, VariableName, VariableValue, VariableView};

verus! {

/// Whether `stored` is `variable` with the key `key` and the parent `parent`, and with the value
/// that was decoded for it where it is of a base type and has none.
pub open spec fn stored_as(
    stored: VariableView,
    variable: VariableView,
    key: i64,
    parent: Option<i64>,
    target: Target,
) -> bool {
    let placed = Variable { variable_key: key, parent_key: parent, ..variable };
    &&& stored == Variable { value: stored.value, ..placed }
    &&& if variable.value is Empty && variable.variable_type is Base {
        match known_value(target.values@, placed) {
            Some(value) => stored.value == value,
            None => stored.value is Empty,
        }
    } else {
        stored.value == variable.value
    }
}

/// A new variable is stored behind all others, with the next key and below the parent that is asked
/// for, or its own where none is; all that it says stays, but a value that is not known is what was
/// decoded. It is refused only where the parent is not in the cache, or no key is left.
pub proof fn law_stored_new(
    cache: CacheView,
    parent_key: Option<i64>,
    variable: VariableView,
    target: Target,
)
    requires
        cache.wf(),
        variable.variable_key == 0,
    ensures
        ({
            let (after, result) = cache.stored(parent_key, variable, target);
            let parent = if parent_key is Some {
                parent_key
            } else {
                variable.parent_key
            };
            match result {
                Ok(stored) => {
                    &&& stored_as(stored, variable, cache.next_key, parent, target)
                    &&& after.entries == cache.entries.push(stored)
                    &&& after.next_key == cache.next_key + 1
                    &&& after.expansions == cache.expansions
                },
                Err(_) => {
                    &&& after == cache
                    &&& (parent is Some && !cache.has(parent->0)) || cache.next_key == i64::MAX
                },
            }
        }),
{
    let parent = if parent_key is Some {
        parent_key
    } else {
        variable.parent_key
    };
    if let Some(p) = parent {
        if cache.has(p) {
            let i = position(cache.entries, p);
            assert(cache.entries[i].variable_key == p);
        }
    }
}

/// A variable that has a key takes the place of the one with that key, and all others stay as they
/// are. It is refused only where there is none, or the parent is not in the cache or not older.
pub proof fn law_stored_again(
    cache: CacheView,
    parent_key: Option<i64>,
    variable: VariableView,
    target: Target,
)
    requires
        cache.wf(),
        variable.variable_key != 0,
    ensures
        ({
            let (after, result) = cache.stored(parent_key, variable, target);
            let key = variable.variable_key;
            let parent = if parent_key is Some {
                parent_key
            } else {
                variable.parent_key
            };
            match result {
                Ok(stored) => {
                    &&& stored_as(stored, variable, key, parent, target)
                    &&& after.entries.len() == cache.entries.len()
                    &&& after.next_key == cache.next_key
                    &&& after.expansions == cache.expansions
                    &&& forall|i: int|
                        #![trigger after.entries[i]]
                        0 <= i < cache.entries.len() ==> after.entries[i] == (
                        if cache.entries[i].variable_key == key {
                            stored
                        } else {
                            cache.entries[i]
                        })
                },
                Err(_) => {
                    &&& after == cache
                    &&& !cache.has(key) || (parent is Some && !(cache.has(parent->0) && parent->0
                        < key))
                },
            }
        }),
{
    let (after, result) = cache.stored(parent_key, variable, target);
    let key = variable.variable_key;
    if let Ok(stored) = result {
        let at = position(cache.entries, key);
        assert(cache.entries[at].variable_key == key);
        assert forall|i: int|
            #![trigger after.entries[i]]
            0 <= i < cache.entries.len() implies after.entries[i] == (
        if cache.entries[i].variable_key == key {
            stored
        } else {
            cache.entries[i]
        }) by {
            lemma_position(cache, i);
        }
    }
}

/// A variable is below another one exactly where that is its parent, or its parent is below it.
pub proof fn law_below(cache: CacheView, variable: VariableView, parent: VariableView, key: i64)
    requires
        cache.wf(),
        holds(cache, variable),
    ensures
        variable.parent_key == Some(key) ==> below(cache.entries, variable, key),
        variable.parent_key is None ==> !below(cache.entries, variable, key),
        holds(cache, parent) && variable.parent_key == Some(parent.variable_key) && key
            != parent.variable_key ==> below(cache.entries, variable, key) == below(
            cache.entries,
            parent,
            key,
        ),
{
    if holds(cache, parent) && variable.parent_key == Some(parent.variable_key) {
        let i = choose|i: int|
            0 <= i < cache.entries.len() && #[trigger] cache.entries[i] == parent;
        lemma_position(cache, i);
        let j = choose|j: int|
            0 <= j < cache.entries.len() && #[trigger] cache.entries[j] == variable;
        assert(crate::cache::parent_stands(cache.entries, cache.entries[j]));
    }
}

/// Adoption gives each part of the child to the parent, removes the child, and leaves all else as
/// it is; and it adds nothing.
pub proof fn law_adoption(cache: CacheView, parent: i64, child: i64, variable: VariableView)
    requires
        cache.wf(),
        cache.adopt(parent, child).1 is Ok,
    ensures
        ({
            let after = cache.adopt(parent, child).0;
            &&& holds(cache, variable) && variable.variable_key != child && variable.parent_key
                == Some(child) ==> holds(
                after,
                Variable { parent_key: Some(parent), ..variable },
            )
            &&& holds(cache, variable) && variable.variable_key != child && variable.parent_key
                != Some(child) ==> holds(after, variable)
            &&& holds(after, variable) ==> variable.variable_key != child && (holds(cache, variable)
                || variable.parent_key == Some(parent) && holds(
                cache,
                Variable { parent_key: Some(child), ..variable },
            ))
        }),
{
    let after = cache.adopt(parent, child).0;
    lemma_adopted(cache.entries, parent, child);
    if holds(cache, variable) && variable.variable_key != child {
        let j = choose|j: int|
            0 <= j < cache.entries.len() && #[trigger] cache.entries[j] == variable;
        let there = moved(variable, parent, child);
        assert(after.entries.contains(moved(cache.entries[j], parent, child)));
        let i = choose|i: int| 0 <= i < after.entries.len() && after.entries[i] == there;
        assert(after.entries[i] == there);
    }
    if holds(after, variable) {
        let i = choose|i: int|
            0 <= i < after.entries.len() && #[trigger] after.entries[i] == variable;
        assert(adopted(cache.entries, parent, child)[i] == variable);
        let j = choose|j: int|
            0 <= j < cache.entries.len() && (#[trigger] cache.entries[j]).variable_key != child
                && after.entries[i] == moved(cache.entries[j], parent, child);
        let before = cache.entries[j];
        assert(holds(cache, before));
        if before.parent_key == Some(child) {
            assert(Variable { parent_key: Some(child), ..variable } == before);
        }
    }
}

/// Only what is in the cache can be removed or moved, and only to an older variable that is in the
/// cache; what is refused changes nothing. Neither gives out a key or notes a pointer.
pub proof fn law_refused(cache: CacheView, key: i64, parent: i64)
    ensures
        cache.removed(key).1 is Ok <==> cache.has(key),
        cache.removed(key).1 is Err ==> cache.removed(key).0 == cache,
        cache.adopt(parent, key).1 is Ok <==> cache.has(key) && cache.has(parent) && parent < key,
        cache.adopt(parent, key).1 is Err ==> cache.adopt(parent, key).0 == cache,
        cache.removed(key).0.next_key == cache.next_key,
        cache.cleared(key).next_key == cache.next_key,
        cache.adopt(parent, key).0.next_key == cache.next_key,
        cache.removed(key).0.expansions == cache.expansions,
        cache.cleared(key).expansions == cache.expansions,
        cache.adopt(parent, key).0.expansions == cache.expansions,
        cache.expanding(key).expansions == cache.expansions.push(key),
        cache.expanding(key).entries == cache.entries,
        cache.expanding(key).next_key == cache.next_key,
{
}

/// The children of a variable are all variables whose parent it is, in their order.
pub proof fn law_children(entries: Seq<VariableView>, key: i64)
    ensures
        forall|i: int|
            0 <= i < children_of(entries, key).len() ==> (#[trigger] children_of(
                entries,
                key,
            )[i]).parent_key == Some(key) && entries.contains(children_of(entries, key)[i]),
        forall|i: int|
            0 <= i < entries.len() && (#[trigger] entries[i]).parent_key == Some(key)
                ==> children_of(entries, key).contains(entries[i]),
        ascending(entries) ==> ascending(children_of(entries, key)),
    decreases entries.len(),
{
    if entries.len() > 0 {
        let init = entries.drop_last();
        let last = entries.last();
        let rest = children_of(init, key);
        let whole = children_of(entries, key);
        law_children(init, key);
        assert forall|i: int| 0 <= i < whole.len() implies (#[trigger] whole[i]).parent_key == Some(
            key,
        ) && entries.contains(whole[i]) by {
            if i < rest.len() {
                assert(whole[i] == rest[i]);
                let j = choose|j: int| 0 <= j < init.len() && init[j] == rest[i];
                assert(entries[j] == whole[i]);
            } else {
                assert(entries[entries.len() - 1] == whole[i]);
            }
        }
        assert forall|i: int|
            0 <= i < entries.len() && (#[trigger] entries[i]).parent_key == Some(
                key,
            ) implies whole.contains(entries[i]) by {
            if i < init.len() {
                assert(init[i] == entries[i]);
                let j = choose|j: int| 0 <= j < rest.len() && rest[j] == init[i];
                assert(whole[j] == entries[i]);
            } else {
                assert(whole[whole.len() - 1] == entries[i]);
            }
        }
        if ascending(entries) {
            assert forall|i: int, j: int| 0 <= i < j < init.len() implies (
            #[trigger] init[i]).variable_key < (#[trigger] init[j]).variable_key by {
                assert(init[i] == entries[i] && init[j] == entries[j]);
            }
            assert forall|i: int, j: int| 0 <= i < j < whole.len() implies (
            #[trigger] whole[i]).variable_key < (#[trigger] whole[j]).variable_key by {
                assert(whole[i] == rest[i]);
                if j < rest.len() {
                    assert(whole[j] == rest[j]);
                } else {
                    let k = choose|k: int| 0 <= k < init.len() && init[k] == rest[i];
                    assert(entries[k] == rest[i]);
                    assert(entries[k].variable_key < entries[entries.len() - 1].variable_key);
                }
            }
        }
    }
}

/// Of several enumerators the first one whose value is shown as `value` gives its name.
pub proof fn law_enumerator(enumerators: Seq<VariableView>, value: Seq<char>, at: int)
    requires
        0 <= at <= enumerators.len(),
        forall|i: int| 0 <= i < at ==> (#[trigger] enumerators[i]).value.shown() != value,
    ensures
        at < enumerators.len() && enumerators[at].value.shown() == value ==> enumerator_named(
            enumerators,
            value,
        ) == enumerators[at].name,
        at == enumerators.len() ==> enumerator_named(enumerators, value)
            == VariableName::<Seq<char>>::Named("<Error: Unresolved enum value>"@),
    decreases enumerators.len(),
{
    if at > 0 {
        let rest = enumerators.drop_first();
        assert(enumerators[0].value.shown() != value);
        assert forall|i: int|
            0 <= i < at - 1 implies (#[trigger] rest[i]).value.shown() != value by {
            assert(rest[i] == enumerators[i + 1]);
        }
        law_enumerator(rest, value, at - 1);
    }
}

/// The value of an enumeration is its type and the name of the first of its enumerators whose value
/// is the byte at its place; nothing else of it changes, and its enumerators are removed.
pub proof fn law_enumeration_value(
    variable: VariableView,
    target: Target,
    cache: CacheView,
    address: u64,
    bytes: Seq<u8>,
    at: int,
)
    requires
        variable.valid(),
        variable.memory_location == VariableLocation::<Seq<char>>::Address(address),
        memory_reply(target.memory@, address, 1) == Some(Some(bytes)),
        0 <= at < children_of(cache.entries, variable.variable_key).len(),
        children_of(cache.entries, variable.variable_key)[at].value.shown() == decimal(
            bytes[0] as nat,
        ),
        forall|i: int|
            0 <= i < at ==> (#[trigger] children_of(
                cache.entries,
                variable.variable_key,
            )[i]).value.shown() != decimal(bytes[0] as nat),
    ensures
        ({
            let enumerator = children_of(cache.entries, variable.variable_key)[at];
            let outcome = enumeration_valued(variable, target, cache);
            &&& outcome.1 matches Ok(valued) && valued == Variable {
                value: VariableValue::Valid(
                    variable.variable_type.shown() + "::"@ + enumerator.name.shown(),
                ),
                ..variable
            }
            &&& outcome.0 == cache.cleared(variable.variable_key)
        }),
{
    law_enumerator(
        children_of(cache.entries, variable.variable_key),
        decimal(bytes[0] as nat),
        at,
    );
}

} // verus!
