//! The variables that were resolved so far, each with its place below its parent.
use vstd::prelude::*;

use crate::error::DebugError;
#[allow(unused_imports)]
use crate::error::{result_view, unit_view, DebugErrorView};
use crate::target::Target;
#[allow(unused_imports)]
use crate::target::known_value;
use crate::variable::{Variable, VariableType, VariableValue};
#[allow(unused_imports)]
use crate::variable::VariableView;

verus! {

/// A cache of variables as contracts speak of it.
pub struct CacheView {
    /// The variables, in the order of their keys.
    pub entries: Seq<VariableView>,
    /// The key that the next new variable gets.
    pub next_key: i64,
    /// The keys of the pointers whose targets are to be resolved without being asked for.
    pub expansions: Seq<i64>,
}

/// Whether `entries` holds a variable with the key `key`.
pub open spec fn has_key(entries: Seq<VariableView>, key: i64) -> bool {
    exists|i: int| 0 <= i < entries.len() && #[trigger] entries[i].variable_key == key
}

/// Where in `entries` the variable with the key `key` stands.
pub open spec fn position(entries: Seq<VariableView>, key: i64) -> int {
    choose|i: int| 0 <= i < entries.len() && #[trigger] entries[i].variable_key == key
}

/// Whether `variable` is a part of the variable with the key `key`, directly or over other
/// variables of `entries`.
pub open spec fn below(entries: Seq<VariableView>, variable: VariableView, key: i64) -> bool
    decreases variable.variable_key,
{
    match variable.parent_key {
        None => false,
        Some(parent) => parent == key || (0 < parent < variable.variable_key && has_key(
            entries,
            parent,
        ) && entries[position(entries, parent)].variable_key == parent && below(
            entries,
            entries[position(entries, parent)],
            key,
        )),
    }
}

/// Whether `variable` goes when the variables below `key` are removed from `all`, and the variable
/// with that key too where `itself` holds.
pub open spec fn goes(
    all: Seq<VariableView>,
    variable: VariableView,
    key: i64,
    itself: bool,
) -> bool {
    below(all, variable, key) || (itself && variable.variable_key == key)
}

/// `entries` without those that go when the variables below `key` are removed from `all`, and the
/// variable with that key too where `itself` holds.
pub open spec fn pruned(
    all: Seq<VariableView>,
    entries: Seq<VariableView>,
    key: i64,
    itself: bool,
) -> Seq<VariableView>
    decreases entries.len(),
{
    if entries.len() == 0 {
        Seq::empty()
    } else {
        let rest = pruned(all, entries.drop_last(), key, itself);
        if goes(all, entries.last(), key, itself) {
            rest
        } else {
            rest.push(entries.last())
        }
    }
}

/// Whether the keys of `entries` ascend.
pub open spec fn ascending(entries: Seq<VariableView>) -> bool {
    forall|i: int, j: int|
        0 <= i < j < entries.len() ==> (#[trigger] entries[i]).variable_key < (
        #[trigger] entries[j]).variable_key
}

/// The variables of `entries` whose parent has the key `key`, in order.
pub open spec fn children_of(entries: Seq<VariableView>, key: i64) -> Seq<VariableView>
    decreases entries.len(),
{
    if entries.len() == 0 {
        Seq::empty()
    } else {
        let rest = children_of(entries.drop_last(), key);
        if entries.last().parent_key == Some(key) {
            rest.push(entries.last())
        } else {
            rest
        }
    }
}

/// `variable` with `parent` as its parent where `child` was.
pub open spec fn moved(variable: VariableView, parent: i64, child: i64) -> VariableView {
    if variable.parent_key == Some(child) {
        Variable { parent_key: Some(parent), ..variable }
    } else {
        variable
    }
}

/// `entries` with the children of `child` moved to `parent`, and without `child`.
pub open spec fn adopted(entries: Seq<VariableView>, parent: i64, child: i64) -> Seq<VariableView>
    decreases entries.len(),
{
    if entries.len() == 0 {
        Seq::empty()
    } else {
        let rest = adopted(entries.drop_last(), parent, child);
        if entries.last().variable_key == child {
            rest
        } else {
            rest.push(moved(entries.last(), parent, child))
        }
    }
}

/// What becomes of the value of `variable` when it is stored: where it is of a base type and
/// nothing is known of it, it is what was decoded from the target. Only base types have values.
pub open spec fn decoded(variable: VariableView, target: Target) -> VariableView {
    if variable.value is Empty && variable.variable_type is Base {
        match known_value(target.values@, variable) {
            Some(value) => Variable { value, ..variable },
            None => variable,
        }
    } else {
        variable
    }
}

impl CacheView {
    /// Keys are positive, ascend, and are below the next one; a parent is in the cache, and is
    /// older than its children.
    pub open spec fn wf(self) -> bool {
        &&& 1 <= self.next_key
        &&& forall|i: int|
            0 <= i < self.entries.len() ==> 1 <= (#[trigger] self.entries[i]).variable_key
                < self.next_key
        &&& ascending(self.entries)
        &&& forall|i: int|
            0 <= i < self.entries.len() ==> parent_stands(
                self.entries,
                #[trigger] self.entries[i],
            )
    }

    /// Whether there is a variable with the key `key`.
    pub open spec fn has(self, key: i64) -> bool {
        has_key(self.entries, key)
    }

    /// The variable with the key `key`.
    pub open spec fn get(self, key: i64) -> VariableView {
        self.entries[position(self.entries, key)]
    }

    /// Whether some variable has the variable with the key `key` as its parent.
    pub open spec fn has_children(self, key: i64) -> bool {
        exists|i: int|
            0 <= i < self.entries.len() && (#[trigger] self.entries[i]).parent_key == Some(key)
    }

    /// The cache and the stored variable once `variable` was stored below the variable with the
    /// key `parent_key`.
    ///
    /// A variable with the key 0 is new and gets the next key; another one replaces the variable
    /// that has its key. Without a `parent_key` the variable keeps the parent that it has.
    pub open spec fn stored(
        self,
        parent_key: Option<i64>,
        variable: VariableView,
        target: Target,
    ) -> (CacheView, Result<VariableView, DebugErrorView>) {
        let parent = match parent_key {
            Some(_) => parent_key,
            None => variable.parent_key,
        };
        let key = if variable.variable_key == 0 {
            self.next_key
        } else {
            variable.variable_key
        };
        let stored = decoded(
            Variable { variable_key: key, parent_key: parent, ..variable },
            target,
        );
        if parent matches Some(p) && !(self.has(p) && p < key) {
            (self, Err(DebugError::UnknownParent(parent->0)))
        } else if variable.variable_key == 0 {
            if self.next_key == i64::MAX {
                (self, Err(DebugError::KeysExhausted))
            } else {
                (
                    CacheView {
                        entries: self.entries.push(stored),
                        next_key: (self.next_key + 1) as i64,
                        ..self
                    },
                    Ok(stored),
                )
            }
        } else if self.has(key) {
            (
                CacheView {
                    entries: self.entries.update(position(self.entries, key), stored),
                    ..self
                },
                Ok(stored),
            )
        } else {
            (self, Err(DebugError::UnknownVariable(key)))
        }
    }

    /// The cache once the variable with the key `key` and all below it were removed.
    pub open spec fn removed(self, key: i64) -> (CacheView, Result<(), DebugErrorView>) {
        if self.has(key) {
            (
                CacheView { entries: pruned(self.entries, self.entries, key, true), ..self },
                Ok(()),
            )
        } else {
            (self, Err(DebugError::UnknownVariable(key)))
        }
    }

    /// The cache once all below the variable with the key `key` was removed.
    pub open spec fn cleared(self, key: i64) -> CacheView {
        CacheView { entries: pruned(self.entries, self.entries, key, false), ..self }
    }

    /// The cache once the children of `child` were moved to `parent` and `child` was removed.
    pub open spec fn adopt(self, parent: i64, child: i64) -> (
        CacheView,
        Result<(), DebugErrorView>,
    ) {
        if !self.has(child) {
            (self, Err(DebugError::UnknownVariable(child)))
        } else if !(self.has(parent) && parent < child) {
            (self, Err(DebugError::UnknownParent(parent)))
        } else {
            (CacheView { entries: adopted(self.entries, parent, child), ..self }, Ok(()))
        }
    }

    /// The cache once the pointer with the key `key` was noted for its target to be resolved.
    pub open spec fn expanding(self, key: i64) -> CacheView {
        CacheView { expansions: self.expansions.push(key), ..self }
    }
}

/// Whether `variable` is what `cache` has under its key.
pub open spec fn latest(cache: CacheView, variable: VariableView) -> bool {
    cache.has(variable.variable_key) && cache.get(variable.variable_key) == variable
}

/// Whether the parent of `variable`, if it has one, is in `entries` and older.
pub open spec fn parent_stands(entries: Seq<VariableView>, variable: VariableView) -> bool {
    variable.parent_key matches Some(parent) ==> parent < variable.variable_key && has_key(
        entries,
        parent,
    )
}

/// The variables that were resolved so far.
#[derive(Debug)]
pub struct VariableCache {
    entries: Vec<Variable>,
    next_key: i64,
    expansions: Vec<i64>,
}

/// The views of `variables`.
pub open spec fn views(variables: Seq<Variable>) -> Seq<VariableView> {
    Seq::new(variables.len(), |i: int| variables[i]@)
}

impl View for VariableCache {
    type V = CacheView;

    closed spec fn view(&self) -> CacheView {
        CacheView {
            entries: views(self.entries@),
            next_key: self.next_key,
            expansions: self.expansions@,
        }
    }
}

/// In a well-formed cache a key stands at one place only.
pub proof fn lemma_position(cache: CacheView, i: int)
    requires
        cache.wf(),
        0 <= i < cache.entries.len(),
    ensures
        cache.has(cache.entries[i].variable_key),
        position(cache.entries, cache.entries[i].variable_key) == i,
{
    let key = cache.entries[i].variable_key;
    let j = position(cache.entries, key);
    assert(0 <= j < cache.entries.len() && cache.entries[j].variable_key == key);
    if j < i {
        assert(cache.entries[j].variable_key < cache.entries[i].variable_key);
    } else if i < j {
        assert(cache.entries[i].variable_key < cache.entries[j].variable_key);
    }
}

/// Whether `kept` is made of variables of `entries` that meet `stays`, in the order of `entries`,
/// each at its own place or before it, and misses none of them.
pub open spec fn selects(
    entries: Seq<VariableView>,
    kept: Seq<VariableView>,
    stays: spec_fn(VariableView) -> bool,
) -> bool {
    &&& kept.len() <= entries.len()
    &&& forall|i: int| #![trigger kept[i]]
        0 <= i < kept.len() ==> stays(kept[i]) && exists|j: int|
            0 <= j < entries.len() && #[trigger] entries[j] == kept[i]
    &&& forall|j: int| #![trigger entries[j]]
        0 <= j < entries.len() && stays(entries[j]) ==> kept.contains(entries[j])
    &&& ascending(entries) ==> ascending(kept)
}

/// Pruning keeps the variables that do not go, and no others.
pub proof fn lemma_pruned(
    all: Seq<VariableView>,
    entries: Seq<VariableView>,
    key: i64,
    itself: bool,
)
    ensures
        selects(
            entries,
            pruned(all, entries, key, itself),
            |v: VariableView| !goes(all, v, key, itself),
        ),
    decreases entries.len(),
{
    if entries.len() > 0 {
        let init = entries.drop_last();
        let last = entries.last();
        let rest = pruned(all, init, key, itself);
        let whole = pruned(all, entries, key, itself);
        lemma_pruned(all, init, key, itself);
        assert forall|i: int| #![trigger whole[i]] 0 <= i < whole.len() implies !goes(
            all,
            whole[i],
            key,
            itself,
        ) && exists|j: int| 0 <= j < entries.len() && #[trigger] entries[j] == whole[i] by {
            if i < rest.len() {
                assert(whole[i] == rest[i]);
                let j = choose|j: int| 0 <= j < init.len() && #[trigger] init[j] == rest[i];
                assert(entries[j] == init[j]);
            } else {
                assert(entries[entries.len() - 1] == whole[i]);
            }
        }
        assert forall|j: int| #![trigger entries[j]]
            0 <= j < entries.len() && !goes(all, entries[j], key, itself) implies whole.contains(
            entries[j],
        ) by {
            if j < init.len() {
                assert(init[j] == entries[j]);
                assert(rest.contains(init[j]));
                let k = choose|k: int| 0 <= k < rest.len() && rest[k] == init[j];
                assert(whole[k] == entries[j]);
            } else {
                assert(whole[whole.len() - 1] == last);
            }
        }
        if ascending(entries) {
            assert forall|i: int, j: int| 0 <= i < j < init.len() implies (
            #[trigger] init[i]).variable_key < (#[trigger] init[j]).variable_key by {
                assert(init[i] == entries[i] && init[j] == entries[j]);
            }
            assert forall|i: int, j: int| 0 <= i < j < whole.len() implies (
            #[trigger] whole[i]).variable_key < (#[trigger] whole[j]).variable_key by {
                assert(whole[i] == rest[i]);
                if j < rest.len() {
                    assert(whole[j] == rest[j]);
                } else {
                    let k = choose|k: int| 0 <= k < init.len() && #[trigger] init[k] == rest[i];
                    assert(entries[k] == init[k]);
                    assert(entries[k].variable_key < entries[entries.len() - 1].variable_key);
                }
            }
        }
    }
}

/// Pruning keeps a cache well formed: whoever stays has a parent that stays.
pub proof fn lemma_pruned_wf(cache: CacheView, key: i64, itself: bool)
    requires
        cache.wf(),
    ensures
        (CacheView { entries: pruned(cache.entries, cache.entries, key, itself), ..cache }).wf(),
{
    let all = cache.entries;
    let kept = pruned(all, all, key, itself);
    lemma_pruned(all, all, key, itself);
    let stays = |v: VariableView| !goes(all, v, key, itself);
    assert forall|i: int| 0 <= i < kept.len() implies 1 <= (#[trigger] kept[i]).variable_key
        < cache.next_key && parent_stands(kept, kept[i]) by {
        assert(stays(kept[i]));
        let j = choose|j: int| 0 <= j < all.len() && #[trigger] all[j] == kept[i];
        assert(parent_stands(all, all[j]));
        if let Some(parent) = kept[i].parent_key {
            let p = position(all, parent);
            assert(all[p].variable_key == parent && 0 <= p < all.len());
            assert(!goes(all, all[p], key, itself));
            assert(stays(all[p]));
            assert(kept.contains(all[p]));
            let k = choose|k: int| 0 <= k < kept.len() && kept[k] == all[p];
            assert(kept[k].variable_key == parent);
        }
    }
}

/// Adoption keeps every variable but the adopted one's former parent, and the order.
pub proof fn lemma_adopted(entries: Seq<VariableView>, parent: i64, child: i64)
    ensures
        adopted(entries, parent, child).len() <= entries.len(),
        forall|i: int| #![trigger adopted(entries, parent, child)[i]]
            0 <= i < adopted(entries, parent, child).len() ==> exists|j: int|
                0 <= j < entries.len() && (#[trigger] entries[j]).variable_key != child && adopted(
                    entries,
                    parent,
                    child,
                )[i] == moved(entries[j], parent, child),
        forall|j: int| #![trigger entries[j]]
            0 <= j < entries.len() && entries[j].variable_key != child ==> adopted(
                entries,
                parent,
                child,
            ).contains(moved(entries[j], parent, child)),
        ascending(entries) ==> ascending(adopted(entries, parent, child)),
    decreases entries.len(),
{
    if entries.len() > 0 {
        let init = entries.drop_last();
        let last = entries.last();
        let rest = adopted(init, parent, child);
        let whole = adopted(entries, parent, child);
        lemma_adopted(init, parent, child);
        assert forall|i: int| #![trigger whole[i]] 0 <= i < whole.len() implies exists|j: int|
            0 <= j < entries.len() && (#[trigger] entries[j]).variable_key != child && whole[i]
                == moved(entries[j], parent, child) by {
            if i < rest.len() {
                assert(whole[i] == rest[i]);
                let j = choose|j: int|
                    0 <= j < init.len() && (#[trigger] init[j]).variable_key != child && rest[i]
                        == moved(init[j], parent, child);
                assert(entries[j] == init[j]);
            } else {
                assert(entries[entries.len() - 1] == last);
            }
        }
        assert forall|j: int| #![trigger entries[j]]
            0 <= j < entries.len() && entries[j].variable_key != child implies whole.contains(
            moved(entries[j], parent, child),
        ) by {
            if j < init.len() {
                assert(init[j] == entries[j]);
                assert(rest.contains(moved(init[j], parent, child)));
                let k = choose|k: int|
                    0 <= k < rest.len() && rest[k] == moved(init[j], parent, child);
                assert(whole[k] == rest[k]);
            } else {
                assert(whole[whole.len() - 1] == moved(last, parent, child));
            }
        }
        if ascending(entries) {
            assert forall|i: int, j: int| 0 <= i < j < init.len() implies (
            #[trigger] init[i]).variable_key < (#[trigger] init[j]).variable_key by {
                assert(init[i] == entries[i] && init[j] == entries[j]);
            }
            assert forall|i: int, j: int| 0 <= i < j < whole.len() implies (
            #[trigger] whole[i]).variable_key < (#[trigger] whole[j]).variable_key by {
                assert(whole[i] == rest[i]);
                if j < rest.len() {
                    assert(whole[j] == rest[j]);
                } else {
                    let k = choose|k: int|
                        0 <= k < init.len() && (#[trigger] init[k]).variable_key != child
                            && rest[i] == moved(init[k], parent, child);
                    assert(entries[k] == init[k]);
                    assert(entries[k].variable_key < entries[entries.len() - 1].variable_key);
                }
            }
        }
    }
}

/// Adoption by an older variable keeps a cache well formed.
pub proof fn lemma_adopted_wf(cache: CacheView, parent: i64, child: i64)
    requires
        cache.wf(),
        cache.has(parent),
        parent < child,
    ensures
        (CacheView { entries: adopted(cache.entries, parent, child), ..cache }).wf(),
{
    let all = cache.entries;
    let kept = adopted(all, parent, child);
    lemma_adopted(all, parent, child);
    assert forall|i: int| 0 <= i < kept.len() implies 1 <= (#[trigger] kept[i]).variable_key
        < cache.next_key && parent_stands(kept, kept[i]) by {
        let j = choose|j: int|
            0 <= j < all.len() && (#[trigger] all[j]).variable_key != child && kept[i] == moved(
                all[j],
                parent,
                child,
            );
        assert(parent_stands(all, all[j]));
        if let Some(above) = kept[i].parent_key {
            assert(above != child);
            assert(has_key(all, above));
            let p = position(all, above);
            assert(all[p].variable_key == above && 0 <= p < all.len());
            assert(kept.contains(moved(all[p], parent, child)));
            let k = choose|k: int|
                0 <= k < kept.len() && kept[k] == moved(all[p], parent, child);
            assert(kept[k].variable_key == above);
        }
    }
}

/// Storing a variable keeps a cache well formed.
pub proof fn lemma_stored_wf(
    cache: CacheView,
    parent_key: Option<i64>,
    variable: VariableView,
    target: Target,
)
    requires
        cache.wf(),
    ensures
        cache.stored(parent_key, variable, target).0.wf(),
{
    let (after, result) = cache.stored(parent_key, variable, target);
    if result is Ok {
        let stored = result->Ok_0;
        let old = cache.entries;
        let new = after.entries;
        if variable.variable_key != 0 {
            let at = position(old, variable.variable_key);
            assert(0 <= at < old.len() && old[at].variable_key == variable.variable_key);
        }
        assert forall|i: int, j: int| 0 <= i < j < new.len() implies (
        #[trigger] new[i]).variable_key < (#[trigger] new[j]).variable_key by {
            if j < old.len() {
                assert(old[i].variable_key < old[j].variable_key);
            } else {
                assert(old[i].variable_key < cache.next_key);
            }
        }
        assert forall|key: i64| has_key(old, key) implies has_key(new, key) by {
            let p = position(old, key);
            assert(new[p].variable_key == key);
        }
        assert forall|i: int| 0 <= i < new.len() implies 1 <= (#[trigger] new[i]).variable_key
            < after.next_key && parent_stands(new, new[i]) by {
            if new[i] != stored {
                assert(new[i] == old[i]);
                assert(parent_stands(old, old[i]));
            }
        }
    }
}

/// What was stored is what the cache has under its key from then on.
pub proof fn law_stored_is_latest(
    cache: CacheView,
    parent_key: Option<i64>,
    variable: VariableView,
    target: Target,
)
    requires
        cache.wf(),
    ensures
        cache.stored(parent_key, variable, target).1 matches Ok(stored) ==> latest(
            cache.stored(parent_key, variable, target).0,
            stored,
        ),
{
    lemma_stored_wf(cache, parent_key, variable, target);
    let (after, result) = cache.stored(parent_key, variable, target);
    if let Ok(stored) = result {
        let at = if variable.variable_key == 0 {
            cache.entries.len() as int
        } else {
            position(cache.entries, variable.variable_key)
        };
        if variable.variable_key != 0 {
            assert(0 <= at < cache.entries.len() && cache.entries[at].variable_key
                == variable.variable_key);
        }
        assert(after.entries[at] == stored);
        lemma_position(after, at);
    }
}

impl Clone for VariableCache {
    fn clone(&self) -> (r: Self)
        ensures
            r@ == self@,
    {
        let mut entries: Vec<Variable> = Vec::new();
        let mut i: usize = 0;
        while i < self.entries.len()
            invariant
                i == entries@.len() <= self.entries@.len(),
                forall|j: int| 0 <= j < i ==> (#[trigger] entries@[j])@ == self.entries@[j]@,
            decreases self.entries.len() - i,
        {
            entries.push(self.entries[i].clone());
            i = i + 1;
        }
        let mut expansions: Vec<i64> = Vec::new();
        let mut i: usize = 0;
        while i < self.expansions.len()
            invariant
                i <= self.expansions@.len(),
                expansions@ == self.expansions@.take(i as int),
            decreases self.expansions.len() - i,
        {
            expansions.push(self.expansions[i]);
            assert(self.expansions@.take(i + 1) =~= self.expansions@.take(i as int).push(
                self.expansions@[i as int],
            ));
            i = i + 1;
        }
        assert(self.expansions@.take(i as int) =~= self.expansions@);
        assert(views(entries@) =~= views(self.entries@));
        VariableCache { entries, next_key: self.next_key, expansions }
    }
}

impl VariableCache {
    /// A cache without variables.
    pub fn new() -> (r: VariableCache)
        ensures
            r@.wf(),
            r@ == (CacheView { entries: Seq::empty(), next_key: 1, expansions: Seq::empty() }),
    {
        let r = VariableCache { entries: Vec::new(), next_key: 1, expansions: Vec::new() };
        assert(r@.entries =~= Seq::empty());
        r
    }

    fn find(&self, key: i64) -> (r: Option<usize>)
        requires
            self@.wf(),
        ensures
            match r {
                Some(i) => {
                    &&& i < self.entries@.len()
                    &&& self@.has(key)
                    &&& position(self@.entries, key) == i
                    &&& self@.entries[i as int] == self.entries@[i as int]@
                    &&& self@.entries[i as int].variable_key == key
                },
                None => !self@.has(key),
            },
    {
        let mut i: usize = 0;
        while i < self.entries.len()
            invariant
                self@.wf(),
                i <= self.entries.len(),
                forall|j: int|
                    0 <= j < i ==> (#[trigger] self@.entries[j]).variable_key != key,
            decreases self.entries.len() - i,
        {
            assert(self@.entries[i as int] == self.entries@[i as int]@);
            if self.entries[i].variable_key == key {
                proof {
                    lemma_position(self@, i as int);
                }
                return Some(i);
            }
            i = i + 1;
        }
        None
    }

    /// The variable with the key `key`.
    pub fn get_variable_by_key(&self, key: i64) -> (r: Option<Variable>)
        requires
            self@.wf(),
        ensures
            match r {
                Some(variable) => self@.has(key) && variable@ == self@.get(key),
                None => !self@.has(key),
            },
    {
        match self.find(key) {
            Some(i) => Some(self.entries[i].clone()),
            None => None,
        }
    }

    /// Stores `variable` below the variable with the key `parent_key`, and returns a copy of what
    /// was stored. Where nothing is known of its value, the value is taken from the target.
    pub fn cache_variable(
        &mut self,
        parent_key: Option<i64>,
        variable: Variable,
        target: &Target,
    ) -> (r: Result<Variable, DebugError>)
        requires
            old(self)@.wf(),
        ensures
            final(self)@.wf(),
            (final(self)@, result_view(r)) == old(self)@.stored(parent_key, variable@, *target),
            r matches Ok(stored) ==> latest(final(self)@, stored@),
    {
        proof {
            lemma_stored_wf(self@, parent_key, variable@, *target);
            law_stored_is_latest(self@, parent_key, variable@, *target);
        }
        let ghost before = self@;
        let mut stored = variable;
        let ghost given = stored@;
        let new: bool = stored.variable_key == 0;
        if new {
            stored.variable_key = self.next_key;
        }
        if parent_key.is_some() {
            stored.parent_key = parent_key;
        }
        if let Some(parent) = stored.parent_key {
            let stands: bool = parent < stored.variable_key && self.find(parent).is_some();
            if !stands {
                return Err(DebugError::UnknownParent(parent));
            }
        }
        let unknown: bool = match (&stored.value, &stored.variable_type) {
            (VariableValue::Empty, VariableType::Base(_)) => true,
            _ => false,
        };
        if unknown {
            if let Some(value) = target.value_of(&stored) {
                stored.value = value;
            }
        }
        if new {
            if self.next_key == i64::MAX {
                return Err(DebugError::KeysExhausted);
            }
            let copy = stored.clone();
            self.next_key = self.next_key + 1;
            self.entries.push(stored);
            assert(self@.entries =~= before.entries.push(copy@));
            Ok(copy)
        } else {
            match self.find(stored.variable_key) {
                Some(i) => {
                    let copy = stored.clone();
                    self.entries.set(i, stored);
                    assert(self@.entries =~= before.entries.update(i as int, copy@));
                    Ok(copy)
                },
                None => Err(DebugError::UnknownVariable(stored.variable_key)),
            }
        }
    }

    /// Whether some variable has `variable` as its parent.
    pub fn has_children(&self, variable: &Variable) -> (r: bool)
        ensures
            r == self@.has_children(variable.variable_key),
    {
        let mut i: usize = 0;
        while i < self.entries.len()
            invariant
                i <= self.entries.len(),
                forall|j: int|
                    0 <= j < i ==> (#[trigger] self@.entries[j]).parent_key != Some(
                        variable.variable_key,
                    ),
            decreases self.entries.len() - i,
        {
            assert(self@.entries[i as int] == self.entries@[i as int]@);
            if let Some(parent) = self.entries[i].parent_key {
                if parent == variable.variable_key {
                    return true;
                }
            }
            i = i + 1;
        }
        false
    }

    /// The variables whose parent has the key `key`, in the order of their keys.
    pub fn get_children(&self, key: i64) -> (r: Vec<Variable>)
        ensures
            views(r@) == children_of(self@.entries, key),
    {
        let mut r: Vec<Variable> = Vec::new();
        let mut i: usize = 0;
        assert(self@.entries.take(0) =~= Seq::empty());
        assert(views(r@) =~= Seq::empty());
        while i < self.entries.len()
            invariant
                i <= self.entries.len(),
                views(r@) == children_of(self@.entries.take(i as int), key),
            decreases self.entries.len() - i,
        {
            let ghost before = views(r@);
            assert(self@.entries.take(i + 1).drop_last() =~= self@.entries.take(i as int));
            assert(self@.entries[i as int] == self.entries@[i as int]@);
            if let Some(parent) = self.entries[i].parent_key {
                if parent == key {
                    r.push(self.entries[i].clone());
                    assert(views(r@) =~= before.push(self@.entries[i as int]));
                }
            }
            i = i + 1;
        }
        assert(self@.entries.take(i as int) =~= self@.entries);
        r
    }

    fn prune(&mut self, key: i64, itself: bool)
        requires
            old(self)@.wf(),
        ensures
            final(self)@.wf(),
            final(self)@ == (CacheView {
                entries: pruned(old(self)@.entries, old(self)@.entries, key, itself),
                ..old(self)@
            }),
    {
        let ghost all = self@.entries;
        proof {
            lemma_pruned_wf(self@, key, itself);
        }
        let mut kept: Vec<Variable> = Vec::new();
        let mut under: Vec<bool> = Vec::new();
        let mut i: usize = 0;
        assert(all.take(0) =~= Seq::empty());
        assert(views(kept@) =~= Seq::empty());
        while i < self.entries.len()
            invariant
                self@.wf(),
                self@ == old(self)@,
                all == self@.entries,
                all.len() == self.entries@.len(),
                i <= self.entries.len(),
                under@.len() == i,
                forall|j: int| 0 <= j < i ==> #[trigger] under@[j] == below(all, all[j], key),
                views(kept@) == pruned(all, all.take(i as int), key, itself),
            decreases self.entries.len() - i,
        {
            let ghost before = views(kept@);
            assert(all.take(i + 1).drop_last() =~= all.take(i as int));
            assert(all[i as int] == self.entries@[i as int]@);
            assert(parent_stands(all, all[i as int]));
            let is_under: bool = match self.entries[i].parent_key {
                None => false,
                Some(parent) => {
                    if parent == key {
                        true
                    } else {
                        match self.find(parent) {
                            None => false,
                            Some(p) => {
                                proof {
                                    if p >= i {
                                        assert(p == i || all[i as int].variable_key
                                            < all[p as int].variable_key);
                                    }
                                }
                                under[p]
                            },
                        }
                    }
                },
            };
            assert(is_under == below(all, all[i as int], key));
            if !(is_under || (itself && self.entries[i].variable_key == key)) {
                kept.push(self.entries[i].clone());
                assert(views(kept@) =~= before.push(all[i as int]));
            }
            under.push(is_under);
            i = i + 1;
        }
        assert(all.take(i as int) =~= all);
        self.entries = kept;
    }

    /// Removes the variable with the key `key` and all below it.
    pub fn remove_cache_entry(&mut self, key: i64) -> (r: Result<(), DebugError>)
        requires
            old(self)@.wf(),
        ensures
            final(self)@.wf(),
            (final(self)@, unit_view(r)) == old(self)@.removed(key),
    {
        if self.find(key).is_none() {
            return Err(DebugError::UnknownVariable(key));
        }
        self.prune(key, true);
        Ok(())
    }

    /// Removes all below the variable with the key `key`.
    pub fn remove_cache_entry_children(&mut self, key: i64)
        requires
            old(self)@.wf(),
        ensures
            final(self)@.wf(),
            final(self)@ == old(self)@.cleared(key),
    {
        self.prune(key, false);
    }

    /// Moves the children of `child` to `parent`, which is older, and removes `child`.
    pub fn adopt_grand_children(&mut self, parent: &Variable, child: &Variable) -> (r: Result<
        (),
        DebugError,
    >)
        requires
            old(self)@.wf(),
        ensures
            final(self)@.wf(),
            (final(self)@, unit_view(r)) == old(self)@.adopt(
                parent.variable_key,
                child.variable_key,
            ),
    {
        let parent_key: i64 = parent.variable_key;
        let child_key: i64 = child.variable_key;
        if self.find(child_key).is_none() {
            return Err(DebugError::UnknownVariable(child_key));
        }
        if !(parent_key < child_key && self.find(parent_key).is_some()) {
            return Err(DebugError::UnknownParent(parent_key));
        }
        let ghost all = self@.entries;
        proof {
            lemma_adopted_wf(self@, parent_key, child_key);
        }
        let mut kept: Vec<Variable> = Vec::new();
        let mut i: usize = 0;
        assert(all.take(0) =~= Seq::empty());
        assert(views(kept@) =~= Seq::empty());
        while i < self.entries.len()
            invariant
                self@ == old(self)@,
                all == self@.entries,
                all.len() == self.entries@.len(),
                i <= self.entries.len(),
                views(kept@) == adopted(all.take(i as int), parent_key, child_key),
            decreases self.entries.len() - i,
        {
            let ghost before = views(kept@);
            assert(all.take(i + 1).drop_last() =~= all.take(i as int));
            assert(all[i as int] == self.entries@[i as int]@);
            if self.entries[i].variable_key != child_key {
                let mut variable = self.entries[i].clone();
                if let Some(above) = variable.parent_key {
                    if above == child_key {
                        variable.parent_key = Some(parent_key);
                    }
                }
                let ghost v = variable@;
                kept.push(variable);
                assert(views(kept@) =~= before.push(v));
            }
            i = i + 1;
        }
        assert(all.take(i as int) =~= all);
        self.entries = kept;
        Ok(())
    }

    /// Notes the pointer with the key `key` for its target to be resolved without being asked for.
    pub fn request_expansion(&mut self, key: i64)
        requires
            old(self)@.wf(),
        ensures
            final(self)@.wf(),
            final(self)@ == old(self)@.expanding(key),
    {
        self.expansions.push(key);
    }

    /// The keys of the pointers whose targets are to be resolved without being asked for, in the
    /// order in which they were met.
    pub fn expansions(&self) -> (r: &Vec<i64>)
        ensures
            r@ == self@.expansions,
    {
        &self.expansions
    }
}

} // verus!
