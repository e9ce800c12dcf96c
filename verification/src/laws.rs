//! What holds of the library as a whole.
use vstd::prelude::*;

#[allow(unused_imports)]
use crate::attributes::{discriminant_of, PairOutcome};
#[allow(unused_imports)]
use crate::cache::{
    adopted, below, children_of, goes, has_key, lemma_adopted, lemma_adopted_wf, lemma_pruned,
    lemma_pruned_wf, moved, position, pruned, CacheView,
};
#[allow(unused_imports)]
use crate::dwarf::{
    first_named, Attribute, AttributeValue, Encoding, Entry, Range, UnitInfo, DW_AT_ABSTRACT_ORIGIN,
    DW_AT_ALIGNMENT, DW_AT_BYTE_SIZE, DW_AT_CONTAINING_TYPE, DW_AT_DECLARATION, DW_AT_DECL_COLUMN,
    DW_AT_DECL_FILE, DW_AT_DECL_LINE, DW_AT_DISCR_VALUE, DW_AT_ENCODING, DW_AT_EXTERNAL,
    DW_AT_LINKAGE_NAME, DW_AT_NAME, DW_AT_RANGES, DW_TAG_INLINED_SUBROUTINE, DW_TAG_VARIANT,
};
#[allow(unused_imports)]
use crate::error::DebugErrorView;
#[allow(unused_imports)]
use crate::evaluation::evaluated;
#[allow(unused_imports)]
use crate::frame::holds;
#[allow(unused_imports)]
use crate::functions::{function_for, range_at, ranges_at, Definition, FunctionDie};
#[allow(unused_imports)]
use crate::location::{located_by, located_from};
#[allow(unused_imports)]
use crate::stored::law_children;
#[allow(unused_imports)]
use crate::target::Target;
#[allow(unused_imports)]
use crate::text::{decimal, digits_value, is_digit, parsed_u64, unsigned_part};
#[allow(unused_imports)]
use crate::tree::{between, discrete_scope, discriminated, in_ranges, passed_over, scope_of};
#[allow(unused_imports)]
use crate::types::enumeration_valued;
#[allow(unused_imports)]
use crate::variable::{text_view, Variable, VariableValue, VariableView, VariantRole};

verus! {

/// A number is read back from its numeral.
pub proof fn law_numeral_round_trip(n: u64)
    ensures
        parsed_u64(decimal(n as nat)) == Some(n),
{
    lemma_decimal(n as nat);
    assert(unsigned_part(decimal(n as nat)) =~= decimal(n as nat));
}

/// A numeral is made of digits, does not begin with a sign, and stands for its number.
proof fn lemma_decimal(n: nat)
    ensures
        decimal(n).len() > 0,
        forall|i: int| 0 <= i < decimal(n).len() ==> is_digit(#[trigger] decimal(n)[i]),
        digits_value(decimal(n)) == n,
    decreases n,
{
    let digits = decimal(n);
    if n < 10 {
        assert(digits.drop_last() =~= Seq::<char>::empty());
        assert(digits_value(digits.drop_last()) == 0);
    } else {
        lemma_decimal(n / 10);
        assert(digits.drop_last() =~= decimal(n / 10));
    }
}

/// The discriminant that a variable holds is the number that its value shows.
pub proof fn law_discriminant_is_the_value(variable: VariableView, n: u64)
    requires
        variable.value == VariableValue::Valid(decimal(n as nat)),
    ensures
        discriminant_of(variable) == Ok::<u64, DebugErrorView>(n),
{
    law_numeral_round_trip(n);
}

/// What is no number counts as the largest one for a discriminant: an error, a value that is not
/// known of another than a base type, and a text that is empty or has another character than
/// digits, but for a plus sign before them. The value of a base type must be known.
pub proof fn law_discriminant_unreadable(variable: VariableView, text: Seq<char>, at: int)
    ensures
        variable.value is Error ==> discriminant_of(variable) == Ok::<u64, DebugErrorView>(
            u64::MAX,
        ),
        variable.value is Empty && !(variable.variable_type is Base) ==> discriminant_of(variable)
            == Ok::<u64, DebugErrorView>(u64::MAX),
        variable.value is Empty && variable.variable_type is Base ==> (discriminant_of(
            variable,
        ) matches Err(DebugErrorView::NeedsValue { variable_type, memory_location, byte_size })
            && variable_type == variable.variable_type && memory_location
            == variable.memory_location && byte_size == variable.byte_size),
        variable.value == VariableValue::Valid(text) && (text.len() == 0 || (0 <= at < text.len()
            && !('0' <= text[at] <= '9') && (at > 0 || text[0] != '+'))) ==> discriminant_of(
            variable,
        ) == Ok::<u64, DebugErrorView>(u64::MAX),
{
    if 0 <= at < text.len() && !('0' <= text[at] <= '9') && (at > 0 || text[0] != '+') {
        lemma_no_numeral(text, at);
    }
}

/// A text with another character than digits, but for a plus sign before them, is no number.
proof fn lemma_no_numeral(text: Seq<char>, at: int)
    requires
        0 <= at < text.len(),
        !('0' <= text[at] <= '9'),
        at > 0 || text[0] != '+',
    ensures
        parsed_u64(text) is None,
{
    let digits = unsigned_part(text);
    if text[0] == '+' {
        assert(digits[at - 1] == text[at]);
        assert(!is_digit(digits[at - 1]));
    } else {
        assert(!is_digit(digits[at]));
    }
}

/// Only base types have values: storing a variable decodes no value of any other type.
pub proof fn law_only_base_types_have_values(
    cache: CacheView,
    parent_key: Option<i64>,
    variable: VariableView,
    target: Target,
)
    ensures
        cache.stored(parent_key, variable, target).1 matches Ok(stored) ==> stored.value
            == variable.value || (variable.variable_type is Base && variable.value is Empty),
{
}

/// No error is lost: an error that follows another one is appended to it, and a variable that has
/// an error is not valid.
pub proof fn law_errors_accumulate(variable: VariableView, first: Seq<char>, second: Seq<char>)
    ensures
        !variable.with_error(first).valid(),
        variable.valid() ==> variable.with_error(first).with_error(second).value
            == VariableValue::Error(first + " : "@ + second),
{
}

/// What only the caller can decide is that memory must be read, or a size that is not supported; no
/// other error is.
pub proof fn law_for_caller(error: DebugErrorView)
    ensures
        error.for_caller() <==> (error is NeedsMemory || error is UnsupportedMemorySize),
        error is NestedTooDeep || error is Dwarf || error is Other || error is RegisterTooWide
            || error is NoEntry || error is NeedsValue || error is MemoryRead
            ==> !error.for_caller(),
{
}

/// A variable has children exactly where a variable has it for a parent, and these are they.
pub proof fn law_has_children(cache: CacheView, key: i64)
    ensures
        cache.has_children(key) <==> exists|variable: VariableView| #[trigger]
            holds(cache, variable) && variable.parent_key == Some(key),
        cache.has_children(key) <==> children_of(cache.entries, key).len() > 0,
{
    law_children(cache.entries, key);
    let children = children_of(cache.entries, key);
    if cache.has_children(key) {
        let i = choose|i: int|
            0 <= i < cache.entries.len() && (#[trigger] cache.entries[i]).parent_key == Some(key);
        assert(holds(cache, cache.entries[i]));
        assert(children.contains(cache.entries[i]));
    }
    if children.len() > 0 {
        assert(children[0].parent_key == Some(key));
        assert(cache.entries.contains(children[0]));
        let i = choose|i: int|
            0 <= i < cache.entries.len() && #[trigger] cache.entries[i] == children[0];
        assert(cache.entries[i].parent_key == Some(key));
    }
}

/// A variant for which no discriminant is given is the default one; a variable that is no variant
/// is left as it is; and reading a discriminant changes nothing but the role and the value.
pub proof fn law_discriminant_default(variable: VariableView, entry: Entry)
    ensures
        entry.tag == DW_TAG_VARIANT && entry.attribute(DW_AT_DISCR_VALUE) == Ok::<
            Option<Attribute>,
            Seq<char>,
        >(None) ==> discriminated(variable, entry) == (Variable {
            role: VariantRole::Variant(u64::MAX),
            ..variable
        }),
        entry.tag != DW_TAG_VARIANT ==> discriminated(variable, entry) == variable,
        discriminated(variable, entry) == (Variable {
            role: discriminated(variable, entry).role,
            value: discriminated(variable, entry).value,
            ..variable
        }),
{
}

/// A block is in scope exactly where the program counter lies between its bounds or in one of its
/// ranges.
pub proof fn law_block_scope(entry: Entry, variable: VariableView, program_counter: u64)
    requires
        discrete_scope(entry) is Ok,
    ensures
        scope_of(entry, variable, program_counter) matches Ok((_, in_scope)) && (in_scope <==> {
            ||| between(discrete_scope(entry)->Ok_0, program_counter)
            ||| entry.attribute(DW_AT_RANGES) matches Ok(Some(attribute))
                && attribute.value matches AttributeValue::RangeListsRef(ranges) && in_ranges(
                ranges@,
                program_counter as nat,
            )
        }),
{
}

/// A block that is not in scope adds nothing to the cache and makes its variable invalid.
pub proof fn law_block_out_of_scope(
    unit: UnitInfo,
    child: int,
    parent: VariableView,
    program_counter: u64,
    target: Target,
    cache: CacheView,
    fuel: nat,
)
    requires
        scope_of(unit.entries@[child], parent, program_counter) matches Ok((_, false)),
    ensures
        ({
            let outcome = unit.block_processed(
                child,
                parent,
                program_counter,
                target,
                cache,
                fuel,
            );
            &&& outcome.0 == cache
            &&& outcome.1 matches Ok(updated) && !updated.valid()
        }),
{
}

/// An expression that fails leaves the variable as it is.
pub proof fn law_failed_expression(
    variable: VariableView,
    expression: Seq<u8>,
    encoding: Encoding,
    target: Target,
)
    ensures
        evaluated(variable, expression, encoding, target).1 is Err ==> evaluated(
            variable,
            expression,
            encoding,
            target,
        ).0 == variable,
{
}

/// Finding out where a variable is kept changes nothing of it but its place and its value.
pub proof fn law_location_changes_place_or_value(
    variable: VariableView,
    parent: VariableView,
    attributes: Seq<Attribute>,
    from: int,
    encoding: Encoding,
    target: Target,
)
    ensures
        ({
            let updated = located_from(variable, parent, attributes, from, encoding, target).0;
            updated == Variable {
                memory_location: updated.memory_location,
                value: updated.value,
                ..variable
            }
        }),
    decreases attributes.len() - from,
{
    if from < attributes.len() {
        let (updated, result) = located_by(variable, parent, attributes[from], encoding, target);
        assert(updated == (Variable {
            memory_location: updated.memory_location,
            value: updated.value,
            ..variable
        }));
        if result is Ok {
            law_location_changes_place_or_value(
                updated,
                parent,
                attributes,
                from + 1,
                encoding,
                target,
            );
        }
    }
}

/// Removing a variable removes it and all its parts, and leaves all others as they are.
pub proof fn law_removed(cache: CacheView, key: i64)
    requires
        cache.wf(),
        cache.has(key),
    ensures
        ({
            let after = cache.removed(key).0;
            &&& after.wf()
            &&& !after.has(key)
            &&& forall|variable: VariableView|
                #[trigger] holds(after, variable) <==> holds(cache, variable)
                    && variable.variable_key != key && !below(cache.entries, variable, key)
        }),
{
    let after = cache.removed(key).0;
    lemma_pruned_wf(cache, key, true);
    lemma_kept_by_pruning(cache, key, true);
    if after.has(key) {
        let i = position(after.entries, key);
        assert(holds(after, after.entries[i]));
    }
}

/// Removing the parts of a variable removes all of them, and leaves all other variables as they
/// are; it has no children then.
pub proof fn law_cleared(cache: CacheView, key: i64)
    requires
        cache.wf(),
    ensures
        ({
            let after = cache.cleared(key);
            &&& after.wf()
            &&& !after.has_children(key)
            &&& forall|variable: VariableView|
                #[trigger] holds(after, variable) <==> holds(cache, variable) && !below(
                    cache.entries,
                    variable,
                    key,
                )
        }),
{
    let after = cache.cleared(key);
    lemma_pruned_wf(cache, key, false);
    lemma_kept_by_pruning(cache, key, false);
    assert forall|i: int| 0 <= i < after.entries.len() implies (
    #[trigger] after.entries[i]).parent_key != Some(key) by {
        assert(holds(after, after.entries[i]));
    }
}

/// What pruning keeps, and no more.
proof fn lemma_kept_by_pruning(cache: CacheView, key: i64, itself: bool)
    ensures
        ({
            let after = CacheView {
                entries: pruned(cache.entries, cache.entries, key, itself),
                ..cache
            };
            forall|variable: VariableView|
                #[trigger] holds(after, variable) <==> holds(cache, variable) && !goes(
                    cache.entries,
                    variable,
                    key,
                    itself,
                )
        }),
{
    let all = cache.entries;
    let kept = pruned(all, all, key, itself);
    let after = CacheView { entries: kept, ..cache };
    let stays = |v: VariableView| !goes(all, v, key, itself);
    lemma_pruned(all, all, key, itself);
    assert forall|variable: VariableView| #[trigger] holds(after, variable) implies holds(
        cache,
        variable,
    ) && !goes(all, variable, key, itself) by {
        let i = choose|i: int| 0 <= i < kept.len() && #[trigger] after.entries[i] == variable;
        assert(stays(kept[i]));
        let j = choose|j: int| 0 <= j < all.len() && #[trigger] all[j] == kept[i];
        assert(cache.entries[j] == variable);
    }
    assert forall|variable: VariableView|
        holds(cache, variable) && !goes(all, variable, key, itself) implies #[trigger] holds(
        after,
        variable,
    ) by {
        let j = choose|j: int| 0 <= j < all.len() && #[trigger] cache.entries[j] == variable;
        assert(stays(all[j]));
        assert(kept.contains(all[j]));
        let i = choose|i: int| 0 <= i < kept.len() && kept[i] == all[j];
        assert(after.entries[i] == variable);
    }
}

/// Adoption removes the child in between and moves its parts one up; all other variables stay as
/// they are.
pub proof fn law_adopted(cache: CacheView, parent: i64, child: i64)
    requires
        cache.wf(),
        cache.adopt(parent, child).1 is Ok,
    ensures
        ({
            let after = cache.adopt(parent, child).0;
            &&& after.wf()
            &&& !after.has(child)
            &&& forall|variable: VariableView|
                holds(cache, variable) && variable.variable_key != child ==> #[trigger] holds(
                    after,
                    moved(variable, parent, child),
                )
            &&& after.entries.len() < cache.entries.len()
        }),
{
    let after = cache.adopt(parent, child).0;
    lemma_adopted_wf(cache, parent, child);
    lemma_adopted(cache.entries, parent, child);
    assert forall|variable: VariableView|
        holds(cache, variable) && variable.variable_key != child implies #[trigger] holds(
        after,
        moved(variable, parent, child),
    ) by {
        let j = choose|j: int|
            0 <= j < cache.entries.len() && #[trigger] cache.entries[j] == variable;
        assert(cache.entries[j].variable_key != child);
        let i = choose|i: int|
            0 <= i < after.entries.len() && after.entries[i] == moved(variable, parent, child);
        assert(after.entries[i] == moved(variable, parent, child));
    }
    if after.has(child) {
        let i = position(after.entries, child);
        assert(adopted(cache.entries, parent, child)[i] == after.entries[i]);
    }
    lemma_adopted_shorter(cache.entries, parent, child);
}

/// Adoption removes a variable that is there.
proof fn lemma_adopted_shorter(entries: Seq<VariableView>, parent: i64, child: i64)
    requires
        has_key(entries, child),
    ensures
        adopted(entries, parent, child).len() < entries.len(),
    decreases entries.len(),
{
    let init = entries.drop_last();
    lemma_adopted(init, parent, child);
    if entries.last().variable_key != child {
        let i = position(entries, child);
        assert(init[i].variable_key == child);
        lemma_adopted_shorter(init, parent, child);
    }
}

/// Once an enumeration has its value, none of its enumerators is left.
pub proof fn law_enumeration_keeps_no_enumerators(
    variable: VariableView,
    target: Target,
    cache: CacheView,
)
    requires
        cache.wf(),
    ensures
        enumeration_valued(variable, target, cache).1 is Ok ==> !enumeration_valued(
            variable,
            target,
            cache,
        ).0.has_children(variable.variable_key),
{
    law_cleared(cache, variable.variable_key);
}

/// The ranges that hold an address are among those that were looked through.
proof fn lemma_ranges_at(ranges: Seq<Range>, address: nat)
    ensures
        forall|i: int|
            0 <= i < ranges_at(ranges, address).len() ==> (#[trigger] ranges_at(
                ranges,
                address,
            )[i]).holds(address) && ranges.contains(ranges_at(ranges, address)[i]),
    decreases ranges.len(),
{
    reveal(Seq::filter);
    if ranges.len() > 0 {
        let rest = ranges.drop_last();
        lemma_ranges_at(rest, address);
        assert forall|i: int| 0 <= i < ranges_at(ranges, address).len() implies (
        #[trigger] ranges_at(ranges, address)[i]).holds(address) && ranges.contains(
            ranges_at(ranges, address)[i],
        ) by {
            if i < ranges_at(rest, address).len() {
                let range = ranges_at(rest, address)[i];
                assert(ranges_at(ranges, address)[i] == range);
                assert(rest.contains(range));
                let k = choose|k: int| 0 <= k < rest.len() && rest[k] == range;
                assert(ranges[k] == range);
            } else {
                assert(ranges_at(ranges, address)[i] == ranges.last());
                assert(ranges[ranges.len() - 1] == ranges.last());
            }
        }
    }
}

/// Whether applying an attribute made `described` of a variable, and left the parent and the cache
/// as they are.
pub open spec fn only_described(
    outcome: PairOutcome,
    parent: VariableView,
    described: VariableView,
    cache: CacheView,
) -> bool {
    outcome.0 == cache && outcome.1 == parent && (outcome.2 matches Ok(variable) && variable
        == described)
}

impl UnitInfo {
    /// Every function that is found contains the address.
    pub proof fn law_functions_contain_address(self, address: nat, find_inlined: bool)
        ensures
            self.functions_from(address, find_inlined, 0) matches Ok(functions) ==> forall|i: int|
                0 <= i < functions.len() ==> (#[trigger] functions[i]).range().holds(address),
    {
        self.lemma_functions_contain(address, find_inlined, 0);
    }

    /// Of the functions that are found, the first is a function of its own and the others were
    /// inlined. There is one at most where inlined ones are not asked for, and the same one comes
    /// first where they are.
    pub proof fn law_single_function(self, address: nat)
        ensures
            self.functions_from(address, false, 0) matches Ok(functions) ==> {
                &&& functions.len() <= 1
                &&& forall|i: int|
                    0 <= i < functions.len() ==> (#[trigger] functions[i]).abstract_offset is None
            },
            self.functions_from(address, true, 0) matches Ok(functions) ==> {
                &&& self.functions_from(address, false, 0) matches Ok(single)
                    && single.is_prefix_of(functions) && (single.len() == 0 ==> functions.len()
                    == 0)
                &&& forall|i: int|
                    1 <= i < functions.len() ==> (#[trigger] functions[i]).abstract_offset is Some
            },
    {
        self.lemma_single_function(address, 0);
    }

    /// Where inlined functions are asked for, what follows the function that contains the address
    /// is exactly what is found when those that were inlined into it are asked for by themselves;
    /// and where no function contains the address, nothing follows.
    pub proof fn law_inlined_follow(self, address: nat)
        ensures
            self.functions_from(address, true, 0) == (match self.functions_from(address, false, 0) {
                Err(error) => Err(error),
                Ok(single) => if single.len() == 0 {
                    Ok(single)
                } else {
                    match self.inlined_functions(address, single[0].offset) {
                        Err(error) => Err(error),
                        Ok(inlined) => Ok(single + inlined),
                    }
                },
            }),
    {
        self.lemma_inlined_follow(address, 0);
    }

    /// What follows the function that contains the address, among the entries from `from` on.
    proof fn lemma_inlined_follow(self, address: nat, from: int)
        ensures
            self.functions_from(address, true, from) == (match self.functions_from(
                address,
                false,
                from,
            ) {
                Err(error) => Err(error),
                Ok(single) => if single.len() == 0 {
                    Ok(single)
                } else {
                    match self.inlined_functions(address, single[0].offset) {
                        Err(error) => Err(error),
                        Ok(inlined) => Ok(single + inlined),
                    }
                },
            }),
        decreases self.walked - from,
    {
        if from < self.walked {
            self.lemma_inlined_follow(address, from + 1);
        }
    }

    /// Whether `function` is one that was inlined into the one that the entry `start` describes: an
    /// entry below that one describes it, and has its range, which holds `address`.
    pub open spec fn inlined_into(self, start: int, address: nat, function: FunctionDie) -> bool {
        exists|node: int| #[trigger]
            self.stands_below(start, node) && self.inlined_by(node, address, function)
    }

    /// Whether the entry `node` describes the inlined function `function`, and has its range, which
    /// holds `address`.
    pub open spec fn inlined_by(self, node: int, address: nat, function: FunctionDie) -> bool {
        &&& self.entries@[node].tag == DW_TAG_INLINED_SUBROUTINE
        &&& self.entries@[node].offset == function.offset
        &&& self.entries@[node].ranges matches Ok(ranges) && ranges@.contains(function.range())
        &&& function.range().holds(address)
        &&& function.abstract_offset is Some
    }

    /// The functions that were inlined into one stand below it and contain the address.
    pub proof fn law_inlined_stand_below(self, address: nat, offset: usize)
        ensures
            self.inlined_functions(address, offset) matches Ok(functions) ==> forall|i: int|
                0 <= i < functions.len() ==> {
                    &&& self.entry_at(offset) matches Some(start) && self.inlined_into(
                        start,
                        address,
                        #[trigger] functions[i],
                    )
                    &&& functions[i].range().holds(address)
                    &&& functions[i].abstract_offset is Some
                },
    {
        if let Some(start) = self.entry_at(offset) {
            self.lemma_inlined_below(address, start, start + 1, 0, Seq::empty());
        }
    }

    /// The inlined functions that are found from an entry on stand below the entry `start` and
    /// contain the address if those that were found before do.
    proof fn lemma_inlined_below(
        self,
        address: nat,
        start: int,
        from: int,
        abort_depth: int,
        found: Seq<FunctionDie>,
    )
        requires
            start < from,
            forall|i: int| start < i < from ==> #[trigger] self.depth_below(start, i) > 0,
            forall|i: int|
                0 <= i < found.len() ==> self.inlined_into(start, address, #[trigger] found[i]),
        ensures
            self.inlined_from(address, start, from, abort_depth, found) matches Ok(functions)
                ==> forall|i: int|
                0 <= i < functions.len() ==> self.inlined_into(
                    start,
                    address,
                    #[trigger] functions[i],
                ),
        decreases self.walked - from,
    {
        let depth = self.depth_below(start, from);
        if from < self.walked && depth > 0 {
            let entry = self.entries@[from];
            self.lemma_inlined_below(address, start, from + 1, abort_depth, found);
            self.lemma_inlined_below(address, start, from + 1, depth, found);
            if let Ok(ranges) = entry.ranges {
                if let Definition::Entry(definition) = self.definition_of(from) {
                    let hits = ranges_at(ranges@, address);
                    lemma_ranges_at(ranges@, address);
                    let new = function_for(
                        entry.offset,
                        Some(self.entries@[definition].offset),
                        hits,
                    );
                    let all = found + new;
                    if entry.tag == DW_TAG_INLINED_SUBROUTINE {
                        assert forall|i: int| 0 <= i < all.len() implies self.inlined_into(
                            start,
                            address,
                            #[trigger] all[i],
                        ) by {
                            if i >= found.len() {
                                assert(all[i].range() == hits[i - found.len()]);
                                assert(self.stands_below(start, from));
                                assert(self.inlined_by(from, address, all[i]));
                            } else {
                                assert(all[i] == found[i]);
                            }
                        }
                        self.lemma_inlined_below(address, start, from + 1, depth, all);
                    }
                }
            }
        }
    }

    /// Where the addresses of all inlined functions below a function can be read, and none of them
    /// has the address, nothing was inlined into the function there.
    pub proof fn law_none_inlined(self, address: nat, offset: usize)
        requires
            self.entry_at(offset) matches Some(start) ==> forall|node: int| #[trigger]
                self.stands_below(start, node) && self.entries@[node].tag
                    == DW_TAG_INLINED_SUBROUTINE ==> self.misses(node, address),
        ensures
            self.inlined_functions(address, offset) == Ok::<Seq<FunctionDie>, DebugErrorView>(
                Seq::empty(),
            ),
    {
        if let Some(start) = self.entry_at(offset) {
            self.lemma_none_inlined(address, start, start + 1);
        }
    }

    /// Whether the addresses of the code of the entry `node` can be read, and `address` is not
    /// among them.
    pub open spec fn misses(self, node: int, address: nat) -> bool {
        self.entries@[node].ranges matches Ok(ranges) && forall|i: int|
            0 <= i < ranges@.len() ==> !(#[trigger] ranges@[i]).holds(address)
    }

    /// Nothing is found from an entry on where none of the entries has the address.
    proof fn lemma_none_inlined(self, address: nat, start: int, from: int)
        requires
            start < from,
            forall|i: int| start < i < from ==> #[trigger] self.depth_below(start, i) > 0,
            forall|node: int| #[trigger]
                self.stands_below(start, node) && self.entries@[node].tag
                    == DW_TAG_INLINED_SUBROUTINE ==> self.misses(node, address),
        ensures
            self.inlined_from(address, start, from, 0, Seq::empty()) == Ok::<
                Seq<FunctionDie>,
                DebugErrorView,
            >(Seq::empty()),
        decreases self.walked - from,
    {
        if from < self.walked && self.depth_below(start, from) > 0 {
            self.lemma_none_inlined(address, start, from + 1);
            assert(self.stands_below(start, from));
            if self.entries@[from].tag == DW_TAG_INLINED_SUBROUTINE {
                if let Ok(ranges) = self.entries@[from].ranges {
                    let hits = ranges_at(ranges@, address);
                    lemma_ranges_at(ranges@, address);
                    if hits.len() > 0 {
                        assert(ranges@.contains(hits[0]));
                        let i = choose|i: int| 0 <= i < ranges@.len() && ranges@[i] == hits[0];
                        assert(ranges@[i].holds(address));
                    }
                }
            }
        }
    }

    /// Every function that is found from an entry on contains the address.
    proof fn lemma_functions_contain(self, address: nat, find_inlined: bool, from: int)
        ensures
            self.functions_from(address, find_inlined, from) matches Ok(functions) ==> forall|
                i: int,
            |
                0 <= i < functions.len() ==> (#[trigger] functions[i]).range().holds(address),
        decreases self.walked - from,
    {
        if from < self.walked {
            let entry = self.entries@[from];
            self.lemma_functions_contain(address, find_inlined, from + 1);
            if let Ok(ranges) = entry.ranges {
                lemma_range_at(ranges@, address, 0);
                self.law_inlined_stand_below(address, entry.offset);
            }
        }
    }

    /// Asking for inlined functions puts them behind the one that is found anyway.
    proof fn lemma_single_function(self, address: nat, from: int)
        ensures
            self.functions_from(address, false, from) matches Ok(functions) ==> functions.len() <= 1
                && forall|i: int|
                0 <= i < functions.len() ==> (#[trigger] functions[i]).abstract_offset is None,
            self.functions_from(address, true, from) matches Ok(functions) ==> {
                &&& self.functions_from(address, false, from) matches Ok(single)
                    && single.is_prefix_of(functions) && (single.len() == 0 ==> functions.len()
                    == 0)
                &&& forall|i: int|
                    1 <= i < functions.len() ==> (#[trigger] functions[i]).abstract_offset is Some
            },
        decreases self.walked - from,
    {
        if from < self.walked {
            self.lemma_single_function(address, from + 1);
            self.law_inlined_stand_below(address, self.entries@[from].offset);
        }
    }
}

/// The range that is found holds the address.
proof fn lemma_range_at(ranges: Seq<Range>, address: nat, from: int)
    ensures
        range_at(ranges, address, from) matches Some(range) ==> range.holds(address),
    decreases ranges.len() - from,
{
    if from < ranges.len() {
        lemma_range_at(ranges, address, from + 1);
    }
}

/// Whether an attribute with the name `name` has no effect on the variable of its entry.
pub open spec fn idle(name: u16) -> bool {
    ||| name == DW_AT_DECL_COLUMN
    ||| name == DW_AT_CONTAINING_TYPE
    ||| name == DW_AT_ALIGNMENT
    ||| name == DW_AT_EXTERNAL
    ||| name == DW_AT_DECLARATION
    ||| name == DW_AT_ENCODING
    ||| name == DW_AT_DISCR_VALUE
    ||| name == DW_AT_BYTE_SIZE
    ||| name == DW_AT_LINKAGE_NAME
}

/// `attributes` without those that have no effect.
pub open spec fn without_idle(attributes: Seq<Attribute>) -> Seq<Attribute>
    decreases attributes.len(),
{
    if attributes.len() == 0 {
        Seq::empty()
    } else if idle(attributes[0].name) {
        without_idle(attributes.drop_first())
    } else {
        seq![attributes[0]] + without_idle(attributes.drop_first())
    }
}

/// What `without_idle` makes of an attribute and those behind it.
proof fn lemma_without_idle(attributes: Seq<Attribute>, from: int)
    requires
        0 <= from <= attributes.len(),
    ensures
        from == attributes.len() ==> without_idle(attributes.skip(from)).len() == 0,
        from < attributes.len() && idle(attributes[from].name) ==> without_idle(
            attributes.skip(from),
        ) == without_idle(attributes.skip(from + 1)),
        from < attributes.len() && !idle(attributes[from].name) ==> {
            &&& without_idle(attributes.skip(from)).len() > 0
            &&& without_idle(attributes.skip(from))[0] == attributes[from]
            &&& without_idle(attributes.skip(from)).skip(1) == without_idle(
                attributes.skip(from + 1),
            )
        },
{
    if from < attributes.len() {
        assert(attributes.skip(from).drop_first() =~= attributes.skip(from + 1));
        assert(attributes.skip(from)[0] == attributes[from]);
        if !idle(attributes[from].name) {
            assert(without_idle(attributes.skip(from)).skip(1) =~= without_idle(
                attributes.skip(from + 1),
            ));
        }
    }
}

/// An attribute that has an effect is found in the same way among others that have none.
proof fn lemma_named_alike(a: Seq<Attribute>, b: Seq<Attribute>, name: u16)
    requires
        without_idle(a) == without_idle(b),
        !idle(name),
    ensures
        first_named(a, name) == first_named(b, name),
    decreases a.len() + b.len(),
{
    lemma_without_idle(a, 0);
    lemma_without_idle(b, 0);
    assert(a.skip(0) =~= a && b.skip(0) =~= b);
    if a.len() > 0 && idle(a[0].name) {
        assert(a.skip(1) =~= a.drop_first());
        lemma_named_alike(a.drop_first(), b, name);
    } else if b.len() > 0 && idle(b[0].name) {
        assert(b.skip(1) =~= b.drop_first());
        lemma_named_alike(a, b.drop_first(), name);
    } else if a.len() > 0 && b.len() > 0 {
        assert(a.skip(1) =~= a.drop_first() && b.skip(1) =~= b.drop_first());
        lemma_named_alike(a.drop_first(), b.drop_first(), name);
    }
}

/// A variable is found in the same place by attributes among others that have no effect.
proof fn lemma_located_alike(
    variable: VariableView,
    parent: VariableView,
    a: Seq<Attribute>,
    i: int,
    b: Seq<Attribute>,
    j: int,
    encoding: Encoding,
    target: Target,
)
    requires
        0 <= i <= a.len(),
        0 <= j <= b.len(),
        without_idle(a.skip(i)) == without_idle(b.skip(j)),
    ensures
        located_from(variable, parent, a, i, encoding, target) == located_from(
            variable,
            parent,
            b,
            j,
            encoding,
            target,
        ),
    decreases a.len() - i + b.len() - j,
{
    lemma_without_idle(a, i);
    lemma_without_idle(b, j);
    if i < a.len() && idle(a[i].name) {
        lemma_located_alike(variable, parent, a, i + 1, b, j, encoding, target);
    } else if j < b.len() && idle(b[j].name) {
        lemma_located_alike(variable, parent, a, i, b, j + 1, encoding, target);
    } else if i < a.len() && j < b.len() {
        let updated = located_by(variable, parent, a[i], encoding, target).0;
        lemma_located_alike(updated, parent, a, i + 1, b, j + 1, encoding, target);
    }
}

impl UnitInfo {
    /// Whether the entries `a` and `b` are alike but for attributes that have no effect.
    pub open spec fn alike(self, a: int, b: int) -> bool {
        &&& without_idle(self.entries@[a].attributes@) == without_idle(self.entries@[b].attributes@)
        &&& text_view(self.entries@[a].attributes_error) == text_view(
            self.entries@[b].attributes_error,
        )
        &&& self.entries@[a].has_children == self.entries@[b].has_children
    }

    /// The column of a declaration, the containing type, the alignment, the encoding, a
    /// discriminant, the size in bytes, the name for the linker, and whether something is external
    /// or a declaration, have no effect on the variable that an entry describes: two entries that
    /// differ in nothing else give the same result, the same parent and the same cache.
    pub proof fn law_idle_attributes(
        self,
        a: int,
        b: int,
        parent: VariableView,
        variable: VariableView,
        target: Target,
        cache: CacheView,
        fuel: nat,
    )
        requires
            0 <= a < self.entries@.len(),
            0 <= b < self.entries@.len(),
            self.alike(a, b),
        ensures
            self.attributes_processed(a, parent, variable, target, cache, fuel)
                == self.attributes_processed(b, parent, variable, target, cache, fuel),
    {
        let first = self.entries@[a].attributes@;
        let second = self.entries@[b].attributes@;
        assert(first.skip(0) =~= first && second.skip(0) =~= second);
        self.lemma_attribute_alike(a, b, DW_AT_ABSTRACT_ORIGIN);
        self.lemma_attribute_alike(a, b, DW_AT_NAME);
        if fuel > 0 {
            let child = Variable { parent_key: Some(parent.variable_key), ..variable };
            if let Ok((origin, child)) = self.origin_of(a, child) {
                if let Ok(child) = self.named_by(origin, child) {
                    lemma_located_alike(
                        child,
                        parent,
                        first,
                        0,
                        second,
                        0,
                        self.encoding,
                        target,
                    );
                    if let (after, Ok(child)) = self.location_extracted(
                        a,
                        parent,
                        child,
                        target,
                        cache,
                    ) {
                        let rest = (fuel - 1) as nat;
                        self.lemma_attributes_alike(
                            a,
                            b,
                            a,
                            0,
                            b,
                            0,
                            parent,
                            child,
                            target,
                            after,
                            rest,
                        );
                        if let Some(origin) = origin {
                            self.lemma_attributes_alike(
                                a,
                                b,
                                origin,
                                0,
                                origin,
                                0,
                                parent,
                                child,
                                target,
                                after,
                                rest,
                            );
                        }
                    }
                }
            }
        }
    }

    /// Entries that are alike have the same attributes that have an effect.
    proof fn lemma_attribute_alike(self, a: int, b: int, name: u16)
        requires
            self.alike(a, b),
            !idle(name),
        ensures
            self.entries@[a].attribute(name) == self.entries@[b].attribute(name),
    {
        lemma_named_alike(self.entries@[a].attributes@, self.entries@[b].attributes@, name);
    }

    /// Attributes have the same outcome among others that have no effect: those of the entry
    /// `first`, from `i` on, on the variable of the entry `a`, and those of the entry `second`,
    /// from `j` on, on the variable of the entry `b`.
    proof fn lemma_attributes_alike(
        self,
        a: int,
        b: int,
        first: int,
        i: int,
        second: int,
        j: int,
        parent: VariableView,
        variable: VariableView,
        target: Target,
        cache: CacheView,
        fuel: nat,
    )
        requires
            self.alike(a, b),
            0 <= i <= self.entries@[first].attributes@.len(),
            0 <= j <= self.entries@[second].attributes@.len(),
            without_idle(self.entries@[first].attributes@.skip(i)) == without_idle(
                self.entries@[second].attributes@.skip(j),
            ),
        ensures
            self.attributes_from(a, first, i, parent, variable, target, cache, fuel)
                == self.attributes_from(b, second, j, parent, variable, target, cache, fuel),
        decreases
                self.entries@[first].attributes@.len() - i + self.entries@[second].attributes@.len()
                    - j,
    {
        let left = self.entries@[first].attributes@;
        let right = self.entries@[second].attributes@;
        lemma_without_idle(left, i);
        lemma_without_idle(right, j);
        if i < left.len() && idle(left[i].name) {
            assert(self.attribute_applied(a, left[i], parent, variable, target, cache, fuel) == (
                cache,
                parent,
                Ok::<VariableView, DebugErrorView>(variable),
            ));
            self.lemma_attributes_alike(
                a,
                b,
                first,
                i + 1,
                second,
                j,
                parent,
                variable,
                target,
                cache,
                fuel,
            );
        } else if j < right.len() && idle(right[j].name) {
            assert(self.attribute_applied(b, right[j], parent, variable, target, cache, fuel) == (
                cache,
                parent,
                Ok::<VariableView, DebugErrorView>(variable),
            ));
            self.lemma_attributes_alike(
                a,
                b,
                first,
                i,
                second,
                j + 1,
                parent,
                variable,
                target,
                cache,
                fuel,
            );
        } else if i < left.len() && j < right.len() {
            self.lemma_attribute_alike(a, b, left[i].name);
            assert(left[i] == right[j]);
            assert(self.described_by(a, left[i], variable) == self.described_by(
                b,
                left[i],
                variable,
            ));
            assert(self.attribute_applied(a, left[i], parent, variable, target, cache, fuel)
                == self.attribute_applied(b, right[j], parent, variable, target, cache, fuel));
            if let (after, updated, Ok(variable)) = self.attribute_applied(
                a,
                left[i],
                parent,
                variable,
                target,
                cache,
                fuel,
            ) {
                self.lemma_attributes_alike(
                    a,
                    b,
                    first,
                    i + 1,
                    second,
                    j + 1,
                    updated,
                    variable,
                    target,
                    after,
                    fuel,
                );
            }
        }
    }

    /// It does not matter whether the file or the line of a declaration is given first: they touch
    /// nothing but the source location of the variable, each its own part of it.
    pub proof fn law_declaration_order(
        self,
        node: int,
        file: Attribute,
        line: Attribute,
        parent: VariableView,
        variable: VariableView,
        target: Target,
        cache: CacheView,
        fuel: nat,
    )
        requires
            file.name == DW_AT_DECL_FILE,
            line.name == DW_AT_DECL_LINE,
        ensures
            self.described_by(node, line, self.described_by(node, file, variable))
                == self.described_by(node, file, self.described_by(node, line, variable)),
            only_described(
                self.attribute_applied(node, file, parent, variable, target, cache, fuel),
                parent,
                self.described_by(node, file, variable),
                cache,
            ),
            only_described(
                self.attribute_applied(node, line, parent, variable, target, cache, fuel),
                parent,
                self.described_by(node, line, variable),
                cache,
            ),
    {
    }

    /// A child that is of no concern changes nothing: neither the cache nor the parent, and the
    /// children behind it are resolved as if it were not there.
    pub proof fn law_passed_over_child(
        self,
        node: int,
        at: int,
        parent: VariableView,
        program_counter: u64,
        target: Target,
        cache: CacheView,
        fuel: nat,
    )
        requires
            0 <= at < self.entries@[node].children@.len(),
            self.entry_at(self.entries@[node].children@[at]) matches Some(child) && passed_over(
                self.entries@[child].tag,
            ),
        ensures
            ({
                let outcome = self.child_processed(
                    self.entry_at(self.entries@[node].children@[at])->0,
                    parent,
                    program_counter,
                    target,
                    cache,
                    fuel,
                );
                outcome.0 == cache && (outcome.1 matches Ok(updated) && updated == parent)
            }),
            self.children_from(node, at, parent, program_counter, target, cache, fuel)
                == self.children_from(node, at + 1, parent, program_counter, target, cache, fuel),
    {
    }
}

} // verus!
