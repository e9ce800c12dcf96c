//! Which functions are found for an address, and which are not.
use vstd::prelude::*;

#[allow(unused_imports)]
use crate::dwarf::{
    entry_from, AttributeValue, Range, UnitInfo, DW_AT_ABSTRACT_ORIGIN, DW_TAG_INLINED_SUBROUTINE,
    DW_TAG_SUBPROGRAM,
};
#[allow(unused_imports)]
use crate::functions::{function_for, range_at, ranges_at, Definition, FunctionDie};

verus! {

/// A range holds the addresses from its first one up to, but not including, the one behind its
/// last.
pub proof fn law_range(range: Range, address: nat)
    ensures
        range.holds(address) <==> range.begin <= address && address < range.end,
{
}

/// Whether `address` lies in the `at`-th of `ranges`.
pub open spec fn covers(ranges: Seq<Range>, at: int, address: nat) -> bool {
    0 <= at < ranges.len() && ranges[at].begin <= address && address < ranges[at].end
}

/// Whether `range` is one of `ranges` and holds `address`.
pub open spec fn is_hit(ranges: Seq<Range>, range: Range, address: nat) -> bool {
    exists|at: int| #[trigger] covers(ranges, at, address) && ranges[at] == range
}

/// The entry that is found by an offset is the first that has it, and one is found where there is
/// one.
proof fn lemma_entry_from(unit: UnitInfo, offset: usize, from: int)
    requires
        0 <= from,
    ensures
        entry_from(unit.entries@, offset, from) matches Some(i) ==> from <= i < unit.entries@.len()
            && unit.entries@[i].offset == offset && forall|j: int|
            from <= j < i ==> (#[trigger] unit.entries@[j]).offset != offset,
        entry_from(unit.entries@, offset, from) is None ==> forall|j: int|
            from <= j < unit.entries@.len() ==> (#[trigger] unit.entries@[j]).offset != offset,
    decreases unit.entries@.len() - from,
{
    if from < unit.entries@.len() {
        lemma_entry_from(unit, offset, from + 1);
    }
}

/// Of ranges those are found that hold an address, each of them.
proof fn lemma_ranges_at(ranges: Seq<Range>, address: nat)
    ensures
        forall|i: int|
            0 <= i < ranges_at(ranges, address).len() ==> is_hit(
                ranges,
                #[trigger] ranges_at(ranges, address)[i],
                address,
            ),
        forall|at: int| #[trigger]
            covers(ranges, at, address) ==> ranges_at(ranges, address).contains(ranges[at]),
    decreases ranges.len(),
{
    reveal(Seq::filter);
    if ranges.len() > 0 {
        let rest = ranges.drop_last();
        let found = ranges_at(ranges, address);
        let before = ranges_at(rest, address);
        let last = ranges.len() - 1;
        lemma_ranges_at(rest, address);
        assert forall|i: int| 0 <= i < found.len() implies is_hit(
            ranges,
            #[trigger] found[i],
            address,
        ) by {
            if i < before.len() {
                assert(found[i] == before[i]);
                assert(is_hit(rest, before[i], address));
                let at = choose|at: int| #[trigger]
                    covers(rest, at, address) && rest[at] == before[i];
                assert(covers(ranges, at, address) && ranges[at] == found[i]);
            } else {
                assert(covers(ranges, last, address) && ranges[last] == found[i]);
            }
        }
        assert forall|at: int| #[trigger] covers(ranges, at, address) implies found.contains(
            ranges[at],
        ) by {
            if at < last {
                assert(covers(rest, at, address));
                let i = choose|i: int| 0 <= i < before.len() && before[i] == rest[at];
                assert(found[i] == ranges[at]);
            } else {
                assert(found[found.len() - 1] == ranges[at]);
            }
        }
    } else {
        assert(ranges_at(ranges, address).len() == 0);
    }
}

/// The first range that holds an address is found, if there is one.
proof fn lemma_range_at(ranges: Seq<Range>, address: nat, from: int)
    requires
        0 <= from,
    ensures
        range_at(ranges, address, from) matches Some(range) ==> exists|at: int|
            from <= at && #[trigger] covers(ranges, at, address) && ranges[at] == range && forall|
                j: int,
            |
                from <= j < at ==> !#[trigger] covers(ranges, j, address),
        range_at(ranges, address, from) is None ==> forall|at: int|
            from <= at ==> !#[trigger] covers(ranges, at, address),
    decreases ranges.len() - from,
{
    if from < ranges.len() {
        lemma_range_at(ranges, address, from + 1);
        if covers(ranges, from, address) {
            assert(ranges[from].holds(address));
        }
    }
}

impl UnitInfo {
    /// The entry that is found by an offset has it, and stands before all others that do; none is
    /// found only where none has it.
    pub proof fn law_entry_at(self, offset: usize)
        ensures
            match self.entry_at(offset) {
                Some(i) => 0 <= i < self.entries@.len() && self.entries@[i].offset == offset
                    && forall|j: int|
                    0 <= j < i ==> (#[trigger] self.entries@[j]).offset != offset,
                None => forall|j: int|
                    0 <= j < self.entries@.len() ==> (#[trigger] self.entries@[j]).offset != offset,
            },
    {
        lemma_entry_from(self, offset, 0);
    }

    /// Whether `address` lies in a range of the code of the entry `node`.
    pub open spec fn has_address(self, node: int, address: nat) -> bool {
        self.entries@[node].ranges matches Ok(ranges) && exists|at: int| #[trigger]
            covers(ranges@, at, address)
    }

    /// Whether the ranges of the code of the entry `node` can be read, and `address` lies in none.
    pub open spec fn lacks_address(self, node: int, address: nat) -> bool {
        self.entries@[node].ranges matches Ok(ranges) && forall|at: int|
            !#[trigger] covers(ranges@, at, address)
    }

    /// Whether the entry `node` describes a place where a function was inlined that has `address`.
    pub open spec fn inlined_at(self, node: int, address: nat) -> bool {
        self.entries@[node].tag == DW_TAG_INLINED_SUBROUTINE && self.has_address(node, address)
    }

    /// Whether the entry `node` refers to the entry at `offset` for the function that was inlined.
    pub open spec fn inlines(self, node: int, offset: usize) -> bool {
        self.entries@[node].attribute(DW_AT_ABSTRACT_ORIGIN) matches Ok(Some(attribute))
            && attribute.value == AttributeValue::UnitRef(offset)
    }

    /// Whether the entry `node` stands below the entry `start`, and not behind a place where a
    /// function was inlined that has `address`: from such a place on no entry stands less deep.
    pub open spec fn on_chain(self, start: int, node: int, address: nat) -> bool {
        &&& self.stands_below(start, node)
        &&& forall|place: int, i: int|
            #![trigger self.inlined_at(place, address), self.depth_below(start, i)]
            start < place < i <= node && self.inlined_at(place, address) ==> self.depth_below(
                start,
                i,
            ) >= self.depth_below(start, place)
    }

    /// Whether each place below the entry `start` where a function was inlined that has `address`
    /// says something of the function.
    pub open spec fn all_defined(self, start: int, address: nat) -> bool {
        forall|node: int|
            #![trigger self.stands_below(start, node)]
            self.stands_below(start, node) && self.inlined_at(node, address) ==> (
            self.entries@[node].attribute(DW_AT_ABSTRACT_ORIGIN) matches Ok(Some(_)))
    }

    /// Whether `abort_depth` is the depth of the last place before the entry `from` where a
    /// function was inlined that has `address`, or 0.
    spec fn aborts_at(self, start: int, from: int, address: nat, abort_depth: int) -> bool {
        abort_depth == 0 || exists|place: int|
            start < place < from && #[trigger] self.inlined_at(place, address) && abort_depth
                == self.depth_below(start, place)
    }

    /// What an entry says of its code in the two ways to look at it.
    proof fn lemma_hits(self, node: int, address: nat)
        requires
            self.entries@[node].ranges is Ok,
        ensures
            self.has_address(node, address) == (ranges_at(
                self.entries@[node].ranges->Ok_0@,
                address,
            ).len() > 0),
            self.lacks_address(node, address) == !self.has_address(node, address),
    {
        let ranges = self.entries@[node].ranges->Ok_0@;
        lemma_ranges_at(ranges, address);
        if ranges_at(ranges, address).len() > 0 {
            let found = ranges_at(ranges, address)[0];
            assert(is_hit(ranges, found, address));
            let at = choose|at: int| #[trigger] covers(ranges, at, address) && ranges[at] == found;
            assert(covers(ranges, at, address));
        }
    }

    /// What was found stays found, unless nothing is found in the end.
    proof fn lemma_found_stays(
        self,
        address: nat,
        start: int,
        from: int,
        abort_depth: int,
        found: Seq<FunctionDie>,
    )
        requires
            start < from,
            forall|i: int| start < i < from ==> #[trigger] self.depth_below(start, i) > 0,
        ensures
            self.inlined_from(address, start, from, abort_depth, found) matches Ok(functions)
                ==> functions.len() > 0 || self.all_defined(start, address)
                ==> found.is_prefix_of(functions),
        decreases self.walked - from,
    {
        let depth = self.depth_below(start, from);
        if from < self.walked && depth > 0 && depth >= abort_depth {
            let entry = self.entries@[from];
            self.lemma_found_stays(address, start, from + 1, abort_depth, found);
            if entry.tag == DW_TAG_INLINED_SUBROUTINE && entry.ranges is Ok {
                let hits = ranges_at(entry.ranges->Ok_0@, address);
                self.lemma_hits(from, address);
                assert(self.stands_below(start, from));
                self.lemma_found_stays(address, start, from + 1, depth, found);
                if let Definition::Entry(definition) = self.definition_of(from) {
                    let new = function_for(
                        entry.offset,
                        Some(self.entries@[definition].offset),
                        hits,
                    );
                    self.lemma_found_stays(address, start, from + 1, depth, found + new);
                    assert(found.is_prefix_of(found + new));
                }
            }
        }
    }

    /// A place on the chain is found.
    proof fn lemma_chain_found(
        self,
        address: nat,
        start: int,
        from: int,
        abort_depth: int,
        found: Seq<FunctionDie>,
        node: int,
        at: int,
        offset: usize,
    )
        requires
            start < from <= node,
            self.on_chain(start, node, address),
            self.aborts_at(start, from, address, abort_depth),
            self.inlined_at(node, address),
            covers(self.entries@[node].ranges->Ok_0@, at, address),
            self.inlines(node, offset),
            self.entry_at(offset) is Some,
        ensures
            self.inlined_from(address, start, from, abort_depth, found) matches Ok(functions)
                ==> functions.len() > 0 || self.all_defined(start, address) ==> functions.contains(
                FunctionDie {
                    offset: self.entries@[node].offset,
                    abstract_offset: Some(offset),
                    low_pc: self.entries@[node].ranges->Ok_0@[at].begin,
                    high_pc: self.entries@[node].ranges->Ok_0@[at].end,
                },
            ),
        decreases self.walked - from,
    {
        let depth = self.depth_below(start, from);
        assert(depth > 0);
        assert(depth >= abort_depth) by {
            if abort_depth != 0 {
                let place = choose|place: int|
                    start < place < from && #[trigger] self.inlined_at(place, address)
                        && abort_depth == self.depth_below(start, place);
                assert(self.inlined_at(place, address));
            }
        }
        assert(forall|i: int| start < i <= from ==> #[trigger] self.depth_below(start, i) > 0);
        assert(self.stands_below(start, from));
        let entry = self.entries@[from];
        let outcome = self.inlined_from(address, start, from, abort_depth, found);
        if entry.tag == DW_TAG_INLINED_SUBROUTINE && entry.ranges is Ok {
            let ranges = entry.ranges->Ok_0@;
            let hits = ranges_at(ranges, address);
            self.lemma_hits(from, address);
            lemma_ranges_at(ranges, address);
            if from < node {
                assert(hits.len() > 0 ==> self.inlined_at(from, address));
                assert(self.aborts_at(start, from + 1, address, abort_depth)) by {
                    if abort_depth != 0 {
                        let place = choose|place: int|
                            start < place < from && #[trigger] self.inlined_at(place, address)
                                && abort_depth == self.depth_below(start, place);
                        assert(self.inlined_at(place, address));
                    }
                }
                self.lemma_chain_found(
                    address,
                    start,
                    from + 1,
                    abort_depth,
                    found,
                    node,
                    at,
                    offset,
                );
                if hits.len() > 0 {
                    assert(self.aborts_at(start, from + 1, address, depth));
                    self.lemma_chain_found(
                        address,
                        start,
                        from + 1,
                        depth,
                        found,
                        node,
                        at,
                        offset,
                    );
                    if let Definition::Entry(definition) = self.definition_of(from) {
                        let new = function_for(
                            entry.offset,
                            Some(self.entries@[definition].offset),
                            hits,
                        );
                        self.lemma_chain_found(
                            address,
                            start,
                            from + 1,
                            depth,
                            found + new,
                            node,
                            at,
                            offset,
                        );
                    }
                }
            } else {
                self.law_entry_at(offset);
                let definition = self.entry_at(offset)->0;
                assert(self.definition_of(from) == Definition::Entry(definition));
                let new = function_for(entry.offset, Some(offset), hits);
                self.lemma_found_stays(address, start, from + 1, depth, found + new);
                let k = choose|k: int| 0 <= k < hits.len() && hits[k] == ranges[at];
                assert((found + new)[found.len() + k] == new[k]);
                if let Ok(functions) = outcome {
                    if functions.len() > 0 || self.all_defined(start, address) {
                        assert(functions[found.len() + k] == new[k]);
                    }
                }
            }
        } else if entry.tag != DW_TAG_INLINED_SUBROUTINE {
            assert(self.aborts_at(start, from + 1, address, abort_depth)) by {
                if abort_depth != 0 {
                    let place = choose|place: int|
                        start < place < from && #[trigger] self.inlined_at(place, address)
                            && abort_depth == self.depth_below(start, place);
                    assert(self.inlined_at(place, address));
                }
            }
            self.lemma_chain_found(
                address,
                start,
                from + 1,
                abort_depth,
                found,
                node,
                at,
                offset,
            );
        }
    }

    /// No inlined function is missed: every place on the chain below a function where a function of
    /// the unit was inlined is found, once for each of its ranges that hold the address, whatever
    /// other entries stand between it and the place around it; unless nothing at all is found,
    /// which is where some place says nothing of the function that was inlined there.
    pub proof fn law_chain_found(
        self,
        address: nat,
        function: usize,
        node: int,
        at: int,
        offset: usize,
    )
        requires
            self.entry_at(function) matches Some(start) && self.on_chain(start, node, address),
            self.entries@[node].tag == DW_TAG_INLINED_SUBROUTINE,
            self.entries@[node].ranges matches Ok(ranges) && covers(ranges@, at, address),
            self.inlines(node, offset),
            self.entry_at(offset) is Some,
        ensures
            self.inlined_functions(address, function) matches Ok(functions) ==> functions.len() > 0
                || self.all_defined(self.entry_at(function)->0, address) ==> functions.contains(
                FunctionDie {
                    offset: self.entries@[node].offset,
                    abstract_offset: Some(offset),
                    low_pc: self.entries@[node].ranges->Ok_0@[at].begin,
                    high_pc: self.entries@[node].ranges->Ok_0@[at].end,
                },
            ),
    {
        let start = self.entry_at(function)->0;
        self.lemma_chain_found(address, start, start + 1, 0, Seq::empty(), node, at, offset);
    }

    /// Whether `function` is the one that was inlined at the entry `node`: it has the offset of the
    /// entry, one of its ranges, which holds `address`, and the offset that the entry refers to.
    pub open spec fn describes(self, node: int, function: FunctionDie, address: nat) -> bool {
        &&& self.entries@[node].tag == DW_TAG_INLINED_SUBROUTINE
        &&& function.offset == self.entries@[node].offset
        &&& function.low_pc <= address && address < function.high_pc
        &&& self.entries@[node].ranges matches Ok(ranges) && ranges@.contains(
            Range { begin: function.low_pc, end: function.high_pc },
        )
        &&& function.abstract_offset matches Some(offset) && self.inlines(node, offset)
    }

    /// Whether `functions` were inlined at `nodes`, one each and in the order in which a walk meets
    /// them, and all of these are on the chain below the entry `start`.
    pub open spec fn inlined_in_order(
        self,
        start: int,
        address: nat,
        nodes: Seq<int>,
        functions: Seq<FunctionDie>,
    ) -> bool {
        &&& nodes.len() == functions.len()
        &&& forall|i: int| #![trigger nodes[i]]
            0 <= i < nodes.len() ==> self.on_chain(start, nodes[i], address) && self.describes(
                nodes[i],
                functions[i],
                address,
            )
        &&& forall|i: int, j: int| 0 <= i < j < nodes.len() ==> nodes[i] <= nodes[j]
    }

    /// What is found from an entry on is in order and on the chain.
    proof fn lemma_chain_sound(
        self,
        address: nat,
        start: int,
        from: int,
        abort_depth: int,
        found: Seq<FunctionDie>,
        nodes: Seq<int>,
    )
        requires
            start < from,
            forall|i: int| start < i < from ==> #[trigger] self.depth_below(start, i) > 0,
            forall|place: int, i: int|
                #![trigger self.inlined_at(place, address), self.depth_below(start, i)]
                start < place < i < from && self.inlined_at(place, address) ==> self.depth_below(
                    start,
                    i,
                ) >= self.depth_below(start, place),
            forall|place: int|
                start < place < from && #[trigger] self.inlined_at(place, address)
                    ==> self.depth_below(start, place) <= abort_depth,
            forall|i: int| 0 <= i < nodes.len() ==> #[trigger] nodes[i] < from,
            self.inlined_in_order(start, address, nodes, found),
        ensures
            self.inlined_from(address, start, from, abort_depth, found) matches Ok(functions)
                ==> exists|all: Seq<int>| #[trigger]
                self.inlined_in_order(start, address, all, functions),
        decreases self.walked - from,
    {
        let outcome = self.inlined_from(address, start, from, abort_depth, found);
        let depth = self.depth_below(start, from);
        if from < self.walked && depth > 0 && depth >= abort_depth {
            let entry = self.entries@[from];
            if entry.tag != DW_TAG_INLINED_SUBROUTINE {
                self.lemma_chain_sound(address, start, from + 1, abort_depth, found, nodes);
            } else if let Ok(ranges) = entry.ranges {
                let hits = ranges_at(ranges@, address);
                self.lemma_hits(from, address);
                lemma_ranges_at(ranges@, address);
                if hits.len() == 0 {
                    self.lemma_chain_sound(address, start, from + 1, abort_depth, found, nodes);
                } else {
                    match self.definition_of(from) {
                        Definition::Missing => {
                            assert(outcome->Ok_0 =~= Seq::<FunctionDie>::empty());
                            assert(self.inlined_in_order(
                                start,
                                address,
                                Seq::<int>::empty(),
                                outcome->Ok_0,
                            ));
                        },
                        Definition::Unsupported => {
                            self.lemma_chain_sound(address, start, from + 1, depth, found, nodes);
                        },
                        Definition::Entry(definition) => {
                            let offset = self.entries@[definition].offset;
                            let new = function_for(entry.offset, Some(offset), hits);
                            let more = Seq::new(hits.len(), |i: int| from);
                            let attribute = entry.attribute(DW_AT_ABSTRACT_ORIGIN)->Ok_0->0;
                            if let AttributeValue::UnitRef(referred) = attribute.value {
                                self.law_entry_at(referred);
                            }
                            assert(self.inlines(from, offset));
                            assert(self.on_chain(start, from, address));
                            let all = found + new;
                            let places = nodes + more;
                            assert forall|i: int| #![trigger places[i]]
                                0 <= i < places.len() implies self.on_chain(
                                start,
                                places[i],
                                address,
                            ) && self.describes(places[i], all[i], address) by {
                                if i < nodes.len() {
                                    assert(places[i] == nodes[i] && all[i] == found[i]);
                                } else {
                                    let k = i - nodes.len();
                                    let hit = hits[k];
                                    assert(all[i] == new[k] && places[i] == from);
                                    assert(is_hit(ranges@, hit, address));
                                    let at = choose|at: int| #[trigger]
                                        covers(ranges@, at, address) && ranges@[at] == hit;
                                    assert(ranges@[at] == (Range {
                                        begin: all[i].low_pc,
                                        end: all[i].high_pc,
                                    }));
                                }
                            }
                            assert(self.inlined_in_order(start, address, places, all));
                            self.lemma_chain_sound(address, start, from + 1, depth, all, places);
                        },
                    }
                }
            }
        } else {
            assert(self.inlined_in_order(start, address, nodes, found));
            assert(outcome->Ok_0 == found);
        }
    }

    /// Every inlined function that is found was inlined at a place on the chain below the function,
    /// has a range of that place that holds the address, and the offset of the function to which
    /// the place refers; and they are found from the outermost to the innermost.
    pub proof fn law_chain_sound(self, address: nat, function: usize)
        ensures
            match self.entry_at(function) {
                Some(start) => self.inlined_functions(address, function) matches Ok(functions)
                    ==> exists|nodes: Seq<int>| #[trigger]
                    self.inlined_in_order(start, address, nodes, functions),
                None => self.inlined_functions(address, function) matches Ok(functions)
                    && functions.len() == 0,
            },
    {
        if let Some(start) = self.entry_at(function) {
            self.lemma_chain_sound(address, start, start + 1, 0, Seq::empty(), Seq::empty());
        }
    }

    /// Whether `function` is the one that the entry `node` describes, with the first of its ranges
    /// that holds `address`.
    pub open spec fn is_function(self, node: int, function: FunctionDie, address: nat) -> bool {
        &&& self.entries@[node].tag == DW_TAG_SUBPROGRAM
        &&& function.offset == self.entries@[node].offset
        &&& function.abstract_offset is None
        &&& self.entries@[node].ranges matches Ok(ranges) && exists|at: int| #[trigger]
            covers(ranges@, at, address) && ranges@[at].begin == function.low_pc && ranges@[at].end
                == function.high_pc && forall|j: int|
                0 <= j < at ==> !#[trigger] covers(ranges@, j, address)
    }

    /// Whether no function before the entry `node`, from the entry `from` on, has `address`.
    pub open spec fn none_before(self, from: int, node: int, address: nat) -> bool {
        forall|i: int| #![trigger self.lacks_address(i, address)]
            from <= i < node && self.entries@[i].tag == DW_TAG_SUBPROGRAM ==> self.lacks_address(
                i,
                address,
            )
    }

    /// The function that contains an address is found where a walk meets it first.
    proof fn lemma_function_found(self, address: nat, from: int)
        requires
            0 <= from,
        ensures
            match self.functions_from(address, false, from) {
                Ok(functions) => if functions.len() == 0 {
                    self.none_before(from, self.walked as int, address)
                } else {
                    functions.len() == 1 && exists|node: int|
                        from <= node < self.walked && #[trigger] self.is_function(
                            node,
                            functions[0],
                            address,
                        ) && self.none_before(from, node, address)
                },
                Err(_) => exists|node: int|
                    from <= node < self.walked && #[trigger] self.none_before(from, node, address)
                        && self.entries@[node].tag == DW_TAG_SUBPROGRAM
                        && self.entries@[node].ranges is Err,
            },
        decreases self.walked - from,
    {
        if from < self.walked {
            let entry = self.entries@[from];
            self.lemma_function_found(address, from + 1);
            let rest = self.functions_from(address, false, from + 1);
            let skipped = entry.tag != DW_TAG_SUBPROGRAM || self.lacks_address(from, address);
            if skipped {
                assert forall|node: int| #[trigger]
                    self.none_before(from + 1, node, address) implies self.none_before(
                    from,
                    node,
                    address,
                ) by {}
            }
            if entry.tag == DW_TAG_SUBPROGRAM {
                assert(self.none_before(from, from, address));
                if let Ok(ranges) = entry.ranges {
                    lemma_range_at(ranges@, address, 0);
                    if let Some(range) = range_at(ranges@, address, 0) {
                        let function = function_for(entry.offset, None, seq![range]);
                        assert(self.functions_from(address, false, from)->Ok_0 == function);
                        let at = choose|at: int|
                            0 <= at && #[trigger] covers(ranges@, at, address) && ranges@[at]
                                == range && forall|j: int|
                                0 <= j < at ==> !#[trigger] covers(ranges@, j, address);
                        assert(covers(ranges@, at, address));
                        assert(self.is_function(from, function[0], address));
                    } else {
                        assert(self.lacks_address(from, address));
                    }
                }
            }
            if skipped {
                match rest {
                    Ok(functions) => {
                        if functions.len() > 0 {
                            let node = choose|node: int|
                                from + 1 <= node < self.walked && #[trigger] self.is_function(
                                    node,
                                    functions[0],
                                    address,
                                ) && self.none_before(from + 1, node, address);
                            assert(self.is_function(node, functions[0], address));
                        }
                    },
                    Err(_) => {
                        let node = choose|node: int|
                            from + 1 <= node < self.walked && #[trigger] self.none_before(
                                from + 1,
                                node,
                                address,
                            ) && self.entries@[node].tag == DW_TAG_SUBPROGRAM
                                && self.entries@[node].ranges is Err;
                        assert(self.none_before(from, node, address));
                    },
                }
            }
        }
    }

    /// The function that contains an address is the first that a walk meets one of whose ranges
    /// holds the address, and it is found with the first such range. None is found only where none
    /// has the address; and the search fails only at a function whose ranges cannot be read, before
    /// any that has the address.
    pub proof fn law_function_found(self, address: nat)
        ensures
            match self.functions_from(address, false, 0) {
                Ok(functions) => if functions.len() == 0 {
                    self.none_before(0, self.walked as int, address)
                } else {
                    functions.len() == 1 && exists|node: int|
                        0 <= node < self.walked && #[trigger] self.is_function(
                            node,
                            functions[0],
                            address,
                        ) && self.none_before(0, node, address)
                },
                Err(_) => exists|node: int|
                    0 <= node < self.walked && #[trigger] self.none_before(0, node, address)
                        && self.entries@[node].tag == DW_TAG_SUBPROGRAM
                        && self.entries@[node].ranges is Err,
            },
    {
        self.lemma_function_found(address, 0);
    }
}

} // verus!
