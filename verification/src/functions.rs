//! The functions that contain an address.
use vstd::prelude::*;

use crate::dwarf::{
    AttributeValue, Range, UnitInfo, DW_AT_ABSTRACT_ORIGIN, DW_TAG_INLINED_SUBROUTINE,
    DW_TAG_SUBPROGRAM,
};
#[allow(unused_imports)]
use crate::dwarf::Entry;
use crate::error::DebugError;
#[allow(unused_imports)]
use crate::error::DebugErrorView;
use crate::target::RegisterValue;

verus! {

/// A function, or a place where one was inlined, and a range of its code.
#[derive(Debug, Clone, Copy, PartialEq, Eq, Structural)]
pub struct FunctionDie {
    /// The offset of the entry that describes it.
    pub offset: usize,
    /// The offset of the entry that describes the function that was inlined, if it was.
    pub abstract_offset: Option<usize>,
    /// The first address of the range.
    pub low_pc: u64,
    /// The address behind the last one of the range.
    pub high_pc: u64,
}

impl FunctionDie {
    /// The range of the function.
    pub open spec fn range(self) -> Range {
        Range { begin: self.low_pc, end: self.high_pc }
    }

    /// The function that the entry `node` describes, if it describes one. Its range is yet unknown.
    pub fn new(unit: &UnitInfo, node: usize) -> (r: Option<FunctionDie>)
        requires
            node < unit.entries@.len(),
        ensures
            r == (if unit.entries@[node as int].tag == DW_TAG_SUBPROGRAM {
                Some(
                    FunctionDie {
                        offset: unit.entries@[node as int].offset,
                        abstract_offset: None,
                        low_pc: 0,
                        high_pc: 0,
                    },
                )
            } else {
                None
            }),
    {
        if unit.entries[node].tag == DW_TAG_SUBPROGRAM {
            Some(
                FunctionDie {
                    offset: unit.entries[node].offset,
                    abstract_offset: None,
                    low_pc: 0,
                    high_pc: 0,
                },
            )
        } else {
            None
        }
    }

    /// The inlined function that the entry `node` describes, if it describes one, and whose
    /// definition is the entry `definition`. Its range is yet unknown.
    pub fn new_inlined(unit: &UnitInfo, node: usize, definition: usize) -> (r: Option<FunctionDie>)
        requires
            node < unit.entries@.len(),
            definition < unit.entries@.len(),
        ensures
            r == (if unit.entries@[node as int].tag == DW_TAG_INLINED_SUBROUTINE {
                Some(
                    FunctionDie {
                        offset: unit.entries@[node as int].offset,
                        abstract_offset: Some(unit.entries@[definition as int].offset),
                        low_pc: 0,
                        high_pc: 0,
                    },
                )
            } else {
                None
            }),
    {
        if unit.entries[node].tag == DW_TAG_INLINED_SUBROUTINE {
            Some(
                FunctionDie {
                    offset: unit.entries[node].offset,
                    abstract_offset: Some(unit.entries[definition].offset),
                    low_pc: 0,
                    high_pc: 0,
                },
            )
        } else {
            None
        }
    }
}

/// The first of `ranges`, from `from` on, that holds `address`.
pub open spec fn range_at(ranges: Seq<Range>, address: nat, from: int) -> Option<Range>
    decreases ranges.len() - from,
{
    if from >= ranges.len() {
        None
    } else if ranges[from].holds(address) {
        Some(ranges[from])
    } else {
        range_at(ranges, address, from + 1)
    }
}

/// Those of `ranges` that hold `address`.
pub open spec fn ranges_at(ranges: Seq<Range>, address: nat) -> Seq<Range> {
    ranges.filter(|range: Range| range.holds(address))
}

/// The function at `offset`, which was inlined if it has an `abstract_offset`, once for each of
/// `ranges`.
pub open spec fn function_for(
    offset: usize,
    abstract_offset: Option<usize>,
    ranges: Seq<Range>,
) -> Seq<FunctionDie> {
    Seq::new(
        ranges.len(),
        |i: int|
            FunctionDie {
                offset,
                abstract_offset,
                low_pc: ranges[i].begin,
                high_pc: ranges[i].end,
            },
    )
}

/// The view of a result that holds functions.
pub open spec fn functions_view(result: Result<Vec<FunctionDie>, DebugError>) -> Result<
    Seq<FunctionDie>,
    DebugErrorView,
> {
    match result {
        Ok(functions) => Ok(functions@),
        Err(error) => Err(error@),
    }
}

/// What the entry of an inlined function says of the definition of the function.
pub enum Definition {
    /// It is described by the entry at this place.
    Entry(int),
    /// It cannot be found.
    Unsupported,
    /// Nothing is said of it.
    Missing,
}

impl UnitInfo {
    /// What the entry `node` says of the definition of the function that was inlined.
    pub open spec fn definition_of(self, node: int) -> Definition {
        match self.entries@[node].attribute(DW_AT_ABSTRACT_ORIGIN) {
            Ok(Some(attribute)) => match attribute.value {
                AttributeValue::UnitRef(offset) => match self.entry_at(offset) {
                    Some(definition) => Definition::Entry(definition),
                    None => Definition::Unsupported,
                },
                _ => Definition::Unsupported,
            },
            _ => Definition::Missing,
        }
    }

    /// How much deeper the entry `node` stands than the entry `start`, which comes before it.
    pub open spec fn depth_below(self, start: int, node: int) -> int
        decreases node - start,
    {
        if node <= start {
            0
        } else {
            self.depth_below(start, node - 1) + self.entries@[node].depth
        }
    }

    /// Whether the entry `node` stands below the entry `start`: a walk meets it behind that one,
    /// and meets only entries that stand deeper in between.
    pub open spec fn stands_below(self, start: int, node: int) -> bool {
        &&& start < node < self.walked
        &&& forall|i: int| start < i <= node ==> #[trigger] self.depth_below(start, i) > 0
    }

    /// The inlined functions that contain `address`, among the entries from `from` on that stand
    /// below the entry `start`.
    ///
    /// `found` are the functions that were found before; entries that stand less deep than
    /// `abort_depth` are behind the last function that counts.
    pub open spec fn inlined_from(
        self,
        address: nat,
        start: int,
        from: int,
        abort_depth: int,
        found: Seq<FunctionDie>,
    ) -> Result<Seq<FunctionDie>, DebugErrorView>
        decreases self.walked - from,
    {
        let depth = self.depth_below(start, from);
        if from >= self.walked || depth <= 0 || depth < abort_depth {
            Ok(found)
        } else {
            let entry = self.entries@[from];
            if entry.tag != DW_TAG_INLINED_SUBROUTINE {
                self.inlined_from(address, start, from + 1, abort_depth, found)
            } else {
                match entry.ranges {
                    Err(text) => Err(DebugError::Dwarf(text@)),
                    Ok(ranges) => {
                        let hits = ranges_at(ranges@, address);
                        if hits.len() == 0 {
                            self.inlined_from(address, start, from + 1, abort_depth, found)
                        } else {
                            match self.definition_of(from) {
                                Definition::Missing => Ok(Seq::empty()),
                                Definition::Unsupported => self.inlined_from(
                                    address,
                                    start,
                                    from + 1,
                                    depth,
                                    found,
                                ),
                                Definition::Entry(definition) => self.inlined_from(
                                    address,
                                    start,
                                    from + 1,
                                    depth,
                                    found + function_for(
                                        entry.offset,
                                        Some(self.entries@[definition].offset),
                                        hits,
                                    ),
                                ),
                            }
                        }
                    },
                }
            }
        }
    }

    /// The functions that were inlined into the function at `offset` and contain `address`.
    pub open spec fn inlined_functions(self, address: nat, offset: usize) -> Result<
        Seq<FunctionDie>,
        DebugErrorView,
    > {
        match self.entry_at(offset) {
            Some(start) => self.inlined_from(address, start, start + 1, 0, Seq::empty()),
            None => Ok(Seq::empty()),
        }
    }

    /// The function that contains `address`, among the entries from `from` on, followed by those
    /// that were inlined into it where `find_inlined` holds.
    pub open spec fn functions_from(self, address: nat, find_inlined: bool, from: int) -> Result<
        Seq<FunctionDie>,
        DebugErrorView,
    >
        decreases self.walked - from,
    {
        if from >= self.walked {
            Ok(Seq::empty())
        } else {
            let entry = self.entries@[from];
            if entry.tag != DW_TAG_SUBPROGRAM {
                self.functions_from(address, find_inlined, from + 1)
            } else {
                match entry.ranges {
                    Err(text) => Err(DebugError::Dwarf(text@)),
                    Ok(ranges) => match range_at(ranges@, address, 0) {
                        None => self.functions_from(address, find_inlined, from + 1),
                        Some(range) => {
                            let function = function_for(entry.offset, None, seq![range]);
                            if find_inlined {
                                match self.inlined_functions(address, entry.offset) {
                                    Ok(inlined) => Ok(function + inlined),
                                    Err(error) => Err(error),
                                }
                            } else {
                                Ok(function)
                            }
                        },
                    },
                }
            }
        }
    }

    /// What the entry `node` says of the definition of the function that was inlined: whether
    /// anything, and the place of its entry.
    fn find_definition(&self, node: usize) -> (r: (bool, Option<usize>))
        requires
            node < self.entries@.len(),
        ensures
            match r {
                (_, Some(definition)) => r.0 && definition < self.entries@.len()
                    && self.definition_of(node as int) == Definition::Entry(definition as int),
                (true, None) => self.definition_of(node as int) is Unsupported,
                (false, None) => self.definition_of(node as int) is Missing,
            },
    {
        match self.entries[node].attr(DW_AT_ABSTRACT_ORIGIN) {
            Ok(Some(attribute)) => match attribute.value {
                AttributeValue::UnitRef(offset) => match self.find_entry(offset) {
                    Ok(definition) => (true, Some(definition)),
                    Err(_) => (true, None),
                },
                _ => (true, None),
            },
            _ => (false, None),
        }
    }

    /// The inlined function `node`, once for each of its ranges that hold `address`, if its
    /// definition is known; and whether there is such a range.
    fn find_inlined(
        &self,
        node: usize,
        definition: Option<usize>,
        ranges: &Vec<Range>,
        address: u128,
    ) -> (r: (bool, Vec<FunctionDie>))
        requires
            node < self.entries@.len(),
            self.entries@[node as int].tag == DW_TAG_INLINED_SUBROUTINE,
            definition matches Some(definition) ==> definition < self.entries@.len(),
        ensures
            r.0 == (ranges_at(ranges@, address as nat).len() > 0),
            r.1@ == (match definition {
                Some(definition) => function_for(
                    self.entries@[node as int].offset,
                    Some(self.entries@[definition as int].offset),
                    ranges_at(ranges@, address as nat),
                ),
                None => Seq::empty(),
            }),
    {
        let mut functions: Vec<FunctionDie> = Vec::new();
        let mut hit = false;
        let mut i: usize = 0;
        proof {
            reveal(Seq::filter);
        }
        while i < ranges.len()
            invariant
                i <= ranges.len(),
                node < self.entries@.len(),
                self.entries@[node as int].tag == DW_TAG_INLINED_SUBROUTINE,
                definition matches Some(definition) ==> definition < self.entries@.len(),
                hit == (ranges_at(ranges@.take(i as int), address as nat).len() > 0),
                functions@ == (match definition {
                    Some(definition) => function_for(
                        self.entries@[node as int].offset,
                        Some(self.entries@[definition as int].offset),
                        ranges_at(ranges@.take(i as int), address as nat),
                    ),
                    None => Seq::empty(),
                }),
            decreases ranges.len() - i,
        {
            proof {
                reveal(Seq::filter);
                assert(ranges@.take(i + 1).drop_last() =~= ranges@.take(i as int));
            }
            if ranges[i].contains(address) {
                hit = true;
                match definition {
                    Some(definition) => match FunctionDie::new_inlined(self, node, definition) {
                        Some(mut function) => {
                            function.low_pc = ranges[i].begin;
                            function.high_pc = ranges[i].end;
                            functions.push(function);
                        },
                        None => {},
                    },
                    None => {},
                }
            }
            i = i + 1;
        }
        assert(ranges@.take(i as int) =~= ranges@);
        (hit, functions)
    }

    /// Finds the functions that were inlined into the function at `offset` and contain `address`:
    /// those that stand below it, where a walk meets it.
    pub fn find_inlined_functions(&self, address: RegisterValue, offset: usize) -> (r: Result<
        Vec<FunctionDie>,
        DebugError,
    >)
        requires
            self.wf(),
        ensures
            functions_view(r) == self.inlined_functions(address.number(), offset),
    {
        let number: u128 = address.value();
        let mut functions: Vec<FunctionDie> = Vec::new();
        let start = match self.find_entry(offset) {
            Ok(start) => start,
            Err(_) => {
                return Ok(functions);
            },
        };
        let mut depth: i128 = 0;
        let mut abort_depth: i128 = 0;
        assert(start < self.entries.len());
        let mut i: usize = start + 1;
        while i < self.walked
            invariant
                start < i,
                self.wf(),
                i <= self.walked || i == start + 1,
                number == address.number(),
                -(i * 0x8000_0000_0000_0000) <= depth <= i * 0x8000_0000_0000_0000,
                depth == self.depth_below(start as int, i - 1),
                self.inlined_functions(number as nat, offset) == self.inlined_from(
                    number as nat,
                    start as int,
                    i as int,
                    abort_depth as int,
                    functions@,
                ),
            decreases self.walked - i,
        {
            depth = depth + self.entries[i].depth as i128;
            if depth <= 0 || depth < abort_depth {
                return Ok(functions);
            }
            if self.entries[i].tag == DW_TAG_INLINED_SUBROUTINE {
                match &self.entries[i].ranges {
                    Err(text) => {
                        return Err(DebugError::Dwarf(text.clone()));
                    },
                    Ok(ranges) => {
                        let (given, definition) = self.find_definition(i);
                        let (hit, mut inlined) = self.find_inlined(i, definition, ranges, number);
                        if hit {
                            if !given {
                                return Ok(Vec::new());
                            }
                            // Functions that are inlined into this one stand deeper.
                            abort_depth = depth;
                        }
                        let ghost before = functions@;
                        let ghost new = inlined@;
                        functions.append(&mut inlined);
                        assert(!hit ==> functions@ =~= before);
                        assert(new.len() == 0 ==> functions@ =~= before);
                    },
                }
            }
            i = i + 1;
        }
        Ok(functions)
    }

    /// Finds the function that contains `address`.
    ///
    /// Where `find_inlined` does not hold, the result holds a single function at most; otherwise
    /// those that were inlined into it at the address follow.
    pub fn get_function_dies(&self, address: RegisterValue, find_inlined: bool) -> (r: Result<
        Vec<FunctionDie>,
        DebugError,
    >)
        requires
            self.wf(),
        ensures
            functions_view(r) == self.functions_from(address.number(), find_inlined, 0),
    {
        let number: u128 = address.value();
        let mut i: usize = 0;
        while i < self.walked
            invariant
                i <= self.walked,
                self.wf(),
                number == address.number(),
                self.functions_from(address.number(), find_inlined, 0) == self.functions_from(
                    address.number(),
                    find_inlined,
                    i as int,
                ),
            decreases self.walked - i,
        {
            match FunctionDie::new(self, i) {
                Some(mut function) => match &self.entries[i].ranges {
                    Err(text) => {
                        return Err(DebugError::Dwarf(text.clone()));
                    },
                    Ok(ranges) => match find_range(ranges, number) {
                        Some(range) => {
                            function.low_pc = range.begin;
                            function.high_pc = range.end;
                            let mut functions: Vec<FunctionDie> = Vec::new();
                            functions.push(function);
                            assert(functions@ =~= function_for(
                                self.entries@[i as int].offset,
                                None,
                                seq![range],
                            ));
                            if find_inlined {
                                match self.find_inlined_functions(
                                    address,
                                    self.entries[i].offset,
                                ) {
                                    Ok(mut inlined) => {
                                        functions.append(&mut inlined);
                                    },
                                    Err(error) => {
                                        return Err(error);
                                    },
                                }
                            }
                            return Ok(functions);
                        },
                        None => {},
                    },
                },
                None => {},
            }
            i = i + 1;
        }
        Ok(Vec::new())
    }
}

/// The first of `ranges` that holds `address`.
fn find_range(ranges: &Vec<Range>, address: u128) -> (r: Option<Range>)
    ensures
        r == range_at(ranges@, address as nat, 0),
{
    let mut i: usize = 0;
    while i < ranges.len()
        invariant
            i <= ranges.len(),
            range_at(ranges@, address as nat, 0) == range_at(ranges@, address as nat, i as int),
        decreases ranges.len() - i,
    {
        if ranges[i].contains(address) {
            return Some(ranges[i]);
        }
        i = i + 1;
    }
    None
}

} // verus!
