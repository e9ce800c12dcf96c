//! The operations of an expression, and the sizes of pieces among them.
//!
//! gimli counts the bits of a piece by multiplying its size in bytes by 8 without a check. A size
//! from 2^61 on is reduced by multiples of 2^61 first, which leaves the number of bits as it is
//! modulo 2^64.
use vstd::prelude::*;

use gimli::Operation;

use crate::dwarf::Encoding;

verus! {

/// The operation that ends a piece of a variable, behind which the size of the piece stands.
pub const DW_OP_PIECE: u8 = 0x93;

/// The largest number of bytes that gimli takes for a number of 64 bits.
pub const LEB128_LIMIT: u8 = 10;

/// Where an operation leads other than to the one behind it.
#[derive(Debug, Clone, Copy, PartialEq, Eq, Structural)]
pub enum Jump {
    /// Nowhere.
    Never,
    /// As far behind its end.
    Always(i16),
    /// As far behind its end, or to the one behind it.
    Sometimes(i16),
}

/// An operation, as far as it matters which one follows.
#[derive(Debug, Clone, Copy, PartialEq, Eq, Structural)]
pub struct OperationStep {
    /// The number of its bytes.
    pub length: usize,
    /// Where it leads.
    pub jump: Jump,
}

/// The operation that gimli reads at `position` of `expression`, if it can.
pub uninterp spec fn gimli_operation(
    expression: Seq<u8>,
    encoding: Encoding,
    position: usize,
) -> Option<OperationStep>;

/// The number with which `bytes` begin, if they begin with one of `most` bytes at most: seven bits
/// a byte, the least significant ones first, up to a byte below 128.
pub open spec fn leb128(bytes: Seq<u8>, most: nat) -> Option<nat>
    decreases most,
{
    if most == 0 || bytes.len() == 0 {
        None
    } else if bytes[0] < 128 {
        Some(bytes[0] as nat)
    } else {
        match leb128(bytes.drop_first(), (most - 1) as nat) {
            Some(rest) => Some((bytes[0] - 128 + 128 * rest) as nat),
            None => None,
        }
    }
}

/// Whether a piece ends at `position` of `expression`, if that is an operation, whose size is too
/// large for gimli to count its bits. A size that takes more than 64 bits gimli does not read.
pub open spec fn oversized(expression: Seq<u8>, position: int) -> bool {
    &&& 0 <= position < expression.len()
    &&& expression[position] == DW_OP_PIECE
    &&& leb128(expression.skip(position + 1), LEB128_LIMIT as nat) matches Some(size)
        && 0x2000_0000_0000_0000 <= size <= u64::MAX
}

/// The operation at `position` of `expression`, if it can be read. The size of a piece that is too
/// large takes 9 bytes or 10.
pub open spec fn operation_at(expression: Seq<u8>, encoding: Encoding, position: int) -> Option<
    OperationStep,
> {
    if oversized(expression, position) {
        Some(
            OperationStep {
                length: if expression[position + 9] < 128 {
                    10
                } else {
                    11
                },
                jump: Jump::Never,
            },
        )
    } else {
        gimli_operation(expression, encoding, position as usize)
    }
}

/// Whether the operation at `from` of `expression` may lead to `to`.
pub open spec fn leads(expression: Seq<u8>, encoding: Encoding, from: int, to: int) -> bool {
    &&& 0 <= from < expression.len()
    &&& 0 <= to < expression.len()
    &&& operation_at(expression, encoding, from) matches Some(step) && match step.jump {
        Jump::Never => to == from + step.length,
        Jump::Always(distance) => to == from + step.length + distance,
        Jump::Sometimes(distance) => to == from + step.length || to == from + step.length
            + distance,
    }
}

/// Whether `steps` operations of `expression` or fewer may lead to `position`.
pub open spec fn reached(expression: Seq<u8>, encoding: Encoding, steps: nat, position: int) -> bool
    decreases steps,
{
    if steps == 0 {
        position == 0 && expression.len() > 0
    } else {
        ||| reached(expression, encoding, (steps - 1) as nat, position)
        ||| exists|from: int|
            reached(expression, encoding, (steps - 1) as nat, from) && #[trigger] leads(
                expression,
                encoding,
                from,
                position,
            )
    }
}

/// Whether there is an operation of `expression` at `position` that can be reached.
pub open spec fn reachable(expression: Seq<u8>, encoding: Encoding, position: int) -> bool {
    exists|steps: nat| reached(expression, encoding, steps, position)
}

/// Whether gimli can count the bits of all pieces of `expression` that can be reached.
pub open spec fn sizes_fit(expression: Seq<u8>, encoding: Encoding) -> bool {
    forall|position: int| #[trigger]
        reachable(expression, encoding, position) ==> !oversized(expression, position)
}

/// Whether a piece whose size is too large can be reached at `position` of `expression`.
pub open spec fn to_reduce(expression: Seq<u8>, encoding: Encoding, position: int) -> bool {
    reachable(expression, encoding, position) && oversized(expression, position)
}

/// The byte at `place` of `expression` once the sizes of pieces that are too large were reduced: of
/// the ninth byte of a size the bits from the sixth on are cleared, and so is the tenth byte.
pub open spec fn reduced_byte(expression: Seq<u8>, encoding: Encoding, place: int) -> u8 {
    let byte = expression[place];
    if to_reduce(expression, encoding, place - 10) && expression[place - 1] >= 128 {
        0
    } else if to_reduce(expression, encoding, place - 9) {
        if byte < 128 {
            (byte % 32) as u8
        } else {
            (128 + byte % 32) as u8
        }
    } else {
        byte
    }
}

/// `expression` with the sizes of pieces that are too large reduced modulo 2^61.
pub open spec fn reduced(expression: Seq<u8>, encoding: Encoding) -> Seq<u8> {
    Seq::new(expression.len(), |place: int| reduced_byte(expression, encoding, place))
}

/// Whether the operation at `position` has the bytes in `changed` that it has in `expression`, or,
/// if it is a piece whose size is too large, has that size modulo 2^61 there.
pub open spec fn kept_at(
    expression: Seq<u8>,
    encoding: Encoding,
    changed: Seq<u8>,
    position: int,
) -> bool {
    if oversized(expression, position) {
        &&& changed[position] == DW_OP_PIECE
        &&& leb128(changed.skip(position + 1), LEB128_LIMIT as nat) == Some(
            leb128(expression.skip(position + 1), LEB128_LIMIT as nat)->0 % 0x2000_0000_0000_0000,
        )
    } else {
        operation_at(expression, encoding, position) matches Some(step) ==> forall|place: int|
            #![trigger changed[place]]
            position <= place < position + step.length && place < expression.len()
                ==> changed[place] == expression[place]
    }
}

/// Whether reducing the sizes of pieces in `expression` makes gimli count the bits of all pieces
/// and changes no other operation. One that shares the bytes of such a size may be changed by it.
pub open spec fn reducible(expression: Seq<u8>, encoding: Encoding) -> bool {
    &&& sizes_fit(reduced(expression, encoding), encoding)
    &&& forall|position: int| #[trigger]
        reachable(expression, encoding, position) ==> kept_at(
            expression,
            encoding,
            reduced(expression, encoding),
            position,
        )
}

/// An expression with no size that is too large is left as it is.
pub proof fn law_fitting_sizes_stay(expression: Seq<u8>, encoding: Encoding)
    requires
        sizes_fit(expression, encoding),
    ensures
        reduced(expression, encoding) == expression,
        reducible(expression, encoding),
{
    assert forall|place: int| 0 <= place < expression.len() implies reduced(
        expression,
        encoding,
    )[place] == expression[place] by {
        assert(!to_reduce(expression, encoding, place - 9));
        assert(!to_reduce(expression, encoding, place - 10));
    }
    assert(reduced(expression, encoding) =~= expression);
}

/// `gimli::OperationIter::next` and `gimli::OperationIter::offset_from`: the operation at
/// `position` of `expression`, which takes one byte at least. gimli multiplies the size of a piece
/// by 8.
#[verifier::external_body]
fn operation(expression: &Vec<u8>, encoding: Encoding, position: usize) -> (r: Option<
    OperationStep,
>)
    requires
        position < expression@.len(),
        !oversized(expression@, position as int),
    ensures
        r == gimli_operation(expression@, encoding, position),
        r matches Some(step) ==> 1 <= step.length <= expression@.len() - position,
{
    let bytes = gimli::EndianSlice::new(&expression[position..], gimli::LittleEndian);
    let format = match encoding.is_64_bit {
        true => gimli::Format::Dwarf64,
        false => gimli::Format::Dwarf32,
    };
    let Encoding { address_size, version, .. } = encoding;
    let encoding = gimli::Encoding { address_size, format, version };
    let mut operations = gimli::Expression(bytes).operations(encoding);
    let jump = match operations.next().ok()?? {
        Operation::Skip { target } => Jump::Always(target),
        Operation::Bra { target } => Jump::Sometimes(target),
        _ => Jump::Never,
    };
    Some(OperationStep { length: operations.offset_from(&gimli::Expression(bytes)), jump })
}

/// The power of 128.
spec fn power_of_128(n: nat) -> nat
    decreases n,
{
    if n == 0 {
        1
    } else {
        128 * power_of_128((n - 1) as nat)
    }
}

/// The numbers that `n` bytes hold are small enough to compute with.
proof fn lemma_power_of_128(n: nat)
    requires
        n <= 10,
    ensures
        1 <= power_of_128(n) <= 0x40_0000_0000_0000_0000,
    decreases 10 - n,
{
    if n < 10 {
        lemma_power_of_128(n + 1);
    } else {
        reveal_with_fuel(power_of_128, 11);
    }
}

/// The number that stands at `from` in `bytes`, if one of `most` bytes at most does.
fn read_leb128(bytes: &Vec<u8>, from: usize, most: u8) -> (r: Option<u128>)
    requires
        from <= bytes@.len(),
        most <= 10,
    ensures
        (match r {
            Some(n) => Some(n as nat),
            None => None,
        }) == leb128(bytes@.skip(from as int), most as nat),
        r matches Some(n) ==> n < power_of_128(most as nat),
    decreases most,
{
    proof {
        lemma_power_of_128(most as nat);
    }
    if most == 0 || from == bytes.len() {
        return None;
    }
    proof {
        lemma_power_of_128((most - 1) as nat);
        assert(bytes@.skip(from as int)[0] == bytes@[from as int]);
        assert(bytes@.skip(from as int).drop_first() =~= bytes@.skip(from + 1));
    }
    if bytes[from] < 128 {
        return Some(bytes[from] as u128);
    }
    match read_leb128(bytes, from + 1, most - 1) {
        Some(rest) => Some(bytes[from] as u128 - 128 + 128 * rest),
        None => None,
    }
}

/// Whether a piece ends at `position` of `expression`, if that is an operation, whose size is too
/// large for gimli to count its bits.
fn is_oversized(expression: &Vec<u8>, position: usize) -> (r: bool)
    requires
        position < expression@.len(),
    ensures
        r == oversized(expression@, position as int),
{
    if expression[position] != DW_OP_PIECE {
        return false;
    }
    assert(position < expression.len());
    match read_leb128(expression, position + 1, LEB128_LIMIT) {
        Some(size) => 0x2000_0000_0000_0000 <= size && size <= 0xffff_ffff_ffff_ffff,
        None => false,
    }
}

/// A number that is too small for 9 bytes takes fewer.
proof fn lemma_size_is_long(bytes: Seq<u8>, most: nat)
    ensures
        leb128(bytes, most) matches Some(size) ==> forall|n: nat|
            n < 10 && size >= #[trigger] power_of_128(n) ==> bytes.len() > n,
    decreases most,
{
    if most > 0 && bytes.len() > 0 {
        lemma_size_is_long(bytes.drop_first(), (most - 1) as nat);
        if let Some(size) = leb128(bytes, most) {
            assert forall|n: nat| n < 10 && size >= #[trigger] power_of_128(n) implies bytes.len()
                > n by {
                if n > 0 {
                    lemma_power_of_128((n - 1) as nat);
                    assert(power_of_128(n) == 128 * power_of_128((n - 1) as nat));
                    if bytes[0] >= 128 {
                        let rest = leb128(bytes.drop_first(), (most - 1) as nat)->0;
                        assert(rest >= power_of_128((n - 1) as nat));
                    }
                }
            }
        }
    }
}

/// The size of a piece that is too large takes 9 bytes at least.
proof fn lemma_oversized(expression: Seq<u8>, position: int)
    requires
        oversized(expression, position),
    ensures
        position + 9 < expression.len(),
{
    let bytes = expression.skip(position + 1);
    lemma_size_is_long(bytes, LEB128_LIMIT as nat);
    reveal_with_fuel(power_of_128, 9);
    assert(power_of_128(8) == 0x100_0000_0000_0000);
}

/// The operation at `position` of `expression`, if it can be read.
fn find_operation(expression: &Vec<u8>, encoding: Encoding, position: usize) -> (r: Option<
    OperationStep,
>)
    requires
        position < expression@.len(),
    ensures
        r == operation_at(expression@, encoding, position as int),
{
    if is_oversized(expression, position) {
        proof {
            lemma_oversized(expression@, position as int);
            assert(position + 9 < expression.len());
        }
        let length: usize = if expression[position + 9] < 128 {
            10
        } else {
            11
        };
        Some(OperationStep { length, jump: Jump::Never })
    } else {
        operation(expression, encoding, position)
    }
}

/// How many of `marks` are not set.
spec fn unmarked(marks: Seq<bool>) -> nat
    decreases marks.len(),
{
    if marks.len() == 0 {
        0
    } else {
        unmarked(marks.drop_last()) + if marks.last() {
            0nat
        } else {
            1nat
        }
    }
}

/// Setting a mark leaves one fewer.
proof fn lemma_unmarked(marks: Seq<bool>, i: int)
    requires
        0 <= i < marks.len(),
        !marks[i],
    ensures
        unmarked(marks.update(i, true)) < unmarked(marks),
    decreases marks.len(),
{
    let rest = marks.drop_last();
    if i < rest.len() {
        lemma_unmarked(rest, i);
        assert(marks.update(i, true).drop_last() =~= rest.update(i, true));
    } else {
        assert(marks.update(i, true).drop_last() =~= rest);
    }
}

/// Whether all that the operation at `from` may lead to is marked.
spec fn closed_at(expression: Seq<u8>, encoding: Encoding, marks: Seq<bool>, from: int) -> bool {
    forall|to: int| #[trigger] leads(expression, encoding, from, to) ==> marks[to]
}

/// What can be reached is marked where all that marked operations may lead to is.
proof fn lemma_reached_marked(
    expression: Seq<u8>,
    encoding: Encoding,
    marks: Seq<bool>,
    steps: nat,
    position: int,
)
    requires
        marks.len() == expression.len(),
        expression.len() > 0 ==> marks[0],
        forall|from: int|
            0 <= from < marks.len() && marks[from] ==> #[trigger] closed_at(
                expression,
                encoding,
                marks,
                from,
            ),
        reached(expression, encoding, steps, position),
    ensures
        0 <= position < marks.len(),
        marks[position],
    decreases steps,
{
    if steps > 0 {
        let before = (steps - 1) as nat;
        if reached(expression, encoding, before, position) {
            lemma_reached_marked(expression, encoding, marks, before, position);
        } else {
            let from = choose|from: int|
                reached(expression, encoding, before, from) && #[trigger] leads(
                    expression,
                    encoding,
                    from,
                    position,
                );
            lemma_reached_marked(expression, encoding, marks, before, from);
            assert(closed_at(expression, encoding, marks, from));
        }
    }
}

/// What a reachable operation may lead to is reachable.
proof fn lemma_reachable(expression: Seq<u8>, encoding: Encoding, from: int, to: int)
    requires
        reachable(expression, encoding, from),
        leads(expression, encoding, from, to),
    ensures
        reachable(expression, encoding, to),
{
    let steps = choose|steps: nat| reached(expression, encoding, steps, from);
    assert(reached(expression, encoding, steps + 1, to));
}

/// Whether `marks` tell at which positions of `expression` there are operations that can be
/// reached.
spec fn marks_operations(expression: Seq<u8>, encoding: Encoding, marks: Seq<bool>) -> bool {
    &&& marks.len() == expression.len()
    &&& forall|position: int| #![trigger marks[position]]
        0 <= position < marks.len() ==> marks[position] == reachable(expression, encoding, position)
    &&& forall|position: int| #[trigger]
        reachable(expression, encoding, position) ==> 0 <= position < marks.len()
}

/// Marks the position `to`, if there is one, and notes it in `open` unless it was marked before.
fn mark_position(to: i128, marks: &mut Vec<bool>, open: &mut Vec<usize>)
    ensures
        final(marks)@ == (if 0 <= to < old(marks)@.len() {
            old(marks)@.update(to as int, true)
        } else {
            old(marks)@
        }),
        final(open)@ == (if 0 <= to < old(marks)@.len() && !old(marks)@[to as int] {
            old(open)@.push(to as usize)
        } else {
            old(open)@
        }),
{
    if 0 <= to && to < marks.len() as i128 {
        let place: usize = to as usize;
        if !marks[place] {
            open.push(place);
            marks.set(place, true);
        } else {
            assert(marks@.update(to as int, true) =~= marks@);
        }
    }
}

/// Marks of the positions of `expression` at which there are operations that can be reached.
fn mark_operations(expression: &Vec<u8>, encoding: Encoding) -> (r: Vec<bool>)
    ensures
        marks_operations(expression@, encoding, r@),
{
    let ghost bytes = expression@;
    let mut marks: Vec<bool> = Vec::new();
    let mut i: usize = 0;
    while i < expression.len()
        invariant
            i == marks@.len() <= expression@.len(),
            forall|k: int| 0 <= k < i ==> !(#[trigger] marks@[k]),
        decreases expression.len() - i,
    {
        marks.push(false);
        i = i + 1;
    }
    let mut open: Vec<usize> = Vec::new();
    mark_position(0, &mut marks, &mut open);
    proof {
        assert(bytes.len() > 0 ==> reached(bytes, encoding, 0, 0));
        assert(bytes.len() > 0 ==> open@[0] == 0);
    }
    while open.len() > 0
        invariant
            bytes == expression@,
            marks@.len() == bytes.len(),
            bytes.len() > 0 ==> marks@[0],
            forall|k: int| 0 <= k < open@.len() ==> (#[trigger] open@[k]) < marks@.len()
                && marks@[open@[k] as int],
            forall|k: int| 0 <= k < marks@.len() && #[trigger] marks@[k] ==> reachable(
                bytes,
                encoding,
                k,
            ),
            forall|k: int|
                0 <= k < marks@.len() && marks@[k] && !open@.contains(k as usize)
                    ==> #[trigger] closed_at(bytes, encoding, marks@, k),
        decreases unmarked(marks@), open@.len(),
    {
        let ghost marked = marks@;
        let ghost noted = open@;
        let position: usize = match open.pop() {
            Some(position) => position,
            None => {
                return marks;
            },
        };
        let ghost from = position as int;
        assert(noted[noted.len() - 1] == position);
        assert(marked[from] && reachable(bytes, encoding, from));
        let ghost rest = open@;
        assert forall|k: usize| noted.contains(k) && k != position implies rest.contains(k) by {
            let j = choose|j: int| 0 <= j < noted.len() && noted[j] == k;
            assert(rest[j] == k);
        }
        let mut behind: i128 = -1;
        let mut ahead: i128 = -1;
        match find_operation(expression, encoding, position) {
            Some(step) => {
                let end: i128 = position as i128 + step.length as i128;
                match step.jump {
                    Jump::Never => {
                        behind = end;
                    },
                    Jump::Always(distance) => {
                        ahead = end + distance as i128;
                    },
                    Jump::Sometimes(distance) => {
                        behind = end;
                        ahead = end + distance as i128;
                    },
                }
            },
            None => {},
        }
        mark_position(behind, &mut marks, &mut open);
        let ghost between = marks@;
        let ghost noted_between = open@;
        mark_position(ahead, &mut marks, &mut open);
        assert(marks@.len() == marks.len());
        proof {
            assert(forall|to: int| #[trigger] leads(bytes, encoding, from, to) ==> to == behind
                || to == ahead);
            assert forall|k: int| 0 <= k < marks@.len() && #[trigger] marks@[k] implies reachable(
                bytes,
                encoding,
                k,
            ) by {
                if !marked[k] {
                    assert(leads(bytes, encoding, from, k));
                    lemma_reachable(bytes, encoding, from, k);
                }
            }
            assert forall|k: int| 0 <= k < open@.len() implies (#[trigger] open@[k]) < marks@.len()
                && marks@[open@[k] as int] by {
                if k < rest.len() {
                    assert(noted_between[k] == rest[k]);
                    assert(open@[k] == noted[k]);
                    assert(marked[noted[k] as int]);
                } else if k < noted_between.len() {
                    assert(open@[k] == noted_between[k]);
                    assert(open@[k] == behind);
                } else {
                    assert(open@[k] == ahead);
                }
            }
            assert forall|k: usize| rest.contains(k) implies open@.contains(k) by {
                let j = choose|j: int| 0 <= j < rest.len() && rest[j] == k;
                assert(noted_between[j] == k);
                assert(open@[j] == k);
            }
            assert forall|k: int|
                0 <= k < marks@.len() && marks@[k] && !open@.contains(
                    k as usize,
                ) implies #[trigger] closed_at(bytes, encoding, marks@, k) by {
                assert(k < marks.len());
                if k != from {
                    if !marked[k] {
                        if k == behind {
                            assert(noted_between[noted_between.len() - 1] == k);
                            assert(open@[noted_between.len() - 1] == k);
                        } else {
                            assert(open@[open@.len() - 1] == k);
                        }
                        assert(false);
                    }
                    assert(!noted.contains(k as usize));
                    assert(closed_at(bytes, encoding, marked, k));
                }
            }
            if 0 <= behind < marked.len() && !marked[behind as int] {
                lemma_unmarked(marked, behind as int);
            } else {
                assert(between =~= marked);
            }
            if 0 <= ahead < between.len() && !between[ahead as int] {
                lemma_unmarked(between, ahead as int);
            } else {
                assert(marks@ =~= between);
            }
        }
    }
    proof {
        assert forall|position: int| #[trigger]
            reachable(bytes, encoding, position) implies 0 <= position < marks@.len()
            && marks@[position] by {
            let steps = choose|steps: nat| reached(bytes, encoding, steps, position);
            assert forall|from: int|
                0 <= from < marks@.len() && marks@[from] implies #[trigger] closed_at(
                bytes,
                encoding,
                marks@,
                from,
            ) by {
                assert(!open@.contains(from as usize));
            }
            lemma_reached_marked(bytes, encoding, marks@, steps, position);
        }
    }
    marks
}

/// Whether a piece whose size is too large can be reached `back` bytes before `place`.
fn is_to_reduce(
    expression: &Vec<u8>,
    marks: &Vec<bool>,
    place: usize,
    back: usize,
    Ghost(encoding): Ghost<Encoding>,
) -> (r: bool)
    requires
        marks_operations(expression@, encoding, marks@),
        place < expression@.len(),
    ensures
        r == to_reduce(expression@, encoding, place - back),
{
    place >= back && marks[place - back] && is_oversized(expression, place - back)
}

/// `expression` with the sizes of pieces that are too large reduced modulo 2^61.
fn reduce(expression: &Vec<u8>, marks: &Vec<bool>, Ghost(encoding): Ghost<Encoding>) -> (r: Vec<u8>)
    requires
        marks_operations(expression@, encoding, marks@),
    ensures
        r@ == reduced(expression@, encoding),
{
    let mut changed: Vec<u8> = Vec::new();
    let mut i: usize = 0;
    while i < expression.len()
        invariant
            marks_operations(expression@, encoding, marks@),
            i == changed@.len() <= expression@.len(),
            forall|k: int|
                0 <= k < i ==> #[trigger] changed@[k] == reduced_byte(expression@, encoding, k),
        decreases expression.len() - i,
    {
        let byte: u8 = expression[i];
        let last: bool = is_to_reduce(expression, marks, i, 10, Ghost(encoding))
            && expression[i - 1] >= 128;
        if last {
            changed.push(0);
        } else if is_to_reduce(expression, marks, i, 9, Ghost(encoding)) {
            if byte < 128 {
                changed.push(byte % 32);
            } else {
                changed.push(128 + byte % 32);
            }
        } else {
            changed.push(byte);
        }
        i = i + 1;
    }
    assert(changed@ =~= reduced(expression@, encoding));
    changed
}

/// Whether the operation at `position` has the bytes in `changed` that it has in `expression`, or,
/// if it is a piece whose size is too large, has that size modulo 2^61 there.
fn check_kept(expression: &Vec<u8>, encoding: Encoding, changed: &Vec<u8>, position: usize) -> (r:
    bool)
    requires
        changed@.len() == expression@.len(),
        position < expression@.len(),
    ensures
        r == kept_at(expression@, encoding, changed@, position as int),
{
    if is_oversized(expression, position) {
        assert(position < expression.len());
        match (
            read_leb128(expression, position + 1, LEB128_LIMIT),
            read_leb128(changed, position + 1, LEB128_LIMIT),
        ) {
            (Some(size), Some(other)) => changed[position] == DW_OP_PIECE && other == size
                % 0x2000_0000_0000_0000,
            _ => false,
        }
    } else {
        match find_operation(expression, encoding, position) {
            None => true,
            Some(step) => {
                let mut i: usize = position;
                while i < expression.len() && i - position < step.length
                    invariant
                        changed@.len() == expression@.len(),
                        position <= i <= expression@.len(),
                        forall|k: int|
                            position <= k < i ==> #[trigger] changed@[k] == expression@[k],
                        !oversized(expression@, position as int),
                        operation_at(expression@, encoding, position as int) == Some(step),
                    decreases expression.len() - i,
                {
                    if changed[i] != expression[i] {
                        return false;
                    }
                    i = i + 1;
                }
                true
            },
        }
    }
}

/// `expression` with the sizes of pieces that are too large reduced modulo 2^61, if that makes
/// gimli count the bits of all pieces and changes no other operation.
pub(crate) fn reduce_sizes(expression: &Vec<u8>, encoding: Encoding) -> (r: Option<Vec<u8>>)
    ensures
        (match r {
            Some(changed) => Some(changed@),
            None => None,
        }) == (if reducible(expression@, encoding) {
            Some(reduced(expression@, encoding))
        } else {
            None
        }),
{
    let marks = mark_operations(expression, encoding);
    let changed = reduce(expression, &marks, Ghost(encoding));
    let changed_marks = mark_operations(&changed, encoding);
    let mut i: usize = 0;
    while i < expression.len()
        invariant
            i <= expression@.len(),
            changed@ == reduced(expression@, encoding),
            marks_operations(expression@, encoding, marks@),
            marks_operations(changed@, encoding, changed_marks@),
            forall|k: int|
                0 <= k < i && #[trigger] reachable(expression@, encoding, k) ==> kept_at(
                    expression@,
                    encoding,
                    changed@,
                    k,
                ),
            forall|k: int|
                0 <= k < i && #[trigger] reachable(
                    changed@,
                    encoding,
                    k,
                ) ==> !oversized(changed@, k),
        decreases expression.len() - i,
    {
        assert(marks@[i as int] == reachable(expression@, encoding, i as int));
        assert(changed_marks@[i as int] == reachable(changed@, encoding, i as int));
        if marks[i] && !check_kept(expression, encoding, &changed, i) {
            return None;
        }
        if changed_marks[i] && is_oversized(&changed, i) {
            return None;
        }
        i = i + 1;
    }
    Some(changed)
}

} // verus!
