//! What an evaluation is told, and where its pieces put a variable.
use vstd::prelude::*;

#[allow(unused_imports)]
use crate::dwarf::Encoding;
#[allow(unused_imports)]
use crate::error::{DebugError, DebugErrorView};
#[allow(unused_imports)]
use crate::evaluation::{
    answer_to, big_endian, evaluated, expression_pieces, gimli_evaluation, gimli_pieces, located,
    pieces_from, Answer, EvaluationHistory, EvaluationRequest, MemoryValue, PieceLocation,
    PieceValue,
};
#[allow(unused_imports)]
use crate::operations::{law_fitting_sizes_stay, sizes_fit};
#[allow(unused_imports)]
use crate::target::{
    known_value, memory_reply, register_value, DebugRegister, KnownValue, MemoryRead, RegisterValue,
    Target,
};
#[allow(unused_imports)]
use crate::text::{decimal, signed_decimal};
#[allow(unused_imports)]
use crate::variable::{Variable, VariableLocation, VariableValue, VariableView};

verus! {

/// Whether the register `value` holds the number `n`.
pub open spec fn register_is(value: RegisterValue, n: nat) -> bool {
    match value {
        RegisterValue::U32(v) => v == n,
        RegisterValue::U64(v) => v == n,
        RegisterValue::U128(v) => v == n,
    }
}

/// The number of a register is what it holds.
pub proof fn law_register_number(value: RegisterValue, n: nat)
    ensures
        register_is(value, n) <==> value.number() == n,
{
}

/// Whether `at` is the place of the first of `registers` with the number `id`.
pub open spec fn first_register(registers: Seq<DebugRegister>, id: u16, at: int) -> bool {
    &&& 0 <= at < registers.len()
    &&& registers[at].dwarf_id == id
    &&& forall|i: int| 0 <= i < at ==> (#[trigger] registers[i]).dwarf_id != id
}

/// The value of a register is that of the first one with its number; it is unknown where there is
/// none.
pub proof fn law_register_value(registers: Seq<DebugRegister>, id: u16)
    ensures
        forall|at: int| #[trigger]
            first_register(registers, id, at) ==> register_value(registers, id)
                == registers[at].value,
        (forall|i: int| 0 <= i < registers.len() ==> (#[trigger] registers[i]).dwarf_id != id)
            ==> register_value(registers, id) is None,
    decreases registers.len(),
{
    if registers.len() > 0 {
        let rest = registers.drop_first();
        law_register_value(rest, id);
        assert forall|at: int| #[trigger] first_register(registers, id, at) implies register_value(
            registers,
            id,
        ) == registers[at].value by {
            if at > 0 {
                assert(registers[0].dwarf_id != id);
                assert forall|i: int| 0 <= i < at - 1 implies (#[trigger] rest[i]).dwarf_id
                    != id by {
                    assert(rest[i] == registers[i + 1]);
                }
                assert(first_register(rest, id, at - 1));
            }
        }
        if forall|i: int| 0 <= i < registers.len() ==> (#[trigger] registers[i]).dwarf_id != id {
            assert(registers[0].dwarf_id != id);
            assert forall|i: int|
                0 <= i < rest.len() implies (#[trigger] rest[i]).dwarf_id != id by {
                assert(rest[i] == registers[i + 1]);
            }
        }
    }
}

/// Whether `read` is a reply to a read of `size` bytes at `address`: it is for that address and
/// that number of bytes, and has as many, unless the target refused.
pub open spec fn is_reply(read: MemoryRead, address: u64, size: usize) -> bool {
    &&& read.address == address
    &&& read.size == size
    &&& read.data is None || read.data->0@.len() == size
}

/// Whether `at` is the place of the first of `reads` that is a reply to a read of `size` bytes at
/// `address`.
pub open spec fn first_reply(reads: Seq<MemoryRead>, address: u64, size: usize, at: int) -> bool {
    &&& 0 <= at < reads.len()
    &&& is_reply(reads[at], address, size)
    &&& forall|i: int| 0 <= i < at ==> !is_reply(#[trigger] reads[i], address, size)
}

/// The reply to a read is the first that is for its address and its number of bytes; it is missing
/// where there is none.
pub proof fn law_memory_reply(reads: Seq<MemoryRead>, address: u64, size: usize)
    ensures
        forall|at: int| #[trigger]
            first_reply(reads, address, size, at) ==> memory_reply(reads, address, size) == Some(
                match reads[at].data {
                    Some(data) => Some(data@),
                    None => None,
                },
            ),
        (forall|i: int| 0 <= i < reads.len() ==> !is_reply(#[trigger] reads[i], address, size))
            ==> memory_reply(reads, address, size) is None,
    decreases reads.len(),
{
    if reads.len() > 0 {
        let rest = reads.drop_first();
        law_memory_reply(rest, address, size);
        assert forall|at: int| #[trigger]
            first_reply(reads, address, size, at) implies memory_reply(
            reads,
            address,
            size,
        ) == Some(
            match reads[at].data {
                Some(data) => Some(data@),
                None => None,
            },
        ) by {
            if at > 0 {
                assert(!is_reply(reads[0], address, size));
                assert forall|i: int| 0 <= i < at - 1 implies !is_reply(
                    #[trigger] rest[i],
                    address,
                    size,
                ) by {
                    assert(rest[i] == reads[i + 1]);
                }
                assert(first_reply(rest, address, size, at - 1));
            }
        }
        if forall|i: int| 0 <= i < reads.len() ==> !is_reply(#[trigger] reads[i], address, size) {
            assert(!is_reply(reads[0], address, size));
            assert forall|i: int| 0 <= i < rest.len() implies !is_reply(
                #[trigger] rest[i],
                address,
                size,
            ) by {
                assert(rest[i] == reads[i + 1]);
            }
        }
    }
}

/// Whether `known` is of the type, the place and the size of `variable`.
pub open spec fn is_value_of(known: KnownValue, variable: VariableView) -> bool {
    &&& known.variable_type@ == variable.variable_type
    &&& known.memory_location@ == variable.memory_location
    &&& known.byte_size == variable.byte_size
}

/// The value of a variable is the first that was decoded for its type, its place and its size; it
/// is unknown where there is none.
pub proof fn law_known_value(values: Seq<KnownValue>, variable: VariableView, at: int)
    requires
        forall|i: int| 0 <= i < at ==> !is_value_of(#[trigger] values[i], variable),
        0 <= at <= values.len(),
    ensures
        at < values.len() && is_value_of(values[at], variable) ==> known_value(values, variable)
            == Some(values[at].value@),
        at == values.len() ==> known_value(values, variable) is None,
    decreases values.len(),
{
    if at > 0 {
        let rest = values.drop_first();
        assert(!is_value_of(values[0], variable));
        assert forall|i: int|
            0 <= i < at - 1 implies !is_value_of(#[trigger] rest[i], variable) by {
            assert(rest[i] == values[i + 1]);
        }
        law_known_value(rest, variable, at - 1);
    }
}

/// An evaluation that asks for the frame base is told exactly the number in the frame pointer; one
/// that asks for a register, exactly the number in it. A number that takes more than 64 bits cannot
/// be told.
pub proof fn law_registers_told(
    target: Target,
    frame_base: RegisterValue,
    register: u16,
    value: RegisterValue,
    n: nat,
    m: nat,
)
    requires
        register_is(frame_base, n),
        register_value(target.registers.registers@, register) == Some(value),
        register_is(value, m),
    ensures
        match answer_to(EvaluationRequest::FrameBase, target, frame_base) {
            Ok(answer) => n <= u64::MAX && answer == Answer::FrameBase(n as u64),
            Err(error) => n > u64::MAX && error is RegisterTooWide,
        },
        match answer_to(
            EvaluationRequest::Register { register, base_type: 0 },
            target,
            frame_base,
        ) {
            Ok(answer) => m <= u64::MAX && answer == Answer::Register(m as u64),
            Err(error) => m > u64::MAX && error is RegisterTooWide,
        },
{
}

/// An evaluation that asks for a register whose value is unknown, or for another type than that of
/// an address, cannot go on.
pub proof fn law_register_unknown(
    target: Target,
    frame_base: RegisterValue,
    register: u16,
    base_type: usize,
)
    requires
        register_value(target.registers.registers@, register) is None || base_type != 0,
    ensures
        answer_to(
            EvaluationRequest::Register { register, base_type },
            target,
            frame_base,
        ) matches Err(DebugError::Other(text)) && text == (if register_value(
            target.registers.registers@,
            register,
        ) is None {
            "Error while calculating `Variable::memory_location`. No value for register #:"@
                + decimal(register as nat) + "."@
        } else {
            "Unimplemented: Support for type UnitOffset("@ + decimal(base_type as nat)
                + ") in `RequiresRegister` request is not yet implemented."@
        }),
{
}

/// Any other request cannot be answered, and the error tells which it is.
pub proof fn law_other_request(target: Target, frame_base: RegisterValue, text: Seq<char>)
    ensures
        answer_to(EvaluationRequest::Other(text), target, frame_base) matches Err(
            DebugError::Other(message),
        ) && message == "Unimplemented: Expressions that include "@ + text
            + " are not currently supported."@,
{
}

/// Whether an evaluation is told `value` as what the memory holds.
pub open spec fn told_memory(told: Result<Answer, DebugErrorView>, value: MemoryValue) -> bool {
    told matches Ok(Answer::Memory(v)) && v == value
}

/// An evaluation that asks for memory is told the bytes that were read there, the first of them as
/// the most significant one. What was not read yet is asked for, and what the target refuses to
/// give, or is of another size, cannot be told.
pub proof fn law_memory_told(target: Target, frame_base: RegisterValue, address: u64, size: u8)
    ensures
        ({
            let reply = memory_reply(target.memory@, address, size as usize);
            let told = answer_to(EvaluationRequest::Memory { address, size }, target, frame_base);
            match reply {
                None => told matches Err(DebugError::NeedsMemory { address: a, size: s }) && a
                    == address && s == size,
                Some(None) => told matches Err(DebugError::Other(_)),
                Some(Some(bytes)) => if size == 1 {
                    bytes.len() == 1 ==> told_memory(told, MemoryValue::U8(bytes[0]))
                } else if size == 2 {
                    bytes.len() == 2 ==> told_memory(
                        told,
                        MemoryValue::U16((bytes[0] * 0x100 + bytes[1]) as u16),
                    )
                } else if size == 4 {
                    bytes.len() == 4 ==> told_memory(
                        told,
                        MemoryValue::U32(
                            (bytes[0] * 0x100_0000 + bytes[1] * 0x1_0000 + bytes[2] * 0x100
                                + bytes[3]) as u32,
                        ),
                    )
                } else {
                    told matches Err(DebugError::UnsupportedMemorySize(s)) && s == size
                },
            }
        }),
{
    if let Some(Some(bytes)) = memory_reply(target.memory@, address, size as usize) {
        reveal_with_fuel(big_endian, 5);
        if bytes.len() == 1 {
            assert(bytes.drop_last() =~= seq![]);
        } else if bytes.len() == 2 {
            assert(bytes.drop_last() =~= seq![bytes[0]]);
        } else if bytes.len() == 4 {
            assert(bytes.drop_last() =~= seq![bytes[0], bytes[1], bytes[2]]);
            assert(bytes.drop_last().drop_last() =~= seq![bytes[0], bytes[1]]);
            assert(bytes.drop_last().drop_last().drop_last() =~= seq![bytes[0]]);
        }
    }
}

/// An evaluation that asks where an address was moved is told that it stays where it is; but an
/// address of 0, which is not known, becomes the largest one.
pub proof fn law_address_told(target: Target, frame_base: RegisterValue, address: u64)
    ensures
        ({
            let told = answer_to(
                EvaluationRequest::RelocatedAddress(address),
                target,
                frame_base,
            );
            &&& told matches Ok(Answer::RelocatedAddress(moved)) && moved == (if address == 0 {
                u64::MAX
            } else {
                address
            })
        }),
{
}

/// The history of an evaluation of `expression` that was told to begin, and then what `answers`
/// hold.
pub open spec fn told(
    expression: Seq<u8>,
    encoding: Encoding,
    answers: Seq<Answer>,
) -> EvaluationHistory {
    EvaluationHistory {
        expression,
        encoding,
        limit: Some(0xffff_fffe),
        answers: seq![Answer::Start] + answers,
    }
}

/// An expression is evaluated as it stands: it begins with nothing told but to begin, and where
/// gimli completes it at once, its pieces are those that gimli finds.
pub proof fn law_completed_at_once(
    expression: Seq<u8>,
    encoding: Encoding,
    target: Target,
    frame_base: RegisterValue,
)
    requires
        target.registers.frame_pointer == Some(frame_base),
        encoding.address_size <= 8,
        sizes_fit(expression, encoding),
    ensures
        expression_pieces(expression, encoding, target) == pieces_from(
            told(expression, encoding, seq![]),
            target,
            frame_base,
        ),
        gimli_evaluation(told(expression, encoding, seq![])) matches Ok(EvaluationRequest::Complete)
            ==> (expression_pieces(expression, encoding, target) matches Ok(pieces) && pieces
            == gimli_pieces(told(expression, encoding, seq![]))),
{
    law_fitting_sizes_stay(expression, encoding);
    assert(told(expression, encoding, seq![]).answers =~= seq![Answer::Start]);
}

/// Without a frame pointer no expression is evaluated.
pub proof fn law_frame_pointer_needed(expression: Seq<u8>, encoding: Encoding, target: Target)
    requires
        target.registers.frame_pointer is None,
    ensures
        expression_pieces(expression, encoding, target) matches Err(DebugError::Other(_)),
{
}

/// An evaluation that has stopped with a request goes on once it is told the answer, and with
/// nothing else changed; one that cannot be told ends with the reason; and one that is complete has
/// the pieces that gimli finds.
pub proof fn law_goes_on(
    expression: Seq<u8>,
    encoding: Encoding,
    answers: Seq<Answer>,
    target: Target,
    frame_base: RegisterValue,
)
    requires
        answers.len() < 0xffff_fffe,
    ensures
        match gimli_evaluation(told(expression, encoding, answers)) {
            Ok(EvaluationRequest::Complete) => pieces_from(
                told(expression, encoding, answers),
                target,
                frame_base,
            ) matches Ok(pieces) && pieces == gimli_pieces(told(expression, encoding, answers)),
            Ok(request) => match answer_to(request, target, frame_base) {
                Ok(answer) => pieces_from(told(expression, encoding, answers), target, frame_base)
                    == pieces_from(
                    told(expression, encoding, answers.push(answer)),
                    target,
                    frame_base,
                ),
                Err(error) => pieces_from(
                    told(expression, encoding, answers),
                    target,
                    frame_base,
                ) matches Err(met) && met == error,
            },
            Err(_) => pieces_from(told(expression, encoding, answers), target, frame_base) is Err,
        },
{
    let history = told(expression, encoding, answers);
    if let Ok(request) = gimli_evaluation(history) {
        if let Ok(answer) = answer_to(request, target, frame_base) {
            assert(history.told(answer).answers =~= told(
                expression,
                encoding,
                answers.push(answer),
            ).answers);
        }
    }
}

/// Where a variable is kept at an offset from the frame base, it is at the address that gimli
/// computes from exactly the number in the frame pointer.
pub proof fn law_place_from_frame_base(
    variable: VariableView,
    expression: Seq<u8>,
    encoding: Encoding,
    target: Target,
    frame_base: RegisterValue,
    n: u64,
    address: u64,
)
    requires
        target.registers.frame_pointer == Some(frame_base),
        register_is(frame_base, n as nat),
        encoding.address_size <= 8,
        sizes_fit(expression, encoding),
        gimli_evaluation(told(expression, encoding, seq![])) matches Ok(
            EvaluationRequest::FrameBase,
        ),
        gimli_evaluation(told(expression, encoding, seq![Answer::FrameBase(n)])) matches Ok(
            EvaluationRequest::Complete,
        ),
        gimli_pieces(told(expression, encoding, seq![Answer::FrameBase(n)])) == seq![
            PieceLocation::<Seq<char>>::Address(address),
        ],
        address != 0xffff_ffff,
    ensures
        evaluated(variable, expression, encoding, target).1 is Ok,
        evaluated(variable, expression, encoding, target).0 == (Variable {
            memory_location: VariableLocation::Address(address),
            ..variable
        }),
{
    law_completed_at_once(expression, encoding, target, frame_base);
    law_goes_on(expression, encoding, seq![], target, frame_base);
    assert(Seq::<Answer>::empty().push(Answer::FrameBase(n)) =~= seq![Answer::FrameBase(n)]);
    law_goes_on(expression, encoding, seq![Answer::FrameBase(n)], target, frame_base);
}

/// A single piece puts a variable where it says and changes nothing else of it: in memory, in a
/// register, or nowhere, where its value is the number that it says; a variable without a place was
/// optimized away. An address that means that it is not known is refused.
pub proof fn law_single_piece(
    variable: VariableView,
    address: u64,
    register: u16,
    n: u64,
    m: i64,
    text: Seq<char>,
)
    ensures
        address != 0xffff_ffff ==> {
            let outcome = located(variable, seq![PieceLocation::Address(address)]);
            outcome.1 is Ok && outcome.0 == Variable {
                memory_location: VariableLocation::Address(address),
                ..variable
            }
        },
        ({
            let outcome = located(variable, seq![PieceLocation::Address(0xffff_ffff)]);
            (outcome.1 matches Err(DebugError::Other(_))) && outcome.0 == variable
        }),
        ({
            let outcome = located(variable, seq![PieceLocation::Register(register)]);
            outcome.1 is Ok && outcome.0 == Variable {
                memory_location: VariableLocation::Register(register as usize),
                ..variable
            }
        }),
        ({
            let outcome = located(
                variable,
                seq![PieceLocation::Value(PieceValue::Unsigned(n))],
            );
            outcome.1 is Ok && outcome.0 == Variable {
                memory_location: VariableLocation::Value,
                value: VariableValue::Valid(decimal(n as nat)),
                ..variable
            }
        }),
        ({
            let outcome = located(variable, seq![PieceLocation::Value(PieceValue::Signed(m))]);
            outcome.1 is Ok && outcome.0 == Variable {
                memory_location: VariableLocation::Value,
                value: VariableValue::Valid(signed_decimal(m as int)),
                ..variable
            }
        }),
        ({
            let outcome = located(variable, seq![PieceLocation::Value(PieceValue::Float(text))]);
            outcome.1 is Ok && outcome.0 == Variable {
                memory_location: VariableLocation::Value,
                value: VariableValue::Valid(text),
                ..variable
            }
        }),
        ({
            let outcome = located(variable, seq![PieceLocation::Other(text)]);
            outcome.1 is Err && outcome.0 == variable
        }),
        ({
            let outcome = located(variable, seq![PieceLocation::Empty]);
            outcome.1 is Ok && outcome.0 == Variable {
                memory_location: VariableLocation::Unavailable,
                value: outcome.0.value,
                ..variable
            } && outcome.0.value is Error && (variable.valid() ==> outcome.0.value
                == VariableValue::Error("<value optimized away by compiler>"@))
        }),
{
}

/// A variable in no piece or in several is not placed: with none it is left as it is, and that is
/// an error; with several its value says that this is not supported.
pub proof fn law_other_numbers_of_pieces(
    variable: VariableView,
    pieces: Seq<PieceLocation<Seq<char>>>,
)
    requires
        pieces.len() != 1,
    ensures
        pieces.len() == 0 ==> located(variable, pieces).0 == variable && located(
            variable,
            pieces,
        ).1 is Err,
        pieces.len() > 1 ==> ({
            let outcome = located(variable, pieces);
            &&& outcome.1 is Ok
            &&& outcome.0.memory_location == VariableLocation::Unsupported(
                "<unsupported memory implementation>"@,
            )
            &&& outcome.0.value is Error
            &&& variable.valid() ==> outcome.0.value == VariableValue::Error(
                "<unsupported memory implementation>"@,
            )
            &&& outcome.0 == Variable {
                memory_location: outcome.0.memory_location,
                value: outcome.0.value,
                ..variable
            }
        }),
{
}

} // verus!
