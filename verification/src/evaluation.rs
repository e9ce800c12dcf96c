//! Expressions of the debugging information, which tell where a variable is kept.
//!
//! gimli evaluates them. It stops wherever it needs something of the target, and goes on once it is
//! told. Sizes of pieces that are too large for it are reduced first.
use vstd::prelude::*;

use gimli::{EvaluationResult, Location, Value};
use num_traits::Zero;

use crate::dwarf::{Encoding, UnitInfo};
use crate::error::DebugError;
#[allow(unused_imports)]
use crate::error::{unit_view, DebugErrorView};
use crate::operations::reduce_sizes;
#[allow(unused_imports)]
use crate::operations::{reduced, reducible, sizes_fit};
use crate::target::{MemoryReply, RegisterValue, Target};
#[allow(unused_imports)]
use crate::target::{memory_reply, register_value};
use crate::text::{i64_text, join2, join3, u64_text};
#[allow(unused_imports)]
use crate::text::{decimal, signed_decimal};
use crate::variable::{Variable, VariableLocation, VariableValue};
#[allow(unused_imports)]
use crate::variable::VariableView;

verus! {

/// The largest number of operations that an expression may take: gimli counts them with 32 bits,
/// and one more than this number ends the evaluation.
pub const OPERATION_LIMIT: u32 = 0xffff_fffe;

/// A value that was read from memory.
#[derive(Debug, Clone, Copy, PartialEq, Eq, Structural)]
pub enum MemoryValue {
    /// Of one byte.
    U8(u8),
    /// Of two bytes.
    U16(u16),
    /// Of four bytes.
    U32(u32),
}

/// What an evaluation was told.
#[derive(Debug, Clone, Copy, PartialEq, Eq, Structural)]
pub enum Answer {
    /// To begin.
    Start,
    /// What the memory holds.
    Memory(MemoryValue),
    /// The frame base.
    FrameBase(u64),
    /// What a register holds.
    Register(u64),
    /// Where an address was moved.
    RelocatedAddress(u64),
}

/// Why an evaluation has stopped.
#[derive(Debug)]
pub enum EvaluationRequest<S = String> {
    /// It is complete.
    Complete,
    /// It needs a value from memory.
    Memory {
        /// The address of the value.
        address: u64,
        /// The number of its bytes.
        size: u8,
    },
    /// It needs the value of a register.
    Register {
        /// The number of the register.
        register: u16,
        /// The offset of the type in which it is needed; 0 for that of an address.
        base_type: usize,
    },
    /// It needs the frame base.
    FrameBase,
    /// It needs to know where an address was moved.
    RelocatedAddress(u64),
    /// It needs something else, as in a diagnostic.
    Other(S),
}

impl View for EvaluationRequest {
    type V = EvaluationRequest<Seq<char>>;

    open spec fn view(&self) -> EvaluationRequest<Seq<char>> {
        match *self {
            EvaluationRequest::Complete => EvaluationRequest::Complete,
            EvaluationRequest::Memory { address, size } => EvaluationRequest::Memory {
                address,
                size,
            },
            EvaluationRequest::Register { register, base_type } => EvaluationRequest::Register {
                register,
                base_type,
            },
            EvaluationRequest::FrameBase => EvaluationRequest::FrameBase,
            EvaluationRequest::RelocatedAddress(address) => EvaluationRequest::RelocatedAddress(
                address,
            ),
            EvaluationRequest::Other(text) => EvaluationRequest::Other(text@),
        }
    }
}

/// A value that an expression computes.
#[derive(Debug)]
pub enum PieceValue<S = String> {
    /// An unsigned number.
    Unsigned(u64),
    /// A signed number.
    Signed(i64),
    /// A number with a fraction, as a text.
    Float(S),
}

impl View for PieceValue {
    type V = PieceValue<Seq<char>>;

    open spec fn view(&self) -> PieceValue<Seq<char>> {
        match *self {
            PieceValue::Unsigned(n) => PieceValue::Unsigned(n),
            PieceValue::Signed(n) => PieceValue::Signed(n),
            PieceValue::Float(text) => PieceValue::Float(text@),
        }
    }
}

impl Clone for PieceValue {
    fn clone(&self) -> (r: Self)
        ensures
            r@ == self@,
    {
        match self {
            PieceValue::Unsigned(n) => PieceValue::Unsigned(*n),
            PieceValue::Signed(n) => PieceValue::Signed(*n),
            PieceValue::Float(text) => PieceValue::Float(text.clone()),
        }
    }
}

impl PieceValue<Seq<char>> {
    /// The value as a text.
    pub open spec fn shown(self) -> Seq<char> {
        match self {
            PieceValue::Unsigned(n) => decimal(n as nat),
            PieceValue::Signed(n) => signed_decimal(n as int),
            PieceValue::Float(text) => text,
        }
    }
}

impl PieceValue {
    /// The value as a text.
    pub fn display(&self) -> (r: String)
        ensures
            r@ == self@.shown(),
    {
        match self {
            PieceValue::Unsigned(n) => u64_text(*n),
            PieceValue::Signed(n) => i64_text(*n),
            PieceValue::Float(text) => text.clone(),
        }
    }
}

/// Where a piece of a variable is found.
#[derive(Debug)]
pub enum PieceLocation<S = String> {
    /// Nowhere: the piece was optimized away.
    Empty,
    /// In memory.
    Address(u64),
    /// In a register.
    Register(u16),
    /// Nowhere, but its value is known.
    Value(PieceValue<S>),
    /// Elsewhere, as in a diagnostic.
    Other(S),
}

impl View for PieceLocation {
    type V = PieceLocation<Seq<char>>;

    open spec fn view(&self) -> PieceLocation<Seq<char>> {
        match *self {
            PieceLocation::Empty => PieceLocation::Empty,
            PieceLocation::Address(address) => PieceLocation::Address(address),
            PieceLocation::Register(register) => PieceLocation::Register(register),
            PieceLocation::Value(value) => PieceLocation::Value(value@),
            PieceLocation::Other(text) => PieceLocation::Other(text@),
        }
    }
}

impl Clone for PieceLocation {
    fn clone(&self) -> (r: Self)
        ensures
            r@ == self@,
    {
        match self {
            PieceLocation::Empty => PieceLocation::Empty,
            PieceLocation::Address(address) => PieceLocation::Address(*address),
            PieceLocation::Register(register) => PieceLocation::Register(*register),
            PieceLocation::Value(value) => PieceLocation::Value(value.clone()),
            PieceLocation::Other(text) => PieceLocation::Other(text.clone()),
        }
    }
}

/// The views of `pieces`.
pub open spec fn piece_views(pieces: Seq<PieceLocation>) -> Seq<PieceLocation<Seq<char>>> {
    Seq::new(pieces.len(), |i: int| pieces[i]@)
}

/// What an evaluation was made of, and what it was told since.
pub struct EvaluationHistory {
    /// The expression.
    pub expression: Seq<u8>,
    /// How its numbers are encoded.
    pub encoding: Encoding,
    /// The largest number of operations, where there is one.
    pub limit: Option<u32>,
    /// What it was told.
    pub answers: Seq<Answer>,
}

impl EvaluationHistory {
    /// The history once the evaluation was told `answer`.
    pub open spec fn told(self, answer: Answer) -> EvaluationHistory {
        EvaluationHistory { answers: self.answers.push(answer), ..self }
    }
}

/// An evaluation of an expression by gimli: its `Evaluation`, whose parameter is bound by a trait
/// of gimli, and the `EvaluationResult` with which it has stopped.
#[verifier::external_body]
pub struct ExpressionEvaluation<'a> {
    evaluation: gimli::Evaluation<gimli::EndianSlice<'a, gimli::LittleEndian>>,
    result: gimli::EvaluationResult<gimli::EndianSlice<'a, gimli::LittleEndian>>,
}

/// What the evaluation `evaluation` was made of, and what it was told since.
pub uninterp spec fn evaluation_history(evaluation: ExpressionEvaluation) -> EvaluationHistory;

/// Why gimli stops an evaluation with this history, or the text of the error it meets: as it is
/// displayed if the evaluation was told the frame base last, and as in a diagnostic otherwise.
pub uninterp spec fn gimli_evaluation(history: EvaluationHistory) -> Result<
    EvaluationRequest<Seq<char>>,
    Seq<char>,
>;

/// The pieces that gimli finds by a complete evaluation with this history.
pub uninterp spec fn gimli_pieces(history: EvaluationHistory) -> Seq<PieceLocation<Seq<char>>>;

/// `gimli::Expression::evaluation`: an evaluation of `expression` that was told nothing yet. gimli
/// masks addresses by shifting by their size, which is why they take 8 bytes at most.
#[verifier::external_body]
fn evaluation<'a>(expression: &'a Vec<u8>, encoding: Encoding) -> (r:
    ExpressionEvaluation<'a>)
    requires
        encoding.address_size <= 8,
    ensures
        evaluation_history(r) == (EvaluationHistory {
            expression: expression@,
            encoding,
            limit: None,
            answers: Seq::empty(),
        }),
{
    let bytes = gimli::EndianSlice::new(expression, gimli::LittleEndian);
    let encoding = gimli::Encoding {
        address_size: encoding.address_size,
        format: match encoding.is_64_bit {
            true => gimli::Format::Dwarf64,
            false => gimli::Format::Dwarf32,
        },
        version: encoding.version,
    };
    let evaluation = gimli::Expression(bytes).evaluation(encoding);
    ExpressionEvaluation { evaluation, result: EvaluationResult::Complete }
}

impl<'a> ExpressionEvaluation<'a> {
    /// `gimli::Evaluation::set_max_iterations`: bounds the number of operations of an evaluation
    /// that was told nothing yet.
    #[verifier::external_body]
    fn set_max_iterations(&mut self, limit: u32)
        requires
            evaluation_history(*old(self)).answers.len() == 0,
        ensures
            evaluation_history(*final(self)) == (EvaluationHistory {
                limit: Some(limit),
                ..evaluation_history(*old(self))
            }),
    {
        self.evaluation.set_max_iterations(limit);
    }

    /// `gimli::Evaluation::evaluate`: begins. It stops with a request or an error that its history
    /// determines. A request other than that it is complete comes with an operation each, so there
    /// are no more of them than operations. The text is the error by its `Debug`, but for the
    /// address that the end of the input has for a mark. gimli multiplies the sizes of pieces by 8.
    #[verifier::external_body]
    fn evaluate(&mut self) -> (r: Result<(), String>)
        requires
            evaluation_history(*old(self)).answers.len() == 0,
            sizes_fit(
                evaluation_history(*old(self)).expression,
                evaluation_history(*old(self)).encoding,
            ),
            evaluation_history(*old(self)).limit matches Some(limit) && limit < u32::MAX,
        ensures
            evaluation_history(*final(self)) == evaluation_history(*old(self)).told(Answer::Start),
            stopped(evaluation_history(*final(self)), r),
    {
        let result = self.evaluation.evaluate();
        self.result = result.map_err(|error| match error {
            gimli::Error::UnexpectedEof(_) => String::from("UnexpectedEof"),
            error => format!("{:?}", error),
        })?;
        Ok(())
    }

    /// `gimli::Evaluation::resume_with_memory`: goes on with what the memory holds. Otherwise as
    /// `evaluate`.
    #[verifier::external_body]
    fn resume_with_memory(&mut self, value: MemoryValue) -> (r: Result<(), String>)
        requires
            sizes_fit(
                evaluation_history(*old(self)).expression,
                evaluation_history(*old(self)).encoding,
            ),
            evaluation_history(*old(self)).limit matches Some(limit) && limit < u32::MAX,
            gimli_evaluation(evaluation_history(*old(self))) matches Ok(
                EvaluationRequest::Memory { .. },
            ),
        ensures
            evaluation_history(*final(self)) == evaluation_history(*old(self)).told(
                Answer::Memory(value),
            ),
            stopped(evaluation_history(*final(self)), r),
    {
        let value = match value {
            MemoryValue::U8(v) => Value::U8(v),
            MemoryValue::U16(v) => Value::U16(v),
            MemoryValue::U32(v) => Value::U32(v),
        };
        let result = self.evaluation.resume_with_memory(value);
        self.result = result.map_err(|error| match error {
            gimli::Error::UnexpectedEof(_) => String::from("UnexpectedEof"),
            error => format!("{:?}", error),
        })?;
        Ok(())
    }

    /// `gimli::Evaluation::resume_with_frame_base`: goes on with the frame base. The text of an
    /// error is that of its `Display`. Otherwise as `evaluate`.
    #[verifier::external_body]
    fn resume_with_frame_base(&mut self, frame_base: u64) -> (r: Result<(), String>)
        requires
            sizes_fit(
                evaluation_history(*old(self)).expression,
                evaluation_history(*old(self)).encoding,
            ),
            evaluation_history(*old(self)).limit matches Some(limit) && limit < u32::MAX,
            gimli_evaluation(evaluation_history(*old(self))) matches Ok(
                EvaluationRequest::FrameBase,
            ),
        ensures
            evaluation_history(*final(self)) == evaluation_history(*old(self)).told(
                Answer::FrameBase(frame_base),
            ),
            stopped(evaluation_history(*final(self)), r),
    {
        let result = self.evaluation.resume_with_frame_base(frame_base);
        self.result = result.map_err(|error| error.to_string())?;
        Ok(())
    }

    /// `gimli::Evaluation::resume_with_register`: goes on with what a register holds, as a value
    /// of the type of an address. Otherwise as `evaluate`.
    #[verifier::external_body]
    fn resume_with_register(&mut self, value: u64) -> (r: Result<(), String>)
        requires
            sizes_fit(
                evaluation_history(*old(self)).expression,
                evaluation_history(*old(self)).encoding,
            ),
            evaluation_history(*old(self)).limit matches Some(limit) && limit < u32::MAX,
            gimli_evaluation(evaluation_history(*old(self))) matches Ok(
                EvaluationRequest::Register { .. },
            ),
        ensures
            evaluation_history(*final(self)) == evaluation_history(*old(self)).told(
                Answer::Register(value),
            ),
            stopped(evaluation_history(*final(self)), r),
    {
        let result = self.evaluation.resume_with_register(Value::Generic(value));
        self.result = result.map_err(|error| match error {
            gimli::Error::UnexpectedEof(_) => String::from("UnexpectedEof"),
            error => format!("{:?}", error),
        })?;
        Ok(())
    }

    /// `gimli::Evaluation::resume_with_relocated_address`: goes on with an address. Otherwise as
    /// `evaluate`.
    #[verifier::external_body]
    fn resume_with_relocated_address(&mut self, address: u64) -> (r: Result<(), String>)
        requires
            sizes_fit(
                evaluation_history(*old(self)).expression,
                evaluation_history(*old(self)).encoding,
            ),
            evaluation_history(*old(self)).limit matches Some(limit) && limit < u32::MAX,
            gimli_evaluation(evaluation_history(*old(self))) matches Ok(
                EvaluationRequest::RelocatedAddress(_),
            ),
        ensures
            evaluation_history(*final(self)) == evaluation_history(*old(self)).told(
                Answer::RelocatedAddress(address),
            ),
            stopped(evaluation_history(*final(self)), r),
    {
        let result = self.evaluation.resume_with_relocated_address(address);
        self.result = result.map_err(|error| match error {
            gimli::Error::UnexpectedEof(_) => String::from("UnexpectedEof"),
            error => format!("{:?}", error),
        })?;
        Ok(())
    }

    /// The `gimli::EvaluationResult` with which the evaluation has stopped, as a plain value.
    #[verifier::external_body]
    fn request(&self) -> (r: EvaluationRequest)
        requires
            evaluation_history(*self).answers.len() > 0,
            gimli_evaluation(evaluation_history(*self)) is Ok,
        ensures
            match gimli_evaluation(evaluation_history(*self)) {
                Ok(request) => request == r@,
                Err(_) => false,
            },
    {
        match &self.result {
            EvaluationResult::Complete => EvaluationRequest::Complete,
            EvaluationResult::RequiresMemory { address, size, .. } =>
                EvaluationRequest::Memory { address: *address, size: *size },
            EvaluationResult::RequiresRegister { register, base_type } =>
                EvaluationRequest::Register { register: register.0, base_type: base_type.0 },
            EvaluationResult::RequiresFrameBase => EvaluationRequest::FrameBase,
            EvaluationResult::RequiresRelocatedAddress(address) =>
                EvaluationRequest::RelocatedAddress(*address),
            other => EvaluationRequest::Other(format!("{:?}", other)),
        }
    }

    /// `gimli::Evaluation::as_result`: the pieces of a complete evaluation, but for those that are
    /// a value.
    #[verifier::external_body]
    fn places(&self) -> (r: Vec<Option<PieceLocation>>)
        requires
            gimli_evaluation(evaluation_history(*self)) matches Ok(EvaluationRequest::Complete),
        ensures
            r@.len() == gimli_pieces(evaluation_history(*self)).len(),
            forall|i: int| #![trigger r@[i]]
                0 <= i < r@.len() ==> match r@[i] {
                    Some(place) => gimli_pieces(evaluation_history(*self))[i] == place@,
                    None => gimli_pieces(evaluation_history(*self))[i] is Value,
                },
    {
        let pieces = self.evaluation.as_result().iter();
        pieces.map(|piece| match &piece.location {
            Location::Empty => Some(PieceLocation::Empty),
            Location::Register { register } => Some(PieceLocation::Register(register.0)),
            Location::Address { address } => Some(PieceLocation::Address(*address)),
            Location::Value { .. } => None,
            other => Some(PieceLocation::Other(format!("{:?}", other))),
        }).collect()
    }

    /// `gimli::Evaluation::as_result`: the value of a piece of a complete evaluation, if it is one.
    #[verifier::external_body]
    fn value(&self, index: usize) -> (r: Option<PieceValue>)
        requires
            gimli_evaluation(evaluation_history(*self)) matches Ok(EvaluationRequest::Complete),
            index < gimli_pieces(evaluation_history(*self)).len(),
        ensures
            match r {
                Some(value) => gimli_pieces(evaluation_history(*self))[index as int]
                    == PieceLocation::Value(value@),
                None => !(gimli_pieces(evaluation_history(*self))[index as int] is Value),
            },
    {
        let value = match self.evaluation.as_result()[index].location {
            Location::Value { value } => value,
            _ => return None,
        };
        Some(match value {
            Value::I8(v) => PieceValue::Signed(v as i64),
            Value::I16(v) => PieceValue::Signed(v as i64),
            Value::I32(v) => PieceValue::Signed(v as i64),
            Value::I64(v) => PieceValue::Signed(v),
            Value::F32(v) => PieceValue::Float(v.to_string()),
            Value::F64(v) => PieceValue::Float(v.to_string()),
            other => PieceValue::Unsigned(other.to_u64(u64::MAX).ok()?),
        })
    }
}

/// Whether `result` says how an evaluation with this history has stopped: with a request, each but
/// the last of which took one of the operations that are allowed, or with the text of an error.
pub open spec fn stopped(history: EvaluationHistory, result: Result<(), String>) -> bool {
    &&& match result {
        Ok(_) => gimli_evaluation(history) is Ok,
        Err(error) => gimli_evaluation(history) matches Err(text) && text == error@,
    }
    &&& gimli_evaluation(history) matches Ok(request) ==> request is Complete
        || history.answers.len() <= history.limit->0
}

/// `num_traits::Zero::is_zero`: whether `n` is 0.
#[verifier::external_body]
fn is_zero(n: u64) -> (r: bool)
    ensures
        r == (n == 0),
{
    n.is_zero()
}

/// The most significant byte first.
pub open spec fn big_endian(bytes: Seq<u8>) -> nat
    decreases bytes.len(),
{
    if bytes.len() == 0 {
        0
    } else {
        big_endian(bytes.drop_last()) * 256 + bytes.last() as nat
    }
}

/// What to tell an evaluation that has stopped with `request`.
pub open spec fn answer_to(
    request: EvaluationRequest<Seq<char>>,
    target: Target,
    frame_base: RegisterValue,
) -> Result<Answer, DebugErrorView> {
    match request {
        EvaluationRequest::Complete => Ok(Answer::Start),
        EvaluationRequest::Memory { address, size } => match memory_reply(
            target.memory@,
            address,
            size as usize,
        ) {
            None => Err(DebugError::NeedsMemory { address, size: size as usize }),
            Some(None) => Err(
                DebugError::Other(
                    "Unexpected error while reading debug expressions from target memory. Please report this as a bug."@,
                ),
            ),
            Some(Some(bytes)) => if size == 1 {
                Ok(Answer::Memory(MemoryValue::U8(big_endian(bytes) as u8)))
            } else if size == 2 {
                Ok(Answer::Memory(MemoryValue::U16(big_endian(bytes) as u16)))
            } else if size == 4 {
                Ok(Answer::Memory(MemoryValue::U32(big_endian(bytes) as u32)))
            } else {
                Err(DebugError::UnsupportedMemorySize(size))
            },
        },
        EvaluationRequest::FrameBase => if frame_base.number() <= u64::MAX {
            Ok(Answer::FrameBase(frame_base.number() as u64))
        } else {
            Err(DebugError::RegisterTooWide)
        },
        EvaluationRequest::Register { register, base_type } => match register_value(
            target.registers.registers@,
            register,
        ) {
            None => Err(
                DebugError::Other(
                    "Error while calculating `Variable::memory_location`. No value for register #:"@
                        + decimal(register as nat) + "."@,
                ),
            ),
            Some(value) => if base_type != 0 {
                Err(
                    DebugError::Other(
                        "Unimplemented: Support for type UnitOffset("@ + decimal(base_type as nat)
                            + ") in `RequiresRegister` request is not yet implemented."@,
                    ),
                )
            } else if value.number() <= u64::MAX {
                Ok(Answer::Register(value.number() as u64))
            } else {
                Err(DebugError::RegisterTooWide)
            },
        },
        EvaluationRequest::RelocatedAddress(address) => Ok(
            Answer::RelocatedAddress(
                if address == 0 {
                    u64::MAX
                } else {
                    address
                },
            ),
        ),
        EvaluationRequest::Other(text) => Err(
            DebugError::Other(
                "Unimplemented: Expressions that include "@ + text
                    + " are not currently supported."@,
            ),
        ),
    }
}

/// The error with which an evaluation ends that met the error `text` once it was told `answer`.
pub open spec fn evaluation_error(answer: Answer, text: Seq<char>) -> DebugErrorView {
    match answer {
        Answer::FrameBase(_) => DebugError::Other(
            "Error while calculating `Variable::memory_location`:"@ + text + "."@,
        ),
        _ => DebugError::Dwarf(text),
    }
}

/// The pieces that an evaluation with this history ends with, if it is told all it asks for.
pub open spec fn pieces_from(
    history: EvaluationHistory,
    target: Target,
    frame_base: RegisterValue,
) -> Result<Seq<PieceLocation<Seq<char>>>, DebugErrorView>
    decreases OPERATION_LIMIT + 1 - history.answers.len(),
{
    match gimli_evaluation(history) {
        Err(text) => Err(evaluation_error(history.answers.last(), text)),
        Ok(EvaluationRequest::Complete) => Ok(gimli_pieces(history)),
        Ok(request) => match answer_to(request, target, frame_base) {
            Err(error) => Err(error),
            Ok(answer) => if history.answers.len() <= OPERATION_LIMIT {
                pieces_from(history.told(answer), target, frame_base)
            } else {
                Err(DebugError::NestedTooDeep)
            },
        },
    }
}

/// The history of an evaluation of `expression` that was told to begin.
pub open spec fn begun(expression: Seq<u8>, encoding: Encoding) -> EvaluationHistory {
    EvaluationHistory {
        expression,
        encoding,
        limit: Some(OPERATION_LIMIT),
        answers: seq![Answer::Start],
    }
}

/// The pieces that `expression` evaluates to. Addresses of more than 8 bytes, on which gimli cannot
/// do its arithmetic, are refused, and so are sizes of pieces that cannot be reduced for it because
/// other operations share their bytes.
pub open spec fn expression_pieces(
    expression: Seq<u8>,
    encoding: Encoding,
    target: Target,
) -> Result<Seq<PieceLocation<Seq<char>>>, DebugErrorView> {
    match target.registers.frame_pointer {
        None => Err(
            DebugError::Other(
                "Cannot unwind `Variable` location without a valid CFA (canonical frame address)"@,
            ),
        ),
        Some(frame_base) => if encoding.address_size > 8 {
            Err(DebugError::Other("Unsupported address size"@))
        } else if !reducible(expression, encoding) {
            Err(DebugError::Other("Unsupported size of a piece"@))
        } else {
            pieces_from(begun(reduced(expression, encoding), encoding), target, frame_base)
        },
    }
}

/// The view of a result that holds pieces.
pub open spec fn pieces_view(result: Result<Vec<PieceLocation>, DebugError>) -> Result<
    Seq<PieceLocation<Seq<char>>>,
    DebugErrorView,
> {
    match result {
        Ok(pieces) => Ok(piece_views(pieces@)),
        Err(error) => Err(error@),
    }
}

/// What becomes of `variable` when an expression for its place evaluates to `pieces`.
pub open spec fn located(variable: VariableView, pieces: Seq<PieceLocation<Seq<char>>>) -> (
    VariableView,
    Result<(), DebugErrorView>,
) {
    if pieces.len() == 0 {
        (variable, Err(DebugError::Other("Error: expr_to_piece() returned 0 results: []"@)))
    } else if pieces.len() > 1 {
        (
            Variable {
                memory_location: VariableLocation::Unsupported(
                    "<unsupported memory implementation>"@,
                ),
                ..variable.with_error("<unsupported memory implementation>"@)
            },
            Ok(()),
        )
    } else {
        match pieces[0] {
            PieceLocation::Empty => (
                Variable {
                    memory_location: VariableLocation::Unavailable,
                    ..variable.with_error("<value optimized away by compiler>"@)
                },
                Ok(()),
            ),
            PieceLocation::Address(address) => if address == u32::MAX {
                (
                    variable,
                    Err(
                        DebugError::Other(
                            "BUG: Cannot resolve due to rust-lang issue https://github.com/rust-lang/rust/issues/32574"@,
                        ),
                    ),
                )
            } else {
                (
                    Variable { memory_location: VariableLocation::Address(address), ..variable },
                    Ok(()),
                )
            },
            PieceLocation::Value(value) => (
                Variable {
                    memory_location: VariableLocation::Value,
                    ..variable.with_value(VariableValue::Valid(value.shown()))
                },
                Ok(()),
            ),
            PieceLocation::Register(register) => (
                Variable {
                    memory_location: VariableLocation::Register(register as usize),
                    ..variable
                },
                Ok(()),
            ),
            PieceLocation::Other(text) => (
                variable,
                Err(
                    DebugError::Other(
                        "Unimplemented: extract_location() found a location type: "@ + text,
                    ),
                ),
            ),
        }
    }
}

/// What becomes of `variable` when `expression` says where it is kept.
pub open spec fn evaluated(
    variable: VariableView,
    expression: Seq<u8>,
    encoding: Encoding,
    target: Target,
) -> (VariableView, Result<(), DebugErrorView>) {
    match expression_pieces(expression, encoding, target) {
        Ok(pieces) => located(variable, pieces),
        Err(error) => (variable, Err(error)),
    }
}

/// What to tell an evaluation that has stopped with `request`.
pub fn answer_request(
    request: &EvaluationRequest,
    target: &Target,
    frame_base: RegisterValue,
) -> (r: Result<Answer, DebugError>)
    ensures
        (match r {
            Ok(answer) => Ok(answer),
            Err(error) => Err(error@),
        }) == answer_to(request@, *target, frame_base),
{
    match request {
        EvaluationRequest::Complete => Ok(Answer::Start),
        EvaluationRequest::Memory { address, size } => match target.read(*address, *size as usize) {
            MemoryReply::Missing => Err(
                DebugError::NeedsMemory { address: *address, size: *size as usize },
            ),
            MemoryReply::Refused => Err(
                DebugError::Other(
                    String::from_str(
                        "Unexpected error while reading debug expressions from target memory. Please report this as a bug.",
                    ),
                ),
            ),
            MemoryReply::Bytes(bytes) => {
                proof {
                    reveal_with_fuel(big_endian, 5);
                }
                if *size == 1 {
                    assert(bytes@.drop_last() =~= seq![]);
                    Ok(Answer::Memory(MemoryValue::U8(bytes[0])))
                } else if *size == 2 {
                    assert(bytes@.drop_last() =~= seq![bytes@[0]]);
                    let value: u16 = bytes[0] as u16 * 256 + bytes[1] as u16;
                    Ok(Answer::Memory(MemoryValue::U16(value)))
                } else if *size == 4 {
                    assert(bytes@.drop_last() =~= seq![bytes@[0], bytes@[1], bytes@[2]]);
                    assert(bytes@.drop_last().drop_last() =~= seq![bytes@[0], bytes@[1]]);
                    assert(bytes@.drop_last().drop_last().drop_last() =~= seq![bytes@[0]]);
                    let value: u32 = bytes[0] as u32 * 0x100_0000 + bytes[1] as u32 * 0x1_0000
                        + bytes[2] as u32 * 0x100 + bytes[3] as u32;
                    Ok(Answer::Memory(MemoryValue::U32(value)))
                } else {
                    Err(DebugError::UnsupportedMemorySize(*size))
                }
            },
        },
        EvaluationRequest::FrameBase => match frame_base.to_u64() {
            Some(value) => Ok(Answer::FrameBase(value)),
            None => Err(DebugError::RegisterTooWide),
        },
        EvaluationRequest::Register { register, base_type } => {
            match target.registers.get_register_by_dwarf_id(*register) {
                None => Err(
                    DebugError::Other(
                        join3(
                            "Error while calculating `Variable::memory_location`. No value for register #:",
                            u64_text(*register as u64).as_str(),
                            ".",
                        ),
                    ),
                ),
                Some(value) => if *base_type != 0 {
                    Err(
                        DebugError::Other(
                            join3(
                                "Unimplemented: Support for type UnitOffset(",
                                u64_text(*base_type as u64).as_str(),
                                ") in `RequiresRegister` request is not yet implemented.",
                            ),
                        ),
                    )
                } else {
                    match value.to_u64() {
                        Some(value) => Ok(Answer::Register(value)),
                        None => Err(DebugError::RegisterTooWide),
                    }
                },
            }
        },
        EvaluationRequest::RelocatedAddress(address) => if is_zero(*address) {
            // The address of a static is not always known to the compiler.
            Ok(Answer::RelocatedAddress(u64::MAX))
        } else {
            Ok(Answer::RelocatedAddress(*address))
        },
        EvaluationRequest::Other(text) => Err(
            DebugError::Other(
                join3(
                    "Unimplemented: Expressions that include ",
                    text.as_str(),
                    " are not currently supported.",
                ),
            ),
        ),
    }
}

/// Updates `variable`, the expression for whose place evaluates to `pieces`.
pub fn locate(variable: &mut Variable, pieces: &Vec<PieceLocation>) -> (r: Result<(), DebugError>)
    ensures
        (final(variable)@, unit_view(r)) == located(old(variable)@, piece_views(pieces@)),
{
    if pieces.len() == 0 {
        return Err(
            DebugError::Other(String::from_str("Error: expr_to_piece() returned 0 results: []")),
        );
    }
    if pieces.len() > 1 {
        variable.set_error(String::from_str("<unsupported memory implementation>"));
        variable.memory_location = VariableLocation::Unsupported(
            String::from_str("<unsupported memory implementation>"),
        );
        return Ok(());
    }
    match &pieces[0] {
        PieceLocation::Empty => {
            variable.set_error(String::from_str("<value optimized away by compiler>"));
            variable.memory_location = VariableLocation::Unavailable;
        },
        PieceLocation::Address(address) => {
            if *address == 0xffff_ffff {
                return Err(
                    DebugError::Other(
                        String::from_str(
                            "BUG: Cannot resolve due to rust-lang issue https://github.com/rust-lang/rust/issues/32574",
                        ),
                    ),
                );
            }
            variable.memory_location = VariableLocation::Address(*address);
        },
        PieceLocation::Value(value) => {
            variable.set_value(VariableValue::Valid(value.display()));
            variable.memory_location = VariableLocation::Value;
        },
        PieceLocation::Register(register) => {
            variable.memory_location = VariableLocation::Register(*register as usize);
        },
        PieceLocation::Other(text) => {
            return Err(
                DebugError::Other(
                    join2(
                        "Unimplemented: extract_location() found a location type: ",
                        text.as_str(),
                    ),
                ),
            );
        },
    }
    Ok(())
}

impl<'a> ExpressionEvaluation<'a> {
    /// The pieces of a complete evaluation.
    fn pieces(&self) -> (r: Vec<PieceLocation>)
        requires
            gimli_evaluation(evaluation_history(*self)) matches Ok(EvaluationRequest::Complete),
        ensures
            piece_views(r@) == gimli_pieces(evaluation_history(*self)),
    {
        let places = self.places();
        let ghost all = gimli_pieces(evaluation_history(*self));
        let mut pieces: Vec<PieceLocation> = Vec::new();
        let mut i: usize = 0;
        while i < places.len()
            invariant
                gimli_evaluation(evaluation_history(*self)) matches Ok(EvaluationRequest::Complete),
                all == gimli_pieces(evaluation_history(*self)),
                i == pieces@.len() <= places@.len() == all.len(),
                forall|j: int| #![trigger places@[j]]
                    0 <= j < places@.len() ==> match places@[j] {
                        Some(place) => all[j] == place@,
                        None => all[j] is Value,
                    },
                forall|j: int| 0 <= j < i ==> (#[trigger] pieces@[j])@ == all[j],
            decreases places.len() - i,
        {
            assert(places@[i as int] == places[i as int]);
            match &places[i] {
                Some(place) => {
                    pieces.push(place.clone());
                },
                None => match self.value(i) {
                    Some(value) => {
                        pieces.push(PieceLocation::Value(value));
                    },
                    None => {
                        assert(false);
                    },
                },
            }
            i = i + 1;
        }
        assert(piece_views(pieces@) =~= all);
        pieces
    }

    /// Goes on with `answer`.
    fn resume(&mut self, answer: Answer) -> (r: Result<(), String>)
        requires
            sizes_fit(
                evaluation_history(*old(self)).expression,
                evaluation_history(*old(self)).encoding,
            ),
            evaluation_history(*old(self)).limit matches Some(limit) && limit < u32::MAX,
            gimli_evaluation(evaluation_history(*old(self))) matches Ok(request) && answers(
                request,
                answer,
            ),
        ensures
            evaluation_history(*final(self)) == evaluation_history(*old(self)).told(answer),
            stopped(evaluation_history(*final(self)), r),
    {
        match answer {
            Answer::Start => Ok(()),
            Answer::Memory(value) => self.resume_with_memory(value),
            Answer::FrameBase(address) => self.resume_with_frame_base(address),
            Answer::Register(value) => self.resume_with_register(value),
            Answer::RelocatedAddress(address) => self.resume_with_relocated_address(address),
        }
    }
}

/// Whether `answer` is of the kind that `request` asks for.
pub open spec fn answers(request: EvaluationRequest<Seq<char>>, answer: Answer) -> bool {
    match request {
        EvaluationRequest::Memory { .. } => answer is Memory,
        EvaluationRequest::FrameBase => answer is FrameBase,
        EvaluationRequest::Register { .. } => answer is Register,
        EvaluationRequest::RelocatedAddress(_) => answer is RelocatedAddress,
        _ => false,
    }
}

impl UnitInfo {
    /// The pieces that `expression` evaluates to on the target.
    pub fn expression_to_piece(&self, target: &Target, expression: &Vec<u8>) -> (r: Result<
        Vec<PieceLocation>,
        DebugError,
    >)
        requires
            self.wf(),
        ensures
            pieces_view(r) == expression_pieces(expression@, self.encoding, *target),
    {
        let frame_base = match target.registers.frame_pointer {
            Some(frame_base) => frame_base,
            None => {
                return Err(
                    DebugError::Other(
                        String::from_str(
                            "Cannot unwind `Variable` location without a valid CFA (canonical frame address)",
                        ),
                    ),
                );
            },
        };
        if self.encoding.address_size > 8 {
            return Err(DebugError::Other(String::from_str("Unsupported address size")));
        }
        let reduced_sizes = match reduce_sizes(expression, self.encoding) {
            Some(reduced_sizes) => reduced_sizes,
            None => {
                return Err(DebugError::Other(String::from_str("Unsupported size of a piece")));
            },
        };
        let mut evaluation = evaluation(&reduced_sizes, self.encoding);
        evaluation.set_max_iterations(OPERATION_LIMIT);
        let mut answer = Answer::Start;
        let mut result = evaluation.evaluate();
        assert(evaluation_history(evaluation).answers =~= seq![Answer::Start]);
        let ghost pieces = pieces_from(begun(reduced_sizes@, self.encoding), *target, frame_base);
        loop
            invariant
                evaluation_history(evaluation).limit == Some(OPERATION_LIMIT),
                sizes_fit(
                    evaluation_history(evaluation).expression,
                    evaluation_history(evaluation).encoding,
                ),
                evaluation_history(evaluation).answers.len() > 0,
                evaluation_history(evaluation).answers.last() == answer,
                evaluation_history(evaluation).answers.len() <= OPERATION_LIMIT + 1,
                stopped(evaluation_history(evaluation), result),
                pieces == pieces_from(evaluation_history(evaluation), *target, frame_base),
                pieces == expression_pieces(expression@, self.encoding, *target),
            decreases OPERATION_LIMIT + 1 - evaluation_history(evaluation).answers.len(),
        {
            match result {
                Ok(_) => {},
                Err(text) => {
                    return match answer {
                        Answer::FrameBase(_) => Err(
                            DebugError::Other(
                                join3(
                                    "Error while calculating `Variable::memory_location`:",
                                    text.as_str(),
                                    ".",
                                ),
                            ),
                        ),
                        _ => Err(DebugError::Dwarf(text)),
                    };
                },
            }
            let request = evaluation.request();
            match request {
                EvaluationRequest::Complete => {
                    return Ok(evaluation.pieces());
                },
                _ => {},
            }
            answer = match answer_request(&request, target, frame_base) {
                Ok(answer) => answer,
                Err(error) => {
                    return Err(error);
                },
            };
            result = evaluation.resume(answer);
        }
    }

    /// Updates `variable` by evaluating `expression`, which says where it is kept.
    pub fn evaluate_expression(
        &self,
        target: &Target,
        variable: &mut Variable,
        expression: &Vec<u8>,
    ) -> (r: Result<(), DebugError>)
        requires
            self.wf(),
        ensures
            (final(variable)@, unit_view(r)) == evaluated(
                old(variable)@,
                expression@,
                self.encoding,
                *target,
            ),
    {
        match self.expression_to_piece(target, expression) {
            Ok(pieces) => locate(variable, &pieces),
            Err(error) => Err(error),
        }
    }
}

} // verus!
