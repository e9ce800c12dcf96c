//! Variables of the debugged program: their names, types, values and places.
//!
//! Each type is generic in the text it holds. Executable code uses the default, `String`;
//! contracts speak of the same type over `Seq<char>`, which is its view.
use vstd::prelude::*;

use crate::text::{join3, quoted, starts_with, u64_text};
#[allow(unused_imports)]
use crate::text::{decimal, std_quoted};

verus! {

/// The view of an optional text.
pub open spec fn text_view(text: Option<String>) -> Option<Seq<char>> {
    match text {
        Some(s) => Some(s@),
        None => None,
    }
}

fn clone_text(text: &Option<String>) -> (r: Option<String>)
    ensures
        text_view(r) == text_view(*text),
{
    match text {
        Some(s) => Some(s.clone()),
        None => None,
    }
}

/// What a variable is called.
#[derive(Debug)]
pub enum VariableName<S = String> {
    /// The top level of all static variables.
    StaticScope,
    /// A helper entry of the debugging information, such as a discriminant.
    Artifical,
    /// A namespace without a name.
    AnonymousNamespace,
    /// A namespace, by its path.
    Namespace(S),
    /// A variable with a name of its own.
    Named(S),
    /// No name is known.
    Unknown,
}

impl View for VariableName {
    type V = VariableName<Seq<char>>;

    open spec fn view(&self) -> VariableName<Seq<char>> {
        match *self {
            VariableName::StaticScope => VariableName::StaticScope,
            VariableName::Artifical => VariableName::Artifical,
            VariableName::AnonymousNamespace => VariableName::AnonymousNamespace,
            VariableName::Namespace(s) => VariableName::Namespace(s@),
            VariableName::Named(s) => VariableName::Named(s@),
            VariableName::Unknown => VariableName::Unknown,
        }
    }
}

impl Clone for VariableName {
    fn clone(&self) -> (r: Self)
        ensures
            r@ == self@,
    {
        match self {
            VariableName::StaticScope => VariableName::StaticScope,
            VariableName::Artifical => VariableName::Artifical,
            VariableName::AnonymousNamespace => VariableName::AnonymousNamespace,
            VariableName::Namespace(s) => VariableName::Namespace(s.clone()),
            VariableName::Named(s) => VariableName::Named(s.clone()),
            VariableName::Unknown => VariableName::Unknown,
        }
    }
}

impl VariableName<Seq<char>> {
    /// The name as the user sees it.
    pub open spec fn shown(self) -> Seq<char> {
        match self {
            VariableName::StaticScope => "Static Variable"@,
            VariableName::Artifical => "<artifical>"@,
            VariableName::AnonymousNamespace => "<anonymous_namespace>"@,
            VariableName::Namespace(s) => s,
            VariableName::Named(s) => s,
            VariableName::Unknown => "<unknown>"@,
        }
    }

    /// The name together with its kind, as in a diagnostic.
    pub open spec fn described(self) -> Seq<char> {
        match self {
            VariableName::StaticScope => "StaticScope"@,
            VariableName::Artifical => "Artifical"@,
            VariableName::AnonymousNamespace => "AnonymousNamespace"@,
            VariableName::Namespace(s) => "Namespace("@ + std_quoted(s) + ")"@,
            VariableName::Named(s) => "Named("@ + std_quoted(s) + ")"@,
            VariableName::Unknown => "Unknown"@,
        }
    }
}

impl VariableName {
    /// The name as the user sees it.
    pub fn display(&self) -> (r: String)
        ensures
            r@ == self@.shown(),
    {
        match self {
            VariableName::StaticScope => String::from_str("Static Variable"),
            VariableName::Artifical => String::from_str("<artifical>"),
            VariableName::AnonymousNamespace => String::from_str("<anonymous_namespace>"),
            VariableName::Namespace(s) => s.clone(),
            VariableName::Named(s) => s.clone(),
            VariableName::Unknown => String::from_str("<unknown>"),
        }
    }

    /// The name together with its kind, as in a diagnostic.
    pub fn describe(&self) -> (r: String)
        ensures
            r@ == self@.described(),
    {
        match self {
            VariableName::StaticScope => String::from_str("StaticScope"),
            VariableName::Artifical => String::from_str("Artifical"),
            VariableName::AnonymousNamespace => String::from_str("AnonymousNamespace"),
            VariableName::Namespace(s) => join3("Namespace(", quoted(s.as_str()).as_str(), ")"),
            VariableName::Named(s) => join3("Named(", quoted(s.as_str()).as_str(), ")"),
            VariableName::Unknown => String::from_str("Unknown"),
        }
    }
}

/// The value of a variable, as far as it is known.
#[derive(Debug)]
pub enum VariableValue<S = String> {
    /// A value that can be shown.
    Valid(S),
    /// Why there is no value.
    Error(S),
    /// Nothing is known of the value yet.
    Empty,
}

impl View for VariableValue {
    type V = VariableValue<Seq<char>>;

    open spec fn view(&self) -> VariableValue<Seq<char>> {
        match *self {
            VariableValue::Valid(s) => VariableValue::Valid(s@),
            VariableValue::Error(s) => VariableValue::Error(s@),
            VariableValue::Empty => VariableValue::Empty,
        }
    }
}

impl Clone for VariableValue {
    fn clone(&self) -> (r: Self)
        ensures
            r@ == self@,
    {
        match self {
            VariableValue::Valid(s) => VariableValue::Valid(s.clone()),
            VariableValue::Error(s) => VariableValue::Error(s.clone()),
            VariableValue::Empty => VariableValue::Empty,
        }
    }
}

impl VariableValue<Seq<char>> {
    /// The text of the value; empty where nothing is known.
    pub open spec fn shown(self) -> Seq<char> {
        match self {
            VariableValue::Valid(s) => s,
            VariableValue::Error(s) => s,
            VariableValue::Empty => Seq::empty(),
        }
    }

    /// What stands in a variable of this value once `new` was set: an error after an error is
    /// appended to it, anything else replaces what was there.
    pub open spec fn followed_by(self, new: VariableValue<Seq<char>>) -> VariableValue<Seq<char>> {
        match (self, new) {
            (VariableValue::Error(first), VariableValue::Error(second)) => VariableValue::Error(
                first + " : "@ + second,
            ),
            _ => new,
        }
    }
}

/// The type of a variable.
#[derive(Debug)]
pub enum VariableType<S = String> {
    /// A type whose value can be read from memory.
    Base(S),
    /// A structure.
    Struct(S),
    /// An enumeration without data.
    Enum(S),
    /// No type: the variable stands for a namespace.
    Namespace,
    /// A pointer, with its name where it has one.
    Pointer(Option<S>),
    /// An array.
    Array {
        /// How many members it has.
        count: usize,
        /// What the type of its members is called.
        entry_type: VariableName<S>,
    },
    /// The type is not known.
    Unknown,
    /// Another type, by its name.
    Other(S),
}

impl View for VariableType {
    type V = VariableType<Seq<char>>;

    open spec fn view(&self) -> VariableType<Seq<char>> {
        match *self {
            VariableType::Base(s) => VariableType::Base(s@),
            VariableType::Struct(s) => VariableType::Struct(s@),
            VariableType::Enum(s) => VariableType::Enum(s@),
            VariableType::Namespace => VariableType::Namespace,
            VariableType::Pointer(s) => VariableType::Pointer(text_view(s)),
            VariableType::Array { count, entry_type } => VariableType::Array {
                count,
                entry_type: entry_type@,
            },
            VariableType::Unknown => VariableType::Unknown,
            VariableType::Other(s) => VariableType::Other(s@),
        }
    }
}

impl Clone for VariableType {
    fn clone(&self) -> (r: Self)
        ensures
            r@ == self@,
    {
        match self {
            VariableType::Base(s) => VariableType::Base(s.clone()),
            VariableType::Struct(s) => VariableType::Struct(s.clone()),
            VariableType::Enum(s) => VariableType::Enum(s.clone()),
            VariableType::Namespace => VariableType::Namespace,
            VariableType::Pointer(s) => VariableType::Pointer(clone_text(s)),
            VariableType::Array { count, entry_type } => VariableType::Array {
                count: *count,
                entry_type: entry_type.clone(),
            },
            VariableType::Unknown => VariableType::Unknown,
            VariableType::Other(s) => VariableType::Other(s.clone()),
        }
    }
}

impl VariableType<Seq<char>> {
    /// The type as the user sees it.
    pub open spec fn shown(self) -> Seq<char> {
        match self {
            VariableType::Base(s) => s,
            VariableType::Struct(s) => s,
            VariableType::Enum(s) => s,
            VariableType::Namespace => "<namespace>"@,
            VariableType::Pointer(Some(s)) => s,
            VariableType::Pointer(None) => "<unnamed>"@,
            VariableType::Array { count, entry_type } => "["@ + entry_type.shown() + "; "@
                + decimal(count as nat) + "]"@,
            VariableType::Unknown => "<unknown>"@,
            VariableType::Other(s) => s,
        }
    }

    /// The type together with its kind, as in a diagnostic.
    pub open spec fn described(self) -> Seq<char> {
        match self {
            VariableType::Base(s) => "Base("@ + std_quoted(s) + ")"@,
            VariableType::Struct(s) => "Struct("@ + std_quoted(s) + ")"@,
            VariableType::Enum(s) => "Enum("@ + std_quoted(s) + ")"@,
            VariableType::Namespace => "Namespace"@,
            VariableType::Pointer(Some(s)) => "Pointer(Some("@ + std_quoted(s) + "))"@,
            VariableType::Pointer(None) => "Pointer(None)"@,
            VariableType::Array { count, entry_type } => "Array { count: "@ + decimal(count as nat)
                + ", entry_type: "@ + entry_type.described() + " }"@,
            VariableType::Unknown => "Unknown"@,
            VariableType::Other(s) => "Other("@ + std_quoted(s) + ")"@,
        }
    }

    /// Whether the type is a `PhantomData` of the Rust library, which holds nothing.
    pub open spec fn phantom_data(self) -> bool {
        self matches VariableType::Struct(s) && "PhantomData"@.is_prefix_of(s)
    }
}

impl VariableType {
    /// The type as the user sees it.
    pub fn display(&self) -> (r: String)
        ensures
            r@ == self@.shown(),
    {
        match self {
            VariableType::Base(s) => s.clone(),
            VariableType::Struct(s) => s.clone(),
            VariableType::Enum(s) => s.clone(),
            VariableType::Namespace => String::from_str("<namespace>"),
            VariableType::Pointer(Some(s)) => s.clone(),
            VariableType::Pointer(None) => String::from_str("<unnamed>"),
            VariableType::Array { count, entry_type } => {
                let head = join3("[", entry_type.display().as_str(), "; ");
                join3(head.as_str(), u64_text(*count as u64).as_str(), "]")
            },
            VariableType::Unknown => String::from_str("<unknown>"),
            VariableType::Other(s) => s.clone(),
        }
    }

    /// The type together with its kind, as in a diagnostic.
    pub fn describe(&self) -> (r: String)
        ensures
            r@ == self@.described(),
    {
        match self {
            VariableType::Base(s) => join3("Base(", quoted(s.as_str()).as_str(), ")"),
            VariableType::Struct(s) => join3("Struct(", quoted(s.as_str()).as_str(), ")"),
            VariableType::Enum(s) => join3("Enum(", quoted(s.as_str()).as_str(), ")"),
            VariableType::Namespace => String::from_str("Namespace"),
            VariableType::Pointer(Some(s)) => join3(
                "Pointer(Some(",
                quoted(s.as_str()).as_str(),
                "))",
            ),
            VariableType::Pointer(None) => String::from_str("Pointer(None)"),
            VariableType::Array { count, entry_type } => {
                let head = join3(
                    "Array { count: ",
                    u64_text(*count as u64).as_str(),
                    ", entry_type: ",
                );
                join3(head.as_str(), entry_type.describe().as_str(), " }")
            },
            VariableType::Unknown => String::from_str("Unknown"),
            VariableType::Other(s) => join3("Other(", quoted(s.as_str()).as_str(), ")"),
        }
    }

    /// Whether the type is a `PhantomData` of the Rust library, which holds nothing.
    pub fn is_phantom_data(&self) -> (r: bool)
        ensures
            r == self@.phantom_data(),
    {
        match self {
            VariableType::Struct(s) => starts_with(s.as_str(), "PhantomData"),
            _ => false,
        }
    }
}

/// Where a variable is kept.
#[derive(Debug)]
pub enum VariableLocation<S = String> {
    /// Not determined yet.
    Unknown,
    /// The variable has no place.
    Unavailable,
    /// In memory, at this address.
    Address(u64),
    /// Nowhere: the debugging information gives the value itself.
    Value,
    /// In the register with this number.
    Register(usize),
    /// In a way that is not supported.
    Unsupported(S),
}

impl View for VariableLocation {
    type V = VariableLocation<Seq<char>>;

    open spec fn view(&self) -> VariableLocation<Seq<char>> {
        match *self {
            VariableLocation::Unknown => VariableLocation::Unknown,
            VariableLocation::Unavailable => VariableLocation::Unavailable,
            VariableLocation::Address(a) => VariableLocation::Address(a),
            VariableLocation::Value => VariableLocation::Value,
            VariableLocation::Register(n) => VariableLocation::Register(n),
            VariableLocation::Unsupported(s) => VariableLocation::Unsupported(s@),
        }
    }
}

impl Clone for VariableLocation {
    fn clone(&self) -> (r: Self)
        ensures
            r@ == self@,
    {
        match self {
            VariableLocation::Unknown => VariableLocation::Unknown,
            VariableLocation::Unavailable => VariableLocation::Unavailable,
            VariableLocation::Address(a) => VariableLocation::Address(*a),
            VariableLocation::Value => VariableLocation::Value,
            VariableLocation::Register(n) => VariableLocation::Register(*n),
            VariableLocation::Unsupported(s) => VariableLocation::Unsupported(s.clone()),
        }
    }
}

impl VariableLocation<Seq<char>> {
    /// The place together with its kind, as in a diagnostic.
    pub open spec fn described(self) -> Seq<char> {
        match self {
            VariableLocation::Unknown => "Unknown"@,
            VariableLocation::Unavailable => "Unavailable"@,
            VariableLocation::Address(a) => "Address("@ + decimal(a as nat) + ")"@,
            VariableLocation::Value => "Value"@,
            VariableLocation::Register(n) => "Register("@ + decimal(n as nat) + ")"@,
            VariableLocation::Unsupported(s) => "Unsupported("@ + std_quoted(s) + ")"@,
        }
    }
}

impl VariableLocation {
    /// The place together with its kind, as in a diagnostic.
    pub fn describe(&self) -> (r: String)
        ensures
            r@ == self@.described(),
    {
        match self {
            VariableLocation::Unknown => String::from_str("Unknown"),
            VariableLocation::Unavailable => String::from_str("Unavailable"),
            VariableLocation::Address(a) => join3("Address(", u64_text(*a).as_str(), ")"),
            VariableLocation::Value => String::from_str("Value"),
            VariableLocation::Register(n) => join3("Register(", u64_text(*n as u64).as_str(), ")"),
            VariableLocation::Unsupported(s) => join3(
                "Unsupported(",
                quoted(s.as_str()).as_str(),
                ")",
            ),
        }
    }
}

/// How the children of a variable are found.
#[derive(Debug, Clone, Copy, PartialEq, Eq, Structural)]
pub enum VariableNodeType {
    /// The variable is a pointer; the entry at this offset of the unit tells what it points to.
    ReferenceOffset(usize),
    /// The type at this offset of the unit tells the children, when they are asked for.
    TypeOffset(usize),
    /// There is nothing more to resolve.
    DoNotRecurse,
    /// The children are resolved along with the variable.
    RecurseToBaseType,
}

/// What part a variable has in a type with variants.
#[derive(Debug, Clone, Copy, PartialEq, Eq, Structural)]
pub enum VariantRole {
    /// It has variants, and this is the discriminant of the active one.
    VariantPart(u64),
    /// It is the variant with this discriminant.
    Variant(u64),
    /// None.
    NonVariant,
}

/// Where in the source text a variable is declared.
#[derive(Debug)]
pub struct SourceLocation<S = String> {
    /// The line number, from 1.
    pub line: Option<u64>,
    /// The column number.
    pub column: Option<u64>,
    /// The name of the file.
    pub file: Option<S>,
    /// The directory of the file.
    pub directory: Option<S>,
    /// The first address that belongs to the location.
    pub low_pc: Option<u64>,
    /// The address behind the last one.
    pub high_pc: Option<u64>,
}

impl View for SourceLocation {
    type V = SourceLocation<Seq<char>>;

    open spec fn view(&self) -> SourceLocation<Seq<char>> {
        SourceLocation {
            line: self.line,
            column: self.column,
            file: text_view(self.file),
            directory: text_view(self.directory),
            low_pc: self.low_pc,
            high_pc: self.high_pc,
        }
    }
}

impl Clone for SourceLocation {
    fn clone(&self) -> (r: Self)
        ensures
            r@ == self@,
    {
        SourceLocation {
            line: self.line,
            column: self.column,
            file: clone_text(&self.file),
            directory: clone_text(&self.directory),
            low_pc: self.low_pc,
            high_pc: self.high_pc,
        }
    }
}

/// The view of an optional source location.
pub open spec fn source_view(
    location: Option<SourceLocation>,
) -> Option<SourceLocation<Seq<char>>> {
    match location {
        Some(l) => Some(l@),
        None => None,
    }
}

/// A copy of an optional source location.
pub fn clone_source(location: &Option<SourceLocation>) -> (r: Option<SourceLocation>)
    ensures
        source_view(r) == source_view(*location),
{
    match location {
        Some(l) => Some(l.clone()),
        None => None,
    }
}

/// A variable, or a part of one.
#[derive(Debug)]
pub struct Variable<S = String> {
    /// The key under which the cache knows the variable; 0 until it is cached.
    pub variable_key: i64,
    /// The key of the variable that this one is a part of.
    pub parent_key: Option<i64>,
    /// What it is called.
    pub name: VariableName<S>,
    /// Its value.
    pub value: VariableValue<S>,
    /// Where it is declared.
    pub source_location: Option<SourceLocation<S>>,
    /// Its type.
    pub variable_type: VariableType<S>,
    /// The offset of its unit in the debugging information.
    pub unit_header_offset: Option<usize>,
    /// The offset of its entry in the unit.
    pub variable_unit_offset: Option<usize>,
    /// How its children are found.
    pub variable_node_type: VariableNodeType,
    /// Where it is kept.
    pub memory_location: VariableLocation<S>,
    /// How many bytes it takes.
    pub byte_size: u64,
    /// Which member of an array it is.
    pub member_index: Option<i64>,
    /// The first index, where it is a range of indices.
    pub range_lower_bound: i64,
    /// The index behind the last, where it is a range of indices.
    pub range_upper_bound: i64,
    /// Its part in a type with variants.
    pub role: VariantRole,
}

/// A variable as contracts speak of it.
pub type VariableView = Variable<Seq<char>>;

impl View for Variable {
    type V = VariableView;

    open spec fn view(&self) -> VariableView {
        Variable {
            variable_key: self.variable_key,
            parent_key: self.parent_key,
            name: self.name@,
            value: self.value@,
            source_location: source_view(self.source_location),
            variable_type: self.variable_type@,
            unit_header_offset: self.unit_header_offset,
            variable_unit_offset: self.variable_unit_offset,
            variable_node_type: self.variable_node_type,
            memory_location: self.memory_location@,
            byte_size: self.byte_size,
            member_index: self.member_index,
            range_lower_bound: self.range_lower_bound,
            range_upper_bound: self.range_upper_bound,
            role: self.role,
        }
    }
}

impl Clone for Variable {
    fn clone(&self) -> (r: Self)
        ensures
            r@ == self@,
    {
        Variable {
            variable_key: self.variable_key,
            parent_key: self.parent_key,
            name: self.name.clone(),
            value: self.value.clone(),
            source_location: clone_source(&self.source_location),
            variable_type: self.variable_type.clone(),
            unit_header_offset: self.unit_header_offset,
            variable_unit_offset: self.variable_unit_offset,
            variable_node_type: self.variable_node_type,
            memory_location: self.memory_location.clone(),
            byte_size: self.byte_size,
            member_index: self.member_index,
            range_lower_bound: self.range_lower_bound,
            range_upper_bound: self.range_upper_bound,
            role: self.role,
        }
    }
}

impl Variable<Seq<char>> {
    /// A variable of which nothing is known but the entry that describes it.
    pub open spec fn fresh(
        unit_header_offset: Option<usize>,
        variable_unit_offset: Option<usize>,
    ) -> VariableView {
        Variable {
            variable_key: 0,
            parent_key: None,
            name: VariableName::Unknown,
            value: VariableValue::Empty,
            source_location: None,
            variable_type: VariableType::Unknown,
            unit_header_offset,
            variable_unit_offset,
            variable_node_type: VariableNodeType::RecurseToBaseType,
            memory_location: VariableLocation::Unknown,
            byte_size: 0,
            member_index: None,
            range_lower_bound: 0,
            range_upper_bound: 0,
            role: VariantRole::NonVariant,
        }
    }

    /// The variable once `value` was set.
    pub open spec fn with_value(self, value: VariableValue<Seq<char>>) -> VariableView {
        Variable { value: self.value.followed_by(value), ..self }
    }

    /// The variable once the error `message` was set.
    pub open spec fn with_error(self, message: Seq<char>) -> VariableView {
        self.with_value(VariableValue::Error(message))
    }

    /// Whether no error is known of the variable.
    pub open spec fn valid(self) -> bool {
        !(self.value is Error)
    }
}

impl Variable {
    /// A variable of which nothing is known but the entry that describes it.
    pub fn new(
        unit_header_offset: Option<usize>,
        variable_unit_offset: Option<usize>,
    ) -> (r: Variable)
        ensures
            r@ == VariableView::fresh(unit_header_offset, variable_unit_offset),
    {
        Variable {
            variable_key: 0,
            parent_key: None,
            name: VariableName::Unknown,
            value: VariableValue::Empty,
            source_location: None,
            variable_type: VariableType::Unknown,
            unit_header_offset,
            variable_unit_offset,
            variable_node_type: VariableNodeType::RecurseToBaseType,
            memory_location: VariableLocation::Unknown,
            byte_size: 0,
            member_index: None,
            range_lower_bound: 0,
            range_upper_bound: 0,
            role: VariantRole::NonVariant,
        }
    }

    /// Sets the value. An error that follows an error is appended to it, so that none is lost.
    pub fn set_value(&mut self, value: VariableValue)
        ensures
            final(self)@ == old(self)@.with_value(value@),
    {
        let joined: Option<String> = match (&self.value, &value) {
            (VariableValue::Error(first), VariableValue::Error(second)) => Some(
                join3(first.as_str(), " : ", second.as_str()),
            ),
            _ => None,
        };
        match joined {
            Some(message) => {
                self.value = VariableValue::Error(message);
            },
            None => {
                self.value = value;
            },
        }
    }

    /// Sets the error `message`.
    pub fn set_error(&mut self, message: String)
        ensures
            final(self)@ == old(self)@.with_error(message@),
    {
        self.set_value(VariableValue::Error(message));
    }

    /// Whether no error is known of the variable.
    pub fn is_valid(&self) -> (r: bool)
        ensures
            r == self@.valid(),
    {
        match self.value {
            VariableValue::Error(_) => false,
            _ => true,
        }
    }

    /// The text of the value; empty where nothing is known.
    pub fn get_value(&self) -> (r: String)
        ensures
            r@ == self@.value.shown(),
    {
        match &self.value {
            VariableValue::Valid(s) => s.clone(),
            VariableValue::Error(s) => s.clone(),
            VariableValue::Empty => String::new(),
        }
    }
}

} // verus!
