//! Variables as in a diagnostic, with all that is known of them.
use vstd::prelude::*;

#[allow(unused_imports)]
use crate::text::{decimal, signed_decimal, std_quoted};
use crate::text::{i64_text, join2, join3, join4, quoted, u64_text};
#[allow(unused_imports)]
use crate::variable::{text_view, VariableView};
use crate::variable::{SourceLocation, Variable, VariableNodeType, VariableValue, VariantRole};

verus! {

/// `texts` with a comma between each two.
pub open spec fn listed(texts: Seq<Seq<char>>) -> Seq<char>
    decreases texts.len(),
{
    if texts.len() == 0 {
        Seq::empty()
    } else if texts.len() == 1 {
        texts[0]
    } else {
        listed(texts.drop_last()) + ", "@ + texts.last()
    }
}

/// The views of `texts`.
pub open spec fn text_views(texts: Seq<String>) -> Seq<Seq<char>> {
    Seq::new(texts.len(), |i: int| texts[i]@)
}

/// `texts` with a comma between each two.
fn list(texts: &Vec<String>) -> (r: String)
    ensures
        r@ == listed(text_views(texts@)),
{
    let ghost all = text_views(texts@);
    if texts.len() == 0 {
        let r = String::new();
        assert(r@ =~= Seq::<char>::empty());
        return r;
    }
    let mut r = texts[0].clone();
    let mut i: usize = 1;
    assert(all.take(1)[0] == all[0]);
    while i < texts.len()
        invariant
            1 <= i <= texts.len(),
            all == text_views(texts@),
            r@ == listed(all.take(i as int)),
        decreases texts.len() - i,
    {
        r = join3(r.as_str(), ", ", texts[i].as_str());
        assert(all.take(i + 1).drop_last() =~= all.take(i as int));
        i = i + 1;
    }
    assert(all.take(i as int) =~= all);
    r
}

/// A number that may be missing.
pub open spec fn number_described(number: Option<int>) -> Seq<char> {
    match number {
        Some(n) => "Some("@ + signed_decimal(n) + ")"@,
        None => "None"@,
    }
}

/// A text that may be missing.
pub open spec fn text_described(text: Option<Seq<char>>) -> Seq<char> {
    match text {
        Some(text) => "Some("@ + std_quoted(text) + ")"@,
        None => "None"@,
    }
}

/// A number that may be missing.
fn describe_u64(number: Option<u64>) -> (r: String)
    ensures
        r@ == number_described(of_u64(number)),
{
    match number {
        Some(n) => join3("Some(", u64_text(n).as_str(), ")"),
        None => String::from_str("None"),
    }
}

/// An offset of the kind `kind` that may be missing.
pub open spec fn offset_described(kind: Seq<char>, offset: Option<usize>) -> Seq<char> {
    match offset {
        Some(n) => "Some("@ + kind + "("@ + decimal(n as nat) + "))"@,
        None => "None"@,
    }
}

/// An offset of the kind `kind` that may be missing.
fn describe_offset(kind: &str, offset: Option<usize>) -> (r: String)
    ensures
        r@ == offset_described(kind@, offset),
{
    match offset {
        Some(n) => {
            let head = join3("Some(", kind, "(");
            join3(head.as_str(), u64_text(n as u64).as_str(), "))")
        },
        None => String::from_str("None"),
    }
}

/// A signed number that may be missing.
fn describe_i64(number: Option<i64>) -> (r: String)
    ensures
        r@ == number_described(of_i64(number)),
{
    match number {
        Some(n) => join3("Some(", i64_text(n).as_str(), ")"),
        None => String::from_str("None"),
    }
}

/// A text that may be missing.
pub fn describe_text(text: &Option<String>) -> (r: String)
    ensures
        r@ == text_described(text_view(*text)),
{
    match text {
        Some(text) => join3("Some(", quoted(text.as_str()).as_str(), ")"),
        None => String::from_str("None"),
    }
}

impl VariableValue<Seq<char>> {
    /// The value together with its kind.
    pub open spec fn described(self) -> Seq<char> {
        match self {
            VariableValue::Valid(text) => "Valid("@ + std_quoted(text) + ")"@,
            VariableValue::Error(text) => "Error("@ + std_quoted(text) + ")"@,
            VariableValue::Empty => "Empty"@,
        }
    }
}

impl VariableValue {
    /// The value together with its kind.
    pub fn describe(&self) -> (r: String)
        ensures
            r@ == self@.described(),
    {
        match self {
            VariableValue::Valid(text) => join3("Valid(", quoted(text.as_str()).as_str(), ")"),
            VariableValue::Error(text) => join3("Error(", quoted(text.as_str()).as_str(), ")"),
            VariableValue::Empty => String::from_str("Empty"),
        }
    }
}

impl VariableNodeType {
    /// How the children are found.
    pub open spec fn described(self) -> Seq<char> {
        match self {
            VariableNodeType::ReferenceOffset(offset) => "ReferenceOffset(UnitOffset("@ + decimal(
                offset as nat,
            ) + "))"@,
            VariableNodeType::TypeOffset(offset) => "TypeOffset(UnitOffset("@ + decimal(
                offset as nat,
            ) + "))"@,
            VariableNodeType::DoNotRecurse => "DoNotRecurse"@,
            VariableNodeType::RecurseToBaseType => "RecurseToBaseType"@,
        }
    }

    /// How the children are found.
    pub fn describe(&self) -> (r: String)
        ensures
            r@ == self.described(),
    {
        match self {
            VariableNodeType::ReferenceOffset(offset) => join3(
                "ReferenceOffset(UnitOffset(",
                u64_text(*offset as u64).as_str(),
                "))",
            ),
            VariableNodeType::TypeOffset(offset) => join3(
                "TypeOffset(UnitOffset(",
                u64_text(*offset as u64).as_str(),
                "))",
            ),
            VariableNodeType::DoNotRecurse => String::from_str("DoNotRecurse"),
            VariableNodeType::RecurseToBaseType => String::from_str("RecurseToBaseType"),
        }
    }
}

impl VariantRole {
    /// The part in a type with variants.
    pub open spec fn described(self) -> Seq<char> {
        match self {
            VariantRole::VariantPart(n) => "VariantPart("@ + decimal(n as nat) + ")"@,
            VariantRole::Variant(n) => "Variant("@ + decimal(n as nat) + ")"@,
            VariantRole::NonVariant => "NonVariant"@,
        }
    }

    /// The part in a type with variants.
    pub fn describe(&self) -> (r: String)
        ensures
            r@ == self.described(),
    {
        match self {
            VariantRole::VariantPart(n) => join3("VariantPart(", u64_text(*n).as_str(), ")"),
            VariantRole::Variant(n) => join3("Variant(", u64_text(*n).as_str(), ")"),
            VariantRole::NonVariant => String::from_str("NonVariant"),
        }
    }
}

impl SourceLocation<Seq<char>> {
    /// All that is known of the location.
    pub open spec fn described(self) -> Seq<char> {
        "SourceLocation { line: "@ + number_described(of_u64(self.line)) + ", column: "@
            + number_described(of_u64(self.column)) + ", file: "@ + text_described(self.file)
            + ", directory: "@ + text_described(self.directory) + ", low_pc: "@ + number_described(
            of_u64(self.low_pc),
        ) + ", high_pc: "@ + number_described(of_u64(self.high_pc)) + " }"@
    }
}

/// A number that may be missing, as an integer.
pub open spec fn of_u64(number: Option<u64>) -> Option<int> {
    match number {
        Some(n) => Some(n as int),
        None => None,
    }
}

/// A signed number that may be missing, as an integer.
pub open spec fn of_i64(number: Option<i64>) -> Option<int> {
    match number {
        Some(n) => Some(n as int),
        None => None,
    }
}

impl SourceLocation {
    /// All that is known of the location.
    pub fn describe(&self) -> (r: String)
        ensures
            r@ == self@.described(),
    {
        let lines = join4(
            "SourceLocation { line: ",
            describe_u64(self.line).as_str(),
            ", column: ",
            describe_u64(self.column).as_str(),
        );
        let files = join4(
            ", file: ",
            describe_text(&self.file).as_str(),
            ", directory: ",
            describe_text(&self.directory).as_str(),
        );
        let addresses = join4(
            ", low_pc: ",
            describe_u64(self.low_pc).as_str(),
            ", high_pc: ",
            describe_u64(self.high_pc).as_str(),
        );
        let r = join4(lines.as_str(), files.as_str(), addresses.as_str(), " }");
        assert(r@ =~= self@.described());
        r
    }
}

/// A location that may be missing.
pub open spec fn source_described(location: Option<SourceLocation<Seq<char>>>) -> Seq<char> {
    match location {
        Some(location) => "Some("@ + location.described() + ")"@,
        None => "None"@,
    }
}

impl Variable<Seq<char>> {
    /// All that is known of the variable.
    pub open spec fn described(self) -> Seq<char> {
        "Variable { "@ + listed(
            seq![
                "variable_key: "@ + signed_decimal(self.variable_key as int),
                "parent_key: "@ + number_described(of_i64(self.parent_key)),
                "name: "@ + self.name.described(),
                "value: "@ + self.value.described(),
                "source_location: "@ + source_described(self.source_location),
                "type_name: "@ + self.variable_type.described(),
                "unit_header_offset: "@ + offset_described(
                    "DebugInfoOffset"@,
                    self.unit_header_offset,
                ),
                "variable_unit_offset: "@ + offset_described(
                    "UnitOffset"@,
                    self.variable_unit_offset,
                ),
                "variable_node_type: "@ + self.variable_node_type.described(),
                "memory_location: "@ + self.memory_location.described(),
                "byte_size: "@ + decimal(self.byte_size as nat),
                "member_index: "@ + number_described(of_i64(self.member_index)),
                "range_lower_bound: "@ + signed_decimal(self.range_lower_bound as int),
                "range_upper_bound: "@ + signed_decimal(self.range_upper_bound as int),
                "role: "@ + self.role.described(),
            ],
        ) + " }"@
    }
}

impl Variable {
    /// All that is known of the variable.
    pub fn describe(&self) -> (r: String)
        ensures
            r@ == self@.described(),
    {
        let source = match &self.source_location {
            Some(location) => join3("Some(", location.describe().as_str(), ")"),
            None => String::from_str("None"),
        };
        let mut texts: Vec<String> = Vec::new();
        texts.push(join2("variable_key: ", i64_text(self.variable_key).as_str()));
        texts.push(join2("parent_key: ", describe_i64(self.parent_key).as_str()));
        texts.push(join2("name: ", self.name.describe().as_str()));
        texts.push(join2("value: ", self.value.describe().as_str()));
        texts.push(join2("source_location: ", source.as_str()));
        texts.push(join2("type_name: ", self.variable_type.describe().as_str()));
        let header = describe_offset("DebugInfoOffset", self.unit_header_offset);
        texts.push(join2("unit_header_offset: ", header.as_str()));
        let offset = describe_offset("UnitOffset", self.variable_unit_offset);
        texts.push(join2("variable_unit_offset: ", offset.as_str()));
        texts.push(join2("variable_node_type: ", self.variable_node_type.describe().as_str()));
        texts.push(join2("memory_location: ", self.memory_location.describe().as_str()));
        texts.push(join2("byte_size: ", u64_text(self.byte_size).as_str()));
        texts.push(join2("member_index: ", describe_i64(self.member_index).as_str()));
        texts.push(join2("range_lower_bound: ", i64_text(self.range_lower_bound).as_str()));
        texts.push(join2("range_upper_bound: ", i64_text(self.range_upper_bound).as_str()));
        texts.push(join2("role: ", self.role.describe().as_str()));
        let ghost view = self@;
        assert(text_views(texts@) =~= seq![
            "variable_key: "@ + signed_decimal(view.variable_key as int),
            "parent_key: "@ + number_described(of_i64(view.parent_key)),
            "name: "@ + view.name.described(),
            "value: "@ + view.value.described(),
            "source_location: "@ + source_described(view.source_location),
            "type_name: "@ + view.variable_type.described(),
            "unit_header_offset: "@ + offset_described(
                "DebugInfoOffset"@,
                view.unit_header_offset,
            ),
            "variable_unit_offset: "@ + offset_described(
                "UnitOffset"@,
                view.variable_unit_offset,
            ),
            "variable_node_type: "@ + view.variable_node_type.described(),
            "memory_location: "@ + view.memory_location.described(),
            "byte_size: "@ + decimal(view.byte_size as nat),
            "member_index: "@ + number_described(of_i64(view.member_index)),
            "range_lower_bound: "@ + signed_decimal(view.range_lower_bound as int),
            "range_upper_bound: "@ + signed_decimal(view.range_upper_bound as int),
            "role: "@ + view.role.described(),
        ]);
        join3("Variable { ", list(&texts).as_str(), " }")
    }
}

} // verus!
