//! What the attributes of an entry say of the variable that it describes.
use vstd::prelude::*;

use crate::cache::VariableCache;
#[allow(unused_imports)]
use crate::cache::{latest, CacheView};
#[allow(unused_imports)]
use crate::describe::text_described;
#[allow(unused_imports)]
use crate::dwarf::file_named;
use crate::dwarf::{
    Attribute, AttributeValue, UnitInfo, DW_AT_ABSTRACT_ORIGIN, DW_AT_ADDRESS_CLASS,
    DW_AT_ALIGNMENT, DW_AT_ARTIFICIAL, DW_AT_BYTE_SIZE, DW_AT_CONST_VALUE, DW_AT_CONTAINING_TYPE,
    DW_AT_COUNT, DW_AT_DATA_MEMBER_LOCATION, DW_AT_DECLARATION, DW_AT_DECL_COLUMN, DW_AT_DECL_FILE,
    DW_AT_DECL_LINE, DW_AT_DISCR, DW_AT_DISCR_VALUE, DW_AT_ENCODING, DW_AT_ENUM_CLASS,
    DW_AT_EXTERNAL, DW_AT_LINKAGE_NAME, DW_AT_LOCATION, DW_AT_LOWER_BOUND, DW_AT_NAME, DW_AT_TYPE,
    DW_AT_UPPER_BOUND,
};
use crate::error::DebugError;
#[allow(unused_imports)]
use crate::error::{result_view, unit_view, DebugErrorView};
use crate::names::describe_attribute;
#[allow(unused_imports)]
use crate::names::gimli_attribute_name;
use crate::target::Target;
#[allow(unused_imports)]
use crate::text::{decimal, parsed_u64};
use crate::text::{join2, join3, join4, parse_u64, u64_text};
use crate::tree::NESTING_LIMIT;
use crate::variable::{
    clone_source, SourceLocation, Variable, VariableName, VariableType, VariableValue, VariantRole,
};
#[allow(unused_imports)]
use crate::variable::VariableView;

verus! {

/// A cache together with the parent and the variable that are the outcome of a step; the variable
/// only if it does not fail.
pub type PairOutcome = (CacheView, VariableView, Result<VariableView, DebugErrorView>);

/// `location` with the source file `file` in `directory`.
pub open spec fn with_file(
    location: Option<SourceLocation<Seq<char>>>,
    directory: Seq<char>,
    file: Seq<char>,
) -> SourceLocation<Seq<char>> {
    match location {
        Some(existing) => SourceLocation {
            line: existing.line,
            column: existing.column,
            file: Some(file),
            directory: Some(directory),
            low_pc: None,
            high_pc: None,
        },
        None => SourceLocation {
            line: None,
            column: None,
            file: Some(file),
            directory: Some(directory),
            low_pc: None,
            high_pc: None,
        },
    }
}

/// `location` with the line `line`.
pub open spec fn with_line(
    location: Option<SourceLocation<Seq<char>>>,
    line: u64,
) -> SourceLocation<
    Seq<char>,
> {
    match location {
        Some(existing) => SourceLocation {
            line: Some(line),
            column: existing.column,
            file: existing.file,
            directory: existing.directory,
            low_pc: None,
            high_pc: None,
        },
        None => SourceLocation {
            line: Some(line),
            column: None,
            file: None,
            directory: None,
            low_pc: None,
            high_pc: None,
        },
    }
}

/// The outcome of looking for an attribute, as in a diagnostic.
pub open spec fn value_described(value: Result<Option<Attribute>, Seq<char>>) -> Seq<char> {
    match value {
        Ok(Some(attribute)) => "Ok(Some("@ + attribute.debug@ + "))"@,
        Ok(None) => "Ok(None)"@,
        Err(text) => "Err("@ + text + ")"@,
    }
}

/// A flag, as in a diagnostic.
pub open spec fn flag_described(flag: bool) -> Seq<char> {
    if flag {
        "true"@
    } else {
        "false"@
    }
}

/// Whether the attribute `name` is put to use elsewhere, or not at all.
pub open spec fn attribute_passed_over(name: u16) -> bool {
    ||| name == DW_AT_LOCATION
    ||| name == DW_AT_DATA_MEMBER_LOCATION
    ||| name == DW_AT_DECL_COLUMN
    ||| name == DW_AT_CONTAINING_TYPE
    ||| name == DW_AT_ALIGNMENT
    ||| name == DW_AT_EXTERNAL
    ||| name == DW_AT_DECLARATION
    ||| name == DW_AT_ENCODING
    ||| name == DW_AT_DISCR_VALUE
    ||| name == DW_AT_BYTE_SIZE
    ||| name == DW_AT_ABSTRACT_ORIGIN
    ||| name == DW_AT_LINKAGE_NAME
    ||| name == DW_AT_ADDRESS_CLASS
}

/// The discriminant that `variable` holds, if it is known: what is no number counts as the largest.
pub open spec fn discriminant_of(variable: VariableView) -> Result<u64, DebugErrorView> {
    match variable.value {
        VariableValue::Error(_) => Ok(u64::MAX),
        VariableValue::Empty => if variable.variable_type is Base {
            Err(
                DebugError::NeedsValue {
                    variable_type: variable.variable_type,
                    memory_location: variable.memory_location,
                    byte_size: variable.byte_size,
                },
            )
        } else {
            Ok(u64::MAX)
        },
        VariableValue::Valid(text) => match parsed_u64(text) {
            Some(value) => Ok(value),
            None => Ok(u64::MAX),
        },
    }
}

impl UnitInfo {
    /// Where the attributes of the variable that the entry `node` describes are found, and what
    /// becomes of `variable` by looking for it: an entry may refer to another one for them.
    pub open spec fn origin_of(self, node: int, variable: VariableView) -> Result<
        (Option<int>, VariableView),
        DebugErrorView,
    > {
        match self.entries@[node].attribute(DW_AT_ABSTRACT_ORIGIN) {
            Ok(Some(attribute)) => match attribute.value {
                AttributeValue::UnitRef(offset) => match self.entry_at(offset) {
                    Some(origin) => Ok((Some(origin), variable)),
                    None => Err(DebugError::NoEntry(offset)),
                },
                _ => Ok(
                    (
                        None,
                        variable.with_error(
                            "Unimplemented: Attribute Value for DW_AT_abstract_origin "@
                                + attribute.debug@,
                        ),
                    ),
                ),
            },
            _ => Ok((Some(node), variable)),
        }
    }

    /// `variable` with the name that the entry `origin` gives it, if any.
    pub open spec fn named_by(self, origin: Option<int>, variable: VariableView) -> Result<
        VariableView,
        DebugErrorView,
    > {
        match origin {
            Some(origin) => match self.entries@[origin].attribute(DW_AT_NAME) {
                Ok(Some(attribute)) => Ok(
                    Variable { name: VariableName::Named(attribute.text@), ..variable },
                ),
                Ok(None) => Ok(variable),
                Err(text) => Err(DebugError::Dwarf(text)),
            },
            None => Ok(variable),
        }
    }

    /// The outcome of resolving `variable`, a part of `parent`, from the attributes of the entry
    /// `node`, to a depth of `fuel` entries and types.
    pub open spec fn attributes_processed(
        self,
        node: int,
        parent: VariableView,
        variable: VariableView,
        target: Target,
        cache: CacheView,
        fuel: nat,
    ) -> PairOutcome
        decreases fuel, 0int, 0int,
    {
        if fuel == 0 {
            (cache, parent, Err(DebugError::NestedTooDeep))
        } else {
            match self.origin_of(
                node,
                Variable { parent_key: Some(parent.variable_key), ..variable },
            ) {
                Err(error) => (cache, parent, Err(error)),
                Ok((origin, variable)) => match self.named_by(origin, variable) {
                    Err(error) => (cache, parent, Err(error)),
                    Ok(variable) => match self.location_extracted(
                        node,
                        parent,
                        variable,
                        target,
                        cache,
                    ) {
                        (after, Err(error)) => (after, parent, Err(error)),
                        (after, Ok(variable)) => self.attributes_stored(
                            node,
                            origin,
                            parent,
                            variable,
                            target,
                            after,
                            (fuel - 1) as nat,
                        ),
                    },
                },
            }
        }
    }

    /// The outcome of storing `variable` once all attributes of the entry `origin` were applied.
    pub open spec fn attributes_stored(
        self,
        node: int,
        origin: Option<int>,
        parent: VariableView,
        variable: VariableView,
        target: Target,
        cache: CacheView,
        fuel: nat,
    ) -> PairOutcome
        decreases fuel, 4int, 0int,
    {
        match origin {
            Some(origin) => match self.attributes_from(
                node,
                origin,
                0,
                parent,
                variable,
                target,
                cache,
                fuel,
            ) {
                (after, updated, Ok(variable)) => {
                    let (after, stored) = after.stored(variable.parent_key, variable, target);
                    (after, updated, stored)
                },
                (after, updated, Err(error)) => (after, updated, Err(error)),
            },
            None => {
                let (after, stored) = cache.stored(variable.parent_key, variable, target);
                (after, parent, stored)
            },
        }
    }

    /// The outcome of applying the attributes of the entry `origin`, from the `from`-th on.
    pub open spec fn attributes_from(
        self,
        node: int,
        origin: int,
        from: int,
        parent: VariableView,
        variable: VariableView,
        target: Target,
        cache: CacheView,
        fuel: nat,
    ) -> PairOutcome
        decreases fuel, 3int, self.entries@[origin].attributes@.len() - from,
    {
        let attributes = self.entries@[origin].attributes@;
        if from >= attributes.len() {
            (cache, parent, Ok(variable))
        } else {
            match self.attribute_applied(
                node,
                attributes[from],
                parent,
                variable,
                target,
                cache,
                fuel,
            ) {
                (after, updated, Ok(variable)) => self.attributes_from(
                    node,
                    origin,
                    from + 1,
                    updated,
                    variable,
                    target,
                    after,
                    fuel,
                ),
                (after, updated, Err(error)) => (after, updated, Err(error)),
            }
        }
    }

    /// `variable` once an attribute that needs nothing but itself was applied.
    pub open spec fn described_by(
        self,
        node: int,
        attribute: Attribute,
        variable: VariableView,
    ) -> VariableView {
        if attribute.name == DW_AT_NAME {
            Variable { name: VariableName::Named(attribute.text@), ..variable }
        } else if attribute.name == DW_AT_DECL_FILE {
            match attribute.value {
                AttributeValue::FileIndex(index) => match file_named(self.files@, index) {
                    Some((directory, file)) => Variable {
                        source_location: Some(
                            with_file(variable.source_location, directory, file),
                        ),
                        ..variable
                    },
                    None => variable,
                },
                _ => variable,
            }
        } else if attribute.name == DW_AT_DECL_LINE {
            match attribute.value {
                AttributeValue::Udata(line) => Variable {
                    source_location: Some(with_line(variable.source_location, line)),
                    ..variable
                },
                _ => variable,
            }
        } else if attribute.name == DW_AT_ENUM_CLASS {
            match attribute.value {
                AttributeValue::Flag(true) => variable.with_value(
                    VariableValue::Valid(variable.variable_type.described()),
                ),
                AttributeValue::Flag(false) => variable.with_error(
                    "Unimplemented: Flag Value for DW_AT_enum_class false"@,
                ),
                _ => variable.with_error(
                    "Unimplemented: Attribute Value for DW_AT_enum_class: "@ + attribute.debug@,
                ),
            }
        } else if attribute.name == DW_AT_CONST_VALUE {
            match attribute.value {
                AttributeValue::Udata(value) => variable.with_value(
                    VariableValue::Valid(decimal(value as nat)),
                ),
                _ => variable.with_error(
                    "Unimplemented: Attribute Value for DW_AT_const_value: "@ + attribute.debug@,
                ),
            }
        } else if attribute.name == DW_AT_ARTIFICIAL {
            Variable { name: VariableName::Artifical, ..variable }
        } else if attribute.name == DW_AT_LOWER_BOUND {
            match attribute.udata {
                Some(bound) => Variable { range_lower_bound: bound as i64, ..variable },
                None => variable.with_error(
                    "Unimplemented: Attribute Value for DW_AT_lower_bound: "@ + attribute.debug@,
                ),
            }
        } else if attribute.name == DW_AT_UPPER_BOUND || attribute.name == DW_AT_COUNT {
            match attribute.udata {
                Some(bound) => Variable { range_upper_bound: bound as i64, ..variable },
                None => variable.with_error(
                    "Unimplemented: Attribute Value for DW_AT_upper_bound: "@ + attribute.debug@,
                ),
            }
        } else if attribute_passed_over(attribute.name) {
            variable
        } else {
            variable.with_error(
                "Unimplemented: Variable Attribute "@ + text_described(
                    gimli_attribute_name(attribute.name),
                ) + " : "@ + value_described(self.entries@[node].attribute(attribute.name))
                    + ", with children = "@ + flag_described(self.entries@[node].has_children),
            )
        }
    }

    /// The outcome of applying an attribute to `variable`, which the entry `node` describes.
    pub open spec fn attribute_applied(
        self,
        node: int,
        attribute: Attribute,
        parent: VariableView,
        variable: VariableView,
        target: Target,
        cache: CacheView,
        fuel: nat,
    ) -> PairOutcome
        decreases fuel, 2int, 0int,
    {
        if attribute.name == DW_AT_TYPE {
            match attribute.value {
                AttributeValue::UnitRef(offset) => match self.entry_at(offset) {
                    None => (cache, parent, Err(DebugError::NoEntry(offset))),
                    Some(type_node) => {
                        let (after, typed) = self.type_extracted(
                            type_node,
                            parent,
                            variable,
                            target,
                            cache,
                            fuel,
                        );
                        (after, parent, typed)
                    },
                },
                _ => (
                    cache,
                    parent,
                    Ok(
                        variable.with_error(
                            "Unimplemented: Attribute Value for DW_AT_type "@ + attribute.debug@,
                        ),
                    ),
                ),
            }
        } else if attribute.name == DW_AT_DISCR {
            match attribute.value {
                AttributeValue::UnitRef(offset) => match self.discriminant_resolved(
                    offset,
                    parent,
                    target,
                    cache,
                    fuel,
                ) {
                    (after, updated, Ok(_)) => (after, updated, Ok(variable)),
                    (after, updated, Err(error)) => (after, updated, Err(error)),
                },
                _ => (
                    cache,
                    parent,
                    Ok(
                        variable.with_error(
                            "Unimplemented: Attribute Value for DW_AT_discr "@ + attribute.debug@,
                        ),
                    ),
                ),
            }
        } else {
            (cache, parent, Ok(self.described_by(node, attribute, variable)))
        }
    }

    /// The outcome of finding out which variant of `parent` is active: the entry at `offset`
    /// describes the variable that tells. It is resolved and put into the role of `parent`.
    pub open spec fn discriminant_resolved(
        self,
        offset: usize,
        parent: VariableView,
        target: Target,
        cache: CacheView,
        fuel: nat,
    ) -> (CacheView, VariableView, Result<(), DebugErrorView>)
        decreases fuel, 1int, 0int,
    {
        match self.entry_at(offset) {
            None => (cache, parent, Err(DebugError::NoEntry(offset))),
            Some(node) => match cache.stored(
                Some(parent.variable_key),
                self.variable_of(node),
                target,
            ) {
                (after, Err(error)) => (after, parent, Err(error)),
                (after, Ok(discriminant)) => match self.attributes_processed(
                    node,
                    parent,
                    discriminant,
                    target,
                    after,
                    fuel,
                ) {
                    (after, updated, Err(error)) => (after, updated, Err(error)),
                    (after, updated, Ok(discriminant)) => match discriminant_of(discriminant) {
                        Err(error) => (after, updated, Err(error)),
                        Ok(value) => {
                            let (after, removed) = after.removed(discriminant.variable_key);
                            (
                                after,
                                Variable { role: VariantRole::VariantPart(value), ..updated },
                                removed,
                            )
                        },
                    },
                },
            },
        }
    }
}

/// The outcome of looking for an attribute, as in a diagnostic.
fn describe_value(value: Result<Option<&Attribute>, &String>) -> (r: String)
    ensures
        r@ == value_described(
            match value {
                Ok(Some(attribute)) => Ok(Some(*attribute)),
                Ok(None) => Ok(None),
                Err(text) => Err(text@),
            },
        ),
{
    match value {
        Ok(Some(attribute)) => join3("Ok(Some(", attribute.debug.as_str(), "))"),
        Ok(None) => String::from_str("Ok(None)"),
        Err(text) => join3("Err(", text.as_str(), ")"),
    }
}

/// A flag, as in a diagnostic.
fn describe_flag(flag: bool) -> (r: String)
    ensures
        r@ == flag_described(flag),
{
    if flag {
        String::from_str("true")
    } else {
        String::from_str("false")
    }
}

/// Whether the attribute `name` is put to use elsewhere, or not at all.
fn is_attribute_passed_over(name: u16) -> (r: bool)
    ensures
        r == attribute_passed_over(name),
{
    name == DW_AT_LOCATION || name == DW_AT_DATA_MEMBER_LOCATION || name == DW_AT_DECL_COLUMN
        || name == DW_AT_CONTAINING_TYPE || name == DW_AT_ALIGNMENT || name == DW_AT_EXTERNAL
        || name == DW_AT_DECLARATION || name == DW_AT_ENCODING || name == DW_AT_DISCR_VALUE || name
        == DW_AT_BYTE_SIZE || name == DW_AT_ABSTRACT_ORIGIN || name == DW_AT_LINKAGE_NAME || name
        == DW_AT_ADDRESS_CLASS
}

/// Sets the source file of `variable`.
fn set_file(variable: &mut Variable, directory: String, file: String)
    ensures
        final(variable)@ == (Variable {
            source_location: Some(with_file(old(variable)@.source_location, directory@, file@)),
            ..old(variable)@
        }),
{
    let (line, column) = match &variable.source_location {
        Some(existing) => (existing.line, existing.column),
        None => (None, None),
    };
    variable.source_location = Some(
        SourceLocation {
            line,
            column,
            file: Some(file),
            directory: Some(directory),
            low_pc: None,
            high_pc: None,
        },
    );
}

/// Sets the source line of `variable`.
fn set_line(variable: &mut Variable, line: u64)
    ensures
        final(variable)@ == (Variable {
            source_location: Some(with_line(old(variable)@.source_location, line)),
            ..old(variable)@
        }),
{
    let existing = clone_source(&variable.source_location);
    variable.source_location = Some(
        match existing {
            Some(existing) => SourceLocation {
                line: Some(line),
                column: existing.column,
                file: existing.file,
                directory: existing.directory,
                low_pc: None,
                high_pc: None,
            },
            None => SourceLocation {
                line: Some(line),
                column: None,
                file: None,
                directory: None,
                low_pc: None,
                high_pc: None,
            },
        },
    );
}

/// The discriminant that `variable` holds, if it is known: what is no number counts as the largest.
fn find_discriminant(variable: &Variable) -> (r: Result<u64, DebugError>)
    ensures
        match r {
            Ok(value) => discriminant_of(variable@) == Ok::<u64, DebugErrorView>(value),
            Err(error) => discriminant_of(variable@) == Err::<u64, DebugErrorView>(error@),
        },
{
    match &variable.value {
        VariableValue::Error(_) => Ok(u64::MAX),
        VariableValue::Empty => match &variable.variable_type {
            VariableType::Base(_) => Err(
                DebugError::NeedsValue {
                    variable_type: variable.variable_type.clone(),
                    memory_location: variable.memory_location.clone(),
                    byte_size: variable.byte_size,
                },
            ),
            _ => Ok(u64::MAX),
        },
        VariableValue::Valid(text) => match parse_u64(text.as_str()) {
            Some(value) => Ok(value),
            None => Ok(u64::MAX),
        },
    }
}

impl UnitInfo {
    /// Where the attributes of the variable that the entry `node` describes are found.
    fn find_origin(&self, node: usize, variable: Variable) -> (r: Result<
        (Option<usize>, Variable),
        DebugError,
    >)
        requires
            node < self.entries@.len(),
        ensures
            match r {
                Ok((Some(origin), updated)) => origin < self.entries@.len() && self.origin_of(
                    node as int,
                    variable@,
                ) == Ok::<_, DebugErrorView>((Some(origin as int), updated@)),
                Ok((None, updated)) => self.origin_of(node as int, variable@) == Ok::<
                    _,
                    DebugErrorView,
                >((None::<int>, updated@)),
                Err(error) => self.origin_of(node as int, variable@) == Err::<
                    (Option<int>, VariableView),
                    _,
                >(error@),
            },
    {
        match self.entries[node].attr(DW_AT_ABSTRACT_ORIGIN) {
            Ok(Some(attribute)) => match attribute.value {
                AttributeValue::UnitRef(offset) => match self.find_entry(offset) {
                    Ok(origin) => Ok((Some(origin), variable)),
                    Err(error) => Err(error),
                },
                _ => {
                    let mut variable = variable;
                    variable.set_error(
                        join2(
                            "Unimplemented: Attribute Value for DW_AT_abstract_origin ",
                            attribute.debug.as_str(),
                        ),
                    );
                    Ok((None, variable))
                },
            },
            _ => Ok((Some(node), variable)),
        }
    }

    /// Gives `variable` the name that the entry `origin` gives it, if any.
    fn name_by(&self, origin: Option<usize>, variable: Variable) -> (r: Result<
        Variable,
        DebugError,
    >)
        requires
            origin matches Some(origin) ==> origin < self.entries@.len(),
        ensures
            result_view(r) == self.named_by(
                match origin {
                    Some(origin) => Some(origin as int),
                    None => None,
                },
                variable@,
            ),
    {
        match origin {
            Some(origin) => match self.entries[origin].attr(DW_AT_NAME) {
                Ok(Some(attribute)) => {
                    let mut variable = variable;
                    variable.name = VariableName::Named(attribute.text.clone());
                    Ok(variable)
                },
                Ok(None) => Ok(variable),
                Err(text) => Err(DebugError::Dwarf(text.clone())),
            },
            None => Ok(variable),
        }
    }

    /// Applies an attribute that needs nothing but itself to `variable`.
    fn describe_by(&self, node: usize, attribute: &Attribute, variable: &mut Variable)
        requires
            node < self.entries@.len(),
        ensures
            final(variable)@ == self.described_by(node as int, *attribute, old(variable)@),
    {
        if attribute.name == DW_AT_NAME {
            variable.name = VariableName::Named(attribute.text.clone());
        } else if attribute.name == DW_AT_DECL_FILE {
            match attribute.value {
                AttributeValue::FileIndex(index) => match self.find_file(index) {
                    Some((directory, file)) => {
                        set_file(variable, directory, file);
                    },
                    None => {},
                },
                _ => {},
            }
        } else if attribute.name == DW_AT_DECL_LINE {
            match attribute.value {
                AttributeValue::Udata(line) => {
                    set_line(variable, line);
                },
                _ => {},
            }
        } else if attribute.name == DW_AT_ENUM_CLASS {
            match attribute.value {
                AttributeValue::Flag(true) => {
                    let text = variable.variable_type.describe();
                    variable.set_value(VariableValue::Valid(text));
                },
                AttributeValue::Flag(false) => {
                    variable.set_error(
                        String::from_str("Unimplemented: Flag Value for DW_AT_enum_class false"),
                    );
                },
                _ => {
                    variable.set_error(
                        join2(
                            "Unimplemented: Attribute Value for DW_AT_enum_class: ",
                            attribute.debug.as_str(),
                        ),
                    );
                },
            }
        } else if attribute.name == DW_AT_CONST_VALUE {
            match attribute.value {
                AttributeValue::Udata(value) => {
                    variable.set_value(VariableValue::Valid(u64_text(value)));
                },
                _ => {
                    variable.set_error(
                        join2(
                            "Unimplemented: Attribute Value for DW_AT_const_value: ",
                            attribute.debug.as_str(),
                        ),
                    );
                },
            }
        } else if attribute.name == DW_AT_ARTIFICIAL {
            variable.name = VariableName::Artifical;
        } else if attribute.name == DW_AT_LOWER_BOUND {
            match attribute.udata {
                Some(bound) => {
                    variable.range_lower_bound = bound as i64;
                },
                None => {
                    variable.set_error(
                        join2(
                            "Unimplemented: Attribute Value for DW_AT_lower_bound: ",
                            attribute.debug.as_str(),
                        ),
                    );
                },
            }
        } else if attribute.name == DW_AT_UPPER_BOUND || attribute.name == DW_AT_COUNT {
            match attribute.udata {
                Some(bound) => {
                    variable.range_upper_bound = bound as i64;
                },
                None => {
                    variable.set_error(
                        join2(
                            "Unimplemented: Attribute Value for DW_AT_upper_bound: ",
                            attribute.debug.as_str(),
                        ),
                    );
                },
            }
        } else if !is_attribute_passed_over(attribute.name) {
            let head = join4(
                "Unimplemented: Variable Attribute ",
                describe_attribute(attribute.name).as_str(),
                " : ",
                describe_value(self.entries[node].attr(attribute.name)).as_str(),
            );
            variable.set_error(
                join3(
                    head.as_str(),
                    ", with children = ",
                    describe_flag(self.entries[node].has_children).as_str(),
                ),
            );
        }
    }

    /// Finds out which variant of `parent` is active: the entry at `offset` describes the variable
    /// that tells.
    fn resolve_discriminant(
        &self,
        offset: usize,
        parent: &mut Variable,
        target: &Target,
        cache: &mut VariableCache,
        fuel: u32,
    ) -> (r: Result<(), DebugError>)
        requires
            self.wf(),
            old(cache)@.wf(),
        ensures
            final(cache)@.wf(),
            (final(cache)@, final(parent)@, unit_view(r)) == self.discriminant_resolved(
                offset,
                old(parent)@,
                *target,
                old(cache)@,
                fuel as nat,
            ),
        decreases fuel, 1int,
    {
        let node = match self.find_entry(offset) {
            Ok(node) => node,
            Err(error) => {
                return Err(error);
            },
        };
        let discriminant = match cache.cache_variable(
            Some(parent.variable_key),
            self.new_variable(node),
            target,
        ) {
            Ok(discriminant) => discriminant,
            Err(error) => {
                return Err(error);
            },
        };
        let discriminant = match self.process_tree_node_attributes_within(
            node,
            parent,
            discriminant,
            target,
            cache,
            fuel,
        ) {
            Ok(discriminant) => discriminant,
            Err(error) => {
                return Err(error);
            },
        };
        match find_discriminant(&discriminant) {
            Ok(value) => {
                parent.role = VariantRole::VariantPart(value);
            },
            Err(error) => {
                return Err(error);
            },
        }
        cache.remove_cache_entry(discriminant.variable_key)
    }

    /// Applies an attribute to `variable`, which the entry `node` describes.
    fn apply_attribute(
        &self,
        node: usize,
        attribute: &Attribute,
        parent: &mut Variable,
        variable: Variable,
        target: &Target,
        cache: &mut VariableCache,
        fuel: u32,
    ) -> (r: Result<Variable, DebugError>)
        requires
            self.wf(),
            node < self.entries@.len(),
            old(cache)@.wf(),
        ensures
            final(cache)@.wf(),
            (final(cache)@, final(parent)@, result_view(r)) == self.attribute_applied(
                node as int,
                *attribute,
                old(parent)@,
                variable@,
                *target,
                old(cache)@,
                fuel as nat,
            ),
        decreases fuel, 2int,
    {
        let mut updated = variable;
        if attribute.name == DW_AT_TYPE {
            match attribute.value {
                AttributeValue::UnitRef(offset) => match self.find_entry(offset) {
                    Ok(type_node) => {
                        return self.extract_type_within(
                            type_node,
                            parent,
                            updated,
                            target,
                            cache,
                            fuel,
                        );
                    },
                    Err(error) => {
                        return Err(error);
                    },
                },
                _ => {
                    updated.set_error(
                        join2(
                            "Unimplemented: Attribute Value for DW_AT_type ",
                            attribute.debug.as_str(),
                        ),
                    );
                },
            }
        } else if attribute.name == DW_AT_DISCR {
            match attribute.value {
                AttributeValue::UnitRef(offset) => {
                    match self.resolve_discriminant(offset, parent, target, cache, fuel) {
                        Ok(_) => {},
                        Err(error) => {
                            return Err(error);
                        },
                    }
                },
                _ => {
                    updated.set_error(
                        join2(
                            "Unimplemented: Attribute Value for DW_AT_discr ",
                            attribute.debug.as_str(),
                        ),
                    );
                },
            }
        } else {
            self.describe_by(node, attribute, &mut updated);
        }
        Ok(updated)
    }

    /// Applies the attributes of the entry `origin` to `variable`, which the entry `node`
    /// describes.
    fn apply_attributes(
        &self,
        node: usize,
        origin: usize,
        parent: &mut Variable,
        variable: Variable,
        target: &Target,
        cache: &mut VariableCache,
        fuel: u32,
    ) -> (r: Result<Variable, DebugError>)
        requires
            self.wf(),
            node < self.entries@.len(),
            origin < self.entries@.len(),
            old(cache)@.wf(),
        ensures
            final(cache)@.wf(),
            (final(cache)@, final(parent)@, result_view(r)) == self.attributes_from(
                node as int,
                origin as int,
                0,
                old(parent)@,
                variable@,
                *target,
                old(cache)@,
                fuel as nat,
            ),
        decreases fuel, 3int,
    {
        let mut updated = variable;
        let attributes = &self.entries[origin].attributes;
        let mut i: usize = 0;
        while i < attributes.len()
            invariant
                i <= attributes.len(),
                self.wf(),
                node < self.entries@.len(),
                origin < self.entries@.len(),
                attributes@ == self.entries@[origin as int].attributes@,
                cache@.wf(),
                self.attributes_from(
                    node as int,
                    origin as int,
                    0,
                    old(parent)@,
                    variable@,
                    *target,
                    old(cache)@,
                    fuel as nat,
                ) == self.attributes_from(
                    node as int,
                    origin as int,
                    i as int,
                    parent@,
                    updated@,
                    *target,
                    cache@,
                    fuel as nat,
                ),
            decreases attributes.len() - i,
        {
            updated = match self.apply_attribute(
                node,
                &attributes[i],
                parent,
                updated,
                target,
                cache,
                fuel,
            ) {
                Ok(updated) => updated,
                Err(error) => {
                    return Err(error);
                },
            };
            i = i + 1;
        }
        Ok(updated)
    }

    /// Resolves `variable`, a part of `parent`, from the attributes of the entry `node`, and
    /// stores it. The result is the variable as it stands in the cache.
    ///
    /// A discriminant among the attributes goes into the role of `parent`.
    pub fn process_tree_node_attributes(
        &self,
        node: usize,
        parent: &mut Variable,
        variable: Variable,
        target: &Target,
        cache: &mut VariableCache,
    ) -> (r: Result<Variable, DebugError>)
        requires
            self.wf(),
            node < self.entries@.len(),
            old(cache)@.wf(),
        ensures
            final(cache)@.wf(),
            r matches Ok(stored) ==> latest(final(cache)@, stored@),
            (final(cache)@, final(parent)@, result_view(r)) == self.attributes_processed(
                node as int,
                old(parent)@,
                variable@,
                *target,
                old(cache)@,
                NESTING_LIMIT as nat,
            ),
    {
        self.process_tree_node_attributes_within(
            node,
            parent,
            variable,
            target,
            cache,
            NESTING_LIMIT,
        )
    }

    /// Resolves `variable` as
    /// [`process_tree_node_attributes`](UnitInfo::process_tree_node_attributes) does, for callers
    /// that have to spare the stack: entries and types that are nested deeper than `fuel` are
    /// refused.
    pub fn process_tree_node_attributes_within(
        &self,
        node: usize,
        parent: &mut Variable,
        variable: Variable,
        target: &Target,
        cache: &mut VariableCache,
        fuel: u32,
    ) -> (r: Result<Variable, DebugError>)
        requires
            self.wf(),
            node < self.entries@.len(),
            old(cache)@.wf(),
        ensures
            final(cache)@.wf(),
            r matches Ok(stored) ==> latest(final(cache)@, stored@),
            (final(cache)@, final(parent)@, result_view(r)) == self.attributes_processed(
                node as int,
                old(parent)@,
                variable@,
                *target,
                old(cache)@,
                fuel as nat,
            ),
        decreases fuel, 0int,
    {
        if fuel == 0 {
            return Err(DebugError::NestedTooDeep);
        }
        let mut updated = variable;
        updated.parent_key = Some(parent.variable_key);
        let (origin, updated) = match self.find_origin(node, updated) {
            Ok(found) => found,
            Err(error) => {
                return Err(error);
            },
        };
        let updated = match self.name_by(origin, updated) {
            Ok(updated) => updated,
            Err(error) => {
                return Err(error);
            },
        };
        // The place must be known before the type is looked at.
        let updated = match self.extract_location(node, parent, updated, target, cache) {
            Ok(updated) => updated,
            Err(error) => {
                return Err(error);
            },
        };
        let updated = match origin {
            Some(origin) => match self.apply_attributes(
                node,
                origin,
                parent,
                updated,
                target,
                cache,
                fuel - 1,
            ) {
                Ok(updated) => updated,
                Err(error) => {
                    return Err(error);
                },
            },
            None => updated,
        };
        cache.cache_variable(updated.parent_key, updated, target)
    }
}

} // verus!
