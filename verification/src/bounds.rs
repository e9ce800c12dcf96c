//! The bounds of arrays, the types that hold no data of their own, and what variables show.
use vstd::prelude::*;

#[allow(unused_imports)]
use crate::cache::CacheView;
#[allow(unused_imports)]
use crate::dwarf::{
    AttributeValue, UnitInfo, DW_AT_ABSTRACT_ORIGIN, DW_AT_COUNT, DW_AT_DISCR, DW_AT_LOWER_BOUND,
    DW_AT_NAME, DW_AT_TYPE, DW_AT_UPPER_BOUND, DW_TAG_ARRAY_TYPE, DW_TAG_BASE_TYPE,
    DW_TAG_COMPILE_UNIT, DW_TAG_ENUMERATION_TYPE, DW_TAG_POINTER_TYPE, DW_TAG_STRUCTURE_TYPE,
    DW_TAG_SUBRANGE_TYPE, DW_TAG_SUBROUTINE_TYPE, DW_TAG_UNION_TYPE,
};
#[allow(unused_imports)]
use crate::effects::{node_type_for, type_name_of, type_text};
#[allow(unused_imports)]
use crate::error::DebugErrorView;
#[allow(unused_imports)]
use crate::laws::law_location_changes_place_or_value;
#[allow(unused_imports)]
use crate::target::Target;
#[allow(unused_imports)]
use crate::text::{decimal, digits_value, is_digit, signed_decimal};
#[allow(unused_imports)]
use crate::types::enumeration_valued;
#[allow(unused_imports)]
use crate::variable::{
    Variable, VariableLocation, VariableName, VariableNodeType, VariableType, VariableValue,
    VariableView, VariantRole,
};

verus! {

/// A numeral is made of digits, begins with a zero only where it is that of zero, and a further
/// digit behind it stands for ten times the number and the digit.
pub proof fn law_numeral(n: nat, d: nat)
    requires
        d < 10,
    ensures
        decimal(n).len() > 0,
        forall|i: int| 0 <= i < decimal(n).len() ==> '0' <= #[trigger] decimal(n)[i] <= '9',
        decimal(n)[0] == '0' ==> n == 0,
        n < 10 ==> decimal(n).len() == 1 && decimal(n)[0] as int == '0' as int + n,
        n > 0 ==> decimal(n * 10 + d).len() == decimal(n).len() + 1 && decimal(
            n * 10 + d,
        ).drop_last() == decimal(n) && decimal(n * 10 + d).last() as int == '0' as int + d,
    decreases n,
{
    if n >= 10 {
        law_numeral(n / 10, 0);
    }
    if n > 0 {
        assert((n * 10 + d) / 10 == n);
        assert((n * 10 + d) % 10 == d);
        assert(decimal(n * 10 + d).drop_last() =~= decimal(n));
    }
}

/// A digit behind others makes ten times their number and its own.
pub proof fn law_digit_behind(digits: Seq<char>, digit: char)
    requires
        is_digit(digit),
    ensures
        digits_value(digits.push(digit)) == 10 * digits_value(digits) + (digit as int - '0' as int),
        digits_value(Seq::<char>::empty()) == 0,
{
    assert(digits.push(digit).drop_last() =~= digits);
}

/// A negative number is shown by a minus sign and the numeral of what it lacks to zero, another one
/// by its numeral.
pub proof fn law_signed_numeral(n: nat)
    ensures
        signed_decimal(n as int) == decimal(n),
        n > 0 ==> signed_decimal(-n) == seq!['-'] + decimal(n),
{
    reveal_strlit("-");
    assert("-"@ =~= seq!['-']);
}

/// What is set as the value of a variable stands there, but that an error keeps the errors before
/// it; nothing else of the variable changes, and it is valid as long as no error stands there.
pub proof fn law_value_set(variable: VariableView, text: Seq<char>, before: Seq<char>)
    ensures
        variable.with_value(VariableValue::Valid(text)) == (Variable {
            value: VariableValue::Valid(text),
            ..variable
        }),
        variable.with_value(VariableValue::Valid(text)).valid(),
        variable.with_value(VariableValue::Empty) == (Variable {
            value: VariableValue::Empty,
            ..variable
        }),
        variable.with_error(text) == (Variable {
            value: variable.with_error(text).value,
            ..variable
        }),
        variable.valid() ==> variable.with_error(text).value == VariableValue::Error(text),
        variable.value == VariableValue::Error(before) ==> variable.with_error(text).value
            == VariableValue::Error(before + " : "@ + text),
        !variable.with_error(text).valid(),
        variable.value is Empty ==> variable.valid(),
{
}

/// A name is shown as it stands, or as what stands for it.
pub proof fn law_names_shown(text: Seq<char>)
    ensures
        VariableName::Named(text).shown() == text,
        VariableName::Namespace(text).shown() == text,
        VariableName::<Seq<char>>::StaticScope.shown() == "Static Variable"@,
        VariableName::<Seq<char>>::AnonymousNamespace.shown() == "<anonymous_namespace>"@,
        VariableName::<Seq<char>>::Artifical.shown() == "<artifical>"@,
        VariableName::<Seq<char>>::Unknown.shown() == "<unknown>"@,
        VariableValue::Valid(text).shown() == text,
        VariableValue::Error(text).shown() == text,
        VariableValue::<Seq<char>>::Empty.shown().len() == 0,
{
}

/// A type is shown by its name, an array by the name of what it holds and how many of them; and
/// what holds nothing is told by its name.
pub proof fn law_types_shown(text: Seq<char>, count: usize, of: VariableName<Seq<char>>)
    ensures
        VariableType::Base(text).shown() == text,
        VariableType::Struct(text).shown() == text,
        VariableType::Enum(text).shown() == text,
        VariableType::Other(text).shown() == text,
        VariableType::Pointer(Some(text)).shown() == text,
        VariableType::<Seq<char>>::Pointer(None).shown() == "<unnamed>"@,
        VariableType::<Seq<char>>::Namespace.shown() == "<namespace>"@,
        VariableType::<Seq<char>>::Unknown.shown() == "<unknown>"@,
        (VariableType::Array { count, entry_type: of }).shown() == "["@ + of.shown() + "; "@
            + decimal(count as nat) + "]"@,
        VariableType::Struct("PhantomData"@ + text).phantom_data(),
        VariableType::Struct(text).phantom_data() ==> "PhantomData"@.is_prefix_of(text),
        !VariableType::Base(text).phantom_data(),
{
    let whole = "PhantomData"@ + text;
    assert(whole.subrange(0, "PhantomData"@.len() as int) =~= "PhantomData"@);
}

/// A new variable has no key, no parent, no place, no size and no value, and is no variant.
pub proof fn law_new_variable(header: Option<usize>, offset: Option<usize>)
    ensures
        ({
            let variable = VariableView::fresh(header, offset);
            &&& variable.variable_key == 0
            &&& variable.parent_key is None
            &&& variable.name is Unknown
            &&& variable.value is Empty
            &&& variable.source_location is None
            &&& variable.variable_type is Unknown
            &&& variable.unit_header_offset == header
            &&& variable.variable_unit_offset == offset
            &&& variable.variable_node_type == VariableNodeType::RecurseToBaseType
            &&& variable.memory_location is Unknown
            &&& variable.byte_size == 0
            &&& variable.member_index is None
            &&& variable.range_lower_bound == 0
            &&& variable.range_upper_bound == 0
            &&& variable.role == VariantRole::NonVariant
        }),
{
}

impl UnitInfo {
    /// Whether the entry `node` gives a range from `lower` to `upper`: the attributes for that say
    /// so, and there is none for a bound that is zero; its type, if it gives one, is a base type.
    pub open spec fn gives_range(self, node: int, lower: i64, upper: i64) -> bool {
        let attributes = self.entries@[node].attributes@;
        &&& lower >= 0 && upper >= 0
        &&& !(self.entries@[node].attribute(DW_AT_ABSTRACT_ORIGIN) matches Ok(Some(_)))
        &&& forall|i: int|
            #![trigger attributes[i]]
            0 <= i < attributes.len() ==> {
                let attribute = attributes[i];
                &&& attribute.name == DW_AT_LOWER_BOUND ==> attribute.udata == Some(lower as u64)
                &&& attribute.name == DW_AT_UPPER_BOUND || attribute.name == DW_AT_COUNT
                    ==> attribute.udata == Some(upper as u64)
                &&& attribute.name == DW_AT_TYPE ==> (
                attribute.value matches AttributeValue::UnitRef(offset) ==> (self.entry_at(
                    offset,
                ) matches Some(type_node) ==> self.entries@[type_node].tag == DW_TAG_BASE_TYPE))
                &&& attribute.name != DW_AT_DISCR
            }
    }

    /// Whether an attribute of the entry `node`, from the `from`-th on, gives the lower bound.
    pub open spec fn has_lower(self, node: int, from: int) -> bool {
        exists|i: int|
            from <= i < self.entries@[node].attributes@.len() && (
            #[trigger] self.entries@[node].attributes@[i]).name == DW_AT_LOWER_BOUND
    }

    /// Whether an attribute of the entry `node`, from the `from`-th on, gives the upper bound.
    pub open spec fn has_upper(self, node: int, from: int) -> bool {
        exists|i: int|
            from <= i < self.entries@[node].attributes@.len() && {
                let name = (#[trigger] self.entries@[node].attributes@[i]).name;
                name == DW_AT_UPPER_BOUND || name == DW_AT_COUNT
            }
    }

    /// The attributes for the bounds give them.
    proof fn lemma_bounds(
        self,
        node: int,
        from: int,
        parent: VariableView,
        variable: VariableView,
        target: Target,
        cache: CacheView,
        fuel: nat,
        lower: i64,
        upper: i64,
    )
        requires
            0 <= from,
            self.gives_range(node, lower, upper),
        ensures
            self.attributes_from(
                node,
                node,
                from,
                parent,
                variable,
                target,
                cache,
                fuel,
            ).2 matches Ok(made) ==> {
                &&& variable.range_lower_bound == lower || self.has_lower(node, from)
                    ==> made.range_lower_bound == lower
                &&& variable.range_upper_bound == upper || self.has_upper(node, from)
                    ==> made.range_upper_bound == upper
            },
        decreases self.entries@[node].attributes@.len() - from,
    {
        let attributes = self.entries@[node].attributes@;
        if from < attributes.len() {
            let attribute = attributes[from];
            let outcome = self.attribute_applied(
                node,
                attribute,
                parent,
                variable,
                target,
                cache,
                fuel,
            );
            if let Ok(updated) = outcome.2 {
                self.lemma_bound(node, from, parent, variable, target, cache, fuel, lower, upper);
                self.lemma_bounds(
                    node,
                    from + 1,
                    outcome.1,
                    updated,
                    target,
                    outcome.0,
                    fuel,
                    lower,
                    upper,
                );
                if self.has_lower(node, from) && attribute.name != DW_AT_LOWER_BOUND {
                    let i = choose|i: int|
                        from <= i < attributes.len() && (
                        #[trigger] self.entries@[node].attributes@[i]).name == DW_AT_LOWER_BOUND;
                    assert(i > from);
                    assert(self.has_lower(node, from + 1));
                }
                if self.has_upper(node, from) && attribute.name != DW_AT_UPPER_BOUND
                    && attribute.name != DW_AT_COUNT {
                    let i = choose|i: int|
                        from <= i < attributes.len() && {
                            let name = (#[trigger] self.entries@[node].attributes@[i]).name;
                            name == DW_AT_UPPER_BOUND || name == DW_AT_COUNT
                        };
                    assert(i > from);
                    assert(self.has_upper(node, from + 1));
                }
            }
        }
    }

    /// An attribute changes no bound but the one that it gives.
    proof fn lemma_bound(
        self,
        node: int,
        at: int,
        parent: VariableView,
        variable: VariableView,
        target: Target,
        cache: CacheView,
        fuel: nat,
        lower: i64,
        upper: i64,
    )
        requires
            0 <= at < self.entries@[node].attributes@.len(),
            self.gives_range(node, lower, upper),
        ensures
            self.attribute_applied(
                node,
                self.entries@[node].attributes@[at],
                parent,
                variable,
                target,
                cache,
                fuel,
            ).2 matches Ok(updated) ==> {
                let name = self.entries@[node].attributes@[at].name;
                &&& updated.range_lower_bound == (if name == DW_AT_LOWER_BOUND {
                    lower
                } else {
                    variable.range_lower_bound
                })
                &&& updated.range_upper_bound == (if name == DW_AT_UPPER_BOUND || name
                    == DW_AT_COUNT {
                    upper
                } else {
                    variable.range_upper_bound
                })
            },
    {
        let attribute = self.entries@[node].attributes@[at];
        assert((lower as u64) as i64 == lower);
        assert((upper as u64) as i64 == upper);
        if attribute.name == DW_AT_TYPE {
            if let AttributeValue::UnitRef(offset) = attribute.value {
                if let Some(type_node) = self.entry_at(offset) {
                    let typed = self.type_extracted(
                        type_node,
                        parent,
                        variable,
                        target,
                        cache,
                        fuel,
                    );
                    assert(typed.1 matches Ok(typed) ==> typed.range_lower_bound
                        == variable.range_lower_bound && typed.range_upper_bound
                        == variable.range_upper_bound);
                }
            }
        }
    }

    /// A range has the bounds that its entry gives: the lower one by its own attribute, and the
    /// upper one by that for it or by a count; and each is zero where it gives none.
    pub proof fn law_range_bounds(
        self,
        node: int,
        parent: VariableView,
        target: Target,
        cache: CacheView,
        fuel: nat,
        made: VariableView,
        lower: i64,
        upper: i64,
    )
        requires
            self.makes(node, parent, target, cache, fuel, made),
            self.gives_range(node, lower, upper),
        ensures
            lower == 0 || self.has_lower(node, 0) ==> made.range_lower_bound == lower,
            upper == 0 || self.has_upper(node, 0) ==> made.range_upper_bound == upper,
    {
        let rest = (fuel - 1) as nat;
        let fresh = VariableView::fresh(self.header_offset, Some(self.entries@[node].offset));
        let (base, new) = cache.stored(Some(parent.variable_key), fresh, target);
        let variable = Variable { parent_key: Some(parent.variable_key), ..new->Ok_0 };
        assert(self.origin_of(node, variable) == Ok::<_, DebugErrorView>((Some(node), variable)));
        let named = self.named_by(Some(node), variable)->Ok_0;
        let attributes = self.entries@[node].attributes@;
        law_location_changes_place_or_value(named, parent, attributes, 0, self.encoding, target);
        let (after, located) = self.location_extracted(node, parent, named, target, base);
        let placed = located->Ok_0;
        assert(placed.range_lower_bound == 0 && placed.range_upper_bound == 0);
        self.lemma_bounds(node, 0, parent, placed, target, after, rest, lower, upper);
    }

    /// An array whose entry has a single child, the range of its elements, has the bounds of that
    /// range.
    pub proof fn law_array_range(
        self,
        node: int,
        child: int,
        array: VariableView,
        target: Target,
        cache: CacheView,
        fuel: nat,
        made: VariableView,
        lower: i64,
        upper: i64,
    )
        requires
            fuel > 0,
            self.entries@[node].children@.len() == 1,
            self.entry_at(self.entries@[node].children@[0]) == Some(child),
            self.entries@[child].tag == DW_TAG_SUBRANGE_TYPE,
            self.makes(child, array, target, cache, (fuel - 1) as nat, made),
            self.gives_range(child, lower, upper),
            lower == 0 || self.has_lower(child, 0),
            upper == 0 || self.has_upper(child, 0),
            array.valid(),
            made.valid(),
        ensures
            self.tree_processed(node, array, target, cache, fuel).1 matches Ok(updated)
                ==> updated.range_lower_bound == lower && updated.range_upper_bound == upper,
    {
        let rest = (fuel - 1) as nat;
        self.law_range_bounds(child, array, target, cache, rest, made, lower, upper);
        if self.tree_processed(node, array, target, cache, fuel).1 is Ok {
            let counter = target.registers.program_counter->0.number() as u64;
            let (after, processed) = self.child_processed(
                child,
                array,
                counter,
                target,
                cache,
                rest,
            );
            assert((after, processed) == self.subrange_processed(
                child,
                array,
                target,
                cache,
                rest,
            ));
            let updated = processed->Ok_0;
            assert(updated.range_lower_bound == lower && updated.range_upper_bound == upper);
            assert(self.children_from(node, 1, updated, counter, target, after, rest).1 matches Ok(
                last,
            ) ==> last == updated);
        }
    }

    /// A pointer that does not say what it points to is an error, and is otherwise as any pointer.
    pub proof fn law_pointer_without_target(
        self,
        node: int,
        parent: VariableView,
        variable: VariableView,
        target: Target,
        cache: CacheView,
        fuel: nat,
    )
        requires
            fuel > 0,
            self.entries@[node].tag == DW_TAG_POINTER_TYPE,
            self.entries@[node].attribute(DW_AT_NAME) is Ok,
            !(self.entries@[node].attribute(DW_AT_TYPE) matches Ok(Some(attribute))
                && attribute.value is UnitRef),
            variable.valid(),
        ensures
            ({
                let outcome = self.type_extracted(node, parent, variable, target, cache, fuel);
                outcome.1 matches Ok(typed) ==> {
                    &&& typed.value is Error
                    &&& outcome == cache.stored(
                        Some(parent.variable_key),
                        Variable {
                            variable_type: VariableType::Pointer(
                                type_text(self.entries@[node]),
                            ),
                            byte_size: self.entries@[node].size_in_bytes(),
                            variable_node_type: node_type_for(
                                variable.variable_node_type,
                                variable.variable_type,
                            ),
                            value: typed.value,
                            ..variable
                        },
                        target,
                    )
                }
            }),
    {
    }

    /// Nothing is resolved below a variable that has an error, and nothing without the program
    /// counter; and a variable below whose entry nothing stands is left as it is.
    pub proof fn law_nothing_below(
        self,
        node: int,
        variable: VariableView,
        target: Target,
        cache: CacheView,
        fuel: nat,
    )
        requires
            fuel > 0,
        ensures
            ({
                let outcome = self.tree_processed(node, variable, target, cache, fuel);
                let left = cache.stored(variable.parent_key, variable, target);
                &&& !variable.valid() ==> outcome == left
                &&& variable.valid() && target.registers.program_counter is None ==> outcome.0
                    == cache && outcome.1 is Err
                &&& self.entries@[node].children@.len() == 0 && self.entries@[node].children_error
                    is None ==> outcome == left || (variable.valid() && outcome.1 is Err)
                &&& self.entries@[node].children@.len() == 0 && self.entries@[node].children_error
                    is None && target.registers.program_counter is Some
                    && target.registers.program_counter->0.number() <= u64::MAX ==> outcome == left
            }),
    {
    }

    /// A variable, a member or an enumerator is what its attributes make of it, and all that is
    /// below its entry is resolved as parts of it; unless it has an error, or is not kept.
    pub proof fn law_member_below(
        self,
        child: int,
        parent: VariableView,
        target: Target,
        cache: CacheView,
        fuel: nat,
        made: VariableView,
    )
        requires
            self.makes(child, parent, target, cache, fuel, made),
            !(made.variable_type is Struct),
            !(made.name is Artifical),
        ensures
            ({
                let outcome = self.member_processed(child, parent, target, cache, fuel);
                let resolved = self.attributes_processed(
                    child,
                    parent,
                    cache.stored(
                        Some(parent.variable_key),
                        VariableView::fresh(self.header_offset, Some(self.entries@[child].offset)),
                        target,
                    ).1->Ok_0,
                    target,
                    cache.stored(
                        Some(parent.variable_key),
                        VariableView::fresh(self.header_offset, Some(self.entries@[child].offset)),
                        target,
                    ).0,
                    fuel,
                ).0;
                outcome.0 == (if made.valid() {
                    self.tree_processed(child, made, target, resolved, fuel).0
                } else {
                    resolved
                })
            }),
    {
    }

    /// A new variable for a namespace has the name of the namespace, and neither a type nor a
    /// place.
    pub proof fn law_new_namespace(self, node: int, name: VariableName<Seq<char>>)
        ensures
            self.namespace_of(node, name) == (Variable {
                name,
                variable_type: VariableType::Namespace,
                memory_location: VariableLocation::Unavailable,
                ..VariableView::fresh(self.header_offset, Some(self.entries@[node].offset))
            }),
    {
    }

    /// An enumeration is resolved as all that is below the entry of its type, under the name of the
    /// type; and gets its value where neither it nor its parent has an error.
    pub proof fn law_enumeration_type(
        self,
        node: int,
        parent: VariableView,
        variable: VariableView,
        target: Target,
        cache: CacheView,
        fuel: nat,
    )
        requires
            fuel > 0,
            self.entries@[node].tag == DW_TAG_ENUMERATION_TYPE,
            self.entries@[node].attribute(DW_AT_NAME) is Ok,
            variable.valid(),
        ensures
            ({
                let outcome = self.type_extracted(node, parent, variable, target, cache, fuel);
                let below = self.tree_processed(
                    node,
                    Variable {
                        variable_type: VariableType::Enum(type_name_of(self.entries@[node])),
                        byte_size: self.entries@[node].size_in_bytes(),
                        variable_node_type: node_type_for(
                            variable.variable_node_type,
                            variable.variable_type,
                        ),
                        ..variable
                    },
                    target,
                    cache,
                    (fuel - 1) as nat,
                );
                match below.1 {
                    Err(_) => outcome == below,
                    Ok(updated) => if parent.valid() && updated.valid() {
                        let valued = enumeration_valued(updated, target, below.0);
                        match valued.1 {
                            Err(_) => outcome == valued,
                            Ok(last) => outcome == valued.0.stored(
                                Some(parent.variable_key),
                                last,
                                target,
                            ),
                        }
                    } else {
                        outcome == below.0.stored(Some(parent.variable_key), updated, target)
                    },
                }
            }),
    {
    }

    /// The type of a routine is called what the type that it returns is called; one that returns
    /// nothing has a value that says so.
    pub proof fn law_routine_type(
        self,
        node: int,
        parent: VariableView,
        variable: VariableView,
        target: Target,
        cache: CacheView,
        fuel: nat,
        offset: usize,
        returned: int,
    )
        requires
            fuel > 0,
            self.entries@[node].tag == DW_TAG_SUBROUTINE_TYPE,
            self.entries@[node].attribute(DW_AT_NAME) is Ok,
            variable.valid(),
        ensures
            ({
                let outcome = self.type_extracted(node, parent, variable, target, cache, fuel);
                let sized = Variable {
                    byte_size: self.entries@[node].size_in_bytes(),
                    variable_node_type: node_type_for(
                        variable.variable_node_type,
                        variable.variable_type,
                    ),
                    ..variable
                };
                let parent_key = Some(parent.variable_key);
                &&& self.entries@[node].attribute(DW_AT_TYPE) matches Ok(None) ==> outcome
                    == cache.stored(
                    parent_key,
                    Variable {
                        variable_type: VariableType::Unknown,
                        value: VariableValue::Valid("<No Return Value>"@),
                        ..sized
                    },
                    target,
                )
                &&& self.entries@[node].attribute(DW_AT_TYPE) matches Ok(Some(reference)) ==> (
                reference.value == AttributeValue::UnitRef(offset) && self.entry_at(offset)
                    == Some(returned) ==> match self.entries@[returned].attribute(DW_AT_NAME) {
                    Ok(Some(name)) => outcome == cache.stored(
                        parent_key,
                        Variable { variable_type: VariableType::Other(name.text@), ..sized },
                        target,
                    ),
                    Ok(None) => outcome == cache.stored(
                        parent_key,
                        Variable { variable_type: VariableType::Unknown, ..sized },
                        target,
                    ),
                    Err(_) => true,
                })
            }),
    {
    }

    /// A type that is not supported makes an error of the variable, whose parts are removed.
    pub proof fn law_unsupported_type(
        self,
        node: int,
        parent: VariableView,
        variable: VariableView,
        target: Target,
        cache: CacheView,
        fuel: nat,
    )
        requires
            fuel > 0,
            self.entries@[node].tag != DW_TAG_BASE_TYPE,
            self.entries@[node].tag != DW_TAG_POINTER_TYPE,
            self.entries@[node].tag != DW_TAG_STRUCTURE_TYPE,
            self.entries@[node].tag != DW_TAG_ENUMERATION_TYPE,
            self.entries@[node].tag != DW_TAG_ARRAY_TYPE,
            self.entries@[node].tag != DW_TAG_UNION_TYPE,
            self.entries@[node].tag != DW_TAG_SUBROUTINE_TYPE,
            self.entries@[node].tag != DW_TAG_COMPILE_UNIT,
            self.entries@[node].attribute(DW_AT_NAME) is Ok,
            variable.valid(),
        ensures
            ({
                let outcome = self.type_extracted(node, parent, variable, target, cache, fuel);
                &&& outcome.1 matches Ok(typed) ==> !typed.valid() && typed.variable_type
                    == VariableType::<Seq<char>>::Other("unimplemented"@)
                &&& exists|failed: VariableView|
                    !failed.valid() && failed.variable_key == variable.variable_key && outcome
                        == #[trigger] cache.cleared(variable.variable_key).stored(
                        Some(parent.variable_key),
                        failed,
                        target,
                    )
            }),
    {
        let sized = Variable {
            variable_node_type: node_type_for(variable.variable_node_type, variable.variable_type),
            byte_size: self.entries@[node].size_in_bytes(),
            ..variable
        };
        let (_, failed) = self.typed(
            node,
            parent,
            sized,
            type_text(self.entries@[node]),
            target,
            cache,
            (fuel - 1) as nat,
        );
        assert(!failed->Ok_0.valid());
        assert(self.type_extracted(node, parent, variable, target, cache, fuel) == cache.cleared(
            variable.variable_key,
        ).stored(Some(parent.variable_key), failed->Ok_0, target));
    }
}

} // verus!
