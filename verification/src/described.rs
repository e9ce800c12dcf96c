//! What the entry of a variable makes of it as a whole.
use vstd::prelude::*;

#[allow(unused_imports)]
use crate::cache::CacheView;
#[allow(unused_imports)]
use crate::dwarf::{
    Attribute, AttributeValue, Encoding, UnitInfo, DW_AT_ABSTRACT_ORIGIN, DW_AT_ARTIFICIAL,
    DW_AT_CONST_VALUE, DW_AT_DATA_MEMBER_LOCATION, DW_AT_DISCR, DW_AT_ENUM_CLASS, DW_AT_FRAME_BASE,
    DW_AT_LOCATION, DW_AT_NAME, DW_AT_TYPE, DW_TAG_BASE_TYPE, DW_TAG_POINTER_TYPE,
};
#[allow(unused_imports)]
use crate::effects::{has_none, law_attribute, law_no_place, type_name_of, type_text};
#[allow(unused_imports)]
use crate::error::DebugErrorView;
#[allow(unused_imports)]
use crate::evaluation::{expression_pieces, PieceLocation};
#[allow(unused_imports)]
use crate::frame::{lemma_key_positive, lemma_outset, lemma_store, Frame};
#[allow(unused_imports)]
use crate::kept::lemma_stored_new;
#[allow(unused_imports)]
use crate::laws::law_location_changes_place_or_value;
#[allow(unused_imports)]
use crate::location::{located_by, located_from};
#[allow(unused_imports)]
use crate::target::Target;
#[allow(unused_imports)]
use crate::variable::{Variable, VariableLocation, VariableName, VariableType, VariableView};

verus! {

/// Whether attributes with the name `name` say where a variable is kept.
pub open spec fn says_place(name: u16) -> bool {
    name == DW_AT_LOCATION || name == DW_AT_DATA_MEMBER_LOCATION || name == DW_AT_FRAME_BASE
}

/// Whether `attribute`, which says where a part of `parent` is kept, says that it is at `place`: as
/// far behind the parent as it says, or where the expression that it holds evaluates to a single
/// piece in memory or in a register.
pub open spec fn puts_at(
    attribute: Attribute,
    parent: VariableView,
    encoding: Encoding,
    target: Target,
    place: VariableLocation<Seq<char>>,
) -> bool {
    match attribute.value {
        AttributeValue::Udata(offset) => match parent.memory_location {
            VariableLocation::Address(address) => address + offset <= u64::MAX && place
                == VariableLocation::<Seq<char>>::Address((address + offset) as u64),
            _ => place == VariableLocation::<Seq<char>>::Unavailable,
        },
        AttributeValue::Exprloc(expression) => {
            &&& expression_pieces(expression@, encoding, target) matches Ok(pieces)
            &&& pieces.len() == 1
            &&& match pieces[0] {
                PieceLocation::Address(address) => address != 0xffff_ffff && place
                    == VariableLocation::<Seq<char>>::Address(address),
                PieceLocation::Register(register) => place == VariableLocation::<
                    Seq<char>,
                >::Register(register as usize),
                _ => false,
            }
        },
        _ => false,
    }
}

/// Where a single attribute says where a variable is kept, it is kept there.
proof fn lemma_single_place(
    variable: VariableView,
    parent: VariableView,
    attributes: Seq<Attribute>,
    from: int,
    at: int,
    encoding: Encoding,
    target: Target,
    place: VariableLocation<Seq<char>>,
)
    requires
        0 <= from,
        0 <= at < attributes.len(),
        says_place(attributes[at].name),
        puts_at(attributes[at], parent, encoding, target, place),
        forall|i: int|
            0 <= i < attributes.len() && i != at ==> !says_place((#[trigger] attributes[i]).name),
        at < from ==> variable.memory_location == place,
    ensures
        located_from(variable, parent, attributes, from, encoding, target).1 is Ok,
        at < attributes.len() ==> located_from(
            variable,
            parent,
            attributes,
            from,
            encoding,
            target,
        ).0.memory_location == place,
    decreases attributes.len() - from,
{
    if from < attributes.len() {
        let (updated, result) = located_by(variable, parent, attributes[from], encoding, target);
        if from != at {
            assert(!says_place(attributes[from].name));
            law_no_place(variable, parent, attributes[from], encoding, target);
        }
        assert(result is Ok);
        assert(from == at ==> updated.memory_location == place);
        lemma_single_place(updated, parent, attributes, from + 1, at, encoding, target, place);
    }
}

impl UnitInfo {
    /// Attributes that neither give a type nor a discriminant leave the cache and the parent as
    /// they are, and change nothing of the variable but its name, its value, where it is declared,
    /// and its bounds; and its name only where they are its name, or say that it is artificial.
    proof fn lemma_untyped(
        self,
        node: int,
        origin: int,
        from: int,
        to: int,
        parent: VariableView,
        variable: VariableView,
        target: Target,
        cache: CacheView,
        fuel: nat,
        name: VariableName<Seq<char>>,
    ) -> (r: VariableView)
        requires
            0 <= from <= to <= self.entries@[origin].attributes@.len(),
            forall|i: int|
                from <= i < to ==> (#[trigger] self.entries@[origin].attributes@[i]).name
                    != DW_AT_TYPE && self.entries@[origin].attributes@[i].name != DW_AT_DISCR,
        ensures
            self.attributes_from(node, origin, from, parent, variable, target, cache, fuel)
                == self.attributes_from(node, origin, to, parent, r, target, cache, fuel),
            r == (Variable {
                name: r.name,
                value: r.value,
                source_location: r.source_location,
                range_lower_bound: r.range_lower_bound,
                range_upper_bound: r.range_upper_bound,
                ..variable
            }),
            variable.name == name && self.only_named(origin, name) ==> r.name == name,
            !variable.valid() && self.gives_no_value(origin) ==> !r.valid(),
        decreases to - from,
    {
        if from < to {
            let attribute = self.entries@[origin].attributes@[from];
            let updated = self.described_by(node, attribute, variable);
            assert(self.attribute_applied(
                node,
                attribute,
                parent,
                variable,
                target,
                cache,
                fuel,
            ) == (cache, parent, Ok::<VariableView, DebugErrorView>(updated)));
            self.lemma_untyped(
                node,
                origin,
                from + 1,
                to,
                parent,
                updated,
                target,
                cache,
                fuel,
                name,
            )
        } else {
            variable
        }
    }

    /// Whether no attribute of the entry `node` gives the value of the variable.
    pub open spec fn gives_no_value(self, node: int) -> bool {
        forall|i: int|
            #![trigger self.entries@[node].attributes@[i]]
            0 <= i < self.entries@[node].attributes@.len() ==> {
                let name = self.entries@[node].attributes@[i].name;
                name != DW_AT_CONST_VALUE && name != DW_AT_ENUM_CLASS
            }
    }

    /// Whether no attribute of the entry `node` gives the variable another name than `name`.
    pub open spec fn only_named(self, node: int, name: VariableName<Seq<char>>) -> bool {
        forall|i: int|
            #![trigger self.entries@[node].attributes@[i]]
            0 <= i < self.entries@[node].attributes@.len() ==> {
                let attribute = self.entries@[node].attributes@[i];
                &&& attribute.name != DW_AT_ARTIFICIAL
                &&& attribute.name == DW_AT_NAME ==> name == VariableName::<Seq<char>>::Named(
                    attribute.text@,
                )
            }
    }

    /// Whether the entry `node` describes a variable, and refers to the entry `origin` for all but
    /// its place, or is that entry: its `place`-th attribute and no other says where the variable
    /// is kept, and the `of`-th attribute of the origin and no other gives the type, which the
    /// entry `type_node` describes.
    pub open spec fn describes_variable(
        self,
        node: int,
        origin: int,
        place: int,
        of: int,
        type_node: int,
    ) -> bool {
        let own = self.entries@[node].attributes@;
        let attributes = self.entries@[origin].attributes@;
        &&& match self.entries@[node].attribute(DW_AT_ABSTRACT_ORIGIN) {
            Ok(None) => origin == node,
            Ok(Some(attribute)) => attribute.value matches AttributeValue::UnitRef(offset)
                && self.entry_at(offset) == Some(origin),
            Err(_) => false,
        }
        &&& 0 <= place < own.len() && says_place(own[place].name)
        &&& forall|i: int|
            #![trigger own[i]]
            0 <= i < own.len() && says_place(own[i].name) ==> i == place
        &&& 0 <= of < attributes.len() && attributes[of].name == DW_AT_TYPE
        &&& attributes[of].value matches AttributeValue::UnitRef(offset) && self.entry_at(offset)
            == Some(type_node)
        &&& forall|i: int|
            #![trigger attributes[i]]
            0 <= i < attributes.len() ==> attributes[i].name != DW_AT_DISCR && (attributes[i].name
                == DW_AT_TYPE ==> i == of)
    }

    /// Whether `variable` has the size of the type that the entry `type_node` describes, and that
    /// type where it is a base type or a pointer; if the name of the type can be read.
    pub open spec fn has_type(self, variable: VariableView, type_node: int) -> bool {
        let entry = self.entries@[type_node];
        entry.attribute(DW_AT_NAME) is Ok ==> {
            &&& variable.byte_size == entry.size_in_bytes()
            &&& entry.tag == DW_TAG_BASE_TYPE ==> variable.variable_type == VariableType::<
                Seq<char>,
            >::Base(type_name_of(entry))
            &&& entry.tag == DW_TAG_POINTER_TYPE ==> variable.variable_type == VariableType::<
                Seq<char>,
            >::Pointer(type_text(entry))
        }
    }

    /// A variable gets its type.
    proof fn lemma_given_type(
        self,
        type_node: int,
        parent: VariableView,
        variable: VariableView,
        target: Target,
        cache: CacheView,
        fuel: nat,
    )
        requires
            cache.wf(),
            cache.has(variable.variable_key),
            variable.member_index is None,
        ensures
            self.type_extracted(type_node, parent, variable, target, cache, fuel).1 matches Ok(
                typed,
            ) ==> typed.memory_location == variable.memory_location && typed.name == variable.name
                && typed.variable_key == variable.variable_key && typed.parent_key == Some(
                parent.variable_key,
            ) && (if variable.valid() {
                self.has_type(typed, type_node)
            } else {
                !typed.valid()
            }),
    {
        let frame = Frame {
            base: cache,
            key: variable.variable_key,
            parent: parent.variable_key,
            parts: true,
        };
        lemma_outset(frame);
        self.lemma_type_frame(frame, type_node, parent, variable, target, cache, fuel);
    }

    /// What the attributes of an entry make of a variable that has its place.
    proof fn lemma_described(
        self,
        node: int,
        origin: int,
        parent: VariableView,
        variable: VariableView,
        target: Target,
        cache: CacheView,
        fuel: nat,
        place_at: int,
        of: int,
        type_node: int,
        name: VariableName<Seq<char>>,
    )
        requires
            cache.wf(),
            cache.has(variable.variable_key),
            variable.member_index is None,
            variable.parent_key == Some(parent.variable_key),
            self.describes_variable(node, origin, place_at, of, type_node),
        ensures
            self.attributes_stored(
                node,
                Some(origin),
                parent,
                variable,
                target,
                cache,
                fuel,
            ).2 matches Ok(made) ==> {
                &&& made.memory_location == variable.memory_location
                &&& variable.name == name && self.only_named(origin, name) ==> made.name == name
                &&& made.valid() && self.gives_no_value(origin) ==> self.has_type(made, type_node)
            },
    {
        let attributes = self.entries@[origin].attributes@;
        let typing = self.lemma_untyped(
            node,
            origin,
            0,
            of,
            parent,
            variable,
            target,
            cache,
            fuel,
            name,
        );
        self.lemma_given_type(type_node, parent, typing, target, cache, fuel);
        let (grown, result) = self.type_extracted(type_node, parent, typing, target, cache, fuel);
        assert(self.attribute_applied(
            node,
            attributes[of],
            parent,
            typing,
            target,
            cache,
            fuel,
        ) == (grown, parent, result));
        if let Ok(typed) = result {
            let last = self.lemma_untyped(
                node,
                origin,
                of + 1,
                attributes.len() as int,
                parent,
                typed,
                target,
                grown,
                fuel,
                name,
            );
            assert(self.attributes_from(
                node,
                origin,
                0,
                parent,
                variable,
                target,
                cache,
                fuel,
            ) == (grown, parent, Ok::<VariableView, DebugErrorView>(last)));
        }
    }

    /// What the attributes of an entry make of a new variable: the variable is kept where the
    /// attribute for that puts it, has the size of its type and the name that the entry gives, or
    /// the one to which it refers; and a base type and a pointer are its type.
    pub proof fn law_described(
        self,
        node: int,
        origin: int,
        parent: VariableView,
        target: Target,
        cache: CacheView,
        fuel: nat,
        made: VariableView,
        place_at: int,
        of: int,
        type_node: int,
        place: VariableLocation<Seq<char>>,
        name: VariableName<Seq<char>>,
    )
        requires
            self.makes(node, parent, target, cache, fuel, made),
            self.describes_variable(node, origin, place_at, of, type_node),
            puts_at(
                self.entries@[node].attributes@[place_at],
                parent,
                self.encoding,
                target,
                place,
            ),
        ensures
            made.memory_location == place,
            self.only_named(origin, name) && (name is Unknown ==> has_none(
                self.entries@[origin].attributes@,
                DW_AT_NAME,
            )) && (!(name is Unknown) ==> !has_none(
                self.entries@[origin].attributes@,
                DW_AT_NAME,
            ))
                ==> made.name == name,
            made.valid() && self.gives_no_value(origin) ==> self.has_type(made, type_node),
    {
        let key = parent.variable_key;
        let rest = (fuel - 1) as nat;
        let entry = self.entries@[node];
        let attributes = entry.attributes@;
        let fresh = self.variable_of(node);
        lemma_stored_new(cache, key, fresh, target);
        let (base, new) = cache.stored(Some(key), fresh, target);
        let variable = new->Ok_0;
        law_attribute(self.entries@[origin], DW_AT_NAME);
        let named = self.named_by(Some(origin), variable)->Ok_0;
        assert(self.origin_of(node, variable) == Ok::<_, DebugErrorView>((Some(origin), variable)));
        lemma_single_place(
            named,
            parent,
            attributes,
            0,
            place_at,
            self.encoding,
            target,
            place,
        );
        let (located, _) = located_from(named, parent, attributes, 0, self.encoding, target);
        law_location_changes_place_or_value(
            named,
            parent,
            attributes,
            0,
            self.encoding,
            target,
        );
        let (placed, stored) = base.stored(located.parent_key, located, target);
        let frame = Frame { base, key: cache.next_key, parent: key, parts: true };
        lemma_outset(frame);
        lemma_key_positive(frame);
        lemma_store(frame, base, located.parent_key, located, target);
        self.lemma_described(
            node,
            origin,
            parent,
            stored->Ok_0,
            target,
            placed,
            rest,
            place_at,
            of,
            type_node,
            name,
        );
    }

    /// Whether the entry `node` gives neither a type nor a discriminant, refers to no other entry
    /// for its description, and gives the name `name`, which is unknown where it gives none.
    pub open spec fn plainly_named(self, node: int, name: VariableName<Seq<char>>) -> bool {
        &&& self.entries@[node].attribute(DW_AT_ABSTRACT_ORIGIN) matches Ok(None)
        &&& has_none(self.entries@[node].attributes@, DW_AT_TYPE)
        &&& has_none(self.entries@[node].attributes@, DW_AT_DISCR)
        &&& self.only_named(node, name)
        &&& name is Unknown <==> has_none(self.entries@[node].attributes@, DW_AT_NAME)
    }

    /// An entry that gives neither a type nor a discriminant names the variable that it describes:
    /// by its name, or, where it has none, as unknown.
    pub proof fn law_named(
        self,
        node: int,
        parent: VariableView,
        target: Target,
        cache: CacheView,
        fuel: nat,
        made: VariableView,
        name: VariableName<Seq<char>>,
    )
        requires
            self.makes(node, parent, target, cache, fuel, made),
            self.plainly_named(node, name),
        ensures
            made.name == name,
    {
        let rest = (fuel - 1) as nat;
        let attributes = self.entries@[node].attributes@;
        let fresh = VariableView::fresh(self.header_offset, Some(self.entries@[node].offset));
        let (base, new) = cache.stored(Some(parent.variable_key), fresh, target);
        let variable = Variable { parent_key: Some(parent.variable_key), ..new->Ok_0 };
        law_attribute(self.entries@[node], DW_AT_NAME);
        assert(self.origin_of(node, variable) == Ok::<_, DebugErrorView>((Some(node), variable)));
        let named = self.named_by(Some(node), variable)->Ok_0;
        law_location_changes_place_or_value(named, parent, attributes, 0, self.encoding, target);
        let (after, located) = self.location_extracted(node, parent, named, target, base);
        let placed = located->Ok_0;
        assert(placed.name == named.name);
        assert(named.name == name);
        let last = self.lemma_untyped(
            node,
            node,
            0,
            attributes.len() as int,
            parent,
            placed,
            target,
            after,
            rest,
            name,
        );
    }

    /// Whether the entry `node` describes a variable with data of its own: it refers to no other
    /// entry for its description, does not say that the variable is artificial, and gives it no
    /// other type than base types and pointers.
    pub open spec fn has_data(self, node: int) -> bool {
        let attributes = self.entries@[node].attributes@;
        &&& self.entries@[node].attribute(DW_AT_ABSTRACT_ORIGIN) matches Ok(None)
        &&& forall|i: int|
            #![trigger attributes[i]]
            0 <= i < attributes.len() ==> {
                &&& attributes[i].name != DW_AT_ARTIFICIAL
                &&& attributes[i].name != DW_AT_DISCR
                &&& attributes[i].name == DW_AT_TYPE ==> (
                attributes[i].value matches AttributeValue::UnitRef(offset) ==> self.entry_at(
                    offset,
                ) matches Some(type_node) ==> self.entries@[type_node].tag == DW_TAG_BASE_TYPE
                    || self.entries@[type_node].tag == DW_TAG_POINTER_TYPE)
            }
    }

    /// Attributes of a variable with data of its own make neither a helper nor a structure of it.
    proof fn lemma_data(
        self,
        node: int,
        from: int,
        parent: VariableView,
        variable: VariableView,
        target: Target,
        cache: CacheView,
        fuel: nat,
    )
        requires
            0 <= from,
            self.has_data(node),
            !(variable.name is Artifical),
            !(variable.variable_type is Struct),
            variable.member_index is None,
        ensures
            self.attributes_from(
                node,
                node,
                from,
                parent,
                variable,
                target,
                cache,
                fuel,
            ).2 matches Ok(made) ==> !(made.name is Artifical) && !(made.variable_type is Struct),
        decreases self.entries@[node].attributes@.len() - from,
    {
        let attributes = self.entries@[node].attributes@;
        if from < attributes.len() {
            let attribute = attributes[from];
            let outcome = self.attribute_applied(
                node,
                attribute,
                parent,
                variable,
                target,
                cache,
                fuel,
            );
            if let Ok(updated) = outcome.2 {
                assert(!(updated.name is Artifical) && !(updated.variable_type is Struct)
                    && updated.member_index is None);
                self.lemma_data(node, from + 1, outcome.1, updated, target, outcome.0, fuel);
            }
        }
    }

    /// A variable with data of its own is never taken for one without, and so is kept.
    pub proof fn law_data_kept(self, node: int, target: Target, fuel: nat)
        requires
            self.has_data(node),
        ensures
            !self.holds_no_data(node, target, fuel),
    {
        if self.holds_no_data(node, target, fuel) {
            let (parent, cache, made) = choose|
                parent: VariableView,
                cache: CacheView,
                made: VariableView,
            | #[trigger]
                self.makes(node, parent, target, cache, fuel, made) && (made.name is Artifical || (
                made.variable_type matches VariableType::Struct(name)
                    && "PhantomData"@.is_prefix_of(name)));
            let key = parent.variable_key;
            let entry = self.entries@[node];
            let (base, new) = cache.stored(Some(key), self.variable_of(node), target);
            let variable = new->Ok_0;
            let named = self.named_by(Some(node), variable)->Ok_0;
            law_location_changes_place_or_value(
                named,
                parent,
                entry.attributes@,
                0,
                self.encoding,
                target,
            );
            let (located, _) = located_from(
                named,
                parent,
                entry.attributes@,
                0,
                self.encoding,
                target,
            );
            let (placed, stored) = base.stored(located.parent_key, located, target);
            self.lemma_data(
                node,
                0,
                parent,
                stored->Ok_0,
                target,
                placed,
                (fuel - 1) as nat,
            );
        }
    }
}

} // verus!
