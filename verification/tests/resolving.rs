use unit_info::cache::VariableCache;
use unit_info::dwarf::{
    Attribute, AttributeValue, Encoding, Entry, Range, SourceFile, UnitInfo,
    DW_AT_ABSTRACT_ORIGIN, DW_AT_ALIGNMENT, DW_AT_ARTIFICIAL, DW_AT_BYTE_SIZE, DW_AT_CONST_VALUE,
    DW_AT_CONTAINING_TYPE, DW_AT_COUNT, DW_AT_DATA_MEMBER_LOCATION, DW_AT_DECLARATION,
    DW_AT_DECL_COLUMN, DW_AT_DECL_FILE, DW_AT_DECL_LINE, DW_AT_DISCR, DW_AT_DISCR_VALUE,
    DW_AT_ENCODING, DW_AT_ENUM_CLASS, DW_AT_EXTERNAL, DW_AT_HIGH_PC, DW_AT_LINKAGE_NAME,
    DW_AT_LOCATION, DW_AT_LOWER_BOUND, DW_AT_LOW_PC, DW_AT_NAME,
    DW_AT_RANGES, DW_AT_TYPE, DW_AT_UPPER_BOUND, DW_TAG_ARRAY_TYPE, DW_TAG_BASE_TYPE,
    DW_TAG_COMPILE_UNIT, DW_TAG_ENUMERATION_TYPE, DW_TAG_ENUMERATOR, DW_TAG_FORMAL_PARAMETER,
    DW_TAG_LEXICAL_BLOCK, DW_TAG_MEMBER, DW_TAG_NAMESPACE, DW_TAG_POINTER_TYPE,
    DW_TAG_STRUCTURE_TYPE, DW_TAG_SUBPROGRAM, DW_TAG_SUBRANGE_TYPE, DW_TAG_SUBROUTINE_TYPE,
    DW_TAG_UNION_TYPE, DW_TAG_VARIABLE, DW_TAG_VARIANT, DW_TAG_VARIANT_PART,
};
use unit_info::error::DebugError;
use unit_info::target::{DebugRegisters, KnownValue, MemoryRead, RegisterValue, Target};
use unit_info::variable::{
    Variable, VariableLocation, VariableName, VariableNodeType, VariableType, VariableValue,
    VariantRole,
};

fn raw(name: u16, value: AttributeValue) -> Attribute {
    let debug = format!("{:?}", value);
    let udata = match value {
        AttributeValue::Udata(n) => Some(n),
        AttributeValue::Data1(n) => Some(n as u64),
        _ => None,
    };
    Attribute { name, value, udata, text: debug.clone(), debug }
}

fn name(text: &str) -> Attribute {
    let mut attribute = raw(DW_AT_NAME, AttributeValue::Other);
    attribute.text = text.to_string();
    attribute
}

fn number(name: u16, n: u64) -> Attribute {
    raw(name, AttributeValue::Udata(n))
}

fn refers(name: u16, offset: usize) -> Attribute {
    raw(name, AttributeValue::UnitRef(offset))
}

fn at(address: u32) -> Attribute {
    let mut expression = vec![0x03];
    expression.extend(address.to_le_bytes());
    raw(DW_AT_LOCATION, AttributeValue::Exprloc(expression))
}

fn entry(offset: usize, tag: u16, attributes: Vec<Attribute>, children: &[usize]) -> Entry {
    Entry {
        offset,
        tag,
        has_children: !children.is_empty(),
        depth: 0,
        attributes,
        attributes_error: None,
        children: children.to_vec(),
        children_error: None,
        ranges: Ok(vec![]),
    }
}

/// A unit with the given entries, and the base types `u8` at 900 and `u32` at 904.
fn unit(mut entries: Vec<Entry>) -> UnitInfo {
    entries.push(entry(900, DW_TAG_BASE_TYPE, vec![name("u8"), number(DW_AT_BYTE_SIZE, 1)], &[]));
    entries.push(entry(904, DW_TAG_BASE_TYPE, vec![name("u32"), number(DW_AT_BYTE_SIZE, 4)], &[]));
    UnitInfo {
        header_offset: Some(0),
        encoding: Encoding { address_size: 4, is_64_bit: false, version: 4 },
        first_offset: 11,
        end_offset: 1000,
        walked: entries.len(),
        entries,
        files: vec![SourceFile {
            index: 1,
            directory: "src".to_string(),
            file: "main.rs".to_string(),
        }],
    }
}

fn target() -> Target {
    Target {
        registers: DebugRegisters {
            program_counter: Some(RegisterValue::U32(0x104)),
            frame_pointer: Some(RegisterValue::U32(0x2000)),
            registers: vec![],
        },
        memory: vec![],
        values: vec![],
    }
}

fn value(target: &mut Target, base: &str, address: u64, size: u64, value: &str) {
    target.values.push(KnownValue {
        variable_type: VariableType::Base(base.to_string()),
        memory_location: VariableLocation::Address(address),
        byte_size: size,
        value: VariableValue::Valid(value.to_string()),
    });
}

fn root(cache: &mut VariableCache, target: &Target) -> Variable {
    let mut root = Variable::new(None, None);
    root.name = VariableName::Named("root".to_string());
    cache.cache_variable(None, root, target).unwrap()
}

/// Resolves all below the first entry.
fn process(unit: &UnitInfo, target: &Target) -> (VariableCache, Result<Variable, DebugError>) {
    let mut cache = VariableCache::new();
    let root = root(&mut cache, target);
    let result = unit.process_tree(0, root, target, &mut cache);
    if let Ok(variable) = &result {
        let latest = cache.get_variable_by_key(variable.variable_key).unwrap();
        assert_eq!(format!("{:?}", latest), format!("{:?}", variable));
    }
    (cache, result)
}

/// The variables below the one with the key `key`: name, type, value and place.
fn listed(cache: &VariableCache, key: i64) -> Vec<String> {
    let mut lines = vec![];
    for child in cache.get_children(key) {
        lines.push(format!(
            "{}: {} = {} @ {}",
            child.name.display(),
            child.variable_type.display(),
            child.get_value(),
            child.memory_location.describe()
        ));
        for line in listed(cache, child.variable_key) {
            lines.push(format!("  {}", line));
        }
    }
    lines
}

fn lines(unit: &UnitInfo, target: &Target) -> Vec<String> {
    let (cache, result) = process(unit, target);
    listed(&cache, result.unwrap().variable_key)
}

fn failure(unit: &UnitInfo, target: &Target) -> DebugError {
    process(unit, target).1.unwrap_err()
}

/// A function with one variable `x` at 0x1000 of the type at `offset`.
fn with_variable(offset: usize, mut entries: Vec<Entry>) -> UnitInfo {
    let mut all = vec![
        entry(20, DW_TAG_SUBPROGRAM, vec![name("main")], &[24]),
        entry(24, DW_TAG_VARIABLE, vec![name("x"), at(0x1000), refers(DW_AT_TYPE, offset)], &[]),
    ];
    all.append(&mut entries);
    unit(all)
}

#[test]
fn a_variable_of_a_base_type() {
    let mut target = target();
    value(&mut target, "u8", 0x1000, 1, "42");
    let unit = with_variable(900, vec![]);
    assert_eq!(lines(&unit, &target), vec!["x: u8 = 42 @ Address(4096)"]);
}

#[test]
fn the_parts_of_a_structure() {
    let unit = with_variable(
        30,
        vec![
            entry(30, DW_TAG_STRUCTURE_TYPE, vec![name("Pair")], &[34, 38, 42, 46]),
            entry(
                34,
                DW_TAG_MEMBER,
                vec![name("a"), number(DW_AT_DATA_MEMBER_LOCATION, 0), refers(DW_AT_TYPE, 900)],
                &[],
            ),
            entry(
                38,
                DW_TAG_MEMBER,
                vec![name("b"), number(DW_AT_DATA_MEMBER_LOCATION, 4), refers(DW_AT_TYPE, 904)],
                &[],
            ),
            // What holds no data is not kept.
            entry(
                42,
                DW_TAG_MEMBER,
                vec![name("c"), number(DW_AT_DATA_MEMBER_LOCATION, 8), refers(DW_AT_TYPE, 50)],
                &[],
            ),
            entry(
                46,
                DW_TAG_MEMBER,
                vec![raw(DW_AT_ARTIFICIAL, AttributeValue::Flag(true)), refers(DW_AT_TYPE, 900)],
                &[],
            ),
            entry(50, DW_TAG_STRUCTURE_TYPE, vec![name("PhantomData<u8>")], &[]),
        ],
    );
    assert_eq!(
        lines(&unit, &target()),
        vec![
            "x: Pair =  @ Address(4096)",
            "  a: u8 =  @ Address(4096)",
            "  b: u32 =  @ Address(4100)",
        ]
    );
}

#[test]
fn a_structure_is_resolved_later_or_not_at_all() {
    let unit = unit(vec![entry(30, DW_TAG_STRUCTURE_TYPE, vec![name("Pair")], &[])]);
    let target = target();
    let mut cache = VariableCache::new();
    let root = root(&mut cache, &target);
    let mut extract = |place: VariableLocation, node_type: VariableNodeType| {
        let mut child = Variable::new(None, None);
        child.memory_location = place;
        child.variable_node_type = node_type;
        let child = cache.cache_variable(Some(root.variable_key), child, &target).unwrap();
        unit.extract_type(0, &root, child, &target, &mut cache).unwrap().variable_node_type
    };
    assert_eq!(
        extract(VariableLocation::Address(0), VariableNodeType::DoNotRecurse),
        VariableNodeType::TypeOffset(30)
    );
    assert_eq!(
        extract(VariableLocation::Unavailable, VariableNodeType::RecurseToBaseType),
        VariableNodeType::DoNotRecurse
    );
}

#[test]
fn some_types_are_resolved_at_once() {
    let unit = unit(vec![entry(30, DW_TAG_STRUCTURE_TYPE, vec![name("Wrapper")], &[])]);
    let target = target();
    for (given, resolved) in [("Option<u8>", true), ("&str", true), ("Okay", true), ("Pair", false)] {
        let mut cache = VariableCache::new();
        let root = root(&mut cache, &target);
        let mut child = Variable::new(None, None);
        child.memory_location = VariableLocation::Address(0);
        child.variable_type = VariableType::Struct(given.to_string());
        child.variable_node_type = VariableNodeType::DoNotRecurse;
        let child = cache.cache_variable(Some(root.variable_key), child, &target).unwrap();
        let typed = unit.extract_type(0, &root, child, &target, &mut cache).unwrap();
        let expected = if resolved {
            VariableNodeType::RecurseToBaseType
        } else {
            VariableNodeType::TypeOffset(30)
        };
        assert_eq!(typed.variable_node_type, expected);
    }
}

#[test]
fn a_pointer_is_noted_for_later() {
    let unit = with_variable(
        30,
        vec![entry(30, DW_TAG_POINTER_TYPE, vec![name("*const u8"), refers(DW_AT_TYPE, 900)], &[])],
    );
    let (cache, result) = process(&unit, &target());
    let pointer = &cache.get_children(result.unwrap().variable_key)[0];
    assert_eq!(pointer.variable_type.describe(), "Pointer(Some(\"*const u8\"))");
    assert_eq!(pointer.variable_node_type, VariableNodeType::ReferenceOffset(900));
    assert_eq!(cache.expansions(), &vec![pointer.variable_key]);
}

#[test]
fn a_pointer_to_nothing() {
    let unit = with_variable(30, vec![entry(30, DW_TAG_POINTER_TYPE, vec![], &[])]);
    assert_eq!(
        lines(&unit, &target()),
        vec!["x: <unnamed> = Error: No Attribute Value for DW_AT_type for variable Named(\"x\") @ Address(4096)"]
    );
    let odd = with_variable(
        30,
        vec![entry(30, DW_TAG_POINTER_TYPE, vec![number(DW_AT_TYPE, 1)], &[])],
    );
    assert_eq!(
        lines(&odd, &target()),
        vec!["x: <unnamed> = Unimplemented: Attribute Value for DW_AT_type Udata(1) @ Address(4096)"]
    );
    let mut broken = with_variable(30, vec![entry(30, DW_TAG_POINTER_TYPE, vec![name("p")], &[])]);
    broken.entries[2].attributes_error = Some("bad".to_string());
    assert_eq!(
        lines(&broken, &target()),
        vec!["x: p = Error: Failed to decode pointer reference: bad @ Address(4096)"]
    );
}

fn enumeration() -> UnitInfo {
    with_variable(
        30,
        vec![
            entry(30, DW_TAG_ENUMERATION_TYPE, vec![name("Color")], &[34, 38]),
            entry(34, DW_TAG_ENUMERATOR, vec![name("Red"), number(DW_AT_CONST_VALUE, 0)], &[]),
            entry(38, DW_TAG_ENUMERATOR, vec![name("Blue"), number(DW_AT_CONST_VALUE, 7)], &[]),
        ],
    )
}

#[test]
fn the_value_of_an_enumeration_is_the_name_of_an_enumerator() {
    for (byte, name) in [(0, "Red"), (7, "Blue"), (9, "<Error: Unresolved enum value>")] {
        let mut target = target();
        target.memory.push(MemoryRead { address: 0x1000, size: 1, data: Some(vec![byte]) });
        assert_eq!(
            lines(&enumeration(), &target),
            vec![format!("x: Color = Color::{} @ Address(4096)", name)]
        );
    }
}

#[test]
fn the_byte_of_an_enumeration_is_asked_for() {
    let mut target = target();
    assert!(matches!(
        failure(&enumeration(), &target),
        DebugError::NeedsMemory { address: 0x1000, size: 1 }
    ));
    target.memory.push(MemoryRead { address: 0x1000, size: 1, data: None });
    assert!(matches!(
        failure(&enumeration(), &target),
        DebugError::MemoryRead { address: 0x1000, size: 1 }
    ));
}

#[test]
fn an_enumeration_that_is_not_in_memory() {
    let mut unit = enumeration();
    unit.entries[1].attributes.remove(1);
    assert_eq!(
        lines(&unit, &target()),
        vec!["x: Color = Unsupported variable location Unknown @ Unknown"]
    );
}

fn array(bounds: Vec<Attribute>, element: usize) -> UnitInfo {
    with_variable(
        30,
        vec![
            entry(30, DW_TAG_ARRAY_TYPE, vec![refers(DW_AT_TYPE, element)], &[34]),
            entry(34, DW_TAG_SUBRANGE_TYPE, bounds, &[]),
        ],
    )
}

#[test]
fn the_elements_of_an_array() {
    let unit = array(vec![number(DW_AT_LOWER_BOUND, 0), number(DW_AT_COUNT, 3)], 904);
    assert_eq!(
        lines(&unit, &target()),
        vec![
            "x: [u32; 3] =  @ Address(4096)",
            "  __0: u32 =  @ Address(4096)",
            "  __1: u32 =  @ Address(4100)",
            "  __2: u32 =  @ Address(4104)",
        ]
    );
}

#[test]
fn an_array_with_a_negative_bound() {
    let unit = array(vec![number(DW_AT_UPPER_BOUND, u64::MAX)], 904);
    assert_eq!(
        lines(&unit, &target()),
        vec!["x: <unknown> = Unimplemented: Array has a sub-range of 0..-1 for  @ Address(4096)"]
    );
}

#[test]
fn an_array_of_nothing() {
    let bounds = || vec![number(DW_AT_COUNT, 2)];
    assert_eq!(lines(&array(bounds(), 500), &target()), vec!["x: <unknown> =  @ Address(4096)"]);
    assert!(matches!(failure(&array(bounds(), 5000), &target()), DebugError::NoEntry(5000)));
    assert!(matches!(failure(&array(bounds(), 1000), &target()), DebugError::NoEntry(1000)));
}

#[test]
fn an_element_beyond_the_largest_address() {
    let unit = unit(vec![]);
    let target = target();
    let extract = |address: u64, index: i64, node: usize| {
        let mut cache = VariableCache::new();
        let mut parent = root(&mut cache, &target);
        parent.memory_location = VariableLocation::Address(address);
        let mut child = Variable::new(None, None);
        child.member_index = Some(index);
        let child = cache.cache_variable(Some(parent.variable_key), child, &target).unwrap();
        unit.extract_type(node, &parent, child, &target, &mut cache)
    };
    let place = extract(0x10, 3, 1).unwrap().memory_location;
    assert!(matches!(place, VariableLocation::Address(0x1c)));
    match extract(u64::MAX - 3, 1, 1).unwrap_err() {
        DebugError::Other(text) => assert_eq!(text, "Overflow calculating variable address"),
        error => panic!("{:?}", error),
    }
    assert!(matches!(extract(0, -1, 1).unwrap_err(), DebugError::AddressOverflow));
}

#[test]
fn an_element_of_something_that_is_not_in_memory() {
    let unit = unit(vec![]);
    let target = target();
    let mut cache = VariableCache::new();
    let parent = root(&mut cache, &target);
    let mut child = Variable::new(None, None);
    child.member_index = Some(0);
    let child = cache.cache_variable(Some(parent.variable_key), child, &target).unwrap();
    let typed = unit.extract_type(0, &parent, child, &target, &mut cache).unwrap();
    assert!(matches!(typed.memory_location, VariableLocation::Unavailable));
}

#[test]
fn a_union_shows_all_its_arms() {
    let unit = with_variable(
        30,
        vec![
            entry(30, DW_TAG_UNION_TYPE, vec![name("Either")], &[34, 38]),
            entry(34, DW_TAG_MEMBER, vec![name("a"), number(DW_AT_DATA_MEMBER_LOCATION, 0), refers(DW_AT_TYPE, 900)], &[]),
            entry(38, DW_TAG_MEMBER, vec![name("b"), number(DW_AT_DATA_MEMBER_LOCATION, 0), refers(DW_AT_TYPE, 904)], &[]),
        ],
    );
    assert_eq!(
        lines(&unit, &target()),
        vec![
            "x: <unknown> =  @ Address(4096)",
            "  a: u8 =  @ Address(4096)",
            "  b: u32 =  @ Address(4096)",
        ]
    );
    let empty = with_variable(30, vec![entry(30, DW_TAG_UNION_TYPE, vec![name("None")], &[])]);
    assert_eq!(lines(&empty, &target()), vec!["x: <unknown> = Unknown @ Address(4096)"]);
}

#[test]
fn the_type_of_a_routine_is_what_it_returns() {
    let returns = |attributes: Vec<Attribute>| {
        with_variable(30, vec![entry(30, DW_TAG_SUBROUTINE_TYPE, attributes, &[])])
    };
    assert_eq!(
        lines(&returns(vec![refers(DW_AT_TYPE, 904)]), &target()),
        vec!["x: u32 =  @ Address(4096)"]
    );
    assert_eq!(
        lines(&returns(vec![]), &target()),
        vec!["x: <unknown> = <No Return Value> @ Address(4096)"]
    );
    assert_eq!(
        lines(&returns(vec![number(DW_AT_TYPE, 3)]), &target()),
        vec!["x: <unknown> = Unimplemented: Attribute Value for DW_AT_type Udata(3) @ Address(4096)"]
    );
    assert!(matches!(
        failure(&returns(vec![refers(DW_AT_TYPE, 905)]), &target()),
        DebugError::NoEntry(905)
    ));
}

#[test]
fn a_type_that_is_not_known() {
    let unit = with_variable(30, vec![entry(30, 0x16, vec![], &[])]);
    assert_eq!(
        lines(&unit, &target()),
        vec!["x: unimplemented = <unimplemented: type : Some(\"DW_TAG_typedef\")> @ Address(4096)"]
    );
    let unit = with_variable(30, vec![entry(30, 0x7fff, vec![], &[])]);
    assert_eq!(
        lines(&unit, &target()),
        vec!["x: unimplemented = <unimplemented: type : None> @ Address(4096)"]
    );
}

#[test]
fn a_type_whose_name_cannot_be_read() {
    let mut unit = with_variable(30, vec![entry(30, DW_TAG_BASE_TYPE, vec![], &[])]);
    unit.entries[2].attributes_error = Some("bad".to_string());
    assert_eq!(
        lines(&unit, &target()),
        vec!["x: <unknown> = Error: evaluating type name: bad  @ Address(4096)"]
    );
}

/// A structure at 30 whose active variant is told by the byte at its beginning.
fn variants(part: Vec<Attribute>) -> UnitInfo {
    let member = |offset: usize, text: &str, place: u64| {
        entry(
            offset,
            DW_TAG_MEMBER,
            vec![
                name(text),
                number(DW_AT_DATA_MEMBER_LOCATION, place),
                refers(DW_AT_TYPE, 900),
            ],
            &[],
        )
    };
    let mut tag = member(44, "tag", 0);
    tag.attributes.push(raw(DW_AT_ARTIFICIAL, AttributeValue::Flag(true)));
    with_variable(
        30,
        vec![
            entry(30, DW_TAG_STRUCTURE_TYPE, vec![name("Shape")], &[40]),
            entry(40, DW_TAG_VARIANT_PART, part, &[44, 50, 60, 70]),
            tag,
            entry(
                50,
                DW_TAG_VARIANT,
                vec![raw(DW_AT_DISCR_VALUE, AttributeValue::Data1(1))],
                &[54],
            ),
            member(54, "circle", 1),
            entry(
                60,
                DW_TAG_VARIANT,
                vec![raw(DW_AT_DISCR_VALUE, AttributeValue::Data1(2))],
                &[64],
            ),
            member(64, "square", 2),
            entry(70, DW_TAG_VARIANT, vec![], &[74]),
            member(74, "other", 3),
        ],
    )
}

#[test]
fn only_the_active_variant_is_kept() {
    for (tag, line) in [
        ("1", "  circle: u8 =  @ Address(4097)"),
        ("2", "  square: u8 =  @ Address(4098)"),
        ("3", "  other: u8 =  @ Address(4099)"),
        ("many", "  other: u8 =  @ Address(4099)"),
    ] {
        let mut target = target();
        value(&mut target, "u8", 0x1000, 1, tag);
        assert_eq!(
            lines(&variants(vec![refers(DW_AT_DISCR, 44)]), &target),
            vec!["x: Shape =  @ Address(4096)", line]
        );
    }
}

#[test]
fn the_discriminant_is_asked_for() {
    match failure(&variants(vec![refers(DW_AT_DISCR, 44)]), &target()) {
        DebugError::NeedsValue { variable_type, memory_location, byte_size } => {
            assert_eq!(variable_type.display(), "u8");
            assert!(matches!(memory_location, VariableLocation::Address(0x1000)));
            assert_eq!(byte_size, 1);
        }
        error => panic!("{:?}", error),
    }
}

#[test]
fn a_discriminant_of_no_base_type_means_the_default_variant() {
    let mut unit = variants(vec![refers(DW_AT_DISCR, 44)]);
    let tag = unit.find_entry(44).unwrap();
    unit.entries[tag].attributes[2] = refers(DW_AT_TYPE, 80);
    let last = unit.entries.len();
    unit.entries.push(entry(80, DW_TAG_POINTER_TYPE, vec![refers(DW_AT_TYPE, 900)], &[]));
    unit.walked = last + 1;
    assert_eq!(
        lines(&unit, &target()),
        vec!["x: Shape =  @ Address(4096)", "  other: u8 =  @ Address(4099)"]
    );
}

#[test]
fn a_discriminant_is_read_from_a_variant() {
    let mut unit = variants(vec![]);
    let node = unit.find_entry(50).unwrap();
    let role = |unit: &UnitInfo| {
        let mut variable = Variable::new(None, None);
        unit.extract_variant_discriminant(node, &mut variable).unwrap();
        (variable.role, variable.get_value())
    };
    assert_eq!(role(&unit), (VariantRole::Variant(1), String::new()));
    unit.entries[node].attributes[0].value = AttributeValue::Flag(true);
    assert_eq!(
        role(&unit),
        (
            VariantRole::Variant(u64::MAX),
            "Unimplemented: Attribute Value for DW_AT_discr_value: Data1(1)".to_string()
        )
    );
    unit.entries[node].attributes.clear();
    assert_eq!(role(&unit), (VariantRole::Variant(u64::MAX), String::new()));
    unit.entries[node].attributes_error = Some("bad".to_string());
    assert_eq!(
        role(&unit),
        (
            VariantRole::NonVariant,
            format!(
                "Error: Retrieving DW_AT_discr_value for variable {}",
                Variable::new(None, None).describe()
            )
        )
    );
    unit.entries[node].tag = DW_TAG_MEMBER;
    assert_eq!(role(&unit), (VariantRole::NonVariant, String::new()));
}

/// A function with a block around the variable `x`.
fn block(attributes: Vec<Attribute>) -> UnitInfo {
    unit(vec![
        entry(20, DW_TAG_SUBPROGRAM, vec![], &[22]),
        entry(22, DW_TAG_LEXICAL_BLOCK, attributes, &[24]),
        entry(24, DW_TAG_VARIABLE, vec![name("x"), at(0x1000), refers(DW_AT_TYPE, 900)], &[]),
    ])
}

fn low(address: u64) -> Attribute {
    raw(DW_AT_LOW_PC, AttributeValue::Addr(address))
}

#[test]
fn a_block_in_scope() {
    let x = vec!["x: u8 =  @ Address(4096)"];
    assert_eq!(lines(&block(vec![low(0x100), number(DW_AT_HIGH_PC, 5)]), &target()), x);
    let high = raw(DW_AT_HIGH_PC, AttributeValue::Addr(0x105));
    assert_eq!(lines(&block(vec![low(0x104), high]), &target()), x);
    let ranges = raw(
        DW_AT_RANGES,
        AttributeValue::RangeListsRef(vec![
            Range { begin: 0, end: 4 },
            Range { begin: 0x104, end: 0x105 },
        ]),
    );
    assert_eq!(lines(&block(vec![ranges]), &target()), x);
}

#[test]
fn a_block_out_of_scope() {
    let out = "<lexical block no longer in scope>";
    for attributes in [
        vec![],
        vec![low(0x100), number(DW_AT_HIGH_PC, 4)],
        vec![raw(DW_AT_RANGES, AttributeValue::RangeListsRef(vec![Range { begin: 0, end: 4 }]))],
    ] {
        let (cache, result) = process(&block(attributes), &target());
        let root = result.unwrap();
        assert!(listed(&cache, root.variable_key).is_empty());
        assert_eq!(root.get_value(), out);
    }
}

#[test]
fn a_block_with_bad_bounds() {
    let bad = "Error: Processing of variables failed because of invalid/unsupported scope information. Please log a bug at 'https://github.com/probe-rs/probe-rs/issues' : <lexical block no longer in scope>";
    for attributes in [
        vec![low(0x100)],
        vec![number(DW_AT_LOW_PC, 0x100), number(DW_AT_HIGH_PC, 0)],
        vec![number(DW_AT_LOW_PC, 0x100), number(DW_AT_HIGH_PC, 0x10)],
    ] {
        assert_eq!(process(&block(attributes), &target()).1.unwrap().get_value(), bad);
    }
    let odd = block(vec![number(DW_AT_RANGES, 1)]);
    assert_eq!(
        process(&odd, &target()).1.unwrap().get_value(),
        "Found unexpected scope attribute: Udata(1) for variable Named(\"root\") : <lexical block no longer in scope>"
    );
    let beyond = block(vec![low(u64::MAX), number(DW_AT_HIGH_PC, 1)]);
    assert!(matches!(failure(&beyond, &target()), DebugError::AddressOverflow));
}

#[test]
fn the_statics_of_namespaces() {
    let unit = unit(vec![
        entry(20, DW_TAG_COMPILE_UNIT, vec![], &[22, 60]),
        entry(22, DW_TAG_NAMESPACE, vec![name("outer")], &[24, 28, 40, 44]),
        entry(24, DW_TAG_VARIABLE, vec![name("STATIC"), at(0x1000), refers(DW_AT_TYPE, 900)], &[]),
        entry(28, DW_TAG_NAMESPACE, vec![name("inner")], &[32]),
        entry(32, DW_TAG_VARIABLE, vec![name("COUNT"), at(0x2000), refers(DW_AT_TYPE, 904)], &[]),
        entry(40, DW_TAG_SUBPROGRAM, vec![name("function")], &[]),
        // Namespaces that hold nothing are not kept.
        entry(44, DW_TAG_NAMESPACE, vec![name("empty")], &[]),
        entry(60, DW_TAG_NAMESPACE, vec![], &[40]),
    ]);
    assert_eq!(
        lines(&unit, &target()),
        vec![
            "outer: <namespace> =  @ Unavailable",
            "  STATIC: u8 =  @ Address(4096)",
            "  outer::inner: <namespace> =  @ Unavailable",
            "    COUNT: u32 =  @ Address(8192)",
        ]
    );
}

#[test]
fn no_namespace_is_left_without_parts() {
    let unit = unit(vec![
        entry(20, DW_TAG_COMPILE_UNIT, vec![], &[22, 30, 40]),
        entry(22, DW_TAG_NAMESPACE, vec![name("a")], &[24]),
        entry(24, DW_TAG_NAMESPACE, vec![name("b")], &[26]),
        entry(26, DW_TAG_NAMESPACE, vec![name("c")], &[28]),
        // All that is in it are bounds, which are not kept.
        entry(28, DW_TAG_SUBRANGE_TYPE, vec![number(DW_AT_UPPER_BOUND, 3)], &[]),
        entry(30, DW_TAG_NAMESPACE, vec![name("d")], &[32]),
        entry(32, DW_TAG_VARIABLE, vec![name("STATIC"), refers(DW_AT_TYPE, 900)], &[]),
        entry(40, DW_TAG_NAMESPACE, vec![], &[]),
    ]);
    let (cache, result) = process(&unit, &target());
    let mut open = vec![result.unwrap().variable_key];
    let mut namespaces = vec![];
    while let Some(key) = open.pop() {
        for child in cache.get_children(key) {
            open.push(child.variable_key);
            if matches!(child.variable_type, VariableType::Namespace) {
                assert!(cache.has_children(&child));
                namespaces.push(child.name.display());
            }
        }
    }
    assert_eq!(namespaces, vec!["d"]);
}

#[test]
fn a_named_namespace_in_an_anonymous_one() {
    let unit = unit(vec![
        entry(20, DW_TAG_COMPILE_UNIT, vec![], &[22]),
        entry(22, DW_TAG_NAMESPACE, vec![], &[28]),
        entry(28, DW_TAG_NAMESPACE, vec![name("inner")], &[]),
    ]);
    match failure(&unit, &target()) {
        DebugError::Other(text) => assert_eq!(
            text,
            "Unable to construct namespace variable, unexpected parent name: AnonymousNamespace"
        ),
        error => panic!("{:?}", error),
    }
}

#[test]
fn entries_that_are_passed_over_or_not_known() {
    let unit = unit(vec![
        entry(20, DW_TAG_SUBPROGRAM, vec![], &[22, 24, 26]),
        entry(22, DW_TAG_FORMAL_PARAMETER, vec![], &[]),
        entry(24, 0x1e, vec![], &[]),
        entry(26, 0x7fff, vec![], &[]),
    ]);
    let target = target();
    let mut described = root(&mut VariableCache::new(), &target);
    let first = format!(
        "Unimplemented: Encountered unimplemented DwTag Some(\"DW_TAG_module\") for Variable {}",
        described.describe()
    );
    described.set_error(first.clone());
    assert_eq!(
        process(&unit, &target).1.unwrap().get_value(),
        format!(
            "{} : Unimplemented: Encountered unimplemented DwTag None for Variable {}",
            first,
            described.describe()
        )
    );
}

#[test]
fn a_child_that_is_passed_over_changes_nothing() {
    let with = |children: &[usize]| {
        let mut unit = with_variable(40, vec![
            entry(40, DW_TAG_BASE_TYPE, vec![name("u8"), number(DW_AT_BYTE_SIZE, 1)], &[]),
            entry(50, DW_TAG_FORMAL_PARAMETER, vec![name("a")], &[]),
            entry(54, DW_TAG_SUBPROGRAM, vec![name("f")], &[50]),
        ]);
        unit.entries[0].children = children.to_vec();
        unit
    };
    let plain = with(&[]).entries[1].offset;
    let (cache, result) = process(&with(&[plain]), &target());
    let (other_cache, other_result) = process(&with(&[50, plain, 54, 40]), &target());
    let (parent, other_parent) = (result.unwrap(), other_result.unwrap());
    assert_eq!(format!("{:?}", parent), format!("{:?}", other_parent));
    assert_eq!(format!("{:?}", cache), format!("{:?}", other_cache));
    assert_eq!(cache.get_children(parent.variable_key).len(), 1);
}

#[test]
fn attributes_of_all_kinds() {
    let with = |attribute: Attribute| {
        unit(vec![
            entry(20, DW_TAG_SUBPROGRAM, vec![], &[24]),
            entry(24, DW_TAG_VARIABLE, vec![name("x"), attribute], &[]),
        ])
    };
    let shown = |attribute: Attribute| {
        let (cache, result) = process(&with(attribute), &target());
        cache.get_children(result.unwrap().variable_key)[0].get_value()
    };
    assert_eq!(shown(number(DW_AT_CONST_VALUE, 12)), "12");
    assert_eq!(
        shown(raw(DW_AT_CONST_VALUE, AttributeValue::Flag(true))),
        "Unimplemented: Attribute Value for DW_AT_const_value: Flag(true)"
    );
    assert_eq!(shown(raw(DW_AT_ENUM_CLASS, AttributeValue::Flag(true))), "Unknown");
    assert_eq!(
        shown(raw(DW_AT_ENUM_CLASS, AttributeValue::Flag(false))),
        "Unimplemented: Flag Value for DW_AT_enum_class false"
    );
    assert_eq!(
        shown(number(DW_AT_ENUM_CLASS, 1)),
        "Unimplemented: Attribute Value for DW_AT_enum_class: Udata(1)"
    );
    assert_eq!(
        shown(raw(DW_AT_LOWER_BOUND, AttributeValue::Other)),
        "Unimplemented: Attribute Value for DW_AT_lower_bound: Other"
    );
    assert_eq!(
        shown(raw(DW_AT_COUNT, AttributeValue::Other)),
        "Unimplemented: Attribute Value for DW_AT_upper_bound: Other"
    );
    assert_eq!(
        shown(number(DW_AT_TYPE, 1)),
        "Unimplemented: Attribute Value for DW_AT_type Udata(1)"
    );
    assert_eq!(
        shown(number(DW_AT_DISCR, 1)),
        "Unimplemented: Attribute Value for DW_AT_discr Udata(1)"
    );
    assert_eq!(
        shown(number(0x1d00, 1)),
        "Unimplemented: Variable Attribute None : Ok(Some(Udata(1))), with children = false"
    );
    assert_eq!(
        shown(number(0x0d, 1)),
        "Unimplemented: Variable Attribute Some(\"DW_AT_bit_size\") : Ok(Some(Udata(1))), with children = false"
    );
    assert_eq!(shown(number(DW_AT_BYTE_SIZE, 1)), "");
}

#[test]
fn the_source_of_a_variable() {
    let unit = unit(vec![
        entry(20, DW_TAG_SUBPROGRAM, vec![], &[24, 28]),
        entry(
            24,
            DW_TAG_VARIABLE,
            vec![
                name("x"),
                number(DW_AT_DECL_LINE, 12),
                raw(DW_AT_DECL_FILE, AttributeValue::FileIndex(1)),
            ],
            &[],
        ),
        entry(
            28,
            DW_TAG_VARIABLE,
            vec![
                raw(DW_AT_DECL_FILE, AttributeValue::FileIndex(2)),
                raw(DW_AT_DECL_FILE, AttributeValue::FileIndex(1)),
                number(DW_AT_DECL_LINE, 13),
            ],
            &[],
        ),
    ]);
    let (cache, result) = process(&unit, &target());
    let children = cache.get_children(result.unwrap().variable_key);
    for (child, line) in children.iter().zip([12, 13]) {
        let source = child.source_location.as_ref().unwrap();
        assert_eq!(source.line, Some(line));
        assert_eq!(source.column, None);
        assert_eq!(source.file.as_deref(), Some("main.rs"));
        assert_eq!(source.directory.as_deref(), Some("src"));
    }
}

#[test]
fn attributes_that_have_no_effect() {
    let idle = || {
        vec![
            number(DW_AT_DECL_COLUMN, 4),
            refers(DW_AT_CONTAINING_TYPE, 904),
            number(DW_AT_ALIGNMENT, 8),
            raw(DW_AT_EXTERNAL, AttributeValue::Flag(true)),
            raw(DW_AT_DECLARATION, AttributeValue::Flag(true)),
            raw(DW_AT_ENCODING, AttributeValue::Other),
            raw(DW_AT_DISCR_VALUE, AttributeValue::Data1(1)),
            number(DW_AT_BYTE_SIZE, 16),
            raw(DW_AT_LINKAGE_NAME, AttributeValue::Other),
        ]
    };
    let plain = vec![name("x"), at(0x1000), refers(DW_AT_TYPE, 900), number(0x0d, 3)];
    let mut mixed = idle();
    mixed.extend(vec![name("x"), at(0x1000)]);
    mixed.extend(idle());
    mixed.extend(vec![refers(DW_AT_TYPE, 900), number(0x0d, 3)]);
    mixed.extend(idle());
    let unit = unit(vec![
        entry(20, DW_TAG_VARIABLE, plain, &[]),
        entry(20, DW_TAG_VARIABLE, mixed, &[]),
    ]);
    let resolve = |node: usize| {
        let target = target();
        let mut cache = VariableCache::new();
        let mut parent = root(&mut cache, &target);
        let key = Some(parent.variable_key);
        let new = cache.cache_variable(key, Variable::new(None, Some(20)), &target).unwrap();
        let result = unit
            .process_tree_node_attributes(node, &mut parent, new, &target, &mut cache)
            .unwrap();
        assert_eq!(result.variable_type.display(), "u8");
        (result.describe(), parent.describe(), listed(&cache, parent.variable_key))
    };
    assert_eq!(resolve(0), resolve(1));
}

#[test]
fn attributes_of_the_origin_are_used() {
    let with = |origin: Attribute| {
        unit(vec![
            entry(20, DW_TAG_SUBPROGRAM, vec![], &[24]),
            entry(24, DW_TAG_VARIABLE, vec![origin, at(0x1000)], &[]),
            entry(28, DW_TAG_VARIABLE, vec![name("y"), refers(DW_AT_TYPE, 900)], &[]),
        ])
    };
    assert_eq!(
        lines(&with(refers(DW_AT_ABSTRACT_ORIGIN, 28)), &target()),
        vec!["y: u8 =  @ Address(4096)"]
    );
    assert_eq!(
        lines(&with(number(DW_AT_ABSTRACT_ORIGIN, 28)), &target()),
        vec!["<unknown>: <unknown> = Unimplemented: Attribute Value for DW_AT_abstract_origin Udata(28) @ Address(4096)"]
    );
    assert!(matches!(
        failure(&with(refers(DW_AT_ABSTRACT_ORIGIN, 29)), &target()),
        DebugError::NoEntry(29)
    ));
}

#[test]
fn entries_that_cannot_be_read() {
    let mut unit = with_variable(900, vec![]);
    unit.entries[0].children_error = Some("cut off".to_string());
    assert!(matches!(failure(&unit, &target()), DebugError::Dwarf(text) if text == "cut off"));
    let mut unit = with_variable(900, vec![]);
    unit.entries[1].attributes.clear();
    unit.entries[1].attributes_error = Some("no name".to_string());
    assert!(matches!(failure(&unit, &target()), DebugError::Dwarf(text) if text == "no name"));
    let mut unit = with_variable(900, vec![]);
    unit.entries[0].children.push(31);
    assert!(matches!(failure(&unit, &target()), DebugError::NoEntry(31)));
}

#[test]
fn the_program_counter_must_be_known() {
    let unit = with_variable(900, vec![]);
    let mut target = target();
    target.registers.program_counter = None;
    match failure(&unit, &target) {
        DebugError::Other(text) => {
            assert_eq!(text, "Cannot unwind `Variable` without a valid PC (program_counter)")
        }
        error => panic!("{:?}", error),
    }
    target.registers.program_counter = Some(RegisterValue::U128(1 << 64));
    assert!(matches!(failure(&unit, &target), DebugError::RegisterTooWide));
}

#[test]
fn an_invalid_variable_is_stored_as_it_is() {
    let unit = with_variable(900, vec![]);
    let target = target();
    let mut cache = VariableCache::new();
    let mut parent = root(&mut cache, &target);
    parent.set_error("broken".to_string());
    let parent = unit.process_tree(0, parent, &target, &mut cache).unwrap();
    assert_eq!(parent.get_value(), "broken");
    assert!(!cache.has_children(&parent));
}

#[test]
fn the_bound_on_the_depth_has_no_say_unless_exceeded() {
    let unit = variants(vec![refers(DW_AT_DISCR, 44)]);
    let mut target = target();
    value(&mut target, "u8", 0x1000, 1, "1");
    let mut resolved = vec![];
    for fuel in 0..20 {
        let mut cache = VariableCache::new();
        let root = root(&mut cache, &target);
        let key = root.variable_key;
        match unit.process_tree_within(0, root, &target, &mut cache, fuel) {
            Ok(_) => resolved.push(listed(&cache, key)),
            Err(error) => {
                assert!(matches!(error, DebugError::NestedTooDeep));
                assert!(resolved.is_empty());
            }
        }
    }
    assert!(resolved.len() > 5);
    assert!(resolved.iter().all(|lines| *lines == resolved[0]));
}

#[test]
fn a_type_that_contains_itself_is_too_deep() {
    let unit = with_variable(
        30,
        vec![
            entry(30, DW_TAG_STRUCTURE_TYPE, vec![name("Loop")], &[34]),
            entry(
                34,
                DW_TAG_MEMBER,
                vec![
                    name("again"),
                    number(DW_AT_DATA_MEMBER_LOCATION, 0),
                    refers(DW_AT_TYPE, 30),
                ],
                &[],
            ),
        ],
    );
    let target = target();
    let mut cache = VariableCache::new();
    let root = root(&mut cache, &target);
    let result = unit.process_tree_within(0, root, &target, &mut cache, 30);
    assert!(matches!(result, Err(DebugError::NestedTooDeep)));
}

#[test]
fn entries_may_be_nested_deep() {
    // Each namespace but the last holds another one.
    let mut entries = vec![entry(20, DW_TAG_COMPILE_UNIT, vec![], &[1000])];
    for i in 1000..1200 {
        entries.push(entry(i, DW_TAG_NAMESPACE, vec![name("n")], &[i + 1]));
    }
    entries.push(entry(1200, DW_TAG_VARIABLE, vec![name("STATIC"), refers(DW_AT_TYPE, 900)], &[]));
    let (cache, result) = process(&unit(entries), &target());
    let mut key = result.unwrap().variable_key;
    let mut depth = 0;
    while let Some(child) = cache.get_children(key).first() {
        key = child.variable_key;
        depth += 1;
    }
    assert_eq!(depth, 201);
}

#[test]
fn other_variables_are_left_alone() {
    let unit = variants(vec![refers(DW_AT_DISCR, 44)]);
    let mut target = target();
    value(&mut target, "u8", 0x1000, 1, "2");
    let mut cache = VariableCache::new();
    let first = root(&mut cache, &target);
    let second = root(&mut cache, &target);
    let third = cache
        .cache_variable(Some(first.variable_key), Variable::new(None, Some(1)), &target)
        .unwrap();
    let key = second.variable_key;
    unit.process_tree(0, second, &target, &mut cache).unwrap();
    for kept in [first, third] {
        let now = cache.get_variable_by_key(kept.variable_key).unwrap();
        assert_eq!(format!("{:?}", now), format!("{:?}", kept));
    }
    assert_eq!(listed(&cache, key).len(), 2);
}

#[test]
fn of_the_parent_only_the_role_changes() {
    let unit = variants(vec![refers(DW_AT_DISCR, 44)]);
    let mut target = target();
    value(&mut target, "u8", 0x1000, 1, "2");
    let mut cache = VariableCache::new();
    let mut parent = root(&mut cache, &target);
    parent.memory_location = VariableLocation::Address(0x1000);
    let before = parent.clone();
    let part = cache
        .cache_variable(Some(parent.variable_key), Variable::new(None, None), &target)
        .unwrap();
    let node = unit.find_entry(40).unwrap();
    let part = unit
        .process_tree_node_attributes(node, &mut parent, part, &target, &mut cache)
        .unwrap();
    assert_eq!(part.parent_key, Some(parent.variable_key));
    assert_eq!(parent.role, VariantRole::VariantPart(2));
    parent.role = before.role;
    assert_eq!(format!("{:?}", parent), format!("{:?}", before));
    assert_eq!(cache.get_children(before.variable_key).len(), 1);
}

#[test]
fn a_parent_is_called_and_kept_as_before() {
    let unit = variants(vec![refers(DW_AT_DISCR, 44)]);
    let mut target = target();
    value(&mut target, "u8", 0x1000, 1, "2");
    let mut cache = VariableCache::new();
    let mut parent = root(&mut cache, &target);
    parent.memory_location = VariableLocation::Address(0x1000);
    parent.byte_size = 8;
    parent.member_index = Some(3);
    let before = parent.clone();
    let after = unit.process_tree(0, parent, &target, &mut cache).unwrap();
    assert_eq!(after.name.display(), before.name.display());
    assert_eq!((after.variable_key, after.parent_key), (before.variable_key, before.parent_key));
    assert_eq!((after.byte_size, after.member_index), (8, Some(3)));
    assert_eq!(after.variable_node_type, before.variable_node_type);
    assert!(matches!(after.memory_location, VariableLocation::Address(0x1000)));
    assert!(after.source_location.is_none());
}

#[test]
fn further_replies_change_nothing() {
    let unit = enumeration();
    let mut target = target();
    target.memory.push(MemoryRead { address: 0x1000, size: 1, data: Some(vec![7]) });
    let before = lines(&unit, &target);
    target.memory.push(MemoryRead { address: 0x1000, size: 1, data: Some(vec![0]) });
    target.memory.push(MemoryRead { address: 0x2000, size: 4, data: None });
    assert_eq!(lines(&unit, &target), before);
    assert_eq!(before, vec!["x: Color = Color::Blue @ Address(4096)"]);
}

#[test]
fn nothing_is_asked_for_twice() {
    let unit = enumeration();
    let mut target = target();
    let mut asked = vec![];
    loop {
        match process(&unit, &target).1 {
            Err(DebugError::NeedsMemory { address, size }) => {
                assert!(!asked.contains(&(address, size)));
                asked.push((address, size));
                target.memory.push(MemoryRead { address, size, data: Some(vec![0; size]) });
            }
            result => {
                assert!(result.is_ok());
                break;
            }
        }
    }
    assert_eq!(asked, vec![(0x1000, 1)]);
}
