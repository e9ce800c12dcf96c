use unit_info::cache::VariableCache;
use unit_info::dwarf::{
    AttributeValue, Encoding, LocationList, Range, UnitInfo, DW_AT_ABSTRACT_ORIGIN,
    DW_AT_ADDRESS_CLASS, DW_AT_ALIGNMENT, DW_AT_ARTIFICIAL, DW_AT_BYTE_SIZE, DW_AT_CONST_VALUE,
    DW_AT_CONTAINING_TYPE, DW_AT_COUNT, DW_AT_DATA_MEMBER_LOCATION, DW_AT_DECLARATION,
    DW_AT_DECL_COLUMN, DW_AT_DECL_FILE, DW_AT_DECL_LINE, DW_AT_DISCR, DW_AT_DISCR_VALUE,
    DW_AT_ENCODING, DW_AT_ENUM_CLASS, DW_AT_EXTERNAL, DW_AT_FRAME_BASE, DW_AT_HIGH_PC,
    DW_AT_LINKAGE_NAME, DW_AT_LOCATION, DW_AT_LOWER_BOUND, DW_AT_LOW_PC, DW_AT_NAME, DW_AT_RANGES,
    DW_AT_TYPE, DW_AT_UPPER_BOUND, DW_TAG_ARRAY_TYPE, DW_TAG_BASE_TYPE, DW_TAG_COMPILE_UNIT,
    DW_TAG_ENUMERATION_TYPE, DW_TAG_ENUMERATOR, DW_TAG_FORMAL_PARAMETER,
    DW_TAG_INLINED_SUBROUTINE, DW_TAG_LEXICAL_BLOCK, DW_TAG_MEMBER, DW_TAG_NAMESPACE,
    DW_TAG_POINTER_TYPE, DW_TAG_STRUCTURE_TYPE, DW_TAG_SUBPROGRAM, DW_TAG_SUBRANGE_TYPE,
    DW_TAG_SUBROUTINE_TYPE, DW_TAG_TEMPLATE_TYPE_PARAMETER, DW_TAG_UNION_TYPE, DW_TAG_VARIABLE,
    DW_TAG_VARIANT, DW_TAG_VARIANT_PART,
};
use unit_info::error::DebugError;
use unit_info::names::{describe_attribute, describe_tag};
use unit_info::reader::{find_section, read_unit, Section};
use unit_info::target::{DebugRegisters, RegisterValue, Target};
use unit_info::variable::{Variable, VariableLocation, VariableName};

fn section(name: &str, data: Vec<u8>) -> Section {
    Section { name: name.to_string(), data }
}

/// The abbreviations of the entries of `info`.
fn abbreviations() -> Vec<u8> {
    vec![
        1, 0x11, 1, 0x03, 0x08, 0x11, 0x01, 0x10, 0x17, 0, 0, // unit: name, low pc, line program
        2, 0x24, 0, 0x03, 0x08, 0x0b, 0x0b, 0, 0, // base type: name, byte size
        3, 0x2e, 1, 0x03, 0x08, 0x11, 0x01, 0x12, 0x06, 0, 0, // function: name, low and high pc
        4, 0x34, 0, 0x03, 0x08, 0x02, 0x18, 0x49, 0x13, 0x3a, 0x0b, 0x3b, 0x0b, 0, 0, // variable
        5, 0x1d, 0, 0x31, 0x13, 0x11, 0x01, 0x12, 0x06, 0, 0, // inlined function
        6, 0x2e, 0, 0x03, 0x08, 0, 0, // function: name
        7, 0x0b, 1, 0x55, 0x17, 0, 0, // block: ranges
        8, 0x34, 0, 0x03, 0x0e, 0x02, 0x17, 0x49, 0x13, 0, 0, // variable with a list of places
        0,
    ]
}

/// A unit with a function `main`, into which `helper` was inlined, and two variables.
fn info(address_size: u8) -> Vec<u8> {
    let mut entries = vec![];
    entries.extend([1]);
    entries.extend(*b"unit\0");
    entries.extend(0u32.to_le_bytes());
    entries.extend(0u32.to_le_bytes());
    entries.extend([2]);
    entries.extend(*b"u8\0");
    entries.extend([1]);
    entries.extend([3]);
    entries.extend(*b"main\0");
    entries.extend(0x1000u32.to_le_bytes());
    entries.extend(0x20u32.to_le_bytes());
    entries.extend([4]);
    entries.extend(*b"x\0");
    entries.extend([5, 0x03, 0, 0, 0, 0x20]);
    entries.extend(25u32.to_le_bytes());
    entries.extend([1, 12]);
    entries.extend([5]);
    entries.extend(92u32.to_le_bytes());
    entries.extend(0x1004u32.to_le_bytes());
    entries.extend(4u32.to_le_bytes());
    entries.extend([7]);
    entries.extend(0u32.to_le_bytes());
    entries.extend([8]);
    entries.extend(2u32.to_le_bytes());
    entries.extend(0u32.to_le_bytes());
    entries.extend(25u32.to_le_bytes());
    entries.extend([0, 0]);
    entries.extend([6]);
    entries.extend(*b"helper\0");
    entries.extend([0]);
    unit_of(address_size, entries)
}

fn unit_of(address_size: u8, entries: Vec<u8>) -> Vec<u8> {
    let mut info = vec![];
    info.extend((entries.len() as u32 + 7).to_le_bytes());
    info.extend(4u16.to_le_bytes());
    info.extend(0u32.to_le_bytes());
    info.extend([address_size]);
    info.extend(entries);
    info
}

fn line_program() -> Vec<u8> {
    let mut header = vec![1, 1, 1, 0xfb, 14, 1];
    header.extend(*b"src\0\0");
    header.extend(*b"main.rs\0");
    header.extend([1, 0, 0, 0]);
    let mut program = vec![];
    program.extend((header.len() as u32 + 6).to_le_bytes());
    program.extend(4u16.to_le_bytes());
    program.extend((header.len() as u32).to_le_bytes());
    program.extend(header);
    program
}

fn pair(begin: u32, end: u32) -> Vec<u8> {
    [begin.to_le_bytes(), end.to_le_bytes()].concat()
}

fn sections() -> Vec<Section> {
    let ranges = [pair(0x1010, 0x1014), pair(0x1018, 0x101a), pair(0, 0)].concat();
    let places = [pair(0x1010, 0x1012), vec![1, 0, 0x55], pair(0, 0)].concat();
    vec![
        section(".debug_abbrev", abbreviations()),
        section(".debug_info", info(4)),
        section(".debug_line", line_program()),
        section(".debug_str", b"a\0y\0".to_vec()),
        section(".debug_ranges", ranges),
        section(".debug_loc", places),
    ]
}

fn unit() -> UnitInfo {
    read_unit(&sections(), 0).unwrap()
}

fn text(unit: &UnitInfo, offset: usize, name: u16) -> String {
    let node = unit.find_entry(offset).unwrap();
    unit.entries[node].attr(name).unwrap().unwrap().text.clone()
}

fn target(program_counter: u32) -> Target {
    Target {
        registers: DebugRegisters {
            program_counter: Some(RegisterValue::U32(program_counter)),
            frame_pointer: Some(RegisterValue::U32(0)),
            registers: vec![],
        },
        memory: vec![],
        values: vec![],
    }
}

#[test]
fn sections_are_found_by_name() {
    let sections = sections();
    assert_eq!(find_section(&sections, ".debug_str"), Some(&b"a\0y\0".to_vec()));
    assert_eq!(find_section(&sections, ".debug_addr"), None);
}

#[test]
fn the_header_of_a_unit() {
    let unit = unit();
    assert_eq!(unit.header_offset, Some(0));
    assert_eq!(unit.encoding, Encoding { address_size: 4, is_64_bit: false, version: 4 });
    assert_eq!((unit.first_offset, unit.end_offset), (11, 101));
    assert_eq!(unit.walked, unit.entries.len());
}

#[test]
fn the_entries_of_a_unit() {
    let unit = unit();
    let listed: Vec<(usize, u16, i64, bool)> = unit
        .entries
        .iter()
        .map(|entry| (entry.offset, entry.tag, entry.depth, entry.has_children))
        .collect();
    assert_eq!(
        listed,
        vec![
            (11, DW_TAG_COMPILE_UNIT, 0, true),
            (25, DW_TAG_BASE_TYPE, 1, false),
            (30, DW_TAG_SUBPROGRAM, 0, true),
            (44, DW_TAG_VARIABLE, 1, false),
            (59, DW_TAG_INLINED_SUBROUTINE, 0, false),
            (72, DW_TAG_LEXICAL_BLOCK, 0, true),
            (77, DW_TAG_VARIABLE, 1, false),
            (92, DW_TAG_SUBPROGRAM, -2, false),
        ]
    );
}

#[test]
fn the_children_of_entries() {
    let unit = unit();
    let children: Vec<Vec<usize>> =
        unit.entries.iter().map(|entry| entry.children.clone()).collect();
    assert_eq!(children[0], vec![25, 30, 92]);
    assert_eq!(children[2], vec![44, 59, 72]);
    assert_eq!(children[5], vec![77]);
    for leaf in [1, 3, 4, 6, 7] {
        assert!(children[leaf].is_empty());
    }
    assert!(unit.entries.iter().all(|entry| entry.children_error.is_none()));
}

#[test]
fn the_ranges_of_functions() {
    let unit = unit();
    match &unit.entries[2].ranges {
        Ok(ranges) => assert_eq!(ranges, &vec![Range { begin: 0x1000, end: 0x1020 }]),
        other => panic!("{:?}", other),
    }
    assert!(matches!(&unit.entries[7].ranges, Ok(ranges) if ranges.is_empty()));
    assert!(matches!(&unit.entries[0].ranges, Ok(ranges) if ranges.is_empty()));
}

#[test]
fn the_attributes_of_entries() {
    let unit = unit();
    let names: Vec<u16> = unit.entries[3].attributes.iter().map(|a| a.name).collect();
    assert_eq!(
        names,
        vec![DW_AT_NAME, DW_AT_LOCATION, DW_AT_TYPE, DW_AT_DECL_FILE, DW_AT_DECL_LINE]
    );
    let value = |node: usize, name: u16| &unit.entries[node].attr(name).unwrap().unwrap().value;
    assert!(matches!(value(3, DW_AT_LOCATION), AttributeValue::Exprloc(bytes) if bytes.len() == 5));
    assert!(matches!(value(3, DW_AT_TYPE), AttributeValue::UnitRef(25)));
    assert!(matches!(value(3, DW_AT_DECL_FILE), AttributeValue::FileIndex(1)));
    assert!(matches!(value(3, DW_AT_DECL_LINE), AttributeValue::Udata(12)));
    assert!(matches!(value(2, DW_AT_LOW_PC), AttributeValue::Addr(0x1000)));
    assert!(matches!(value(2, DW_AT_HIGH_PC), AttributeValue::Udata(0x20)));
    assert_eq!(unit.entries[2].attr(DW_AT_HIGH_PC).unwrap().unwrap().debug, "Udata(32)");
    assert_eq!(unit.entries[2].attr(DW_AT_HIGH_PC).unwrap().unwrap().udata, Some(32));
    assert_eq!(unit.entries[2].attr(DW_AT_LOW_PC).unwrap().unwrap().udata, None);
    assert_eq!(unit.entries[1].extract_byte_size(), 1);
    assert!(unit.entries[1].attr(DW_AT_TYPE).unwrap().is_none());
}

#[test]
fn the_texts_of_attributes() {
    let unit = unit();
    assert_eq!(text(&unit, 30, DW_AT_NAME), "main");
    assert_eq!(text(&unit, 77, DW_AT_NAME), "y");
    assert_eq!(
        text(&unit, 44, DW_AT_DECL_LINE),
        "Unimplemented: Evaluate name from Udata(12)"
    );
}

#[test]
fn the_lists_that_attributes_refer_to() {
    let unit = unit();
    match &unit.entries[5].attr(DW_AT_RANGES).unwrap().unwrap().value {
        AttributeValue::RangeListsRef(ranges) => assert_eq!(
            ranges,
            &vec![Range { begin: 0x1010, end: 0x1014 }, Range { begin: 0x1018, end: 0x101a }]
        ),
        other => panic!("{:?}", other),
    }
    match &unit.entries[6].attr(DW_AT_LOCATION).unwrap().unwrap().value {
        AttributeValue::LocationListsRef(LocationList::Entries { entries, error }) => {
            assert_eq!(entries.len(), 1);
            assert_eq!(entries[0].range, Range { begin: 0x1010, end: 0x1012 });
            assert_eq!(entries[0].expression, vec![0x55]);
            assert!(error.is_none());
        }
        other => panic!("{:?}", other),
    }
}

#[test]
fn lists_that_cannot_be_read() {
    let mut sections = sections();
    // The list of ranges and the list of places are cut off.
    sections[4].data.truncate(10);
    sections[5].data.truncate(13);
    let unit = read_unit(&sections, 0).unwrap();
    match &unit.entries[5].attr(DW_AT_RANGES).unwrap().unwrap().value {
        AttributeValue::RangeListsRef(ranges) => {
            assert_eq!(ranges, &vec![Range { begin: 0x1010, end: 0x1014 }])
        }
        other => panic!("{:?}", other),
    }
    match &unit.entries[6].attr(DW_AT_LOCATION).unwrap().unwrap().value {
        AttributeValue::LocationListsRef(LocationList::Entries { entries, error }) => {
            assert_eq!(entries.len(), 1);
            assert_eq!(error.as_deref(), Some("UnexpectedEof"));
        }
        other => panic!("{:?}", other),
    }
}

#[test]
fn the_source_files_of_a_unit() {
    let unit = unit();
    assert_eq!(unit.find_file(1), Some(("src".to_string(), "main.rs".to_string())));
    assert_eq!(unit.find_file(2), None);
}

#[test]
fn attributes_that_cannot_be_read() {
    let mut abbreviations = abbreviations();
    // The form of the byte size of the base type is not one that there is.
    abbreviations[11 + 6] = 0x7f;
    let mut sections = sections();
    sections[0].data = abbreviations;
    let unit = read_unit(&sections, 0).unwrap();
    assert_eq!(unit.entries.len(), 2);
    assert_eq!(unit.entries[1].attributes.len(), 1);
    assert_eq!(unit.entries[1].attributes_error.as_deref(), Some("UnknownForm"));
    assert!(unit.entries[1].attr(DW_AT_NAME).unwrap().is_some());
    assert!(unit.entries[1].attr(DW_AT_TYPE).is_err());
    assert!(unit.entries[0].children_error.is_some());
    assert_eq!(unit.entries[0].children, vec![25]);
}

#[test]
fn entries_that_are_only_referred_to() {
    let mut abbreviations = abbreviations();
    // The form of the last attribute of the inlined function is not one that there is.
    assert_eq!(abbreviations[46..49], [5, 0x1d, 0]);
    abbreviations[46 + 8] = 0x7f;
    let mut sections = sections();
    sections[0].data = abbreviations;
    let unit = read_unit(&sections, 0).unwrap();
    assert_eq!(unit.walked, 5);
    let offsets: Vec<usize> = unit.entries.iter().map(|entry| entry.offset).collect();
    assert_eq!(offsets, vec![11, 25, 30, 44, 59, 92]);
    assert_eq!(unit.find_entry(92).unwrap(), 5);
    assert_eq!(unit.entries[4].attributes.len(), 2);
    assert_eq!(unit.entries[0].children, vec![25, 30]);
    assert!(unit.entries[0].children_error.is_some());
}

#[test]
fn units_that_cannot_be_opened() {
    assert!(matches!(read_unit(&sections(), 5000), Err(DebugError::Dwarf(_))));
    assert!(matches!(read_unit(&vec![], 0), Err(DebugError::Dwarf(_))));
}

#[test]
fn addresses_of_an_unsupported_size() {
    let sections = vec![
        section(".debug_abbrev", vec![1, 0x11, 0, 0x03, 0x08, 0, 0, 0]),
        section(".debug_info", unit_of(9, b"\x01unit\0".to_vec())),
    ];
    let unit = read_unit(&sections, 0).unwrap();
    assert_eq!(unit.encoding.address_size, 9);
    assert_eq!(text(&unit, 11, DW_AT_NAME), "unit");
    match unit.expression_to_piece(&target(0), &vec![0x55]) {
        Err(DebugError::Other(text)) => assert_eq!(text, "Unsupported address size"),
        other => panic!("{:?}", other),
    }
}

/// A number, seven bits a byte.
fn leb128(mut n: u64) -> Vec<u8> {
    let mut bytes = vec![];
    while n >= 0x80 {
        bytes.push(n as u8 | 0x80);
        n >>= 7;
    }
    bytes.push(n as u8);
    bytes
}

/// A unit of version 5 with addresses of 8 bytes, whose first entry stands at 12.
fn unit_5(entries: &[&[u8]]) -> Vec<u8> {
    let entries = entries.concat();
    let mut info = vec![];
    info.extend((entries.len() as u32 + 8).to_le_bytes());
    info.extend(5u16.to_le_bytes());
    info.extend([1, 8]);
    info.extend(0u32.to_le_bytes());
    info.extend(entries);
    info
}

fn offset(n: u32) -> [u8; 4] {
    n.to_le_bytes()
}

fn address(n: u64) -> [u8; 8] {
    n.to_le_bytes()
}

#[test]
fn code_that_reaches_beyond_the_last_address_has_none() {
    let read = |low: u64, length: u32| -> UnitInfo {
        let sections = vec![
            section(".debug_abbrev", vec![1, 0x11, 1, 0, 0, 2, 0x2e, 0, 0x11, 1, 0x12, 6, 0, 0, 0]),
            section(".debug_info", unit_5(&[&[1, 2], &address(low), &offset(length), &[0]])),
        ];
        read_unit(&sections, 0).unwrap()
    };
    let ranges = |unit: &UnitInfo| unit.entries[1].ranges.clone().unwrap();
    assert_eq!(ranges(&read(u64::MAX, 1)), vec![]);
    assert_eq!(ranges(&read(u64::MAX - 2, 3)), vec![]);
    let last = Range { begin: u64::MAX - 2, end: u64::MAX };
    assert_eq!(ranges(&read(u64::MAX - 2, 2)), vec![last]);
    let dead = read(u64::MAX, 1);
    assert_eq!(dead.get_function_dies(RegisterValue::U64(u64::MAX), true).unwrap(), vec![]);
}

/// A unit with a block and a function that both have the list of ranges `list`: the block by the
/// offset of the list, the function by its index.
fn with_ranges(list: &[u8], index: u64, addresses: &[u8]) -> UnitInfo {
    let abbreviations = [
        &[1u8, 0x11, 1, 0x74, 0x17, 0x73, 0x17, 0, 0][..],
        &[2, 0x0b, 0, 0x55, 0x17, 0, 0],
        &[3, 0x2e, 0, 0x55, 0x23, 0, 0, 0],
    ];
    // The offset of the list stands behind 12 bytes, and the list behind it.
    let lists = [&[0u8; 12][..], &offset(4), list].concat();
    let info = unit_5(&[
        &[1], &offset(12), &offset(0),
        &[2], &offset(16),
        &[3], &leb128(index),
        &[0],
    ]);
    let sections = vec![
        section(".debug_abbrev", abbreviations.concat()),
        section(".debug_info", info),
        section(".debug_rnglists", lists),
        section(".debug_addr", addresses.to_vec()),
    ];
    read_unit(&sections, 0).unwrap()
}

fn list_of(unit: &UnitInfo) -> Vec<Range> {
    match &unit.entries[1].attr(DW_AT_RANGES).unwrap().unwrap().value {
        AttributeValue::RangeListsRef(ranges) => ranges.clone(),
        other => panic!("{:?}", other),
    }
}

#[test]
fn lists_of_ranges_end_where_an_address_does_not_fit() {
    let first = Range { begin: 0x1000, end: 0x1010 };
    // A start and a length, twice, and the end.
    let list = |begin: u64| {
        [&[7u8][..], &address(0x1000), &[0x10, 7], &address(begin), &[2], &[0]].concat()
    };
    let unit = with_ranges(&list(0x2000), 0, &[]);
    let second = Range { begin: 0x2000, end: 0x2002 };
    assert_eq!(list_of(&unit), vec![first, second]);
    assert_eq!(unit.entries[2].ranges, Ok(vec![first, second]));
    let unit = with_ranges(&list(u64::MAX - 1), 0, &[]);
    assert_eq!(list_of(&unit), vec![first]);
    assert_eq!(unit.entries[2].ranges, Ok(vec![first]));
}

#[test]
fn lists_of_ranges_with_indices() {
    let addresses = [address(0x1000), address(u64::MAX), address(0x3000)].concat();
    // An index and a length, the indices of two addresses, the index of a base and two offsets.
    let list = [3u8, 0, 0x10, 2, 0, 2, 1, 2, 4, 1, 5, 0];
    let ranges = vec![
        Range { begin: 0x1000, end: 0x1010 },
        Range { begin: 0x1000, end: 0x3000 },
        Range { begin: 0x3001, end: 0x3005 },
    ];
    let unit = with_ranges(&list, 0, &addresses);
    assert_eq!(list_of(&unit), ranges);
    assert_eq!(unit.entries[2].ranges, Ok(ranges));
    // The address with the index 1 is the last one.
    let unit = with_ranges(&[3, 0, 0x10, 3, 1, 1, 0], 0, &addresses);
    assert_eq!(list_of(&unit), vec![Range { begin: 0x1000, end: 0x1010 }]);
    // An index that is too large for a position.
    for code in [1u8, 3] {
        let list = [&[3u8, 0, 0x10, code][..], &leb128(1 << 62), &[1, 0]].concat();
        let unit = with_ranges(&list, 0, &addresses);
        assert_eq!(list_of(&unit), vec![Range { begin: 0x1000, end: 0x1010 }]);
    }
}

#[test]
fn indices_of_lists_that_are_too_large() {
    let list = [7u8, 0, 0x10, 0, 0, 0, 0, 0, 0, 0x10, 0];
    assert_eq!(with_ranges(&list, 0, &[]).entries[2].ranges.as_ref().unwrap().len(), 1);
    assert!(with_ranges(&list, 100, &[]).entries[2].ranges.is_err());
    assert_eq!(with_ranges(&list, 1 << 62, &[]).entries[2].ranges, Ok(vec![]));
}

#[test]
fn lists_of_places_end_where_an_address_does_not_fit() {
    let read = |list: Vec<u8>| -> UnitInfo {
        let sections = vec![
            section(".debug_abbrev", vec![1, 0x11, 1, 0, 0, 2, 0x34, 0, 0x02, 0x17, 0, 0, 0]),
            section(".debug_info", unit_5(&[&[1, 2], &offset(0), &[0]])),
            section(".debug_loclists", list),
        ];
        read_unit(&sections, 0).unwrap()
    };
    // A start, a length and an expression, twice, and the end.
    let list = |begin: u64| {
        let first = [&[8u8][..], &address(0x1000), &[0x10, 1, 0x55]].concat();
        let second = [&[8u8][..], &address(begin), &[2, 1, 0x56]].concat();
        [first, second, vec![0]].concat()
    };
    let places = |unit: &UnitInfo| -> (Vec<Range>, Option<String>) {
        match &unit.entries[1].attr(DW_AT_LOCATION).unwrap().unwrap().value {
            AttributeValue::LocationListsRef(LocationList::Entries { entries, error }) => {
                (entries.iter().map(|entry| entry.range).collect(), error.clone())
            }
            other => panic!("{:?}", other),
        }
    };
    let first = Range { begin: 0x1000, end: 0x1010 };
    let second = Range { begin: 0x2000, end: 0x2002 };
    assert_eq!(places(&read(list(0x2000))), (vec![first, second], None));
    let end = Some("Address out of range".to_string());
    assert_eq!(places(&read(list(u64::MAX - 1))), (vec![first], end));
}

/// A unit with a function whose name and address are given by indices, as those of the unit are.
fn with_indices(root: (u64, u64), function: (u64, u64)) -> Result<UnitInfo, DebugError> {
    let abbreviations = [
        &[1u8, 0x11, 1, 0x72, 0x17, 0x73, 0x17, 0x03, 0x1a, 0x11, 0x1b, 0, 0][..],
        &[2, 0x2e, 0, 0x03, 0x1a, 0x11, 0x1b, 0x12, 0x0b, 0, 0, 0],
    ];
    let info = unit_5(&[
        &[1], &offset(8), &offset(0), &leb128(root.0), &leb128(root.1),
        &[2], &leb128(function.0), &leb128(function.1), &[0x20],
        &[0],
    ]);
    let sections = vec![
        section(".debug_abbrev", abbreviations.concat()),
        section(".debug_info", info),
        section(".debug_str_offsets", [&[0u8; 8][..], &offset(0), &offset(5)].concat()),
        section(".debug_str", b"unit\0main\0".to_vec()),
        section(".debug_addr", [address(0), address(0x1000), address(u64::MAX)].concat()),
    ];
    read_unit(&sections, 0)
}

#[test]
fn texts_and_addresses_by_indices() {
    let unit = with_indices((0, 0), (1, 1)).unwrap();
    assert_eq!(text(&unit, 12, DW_AT_NAME), "unit");
    assert_eq!(unit.entries[1].attr(DW_AT_NAME).unwrap().unwrap().text, "main");
    assert_eq!(unit.entries[1].ranges, Ok(vec![Range { begin: 0x1000, end: 0x1020 }]));
    let functions = unit.get_function_dies(RegisterValue::U64(0x101f), false).unwrap();
    assert_eq!(functions.len(), 1);
    // The length of the code does not fit behind the last address.
    assert_eq!(with_indices((0, 0), (1, 2)).unwrap().entries[1].ranges, Ok(vec![]));
}

#[test]
fn indices_that_are_too_large() {
    let large = 1 << 62;
    let unit = with_indices((0, 0), (large, large)).unwrap();
    assert_eq!(unit.entries[1].ranges, Ok(vec![]));
    assert_eq!(
        unit.entries[1].attr(DW_AT_NAME).unwrap().unwrap().text,
        "Unimplemented: Evaluate name from DebugStrOffsetsIndex(DebugStrOffsetsIndex(4611686018427387904))"
    );
    for root in [(large, 0), (0, large)] {
        match with_indices(root, (1, 1)) {
            Err(DebugError::Other(text)) => assert_eq!(text, "Index out of range"),
            other => panic!("{:?}", other),
        }
    }
    // Indices of which there is nothing are another matter.
    let unit = with_indices((7, 0), (7, 7)).unwrap();
    assert!(unit.entries[1].ranges.is_err());
    assert!(matches!(with_indices((0, 7), (1, 1)), Err(DebugError::Dwarf(_))));
}

/// A unit with a function that has the attributes `forms`, each a name and a form, with the values
/// `values`; the list of ranges at 12 holds one range.
fn with_code(forms: &[u8], values: &[u8]) -> UnitInfo {
    let abbreviations = [&[1u8, 0x11, 1, 0x73, 0x17, 0, 0, 2, 0x2e, 0][..], forms, &[0, 0, 0]];
    let list = [&[0u8; 12][..], &[7], &address(0x1000), &[0x10, 0]].concat();
    let sections = vec![
        section(".debug_abbrev", abbreviations.concat()),
        section(".debug_info", unit_5(&[&[1], &offset(0), &[2], values, &[0]])),
        section(".debug_rnglists", list),
        section(".debug_addr", [address(0x2000), address(u64::MAX)].concat()),
    ];
    read_unit(&sections, 0).unwrap()
}

#[test]
fn bounds_that_do_not_count() {
    let listed = Ok(vec![Range { begin: 0x1000, end: 0x1010 }]);
    let large = leb128(1 << 62);
    // A list of ranges, and the first address by an index that is too large behind it.
    let unit = with_code(&[0x55, 0x17, 0x11, 0x1b], &[&offset(12)[..], &large].concat());
    assert_eq!(unit.entries[1].ranges, listed);
    // In front of it the address counts.
    let unit = with_code(&[0x11, 0x1b, 0x55, 0x17], &[&large[..], &offset(12)].concat());
    assert_eq!(unit.entries[1].ranges, Ok(vec![]));
    // The last address and a length do not fit, but the list is what counts.
    let values = [&[1, 0x20][..], &offset(12)].concat();
    let unit = with_code(&[0x11, 0x1b, 0x12, 0x0b, 0x55, 0x17], &values);
    assert_eq!(unit.entries[1].ranges, listed);
    // The first address is given twice: the later one counts.
    let range = Ok(vec![Range { begin: 0x2000, end: 0x2020 }]);
    let unit = with_code(&[0x11, 0x1b, 0x12, 0x0b, 0x11, 0x1b], &[1, 0x20, 0]);
    assert_eq!(unit.entries[1].ranges, range);
}

#[test]
fn indices_of_the_first_entry_that_are_not_resolved() {
    // The first entry has a producer by an index that is too large, and no name by one.
    let read = |name: u8| -> Result<UnitInfo, DebugError> {
        let abbreviations = [&[1u8, 0x11, 0, 0x72, 0x17, name, 0x1a, 0, 0][..], &[0]].concat();
        let sections = vec![
            section(".debug_abbrev", abbreviations),
            section(".debug_info", unit_5(&[&[1], &offset(8), &leb128(1 << 62)])),
            section(".debug_str_offsets", [0u8; 12].to_vec()),
            section(".debug_str", b"unit\0".to_vec()),
        ];
        read_unit(&sections, 0)
    };
    let unit = read(0x25).unwrap();
    assert_eq!(unit.entries.len(), 1);
    assert_eq!(unit.entries[0].attributes.len(), 2);
    for name in [0x03, 0x1b] {
        match read(name) {
            Err(DebugError::Other(text)) => assert_eq!(text, "Index out of range"),
            other => panic!("{:?}", other),
        }
    }
}

#[test]
fn source_files_by_indices() {
    let read = |index: u64| -> UnitInfo {
        let header = [
            &[1u8, 1, 1, 0xfb, 14, 1][..],
            &[1, 1, 0x08, 1],
            b"src\0",
            &[2, 1, 0x1a, 2, 0x0b, 1],
            &leb128(index),
            &[0],
        ]
        .concat();
        let program = [
            &offset(header.len() as u32 + 8)[..],
            &[5, 0, 8, 0],
            &offset(header.len() as u32),
            &header,
        ];
        let abbreviations = [
            &[1u8, 0x11, 1, 0x72, 0x17, 0x10, 0x17, 0, 0][..],
            &[2, 0x34, 0, 0x3a, 0x0b, 0, 0, 0],
        ];
        let sections = vec![
            section(".debug_abbrev", abbreviations.concat()),
            section(".debug_info", unit_5(&[&[1], &offset(8), &offset(0), &[2, 0, 0]])),
            section(".debug_line", program.concat()),
            section(".debug_str_offsets", [&[0u8; 8][..], &offset(0), &offset(5)].concat()),
            section(".debug_str", b"unit\0main.rs\0".to_vec()),
        ];
        read_unit(&sections, 0).unwrap()
    };
    assert_eq!(read(1).find_file(0), Some(("src".to_string(), "main.rs".to_string())));
    assert_eq!(read(7).find_file(0), None);
    assert_eq!(read(1 << 62).find_file(0), None);
}

#[test]
fn functions_are_found_in_what_was_read() {
    let unit = unit();
    let offsets = |address: u32| -> Vec<usize> {
        let functions = unit.get_function_dies(RegisterValue::U32(address), true).unwrap();
        functions.iter().map(|function| function.offset).collect()
    };
    assert_eq!(offsets(0x1003), vec![30]);
    assert_eq!(offsets(0x1004), vec![30, 59]);
    assert_eq!(offsets(0x1008), vec![30]);
    assert!(offsets(0x1020).is_empty());
}

#[test]
fn variables_are_resolved_from_what_was_read() {
    let unit = unit();
    let target = target(0x1011);
    let mut cache = VariableCache::new();
    let root = cache.cache_variable(None, Variable::new(None, None), &target).unwrap();
    let node = unit.find_entry(30).unwrap();
    let root = unit.process_tree(node, root, &target, &mut cache).unwrap();
    let children = cache.get_children(root.variable_key);
    assert_eq!(children.len(), 2);
    assert!(matches!(&children[0].name, VariableName::Named(name) if name == "x"));
    assert!(matches!(children[0].memory_location, VariableLocation::Address(0x2000_0000)));
    assert_eq!(children[0].variable_type.display(), "u8");
    assert_eq!(children[0].byte_size, 1);
    assert_eq!(children[0].variable_unit_offset, Some(44));
    let source = children[0].source_location.as_ref().unwrap();
    assert_eq!(source.file.as_deref(), Some("main.rs"));
    assert_eq!(source.line, Some(12));
    assert!(matches!(&children[1].name, VariableName::Named(name) if name == "y"));
    assert!(matches!(children[1].memory_location, VariableLocation::Register(5)));
}

#[test]
fn a_block_of_what_was_read_is_out_of_scope() {
    let unit = unit();
    let target = target(0x1015);
    let mut cache = VariableCache::new();
    let root = cache.cache_variable(None, Variable::new(None, None), &target).unwrap();
    let node = unit.find_entry(30).unwrap();
    let root = unit.process_tree(node, root, &target, &mut cache).unwrap();
    assert_eq!(root.get_value(), "<lexical block no longer in scope>");
    assert_eq!(cache.get_children(root.variable_key).len(), 1);
}

#[test]
fn names_of_tags_and_attributes() {
    assert_eq!(describe_tag(DW_TAG_MEMBER), "Some(\"DW_TAG_member\")");
    assert_eq!(describe_tag(0x7fff), "None");
    assert_eq!(describe_attribute(DW_AT_TYPE), "Some(\"DW_AT_type\")");
    assert_eq!(describe_attribute(0x1fff), "None");
}

#[test]
fn tags_have_their_numbers() {
    for (tag, expected) in [
        (DW_TAG_ARRAY_TYPE, gimli::DW_TAG_array_type),
        (DW_TAG_ENUMERATION_TYPE, gimli::DW_TAG_enumeration_type),
        (DW_TAG_FORMAL_PARAMETER, gimli::DW_TAG_formal_parameter),
        (DW_TAG_LEXICAL_BLOCK, gimli::DW_TAG_lexical_block),
        (DW_TAG_MEMBER, gimli::DW_TAG_member),
        (DW_TAG_POINTER_TYPE, gimli::DW_TAG_pointer_type),
        (DW_TAG_COMPILE_UNIT, gimli::DW_TAG_compile_unit),
        (DW_TAG_STRUCTURE_TYPE, gimli::DW_TAG_structure_type),
        (DW_TAG_SUBROUTINE_TYPE, gimli::DW_TAG_subroutine_type),
        (DW_TAG_UNION_TYPE, gimli::DW_TAG_union_type),
        (DW_TAG_VARIANT, gimli::DW_TAG_variant),
        (DW_TAG_INLINED_SUBROUTINE, gimli::DW_TAG_inlined_subroutine),
        (DW_TAG_SUBRANGE_TYPE, gimli::DW_TAG_subrange_type),
        (DW_TAG_BASE_TYPE, gimli::DW_TAG_base_type),
        (DW_TAG_ENUMERATOR, gimli::DW_TAG_enumerator),
        (DW_TAG_SUBPROGRAM, gimli::DW_TAG_subprogram),
        (DW_TAG_TEMPLATE_TYPE_PARAMETER, gimli::DW_TAG_template_type_parameter),
        (DW_TAG_VARIANT_PART, gimli::DW_TAG_variant_part),
        (DW_TAG_VARIABLE, gimli::DW_TAG_variable),
        (DW_TAG_NAMESPACE, gimli::DW_TAG_namespace),
    ] {
        assert_eq!(tag, expected.0);
    }
}

#[test]
fn attributes_have_their_numbers() {
    for (attribute, expected) in [
        (DW_AT_LOCATION, gimli::DW_AT_location),
        (DW_AT_NAME, gimli::DW_AT_name),
        (DW_AT_BYTE_SIZE, gimli::DW_AT_byte_size),
        (DW_AT_LOW_PC, gimli::DW_AT_low_pc),
        (DW_AT_HIGH_PC, gimli::DW_AT_high_pc),
        (DW_AT_DISCR, gimli::DW_AT_discr),
        (DW_AT_DISCR_VALUE, gimli::DW_AT_discr_value),
        (DW_AT_CONST_VALUE, gimli::DW_AT_const_value),
        (DW_AT_CONTAINING_TYPE, gimli::DW_AT_containing_type),
        (DW_AT_LOWER_BOUND, gimli::DW_AT_lower_bound),
        (DW_AT_UPPER_BOUND, gimli::DW_AT_upper_bound),
        (DW_AT_ABSTRACT_ORIGIN, gimli::DW_AT_abstract_origin),
        (DW_AT_ADDRESS_CLASS, gimli::DW_AT_address_class),
        (DW_AT_ARTIFICIAL, gimli::DW_AT_artificial),
        (DW_AT_COUNT, gimli::DW_AT_count),
        (DW_AT_DATA_MEMBER_LOCATION, gimli::DW_AT_data_member_location),
        (DW_AT_DECL_COLUMN, gimli::DW_AT_decl_column),
        (DW_AT_DECL_FILE, gimli::DW_AT_decl_file),
        (DW_AT_DECL_LINE, gimli::DW_AT_decl_line),
        (DW_AT_DECLARATION, gimli::DW_AT_declaration),
        (DW_AT_ENCODING, gimli::DW_AT_encoding),
        (DW_AT_EXTERNAL, gimli::DW_AT_external),
        (DW_AT_FRAME_BASE, gimli::DW_AT_frame_base),
        (DW_AT_TYPE, gimli::DW_AT_type),
        (DW_AT_RANGES, gimli::DW_AT_ranges),
        (DW_AT_ENUM_CLASS, gimli::DW_AT_enum_class),
        (DW_AT_LINKAGE_NAME, gimli::DW_AT_linkage_name),
        (DW_AT_ALIGNMENT, gimli::DW_AT_alignment),
    ] {
        assert_eq!(attribute, expected.0);
    }
}
