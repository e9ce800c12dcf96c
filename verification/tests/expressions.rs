use unit_info::dwarf::{
    Attribute, AttributeValue, Encoding, Entry, LocationEntry, LocationList, Range, UnitInfo,
    DW_AT_ADDRESS_CLASS, DW_AT_DATA_MEMBER_LOCATION, DW_AT_FRAME_BASE, DW_AT_LOCATION, DW_AT_NAME,
    DW_TAG_VARIABLE,
};
use unit_info::cache::VariableCache;
use unit_info::error::DebugError;
use unit_info::evaluation::{
    answer_request, locate, Answer, EvaluationRequest, MemoryValue, PieceLocation, PieceValue,
};
use unit_info::target::{
    DebugRegister, DebugRegisters, MemoryRead, RegisterValue, Target,
};
use unit_info::variable::{Variable, VariableLocation, VariableValue};

fn unit() -> UnitInfo {
    UnitInfo {
        header_offset: Some(0),
        encoding: Encoding { address_size: 4, is_64_bit: false, version: 4 },
        first_offset: 11,
        end_offset: 100,
        entries: vec![],
        walked: 0,
        files: vec![],
    }
}

fn target() -> Target {
    Target {
        registers: DebugRegisters {
            program_counter: Some(RegisterValue::U32(0x104)),
            frame_pointer: Some(RegisterValue::U32(0x2000)),
            registers: vec![DebugRegister { dwarf_id: 7, value: Some(RegisterValue::U32(0x3000)) }],
        },
        memory: vec![],
        values: vec![],
    }
}

fn address_of(expression: &[u8], target: &Target) -> VariableLocation {
    let mut variable = Variable::new(None, None);
    unit().evaluate_expression(target, &mut variable, &expression.to_vec()).unwrap();
    variable.memory_location
}

fn error_of(expression: &[u8], target: &Target) -> DebugError {
    unit().expression_to_piece(target, &expression.to_vec()).unwrap_err()
}

fn other(error: DebugError) -> String {
    match error {
        DebugError::Other(text) => text,
        error => panic!("{:?}", error),
    }
}

#[test]
fn an_address() {
    let place = address_of(&[0x03, 0x10, 0x20, 0x30, 0x40], &target());
    assert!(matches!(place, VariableLocation::Address(0x4030_2010)));
}

#[test]
fn an_offset_from_the_frame_base() {
    // DW_OP_fbreg -16
    let place = address_of(&[0x91, 0x70], &target());
    assert!(matches!(place, VariableLocation::Address(0x1ff0)));
}

#[test]
fn an_offset_from_a_register() {
    // DW_OP_breg7 8
    let place = address_of(&[0x77, 0x08], &target());
    assert!(matches!(place, VariableLocation::Address(0x3008)));
}

#[test]
fn a_register() {
    // DW_OP_reg5
    let place = address_of(&[0x55], &target());
    assert!(matches!(place, VariableLocation::Register(5)));
}

#[test]
fn values_are_shown() {
    // DW_OP_lit7, DW_OP_stack_value
    let mut variable = Variable::new(None, None);
    unit().evaluate_expression(&target(), &mut variable, &vec![0x37, 0x9f]).unwrap();
    assert!(matches!(variable.memory_location, VariableLocation::Value));
    assert_eq!(variable.get_value(), "7");
}

#[test]
fn a_piece_without_a_place_means_optimized_away() {
    // DW_OP_piece 4
    let mut variable = Variable::new(None, None);
    unit().evaluate_expression(&target(), &mut variable, &vec![0x93, 0x04]).unwrap();
    assert!(matches!(variable.memory_location, VariableLocation::Unavailable));
    assert_eq!(variable.get_value(), "<value optimized away by compiler>");
}

#[test]
fn sizes_of_pieces_that_are_too_large() {
    // DW_OP_reg5, DW_OP_piece: 2^61 bytes, and as many as there can be.
    let size = |last: &[u8]| [&[0x55, 0x93][..], &[0x80; 8], last].concat();
    for last in [&[0x1f][..], &[0x20], &[0x80, 0x01], &[0xff, 0x01]] {
        let mut variable = Variable::new(None, None);
        unit().evaluate_expression(&target(), &mut variable, &size(last)).unwrap();
        assert!(matches!(variable.memory_location, VariableLocation::Register(5)));
    }
    // A size that takes more than 64 bits, or has no end, cannot be read.
    assert!(matches!(error_of(&size(&[0xff, 0x02]), &target()), DebugError::Dwarf(_)));
    assert!(matches!(error_of(&size(&[]), &target()), DebugError::Dwarf(_)));
    // What follows a piece is still an operation of its own: DW_OP_reg6, DW_OP_piece 4.
    let mut variable = Variable::new(None, None);
    let expression = [&size(&[0xff, 0x01])[..], &[0x56, 0x93, 0x04]].concat();
    unit().evaluate_expression(&target(), &mut variable, &expression).unwrap();
    assert_eq!(variable.get_value(), "<unsupported memory implementation>");
}

#[test]
fn a_number_that_looks_like_the_end_of_a_piece() {
    // DW_OP_addr, DW_OP_stack_value and DW_OP_skip over what looks like a piece of 2^61 bytes.
    let piece = [0x93, 0x80, 0x80, 0x80, 0x80, 0x80, 0x80, 0x80, 0x80, 0x20];
    let skipped = [&[0x03, 0x00, 0x01, 0x00, 0x00, 0x2f, 0x0a, 0x00][..], &piece].concat();
    assert!(matches!(address_of(&skipped, &target()), VariableLocation::Address(0x100)));
    // DW_OP_const1u, the number of DW_OP_const8u, DW_OP_nop and DW_OP_plus: in the number and what
    // follows it a size of more than 2^61 bytes could be read.
    let sum = [0x08, 0x20, 0x0e, 0x93, 0x80, 0x80, 0x80, 0x80, 0x80, 0x80, 0x80, 0x96, 0x22];
    assert!(matches!(address_of(&sum, &target()), VariableLocation::Address(0x8080_80b3)));
    // DW_OP_implicit_value: 11 bytes that look like a piece.
    let value = [&[0x9e, 0x0b][..], &piece[..9], &[0xa0, 0x01]].concat();
    let pieces = unit().expression_to_piece(&target(), &value).unwrap();
    assert_eq!(pieces.len(), 1);
    assert!(matches!(pieces[0], PieceLocation::Other(_)));
}

#[test]
fn operations_that_share_the_bytes_of_a_size() {
    // DW_OP_bra may lead to the last but two bytes of a size that is too large: DW_OP_breg16.
    let piece = [0x93, 0x80, 0x80, 0x80, 0x80, 0x80, 0x80, 0x80, 0x80, 0xa0, 0x01];
    let shared = [&[0x30, 0x28, 0x09, 0x00, 0x55][..], &piece].concat();
    assert_eq!(other(error_of(&shared, &target())), "Unsupported size of a piece");
    // It leads to the end otherwise.
    let apart = [&[0x30, 0x28, 0x0c, 0x00, 0x55][..], &piece].concat();
    let pieces = unit().expression_to_piece(&target(), &apart).unwrap();
    assert!(matches!(pieces[..], [PieceLocation::Register(5)]));
}

#[test]
fn several_pieces_are_not_supported() {
    // DW_OP_reg0, DW_OP_piece 4, DW_OP_reg1, DW_OP_piece 4
    let mut variable = Variable::new(None, None);
    let expression = vec![0x50, 0x93, 0x04, 0x51, 0x93, 0x04];
    unit().evaluate_expression(&target(), &mut variable, &expression).unwrap();
    assert_eq!(variable.get_value(), "<unsupported memory implementation>");
    assert_eq!(
        variable.memory_location.describe(),
        "Unsupported(\"<unsupported memory implementation>\")"
    );
}

#[test]
fn an_address_of_zero_is_unknown() {
    // Four bytes of address: the largest address is the mark of an unknown one.
    let mut variable = Variable::new(None, None);
    let error = unit()
        .evaluate_expression(&target(), &mut variable, &vec![0x03, 0, 0, 0, 0])
        .unwrap_err();
    assert!(other(error).starts_with("BUG: Cannot resolve due to rust-lang issue"));
    assert!(matches!(variable.memory_location, VariableLocation::Unknown));
    assert!(matches!(variable.value, VariableValue::Empty));
}

#[test]
fn memory_is_asked_for_and_read() {
    // DW_OP_addr 0x100, DW_OP_deref
    let expression = [0x03, 0x00, 0x01, 0x00, 0x00, 0x06];
    let mut target = target();
    assert!(matches!(
        error_of(&expression, &target),
        DebugError::NeedsMemory { address: 0x100, size: 4 }
    ));
    target.memory.push(MemoryRead { address: 0x100, size: 4, data: Some(vec![1, 2, 3, 4]) });
    let error = unit().expression_to_piece(&target, &expression.to_vec());
    match error {
        Ok(pieces) => assert!(matches!(pieces[..], [PieceLocation::Address(0x0102_0304)])),
        Err(error) => panic!("{:?}", error),
    }
}

#[test]
fn memory_of_one_and_two_bytes() {
    // DW_OP_addr 0x100, DW_OP_deref_size n
    for (size, data, address) in [(1u8, vec![9], 9), (2u8, vec![1, 2], 0x0102)] {
        let mut target = target();
        let size_in_memory = size as usize;
        target.memory.push(MemoryRead { address: 0x100, size: size_in_memory, data: Some(data) });
        let expression = [0x03, 0x00, 0x01, 0x00, 0x00, 0x94, size];
        match address_of(&expression, &target) {
            VariableLocation::Address(place) => assert_eq!(place, address),
            place => panic!("{:?}", place),
        }
    }
}

#[test]
fn memory_that_is_refused() {
    let mut target = target();
    target.memory.push(MemoryRead { address: 0x100, size: 4, data: None });
    let error = error_of(&[0x03, 0x00, 0x01, 0x00, 0x00, 0x06], &target);
    assert_eq!(
        other(error),
        "Unexpected error while reading debug expressions from target memory. Please report this as a bug."
    );
}

#[test]
fn memory_of_an_unsupported_size() {
    let mut target = target();
    target.memory.push(MemoryRead { address: 0x100, size: 3, data: Some(vec![1, 2, 3]) });
    let error = error_of(&[0x03, 0x00, 0x01, 0x00, 0x00, 0x94, 3], &target);
    assert!(matches!(error, DebugError::UnsupportedMemorySize(3)));
}

#[test]
fn a_missing_frame_pointer() {
    let mut target = target();
    target.registers.frame_pointer = None;
    assert_eq!(
        other(error_of(&[0x91, 0x70], &target)),
        "Cannot unwind `Variable` location without a valid CFA (canonical frame address)"
    );
}

#[test]
fn a_frame_pointer_that_is_too_wide() {
    let mut target = target();
    target.registers.frame_pointer = Some(RegisterValue::U128(1 << 64));
    assert!(matches!(error_of(&[0x91, 0x70], &target), DebugError::RegisterTooWide));
}

#[test]
fn a_missing_register() {
    assert_eq!(
        other(error_of(&[0x78, 0x08], &target())),
        "Error while calculating `Variable::memory_location`. No value for register #:8."
    );
}

#[test]
fn an_expression_that_cannot_be_read() {
    match error_of(&[0x03, 0x00], &target()) {
        DebugError::Dwarf(text) => assert_eq!(text, "UnexpectedEof"),
        error => panic!("{:?}", error),
    }
    match error_of(&[], &target()) {
        DebugError::Dwarf(text) => assert_eq!(text, "NotEnoughStackItems"),
        error => panic!("{:?}", error),
    }
}

#[test]
fn an_error_behind_the_frame_base() {
    // DW_OP_fbreg 0, and an operation that is cut off
    let text = other(error_of(&[0x91, 0x00, 0x03], &target()));
    assert_eq!(
        text,
        "Error while calculating `Variable::memory_location`:Hit the end of input before it was expected."
    );
}

#[test]
fn an_expression_that_asks_for_something_else() {
    // DW_OP_call_frame_cfa
    let text = other(error_of(&[0x9c], &target()));
    assert_eq!(
        text,
        "Unimplemented: Expressions that include RequiresCallFrameCfa are not currently supported."
    );
}

#[test]
fn answers_to_requests() {
    let target = target();
    let base = RegisterValue::U32(0x2000);
    let answer = |request: EvaluationRequest| answer_request(&request, &target, base);
    assert_eq!(
        answer(EvaluationRequest::RelocatedAddress(0)).unwrap(),
        Answer::RelocatedAddress(u64::MAX)
    );
    assert_eq!(
        answer(EvaluationRequest::RelocatedAddress(5)).unwrap(),
        Answer::RelocatedAddress(5)
    );
    assert_eq!(answer(EvaluationRequest::FrameBase).unwrap(), Answer::FrameBase(0x2000));
    assert_eq!(
        answer(EvaluationRequest::Register { register: 7, base_type: 0 }).unwrap(),
        Answer::Register(0x3000)
    );
    let typed = answer(EvaluationRequest::Register { register: 7, base_type: 9 });
    assert_eq!(
        other(typed.unwrap_err()),
        "Unimplemented: Support for type UnitOffset(9) in `RequiresRegister` request is not yet implemented."
    );
}

#[test]
fn answers_from_memory_take_the_first_byte_as_the_highest() {
    let mut target = target();
    target.memory.push(MemoryRead { address: 1, size: 1, data: Some(vec![0xfe]) });
    target.memory.push(MemoryRead { address: 1, size: 2, data: Some(vec![0xfe, 0x01]) });
    target.memory.push(MemoryRead { address: 1, size: 4, data: Some(vec![0xfe, 1, 2, 3]) });
    let base = RegisterValue::U32(0);
    let answer = |size: u8| {
        answer_request(&EvaluationRequest::Memory { address: 1, size }, &target, base).unwrap()
    };
    assert_eq!(answer(1), Answer::Memory(MemoryValue::U8(0xfe)));
    assert_eq!(answer(2), Answer::Memory(MemoryValue::U16(0xfe01)));
    assert_eq!(answer(4), Answer::Memory(MemoryValue::U32(0xfe01_0203)));
}

#[test]
fn pieces_say_where_a_variable_is() {
    let place = |piece: PieceLocation| {
        let mut variable = Variable::new(None, None);
        locate(&mut variable, &vec![piece]).unwrap();
        variable
    };
    let signed = place(PieceLocation::Value(PieceValue::Signed(-3)));
    assert_eq!(signed.get_value(), "-3");
    let float = place(PieceLocation::Value(PieceValue::Float("1.5".to_string())));
    assert_eq!(float.get_value(), "1.5");
    let address = place(PieceLocation::Address(8));
    assert!(matches!(address.memory_location, VariableLocation::Address(8)));
    let mut variable = Variable::new(None, None);
    let error = locate(&mut variable, &vec![PieceLocation::Other("X".to_string())]).unwrap_err();
    assert_eq!(other(error), "Unimplemented: extract_location() found a location type: X");
    let error = locate(&mut variable, &vec![]).unwrap_err();
    assert_eq!(other(error), "Error: expr_to_piece() returned 0 results: []");
}

#[test]
fn a_value_that_is_signed() {
    // DW_OP_const1s -3 as a typed value is out of reach of version 4; a literal is unsigned.
    let mut variable = Variable::new(None, None);
    unit().evaluate_expression(&target(), &mut variable, &vec![0x09, 0xfd, 0x9f]).unwrap();
    assert_eq!(variable.get_value(), "18446744073709551613");
}

fn attribute(name: u16, value: AttributeValue) -> Attribute {
    let debug = format!("{:?}", value);
    Attribute { name, value, udata: None, text: debug.clone(), debug }
}

fn located(attributes: Vec<Attribute>, parent: VariableLocation, target: &Target) -> Result<Variable, DebugError> {
    let mut unit = unit();
    unit.entries.push(Entry {
        offset: 11,
        tag: DW_TAG_VARIABLE,
        has_children: false,
        depth: 0,
        attributes,
        attributes_error: None,
        children: vec![],
        children_error: None,
        ranges: Ok(vec![]),
    });
    let mut cache = VariableCache::new();
    let mut root = Variable::new(None, None);
    root.memory_location = parent;
    let root = cache.cache_variable(None, root, target).unwrap();
    let child = cache
        .cache_variable(Some(root.variable_key), Variable::new(None, None), target)
        .unwrap();
    let found = unit.extract_location(0, &root, child, target, &mut cache)?;
    let latest = cache.get_variable_by_key(found.variable_key).unwrap();
    assert_eq!(latest.memory_location.describe(), found.memory_location.describe());
    assert_eq!(latest.get_value(), found.get_value());
    assert_eq!(found.parent_key, Some(root.variable_key));
    Ok(found)
}

#[test]
fn a_member_stands_at_an_offset_from_its_parent() {
    let member = || vec![attribute(DW_AT_DATA_MEMBER_LOCATION, AttributeValue::Udata(4))];
    let found = located(member(), VariableLocation::Address(0x100), &target()).unwrap();
    assert!(matches!(found.memory_location, VariableLocation::Address(0x104)));
    let found = located(member(), VariableLocation::Value, &target()).unwrap();
    assert!(matches!(found.memory_location, VariableLocation::Unavailable));
    let error = located(member(), VariableLocation::Address(u64::MAX), &target()).unwrap_err();
    assert!(matches!(error, DebugError::AddressOverflow));
}

#[test]
fn expressions_of_attributes_are_evaluated() {
    let expression = vec![0x03, 0x10, 0, 0, 0];
    let found = located(
        vec![attribute(DW_AT_LOCATION, AttributeValue::Exprloc(expression))],
        VariableLocation::Unknown,
        &target(),
    )
    .unwrap();
    assert!(matches!(found.memory_location, VariableLocation::Address(0x10)));
    let found = located(
        vec![attribute(DW_AT_FRAME_BASE, AttributeValue::Exprloc(vec![0x78, 0x08]))],
        VariableLocation::Unknown,
        &target(),
    )
    .unwrap();
    assert_eq!(
        found.get_value(),
        "Error: Determining memory location for this variable: Other(Error while calculating `Variable::memory_location`. No value for register #:8.)"
    );
    let found = located(
        vec![attribute(DW_AT_LOCATION, AttributeValue::Exprloc(vec![]))],
        VariableLocation::Unknown,
        &target(),
    )
    .unwrap();
    assert_eq!(
        found.get_value(),
        "Error: Determining memory location for this variable: Dwarf(NotEnoughStackItems)"
    );
}

#[test]
fn a_missing_read_stops_the_search_for_a_place() {
    let error = located(
        vec![attribute(
            DW_AT_LOCATION,
            AttributeValue::Exprloc(vec![0x03, 0x00, 0x01, 0x00, 0x00, 0x06]),
        )],
        VariableLocation::Unknown,
        &target(),
    )
    .unwrap_err();
    assert!(matches!(error, DebugError::NeedsMemory { address: 0x100, size: 4 }));
}

fn list(error: Option<&str>) -> AttributeValue {
    AttributeValue::LocationListsRef(LocationList::Entries {
        entries: vec![
            LocationEntry { range: Range { begin: 0x100, end: 0x104 }, expression: vec![0x50] },
            LocationEntry { range: Range { begin: 0x104, end: 0x108 }, expression: vec![0x51] },
            LocationEntry { range: Range { begin: 0x104, end: 0x200 }, expression: vec![0x52] },
        ],
        error: error.map(|text| text.to_string()),
    })
}

fn by_list(value: AttributeValue, program_counter: Option<RegisterValue>) -> Variable {
    let mut target = target();
    target.registers.program_counter = program_counter;
    located(vec![attribute(DW_AT_LOCATION, value)], VariableLocation::Unknown, &target).unwrap()
}

#[test]
fn lists_of_places_go_by_the_program_counter() {
    let at = |address: u32| by_list(list(None), Some(RegisterValue::U32(address)));
    assert!(matches!(at(0x103).memory_location, VariableLocation::Register(0)));
    assert!(matches!(at(0x104).memory_location, VariableLocation::Register(1)));
    assert!(matches!(at(0x108).memory_location, VariableLocation::Register(2)));
    assert_eq!(at(0x200).get_value(), "<value out of scope - moved or dropped>");
}

#[test]
fn lists_of_places_that_go_wrong() {
    let found = by_list(list(Some("broken")), Some(RegisterValue::U32(0x200)));
    assert_eq!(
        found.get_value(),
        "Error: Iterating LocationLists for this variable: broken : <value out of scope - moved or dropped>"
    );
    let found = by_list(list(None), None);
    assert_eq!(
        found.get_value(),
        "Cannot determine variable location without a valid program counter."
    );
    let unreadable = AttributeValue::LocationListsRef(LocationList::Unreadable("bad".to_string()));
    let found = by_list(unreadable, Some(RegisterValue::U32(0)));
    assert_eq!(found.get_value(), "Error: Resolving variable Location: bad");
}

#[test]
fn places_that_are_not_supported() {
    let found = located(
        vec![attribute(DW_AT_LOCATION, AttributeValue::Flag(true))],
        VariableLocation::Unknown,
        &target(),
    )
    .unwrap();
    assert_eq!(
        found.get_value(),
        "Unimplemented: extract_location() Could not extract location from: Flag(true)"
    );
}

#[test]
fn address_classes() {
    let by_class = |value: AttributeValue| {
        located(
            vec![attribute(DW_AT_NAME, AttributeValue::Other), attribute(DW_AT_ADDRESS_CLASS, value)],
            VariableLocation::Unknown,
            &target(),
        )
        .unwrap()
        .get_value()
    };
    assert_eq!(by_class(AttributeValue::AddressClass(0)), "");
    assert_eq!(
        by_class(AttributeValue::AddressClass(2)),
        "Unimplemented: extract_location() found unsupported DW_AT_address_class(gimli::DwAddr(DwAddr(2)))"
    );
    assert_eq!(
        by_class(AttributeValue::Udata(2)),
        "Unimplemented: extract_location() found invalid DW_AT_address_class: Udata(2)"
    );
}
