use unit_info::dwarf::Range;
use unit_info::error::DebugError;
use unit_info::target::{
    DebugRegister, DebugRegisters, KnownValue, MemoryRead, MemoryReply, RegisterValue, Target,
};
use unit_info::text::{i64_text, join4, parse_u64, same_text, starts_with, u64_text};
use unit_info::variable::{
    SourceLocation, Variable, VariableLocation, VariableName, VariableNodeType, VariableType, VariableValue,
    VariantRole,
};

fn target() -> Target {
    Target {
        registers: DebugRegisters {
            program_counter: None,
            frame_pointer: None,
            registers: vec![
                DebugRegister { dwarf_id: 3, value: None },
                DebugRegister { dwarf_id: 4, value: Some(RegisterValue::U32(17)) },
                DebugRegister { dwarf_id: 4, value: Some(RegisterValue::U32(18)) },
            ],
        },
        memory: vec![
            MemoryRead { address: 0x10, size: 2, data: Some(vec![1]) },
            MemoryRead { address: 0x10, size: 2, data: Some(vec![1, 2]) },
            MemoryRead { address: 0x20, size: 4, data: None },
        ],
        values: vec![KnownValue {
            variable_type: VariableType::Base("u8".to_string()),
            memory_location: VariableLocation::Address(0x10),
            byte_size: 1,
            value: VariableValue::Valid("5".to_string()),
        }],
    }
}

#[test]
fn numerals_of_unsigned_numbers() {
    assert_eq!(u64_text(0), "0");
    assert_eq!(u64_text(1203), "1203");
    assert_eq!(u64_text(u64::MAX), "18446744073709551615");
}

#[test]
fn numerals_of_signed_numbers() {
    assert_eq!(i64_text(0), "0");
    assert_eq!(i64_text(-1), "-1");
    assert_eq!(i64_text(42), "42");
    assert_eq!(i64_text(i64::MIN), "-9223372036854775808");
}

#[test]
fn numerals_are_read_back() {
    for n in [0, 1, 9, 10, 255, 1 << 40, u64::MAX] {
        assert_eq!(parse_u64(&u64_text(n)), Some(n));
    }
}

#[test]
fn what_is_no_numeral_is_not_read() {
    for text in ["", "+", "-1", " 1", "1 ", "0x10", "18446744073709551616", "one"] {
        assert_eq!(parse_u64(text), None);
    }
    assert_eq!(parse_u64("+7"), Some(7));
    assert_eq!(parse_u64("007"), Some(7));
}

#[test]
fn texts_are_compared_and_joined() {
    assert!(starts_with("Option<u8>", "Option"));
    assert!(starts_with("Ok", "Ok"));
    assert!(!starts_with("O", "Ok"));
    assert!(starts_with("x", ""));
    assert!(same_text("a", "a"));
    assert!(!same_text("a", "ab"));
    assert_eq!(join4("a", "bc", "", "d"), "abcd");
}

#[test]
fn errors_accumulate() {
    let mut variable = Variable::new(None, None);
    assert!(variable.is_valid());
    variable.set_value(VariableValue::Valid("1".to_string()));
    variable.set_error("first".to_string());
    assert!(!variable.is_valid());
    variable.set_error("second".to_string());
    assert_eq!(variable.get_value(), "first : second");
    variable.set_value(VariableValue::Valid("2".to_string()));
    assert!(variable.is_valid());
    assert_eq!(variable.get_value(), "2");
}

#[test]
fn a_new_variable_knows_its_entry_only() {
    let variable = Variable::new(Some(0), Some(11));
    assert_eq!(variable.variable_key, 0);
    assert_eq!(variable.parent_key, None);
    assert_eq!(variable.unit_header_offset, Some(0));
    assert_eq!(variable.variable_unit_offset, Some(11));
    assert!(matches!(variable.name, VariableName::Unknown));
    assert!(matches!(variable.value, VariableValue::Empty));
    assert!(matches!(variable.variable_type, VariableType::Unknown));
    assert!(matches!(variable.memory_location, VariableLocation::Unknown));
    assert_eq!(variable.variable_node_type, VariableNodeType::RecurseToBaseType);
    assert_eq!(variable.role, VariantRole::NonVariant);
    assert_eq!(variable.get_value(), "");
}

#[test]
fn a_variable_is_described_with_all_that_is_known() {
    let mut variable = Variable::new(Some(0), Some(11));
    assert_eq!(
        variable.describe(),
        "Variable { variable_key: 0, parent_key: None, name: Unknown, value: Empty, \
         source_location: None, type_name: Unknown, \
         unit_header_offset: Some(DebugInfoOffset(0)), \
         variable_unit_offset: Some(UnitOffset(11)), variable_node_type: RecurseToBaseType, \
         memory_location: Unknown, byte_size: 0, member_index: None, range_lower_bound: 0, \
         range_upper_bound: 0, role: NonVariant }"
    );
    variable.variable_key = 7;
    variable.parent_key = Some(-3);
    variable.name = VariableName::Named("a\"b\\c".to_string());
    variable.set_value(VariableValue::Valid("1\n".to_string()));
    variable.source_location = Some(SourceLocation {
        line: Some(3),
        column: None,
        file: Some("main.rs".to_string()),
        directory: None,
        low_pc: Some(16),
        high_pc: None,
    });
    variable.unit_header_offset = None;
    variable.variable_unit_offset = None;
    variable.variable_node_type = VariableNodeType::TypeOffset(30);
    variable.memory_location = VariableLocation::Address(4096);
    variable.member_index = Some(-1);
    variable.range_lower_bound = -2;
    variable.role = VariantRole::VariantPart(9);
    assert_eq!(
        variable.describe(),
        "Variable { variable_key: 7, parent_key: Some(-3), name: Named(\"a\\\"b\\\\c\"), \
         value: Valid(\"1\\n\"), source_location: Some(SourceLocation { line: Some(3), \
         column: None, file: Some(\"main.rs\"), directory: None, low_pc: Some(16), \
         high_pc: None }), type_name: Unknown, unit_header_offset: None, \
         variable_unit_offset: None, variable_node_type: TypeOffset(UnitOffset(30)), \
         memory_location: Address(4096), byte_size: 0, member_index: Some(-1), \
         range_lower_bound: -2, range_upper_bound: 0, role: VariantPart(9) }"
    );
    variable.variable_node_type = VariableNodeType::ReferenceOffset(31);
    assert_eq!(variable.variable_node_type.describe(), "ReferenceOffset(UnitOffset(31))");
}

#[test]
fn texts_are_quoted_as_they_are_elsewhere() {
    for text in ["", "plain", "a \"b\"", "back\\slash", "tab\tline\n", "\u{0}\u{1b}", "na\u{ef}ve"] {
        let name = VariableName::Named(text.to_string());
        assert_eq!(name.describe(), format!("{:?}", name));
        let kind = VariableType::Pointer(Some(text.to_string()));
        assert_eq!(kind.describe(), format!("{:?}", kind));
        let value = VariableValue::Error(text.to_string());
        assert_eq!(value.describe(), format!("{:?}", value));
        let place = VariableLocation::Unsupported(text.to_string());
        assert_eq!(place.describe(), format!("{:?}", place));
    }
}

#[test]
fn names_are_shown_and_described() {
    assert_eq!(VariableName::Named("x".to_string()).display(), "x");
    assert_eq!(VariableName::Named("x".to_string()).describe(), "Named(\"x\")");
    assert_eq!(VariableName::AnonymousNamespace.describe(), "AnonymousNamespace");
    assert_eq!(VariableName::Unknown.display(), "<unknown>");
}

#[test]
fn types_are_shown_and_described() {
    let array = VariableType::Array {
        count: 3,
        entry_type: VariableName::Named("u8".to_string()),
    };
    assert_eq!(array.display(), "[u8; 3]");
    assert_eq!(array.describe(), "Array { count: 3, entry_type: Named(\"u8\") }");
    assert_eq!(VariableType::Pointer(None).describe(), "Pointer(None)");
    assert_eq!(VariableType::Unknown.describe(), "Unknown");
    assert!(VariableType::Struct("PhantomData<u8>".to_string()).is_phantom_data());
    assert!(!VariableType::Base("PhantomData<u8>".to_string()).is_phantom_data());
}

#[test]
fn places_are_described() {
    assert_eq!(VariableLocation::Address(16).describe(), "Address(16)");
    assert_eq!(VariableLocation::Register(4).describe(), "Register(4)");
    assert_eq!(VariableLocation::Value.describe(), "Value");
}

#[test]
fn errors_of_expressions_are_described() {
    assert_eq!(DebugError::Dwarf("x".to_string()).describe(), "Dwarf(x)");
    assert_eq!(DebugError::Other("y".to_string()).describe(), "Other(y)");
    assert_eq!(DebugError::RegisterTooWide.describe(), "RegisterTooWide");
    assert!(DebugError::NeedsMemory { address: 0, size: 1 }.is_for_caller());
    assert!(DebugError::UnsupportedMemorySize(8).is_for_caller());
    assert!(!DebugError::RegisterTooWide.is_for_caller());
}

#[test]
fn registers_hold_numbers() {
    assert_eq!(RegisterValue::U32(7).to_u64(), Some(7));
    assert_eq!(RegisterValue::U64(u64::MAX).to_u64(), Some(u64::MAX));
    assert_eq!(RegisterValue::U128(1 << 64).to_u64(), None);
    assert_eq!(RegisterValue::U128(1 << 64).value(), 1 << 64);
}

#[test]
fn registers_are_found_by_number() {
    let target = target();
    assert_eq!(target.registers.get_register_by_dwarf_id(3), None);
    assert_eq!(target.registers.get_register_by_dwarf_id(4), Some(RegisterValue::U32(17)));
    assert_eq!(target.registers.get_register_by_dwarf_id(5), None);
}

#[test]
fn replies_of_the_memory_are_found() {
    let target = target();
    match target.read(0x10, 2) {
        MemoryReply::Bytes(bytes) => assert_eq!(bytes, vec![1, 2]),
        other => panic!("{:?}", other),
    }
    assert!(matches!(target.read(0x20, 4), MemoryReply::Refused));
    assert!(matches!(target.read(0x20, 1), MemoryReply::Missing));
}

#[test]
fn values_are_found_by_type_place_and_size() {
    let target = target();
    let mut variable = Variable::new(None, None);
    variable.variable_type = VariableType::Base("u8".to_string());
    variable.memory_location = VariableLocation::Address(0x10);
    variable.byte_size = 1;
    assert!(matches!(target.value_of(&variable), Some(VariableValue::Valid(text)) if text == "5"));
    variable.byte_size = 2;
    assert!(target.value_of(&variable).is_none());
}

#[test]
fn ranges_exclude_their_end() {
    let range = Range { begin: 4, end: 6 };
    assert!(!range.contains(3));
    assert!(range.contains(4));
    assert!(range.contains(5));
    assert!(!range.contains(6));
    assert!(!Range { begin: 4, end: 4 }.contains(4));
}
