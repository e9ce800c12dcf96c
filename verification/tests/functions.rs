use unit_info::dwarf::{
    Attribute, AttributeValue, Encoding, Entry, Range, UnitInfo, DW_AT_ABSTRACT_ORIGIN,
    DW_TAG_COMPILE_UNIT, DW_TAG_INLINED_SUBROUTINE, DW_TAG_LEXICAL_BLOCK, DW_TAG_SUBPROGRAM,
};
use unit_info::error::DebugError;
use unit_info::functions::FunctionDie;
use unit_info::target::RegisterValue;

fn entry(offset: usize, tag: u16, depth: i64, ranges: &[(u64, u64)]) -> Entry {
    Entry {
        offset,
        tag,
        has_children: true,
        depth,
        attributes: vec![],
        attributes_error: None,
        children: vec![],
        children_error: None,
        ranges: Ok(ranges.iter().map(|range| Range { begin: range.0, end: range.1 }).collect()),
    }
}

fn inlined(offset: usize, depth: i64, ranges: &[(u64, u64)], origin: AttributeValue) -> Entry {
    let mut entry = entry(offset, DW_TAG_INLINED_SUBROUTINE, depth, ranges);
    entry.attributes.push(Attribute {
        name: DW_AT_ABSTRACT_ORIGIN,
        value: origin,
        udata: None,
        text: String::new(),
        debug: String::new(),
    });
    entry
}

fn unit(entries: Vec<Entry>) -> UnitInfo {
    UnitInfo {
        walked: entries.len(),
        header_offset: Some(0),
        encoding: Encoding { address_size: 4, is_64_bit: false, version: 4 },
        first_offset: 11,
        end_offset: 100,
        entries,
        files: vec![],
    }
}

/// Two functions; into the first, one was inlined, and into that another one.
fn program() -> UnitInfo {
    unit(vec![
        entry(11, DW_TAG_COMPILE_UNIT, 0, &[]),
        entry(20, DW_TAG_SUBPROGRAM, 1, &[(0x100, 0x120), (0x200, 0x210)]),
        entry(25, DW_TAG_LEXICAL_BLOCK, 1, &[]),
        inlined(30, 1, &[(0x104, 0x110)], AttributeValue::UnitRef(60)),
        inlined(40, 1, &[(0x106, 0x108)], AttributeValue::UnitRef(70)),
        inlined(50, -1, &[(0x110, 0x112)], AttributeValue::UnitRef(70)),
        entry(60, DW_TAG_SUBPROGRAM, -2, &[]),
        entry(70, DW_TAG_SUBPROGRAM, 0, &[(0x300, 0x310)]),
        inlined(80, 1, &[(0x104, 0x110)], AttributeValue::UnitRef(60)),
    ])
}

fn at(unit: &UnitInfo, address: u64, find_inlined: bool) -> Vec<FunctionDie> {
    unit.get_function_dies(RegisterValue::U64(address), find_inlined).unwrap()
}

fn offsets(functions: &[FunctionDie]) -> Vec<usize> {
    functions.iter().map(|function| function.offset).collect()
}

#[test]
fn a_function_is_found_by_its_ranges() {
    let unit = program();
    let first = FunctionDie { offset: 20, abstract_offset: None, low_pc: 0x100, high_pc: 0x120 };
    assert_eq!(at(&unit, 0x100, false), vec![first]);
    let second = FunctionDie { offset: 20, abstract_offset: None, low_pc: 0x200, high_pc: 0x210 };
    assert_eq!(at(&unit, 0x20f, false), vec![second]);
    assert_eq!(offsets(&at(&unit, 0x300, false)), vec![70]);
    assert_eq!(at(&unit, 0x120, false), vec![]);
    assert_eq!(at(&unit, 0x210, true), vec![]);
}

#[test]
fn every_function_contains_the_address() {
    let unit = program();
    for address in 0xf0..0x320 {
        for find_inlined in [false, true] {
            for function in at(&unit, address, find_inlined) {
                assert!(function.low_pc <= address && address < function.high_pc);
            }
        }
    }
}

#[test]
fn there_is_a_single_function_without_inlined_ones() {
    let unit = program();
    for address in 0xf0..0x320 {
        let single = at(&unit, address, false);
        assert!(single.len() <= 1);
        assert!(at(&unit, address, true).starts_with(&single));
    }
}

#[test]
fn inlined_functions_follow() {
    let unit = program();
    assert_eq!(offsets(&at(&unit, 0x103, true)), vec![20]);
    assert_eq!(offsets(&at(&unit, 0x105, true)), vec![20, 30]);
    let functions = at(&unit, 0x106, true);
    assert_eq!(offsets(&functions), vec![20, 30, 40]);
    assert_eq!(functions[1].abstract_offset, Some(60));
    assert_eq!(functions[2].abstract_offset, Some(70));
    assert_eq!((functions[2].low_pc, functions[2].high_pc), (0x106, 0x108));
}

#[test]
fn what_follows_a_function_is_what_was_inlined_into_it() {
    let unit = program();
    for address in 0xf0..0x320 {
        let mut functions = at(&unit, address, false);
        if let Some(function) = functions.first() {
            let address = RegisterValue::U64(address);
            functions.extend(unit.find_inlined_functions(address, function.offset).unwrap());
        }
        assert_eq!(at(&unit, address, true), functions);
    }
}

#[test]
fn the_search_ends_where_the_entries_are_less_deep_than_the_last_hit() {
    let unit = program();
    // The function at 80 has the address too, but stands behind the first one.
    assert_eq!(offsets(&at(&unit, 0x109, true)), vec![20, 30]);
    let inlined = unit.find_inlined_functions(RegisterValue::U32(0x111), 20).unwrap();
    assert_eq!(offsets(&inlined), vec![50]);
}

#[test]
fn what_was_inlined_into_another_function_is_not_found() {
    let unit = unit(vec![
        entry(11, DW_TAG_COMPILE_UNIT, 0, &[]),
        entry(20, DW_TAG_SUBPROGRAM, 1, &[(0x80, 0x90)]),
        entry(30, DW_TAG_SUBPROGRAM, 0, &[(0x100, 0x110)]),
        inlined(40, 1, &[(0x100, 0x110)], AttributeValue::UnitRef(20)),
    ]);
    let address = RegisterValue::U32(0x100);
    assert_eq!(unit.find_inlined_functions(address, 20).unwrap(), vec![]);
    assert_eq!(offsets(&unit.find_inlined_functions(address, 30).unwrap()), vec![40]);
    assert_eq!(offsets(&at(&unit, 0x100, true)), vec![30, 40]);
    // Ranges that cannot be read do not matter where they are of another function.
    let mut unit = unit;
    unit.entries[3].ranges = Err("bad".to_string());
    assert_eq!(unit.find_inlined_functions(address, 20).unwrap(), vec![]);
    assert!(unit.find_inlined_functions(address, 30).is_err());
}

#[test]
fn an_inlined_function_is_not_inlined_into_itself() {
    let unit = program();
    let inlined = unit.find_inlined_functions(RegisterValue::U32(0x106), 30).unwrap();
    assert_eq!(offsets(&inlined), vec![40]);
    assert_eq!(unit.find_inlined_functions(RegisterValue::U32(0x105), 30).unwrap(), vec![]);
    // The one at 50 stands beside it.
    assert_eq!(unit.find_inlined_functions(RegisterValue::U32(0x111), 30).unwrap(), vec![]);
}

#[test]
fn a_function_without_an_entry_has_no_inlined_functions() {
    assert!(program().find_inlined_functions(RegisterValue::U32(0x105), 21).unwrap().is_empty());
}

#[test]
fn an_inlined_function_without_a_definition_hides_all() {
    let mut unit = program();
    unit.entries[4].attributes.clear();
    assert_eq!(offsets(&at(&unit, 0x106, true)), vec![20]);
    assert_eq!(offsets(&at(&unit, 0x105, true)), vec![20, 30]);
}

#[test]
fn a_definition_that_cannot_be_found_is_passed_over() {
    let mut unit = program();
    unit.entries[3].attributes[0].value = AttributeValue::UnitRef(61);
    assert_eq!(offsets(&at(&unit, 0x106, true)), vec![20, 40]);
    unit.entries[3].attributes[0].value = AttributeValue::Other;
    assert_eq!(offsets(&at(&unit, 0x106, true)), vec![20, 40]);
}

#[test]
fn entries_that_are_only_referred_to_are_not_searched() {
    let mut unit = program();
    unit.walked = 4;
    assert_eq!(at(&unit, 0x300, false), vec![]);
    assert_eq!(offsets(&at(&unit, 0x106, true)), vec![20, 30]);
}

#[test]
fn ranges_that_cannot_be_read() {
    let mut unit = program();
    unit.entries[1].ranges = Err("bad".to_string());
    let error = unit.get_function_dies(RegisterValue::U32(0x300), false).unwrap_err();
    assert!(matches!(error, DebugError::Dwarf(text) if text == "bad"));
    let mut unit = program();
    unit.entries[3].ranges = Err("worse".to_string());
    assert_eq!(offsets(&at(&unit, 0x105, false)), vec![20]);
    let error = unit.get_function_dies(RegisterValue::U32(0x105), true).unwrap_err();
    assert!(matches!(error, DebugError::Dwarf(text) if text == "worse"));
}

#[test]
fn a_function_is_one_of_an_entry_with_the_right_tag() {
    let unit = program();
    assert!(FunctionDie::new(&unit, 0).is_none());
    assert_eq!(FunctionDie::new(&unit, 1).unwrap().offset, 20);
    assert!(FunctionDie::new_inlined(&unit, 1, 6).is_none());
    assert_eq!(FunctionDie::new_inlined(&unit, 3, 6).unwrap().abstract_offset, Some(60));
}
