use unit_info::cache::VariableCache;
use unit_info::error::DebugError;
use unit_info::target::{DebugRegisters, KnownValue, Target};
use unit_info::variable::{
    Variable, VariableLocation, VariableName, VariableType, VariableValue,
};

fn target() -> Target {
    Target {
        registers: DebugRegisters {
            program_counter: None,
            frame_pointer: None,
            registers: vec![],
        },
        memory: vec![],
        values: vec![],
    }
}

fn named(name: &str) -> Variable {
    let mut variable = Variable::new(None, None);
    variable.name = VariableName::Named(name.to_string());
    variable
}

fn store(cache: &mut VariableCache, parent: Option<i64>, name: &str) -> i64 {
    cache.cache_variable(parent, named(name), &target()).unwrap().variable_key
}

fn name_of(cache: &VariableCache, key: i64) -> Option<String> {
    cache.get_variable_by_key(key).map(|variable| variable.name.display())
}

#[test]
fn what_was_stored_is_read_back() {
    let mut cache = VariableCache::new();
    let root = store(&mut cache, None, "root");
    let child = store(&mut cache, Some(root), "child");
    assert_ne!(root, child);
    assert_eq!(name_of(&cache, root), Some("root".to_string()));
    let stored = cache.get_variable_by_key(child).unwrap();
    assert_eq!(stored.variable_key, child);
    assert_eq!(stored.parent_key, Some(root));
    assert!(cache.get_variable_by_key(99).is_none());
}

#[test]
fn storing_again_replaces() {
    let mut cache = VariableCache::new();
    let root = store(&mut cache, None, "root");
    let mut child = cache.cache_variable(Some(root), named("child"), &target()).unwrap();
    child.name = VariableName::Named("renamed".to_string());
    let key = child.variable_key;
    let again = cache.cache_variable(None, child, &target()).unwrap();
    assert_eq!(again.variable_key, key);
    assert_eq!(again.parent_key, Some(root));
    assert_eq!(name_of(&cache, key), Some("renamed".to_string()));
    assert_eq!(cache.get_children(root).len(), 1);
}

#[test]
fn an_unknown_parent_is_refused() {
    let mut cache = VariableCache::new();
    match cache.cache_variable(Some(7), named("child"), &target()) {
        Err(DebugError::UnknownParent(7)) => {}
        other => panic!("{:?}", other),
    }
}

#[test]
fn an_unknown_variable_is_refused() {
    let mut cache = VariableCache::new();
    let mut variable = named("stranger");
    variable.variable_key = 5;
    match cache.cache_variable(None, variable, &target()) {
        Err(DebugError::UnknownVariable(5)) => {}
        other => panic!("{:?}", other),
    }
    assert!(matches!(cache.remove_cache_entry(5), Err(DebugError::UnknownVariable(5))));
}

#[test]
fn values_come_from_the_target_where_nothing_is_known() {
    let mut target = target();
    target.values.push(KnownValue {
        variable_type: VariableType::Base("u8".to_string()),
        memory_location: VariableLocation::Address(16),
        byte_size: 1,
        value: VariableValue::Valid("5".to_string()),
    });
    let mut variable = named("x");
    variable.variable_type = VariableType::Base("u8".to_string());
    variable.memory_location = VariableLocation::Address(16);
    variable.byte_size = 1;
    let mut known = variable.clone();
    known.set_value(VariableValue::Valid("6".to_string()));
    let mut cache = VariableCache::new();
    assert_eq!(cache.cache_variable(None, variable, &target).unwrap().get_value(), "5");
    assert_eq!(cache.cache_variable(None, known, &target).unwrap().get_value(), "6");
}

#[test]
fn removing_takes_all_parts_and_nothing_else() {
    let mut cache = VariableCache::new();
    let root = store(&mut cache, None, "root");
    let a = store(&mut cache, Some(root), "a");
    let b = store(&mut cache, Some(root), "b");
    let a1 = store(&mut cache, Some(a), "a1");
    let a11 = store(&mut cache, Some(a1), "a11");
    let b1 = store(&mut cache, Some(b), "b1");
    cache.remove_cache_entry(a).unwrap();
    for key in [a, a1, a11] {
        assert_eq!(name_of(&cache, key), None);
    }
    for key in [root, b, b1] {
        assert!(name_of(&cache, key).is_some());
    }
}

#[test]
fn removing_the_parts_keeps_the_variable() {
    let mut cache = VariableCache::new();
    let root = store(&mut cache, None, "root");
    let a = store(&mut cache, Some(root), "a");
    let a1 = store(&mut cache, Some(a), "a1");
    cache.remove_cache_entry_children(root);
    assert!(name_of(&cache, root).is_some());
    assert_eq!(name_of(&cache, a), None);
    assert_eq!(name_of(&cache, a1), None);
    let root = cache.get_variable_by_key(root).unwrap();
    assert!(!cache.has_children(&root));
}

#[test]
fn parts_are_adopted() {
    let mut cache = VariableCache::new();
    let root = store(&mut cache, None, "root");
    let variant = store(&mut cache, Some(root), "variant");
    let part = store(&mut cache, Some(variant), "part");
    let deep = store(&mut cache, Some(part), "deep");
    let parent = cache.get_variable_by_key(root).unwrap();
    let child = cache.get_variable_by_key(variant).unwrap();
    cache.adopt_grand_children(&parent, &child).unwrap();
    assert_eq!(name_of(&cache, variant), None);
    assert_eq!(cache.get_variable_by_key(part).unwrap().parent_key, Some(root));
    assert_eq!(cache.get_variable_by_key(deep).unwrap().parent_key, Some(part));
    assert!(cache.adopt_grand_children(&parent, &child).is_err());
}

#[test]
fn children_come_in_the_order_of_their_keys() {
    let mut cache = VariableCache::new();
    let root = store(&mut cache, None, "root");
    store(&mut cache, Some(root), "a");
    store(&mut cache, Some(root), "b");
    let names: Vec<String> =
        cache.get_children(root).iter().map(|child| child.name.display()).collect();
    assert_eq!(names, vec!["a", "b"]);
}

#[test]
fn pointers_are_noted_for_later() {
    let mut cache = VariableCache::new();
    let root = store(&mut cache, None, "root");
    cache.request_expansion(root);
    assert_eq!(cache.expansions(), &vec![root]);
}

#[test]
fn a_copy_is_a_cache_of_its_own() {
    let mut cache = VariableCache::new();
    let root = store(&mut cache, None, "root");
    cache.request_expansion(root);
    let mut copy = cache.clone();
    let child = store(&mut copy, Some(root), "child");
    assert_eq!(copy.expansions(), &vec![root]);
    assert_eq!(name_of(&copy, child), Some("child".to_string()));
    assert_eq!(name_of(&cache, child), None);
    assert_eq!(store(&mut cache, Some(root), "other"), child);
}

#[test]
fn only_base_types_have_values() {
    let mut target = target();
    let types = [
        VariableType::Base("u8".to_string()),
        VariableType::Struct("u8".to_string()),
        VariableType::Pointer(Some("u8".to_string())),
        VariableType::Enum("u8".to_string()),
        VariableType::Unknown,
    ];
    for variable_type in &types {
        target.values.push(KnownValue {
            variable_type: variable_type.clone(),
            memory_location: VariableLocation::Address(16),
            byte_size: 1,
            value: VariableValue::Valid("7".to_string()),
        });
    }
    let mut cache = VariableCache::new();
    for variable_type in types {
        let mut variable = Variable::new(None, None);
        let is_base = matches!(variable_type, VariableType::Base(_));
        variable.variable_type = variable_type;
        variable.memory_location = VariableLocation::Address(16);
        variable.byte_size = 1;
        let stored = cache.cache_variable(None, variable, &target).unwrap();
        assert_eq!(stored.get_value(), if is_base { "7" } else { "" });
    }
}
