use component_manager::{ComponentManager, Keyed, WithArgs};

#[derive(Debug, Clone, PartialEq, Eq)]
struct Counter(usize);

#[derive(Debug, PartialEq, Eq)]
struct TestError(String);

fn double(args: &usize) -> Counter {
    Counter(args * 2)
}

fn entry(value: usize) -> WithArgs<usize, Counter> {
    WithArgs::new(Counter(value * 2), value)
}

#[test]
fn from_entries_keeps_every_entry() {
    let manager = ComponentManager::from_entries(vec![("key1", entry(1)), ("key2", entry(2))], double);
    assert_eq!(manager.components().len(), 2);
    assert_eq!(manager.components().get("key1").unwrap().component, Counter(2));
    assert_eq!(manager.components().get("key2").unwrap().args, 2);
}

#[test]
fn from_entries_later_pair_wins() {
    let manager = ComponentManager::from_entries(vec![("key1", entry(1)), ("key1", entry(7))], double);
    assert_eq!(manager.components().len(), 1);
    assert_eq!(manager.components().get("key1").unwrap().component, Counter(14));
}

#[test]
fn try_from_entries_all_built() {
    let outcomes: Vec<(&str, Result<WithArgs<usize, Counter>, TestError>)> =
        vec![("key1", Ok(entry(1))), ("key2", Ok(entry(2)))];
    let manager = ComponentManager::try_from_entries(outcomes, double).unwrap();
    assert_eq!(manager.components().len(), 2);
    assert_eq!(manager.components().get("key2").unwrap().component, Counter(4));
}

#[test]
fn try_from_entries_reports_first_failure() {
    let outcomes: Vec<(&str, Result<WithArgs<usize, Counter>, TestError>)> = vec![
        ("key1", Ok(entry(1))),
        ("key2", Err(TestError("first".to_string()))),
        ("key3", Err(TestError("second".to_string()))),
    ];
    let result = ComponentManager::try_from_entries(outcomes, double);
    assert_eq!(result.err().unwrap(), TestError("first".to_string()));
}

#[test]
fn try_from_entries_empty() {
    let outcomes: Vec<(&str, Result<WithArgs<usize, Counter>, TestError>)> = vec![];
    let manager = ComponentManager::try_from_entries(outcomes, double).unwrap();
    assert_eq!(manager.components().len(), 0);
}

#[test]
fn key_list_names_each_key_once() {
    let manager = ComponentManager::init(vec![("a", 1), ("b", 2), ("c", 3), ("a", 4)], double);
    let mut keys = manager.key_list();
    keys.sort();
    assert_eq!(keys, vec!["a", "b", "c"]);
}

#[test]
fn apply_reinit_reports_in_input_order() {
    let mut manager = ComponentManager::init(vec![("A", 1), ("B", 2), ("C", 3)], double);
    let outcomes = vec![
        Keyed::new("A", Some(Counter(10))),
        Keyed::new("B", Some(Counter(20))),
        Keyed::new("C", Some(Counter(30))),
    ];
    let results = manager.apply_reinit(outcomes);
    let keys: Vec<_> = results.iter().map(|r| r.key).collect();
    assert_eq!(keys, vec!["A", "B", "C"]);
    assert_eq!(results[0].value, Some(Counter(2)));
    assert_eq!(results[1].value, Some(Counter(4)));
    assert_eq!(results[2].value, Some(Counter(6)));
    assert_eq!(manager.components().get("B").unwrap().component, Counter(20));
    assert_eq!(manager.components().get("B").unwrap().args, 2);
}

#[test]
fn apply_reinit_absent_and_missing_outcomes() {
    let mut manager = ComponentManager::init(vec![("key1", 1)], double);
    let results = manager.apply_reinit(vec![
        Keyed::new("nonexistent", None),
        Keyed::new("key1", None),
        Keyed::new("other", Some(Counter(5))),
    ]);
    assert_eq!(results.len(), 3);
    assert!(results.iter().all(|r| r.value.is_none()));
    assert_eq!(manager.components().len(), 1);
    assert_eq!(manager.components().get("key1").unwrap().component, Counter(2));
}

#[test]
fn apply_reinit_same_key_twice() {
    let mut manager = ComponentManager::init(vec![("key1", 1)], double);
    let results = manager.apply_reinit(vec![
        Keyed::new("key1", Some(Counter(10))),
        Keyed::new("key1", Some(Counter(20))),
    ]);
    assert_eq!(results[0].value, Some(Counter(2)));
    assert_eq!(results[1].value, Some(Counter(10)));
    assert_eq!(manager.components().get("key1").unwrap().component, Counter(20));
}

#[test]
fn try_apply_reinit_isolates_failure() {
    let mut manager = ComponentManager::init(vec![("key1", 1), ("key2", 2)], double);
    let results = manager.try_apply_reinit(vec![
        Keyed::new("key1", Some(Err(TestError("Failed".to_string())))),
        Keyed::new("key2", Some(Ok(Counter(40)))),
        Keyed::new("nonexistent", None),
    ]);
    assert_eq!(results.len(), 3);
    assert_eq!(results[0].value, Some(Err(TestError("Failed".to_string()))));
    assert_eq!(results[1].value, Some(Ok(Counter(4))));
    assert_eq!(results[2].value, None);
    assert_eq!(manager.components().get("key1").unwrap().component, Counter(2));
    assert_eq!(manager.components().get("key2").unwrap().component, Counter(40));
}

#[test]
fn replace_components_reports_replaced() {
    let mut manager = ComponentManager::init(vec![("key1", 1), ("key2", 2)], double);
    let results = manager.replace_components(vec![
        Keyed::new("key2", Counter(8)),
        Keyed::new("key1", Counter(9)),
    ]);
    assert_eq!(results.len(), 2);
    assert_eq!(results[0].key, "key2");
    assert_eq!(results[0].value, Counter(4));
    assert_eq!(results[1].key, "key1");
    assert_eq!(results[1].value, Counter(2));
    assert_eq!(manager.components().get("key1").unwrap().component, Counter(9));
    assert_eq!(manager.components().get("key1").unwrap().args, 1);
}

#[test]
fn try_replace_components_keeps_failed_entry() {
    let mut manager = ComponentManager::init(vec![("key1", 1), ("key2", 2)], double);
    let results = manager.try_replace_components(vec![
        Keyed::new("key1", Ok(Counter(11))),
        Keyed::new("key2", Err(TestError("Failed on reinit".to_string()))),
    ]);
    assert_eq!(results[0].value, Ok(Counter(2)));
    assert_eq!(results[1].value, Err(TestError("Failed on reinit".to_string())));
    assert_eq!(manager.components().get("key1").unwrap().component, Counter(11));
    assert_eq!(manager.components().get("key2").unwrap().component, Counter(4));
}

#[test]
fn apply_update_reports_displaced_in_order() {
    let mut manager = ComponentManager::init(vec![("key1", 1)], double);
    let results = manager.apply_update(vec![("key1", entry(10)), ("key2", entry(20)), ("key3", entry(30))]);
    let keys: Vec<_> = results.iter().map(|r| r.key).collect();
    assert_eq!(keys, vec!["key1", "key2", "key3"]);
    let prev = results[0].value.as_ref().unwrap();
    assert_eq!(prev.component, Counter(2));
    assert_eq!(prev.args, 1);
    assert!(results[1].value.is_none());
    assert!(results[2].value.is_none());
    assert_eq!(manager.components().len(), 3);
    assert_eq!(manager.components().get("key1").unwrap().component, Counter(20));
}

#[test]
fn try_apply_update_inserts_only_built() {
    let mut manager = ComponentManager::init(vec![("key1", 1)], double);
    let results = manager.try_apply_update(vec![
        ("key2", Ok(entry(20))),
        ("key3", Err(TestError("Failed".to_string()))),
        ("key1", Ok(entry(40))),
    ]);
    assert_eq!(results.len(), 3);
    assert!(results[0].value.is_none());
    assert_eq!(results[1].value.as_ref().unwrap().as_ref().err().unwrap(), &TestError("Failed".to_string()));
    assert_eq!(results[2].value.as_ref().unwrap().as_ref().unwrap().component, Counter(2));
    assert_eq!(manager.components().len(), 2);
    assert!(manager.components().get("key3").is_none());
    assert_eq!(manager.components().get("key1").unwrap().component, Counter(80));
}

#[test]
fn new_and_accessors() {
    let mut map = std::collections::HashMap::new();
    map.insert("key1", entry(3));
    let manager = ComponentManager::new(map, double);
    assert_eq!(manager.components().get("key1").unwrap().component, Counter(6));
    assert_eq!((manager.fn_init())(&4), Counter(8));
}
