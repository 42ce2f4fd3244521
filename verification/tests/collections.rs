use bwdta::params::ParamMap;
use bwdta::sorting::sorted_by_name_copy;

fn pair(k: &str, v: &str) -> (String, String) {
    (k.to_string(), v.to_string())
}

#[test]
fn param_map_get_returns_inserted_value() {
    let mut m = ParamMap::new();
    assert!(m.is_empty());
    m.insert("STAMMKALK".to_string(), "J".to_string());
    assert_eq!(m.get("STAMMKALK"), Some(&"J".to_string()));
    assert!(m.contains_key("STAMMKALK"));
    assert_eq!(m.get("LANDKUNDA"), None);
    assert!(!m.contains_key("LANDKUNDA"));
    assert_eq!(m.len(), 1);
}

#[test]
fn param_map_insert_replaces_and_keeps_position() {
    let mut m = ParamMap::new();
    m.insert("A".to_string(), "1".to_string());
    m.insert("B".to_string(), "2".to_string());
    m.insert("A".to_string(), "3".to_string());
    assert_eq!(m.len(), 2);
    assert_eq!(m.get("A"), Some(&"3".to_string()));
    assert_eq!(m.entries(), &vec![pair("A", "3"), pair("B", "2")]);
}

#[test]
fn param_map_insert_of_new_key_appends() {
    let mut m = ParamMap::new();
    m.insert("Z".to_string(), "1".to_string());
    m.insert("A".to_string(), "2".to_string());
    assert_eq!(m.entries(), &vec![pair("Z", "1"), pair("A", "2")]);
}

#[test]
fn sorting_orders_by_name_and_is_stable() {
    let fields = vec![pair("b", "1"), pair("a", "2"), pair("b", "0"), pair("aa", "x")];
    let sorted = sorted_by_name_copy(&fields);
    assert_eq!(
        sorted,
        vec![pair("a", "2"), pair("aa", "x"), pair("b", "1"), pair("b", "0")]
    );
}

#[test]
fn sorting_twice_changes_nothing() {
    let fields = vec![pair("ad", "Elke"), pair("aa", "809460"), pair("ac", "Claas")];
    let once = sorted_by_name_copy(&fields);
    let twice = sorted_by_name_copy(&once);
    assert_eq!(once, twice);
    assert_eq!(once.len(), fields.len());
}

#[test]
fn sorting_empty_and_single() {
    assert!(sorted_by_name_copy(&Vec::new()).is_empty());
    assert_eq!(sorted_by_name_copy(&vec![pair("x", "1")]), vec![pair("x", "1")]);
}
