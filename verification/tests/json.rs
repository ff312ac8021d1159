use socks::json::map_json;

fn pairs(text: &str) -> Option<Vec<(String, String)>> {
    map_json(text)
}

#[test]
fn flat_object_maps_keys_to_values() {
    let m = pairs("{\"a\":\"1\",\"b\":\"2\"}").unwrap();
    assert_eq!(m.len(), 2);
    assert_eq!(m[0], ("a".to_string(), "1".to_string()));
    assert_eq!(m[1], ("b".to_string(), "2".to_string()));
}

#[test]
fn input_not_starting_with_brace_has_no_result() {
    assert!(pairs("[1,2]").is_none());
    assert!(pairs(" {\"a\":\"1\"}").is_none());
    assert!(pairs("").is_none());
}

#[test]
fn unquoted_values_are_taken_literally() {
    let m = pairs("{\"a\":1,\"b\":true}").unwrap();
    assert_eq!(m[0], ("a".to_string(), "1".to_string()));
    assert_eq!(m[1], ("b".to_string(), "true".to_string()));
}

#[test]
fn escaped_quotes_stay_inside_values() {
    let m = pairs("{\"a\":\"x\\\"y\",\"b\":\"2\"}").unwrap();
    assert_eq!(m[0], ("a".to_string(), "x\\\"y".to_string()));
    assert_eq!(m[1], ("b".to_string(), "2".to_string()));
}

#[test]
fn separators_inside_quotes_are_not_separators() {
    let m = pairs("{\"a\":\"1,2:3\",\"b\":\"2\"}").unwrap();
    assert_eq!(m[0], ("a".to_string(), "1,2:3".to_string()));
    assert_eq!(m[1], ("b".to_string(), "2".to_string()));
}

#[test]
fn repeated_keys_keep_order_of_appearance() {
    let m = pairs("{\"a\":\"1\",\"a\":\"2\"}").unwrap();
    assert_eq!(m[0], ("a".to_string(), "1".to_string()));
    assert_eq!(m[1], ("a".to_string(), "2".to_string()));
}

#[test]
fn value_separator_without_key_has_no_result() {
    assert!(pairs("{,}").is_none());
}

#[test]
fn empty_object_maps_to_nothing() {
    // `{}` ends the first value region with no key before it
    assert!(pairs("{}").is_none());
}
