// The per-request context map.
use runbridge::context::CtxValue;
use runbridge::context::RequestContext;

#[test]
fn test_request_context_basic() {
    let mut context = RequestContext::new();

    context.set("string_val", CtxValue::Text("hello".to_string()));
    context.set("int_val", CtxValue::Int(42));
    context.set("bool_val", CtxValue::Flag(true));

    assert_eq!(context.get("string_val"), Some(&CtxValue::Text("hello".to_string())));
    assert_eq!(context.get("int_val"), Some(&CtxValue::Int(42)));
    assert_eq!(context.get("bool_val"), Some(&CtxValue::Flag(true)));

    assert_eq!(context.get("nonexistent"), None);
}

#[test]
fn test_request_context_contains_and_keys() {
    let mut context = RequestContext::new();

    assert!(context.is_empty());
    assert!(!context.contains_key("test"));

    context.set("key1", CtxValue::Text("value1".to_string()));
    context.set("key2", CtxValue::Int(123));

    assert!(!context.is_empty());
    assert!(context.contains_key("key1"));
    assert!(context.contains_key("key2"));
    assert!(!context.contains_key("key3"));

    let keys = context.keys();
    assert_eq!(keys.len(), 2);
    assert!(keys.contains(&"key1".to_string()));
    assert!(keys.contains(&"key2".to_string()));
}

#[test]
fn test_request_context_remove() {
    let mut context = RequestContext::new();

    context.set("removable", CtxValue::Text("test_value".to_string()));
    assert!(context.contains_key("removable"));

    let removed = context.remove("removable");
    assert_eq!(removed, Some(CtxValue::Text("test_value".to_string())));
    assert!(!context.contains_key("removable"));

    let removed = context.remove("removable");
    assert_eq!(removed, None);
}

#[test]
fn test_request_context_clear() {
    let mut context = RequestContext::new();

    context.set("key1", CtxValue::Text("value1".to_string()));
    context.set("key2", CtxValue::Int(42));
    assert!(!context.is_empty());

    context.clear();
    assert!(context.is_empty());
    assert!(!context.contains_key("key1"));
    assert!(!context.contains_key("key2"));
}

#[derive(Debug, Clone, PartialEq)]
struct UserInfo {
    id: u32,
    name: String,
}

#[test]
fn test_request_context_custom_types() {
    // The context holds tagged plain values; a structured record travels
    // as one entry per field.
    let mut context = RequestContext::new();

    let user = UserInfo { id: 42, name: "Alice".to_string() };
    context.set("user_id", CtxValue::Uint(user.id as u64));
    context.set("user_name", CtxValue::Text(user.name.clone()));

    let got_id = match context.get("user_id") {
        Some(CtxValue::Uint(v)) => *v as u32,
        _ => panic!("missing user id"),
    };
    let got_name = match context.get("user_name") {
        Some(CtxValue::Text(v)) => v.clone(),
        _ => panic!("missing user name"),
    };
    assert_eq!(UserInfo { id: got_id, name: got_name }, user);

    let removed_id = context.remove("user_id");
    assert_eq!(removed_id, Some(CtxValue::Uint(42)));
    assert!(!context.contains_key("user_id"));
}

#[test]
fn context_set_overwrites() {
    let mut context = RequestContext::new();
    context.set("k", CtxValue::Int(1));
    context.set("k", CtxValue::Int(2));
    assert_eq!(context.get("k"), Some(&CtxValue::Int(2)));
    assert_eq!(context.keys().len(), 1);
}
