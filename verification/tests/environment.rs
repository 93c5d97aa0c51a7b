use clara::environment::Environment;

#[test]
fn a_new_environment_is_empty() {
    let env = Environment::new();
    assert_eq!(env.len(), 0);
    assert_eq!(env.get("PATH"), None);
    assert_eq!(env.entries().len(), 0);
}

#[test]
fn set_binds_and_get_reads() {
    let mut env = Environment::new();
    env.set("A".to_string(), "1".to_string());
    env.set("B".to_string(), "".to_string());
    assert_eq!(env.get("A"), Some("1"));
    assert_eq!(env.get("B"), Some(""));
    assert_eq!(env.get("a"), None);
    assert_eq!(env.get(""), None);
    assert_eq!(env.len(), 2);
}

#[test]
fn set_replaces_the_value_of_a_bound_name() {
    let mut env = Environment::new();
    env.set("A".to_string(), "1".to_string());
    env.set("B".to_string(), "2".to_string());
    env.set("A".to_string(), "3".to_string());
    assert_eq!(env.get("A"), Some("3"));
    assert_eq!(env.get("B"), Some("2"));
    assert_eq!(env.len(), 2);
}

#[test]
fn entries_hold_each_name_once() {
    let mut env = Environment::new();
    env.set("A".to_string(), "1".to_string());
    env.set("B".to_string(), "2".to_string());
    env.set("A".to_string(), "3".to_string());
    let mut entries = env.entries().clone();
    entries.sort();
    assert_eq!(
        entries,
        vec![("A".to_string(), "3".to_string()), ("B".to_string(), "2".to_string())]
    );
}
