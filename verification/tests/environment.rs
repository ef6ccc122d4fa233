//! Frame-chain environment tests: assignment, lookup through parents,
//! shadowing, and scoping.

use minipy::environment::Environment;
use minipy::value::Value;

#[test]
fn test_assign_then_lookup() {
    // After assigning a value to a name in a frame, looking the name up
    // from that frame yields exactly that value.
    let mut env = Environment::new();
    env.assign(&"x".to_string(), Value::Int(7), 0);
    assert_eq!(env.lookup(&"x".to_string(), 0), Some(Value::Int(7)));
    env.assign(&"x".to_string(), Value::Bool(true), 0);
    assert_eq!(env.lookup(&"x".to_string(), 0), Some(Value::Bool(true)));
}

#[test]
fn test_lookup_walks_parent_chain() {
    let mut env = Environment::new();
    env.assign(&"x".to_string(), Value::Int(1), 0);
    let child = env.allocate_new_frame(Some(0));
    let grandchild = env.allocate_new_frame(Some(child));
    assert_eq!(env.lookup(&"x".to_string(), grandchild), Some(Value::Int(1)));
}

#[test]
fn test_assign_overwrites_nearest_enclosing_binding() {
    let mut env = Environment::new();
    env.assign(&"x".to_string(), Value::Int(1), 0);
    let child = env.allocate_new_frame(Some(0));
    // The name exists in the root frame, so assignment from the child
    // overwrites it there rather than creating a child-local binding.
    env.assign(&"x".to_string(), Value::Int(2), child);
    assert_eq!(env.lookup(&"x".to_string(), 0), Some(Value::Int(2)));
}

#[test]
fn test_define_is_frame_local() {
    let mut env = Environment::new();
    env.assign(&"x".to_string(), Value::Int(1), 0);
    let child = env.allocate_new_frame(Some(0));
    env.define(&"x".to_string(), Value::Int(9), child);
    assert_eq!(env.lookup(&"x".to_string(), child), Some(Value::Int(9)));
    assert_eq!(env.lookup(&"x".to_string(), 0), Some(Value::Int(1)));
}

#[test]
fn test_child_binding_invisible_elsewhere() {
    // A name defined only in one child frame is invisible from an
    // unrelated frame whose chain does not pass through it.
    let mut env = Environment::new();
    let child = env.allocate_new_frame(Some(0));
    env.define(&"z".to_string(), Value::Int(3), child);
    let unrelated = env.allocate_new_frame(Some(0));
    assert_eq!(env.lookup(&"z".to_string(), unrelated), None);
    assert_eq!(env.lookup(&"z".to_string(), 0), None);
    assert_eq!(env.lookup(&"z".to_string(), child), Some(Value::Int(3)));
}

#[test]
fn test_missing_name_is_none() {
    let env = Environment::new();
    assert_eq!(env.lookup(&"nothing".to_string(), 0), None);
}
