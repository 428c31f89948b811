use mal::environment::MalEnv;
use mal::types::environment::{lookup_in, MalEnv as Frame};
use mal::types::MalVal;

fn expect_same(a: &MalVal, b: &MalVal) {
    assert!(a.equals(b, &Vec::new()) == Some(true), "{:?} is not {:?}", a, b);
}

fn expect_different(a: &MalVal, b: &MalVal) {
    assert!(a.equals(b, &Vec::new()) == Some(false), "{:?} is {:?}", a, b);
}


#[test]
fn test_malenv_new() {
    let env = MalEnv::new();
    assert!(env.symbols.is_empty());
}

#[test]
fn test_malenv_put_and_get() {
    let mut env = MalEnv::new();
    let symbol = "key".to_string();
    let value = MalVal::Int(42);

    env.put(&symbol, value.clone());
    expect_same(&env.get(&symbol).unwrap(), &value);
}

#[test]
fn test_malenv_get_nonexistent() {
    let mut env = MalEnv::new();
    let symbol = "nonexistent".to_string();
    assert!(env.get(&symbol).is_err());
}

#[test]
fn test_malenv_update_existing() {
    let mut env = MalEnv::new();
    let symbol = "key".to_string();
    let value1 = MalVal::Int(42);
    let value2 = MalVal::Int(43);

    env.put(&symbol, value1.clone());
    expect_same(&env.get(&symbol).unwrap(), &value1);

    env.put(&symbol, value2.clone());
    expect_same(&env.get(&symbol).unwrap(), &value2);
}

#[test]
fn test_malenv_multiple_symbols() {
    let mut env = MalEnv::new();
    let symbol1 = "key1".to_string();
    let symbol2 = "key2".to_string();
    let value1 = MalVal::Int(42);
    let value2 = MalVal::Int(43);

    env.put(&symbol1, value1.clone());
    env.put(&symbol2, value2.clone());

    expect_same(&env.get(&symbol1).unwrap(), &value1);
    expect_same(&env.get(&symbol2).unwrap(), &value2);
}

#[test]
fn test_malenv_nested_hashmaps() {
    let mut env = MalEnv::new();
    let symbol = "key".to_string();
    let nested_symbol = "nested_key".to_string();
    let nested_value = MalVal::Int(42);

    let mut nested_env = MalEnv::new();
    nested_env.put(&nested_symbol, nested_value.clone());

    env.put(&symbol, MalVal::Hashmap(nested_env.symbols.clone()));

    match env.get(&symbol).unwrap().clone() {
        MalVal::Hashmap(h) => {
            expect_same(&*h.get(&nested_symbol).unwrap(), &nested_value);
        }
        _ => panic!("Expected MalVal::Hashmap"),
    }
}

#[test]
fn malenv_missing_symbol_message() {
    let mut env = MalEnv::new();
    let symbol = "nope".to_string();
    match env.get(&symbol) {
        Err(mal::types::error::MalError::Error(m)) => assert_eq!(m, "'nope' not found"),
        other => panic!("unexpected {:?}", other),
    }
}

#[test]
fn malenv_put_keeps_other_symbols() {
    let mut env = MalEnv::new();
    env.put("a", MalVal::Int(1));
    env.put("b", MalVal::Int(2));
    env.put("a", MalVal::Int(3));
    expect_same(&env.get(&"a".to_string()).unwrap(), &MalVal::Int(3));
    expect_same(&env.get(&"b".to_string()).unwrap(), &MalVal::Int(2));
    assert_eq!(env.symbols.len(), 2);
}

#[test]
fn frame_lookup_follows_outer_frames() {
    let mut outer = Frame::new(None);
    outer.set("x", MalVal::Int(1));
    outer.set("y", MalVal::Int(2));
    let mut inner = Frame::new(Some(0));
    inner.set("x", MalVal::Int(10));
    let frames = vec![outer, inner];
    expect_same(&lookup_in(&frames, 1, "x").unwrap(), &MalVal::Int(10));
    expect_same(&lookup_in(&frames, 1, "y").unwrap(), &MalVal::Int(2));
    expect_same(&frames[1].get("y", &frames).unwrap(), &MalVal::Int(2));
    match lookup_in(&frames, 1, "z") {
        Err(mal::types::error::MalError::Error(m)) => assert_eq!(m, "'z' not found"),
        other => panic!("unexpected {:?}", other),
    }
}
