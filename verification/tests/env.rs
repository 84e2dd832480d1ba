use lala::env::Env;
use lala::linalg::Matrix;
use lala::scalar::Scalar;
use lala::types::LalaType;

fn integer(env: &Env, name: &str) -> Option<i32> {
    match env.get(&name.to_string()) {
        Some(LalaType::Integer(i)) => Some(*i),
        _ => None,
    }
}

#[test]
fn a_new_environment_binds_nothing() {
    let env = Env::new();
    assert_eq!(env.len(), 0);
    assert!(env.get(&"x".to_string()).is_none());
    assert!(!env.contains_key(&"x".to_string()));
}

#[test]
fn insert_binds_and_overwrites() {
    let mut env = Env::new();
    env.insert("x".to_string(), LalaType::Integer(1));
    env.insert("y".to_string(), LalaType::Integer(2));
    assert_eq!(env.len(), 2);
    assert_eq!(integer(&env, "x"), Some(1));
    assert_eq!(integer(&env, "y"), Some(2));
    env.insert("x".to_string(), LalaType::Integer(3));
    assert_eq!(env.len(), 2);
    assert_eq!(integer(&env, "x"), Some(3));
    assert_eq!(integer(&env, "y"), Some(2));
    env.insert("x".to_string(), LalaType::Double(Scalar::one()));
    assert!(matches!(env.get(&"x".to_string()), Some(LalaType::Double(_))));
    assert!(env.contains_key(&"y".to_string()));
    assert!(!env.contains_key(&"z".to_string()));
}

#[test]
fn names_are_compared_whole() {
    let mut env = Env::new();
    env.insert("ab".to_string(), LalaType::Integer(1));
    assert!(env.get(&"a".to_string()).is_none());
    assert!(env.get(&"abc".to_string()).is_none());
    assert!(env.get(&"".to_string()).is_none());
    env.insert("".to_string(), LalaType::Integer(0));
    assert_eq!(integer(&env, ""), Some(0));
}

#[test]
fn a_clone_is_independent() {
    let mut env = Env::new();
    env.insert("x".to_string(), LalaType::Integer(1));
    env.insert("m".to_string(), LalaType::Matrix(Matrix::new(1, 2)));
    let mut copy = env.clone();
    copy.insert("x".to_string(), LalaType::Integer(9));
    copy.insert("new".to_string(), LalaType::Integer(5));
    assert_eq!(integer(&env, "x"), Some(1));
    assert_eq!(env.len(), 2);
    assert_eq!(integer(&copy, "x"), Some(9));
    assert_eq!(copy.len(), 3);
    assert!(matches!(copy.get(&"m".to_string()), Some(LalaType::Matrix(_))));
}
