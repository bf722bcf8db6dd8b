use lox::environment::Environment;
use lox::expr::Literal;

fn key(name: &str) -> String {
    name.to_owned()
}

fn n(bits: u64) -> Literal {
    Literal::Number(bits)
}

#[test]
fn a_new_environment_binds_nothing() {
    let env = Environment::new();
    assert_eq!(env.get(&key("x")), None);
    assert_eq!(env.depth(), 1);
}

#[test]
fn define_then_get() {
    let mut env = Environment::new();
    env.define(key("x"), n(1));
    env.define(key("y"), Literal::String("s".to_owned()));
    assert_eq!(env.get(&key("x")), Some(n(1)));
    assert_eq!(env.get(&key("y")), Some(Literal::String("s".to_owned())));
    assert_eq!(env.get(&key("z")), None);
}

#[test]
fn define_twice_keeps_the_newest() {
    let mut env = Environment::new();
    env.define(key("x"), n(1));
    env.define(key("x"), n(2));
    assert_eq!(env.get(&key("x")), Some(n(2)));
    env.define(key("x"), Literal::Nil);
    assert_eq!(env.get(&key("x")), Some(Literal::Nil));
}

#[test]
fn assign_changes_an_existing_binding() {
    let mut env = Environment::new();
    env.define(key("x"), n(1));
    assert_eq!(env.assign(key("x"), n(2)), Ok(()));
    assert_eq!(env.get(&key("x")), Some(n(2)));
}

#[test]
fn assign_never_creates_a_binding() {
    let mut env = Environment::new();
    assert_eq!(env.assign(key("x"), n(2)), Err("Undefined variable: x".to_owned()));
    assert_eq!(env.get(&key("x")), None);
}

#[test]
fn inner_scope_shadows_outer() {
    let mut outer = Environment::new();
    outer.define(key("x"), n(1));
    outer.define(key("y"), n(10));
    let mut inner = Environment::with_enclosing(outer);
    assert_eq!(inner.depth(), 2);
    assert_eq!(inner.get(&key("x")), Some(n(1)));
    inner.define(key("x"), n(2));
    assert_eq!(inner.get(&key("x")), Some(n(2)));
    assert_eq!(inner.get(&key("y")), Some(n(10)));
    inner.end_scope();
    assert_eq!(inner.depth(), 1);
    assert_eq!(inner.get(&key("x")), Some(n(1)));
}

#[test]
fn assign_reaches_the_innermost_binding_only() {
    let mut env = Environment::new();
    env.define(key("x"), n(1));
    env.define(key("y"), n(10));
    env.begin_scope();
    env.define(key("x"), n(2));
    assert_eq!(env.assign(key("x"), n(3)), Ok(()));
    assert_eq!(env.assign(key("y"), n(11)), Ok(()));
    assert_eq!(env.get(&key("x")), Some(n(3)));
    env.end_scope();
    assert_eq!(env.get(&key("x")), Some(n(1)));
    assert_eq!(env.get(&key("y")), Some(n(11)));
}

#[test]
fn the_global_scope_stays() {
    let mut env = Environment::new();
    env.define(key("x"), n(1));
    env.end_scope();
    assert_eq!(env.depth(), 1);
    assert_eq!(env.get(&key("x")), Some(n(1)));
}

#[test]
fn many_names_in_one_scope() {
    let mut env = Environment::new();
    for i in 0..50u64 {
        env.define(format!("v{}", i), n(i));
    }
    for i in 0..50u64 {
        env.define(format!("v{}", i), n(i + 100));
    }
    for i in 0..50u64 {
        assert_eq!(env.get(&format!("v{}", i)), Some(n(i + 100)));
    }
    assert_eq!(env.get(&key("v50")), None);
}
