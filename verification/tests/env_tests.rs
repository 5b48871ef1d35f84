use mal::env::{bind_env, find_env, get_env, new_env, set_env, Store};
use mal::printer::print;
use mal::types::{ErrKind, Fault, MalVal};

fn name(text: &str) -> MalVal {
    MalVal::symbol(text)
}

fn num_list(numbers: &[i64]) -> Vec<MalVal> {
    numbers.iter().map(|n| MalVal::Num(*n)).collect()
}

fn pattern(names: &[&str]) -> MalVal {
    MalVal::list(names.iter().map(|n| MalVal::symbol(n)).collect())
}

#[test]
fn a_new_store_is_empty() {
    let mut store = Store::new();
    assert_eq!(store.len(), 0);
    assert!(store.take_output().is_empty());
    assert_eq!(new_env(&mut store, None), 0);
    assert_eq!(new_env(&mut store, Some(0)), 1);
    assert_eq!(store.len(), 2);
}

#[test]
fn set_then_get() {
    let mut store = Store::new();
    let env = new_env(&mut store, None);
    let back = set_env(&mut store, env, name("x"), MalVal::Num(5)).unwrap();
    assert!(matches!(back, MalVal::Num(5)));
    assert!(matches!(get_env(&store, env, &name("x")), Ok(MalVal::Num(5))));
    set_env(&mut store, env, name("x"), MalVal::Num(6)).unwrap();
    assert!(matches!(get_env(&store, env, &name("x")), Ok(MalVal::Num(6))));
}

#[test]
fn lookup_walks_outward() {
    let mut store = Store::new();
    let outer = new_env(&mut store, None);
    let middle = new_env(&mut store, Some(outer));
    let inner = new_env(&mut store, Some(middle));
    set_env(&mut store, outer, name("a"), MalVal::Num(1)).unwrap();
    set_env(&mut store, middle, name("b"), MalVal::Num(2)).unwrap();
    assert_eq!(find_env(&store, inner, &"a".to_string()), Some(outer));
    assert_eq!(find_env(&store, inner, &"b".to_string()), Some(middle));
    assert_eq!(find_env(&store, outer, &"b".to_string()), None);
    assert_eq!(find_env(&store, inner, &"c".to_string()), None);
    assert!(matches!(get_env(&store, inner, &name("a")), Ok(MalVal::Num(1))));
    assert!(matches!(get_env(&store, inner, &name("b")), Ok(MalVal::Num(2))));
}

#[test]
fn shadowing_leaves_the_outer_binding() {
    let mut store = Store::new();
    let outer = new_env(&mut store, None);
    let inner = new_env(&mut store, Some(outer));
    let sibling = new_env(&mut store, Some(outer));
    set_env(&mut store, outer, name("x"), MalVal::Num(1)).unwrap();
    set_env(&mut store, inner, name("x"), MalVal::Num(2)).unwrap();
    assert!(matches!(get_env(&store, inner, &name("x")), Ok(MalVal::Num(2))));
    assert!(matches!(get_env(&store, outer, &name("x")), Ok(MalVal::Num(1))));
    assert!(matches!(get_env(&store, sibling, &name("x")), Ok(MalVal::Num(1))));
    assert_eq!(find_env(&store, inner, &"x".to_string()), Some(inner));
}

#[test]
fn later_definitions_are_seen_through_the_chain() {
    let mut store = Store::new();
    let outer = new_env(&mut store, None);
    let inner = new_env(&mut store, Some(outer));
    assert!(get_env(&store, inner, &name("late")).is_err());
    set_env(&mut store, outer, name("late"), MalVal::Num(3)).unwrap();
    assert!(matches!(get_env(&store, inner, &name("late")), Ok(MalVal::Num(3))));
}

#[test]
fn unbound_lookup_fails() {
    let mut store = Store::new();
    let env = new_env(&mut store, None);
    let err = get_env(&store, env, &name("ghost")).unwrap_err();
    assert_eq!(err.fault, Fault::Unbound);
    assert_eq!(err.kind(), ErrKind::UnboundSymbol);
    assert_eq!(err.symbol, "ghost");
    assert_eq!(err.message(), "`ghost` not found");
    let err = get_env(&store, 99, &name("ghost")).unwrap_err();
    assert_eq!(err.fault, Fault::Unbound);
}

#[test]
fn keys_must_be_symbols() {
    let mut store = Store::new();
    let env = new_env(&mut store, None);
    let err = set_env(&mut store, env, MalVal::Num(1), MalVal::Nil).unwrap_err();
    assert_eq!(err.fault, Fault::InvalidKey);
    assert_eq!(err.kind(), ErrKind::TypeMismatch);
    assert_eq!(err.message(), "invalid key type");
    assert_eq!(get_env(&store, env, &MalVal::Nil).unwrap_err().fault, Fault::InvalidKey);
}

#[test]
fn defining_in_no_environment_fails() {
    let mut store = Store::new();
    let err = set_env(&mut store, 0, name("x"), MalVal::Nil).unwrap_err();
    assert_eq!(err.fault, Fault::StaleEnv);
    assert_eq!(err.kind(), ErrKind::TypeMismatch);
    assert_eq!(store.len(), 0);
}

#[test]
fn binds_positional_and_rest() {
    let mut store = Store::new();
    let outer = new_env(&mut store, None);
    let params = pattern(&["a", "&", "b"]);
    let env = bind_env(&mut store, outer, &params, &num_list(&[1, 2, 3])).unwrap();
    assert_eq!(env, 1);
    assert!(matches!(get_env(&store, env, &name("a")), Ok(MalVal::Num(1))));
    assert_eq!(print(&get_env(&store, env, &name("b")).unwrap()), "(2 3)");
    assert!(get_env(&store, env, &name("&")).is_err());
    assert!(get_env(&store, outer, &name("a")).is_err());
}

#[test]
fn binds_an_empty_rest() {
    let mut store = Store::new();
    let outer = new_env(&mut store, None);
    let env = bind_env(&mut store, outer, &pattern(&["a", "&", "b"]), &num_list(&[1])).unwrap();
    assert_eq!(print(&get_env(&store, env, &name("b")).unwrap()), "()");
    let env = bind_env(&mut store, outer, &pattern(&["&", "all"]), &num_list(&[4, 5])).unwrap();
    assert_eq!(print(&get_env(&store, env, &name("all")).unwrap()), "(4 5)");
}

#[test]
fn bound_environment_is_chained() {
    let mut store = Store::new();
    let outer = new_env(&mut store, None);
    set_env(&mut store, outer, name("g"), MalVal::Num(9)).unwrap();
    let env = bind_env(&mut store, outer, &pattern(&["a", "b"]), &num_list(&[1, 2, 3])).unwrap();
    assert!(matches!(get_env(&store, env, &name("b")), Ok(MalVal::Num(2))));
    assert!(matches!(get_env(&store, env, &name("g")), Ok(MalVal::Num(9))));
}

#[test]
fn binding_failures_leave_the_store() {
    let mut store = Store::new();
    let outer = new_env(&mut store, None);
    let err = bind_env(&mut store, outer, &pattern(&["a", "b"]), &num_list(&[1])).unwrap_err();
    assert_eq!(err.fault, Fault::MissingArgument);
    assert_eq!(err.kind(), ErrKind::ArityMismatch);
    let err = bind_env(&mut store, outer, &MalVal::Num(1), &num_list(&[1])).unwrap_err();
    assert_eq!(err.fault, Fault::BadParams);
    let bad = MalVal::list(vec![name("a"), MalVal::Num(2)]);
    let err = bind_env(&mut store, outer, &bad, &num_list(&[1, 2])).unwrap_err();
    assert_eq!(err.fault, Fault::InvalidKey);
    let err = bind_env(&mut store, outer, &pattern(&["a", "&"]), &num_list(&[1])).unwrap_err();
    assert_eq!(err.fault, Fault::Malformed);
    assert_eq!(store.len(), 1);
}

#[test]
fn output_is_kept_until_taken() {
    let mut store = Store::new();
    store.emit("one".to_string());
    store.emit("two".to_string());
    assert_eq!(store.take_output(), vec!["one".to_string(), "two".to_string()]);
    assert!(store.take_output().is_empty());
}
