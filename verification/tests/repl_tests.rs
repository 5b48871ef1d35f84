use mal::env::{get_env, Store};
use mal::natives::ns;
use mal::repl::{global_env, rep};
use mal::types::{ErrKind, Fault, MalVal};

#[test]
fn the_global_environment_binds_every_native() {
    let mut store = Store::new();
    let global = global_env(&mut store);
    assert_eq!(global, 0);
    assert_eq!(store.len(), 1);
    for (name, native) in ns() {
        match get_env(&store, global, &MalVal::symbol(name)) {
            Ok(MalVal::RustFunc(found)) => assert_eq!(found, native),
            other => panic!("{} is bound to {:?}", name, other),
        }
    }
    assert!(get_env(&store, global, &MalVal::symbol("list")).is_err());
    let second = global_env(&mut store);
    assert_eq!(second, 1);
    assert!(matches!(get_env(&store, second, &MalVal::symbol("+")), Ok(MalVal::RustFunc(_))));
}

#[test]
fn a_turn_reads_evaluates_and_prints() {
    let mut store = Store::new();
    let global = global_env(&mut store);
    assert_eq!(rep("(+ 1 2)", global, &mut store, u64::MAX).unwrap(), "3");
    assert_eq!(rep("(def! twice (fn* (x) (* 2 x)))", global, &mut store, u64::MAX).unwrap(), "<func>");
    assert_eq!(rep("(twice 21) ; the rest is not read", global, &mut store, u64::MAX).unwrap(), "42");
    assert_eq!(rep("(cons 1 (quote (2 3)))", global, &mut store, u64::MAX).unwrap(), "(1 2 3)");
    assert_eq!(rep("(prn (twice 4))", global, &mut store, u64::MAX).unwrap(), "nil");
    assert_eq!(store.take_output(), vec!["8"]);
}

#[test]
fn a_turn_reports_failures_and_goes_on() {
    let mut store = Store::new();
    let global = global_env(&mut store);
    let err = rep("(+ 1", global, &mut store, u64::MAX).unwrap_err();
    assert_eq!(err.fault, Fault::UnclosedList);
    assert_eq!(err.kind(), ErrKind::ParseError);
    let err = rep("", global, &mut store, u64::MAX).unwrap_err();
    assert_eq!(err.fault, Fault::NoInput);
    let err = rep("(do (prn 1) (nothing))", global, &mut store, u64::MAX).unwrap_err();
    assert_eq!(err.fault, Fault::Unbound);
    assert_eq!(err.kind(), ErrKind::UnboundSymbol);
    assert_eq!(err.symbol, "nothing");
    assert_eq!(store.take_output(), vec!["1"]);
    let err = rep("(+ 1 2)", global, &mut store, 1).unwrap_err();
    assert_eq!(err.fault, Fault::OutOfFuel);
    assert_eq!(rep("(+ 1 2)", global, &mut store, 2).unwrap(), "3");
}
