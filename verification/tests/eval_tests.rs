use mal::env::{new_env, set_env, Store};
use mal::eval::{eval, macroexpand};
use mal::natives::ns;
use mal::printer::print;
use mal::reader::read_str;
use mal::types::{Env, ErrKind, Fault, MalErr, MalVal};

const FUEL: u64 = u64::MAX;

fn machine() -> (Store, Env) {
    let mut store = Store::new();
    let global = new_env(&mut store, None);
    for (name, native) in ns() {
        set_env(&mut store, global, MalVal::symbol(name), MalVal::RustFunc(native)).unwrap();
    }
    (store, global)
}

fn run(store: &mut Store, env: Env, text: &str) -> Result<String, MalErr> {
    let ast = read_str(text)?;
    let value = eval(ast, env, store, FUEL)?;
    Ok(print(&value))
}

fn shows(store: &mut Store, env: Env, text: &str) -> String {
    run(store, env, text).unwrap()
}

fn fault_of(store: &mut Store, env: Env, text: &str) -> Fault {
    run(store, env, text).unwrap_err().fault
}

#[test]
fn adds_two_numbers() {
    let (mut store, env) = machine();
    let ast = read_str("(+ 1 2)").unwrap();
    let value = eval(ast, env, &mut store, FUEL).unwrap();
    assert!(matches!(value, MalVal::Num(3)));
}

#[test]
fn tail_recursion_runs_a_million_times() {
    let (mut store, env) = machine();
    shows(&mut store, env, "(def! count-down (fn* (n) (if (= n 0) 0 (count-down (- n 1)))))");
    assert_eq!(shows(&mut store, env, "(count-down 1000000)"), "0");
}

#[test]
fn tail_recursion_through_do_and_let() {
    let (mut store, env) = machine();
    shows(
        &mut store,
        env,
        "(def! sum (fn* (n acc) (do 1 (let* (m (- n 1)) (if (= n 0) acc (sum m (+ acc n)))))))",
    );
    assert_eq!(shows(&mut store, env, "(sum 100000 0)"), "5000050000");
}

#[test]
fn inner_let_shadows_and_outer_stays() {
    let (mut store, env) = machine();
    assert_eq!(shows(&mut store, env, "(let* (x 1) (let* (x 2) x))"), "2");
    assert_eq!(shows(&mut store, env, "(let* (x 1) (do (let* (x 2) x) x))"), "1");
    assert_eq!(shows(&mut store, env, "(let* (x 1) (+ (let* (x 2) x) x))"), "3");
}

#[test]
fn let_bindings_see_earlier_ones() {
    let (mut store, env) = machine();
    assert_eq!(shows(&mut store, env, "(let* (a 2 b (* a 3)) (+ a b))"), "8");
}

#[test]
fn let_does_not_leak() {
    let (mut store, env) = machine();
    assert_eq!(shows(&mut store, env, "(let* (hidden 1) hidden)"), "1");
    assert_eq!(fault_of(&mut store, env, "hidden"), Fault::Unbound);
}

#[test]
fn macroexpand_goes_to_the_fixpoint() {
    let (mut store, env) = machine();
    shows(&mut store, env, "(defmacro! one (fn* () 1))");
    shows(&mut store, env, "(defmacro! two (fn* () (quote (one))))");
    shows(&mut store, env, "(defmacro! three (fn* () (quote (two))))");
    shows(&mut store, env, "(defmacro! wrap (fn* (x) (quote (+ 1 2))))");
    assert_eq!(shows(&mut store, env, "(macroexpand (three))"), "1");
    assert_eq!(shows(&mut store, env, "(macroexpand (wrap 5))"), "(+ 1 2)");
    assert_eq!(shows(&mut store, env, "(macroexpand (+ 1 2))"), "(+ 1 2)");
    assert_eq!(shows(&mut store, env, "(three)"), "1");
    assert_eq!(shows(&mut store, env, "(wrap 5)"), "3");
}

#[test]
fn macroexpand_reports_whether_it_expanded() {
    let (mut store, env) = machine();
    shows(&mut store, env, "(defmacro! twice (fn* (x) (cons (quote do) (cons x (cons x ())))))");
    let call = read_str("(twice (prn 7))").unwrap();
    let (expanded, form) = macroexpand(call, env, &mut store, FUEL).unwrap();
    assert!(expanded);
    assert_eq!(print(&form), "(do (prn 7) (prn 7))");
    assert!(store.take_output().is_empty());
    let plain = read_str("(prn 7)").unwrap();
    let (expanded, form) = macroexpand(plain, env, &mut store, FUEL).unwrap();
    assert!(!expanded);
    assert_eq!(print(&form), "(prn 7)");
}

#[test]
fn macro_arguments_are_not_evaluated() {
    let (mut store, env) = machine();
    shows(
        &mut store,
        env,
        "(defmacro! unless (fn* (c a b) (cons (quote if) (cons c (cons b (cons a ()))))))",
    );
    assert_eq!(shows(&mut store, env, "(unless false 7 (undefined-thing))"), "7");
    assert_eq!(shows(&mut store, env, "(macroexpand (unless c 1 2))"), "(if c 2 1)");
}

#[test]
fn quasiquote_unquotes() {
    let (mut store, env) = machine();
    assert_eq!(shows(&mut store, env, "(quasiquote (1 (unquote (+ 1 1)) 3))"), "(1 2 3)");
}

#[test]
fn quasiquote_evaluates_what_it_does_not_quote() {
    let (mut store, env) = machine();
    shows(&mut store, env, "(def! a 5)");
    assert_eq!(shows(&mut store, env, "(quasiquote (a (unquote a) (unquote (quote a))))"), "(5 5 a)");
    assert_eq!(shows(&mut store, env, "(quasiquote ((1 2) 3))"), "((1 2) 3)");
    assert_eq!(shows(&mut store, env, "(quasiquote 7)"), "7");
    assert_eq!(fault_of(&mut store, env, "(quasiquote (b))"), Fault::Unbound);
}

#[test]
fn quasiquote_splices() {
    let (mut store, env) = machine();
    shows(&mut store, env, "(def! list (fn* (& xs) xs))");
    assert_eq!(
        shows(&mut store, env, "(quasiquote (1 (splice-unquote (list 2 3)) 4))"),
        "(1 2 3 4)"
    );
}

#[test]
fn quasiquoteexpand_shows_the_code() {
    let (mut store, env) = machine();
    assert_eq!(
        shows(&mut store, env, "(quasiquoteexpand (1 (unquote x) (splice-unquote y)))"),
        "(cons 1 (cons x (concat y ())))"
    );
    assert_eq!(shows(&mut store, env, "(quasiquoteexpand (unquote x))"), "x");
    assert_eq!(shows(&mut store, env, "(quasiquoteexpand 7)"), "7");
    assert_eq!(shows(&mut store, env, "(quasiquoteexpand ())"), "()");
    assert_eq!(
        shows(&mut store, env, "(quasiquoteexpand ((1 2)))"),
        "(cons (cons 1 (cons 2 ())) ())"
    );
}

#[test]
fn variadic_parameters_collect_the_rest() {
    let (mut store, env) = machine();
    assert_eq!(shows(&mut store, env, "((fn* (a & b) a) 1 2 3)"), "1");
    assert_eq!(shows(&mut store, env, "((fn* (a & b) b) 1 2 3)"), "(2 3)");
    assert_eq!(shows(&mut store, env, "((fn* (a & b) b) 1)"), "()");
    assert_eq!(shows(&mut store, env, "((fn* (& all) all))"), "()");
}

#[test]
fn unbound_symbol_is_reported() {
    let (mut store, env) = machine();
    let err = run(&mut store, env, "nowhere").unwrap_err();
    assert_eq!(err.fault, Fault::Unbound);
    assert_eq!(err.kind(), ErrKind::UnboundSymbol);
    assert_eq!(err.symbol, "nowhere");
    assert_eq!(err.message(), "`nowhere` not found");
    assert_eq!(shows(&mut store, env, "(+ 2 2)"), "4");
}

#[test]
fn def_binds_and_returns_the_value() {
    let (mut store, env) = machine();
    assert_eq!(shows(&mut store, env, "(def! x (+ 1 2))"), "3");
    assert_eq!(shows(&mut store, env, "x"), "3");
    assert_eq!(shows(&mut store, env, "(def! x 4)"), "4");
    assert_eq!(shows(&mut store, env, "x"), "4");
}

#[test]
fn closures_share_their_scope() {
    let (mut store, env) = machine();
    shows(&mut store, env, "(def! make (fn* (n) (fn* () n)))");
    shows(&mut store, env, "(def! seven (make 7))");
    shows(&mut store, env, "(def! eight (make 8))");
    assert_eq!(shows(&mut store, env, "(seven)"), "7");
    assert_eq!(shows(&mut store, env, "(eight)"), "8");
    shows(&mut store, env, "(def! read-later (fn* () later))");
    assert_eq!(fault_of(&mut store, env, "(read-later)"), Fault::Unbound);
    shows(&mut store, env, "(def! later 5)");
    assert_eq!(shows(&mut store, env, "(read-later)"), "5");
}

#[test]
fn do_evaluates_in_order() {
    let (mut store, env) = machine();
    assert_eq!(shows(&mut store, env, "(do (prn 1) (prn 2) 3)"), "3");
    assert_eq!(store.take_output(), vec!["1".to_string(), "2".to_string()]);
    assert_eq!(shows(&mut store, env, "(do)"), "nil");
    assert_eq!(shows(&mut store, env, "(do 9)"), "9");
}

#[test]
fn if_chooses_a_branch() {
    let (mut store, env) = machine();
    assert_eq!(shows(&mut store, env, "(if true 1 2)"), "1");
    assert_eq!(shows(&mut store, env, "(if false 1 2)"), "2");
    assert_eq!(shows(&mut store, env, "(if nil 1 2)"), "2");
    assert_eq!(shows(&mut store, env, "(if 0 1 2)"), "1");
    assert_eq!(shows(&mut store, env, "(if () 1 2)"), "1");
    assert_eq!(shows(&mut store, env, "(if false 1)"), "nil");
    assert_eq!(shows(&mut store, env, "(if true)"), "nil");
    assert_eq!(shows(&mut store, env, "(if true 1 (undefined))"), "1");
}

#[test]
fn quote_returns_the_form() {
    let (mut store, env) = machine();
    assert_eq!(shows(&mut store, env, "(quote (+ 1 2))"), "(+ 1 2)");
    assert_eq!(shows(&mut store, env, "(quote sym)"), "sym");
}

#[test]
fn values_evaluate_to_themselves() {
    let (mut store, env) = machine();
    assert_eq!(shows(&mut store, env, "()"), "()");
    assert_eq!(shows(&mut store, env, "12"), "12");
    assert_eq!(shows(&mut store, env, "nil"), "nil");
    assert_eq!(shows(&mut store, env, "true"), "true");
    assert_eq!(shows(&mut store, env, "+"), "<builtin func>");
    assert_eq!(shows(&mut store, env, "(fn* (a) a)"), "<func>");
    assert_eq!(shows(&mut store, env, "(defmacro! m (fn* (a) a))"), "<macro>");
}

#[test]
fn malformed_special_forms_fail() {
    let (mut store, env) = machine();
    for text in [
        "(def!)",
        "(def! x)",
        "(let*)",
        "(let* (x 1))",
        "(let* (x) x)",
        "(quote)",
        "(quasiquote)",
        "(quasiquoteexpand)",
        "(if)",
        "(fn*)",
        "(fn* (a))",
        "(defmacro! m)",
        "(macroexpand)",
        "((fn* (a &) a) 1)",
    ] {
        let err = run(&mut store, env, text).unwrap_err();
        assert_eq!(err.fault, Fault::Malformed);
        assert_eq!(err.kind(), ErrKind::MalformedSpecialForm);
    }
}

#[test]
fn type_mismatches_fail() {
    let (mut store, env) = machine();
    assert_eq!(fault_of(&mut store, env, "(def! 5 1)"), Fault::InvalidKey);
    assert_eq!(fault_of(&mut store, env, "(let* (5 1) 2)"), Fault::InvalidKey);
    assert_eq!(fault_of(&mut store, env, "(let* x 2)"), Fault::BadBindings);
    assert_eq!(fault_of(&mut store, env, "((fn* a a) 1)"), Fault::BadParams);
    assert_eq!(fault_of(&mut store, env, "((fn* (1) 1) 1)"), Fault::InvalidKey);
    assert_eq!(fault_of(&mut store, env, "((fn* (a & 1) 1) 1)"), Fault::InvalidKey);
    assert_eq!(fault_of(&mut store, env, "(1 2 3)"), Fault::NotCallable);
    assert_eq!(fault_of(&mut store, env, "(nil)"), Fault::NotCallable);
    assert_eq!(fault_of(&mut store, env, "(defmacro! m 5)"), Fault::MacroOnNonFunction);
    for fault in [
        Fault::InvalidKey,
        Fault::BadBindings,
        Fault::BadParams,
        Fault::NotCallable,
        Fault::MacroOnNonFunction,
    ] {
        assert_eq!(fault.kind(), ErrKind::TypeMismatch);
    }
}

#[test]
fn a_macro_is_not_applied_as_a_function() {
    let (mut store, env) = machine();
    shows(&mut store, env, "(defmacro! m (fn* (x) x))");
    assert_eq!(fault_of(&mut store, env, "((do m) 1)"), Fault::NotCallable);
}

#[test]
fn too_few_arguments_fail() {
    let (mut store, env) = machine();
    let err = run(&mut store, env, "((fn* (a b) a) 1)").unwrap_err();
    assert_eq!(err.fault, Fault::MissingArgument);
    assert_eq!(err.kind(), ErrKind::ArityMismatch);
    assert_eq!(shows(&mut store, env, "((fn* (a) a) 1 2)"), "1");
}

#[test]
fn failures_in_macros_are_not_swallowed() {
    let (mut store, env) = machine();
    shows(&mut store, env, "(defmacro! broken (fn* () (undefined-thing)))");
    assert_eq!(fault_of(&mut store, env, "(broken)"), Fault::Unbound);
    assert_eq!(fault_of(&mut store, env, "(macroexpand (broken))"), Fault::Unbound);
}

#[test]
fn the_budget_ends_an_endless_loop() {
    let (mut store, env) = machine();
    shows(&mut store, env, "(def! forever (fn* () (forever)))");
    let ast = read_str("(forever)").unwrap();
    let err = eval(ast, env, &mut store, 1000).unwrap_err();
    assert_eq!(err.fault, Fault::OutOfFuel);
    assert_eq!(err.kind(), ErrKind::Exhausted);
    shows(&mut store, env, "(defmacro! again (fn* () (quote (again))))");
    let ast = read_str("(again)").unwrap();
    assert_eq!(macroexpand(ast, env, &mut store, 50).unwrap_err().fault, Fault::OutOfFuel);
}

#[test]
fn the_budget_counts_steps() {
    let (mut store, env) = machine();
    assert_eq!(eval(MalVal::Num(1), env, &mut store, 0).unwrap_err().fault, Fault::OutOfFuel);
    assert!(matches!(eval(MalVal::Num(1), env, &mut store, 1), Ok(MalVal::Num(1))));
    let ast = read_str("(+ 1 2)").unwrap();
    assert_eq!(eval(ast.clone(), env, &mut store, 1).unwrap_err().fault, Fault::OutOfFuel);
    assert!(matches!(eval(ast, env, &mut store, 2), Ok(MalVal::Num(3))));
    let ast = read_str("(if true (+ 1 2) 0)").unwrap();
    assert_eq!(eval(ast.clone(), env, &mut store, 2).unwrap_err().fault, Fault::OutOfFuel);
    assert!(matches!(eval(ast, env, &mut store, 3), Ok(MalVal::Num(3))));
}

#[test]
fn defmacro_binds_in_the_closures_scope() {
    let (mut store, env) = machine();
    shows(&mut store, env, "(def! f (fn* (x) x))");
    assert_eq!(shows(&mut store, env, "(let* (y 1) (defmacro! g f))"), "<macro>");
    assert_eq!(shows(&mut store, env, "(g 5)"), "5");
    assert_eq!(shows(&mut store, env, "(macroexpand (g (+ 1 2)))"), "(+ 1 2)");
}

#[test]
fn a_stale_environment_is_reported() {
    let (mut store, env) = machine();
    assert_eq!(run(&mut store, env + 7, "(def! x 1)").unwrap_err().fault, Fault::StaleEnv);
    assert_eq!(run(&mut store, env + 7, "x").unwrap_err().fault, Fault::Unbound);
}
