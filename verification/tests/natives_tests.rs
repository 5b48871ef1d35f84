use mal::env::Store;
use mal::eval::eval_ast;
use mal::natives;
use mal::natives::{apply, binary_op, cons, count, ns, prn};
use mal::printer::print;
use mal::quasiquote::{qq_iter, quasiquote};
use mal::reader::read_str;
use mal::types::{Builtin, ErrKind, Fault, MalErr, MalVal};

fn args(text: &str) -> Vec<MalVal> {
    match read_str(text).unwrap() {
        MalVal::List(items) => items.iter().cloned().collect(),
        other => panic!("no list: {:?}", other),
    }
}

fn text_of(result: Result<MalVal, MalErr>) -> String {
    print(&result.unwrap())
}

#[test]
fn arithmetic() {
    assert_eq!(text_of(binary_op(Builtin::Add, args("(1 2)"))), "3");
    assert_eq!(text_of(binary_op(Builtin::Sub, args("(1 2)"))), "-1");
    assert_eq!(text_of(binary_op(Builtin::Mul, args("(-3 4)"))), "-12");
    assert_eq!(text_of(binary_op(Builtin::Div, args("(7 2)"))), "3");
    assert_eq!(text_of(binary_op(Builtin::Div, args("(-7 2)"))), "-3");
    assert_eq!(text_of(binary_op(Builtin::Div, args("(7 -2)"))), "-3");
    assert_eq!(text_of(binary_op(Builtin::Div, args("(-7 -2)"))), "3");
    assert_eq!(text_of(binary_op(Builtin::Div, args("(-9223372036854775808 1)"))), "-9223372036854775808");
}

#[test]
fn comparisons_and_connectives() {
    assert_eq!(text_of(binary_op(Builtin::NumEq, args("(2 2)"))), "true");
    assert_eq!(text_of(binary_op(Builtin::NumEq, args("(2 3)"))), "false");
    assert_eq!(text_of(binary_op(Builtin::Lt, args("(2 3)"))), "true");
    assert_eq!(text_of(binary_op(Builtin::Lt, args("(3 3)"))), "false");
    assert_eq!(text_of(binary_op(Builtin::Le, args("(3 3)"))), "true");
    assert_eq!(text_of(binary_op(Builtin::Gt, args("(3 2)"))), "true");
    assert_eq!(text_of(binary_op(Builtin::Ge, args("(2 3)"))), "false");
    assert_eq!(text_of(binary_op(Builtin::And, args("(true false)"))), "false");
    assert_eq!(text_of(binary_op(Builtin::And, args("(true true)"))), "true");
    assert_eq!(text_of(binary_op(Builtin::Or, args("(false true)"))), "true");
    assert_eq!(text_of(binary_op(Builtin::Or, args("(false false)"))), "false");
}

#[test]
fn arithmetic_failures() {
    let overflow = [
        (Builtin::Add, "(9223372036854775807 1)"),
        (Builtin::Sub, "(-9223372036854775808 1)"),
        (Builtin::Mul, "(4611686018427387904 2)"),
        (Builtin::Div, "(-9223372036854775808 -1)"),
    ];
    for (native, text) in overflow {
        let err = binary_op(native, args(text)).unwrap_err();
        assert_eq!(err.fault, Fault::Overflow);
        assert_eq!(err.kind(), ErrKind::Arithmetic);
    }
    let err = binary_op(Builtin::Div, args("(1 0)")).unwrap_err();
    assert_eq!(err.fault, Fault::DivisionByZero);
    assert_eq!(err.kind(), ErrKind::Arithmetic);
}

#[test]
fn wrong_arguments_for_binary_natives() {
    assert_eq!(binary_op(Builtin::Add, args("(1)")).unwrap_err().fault, Fault::WrongArgCount);
    assert_eq!(binary_op(Builtin::Add, args("(1 2 3)")).unwrap_err().fault, Fault::WrongArgCount);
    assert_eq!(binary_op(Builtin::Add, args("(1 true)")).unwrap_err().fault, Fault::BadArgType);
    assert_eq!(binary_op(Builtin::And, args("(1 2)")).unwrap_err().fault, Fault::BadArgType);
    assert_eq!(binary_op(Builtin::Lt, args("(true false)")).unwrap_err().fault, Fault::BadArgType);
    assert_eq!(binary_op(Builtin::Cons, args("(1 2)")).unwrap_err().fault, Fault::BadArgType);
    assert_eq!(Fault::WrongArgCount.kind(), ErrKind::ArityMismatch);
    assert_eq!(Fault::BadArgType.kind(), ErrKind::TypeMismatch);
}

#[test]
fn cons_puts_in_front() {
    assert_eq!(text_of(cons(args("(1 (2 3))"))), "(1 2 3)");
    assert_eq!(text_of(cons(args("(1 ())"))), "(1)");
    assert_eq!(text_of(cons(args("((1) (2))"))), "((1) 2)");
    assert_eq!(cons(args("(1 2)")).unwrap_err().fault, Fault::NotASequence);
    assert_eq!(cons(args("(1)")).unwrap_err().fault, Fault::WrongArgCount);
}

#[test]
fn cons_leaves_its_argument() {
    let input = args("(0 (1 2))");
    let kept = input[1].clone();
    assert_eq!(text_of(cons(input)), "(0 1 2)");
    assert_eq!(print(&kept), "(1 2)");
}

#[test]
fn concat_joins_lists() {
    assert_eq!(text_of(natives::concat(args("((1 2) (3) () (4 5))"))), "(1 2 3 4 5)");
    assert_eq!(text_of(natives::concat(args("()"))), "()");
    assert_eq!(text_of(natives::concat(args("((1))"))), "(1)");
    let err = natives::concat(args("((1) 2)")).unwrap_err();
    assert_eq!(err.fault, Fault::NotASequence);
    assert_eq!(err.kind(), ErrKind::TypeMismatch);
}

#[test]
fn count_counts() {
    assert_eq!(text_of(count(args("((1 2 3))"))), "3");
    assert_eq!(text_of(count(args("(())"))), "0");
    assert_eq!(count(args("(5)")).unwrap_err().fault, Fault::NotASequence);
    assert_eq!(count(args("()")).unwrap_err().fault, Fault::WrongArgCount);
}

#[test]
fn prn_prints_lines() {
    let mut store = Store::new();
    assert_eq!(text_of(prn(args("(1 (2 x) nil)"), &mut store)), "nil");
    assert_eq!(store.take_output(), vec!["1", "(2 x)", "nil"]);
    assert_eq!(text_of(prn(args("()"), &mut store)), "nil");
    assert!(store.take_output().is_empty());
}

#[test]
fn apply_dispatches() {
    let mut store = Store::new();
    assert_eq!(text_of(apply(Builtin::Add, args("(20 22)"), &mut store)), "42");
    assert_eq!(text_of(apply(Builtin::Cons, args("(1 (2))"), &mut store)), "(1 2)");
    assert_eq!(text_of(apply(Builtin::Concat, args("((1) (2))"), &mut store)), "(1 2)");
    assert_eq!(text_of(apply(Builtin::Count, args("((1 2))"), &mut store)), "2");
    assert_eq!(text_of(apply(Builtin::Prn, args("(5)"), &mut store)), "nil");
    assert_eq!(store.take_output(), vec!["5"]);
}

#[test]
fn the_namespace_lists_every_native() {
    let table = ns();
    let names: Vec<&str> = table.iter().map(|entry| entry.0).collect();
    assert_eq!(
        names,
        vec!["+", "-", "*", "/", "=", "<", "<=", ">", ">=", "and", "or", "prn", "cons", "concat", "count"]
    );
    for (name, native) in table {
        assert_eq!(native.name(), name);
    }
}

#[test]
fn printer_texts() {
    assert_eq!(print(&MalVal::Nil), "nil");
    assert_eq!(print(&MalVal::Bool(true)), "true");
    assert_eq!(print(&MalVal::Bool(false)), "false");
    assert_eq!(print(&MalVal::Num(0)), "0");
    assert_eq!(print(&MalVal::Num(-120)), "-120");
    assert_eq!(print(&MalVal::Num(i64::MIN)), "-9223372036854775808");
    assert_eq!(print(&MalVal::symbol("abc")), "abc");
    assert_eq!(print(&MalVal::RustFunc(Builtin::Add)), "<builtin func>");
    assert_eq!(print(&MalVal::list(vec![])), "()");
    assert_eq!(print(&MalVal::list(vec![MalVal::Num(1)])), "(1)");
    let nested = MalVal::list(vec![
        MalVal::Num(1),
        MalVal::list(vec![MalVal::Nil, MalVal::Bool(true)]),
        MalVal::symbol("x"),
    ]);
    assert_eq!(print(&nested), "(1 (nil true) x)");
}

#[test]
fn quasiquote_expansion() {
    let expand = |text: &str| print(&quasiquote(&read_str(text).unwrap()));
    assert_eq!(expand("(unquote x)"), "x");
    assert_eq!(expand("x"), "x");
    assert_eq!(expand("(a b)"), "(cons a (cons b ()))");
    assert_eq!(expand("((splice-unquote xs) b)"), "(concat xs (cons b ()))");
    assert_eq!(expand("(a (unquote b))"), "(cons a (cons b ()))");
    assert_eq!(expand("(unquote a b)"), "(cons unquote (cons a (cons b ())))");
    assert_eq!(expand("((splice-unquote))"), "(cons (cons splice-unquote ()) ())");
    assert_eq!(print(&qq_iter(&args("(1 (splice-unquote l))"))), "(cons 1 (concat l ()))");
    assert_eq!(print(&qq_iter(&args("(unquote x)"))), "(cons unquote (cons x ()))");
}

#[test]
fn eval_ast_evaluates_elements() {
    let mut store = Store::new();
    let env = mal::env::new_env(&mut store, None);
    mal::env::set_env(&mut store, env, MalVal::symbol("x"), MalVal::Num(4)).unwrap();
    let list = read_str("(x 2 (quote y))").unwrap();
    assert_eq!(text_of(eval_ast(&list, env, &mut store, 10)), "(4 2 y)");
    assert_eq!(text_of(eval_ast(&MalVal::symbol("x"), env, &mut store, 10)), "4");
    assert_eq!(text_of(eval_ast(&MalVal::Num(3), env, &mut store, 0)), "3");
    assert_eq!(
        eval_ast(&MalVal::symbol("y"), env, &mut store, 10).unwrap_err().fault,
        Fault::Unbound
    );
}

#[test]
fn every_fault_has_a_message() {
    let faults = [
        (Fault::NoInput, "no input"),
        (Fault::UnclosedList, "expected `)`, got EOF"),
        (Fault::NumberRange, "integer literal out of range"),
        (Fault::Underflow, "underflow"),
        (Fault::InvalidKey, "invalid key type"),
        (Fault::BadParams, "failed to bind"),
        (Fault::MissingArgument, "missing argument"),
        (Fault::Malformed, "malformed special form"),
        (Fault::BadBindings, "invalid arglist in let*"),
        (Fault::MacroOnNonFunction, "set macro on non-func"),
        (Fault::NotCallable, "attempt to call non-function"),
        (Fault::WrongArgCount, "wrong number of args"),
        (Fault::BadArgType, "invalid type of args"),
        (Fault::NotASequence, "non-seq passed to a list function"),
        (Fault::Overflow, "integer overflow"),
        (Fault::DivisionByZero, "division by zero"),
        (Fault::StaleEnv, "no such environment"),
        (Fault::OutOfFuel, "evaluation budget exhausted"),
    ];
    for (fault, text) in faults {
        assert_eq!(MalErr::new(fault).message(), text);
        assert_eq!(fault.text(), text);
    }
    assert_eq!(MalErr::unbound("x").message(), "`x` not found");
    assert_eq!(MalErr::unbound("x").clone().symbol, "x");
}
