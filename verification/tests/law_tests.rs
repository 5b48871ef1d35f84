use mal::env::{get_env, new_env, set_env, Store};
use mal::eval::eval;
use mal::natives::ns;
use mal::printer::print;
use mal::reader::read_str;
use mal::types::{Env, Fault, MalVal};

fn fresh() -> (Store, Env) {
    let mut store = Store::new();
    let global = new_env(&mut store, None);
    for (name, native) in ns() {
        set_env(&mut store, global, MalVal::symbol(name), MalVal::RustFunc(native)).unwrap();
    }
    (store, global)
}

fn outcome(text: &str, fuel: u64) -> (Result<String, Fault>, usize, Vec<String>) {
    let (mut store, env) = fresh();
    let prelude = "(def! fact (fn* (n) (if (= n 0) 1 (* n (fact (- n 1))))))";
    eval(read_str(prelude).unwrap(), env, &mut store, u64::MAX).unwrap();
    let result = eval(read_str(text).unwrap(), env, &mut store, fuel);
    let shown = match result {
        Ok(value) => Ok(print(&value)),
        Err(err) => Err(err.fault),
    };
    (shown, store.len(), store.take_output())
}

#[test]
fn a_larger_budget_gives_the_same() {
    let programs = [
        "(fact 10)",
        "(do (prn 1) (prn (fact 3)) (let* (a 2) (+ a 1)))",
        "(undefined 1 2)",
        "(+ 1 true)",
        "((fn* (a & b) (count b)) 1 2 3)",
    ];
    for text in programs {
        let mut least = 0;
        while outcome(text, least).0 == Err(Fault::OutOfFuel) {
            least += 1;
            assert!(least < 1000);
        }
        let enough = outcome(text, least);
        assert_eq!(outcome(text, least + 1), enough);
        assert_eq!(outcome(text, least + 50), enough);
        assert_eq!(outcome(text, u64::MAX), enough);
    }
    assert_eq!(outcome("(fact 10)", u64::MAX).0, Ok("3628800".to_string()));
    assert_eq!(outcome("(fact 10)", 5).0, Err(Fault::OutOfFuel));
}

#[test]
fn evaluation_never_takes_an_environment_away() {
    let (mut store, env) = fresh();
    let mut seen = store.len();
    for text in [
        "(def! make (fn* (n) (fn* () n)))",
        "(def! three (make 3))",
        "(let* (a 1 b 2) (+ a b))",
        "(undefined)",
        "((fn* (a b) a) 1)",
        "(three)",
        "(let* (a 1 b (undefined)) a)",
        "(three)",
    ] {
        let _ = eval(read_str(text).unwrap(), env, &mut store, u64::MAX);
        assert!(store.len() >= seen);
        seen = store.len();
        assert!(matches!(get_env(&store, env, &MalVal::symbol("+")), Ok(MalVal::RustFunc(_))));
    }
    let three = eval(read_str("(three)").unwrap(), env, &mut store, u64::MAX).unwrap();
    assert!(matches!(three, MalVal::Num(3)));
}

#[test]
fn closures_name_environments_that_exist() {
    let (mut store, env) = fresh();
    for text in [
        "(def! adder (fn* (n) (fn* (m) (+ n m))))",
        "(def! add-two (adder 2))",
        "(defmacro! later (fn* (x) x))",
    ] {
        match eval(read_str(text).unwrap(), env, &mut store, u64::MAX).unwrap() {
            MalVal::MalFunc { env: home, .. } => assert!(home < store.len()),
            other => panic!("no closure: {:?}", other),
        }
    }
    let five = eval(read_str("(add-two 3)").unwrap(), env, &mut store, u64::MAX).unwrap();
    assert!(matches!(five, MalVal::Num(5)));
}
