use mal::runtime::FileRead;
use mal::builtins::{re, register};
use mal::runtime::Runtime;
use mal::types::error::{Halt, MalError};
use mal::types::MalVal;

fn expect_same(a: &MalVal, b: &MalVal) {
    assert!(a.equals(b, &Vec::new()) == Some(true), "{:?} is not {:?}", a, b);
}

fn expect_different(a: &MalVal, b: &MalVal) {
    assert!(a.equals(b, &Vec::new()) == Some(false), "{:?} is {:?}", a, b);
}


const FUEL: u64 = 1_000_000;

fn setup() -> Runtime {
    let mut rt = Runtime::new();
    register(&mut rt, 0, FUEL);
    rt
}

#[test]
fn more_fuel_gives_the_same_outcome() {
    let program = "(let* (f (fn* (n) (if (= n 0) 0 (+ 1 (f (- n 1)))))) (f 20))";
    let mut small = setup();
    let mut large = setup();
    let mut tiny = setup();
    let a = re(program, 0, &mut small, 2_000);
    let b = re(program, 0, &mut large, FUEL);
    expect_same(&a.unwrap(), &MalVal::Int(20));
    expect_same(&b.unwrap(), &MalVal::Int(20));
    assert_eq!(small.envs.len(), large.envs.len());
    assert!(matches!(re(program, 0, &mut tiny, 10), Err(MalError::Halt(Halt::OutOfFuel))));
}

#[test]
fn evaluation_keeps_frames() {
    let mut rt = setup();
    let before = rt.envs.len();
    re("(let* (a 1) ((fn* (b) b) a))", 0, &mut rt, FUEL).unwrap();
    assert!(rt.envs.len() > before);
    assert_eq!(rt.envs[0].outer, None);
}

#[test]
fn quote_and_self_evaluating_values_change_nothing() {
    let mut rt = setup();
    let frames = rt.envs.len();
    expect_same(&re("(quote (a b))", 0, &mut rt, FUEL).unwrap(), &MalVal::List(vec![MalVal::Symbol("a".to_string()), MalVal::Symbol("b".to_string())]));
    expect_same(&re("7", 0, &mut rt, FUEL).unwrap(), &MalVal::Int(7));
    expect_same(&re("\"s\"", 0, &mut rt, FUEL).unwrap(), &MalVal::Str("s".to_string()));
    expect_same(&re("nil", 0, &mut rt, FUEL).unwrap(), &MalVal::Nil);
    assert_eq!(rt.envs.len(), frames);
    assert!(rt.take_output().is_empty());
}

#[test]
fn cons_first_rest_count() {
    let mut rt = setup();
    expect_same(&re("(first (cons 1 [2 3]))", 0, &mut rt, FUEL).unwrap(), &MalVal::Int(1));
    expect_same(&re("(first (cons nil [2 3]))", 0, &mut rt, FUEL).unwrap(), &MalVal::Nil);
    expect_same(&re("(rest (cons 1 [2 3]))", 0, &mut rt, FUEL).unwrap(), &MalVal::List(vec![MalVal::Int(2), MalVal::Int(3)]));
    expect_same(&re("(count (cons 1 [2 3]))", 0, &mut rt, FUEL).unwrap(), &MalVal::Int(3));
}

#[test]
fn defined_symbol_is_found_from_inner_frames_too() {
    let mut rt = setup();
    re("(def! k (+ 40 2))", 0, &mut rt, FUEL).unwrap();
    expect_same(&re("k", 0, &mut rt, FUEL).unwrap(), &MalVal::Int(42));
    expect_same(&re("(let* (j 1) k)", 0, &mut rt, FUEL).unwrap(), &MalVal::Int(42));
}

#[test]
fn plain_values_equal_themselves_under_eq() {
    let mut rt = setup();
    expect_same(&re("(= {\"a\" [1 (list 2)]} {\"a\" [1 (list 2)]})", 0, &mut rt, FUEL).unwrap(), &MalVal::Bool(true));
    expect_same(&re("(= + +)", 0, &mut rt, FUEL).unwrap(), &MalVal::Bool(false));
}

#[test]
fn quasiquote_without_unquote_rebuilds_the_form() {
    let mut rt = setup();
    for text in ["(1 [a \"s\"] {\"k\" 2} (x (y)))", "[]", "sym", "()", "7"] {
        let form = mal::reader::read_str(text).unwrap();
        let line = format!("(quasiquote {})", text);
        expect_same(&re(&line, 0, &mut rt, FUEL).unwrap(), &form);
    }
}

#[test]
fn lines_never_end_the_loop() {
    let mut rt = setup();
    for line in ["(+ 1 2)", "(", ")", "(throw 1)", "(undefined)", "\"x"] {
        match mal::builtins::rep(line, 0, &mut rt, FUEL) {
            Some((_, go_on)) => assert!(go_on),
            None => {}
        }
    }
}

#[test]
fn host_inputs_are_forgotten() {
    let mut rt = setup();
    rt.add_file("f".to_string(), FileRead::Contents("one".to_string()));
    expect_same(&re("(slurp \"f\")", 0, &mut rt, FUEL).unwrap(), &MalVal::Str("one".to_string()));
    rt.forget_host_inputs();
    assert!(rt.files.is_empty() && rt.clock.is_empty() && rt.clock_next == 0);
    assert!(matches!(re("(slurp \"f\")", 0, &mut rt, FUEL), Err(MalError::Halt(Halt::NeedFile(_)))));
}

#[test]
fn quasiquote_rebuilds_with_tracing_on() {
    let mut rt = setup();
    re("(def! DEBUG-EVAL true)", 0, &mut rt, FUEL).unwrap();
    rt.take_output();
    let form = mal::reader::read_str("(1 [a \"s\"] (x))").unwrap();
    let v = re("(quasiquote (1 [a \"s\"] (x)))", 0, &mut rt, FUEL).unwrap();
    expect_same(&v, &form);
    assert!(!rt.take_output().is_empty());
}
