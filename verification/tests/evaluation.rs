use mal::builtins::{quasiquote, re, register, rep};
use mal::evaluation::eval;
use mal::printer::print;
use mal::runtime::{FileRead, Runtime};
use mal::types::error::{Halt, MalError, MalReturn};
use mal::types::{Builtin, MalVal};

fn expect_same(a: &MalVal, b: &MalVal) {
    assert!(a.equals(b, &Vec::new()) == Some(true), "{:?} is not {:?}", a, b);
}

fn expect_different(a: &MalVal, b: &MalVal) {
    assert!(a.equals(b, &Vec::new()) == Some(false), "{:?} is {:?}", a, b);
}


const FUEL: u64 = 1_000_000;

fn setup() -> Runtime {
    let mut rt = Runtime::new();
    register(&mut rt, 0, FUEL);
    rt
}

fn run(rt: &mut Runtime, line: &str) -> MalReturn {
    re(line, 0, rt, FUEL)
}

fn show(rt: &mut Runtime, line: &str) -> String {
    rep(line, 0, rt, FUEL).unwrap().0
}

#[test]
fn arithmetic() {
    let mut rt = setup();
    expect_same(&run(&mut rt, "(+ 1 2)").unwrap(), &MalVal::Int(3));
    expect_same(&run(&mut rt, "(- 10 4 3)").unwrap(), &MalVal::Int(3));
    expect_same(&run(&mut rt, "(* 2 3 4)").unwrap(), &MalVal::Int(24));
    expect_same(&run(&mut rt, "(/ 7 2)").unwrap(), &MalVal::Int(3));
    expect_same(&run(&mut rt, "(/ -7 2)").unwrap(), &MalVal::Int(-3));
    expect_same(&run(&mut rt, "(+)").unwrap(), &MalVal::Int(0));
    expect_same(&run(&mut rt, "(* 2 (+ 1 2))").unwrap(), &MalVal::Int(6));
}

#[test]
fn arithmetic_aborts_on_zero_division_and_overflow() {
    let mut rt = setup();
    assert!(matches!(run(&mut rt, "(/ 1 0)"), Err(MalError::Halt(Halt::Panic))));
    assert!(matches!(
        run(&mut rt, "(+ 9223372036854775807 1)"),
        Err(MalError::Halt(Halt::Panic))
    ));
}

#[test]
fn comparisons() {
    let mut rt = setup();
    assert_eq!(show(&mut rt, "(< 1 2 3)"), "true");
    assert_eq!(show(&mut rt, "(< 1 3 2)"), "false");
    assert_eq!(show(&mut rt, "(<= 2 2)"), "true");
    assert_eq!(show(&mut rt, "(> 3 2)"), "true");
    assert_eq!(show(&mut rt, "(>= 1 2)"), "false");
    assert_eq!(show(&mut rt, "(= (list 1 2) [1 2])"), "true");
    assert_eq!(show(&mut rt, "(= \"a\" \"b\")"), "false");
}

#[test]
fn define_then_lookup() {
    let mut rt = setup();
    expect_same(&run(&mut rt, "(def! x 10)").unwrap(), &MalVal::Int(10));
    expect_same(&run(&mut rt, "x").unwrap(), &MalVal::Int(10));
    expect_same(&run(&mut rt, "(def! y (+ x 1))").unwrap(), &MalVal::Int(11));
    expect_same(&run(&mut rt, "y").unwrap(), &MalVal::Int(11));
    assert_eq!(show(&mut rt, "z"), "Error: 'z' not found");
    expect_same(&run(&mut rt, "(let* (q 1) (def! w 5))").unwrap(), &MalVal::Int(5));
    expect_same(&run(&mut rt, "w").unwrap(), &MalVal::Int(5));
}

#[test]
fn let_if_do() {
    let mut rt = setup();
    expect_same(&run(&mut rt, "(let* (a 1 b (+ a 1)) (* a b))").unwrap(), &MalVal::Int(2));
    expect_same(&run(&mut rt, "(let* [a 2] a)").unwrap(), &MalVal::Int(2));
    expect_same(&run(&mut rt, "(if nil 1 2)").unwrap(), &MalVal::Int(2));
    expect_same(&run(&mut rt, "(if 0 1 2)").unwrap(), &MalVal::Int(1));
    expect_same(&run(&mut rt, "(if false 1)").unwrap(), &MalVal::Nil);
    expect_same(&run(&mut rt, "(do 1 2 3)").unwrap(), &MalVal::Int(3));
    assert_eq!(show(&mut rt, "(let* 1 2)"), "Error: let* bindings must be a list or vector");
}

#[test]
fn special_forms_without_their_items_abort() {
    let mut rt = setup();
    assert!(matches!(run(&mut rt, "(let* (a) a)"), Err(MalError::Halt(Halt::Panic))));
    assert!(matches!(run(&mut rt, "(if)"), Err(MalError::Halt(Halt::Panic))));
    assert!(matches!(run(&mut rt, "(def! x)"), Err(MalError::Halt(Halt::Panic))));
    assert!(matches!(run(&mut rt, "((fn* (a b) a) 1)"), Err(MalError::Halt(Halt::Panic))));
}

#[test]
fn functions_and_closures() {
    let mut rt = setup();
    expect_same(&run(&mut rt, "((fn* (a b) (+ a b)) 3 4)").unwrap(), &MalVal::Int(7));
    run(&mut rt, "(def! adder (fn* (n) (fn* (x) (+ x n))))").unwrap();
    expect_same(&run(&mut rt, "((adder 5) 10)").unwrap(), &MalVal::Int(15));
    expect_same(&run(&mut rt, "((fn* (& xs) (count xs)) 1 2 3)").unwrap(), &MalVal::Int(3));
    assert_eq!(show(&mut rt, "(fn* (a) a)"), "#<function>");
    assert_eq!(show(&mut rt, "(1 2)"), "Error: try to call a non-function: 1");
}

#[test]
fn tail_calls_run_in_a_loop() {
    let mut rt = setup();
    run(&mut rt, "(def! sum (fn* (n acc) (if (= n 0) acc (sum (- n 1) (+ acc n)))))").unwrap();
    expect_same(&run(&mut rt, "(sum 10000 0)").unwrap(), &MalVal::Int(50005000));
}

#[test]
fn running_out_of_fuel() {
    let mut rt = setup();
    run(&mut rt, "(def! spin (fn* (n) (spin n)))").unwrap();
    assert!(matches!(
        re("(spin 1)", 0, &mut rt, 1000),
        Err(MalError::Halt(Halt::OutOfFuel))
    ));
}

#[test]
fn quote_and_quasiquote() {
    let mut rt = setup();
    assert_eq!(show(&mut rt, "(quote (1 2))"), "(1 2)");
    assert_eq!(show(&mut rt, "'(a b)"), "(a b)");
    assert_eq!(show(&mut rt, "`(1 ~(+ 1 1) ~@(list 3 4))"), "(1 2 3 4)");
    assert_eq!(show(&mut rt, "`[1 ~(+ 1 1)]"), "[1 2]");
    assert_eq!(show(&mut rt, "`x"), "x");
}

#[test]
fn quasiquote_expansion() {
    let unq = MalVal::List(vec![
        MalVal::Symbol("unquote".to_string()),
        MalVal::Symbol("x".to_string()),
    ]);
    expect_same(&quasiquote(&unq).unwrap(), &MalVal::Symbol("x".to_string()));
    let s = MalVal::Symbol("s".to_string());
    expect_same(&quasiquote(&s).unwrap(), &MalVal::List(vec![MalVal::Symbol("quote".to_string()), s.clone()]));
    expect_same(&quasiquote(&MalVal::Int(1)).unwrap(), &MalVal::Int(1));
}

#[test]
fn not_and_cond() {
    let mut rt = setup();
    assert_eq!(show(&mut rt, "(not nil)"), "true");
    assert_eq!(show(&mut rt, "(not 1)"), "false");
    assert_eq!(show(&mut rt, "(cond false 1 true 2)"), "2");
    assert_eq!(show(&mut rt, "(cond)"), "nil");
    assert_eq!(show(&mut rt, "(cond true)"), "Exception: \"odd number of forms to cond\"");
}

#[test]
fn macros() {
    let mut rt = setup();
    run(&mut rt, "(defmacro! unless (fn* (c a b) `(if ~c ~b ~a)))").unwrap();
    expect_same(&run(&mut rt, "(unless false 1 2)").unwrap(), &MalVal::Int(1));
    assert_eq!(show(&mut rt, "(macro? unless)"), "true");
    assert_eq!(show(&mut rt, "(macro? not)"), "false");
    assert_eq!(show(&mut rt, "(defmacro! m 1)"), "Error: defmacro! expects a lambda");
}

#[test]
fn atoms() {
    let mut rt = setup();
    run(&mut rt, "(def! a (atom 1))").unwrap();
    assert_eq!(show(&mut rt, "(atom? a)"), "true");
    assert_eq!(show(&mut rt, "a"), "(atom 1)");
    expect_same(&run(&mut rt, "(swap! a + 2)").unwrap(), &MalVal::Int(3));
    expect_same(&run(&mut rt, "@a").unwrap(), &MalVal::Int(3));
    expect_same(&run(&mut rt, "(swap! a (fn* (x y) (* x y)) 10)").unwrap(), &MalVal::Int(30));
    expect_same(&run(&mut rt, "(reset! a 5)").unwrap(), &MalVal::Int(5));
    expect_same(&run(&mut rt, "(deref a)").unwrap(), &MalVal::Int(5));
    assert_eq!(show(&mut rt, "(deref 1)"), "Error: deref expects an atom");
    assert_eq!(show(&mut rt, "(atom)"), "Error: atom expects one argument");
}

#[test]
fn try_and_throw() {
    let mut rt = setup();
    expect_same(&run(&mut rt, "(try* (throw 1) (catch* e (+ e 1)))").unwrap(), &MalVal::Int(2));
    assert_eq!(show(&mut rt, "(try* (abc) (catch* e e))"), "\"'abc' not found\"");
    expect_same(&run(&mut rt, "(try* 7)").unwrap(), &MalVal::Int(7));
    expect_same(&run(&mut rt, "(try* 7 (catch* e 8))").unwrap(), &MalVal::Int(7));
    assert_eq!(show(&mut rt, "(throw \"x\")"), "Exception: \"x\"");
    assert_eq!(show(&mut rt, "(try* (throw 1) 5)"), "Error: catch* expects a list");
    assert_eq!(show(&mut rt, "(try* (throw 1) (foo e 5))"), "foo");
}

#[test]
fn eval_form_uses_outermost_frame() {
    let mut rt = setup();
    expect_same(&run(&mut rt, "(eval (list + 1 2))").unwrap(), &MalVal::Int(3));
    assert_eq!(show(&mut rt, "(let* (z 1) (eval 'z))"), "Error: 'z' not found");
    expect_same(&run(&mut rt, "(eval (read-string \"(+ 2 3)\"))").unwrap(), &MalVal::Int(5));
}

#[test]
fn strings_and_printing() {
    let mut rt = setup();
    assert_eq!(show(&mut rt, "(str 1 \"a\" :k)"), "\"1a:k\"");
    assert_eq!(show(&mut rt, "(pr-str \"a\" 1)"), "\"\\\"a\\\" 1\"");
    rt.take_output();
    expect_same(&run(&mut rt, "(prn \"a\" 1)").unwrap(), &MalVal::Nil);
    expect_same(&run(&mut rt, "(println \"a\" 1)").unwrap(), &MalVal::Nil);
    assert_eq!(rt.take_output(), vec!["\"a\" 1".to_string(), "a 1".to_string()]);
    assert_eq!(show(&mut rt, "(read-string \"(1 2)\")"), "(1 2)");
}

#[test]
fn collections() {
    let mut rt = setup();
    assert_eq!(show(&mut rt, "(count (list 1 2 3))"), "3");
    assert_eq!(show(&mut rt, "(count nil)"), "0");
    assert_eq!(show(&mut rt, "(cons 1 [2 3])"), "(1 2 3)");
    assert_eq!(show(&mut rt, "(concat (list 1) [2] (list))"), "(1 2)");
    assert_eq!(show(&mut rt, "(nth [1 2 3] 1)"), "2");
    assert_eq!(show(&mut rt, "(nth [1 2 3] 5)"), "Error: index out of bounds");
    assert_eq!(show(&mut rt, "(first (list 7 8))"), "7");
    assert_eq!(show(&mut rt, "(rest (list 7 8))"), "(8)");
    assert_eq!(show(&mut rt, "(rest (list nil 8))"), "()");
    assert_eq!(show(&mut rt, "(vec (list 1 2))"), "[1 2]");
    assert_eq!(show(&mut rt, "(list? (list))"), "true");
    assert_eq!(show(&mut rt, "(vector? [])"), "true");
    assert_eq!(show(&mut rt, "(empty? [])"), "true");
    assert_eq!(show(&mut rt, "(empty? [1])"), "false");
    assert_eq!(show(&mut rt, "{\"a\" (+ 1 2)}"), "{\"a\" 3}");
    assert_eq!(show(&mut rt, "[(+ 1 1) 3]"), "[2 3]");
    assert_eq!(show(&mut rt, "()"), "()");
}

#[test]
fn map_value_errors_abort() {
    let mut rt = setup();
    assert!(matches!(run(&mut rt, "{\"a\" undefined}"), Err(MalError::Halt(Halt::Panic))));
}

#[test]
fn tracing_prints_each_form() {
    let mut rt = setup();
    run(&mut rt, "(def! DEBUG-EVAL true)").unwrap();
    rt.take_output();
    expect_same(&run(&mut rt, "(+ 1 2)").unwrap(), &MalVal::Int(3));
    assert_eq!(
        rt.take_output(),
        vec![
            "EVAL: (+ 1 2)".to_string(),
            "EVAL: +".to_string(),
            "EVAL: 1".to_string(),
            "EVAL: 2".to_string()
        ]
    );
}

#[test]
fn slurp_and_load_file_ask_the_host() {
    let mut rt = setup();
    match run(&mut rt, "(slurp \"f.txt\")") {
        Err(MalError::Halt(Halt::NeedFile(p))) => assert_eq!(p, "f.txt"),
        other => panic!("unexpected {:?}", other),
    }
    rt.add_file("f.txt".to_string(), FileRead::Contents("hello".to_string()));
    expect_same(&run(&mut rt, "(slurp \"f.txt\")").unwrap(), &MalVal::Str("hello".to_string()));
    rt.add_file("gone.txt".to_string(), FileRead::OpenFailed);
    assert_eq!(show(&mut rt, "(slurp \"gone.txt\")"), "Error: Failed to open file gone.txt");
    rt.add_file("lib.mal".to_string(), FileRead::Contents("(def! q 7)\n(def! r 8)".to_string()));
    expect_same(&run(&mut rt, "(load-file \"lib.mal\")").unwrap(), &MalVal::Nil);
    expect_same(&run(&mut rt, "r").unwrap(), &MalVal::Int(8));
}

#[test]
fn time_asks_for_clock_readings() {
    let mut rt = setup();
    mal::builtins::time::register(&mut rt.envs[0]);
    assert!(matches!(run(&mut rt, "(time-ms)"), Err(MalError::Halt(Halt::NeedClock))));
    rt.add_clock_reading(123);
    expect_same(&run(&mut rt, "(time-ms)").unwrap(), &MalVal::Int(123));
    assert_eq!(show(&mut rt, "(time-ms 1)"), "Error: time-ms does not expect any argument");
}

#[test]
fn eval_passes_errors_on() {
    let mut rt = setup();
    match eval(Err(MalError::Error("x".to_string())), 0, &mut rt, FUEL) {
        Err(MalError::Error(m)) => assert_eq!(m, "x"),
        other => panic!("unexpected {:?}", other),
    }
    expect_same(&eval(Ok(MalVal::Int(4)), 0, &mut rt, FUEL).unwrap(), &MalVal::Int(4));
}

#[test]
fn applying_values() {
    let mut rt = setup();
    let args = vec![MalVal::Int(1), MalVal::Int(2)];
    expect_same(&MalVal::Function(Builtin::Add).apply(&mut rt, &args, FUEL).unwrap(), &MalVal::Int(3));
    match MalVal::Int(1).apply(&mut rt, &args, FUEL) {
        Err(MalError::Error(m)) => assert_eq!(m, "not a function"),
        other => panic!("unexpected {:?}", other),
    }
    let f = run(&mut rt, "(fn* (a b) (- a b))").unwrap();
    expect_same(&f.apply(&mut rt, &args, FUEL).unwrap(), &MalVal::Int(-1));
}

#[test]
fn printing_outcomes() {
    let rt = setup();
    assert_eq!(print(Err(MalError::Break("q".to_string())), &rt), Some(("q\nBye!".to_string(), false)));
    assert_eq!(
        print(Err(MalError::Readline("r".to_string())), &rt),
        Some(("Error: Readline: r".to_string(), true))
    );
    assert_eq!(print(Err(MalError::Error("e".to_string())), &rt), Some(("Error: e".to_string(), true)));
    assert_eq!(print(Err(MalError::Exception(MalVal::Int(3))), &rt), Some(("Exception: 3".to_string(), true)));
    assert_eq!(print(Ok(MalVal::Str("s".to_string())), &rt), Some(("\"s\"".to_string(), true)));
    assert_eq!(print(Err(MalError::Halt(Halt::NeedClock)), &rt), None);
}

#[test]
fn reading_errors_are_printed() {
    let mut rt = setup();
    assert_eq!(show(&mut rt, "\"abc"), "Error: expected \" at end of input");
}
