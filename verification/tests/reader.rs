use mal::reader::{read_atom, read_form, read_seq, SeqKind};
use mal::reader::{drop_comment_tokens, read_str, tokenise, Reader};
use mal::types::error::{Halt, MalError};
use mal::types::{MalMap, MalVal};

fn expect_same(a: &MalVal, b: &MalVal) {
    assert!(a.equals(b, &Vec::new()) == Some(true), "{:?} is not {:?}", a, b);
}

fn expect_different(a: &MalVal, b: &MalVal) {
    assert!(a.equals(b, &Vec::new()) == Some(false), "{:?} is {:?}", a, b);
}


#[test]
fn test_reader_peek() {
    let reader = Reader {
        tokens: vec!["token1".to_string(), "token2".to_string()],
        pos: 0,
    };
    assert_eq!(reader.peek().unwrap(), "token1");
}

#[test]
fn test_reader_next() {
    let mut reader = Reader {
        tokens: vec!["token1".to_string(), "token2".to_string()],
        pos: 0,
    };
    assert_eq!(reader.next().unwrap(), "token1");
    assert_eq!(reader.next().unwrap(), "token2");
}

#[test]
fn test_reader_skip() {
    let mut reader = Reader {
        tokens: vec!["token1".to_string(), "token2".to_string()],
        pos: 0,
    };
    reader.skip();
    assert_eq!(reader.peek().unwrap(), "token2");
}

#[test]
fn test_reader_underflow() {
    let mut reader = Reader {
        tokens: vec!["token1".to_string()],
        pos: 1,
    };
    assert!(reader.peek().is_err());
    assert!(reader.next().is_err());
}

fn num(i: i64) -> MalVal {
    MalVal::Int(i)
}

fn sym(s: &str) -> MalVal {
    MalVal::Symbol(s.to_string())
}

#[test]
fn tokenise_splits_and_drops_comments() {
    let toks = tokenise("  (a  b) ; comment").unwrap();
    assert_eq!(toks, vec!["(", "a", "b", ")"]);
    let toks = tokenise("~@x 'y \"s t\"").unwrap();
    assert_eq!(toks, vec!["~@", "x", "'", "y", "\"s t\""]);
}

#[test]
fn read_atoms() {
    expect_same(&read_str("42").unwrap(), &num(42));
    expect_same(&read_str("-42").unwrap(), &num(-42));
    expect_same(&read_str("nil").unwrap(), &MalVal::Nil);
    expect_same(&read_str("true").unwrap(), &MalVal::Bool(true));
    expect_same(&read_str("false").unwrap(), &MalVal::Bool(false));
    expect_same(&read_str("abc").unwrap(), &sym("abc"));
    expect_same(&read_str("\"a\\nb\\\"c\"").unwrap(), &MalVal::Str("a\nb\"c".to_string()));
    expect_same(&read_str(":kw").unwrap(), &MalVal::Str("\u{29e}kw".to_string()));
}

#[test]
fn read_collections() {
    expect_same(&read_str("(1 (2 3) [4])").unwrap(), &MalVal::List(vec![
            num(1),
            MalVal::List(vec![num(2), num(3)]),
            MalVal::Vector(vec![num(4)])
        ]));
    let mut m = MalMap::new();
    m.insert("a".to_string(), num(1));
    expect_same(&read_str("{\"a\" 1}").unwrap(), &MalVal::Hashmap(m));
}

#[test]
fn read_quote_forms() {
    expect_same(&read_str("'x").unwrap(), &MalVal::List(vec![sym("quote"), sym("x")]));
    expect_same(&read_str("`(a ~b ~@c)").unwrap(), &MalVal::List(vec![
            sym("quasiquote"),
            MalVal::List(vec![
                sym("a"),
                MalVal::List(vec![sym("unquote"), sym("b")]),
                MalVal::List(vec![sym("splice-unquote"), sym("c")]),
            ])
        ]));
    expect_same(&read_str("@a").unwrap(), &MalVal::List(vec![sym("deref"), sym("a")]));
}

#[test]
fn read_errors() {
    match read_str("\"abc") {
        Err(MalError::Error(m)) => assert_eq!(m, "expected \" at end of input"),
        other => panic!("unexpected {:?}", other),
    }
    match read_str("; only a comment") {
        Err(MalError::Error(m)) => assert_eq!(m, "no input"),
        other => panic!("unexpected {:?}", other),
    }
    expect_same(&read_str("").unwrap(), &MalVal::Symbol(String::new()));
    assert!(read_str("(1 2").is_err());
}

#[test]
fn read_int_out_of_range_aborts() {
    match read_str("99999999999999999999") {
        Err(MalError::Halt(Halt::Panic)) => {}
        other => panic!("unexpected {:?}", other),
    }
}

#[test]
fn read_printed_values_back() {
    for text in ["-9223372036854775808", "0", "17", "\"x\\\\y\\n\\\"\"", ":kw"] {
        let v = read_str(text).unwrap();
        let printed = v.pr_str(true, &Vec::new()).unwrap();
        assert_eq!(printed, text);
        expect_same(&read_str(&printed).unwrap(), &v);
    }
}

#[test]
fn comments_are_dropped_from_captures() {
    let caps = vec![
        "(".to_string(),
        "a".to_string(),
        "; note".to_string(),
        ")".to_string(),
        "".to_string(),
    ];
    assert_eq!(drop_comment_tokens(caps), vec!["(", "a", ")", ""]);
}

#[test]
fn read_seq_moves_past_its_opening_token() {
    let toks = ["{", ":a", "1", "\"b\"", "2", "3", "4", "\"b\"", "5", "}"];
    let mut rdr = Reader {
        tokens: toks.iter().map(|t| t.to_string()).collect(),
        pos: 0,
    };
    let mut m = MalMap::new();
    m.insert("\u{29e}a".to_string(), num(1));
    m.insert("b".to_string(), num(5));
    m.insert("3".to_string(), num(4));
    expect_same(&read_seq(&mut rdr, SeqKind::Hashmap).unwrap(), &MalVal::Hashmap(m));
    assert_eq!(rdr.pos, 10);
}

#[test]
fn reading_past_the_end_underflows() {
    let mut rdr = Reader { tokens: vec!["1".to_string()], pos: 1 };
    match read_form(&mut rdr) {
        Err(MalError::Error(m)) => assert_eq!(m, "underflow"),
        other => panic!("unexpected {:?}", other),
    }
    assert_eq!(rdr.pos, 1);
    match read_atom(&mut rdr) {
        Err(MalError::Error(m)) => assert_eq!(m, "underflow"),
        other => panic!("unexpected {:?}", other),
    }
    assert_eq!(rdr.pos, 2);
    match read_seq(&mut rdr, SeqKind::List) {
        Err(MalError::Error(m)) => assert_eq!(m, "expected ')', got EOF"),
        other => panic!("unexpected {:?}", other),
    }
    assert_eq!(rdr.pos, 3);
}

#[test]
fn nested_values_read_back_from_their_printed_form() {
    let v = MalVal::List(vec![
        num(1),
        MalVal::Vector(vec![
            MalVal::Str("a\"b".to_string()),
            MalVal::Str("\u{29e}k".to_string()),
            sym("s"),
        ]),
        MalVal::List(vec![]),
        MalVal::Nil,
        MalVal::Bool(true),
    ]);
    let printed = v.pr_str(true, &Vec::new()).unwrap();
    assert_eq!(printed, "(1 [\"a\\\"b\" :k s] () nil true)");
    expect_same(&read_str(&printed).unwrap(), &v);
    match read_str(&printed).unwrap() {
        MalVal::List(items) => assert!(matches!(items[1], MalVal::Vector(_))),
        other => panic!("unexpected {:?}", other),
    }
}
