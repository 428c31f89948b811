use mal::builtins::math::fn_cmp;
use mal::types::Builtin;
use mal::types::lambda::Lambda;
use mal::types::{MalMap, MalVal};

fn expect_same(a: &MalVal, b: &MalVal) {
    assert!(a.equals(b, &Vec::new()) == Some(true), "{:?} is not {:?}", a, b);
}

fn expect_different(a: &MalVal, b: &MalVal) {
    assert!(a.equals(b, &Vec::new()) == Some(false), "{:?} is {:?}", a, b);
}


#[test]
fn test_malval_display() {
    assert_eq!(MalVal::Nil.display(), "nil");
    assert_eq!(MalVal::Bool(true).display(), "true");
    assert_eq!(MalVal::Int(42).display(), "42");
    assert_eq!(MalVal::Str("hello".to_string()).display(), "\"hello\"");
    assert_eq!(MalVal::Symbol("sym".to_string()).display(), "sym");

    let list = MalVal::List(vec![MalVal::Int(1), MalVal::Int(2)]);
    assert_eq!(list.display(), "(1 2)");

    let vector = MalVal::Vector(vec![MalVal::Int(1), MalVal::Int(2)]);
    assert_eq!(vector.display(), "[1 2]");

    let mut hashmap = MalMap::new();
    hashmap.insert("key".to_string(), MalVal::Int(42));
    let hashmap_val = MalVal::Hashmap(hashmap);
    assert_eq!(hashmap_val.display(), "{\"key\" 42}");
}

#[test]
fn test_malval_equality() {
    expect_same(&MalVal::Nil, &MalVal::Nil);
    expect_same(&MalVal::Bool(true), &MalVal::Bool(true));
    expect_same(&MalVal::Int(42), &MalVal::Int(42));
    expect_same(&MalVal::Str("hello".to_string()), &MalVal::Str("hello".to_string()));
    expect_same(&MalVal::Symbol("sym".to_string()), &MalVal::Symbol("sym".to_string()));

    let list1 = MalVal::List(vec![MalVal::Int(1), MalVal::Int(2)]);
    let list2 = MalVal::List(vec![MalVal::Int(1), MalVal::Int(2)]);
    expect_same(&list1, &list2);

    let vector1 = MalVal::Vector(vec![MalVal::Int(1), MalVal::Int(2)]);
    let vector2 = MalVal::Vector(vec![MalVal::Int(1), MalVal::Int(2)]);
    expect_same(&vector1, &vector2);

    let mut hashmap1 = MalMap::new();
    hashmap1.insert("key".to_string(), MalVal::Int(42));
    let hashmap_val1 = MalVal::Hashmap(hashmap1);

    let mut hashmap2 = MalMap::new();
    hashmap2.insert("key".to_string(), MalVal::Int(42));
    let hashmap_val2 = MalVal::Hashmap(hashmap2);

    expect_same(&hashmap_val1, &hashmap_val2);
}

#[test]
fn list_equals_vector_with_same_items() {
    let list = MalVal::List(vec![MalVal::Int(1), MalVal::Int(2)]);
    let vector = MalVal::Vector(vec![MalVal::Int(1), MalVal::Int(2)]);
    expect_same(&list, &vector);
    expect_different(&list, &MalVal::List(vec![MalVal::Int(1)]));
    expect_different(&MalVal::Int(1), &MalVal::Str("1".to_string()));
}

#[test]
fn functions_are_never_equal() {
    let f = MalVal::Function(Builtin::List);
    expect_different(&f, &f.clone());
    let l = MalVal::Lambda(Lambda::new(MalVal::Nil, MalVal::List(vec![]), 0));
    expect_different(&l, &l.clone());
}

#[test]
fn display_escapes_and_keywords() {
    assert_eq!(MalVal::Str("a\"b\n\\".to_string()).display(), "\"a\\\"b\\n\\\\\"");
    assert_eq!(MalVal::Str("\u{29e}kw".to_string()).display(), ":kw");
    assert_eq!(MalVal::Str("x".to_string()).pr_str(false, &Vec::new()).unwrap(), "x");
    assert_eq!(MalVal::Int(-7).display(), "-7");
    assert_eq!(MalVal::Function(Builtin::Add).display(), "#<builtin>");
}

#[test]
fn predicates() {
    assert!(MalVal::Nil.is_nil());
    assert!(MalVal::Bool(false).is_bool());
    assert!(MalVal::Int(3).is_int());
    assert!(MalVal::List(vec![]).is_list());
    assert!(MalVal::Vector(vec![]).is_vector());
    assert!(MalVal::Function(Builtin::Add).is_function());
    assert!(MalVal::Str("s".to_string()).is_string());
    assert!(!MalVal::Int(3).is_string());
}

#[test]
fn lambda_binds_parameters_and_rest() {
    let params = MalVal::List(vec![
        MalVal::Symbol("a".to_string()),
        MalVal::Symbol("&".to_string()),
        MalVal::Symbol("more".to_string()),
    ]);
    let l = Lambda::new(MalVal::Nil, params, 0);
    assert!(!l.is_macro());
    assert_eq!(l.get_args().len(), 3);
    expect_same(&l.get_ast(), &MalVal::Nil);
    let args = vec![MalVal::Int(1), MalVal::Int(2), MalVal::Int(3)];
    assert!(l.fits(&args));
    let e = l.bind(&args);
    assert_eq!(e.outer, Some(0));
    expect_same(&*e.symbols.get("a").unwrap(), &MalVal::Int(1));
    expect_same(&*e.symbols.get("more").unwrap(), &MalVal::List(vec![MalVal::Int(2), MalVal::Int(3)]));
    let m = Lambda::new_macro(MalVal::Nil, MalVal::Vector(vec![]), 0);
    assert!(m.is_macro());
    let two = Lambda::new(
        MalVal::Nil,
        MalVal::List(vec![MalVal::Symbol("a".to_string()), MalVal::Symbol("b".to_string())]),
        0,
    );
    assert!(!two.fits(&vec![MalVal::Int(1)]));
}

#[test]
fn atoms_equal_by_contents_through_the_store() {
    let store = vec![MalVal::Int(1), MalVal::Int(1), MalVal::Int(2)];
    assert_eq!(MalVal::Atom(0).equals(&MalVal::Atom(1), &store), Some(true));
    assert_eq!(MalVal::Atom(0).equals(&MalVal::Atom(2), &store), Some(false));
    assert_eq!(MalVal::Atom(0).equals(&MalVal::Atom(0), &store), Some(true));
    let l1 = MalVal::List(vec![MalVal::Int(1), MalVal::Atom(0)]);
    let v1 = MalVal::Vector(vec![MalVal::Int(1), MalVal::Atom(1)]);
    assert_eq!(l1.equals(&v1, &store), Some(true));
    let cyclic = vec![MalVal::Atom(0)];
    assert_eq!(MalVal::Atom(0).equals(&MalVal::Atom(0), &cyclic), None);
}

#[test]
fn comparison_chains() {
    let none: Vec<MalVal> = Vec::new();
    let ints = vec![MalVal::Int(1), MalVal::Int(2), MalVal::Int(1)];
    assert_eq!(fn_cmp(Builtin::NotEqual, &ints, &none), Some(true));
    assert_eq!(fn_cmp(Builtin::Equal, &ints, &none), Some(false));
    assert_eq!(fn_cmp(Builtin::Less, &ints, &none), Some(false));
    assert_eq!(fn_cmp(Builtin::Less, &vec![MalVal::Int(1), MalVal::Str("a".to_string())], &none), Some(false));
    assert_eq!(fn_cmp(Builtin::Less, &vec![MalVal::Int(1)], &none), Some(true));
}
