use dashdotcache::value::{FloatValue, Value, HASH_OVERHEAD, LIST_OVERHEAD, SCALAR_BYTES, SET_OVERHEAD};

fn s(t: &str) -> String {
    t.to_string()
}

fn float(x: f64) -> Value {
    Value::Float(FloatValue {
        bits: x.to_bits(),
        text: x.to_string(),
    })
}

#[test]
fn kind_names_are_lower_case() {
    assert_eq!(Value::String(s("x")).kind_name(), "string");
    assert_eq!(Value::Integer(1).kind_name(), "integer");
    assert_eq!(float(1.5).kind_name(), "float");
    assert_eq!(Value::Bytes(vec![1, 2]).kind_name(), "bytes");
    assert_eq!(Value::Hash(vec![]).kind_name(), "hash");
    assert_eq!(Value::List(vec![]).kind_name(), "list");
    assert_eq!(Value::StringSet(vec![]).kind_name(), "set");
}

#[test]
fn memory_usage_of_scalars_and_payloads() {
    assert_eq!(SCALAR_BYTES, 8);
    assert_eq!(Value::Integer(-7).memory_usage(), 8);
    assert_eq!(float(2.25).memory_usage(), 8);
    assert_eq!(Value::String(s("")).memory_usage(), 0);
    assert_eq!(Value::String(s("hello")).memory_usage(), 5);
    // two bytes for the accented letter, three for the euro sign
    assert_eq!(Value::String(s("é€")).memory_usage(), 5);
    assert_eq!(Value::Bytes(vec![0; 17]).memory_usage(), 17);
}

#[test]
fn memory_usage_of_containers() {
    assert_eq!(Value::List(vec![]).memory_usage(), LIST_OVERHEAD);
    assert_eq!(Value::Hash(vec![]).memory_usage(), HASH_OVERHEAD);
    assert_eq!(Value::StringSet(vec![]).memory_usage(), SET_OVERHEAD);
    let list = Value::List(vec![Value::Integer(1), Value::String(s("abc"))]);
    assert_eq!(list.memory_usage(), 24 + 8 + 3);
    let hash = Value::Hash(vec![(s("k1"), Value::Integer(1)), (s("key2"), list.clone())]);
    assert_eq!(hash.memory_usage(), 48 + (2 + 8) + (4 + 35));
    let set = Value::StringSet(vec![s("a"), s("bcd")]);
    assert_eq!(set.memory_usage(), 48 + 1 + 3);
}

#[test]
fn text_of_each_kind() {
    assert_eq!(Value::String(s("plain")).to_text(), "plain");
    assert_eq!(Value::Integer(0).to_text(), "0");
    assert_eq!(Value::Integer(42).to_text(), "42");
    assert_eq!(Value::Integer(-1905).to_text(), "-1905");
    assert_eq!(Value::Integer(i64::MAX).to_text(), "9223372036854775807");
    assert_eq!(Value::Integer(i64::MIN).to_text(), "-9223372036854775808");
    assert_eq!(float(1.5).to_text(), "1.5");
    assert_eq!(Value::Bytes(vec![1, 2, 3]).to_text(), "3 bytes");
    assert_eq!(
        Value::Hash(vec![(s("a"), Value::Integer(1))]).to_text(),
        "hash with 1 fields"
    );
    assert_eq!(
        Value::List(vec![Value::Integer(1); 12]).to_text(),
        "list with 12 items"
    );
    assert_eq!(Value::StringSet(vec![]).to_text(), "set with 0 members");
}

#[test]
fn clone_is_equal_and_deep() {
    let inner = Value::List(vec![Value::Integer(1), float(0.5)]);
    let v = Value::Hash(vec![
        (s("list"), inner),
        (s("set"), Value::StringSet(vec![s("x"), s("y")])),
        (s("bytes"), Value::Bytes(vec![9, 8, 7])),
    ]);
    let copy = v.clone();
    assert_eq!(copy, v);
    assert_eq!(copy.memory_usage(), v.memory_usage());
    assert_ne!(copy, Value::Hash(vec![]));
}

#[test]
fn well_formed_values() {
    assert!(Value::Integer(3).is_well_formed());
    assert!(Value::StringSet(vec![s("a"), s("b")]).is_well_formed());
    assert!(!Value::StringSet(vec![s("a"), s("b"), s("a")]).is_well_formed());
    assert!(Value::Hash(vec![(s("a"), Value::Integer(1)), (s("b"), Value::Integer(1))])
        .is_well_formed());
    assert!(!Value::Hash(vec![(s("a"), Value::Integer(1)), (s("a"), Value::Integer(2))])
        .is_well_formed());
    let bad_set = Value::StringSet(vec![s("x"), s("x")]);
    assert!(!Value::List(vec![Value::Integer(1), bad_set.clone()]).is_well_formed());
    assert!(!Value::Hash(vec![(s("k"), bad_set)]).is_well_formed());
    assert!(Value::List(vec![Value::List(vec![]), Value::Hash(vec![])]).is_well_formed());
}

#[test]
fn equality_ignores_the_order_of_fields_and_members() {
    let a = Value::Hash(vec![
        (s("x"), Value::Integer(1)),
        (s("y"), Value::StringSet(vec![s("p"), s("q")])),
    ]);
    let b = Value::Hash(vec![
        (s("y"), Value::StringSet(vec![s("q"), s("p")])),
        (s("x"), Value::Integer(1)),
    ]);
    assert_eq!(a, b);
    assert_eq!(b, a);
    assert!(a.same_as(&b));
    let c = Value::Hash(vec![
        (s("y"), Value::StringSet(vec![s("q"), s("r")])),
        (s("x"), Value::Integer(1)),
    ]);
    assert_ne!(a, c);
    let d = Value::Hash(vec![(s("x"), Value::Integer(1))]);
    assert_ne!(a, d);
    assert_ne!(d, a);
    assert_eq!(
        Value::StringSet(vec![s("a"), s("b"), s("c")]),
        Value::StringSet(vec![s("c"), s("a"), s("b")])
    );
    assert_ne!(
        Value::StringSet(vec![s("a"), s("b")]),
        Value::StringSet(vec![s("a"), s("c")])
    );
}

#[test]
fn equality_keeps_the_order_of_lists() {
    let a = Value::List(vec![Value::Integer(1), Value::Integer(2)]);
    let b = Value::List(vec![Value::Integer(2), Value::Integer(1)]);
    assert_ne!(a, b);
    assert_eq!(a, a.clone());
    assert_ne!(a, Value::List(vec![Value::Integer(1)]));
    let nested = Value::List(vec![Value::StringSet(vec![s("a"), s("b")])]);
    let other = Value::List(vec![Value::StringSet(vec![s("b"), s("a")])]);
    assert_eq!(nested, other);
}

#[test]
fn equality_tells_the_kinds_apart() {
    assert_ne!(Value::String(s("1")), Value::Integer(1));
    assert_ne!(Value::Bytes(vec![]), Value::String(s("")));
    assert_ne!(Value::Hash(vec![]), Value::StringSet(vec![]));
    assert_ne!(Value::List(vec![]), Value::Hash(vec![]));
    assert_eq!(Value::Bytes(vec![1, 2]), Value::Bytes(vec![1, 2]));
    assert_ne!(Value::Bytes(vec![1, 2]), Value::Bytes(vec![2, 1]));
    assert_eq!(float(1.5), float(1.5));
    assert_ne!(float(1.5), float(2.5));
}

#[test]
fn equality_counts_what_comes_twice() {
    // not well formed, but still compared member by member
    let twice = Value::StringSet(vec![s("a"), s("a"), s("b")]);
    let other = Value::StringSet(vec![s("a"), s("b"), s("b")]);
    assert_ne!(twice, other);
    assert_ne!(other, twice);
    assert_eq!(twice, Value::StringSet(vec![s("b"), s("a"), s("a")]));
    let h1 = Value::Hash(vec![(s("k"), Value::Integer(1)), (s("k"), Value::Integer(1))]);
    let h2 = Value::Hash(vec![(s("k"), Value::Integer(1)), (s("j"), Value::Integer(2))]);
    assert_ne!(h1, h2);
    assert_ne!(h2, h1);
}
