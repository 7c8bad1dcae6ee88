use rrdf::functions::{strafter_fn, strbefore_fn};
use rrdf::object::Object;
use rrdf::operators::{compare_values, op_equals, op_not_equals};
use rrdf::store::Store;

fn s(v: &str, lang: &str) -> Object {
    Object::StringValue(v.to_string(), lang.to_string())
}

#[test]
fn equals_and_not_equals_agree() {
    let pairs = vec![
        (Object::IntValue(3), Object::IntValue(3)),
        (Object::IntValue(3), Object::IntValue(4)),
        (s("a", ""), s("a", "")),
        (s("a", ""), Object::IntValue(1)),
    ];
    for (a, b) in pairs.iter() {
        match (op_equals(a, b), op_not_equals(a, b)) {
            (Object::BoolValue(x), Object::BoolValue(y)) => assert_eq!(x, !y),
            (Object::ErrorValue(x), Object::ErrorValue(y)) => {
                assert!(x.starts_with("="));
                assert!(y.starts_with("!="));
                assert_eq!(&x[1..], &y[2..]);
            },
            other => panic!("{:?}", other),
        }
    }
}

#[test]
fn strbefore_and_strafter_rebuild_the_string() {
    let a = s("abcbd", "en");
    let b = s("cb", "");
    match (strbefore_fn(&a, &b), strafter_fn(&a, &b)) {
        (Object::StringValue(x, lx), Object::StringValue(y, ly)) => {
            assert_eq!(format!("{}cb{}", x, y), "abcbd");
            assert_eq!(lx, "en");
            assert_eq!(ly, "en");
        },
        other => panic!("{:?}", other),
    }
    assert_eq!(strbefore_fn(&a, &s("zz", "")), s("", ""));
    assert_eq!(strafter_fn(&a, &s("zz", "")), s("", ""));
}

#[test]
fn find_object_is_first_of_find_objects() {
    let mut store = Store::new(&Vec::new(), Vec::new());
    store.add("http://x/a", &vec![
        ("http://x/p".to_string(), Object::IntValue(1)),
        ("http://x/q".to_string(), Object::IntValue(2)),
        ("http://x/p".to_string(), Object::IntValue(3)),
    ]);
    let all = store.find_objects("http://x/a", "http://x/p");
    assert_eq!(store.find_object("http://x/a", "http://x/p"), all.first().cloned());
    assert_eq!(store.find_object("http://x/a", "http://x/r"), None);
    assert!(store.find_objects("http://x/a", "http://x/r").is_empty());
}

#[test]
fn unbound_then_blank_sort_first() {
    let unbound = Object::UnboundValue("x".to_string());
    let blank = Object::BlankValue("_:b".to_string());
    let others = vec![
        Object::IntValue(3),
        s("a", ""),
        Object::IriValue("http://example.org/".to_string()),
        Object::TypedValue("v".to_string(), "t".to_string()),
    ];
    for o in &others {
        assert_eq!(compare_values("<", &unbound, o), Ok(-1));
        assert_eq!(compare_values("<", o, &unbound), Ok(1));
        assert_eq!(compare_values("<", &blank, o), Ok(-1));
        assert_eq!(compare_values("<", o, &blank), Ok(1));
    }
    assert_eq!(compare_values("<", &unbound, &blank), Ok(-1));
    assert_eq!(compare_values("<", &blank, &blank), Ok(0));
}
