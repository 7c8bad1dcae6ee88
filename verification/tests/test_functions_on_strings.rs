use rrdf::functions::{concat_fn, encode_for_uri_fn, strafter_fn, strbefore_fn, substr2_fn, substr3_fn};
use rrdf::object::Object;

fn string(s: &str, lang: &str) -> Object {
    Object::StringValue(s.to_string(), lang.to_string())
}

fn error(s: &str) -> Object {
    Object::ErrorValue(s.to_string())
}

#[test]
fn substr2() {
    assert_eq!(substr2_fn(&string("hello", ""), &Object::IntValue(1)), string("hello", ""));
    assert_eq!(substr2_fn(&string("hello", ""), &Object::IntValue(2)), string("ello", ""));
    assert_eq!(substr2_fn(&string("hello", "de"), &Object::IntValue(2)), string("ello", "de"));
    assert_eq!(substr2_fn(&string("hello", ""), &Object::IntValue(4)), string("lo", ""));
    assert_eq!(substr2_fn(&string("hello", ""), &Object::IntValue(6)), string("", ""));
    assert_eq!(substr2_fn(&string("hello", ""), &Object::IntValue(-7)), error("SUBSTR: startingLoc is -7."));
}

#[test]
fn substr3() {
    assert_eq!(substr3_fn(&string("hello", ""), &Object::IntValue(1), &Object::IntValue(0)), string("", ""));
    assert_eq!(substr3_fn(&string("hello", ""), &Object::IntValue(2), &Object::IntValue(3)), string("ell", ""));
    assert_eq!(substr3_fn(&string("hello", "de"), &Object::IntValue(2), &Object::IntValue(3)), string("ell", "de"));
    assert_eq!(substr3_fn(&string("hello", ""), &Object::IntValue(8), &Object::IntValue(1)),
        error("SUBSTR: startingLoc of 8 and length 1 is past the end of the string."));
    assert_eq!(substr3_fn(&string("hello", ""), &Object::IntValue(2), &Object::IntValue(100)),
        error("SUBSTR: startingLoc of 2 and length 100 is past the end of the string."));
}

#[test]
fn str_before() {
    assert_eq!(strbefore_fn(&string("hello", ""), &string("", "")), string("", ""));
    assert_eq!(strbefore_fn(&string("hello", "de"), &string("ll", "")), string("he", "de"));
    assert_eq!(strbefore_fn(&string("hello", ""), &string("x", "")), string("", ""));
    assert_eq!(strbefore_fn(&string("hello", ""), &string("ll", "de")), error("STRBEFORE: '' and 'de' are incompatible languages."));
    assert_eq!(strbefore_fn(&string("hello", "en"), &string("ll", "de")), error("STRBEFORE: 'en' and 'de' are incompatible languages."));
    assert_eq!(strbefore_fn(&string("hello", "en"), &Object::IntValue(1)), error("STRBEFORE: expected string for arg2 but found IntValue(1)."));
}

#[test]
fn str_after() {
    assert_eq!(strafter_fn(&string("hello", ""), &string("", "")), string("hello", ""));
    assert_eq!(strafter_fn(&string("hello", "de"), &string("ll", "")), string("o", "de"));
    assert_eq!(strafter_fn(&string("hello", ""), &string("x", "")), string("", ""));
    assert_eq!(strafter_fn(&string("hello", ""), &string("ll", "de")), error("STRAFTER: '' and 'de' are incompatible languages."));
    assert_eq!(strafter_fn(&string("hello", "en"), &string("ll", "de")), error("STRAFTER: 'en' and 'de' are incompatible languages."));
    assert_eq!(strafter_fn(&string("hello", "en"), &Object::IntValue(1)), error("STRAFTER: expected string for arg2 but found IntValue(1)."));
}

#[test]
fn encode_for_uri() {
    assert_eq!(encode_for_uri_fn(&string("hello [world]", "")), string("hello%20%5Bworld%5D", ""));
    assert_eq!(encode_for_uri_fn(&string("Ab0-_.~", "")), string("Ab0-_.~", ""));
}

#[test]
fn concat() {
    assert_eq!(concat_fn(&vec![]), string("", ""));
    assert_eq!(concat_fn(&vec![string("hello ", ""), string("world", ""), string("!", "")]), string("hello world!", ""));
    assert_eq!(concat_fn(&vec![string("hello ", "en"), string("world", "en"), string("!", "en")]), string("hello world!", "en"));
    assert_eq!(concat_fn(&vec![string("hello ", "en"), string("world", "de"), string("!", "en")]), string("hello world!", ""));
    assert_eq!(concat_fn(&vec![string("hello", "en"), Object::IntValue(1), string("!", "en")]),
        error("CONCAT: expected string for argument 1 but found IntValue(1)."));
}
