use rrdf::datetime::DateTime;
use rrdf::expression::eval_call;
use rrdf::functions::{
    abs_fn, bound_fn, contains_fn, datatype_fn, day_fn, hours_fn, isblank_fn, isiri_fn, isliteral_fn,
    isnumeric_fn, lang_fn, langmatches_fn, lcase_fn, minutes_fn, month_fn, now_fn, rand_fn, round_fn,
    sameterm_fn, seconds_fn, str_fn, strdt_fn, strends_fn, strlang_fn, strlen_fn, strstarts_fn, tz_fn,
    ucase_fn, year_fn,
};
use rrdf::object::{literal_to_object, Object};
use rrdf::operators::{compare_values, equal_values, op_multiply, op_unary_plus};

fn s(v: &str, lang: &str) -> Object {
    Object::StringValue(v.to_string(), lang.to_string())
}

fn i(v: i64) -> Object {
    Object::IntValue(v)
}

fn b(v: bool) -> Object {
    Object::BoolValue(v)
}

fn e(v: &str) -> Object {
    Object::ErrorValue(v.to_string())
}

fn date() -> Object {
    literal_to_object("1999-05-31T13:10:00-05:00", "http://www.w3.org/2001/XMLSchema#dateTime", "")
}

#[test]
fn string_functions() {
    assert_eq!(strlen_fn(&s("hello", "en")), i(5));
    assert_eq!(strlen_fn(&i(1)), e("STRLEN: expected string but found IntValue(1)."));
    assert_eq!(ucase_fn(&s("hello", "en")), s("HELLO", "en"));
    assert_eq!(lcase_fn(&s("HeLLo", "")), s("hello", ""));
    assert_eq!(strstarts_fn(&s("hello", ""), &s("he", "")), b(true));
    assert_eq!(strstarts_fn(&s("hello", ""), &s("lo", "")), b(false));
    assert_eq!(strends_fn(&s("hello", ""), &s("lo", "")), b(true));
    assert_eq!(contains_fn(&s("hello", ""), &s("ll", "")), b(true));
    assert_eq!(contains_fn(&s("hello", ""), &s("x", "")), b(false));
    assert_eq!(contains_fn(&i(1), &s("x", "")), e("CONTAINS: expected string for arg1 but found IntValue(1)."));
    assert_eq!(langmatches_fn(&s("a", "EN"), &s("b", "en")), b(true));
    assert_eq!(langmatches_fn(&s("a", "de"), &s("b", "en")), b(false));
    assert_eq!(langmatches_fn(&i(1), &s("b", "en")), e("LANGMATCHES: expected string for arg1 but found IntValue(1)."));
}

#[test]
fn term_functions() {
    let iri = Object::IriValue("http://x".to_string());
    let blank = Object::BlankValue("_:b".to_string());
    assert_eq!(isiri_fn(&iri), b(true));
    assert_eq!(isiri_fn(&blank), b(false));
    assert_eq!(isblank_fn(&blank), b(true));
    assert_eq!(isliteral_fn(&i(1)), b(true));
    assert_eq!(isliteral_fn(&iri), b(false));
    assert_eq!(isnumeric_fn(&i(1)), b(true));
    assert_eq!(isnumeric_fn(&s("1", "")), b(false));
    assert_eq!(str_fn(&i(19)), s("19", ""));
    assert_eq!(str_fn(&iri), s("<http://x>", ""));
    assert_eq!(lang_fn(&s("a", "en")), s("en", ""));
    assert_eq!(lang_fn(&i(1)), s("", ""));
    assert_eq!(datatype_fn(&i(1)), s("http://www.w3.org/2001/XMLSchema#integer", ""));
    assert_eq!(datatype_fn(&Object::TypedValue("v".to_string(), "k".to_string())), s("k", ""));
    assert_eq!(datatype_fn(&blank), e("DATATYPE: can't get a type for BlankValue(~\"_:b\")"));
    assert_eq!(strdt_fn(&s("12", ""), &Object::IriValue("k".to_string())), Object::TypedValue("\"12\"".to_string(), "k".to_string()));
    assert_eq!(strdt_fn(&iri, &Object::IriValue("k".to_string())),
        e("STRDT: expected a simple literal for the first argument but found IriValue(~\"http://x\")"));
    assert_eq!(strdt_fn(&s("12", ""), &i(1)), e("STRDT: expected an IRI for the second argument found IntValue(1)"));
    assert_eq!(strlang_fn(&s("chat", ""), &s("fr", "")), s("\"chat\"", "\"fr\""));
    assert_eq!(strlang_fn(&s("chat", ""), &iri),
        e("STRLANG: expected a simple literal for the second argument found IriValue(~\"http://x\")"));
    assert_eq!(bound_fn(&Object::unbound()), b(false));
    assert_eq!(bound_fn(&i(0)), b(true));
    assert_eq!(sameterm_fn(&s("a", "EN"), &s("a", "en")), b(true));
    assert_eq!(sameterm_fn(&i(1), &Object::FloatValue(1.0f64.to_bits())), b(false));
    assert_eq!(sameterm_fn(&iri, &iri), b(true));
}

#[test]
fn numeric_functions() {
    assert_eq!(abs_fn(&i(-3)), i(3));
    assert_eq!(abs_fn(&s("x", "")), e("ABS: expected numeric but found StringValue(~\"x\", ~\"\")."));
    assert_eq!(round_fn(&i(3)), i(3));
    assert_eq!(round_fn(&s("x", "")), e("ROUND: expected numeric but found StringValue(~\"x\", ~\"\")."));
    assert_eq!(rand_fn(&vec![i(1)]), e("RAND accepts 0 arguments but was called with 1 arguments."));
    assert_eq!(op_unary_plus(&i(-2)), i(-2));
    assert_eq!(op_multiply(&i(6), &i(-2)), i(-12));
}

#[test]
fn date_functions() {
    let d = date();
    assert_eq!(year_fn(&d), i(1999));
    assert_eq!(month_fn(&d), i(5));
    assert_eq!(day_fn(&d), i(31));
    assert_eq!(hours_fn(&d), i(13));
    assert_eq!(minutes_fn(&d), i(10));
    assert_eq!(seconds_fn(&d), i(0));
    assert_eq!(year_fn(&i(1)), e("YEAR: expected dateTime but found IntValue(1)."));
    assert_eq!(tz_fn(&i(1)), e("SECONDS: expected dateTime but found IntValue(1)."));
    let now = DateTime::now();
    assert_eq!(now_fn(&now, &vec![]), Object::DateTimeValue(now));
    assert_eq!(now_fn(&now, &vec![i(1)]), e("NOW accepts 0 arguments but was called with 1 arguments."));
}

#[test]
fn calls_and_comparisons() {
    let now = DateTime::now();
    assert_eq!(eval_call("strlen_fn", &vec![s("abc", "")], &now), i(3));
    assert_eq!(eval_call("strlen_fn", &vec![], &now), e("strlen_fn accepts 1 argument but was called with 0 arguments."));
    assert_eq!(eval_call("op_add", &vec![i(1)], &now), e("op_add accepts 2 arguments but was called with 1 argument."));
    assert_eq!(equal_values("=", &i(2), &i(2)), Ok(true));
    assert_eq!(equal_values("=", &i(2), &b(true)), Err("=: expected numeric value but found BoolValue(true).".to_string()));
    assert_eq!(compare_values("<", &s("a", ""), &s("b", "")), Ok(-1));
    assert_eq!(compare_values("<", &i(3), &i(3)), Ok(0));
    assert_eq!(compare_values("<", &i(4), &i(3)), Ok(1));
}
