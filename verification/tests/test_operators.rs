use rrdf::object::Object;
use rrdf::operators::{
    op_add, op_and, op_divide, op_equals, op_greater_than, op_greater_than_or_equal, op_less_than,
    op_less_than_or_equal, op_multiply, op_not, op_not_equals, op_or, op_subtract, op_unary_minus,
};

fn b(v: bool) -> Object {
    Object::BoolValue(v)
}

fn i(v: i64) -> Object {
    Object::IntValue(v)
}

fn f(v: f64) -> Object {
    Object::FloatValue(v.to_bits())
}

fn s(v: &str, lang: &str) -> Object {
    Object::StringValue(v.to_string(), lang.to_string())
}

fn t(v: &str, kind: &str) -> Object {
    Object::TypedValue(v.to_string(), kind.to_string())
}

fn e(v: &str) -> Object {
    Object::ErrorValue(v.to_string())
}

fn iri(v: &str) -> Object {
    Object::IriValue(v.to_string())
}

fn blank(v: &str) -> Object {
    Object::BlankValue(v.to_string())
}

// Also tests get_ebv.
#[test]
fn operator_not() {
    assert_eq!(op_not(&Object::InvalidValue("oops".to_string(), "some:type".to_string())), b(true));
    assert_eq!(op_not(&b(false)), b(true));
    assert_eq!(op_not(&s("hello", "en")), b(false));
    assert_eq!(op_not(&t("", "my-type")), b(true));
    assert_eq!(op_not(&i(23)), b(false));
    assert_eq!(op_not(&i(0)), b(true));
    assert_eq!(op_not(&f(2.3)), b(false));
    assert_eq!(op_not(&f(0.0)), b(true));
    assert_eq!(op_not(&f(f64::NAN)), b(true));
}

#[test]
fn operator_unary_minus() {
    assert_eq!(op_unary_minus(&i(23)), i(-23));
    assert_eq!(op_unary_minus(&f(2.3)), f(-2.3));
    assert_eq!(op_unary_minus(&s("oops", "")), e("unary minus: expected numeric value but found StringValue(~\"oops\", ~\"\")."));
}

#[test]
fn operator_or() {
    assert_eq!(op_or(&b(true), &b(false)), b(true));
    assert_eq!(op_or(&b(true), &b(false)), b(true));
    assert_eq!(op_or(&b(true), &e("oops.")), b(true));
    assert_eq!(op_or(&e("oops."), &b(true)), b(true));
    assert_eq!(op_or(&b(false), &e("oops.")), e("oops."));
    assert_eq!(op_or(&e("oops."), &b(false)), e("oops."));
    assert_eq!(op_or(&e("ack."), &e("oops.")), e("ack. oops."));
}

#[test]
fn operator_and() {
    assert_eq!(op_and(&b(true), &b(true)), b(true));
    assert_eq!(op_and(&b(true), &b(false)), b(false));
    assert_eq!(op_and(&b(true), &b(false)), b(false));
    assert_eq!(op_and(&b(true), &e("oops.")), e("oops."));
    assert_eq!(op_and(&e("oops."), &b(true)), e("oops."));
    assert_eq!(op_and(&b(false), &e("oops.")), b(false));
    assert_eq!(op_and(&e("oops."), &b(false)), b(false));
    assert_eq!(op_and(&e("ack."), &e("oops.")), e("ack. oops."));
}

#[test]
fn operator_equals() {
    assert_eq!(op_equals(&b(true), &b(true)), b(true));
    assert_eq!(op_equals(&b(true), &b(false)), b(false));
    assert_eq!(op_equals(&i(3), &i(3)), b(true));
    assert_eq!(op_equals(&i(3), &i(4)), b(false));
    assert_eq!(op_equals(&i(3), &f(4.0)), b(false));
    assert_eq!(op_equals(&i(3), &f(3.0)), b(true));
    assert_eq!(op_equals(&f(3.0), &f(3.0)), b(true));
    assert_eq!(op_equals(&s("foo", "en"), &s("foo", "En")), b(true));
    assert_eq!(op_equals(&t("foo", "long"), &t("foo", "long")), b(true));
    assert_eq!(op_equals(&t("foo", "long"), &t("foo", "Long")), b(false));
    assert_eq!(op_equals(&iri("foo"), &iri("foo")), b(true));
    assert_eq!(op_equals(&blank("foo"), &blank("foo")), b(true));
    assert_eq!(op_equals(&i(3), &b(true)), e("=: expected numeric value but found BoolValue(true)."));
    assert_eq!(op_equals(&b(true), &Object::UnboundValue("foo".to_string())), e("=: ?foo was not bound."));
    assert_eq!(op_equals(&b(true), &Object::InvalidValue("foo".to_string(), "some:type".to_string())), e("=: 'foo' is not a valid some:type"));
    assert_eq!(op_equals(&b(true), &e("foo")), e("=: foo"));
}

#[test]
fn operator_not_equals() {
    assert_eq!(op_not_equals(&b(true), &b(true)), b(false));
    assert_eq!(op_not_equals(&b(true), &b(false)), b(true));
    assert_eq!(op_not_equals(&i(3), &i(3)), b(false));
    assert_eq!(op_not_equals(&i(3), &i(4)), b(true));
    assert_eq!(op_not_equals(&i(3), &f(4.0)), b(true));
    assert_eq!(op_not_equals(&i(3), &f(3.0)), b(false));
    assert_eq!(op_not_equals(&f(3.0), &f(3.0)), b(false));
    assert_eq!(op_not_equals(&s("foo", "en"), &s("foo", "En")), b(false));
    assert_eq!(op_not_equals(&t("foo", "long"), &t("foo", "long")), b(false));
    assert_eq!(op_not_equals(&t("foo", "long"), &t("foo", "Long")), b(true));
    assert_eq!(op_not_equals(&iri("foo"), &iri("foo")), b(false));
    assert_eq!(op_not_equals(&blank("foo"), &blank("foo")), b(false));
    assert_eq!(op_not_equals(&i(3), &b(true)), e("!=: expected numeric value but found BoolValue(true)."));
    assert_eq!(op_not_equals(&b(true), &Object::UnboundValue("foo".to_string())), e("!=: ?foo was not bound."));
    assert_eq!(op_not_equals(&b(true), &Object::InvalidValue("foo".to_string(), "some:type".to_string())), e("!=: 'foo' is not a valid some:type"));
    assert_eq!(op_not_equals(&b(true), &e("foo")), e("!=: foo"));
}

#[test]
fn operator_less_than() {
    assert_eq!(op_less_than(&i(3), &i(3)), b(false));
    assert_eq!(op_less_than(&i(3), &i(4)), b(true));
    assert_eq!(op_less_than(&i(3), &f(4.0)), b(true));
    assert_eq!(op_less_than(&i(3), &f(3.0)), b(false));
    assert_eq!(op_less_than(&f(3.0), &f(3.0)), b(false));
    assert_eq!(op_less_than(&s("foo", "en"), &s("goo", "en")), b(true));
    assert_eq!(op_less_than(&s("foo", "en"), &s("aoo", "en")), b(false));
    assert_eq!(op_less_than(&iri("foo"), &iri("foo")), b(false));
    assert_eq!(op_less_than(&blank("foo"), &blank("foo")), b(false));
    assert_eq!(op_less_than(&b(true), &b(true)), e("<: expected numeric, dateTime, string, or explicitly typed value but found BoolValue(true)."));
    assert_eq!(op_less_than(&i(3), &b(true)), e("<: expected numeric value but found BoolValue(true)."));
}

#[test]
fn operator_other_relational() {
    assert_eq!(op_greater_than(&i(3), &i(3)), b(false));
    assert_eq!(op_less_than_or_equal(&i(3), &i(4)), b(true));
    assert_eq!(op_greater_than_or_equal(&i(3), &f(4.0)), b(false));
}

// The product of an integer and a float is binary64 arithmetic, which this library leaves
// to the floating-point helpers beside it; the integer and type-error cases are here.
#[test]
fn operator_multiply() {
    assert_eq!(op_multiply(&i(6), &i(2)), i(12));
    assert_eq!(op_multiply(&i(3), &Object::BoolValue(true)), e("*: expected numeric value but found BoolValue(true)."));
}

#[test]
fn operator_other_arith() {
    assert_eq!(op_divide(&i(6), &i(2)), i(3));
    assert_eq!(op_divide(&i(3), &i(0)), e("Divide by zero."));
    assert_eq!(op_add(&i(6), &i(2)), i(8));
    assert_eq!(op_subtract(&i(6), &i(2)), i(4));
}
