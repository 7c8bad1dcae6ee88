//! SPARQL operators (section 17.2 and related).
use vstd::prelude::*;
use crate::datetime::{DateTime, to_timespec, utc_seconds};
use crate::float::{int_to_float_bits, int_to_float_spec, lemma_int_to_float_not_nan};
use crate::object::{
    Object, Term, type_error, type_error_spec, term_debug, get_ebv, ebv_spec, float_eq, float_lt, float_eq_exec,
    float_lt_exec, float_neg, float_neg_exec,
};
use crate::text::{concat_str, lower_str, lower_seq, order_strs, seq_order};
use crate::sparql::lemma_seq_order_antisymmetric;
use crate::object::float_is_nan;

verus! {

/// Equality of two values as the `=` operator sees it (17.4.1.7 and 17.4.2.9).
pub open spec fn equal_spec(op: Seq<char>, lhs: Term, rhs: Term) -> Result<bool, Seq<char>> {
    match lhs {
        Term::Bool(a) => match rhs {
            Term::Bool(b) => Ok(a == b),
            _ => Err(type_error_spec(op, rhs, "boolean"@)),
        },
        Term::Int(a) => match rhs {
            Term::Int(b) => Ok(a == b),
            Term::Float(b) => Ok(float_eq(int_to_float_spec(a), b)),
            _ => Err(type_error_spec(op, rhs, "numeric"@)),
        },
        Term::Float(a) => match rhs {
            Term::Int(b) => Ok(float_eq(a, int_to_float_spec(b))),
            Term::Float(b) => Ok(float_eq(a, b)),
            _ => Err(type_error_spec(op, rhs, "numeric"@)),
        },
        Term::DateTime(a) => match rhs {
            Term::DateTime(b) => Ok(a == b),
            _ => Err(type_error_spec(op, rhs, "dateTime"@)),
        },
        Term::Str(v1, l1) => match rhs {
            Term::Str(v2, l2) => Ok(lower_seq(l1) == lower_seq(l2) && v1 == v2),
            _ => Err(type_error_spec(op, rhs, "string"@)),
        },
        Term::Typed(v1, t1) => match rhs {
            Term::Typed(v2, t2) => Ok(t1 == t2 && v1 == v2),
            _ => Err(type_error_spec(op, rhs, t1)),
        },
        Term::Iri(a) => match rhs {
            Term::Iri(b) => Ok(a == b),
            _ => Err(type_error_spec(op, rhs, "IRI"@)),
        },
        Term::Blank(a) => match rhs {
            Term::Blank(b) => Ok(a == b),
            _ => Err(type_error_spec(op, rhs, "blank"@)),
        },
        _ => Err(type_error_spec(op, lhs, "a"@)),
    }
}

/// -1, 0 or 1 as `a` is below, equal to or above `b`.
pub open spec fn sign_of(a: int, b: int) -> int {
    if a < b { -1 } else if a == b { 0 } else { 1 }
}

/// The three-way result of comparing two binary64 values with `<` and `==`: a NaN gives 1.
pub open spec fn float_order(a: u64, b: u64) -> int {
    if float_lt(a, b) { -1 } else if float_eq(a, b) { 0 } else { 1 }
}

/// Order of two (language, value) pairs: by lower-cased language, then by value.
pub open spec fn string_order(v1: Seq<char>, l1: Seq<char>, v2: Seq<char>, l2: Seq<char>) -> int {
    let a = lower_seq(l1);
    let b = lower_seq(l2);
    if seq_order(a, b) < 0 || (a == b && seq_order(v1, v2) < 0) {
        -1
    } else if a == b && v1 == v2 {
        0
    } else {
        1
    }
}

/// The ordering of two values (15.1), as -1, 0 or 1. Two dateTimes are ordered by the
/// instants they name (`datetime_order`).
pub open spec fn compare_spec(op: Seq<char>, lhs: Term, rhs: Term) -> Result<int, Seq<char>> {
    match lhs {
        Term::Int(a) => match rhs {
            Term::Int(b) => Ok(sign_of(a as int, b as int)),
            Term::Float(b) => Ok(float_order(int_to_float_spec(a), b)),
            Term::Unbound(_) | Term::Blank(_) => Ok(1),
            _ => Err(type_error_spec(op, rhs, "numeric"@)),
        },
        Term::Float(a) => match rhs {
            Term::Int(b) => Ok(float_order(a, int_to_float_spec(b))),
            Term::Float(b) => Ok(float_order(a, b)),
            Term::Unbound(_) | Term::Blank(_) => Ok(1),
            _ => Err(type_error_spec(op, rhs, "numeric"@)),
        },
        Term::DateTime(a) => match rhs {
            Term::DateTime(b) => if 0 <= a.nsec < 1_000_000_000 && 0 <= b.nsec < 1_000_000_000 {
                Ok(datetime_order(a, b))
            } else {
                Err("dateTime nanoseconds out of range"@)
            },
            Term::Unbound(_) | Term::Blank(_) => Ok(1),
            _ => Err(type_error_spec(op, rhs, "dateTime"@)),
        },
        Term::Str(v1, l1) => match rhs {
            Term::Str(v2, l2) => Ok(string_order(v1, l1, v2, l2)),
            Term::Unbound(_) | Term::Blank(_) => Ok(1),
            _ => Err(type_error_spec(op, rhs, "string"@)),
        },
        Term::Typed(v1, t1) => match rhs {
            Term::Typed(v2, t2) => Ok(
                if seq_order(t1, t2) < 0 || (t1 == t2 && seq_order(v1, v2) < 0) {
                    -1
                } else if t1 == t2 && v1 == v2 {
                    0
                } else {
                    1
                },
            ),
            Term::Unbound(_) | Term::Blank(_) => Ok(1),
            _ => Err(type_error_spec(op, rhs, t1)),
        },
        Term::Iri(a) => match rhs {
            Term::Iri(b) => Ok(seq_order(a, b)),
            Term::Unbound(_) | Term::Blank(_) => Ok(1),
            _ => Err(type_error_spec(op, rhs, "anyURI"@)),
        },
        Term::Unbound(_) => match rhs {
            Term::Unbound(_) => Ok(0),
            _ => Ok(-1),
        },
        Term::Blank(a) => match rhs {
            Term::Unbound(_) => Ok(1),
            Term::Blank(b) => Ok(seq_order(a, b)),
            _ => Ok(-1),
        },
        _ => Err(type_error_spec(op, lhs, "numeric, dateTime, string, or explicitly typed"@)),
    }
}

/// The instant a dateTime names, in seconds since the epoch: its fields read as UTC
/// (`utc_seconds`), less its offset east of UTC.
pub open spec fn instant_seconds(d: DateTime) -> int {
    utc_seconds(as_utc(d)) - d.utcoff
}

/// A dateTime's fields with a zero offset.
pub open spec fn as_utc(d: DateTime) -> DateTime {
    DateTime {
        sec: d.sec, min: d.min, hour: d.hour, mday: d.mday, mon: d.mon, year: d.year, wday: d.wday,
        yday: d.yday, isdst: d.isdst, utcoff: 0, nsec: d.nsec,
    }
}

/// The order of two dateTimes: equal fields give 0; else the instants they name, then their
/// nanoseconds.
pub open spec fn datetime_order(a: DateTime, b: DateTime) -> int {
    if a == b {
        0
    } else {
        timespec_order((instant_seconds(a), a.nsec as int), (instant_seconds(b), b.nsec as int))
    }
}

/// Whether a value is a NaN binary64.
pub open spec fn term_is_nan(t: Term) -> bool {
    t matches Term::Float(b) && float_is_nan(b)
}

proof fn lemma_float_order_antisymmetric(a: u64, b: u64)
    requires
        !float_is_nan(a),
        !float_is_nan(b),
    ensures
        float_order(b, a) == -float_order(a, b),
{
}

/// Ordering gives -1, 0 or 1; an unbound value sorts before every bound one, and a blank
/// node before every other bound value.
pub proof fn law_compare_bounded_unbound_first(op: Seq<char>, a: Term, b: Term)
    ensures
        compare_spec(op, a, b) matches Ok(c) ==> -1 <= c <= 1,
        a is Unbound && !(b is Unbound) ==> compare_spec(op, a, b) == Ok::<int, Seq<char>>(-1),
        a is Blank && !(b is Unbound) && !(b is Blank) ==> compare_spec(op, a, b) == Ok::<int, Seq<char>>(-1),
{
    match (a, b) {
        (Term::Iri(x), Term::Iri(y)) => lemma_seq_order_eq(x, y),
        (Term::Blank(x), Term::Blank(y)) => lemma_seq_order_eq(x, y),
        _ => {},
    }
}

/// Ordering is antisymmetric: for two values that are not NaN and that compare both ways,
/// swapping them negates the order.
pub proof fn law_compare_antisymmetric(op: Seq<char>, a: Term, b: Term)
    requires
        !term_is_nan(a),
        !term_is_nan(b),
        compare_spec(op, a, b) is Ok,
        compare_spec(op, b, a) is Ok,
    ensures
        compare_spec(op, b, a)->Ok_0 == -compare_spec(op, a, b)->Ok_0,
{
    match a {
        Term::Int(x) => match b {
            Term::Float(y) => {
                lemma_int_to_float_not_nan(x);
                lemma_float_order_antisymmetric(int_to_float_spec(x), y);
            },
            _ => {},
        },
        Term::Float(x) => match b {
            Term::Int(y) => {
                lemma_int_to_float_not_nan(y);
                lemma_float_order_antisymmetric(x, int_to_float_spec(y));
            },
            Term::Float(y) => {
                lemma_float_order_antisymmetric(x, y);
            },
            _ => {},
        },
        Term::Str(v1, l1) => match b {
            Term::Str(v2, l2) => {
                lemma_seq_order_antisymmetric(lower_seq(l1), lower_seq(l2));
                lemma_seq_order_antisymmetric(v1, v2);
                lemma_seq_order_eq(lower_seq(l1), lower_seq(l2));
                lemma_seq_order_eq(v1, v2);
            },
            _ => {},
        },
        Term::Typed(v1, t1) => match b {
            Term::Typed(v2, t2) => {
                lemma_seq_order_antisymmetric(t1, t2);
                lemma_seq_order_antisymmetric(v1, v2);
                lemma_seq_order_eq(t1, t2);
                lemma_seq_order_eq(v1, v2);
            },
            _ => {},
        },
        Term::Iri(x) => match b {
            Term::Iri(y) => {
                lemma_seq_order_antisymmetric(x, y);
            },
            _ => {},
        },
        Term::Blank(x) => match b {
            Term::Blank(y) => {
                lemma_seq_order_antisymmetric(x, y);
            },
            _ => {},
        },
        _ => {},
    }
}

/// A value that orders (a number other than NaN, a dateTime in range, a string, a typed
/// literal, an IRI, a blank node or an unbound value) compares equal to itself.
pub proof fn law_compare_reflexive(op: Seq<char>, a: Term)
    requires
        !term_is_nan(a),
        a is Int || a is Float || a is Str || a is Typed || a is Iri || a is Blank || a is Unbound
            || (a matches Term::DateTime(d) && 0 <= d.nsec < 1_000_000_000),
    ensures
        compare_spec(op, a, a) == Ok::<int, Seq<char>>(0),
{
    match a {
        Term::Str(v, l) => {
            lemma_seq_order_eq(lower_seq(l), lower_seq(l));
            lemma_seq_order_eq(v, v);
        },
        Term::Typed(v, t) => {
            lemma_seq_order_eq(t, t);
            lemma_seq_order_eq(v, v);
        },
        Term::Iri(x) => {
            lemma_seq_order_eq(x, x);
        },
        Term::Blank(x) => {
            lemma_seq_order_eq(x, x);
        },
        _ => {},
    }
}

/// Two dateTimes compare equal to themselves, and antisymmetrically.
pub proof fn law_datetime_order(a: DateTime, b: DateTime)
    ensures
        datetime_order(a, a) == 0,
        datetime_order(b, a) == -datetime_order(a, b),
        -1 <= datetime_order(a, b) <= 1,
{
}

/// The order of two points in time given as (seconds, nanoseconds).
pub open spec fn timespec_order(a: (int, int), b: (int, int)) -> int {
    if a.0 < b.0 || (a.0 == b.0 && a.1 < b.1) {
        -1
    } else if a.0 == b.0 && a.1 == b.1 {
        0
    } else {
        1
    }
}

/// Orders two (seconds, nanoseconds) pairs, as `compare_values` does for two dateTimes.
pub fn compare_timespecs(a: (i128, i32), b: (i128, i32)) -> (r: i8)
    ensures
        r as int == timespec_order((a.0 as int, a.1 as int), (b.0 as int, b.1 as int)),
{
    if a.0 < b.0 || (a.0 == b.0 && a.1 < b.1) {
        -1
    } else if a.0 == b.0 && a.1 == b.1 {
        0
    } else {
        1
    }
}

/// The instant a dateTime names: seconds since the epoch and nanoseconds.
fn instant(d: &DateTime) -> (r: (i128, i32))
    requires
        0 <= d.nsec < 1_000_000_000,
    ensures
        r.0 as int == instant_seconds(*d),
        r.1 == d.nsec,
{
    let u = DateTime {
        sec: d.sec, min: d.min, hour: d.hour, mday: d.mday, mon: d.mon, year: d.year, wday: d.wday,
        yday: d.yday, isdst: d.isdst, utcoff: 0, nsec: d.nsec,
    };
    let t = to_timespec(&u);
    (t.0 as i128 - d.utcoff as i128, t.1)
}

pub proof fn lemma_seq_order_eq(a: Seq<char>, b: Seq<char>)
    ensures
        (seq_order(a, b) == 0) == (a == b),
        -1 <= seq_order(a, b) <= 1,
    decreases a.len(),
{
    if a.len() == 0 {
        if b.len() == 0 {
            assert(a =~= b);
        }
    } else if b.len() == 0 {
    } else if a[0] == b[0] {
        lemma_seq_order_eq(a.drop_first(), b.drop_first());
        if a.drop_first() == b.drop_first() {
            assert(a =~= seq![a[0]] + a.drop_first());
            assert(b =~= seq![b[0]] + b.drop_first());
        } else {
            assert(a.drop_first() != b.drop_first());
            if a == b {
                assert(a.drop_first() == b.drop_first());
            }
        }
    } else {
        assert(a[0] != b[0]);
    }
}

/// Equality of two values (the `=` and `!=` operators); `operator` names the operator in
/// error messages.
pub fn equal_values(operator: &str, lhs: &Object, rhs: &Object) -> (r: Result<bool, String>)
    ensures
        match r {
            Ok(b) => equal_spec(operator@, lhs@, rhs@) == Ok::<bool, Seq<char>>(b),
            Err(e) => equal_spec(operator@, lhs@, rhs@) == Err::<bool, Seq<char>>(e@),
        },
{
    match lhs {
        Object::BoolValue(a) => match rhs {
            Object::BoolValue(b) => Ok(*a == *b),
            _ => Err(type_error(operator, rhs, "boolean")),
        },
        Object::IntValue(a) => match rhs {
            Object::IntValue(b) => Ok(*a == *b),
            Object::FloatValue(b) => Ok(float_eq_exec(int_to_float_bits(*a), *b)),
            _ => Err(type_error(operator, rhs, "numeric")),
        },
        Object::FloatValue(a) => match rhs {
            Object::IntValue(b) => Ok(float_eq_exec(*a, int_to_float_bits(*b))),
            Object::FloatValue(b) => Ok(float_eq_exec(*a, *b)),
            _ => Err(type_error(operator, rhs, "numeric")),
        },
        Object::DateTimeValue(a) => match rhs {
            Object::DateTimeValue(b) => Ok(*a == *b),
            _ => Err(type_error(operator, rhs, "dateTime")),
        },
        Object::StringValue(v1, l1) => match rhs {
            Object::StringValue(v2, l2) => {
                let a = lower_str(l1.as_str());
                let b = lower_str(l2.as_str());
                Ok(a == b && *v1 == *v2)
            },
            _ => Err(type_error(operator, rhs, "string")),
        },
        Object::TypedValue(v1, t1) => match rhs {
            Object::TypedValue(v2, t2) => Ok(*t1 == *t2 && *v1 == *v2),
            _ => Err(type_error(operator, rhs, t1.as_str())),
        },
        Object::IriValue(a) => match rhs {
            Object::IriValue(b) => Ok(*a == *b),
            _ => Err(type_error(operator, rhs, "IRI")),
        },
        Object::BlankValue(a) => match rhs {
            Object::BlankValue(b) => Ok(*a == *b),
            _ => Err(type_error(operator, rhs, "blank")),
        },
        _ => Err(type_error(operator, lhs, "a")),
    }
}



fn unbound_or_blank(o: &Object) -> (r: bool)
    ensures
        r == (o@ is Unbound || o@ is Blank),
{
    match o {
        Object::UnboundValue(_) | Object::BlankValue(_) => true,
        _ => false,
    }
}

fn float_order_exec(a: u64, b: u64) -> (r: i32)
    ensures
        r as int == float_order(a, b),
{
    if float_lt_exec(a, b) { -1 } else if float_eq_exec(a, b) { 0 } else { 1 }
}

fn order_strs_checked(a: &str, b: &str) -> (r: i32)
    ensures
        r as int == seq_order(a@, b@),
        (r == 0) == (a@ == b@),
{
    proof {
        lemma_seq_order_eq(a@, b@);
    }
    order_strs(a, b) as i32
}

/// Orders two values (15.1): Ok(-1), Ok(0) or Ok(1), or an error for values that do not
/// compare. Two dateTimes are ordered by the instants they name: their fields read as UTC
/// by the `time` crate, less their offsets.
pub fn compare_values(operator: &str, lhs: &Object, rhs: &Object) -> (r: Result<i32, String>)
    ensures
        match r {
            Ok(c) => compare_spec(operator@, lhs@, rhs@) == Ok::<int, Seq<char>>(c as int),
            Err(e) => compare_spec(operator@, lhs@, rhs@) == Err::<int, Seq<char>>(e@),
        },
{
    match lhs {
        Object::IntValue(a) => match rhs {
            Object::IntValue(b) => Ok(if *a < *b { -1 } else if *a == *b { 0 } else { 1 }),
            Object::FloatValue(b) => Ok(float_order_exec(int_to_float_bits(*a), *b)),
            _ => if unbound_or_blank(rhs) { Ok(1) } else { Err(type_error(operator, rhs, "numeric")) },
        },
        Object::FloatValue(a) => match rhs {
            Object::IntValue(b) => Ok(float_order_exec(*a, int_to_float_bits(*b))),
            Object::FloatValue(b) => Ok(float_order_exec(*a, *b)),
            _ => if unbound_or_blank(rhs) { Ok(1) } else { Err(type_error(operator, rhs, "numeric")) },
        },
        Object::DateTimeValue(a) => match rhs {
            Object::DateTimeValue(b) => {
                if 0 <= a.nsec && a.nsec < 1_000_000_000 && 0 <= b.nsec && b.nsec < 1_000_000_000 {
                    if *a == *b {
                        return Ok(0);
                    }
                    let x = instant(a);
                    let y = instant(b);
                    Ok(compare_timespecs(x, y) as i32)
                } else {
                    Err("dateTime nanoseconds out of range".to_owned())
                }
            },
            _ => if unbound_or_blank(rhs) { Ok(1) } else { Err(type_error(operator, rhs, "dateTime")) },
        },
        Object::StringValue(v1, l1) => match rhs {
            Object::StringValue(v2, l2) => {
                let a = lower_str(l1.as_str());
                let b = lower_str(l2.as_str());
                let o1 = order_strs_checked(a.as_str(), b.as_str());
                let o2 = order_strs_checked(v1.as_str(), v2.as_str());
                Ok(if o1 < 0 || (o1 == 0 && o2 < 0) { -1 } else if o1 == 0 && o2 == 0 { 0 } else { 1 })
            },
            _ => if unbound_or_blank(rhs) { Ok(1) } else { Err(type_error(operator, rhs, "string")) },
        },
        Object::TypedValue(v1, t1) => match rhs {
            Object::TypedValue(v2, t2) => {
                let o1 = order_strs_checked(t1.as_str(), t2.as_str());
                let o2 = order_strs_checked(v1.as_str(), v2.as_str());
                Ok(if o1 < 0 || (o1 == 0 && o2 < 0) { -1 } else if o1 == 0 && o2 == 0 { 0 } else { 1 })
            },
            _ => if unbound_or_blank(rhs) { Ok(1) } else { Err(type_error(operator, rhs, t1.as_str())) },
        },
        Object::IriValue(a) => match rhs {
            Object::IriValue(b) => Ok(order_strs_checked(a.as_str(), b.as_str())),
            _ => if unbound_or_blank(rhs) { Ok(1) } else { Err(type_error(operator, rhs, "anyURI")) },
        },
        Object::UnboundValue(_) => match rhs {
            Object::UnboundValue(_) => Ok(0),
            _ => Ok(-1),
        },
        Object::BlankValue(a) => match rhs {
            Object::UnboundValue(_) => Ok(1),
            Object::BlankValue(b) => Ok(order_strs_checked(a.as_str(), b.as_str())),
            _ => Ok(-1),
        },
        _ => Err(type_error(operator, lhs, "numeric, dateTime, string, or explicitly typed")),
    }
}


// ---- Unary operators ---------------------------------------------------------

pub open spec fn op_not_spec(t: Term) -> Term {
    match ebv_spec(t) {
        Ok(v) => Term::Bool(!v),
        Err(e) => Term::Error(e),
    }
}

pub fn op_not(operand: &Object) -> (r: Object)
    ensures
        r@ == op_not_spec(operand@),
{
    match get_ebv(operand) {
        Ok(v) => Object::BoolValue(!v),
        Err(e) => Object::ErrorValue(e),
    }
}

pub open spec fn op_unary_plus_spec(t: Term) -> Term {
    match t {
        Term::Int(_) | Term::Float(_) => t,
        _ => Term::Error(type_error_spec("unary plus"@, t, "numeric"@)),
    }
}

pub fn op_unary_plus(operand: &Object) -> (r: Object)
    ensures
        r@ == op_unary_plus_spec(operand@),
{
    match operand {
        Object::IntValue(_) | Object::FloatValue(_) => operand.copy(),
        _ => Object::ErrorValue(type_error("unary plus", operand, "numeric")),
    }
}

/// Negation of a 64-bit integer, wrapping at the bottom of the range.
pub open spec fn negate_i64(v: i64) -> i64 {
    if v == i64::MIN { i64::MIN } else { (-v) as i64 }
}

pub open spec fn op_unary_minus_spec(t: Term) -> Term {
    match t {
        Term::Int(v) => Term::Int(negate_i64(v)),
        Term::Float(b) => Term::Float(float_neg(b)),
        _ => Term::Error(type_error_spec("unary minus"@, t, "numeric"@)),
    }
}

pub fn op_unary_minus(operand: &Object) -> (r: Object)
    ensures
        r@ == op_unary_minus_spec(operand@),
{
    match operand {
        Object::IntValue(v) => Object::IntValue(if *v == i64::MIN { i64::MIN } else { -*v }),
        Object::FloatValue(b) => Object::FloatValue(float_neg_exec(*b)),
        _ => Object::ErrorValue(type_error("unary minus", operand, "numeric")),
    }
}

// ---- Logical operators -----------------------------------------------------

/// Logical-or (17.2): an error on one side is forgiven when the other side is true.
pub open spec fn op_or_spec(lhs: Term, rhs: Term) -> Term {
    match (ebv_spec(lhs), ebv_spec(rhs)) {
        (Ok(a), Ok(b)) => Term::Bool(a || b),
        (Ok(a), Err(e)) => if a { Term::Bool(true) } else { Term::Error(e) },
        (Err(e), Ok(b)) => if b { Term::Bool(true) } else { Term::Error(e) },
        (Err(e1), Err(e2)) => Term::Error(e1 + " "@ + e2),
    }
}

/// Logical-and (17.2): an error on one side is forgiven when the other side is false.
pub open spec fn op_and_spec(lhs: Term, rhs: Term) -> Term {
    match (ebv_spec(lhs), ebv_spec(rhs)) {
        (Ok(a), Ok(b)) => Term::Bool(a && b),
        (Ok(a), Err(e)) => if !a { Term::Bool(false) } else { Term::Error(e) },
        (Err(e), Ok(b)) => if !b { Term::Bool(false) } else { Term::Error(e) },
        (Err(e1), Err(e2)) => Term::Error(e1 + " "@ + e2),
    }
}

pub fn op_or(lhs: &Object, rhs: &Object) -> (r: Object)
    ensures
        r@ == op_or_spec(lhs@, rhs@),
{
    let a = get_ebv(lhs);
    let b = get_ebv(rhs);
    match (a, b) {
        (Ok(x), Ok(y)) => Object::BoolValue(x || y),
        (Ok(x), Err(e)) => if x { Object::BoolValue(true) } else { Object::ErrorValue(e) },
        (Err(e), Ok(y)) => if y { Object::BoolValue(true) } else { Object::ErrorValue(e) },
        (Err(e1), Err(e2)) => {
            let t = concat_str(e1.as_str(), " ");
            Object::ErrorValue(concat_str(t.as_str(), e2.as_str()))
        },
    }
}

pub fn op_and(lhs: &Object, rhs: &Object) -> (r: Object)
    ensures
        r@ == op_and_spec(lhs@, rhs@),
{
    let a = get_ebv(lhs);
    let b = get_ebv(rhs);
    match (a, b) {
        (Ok(x), Ok(y)) => Object::BoolValue(x && y),
        (Ok(x), Err(e)) => if !x { Object::BoolValue(false) } else { Object::ErrorValue(e) },
        (Err(e), Ok(y)) => if !y { Object::BoolValue(false) } else { Object::ErrorValue(e) },
        (Err(e1), Err(e2)) => {
            let t = concat_str(e1.as_str(), " ");
            Object::ErrorValue(concat_str(t.as_str(), e2.as_str()))
        },
    }
}

/// On integers the comparison operators are the integers' own order and `=`/`!=` their
/// equality; on IRIs and on strings of one language `=` is equality of the texts, and `<`
/// and `>` hold for texts in lexicographic order, each opposite to the other.
pub proof fn law_comparisons(a: i64, b: i64, u: Seq<char>, w: Seq<char>, l: Seq<char>)
    ensures
        relational_spec(0, Term::Int(a), Term::Int(b)) == Term::Bool(a < b),
        relational_spec(1, Term::Int(a), Term::Int(b)) == Term::Bool(a <= b),
        relational_spec(2, Term::Int(a), Term::Int(b)) == Term::Bool(a > b),
        relational_spec(3, Term::Int(a), Term::Int(b)) == Term::Bool(a >= b),
        op_equals_spec(Term::Int(a), Term::Int(b)) == Term::Bool(a == b),
        op_not_equals_spec(Term::Int(a), Term::Int(b)) == Term::Bool(a != b),
        op_equals_spec(Term::Str(u, l), Term::Str(w, l)) == Term::Bool(u == w),
        op_equals_spec(Term::Iri(u), Term::Iri(w)) == Term::Bool(u == w),
        relational_spec(0, Term::Str(u, l), Term::Str(w, l)) == relational_spec(2, Term::Str(w, l), Term::Str(u, l)),
        relational_spec(0, Term::Str(u, l), Term::Str(w, l)) == Term::Bool(seq_order(u, w) < 0),
        relational_spec(0, Term::Iri(u), Term::Iri(w)) == Term::Bool(seq_order(u, w) < 0),
        u != w ==> (relational_spec(0, Term::Iri(u), Term::Iri(w)) == Term::Bool(true)
            || relational_spec(0, Term::Iri(w), Term::Iri(u)) == Term::Bool(true)),
{
    lemma_seq_order_eq(u, w);
    lemma_seq_order_eq(w, u);
    crate::sparql::lemma_seq_order_antisymmetric(u, w);
    lemma_seq_order_eq(lower_seq(l), lower_seq(l));
}

/// The logical operators act on effective boolean values: `||` is their disjunction and
/// `&&` their conjunction, `!` the negation; a true operand makes `||` true and a false one
/// makes `&&` false whatever the other gives, and otherwise an operand's error is the result.
pub proof fn law_logical_operators(a: Term, b: Term, x: bool, y: bool)
    ensures
        op_or_spec(Term::Bool(x), Term::Bool(y)) == Term::Bool(x || y),
        op_and_spec(Term::Bool(x), Term::Bool(y)) == Term::Bool(x && y),
        op_not_spec(Term::Bool(x)) == Term::Bool(!x),
        ebv_spec(a) == Ok::<bool, Seq<char>>(x) && ebv_spec(b) == Ok::<bool, Seq<char>>(y) ==> {
            &&& op_or_spec(a, b) == Term::Bool(x || y)
            &&& op_and_spec(a, b) == Term::Bool(x && y)
            &&& op_not_spec(a) == Term::Bool(!x)
        },
        ebv_spec(a) == Ok::<bool, Seq<char>>(true) ==> op_or_spec(a, b) == Term::Bool(true) && op_or_spec(b, a) == Term::Bool(true),
        ebv_spec(a) == Ok::<bool, Seq<char>>(false) ==> op_and_spec(a, b) == Term::Bool(false) && op_and_spec(b, a) == Term::Bool(false),
        ebv_spec(a) is Err && ebv_spec(b) != Ok::<bool, Seq<char>>(true) ==> op_or_spec(a, b) is Error && op_or_spec(b, a) is Error,
        ebv_spec(a) is Err && ebv_spec(b) != Ok::<bool, Seq<char>>(false) ==> op_and_spec(a, b) is Error && op_and_spec(b, a) is Error,
        ebv_spec(a) is Err ==> op_not_spec(a) is Error,
{
}

// ---- Equality and relational operators ----------------------------------------

pub open spec fn op_equals_spec(lhs: Term, rhs: Term) -> Term {
    match equal_spec("="@, lhs, rhs) {
        Ok(v) => Term::Bool(v),
        Err(e) => Term::Error(e),
    }
}

pub open spec fn op_not_equals_spec(lhs: Term, rhs: Term) -> Term {
    match equal_spec("!="@, lhs, rhs) {
        Ok(v) => Term::Bool(!v),
        Err(e) => Term::Error(e),
    }
}

/// A type error names its operator first: the message is the operator, then what does not
/// depend on it.
proof fn lemma_type_error_prefix(op: Seq<char>, t: Term, expected: Seq<char>)
    ensures
        type_error_spec(op, t, expected) == op + type_error_spec(Seq::empty(), t, expected),
{
    let e = Seq::<char>::empty();
    match t {
        Term::Unbound(n) => {
            assert(op + ": ?"@ + n + " was not bound."@ =~= op + (e + ": ?"@ + n + " was not bound."@));
        },
        Term::Invalid(v, k) => {
            assert(op + ": '"@ + v + "' is not a valid "@ + k =~= op + (e + ": '"@ + v + "' is not a valid "@ + k));
        },
        Term::Error(m) => {
            assert(op + ": "@ + m =~= op + (e + ": "@ + m));
        },
        _ => {
            assert(op + ": expected "@ + expected + " value but found "@ + term_debug(t) + "."@
                =~= op + (e + ": expected "@ + expected + " value but found "@ + term_debug(t) + "."@));
        },
    }
}

/// What equality gives does not depend on the operator's name, but for the name that opens
/// its error messages.
proof fn lemma_equal_spec_op(op: Seq<char>, a: Term, b: Term)
    ensures
        equal_spec(op, a, b) == match equal_spec(Seq::empty(), a, b) {
            Ok(v) => Ok::<bool, Seq<char>>(v),
            Err(m) => Err(op + m),
        },
{
    let x: Seq<char> = match a {
        Term::Bool(_) => "boolean"@,
        Term::Int(_) | Term::Float(_) => "numeric"@,
        Term::DateTime(_) => "dateTime"@,
        Term::Str(_, _) => "string"@,
        Term::Typed(_, t1) => t1,
        Term::Iri(_) => "IRI"@,
        Term::Blank(_) => "blank"@,
        _ => "a"@,
    };
    lemma_type_error_prefix(op, b, x);
    lemma_type_error_prefix(op, a, x);
}

/// `=` and `!=` agree: where one gives a boolean the other gives its negation, and where
/// one fails the other fails with the same message after its own name.
pub proof fn law_equals_not_equals(a: Term, b: Term)
    ensures
        (op_equals_spec(a, b) is Bool) == (op_not_equals_spec(a, b) is Bool),
        op_equals_spec(a, b) is Bool ==> op_not_equals_spec(a, b)->Bool_0 == !op_equals_spec(a, b)->Bool_0,
        (op_equals_spec(a, b) is Error) == (op_not_equals_spec(a, b) is Error),
        op_equals_spec(a, b) is Error ==> exists|m: Seq<char>|
            op_equals_spec(a, b) == Term::Error("="@ + m) && op_not_equals_spec(a, b) == Term::Error("!="@ + m),
{
    lemma_equal_spec_op("="@, a, b);
    lemma_equal_spec_op("!="@, a, b);
    match equal_spec(Seq::empty(), a, b) {
        Ok(_) => {},
        Err(m) => {
            assert(op_equals_spec(a, b) == Term::Error("="@ + m));
        },
    }
}

pub fn op_equals(lhs: &Object, rhs: &Object) -> (r: Object)
    ensures
        r@ == op_equals_spec(lhs@, rhs@),
{
    match equal_values("=", lhs, rhs) {
        Ok(v) => Object::BoolValue(v),
        Err(e) => Object::ErrorValue(e),
    }
}

pub fn op_not_equals(lhs: &Object, rhs: &Object) -> (r: Object)
    ensures
        r@ == op_not_equals_spec(lhs@, rhs@),
{
    match equal_values("!=", lhs, rhs) {
        Ok(v) => Object::BoolValue(!v),
        Err(e) => Object::ErrorValue(e),
    }
}

/// The relational operators: which outcomes of a comparison make each one true.
pub open spec fn relation_holds(rel: int, c: int) -> bool {
    if rel == 0 { c < 0 } else if rel == 1 { c <= 0 } else if rel == 2 { c > 0 } else { c >= 0 }
}

pub open spec fn relation_name(rel: int) -> Seq<char> {
    if rel == 0 { "<"@ } else if rel == 1 { "<="@ } else if rel == 2 { ">"@ } else { ">="@ }
}

/// The result of a relational operator (0: `<`, 1: `<=`, 2: `>`, 3: `>=`).
pub open spec fn relational_spec(rel: int, lhs: Term, rhs: Term) -> Term {
    match compare_spec(relation_name(rel), lhs, rhs) {
        Ok(c) => Term::Bool(relation_holds(rel, c)),
        Err(e) => Term::Error(e),
    }
}

fn relational(rel: u8, name: &str, lhs: &Object, rhs: &Object) -> (r: Object)
    requires
        rel <= 3,
        name@ == relation_name(rel as int),
    ensures
        r@ == relational_spec(rel as int, lhs@, rhs@),
{
    match compare_values(name, lhs, rhs) {
        Ok(c) => Object::BoolValue(
            if rel == 0 { c < 0 } else if rel == 1 { c <= 0 } else if rel == 2 { c > 0 } else { c >= 0 },
        ),
        Err(e) => Object::ErrorValue(e),
    }
}

pub fn op_less_than(lhs: &Object, rhs: &Object) -> (r: Object)
    ensures
        r@ == relational_spec(0, lhs@, rhs@),
{
    relational(0, "<", lhs, rhs)
}

pub fn op_less_than_or_equal(lhs: &Object, rhs: &Object) -> (r: Object)
    ensures
        r@ == relational_spec(1, lhs@, rhs@),
{
    relational(1, "<=", lhs, rhs)
}

pub fn op_greater_than(lhs: &Object, rhs: &Object) -> (r: Object)
    ensures
        r@ == relational_spec(2, lhs@, rhs@),
{
    relational(2, ">", lhs, rhs)
}

pub fn op_greater_than_or_equal(lhs: &Object, rhs: &Object) -> (r: Object)
    ensures
        r@ == relational_spec(3, lhs@, rhs@),
{
    relational(3, ">=", lhs, rhs)
}

// ---- Arithmetic -----------------------------------------------------------------

/// Integer arithmetic (0: `*`, 1: `/`, 2: `+`, 3: `-`), wrapping on overflow.
pub open spec fn int_arith(kind: int, a: i64, b: i64) -> Term {
    if kind == 0 {
        Term::Int(a.wrapping_mul(b))
    } else if kind == 1 {
        if b == 0 {
            Term::Error("Divide by zero."@)
        } else {
            match a.checked_div(b) {
                Some(q) => Term::Int(q),
                None => Term::Int(i64::MIN),
            }
        }
    } else if kind == 2 {
        Term::Int(a.wrapping_add(b))
    } else {
        Term::Int(a.wrapping_sub(b))
    }
}

pub open spec fn arith_name(kind: int) -> Seq<char> {
    if kind == 0 { "*"@ } else if kind == 1 { "/"@ } else if kind == 2 { "+"@ } else { "-"@ }
}

/// The message for arithmetic that would need floating point.
pub open spec fn float_arith_error(kind: int) -> Seq<char> {
    arith_name(kind) + ": floating-point arithmetic is not supported."@
}

/// Binary arithmetic on two values. Integer operands are computed; an operand that is a
/// floating-point value gives an error, since that would take floating-point arithmetic.
pub open spec fn arith_spec(kind: int, lhs: Term, rhs: Term) -> Term {
    match lhs {
        Term::Int(a) => match rhs {
            Term::Int(b) => int_arith(kind, a, b),
            Term::Float(_) => Term::Error(float_arith_error(kind)),
            _ => Term::Error(type_error_spec(arith_name(kind), rhs, "numeric"@)),
        },
        Term::Float(_) => match rhs {
            Term::Int(_) | Term::Float(_) => Term::Error(float_arith_error(kind)),
            _ => Term::Error(type_error_spec(arith_name(kind), rhs, "numeric"@)),
        },
        _ => Term::Error(type_error_spec(arith_name(kind), lhs, "numeric"@)),
    }
}

fn arith(kind: u8, name: &str, lhs: &Object, rhs: &Object) -> (r: Object)
    requires
        kind <= 3,
        name@ == arith_name(kind as int),
    ensures
        r@ == arith_spec(kind as int, lhs@, rhs@),
{
    match lhs {
        Object::IntValue(a) => match rhs {
            Object::IntValue(b) => {
                if kind == 0 {
                    Object::IntValue(a.wrapping_mul(*b))
                } else if kind == 1 {
                    if *b == 0 {
                        Object::ErrorValue("Divide by zero.".to_owned())
                    } else {
                        match a.checked_div(*b) {
                            Some(q) => Object::IntValue(q),
                            None => Object::IntValue(i64::MIN),
                        }
                    }
                } else if kind == 2 {
                    Object::IntValue(a.wrapping_add(*b))
                } else {
                    Object::IntValue(a.wrapping_sub(*b))
                }
            },
            Object::FloatValue(_) => Object::ErrorValue(concat_str(name, ": floating-point arithmetic is not supported.")),
            _ => Object::ErrorValue(type_error(name, rhs, "numeric")),
        },
        Object::FloatValue(_) => match rhs {
            Object::IntValue(_) | Object::FloatValue(_) => Object::ErrorValue(concat_str(name, ": floating-point arithmetic is not supported.")),
            _ => Object::ErrorValue(type_error(name, rhs, "numeric")),
        },
        _ => Object::ErrorValue(type_error(name, lhs, "numeric")),
    }
}

pub fn op_multiply(lhs: &Object, rhs: &Object) -> (r: Object)
    ensures
        r@ == arith_spec(0, lhs@, rhs@),
{
    arith(0, "*", lhs, rhs)
}

pub fn op_divide(lhs: &Object, rhs: &Object) -> (r: Object)
    ensures
        r@ == arith_spec(1, lhs@, rhs@),
{
    arith(1, "/", lhs, rhs)
}

pub fn op_add(lhs: &Object, rhs: &Object) -> (r: Object)
    ensures
        r@ == arith_spec(2, lhs@, rhs@),
{
    arith(2, "+", lhs, rhs)
}

pub fn op_subtract(lhs: &Object, rhs: &Object) -> (r: Object)
    ensures
        r@ == arith_spec(3, lhs@, rhs@),
{
    arith(3, "-", lhs, rhs)
}

} // verus!
