//! The value component of a triple, and what SPARQL needs to know of values.
use vstd::prelude::*;
use crate::datetime::{DateTime, rfc3339, rfc3339_text, rfc3339_printable, datetime_parse};
use crate::number::{strtol_whole, strtol_whole_exec, strtod_whole, strtod_whole_exec};
use crate::namespace::{Namespace, ns_view, contract_uri, contract_spec};
use crate::text::{concat_str, int_to_string, int_text, hex_to_string, hex_digits, str_eq, starts_with_str};

verus! {

/// Value component of a triple.
///
/// Floating-point values are held by their IEEE 754 binary64 bit pattern.
#[derive(Debug, Clone, PartialEq)]
pub enum Object {
    // literals
    BoolValue(bool),
    IntValue(i64),
    FloatValue(u64),
    DateTimeValue(DateTime),
    StringValue(String, String),
    TypedValue(String, String),
    // other rdf terms
    IriValue(String),
    BlankValue(String),
    // error conditions
    UnboundValue(String),
    InvalidValue(String, String),
    ErrorValue(String),
}

/// The mathematical model of an `Object`: strings are sequences of characters.
pub enum Term {
    Bool(bool),
    Int(i64),
    Float(u64),
    DateTime(DateTime),
    Str(Seq<char>, Seq<char>),
    Typed(Seq<char>, Seq<char>),
    Iri(Seq<char>),
    Blank(Seq<char>),
    Unbound(Seq<char>),
    Invalid(Seq<char>, Seq<char>),
    Error(Seq<char>),
}

impl View for Object {
    type V = Term;

    open spec fn view(&self) -> Term {
        match self {
            Object::BoolValue(b) => Term::Bool(*b),
            Object::IntValue(i) => Term::Int(*i),
            Object::FloatValue(f) => Term::Float(*f),
            Object::DateTimeValue(d) => Term::DateTime(*d),
            Object::StringValue(v, l) => Term::Str(v@, l@),
            Object::TypedValue(v, k) => Term::Typed(v@, k@),
            Object::IriValue(v) => Term::Iri(v@),
            Object::BlankValue(v) => Term::Blank(v@),
            Object::UnboundValue(n) => Term::Unbound(n@),
            Object::InvalidValue(v, k) => Term::Invalid(v@, k@),
            Object::ErrorValue(e) => Term::Error(e@),
        }
    }
}

/// The views of a sequence of objects.
pub open spec fn terms(s: Seq<Object>) -> Seq<Term> {
    s.map_values(|o: Object| o@)
}

pub open spec fn is_unbound_term(t: Term) -> bool {
    t is Unbound
}

/// Text for a floating-point value: its bit pattern in hexadecimal.
pub open spec fn float_text(bits: u64) -> Seq<char> {
    "0x"@ + hex_digits(bits as nat)
}

/// Text for a date and time: RFC 3339 (empty for fields the printer cannot take, see
/// `rfc3339_printable`).
pub open spec fn datetime_text(d: DateTime) -> Seq<char> {
    if rfc3339_printable(d) { rfc3339_text(d) } else { Seq::empty() }
}

/// The text of a value (`to_str`).
pub open spec fn term_text(t: Term) -> Seq<char> {
    match t {
        Term::Bool(b) => if b { "true"@ } else { "false"@ },
        Term::Int(i) => int_text(i as int),
        Term::Float(f) => float_text(f),
        Term::DateTime(d) => datetime_text(d),
        Term::Str(v, l) => if l.len() > 0 {
            "\""@ + v + "\"@"@ + l
        } else {
            "\""@ + v + "\""@
        },
        Term::Typed(v, k) => "\""@ + v + "^^\""@ + k,
        Term::Iri(v) => "<"@ + v + ">"@,
        Term::Blank(v) => v,
        Term::Unbound(n) => n + " unbound"@,
        Term::Invalid(v, k) => "'"@ + v + "' is not a valid "@ + k,
        Term::Error(e) => e,
    }
}

/// A quoted string in the style of the value dumps used in error messages.
pub open spec fn quoted(s: Seq<char>) -> Seq<char> {
    "~\""@ + s + "\""@
}

pub open spec fn wrapped1(name: Seq<char>, a: Seq<char>) -> Seq<char> {
    name + "("@ + a + ")"@
}

pub open spec fn wrapped2(name: Seq<char>, a: Seq<char>, b: Seq<char>) -> Seq<char> {
    name + "("@ + a + ", "@ + b + ")"@
}

/// One field of a broken-down time's dump: its name, a colon and its value.
pub open spec fn tm_field(name: Seq<char>, v: i32) -> Seq<char> {
    name + ": "@ + int_text(v as int)
}

/// The dump of a broken-down time's fields, in the form the `time` crate's `Tm` debugs as.
pub open spec fn datetime_debug(d: DateTime) -> Seq<char> {
    "Tm { "@ + tm_field("tm_sec"@, d.sec) + ", "@ + tm_field("tm_min"@, d.min) + ", "@
        + tm_field("tm_hour"@, d.hour) + ", "@ + tm_field("tm_mday"@, d.mday) + ", "@
        + tm_field("tm_mon"@, d.mon) + ", "@ + tm_field("tm_year"@, d.year) + ", "@
        + tm_field("tm_wday"@, d.wday) + ", "@ + tm_field("tm_yday"@, d.yday) + ", "@
        + tm_field("tm_isdst"@, d.isdst) + ", "@ + tm_field("tm_utcoff"@, d.utcoff) + ", "@
        + tm_field("tm_nsec"@, d.nsec) + " }"@
}

/// The debugging text of a value, used in error messages.
pub open spec fn term_debug(t: Term) -> Seq<char> {
    match t {
        Term::Bool(b) => wrapped1("BoolValue"@, if b { "true"@ } else { "false"@ }),
        Term::Int(i) => wrapped1("IntValue"@, int_text(i as int)),
        Term::Float(f) => wrapped1("FloatValue"@, float_text(f)),
        Term::DateTime(d) => wrapped1("DateTimeValue"@, datetime_debug(d)),
        Term::Str(v, l) => wrapped2("StringValue"@, quoted(v), quoted(l)),
        Term::Typed(v, k) => wrapped2("TypedValue"@, quoted(v), quoted(k)),
        Term::Iri(v) => wrapped1("IriValue"@, quoted(v)),
        Term::Blank(v) => wrapped1("BlankValue"@, quoted(v)),
        Term::Unbound(n) => wrapped1("UnboundValue"@, quoted(n)),
        Term::Invalid(v, k) => wrapped2("InvalidValue"@, quoted(v), quoted(k)),
        Term::Error(e) => wrapped1("ErrorValue"@, quoted(e)),
    }
}

/// Text for display with namespaces: typed values and IRIs use prefixed names where possible.
pub open spec fn term_friendly(t: Term, ns: Seq<(Seq<char>, Seq<char>)>) -> Seq<char> {
    match t {
        Term::Typed(v, k) => "\""@ + v + "^^\""@ + contract_spec(ns, k),
        Term::Iri(v) => if contract_spec(ns, v) != v { contract_spec(ns, v) } else { "<"@ + v + ">"@ },
        _ => term_text(t),
    }
}

fn datetime_to_string(d: &DateTime) -> (s: String)
    ensures
        s@ == datetime_text(*d),
{
    if d.utcoff != i32::MIN && d.year <= i32::MAX - 1900 && d.mon < i32::MAX {
        rfc3339(d)
    } else {
        String::new()
    }
}

fn float_to_string(bits: u64) -> (s: String)
    ensures
        s@ == float_text(bits),
{
    let h = hex_to_string(bits);
    concat_str("0x", h.as_str())
}

fn quote(s: &str) -> (r: String)
    ensures
        r@ == quoted(s@),
{
    let a = concat_str("~\"", s);
    concat_str(a.as_str(), "\"")
}

fn tm_field_string(name: &str, v: i32) -> (r: String)
    ensures
        r@ == tm_field(name@, v),
{
    let a = concat_str(name, ": ");
    let t = int_to_string(v as i64);
    concat_str(a.as_str(), t.as_str())
}

/// Dumps a broken-down time's fields (see `datetime_debug`).
fn datetime_debug_string(d: &DateTime) -> (r: String)
    ensures
        r@ == datetime_debug(*d),
{
    let mut out = "Tm { ".to_owned();
    let f = tm_field_string("tm_sec", d.sec);
    out = concat_str(out.as_str(), f.as_str());
    out = concat_str(out.as_str(), ", ");
    let f = tm_field_string("tm_min", d.min);
    out = concat_str(out.as_str(), f.as_str());
    out = concat_str(out.as_str(), ", ");
    let f = tm_field_string("tm_hour", d.hour);
    out = concat_str(out.as_str(), f.as_str());
    out = concat_str(out.as_str(), ", ");
    let f = tm_field_string("tm_mday", d.mday);
    out = concat_str(out.as_str(), f.as_str());
    out = concat_str(out.as_str(), ", ");
    let f = tm_field_string("tm_mon", d.mon);
    out = concat_str(out.as_str(), f.as_str());
    out = concat_str(out.as_str(), ", ");
    let f = tm_field_string("tm_year", d.year);
    out = concat_str(out.as_str(), f.as_str());
    out = concat_str(out.as_str(), ", ");
    let f = tm_field_string("tm_wday", d.wday);
    out = concat_str(out.as_str(), f.as_str());
    out = concat_str(out.as_str(), ", ");
    let f = tm_field_string("tm_yday", d.yday);
    out = concat_str(out.as_str(), f.as_str());
    out = concat_str(out.as_str(), ", ");
    let f = tm_field_string("tm_isdst", d.isdst);
    out = concat_str(out.as_str(), f.as_str());
    out = concat_str(out.as_str(), ", ");
    let f = tm_field_string("tm_utcoff", d.utcoff);
    out = concat_str(out.as_str(), f.as_str());
    out = concat_str(out.as_str(), ", ");
    let f = tm_field_string("tm_nsec", d.nsec);
    out = concat_str(out.as_str(), f.as_str());
    concat_str(out.as_str(), " }")
}

fn wrap1(name: &str, a: &str) -> (r: String)
    ensures
        r@ == wrapped1(name@, a@),
{
    let x = concat_str(name, "(");
    let y = concat_str(x.as_str(), a);
    concat_str(y.as_str(), ")")
}

fn wrap2(name: &str, a: &str, b: &str) -> (r: String)
    ensures
        r@ == wrapped2(name@, a@, b@),
{
    let x = concat_str(name, "(");
    let y = concat_str(x.as_str(), a);
    let z = concat_str(y.as_str(), ", ");
    let w = concat_str(z.as_str(), b);
    concat_str(w.as_str(), ")")
}

impl Object {
    /// An unbound variable slot.
    pub fn unbound() -> (r: Object)
        ensures
            r@ == Term::Unbound(Seq::empty()),
    {
        Object::UnboundValue(String::new())
    }

    /// A copy with the same model.
    pub fn copy(&self) -> (r: Object)
        ensures
            r@ == self@,
    {
        match self {
            Object::BoolValue(b) => Object::BoolValue(*b),
            Object::IntValue(i) => Object::IntValue(*i),
            Object::FloatValue(f) => Object::FloatValue(*f),
            Object::DateTimeValue(d) => Object::DateTimeValue(*d),
            Object::StringValue(v, l) => Object::StringValue(v.clone(), l.clone()),
            Object::TypedValue(v, k) => Object::TypedValue(v.clone(), k.clone()),
            Object::IriValue(v) => Object::IriValue(v.clone()),
            Object::BlankValue(v) => Object::BlankValue(v.clone()),
            Object::UnboundValue(n) => Object::UnboundValue(n.clone()),
            Object::InvalidValue(v, k) => Object::InvalidValue(v.clone(), k.clone()),
            Object::ErrorValue(e) => Object::ErrorValue(e.clone()),
        }
    }

    /// The value of a BoolValue.
    pub fn as_bool(&self) -> (r: bool)
        requires
            self is BoolValue,
        ensures
            *self == Object::BoolValue(r),
    {
        match self {
            Object::BoolValue(b) => *b,
            _ => false,
        }
    }

    /// The value of an IntValue that fits in an `isize`.
    pub fn as_int(&self) -> (r: isize)
        requires
            *self matches Object::IntValue(i) && isize::MIN <= i <= isize::MAX,
        ensures
            *self == Object::IntValue(r as i64),
    {
        match self {
            Object::IntValue(i) => *i as isize,
            _ => 0,
        }
    }

    /// The value of an IntValue that fits in a `usize`.
    pub fn as_uint(&self) -> (r: usize)
        requires
            *self matches Object::IntValue(i) && 0 <= i <= usize::MAX,
        ensures
            *self == Object::IntValue(r as i64),
    {
        match self {
            Object::IntValue(i) => *i as usize,
            _ => 0,
        }
    }

    /// The value of an IntValue.
    pub fn as_i64(&self) -> (r: i64)
        requires
            self is IntValue,
        ensures
            *self == Object::IntValue(r),
    {
        match self {
            Object::IntValue(i) => *i,
            _ => 0,
        }
    }

    /// The value of a DateTimeValue.
    pub fn as_tm(&self) -> (r: DateTime)
        requires
            self is DateTimeValue,
        ensures
            *self == Object::DateTimeValue(r),
    {
        match self {
            Object::DateTimeValue(d) => *d,
            _ => DateTime { sec: 0, min: 0, hour: 0, mday: 0, mon: 0, year: 0, wday: 0, yday: 0, isdst: 0, utcoff: 0, nsec: 0 },
        }
    }

    /// The text of a StringValue (its language is dropped).
    pub fn as_str(&self) -> (r: String)
        requires
            self is StringValue,
        ensures
            *self matches Object::StringValue(v, _) && r@ == v@,
    {
        match self {
            Object::StringValue(v, _) => v.clone(),
            _ => String::new(),
        }
    }

    /// The IRI of an IriValue.
    pub fn as_iri(&self) -> (r: String)
        requires
            self is IriValue,
        ensures
            *self matches Object::IriValue(v) && r@ == v@,
    {
        match self {
            Object::IriValue(v) => v.clone(),
            _ => String::new(),
        }
    }

    /// The value of a BoolValue, else `default`.
    pub fn as_bool_or_default(&self, default: bool) -> (r: bool)
        ensures
            r == match *self {
                Object::BoolValue(b) => b,
                _ => default,
            },
    {
        match self {
            Object::BoolValue(b) => *b,
            _ => default,
        }
    }

    /// The value of an IntValue (which must fit in an `isize`), else `default`.
    pub fn as_int_or_default(&self, default: isize) -> (r: isize)
        requires
            *self matches Object::IntValue(i) ==> isize::MIN <= i <= isize::MAX,
        ensures
            r as int == match *self {
                Object::IntValue(i) => i as int,
                _ => default as int,
            },
    {
        match self {
            Object::IntValue(i) => *i as isize,
            _ => default,
        }
    }

    /// The value of an IntValue (which must fit in a `usize`), else `default`.
    pub fn as_uint_or_default(&self, default: usize) -> (r: usize)
        requires
            *self matches Object::IntValue(i) ==> 0 <= i <= usize::MAX,
        ensures
            r as int == match *self {
                Object::IntValue(i) => i as int,
                _ => default as int,
            },
    {
        match self {
            Object::IntValue(i) => *i as usize,
            _ => default,
        }
    }

    /// The value of an IntValue, else `default`.
    pub fn as_i64_or_default(&self, default: i64) -> (r: i64)
        ensures
            r == match *self {
                Object::IntValue(i) => i,
                _ => default,
            },
    {
        match self {
            Object::IntValue(i) => *i,
            _ => default,
        }
    }

    /// The value of a DateTimeValue, else `default`.
    pub fn as_tm_or_default(&self, default: DateTime) -> (r: DateTime)
        ensures
            r == match *self {
                Object::DateTimeValue(d) => d,
                _ => default,
            },
    {
        match self {
            Object::DateTimeValue(d) => *d,
            _ => default,
        }
    }

    /// The text of a StringValue, else `default`.
    pub fn as_str_or_default(&self, default: &str) -> (r: String)
        ensures
            r@ == match *self {
                Object::StringValue(v, _) => v@,
                _ => default@,
            },
    {
        match self {
            Object::StringValue(v, _) => v.clone(),
            _ => default.to_owned(),
        }
    }

    /// The IRI of an IriValue, else `default`.
    pub fn as_iri_or_default(&self, default: &str) -> (r: String)
        ensures
            r@ == match *self {
                Object::IriValue(v) => v@,
                _ => default@,
            },
    {
        match self {
            Object::IriValue(v) => v.clone(),
            _ => default.to_owned(),
        }
    }

    pub fn is_unbound(&self) -> (r: bool)
        ensures
            r == is_unbound_term(self@),
    {
        match self {
            Object::UnboundValue(_) => true,
            _ => false,
        }
    }

    /// The text of the value.
    pub fn to_str(&self) -> (s: String)
        ensures
            s@ == term_text(self@),
    {
        match self {
            Object::BoolValue(b) => if *b { "true".to_owned() } else { "false".to_owned() },
            Object::IntValue(i) => int_to_string(*i),
            Object::FloatValue(f) => float_to_string(*f),
            Object::DateTimeValue(d) => datetime_to_string(d),
            Object::StringValue(v, l) => {
                let a = concat_str("\"", v.as_str());
                if !l.as_str().is_empty() {
                    let b = concat_str(a.as_str(), "\"@");
                    concat_str(b.as_str(), l.as_str())
                } else {
                    concat_str(a.as_str(), "\"")
                }
            },
            Object::TypedValue(v, k) => {
                let a = concat_str("\"", v.as_str());
                let b = concat_str(a.as_str(), "^^\"");
                concat_str(b.as_str(), k.as_str())
            },
            Object::IriValue(v) => {
                let a = concat_str("<", v.as_str());
                concat_str(a.as_str(), ">")
            },
            Object::BlankValue(v) => v.clone(),
            Object::UnboundValue(n) => concat_str(n.as_str(), " unbound"),
            Object::InvalidValue(v, k) => {
                let a = concat_str("'", v.as_str());
                let b = concat_str(a.as_str(), "' is not a valid ");
                concat_str(b.as_str(), k.as_str())
            },
            Object::ErrorValue(e) => e.clone(),
        }
    }

    /// The debugging text of the value, as error messages show it.
    pub fn to_debug_str(&self) -> (s: String)
        ensures
            s@ == term_debug(self@),
    {
        match self {
            Object::BoolValue(b) => if *b { wrap1("BoolValue", "true") } else { wrap1("BoolValue", "false") },
            Object::IntValue(i) => {
                let t = int_to_string(*i);
                wrap1("IntValue", t.as_str())
            },
            Object::FloatValue(f) => {
                let t = float_to_string(*f);
                wrap1("FloatValue", t.as_str())
            },
            Object::DateTimeValue(d) => {
                let t = datetime_debug_string(d);
                wrap1("DateTimeValue", t.as_str())
            },
            Object::StringValue(v, l) => {
                let a = quote(v.as_str());
                let b = quote(l.as_str());
                wrap2("StringValue", a.as_str(), b.as_str())
            },
            Object::TypedValue(v, k) => {
                let a = quote(v.as_str());
                let b = quote(k.as_str());
                wrap2("TypedValue", a.as_str(), b.as_str())
            },
            Object::IriValue(v) => {
                let a = quote(v.as_str());
                wrap1("IriValue", a.as_str())
            },
            Object::BlankValue(v) => {
                let a = quote(v.as_str());
                wrap1("BlankValue", a.as_str())
            },
            Object::UnboundValue(n) => {
                let a = quote(n.as_str());
                wrap1("UnboundValue", a.as_str())
            },
            Object::InvalidValue(v, k) => {
                let a = quote(v.as_str());
                let b = quote(k.as_str());
                wrap2("InvalidValue", a.as_str(), b.as_str())
            },
            Object::ErrorValue(e) => {
                let a = quote(e.as_str());
                wrap1("ErrorValue", a.as_str())
            },
        }
    }

    /// Text for display, using the namespaces' prefixes for typed values and IRIs.
    pub fn to_friendly_str(&self, namespaces: &Vec<Namespace>) -> (s: String)
        ensures
            s@ == term_friendly(self@, ns_view(namespaces@)),
    {
        match self {
            Object::TypedValue(v, k) => {
                let a = concat_str("\"", v.as_str());
                let b = concat_str(a.as_str(), "^^\"");
                let c = contract_uri(namespaces, k.as_str());
                concat_str(b.as_str(), c.as_str())
            },
            Object::IriValue(iri) => {
                let r = contract_uri(namespaces, iri.as_str());
                if !str_eq(r.as_str(), iri.as_str()) {
                    r
                } else {
                    let a = concat_str("<", iri.as_str());
                    concat_str(a.as_str(), ">")
                }
            },
            _ => self.to_str(),
        }
    }
}


// ---- Floating-point bit patterns -------------------------------------------

pub open spec fn float_sign_bit(b: u64) -> bool {
    b >= 0x8000_0000_0000_0000
}

/// The bits below the sign: exponent and fraction.
pub open spec fn float_magnitude(b: u64) -> int {
    (b as int) % 0x8000_0000_0000_0000
}

pub open spec fn float_is_nan(b: u64) -> bool {
    float_magnitude(b) > 0x7FF0_0000_0000_0000
}

pub open spec fn float_is_zero(b: u64) -> bool {
    float_magnitude(b) == 0
}

/// IEEE 754 equality of two binary64 values.
pub open spec fn float_eq(a: u64, b: u64) -> bool {
    !float_is_nan(a) && !float_is_nan(b) && (a == b || (float_is_zero(a) && float_is_zero(b)))
}

/// IEEE 754 "less than" of two binary64 values.
pub open spec fn float_lt(a: u64, b: u64) -> bool {
    if float_is_nan(a) || float_is_nan(b) || (float_is_zero(a) && float_is_zero(b)) {
        false
    } else if !float_sign_bit(a) && !float_sign_bit(b) {
        float_magnitude(a) < float_magnitude(b)
    } else if float_sign_bit(a) && float_sign_bit(b) {
        float_magnitude(a) > float_magnitude(b)
    } else {
        float_sign_bit(a)
    }
}

pub fn float_is_nan_exec(b: u64) -> (r: bool)
    ensures
        r == float_is_nan(b),
{
    b % 0x8000_0000_0000_0000 > 0x7FF0_0000_0000_0000
}

pub fn float_is_zero_exec(b: u64) -> (r: bool)
    ensures
        r == float_is_zero(b),
{
    b % 0x8000_0000_0000_0000 == 0
}

pub fn float_eq_exec(a: u64, b: u64) -> (r: bool)
    ensures
        r == float_eq(a, b),
{
    !float_is_nan_exec(a) && !float_is_nan_exec(b) && (a == b || (float_is_zero_exec(a) && float_is_zero_exec(b)))
}

pub fn float_lt_exec(a: u64, b: u64) -> (r: bool)
    ensures
        r == float_lt(a, b),
{
    let ma = a % 0x8000_0000_0000_0000;
    let mb = b % 0x8000_0000_0000_0000;
    let sa = a >= 0x8000_0000_0000_0000;
    let sb = b >= 0x8000_0000_0000_0000;
    if float_is_nan_exec(a) || float_is_nan_exec(b) || (ma == 0 && mb == 0) {
        false
    } else if !sa && !sb {
        ma < mb
    } else if sa && sb {
        ma > mb
    } else {
        sa
    }
}

/// IEEE 754 negation: the sign bit flipped.
pub open spec fn float_neg(b: u64) -> u64 {
    if float_sign_bit(b) { (b - 0x8000_0000_0000_0000) as u64 } else { (b + 0x8000_0000_0000_0000) as u64 }
}

/// IEEE 754 absolute value: the sign bit cleared.
pub open spec fn float_abs(b: u64) -> u64 {
    float_magnitude(b) as u64
}

pub fn float_neg_exec(b: u64) -> (r: u64)
    ensures
        r == float_neg(b),
{
    if b >= 0x8000_0000_0000_0000 { b - 0x8000_0000_0000_0000 } else { b + 0x8000_0000_0000_0000 }
}

pub fn float_abs_exec(b: u64) -> (r: u64)
    ensures
        r == float_abs(b),
{
    b % 0x8000_0000_0000_0000
}

// ---- Effective boolean value and type errors ------------------------------

/// Effective boolean value (SPARQL 17.2.2).
pub open spec fn ebv_spec(t: Term) -> Result<bool, Seq<char>> {
    match t {
        Term::Invalid(_, _) => Ok(false),
        Term::Bool(v) => Ok(v),
        Term::Str(v, _) => Ok(v.len() > 0),
        Term::Typed(v, _) => Ok(v.len() > 0),
        Term::Int(v) => Ok(v != 0),
        Term::Float(f) => Ok(!float_is_nan(f) && !float_is_zero(f)),
        Term::Unbound(n) => Err("?"@ + n + " is not bound."@),
        Term::Error(e) => Err(e),
        _ => Err(term_debug(t) + " cannot be converted into an effective boolean value."@),
    }
}

/// Effective boolean value, see 17.2.2.
pub fn get_ebv(operand: &Object) -> (r: Result<bool, String>)
    ensures
        match r {
            Ok(b) => ebv_spec(operand@) == Ok::<bool, Seq<char>>(b),
            Err(e) => ebv_spec(operand@) == Err::<bool, Seq<char>>(e@),
        },
{
    match operand {
        Object::InvalidValue(_, _) => Ok(false),
        Object::BoolValue(v) => Ok(*v),
        Object::StringValue(v, _) => Ok(!v.as_str().is_empty()),
        Object::TypedValue(v, _) => Ok(!v.as_str().is_empty()),
        Object::IntValue(v) => Ok(*v != 0),
        Object::FloatValue(f) => Ok(!float_is_nan_exec(*f) && !float_is_zero_exec(*f)),
        Object::UnboundValue(n) => {
            let a = concat_str("?", n.as_str());
            Err(concat_str(a.as_str(), " is not bound."))
        },
        Object::ErrorValue(e) => Err(e.clone()),
        _ => {
            let d = operand.to_debug_str();
            Err(concat_str(d.as_str(), " cannot be converted into an effective boolean value."))
        },
    }
}

/// The message for an operand of the wrong type.
pub open spec fn type_error_spec(fname: Seq<char>, t: Term, expected: Seq<char>) -> Seq<char> {
    match t {
        Term::Unbound(n) => fname + ": ?"@ + n + " was not bound."@,
        Term::Invalid(v, k) => fname + ": '"@ + v + "' is not a valid "@ + k,
        Term::Error(e) => fname + ": "@ + e,
        _ => fname + ": expected "@ + expected + " value but found "@ + term_debug(t) + "."@,
    }
}

pub fn type_error(fname: &str, operand: &Object, expected: &str) -> (r: String)
    ensures
        r@ == type_error_spec(fname@, operand@, expected@),
{
    match operand {
        Object::UnboundValue(n) => {
            let a = concat_str(fname, ": ?");
            let b = concat_str(a.as_str(), n.as_str());
            concat_str(b.as_str(), " was not bound.")
        },
        Object::InvalidValue(v, k) => {
            let a = concat_str(fname, ": '");
            let b = concat_str(a.as_str(), v.as_str());
            let c = concat_str(b.as_str(), "' is not a valid ");
            concat_str(c.as_str(), k.as_str())
        },
        Object::ErrorValue(e) => {
            let a = concat_str(fname, ": ");
            concat_str(a.as_str(), e.as_str())
        },
        _ => {
            let a = concat_str(fname, ": expected ");
            let b = concat_str(a.as_str(), expected);
            let c = concat_str(b.as_str(), " value but found ");
            let d = operand.to_debug_str();
            let e = concat_str(c.as_str(), d.as_str());
            concat_str(e.as_str(), ".")
        },
    }
}


// ---- Literals --------------------------------------------------------------

/// xsd:decimal and the integer types derived from it.
pub open spec fn is_integer_kind(k: Seq<char>) -> bool {
    k == "http://www.w3.org/2001/XMLSchema#decimal"@
        || k == "http://www.w3.org/2001/XMLSchema#integer"@
        || k == "http://www.w3.org/2001/XMLSchema#nonPositiveInteger"@
        || k == "http://www.w3.org/2001/XMLSchema#negativeInteger"@
        || k == "http://www.w3.org/2001/XMLSchema#long"@
        || k == "http://www.w3.org/2001/XMLSchema#int"@
        || k == "http://www.w3.org/2001/XMLSchema#short"@
        || k == "http://www.w3.org/2001/XMLSchema#byte"@
        || k == "http://www.w3.org/2001/XMLSchema#nonNegativeInteger"@
        || k == "http://www.w3.org/2001/XMLSchema#unsignedLong"@
        || k == "http://www.w3.org/2001/XMLSchema#unsignedInt"@
        || k == "http://www.w3.org/2001/XMLSchema#unsignedShort"@
        || k == "http://www.w3.org/2001/XMLSchema#unsignedByte"@
        || k == "http://www.w3.org/2001/XMLSchema#positiveInteger"@
}

/// xsd:float and xsd:double.
pub open spec fn is_float_kind(k: Seq<char>) -> bool {
    k == "http://www.w3.org/2001/XMLSchema#float"@ || k == "http://www.w3.org/2001/XMLSchema#double"@
}

/// xsd:string and the string types derived from it.
pub open spec fn is_string_kind(k: Seq<char>) -> bool {
    k == "http://www.w3.org/2001/XMLSchema#string"@
        || k == "http://www.w3.org/2001/XMLSchema#normalizedString"@
        || k == "http://www.w3.org/2001/XMLSchema#token"@
        || k == "http://www.w3.org/2001/XMLSchema#language"@
        || k == "http://www.w3.org/2001/XMLSchema#Name"@
        || k == "http://www.w3.org/2001/XMLSchema#NCName"@
        || k == "http://www.w3.org/2001/XMLSchema#ID"@
}

fn is_integer_kind_exec(kind: &str) -> (r: bool)
    ensures
        r == is_integer_kind(kind@),
{
    str_eq(kind, "http://www.w3.org/2001/XMLSchema#decimal")
        || str_eq(kind, "http://www.w3.org/2001/XMLSchema#integer")
        || str_eq(kind, "http://www.w3.org/2001/XMLSchema#nonPositiveInteger")
        || str_eq(kind, "http://www.w3.org/2001/XMLSchema#negativeInteger")
        || str_eq(kind, "http://www.w3.org/2001/XMLSchema#long")
        || str_eq(kind, "http://www.w3.org/2001/XMLSchema#int")
        || str_eq(kind, "http://www.w3.org/2001/XMLSchema#short")
        || str_eq(kind, "http://www.w3.org/2001/XMLSchema#byte")
        || str_eq(kind, "http://www.w3.org/2001/XMLSchema#nonNegativeInteger")
        || str_eq(kind, "http://www.w3.org/2001/XMLSchema#unsignedLong")
        || str_eq(kind, "http://www.w3.org/2001/XMLSchema#unsignedInt")
        || str_eq(kind, "http://www.w3.org/2001/XMLSchema#unsignedShort")
        || str_eq(kind, "http://www.w3.org/2001/XMLSchema#unsignedByte")
        || str_eq(kind, "http://www.w3.org/2001/XMLSchema#positiveInteger")
}

fn is_string_kind_exec(kind: &str) -> (r: bool)
    ensures
        r == is_string_kind(kind@),
{
    str_eq(kind, "http://www.w3.org/2001/XMLSchema#string")
        || str_eq(kind, "http://www.w3.org/2001/XMLSchema#normalizedString")
        || str_eq(kind, "http://www.w3.org/2001/XMLSchema#token")
        || str_eq(kind, "http://www.w3.org/2001/XMLSchema#language")
        || str_eq(kind, "http://www.w3.org/2001/XMLSchema#Name")
        || str_eq(kind, "http://www.w3.org/2001/XMLSchema#NCName")
        || str_eq(kind, "http://www.w3.org/2001/XMLSchema#ID")
}

/// The value that `literal_to_object` makes of a lexical form, a datatype IRI and a language.
///
/// A literal of a floating-point datatype (xsd:float, xsd:double) that `strtod` reads whole
/// is kept as a typed literal, since its value would take floating-point arithmetic; one
/// that it does not read whole is invalid.
pub open spec fn literal_spec(v: Seq<char>, k: Seq<char>, l: Seq<char>) -> Term {
    if k == "blank"@ && l.len() == 0 {
        Term::Blank(v)
    } else if k == "http://www.w3.org/2001/XMLSchema#anyURI"@ && l.len() == 0 {
        if "_:"@.is_prefix_of(v) { Term::Blank(v) } else { Term::Iri(v) }
    } else if k == "http://www.w3.org/2001/XMLSchema#boolean"@ && l.len() == 0 {
        if v == "true"@ || v == "1"@ {
            Term::Bool(true)
        } else if v == "false"@ || v == "0"@ {
            Term::Bool(false)
        } else {
            Term::Invalid(v, k)
        }
    } else if k == "http://www.w3.org/2001/XMLSchema#dateTime"@ && l.len() == 0 {
        match datetime_parse(v) {
            Some(d) => Term::DateTime(d),
            None => Term::Error("'"@ + v + "' is not an ISO 8601 dateTime."@),
        }
    } else if is_integer_kind(k) && l.len() == 0 {
        match strtol_whole(v) {
            Some(n) => Term::Int(n),
            None => Term::Invalid(v, k),
        }
    } else if is_float_kind(k) && l.len() == 0 {
        if strtod_whole(v) { Term::Typed(v, k) } else { Term::Invalid(v, k) }
    } else if is_string_kind(k) {
        Term::Str(v, l)
    } else if l.len() == 0 {
        Term::Typed(v, k)
    } else {
        Term::Error("object_to_operand unsupported type: "@ + k + "."@)
    }
}

/// An xsd:boolean literal without a language is a boolean exactly for the lexical forms
/// "true", "1", "false" and "0": true for the first two, false for the others; any other form
/// is an invalid value of that datatype.
pub proof fn law_boolean_literals(v: Seq<char>)
    ensures
        ({
            let k = "http://www.w3.org/2001/XMLSchema#boolean"@;
            let none = Seq::<char>::empty();
            &&& literal_spec("true"@, k, none) == Term::Bool(true)
            &&& literal_spec("1"@, k, none) == Term::Bool(true)
            &&& literal_spec("false"@, k, none) == Term::Bool(false)
            &&& literal_spec("0"@, k, none) == Term::Bool(false)
            &&& (literal_spec(v, k, none) is Bool) <==> (v == "true"@ || v == "1"@ || v == "false"@ || v == "0"@)
            &&& !(v == "true"@ || v == "1"@ || v == "false"@ || v == "0"@) ==> literal_spec(v, k, none) == Term::Invalid(v, k)
        }),
{
    reveal_strlit("http://www.w3.org/2001/XMLSchema#boolean");
    reveal_strlit("http://www.w3.org/2001/XMLSchema#anyURI");
    reveal_strlit("blank");
    reveal_strlit("true");
    reveal_strlit("1");
    reveal_strlit("false");
    reveal_strlit("0");
    let k = "http://www.w3.org/2001/XMLSchema#boolean"@;
    assert(k != "blank"@) by { assert(k.len() != "blank"@.len()); }
    assert(k != "http://www.w3.org/2001/XMLSchema#anyURI"@) by {
        assert(k[33] != "http://www.w3.org/2001/XMLSchema#anyURI"@[33]);
    }
}

/// Converts an arbitrary lexical value to an object.
///
/// Note that it is usually simplest to simply use the object enum directly.
pub fn literal_to_object(value: &str, kind: &str, lang: &str) -> (r: Object)
    ensures
        r@ == literal_spec(value@, kind@, lang@),
{
    let no_lang = lang.is_empty();
    if str_eq(kind, "blank") && no_lang {
        Object::BlankValue(value.to_owned())
    } else if str_eq(kind, "http://www.w3.org/2001/XMLSchema#anyURI") && no_lang {
        if starts_with_str(value, "_:") {
            Object::BlankValue(value.to_owned())
        } else {
            Object::IriValue(value.to_owned())
        }
    } else if str_eq(kind, "http://www.w3.org/2001/XMLSchema#boolean") && no_lang {
        if str_eq(value, "true") || str_eq(value, "1") {
            Object::BoolValue(true)
        } else if str_eq(value, "false") || str_eq(value, "0") {
            Object::BoolValue(false)
        } else {
            Object::InvalidValue(value.to_owned(), kind.to_owned())
        }
    } else if str_eq(kind, "http://www.w3.org/2001/XMLSchema#dateTime") && no_lang {
        match DateTime::parse(value) {
            Some(d) => Object::DateTimeValue(d),
            None => {
                let a = concat_str("'", value);
                Object::ErrorValue(concat_str(a.as_str(), "' is not an ISO 8601 dateTime."))
            },
        }
    } else if is_integer_kind_exec(kind) && no_lang {
        match strtol_whole_exec(value) {
            Some(n) => Object::IntValue(n),
            None => Object::InvalidValue(value.to_owned(), kind.to_owned()),
        }
    } else if (str_eq(kind, "http://www.w3.org/2001/XMLSchema#float") || str_eq(kind, "http://www.w3.org/2001/XMLSchema#double")) && no_lang {
        if strtod_whole_exec(value) {
            Object::TypedValue(value.to_owned(), kind.to_owned())
        } else {
            Object::InvalidValue(value.to_owned(), kind.to_owned())
        }
    } else if is_string_kind_exec(kind) {
        Object::StringValue(value.to_owned(), lang.to_owned())
    } else if no_lang {
        Object::TypedValue(value.to_owned(), kind.to_owned())
    } else {
        let a = concat_str("object_to_operand unsupported type: ", kind);
        Object::ErrorValue(concat_str(a.as_str(), "."))
    }
}

} // verus!
