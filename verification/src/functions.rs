//! The SPARQL functions on strings, terms, numbers and dates, and the functional forms that
//! take evaluated arguments.
use vstd::prelude::*;
use crate::datetime::DateTime;
use crate::float::{unit_fraction_spec, unit_fraction_bits};
use crate::object::{Object, Term, terms, term_debug, term_text, float_abs, float_abs_exec};
use crate::text::{
    concat_str, lower_seq, upper_seq, lower_str, upper_str, find_first, find_str, starts_with_str,
    ends_with_str, str_eq, chars_of, string_of_range, int_to_string, int_text, nat_to_string,
    nat_digits, hex_digits, hex_to_string, push_char,
};

verus! {

/// An error naming the offending value: the prefix, the value's debugging text and a period.
pub open spec fn found_error(prefix: Seq<char>, t: Term) -> Term {
    Term::Error(prefix + term_debug(t) + "."@)
}

/// Like `found_error`, without the period.
pub open spec fn found_error_bare(prefix: Seq<char>, t: Term) -> Term {
    Term::Error(prefix + term_debug(t))
}

fn found_err(prefix: &str, o: &Object) -> (r: Object)
    ensures
        r@ == found_error(prefix@, o@),
{
    let d = o.to_debug_str();
    let a = concat_str(prefix, d.as_str());
    Object::ErrorValue(concat_str(a.as_str(), "."))
}

fn found_err_bare(prefix: &str, o: &Object) -> (r: Object)
    ensures
        r@ == found_error_bare(prefix@, o@),
{
    let d = o.to_debug_str();
    Object::ErrorValue(concat_str(prefix, d.as_str()))
}

// ---- Strings ----------------------------------------------------------------------------

/// Checks that both arguments are strings with compatible languages (equal ignoring case, or
/// the second without one): their values and languages, or the error to return.
pub open spec fn str_str_spec(fname: Seq<char>, a: Term, b: Term) -> Result<(Seq<char>, Seq<char>, Seq<char>, Seq<char>), Term> {
    match a {
        Term::Str(v1, l1) => match b {
            Term::Str(v2, l2) => if lower_seq(l1) == lower_seq(l2) || l2.len() == 0 {
                Ok((v1, v2, l1, l2))
            } else {
                Err(Term::Error(fname + ": '"@ + l1 + "' and '"@ + l2 + "' are incompatible languages."@))
            },
            _ => Err(found_error(fname + ": expected string for arg2 but found "@, b)),
        },
        _ => Err(found_error(fname + ": expected string for arg1 but found "@, a)),
    }
}

pub fn str_str_helper(fname: &str, arg1: &Object, arg2: &Object) -> (r: Result<(String, String, String, String), Object>)
    ensures
        match r {
            Ok(x) => str_str_spec(fname@, arg1@, arg2@) == Ok::<_, Term>((x.0@, x.1@, x.2@, x.3@)),
            Err(e) => str_str_spec(fname@, arg1@, arg2@) == Err::<(Seq<char>, Seq<char>, Seq<char>, Seq<char>), Term>(e@),
        },
{
    match arg1 {
        Object::StringValue(v1, l1) => match arg2 {
            Object::StringValue(v2, l2) => {
                let a = lower_str(l1.as_str());
                let b = lower_str(l2.as_str());
                let l2_len = chars_of(l2.as_str()).len();
                if str_eq(a.as_str(), b.as_str()) || l2_len == 0 {
                    Ok((v1.clone(), v2.clone(), l1.clone(), l2.clone()))
                } else {
                    proof {
                        assert(l2@.len() != 0);
                    }
                    let x = concat_str(fname, ": '");
                    let y = concat_str(x.as_str(), l1.as_str());
                    let z = concat_str(y.as_str(), "' and '");
                    let w = concat_str(z.as_str(), l2.as_str());
                    Err(Object::ErrorValue(concat_str(w.as_str(), "' are incompatible languages.")))
                }
            },
            _ => {
                let p = concat_str(fname, ": expected string for arg2 but found ");
                Err(found_err(p.as_str(), arg2))
            },
        },
        _ => {
            let p = concat_str(fname, ": expected string for arg1 but found ");
            Err(found_err(p.as_str(), arg1))
        },
    }
}

pub open spec fn strlen_spec(t: Term) -> Term {
    match t {
        Term::Str(v, _) => Term::Int(v.len() as i64),
        _ => found_error("STRLEN: expected string but found "@, t),
    }
}

/// The number of characters of a string.
pub fn strlen_fn(operand: &Object) -> (r: Object)
    ensures
        r@ == strlen_spec(operand@),
{
    match operand {
        Object::StringValue(v, _) => {
            let c = chars_of(v.as_str());
            Object::IntValue(c.len() as i64)
        },
        _ => found_err("STRLEN: expected string but found ", operand),
    }
}

pub open spec fn substr2_spec(value: Term, loc: Term) -> Term {
    match value {
        Term::Str(src, lang) => match loc {
            Term::Int(l) => if l >= 1 && l - 1 <= src.len() {
                Term::Str(src.subrange(l - 1, src.len() as int), lang)
            } else if l == 0 {
                Term::Error("SUBSTR: startingLoc should be 1 or larger not "@ + int_text(l as int) + "."@)
            } else if l < 0 {
                Term::Error("SUBSTR: startingLoc is "@ + int_text(l as int) + "."@)
            } else {
                Term::Error("SUBSTR: startingLoc of "@ + int_text(l as int) + " is past the end of the string."@)
            },
            _ => found_error("SUBSTR: expected int for startingLoc but found "@, loc),
        },
        _ => found_error("SUBSTR: expected string for source but found "@, value),
    }
}

fn loc_error(l: i64) -> (r: Object)
    requires
        l < 1,
    ensures
        r@ == (if l == 0 {
            Term::Error("SUBSTR: startingLoc should be 1 or larger not "@ + int_text(l as int) + "."@)
        } else {
            Term::Error("SUBSTR: startingLoc is "@ + int_text(l as int) + "."@)
        }),
{
    let n = int_to_string(l);
    if l == 0 {
        let a = concat_str("SUBSTR: startingLoc should be 1 or larger not ", n.as_str());
        Object::ErrorValue(concat_str(a.as_str(), "."))
    } else {
        let a = concat_str("SUBSTR: startingLoc is ", n.as_str());
        Object::ErrorValue(concat_str(a.as_str(), "."))
    }
}

/// The characters of a string from a 1-based position to the end.
pub fn substr2_fn(value: &Object, loc: &Object) -> (r: Object)
    ensures
        r@ == substr2_spec(value@, loc@),
{
    match value {
        Object::StringValue(source, lang) => match loc {
            Object::IntValue(l) => {
                let l = *l;
                let chars = chars_of(source.as_str());
                if l >= 1 && ((l - 1) as u64) <= (chars.len() as u64) {
                    let begin = (l - 1) as usize;
                    Object::StringValue(string_of_range(&chars, begin, chars.len()), lang.clone())
                } else if l < 1 {
                    loc_error(l)
                } else {
                    let n = int_to_string(l);
                    let a = concat_str("SUBSTR: startingLoc of ", n.as_str());
                    Object::ErrorValue(concat_str(a.as_str(), " is past the end of the string."))
                }
            },
            _ => found_err("SUBSTR: expected int for startingLoc but found ", loc),
        },
        _ => found_err("SUBSTR: expected string for source but found ", value),
    }
}

pub open spec fn substr3_spec(value: Term, loc: Term, len: Term) -> Term {
    match value {
        Term::Str(src, lang) => match loc {
            Term::Int(l) => match len {
                Term::Int(n) => if l >= 1 && n >= 0 && l - 1 + n <= src.len() {
                    Term::Str(src.subrange(l - 1, l - 1 + n), lang)
                } else if l == 0 {
                    Term::Error("SUBSTR: startingLoc should be 1 or larger not "@ + int_text(l as int) + "."@)
                } else if l < 0 {
                    Term::Error("SUBSTR: startingLoc is "@ + int_text(l as int) + "."@)
                } else {
                    Term::Error("SUBSTR: startingLoc of "@ + int_text(l as int) + " and length "@
                        + int_text(n as int) + " is past the end of the string."@)
                },
                _ => found_error("SUBSTR: expected int for length but found "@, len),
            },
            _ => found_error("SUBSTR: expected int for startingLoc but found "@, loc),
        },
        _ => found_error("SUBSTR: expected string for source but found "@, value),
    }
}

/// The characters of a string from a 1-based position, for a length.
pub fn substr3_fn(value: &Object, loc: &Object, len: &Object) -> (r: Object)
    ensures
        r@ == substr3_spec(value@, loc@, len@),
{
    match value {
        Object::StringValue(source, lang) => match loc {
            Object::IntValue(l) => match len {
                Object::IntValue(n) => {
                    let l = *l;
                    let n = *n;
                    let chars = chars_of(source.as_str());
                    if l >= 1 && n >= 0 && (l - 1) as u64 <= chars.len() as u64
                        && (n as u64) <= (chars.len() as u64) - ((l - 1) as u64) {
                        let begin = (l - 1) as usize;
                        let end = begin + n as usize;
                        Object::StringValue(string_of_range(&chars, begin, end), lang.clone())
                    } else if l < 1 {
                        loc_error(l)
                    } else {
                        let a = int_to_string(l);
                        let b = int_to_string(n);
                        let x = concat_str("SUBSTR: startingLoc of ", a.as_str());
                        let y = concat_str(x.as_str(), " and length ");
                        let z = concat_str(y.as_str(), b.as_str());
                        Object::ErrorValue(concat_str(z.as_str(), " is past the end of the string."))
                    }
                },
                _ => found_err("SUBSTR: expected int for length but found ", len),
            },
            _ => found_err("SUBSTR: expected int for startingLoc but found ", loc),
        },
        _ => found_err("SUBSTR: expected string for source but found ", value),
    }
}

pub open spec fn ucase_spec(t: Term) -> Term {
    match t {
        Term::Str(v, l) => Term::Str(upper_seq(v), l),
        _ => found_error("UCASE: expected string but found "@, t),
    }
}

pub fn ucase_fn(operand: &Object) -> (r: Object)
    ensures
        r@ == ucase_spec(operand@),
{
    match operand {
        Object::StringValue(v, l) => Object::StringValue(upper_str(v.as_str()), l.clone()),
        _ => found_err("UCASE: expected string but found ", operand),
    }
}

pub open spec fn lcase_spec(t: Term) -> Term {
    match t {
        Term::Str(v, l) => Term::Str(lower_seq(v), l),
        _ => found_error("LCASE: expected string but found "@, t),
    }
}

pub fn lcase_fn(operand: &Object) -> (r: Object)
    ensures
        r@ == lcase_spec(operand@),
{
    match operand {
        Object::StringValue(v, l) => Object::StringValue(lower_str(v.as_str()), l.clone()),
        _ => found_err("LCASE: expected string but found ", operand),
    }
}

pub open spec fn strstarts_spec(a: Term, b: Term) -> Term {
    match str_str_spec("STRSTARTS"@, a, b) {
        Ok(x) => Term::Bool(x.1.is_prefix_of(x.0)),
        Err(e) => e,
    }
}

pub fn strstarts_fn(arg1: &Object, arg2: &Object) -> (r: Object)
    ensures
        r@ == strstarts_spec(arg1@, arg2@),
{
    match str_str_helper("STRSTARTS", arg1, arg2) {
        Ok(x) => Object::BoolValue(starts_with_str(x.0.as_str(), x.1.as_str())),
        Err(e) => e,
    }
}

pub open spec fn strends_spec(a: Term, b: Term) -> Term {
    match str_str_spec("STRENDS"@, a, b) {
        Ok(x) => Term::Bool(x.1.is_suffix_of(x.0)),
        Err(e) => e,
    }
}

pub fn strends_fn(arg1: &Object, arg2: &Object) -> (r: Object)
    ensures
        r@ == strends_spec(arg1@, arg2@),
{
    match str_str_helper("STRENDS", arg1, arg2) {
        Ok(x) => Object::BoolValue(ends_with_str(x.0.as_str(), x.1.as_str())),
        Err(e) => e,
    }
}

pub open spec fn contains_spec(a: Term, b: Term) -> Term {
    match str_str_spec("CONTAINS"@, a, b) {
        Ok(x) => Term::Bool(find_first(x.0, x.1) is Some),
        Err(e) => e,
    }
}

pub fn contains_fn(arg1: &Object, arg2: &Object) -> (r: Object)
    ensures
        r@ == contains_spec(arg1@, arg2@),
{
    match str_str_helper("CONTAINS", arg1, arg2) {
        Ok(x) => Object::BoolValue(find_str(x.0.as_str(), x.1.as_str()).is_some()),
        Err(e) => e,
    }
}

pub open spec fn strbefore_spec(a: Term, b: Term) -> Term {
    match str_str_spec("STRBEFORE"@, a, b) {
        Ok(x) => match find_first(x.0, x.1) {
            Some(i) => Term::Str(x.0.take(i), x.2),
            None => Term::Str(Seq::empty(), Seq::empty()),
        },
        Err(e) => e,
    }
}

pub fn strbefore_fn(arg1: &Object, arg2: &Object) -> (r: Object)
    ensures
        r@ == strbefore_spec(arg1@, arg2@),
{
    match str_str_helper("STRBEFORE", arg1, arg2) {
        Ok(x) => match find_str(x.0.as_str(), x.1.as_str()) {
            Some(i) => {
                let chars = chars_of(x.0.as_str());
                proof {
                    lemma_find_first_bound(x.0@, x.1@);
                    assert(chars@.subrange(0, i as int) =~= x.0@.take(i as int));
                }
                Object::StringValue(string_of_range(&chars, 0, i), x.2)
            },
            None => Object::StringValue(String::new(), String::new()),
        },
        Err(e) => e,
    }
}

pub open spec fn strafter_spec(a: Term, b: Term) -> Term {
    match str_str_spec("STRAFTER"@, a, b) {
        Ok(x) => match find_first(x.0, x.1) {
            Some(i) => Term::Str(x.0.skip(i + x.1.len()), x.2),
            None => Term::Str(Seq::empty(), Seq::empty()),
        },
        Err(e) => e,
    }
}

pub fn strafter_fn(arg1: &Object, arg2: &Object) -> (r: Object)
    ensures
        r@ == strafter_spec(arg1@, arg2@),
{
    match str_str_helper("STRAFTER", arg1, arg2) {
        Ok(x) => match find_str(x.0.as_str(), x.1.as_str()) {
            Some(i) => {
                let chars = chars_of(x.0.as_str());
                let n = chars_of(x.1.as_str()).len();
                let total = chars.len();
                proof {
                    lemma_find_first_bound(x.0@, x.1@);
                    assert(find_first(x.0@, x.1@) == Some(i as int));
                    assert(n == x.1@.len());
                    assert(chars@.len() == x.0@.len());
                    assert(i + n <= chars@.len());
                    assert(chars@.subrange(i + n, chars@.len() as int) =~= x.0@.skip(i + x.1@.len()));
                }
                Object::StringValue(string_of_range(&chars, i + n, total), x.2)
            },
            None => Object::StringValue(String::new(), String::new()),
        },
        Err(e) => e,
    }
}

/// Where a needle is found it fits in the text.
pub proof fn lemma_find_first_bound(hay: Seq<char>, needle: Seq<char>)
    ensures
        find_first(hay, needle) matches Some(i) ==> 0 <= i && i + needle.len() <= hay.len(),
{
    lemma_find_from_bound(hay, needle, 0);
}

proof fn lemma_find_from_bound(hay: Seq<char>, needle: Seq<char>, i: int)
    ensures
        crate::text::find_from(hay, needle, i) matches Some(j) ==> 0 <= j && j + needle.len() <= hay.len(),
    decreases hay.len() + 1 - i,
{
    if !(i < 0 || i + needle.len() > hay.len()) && !crate::text::occurs_at(hay, needle, i) {
        lemma_find_from_bound(hay, needle, i + 1);
    }
}

proof fn lemma_find_from_occurs(hay: Seq<char>, needle: Seq<char>, i: int)
    ensures
        crate::text::find_from(hay, needle, i) matches Some(j) ==> crate::text::occurs_at(hay, needle, j),
    decreases hay.len() + 1 - i,
{
    if !(i < 0 || i + needle.len() > hay.len()) && !crate::text::occurs_at(hay, needle, i) {
        lemma_find_from_occurs(hay, needle, i + 1);
    }
}

/// STRBEFORE and STRAFTER put a string back together: where the second string occurs in
/// the first, what comes before its first occurrence, the second string and what comes after
/// it make up the first (both in the first's language); where it does not occur, both give
/// the empty string.
pub proof fn law_strbefore_strafter(v1: Seq<char>, l1: Seq<char>, v2: Seq<char>, l2: Seq<char>)
    requires
        lower_seq(l1) == lower_seq(l2) || l2.len() == 0,
    ensures
        ({
            let a = Term::Str(v1, l1);
            let b = Term::Str(v2, l2);
            match find_first(v1, v2) {
                Some(i) => {
                    &&& strbefore_spec(a, b) == Term::Str(v1.take(i), l1)
                    &&& strafter_spec(a, b) == Term::Str(v1.skip(i + v2.len()), l1)
                    &&& v1.take(i) + v2 + v1.skip(i + v2.len()) == v1
                },
                None => {
                    &&& strbefore_spec(a, b) == Term::Str(Seq::empty(), Seq::empty())
                    &&& strafter_spec(a, b) == Term::Str(Seq::empty(), Seq::empty())
                },
            }
        }),
{
    lemma_find_first_bound(v1, v2);
    lemma_find_from_occurs(v1, v2, 0);
    if let Some(i) = find_first(v1, v2) {
        assert(v1.subrange(i, i + v2.len()) == v2);
        assert(v1.take(i) + v2 + v1.skip(i + v2.len()) =~= v1);
    }
}

/// STRLEN counts characters; SUBSTR picks the characters from a 1-based start (all the rest,
/// or a given number of them), in the source's language; UCASE leaves no lower-case ASCII
/// letter and LCASE no upper-case one, each keeping the length and what lower-casing gives;
/// CONCAT of two strings joins their texts.
pub proof fn law_string_functions(v: Seq<char>, l: Seq<char>, w: Seq<char>, m: Seq<char>, start: i64, n: i64)
    requires
        v.len() <= i64::MAX,
    ensures
        strlen_spec(Term::Str(v, l)) == Term::Int(v.len() as i64),
        1 <= start && start - 1 <= v.len() ==> (substr2_spec(Term::Str(v, l), Term::Int(start)) matches Term::Str(t, tl)
            && tl == l && v == v.take(start - 1) + t),
        1 <= start && 0 <= n && start - 1 + n <= v.len() ==> (substr3_spec(Term::Str(v, l), Term::Int(start), Term::Int(n))
            matches Term::Str(t, tl) && tl == l && t.len() == n
            && forall|i: int| 0 <= i < n ==> #[trigger] t[i] == v[start - 1 + i]),
        ucase_spec(Term::Str(v, l)) matches Term::Str(t, tl) && tl == l && t.len() == v.len()
            && lower_seq(t) == lower_seq(v) && forall|i: int| 0 <= i < t.len() ==> !('a' <= #[trigger] t[i] <= 'z'),
        lcase_spec(Term::Str(v, l)) matches Term::Str(t, tl) && tl == l && t.len() == v.len()
            && upper_seq(t) == upper_seq(v) && forall|i: int| 0 <= i < t.len() ==> !('A' <= #[trigger] t[i] <= 'Z'),
        concat_spec(seq![Term::Str(v, l), Term::Str(w, m)]) matches Term::Str(t, _) && t == v + w,
{
    if 1 <= start && start - 1 <= v.len() {
        assert(v =~= v.take(start - 1) + v.subrange(start - 1, v.len() as int));
    }
    let u = upper_seq(v);
    assert(lower_seq(u) =~= lower_seq(v)) by {
        assert forall|i: int| 0 <= i < v.len() implies lower_seq(u)[i] == lower_seq(v)[i] by {
            let c = v[i];
            if 'a' <= c && c <= 'z' {
                assert(((c as u32) - 32) as char == crate::text::upper_char(c));
                assert(crate::text::lower_char(crate::text::upper_char(c)) == c);
            }
        }
    }
    let d = lower_seq(v);
    assert(upper_seq(d) =~= upper_seq(v)) by {
        assert forall|i: int| 0 <= i < v.len() implies upper_seq(d)[i] == upper_seq(v)[i] by {
            let c = v[i];
            if 'A' <= c && c <= 'Z' {
                assert(crate::text::upper_char(crate::text::lower_char(c)) == c);
            }
        }
    }
    let ts = seq![Term::Str(v, l), Term::Str(w, m)];
    lemma_first_non_string(ts);
    let t1 = ts.drop_last();
    assert(t1.drop_last() =~= Seq::<Term>::empty());
    assert(t1.last() == Term::Str(v, l));
    assert(joined_values(t1.drop_last()) == Seq::<char>::empty());
    assert(joined_values(t1) == joined_values(t1.drop_last()) + v);
    assert(joined_values(t1) =~= v);
    assert(ts.last() == Term::Str(w, m));
}

proof fn lemma_find_from_finds(hay: Seq<char>, needle: Seq<char>, i: int, j: int)
    requires
        0 <= i <= j,
        crate::text::occurs_at(hay, needle, j),
    ensures
        crate::text::find_from(hay, needle, i) is Some,
    decreases j - i,
{
    if !crate::text::occurs_at(hay, needle, i) {
        lemma_find_from_finds(hay, needle, i + 1, j);
    }
}

/// STRSTARTS, STRENDS and CONTAINS test where the second string stands in the first: at its
/// start, at its end, or anywhere (for strings whose languages are compatible).
pub proof fn law_string_tests(v1: Seq<char>, l1: Seq<char>, v2: Seq<char>, l2: Seq<char>)
    requires
        lower_seq(l1) == lower_seq(l2) || l2.len() == 0,
    ensures
        strstarts_spec(Term::Str(v1, l1), Term::Str(v2, l2))
            == Term::Bool(exists|x: Seq<char>| #![trigger v2 + x] v1 == v2 + x),
        strends_spec(Term::Str(v1, l1), Term::Str(v2, l2))
            == Term::Bool(exists|x: Seq<char>| #![trigger x + v2] v1 == x + v2),
        contains_spec(Term::Str(v1, l1), Term::Str(v2, l2))
            == Term::Bool(exists|p: Seq<char>, q: Seq<char>| #![trigger p + v2 + q] v1 == p + v2 + q),
{
    let n = v2.len();
    if v2.is_prefix_of(v1) {
        assert(v1 == v2 + v1.skip(n as int));
    } else {
        assert forall|x: Seq<char>| #![trigger v2 + x] v1 != v2 + x by {
            if v1 == v2 + x {
                assert(v1.subrange(0, n as int) =~= v2);
            }
        }
    }
    if v2.is_suffix_of(v1) {
        assert(v1 == v1.take(v1.len() - n) + v2);
    } else {
        assert forall|x: Seq<char>| #![trigger x + v2] v1 != x + v2 by {
            if v1 == x + v2 {
                assert(v1.subrange(v1.len() - n, v1.len() as int) =~= v2);
            }
        }
    }
    lemma_find_first_bound(v1, v2);
    lemma_find_from_occurs(v1, v2, 0);
    if let Some(i) = find_first(v1, v2) {
        assert(v1.subrange(i, i + n) == v2);
        assert(v1 == v1.take(i) + v2 + v1.skip(i + n));
    } else {
        assert forall|p: Seq<char>, q: Seq<char>| #![trigger p + v2 + q] v1 != p + v2 + q by {
            if v1 == p + v2 + q {
                assert(v1.subrange(p.len() as int, (p.len() + n) as int) =~= v2);
                lemma_find_from_finds(v1, v2, 0, p.len() as int);
            }
        }
    }
}

/// sameTerm holds of two values that are not binary64 exactly when they are the same value,
/// or two strings with one text whose languages differ only in case.
pub proof fn law_sameterm(a: Term, b: Term)
    requires
        a is Bool || a is Int || a is DateTime || a is Str || a is Typed || a is Iri || a is Blank,
    ensures
        sameterm_spec(a, b) <==> (a == b || (a matches Term::Str(v1, l1) && b matches Term::Str(v2, l2)
            && v1 == v2 && lower_seq(l1) == lower_seq(l2))),
        sameterm_spec(a, b) == sameterm_spec(b, a),
{
}

pub open spec fn unreserved(ch: char) -> bool {
    ('a' <= ch && ch <= 'z') || ('A' <= ch && ch <= 'Z') || ('0' <= ch && ch <= '9')
        || ch == '-' || ch == '_' || ch == '.' || ch == '~'
}

/// Whether a character may appear unescaped in a URI.
pub fn is_unreserved(ch: char) -> (r: bool)
    ensures
        r == unreserved(ch),
{
    if ch >= 'a' && ch <= 'z' {
        true
    } else if ch >= 'A' && ch <= 'Z' {
        true
    } else if ch >= '0' && ch <= '9' {
        true
    } else {
        ch == '-' || ch == '_' || ch == '.' || ch == '~'
    }
}

/// Percent-encoding: unreserved characters stay, others become '%' and the code point in
/// upper-case hexadecimal.
pub open spec fn encode_seq(s: Seq<char>) -> Seq<char>
    decreases s.len(),
{
    if s.len() == 0 {
        Seq::empty()
    } else {
        let c = s.last();
        encode_seq(s.drop_last()) + if unreserved(c) { seq![c] } else { "%"@ + hex_digits((c as u32) as nat) }
    }
}

pub open spec fn encode_for_uri_spec(t: Term) -> Term {
    match t {
        Term::Str(v, l) => Term::Str(encode_seq(v), l),
        _ => found_error("ENCODE_FOR_URI: expected string but found "@, t),
    }
}

pub fn encode_for_uri_fn(operand: &Object) -> (r: Object)
    ensures
        r@ == encode_for_uri_spec(operand@),
{
    match operand {
        Object::StringValue(value, lang) => {
            let chars = chars_of(value.as_str());
            let mut out = String::new();
            let mut i: usize = 0;
            while i < chars.len()
                invariant
                    i <= chars.len(),
                    out@ == encode_seq(chars@.take(i as int)),
                decreases chars.len() - i,
            {
                let c = chars[i];
                if is_unreserved(c) {
                    push_char(&mut out, c);
                } else {
                    let h = hex_to_string(c as u32 as u64);
                    assert((c as u32 as u64) as nat == (c as u32) as nat);
                    let e = concat_str("%", h.as_str());
                    out = concat_str(out.as_str(), e.as_str());
                }
                i += 1;
                proof {
                    assert(chars@.take(i as int).drop_last() =~= chars@.take(i - 1));
                    assert(chars@.take(i as int).last() == c);
                }
            }
            proof {
                assert(chars@.take(chars.len() as int) =~= value@);
            }
            Object::StringValue(out, lang.clone())
        },
        _ => found_err("ENCODE_FOR_URI: expected string but found ", operand),
    }
}

/// The position of the first argument that is not a string, if any.
pub open spec fn first_non_string(ts: Seq<Term>) -> Option<int>
    decreases ts.len(),
{
    if ts.len() == 0 {
        None
    } else {
        match first_non_string(ts.drop_last()) {
            Some(i) => Some(i),
            None => if ts.last() is Str { None } else { Some(ts.len() - 1) },
        }
    }
}

/// The values of string terms, joined.
pub open spec fn joined_values(ts: Seq<Term>) -> Seq<char>
    decreases ts.len(),
{
    if ts.len() == 0 {
        Seq::empty()
    } else {
        joined_values(ts.drop_last()) + match ts.last() {
            Term::Str(v, _) => v,
            _ => Seq::empty(),
        }
    }
}

pub open spec fn lang_of(t: Term) -> Seq<char> {
    match t {
        Term::Str(_, l) => l,
        _ => Seq::empty(),
    }
}

/// The language shared by all the strings, or none when there are none or they differ.
pub open spec fn common_lang(ts: Seq<Term>) -> Seq<char> {
    if ts.len() > 0 && forall|i: int| 0 <= i < ts.len() ==> lang_of(#[trigger] ts[i]) == lang_of(ts[0]) {
        lang_of(ts[0])
    } else {
        Seq::empty()
    }
}

pub open spec fn concat_spec(ts: Seq<Term>) -> Term {
    match first_non_string(ts) {
        Some(i) => Term::Error("CONCAT: expected string for argument "@ + nat_digits(i as nat) + " but found "@
            + term_debug(ts[i]) + "."@),
        None => Term::Str(joined_values(ts), common_lang(ts)),
    }
}

pub proof fn lemma_first_non_string(ts: Seq<Term>)
    ensures
        match first_non_string(ts) {
            Some(i) => 0 <= i < ts.len() && !(ts[i] is Str) && forall|k: int| 0 <= k < i ==> ts[k] is Str,
            None => forall|k: int| 0 <= k < ts.len() ==> ts[k] is Str,
        },
    decreases ts.len(),
{
    if ts.len() > 0 {
        let p = ts.drop_last();
        lemma_first_non_string(p);
        assert forall|k: int| 0 <= k < p.len() implies ts[k] == p[k] by {}
    }
}

/// Joins string arguments; the language is kept when all the arguments share it.
pub fn concat_fn(operand: &Vec<Object>) -> (r: Object)
    ensures
        r@ == concat_spec(terms(operand@)),
{
    let ghost ts = terms(operand@);
    let mut out = String::new();
    let mut lang = String::new();
    let mut same = true;
    let mut i: usize = 0;
    while i < operand.len()
        invariant
            i <= operand.len(),
            ts == terms(operand@),
            first_non_string(ts.take(i as int)) is None,
            out@ == joined_values(ts.take(i as int)),
            i > 0 ==> lang@ == lang_of(ts[0]),
            same == (forall|k: int| 0 <= k < i ==> lang_of(#[trigger] ts[k]) == lang_of(ts[0])),
        decreases operand.len() - i,
    {
        proof {
            assert(ts.take(i + 1).drop_last() =~= ts.take(i as int));
            assert(ts.take(i + 1).last() == ts[i as int]);
        }
        match &operand[i] {
            Object::StringValue(v, l) => {
                out = concat_str(out.as_str(), v.as_str());
                if i == 0 {
                    lang = l.clone();
                } else if !str_eq(l.as_str(), lang.as_str()) {
                    same = false;
                }
                proof {
                    if i == 0 {
                        assert(lang_of(ts[0]) == l@);
                    }
                }
            },
            _ => {
                proof {
                    assert(first_non_string(ts.take(i + 1)) == Some(i as int));
                    lemma_first_non_string(ts);
                    lemma_first_non_string(ts.take(i + 1));
                    assert forall|k: int| 0 <= k < i implies ts[k] is Str by {
                        assert(ts.take(i + 1)[k] == ts[k]);
                    }
                    lemma_first_non_string_prefix(ts, i as int);
                }
                let n = nat_to_string(i as u64);
                let d = operand[i].to_debug_str();
                let a = concat_str("CONCAT: expected string for argument ", n.as_str());
                let b = concat_str(a.as_str(), " but found ");
                let c = concat_str(b.as_str(), d.as_str());
                return Object::ErrorValue(concat_str(c.as_str(), "."));
            },
        }
        i += 1;
    }
    proof {
        assert(ts.take(operand.len() as int) =~= ts);
    }
    if same && operand.len() > 0 {
        Object::StringValue(out, lang)
    } else {
        Object::StringValue(out, String::new())
    }
}

proof fn lemma_first_non_string_prefix(ts: Seq<Term>, i: int)
    requires
        0 <= i < ts.len(),
        !(ts[i] is Str),
        forall|k: int| 0 <= k < i ==> ts[k] is Str,
    ensures
        first_non_string(ts) == Some(i),
{
    lemma_first_non_string(ts);
    match first_non_string(ts) {
        Some(j) => {
            if j < i {
            } else if j > i {
            }
        },
        None => {},
    }
}

pub open spec fn langmatches_spec(a: Term, b: Term) -> Term {
    match a {
        Term::Str(_, l1) => match b {
            Term::Str(_, l2) => Term::Bool(lower_seq(l1) == lower_seq(l2)),
            _ => found_error("LANGMATCHES: expected string for arg2 but found "@, b),
        },
        _ => found_error("LANGMATCHES: expected string for arg1 but found "@, a),
    }
}

pub fn langmatches_fn(arg1: &Object, arg2: &Object) -> (r: Object)
    ensures
        r@ == langmatches_spec(arg1@, arg2@),
{
    match arg1 {
        Object::StringValue(_, l1) => match arg2 {
            Object::StringValue(_, l2) => {
                let a = lower_str(l1.as_str());
                let b = lower_str(l2.as_str());
                Object::BoolValue(str_eq(a.as_str(), b.as_str()))
            },
            _ => found_err("LANGMATCHES: expected string for arg2 but found ", arg2),
        },
        _ => found_err("LANGMATCHES: expected string for arg1 but found ", arg1),
    }
}

// ---- Terms ------------------------------------------------------------------------------

pub fn isiri_fn(operand: &Object) -> (r: Object)
    ensures
        r@ == Term::Bool(operand@ is Iri),
{
    Object::BoolValue(match operand {
        Object::IriValue(_) => true,
        _ => false,
    })
}

pub fn isblank_fn(operand: &Object) -> (r: Object)
    ensures
        r@ == Term::Bool(operand@ is Blank),
{
    Object::BoolValue(match operand {
        Object::BlankValue(_) => true,
        _ => false,
    })
}

/// Whether a term is a literal: a boolean, number, dateTime, string or typed value.
pub open spec fn is_literal(t: Term) -> bool {
    t is Bool || t is Int || t is Float || t is DateTime || t is Str || t is Typed
}

/// Whether a term is a simple literal: a literal other than a typed value.
pub open spec fn is_simple_literal(t: Term) -> bool {
    t is Bool || t is Int || t is Float || t is DateTime || t is Str
}

pub fn isliteral_fn(operand: &Object) -> (r: Object)
    ensures
        r@ == Term::Bool(is_literal(operand@)),
{
    Object::BoolValue(match operand {
        Object::BoolValue(_) | Object::IntValue(_) | Object::FloatValue(_) | Object::DateTimeValue(_)
        | Object::StringValue(_, _) | Object::TypedValue(_, _) => true,
        _ => false,
    })
}

pub fn isnumeric_fn(operand: &Object) -> (r: Object)
    ensures
        r@ == Term::Bool(operand@ is Int || operand@ is Float),
{
    Object::BoolValue(match operand {
        Object::IntValue(_) | Object::FloatValue(_) => true,
        _ => false,
    })
}

/// The text of a value as a plain string.
pub fn str_fn(operand: &Object) -> (r: Object)
    ensures
        r@ == Term::Str(term_text(operand@), Seq::empty()),
{
    Object::StringValue(operand.to_str(), String::new())
}

pub fn lang_fn(operand: &Object) -> (r: Object)
    ensures
        r@ == Term::Str(lang_of(operand@), Seq::empty()),
{
    match operand {
        Object::StringValue(_, l) => Object::StringValue(l.clone(), String::new()),
        _ => Object::StringValue(String::new(), String::new()),
    }
}

pub open spec fn datatype_spec(t: Term) -> Term {
    match t {
        Term::Bool(_) => Term::Str("http://www.w3.org/2001/XMLSchema#boolean"@, Seq::empty()),
        Term::Int(_) => Term::Str("http://www.w3.org/2001/XMLSchema#integer"@, Seq::empty()),
        Term::Float(_) => Term::Str("http://www.w3.org/2001/XMLSchema#double"@, Seq::empty()),
        Term::DateTime(_) => Term::Str("http://www.w3.org/2001/XMLSchema#dateTime"@, Seq::empty()),
        Term::Str(_, _) => Term::Str("http://www.w3.org/2001/XMLSchema#string"@, Seq::empty()),
        Term::Typed(_, k) => Term::Str(k, Seq::empty()),
        Term::Iri(_) => Term::Str("http://www.w3.org/2001/XMLSchema#anyURI"@, Seq::empty()),
        _ => found_error_bare("DATATYPE: can't get a type for "@, t),
    }
}

pub fn datatype_fn(operand: &Object) -> (r: Object)
    ensures
        r@ == datatype_spec(operand@),
{
    match operand {
        Object::BoolValue(_) => Object::StringValue("http://www.w3.org/2001/XMLSchema#boolean".to_owned(), String::new()),
        Object::IntValue(_) => Object::StringValue("http://www.w3.org/2001/XMLSchema#integer".to_owned(), String::new()),
        Object::FloatValue(_) => Object::StringValue("http://www.w3.org/2001/XMLSchema#double".to_owned(), String::new()),
        Object::DateTimeValue(_) => Object::StringValue("http://www.w3.org/2001/XMLSchema#dateTime".to_owned(), String::new()),
        Object::StringValue(_, _) => Object::StringValue("http://www.w3.org/2001/XMLSchema#string".to_owned(), String::new()),
        Object::TypedValue(_, k) => Object::StringValue(k.clone(), String::new()),
        Object::IriValue(_) => Object::StringValue("http://www.w3.org/2001/XMLSchema#anyURI".to_owned(), String::new()),
        _ => found_err_bare("DATATYPE: can't get a type for ", operand),
    }
}

fn is_simple_literal_exec(o: &Object) -> (r: bool)
    ensures
        r == is_simple_literal(o@),
{
    match o {
        Object::BoolValue(_) | Object::IntValue(_) | Object::FloatValue(_) | Object::DateTimeValue(_)
        | Object::StringValue(_, _) => true,
        _ => false,
    }
}

pub open spec fn strdt_spec(lexical: Term, kind: Term) -> Term {
    if is_simple_literal(lexical) {
        match kind {
            Term::Iri(k) => Term::Typed(term_text(lexical), k),
            _ => found_error_bare("STRDT: expected an IRI for the second argument found "@, kind),
        }
    } else {
        found_error_bare("STRDT: expected a simple literal for the first argument but found "@, lexical)
    }
}

pub fn strdt_fn(lexical: &Object, kind: &Object) -> (r: Object)
    ensures
        r@ == strdt_spec(lexical@, kind@),
{
    if is_simple_literal_exec(lexical) {
        match kind {
            Object::IriValue(k) => Object::TypedValue(lexical.to_str(), k.clone()),
            _ => found_err_bare("STRDT: expected an IRI for the second argument found ", kind),
        }
    } else {
        found_err_bare("STRDT: expected a simple literal for the first argument but found ", lexical)
    }
}

pub open spec fn strlang_spec(lexical: Term, tag: Term) -> Term {
    if is_simple_literal(lexical) {
        if is_simple_literal(tag) {
            Term::Str(term_text(lexical), term_text(tag))
        } else {
            found_error_bare("STRLANG: expected a simple literal for the second argument found "@, tag)
        }
    } else {
        found_error_bare("STRLANG: expected a simple literal for the first argument but found "@, lexical)
    }
}

pub fn strlang_fn(lexical: &Object, tag: &Object) -> (r: Object)
    ensures
        r@ == strlang_spec(lexical@, tag@),
{
    if is_simple_literal_exec(lexical) {
        if is_simple_literal_exec(tag) {
            Object::StringValue(lexical.to_str(), tag.to_str())
        } else {
            found_err_bare("STRLANG: expected a simple literal for the second argument found ", tag)
        }
    } else {
        found_err_bare("STRLANG: expected a simple literal for the first argument but found ", lexical)
    }
}

// ---- Numbers ----------------------------------------------------------------------------

pub open spec fn abs_spec(t: Term) -> Term {
    match t {
        Term::Int(v) => Term::Int(if v < 0 { (0i64).wrapping_sub(v) } else { v }),
        Term::Float(f) => Term::Float(float_abs(f)),
        _ => found_error("ABS: expected numeric but found "@, t),
    }
}

/// The absolute value (the most negative integer is its own absolute value).
pub fn abs_fn(operand: &Object) -> (r: Object)
    ensures
        r@ == abs_spec(operand@),
{
    match operand {
        Object::IntValue(v) => Object::IntValue(if *v < 0 { (0i64).wrapping_sub(*v) } else { *v }),
        Object::FloatValue(f) => Object::FloatValue(float_abs_exec(*f)),
        _ => found_err("ABS: expected numeric but found ", operand),
    }
}

/// ROUND, CEIL and FLOOR: integers are already whole; rounding a binary64 value is not
/// done by this library.
pub open spec fn rounding_spec(fname: Seq<char>, t: Term) -> Term {
    match t {
        Term::Int(_) => t,
        Term::Float(_) => Term::Error(fname + ": rounding floating-point values is not supported."@),
        _ => found_error(fname + ": expected numeric but found "@, t),
    }
}

fn rounding(fname: &str, operand: &Object) -> (r: Object)
    ensures
        r@ == rounding_spec(fname@, operand@),
{
    match operand {
        Object::IntValue(_) => operand.copy(),
        Object::FloatValue(_) => Object::ErrorValue(concat_str(fname, ": rounding floating-point values is not supported.")),
        _ => {
            let p = concat_str(fname, ": expected numeric but found ");
            found_err(p.as_str(), operand)
        },
    }
}

pub fn round_fn(operand: &Object) -> (r: Object)
    ensures
        r@ == rounding_spec("ROUND"@, operand@),
{
    rounding("ROUND", operand)
}

pub fn ceil_fn(operand: &Object) -> (r: Object)
    ensures
        r@ == rounding_spec("CEIL"@, operand@),
{
    rounding("CEIL", operand)
}

pub fn floor_fn(operand: &Object) -> (r: Object)
    ensures
        r@ == rounding_spec("FLOOR"@, operand@),
{
    rounding("FLOOR", operand)
}

/// The error for a call with the wrong number of arguments: "NAME accepts N arguments but was
/// called with M arguments."
pub open spec fn arity_error(fname: Seq<char>, expected: Seq<char>, n: nat) -> Term {
    Term::Error(fname + " accepts "@ + expected + " but was called with "@ + nat_digits(n) + " arguments."@)
}

pub fn arity_err(fname: &str, expected: &str, n: usize) -> (r: Object)
    ensures
        r@ == arity_error(fname@, expected@, n as nat),
{
    let d = nat_to_string(n as u64);
    let a = concat_str(fname, " accepts ");
    let b = concat_str(a.as_str(), expected);
    let c = concat_str(b.as_str(), " but was called with ");
    let e = concat_str(c.as_str(), d.as_str());
    Object::ErrorValue(concat_str(e.as_str(), " arguments."))
}

/// What RAND may give: without arguments an xsd:double in [0, 1], the binary64 value
/// nearest to some `u32` over `u32::MAX`; with arguments the arity error.
pub open spec fn rand_result(n_args: nat, r: Term) -> bool {
    if n_args == 0 {
        exists|x: u32| r == Term::Float(unit_fraction_spec(x))
    } else {
        r == arity_error("RAND"@, "0 arguments"@, n_args)
    }
}

/// Calls `rand::random` for a `u32` from the thread's generator. The value is left to
/// chance, so nothing is stated of it. The crate panics when the operating system cannot
/// seed that generator, which no argument here can rule out.
#[verifier::external_body]
fn random_u32() -> (r: u32) {
    rand::random::<u32>()
}

/// RAND: a random `u32` over `u32::MAX`, as an xsd:double.
pub fn rand_fn(args: &Vec<Object>) -> (r: Object)
    ensures
        rand_result(args@.len(), r@),
{
    if args.len() == 0 {
        let x = random_u32();
        Object::FloatValue(unit_fraction_bits(x))
    } else {
        arity_err("RAND", "0 arguments", args.len())
    }
}

// ---- Dates ------------------------------------------------------------------------------

pub open spec fn now_spec(timestamp: DateTime, n: nat) -> Term {
    if n == 0 { Term::DateTime(timestamp) } else { arity_error("NOW"@, "0 arguments"@, n) }
}

/// The query's timestamp.
pub fn now_fn(timestamp: &DateTime, args: &Vec<Object>) -> (r: Object)
    ensures
        r@ == now_spec(*timestamp, args@.len()),
{
    if args.len() == 0 {
        Object::DateTimeValue(*timestamp)
    } else {
        arity_err("NOW", "0 arguments", args.len())
    }
}

/// A field of a dateTime, or an error naming the function.
pub open spec fn date_field_spec(fname: Seq<char>, t: Term, field: spec_fn(DateTime) -> i64) -> Term {
    match t {
        Term::DateTime(d) => Term::Int(field(d)),
        _ => found_error(fname + ": expected dateTime but found "@, t),
    }
}

fn not_datetime(fname: &str, operand: &Object) -> (r: Object)
    ensures
        r@ == found_error(fname@ + ": expected dateTime but found "@, operand@),
{
    let p = concat_str(fname, ": expected dateTime but found ");
    found_err(p.as_str(), operand)
}

pub fn year_fn(operand: &Object) -> (r: Object)
    ensures
        r@ == date_field_spec("YEAR"@, operand@, |d: DateTime| (1900i32.wrapping_add(d.year)) as i64),
{
    match operand {
        Object::DateTimeValue(d) => Object::IntValue(1900i32.wrapping_add(d.year) as i64),
        _ => not_datetime("YEAR", operand),
    }
}

pub fn month_fn(operand: &Object) -> (r: Object)
    ensures
        r@ == date_field_spec("MONTH"@, operand@, |d: DateTime| (1i32.wrapping_add(d.mon)) as i64),
{
    match operand {
        Object::DateTimeValue(d) => Object::IntValue(1i32.wrapping_add(d.mon) as i64),
        _ => not_datetime("MONTH", operand),
    }
}

pub fn day_fn(operand: &Object) -> (r: Object)
    ensures
        r@ == date_field_spec("DAY"@, operand@, |d: DateTime| d.mday as i64),
{
    match operand {
        Object::DateTimeValue(d) => Object::IntValue(d.mday as i64),
        _ => not_datetime("DAY", operand),
    }
}

pub fn hours_fn(operand: &Object) -> (r: Object)
    ensures
        r@ == date_field_spec("HOURS"@, operand@, |d: DateTime| d.hour as i64),
{
    match operand {
        Object::DateTimeValue(d) => Object::IntValue(d.hour as i64),
        _ => not_datetime("HOURS", operand),
    }
}

pub fn minutes_fn(operand: &Object) -> (r: Object)
    ensures
        r@ == date_field_spec("MINUTES"@, operand@, |d: DateTime| d.min as i64),
{
    match operand {
        Object::DateTimeValue(d) => Object::IntValue(d.min as i64),
        _ => not_datetime("MINUTES", operand),
    }
}

pub fn seconds_fn(operand: &Object) -> (r: Object)
    ensures
        r@ == date_field_spec("SECONDS"@, operand@, |d: DateTime| d.sec as i64),
{
    match operand {
        Object::DateTimeValue(d) => Object::IntValue(d.sec as i64),
        _ => not_datetime("SECONDS", operand),
    }
}

pub open spec fn tz_spec(t: Term) -> Term {
    match t {
        Term::DateTime(_) => Term::Str(Seq::empty(), Seq::empty()),
        _ => found_error("SECONDS"@ + ": expected dateTime but found "@, t),
    }
}

/// The time zone name of a dateTime: the broken-down time carries none, so it is empty.
pub fn tz_fn(operand: &Object) -> (r: Object)
    ensures
        r@ == tz_spec(operand@),
{
    match operand {
        Object::DateTimeValue(_) => Object::StringValue(String::new(), String::new()),
        _ => not_datetime("SECONDS", operand),
    }
}

// ---- Functional forms -------------------------------------------------------------------

pub fn bound_fn(operand: &Object) -> (r: Object)
    ensures
        r@ == Term::Bool(!(operand@ is Unbound)),
{
    Object::BoolValue(!operand.is_unbound())
}

/// Whether two terms are the same RDF term: same kind and value (languages compared
/// ignoring case, binary64 values with `==`).
pub open spec fn sameterm_spec(lhs: Term, rhs: Term) -> bool {
    match (lhs, rhs) {
        (Term::Bool(a), Term::Bool(b)) => a == b,
        (Term::Int(a), Term::Int(b)) => a == b,
        (Term::Float(a), Term::Float(b)) => crate::object::float_eq(a, b),
        (Term::DateTime(a), Term::DateTime(b)) => a == b,
        (Term::Str(v1, l1), Term::Str(v2, l2)) => lower_seq(l1) == lower_seq(l2) && v1 == v2,
        (Term::Typed(v1, t1), Term::Typed(v2, t2)) => t1 == t2 && v1 == v2,
        (Term::Iri(a), Term::Iri(b)) => a == b,
        (Term::Blank(a), Term::Blank(b)) => a == b,
        _ => false,
    }
}

pub fn sameterm_fn(lhs: &Object, rhs: &Object) -> (r: Object)
    ensures
        r@ == Term::Bool(sameterm_spec(lhs@, rhs@)),
{
    let b = match lhs {
        Object::BoolValue(a) => match rhs {
            Object::BoolValue(b) => *a == *b,
            _ => false,
        },
        Object::IntValue(a) => match rhs {
            Object::IntValue(b) => *a == *b,
            _ => false,
        },
        Object::FloatValue(a) => match rhs {
            Object::FloatValue(b) => crate::object::float_eq_exec(*a, *b),
            _ => false,
        },
        Object::DateTimeValue(a) => match rhs {
            Object::DateTimeValue(b) => *a == *b,
            _ => false,
        },
        Object::StringValue(v1, l1) => match rhs {
            Object::StringValue(v2, l2) => {
                let a = lower_str(l1.as_str());
                let b = lower_str(l2.as_str());
                str_eq(a.as_str(), b.as_str()) && str_eq(v1.as_str(), v2.as_str())
            },
            _ => false,
        },
        Object::TypedValue(v1, t1) => match rhs {
            Object::TypedValue(v2, t2) => str_eq(t1.as_str(), t2.as_str()) && str_eq(v1.as_str(), v2.as_str()),
            _ => false,
        },
        Object::IriValue(a) => match rhs {
            Object::IriValue(b) => str_eq(a.as_str(), b.as_str()),
            _ => false,
        },
        Object::BlankValue(a) => match rhs {
            Object::BlankValue(b) => str_eq(a.as_str(), b.as_str()),
            _ => false,
        },
        _ => false,
    };
    Object::BoolValue(b)
}

} // verus!
