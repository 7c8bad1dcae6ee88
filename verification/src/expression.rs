//! SPARQL FILTER expressions.
use vstd::prelude::*;
use crate::datetime::DateTime;
use crate::namespace::ns_view;
use crate::object::{Object, Term, terms, term_friendly, ebv_spec, get_ebv};
use crate::operators::{
    op_not_spec, op_unary_plus_spec, op_unary_minus_spec, op_or_spec, op_and_spec, op_equals_spec,
    op_not_equals_spec, relational_spec, arith_spec, op_not, op_unary_plus, op_unary_minus, op_or,
    op_and, op_equals, op_not_equals, op_less_than, op_less_than_or_equal, op_greater_than,
    op_greater_than_or_equal, op_multiply, op_divide, op_add, op_subtract,
};
use crate::functions::{
    arity_error, arity_err, sameterm_spec, sameterm_fn, is_literal, lang_of, datatype_spec, strdt_spec,
    strlang_spec, strlen_spec, substr2_spec, substr3_spec, ucase_spec, lcase_spec, strstarts_spec,
    strends_spec, contains_spec, strbefore_spec, strafter_spec, encode_for_uri_spec, concat_spec,
    langmatches_spec, abs_spec, rounding_spec, rand_result, now_spec, date_field_spec, tz_spec, bound_fn,
    isiri_fn, isblank_fn, isliteral_fn, isnumeric_fn, str_fn, lang_fn, datatype_fn, strdt_fn, strlang_fn,
    strlen_fn, substr2_fn, substr3_fn, ucase_fn, lcase_fn, strstarts_fn, strends_fn, contains_fn,
    strbefore_fn, strafter_fn, encode_for_uri_fn, concat_fn, langmatches_fn, abs_fn, round_fn, ceil_fn,
    floor_fn, rand_fn, now_fn, year_fn, month_fn, day_fn, hours_fn, minutes_fn, seconds_fn, tz_fn,
};
use crate::solution::{Solution, names_view, position_of, find_name};
use crate::store::{Store, pname_spec};
use crate::text::{concat_str, str_eq};
use crate::query::QueryContext;

verus! {

/// An expression: a constant, a variable, a call of a built-in function or operator, or a call
/// of an extension function registered with the store.
pub enum Expr {
    ConstantExpr(Object),
    VariableExpr(String),
    CallExpr(String, Vec<Expr>),
    ExtensionExpr(String, Vec<Expr>),
}

/// What a built-in function of one argument gives.
pub open spec fn call1_spec(fname: Seq<char>, args: Seq<Term>, f: spec_fn(Term) -> Term) -> Term {
    if args.len() == 1 {
        f(args[0])
    } else {
        arity_error(fname, "1 argument"@, args.len())
    }
}

/// The error for a call with one argument of a function that takes more.
pub open spec fn one_arg_error(fname: Seq<char>, expected: Seq<char>) -> Term {
    Term::Error(fname + " accepts "@ + expected + " but was called with 1 argument."@)
}

pub open spec fn call2_spec(fname: Seq<char>, args: Seq<Term>, f: spec_fn(Term, Term) -> Term) -> Term {
    if args.len() == 2 {
        f(args[0], args[1])
    } else if args.len() == 1 {
        one_arg_error(fname, "2 arguments"@)
    } else {
        arity_error(fname, "2 arguments"@, args.len())
    }
}

pub open spec fn call3_spec(fname: Seq<char>, args: Seq<Term>, f: spec_fn(Term, Term, Term) -> Term) -> Term {
    if args.len() == 3 {
        f(args[0], args[1], args[2])
    } else if args.len() == 1 {
        one_arg_error(fname, "3 arguments"@)
    } else {
        arity_error(fname, "3 arguments"@, args.len())
    }
}

/// What a built-in function of one argument gives (the names checked in order; the last
/// one, TZ, is what is left).
pub open spec fn unary_spec(fname: Seq<char>, a: Term) -> Term {
    if fname == "op_not"@ {
        op_not_spec(a)
    } else if fname == "op_unary_plus"@ {
        op_unary_plus_spec(a)
    } else if fname == "op_unary_minus"@ {
        op_unary_minus_spec(a)
    } else if fname == "bound_fn"@ {
        Term::Bool(!(a is Unbound))
    } else if fname == "isiri_fn"@ {
        Term::Bool(a is Iri)
    } else if fname == "isblank_fn"@ {
        Term::Bool(a is Blank)
    } else if fname == "isliteral_fn"@ {
        Term::Bool(is_literal(a))
    } else if fname == "isnumeric_fn"@ {
        Term::Bool(a is Int || a is Float)
    } else if fname == "str_fn"@ {
        Term::Str(crate::object::term_text(a), Seq::empty())
    } else if fname == "lang_fn"@ {
        Term::Str(lang_of(a), Seq::empty())
    } else if fname == "datatype_fn"@ {
        datatype_spec(a)
    } else if fname == "strlen_fn"@ {
        strlen_spec(a)
    } else if fname == "ucase_fn"@ {
        ucase_spec(a)
    } else if fname == "lcase_fn"@ {
        lcase_spec(a)
    } else if fname == "encode_for_uri_fn"@ {
        encode_for_uri_spec(a)
    } else if fname == "abs_fn"@ {
        abs_spec(a)
    } else if fname == "round_fn"@ {
        rounding_spec("ROUND"@, a)
    } else if fname == "ceil_fn"@ {
        rounding_spec("CEIL"@, a)
    } else if fname == "floor_fn"@ {
        rounding_spec("FLOOR"@, a)
    } else if fname == "year_fn"@ {
        date_field_spec("YEAR"@, a, |d: DateTime| (1900i32.wrapping_add(d.year)) as i64)
    } else if fname == "month_fn"@ {
        date_field_spec("MONTH"@, a, |d: DateTime| (1i32.wrapping_add(d.mon)) as i64)
    } else if fname == "day_fn"@ {
        date_field_spec("DAY"@, a, |d: DateTime| d.mday as i64)
    } else if fname == "hours_fn"@ {
        date_field_spec("HOURS"@, a, |d: DateTime| d.hour as i64)
    } else if fname == "minutes_fn"@ {
        date_field_spec("MINUTES"@, a, |d: DateTime| d.min as i64)
    } else if fname == "seconds_fn"@ {
        date_field_spec("SECONDS"@, a, |d: DateTime| d.sec as i64)
    } else {
        tz_spec(a)
    }
}

/// What a built-in function of two arguments gives (the last one, LANGMATCHES, is what is
/// left).
pub open spec fn binary_spec(fname: Seq<char>, a: Term, b: Term) -> Term {
    if fname == "op_or"@ {
        op_or_spec(a, b)
    } else if fname == "op_and"@ {
        op_and_spec(a, b)
    } else if fname == "op_equals"@ {
        op_equals_spec(a, b)
    } else if fname == "op_not_equals"@ {
        op_not_equals_spec(a, b)
    } else if fname == "op_less_than"@ {
        relational_spec(0, a, b)
    } else if fname == "op_less_than_or_equal"@ {
        relational_spec(1, a, b)
    } else if fname == "op_greater_than"@ {
        relational_spec(2, a, b)
    } else if fname == "op_greater_than_or_equal"@ {
        relational_spec(3, a, b)
    } else if fname == "op_multiply"@ {
        arith_spec(0, a, b)
    } else if fname == "op_divide"@ {
        arith_spec(1, a, b)
    } else if fname == "op_add"@ {
        arith_spec(2, a, b)
    } else if fname == "op_subtract"@ {
        arith_spec(3, a, b)
    } else if fname == "sameterm_fn"@ {
        Term::Bool(sameterm_spec(a, b))
    } else if fname == "strdt_fn"@ {
        strdt_spec(a, b)
    } else if fname == "strlang_fn"@ {
        strlang_spec(a, b)
    } else if fname == "substr2_fn"@ {
        substr2_spec(a, b)
    } else if fname == "strstarts_fn"@ {
        strstarts_spec(a, b)
    } else if fname == "strends_fn"@ {
        strends_spec(a, b)
    } else if fname == "contains_fn"@ {
        contains_spec(a, b)
    } else if fname == "strbefore_fn"@ {
        strbefore_spec(a, b)
    } else if fname == "strafter_fn"@ {
        strafter_spec(a, b)
    } else {
        langmatches_spec(a, b)
    }
}

/// What a built-in function (named as the parser names it) gives for evaluated arguments.
/// RAND, whose value is left to chance, is not covered here: see `rand_result`.
pub open spec fn call_spec(fname: Seq<char>, args: Seq<Term>, timestamp: DateTime) -> Term {
    if fname == "concat_fn"@ {
        concat_spec(args)
    } else if fname == "now_fn"@ {
        now_spec(timestamp, args.len())
    } else if arity_of(fname) == 1 {
        call1_spec(fname, args, |a: Term| unary_spec(fname, a))
    } else if arity_of(fname) == 2 {
        call2_spec(fname, args, |a: Term, b: Term| binary_spec(fname, a, b))
    } else if arity_of(fname) == 3 {
        call3_spec(fname, args, |a: Term, b: Term, c: Term| substr3_spec(a, b, c))
    } else {
        Term::Error(fname + " is not implemented."@)
    }
}

fn one_arg_err(fname: &str, expected: &str) -> (r: Object)
    ensures
        r@ == one_arg_error(fname@, expected@),
{
    let a = concat_str(fname, " accepts ");
    let b = concat_str(a.as_str(), expected);
    Object::ErrorValue(concat_str(b.as_str(), " but was called with 1 argument."))
}

/// Calls a built-in function (named as the parser names it) on evaluated arguments.
///
/// The result is exactly `call_spec` but for RAND, whose value is left to chance (see
/// `rand_result`).
pub fn eval_call(fname: &str, args: &Vec<Object>, timestamp: &DateTime) -> (r: Object)
    ensures
        fname@ != "rand_fn"@ ==> r@ == call_spec(fname@, terms(args@), *timestamp),
        fname@ == "rand_fn"@ ==> rand_result(args@.len(), r@),
{
    let n = args.len();
    let ghost ts = terms(args@);
    proof {
        if n >= 1 {
            assert(ts[0] == args@[0]@);
        }
        if n >= 2 {
            assert(ts[1] == args@[1]@);
        }
        if n >= 3 {
            assert(ts[2] == args@[2]@);
        }
    }
    if str_eq(fname, "rand_fn") {
        return rand_fn(args);
    } else if str_eq(fname, "concat_fn") {
        return concat_fn(args);
    } else if str_eq(fname, "now_fn") {
        return now_fn(timestamp, args);
    }
    let arity: usize = unary_arity(fname);
    if arity == 0 {
        return not_implemented(fname);
    }
    if n != arity {
        if n == 1 {
            if arity == 2 {
                return one_arg_err(fname, "2 arguments");
            } else {
                return one_arg_err(fname, "3 arguments");
            }
        } else if arity == 1 {
            return arity_err(fname, "1 argument", n);
        } else if arity == 2 {
            return arity_err(fname, "2 arguments", n);
        } else {
            return arity_err(fname, "3 arguments", n);
        }
    }
    proof {
        if n == 1 {
            assert(ts =~= seq![args@[0]@]);
        } else if n == 2 {
            assert(ts =~= seq![args@[0]@, args@[1]@]);
        } else if n == 3 {
            assert(ts =~= seq![args@[0]@, args@[1]@, args@[2]@]);
        }
    }
    if arity == 1 {
        call_unary(fname, &args[0])
    } else if arity == 2 {
        call_binary(fname, &args[0], &args[1])
    } else {
        substr3_fn(&args[0], &args[1], &args[2])
    }
}

/// The names of the built-in functions of a fixed arity, with that arity (0 for other names).
pub open spec fn arity_of(fname: Seq<char>) -> int {
    if fname == "op_not"@ || fname == "op_unary_plus"@ || fname == "op_unary_minus"@
        || fname == "bound_fn"@ || fname == "isiri_fn"@ || fname == "isblank_fn"@
        || fname == "isliteral_fn"@ || fname == "isnumeric_fn"@ || fname == "str_fn"@
        || fname == "lang_fn"@ || fname == "datatype_fn"@ || fname == "strlen_fn"@
        || fname == "ucase_fn"@ || fname == "lcase_fn"@ || fname == "encode_for_uri_fn"@
        || fname == "abs_fn"@ || fname == "round_fn"@ || fname == "ceil_fn"@ || fname == "floor_fn"@
        || fname == "year_fn"@ || fname == "month_fn"@ || fname == "day_fn"@ || fname == "hours_fn"@
        || fname == "minutes_fn"@ || fname == "seconds_fn"@ || fname == "tz_fn"@ {
        1
    } else if fname == "op_or"@ || fname == "op_and"@ || fname == "op_equals"@ || fname == "op_not_equals"@
        || fname == "op_less_than"@ || fname == "op_less_than_or_equal"@ || fname == "op_greater_than"@
        || fname == "op_greater_than_or_equal"@ || fname == "op_multiply"@ || fname == "op_divide"@
        || fname == "op_add"@ || fname == "op_subtract"@ || fname == "sameterm_fn"@
        || fname == "strdt_fn"@ || fname == "strlang_fn"@ || fname == "substr2_fn"@
        || fname == "strstarts_fn"@ || fname == "strends_fn"@ || fname == "contains_fn"@
        || fname == "strbefore_fn"@ || fname == "strafter_fn"@ || fname == "langmatches_fn"@ {
        2
    } else if fname == "substr3_fn"@ {
        3
    } else {
        0
    }
}

fn unary_arity(fname: &str) -> (r: usize)
    ensures
        r as int == arity_of(fname@),
{
    if str_eq(fname, "op_not") || str_eq(fname, "op_unary_plus") || str_eq(fname, "op_unary_minus")
        || str_eq(fname, "bound_fn") || str_eq(fname, "isiri_fn") || str_eq(fname, "isblank_fn")
        || str_eq(fname, "isliteral_fn") || str_eq(fname, "isnumeric_fn") || str_eq(fname, "str_fn")
        || str_eq(fname, "lang_fn") || str_eq(fname, "datatype_fn") || str_eq(fname, "strlen_fn")
        || str_eq(fname, "ucase_fn") || str_eq(fname, "lcase_fn") || str_eq(fname, "encode_for_uri_fn")
        || str_eq(fname, "abs_fn") || str_eq(fname, "round_fn") || str_eq(fname, "ceil_fn") || str_eq(fname, "floor_fn")
        || str_eq(fname, "year_fn") || str_eq(fname, "month_fn") || str_eq(fname, "day_fn") || str_eq(fname, "hours_fn")
        || str_eq(fname, "minutes_fn") || str_eq(fname, "seconds_fn") || str_eq(fname, "tz_fn") {
        1
    } else if str_eq(fname, "op_or") || str_eq(fname, "op_and") || str_eq(fname, "op_equals") || str_eq(fname, "op_not_equals")
        || str_eq(fname, "op_less_than") || str_eq(fname, "op_less_than_or_equal") || str_eq(fname, "op_greater_than")
        || str_eq(fname, "op_greater_than_or_equal") || str_eq(fname, "op_multiply") || str_eq(fname, "op_divide")
        || str_eq(fname, "op_add") || str_eq(fname, "op_subtract") || str_eq(fname, "sameterm_fn")
        || str_eq(fname, "strdt_fn") || str_eq(fname, "strlang_fn") || str_eq(fname, "substr2_fn")
        || str_eq(fname, "strstarts_fn") || str_eq(fname, "strends_fn") || str_eq(fname, "contains_fn")
        || str_eq(fname, "strbefore_fn") || str_eq(fname, "strafter_fn") || str_eq(fname, "langmatches_fn") {
        2
    } else if str_eq(fname, "substr3_fn") {
        3
    } else {
        0
    }
}

fn not_implemented(fname: &str) -> (r: Object)
    ensures
        r@ == Term::Error(fname@ + " is not implemented."@),
{
    Object::ErrorValue(concat_str(fname, " is not implemented."))
}

fn call_unary(fname: &str, a: &Object) -> (r: Object)
    requires
        arity_of(fname@) == 1,
    ensures
        r@ == unary_spec(fname@, a@),
        !(r@ is DateTime),
{
    if str_eq(fname, "op_not") {
        op_not(a)
    } else if str_eq(fname, "op_unary_plus") {
        op_unary_plus(a)
    } else if str_eq(fname, "op_unary_minus") {
        op_unary_minus(a)
    } else if str_eq(fname, "bound_fn") {
        bound_fn(a)
    } else if str_eq(fname, "isiri_fn") {
        isiri_fn(a)
    } else if str_eq(fname, "isblank_fn") {
        isblank_fn(a)
    } else if str_eq(fname, "isliteral_fn") {
        isliteral_fn(a)
    } else if str_eq(fname, "isnumeric_fn") {
        isnumeric_fn(a)
    } else if str_eq(fname, "str_fn") {
        str_fn(a)
    } else if str_eq(fname, "lang_fn") {
        lang_fn(a)
    } else if str_eq(fname, "datatype_fn") {
        datatype_fn(a)
    } else if str_eq(fname, "strlen_fn") {
        strlen_fn(a)
    } else if str_eq(fname, "ucase_fn") {
        ucase_fn(a)
    } else if str_eq(fname, "lcase_fn") {
        lcase_fn(a)
    } else if str_eq(fname, "encode_for_uri_fn") {
        encode_for_uri_fn(a)
    } else if str_eq(fname, "abs_fn") {
        abs_fn(a)
    } else if str_eq(fname, "round_fn") {
        round_fn(a)
    } else if str_eq(fname, "ceil_fn") {
        ceil_fn(a)
    } else if str_eq(fname, "floor_fn") {
        floor_fn(a)
    } else if str_eq(fname, "year_fn") {
        year_fn(a)
    } else if str_eq(fname, "month_fn") {
        month_fn(a)
    } else if str_eq(fname, "day_fn") {
        day_fn(a)
    } else if str_eq(fname, "hours_fn") {
        hours_fn(a)
    } else if str_eq(fname, "minutes_fn") {
        minutes_fn(a)
    } else if str_eq(fname, "seconds_fn") {
        seconds_fn(a)
    } else {
        tz_fn(a)
    }
}

fn call_binary(fname: &str, a: &Object, b: &Object) -> (r: Object)
    requires
        arity_of(fname@) == 2,
    ensures
        r@ == binary_spec(fname@, a@, b@),
        !(r@ is DateTime),
{
    if str_eq(fname, "op_or") {
        op_or(a, b)
    } else if str_eq(fname, "op_and") {
        op_and(a, b)
    } else if str_eq(fname, "op_equals") {
        op_equals(a, b)
    } else if str_eq(fname, "op_not_equals") {
        op_not_equals(a, b)
    } else if str_eq(fname, "op_less_than") {
        op_less_than(a, b)
    } else if str_eq(fname, "op_less_than_or_equal") {
        op_less_than_or_equal(a, b)
    } else if str_eq(fname, "op_greater_than") {
        op_greater_than(a, b)
    } else if str_eq(fname, "op_greater_than_or_equal") {
        op_greater_than_or_equal(a, b)
    } else if str_eq(fname, "op_multiply") {
        op_multiply(a, b)
    } else if str_eq(fname, "op_divide") {
        op_divide(a, b)
    } else if str_eq(fname, "op_add") {
        op_add(a, b)
    } else if str_eq(fname, "op_subtract") {
        op_subtract(a, b)
    } else if str_eq(fname, "sameterm_fn") {
        sameterm_fn(a, b)
    } else if str_eq(fname, "strdt_fn") {
        strdt_fn(a, b)
    } else if str_eq(fname, "strlang_fn") {
        strlang_fn(a, b)
    } else if str_eq(fname, "substr2_fn") {
        substr2_fn(a, b)
    } else if str_eq(fname, "strstarts_fn") {
        strstarts_fn(a, b)
    } else if str_eq(fname, "strends_fn") {
        strends_fn(a, b)
    } else if str_eq(fname, "contains_fn") {
        contains_fn(a, b)
    } else if str_eq(fname, "strbefore_fn") {
        strbefore_fn(a, b)
    } else if str_eq(fname, "strafter_fn") {
        strafter_fn(a, b)
    } else {
        langmatches_fn(a, b)
    }
}

/// What an extension call gives: rrdf:pname is built in; a registered function's result is
/// its own affair; other names are errors.
pub open spec fn ext_spec(ns: Seq<(Seq<char>, Seq<char>)>, exts: Seq<Seq<char>>, name: Seq<char>, args: Seq<Term>) -> Term {
    if name == "rrdf:pname"@ {
        pname_spec(ns, args)
    } else if exts.contains(name) {
        Term::Error(Seq::empty())
    } else {
        Term::Error(name + " wasn't registered with the store as an extension function"@)
    }
}

/// The value of an expression for a row: `ns` and `exts` are the store's namespaces and
/// extension names, `timestamp` what NOW gives, `names` the bindings and `row` their values.
pub open spec fn eval_spec(
    ns: Seq<(Seq<char>, Seq<char>)>,
    timestamp: DateTime,
    names: Seq<Seq<char>>,
    row: Seq<Term>,
    exts: Seq<Seq<char>>,
    e: Expr,
) -> Term
    decreases e,
{
    match e {
        Expr::ConstantExpr(o) => o@,
        Expr::VariableExpr(n) => match position_of(names, n@) {
            Some(i) => row[i],
            None => Term::Error("?"@ + n@ + " was not bound."@),
        },
        Expr::ExtensionExpr(n, args) => ext_spec(ns, exts, n@, eval_args_spec(ns, timestamp, names, row, exts, args@)),
        Expr::CallExpr(n, args) => if n@ == "if_fn"@ {
            if_spec(ns, timestamp, names, row, exts, args@)
        } else if n@ == "coalesce_fn"@ {
            coalesce_spec(ns, timestamp, names, row, exts, args@)
        } else {
            call_spec(n@, eval_args_spec(ns, timestamp, names, row, exts, args@), timestamp)
        },
    }
}

/// The values of the arguments, in order.
pub open spec fn eval_args_spec(
    ns: Seq<(Seq<char>, Seq<char>)>,
    timestamp: DateTime,
    names: Seq<Seq<char>>,
    row: Seq<Term>,
    exts: Seq<Seq<char>>,
    s: Seq<Expr>,
) -> Seq<Term>
    decreases s,
{
    if s.len() == 0 {
        Seq::empty()
    } else {
        eval_args_spec(ns, timestamp, names, row, exts, s.drop_last()).push(
            eval_spec(ns, timestamp, names, row, exts, s.last()))
    }
}

/// IF(condition, then, else): only the chosen branch is evaluated.
pub open spec fn if_spec(
    ns: Seq<(Seq<char>, Seq<char>)>,
    timestamp: DateTime,
    names: Seq<Seq<char>>,
    row: Seq<Term>,
    exts: Seq<Seq<char>>,
    args: Seq<Expr>,
) -> Term
    decreases args,
{
    if args.len() == 3 {
        match ebv_spec(eval_spec(ns, timestamp, names, row, exts, args[0])) {
            Ok(b) => if b {
                eval_spec(ns, timestamp, names, row, exts, args[1])
            } else {
                eval_spec(ns, timestamp, names, row, exts, args[2])
            },
            Err(e) => Term::Error("IF: "@ + e),
        }
    } else if args.len() == 1 {
        Term::Error("IF accepts 3 arguments but was called with 1 argument."@)
    } else {
        arity_error("IF"@, "3 arguments"@, args.len())
    }
}

/// Whether a value is one that COALESCE passes over.
pub open spec fn failed_value(t: Term) -> bool {
    t is Unbound || t is Invalid || t is Error
}

/// COALESCE: the first argument whose value is not unbound, invalid or an error.
pub open spec fn coalesce_spec(
    ns: Seq<(Seq<char>, Seq<char>)>,
    timestamp: DateTime,
    names: Seq<Seq<char>>,
    row: Seq<Term>,
    exts: Seq<Seq<char>>,
    args: Seq<Expr>,
) -> Term
    decreases args,
{
    if args.len() == 0 {
        Term::Error("COALESCE: all arguments failed to evaluate"@)
    } else {
        let v = eval_spec(ns, timestamp, names, row, exts, args[0]);
        if !failed_value(v) {
            v
        } else {
            coalesce_spec(ns, timestamp, names, row, exts, args.drop_first())
        }
    }
}

/// Whether an expression's value is fully determined: it does not call RAND, and calls no
/// extension function registered with the store (rrdf:pname aside).
pub open spec fn plain_expr(exts: Seq<Seq<char>>, e: Expr) -> bool
    decreases e,
{
    match e {
        Expr::ConstantExpr(_) => true,
        Expr::VariableExpr(_) => true,
        Expr::CallExpr(n, args) => n@ != "rand_fn"@ && plain_args(exts, args@),
        Expr::ExtensionExpr(n, args) => (n@ == "rrdf:pname"@ || !exts.contains(n@)) && plain_args(exts, args@),
    }
}

pub open spec fn plain_args(exts: Seq<Seq<char>>, s: Seq<Expr>) -> bool
    decreases s,
{
    if s.len() == 0 {
        true
    } else {
        plain_args(exts, s.drop_last()) && plain_expr(exts, s.last())
    }
}

/// The argument list of a plain expression is plain, element by element.
pub proof fn lemma_plain_args(exts: Seq<Seq<char>>, s: Seq<Expr>)
    ensures
        plain_args(exts, s) <==> forall|i: int| 0 <= i < s.len() ==> plain_expr(exts, #[trigger] s[i]),
    decreases s.len(),
{
    if s.len() > 0 {
        lemma_plain_args(exts, s.drop_last());
        assert forall|i: int| 0 <= i < s.len() - 1 implies s.drop_last()[i] == s[i] by {}
    }
}

/// Evaluates an expression for a row of a solution.
///
/// For a plain expression (see `plain_expr`) the value is exactly `eval_spec`.
pub fn eval_expr(store: &Store, context: &QueryContext, solution: &Solution, row: &Vec<Object>, expr: &Expr) -> (r: Object)
    requires
        row@.len() == solution.bindings@.len(),
    ensures
        plain_expr(store.extension_names(), *expr) ==> {
            &&& r@ == eval_spec(store.ns(), context.timestamp, names_view(solution.bindings@), terms(row@),
                store.extension_names(), *expr)
        },
    decreases expr,
{
    match expr {
        Expr::ConstantExpr(o) => o.copy(),
        Expr::VariableExpr(n) => match find_name(&solution.bindings, n.as_str()) {
            Some(i) => {
                proof {
                    assert(terms(row@)[i as int] == row@[i as int]@);
                }
                row[i].copy()
            },
            None => {
                let a = concat_str("?", n.as_str());
                Object::ErrorValue(concat_str(a.as_str(), " was not bound."))
            },
        },
        Expr::ExtensionExpr(n, args) => {
            proof {
                assert(decreases_to!(*expr => *args));
            }
            let vals = eval_args(store, context, solution, row, args);
            eval_extension(store, n.as_str(), &vals)
        },
        Expr::CallExpr(n, args) => {
            proof {
                assert(decreases_to!(*expr => *args));
            }
            if str_eq(n.as_str(), "if_fn") {
                eval_if(store, context, solution, row, args)
            } else if str_eq(n.as_str(), "coalesce_fn") {
                eval_coalesce(store, context, solution, row, args)
            } else {
                let vals = eval_args(store, context, solution, row, args);
                eval_call(n.as_str(), &vals, &context.timestamp)
            }
        },
    }
}

/// Evaluates each argument. Every argument is evaluated, errors included, since some
/// functions accept errors.
pub fn eval_args(store: &Store, context: &QueryContext, solution: &Solution, row: &Vec<Object>, args: &Vec<Expr>) -> (r: Vec<Object>)
    requires
        row@.len() == solution.bindings@.len(),
    ensures
        r@.len() == args@.len(),
        plain_args(store.extension_names(), args@) ==> {
            &&& terms(r@) == eval_args_spec(store.ns(), context.timestamp, names_view(solution.bindings@),
                terms(row@), store.extension_names(), args@)
        },
    decreases args,
{
    let ghost exts = store.extension_names();
    let ghost plain = plain_args(exts, args@);
    let ghost env = (store.ns(), context.timestamp, names_view(solution.bindings@), terms(row@));
    proof {
        lemma_plain_args(exts, args@);
    }
    let mut vals: Vec<Object> = Vec::new();
    let mut i: usize = 0;
    while i < args.len()
        invariant
            i <= args.len(),
            row@.len() == solution.bindings@.len(),
            exts == store.extension_names(),
            env == (store.ns(), context.timestamp, names_view(solution.bindings@), terms(row@)),
            plain == (plain_args(exts, args@)),
            plain ==> forall|k: int| 0 <= k < args@.len() ==> plain_expr(exts, #[trigger] args@[k]),
            vals@.len() == i,
            plain ==> terms(vals@) == eval_args_spec(env.0, env.1, env.2, env.3, exts, args@.take(i as int)),
        decreases args.len() - i,
    {
        proof {
            assert(decreases_to!(*args => args@));
            assert(decreases_to!(args@ => args@[i as int]));
        }
        let v = eval_expr(store, context, solution, row, &args[i]);
        let ghost before = vals@;
        vals.push(v);
        i += 1;
        proof {
            assert(terms(vals@) =~= terms(before).push(v@));
            assert(args@.take(i as int).drop_last() =~= args@.take(i - 1));
            assert(args@.take(i as int).last() == args@[i - 1]);
            if plain {
                assert(plain_expr(exts, args@[i - 1]));
            }
        }
    }
    proof {
        assert(args@.take(args.len() as int) =~= args@);
    }
    vals
}

/// Calls an extension function on evaluated arguments (rrdf:pname is built in).
pub fn eval_extension(store: &Store, fname: &str, args: &Vec<Object>) -> (r: Object)
    ensures
        fname@ == "rrdf:pname"@ || !store.extension_names().contains(fname@) ==> {
            &&& r@ == ext_spec(store.ns(), store.extension_names(), fname@, terms(args@))
        },
{
    match store.call_extension(fname, args) {
        Some(v) => v,
        None => Object::ErrorValue(concat_str(fname, " wasn't registered with the store as an extension function")),
    }
}

/// IF(condition, then, else), evaluating only the chosen branch.
pub fn eval_if(store: &Store, context: &QueryContext, solution: &Solution, row: &Vec<Object>, args: &Vec<Expr>) -> (r: Object)
    requires
        row@.len() == solution.bindings@.len(),
    ensures
        plain_args(store.extension_names(), args@) ==> {
            &&& r@ == if_spec(store.ns(), context.timestamp, names_view(solution.bindings@), terms(row@),
                store.extension_names(), args@)
        },
    decreases args,
{
    proof {
        lemma_plain_args(store.extension_names(), args@);
    }
    if args.len() == 3 {
        proof {
            assert(decreases_to!(*args => args@));
            assert(decreases_to!(args@ => args@[0]));
            assert(decreases_to!(args@ => args@[1]));
            assert(decreases_to!(args@ => args@[2]));
        }
        let c = eval_expr(store, context, solution, row, &args[0]);
        match get_ebv(&c) {
            Ok(b) => if b {
                eval_expr(store, context, solution, row, &args[1])
            } else {
                eval_expr(store, context, solution, row, &args[2])
            },
            Err(e) => Object::ErrorValue(concat_str("IF: ", e.as_str())),
        }
    } else if args.len() == 1 {
        Object::ErrorValue("IF accepts 3 arguments but was called with 1 argument.".to_owned())
    } else {
        arity_err("IF", "3 arguments", args.len())
    }
}

/// COALESCE: the first argument whose value is not unbound, invalid or an error.
pub fn eval_coalesce(store: &Store, context: &QueryContext, solution: &Solution, row: &Vec<Object>, args: &Vec<Expr>) -> (r: Object)
    requires
        row@.len() == solution.bindings@.len(),
    ensures
        plain_args(store.extension_names(), args@) ==> {
            &&& r@ == coalesce_spec(store.ns(), context.timestamp, names_view(solution.bindings@), terms(row@),
                store.extension_names(), args@)
        },
    decreases args,
{
    let ghost exts = store.extension_names();
    let ghost plain = plain_args(exts, args@);
    let ghost env = (store.ns(), context.timestamp, names_view(solution.bindings@), terms(row@));
    proof {
        lemma_plain_args(exts, args@);
        assert(args@.skip(0) =~= args@);
    }
    let mut i: usize = 0;
    while i < args.len()
        invariant
            i <= args.len(),
            row@.len() == solution.bindings@.len(),
            exts == store.extension_names(),
            env == (store.ns(), context.timestamp, names_view(solution.bindings@), terms(row@)),
            plain == (plain_args(exts, args@)),
            plain ==> forall|k: int| 0 <= k < args@.len() ==> plain_expr(exts, #[trigger] args@[k]),
            plain ==> coalesce_spec(env.0, env.1, env.2, env.3, exts, args@)
                == coalesce_spec(env.0, env.1, env.2, env.3, exts, args@.skip(i as int)),
        decreases args.len() - i,
    {
        proof {
            assert(decreases_to!(*args => args@));
            assert(decreases_to!(args@ => args@[i as int]));
            assert(args@.skip(i as int)[0] == args@[i as int]);
            assert(args@.skip(i as int).drop_first() =~= args@.skip(i + 1));
        }
        let v = eval_expr(store, context, solution, row, &args[i]);
        let failed = match &v {
            Object::UnboundValue(_) | Object::InvalidValue(_, _) | Object::ErrorValue(_) => true,
            _ => false,
        };
        if !failed {
            return v;
        }
        i += 1;
    }
    proof {
        assert(args@.skip(args.len() as int) =~= Seq::<Expr>::empty());
    }
    Object::ErrorValue("COALESCE: all arguments failed to evaluate".to_owned())
}

/// The text of an expression: constants as friendly text, variables with '?', and calls as
/// the name followed by the arguments' texts.
pub open spec fn expr_text(ns: Seq<(Seq<char>, Seq<char>)>, e: Expr) -> Seq<char>
    decreases e,
{
    match e {
        Expr::ConstantExpr(o) => term_friendly(o@, ns),
        Expr::VariableExpr(v) => "?"@ + v@,
        Expr::CallExpr(n, args) => n@ + args_text(ns, args@),
        Expr::ExtensionExpr(n, args) => n@ + args_text(ns, args@),
    }
}

/// The texts of arguments joined with ", ".
pub open spec fn args_text(ns: Seq<(Seq<char>, Seq<char>)>, s: Seq<Expr>) -> Seq<char>
    decreases s,
{
    if s.len() == 0 {
        Seq::empty()
    } else if s.len() == 1 {
        expr_text(ns, s[0])
    } else {
        args_text(ns, s.drop_last()) + ", "@ + expr_text(ns, s.last())
    }
}

pub fn expr_to_str(store: &Store, expr: &Expr) -> (s: String)
    ensures
        s@ == expr_text(store.ns(), *expr),
    decreases expr,
{
    match expr {
        Expr::ConstantExpr(o) => o.to_friendly_str(store.namespaces()),
        Expr::VariableExpr(v) => concat_str("?", v.as_str()),
        Expr::CallExpr(n, args) | Expr::ExtensionExpr(n, args) => {
            proof {
                assert(decreases_to!(*expr => *args));
            }
            let t = args_to_str(store, args);
            concat_str(n.as_str(), t.as_str())
        },
    }
}

fn args_to_str(store: &Store, args: &Vec<Expr>) -> (s: String)
    ensures
        s@ == args_text(store.ns(), args@),
    decreases args,
{
    let mut out = String::new();
    let mut i: usize = 0;
    while i < args.len()
        invariant
            i <= args.len(),
            out@ == args_text(store.ns(), args@.take(i as int)),
        decreases args.len() - i,
    {
        proof {
            assert(decreases_to!(*args => args@));
            assert(decreases_to!(args@ => args@[i as int]));
        }
        let t = expr_to_str(store, &args[i]);
        if i == 0 {
            out = t;
        } else {
            let a = concat_str(out.as_str(), ", ");
            out = concat_str(a.as_str(), t.as_str());
        }
        i += 1;
        proof {
            assert(args@.take(i as int).drop_last() =~= args@.take(i - 1));
            assert(args@.take(i as int).last() == args@[i - 1]);
            if i == 1 {
                assert(args@.take(1)[0] == args@[0]);
            }
        }
    }
    proof {
        assert(args@.take(args.len() as int) =~= args@);
    }
    out
}

/// The value of an expression for a row, as `eval_spec` gives it (named, so that callers
/// that only pass values along need not unfold it).
pub closed spec fn expr_value(
    ns: Seq<(Seq<char>, Seq<char>)>,
    timestamp: DateTime,
    names: Seq<Seq<char>>,
    row: Seq<Term>,
    exts: Seq<Seq<char>>,
    e: Expr,
) -> Term {
    eval_spec(ns, timestamp, names, row, exts, e)
}

/// What `expr_value` stands for: the value that `eval_spec` gives.
pub proof fn lemma_expr_value(
    ns: Seq<(Seq<char>, Seq<char>)>,
    timestamp: DateTime,
    names: Seq<Seq<char>>,
    row: Seq<Term>,
    exts: Seq<Seq<char>>,
    e: Expr,
)
    ensures
        expr_value(ns, timestamp, names, row, exts, e) == eval_spec(ns, timestamp, names, row, exts, e),
{
}

/// `eval_expr`, with the value stated as `expr_value`.
pub fn eval_row(store: &Store, context: &QueryContext, solution: &Solution, row: &Vec<Object>, expr: &Expr) -> (r: Object)
    requires
        row@.len() == solution.bindings@.len(),
    ensures
        plain_expr(store.extension_names(), *expr) ==> {
            &&& r@ == expr_value(store.ns(), context.timestamp, names_view(solution.bindings@), terms(row@),
                store.extension_names(), *expr)
        },
{
    eval_expr(store, context, solution, row, expr)
}

} // verus!
