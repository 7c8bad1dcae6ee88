//! Evaluation of the algebra of a SPARQL query against a store.
use vstd::prelude::*;
use crate::datetime::DateTime;
use crate::expression::{Expr, expr_text, expr_to_str, eval_row, expr_value, plain_expr};
use crate::namespace::ns_view;
use crate::object::{Object, Term, terms, term_friendly, ebv_spec, get_ebv};
use crate::operators::{op_equals, op_equals_spec, compare_spec, compare_values, term_is_nan, law_compare_antisymmetric};
use crate::solution::{
    Solution, SolutionRow, names_view, rows_view, position_of, find_name, copy_row, copy_names,
    copy_namespaces,
};
use crate::store::{Store, Graph, Entry, entries_view, entries_of, distinct_subjects, subject_index};
use crate::text::{concat_str, nat_to_string, nat_digits, str_eq, starts_with_str, seq_order, order_strs};
use crate::object::{float_lt, float_eq, float_lt_exec, float_eq_exec};

verus! {

/// A slot of a triple pattern: a variable to bind or a value to match.
pub enum Pattern {
    Variable(String),
    Constant(Object),
}

/// The subject, predicate and object patterns of a triple.
pub struct TriplePattern {
    pub subject: Pattern,
    pub predicate: Pattern,
    pub object: Pattern,
}

/// The algebra of a query's WHERE clause.
pub enum Algebra {
    Basic(TriplePattern),
    Group(Vec<Algebra>),
    Optional(Box<Algebra>),
    Bind(Expr, String),
    Filter(Expr),
}

/// What a query is evaluated with: its algebra, its solution modifiers, and the time that
/// NOW gives.
pub struct QueryContext {
    pub algebra: Algebra,
    pub order_by: Vec<Expr>,
    pub distinct: bool,
    pub limit: Option<usize>,
    pub timestamp: DateTime,
}

// ---- Bindings -----------------------------------------------------------------------------

pub open spec fn add_name(bs: Seq<Seq<char>>, v: Seq<char>) -> Seq<Seq<char>> {
    if bs.contains(v) { bs } else { bs.push(v) }
}

pub open spec fn add_pattern(bs: Seq<Seq<char>>, p: Pattern) -> Seq<Seq<char>> {
    match p {
        Pattern::Variable(v) => add_name(bs, v@),
        Pattern::Constant(_) => bs,
    }
}

/// The names with the variables that the algebra binds added, in order, each once.
pub open spec fn add_algebra(bs: Seq<Seq<char>>, a: Algebra) -> Seq<Seq<char>>
    decreases a,
{
    match a {
        Algebra::Basic(tp) => add_pattern(add_pattern(add_pattern(bs, tp.subject), tp.predicate), tp.object),
        Algebra::Group(v) => add_algebras(bs, v@),
        Algebra::Optional(b) => add_algebra(bs, *b),
        Algebra::Bind(_, v) => add_name(bs, v@),
        Algebra::Filter(_) => bs,
    }
}

pub open spec fn add_algebras(bs: Seq<Seq<char>>, s: Seq<Algebra>) -> Seq<Seq<char>>
    decreases s,
{
    if s.len() == 0 {
        bs
    } else {
        add_algebra(add_algebras(bs, s.drop_last()), s.last())
    }
}

fn contains_name(names: &Vec<String>, v: &str) -> (r: bool)
    ensures
        r == names_view(names@).contains(v@),
{
    match find_name(names, v) {
        Some(i) => {
            proof {
                crate::solution::lemma_position_of(names_view(names@), v@);
            }
            true
        },
        None => {
            proof {
                crate::solution::lemma_position_of(names_view(names@), v@);
            }
            false
        },
    }
}

fn push_name(names: &mut Vec<String>, v: &str)
    ensures
        names_view(final(names)@) == add_name(names_view(old(names)@), v@),
{
    if !contains_name(names, v) {
        let ghost before = names@;
        names.push(v.to_owned());
        assert(names_view(names@) =~= names_view(before).push(v@));
    }
}

fn push_pattern(names: &mut Vec<String>, p: &Pattern)
    ensures
        names_view(final(names)@) == add_pattern(names_view(old(names)@), *p),
{
    match p {
        Pattern::Variable(v) => push_name(names, v.as_str()),
        Pattern::Constant(_) => {},
    }
}

fn push_algebra(names: &mut Vec<String>, a: &Algebra)
    ensures
        names_view(final(names)@) == add_algebra(names_view(old(names)@), *a),
    decreases a,
{
    match a {
        Algebra::Basic(tp) => {
            push_pattern(names, &tp.subject);
            push_pattern(names, &tp.predicate);
            push_pattern(names, &tp.object);
        },
        Algebra::Group(v) => {
            let ghost start = names_view(names@);
            let mut i: usize = 0;
            assert(v@.take(0) =~= Seq::<Algebra>::empty());
            while i < v.len()
                invariant
                    i <= v.len(),
                    *a == Algebra::Group(*v),
                    names_view(names@) == add_algebras(start, v@.take(i as int)),
                decreases v.len() - i,
            {
                proof {
                    assert(decreases_to!(*a => a->Group_0));
                    assert(decreases_to!(*v => v@));
                    assert(decreases_to!(v@ => v@[i as int]));
                }
                push_algebra(names, &v[i]);
                i += 1;
                proof {
                    assert(v@.take(i as int).drop_last() =~= v@.take(i - 1));
                    assert(v@.take(i as int).last() == v@[i - 1]);
                }
            }
            assert(v@.take(v.len() as int) =~= v@);
        },
        Algebra::Optional(b) => {
            push_algebra(names, b);
        },
        Algebra::Bind(_, v) => push_name(names, v.as_str()),
        Algebra::Filter(_) => {},
    }
}

/// The names (from the SELECT clause) followed by the variables that the algebra binds and
/// that are not among them.
pub fn get_bindings(names: &Vec<String>, algebra: &Algebra) -> (r: Vec<String>)
    ensures
        names_view(r@) == add_algebra(names_view(names@), *algebra),
{
    let mut bindings = copy_names(names);
    push_algebra(&mut bindings, algebra);
    bindings
}

// ---- Text -----------------------------------------------------------------------------------

pub open spec fn pattern_text(ns: Seq<(Seq<char>, Seq<char>)>, p: Pattern) -> Seq<char> {
    match p {
        Pattern::Variable(v) => "?"@ + v@,
        Pattern::Constant(c) => term_friendly(c@, ns),
    }
}

pub fn pattern_to_str(store: &Store, pattern: &Pattern) -> (s: String)
    ensures
        s@ == pattern_text(store.ns(), *pattern),
{
    match pattern {
        Pattern::Variable(v) => concat_str("?", v.as_str()),
        Pattern::Constant(c) => c.to_friendly_str(store.namespaces()),
    }
}

pub open spec fn triple_pattern_text(ns: Seq<(Seq<char>, Seq<char>)>, p: TriplePattern) -> Seq<char> {
    "{subject: "@ + pattern_text(ns, p.subject) + ", predicate: "@ + pattern_text(ns, p.predicate)
        + ", object: "@ + pattern_text(ns, p.object) + "}"@
}

pub fn triple_pattern_to_str(store: &Store, pattern: &TriplePattern) -> (s: String)
    ensures
        s@ == triple_pattern_text(store.ns(), *pattern),
{
    let a = pattern_to_str(store, &pattern.subject);
    let b = pattern_to_str(store, &pattern.predicate);
    let c = pattern_to_str(store, &pattern.object);
    let x = concat_str("{subject: ", a.as_str());
    let y = concat_str(x.as_str(), ", predicate: ");
    let z = concat_str(y.as_str(), b.as_str());
    let w = concat_str(z.as_str(), ", object: ");
    let v = concat_str(w.as_str(), c.as_str());
    concat_str(v.as_str(), "}")
}

/// The text of an algebra: triple patterns, groups in brackets, "optional", binds and filters.
pub open spec fn algebra_text(ns: Seq<(Seq<char>, Seq<char>)>, a: Algebra) -> Seq<char>
    decreases a,
{
    match a {
        Algebra::Basic(p) => triple_pattern_text(ns, p),
        Algebra::Group(v) => "["@ + algebras_text(ns, v@) + "]"@,
        Algebra::Optional(b) => "optional "@ + algebra_text(ns, *b),
        Algebra::Bind(e, n) => n@ + " = "@ + expr_text(ns, e),
        Algebra::Filter(e) => "filter "@ + expr_text(ns, e),
    }
}

pub open spec fn algebras_text(ns: Seq<(Seq<char>, Seq<char>)>, s: Seq<Algebra>) -> Seq<char>
    decreases s,
{
    if s.len() == 0 {
        Seq::empty()
    } else if s.len() == 1 {
        algebra_text(ns, s[0])
    } else {
        algebras_text(ns, s.drop_last()) + ", "@ + algebra_text(ns, s.last())
    }
}

pub fn algebra_to_str(store: &Store, algebra: &Algebra) -> (s: String)
    ensures
        s@ == algebra_text(store.ns(), *algebra),
    decreases algebra,
{
    match algebra {
        Algebra::Basic(p) => triple_pattern_to_str(store, p),
        Algebra::Group(v) => {
            let mut out = String::new();
            let mut i: usize = 0;
            while i < v.len()
                invariant
                    i <= v.len(),
                    *algebra == Algebra::Group(*v),
                    out@ == algebras_text(store.ns(), v@.take(i as int)),
                decreases v.len() - i,
            {
                proof {
                    assert(decreases_to!(*algebra => algebra->Group_0));
                    assert(decreases_to!(*v => v@));
                    assert(decreases_to!(v@ => v@[i as int]));
                }
                let t = algebra_to_str(store, &v[i]);
                if i == 0 {
                    out = t;
                } else {
                    let a = concat_str(out.as_str(), ", ");
                    out = concat_str(a.as_str(), t.as_str());
                }
                i += 1;
                proof {
                    assert(v@.take(i as int).drop_last() =~= v@.take(i - 1));
                    assert(v@.take(i as int).last() == v@[i - 1]);
                    if i == 1 {
                        assert(v@.take(1)[0] == v@[0]);
                    }
                }
            }
            assert(v@.take(v.len() as int) =~= v@);
            let a = concat_str("[", out.as_str());
            concat_str(a.as_str(), "]")
        },
        Algebra::Optional(b) => {
            let t = algebra_to_str(store, b);
            concat_str("optional ", t.as_str())
        },
        Algebra::Bind(e, n) => {
            let t = expr_to_str(store, e);
            let a = concat_str(n.as_str(), " = ");
            concat_str(a.as_str(), t.as_str())
        },
        Algebra::Filter(e) => {
            let t = expr_to_str(store, e);
            concat_str("filter ", t.as_str())
        },
    }
}

/// The text of one row: each binding and value; the bindings that were not selected are
/// bracketed.
pub open spec fn row_item_text(names: Seq<Seq<char>>, num_selected: int, ns: Seq<(Seq<char>, Seq<char>)>, row: Seq<Term>, i: int) -> Seq<char> {
    (if i == num_selected { "["@ } else { ""@ }) + names[i] + ": "@ + term_friendly(row[i], ns)
        + (if i == names.len() - 1 && names.len() > num_selected { "]"@ } else { ""@ })
}

pub open spec fn row_text(names: Seq<Seq<char>>, num_selected: int, ns: Seq<(Seq<char>, Seq<char>)>, row: Seq<Term>, n: int) -> Seq<char>
    decreases n,
{
    if n <= 0 {
        Seq::empty()
    } else if n == 1 {
        row_item_text(names, num_selected, ns, row, 0)
    } else {
        row_text(names, num_selected, ns, row, n - 1) + ", "@ + row_item_text(names, num_selected, ns, row, n - 1)
    }
}

pub fn solution_row_to_str(store: &Store, solution: &Solution, row: &SolutionRow) -> (s: String)
    requires
        row@.len() <= solution.bindings@.len(),
    ensures
        s@ == row_text(names_view(solution.bindings@), solution.num_selected as int, store.ns(), terms(row@), row@.len() as int),
{
    let ghost names = names_view(solution.bindings@);
    let mut out = String::new();
    let mut i: usize = 0;
    while i < row.len()
        invariant
            i <= row.len() <= solution.bindings@.len(),
            names == names_view(solution.bindings@),
            out@ == row_text(names, solution.num_selected as int, store.ns(), terms(row@), i as int),
        decreases row.len() - i,
    {
        let value = row[i].to_friendly_str(store.namespaces());
        let prefix = if i == solution.num_selected { "[" } else { "" };
        let suffix = if i == solution.bindings.len() - 1 && solution.bindings.len() > solution.num_selected { "]" } else { "" };
        let a = concat_str(prefix, solution.bindings[i].as_str());
        let b = concat_str(a.as_str(), ": ");
        let c = concat_str(b.as_str(), value.as_str());
        let item = concat_str(c.as_str(), suffix);
        if i == 0 {
            out = item;
        } else {
            let d = concat_str(out.as_str(), ", ");
            out = concat_str(d.as_str(), item.as_str());
        }
        i += 1;
    }
    out
}

pub open spec fn rows_text(names: Seq<Seq<char>>, num_selected: int, ns: Seq<(Seq<char>, Seq<char>)>, rows: Seq<Seq<Term>>) -> Seq<char>
    decreases rows.len(),
{
    if rows.len() == 0 {
        Seq::empty()
    } else {
        rows_text(names, num_selected, ns, rows.drop_last()) + nat_digits((rows.len() - 1) as nat) + ": "@
            + row_text(names, num_selected, ns, rows.last(), rows.last().len() as int) + "   "@
    }
}

/// The rows of a solution, numbered, or "nothing".
pub open spec fn solution_text(names: Seq<Seq<char>>, num_selected: int, ns: Seq<(Seq<char>, Seq<char>)>, rows: Seq<Seq<Term>>) -> Seq<char> {
    if rows.len() == 0 { "nothing"@ } else { rows_text(names, num_selected, ns, rows) }
}

pub fn solution_to_str(store: &Store, solution: &Solution) -> (s: String)
    requires
        solution.wf(),
    ensures
        s@ == solution_text(names_view(solution.bindings@), solution.num_selected as int, store.ns(), rows_view(solution.rows@)),
{
    let ghost names = names_view(solution.bindings@);
    let ghost rows = rows_view(solution.rows@);
    let mut out = String::new();
    let mut i: usize = 0;
    while i < solution.rows.len()
        invariant
            i <= solution.rows.len(),
            solution.wf(),
            names == names_view(solution.bindings@),
            rows == rows_view(solution.rows@),
            out@ == rows_text(names, solution.num_selected as int, store.ns(), rows.take(i as int)),
        decreases solution.rows.len() - i,
    {
        let row = &solution.rows[i];
        assert(row@.len() == solution.bindings@.len());
        let t = solution_row_to_str(store, solution, row);
        let n = nat_to_string(i as u64);
        let a = concat_str(out.as_str(), n.as_str());
        let b = concat_str(a.as_str(), ": ");
        let c = concat_str(b.as_str(), t.as_str());
        out = concat_str(c.as_str(), "   ");
        i += 1;
        proof {
            assert(rows.take(i as int).drop_last() =~= rows.take(i - 1));
            assert(rows.take(i as int).last() == terms(row@));
        }
    }
    assert(rows.take(solution.rows.len() as int) =~= rows);
    if solution.rows.len() == 0 {
        "nothing".to_owned()
    } else {
        out
    }
}

// ---- Joins ----------------------------------------------------------------------------------

/// Whether two values are equal as `=` sees them.
pub open spec fn equal_terms(a: Term, b: Term) -> bool {
    op_equals_spec(a, b) == Term::Bool(true)
}

fn equal_objects(actual: &Object, expected: &Object) -> (r: bool)
    ensures
        r == equal_terms(actual@, expected@),
{
    match op_equals(actual, expected) {
        Object::BoolValue(v) => v,
        _ => false,
    }
}

/// Rows are compatible when the values that both bind (of the first `n`) are equal.
pub open spec fn compatible(n: int, l: Seq<Term>, r: Seq<Term>) -> bool {
    forall|i: int| 0 <= i < n && !(l[i] is Unbound) && !(r[i] is Unbound) ==> equal_terms(#[trigger] l[i], r[i])
}

/// The values of `l`, with those it leaves unbound (of the first `n`) taken from `r`.
pub open spec fn union_row(n: int, l: Seq<Term>, r: Seq<Term>) -> Seq<Term> {
    Seq::new(l.len(), |i: int| if i < n && l[i] is Unbound && !(r[i] is Unbound) { r[i] } else { l[i] })
}

/// The unions of `l` with each compatible row of `rs`, in order.
pub open spec fn row_matches(n: int, l: Seq<Term>, rs: Seq<Seq<Term>>) -> Seq<Seq<Term>>
    decreases rs.len(),
{
    if rs.len() == 0 {
        Seq::empty()
    } else {
        let m = row_matches(n, l, rs.drop_last());
        if compatible(n, l, rs.last()) { m.push(union_row(n, l, rs.last())) } else { m }
    }
}

/// What one row of the first group contributes: its matches, or (for an optional join)
/// itself when it has none.
pub open spec fn row_join(n: int, l: Seq<Term>, rs: Seq<Seq<Term>>, optional: bool) -> Seq<Seq<Term>> {
    let m = row_matches(n, l, rs);
    if m.len() == 0 && optional { seq![l] } else { m }
}

/// The join of two groups of rows.
pub open spec fn join_rows(n: int, ls: Seq<Seq<Term>>, rs: Seq<Seq<Term>>, optional: bool) -> Seq<Seq<Term>>
    decreases ls.len(),
{
    if ls.len() == 0 {
        Seq::empty()
    } else {
        join_rows(n, ls.drop_last(), rs, optional) + row_join(n, ls.last(), rs, optional)
    }
}

/// Two rows from the two groups of a join agree where they meet: both are `n` values long,
/// and in each column their values are the same where either sees them as equal or both
/// are unbound.
pub open spec fn rows_agree(n: int, l: Seq<Term>, r: Seq<Term>) -> bool {
    &&& l.len() == n
    &&& r.len() == n
    &&& forall|i: int| 0 <= i < n && (equal_terms(l[i], r[i]) || equal_terms(r[i], l[i])
            || (l[i] is Unbound && r[i] is Unbound)) ==> #[trigger] l[i] == r[i]
}

/// Every row of one group agrees with every row of the other.
pub open spec fn groups_agree(n: int, ls: Seq<Seq<Term>>, rs: Seq<Seq<Term>>) -> bool {
    forall|a: int, b: int| 0 <= a < ls.len() && 0 <= b < rs.len() ==> rows_agree(n, #[trigger] ls[a], #[trigger] rs[b])
}

proof fn lemma_pair_symmetric(n: int, l: Seq<Term>, r: Seq<Term>)
    requires
        rows_agree(n, l, r),
    ensures
        compatible(n, l, r) == compatible(n, r, l),
        compatible(n, l, r) ==> union_row(n, l, r) == union_row(n, r, l),
{
    if compatible(n, l, r) {
        assert forall|i: int| 0 <= i < n && !(r[i] is Unbound) && !(l[i] is Unbound) implies equal_terms(#[trigger] r[i], l[i]) by {
            assert(equal_terms(l[i], r[i]));
            assert(l[i] == r[i]);
        }
        assert forall|i: int| 0 <= i < l.len() implies #[trigger] union_row(n, l, r)[i] == union_row(n, r, l)[i] by {
            if !(l[i] is Unbound) && !(r[i] is Unbound) {
                assert(equal_terms(l[i], r[i]));
            }
        }
        assert(union_row(n, l, r) =~= union_row(n, r, l));
    }
    if compatible(n, r, l) {
        assert forall|i: int| 0 <= i < n && !(l[i] is Unbound) && !(r[i] is Unbound) implies equal_terms(#[trigger] l[i], r[i]) by {
            assert(equal_terms(r[i], l[i]));
            assert(l[i] == r[i]);
        }
    }
}

/// The unions of each compatible row of `xs` with `y`, in order.
pub open spec fn col_matches(n: int, xs: Seq<Seq<Term>>, y: Seq<Term>) -> Seq<Seq<Term>>
    decreases xs.len(),
{
    if xs.len() == 0 {
        Seq::empty()
    } else {
        let m = col_matches(n, xs.drop_last(), y);
        if compatible(n, xs.last(), y) { m.push(union_row(n, xs.last(), y)) } else { m }
    }
}

proof fn lemma_col_is_row_matches(n: int, xs: Seq<Seq<Term>>, y: Seq<Term>)
    requires
        forall|a: int| 0 <= a < xs.len() ==> rows_agree(n, #[trigger] xs[a], y),
    ensures
        col_matches(n, xs, y) == row_matches(n, y, xs),
    decreases xs.len(),
{
    if xs.len() > 0 {
        let d = xs.drop_last();
        assert forall|a: int| 0 <= a < d.len() implies rows_agree(n, #[trigger] d[a], y) by {
            assert(d[a] == xs[a]);
        }
        lemma_col_is_row_matches(n, d, y);
        assert(xs.last() == xs[xs.len() - 1]);
        lemma_pair_symmetric(n, xs.last(), y);
    }
}

proof fn lemma_join_push_right(n: int, xs: Seq<Seq<Term>>, ys: Seq<Seq<Term>>, y: Seq<Term>)
    ensures
        join_rows(n, xs, ys.push(y), false).to_multiset()
            == join_rows(n, xs, ys, false).to_multiset().add(col_matches(n, xs, y).to_multiset()),
    decreases xs.len(),
{
    broadcast use vstd::multiset::group_multiset_axioms;
    broadcast use vstd::seq_lib::group_to_multiset_ensures;
    if xs.len() == 0 {
        assert(join_rows(n, xs, ys.push(y), false).to_multiset() =~= vstd::multiset::Multiset::empty());
        assert(join_rows(n, xs, ys, false).to_multiset() =~= vstd::multiset::Multiset::empty());
        assert(col_matches(n, xs, y).to_multiset() =~= vstd::multiset::Multiset::empty());
    } else {
        let d = xs.drop_last();
        let x = xs.last();
        lemma_join_push_right(n, d, ys, y);
        let a = join_rows(n, d, ys.push(y), false);
        let b = row_matches(n, x, ys.push(y));
        let a0 = join_rows(n, d, ys, false);
        let b0 = row_matches(n, x, ys);
        let c0 = col_matches(n, d, y);
        assert(ys.push(y).drop_last() =~= ys);
        vstd::seq_lib::lemma_multiset_commutative(a, b);
        vstd::seq_lib::lemma_multiset_commutative(a0, b0);
        if compatible(n, x, y) {
            let u = union_row(n, x, y);
            assert(b == b0.push(u));
            assert(col_matches(n, xs, y) == c0.push(u));
            assert(join_rows(n, xs, ys.push(y), false).to_multiset()
                =~= join_rows(n, xs, ys, false).to_multiset().add(col_matches(n, xs, y).to_multiset()));
        } else {
            assert(b == b0);
            assert(col_matches(n, xs, y) == c0);
            assert(join_rows(n, xs, ys.push(y), false).to_multiset()
                =~= join_rows(n, xs, ys, false).to_multiset().add(col_matches(n, xs, y).to_multiset()));
        }
    }
}

proof fn lemma_join_with_none(n: int, xs: Seq<Seq<Term>>)
    ensures
        join_rows(n, xs, Seq::empty(), false).len() == 0,
    decreases xs.len(),
{
    if xs.len() > 0 {
        lemma_join_with_none(n, xs.drop_last());
    }
}

/// Joining is commutative: where the two groups' rows agree (see `groups_agree`), joining
/// them either way round gives the same rows, as a multiset.
pub proof fn law_join_commutative(n: int, ls: Seq<Seq<Term>>, rs: Seq<Seq<Term>>)
    requires
        groups_agree(n, ls, rs),
    ensures
        join_rows(n, ls, rs, false).to_multiset() == join_rows(n, rs, ls, false).to_multiset(),
    decreases rs.len(),
{
    broadcast use vstd::multiset::group_multiset_axioms;
    broadcast use vstd::seq_lib::group_to_multiset_ensures;
    if rs.len() == 0 {
        assert(rs =~= Seq::<Seq<Term>>::empty());
        lemma_join_with_none(n, ls);
        assert(join_rows(n, ls, rs, false) =~= Seq::<Seq<Term>>::empty());
        assert(join_rows(n, rs, ls, false) =~= Seq::<Seq<Term>>::empty());
    } else {
        let d = rs.drop_last();
        let r = rs.last();
        assert forall|a: int, b: int| 0 <= a < ls.len() && 0 <= b < d.len() implies rows_agree(n, #[trigger] ls[a], #[trigger] d[b]) by {
            assert(d[b] == rs[b]);
            assert(rows_agree(n, ls[a], rs[b]));
        }
        law_join_commutative(n, ls, d);
        assert(rs == d.push(r));
        lemma_join_push_right(n, ls, d, r);
        assert forall|a: int| 0 <= a < ls.len() implies rows_agree(n, #[trigger] ls[a], r) by {
            assert(r == rs[rs.len() - 1]);
            assert(rows_agree(n, ls[a], rs[rs.len() - 1]));
        }
        lemma_col_is_row_matches(n, ls, r);
        vstd::seq_lib::lemma_multiset_commutative(join_rows(n, d, ls, false), row_matches(n, r, ls));
    }
}

/// An OPTIONAL join keeps every row of the first group: each contributes at least one row.
pub proof fn law_optional_join_keeps_left(n: int, ls: Seq<Seq<Term>>, rs: Seq<Seq<Term>>)
    ensures
        join_rows(n, ls, rs, true).len() >= ls.len(),
    decreases ls.len(),
{
    if ls.len() > 0 {
        law_optional_join_keeps_left(n, ls.drop_last(), rs);
    }
}

/// Joining with no rows gives no rows; an OPTIONAL join with no rows gives the first group
/// unchanged.
pub proof fn law_join_with_no_rows(n: int, ls: Seq<Seq<Term>>)
    ensures
        join_rows(n, ls, Seq::empty(), false) == Seq::<Seq<Term>>::empty(),
        join_rows(n, ls, Seq::empty(), true) == ls,
    decreases ls.len(),
{
    if ls.len() > 0 {
        law_join_with_no_rows(n, ls.drop_last());
        assert(row_matches(n, ls.last(), Seq::empty()) == Seq::<Seq<Term>>::empty());
        assert(join_rows(n, ls, Seq::empty(), false) =~= Seq::<Seq<Term>>::empty());
        assert(join_rows(n, ls, Seq::empty(), true) =~= ls.drop_last() + seq![ls.last()]);
        assert(ls.drop_last() + seq![ls.last()] =~= ls);
    }
}

fn compatible_row(n: usize, lhs: &SolutionRow, rhs: &SolutionRow) -> (r: bool)
    requires
        n <= lhs@.len(),
        n <= rhs@.len(),
    ensures
        r == compatible(n as int, terms(lhs@), terms(rhs@)),
{
    let ghost l = terms(lhs@);
    let ghost rr = terms(rhs@);
    let mut i: usize = 0;
    while i < n
        invariant
            i <= n <= lhs@.len(),
            n <= rhs@.len(),
            l == terms(lhs@),
            rr == terms(rhs@),
            forall|k: int| 0 <= k < i && !(l[k] is Unbound) && !(rr[k] is Unbound) ==> equal_terms(#[trigger] l[k], rr[k]),
        decreases n - i,
    {
        assert(l[i as int] == lhs@[i as int]@);
        assert(rr[i as int] == rhs@[i as int]@);
        if !lhs[i].is_unbound() && !rhs[i].is_unbound() {
            if !equal_objects(&lhs[i], &rhs[i]) {
                return false;
            }
        }
        i += 1;
    }
    true
}

fn union_rows(n: usize, lhs: &SolutionRow, rhs: &SolutionRow) -> (r: SolutionRow)
    requires
        n <= lhs@.len(),
        n <= rhs@.len(),
    ensures
        terms(r@) == union_row(n as int, terms(lhs@), terms(rhs@)),
        r@.len() == lhs@.len(),
{
    let ghost l = terms(lhs@);
    let ghost rr = terms(rhs@);
    let mut out: SolutionRow = Vec::new();
    let mut i: usize = 0;
    while i < lhs.len()
        invariant
            i <= lhs@.len(),
            n <= lhs@.len(),
            n <= rhs@.len(),
            l == terms(lhs@),
            rr == terms(rhs@),
            terms(out@) == union_row(n as int, l, rr).take(i as int),
        decreases lhs.len() - i,
    {
        let ghost before = out@;
        if i < n && lhs[i].is_unbound() && !rhs[i].is_unbound() {
            out.push(rhs[i].copy());
        } else {
            out.push(lhs[i].copy());
        }
        i += 1;
        proof {
            assert(terms(out@) =~= terms(before).push(union_row(n as int, l, rr)[i - 1]));
            assert(union_row(n as int, l, rr).take(i as int) =~= union_row(n as int, l, rr).take(i - 1).push(union_row(n as int, l, rr)[i - 1]));
        }
    }
    assert(union_row(n as int, l, rr).take(lhs.len() as int) =~= union_row(n as int, l, rr));
    out
}

/// The union of each row of group1 with the compatible rows of group2, where rows are
/// compatible if the values that they both bind are equal. For OPTIONAL groups
/// (`optional_join`), a row of group1 that has no compatible row is kept as it is.
pub fn join_solutions(store: &Store, group1: &Solution, group2: &Solution, optional_join: bool) -> (r: Solution)
    requires
        group1.wf(),
        group2.wf(),
        group1.bindings@.len() == group2.bindings@.len(),
    ensures
        r.wf(),
        ns_view(r.namespaces@) == store.ns(),
        names_view(r.bindings@) == names_view(group1.bindings@),
        r.num_selected == group1.num_selected,
        rows_view(r.rows@) == join_rows(group1.bindings@.len() as int, rows_view(group1.rows@), rows_view(group2.rows@), optional_join),
{
    let n = group1.bindings.len();
    let ghost ls = rows_view(group1.rows@);
    let ghost rs = rows_view(group2.rows@);
    let mut result: Vec<SolutionRow> = Vec::new();
    let mut i: usize = 0;
    while i < group1.rows.len()
        invariant
            i <= group1.rows@.len(),
            group1.wf(),
            group2.wf(),
            n == group1.bindings@.len() == group2.bindings@.len(),
            ls == rows_view(group1.rows@),
            rs == rows_view(group2.rows@),
            forall|k: int| 0 <= k < result@.len() ==> #[trigger] result@[k]@.len() == n,
            rows_view(result@) == join_rows(n as int, ls.take(i as int), rs, optional_join),
        decreases group1.rows.len() - i,
    {
        let lhs = &group1.rows[i];
        assert(lhs@.len() == n);
        let ghost base = rows_view(result@);
        let count = result.len();
        let mut j: usize = 0;
        while j < group2.rows.len()
            invariant
                j <= group2.rows@.len(),
                group2.wf(),
                lhs@.len() == n == group2.bindings@.len(),
                rs == rows_view(group2.rows@),
                count <= result@.len(),
                forall|k: int| 0 <= k < result@.len() ==> #[trigger] result@[k]@.len() == n,
                base.len() == count,
                rows_view(result@) == base + row_matches(n as int, terms(lhs@), rs.take(j as int)),
            decreases group2.rows.len() - j,
        {
            let rhs = &group2.rows[j];
            assert(rhs@.len() == n);
            let ghost before = result@;
            if compatible_row(n, lhs, rhs) {
                let u = union_rows(n, lhs, rhs);
                result.push(u);
                proof {
                    assert(rows_view(result@) =~= rows_view(before).push(terms(u@)));
                }
            }
            j += 1;
            proof {
                assert(rs.take(j as int).drop_last() =~= rs.take(j - 1));
                assert(rs.take(j as int).last() == terms(rhs@));
            }
        }
        assert(rs.take(group2.rows.len() as int) =~= rs);
        if result.len() == count && optional_join {
            let ghost before = result@;
            result.push(copy_row(lhs));
            proof {
                assert(rows_view(before) =~= base);
                assert(row_matches(n as int, terms(lhs@), rs).len() == 0);
            }
        }
        i += 1;
        proof {
            assert(ls.take(i as int).drop_last() =~= ls.take(i - 1));
            assert(ls.take(i as int).last() == terms(lhs@));
            assert(rows_view(result@) =~= join_rows(n as int, ls.take(i as int), rs, optional_join));
        }
    }
    assert(ls.take(group1.rows.len() as int) =~= ls);
    let r = Solution {
        namespaces: copy_namespaces(store.namespaces()),
        bindings: copy_names(&group1.bindings),
        num_selected: group1.num_selected,
        rows: result,
    };
    assert(r.bindings@.len() == names_view(r.bindings@).len());
    r
}

// ---- Basic graph patterns -------------------------------------------------------------------

/// A row with every binding unbound.
pub open spec fn unbound_row(n: nat) -> Seq<Term> {
    Seq::new(n, |i: int| Term::Unbound(Seq::empty()))
}

/// A subject name as a value: a blank node for names starting with "_:", else an IRI.
pub open spec fn subject_term(actual: Seq<char>) -> Term {
    if "_:"@.is_prefix_of(actual) { Term::Blank(actual) } else { Term::Iri(actual) }
}

pub open spec fn pattern_var_in(names: Seq<Seq<char>>, p: Pattern) -> bool {
    match p {
        Pattern::Variable(v) => names.contains(v@),
        Pattern::Constant(_) => true,
    }
}

/// Whether the variables of a triple pattern are among the names.
pub open spec fn triple_vars_in(names: Seq<Seq<char>>, tp: TriplePattern) -> bool {
    pattern_var_in(names, tp.subject) && pattern_var_in(names, tp.predicate) && pattern_var_in(names, tp.object)
}

/// Matching a subject: a variable binds it; a constant IRI or blank node must equal it.
pub open spec fn match_subject_spec(names: Seq<Seq<char>>, actual: Seq<char>, p: Pattern, row: Seq<Term>) -> Option<Seq<Term>> {
    match p {
        Pattern::Variable(v) => Some(row.update(position_of(names, v@)->0, subject_term(actual))),
        Pattern::Constant(c) => match c@ {
            Term::Iri(x) => if actual == x { Some(row) } else { None },
            Term::Blank(x) => if actual == x { Some(row) } else { None },
            _ => None,
        },
    }
}

/// Binding a variable that is already bound is an error.
pub open spec fn bind_var(names: Seq<Seq<char>>, v: Seq<char>, value: Term, row: Seq<Term>) -> Result<Option<Seq<Term>>, Seq<char>> {
    let i = position_of(names, v)->0;
    if row[i] is Unbound {
        Ok(Some(row.update(i, value)))
    } else {
        Err("Binding ?"@ + v + " was set more than once."@)
    }
}

/// Matching a predicate: a variable binds it; a constant IRI must equal it.
pub open spec fn match_predicate_spec(names: Seq<Seq<char>>, actual: Seq<char>, p: Pattern, row: Seq<Term>) -> Result<Option<Seq<Term>>, Seq<char>> {
    match p {
        Pattern::Variable(v) => bind_var(names, v@, Term::Iri(actual), row),
        Pattern::Constant(c) => match c@ {
            Term::Iri(x) => Ok(if actual == x { Some(row) } else { None }),
            _ => Ok(None),
        },
    }
}

/// Matching an object: a variable binds it; a constant must be equal to it as `=` sees it.
pub open spec fn match_object_spec(names: Seq<Seq<char>>, actual: Term, p: Pattern, row: Seq<Term>) -> Result<Option<Seq<Term>>, Seq<char>> {
    match p {
        Pattern::Variable(v) => bind_var(names, v@, actual, row),
        Pattern::Constant(c) => Ok(if equal_terms(actual, c@) { Some(row) } else { None }),
    }
}

/// The row that one statement gives for a triple pattern, if it matches.
pub open spec fn entry_match(names: Seq<Seq<char>>, s: Seq<char>, e: (Seq<char>, Term), tp: TriplePattern) -> Result<Option<Seq<Term>>, Seq<char>> {
    match match_subject_spec(names, s, tp.subject, unbound_row(names.len())) {
        None => Ok(None),
        Some(r1) => match match_predicate_spec(names, e.0, tp.predicate, r1) {
            Err(x) => Err(x),
            Ok(None) => Ok(None),
            Ok(Some(r2)) => match_object_spec(names, e.1, tp.object, r2),
        },
    }
}

/// The rows that a subject's statements give, in order; the first error stops the scan.
pub open spec fn scan_entries(names: Seq<Seq<char>>, s: Seq<char>, es: Seq<(Seq<char>, Term)>, tp: TriplePattern) -> Result<Seq<Seq<Term>>, Seq<char>>
    decreases es.len(),
{
    if es.len() == 0 {
        Ok(Seq::empty())
    } else {
        match scan_entries(names, s, es.drop_last(), tp) {
            Err(x) => Err(x),
            Ok(rows) => match entry_match(names, s, es.last(), tp) {
                Err(x) => Err(x),
                Ok(None) => Ok(rows),
                Ok(Some(r)) => Ok(rows.push(r)),
            },
        }
    }
}

/// The rows that the statements of a graph give, subject by subject.
pub open spec fn scan_graph(names: Seq<Seq<char>>, g: Graph, tp: TriplePattern) -> Result<Seq<Seq<Term>>, Seq<char>>
    decreases g.len(),
{
    if g.len() == 0 {
        Ok(Seq::empty())
    } else {
        match scan_graph(names, g.drop_last(), tp) {
            Err(x) => Err(x),
            Ok(rows) => match scan_entries(names, g.last().0, g.last().1, tp) {
                Err(x) => Err(x),
                Ok(more) => Ok(rows + more),
            },
        }
    }
}

/// The rows of a basic graph pattern: a constant IRI or blank subject looks at that subject
/// only, otherwise every subject is tried.
pub open spec fn basic_spec(names: Seq<Seq<char>>, g: Graph, tp: TriplePattern) -> Result<Seq<Seq<Term>>, Seq<char>> {
    match tp.subject {
        Pattern::Constant(c) => match c@ {
            Term::Iri(x) => scan_entries(names, x, entries_of(g, x), tp),
            Term::Blank(x) => scan_entries(names, x, entries_of(g, x), tp),
            _ => scan_graph(names, g, tp),
        },
        Pattern::Variable(_) => scan_graph(names, g, tp),
    }
}

/// Once a prefix of the statements gives an error, the scan gives that error.
pub proof fn lemma_scan_entries_err(names: Seq<Seq<char>>, s: Seq<char>, es: Seq<(Seq<char>, Term)>, tp: TriplePattern, j: int)
    requires
        0 <= j <= es.len(),
        scan_entries(names, s, es.take(j), tp) is Err,
    ensures
        scan_entries(names, s, es, tp) == scan_entries(names, s, es.take(j), tp),
    decreases es.len(),
{
    if j == es.len() {
        assert(es.take(j) =~= es);
    } else {
        assert(es.drop_last().take(j) =~= es.take(j));
        lemma_scan_entries_err(names, s, es.drop_last(), tp, j);
    }
}

/// Once a prefix of the subjects gives an error, the scan gives that error.
pub proof fn lemma_scan_graph_err(names: Seq<Seq<char>>, g: Graph, tp: TriplePattern, j: int)
    requires
        0 <= j <= g.len(),
        scan_graph(names, g.take(j), tp) is Err,
    ensures
        scan_graph(names, g, tp) == scan_graph(names, g.take(j), tp),
    decreases g.len(),
{
    if j == g.len() {
        assert(g.take(j) =~= g);
    } else {
        assert(g.drop_last().take(j) =~= g.take(j));
        lemma_scan_graph_err(names, g.drop_last(), tp, j);
    }
}

fn unbound_row_exec(n: usize) -> (r: SolutionRow)
    ensures
        terms(r@) == unbound_row(n as nat),
        r@.len() == n,
{
    let mut r: SolutionRow = Vec::new();
    let mut i: usize = 0;
    while i < n
        invariant
            i <= n,
            terms(r@) == unbound_row(i as nat),
            r@.len() == i,
        decreases n - i,
    {
        let ghost before = r@;
        let u = Object::unbound();
        r.push(u);
        i += 1;
        assert(terms(r@) =~= terms(before).push(Term::Unbound(Seq::empty())));
        assert(terms(r@) =~= unbound_row(i as nat));
    }
    r
}

fn var_position(bindings: &Vec<String>, v: &str) -> (i: usize)
    requires
        names_view(bindings@).contains(v@),
    ensures
        position_of(names_view(bindings@), v@) == Some(i as int),
        i < bindings@.len(),
{
    proof {
        crate::solution::lemma_position_of(names_view(bindings@), v@);
    }
    match find_name(bindings, v) {
        Some(i) => i,
        None => {
            proof {
                let k = choose|k: int| 0 <= k < names_view(bindings@).len() && names_view(bindings@)[k] == v@;
                assert(names_view(bindings@)[k] != v@);
            }
            0
        },
    }
}

fn match_subject(bindings: &Vec<String>, actual: &str, pattern: &Pattern, row: &mut SolutionRow) -> (r: bool)
    requires
        pattern_var_in(names_view(bindings@), *pattern),
        old(row)@.len() == bindings@.len(),
    ensures
        final(row)@.len() == old(row)@.len(),
        match match_subject_spec(names_view(bindings@), actual@, *pattern, terms(old(row)@)) {
            Some(r2) => r && terms(final(row)@) == r2,
            None => !r,
        },
{
    match pattern {
        Pattern::Variable(name) => {
            let i = var_position(bindings, name.as_str());
            let value = if starts_with_str(actual, "_:") {
                Object::BlankValue(actual.to_owned())
            } else {
                Object::IriValue(actual.to_owned())
            };
            let ghost before = row@;
            row.set(i, value);
            assert(terms(row@) =~= terms(before).update(i as int, subject_term(actual@)));
            true
        },
        Pattern::Constant(c) => match c {
            Object::IriValue(x) => str_eq(actual, x.as_str()),
            Object::BlankValue(x) => str_eq(actual, x.as_str()),
            _ => false,
        },
    }
}

fn bind_variable(bindings: &Vec<String>, v: &str, value: Object, row: &mut SolutionRow) -> (r: Result<bool, String>)
    requires
        names_view(bindings@).contains(v@),
        old(row)@.len() == bindings@.len(),
    ensures
        final(row)@.len() == old(row)@.len(),
        match bind_var(names_view(bindings@), v@, value@, terms(old(row)@)) {
            Ok(Some(r2)) => r == Ok::<bool, String>(true) && terms(final(row)@) == r2,
            Ok(None) => r == Ok::<bool, String>(false),
            Err(e) => r is Err && r->Err_0@ == e,
        },
{
    let i = var_position(bindings, v);
    assert(terms(row@)[i as int] == row@[i as int]@);
    if row[i].is_unbound() {
        let ghost before = row@;
        let ghost val = value@;
        row.set(i, value);
        assert(terms(row@) =~= terms(before).update(i as int, val));
        Ok(true)
    } else {
        let a = concat_str("Binding ?", v);
        Err(concat_str(a.as_str(), " was set more than once."))
    }
}

fn match_predicate(bindings: &Vec<String>, actual: &str, pattern: &Pattern, row: &mut SolutionRow) -> (r: Result<bool, String>)
    requires
        pattern_var_in(names_view(bindings@), *pattern),
        old(row)@.len() == bindings@.len(),
    ensures
        final(row)@.len() == old(row)@.len(),
        match match_predicate_spec(names_view(bindings@), actual@, *pattern, terms(old(row)@)) {
            Ok(Some(r2)) => r == Ok::<bool, String>(true) && terms(final(row)@) == r2,
            Ok(None) => r == Ok::<bool, String>(false),
            Err(e) => r is Err && r->Err_0@ == e,
        },
{
    match pattern {
        Pattern::Variable(name) => bind_variable(bindings, name.as_str(), Object::IriValue(actual.to_owned()), row),
        Pattern::Constant(c) => match c {
            Object::IriValue(x) => Ok(str_eq(actual, x.as_str())),
            _ => Ok(false),
        },
    }
}

fn match_object(bindings: &Vec<String>, actual: &Object, pattern: &Pattern, row: &mut SolutionRow) -> (r: Result<bool, String>)
    requires
        pattern_var_in(names_view(bindings@), *pattern),
        old(row)@.len() == bindings@.len(),
    ensures
        final(row)@.len() == old(row)@.len(),
        match match_object_spec(names_view(bindings@), actual@, *pattern, terms(old(row)@)) {
            Ok(Some(r2)) => r == Ok::<bool, String>(true) && terms(final(row)@) == r2,
            Ok(None) => r == Ok::<bool, String>(false),
            Err(e) => r is Err && r->Err_0@ == e,
        },
{
    match pattern {
        Pattern::Variable(name) => bind_variable(bindings, name.as_str(), actual.copy(), row),
        Pattern::Constant(expected) => Ok(equal_objects(actual, expected)),
    }
}

/// Appends the rows that a subject's statements give; returns the first error, if any.
fn scan_subject(bindings: &Vec<String>, subject: &str, entries: &Vec<Entry>, matcher: &TriplePattern, rows: &mut Vec<SolutionRow>) -> (r: Option<String>)
    requires
        triple_vars_in(names_view(bindings@), *matcher),
        forall|k: int| 0 <= k < old(rows)@.len() ==> #[trigger] old(rows)@[k]@.len() == bindings@.len(),
    ensures
        forall|k: int| 0 <= k < final(rows)@.len() ==> #[trigger] final(rows)@[k]@.len() == bindings@.len(),
        match scan_entries(names_view(bindings@), subject@, entries_view(entries@), *matcher) {
            Ok(more) => r is None && rows_view(final(rows)@) == rows_view(old(rows)@) + more,
            Err(e) => r is Some && r->0@ == e,
        },
{
    let ghost names = names_view(bindings@);
    let ghost es = entries_view(entries@);
    let ghost base = rows_view(rows@);
    let mut i: usize = 0;
    assert(rows_view(rows@) =~= base + Seq::<Seq<Term>>::empty());
    while i < entries.len()
        invariant
            i <= entries@.len(),
            names == names_view(bindings@),
            es == entries_view(entries@),
            triple_vars_in(names, *matcher),
            forall|k: int| 0 <= k < rows@.len() ==> #[trigger] rows@[k]@.len() == bindings@.len(),
            scan_entries(names, subject@, es.take(i as int), *matcher) matches Ok(done) && rows_view(rows@) == base + done,
        decreases entries.len() - i,
    {
        let entry = &entries[i];
        proof {
            assert(es.take(i + 1).drop_last() =~= es.take(i as int));
            assert(es.take(i + 1).last() == es[i as int]);
            assert(es[i as int] == (entry.predicate@, entry.object@));
        }
        let mut row = unbound_row_exec(bindings.len());
        if match_subject(bindings, subject, &matcher.subject, &mut row) {
            match match_predicate(bindings, entry.predicate.as_str(), &matcher.predicate, &mut row) {
                Ok(true) => {
                    match match_object(bindings, &entry.object, &matcher.object, &mut row) {
                        Ok(true) => {
                            let ghost before = rows@;
                            let ghost rv = terms(row@);
                            rows.push(row);
                            proof {
                                assert(rows_view(rows@) =~= rows_view(before).push(rv));
                                let done = scan_entries(names, subject@, es.take(i as int), *matcher)->Ok_0;
                                assert(base + done.push(rv) =~= (base + done).push(rv));
                            }
                        },
                        Ok(false) => {},
                        Err(e) => {
                            proof {
                                lemma_scan_entries_err(names, subject@, es, *matcher, i + 1);
                            }
                            return Some(e);
                        },
                    }
                },
                Ok(false) => {},
                Err(e) => {
                    proof {
                        lemma_scan_entries_err(names, subject@, es, *matcher, i + 1);
                    }
                    return Some(e);
                },
            }
        }
        i += 1;
    }
    assert(es.take(entries.len() as int) =~= es);
    None
}

/// Returns all the rows of the store that match the triple pattern.
pub fn eval_basic(store: &Store, bindings: Vec<String>, num_selected: usize, matcher: &TriplePattern) -> (r: Result<Solution, String>)
    requires
        triple_vars_in(names_view(bindings@), *matcher),
        num_selected <= bindings@.len(),
    ensures
        match r {
            Ok(sol) => {
                &&& sol.wf()
                &&& basic_spec(names_view(bindings@), store.graph(), *matcher) == Ok::<Seq<Seq<Term>>, Seq<char>>(rows_view(sol.rows@))
                &&& names_view(sol.bindings@) == names_view(bindings@)
                &&& sol.num_selected == num_selected
                &&& ns_view(sol.namespaces@) == store.ns()
            },
            Err(e) => basic_spec(names_view(bindings@), store.graph(), *matcher) == Err::<Seq<Seq<Term>>, Seq<char>>(e@),
        },
{
    let ghost names = names_view(bindings@);
    let ghost g = store.graph();
    let mut rows: Vec<SolutionRow> = Vec::new();
    let constant_subject: Option<&String> = match &matcher.subject {
        Pattern::Constant(Object::IriValue(x)) => Some(x),
        Pattern::Constant(Object::BlankValue(x)) => Some(x),
        _ => None,
    };
    match constant_subject {
        Some(x) => {
            match store.find_subject(x.as_str()) {
                Some(k) => {
                    let (name, entries) = store.subject_at(k);
                    proof {
                        let c = choose|i: int| 0 <= i < g.len() && g[i].0 == x@;
                        assert(g[c].0 == x@);
                    }
                    match scan_subject(&bindings, x.as_str(), entries, matcher, &mut rows) {
                        Some(e) => {
                            return Err(e);
                        },
                        None => {
                            assert(rows_view(rows@) =~= Seq::<Seq<Term>>::empty() + rows_view(rows@));
                        },
                    }
                },
                None => {
                    assert(entries_of(g, x@) =~= Seq::<(Seq<char>, Term)>::empty());
                    assert(rows_view(rows@) =~= Seq::<Seq<Term>>::empty());
                },
            }
        },
        None => {
            let count = store.subject_count();
            let mut i: usize = 0;
            assert(g.take(0) =~= Seq::<(Seq<char>, Seq<(Seq<char>, Term)>)>::empty());
            assert(rows_view(rows@) =~= Seq::<Seq<Term>>::empty());
            while i < count
                invariant
                    i <= count == g.len(),
                    g == store.graph(),
                    names == names_view(bindings@),
                    basic_spec(names, g, *matcher) == scan_graph(names, g, *matcher),
                    triple_vars_in(names, *matcher),
                    forall|k: int| 0 <= k < rows@.len() ==> #[trigger] rows@[k]@.len() == bindings@.len(),
                    scan_graph(names, g.take(i as int), *matcher) == Ok::<Seq<Seq<Term>>, Seq<char>>(rows_view(rows@)),
                decreases count - i,
            {
                let (name, entries) = store.subject_at(i);
                proof {
                    assert(g.take(i + 1).drop_last() =~= g.take(i as int));
                    assert(g.take(i + 1).last() == g[i as int]);
                }
                match scan_subject(&bindings, name.as_str(), entries, matcher, &mut rows) {
                    Some(e) => {
                        proof {
                            assert(g.take(i + 1).last().0 == name@);
                            lemma_scan_graph_err(names, g, *matcher, i + 1);
                        }
                        return Err(e);
                    },
                    None => {},
                }
                i += 1;
            }
            assert(g.take(count as int) =~= g);
        },
    }
    Ok(Solution { namespaces: copy_namespaces(store.namespaces()), bindings, num_selected, rows })
}

// ---- BIND and FILTER ---------------------------------------------------------------------

/// BIND over the rows from `i` on: each row's value of the expression is stored in the
/// binding `name`; the first row whose value is unbound, invalid or an error, or whose
/// binding is already set, stops it with a message (the rows before it keep their values).
pub open spec fn bind_loop(
    ns: Seq<(Seq<char>, Seq<char>)>,
    timestamp: DateTime,
    exts: Seq<Seq<char>>,
    names: Seq<Seq<char>>,
    rows: Seq<Seq<Term>>,
    e: Expr,
    name: Seq<char>,
    i: int,
) -> (Seq<Seq<Term>>, Option<Seq<char>>)
    decreases rows.len() - i,
{
    if i < 0 || i >= rows.len() {
        (rows, None)
    } else {
        let v = expr_value(ns, timestamp, names, rows[i], exts, e);
        let j = position_of(names, name)->0;
        match v {
            Term::Unbound(_) => (rows, Some("unbound variable"@)),
            Term::Invalid(lit, kind) => (rows, Some("?"@ + lit + " is not a valid "@ + kind)),
            Term::Error(m) => (rows, Some(m)),
            _ => if rows[i][j] is Unbound {
                bind_loop(ns, timestamp, exts, names, rows.update(i, rows[i].update(j, v)), e, name, i + 1)
            } else {
                (rows, Some("Binding ?"@ + name + " was set more than once."@))
            },
        }
    }
}

/// FILTER over the rows from `i` on: a row whose value is true stays, one whose value is
/// false is replaced by the last row (which is then dropped), and an error stops it.
pub open spec fn filter_loop(
    ns: Seq<(Seq<char>, Seq<char>)>,
    timestamp: DateTime,
    exts: Seq<Seq<char>>,
    names: Seq<Seq<char>>,
    rows: Seq<Seq<Term>>,
    e: Expr,
    i: int,
) -> (Seq<Seq<Term>>, Option<Seq<char>>)
    decreases rows.len() - i,
{
    if i < 0 || i >= rows.len() {
        (rows, None)
    } else {
        match ebv_spec(expr_value(ns, timestamp, names, rows[i], exts, e)) {
            Ok(b) => if b {
                filter_loop(ns, timestamp, exts, names, rows, e, i + 1)
            } else {
                filter_loop(ns, timestamp, exts, names, rows.update(i, rows.last()).drop_last(), e, i)
            },
            Err(m) => (rows, Some(m)),
        }
    }
}

proof fn lemma_swap_remove_rows(before: Seq<SolutionRow>, after: Seq<SolutionRow>, i: int, n: nat)
    requires
        0 <= i < before.len(),
        after == before.update(i, before.last()).drop_last(),
        forall|k: int| 0 <= k < before.len() ==> #[trigger] before[k]@.len() == n,
    ensures
        rows_view(after) == rows_view(before).update(i, rows_view(before).last()).drop_last(),
        forall|k: int| 0 <= k < after.len() ==> #[trigger] after[k]@.len() == n,
{
    assert(rows_view(after) =~= rows_view(before).update(i, rows_view(before).last()).drop_last());
    assert forall|k: int| 0 <= k < after.len() implies #[trigger] after[k]@.len() == n by {
        if k == i {
            assert(after[k] == before[before.len() - 1]);
        } else {
            assert(after[k] == before[k]);
        }
    }
}

fn invalid_message(lit: &str, kind: &str) -> (r: String)
    ensures
        r@ == "?"@ + lit@ + " is not a valid "@ + kind@,
{
    let a = concat_str("?", lit);
    let b = concat_str(a.as_str(), " is not a valid ");
    concat_str(b.as_str(), kind)
}

/// Evaluates the expression for each row and binds the value to `name`. Returns an error
/// message, if any (see `bind_loop`).
pub fn bind_solution(store: &Store, context: &QueryContext, solution: &mut Solution, expr: &Expr, name: &str) -> (r: Option<String>)
    requires
        old(solution).wf(),
        names_view(old(solution).bindings@).contains(name@),
    ensures
        final(solution).wf(),
        names_view(final(solution).bindings@) == names_view(old(solution).bindings@),
        ns_view(final(solution).namespaces@) == ns_view(old(solution).namespaces@),
        final(solution).num_selected == old(solution).num_selected,
        final(solution).rows@.len() == old(solution).rows@.len(),
        plain_expr(store.extension_names(), *expr) ==> {
            let res = bind_loop(store.ns(), context.timestamp, store.extension_names(),
                names_view(old(solution).bindings@), rows_view(old(solution).rows@), *expr, name@, 0);
            &&& rows_view(final(solution).rows@) == res.0
            &&& match r {
                Some(m) => res.1 == Some(m@),
                None => res.1 is None,
            }
        },
{
    let ghost names = names_view(solution.bindings@);
    let ghost exts = store.extension_names();
    let ghost ns = store.ns();
    let ghost ts = context.timestamp;
    let ghost exact = plain_expr(exts, *expr);
    let ghost target = bind_loop(ns, ts, exts, names, rows_view(solution.rows@), *expr, name@, 0);
    assert(target == bind_loop(ns, ts, exts, names, rows_view(old(solution).rows@), *expr, name@, 0));
    let ghost n0 = solution.rows@.len();
    let ghost nsv = ns_view(solution.namespaces@);
    let ghost sel = solution.num_selected;
    let j = var_position(&solution.bindings, name);
    let mut i: usize = 0;
    while i < solution.rows.len()
        invariant
            i <= solution.rows@.len() == n0,
            n0 == old(solution).rows@.len(),
            solution.wf(),
            nsv == ns_view(solution.namespaces@),
            sel == solution.num_selected,
            nsv == ns_view(old(solution).namespaces@),
            sel == old(solution).num_selected,
            names == names_view(old(solution).bindings@),
            exact == (plain_expr(store.extension_names(), *expr)),
            j < solution.bindings@.len(),
            position_of(names, name@) == Some(j as int),
            names == names_view(solution.bindings@),
            exts == store.extension_names(),
            ns == store.ns(),
            ts == context.timestamp,
            exact ==> plain_expr(exts, *expr),
            exact ==> bind_loop(ns, ts, exts, names, rows_view(solution.rows@), *expr, name@, i as int) == target,
            target == bind_loop(ns, ts, exts, names, rows_view(old(solution).rows@), *expr, name@, 0),
        decreases solution.rows.len() - i,
    {
        let ghost rows = rows_view(solution.rows@);
        let value = eval_row(store, context, &*solution, &solution.rows[i], expr);
        proof {
            assert(rows[i as int] == terms(solution.rows@[i as int]@));
        }
        match &value {
            Object::UnboundValue(_) => {
                return Some("unbound variable".to_owned());
            },
            Object::InvalidValue(lit, kind) => {
                return Some(invalid_message(lit.as_str(), kind.as_str()));
            },
            Object::ErrorValue(m) => {
                return Some(m.clone());
            },
            _ => {},
        }
        let ghost v = value@;
        assert(solution.rows@[i as int]@.len() == solution.bindings@.len());
        assert(terms(solution.rows@[i as int]@)[j as int] == solution.rows@[i as int]@[j as int]@);
        if solution.rows[i][j].is_unbound() {
            let mut row = copy_row(&solution.rows[i]);
            let ghost before_row = terms(row@);
            row.set(j, value);
            let ghost new_row = terms(row@);
            proof {
                assert(new_row =~= before_row.update(j as int, v));
            }
            solution.rows.set(i, row);
            proof {
                assert(rows_view(solution.rows@) =~= rows.update(i as int, rows[i as int].update(j as int, v)));
            }
            i += 1;
        } else {
            let a = concat_str("Binding ?", name);
            return Some(concat_str(a.as_str(), " was set more than once."));
        }
    }
    None
}

/// Evaluates the expression for each row; rows whose value is false are removed (by
/// moving the last row into their place). Returns an error message, if any.
pub fn filter_solution(store: &Store, context: &QueryContext, solution: &mut Solution, expr: &Expr) -> (r: Option<String>)
    requires
        old(solution).wf(),
    ensures
        final(solution).wf(),
        names_view(final(solution).bindings@) == names_view(old(solution).bindings@),
        ns_view(final(solution).namespaces@) == ns_view(old(solution).namespaces@),
        final(solution).num_selected == old(solution).num_selected,
        plain_expr(store.extension_names(), *expr) ==> {
            let res = filter_loop(store.ns(), context.timestamp, store.extension_names(),
                names_view(old(solution).bindings@), rows_view(old(solution).rows@), *expr, 0);
            &&& rows_view(final(solution).rows@) == res.0
            &&& match r {
                Some(m) => res.1 == Some(m@),
                None => res.1 is None,
            }
        },
{
    let ghost names = names_view(solution.bindings@);
    let ghost exts = store.extension_names();
    let ghost ns = store.ns();
    let ghost ts = context.timestamp;
    let ghost exact = plain_expr(exts, *expr);
    let ghost target = filter_loop(ns, ts, exts, names, rows_view(solution.rows@), *expr, 0);
    let ghost nsv = ns_view(solution.namespaces@);
    let ghost sel = solution.num_selected;
    let mut i: usize = 0;
    while i < solution.rows.len()
        invariant
            i <= solution.rows@.len(),
            solution.wf(),
            nsv == ns_view(solution.namespaces@),
            sel == solution.num_selected,
            nsv == ns_view(old(solution).namespaces@),
            sel == old(solution).num_selected,
            names == names_view(old(solution).bindings@),
            exact == (plain_expr(store.extension_names(), *expr)),
            names == names_view(solution.bindings@),
            exts == store.extension_names(),
            ns == store.ns(),
            ts == context.timestamp,
            exact ==> plain_expr(exts, *expr),
            exact ==> filter_loop(ns, ts, exts, names, rows_view(solution.rows@), *expr, i as int) == target,
            target == filter_loop(ns, ts, exts, names, rows_view(old(solution).rows@), *expr, 0),
            names == names_view(old(solution).bindings@),
            nsv == ns_view(old(solution).namespaces@),
            sel == old(solution).num_selected,
            exact == (plain_expr(store.extension_names(), *expr)),
        decreases solution.rows.len() - i,
    {
        let ghost rows = rows_view(solution.rows@);
        let value = eval_row(store, context, &*solution, &solution.rows[i], expr);
        proof {
            assert(rows[i as int] == terms(solution.rows@[i as int]@));
        }
        match get_ebv(&value) {
            Ok(true) => {
                i += 1;
            },
            Ok(false) => {
                let ghost before = solution.rows@;
                let _removed = solution.rows.swap_remove(i);
                proof {
                    lemma_swap_remove_rows(before, solution.rows@, i as int, solution.bindings@.len());
                }
            },
            Err(m) => {
                return Some(m);
            },
        }
    }
    None
}

// ---- Groups and the algebra ----------------------------------------------------------------

/// Whether every BIND and FILTER expression of the algebra is plain (see `plain_expr`).
pub open spec fn plain_algebra(exts: Seq<Seq<char>>, a: Algebra) -> bool
    decreases a,
{
    match a {
        Algebra::Basic(_) => true,
        Algebra::Group(v) => plain_algebras(exts, v@),
        Algebra::Optional(b) => plain_algebra(exts, *b),
        Algebra::Bind(e, _) => plain_expr(exts, e),
        Algebra::Filter(e) => plain_expr(exts, e),
    }
}

pub open spec fn plain_algebras(exts: Seq<Seq<char>>, s: Seq<Algebra>) -> bool
    decreases s,
{
    if s.len() == 0 { true } else { plain_algebras(exts, s.drop_last()) && plain_algebra(exts, s.last()) }
}

/// Whether the variables that the algebra binds are among the names.
pub open spec fn algebra_vars_in(names: Seq<Seq<char>>, a: Algebra) -> bool
    decreases a,
{
    match a {
        Algebra::Basic(tp) => triple_vars_in(names, tp),
        Algebra::Group(v) => algebras_vars_in(names, v@),
        Algebra::Optional(b) => algebra_vars_in(names, *b),
        Algebra::Bind(_, n) => names.contains(n@),
        Algebra::Filter(_) => true,
    }
}

pub open spec fn algebras_vars_in(names: Seq<Seq<char>>, s: Seq<Algebra>) -> bool
    decreases s,
{
    if s.len() == 0 { true } else { algebras_vars_in(names, s.drop_last()) && algebra_vars_in(names, s.last()) }
}

pub proof fn lemma_algebras_each(names: Seq<Seq<char>>, exts: Seq<Seq<char>>, s: Seq<Algebra>)
    ensures
        algebras_vars_in(names, s) <==> forall|i: int| 0 <= i < s.len() ==> algebra_vars_in(names, #[trigger] s[i]),
        plain_algebras(exts, s) <==> forall|i: int| 0 <= i < s.len() ==> plain_algebra(exts, #[trigger] s[i]),
    decreases s.len(),
{
    if s.len() > 0 {
        lemma_algebras_each(names, exts, s.drop_last());
        assert forall|i: int| 0 <= i < s.len() - 1 implies s.drop_last()[i] == s[i] by {}
    }
}

/// The rows of an algebra, or its error.
pub open spec fn algebra_spec(
    g: Graph,
    ns: Seq<(Seq<char>, Seq<char>)>,
    timestamp: DateTime,
    exts: Seq<Seq<char>>,
    names: Seq<Seq<char>>,
    a: Algebra,
) -> Result<Seq<Seq<Term>>, Seq<char>>
    decreases a, 0int,
{
    match a {
        Algebra::Basic(tp) => basic_spec(names, g, tp),
        Algebra::Group(v) => group_loop(g, ns, timestamp, exts, names, v@, 0, Seq::empty()),
        Algebra::Optional(b) => match algebra_spec(g, ns, timestamp, exts, names, *b) {
            Ok(rows) => Ok(rows),
            Err(_) => Ok(Seq::empty()),
        },
        Algebra::Bind(_, _) => Err("BIND should appear in a pattern group."@),
        Algebra::Filter(_) => Err("FILTER should appear last in a pattern group."@),
    }
}

/// A group from its `i`th term on, with the rows so far: filters and binds work on those
/// rows; other terms are evaluated and joined with them (OPTIONAL ones optionally); a term
/// that is not optional and has no rows ends the group with none.
pub open spec fn group_loop(
    g: Graph,
    ns: Seq<(Seq<char>, Seq<char>)>,
    timestamp: DateTime,
    exts: Seq<Seq<char>>,
    names: Seq<Seq<char>>,
    terms: Seq<Algebra>,
    i: int,
    acc: Seq<Seq<Term>>,
) -> Result<Seq<Seq<Term>>, Seq<char>>
    decreases terms, terms.len() - i,
{
    if i < 0 || i >= terms.len() {
        Ok(acc)
    } else {
        match terms[i] {
            Algebra::Filter(e) => {
                let res = filter_loop(ns, timestamp, exts, names, acc, e, 0);
                match res.1 {
                    Some(m) => Err(m),
                    None => group_loop(g, ns, timestamp, exts, names, terms, i + 1, res.0),
                }
            },
            Algebra::Bind(e, n) => {
                let res = bind_loop(ns, timestamp, exts, names, acc, e, n@, 0);
                match res.1 {
                    Some(m) => Err(m),
                    None => group_loop(g, ns, timestamp, exts, names, terms, i + 1, res.0),
                }
            },
            _ => match algebra_spec(g, ns, timestamp, exts, names, terms[i]) {
                Err(m) => Err(m),
                Ok(rows) => if terms[i] is Optional {
                    if acc.len() > 0 {
                        group_loop(g, ns, timestamp, exts, names, terms, i + 1, join_rows(names.len() as int, acc, rows, true))
                    } else {
                        group_loop(g, ns, timestamp, exts, names, terms, i + 1, acc)
                    }
                } else if rows.len() == 0 {
                    Ok(Seq::empty())
                } else if acc.len() > 0 {
                    group_loop(g, ns, timestamp, exts, names, terms, i + 1, join_rows(names.len() as int, acc, rows, false))
                } else if i == 0 {
                    group_loop(g, ns, timestamp, exts, names, terms, i + 1, rows)
                } else {
                    group_loop(g, ns, timestamp, exts, names, terms, i + 1, acc)
                },
            },
        }
    }
}

fn empty_solution(store: &Store, bindings: &Vec<String>, num_selected: usize) -> (r: Solution)
    requires
        num_selected <= bindings@.len(),
    ensures
        r.wf(),
        r.rows@.len() == 0,
        names_view(r.bindings@) == names_view(bindings@),
        r.num_selected == num_selected,
        ns_view(r.namespaces@) == store.ns(),
{
    let r = Solution {
        namespaces: copy_namespaces(store.namespaces()),
        bindings: copy_names(bindings),
        num_selected,
        rows: Vec::new(),
    };
    assert(r.bindings@.len() == names_view(r.bindings@).len());
    assert(bindings@.len() == names_view(bindings@).len());
    r
}

/// Evaluates an algebra against the store: the rows it matches, or an error message.
///
/// For a plain algebra (see `plain_algebra`) the rows are exactly those of `algebra_spec`.
pub fn eval_algebra(store: &Store, context: &QueryContext, bindings: &Vec<String>, num_selected: usize, algebra: &Algebra) -> (r: Result<Solution, String>)
    requires
        algebra_vars_in(names_view(bindings@), *algebra),
        num_selected <= bindings@.len(),
    ensures
        ({
            let exact = plain_algebra(store.extension_names(), *algebra);
            let spec = algebra_spec(store.graph(), store.ns(), context.timestamp, store.extension_names(),
                names_view(bindings@), *algebra);
            match r {
                Ok(sol) => {
                    &&& sol.wf()
                    &&& names_view(sol.bindings@) == names_view(bindings@)
                    &&& sol.num_selected == num_selected
                    &&& ns_view(sol.namespaces@) == store.ns()
                    &&& exact ==> spec == Ok::<Seq<Seq<Term>>, Seq<char>>(rows_view(sol.rows@))
                },
                Err(e) => exact ==> spec == Err::<Seq<Seq<Term>>, Seq<char>>(e@),
            }
        }),
    decreases algebra, 0int,
{
    match algebra {
        Algebra::Basic(tp) => {
            proof {
            }
            let names = copy_names(bindings);
            assert(names@.len() == names_view(names@).len());
            assert(bindings@.len() == names_view(bindings@).len());
            eval_basic(store, names, num_selected, tp)
        },
        Algebra::Group(v) => {
            proof {
                assert(decreases_to!(*algebra => algebra->Group_0));
            }
            eval_group(store, context, bindings, num_selected, v)
        },
        Algebra::Optional(b) => {
            proof {
                assert(decreases_to!(*algebra => algebra->Optional_0));
            }
            Ok(eval_optional(store, context, bindings, num_selected, b))
        },
        Algebra::Bind(_, _) => Err("BIND should appear in a pattern group.".to_owned()),
        Algebra::Filter(_) => Err("FILTER should appear last in a pattern group.".to_owned()),
    }
}

/// Evaluates an OPTIONAL term: its rows, or no rows when it fails.
pub fn eval_optional(store: &Store, context: &QueryContext, bindings: &Vec<String>, num_selected: usize, term: &Algebra) -> (r: Solution)
    requires
        algebra_vars_in(names_view(bindings@), *term),
        num_selected <= bindings@.len(),
    ensures
        r.wf(),
        names_view(r.bindings@) == names_view(bindings@),
        r.num_selected == num_selected,
        ns_view(r.namespaces@) == store.ns(),
        plain_algebra(store.extension_names(), *term) ==> {
            &&& algebra_spec(store.graph(), store.ns(), context.timestamp, store.extension_names(),
                names_view(bindings@), Algebra::Optional(Box::new(*term))) == Ok::<Seq<Seq<Term>>, Seq<char>>(rows_view(r.rows@))
        },
    decreases term, 1int,
{
    match eval_algebra(store, context, bindings, num_selected, term) {
        Ok(solution) => solution,
        Err(_) => {
            let r = empty_solution(store, bindings, num_selected);
            assert(rows_view(r.rows@) =~= Seq::<Seq<Term>>::empty());
            r
        },
    }
}

/// Evaluates the terms of a group in order (see `group_loop`): filters and binds work on the
/// rows so far, and other terms are joined with them.
pub fn eval_group(store: &Store, context: &QueryContext, bindings: &Vec<String>, num_selected: usize, terms: &Vec<Algebra>) -> (r: Result<Solution, String>)
    requires
        algebras_vars_in(names_view(bindings@), terms@),
        num_selected <= bindings@.len(),
    ensures
        ({
            let exact = plain_algebras(store.extension_names(), terms@);
            let spec = group_loop(store.graph(), store.ns(), context.timestamp, store.extension_names(),
                names_view(bindings@), terms@, 0, Seq::empty());
            match r {
                Ok(sol) => {
                    &&& sol.wf()
                    &&& names_view(sol.bindings@) == names_view(bindings@)
                    &&& sol.num_selected == num_selected
                    &&& ns_view(sol.namespaces@) == store.ns()
                    &&& exact ==> spec == Ok::<Seq<Seq<Term>>, Seq<char>>(rows_view(sol.rows@))
                },
                Err(e) => exact ==> spec == Err::<Seq<Seq<Term>>, Seq<char>>(e@),
            }
        }),
    decreases terms, 1int,
{
    let ghost names = names_view(bindings@);
    let ghost exts = store.extension_names();
    let ghost g = store.graph();
    let ghost ns = store.ns();
    let ghost ts = context.timestamp;
    let ghost exact = plain_algebras(exts, terms@);
    let ghost target = group_loop(g, ns, ts, exts, names, terms@, 0, Seq::empty());
    proof {
        lemma_algebras_each(names, exts, terms@);
    }
    let mut result = empty_solution(store, bindings, num_selected);
    assert(rows_view(result.rows@) =~= Seq::<Seq<Term>>::empty());
    let mut i: usize = 0;
    while i < terms.len()
        invariant
            i <= terms@.len(),
            result.wf(),
            names == names_view(bindings@),
            names == names_view(result.bindings@),
            result.bindings@.len() == bindings@.len(),
            result.num_selected == num_selected,
            num_selected <= bindings@.len(),
            ns_view(result.namespaces@) == store.ns(),
            exts == store.extension_names(),
            g == store.graph(),
            ns == store.ns(),
            ts == context.timestamp,
            forall|k: int| 0 <= k < terms@.len() ==> algebra_vars_in(names, #[trigger] terms@[k]),
            exact == (plain_algebras(exts, terms@)),
            exact ==> forall|k: int| 0 <= k < terms@.len() ==> plain_algebra(exts, #[trigger] terms@[k]),
            target == group_loop(g, ns, ts, exts, names, terms@, 0, Seq::empty()),
            exact ==> group_loop(g, ns, ts, exts, names, terms@, i as int, rows_view(result.rows@)) == target,
        decreases terms.len() - i,
    {
        let term = &terms[i];
        proof {
            assert(algebra_vars_in(names, terms@[i as int]));
            if exact {
                assert(plain_algebra(exts, terms@[i as int]));
            }
        }
        match term {
            Algebra::Filter(e) => {
                match filter_solution(store, context, &mut result, e) {
                    Some(m) => {
                        return Err(m);
                    },
                    None => {},
                }
            },
            Algebra::Bind(e, n) => {
                match bind_solution(store, context, &mut result, e, n.as_str()) {
                    Some(m) => {
                        return Err(m);
                    },
                    None => {},
                }
            },
            _ => {
                let is_optional = match term {
                    Algebra::Optional(_) => true,
                    _ => false,
                };
                proof {
                    assert(decreases_to!(*terms => terms@));
                    assert(decreases_to!(terms@ => terms@[i as int]));
                }
                match eval_algebra(store, context, bindings, num_selected, term) {
                    Err(m) => {
                        return Err(m);
                    },
                    Ok(solution) => {
                        if is_optional {
                            if result.rows.len() > 0 {
                                result = join_solutions(store, &result, &solution, true);
                            }
                        } else if solution.rows.len() == 0 {
                            let mut done = result;
                            done.rows = Vec::new();
                            assert(rows_view(done.rows@) =~= Seq::<Seq<Term>>::empty());
                            return Ok(done);
                        } else if result.rows.len() > 0 {
                            result = join_solutions(store, &result, &solution, false);
                        } else if i == 0 {
                            result = solution;
                        }
                    },
                }
            },
        }
        i += 1;
    }
    Ok(result)
}

// ---- ORDER BY ---------------------------------------------------------------------------

/// The sort key of one ORDER BY expression for a row: ascending unless it is DESC(..).
pub open spec fn order_key(
    ns: Seq<(Seq<char>, Seq<char>)>,
    timestamp: DateTime,
    exts: Seq<Seq<char>>,
    names: Seq<Seq<char>>,
    row: Seq<Term>,
    o: Expr,
) -> (bool, Term) {
    match o {
        Expr::CallExpr(n, args) => if n@ == "!desc"@ && args@.len() >= 1 {
            (false, expr_value(ns, timestamp, names, row, exts, args@[0]))
        } else if n@ == "!asc"@ && args@.len() >= 1 {
            (true, expr_value(ns, timestamp, names, row, exts, args@[0]))
        } else {
            (true, expr_value(ns, timestamp, names, row, exts, o))
        },
        _ => (true, expr_value(ns, timestamp, names, row, exts, o)),
    }
}

/// Whether the expressions of an ordering are plain (see `plain_expr`).
pub open spec fn plain_ordering(exts: Seq<Seq<char>>, os: Seq<Expr>) -> bool {
    forall|i: int| 0 <= i < os.len() ==> {
        let o = #[trigger] os[i];
        &&& plain_expr(exts, o)
        &&& (o matches Expr::CallExpr(_, args) ==> args@.len() >= 1 ==> plain_expr(exts, args@[0]))
    }
}

pub open spec fn row_key(
    ns: Seq<(Seq<char>, Seq<char>)>,
    timestamp: DateTime,
    exts: Seq<Seq<char>>,
    names: Seq<Seq<char>>,
    row: Seq<Term>,
    os: Seq<Expr>,
) -> Seq<(bool, Term)> {
    Seq::new(os.len(), |i: int| order_key(ns, timestamp, exts, names, row, os[i]))
}

/// The order of two sort keys: the first ordering value that is not equal decides (or errs).
pub open spec fn key_order(a: Seq<(bool, Term)>, b: Seq<(bool, Term)>) -> Result<int, Seq<char>>
    decreases a.len(),
{
    if a.len() == 0 || b.len() == 0 {
        Ok(0)
    } else {
        let c = if a[0].0 { compare_spec("<"@, a[0].1, b[0].1) } else { compare_spec("<"@, b[0].1, a[0].1) };
        if c == Ok::<int, Seq<char>>(0) { key_order(a.drop_first(), b.drop_first()) } else { c }
    }
}

/// `x` inserted after the last item whose key it does not sort before; a comparison error
/// stops the scan there and is reported.
pub open spec fn ins_keyed(sorted: Seq<(Seq<(bool, Term)>, Seq<Term>)>, x: (Seq<(bool, Term)>, Seq<Term>)) -> (Seq<(Seq<(bool, Term)>, Seq<Term>)>, Option<Seq<char>>)
    decreases sorted.len(),
{
    if sorted.len() == 0 {
        (seq![x], None)
    } else {
        match key_order(x.0, sorted.last().0) {
            Ok(c) => if c < 0 {
                let r = ins_keyed(sorted.drop_last(), x);
                (r.0.push(sorted.last()), r.1)
            } else {
                (sorted.push(x), None)
            },
            Err(e) => (sorted.push(x), Some(e)),
        }
    }
}

/// The items sorted by key (stably), with the first comparison error, if any.
pub open spec fn sort_keyed(items: Seq<(Seq<(bool, Term)>, Seq<Term>)>) -> (Seq<(Seq<(bool, Term)>, Seq<Term>)>, Option<Seq<char>>)
    decreases items.len(),
{
    if items.len() == 0 {
        (Seq::empty(), None)
    } else {
        let a = sort_keyed(items.drop_last());
        let b = ins_keyed(a.0, items.last());
        (b.0, if a.1 is Some { a.1 } else { b.1 })
    }
}

proof fn lemma_ins_keyed_rows(sorted: Seq<(Seq<(bool, Term)>, Seq<Term>)>, x: (Seq<(bool, Term)>, Seq<Term>))
    ensures
        ins_keyed(sorted, x).0.map_values(|it: (Seq<(bool, Term)>, Seq<Term>)| it.1).to_multiset()
            == sorted.map_values(|it: (Seq<(bool, Term)>, Seq<Term>)| it.1).to_multiset().insert(x.1),
    decreases sorted.len(),
{
    broadcast use vstd::seq_lib::to_multiset_build;
    if sorted.len() == 0 {
        assert(seq![x].map_values(|it: (Seq<(bool, Term)>, Seq<Term>)| it.1) =~= Seq::<Seq<Term>>::empty().push(x.1));
        assert(sorted.map_values(|it: (Seq<(bool, Term)>, Seq<Term>)| it.1) =~= Seq::<Seq<Term>>::empty());
    } else {
        let last = sorted.last();
        let front = sorted.drop_last();
        assert(sorted =~= front.push(last));
        assert(sorted.map_values(|it: (Seq<(bool, Term)>, Seq<Term>)| it.1)
            =~= front.map_values(|it: (Seq<(bool, Term)>, Seq<Term>)| it.1).push(last.1));
        assert(sorted.push(x).map_values(|it: (Seq<(bool, Term)>, Seq<Term>)| it.1)
            =~= sorted.map_values(|it: (Seq<(bool, Term)>, Seq<Term>)| it.1).push(x.1));
        match key_order(x.0, last.0) {
            Ok(c) => if c < 0 {
                let r = ins_keyed(front, x);
                lemma_ins_keyed_rows(front, x);
                assert(r.0.push(last).map_values(|it: (Seq<(bool, Term)>, Seq<Term>)| it.1)
                    =~= r.0.map_values(|it: (Seq<(bool, Term)>, Seq<Term>)| it.1).push(last.1));
                assert(front.map_values(|it: (Seq<(bool, Term)>, Seq<Term>)| it.1).to_multiset().insert(x.1).insert(last.1)
                    =~= front.map_values(|it: (Seq<(bool, Term)>, Seq<Term>)| it.1).to_multiset().insert(last.1).insert(x.1));
            } else {
            },
            Err(e) => {},
        }
    }
}

proof fn lemma_sort_keyed_rows(items: Seq<(Seq<(bool, Term)>, Seq<Term>)>)
    ensures
        sort_keyed(items).0.map_values(|it: (Seq<(bool, Term)>, Seq<Term>)| it.1).to_multiset()
            == items.map_values(|it: (Seq<(bool, Term)>, Seq<Term>)| it.1).to_multiset(),
    decreases items.len(),
{
    broadcast use vstd::seq_lib::to_multiset_build;
    if items.len() == 0 {
        assert(sort_keyed(items).0.map_values(|it: (Seq<(bool, Term)>, Seq<Term>)| it.1) =~= Seq::<Seq<Term>>::empty());
        assert(items.map_values(|it: (Seq<(bool, Term)>, Seq<Term>)| it.1) =~= Seq::<Seq<Term>>::empty());
    } else {
        lemma_sort_keyed_rows(items.drop_last());
        lemma_ins_keyed_rows(sort_keyed(items.drop_last()).0, items.last());
        assert(items =~= items.drop_last().push(items.last()));
        assert(items.map_values(|it: (Seq<(bool, Term)>, Seq<Term>)| it.1)
            =~= items.drop_last().map_values(|it: (Seq<(bool, Term)>, Seq<Term>)| it.1).push(items.last().1));
    }
}

/// The rows of an ORDER BY: sorted by their keys, or the first comparison error.
pub open spec fn order_spec(
    ns: Seq<(Seq<char>, Seq<char>)>,
    timestamp: DateTime,
    exts: Seq<Seq<char>>,
    names: Seq<Seq<char>>,
    rows: Seq<Seq<Term>>,
    os: Seq<Expr>,
) -> Result<Seq<Seq<Term>>, Seq<char>> {
    let items = Seq::new(rows.len(), |i: int| (row_key(ns, timestamp, exts, names, rows[i], os), rows[i]));
    let r = sort_keyed(items);
    match r.1 {
        Some(e) => Err(e),
        None => Ok(r.0.map_values(|it: (Seq<(bool, Term)>, Seq<Term>)| it.1)),
    }
}

/// Whether two sort keys are of one length and one direction at each position, hold no NaN,
/// and compare both ways.
pub open spec fn keys_comparable(a: Seq<(bool, Term)>, b: Seq<(bool, Term)>) -> bool {
    &&& a.len() == b.len()
    &&& key_order(a, b) is Ok
    &&& key_order(b, a) is Ok
    &&& forall|k: int| 0 <= k < a.len() ==> (#[trigger] a[k]).0 == b[k].0
    &&& forall|k: int| 0 <= k < a.len() ==> !term_is_nan(#[trigger] a[k].1)
    &&& forall|k: int| 0 <= k < b.len() ==> !term_is_nan(#[trigger] b[k].1)
}

/// Sort keys that compare both ways are ordered antisymmetrically.
proof fn lemma_key_order_antisymmetric(a: Seq<(bool, Term)>, b: Seq<(bool, Term)>)
    requires
        keys_comparable(a, b),
    ensures
        key_order(b, a)->Ok_0 == -key_order(a, b)->Ok_0,
    decreases a.len(),
{
    if a.len() > 0 {
        assert(a[0].0 == b[0].0);
        assert(!term_is_nan(a[0].1) && !term_is_nan(b[0].1));
        let (x, y) = if a[0].0 { (a[0].1, b[0].1) } else { (b[0].1, a[0].1) };
        let ca = compare_spec("<"@, x, y);
        let cb = compare_spec("<"@, y, x);
        assert(ca is Ok);
        assert(cb is Ok);
        law_compare_antisymmetric("<"@, x, y);
        if ca == Ok::<int, Seq<char>>(0) {
            let a1 = a.drop_first();
            let b1 = b.drop_first();
            assert forall|k: int| 0 <= k < a1.len() implies (#[trigger] a1[k]).0 == b1[k].0 by {
                assert(a1[k] == a[k + 1] && b1[k] == b[k + 1]);
            }
            assert forall|k: int| 0 <= k < a1.len() implies !term_is_nan(#[trigger] a1[k].1) by {
                assert(a1[k] == a[k + 1]);
            }
            assert forall|k: int| 0 <= k < b1.len() implies !term_is_nan(#[trigger] b1[k].1) by {
                assert(b1[k] == b[k + 1]);
            }
            lemma_key_order_antisymmetric(a1, b1);
        }
    }
}

/// Whether an ordering result places the first key before or with the second.
pub open spec fn not_after(r: Result<int, Seq<char>>) -> bool {
    r matches Ok(c) && c <= 0
}

/// Whether each item sorts before or with the next one.
pub open spec fn keys_in_order(s: Seq<(Seq<(bool, Term)>, Seq<Term>)>) -> bool {
    forall|k: int| 0 <= k < s.len() - 1 ==> not_after(#[trigger] key_order(s[k].0, s[k + 1].0))
}

proof fn lemma_ins_keyed_shape(s: Seq<(Seq<(bool, Term)>, Seq<Term>)>, x: (Seq<(bool, Term)>, Seq<Term>))
    ensures
        ins_keyed(s, x).0.len() == s.len() + 1,
        ins_keyed(s, x).0.last() == x || (s.len() > 0 && ins_keyed(s, x).0.last() == s.last()),
        forall|k: int| 0 <= k < ins_keyed(s, x).0.len() ==> #[trigger] ins_keyed(s, x).0[k] == x || s.contains(ins_keyed(s, x).0[k]),
    decreases s.len(),
{
    if s.len() > 0 {
        let d = s.drop_last();
        lemma_ins_keyed_shape(d, x);
        let r = ins_keyed(s, x).0;
        assert forall|k: int| 0 <= k < r.len() implies #[trigger] r[k] == x || s.contains(r[k]) by {
            if k < r.len() - 1 {
                if r != s.push(x) {
                    let q = ins_keyed(d, x).0;
                    assert(r[k] == q[k]);
                    if q[k] != x {
                        let m = choose|m: int| 0 <= m < d.len() && d[m] == q[k];
                        assert(s[m] == d[m]);
                    }
                } else {
                    assert(s[k] == r[k]);
                }
            } else {
                assert(s[s.len() - 1] == s.last());
            }
        }
    }
}

proof fn lemma_ins_keyed_in_order(s: Seq<(Seq<(bool, Term)>, Seq<Term>)>, x: (Seq<(bool, Term)>, Seq<Term>))
    requires
        keys_in_order(s),
        forall|k: int| 0 <= k < s.len() ==> keys_comparable(#[trigger] s[k].0, x.0),
        ins_keyed(s, x).1 is None,
    ensures
        keys_in_order(ins_keyed(s, x).0),
    decreases s.len(),
{
    let r = ins_keyed(s, x).0;
    if s.len() > 0 {
        let last = s.last();
        assert(s[s.len() - 1] == last);
        assert(keys_comparable(last.0, x.0));
        let c = key_order(x.0, last.0)->Ok_0;
        if c < 0 {
            let d = s.drop_last();
            assert forall|k: int| 0 <= k < d.len() - 1 implies not_after(#[trigger] key_order(d[k].0, d[k + 1].0)) by {
                assert(d[k] == s[k] && d[k + 1] == s[k + 1]);
                assert(not_after(key_order(s[k].0, s[k + 1].0)));
            }
            assert forall|k: int| 0 <= k < d.len() implies keys_comparable(#[trigger] d[k].0, x.0) by {
                assert(d[k] == s[k]);
            }
            lemma_ins_keyed_in_order(d, x);
            lemma_ins_keyed_shape(d, x);
            let q = ins_keyed(d, x).0;
            assert(r == q.push(last));
            assert forall|k: int| 0 <= k < r.len() - 1 implies not_after(#[trigger] key_order(r[k].0, r[k + 1].0)) by {
                if k < r.len() - 2 {
                    assert(r[k] == q[k] && r[k + 1] == q[k + 1]);
                    assert(not_after(key_order(q[k].0, q[k + 1].0)));
                } else {
                    assert(r[k] == q.last() && r[k + 1] == last);
                    if q.last() == x {
                    } else {
                        let j = s.len() - 2;
                        assert(d.len() > 0 && q.last() == d.last());
                        assert(d.last() == s[j] && last == s[j + 1]);
                        assert(not_after(key_order(s[j].0, s[j + 1].0)));
                    }
                }
            }
        } else {
            assert(r == s.push(x));
            lemma_key_order_antisymmetric(last.0, x.0);
            assert forall|k: int| 0 <= k < r.len() - 1 implies not_after(#[trigger] key_order(r[k].0, r[k + 1].0)) by {
                if k < r.len() - 2 {
                    assert(r[k] == s[k] && r[k + 1] == s[k + 1]);
                    assert(not_after(key_order(s[k].0, s[k + 1].0)));
                } else {
                    assert(r[k] == last && r[k + 1] == x);
                }
            }
        }
    }
}

proof fn lemma_sort_keyed_in_order(items: Seq<(Seq<(bool, Term)>, Seq<Term>)>)
    requires
        forall|i: int, j: int| 0 <= i < items.len() && 0 <= j < items.len() ==> keys_comparable(#[trigger] items[i].0, #[trigger] items[j].0),
    ensures
        sort_keyed(items).1 is None ==> keys_in_order(sort_keyed(items).0),
        forall|k: int| 0 <= k < sort_keyed(items).0.len() ==> items.contains(#[trigger] sort_keyed(items).0[k]),
    decreases items.len(),
{
    if items.len() > 0 {
        let d = items.drop_last();
        let x = items.last();
        assert forall|i: int, j: int| 0 <= i < d.len() && 0 <= j < d.len() implies keys_comparable(#[trigger] d[i].0, #[trigger] d[j].0) by {
            assert(d[i] == items[i] && d[j] == items[j]);
        }
        lemma_sort_keyed_in_order(d);
        let a = sort_keyed(d).0;
        lemma_ins_keyed_shape(a, x);
        assert forall|k: int| 0 <= k < a.len() implies keys_comparable(#[trigger] a[k].0, x.0) by {
            assert(d.contains(a[k]));
            let m = choose|m: int| 0 <= m < d.len() && d[m] == a[k];
            assert(items[m] == d[m]);
            assert(items[items.len() - 1] == x);
        }
        if sort_keyed(items).1 is None {
            lemma_ins_keyed_in_order(a, x);
        }
        let r = sort_keyed(items).0;
        assert forall|k: int| 0 <= k < r.len() implies items.contains(#[trigger] r[k]) by {
            if r[k] == x {
                assert(items[items.len() - 1] == x);
            } else {
                assert(a.contains(r[k]));
                let m = choose|m: int| 0 <= m < a.len() && a[m] == r[k];
                assert(d.contains(a[m]));
                let n = choose|n: int| 0 <= n < d.len() && d[n] == a[m];
                assert(items[n] == d[n]);
            }
        }
    }
}

/// ORDER BY puts the rows in order: where every two rows' keys (see `row_key`) compare both
/// ways and hold no NaN, the rows of a successful ORDER BY each sort before or with the
/// next, by their keys.
pub proof fn law_order_by_sorts(
    ns: Seq<(Seq<char>, Seq<char>)>,
    timestamp: DateTime,
    exts: Seq<Seq<char>>,
    names: Seq<Seq<char>>,
    rows: Seq<Seq<Term>>,
    os: Seq<Expr>,
)
    requires
        forall|i: int, j: int| 0 <= i < rows.len() && 0 <= j < rows.len() ==> keys_comparable(
            #[trigger] row_key(ns, timestamp, exts, names, rows[i], os),
            #[trigger] row_key(ns, timestamp, exts, names, rows[j], os),
        ),
    ensures
        order_spec(ns, timestamp, exts, names, rows, os) matches Ok(r) ==> forall|k: int| 0 <= k < r.len() - 1 ==>
            not_after(#[trigger] key_order(row_key(ns, timestamp, exts, names, r[k], os), row_key(ns, timestamp, exts, names, r[k + 1], os))),
{
    let items = Seq::new(rows.len(), |i: int| (row_key(ns, timestamp, exts, names, rows[i], os), rows[i]));
    assert forall|i: int, j: int| 0 <= i < items.len() && 0 <= j < items.len() implies keys_comparable(#[trigger] items[i].0, #[trigger] items[j].0) by {
        assert(items[i].0 == row_key(ns, timestamp, exts, names, rows[i], os));
        assert(items[j].0 == row_key(ns, timestamp, exts, names, rows[j], os));
    }
    lemma_sort_keyed_in_order(items);
    let sr = sort_keyed(items);
    if sr.1 is None {
        let r = sr.0.map_values(|it: (Seq<(bool, Term)>, Seq<Term>)| it.1);
        assert forall|k: int| 0 <= k < r.len() - 1 implies not_after(#[trigger] key_order(row_key(ns, timestamp, exts, names, r[k], os), row_key(ns, timestamp, exts, names, r[k + 1], os))) by {
            assert(items.contains(sr.0[k]));
            assert(items.contains(sr.0[k + 1]));
            let m = choose|m: int| 0 <= m < items.len() && items[m] == sr.0[k];
            let n = choose|n: int| 0 <= n < items.len() && items[n] == sr.0[k + 1];
            assert(sr.0[k].0 == row_key(ns, timestamp, exts, names, r[k], os));
            assert(sr.0[k + 1].0 == row_key(ns, timestamp, exts, names, r[k + 1], os));
            assert(not_after(key_order(sr.0[k].0, sr.0[k + 1].0)));
        }
    }
}

/// ORDER BY only reorders: the rows it gives are those it was given.
pub proof fn law_order_by_permutes(
    ns: Seq<(Seq<char>, Seq<char>)>,
    timestamp: DateTime,
    exts: Seq<Seq<char>>,
    names: Seq<Seq<char>>,
    rows: Seq<Seq<Term>>,
    os: Seq<Expr>,
)
    ensures
        order_spec(ns, timestamp, exts, names, rows, os) matches Ok(r) ==> r.to_multiset() == rows.to_multiset(),
{
    let items = Seq::new(rows.len(), |i: int| (row_key(ns, timestamp, exts, names, rows[i], os), rows[i]));
    lemma_sort_keyed_rows(items);
    assert(items.map_values(|it: (Seq<(bool, Term)>, Seq<Term>)| it.1) =~= rows);
}

pub open spec fn key_view(k: Seq<(bool, Object)>) -> Seq<(bool, Term)> {
    k.map_values(|p: (bool, Object)| (p.0, p.1@))
}

pub open spec fn items_view(keys: Seq<Vec<(bool, Object)>>, rows: Seq<SolutionRow>) -> Seq<(Seq<(bool, Term)>, Seq<Term>)> {
    Seq::new(keys.len(), |i: int| (key_view(keys[i]@), terms(rows[i]@)))
}

/// Orders two sort keys (see `key_order`).
fn compare_keys(a: &Vec<(bool, Object)>, b: &Vec<(bool, Object)>) -> (r: Result<i32, String>)
    requires
        a@.len() == b@.len(),
    ensures
        match r {
            Ok(c) => key_order(key_view(a@), key_view(b@)) == Ok::<int, Seq<char>>(c as int),
            Err(e) => key_order(key_view(a@), key_view(b@)) == Err::<int, Seq<char>>(e@),
        },
{
    let ghost ka = key_view(a@);
    let ghost kb = key_view(b@);
    let mut i: usize = 0;
    assert(ka.skip(0) =~= ka);
    assert(kb.skip(0) =~= kb);
    while i < a.len()
        invariant
            i <= a@.len() == b@.len(),
            ka == key_view(a@),
            kb == key_view(b@),
            key_order(ka, kb) == key_order(ka.skip(i as int), kb.skip(i as int)),
        decreases a.len() - i,
    {
        let x = &a[i];
        let y = &b[i];
        proof {
            assert(ka[i as int] == (x.0, x.1@));
            assert(kb[i as int] == (y.0, y.1@));
            assert(ka.skip(i as int)[0] == ka[i as int]);
            assert(kb.skip(i as int)[0] == kb[i as int]);
            assert(ka.skip(i as int).drop_first() =~= ka.skip(i + 1));
            assert(kb.skip(i as int).drop_first() =~= kb.skip(i + 1));
        }
        let c = if x.0 { compare_values("<", &x.1, &y.1) } else { compare_values("<", &y.1, &x.1) };
        match c {
            Ok(v) => {
                if v != 0 {
                    return Ok(v);
                }
            },
            Err(e) => {
                return Err(e);
            },
        }
        i += 1;
    }
    assert(ka.skip(a.len() as int).len() == 0);
    Ok(0)
}

/// Evaluates the sort key of a row.
fn eval_key(store: &Store, context: &QueryContext, solution: &Solution, row: &SolutionRow, ordering: &Vec<Expr>) -> (r: Vec<(bool, Object)>)
    requires
        row@.len() == solution.bindings@.len(),
    ensures
        r@.len() == ordering@.len(),
        plain_ordering(store.extension_names(), ordering@) ==> {
            &&& key_view(r@) == row_key(store.ns(), context.timestamp, store.extension_names(),
                names_view(solution.bindings@), terms(row@), ordering@)
        },
{
    let ghost exact = plain_ordering(store.extension_names(), ordering@);
    let ghost target = row_key(store.ns(), context.timestamp, store.extension_names(), names_view(solution.bindings@), terms(row@), ordering@);
    let mut key: Vec<(bool, Object)> = Vec::new();
    let mut i: usize = 0;
    while i < ordering.len()
        invariant
            i <= ordering@.len(),
            row@.len() == solution.bindings@.len(),
            key@.len() == i,
            exact == (plain_ordering(store.extension_names(), ordering@)),
            target == row_key(store.ns(), context.timestamp, store.extension_names(), names_view(solution.bindings@), terms(row@), ordering@),
            exact ==> key_view(key@) == target.take(i as int),
        decreases ordering.len() - i,
    {
        let o = &ordering[i];
        proof {
            if exact {
                assert(plain_expr(store.extension_names(), ordering@[i as int]));
            }
        }
        let item: (bool, Object) = match o {
            Expr::CallExpr(n, args) => {
                if args.len() >= 1 && str_eq(n.as_str(), "!desc") {
                    (false, eval_row(store, context, solution, row, &args[0]))
                } else if args.len() >= 1 && str_eq(n.as_str(), "!asc") {
                    (true, eval_row(store, context, solution, row, &args[0]))
                } else {
                    (true, eval_row(store, context, solution, row, o))
                }
            },
            _ => (true, eval_row(store, context, solution, row, o)),
        };
        let ghost before = key@;
        let ghost iv = (item.0, item.1@);
        key.push(item);
        i += 1;
        proof {
            assert(key_view(key@) =~= key_view(before).push(iv));
            if exact {
                assert(iv == target[i - 1]);
                assert(target.take(i as int) =~= target.take(i - 1).push(target[i - 1]));
            }
        }
    }
    proof {
        if exact {
            assert(target.take(ordering.len() as int) =~= target);
        }
    }
    key
}

pub open spec fn err_view(e: Option<String>) -> Option<Seq<char>> {
    match e {
        Some(m) => Some(m@),
        None => None,
    }
}

/// Inserts a keyed row after the last item whose key it does not sort before (see
/// `ins_keyed`); returns the comparison error, if any.
fn insert_keyed(keys: &mut Vec<Vec<(bool, Object)>>, rows: &mut Vec<SolutionRow>, key: Vec<(bool, Object)>, row: SolutionRow, Ghost(exact): Ghost<bool>) -> (err: Option<String>)
    requires
        old(keys)@.len() == old(rows)@.len(),
        forall|k: int| 0 <= k < old(keys)@.len() ==> #[trigger] old(keys)@[k]@.len() == key@.len(),
        forall|k: int| 0 <= k < old(rows)@.len() ==> #[trigger] old(rows)@[k]@.len() == row@.len(),
    ensures
        final(keys)@.len() == final(rows)@.len() == old(keys)@.len() + 1,
        forall|k: int| 0 <= k < final(keys)@.len() ==> #[trigger] final(keys)@[k]@.len() == key@.len(),
        forall|k: int| 0 <= k < final(rows)@.len() ==> #[trigger] final(rows)@[k]@.len() == row@.len(),
        exact ==> (items_view(final(keys)@, final(rows)@), err_view(err))
            == ins_keyed(items_view(old(keys)@, old(rows)@), (key_view(key@), terms(row@))),
        rows_view(final(rows)@).to_multiset() == rows_view(old(rows)@).to_multiset().insert(terms(row@)),
{
    let ghost s = items_view(keys@, rows@);
    let ghost x = (key_view(key@), terms(row@));
    let mut j: usize = keys.len();
    let mut found = false;
    let mut err: Option<String> = None;
    proof {
        assert(s.skip(j as int) =~= Seq::<(Seq<(bool, Term)>, Seq<Term>)>::empty());
        assert(s.take(j as int) =~= s);
    }
    while j > 0 && !found
        invariant
            j <= keys@.len() == rows@.len(),
            s == items_view(keys@, rows@),
            x == (key_view(key@), terms(row@)),
            forall|k: int| 0 <= k < keys@.len() ==> #[trigger] keys@[k]@.len() == key@.len(),
            !found ==> err is None,
            exact && !found ==> ins_keyed(s, x) == (ins_keyed(s.take(j as int), x).0 + s.skip(j as int), ins_keyed(s.take(j as int), x).1),
            found ==> j > 0,
            exact && found ==> ins_keyed(s, x) == (s.take(j as int).push(x) + s.skip(j as int), err_view(err)),
        decreases (j as int) * 2 + (if found { 0int } else { 1int }),
    {
        proof {
            assert(s.take(j as int).last() == s[j - 1]);
            assert(s[j - 1] == (key_view(keys@[j - 1]@), terms(rows@[j - 1]@)));
            assert(s.take(j as int).drop_last() =~= s.take(j - 1));
            assert(s.skip(j - 1) =~= seq![s[j - 1]] + s.skip(j as int));
        }
        match compare_keys(&key, &keys[j - 1]) {
            Ok(c) => {
                if c < 0 {
                    proof {
                        if exact {
                            let t = ins_keyed(s.take(j - 1), x).0;
                            assert(t.push(s[j - 1]) + s.skip(j as int) =~= t + s.skip(j - 1));
                        }
                    }
                    j -= 1;
                } else {
                    found = true;
                }
            },
            Err(e) => {
                err = Some(e);
                found = true;
            },
        }
    }
    proof {
        if exact && !found {
            assert(s.take(0) =~= Seq::<(Seq<(bool, Term)>, Seq<Term>)>::empty());
            assert(seq![x] + s.skip(0) =~= s.take(0).push(x) + s.skip(0));
        }
    }
    let ghost old_keys = keys@;
    let ghost old_rows = rows@;
    keys.insert(j, key);
    let ghost row_terms = terms(row@);
    rows.insert(j, row);
    proof {
        assert(rows_view(rows@) =~= rows_view(old_rows).insert(j as int, row_terms));
        vstd::seq_lib::to_multiset_insert(rows_view(old_rows), j as int, row_terms);
        assert(items_view(keys@, rows@) =~= s.take(j as int).push(x) + s.skip(j as int));
        assert forall|k: int| 0 <= k < keys@.len() implies #[trigger] keys@[k]@.len() == x.0.len() by {
            if k < j {
                assert(keys@[k] == old_keys[k]);
            } else if k > j {
                assert(keys@[k] == old_keys[k - 1]);
            }
        }
        assert forall|k: int| 0 <= k < rows@.len() implies #[trigger] rows@[k]@.len() == x.1.len() by {
            if k < j {
                assert(rows@[k] == old_rows[k]);
            } else if k > j {
                assert(rows@[k] == old_rows[k - 1]);
            }
        }
    }
    err
}

/// Sorts the rows by the ORDER BY expressions (see `order_spec`); an error comparing two
/// keys makes the whole ordering fail with the first such error.
pub fn order_by(store: &Store, context: &QueryContext, solution: Solution, ordering: &Vec<Expr>) -> (r: Result<Solution, String>)
    requires
        solution.wf(),
    ensures
        ({
            let exact = plain_ordering(store.extension_names(), ordering@);
            let spec = order_spec(store.ns(), context.timestamp, store.extension_names(), names_view(solution.bindings@),
                rows_view(solution.rows@), ordering@);
            match r {
                Ok(sol) => {
                    &&& sol.wf()
                    &&& names_view(sol.bindings@) == names_view(solution.bindings@)
                    &&& sol.num_selected == solution.num_selected
                    &&& ns_view(sol.namespaces@) == ns_view(solution.namespaces@)
                    &&& sol.rows@.len() == solution.rows@.len()
                    &&& rows_view(sol.rows@).to_multiset() == rows_view(solution.rows@).to_multiset()
                    &&& exact ==> spec == Ok::<Seq<Seq<Term>>, Seq<char>>(rows_view(sol.rows@))
                },
                Err(e) => exact ==> spec == Err::<Seq<Seq<Term>>, Seq<char>>(e@),
            }
        }),
{
    let ghost exts = store.extension_names();
    let ghost names = names_view(solution.bindings@);
    let ghost rows0 = rows_view(solution.rows@);
    let ghost exact = plain_ordering(exts, ordering@);
    let ghost items = Seq::new(rows0.len(), |i: int| (row_key(store.ns(), context.timestamp, exts, names, rows0[i], ordering@), rows0[i]));
    let mut keys: Vec<Vec<(bool, Object)>> = Vec::new();
    let mut rows: Vec<SolutionRow> = Vec::new();
    let mut err: Option<String> = None;
    let mut i: usize = 0;
    proof {
        assert(items.take(0) =~= Seq::<(Seq<(bool, Term)>, Seq<Term>)>::empty());
        assert(items_view(keys@, rows@) =~= Seq::<(Seq<(bool, Term)>, Seq<Term>)>::empty());
        assert(rows_view(rows@) =~= rows0.take(0));
    }
    while i < solution.rows.len()
        invariant
            i <= solution.rows@.len(),
            solution.wf(),
            rows0 == rows_view(solution.rows@),
            names == names_view(solution.bindings@),
            exts == store.extension_names(),
            exact == (plain_ordering(exts, ordering@)),
            items == Seq::new(rows0.len(), |i: int| (row_key(store.ns(), context.timestamp, exts, names, rows0[i], ordering@), rows0[i])),
            keys@.len() == rows@.len() == i,
            forall|k: int| 0 <= k < keys@.len() ==> #[trigger] keys@[k]@.len() == ordering@.len(),
            forall|k: int| 0 <= k < rows@.len() ==> #[trigger] rows@[k]@.len() == solution.bindings@.len(),
            exact ==> (items_view(keys@, rows@), err_view(err)) == sort_keyed(items.take(i as int)),
            rows_view(rows@).to_multiset() == rows0.take(i as int).to_multiset(),
        decreases solution.rows.len() - i,
    {
        let src = &solution.rows[i];
        proof {
            assert(rows0[i as int] == terms(src@));
        }
        let key = eval_key(store, context, &solution, src, ordering);
        let row = copy_row(src);
        let ghost before = (items_view(keys@, rows@), err_view(err));
        let e = insert_keyed(&mut keys, &mut rows, key, row, Ghost(exact));
        if err.is_none() {
            err = e;
        }
        i += 1;
        proof {
            assert(items.take(i as int).drop_last() =~= items.take(i - 1));
            assert(items.take(i as int).last() == items[i - 1]);
            assert(rows0.take(i as int) =~= rows0.take(i - 1).push(rows0[i - 1]));
            vstd::seq_lib::to_multiset_build(rows0.take(i - 1), rows0[i - 1]);
        }
    }
    proof {
        assert(items.take(solution.rows.len() as int) =~= items);
        assert(rows0.take(solution.rows.len() as int) =~= rows0);
    }
    match err {
        Some(e) => Err(e),
        None => {
            let r = Solution {
                namespaces: copy_namespaces(&solution.namespaces),
                bindings: copy_names(&solution.bindings),
                num_selected: solution.num_selected,
                rows,
            };
            proof {
                assert(r.bindings@.len() == names_view(r.bindings@).len());
                assert(solution.bindings@.len() == names_view(solution.bindings@).len());
                if exact {
                    let sorted = sort_keyed(items).0;
                    assert(rows_view(r.rows@) =~= sorted.map_values(|it: (Seq<(bool, Term)>, Seq<Term>)| it.1));
                }
            }
            Ok(r)
        },
    }
}

// ---- DISTINCT -------------------------------------------------------------------------------

/// The position of a value's kind in the declaration of `Object`.
pub open spec fn kind_index(t: Term) -> int {
    match t {
        Term::Bool(_) => 0,
        Term::Int(_) => 1,
        Term::Float(_) => 2,
        Term::DateTime(_) => 3,
        Term::Str(_, _) => 4,
        Term::Typed(_, _) => 5,
        Term::Iri(_) => 6,
        Term::Blank(_) => 7,
        Term::Unbound(_) => 8,
        Term::Invalid(_, _) => 9,
        Term::Error(_) => 10,
    }
}

pub open spec fn text_lt(a: Seq<char>, b: Seq<char>) -> bool {
    seq_order(a, b) < 0
}

pub open spec fn pair_lt(a: (Seq<char>, Seq<char>), b: (Seq<char>, Seq<char>)) -> bool {
    text_lt(a.0, b.0) || (!text_lt(b.0, a.0) && text_lt(a.1, b.1))
}

pub open spec fn fields_lt(a: Seq<int>, b: Seq<int>) -> bool
    decreases a.len(),
{
    if a.len() == 0 || b.len() == 0 {
        a.len() < b.len()
    } else if a[0] < b[0] {
        true
    } else if b[0] < a[0] {
        false
    } else {
        fields_lt(a.drop_first(), b.drop_first())
    }
}

pub open spec fn datetime_fields(d: DateTime) -> Seq<int> {
    seq![d.sec as int, d.min as int, d.hour as int, d.mday as int, d.mon as int, d.year as int, d.wday as int,
        d.yday as int, d.isdst as int, d.utcoff as int, d.nsec as int]
}

/// The structural order of values: by kind, then by their fields (text by code point,
/// binary64 values by `<`).
pub open spec fn term_lt(a: Term, b: Term) -> bool {
    if kind_index(a) != kind_index(b) {
        kind_index(a) < kind_index(b)
    } else {
        match (a, b) {
            (Term::Bool(x), Term::Bool(y)) => !x && y,
            (Term::Int(x), Term::Int(y)) => x < y,
            (Term::Float(x), Term::Float(y)) => float_lt(x, y),
            (Term::DateTime(x), Term::DateTime(y)) => fields_lt(datetime_fields(x), datetime_fields(y)),
            (Term::Str(v1, l1), Term::Str(v2, l2)) => pair_lt((v1, l1), (v2, l2)),
            (Term::Typed(v1, k1), Term::Typed(v2, k2)) => pair_lt((v1, k1), (v2, k2)),
            (Term::Iri(x), Term::Iri(y)) => text_lt(x, y),
            (Term::Blank(x), Term::Blank(y)) => text_lt(x, y),
            (Term::Unbound(x), Term::Unbound(y)) => text_lt(x, y),
            (Term::Invalid(v1, k1), Term::Invalid(v2, k2)) => pair_lt((v1, k1), (v2, k2)),
            (Term::Error(x), Term::Error(y)) => text_lt(x, y),
            _ => false,
        }
    }
}

/// The structural order of rows: lexicographic by `term_lt`.
pub open spec fn row_lt(a: Seq<Term>, b: Seq<Term>) -> bool
    decreases a.len(),
{
    if a.len() == 0 || b.len() == 0 {
        a.len() < b.len()
    } else if term_lt(a[0], b[0]) {
        true
    } else if term_lt(b[0], a[0]) {
        false
    } else {
        row_lt(a.drop_first(), b.drop_first())
    }
}

/// Structural equality of values (binary64 values by `==`).
pub open spec fn term_same(a: Term, b: Term) -> bool {
    match (a, b) {
        (Term::Float(x), Term::Float(y)) => float_eq(x, y),
        _ => a == b,
    }
}

/// Whether two rows agree on their first `n` values.
pub open spec fn same_prefix(n: int, a: Seq<Term>, b: Seq<Term>) -> bool {
    forall|i: int| 0 <= i < n ==> term_same(#[trigger] a[i], b[i])
}

/// `x` inserted after the last row that it does not sort before.
pub open spec fn ins_struct(sorted: Seq<Seq<Term>>, x: Seq<Term>) -> Seq<Seq<Term>>
    decreases sorted.len(),
{
    if sorted.len() == 0 {
        seq![x]
    } else if !row_lt(x, sorted.last()) {
        sorted.push(x)
    } else {
        ins_struct(sorted.drop_last(), x).push(sorted.last())
    }
}

/// The rows in structural order (stably).
pub open spec fn sort_struct(rows: Seq<Seq<Term>>) -> Seq<Seq<Term>>
    decreases rows.len(),
{
    if rows.len() == 0 { Seq::empty() } else { ins_struct(sort_struct(rows.drop_last()), rows.last()) }
}

/// The rows after `rows[i]` that agree with `first` on the selected values are passed over.
pub open spec fn next_distinct(n: int, first: Seq<Term>, rows: Seq<Seq<Term>>, i: int) -> int
    decreases rows.len() - i,
{
    if i < 0 || i >= rows.len() || !same_prefix(n, first, rows[i]) { i } else { next_distinct(n, first, rows, i + 1) }
}

/// From each run of sorted rows that agree on the selected values, the first.
pub open spec fn dedup_from(n: int, rows: Seq<Seq<Term>>, i: int) -> Seq<Seq<Term>>
    decreases rows.len() - i,
{
    if i < 0 || i >= rows.len() {
        Seq::empty()
    } else {
        let j = next_distinct(n, rows[i], rows, i + 1);
        if j <= i {
            seq![rows[i]]
        } else {
            proof {
                lemma_next_distinct(n, rows[i], rows, i + 1);
            }
            seq![rows[i]] + dedup_from(n, rows, j)
        }
    }
}

pub proof fn lemma_next_distinct(n: int, first: Seq<Term>, rows: Seq<Seq<Term>>, i: int)
    requires
        0 <= i,
    ensures
        next_distinct(n, first, rows, i) >= i,
        i <= rows.len() ==> next_distinct(n, first, rows, i) <= rows.len(),
    decreases rows.len() - i,
{
    if i < rows.len() && same_prefix(n, first, rows[i]) {
        lemma_next_distinct(n, first, rows, i + 1);
    }
}

fn text_lt_exec(a: &str, b: &str) -> (r: bool)
    ensures
        r == text_lt(a@, b@),
{
    order_strs(a, b) < 0
}

fn pair_lt_exec(v1: &str, l1: &str, v2: &str, l2: &str) -> (r: bool)
    ensures
        r == pair_lt((v1@, l1@), (v2@, l2@)),
{
    text_lt_exec(v1, v2) || (!text_lt_exec(v2, v1) && text_lt_exec(l1, l2))
}

fn kind_index_exec(o: &Object) -> (r: u8)
    ensures
        r as int == kind_index(o@),
{
    match o {
        Object::BoolValue(_) => 0,
        Object::IntValue(_) => 1,
        Object::FloatValue(_) => 2,
        Object::DateTimeValue(_) => 3,
        Object::StringValue(_, _) => 4,
        Object::TypedValue(_, _) => 5,
        Object::IriValue(_) => 6,
        Object::BlankValue(_) => 7,
        Object::UnboundValue(_) => 8,
        Object::InvalidValue(_, _) => 9,
        Object::ErrorValue(_) => 10,
    }
}

fn datetime_lt(x: &DateTime, y: &DateTime) -> (r: bool)
    ensures
        r == fields_lt(datetime_fields(*x), datetime_fields(*y)),
{
    let a: [i32; 11] = [x.sec, x.min, x.hour, x.mday, x.mon, x.year, x.wday, x.yday, x.isdst, x.utcoff, x.nsec];
    let b: [i32; 11] = [y.sec, y.min, y.hour, y.mday, y.mon, y.year, y.wday, y.yday, y.isdst, y.utcoff, y.nsec];
    let ghost fa = datetime_fields(*x);
    let ghost fb = datetime_fields(*y);
    proof {
        assert forall|k: int| 0 <= k < 11 implies a@[k] as int == fa[k] && b@[k] as int == fb[k] by {}
        assert(fa.skip(0) =~= fa);
        assert(fb.skip(0) =~= fb);
    }
    let mut i: usize = 0;
    while i < 11
        invariant
            i <= 11,
            fa == datetime_fields(*x),
            fb == datetime_fields(*y),
            fa.len() == 11 && fb.len() == 11,
            forall|k: int| 0 <= k < 11 ==> a@[k] as int == fa[k] && b@[k] as int == fb[k],
            fields_lt(fa, fb) == fields_lt(fa.skip(i as int), fb.skip(i as int)),
        decreases 11 - i,
    {
        proof {
            assert(fa.skip(i as int)[0] == fa[i as int]);
            assert(fb.skip(i as int)[0] == fb[i as int]);
            assert(fa.skip(i as int).drop_first() =~= fa.skip(i + 1));
            assert(fb.skip(i as int).drop_first() =~= fb.skip(i + 1));
        }
        if a[i] < b[i] {
            return true;
        } else if b[i] < a[i] {
            return false;
        }
        i += 1;
    }
    assert(fa.skip(11).len() == 0);
    false
}

fn term_lt_exec(a: &Object, b: &Object) -> (r: bool)
    ensures
        r == term_lt(a@, b@),
{
    let ka = kind_index_exec(a);
    let kb = kind_index_exec(b);
    if ka != kb {
        return ka < kb;
    }
    match (a, b) {
        (Object::BoolValue(x), Object::BoolValue(y)) => !*x && *y,
        (Object::IntValue(x), Object::IntValue(y)) => *x < *y,
        (Object::FloatValue(x), Object::FloatValue(y)) => float_lt_exec(*x, *y),
        (Object::DateTimeValue(x), Object::DateTimeValue(y)) => datetime_lt(x, y),
        (Object::StringValue(v1, l1), Object::StringValue(v2, l2)) => pair_lt_exec(v1.as_str(), l1.as_str(), v2.as_str(), l2.as_str()),
        (Object::TypedValue(v1, k1), Object::TypedValue(v2, k2)) => pair_lt_exec(v1.as_str(), k1.as_str(), v2.as_str(), k2.as_str()),
        (Object::IriValue(x), Object::IriValue(y)) => text_lt_exec(x.as_str(), y.as_str()),
        (Object::BlankValue(x), Object::BlankValue(y)) => text_lt_exec(x.as_str(), y.as_str()),
        (Object::UnboundValue(x), Object::UnboundValue(y)) => text_lt_exec(x.as_str(), y.as_str()),
        (Object::InvalidValue(v1, k1), Object::InvalidValue(v2, k2)) => pair_lt_exec(v1.as_str(), k1.as_str(), v2.as_str(), k2.as_str()),
        (Object::ErrorValue(x), Object::ErrorValue(y)) => text_lt_exec(x.as_str(), y.as_str()),
        _ => false,
    }
}

fn term_same_exec(a: &Object, b: &Object) -> (r: bool)
    ensures
        r == term_same(a@, b@),
{
    match (a, b) {
        (Object::BoolValue(x), Object::BoolValue(y)) => *x == *y,
        (Object::IntValue(x), Object::IntValue(y)) => *x == *y,
        (Object::FloatValue(x), Object::FloatValue(y)) => float_eq_exec(*x, *y),
        (Object::DateTimeValue(x), Object::DateTimeValue(y)) => *x == *y,
        (Object::StringValue(v1, l1), Object::StringValue(v2, l2)) => str_eq(v1.as_str(), v2.as_str()) && str_eq(l1.as_str(), l2.as_str()),
        (Object::TypedValue(v1, k1), Object::TypedValue(v2, k2)) => str_eq(v1.as_str(), v2.as_str()) && str_eq(k1.as_str(), k2.as_str()),
        (Object::IriValue(x), Object::IriValue(y)) => str_eq(x.as_str(), y.as_str()),
        (Object::BlankValue(x), Object::BlankValue(y)) => str_eq(x.as_str(), y.as_str()),
        (Object::UnboundValue(x), Object::UnboundValue(y)) => str_eq(x.as_str(), y.as_str()),
        (Object::InvalidValue(v1, k1), Object::InvalidValue(v2, k2)) => str_eq(v1.as_str(), v2.as_str()) && str_eq(k1.as_str(), k2.as_str()),
        (Object::ErrorValue(x), Object::ErrorValue(y)) => str_eq(x.as_str(), y.as_str()),
        _ => false,
    }
}

fn row_lt_exec(a: &SolutionRow, b: &SolutionRow) -> (r: bool)
    ensures
        r == row_lt(terms(a@), terms(b@)),
{
    let ghost x = terms(a@);
    let ghost y = terms(b@);
    let mut i: usize = 0;
    assert(x.skip(0) =~= x);
    assert(y.skip(0) =~= y);
    while i < a.len() && i < b.len()
        invariant
            i <= a@.len(),
            i <= b@.len(),
            x == terms(a@),
            y == terms(b@),
            row_lt(x, y) == row_lt(x.skip(i as int), y.skip(i as int)),
        decreases a.len() - i,
    {
        proof {
            assert(x.skip(i as int)[0] == a@[i as int]@);
            assert(y.skip(i as int)[0] == b@[i as int]@);
            assert(x.skip(i as int).drop_first() =~= x.skip(i + 1));
            assert(y.skip(i as int).drop_first() =~= y.skip(i + 1));
        }
        if term_lt_exec(&a[i], &b[i]) {
            return true;
        } else if term_lt_exec(&b[i], &a[i]) {
            return false;
        }
        i += 1;
    }
    assert(x.skip(i as int).len() == a.len() - i);
    assert(y.skip(i as int).len() == b.len() - i);
    a.len() - i < b.len() - i
}

fn same_prefix_exec(n: usize, a: &SolutionRow, b: &SolutionRow) -> (r: bool)
    requires
        n <= a@.len(),
        n <= b@.len(),
    ensures
        r == same_prefix(n as int, terms(a@), terms(b@)),
{
    let mut i: usize = 0;
    while i < n
        invariant
            i <= n <= a@.len(),
            n <= b@.len(),
            forall|k: int| 0 <= k < i ==> term_same(#[trigger] terms(a@)[k], terms(b@)[k]),
        decreases n - i,
    {
        assert(terms(a@)[i as int] == a@[i as int]@);
        assert(terms(b@)[i as int] == b@[i as int]@);
        if !term_same_exec(&a[i], &b[i]) {
            return false;
        }
        i += 1;
    }
    true
}

/// The rows sorted in structural order, keeping from each run that agrees on the selected
/// values only the first.
pub open spec fn distinct_rows(n: int, rows: Seq<Seq<Term>>) -> Seq<Seq<Term>> {
    dedup_from(n, sort_struct(rows), 0)
}

/// DISTINCT: the rows sorted structurally, one for each combination of selected values.
pub fn make_distinct(solution: Solution) -> (r: Result<Solution, String>)
    requires
        solution.wf(),
    ensures
        match r {
            Ok(sol) => {
                &&& sol.wf()
                &&& names_view(sol.bindings@) == names_view(solution.bindings@)
                &&& sol.num_selected == solution.num_selected
                &&& ns_view(sol.namespaces@) == ns_view(solution.namespaces@)
                &&& rows_view(sol.rows@) == distinct_rows(solution.num_selected as int, rows_view(solution.rows@))
            },
            Err(_) => false,
        },
{
    let ghost input = rows_view(solution.rows@);
    let n = solution.num_selected;
    let width = solution.bindings.len();
    // sort
    let mut sorted: Vec<SolutionRow> = Vec::new();
    let mut i: usize = 0;
    proof {
        assert(input.take(0) =~= Seq::<Seq<Term>>::empty());
        assert(rows_view(sorted@) =~= Seq::<Seq<Term>>::empty());
    }
    while i < solution.rows.len()
        invariant
            i <= solution.rows@.len(),
            solution.wf(),
            width == solution.bindings@.len(),
            input == rows_view(solution.rows@),
            forall|k: int| 0 <= k < sorted@.len() ==> #[trigger] sorted@[k]@.len() == width,
            rows_view(sorted@) == sort_struct(input.take(i as int)),
        decreases solution.rows.len() - i,
    {
        let row = copy_row(&solution.rows[i]);
        proof {
            assert(input[i as int] == terms(solution.rows@[i as int]@));
            assert(solution.rows@[i as int]@.len() == width);
        }
        let ghost s = rows_view(sorted@);
        let ghost x = terms(row@);
        let mut j: usize = sorted.len();
        let mut found = false;
        proof {
            assert(s.take(j as int) =~= s);
            assert(s.skip(j as int) =~= Seq::<Seq<Term>>::empty());
        }
        while j > 0 && !found
            invariant
                j <= sorted@.len(),
                s == rows_view(sorted@),
                x == terms(row@),
                !found ==> ins_struct(s, x) == ins_struct(s.take(j as int), x) + s.skip(j as int),
                found ==> j > 0 && ins_struct(s, x) == s.take(j as int).push(x) + s.skip(j as int),
            decreases (j as int) * 2 + (if found { 0int } else { 1int }),
        {
            proof {
                assert(s.take(j as int).last() == s[j - 1]);
                assert(s[j - 1] == terms(sorted@[j - 1]@));
                assert(s.take(j as int).drop_last() =~= s.take(j - 1));
                assert(s.skip(j - 1) =~= seq![s[j - 1]] + s.skip(j as int));
            }
            if !row_lt_exec(&row, &sorted[j - 1]) {
                found = true;
            } else {
                proof {
                    let t = ins_struct(s.take(j - 1), x);
                    assert(t.push(s[j - 1]) + s.skip(j as int) =~= t + s.skip(j - 1));
                }
                j -= 1;
            }
        }
        proof {
            if !found {
                assert(s.take(0) =~= Seq::<Seq<Term>>::empty());
                assert(seq![x] + s.skip(0) =~= s.take(0).push(x) + s.skip(0));
            }
        }
        let ghost old_sorted = sorted@;
        sorted.insert(j, row);
        i += 1;
        proof {
            assert(rows_view(sorted@) =~= s.take(j as int).push(x) + s.skip(j as int));
            assert(input.take(i as int).drop_last() =~= input.take(i - 1));
            assert(input.take(i as int).last() == x);
            assert forall|k: int| 0 <= k < sorted@.len() implies #[trigger] sorted@[k]@.len() == width by {
                if k < j {
                    assert(sorted@[k] == old_sorted[k]);
                } else if k > j {
                    assert(sorted@[k] == old_sorted[k - 1]);
                }
            }
        }
    }
    proof {
        assert(input.take(solution.rows.len() as int) =~= input);
    }
    // keep the first row of each run
    let ghost srt = rows_view(sorted@);
    let mut result: Vec<SolutionRow> = Vec::new();
    let mut k: usize = 0;
    proof {
        assert(rows_view(result@) =~= Seq::<Seq<Term>>::empty());
    }
    while k < sorted.len()
        invariant
            k <= sorted@.len(),
            srt == rows_view(sorted@),
            n <= width,
            forall|q: int| 0 <= q < sorted@.len() ==> #[trigger] sorted@[q]@.len() == width,
            forall|q: int| 0 <= q < result@.len() ==> #[trigger] result@[q]@.len() == width,
            rows_view(result@) + dedup_from(n as int, srt, k as int) == dedup_from(n as int, srt, 0),
        decreases sorted.len() - k,
    {
        let row = copy_row(&sorted[k]);
        let ghost first = srt[k as int];
        assert(first == terms(sorted@[k as int]@));
        let ghost before = rows_view(result@);
        result.push(row);
        let mut m: usize = k + 1;
        proof {
            lemma_next_distinct(n as int, first, srt, k + 1);
        }
        while m < sorted.len() && same_prefix_exec(n, &sorted[k], &sorted[m])
            invariant
                k < m <= sorted@.len(),
                srt == rows_view(sorted@),
                n <= width,
                forall|q: int| 0 <= q < sorted@.len() ==> #[trigger] sorted@[q]@.len() == width,
                first == srt[k as int],
                first == terms(sorted@[k as int]@),
                next_distinct(n as int, first, srt, k + 1) == next_distinct(n as int, first, srt, m as int),
            decreases sorted.len() - m,
        {
            proof {
                assert(srt[m as int] == terms(sorted@[m as int]@));
            }
            m += 1;
        }
        proof {
            if m < sorted.len() {
                assert(srt[m as int] == terms(sorted@[m as int]@));
            }
            assert(next_distinct(n as int, first, srt, m as int) == m);
            assert(rows_view(result@) =~= before.push(first));
            let j = next_distinct(n as int, first, srt, k + 1);
            assert(dedup_from(n as int, srt, k as int) == seq![first] + dedup_from(n as int, srt, m as int)) by {
                if m >= srt.len() {
                    assert(dedup_from(n as int, srt, m as int) =~= Seq::<Seq<Term>>::empty());
                    assert(seq![first] + Seq::<Seq<Term>>::empty() =~= seq![first]);
                }
            }
            assert(before.push(first) + dedup_from(n as int, srt, m as int) =~= before + (seq![first] + dedup_from(n as int, srt, m as int)));
        }
        k = m;
    }
    proof {
        assert(dedup_from(n as int, srt, k as int) =~= Seq::<Seq<Term>>::empty());
        assert(rows_view(result@) + Seq::<Seq<Term>>::empty() =~= rows_view(result@));
    }
    let r = Solution {
        namespaces: copy_namespaces(&solution.namespaces),
        bindings: copy_names(&solution.bindings),
        num_selected: solution.num_selected,
        rows: result,
    };
    proof {
        assert(r.bindings@.len() == names_view(r.bindings@).len());
        assert(solution.bindings@.len() == names_view(solution.bindings@).len());
    }
    Ok(r)
}

// ---- The selector ------------------------------------------------------------------------

proof fn lemma_add_name(bs: Seq<Seq<char>>, v: Seq<char>)
    ensures
        add_name(bs, v).contains(v),
        forall|x: Seq<char>| bs.contains(x) ==> add_name(bs, v).contains(x),
{
    if !bs.contains(v) {
        assert(bs.push(v)[bs.len() as int] == v);
        assert forall|x: Seq<char>| bs.contains(x) implies bs.push(v).contains(x) by {
            let k = choose|k: int| 0 <= k < bs.len() && bs[k] == x;
            assert(bs.push(v)[k] == x);
        }
    }
}

/// Variables among some names are among any names that include them.
pub proof fn lemma_vars_mono(names: Seq<Seq<char>>, more: Seq<Seq<char>>, a: Algebra)
    requires
        algebra_vars_in(names, a),
        forall|x: Seq<char>| names.contains(x) ==> more.contains(x),
    ensures
        algebra_vars_in(more, a),
    decreases a,
{
    match a {
        Algebra::Group(v) => {
            lemma_algebras_each(names, Seq::empty(), v@);
            lemma_algebras_each(more, Seq::empty(), v@);
            assert forall|i: int| 0 <= i < v@.len() implies algebra_vars_in(more, #[trigger] v@[i]) by {
                assert(decreases_to!(a => v));
                lemma_vars_mono(names, more, v@[i]);
            }
        },
        Algebra::Optional(b) => {
            lemma_vars_mono(names, more, *b);
        },
        _ => {},
    }
}

/// The names that `add_algebra` gives hold the variables of the algebra, and the names it
/// started with.
pub proof fn lemma_add_algebra(bs: Seq<Seq<char>>, a: Algebra)
    ensures
        algebra_vars_in(add_algebra(bs, a), a),
        forall|x: Seq<char>| bs.contains(x) ==> add_algebra(bs, a).contains(x),
        add_algebra(bs, a).len() >= bs.len(),
    decreases a, 0int,
{
    match a {
        Algebra::Basic(tp) => {
            let b1 = add_pattern(bs, tp.subject);
            let b2 = add_pattern(b1, tp.predicate);
            let b3 = add_pattern(b2, tp.object);
            match tp.subject { Pattern::Variable(v) => lemma_add_name(bs, v@), _ => {} }
            match tp.predicate { Pattern::Variable(v) => lemma_add_name(b1, v@), _ => {} }
            match tp.object { Pattern::Variable(v) => lemma_add_name(b2, v@), _ => {} }
        },
        Algebra::Group(v) => {
            lemma_add_algebras(bs, v@);
        },
        Algebra::Optional(b) => {
            lemma_add_algebra(bs, *b);
        },
        Algebra::Bind(_, v) => {
            lemma_add_name(bs, v@);
        },
        Algebra::Filter(_) => {},
    }
}

pub proof fn lemma_add_algebras(bs: Seq<Seq<char>>, s: Seq<Algebra>)
    ensures
        algebras_vars_in(add_algebras(bs, s), s),
        forall|x: Seq<char>| bs.contains(x) ==> add_algebras(bs, s).contains(x),
        add_algebras(bs, s).len() >= bs.len(),
    decreases s, 1int,
{
    if s.len() > 0 {
        let p = add_algebras(bs, s.drop_last());
        lemma_add_algebras(bs, s.drop_last());
        lemma_add_algebra(p, s.last());
        let full = add_algebra(p, s.last());
        lemma_algebras_each(p, Seq::empty(), s.drop_last());
        lemma_algebras_each(full, Seq::empty(), s.drop_last());
        assert forall|i: int| 0 <= i < s.drop_last().len() implies algebra_vars_in(full, #[trigger] s.drop_last()[i]) by {
            lemma_vars_mono(p, full, s.drop_last()[i]);
        }
    }
}

/// The names that `add_algebra` starts with come first in what it gives.
pub proof fn lemma_add_algebra_prefix(bs: Seq<Seq<char>>, a: Algebra)
    ensures
        add_algebra(bs, a).len() >= bs.len(),
        add_algebra(bs, a).take(bs.len() as int) == bs,
    decreases a, 0int,
{
    match a {
        Algebra::Basic(tp) => {
            let b1 = add_pattern(bs, tp.subject);
            let b2 = add_pattern(b1, tp.predicate);
            let b3 = add_pattern(b2, tp.object);
            assert(b1.take(bs.len() as int) =~= bs);
            assert(b2.take(b1.len() as int) =~= b1);
            assert(b3.take(b2.len() as int) =~= b2);
            assert(b3.take(bs.len() as int) =~= bs);
        },
        Algebra::Group(v) => {
            lemma_add_algebras_prefix(bs, v@);
        },
        Algebra::Optional(b) => {
            lemma_add_algebra_prefix(bs, *b);
        },
        Algebra::Bind(_, v) => {
            assert(add_name(bs, v@).take(bs.len() as int) =~= bs);
        },
        Algebra::Filter(_) => {
            assert(bs.take(bs.len() as int) =~= bs);
        },
    }
}

pub proof fn lemma_add_algebras_prefix(bs: Seq<Seq<char>>, s: Seq<Algebra>)
    ensures
        add_algebras(bs, s).len() >= bs.len(),
        add_algebras(bs, s).take(bs.len() as int) == bs,
    decreases s, 1int,
{
    if s.len() == 0 {
        assert(bs.take(bs.len() as int) =~= bs);
    } else {
        let p = add_algebras(bs, s.drop_last());
        lemma_add_algebras_prefix(bs, s.drop_last());
        lemma_add_algebra_prefix(p, s.last());
        let full = add_algebra(p, s.last());
        assert(full.take(bs.len() as int) =~= full.take(p.len() as int).take(bs.len() as int));
    }
}

/// What a query selects: the algebra's rows, made distinct, ordered and limited as asked.
pub open spec fn select_spec(
    g: Graph,
    ns: Seq<(Seq<char>, Seq<char>)>,
    exts: Seq<Seq<char>>,
    names: Seq<Seq<char>>,
    num_selected: int,
    context: QueryContext,
) -> Result<Seq<Seq<Term>>, Seq<char>> {
    match algebra_spec(g, ns, context.timestamp, exts, names, context.algebra) {
        Err(e) => Err(e),
        Ok(rows) => {
            let rows2 = if context.distinct { distinct_rows(num_selected, rows) } else { rows };
            let rows3 = if context.order_by@.len() > 0 {
                order_spec(ns, context.timestamp, exts, names, rows2, context.order_by@)
            } else {
                Ok(rows2)
            };
            match rows3 {
                Err(e) => Err(e),
                Ok(r) => Ok(match context.limit {
                    Some(l) => if l < r.len() { r.take(l as int) } else { r },
                    None => r,
                }),
            }
        },
    }
}

/// A LIMIT caps the number of rows of a query's result.
pub proof fn law_limit_caps_rows(
    g: Graph,
    ns: Seq<(Seq<char>, Seq<char>)>,
    exts: Seq<Seq<char>>,
    names: Seq<Seq<char>>,
    num_selected: int,
    context: QueryContext,
)
    requires
        context.limit is Some,
    ensures
        select_spec(g, ns, exts, names, num_selected, context) matches Ok(rows)
            ==> rows.len() <= context.limit->0,
{
}

/// A LIMIT keeps the first rows: the result of a query with a LIMIT of `n` is that of the
/// same query without it, cut to its first `n` rows (all of them when there are fewer).
pub proof fn law_limit_keeps_first_rows(
    g: Graph,
    ns: Seq<(Seq<char>, Seq<char>)>,
    exts: Seq<Seq<char>>,
    names: Seq<Seq<char>>,
    num_selected: int,
    full: QueryContext,
    limited: QueryContext,
    n: usize,
)
    requires
        full.limit is None,
        limited.limit == Some(n),
        limited.algebra == full.algebra,
        limited.order_by == full.order_by,
        limited.distinct == full.distinct,
        limited.timestamp == full.timestamp,
    ensures
        select_spec(g, ns, exts, names, num_selected, limited) == match select_spec(g, ns, exts, names, num_selected, full) {
            Ok(rows) => Ok::<Seq<Seq<Term>>, Seq<char>>(if n < rows.len() { rows.take(n as int) } else { rows }),
            Err(e) => Err(e),
        },
{
}

/// A compiled query, ready to run against stores.
pub struct Selector {
    pub bindings: Vec<String>,
    pub num_selected: usize,
    pub context: QueryContext,
}

impl Selector {
    /// The bindings hold the variables of the algebra and the selected ones come first.
    pub open spec fn wf(&self) -> bool {
        &&& algebra_vars_in(names_view(self.bindings@), self.context.algebra)
        &&& self.num_selected <= self.bindings@.len()
    }

    /// Runs the query against a store: a solution or an error message.
    ///
    /// For a plain query (see `plain_algebra` and `plain_ordering`) the rows are exactly
    /// those of `select_spec`.
    pub fn select(&self, store: &Store) -> (r: Result<Solution, String>)
        requires
            self.wf(),
        ensures
            ({
                let exts = store.extension_names();
                let exact = plain_algebra(exts, self.context.algebra)
                    && plain_ordering(exts, self.context.order_by@);
                let spec = select_spec(store.graph(), store.ns(), exts, names_view(self.bindings@),
                    self.num_selected as int, self.context);
                match r {
                    Ok(sol) => {
                        &&& sol.wf()
                        &&& names_view(sol.bindings@) == names_view(self.bindings@)
                        &&& sol.num_selected == self.num_selected
                        &&& ns_view(sol.namespaces@) == store.ns()
                        &&& exact ==> spec == Ok::<Seq<Seq<Term>>, Seq<char>>(rows_view(sol.rows@))
                    },
                    Err(e) => exact ==> spec == Err::<Seq<Seq<Term>>, Seq<char>>(e@),
                }
            }),
    {
        let context = &self.context;
        let solution = match eval_algebra(store, context, &self.bindings, self.num_selected, &context.algebra) {
            Ok(s) => s,
            Err(e) => {
                return Err(e);
            },
        };
        let solution = if context.distinct {
            match make_distinct(solution) {
                Ok(s) => s,
                Err(e) => {
                    return Err(e);
                },
            }
        } else {
            solution
        };
        let mut solution = if context.order_by.len() > 0 {
            match order_by(store, context, solution, &context.order_by) {
                Ok(s) => s,
                Err(e) => {
                    return Err(e);
                },
            }
        } else {
            solution
        };
        match context.limit {
            Some(limit) => {
                if limit < solution.rows.len() {
                    let ghost before = solution.rows@;
                    solution.rows.truncate(limit);
                    proof {
                        assert(rows_view(solution.rows@) =~= rows_view(before).take(limit as int));
                    }
                }
            },
            None => {},
        }
        Ok(solution)
    }
}

/// Compiles the evaluation of a query: `names` are the variables of the SELECT clause (or
/// "*" for every variable that the algebra binds).
pub fn eval(names: &Vec<String>, context: QueryContext) -> (r: Selector)
    ensures
        r.wf(),
        r.context == context,
        (names@.len() == 1 && names@[0]@ == "*"@) ==> {
            &&& names_view(r.bindings@) == add_algebra(Seq::empty(), context.algebra)
            &&& r.num_selected == r.bindings@.len()
        },
        !(names@.len() == 1 && names@[0]@ == "*"@) ==> {
            &&& names_view(r.bindings@) == add_algebra(names_view(names@), context.algebra)
            &&& r.num_selected == names@.len()
        },
{
    if names.len() == 1 && str_eq(names[0].as_str(), "*") {
        let none: Vec<String> = Vec::new();
        let bindings = get_bindings(&none, &context.algebra);
        proof {
            assert(names_view(none@) =~= Seq::<Seq<char>>::empty());
            lemma_add_algebra(Seq::empty(), context.algebra);
            assert(bindings@.len() == names_view(bindings@).len());
        }
        let n = bindings.len();
        Selector { bindings, num_selected: n, context }
    } else {
        let bindings = get_bindings(names, &context.algebra);
        proof {
            lemma_add_algebra(names_view(names@), context.algebra);
            let full = names_view(bindings@);
            assert forall|i: int| 0 <= i < names@.len() implies full.contains(#[trigger] names_view(names@)[i]) by {
                assert(names_view(names@).contains(names_view(names@)[i]));
            }
            assert(bindings@.len() == full.len());
            assert(names@.len() == names_view(names@).len());
        }
        Selector { bindings, num_selected: names.len(), context }
    }
}

} // verus!
