//! Compiles a SPARQL query into a selector that can be applied to a store.
use vstd::prelude::*;
use crate::expression::Expr;
use crate::namespace::{Namespace, ns_view, expand_spec, expand_uri};
use crate::object::{Object, Term, literal_spec, literal_to_object};
use crate::query::{Algebra, Pattern, TriplePattern, QueryContext, Selector, eval};
use crate::solution::{names_view, copy_names};
use crate::datetime::DateTime;
use crate::text::{concat_str, str_eq, seq_order, order_strs, lower_char, lower_char_exec, string_of_range, chars_of, nat_to_string, nat_digits};
use crate::operators::lemma_seq_order_eq;

verus! {

// ---- Literals -------------------------------------------------------------------------------

pub fn bool_literal(value: &str) -> (r: Pattern)
    ensures
        r matches Pattern::Constant(o) && o@ == literal_spec(value@, "http://www.w3.org/2001/XMLSchema#boolean"@, ""@),
{
    Pattern::Constant(literal_to_object(value, "http://www.w3.org/2001/XMLSchema#boolean", ""))
}

pub fn int_literal(value: &str) -> (r: Object)
    ensures
        r@ == literal_spec(value@, "http://www.w3.org/2001/XMLSchema#integer"@, ""@),
{
    literal_to_object(value, "http://www.w3.org/2001/XMLSchema#integer", "")
}

pub fn float_literal(value: &str) -> (r: Object)
    ensures
        r@ == literal_spec(value@, "http://www.w3.org/2001/XMLSchema#double"@, ""@),
{
    literal_to_object(value, "http://www.w3.org/2001/XMLSchema#double", "")
}

pub fn string_literal(value: &str, lang: &str) -> (r: Pattern)
    ensures
        r matches Pattern::Constant(o) && o@ == literal_spec(value@, "http://www.w3.org/2001/XMLSchema#string"@, lang@),
{
    Pattern::Constant(literal_to_object(value, "http://www.w3.org/2001/XMLSchema#string", lang))
}

pub fn typed_literal(value: &str, kind: &str) -> (r: Pattern)
    ensures
        r matches Pattern::Constant(o) && o@ == literal_spec(value@, kind@, ""@),
{
    Pattern::Constant(literal_to_object(value, kind, ""))
}

pub fn iri_literal(value: &str) -> (r: Pattern)
    ensures
        r matches Pattern::Constant(o) && o@ == literal_spec(value@, "http://www.w3.org/2001/XMLSchema#anyURI"@, ""@),
{
    Pattern::Constant(literal_to_object(value, "http://www.w3.org/2001/XMLSchema#anyURI", ""))
}

/// A pattern as an expression: a variable or a constant.
pub fn pattern_to_expr(pattern: Pattern) -> (r: Expr)
    ensures
        match pattern {
            Pattern::Variable(n) => r == Expr::VariableExpr(n),
            Pattern::Constant(o) => r == Expr::ConstantExpr(o),
        },
{
    match pattern {
        Pattern::Variable(name) => Expr::VariableExpr(name),
        Pattern::Constant(value) => Expr::ConstantExpr(value),
    }
}

// ---- Prefixed names -------------------------------------------------------------------------

/// The model of an expression: its values and names as sequences.
pub enum ExprV {
    Constant(Term),
    Variable(Seq<char>),
    Call(Seq<char>, Seq<ExprV>),
    Extension(Seq<char>, Seq<ExprV>),
}

pub open spec fn expr_view(e: Expr) -> ExprV
    decreases e,
{
    match e {
        Expr::ConstantExpr(o) => ExprV::Constant(o@),
        Expr::VariableExpr(v) => ExprV::Variable(v@),
        Expr::CallExpr(n, args) => ExprV::Call(n@, exprs_view(args@)),
        Expr::ExtensionExpr(n, args) => ExprV::Extension(n@, exprs_view(args@)),
    }
}

pub open spec fn exprs_view(s: Seq<Expr>) -> Seq<ExprV>
    decreases s,
{
    if s.len() == 0 { Seq::empty() } else { exprs_view(s.drop_last()).push(expr_view(s.last())) }
}

/// An expression with the IRIs of its constants expanded, also inside the arguments of
/// built-in calls; extension calls are left as written.
pub open spec fn expand_view(ns: Seq<(Seq<char>, Seq<char>)>, x: ExprV) -> ExprV
    decreases x,
{
    match x {
        ExprV::Constant(Term::Iri(v)) => ExprV::Constant(Term::Iri(expand_spec(ns, v))),
        ExprV::Call(n, args) => ExprV::Call(n, expand_views(ns, args)),
        _ => x,
    }
}

pub open spec fn expand_views(ns: Seq<(Seq<char>, Seq<char>)>, s: Seq<ExprV>) -> Seq<ExprV>
    decreases s,
{
    if s.len() == 0 { Seq::empty() } else { expand_views(ns, s.drop_last()).push(expand_view(ns, s.last())) }
}

/// A copy of an expression.
pub fn copy_expr(e: &Expr) -> (r: Expr)
    ensures
        expr_view(r) == expr_view(*e),
    decreases e,
{
    match e {
        Expr::ConstantExpr(o) => Expr::ConstantExpr(o.copy()),
        Expr::VariableExpr(v) => Expr::VariableExpr(v.clone()),
        Expr::CallExpr(n, args) => {
            proof {
                assert(decreases_to!(*e => *args));
            }
            Expr::CallExpr(n.clone(), copy_exprs(args))
        },
        Expr::ExtensionExpr(n, args) => {
            proof {
                assert(decreases_to!(*e => *args));
            }
            Expr::ExtensionExpr(n.clone(), copy_exprs(args))
        },
    }
}

fn copy_exprs(args: &Vec<Expr>) -> (r: Vec<Expr>)
    ensures
        exprs_view(r@) == exprs_view(args@),
    decreases args,
{
    let mut out: Vec<Expr> = Vec::new();
    let mut i: usize = 0;
    while i < args.len()
        invariant
            i <= args@.len(),
            out@.len() == i,
            exprs_view(out@) == exprs_view(args@.take(i as int)),
        decreases args.len() - i,
    {
        proof {
            assert(decreases_to!(*args => args@));
            assert(decreases_to!(args@ => args@[i as int]));
        }
        let x = copy_expr(&args[i]);
        let ghost before = out@;
        out.push(x);
        i += 1;
        proof {
            assert(out@.drop_last() =~= before);
            assert(args@.take(i as int).drop_last() =~= args@.take(i - 1));
        }
    }
    assert(args@.take(args.len() as int) =~= args@);
    out
}

pub fn expand_expr(namespaces: &Vec<Namespace>, expr: &Expr) -> (r: Expr)
    ensures
        expr_view(r) == expand_view(ns_view(namespaces@), expr_view(*expr)),
    decreases expr,
{
    match expr {
        Expr::ConstantExpr(Object::IriValue(value)) => Expr::ConstantExpr(Object::IriValue(expand_uri(namespaces, value.as_str()))),
        Expr::CallExpr(fname, args) => {
            proof {
                assert(decreases_to!(*expr => *args));
            }
            let ghost ns = ns_view(namespaces@);
            let mut out: Vec<Expr> = Vec::new();
            let mut i: usize = 0;
            while i < args.len()
                invariant
                    i <= args@.len(),
                    *expr == Expr::CallExpr(*fname, *args),
                    ns == ns_view(namespaces@),
                    out@.len() == i,
                    exprs_view(out@) == expand_views(ns, exprs_view(args@.take(i as int))),
                decreases args.len() - i,
            {
                proof {
                    assert(decreases_to!(*expr => expr->CallExpr_1));
                    assert(decreases_to!(*args => args@));
                    assert(decreases_to!(args@ => args@[i as int]));
                }
                let x = expand_expr(namespaces, &args[i]);
                let ghost before = out@;
                out.push(x);
                i += 1;
                proof {
                    assert(out@.drop_last() =~= before);
                    assert(args@.take(i as int).drop_last() =~= args@.take(i - 1));
                    let pre = exprs_view(args@.take(i - 1));
                    assert(exprs_view(args@.take(i as int)) == pre.push(expr_view(args@[i - 1])));
                    assert(pre.push(expr_view(args@[i - 1])).drop_last() =~= pre);
                }
            }
            assert(args@.take(args.len() as int) =~= args@);
            Expr::CallExpr(fname.clone(), out)
        },
        _ => copy_expr(expr),
    }
}

/// `q` is the pattern `p` with a constant IRI expanded.
pub open spec fn expanded_pattern(ns: Seq<(Seq<char>, Seq<char>)>, p: Pattern, q: Pattern) -> bool {
    match p {
        Pattern::Constant(o) => q matches Pattern::Constant(o2) && o2@ == match o@ {
            Term::Iri(v) => Term::Iri(expand_spec(ns, v)),
            t => t,
        },
        Pattern::Variable(n) => q matches Pattern::Variable(m) && m@ == n@,
    }
}

pub fn expand_pattern(namespaces: &Vec<Namespace>, pattern: &Pattern) -> (r: Pattern)
    ensures
        expanded_pattern(ns_view(namespaces@), *pattern, r),
{
    match pattern {
        Pattern::Constant(Object::IriValue(value)) => Pattern::Constant(Object::IriValue(expand_uri(namespaces, value.as_str()))),
        Pattern::Constant(o) => Pattern::Constant(o.copy()),
        Pattern::Variable(n) => Pattern::Variable(n.clone()),
    }
}

pub open spec fn expanded_triple(ns: Seq<(Seq<char>, Seq<char>)>, a: TriplePattern, b: TriplePattern) -> bool {
    expanded_pattern(ns, a.subject, b.subject) && expanded_pattern(ns, a.predicate, b.predicate)
        && expanded_pattern(ns, a.object, b.object)
}

pub fn expand_triple(namespaces: &Vec<Namespace>, tp: &TriplePattern) -> (r: TriplePattern)
    ensures
        expanded_triple(ns_view(namespaces@), *tp, r),
{
    TriplePattern {
        subject: expand_pattern(namespaces, &tp.subject),
        predicate: expand_pattern(namespaces, &tp.predicate),
        object: expand_pattern(namespaces, &tp.object),
    }
}

/// `b` is the algebra `a` with the IRIs of its patterns and expressions expanded.
pub open spec fn expanded_algebra(ns: Seq<(Seq<char>, Seq<char>)>, a: Algebra, b: Algebra) -> bool
    decreases a,
{
    match a {
        Algebra::Basic(tp) => b matches Algebra::Basic(tp2) && expanded_triple(ns, tp, tp2),
        Algebra::Group(v) => b matches Algebra::Group(w) && expanded_algebras(ns, v@, w@),
        Algebra::Optional(x) => b matches Algebra::Optional(y) && expanded_algebra(ns, *x, *y),
        Algebra::Bind(e, n) => b matches Algebra::Bind(f, m) && expr_view(f) == expand_view(ns, expr_view(e)) && m@ == n@,
        Algebra::Filter(e) => b matches Algebra::Filter(f) && expr_view(f) == expand_view(ns, expr_view(e)),
    }
}

pub open spec fn expanded_algebras(ns: Seq<(Seq<char>, Seq<char>)>, a: Seq<Algebra>, b: Seq<Algebra>) -> bool
    decreases a,
{
    a.len() == b.len() && (a.len() == 0 || (expanded_algebras(ns, a.drop_last(), b.drop_last()) && expanded_algebra(ns, a.last(), b.last())))
}

/// The algebra with its prefixed names expanded using the namespaces.
pub fn expand(namespaces: &Vec<Namespace>, algebra: &Algebra) -> (r: Algebra)
    ensures
        expanded_algebra(ns_view(namespaces@), *algebra, r),
    decreases algebra,
{
    match algebra {
        Algebra::Basic(tp) => Algebra::Basic(expand_triple(namespaces, tp)),
        Algebra::Group(terms) => {
            let ghost ns = ns_view(namespaces@);
            let mut out: Vec<Algebra> = Vec::new();
            let mut i: usize = 0;
            while i < terms.len()
                invariant
                    i <= terms@.len(),
                    *algebra == Algebra::Group(*terms),
                    ns == ns_view(namespaces@),
                    out@.len() == i,
                    expanded_algebras(ns, terms@.take(i as int), out@),
                decreases terms.len() - i,
            {
                proof {
                    assert(decreases_to!(*algebra => algebra->Group_0));
                    assert(decreases_to!(*terms => terms@));
                    assert(decreases_to!(terms@ => terms@[i as int]));
                }
                let x = expand(namespaces, &terms[i]);
                let ghost before = out@;
                out.push(x);
                i += 1;
                proof {
                    assert(out@.drop_last() =~= before);
                    assert(terms@.take(i as int).drop_last() =~= terms@.take(i - 1));
                }
            }
            assert(terms@.take(terms.len() as int) =~= terms@);
            Algebra::Group(out)
        },
        Algebra::Optional(term) => {
            proof {
                assert(decreases_to!(*algebra => algebra->Optional_0));
            }
            Algebra::Optional(Box::new(expand(namespaces, term)))
        },
        Algebra::Bind(e, n) => Algebra::Bind(expand_expr(namespaces, e), n.clone()),
        Algebra::Filter(e) => Algebra::Filter(expand_expr(namespaces, e)),
    }
}

/// The model of a slot of a triple pattern.
pub enum PatternV {
    Variable(Seq<char>),
    Constant(Term),
}

pub open spec fn pattern_view(p: Pattern) -> PatternV {
    match p {
        Pattern::Variable(n) => PatternV::Variable(n@),
        Pattern::Constant(o) => PatternV::Constant(o@),
    }
}

/// The model of an algebra: its patterns, expressions and names as models.
pub enum AlgebraV {
    Basic(PatternV, PatternV, PatternV),
    Group(Seq<AlgebraV>),
    Optional(Box<AlgebraV>),
    Bind(ExprV, Seq<char>),
    Filter(ExprV),
}

pub open spec fn algebra_view(a: Algebra) -> AlgebraV
    decreases a,
{
    match a {
        Algebra::Basic(tp) => AlgebraV::Basic(pattern_view(tp.subject), pattern_view(tp.predicate), pattern_view(tp.object)),
        Algebra::Group(v) => AlgebraV::Group(algebras_view(v@)),
        Algebra::Optional(x) => AlgebraV::Optional(Box::new(algebra_view(*x))),
        Algebra::Bind(e, n) => AlgebraV::Bind(expr_view(e), n@),
        Algebra::Filter(e) => AlgebraV::Filter(expr_view(e)),
    }
}

pub open spec fn algebras_view(s: Seq<Algebra>) -> Seq<AlgebraV>
    decreases s,
{
    if s.len() == 0 { Seq::empty() } else { algebras_view(s.drop_last()).push(algebra_view(s.last())) }
}

/// A pattern with a constant IRI expanded.
pub open spec fn expand_pattern_view(ns: Seq<(Seq<char>, Seq<char>)>, p: PatternV) -> PatternV {
    match p {
        PatternV::Constant(Term::Iri(v)) => PatternV::Constant(Term::Iri(expand_spec(ns, v))),
        _ => p,
    }
}

/// An algebra with the IRIs of its patterns and expressions expanded.
pub open spec fn expand_algebra_view(ns: Seq<(Seq<char>, Seq<char>)>, a: AlgebraV) -> AlgebraV
    decreases a,
{
    match a {
        AlgebraV::Basic(s, p, o) => AlgebraV::Basic(expand_pattern_view(ns, s), expand_pattern_view(ns, p), expand_pattern_view(ns, o)),
        AlgebraV::Group(v) => AlgebraV::Group(expand_algebra_views(ns, v)),
        AlgebraV::Optional(x) => AlgebraV::Optional(Box::new(expand_algebra_view(ns, *x))),
        AlgebraV::Bind(e, n) => AlgebraV::Bind(expand_view(ns, e), n),
        AlgebraV::Filter(e) => AlgebraV::Filter(expand_view(ns, e)),
    }
}

pub open spec fn expand_algebra_views(ns: Seq<(Seq<char>, Seq<char>)>, s: Seq<AlgebraV>) -> Seq<AlgebraV>
    decreases s,
{
    if s.len() == 0 { Seq::empty() } else { expand_algebra_views(ns, s.drop_last()).push(expand_algebra_view(ns, s.last())) }
}

proof fn lemma_expanded_pattern_view(ns: Seq<(Seq<char>, Seq<char>)>, p: Pattern, q: Pattern)
    requires
        expanded_pattern(ns, p, q),
    ensures
        pattern_view(q) == expand_pattern_view(ns, pattern_view(p)),
{
}

/// What `expanded_algebra` relates: the model of the expanded algebra is the expanded model.
pub proof fn lemma_expanded_algebra_view(ns: Seq<(Seq<char>, Seq<char>)>, a: Algebra, b: Algebra)
    requires
        expanded_algebra(ns, a, b),
    ensures
        algebra_view(b) == expand_algebra_view(ns, algebra_view(a)),
    decreases a,
{
    match a {
        Algebra::Basic(tp) => {
            let tp2 = b->Basic_0;
            lemma_expanded_pattern_view(ns, tp.subject, tp2.subject);
            lemma_expanded_pattern_view(ns, tp.predicate, tp2.predicate);
            lemma_expanded_pattern_view(ns, tp.object, tp2.object);
        },
        Algebra::Group(v) => {
            assert(decreases_to!(a => v));
            lemma_expanded_algebras_view(ns, v@, b->Group_0@);
        },
        Algebra::Optional(x) => {
            lemma_expanded_algebra_view(ns, *x, *b->Optional_0);
        },
        _ => {},
    }
}

proof fn lemma_expanded_algebras_view(ns: Seq<(Seq<char>, Seq<char>)>, a: Seq<Algebra>, b: Seq<Algebra>)
    requires
        expanded_algebras(ns, a, b),
    ensures
        algebras_view(b) == expand_algebra_views(ns, algebras_view(a)),
    decreases a,
{
    if a.len() > 0 {
        lemma_expanded_algebras_view(ns, a.drop_last(), b.drop_last());
        lemma_expanded_algebra_view(ns, a.last(), b.last());
        let x = algebras_view(a);
        assert(x.drop_last() =~= algebras_view(a.drop_last()));
    }
}

proof fn lemma_algebras_view_push(s: Seq<Algebra>, a: Algebra)
    ensures
        algebras_view(s.push(a)) == algebras_view(s).push(algebra_view(a)),
{
    assert(s.push(a).drop_last() =~= s);
}

proof fn lemma_algebras_view_len(s: Seq<Algebra>)
    ensures
        algebras_view(s).len() == s.len(),
        forall|k: int| 0 <= k < s.len() ==> #[trigger] algebras_view(s)[k] == algebra_view(s[k]),
    decreases s,
{
    if s.len() > 0 {
        lemma_algebras_view_len(s.drop_last());
    }
}

// ---- Duplicate names ------------------------------------------------------------------------

/// Whether a name occurs more than once.
pub open spec fn occurs_twice(s: Seq<Seq<char>>, x: Seq<char>) -> bool {
    exists|i: int, j: int| 0 <= i < s.len() && 0 <= j < s.len() && i != j && s[i] == x && s[j] == x
}

/// Whether names are in strictly increasing order (by code point).
pub open spec fn strictly_sorted(s: Seq<Seq<char>>) -> bool {
    forall|k: int| 0 <= k < s.len() - 1 ==> seq_order(#[trigger] s[k], s[k + 1]) < 0
}

pub proof fn lemma_seq_order_antisymmetric(a: Seq<char>, b: Seq<char>)
    ensures
        seq_order(a, b) == -seq_order(b, a),
    decreases a.len(),
{
    if a.len() > 0 && b.len() > 0 && a[0] == b[0] {
        lemma_seq_order_antisymmetric(a.drop_first(), b.drop_first());
    }
}

fn occurs_elsewhere(names: &Vec<String>, i: usize) -> (r: bool)
    requires
        i < names@.len(),
    ensures
        r == exists|j: int| 0 <= j < names@.len() && j != i && names_view(names@)[j] == names_view(names@)[i as int],
{
    let ghost s = names_view(names@);
    let mut j: usize = 0;
    while j < names.len()
        invariant
            j <= names@.len(),
            i < names@.len(),
            s == names_view(names@),
            forall|k: int| 0 <= k < j && k != i ==> s[k] != s[i as int],
        decreases names.len() - j,
    {
        if j != i && str_eq(names[j].as_str(), names[i].as_str()) {
            assert(s[j as int] == s[i as int]);
            return true;
        }
        j += 1;
    }
    false
}

fn contains_name(names: &Vec<String>, x: &String) -> (r: bool)
    ensures
        r == names_view(names@).contains(x@),
{
    let ghost d = names_view(names@);
    let mut k: usize = 0;
    while k < names.len()
        invariant
            k <= names@.len(),
            d == names_view(names@),
            forall|q: int| 0 <= q < k ==> d[q] != x@,
        decreases names.len() - k,
    {
        if str_eq(names[k].as_str(), x.as_str()) {
            assert(d[k as int] == x@);
            return true;
        }
        k += 1;
    }
    false
}

/// Puts `x` into a strictly increasing list of names that lacks it, keeping the order.
#[verifier::spinoff_prover]
#[verifier::rlimit(30)]
fn insert_name(names: &mut Vec<String>, x: &String)
    requires
        strictly_sorted(names_view(old(names)@)),
        !names_view(old(names)@).contains(x@),
    ensures
        strictly_sorted(names_view(final(names)@)),
        forall|y: Seq<char>| names_view(final(names)@).contains(y) <==> (names_view(old(names)@).contains(y) || y == x@),
{
    let ghost d = names_view(names@);
    let ghost xv = x@;
    let mut j: usize = names.len();
    while j > 0 && order_strs(x.as_str(), names[j - 1].as_str()) < 0
        invariant
            j <= names@.len(),
            d == names_view(names@),
            x@ == xv,
            j < d.len() ==> seq_order(xv, d[j as int]) < 0,
        decreases j,
    {
        j -= 1;
    }
    proof {
        if j > 0 {
            assert(seq_order(xv, d[j - 1]) >= 0);
            lemma_seq_order_eq(xv, d[j - 1]);
            assert(d.contains(d[j - 1]));
            lemma_seq_order_antisymmetric(xv, d[j - 1]);
        }
    }
    names.insert(j, x.clone());
    proof {
        let nd = names_view(names@);
        assert(nd =~= d.insert(j as int, xv));
        assert forall|q: int| 0 <= q < nd.len() - 1 implies seq_order(#[trigger] nd[q], nd[q + 1]) < 0 by {
            if q < j - 1 {
                assert(nd[q] == d[q] && nd[q + 1] == d[q + 1]);
            } else if q == j - 1 {
            } else if q == j {
            } else {
                assert(nd[q] == d[q - 1] && nd[q + 1] == d[q]);
            }
        }
        assert forall|y: Seq<char>| nd.contains(y) <==> (d.contains(y) || y == xv) by {
            if nd.contains(y) {
                let q = choose|q: int| 0 <= q < nd.len() && nd[q] == y;
                if q != j {
                    let q2 = if q < j { q } else { q - 1 };
                    assert(d[q2] == y);
                }
            }
            if y == xv {
                assert(nd[j as int] == y);
            } else if d.contains(y) {
                let q2 = choose|q2: int| 0 <= q2 < d.len() && d[q2] == y;
                if q2 < j {
                    assert(nd[q2] == y);
                } else {
                    assert(nd[q2 + 1] == y);
                }
            }
        }
    }
}

/// The names that occur more than once, each once, in increasing order.
pub fn find_dupes(names: &Vec<String>) -> (r: Vec<String>)
    ensures
        forall|x: Seq<char>| names_view(r@).contains(x) <==> occurs_twice(names_view(names@), x),
        strictly_sorted(names_view(r@)),
{
    let ghost s = names_view(names@);
    let mut dupes: Vec<String> = Vec::new();
    let mut i: usize = 0;
    while i < names.len()
        invariant
            i <= names@.len(),
            s == names_view(names@),
            strictly_sorted(names_view(dupes@)),
            forall|x: Seq<char>| names_view(dupes@).contains(x) <==>
                (occurs_twice(s, x) && exists|k: int| 0 <= k < i && s[k] == x),
        decreases names.len() - i,
    {
        let x = &names[i];
        let ghost xv = s[i as int];
        assert(x@ == xv);
        let twice = occurs_elsewhere(names, i);
        proof {
            if twice {
                let j = choose|j: int| 0 <= j < names@.len() && j != i && s[j] == s[i as int];
                assert(occurs_twice(s, xv));
            } else if occurs_twice(s, xv) {
                let (a, b) = choose|a: int, b: int| 0 <= a < s.len() && 0 <= b < s.len() && a != b && s[a] == xv && s[b] == xv;
                if a != i {
                    assert(s[a] == s[i as int]);
                } else {
                    assert(s[b] == s[i as int]);
                }
            }
        }
        let ghost d = names_view(dupes@);
        let present = contains_name(&dupes, x);
        if twice && !present {
            insert_name(&mut dupes, x);
        }
        proof {
            let nd = names_view(dupes@);
            assert forall|y: Seq<char>| nd.contains(y) <==> (occurs_twice(s, y) && exists|q: int| 0 <= q < i + 1 && s[q] == y) by {
                if occurs_twice(s, y) && exists|q: int| 0 <= q < i + 1 && s[q] == y {
                    if y != xv {
                        let q = choose|q: int| 0 <= q < i + 1 && s[q] == y;
                        assert(q != i);
                        assert(exists|q3: int| 0 <= q3 < i && s[q3] == y);
                    }
                }
                if d.contains(y) {
                    let q = choose|q: int| 0 <= q < i && s[q] == y;
                    assert(0 <= q < i + 1 && s[q] == y);
                }
                if y == xv {
                    assert(s[i as int] == y);
                }
            }
        }
        i += 1;
    }
    proof {
        assert forall|x: Seq<char>| occurs_twice(s, x) implies exists|k: int| 0 <= k < names@.len() && s[k] == x by {
            let (a, b) = choose|a: int, b: int| 0 <= a < s.len() && 0 <= b < s.len() && a != b && s[a] == x && s[b] == x;
            assert(s[a] == x);
        }
    }
    dupes
}

/// The names joined with single spaces.
pub open spec fn join_spaces(s: Seq<Seq<char>>) -> Seq<char>
    decreases s.len(),
{
    if s.len() == 0 {
        Seq::empty()
    } else if s.len() == 1 {
        s[0]
    } else {
        join_spaces(s.drop_last()) + " "@ + s.last()
    }
}

fn join_names(names: &Vec<String>) -> (r: String)
    ensures
        r@ == join_spaces(names_view(names@)),
{
    let ghost s = names_view(names@);
    let mut out = String::new();
    let mut i: usize = 0;
    while i < names.len()
        invariant
            i <= names@.len(),
            s == names_view(names@),
            out@ == join_spaces(s.take(i as int)),
        decreases names.len() - i,
    {
        if i == 0 {
            out = names[i].clone();
        } else {
            let a = concat_str(out.as_str(), " ");
            out = concat_str(a.as_str(), names[i].as_str());
        }
        i += 1;
        proof {
            assert(s.take(i as int).drop_last() =~= s.take(i - 1));
            assert(s.take(i as int).last() == s[i - 1]);
            if i == 1 {
                assert(s.take(1)[0] == s[0]);
            }
        }
    }
    assert(s.take(names.len() as int) =~= s);
    out
}

/// What a query's text yields before it is turned into a selector.
pub struct ParsedQuery {
    /// From the PREFIX clauses.
    pub namespaces: Vec<Namespace>,
    /// The variables of the SELECT clause ("*" for all).
    pub names: Vec<String>,
    pub distinct: bool,
    /// From the WHERE clause.
    pub algebra: Algebra,
    pub order_by: Vec<Expr>,
    pub limit: Option<usize>,
}

/// Builds the selector of a parsed query: an error when the SELECT clause names a variable
/// twice, else the evaluation of the algebra (its prefixed names expanded with the PREFIX
/// namespaces), timestamped now.
pub fn build_parser(query: ParsedQuery) -> (r: Result<Selector, String>)
    ensures
        ({
            match r {
                Err(e) => {
                    &&& exists|x: Seq<char>| occurs_twice(names_view(query.names@), x)
                    &&& exists|d: Seq<Seq<char>>| {
                        &&& strictly_sorted(d)
                        &&& (forall|x: Seq<char>| d.contains(x) <==> occurs_twice(names_view(query.names@), x))
                        &&& e@ == "Select clause has duplicates: "@ + join_spaces(d)
                    }
                },
                Ok(sel) => {
                    &&& forall|x: Seq<char>| !occurs_twice(names_view(query.names@), x)
                    &&& sel.wf()
                    &&& (query.namespaces@.len() > 0 ==> expanded_algebra(ns_view(query.namespaces@), query.algebra, sel.context.algebra))
                    &&& (query.namespaces@.len() == 0 ==> sel.context.algebra == query.algebra)
                    &&& sel.context.order_by == query.order_by
                    &&& sel.context.distinct == query.distinct
                    &&& sel.context.limit == query.limit
                    &&& ((query.names@.len() == 1 && query.names@[0]@ == "*"@) ==> sel.num_selected == sel.bindings@.len())
                    &&& (!(query.names@.len() == 1 && query.names@[0]@ == "*"@) ==> sel.num_selected == query.names@.len()
                        && names_view(sel.bindings@).take(query.names@.len() as int) == names_view(query.names@))
                },
            }
        }),
{
    let dupes = find_dupes(&query.names);
    if dupes.len() == 0 {
        proof {
            assert forall|x: Seq<char>| !occurs_twice(names_view(query.names@), x) by {
                if occurs_twice(names_view(query.names@), x) {
                    assert(names_view(dupes@).contains(x));
                }
            }
        }
        let ParsedQuery { namespaces, names, distinct, algebra, order_by, limit } = query;
        let algebra = if namespaces.len() > 0 { expand(&namespaces, &algebra) } else { algebra };
        let context = QueryContext { algebra, order_by, distinct, limit, timestamp: DateTime::now() };
        let sel = eval(&names, context);
        proof {
            if !(names@.len() == 1 && names@[0]@ == "*"@) {
                crate::query::lemma_add_algebra_prefix(names_view(names@), sel.context.algebra);
            }
        }
        Ok(sel)
    } else {
        let joined = join_names(&dupes);
        proof {
            let x = names_view(dupes@)[0];
            assert(names_view(dupes@).contains(x));
            assert(occurs_twice(names_view(query.names@), x));
        }
        Err(concat_str("Select clause has duplicates: ", joined.as_str()))
    }
}

// ---- Characters -----------------------------------------------------------------------------

pub open spec fn in_range(c: char, lo: u32, hi: u32) -> bool {
    lo <= (c as u32) && (c as u32) <= hi
}

/// [154] PN_CHARS_BASE
pub open spec fn pn_chars_base_spec(c: char) -> bool {
    ('A' <= c && c <= 'Z') || ('a' <= c && c <= 'z') || in_range(c, 0xC0, 0xD6) || in_range(c, 0xD8, 0xF6)
        || in_range(c, 0xF8, 0x2FF) || in_range(c, 0x370, 0x37D) || in_range(c, 0x37F, 0x1FFF)
        || in_range(c, 0x200C, 0x200D) || in_range(c, 0x2070, 0x218F) || in_range(c, 0x2C00, 0x2FEF)
        || in_range(c, 0x3001, 0xD7FF) || in_range(c, 0xF900, 0xFDCF) || in_range(c, 0xFDF0, 0xFFFD)
        || in_range(c, 0x10000, 0xEFFFF)
}

/// [155] PN_CHARS_U
pub open spec fn pn_chars_u_spec(c: char) -> bool {
    pn_chars_base_spec(c) || c == '_'
}

/// [157] PN_CHARS
pub open spec fn pn_chars_spec(c: char) -> bool {
    pn_chars_u_spec(c) || c == '-' || ('0' <= c && c <= '9') || c == '\u{B7}' || in_range(c, 0x300, 0x36F)
        || in_range(c, 0x203F, 0x2040)
}

pub open spec fn hex_spec(c: char) -> bool {
    ('0' <= c && c <= '9') || ('a' <= c && c <= 'f') || ('A' <= c && c <= 'F')
}

pub open spec fn at(chars: Seq<char>, i: int) -> char {
    if 0 <= i < chars.len() { chars[i] } else { '\0' }
}

fn char_at(chars: &Vec<char>, i: usize) -> (c: char)
    ensures
        c == at(chars@, i as int),
{
    if i < chars.len() { chars[i] } else { '\0' }
}

fn in_range_exec(c: char, lo: u32, hi: u32) -> (r: bool)
    ensures
        r == in_range(c, lo, hi),
{
    lo <= (c as u32) && (c as u32) <= hi
}

fn pn_chars_base_char(c: char) -> (r: bool)
    ensures
        r == pn_chars_base_spec(c),
{
    (c >= 'A' && c <= 'Z') || (c >= 'a' && c <= 'z') || in_range_exec(c, 0xC0, 0xD6) || in_range_exec(c, 0xD8, 0xF6)
        || in_range_exec(c, 0xF8, 0x2FF) || in_range_exec(c, 0x370, 0x37D) || in_range_exec(c, 0x37F, 0x1FFF)
        || in_range_exec(c, 0x200C, 0x200D) || in_range_exec(c, 0x2070, 0x218F) || in_range_exec(c, 0x2C00, 0x2FEF)
        || in_range_exec(c, 0x3001, 0xD7FF) || in_range_exec(c, 0xF900, 0xFDCF) || in_range_exec(c, 0xFDF0, 0xFFFD)
        || in_range_exec(c, 0x10000, 0xEFFFF)
}

fn pn_chars_char(c: char) -> (r: bool)
    ensures
        r == pn_chars_spec(c),
{
    pn_chars_base_char(c) || c == '_' || c == '-' || (c >= '0' && c <= '9') || c == '\u{B7}'
        || in_range_exec(c, 0x300, 0x36F) || in_range_exec(c, 0x203F, 0x2040)
}

/// 1 when the character at `i` is a PN_CHARS_BASE, else 0.
pub fn pn_chars_base(chars: &Vec<char>, i: usize) -> (r: usize)
    ensures
        r == (if pn_chars_base_spec(at(chars@, i as int)) { 1usize } else { 0usize }),
{
    if pn_chars_base_char(char_at(chars, i)) { 1 } else { 0 }
}

/// 1 when the character at `i` is a PN_CHARS_U, else 0.
pub fn pn_chars_u(chars: &Vec<char>, i: usize) -> (r: usize)
    ensures
        r == (if pn_chars_u_spec(at(chars@, i as int)) { 1usize } else { 0usize }),
{
    let c = char_at(chars, i);
    if pn_chars_base_char(c) || c == '_' { 1 } else { 0 }
}

/// 1 when the character at `i` is a PN_CHARS, else 0.
pub fn pn_chars(chars: &Vec<char>, i: usize) -> (r: usize)
    ensures
        r == (if pn_chars_spec(at(chars@, i as int)) { 1usize } else { 0usize }),
{
    if pn_chars_char(char_at(chars, i)) { 1 } else { 0 }
}

/// 1 when the character at `i` is a PN_CHARS or '.', else 0.
pub fn pn_chars_or_dot(chars: &Vec<char>, i: usize) -> (r: usize)
    ensures
        r == (if pn_chars_spec(at(chars@, i as int)) || at(chars@, i as int) == '.' { 1usize } else { 0usize }),
{
    let c = char_at(chars, i);
    if pn_chars_char(c) || c == '.' { 1 } else { 0 }
}

pub fn is_hex(ch: char) -> (r: bool)
    ensures
        r == hex_spec(ch),
{
    (ch >= '0' && ch <= '9') || (ch >= 'a' && ch <= 'f') || (ch >= 'A' && ch <= 'F')
}

/// Whether a character may follow '\' in a local name (PN_LOCAL_ESC).
pub open spec fn local_escape_spec(c: char) -> bool {
    c == '_' || c == '~' || c == '.' || c == '-' || c == '!' || c == '$' || c == '&' || c == '\'' || c == '"'
        || c == '(' || c == ')' || c == '*' || c == '+' || c == ',' || c == ';' || c == '=' || c == ':'
        || c == '/' || c == '?' || c == '#' || c == '@' || c == '%'
}

/// [160] PLX: 3 for a percent escape ('%' HEX HEX), 2 for a local escape ('\' and one of
/// the listed characters), else 0.
pub open spec fn plx_spec(chars: Seq<char>, i: int) -> usize {
    if at(chars, i) == '%' && hex_spec(at(chars, i + 1)) && hex_spec(at(chars, i + 2)) {
        3
    } else if at(chars, i) == '\\' && local_escape_spec(at(chars, i + 1)) {
        2
    } else {
        0
    }
}

pub fn plx(chars: &Vec<char>, i: usize) -> (r: usize)
    requires
        i < usize::MAX - 2,
    ensures
        r == plx_spec(chars@, i as int),
{
    let c = char_at(chars, i);
    let d = char_at(chars, i + 1);
    if c == '%' && is_hex(d) && is_hex(char_at(chars, i + 2)) {
        3
    } else if c == '\\' && (d == '_' || d == '~' || d == '.' || d == '-' || d == '!' || d == '$' || d == '&'
        || d == '\'' || d == '"' || d == '(' || d == ')' || d == '*' || d == '+' || d == ',' || d == ';'
        || d == '=' || d == ':' || d == '/' || d == '?' || d == '#' || d == '@' || d == '%') {
        2
    } else {
        0
    }
}

/// PN_CHARS | '.' | PLX: the length of what starts at `i`, or 0.
pub fn pn_chars_or_dot_or_plx(chars: &Vec<char>, i: usize) -> (r: usize)
    requires
        i < usize::MAX - 2,
    ensures
        r == (if pn_chars_spec(at(chars@, i as int)) || at(chars@, i as int) == '.' { 1usize } else { plx_spec(chars@, i as int) }),
{
    let n = pn_chars_or_dot(chars, i);
    if n > 0 { n } else { plx(chars, i) }
}

pub open spec fn is_alpha_spec(c: char) -> bool {
    ('a' <= c && c <= 'z') || ('A' <= c && c <= 'Z')
}

pub fn is_langtag_prefix(ch: char) -> (r: bool)
    ensures
        r == is_alpha_spec(ch),
{
    (ch >= 'a' && ch <= 'z') || (ch >= 'A' && ch <= 'Z')
}

pub fn is_langtag_suffix(ch: char) -> (r: bool)
    ensures
        r == (is_alpha_spec(ch) || ('0' <= ch && ch <= '9')),
{
    is_langtag_prefix(ch) || (ch >= '0' && ch <= '9')
}

/// [150] ECHAR: the characters that may follow '\' in a string.
pub open spec fn escape_spec(c: char) -> bool {
    c == 't' || c == 'b' || c == 'n' || c == 'r' || c == 'f' || c == '"' || c == '\''
}

pub fn is_escape_char(ch: char) -> (r: bool)
    ensures
        r == escape_spec(ch),
{
    ch == 't' || ch == 'b' || ch == 'n' || ch == 'r' || ch == 'f' || ch == '"' || ch == '\''
}

/// [^<>"{}|^`\]-[#x00-#x20]
pub open spec fn iri_char_spec(c: char) -> bool {
    !(c == '^' || c == '<' || c == '>' || c == '"' || c == '{' || c == '}' || c == '|' || c == '`' || c == '\\')
        && (c as u32) > 0x20
}

pub fn iri_char(ch: char) -> (r: bool)
    ensures
        r == iri_char_spec(ch),
{
    !(ch == '^' || ch == '<' || ch == '>' || ch == '"' || ch == '{' || ch == '}' || ch == '|' || ch == '`' || ch == '\\')
        && (ch as u32) > 0x20
}

/// One unit of a short string quoted with `x`: 1 for a plain character, 2 for an escape,
/// 0 for the end.
pub open spec fn short_char_spec(x: char, chars: Seq<char>, i: int) -> usize {
    let ch = at(chars, i);
    if i < chars.len() && ch != x && ch != '\\' && ch != '\n' && ch != '\r' {
        1
    } else if ch == '\\' && escape_spec(at(chars, i + 1)) {
        2
    } else {
        0
    }
}

pub fn short_char(x: char, chars: &Vec<char>, i: usize) -> (r: usize)
    requires
        i < usize::MAX - 1,
    ensures
        r == short_char_spec(x, chars@, i as int),
{
    let ch = char_at(chars, i);
    if i < chars.len() && ch != x && ch != '\\' && ch != '\n' && ch != '\r' {
        1
    } else if ch == '\\' && is_escape_char(char_at(chars, i + 1)) {
        2
    } else {
        0
    }
}

/// One unit of a long string quoted with `x`: up to two quote characters and then a
/// character that is not a quote, or an escape; 0 for the end.
pub open spec fn long_char_spec(x: char, chars: Seq<char>, i: int) -> usize {
    let delta: usize = if at(chars, i) == x { if at(chars, i + 1) == x { 2 } else { 1 } } else { 0 };
    let ch = at(chars, i + delta);
    if i + delta < chars.len() && ch != x && ch != '\\' {
        (delta + 1) as usize
    } else if ch == '\\' && escape_spec(at(chars, i + delta + 1)) {
        (delta + 2) as usize
    } else {
        0
    }
}

pub fn long_char(x: char, chars: &Vec<char>, i: usize) -> (r: usize)
    requires
        i < usize::MAX - 4,
    ensures
        r == long_char_spec(x, chars@, i as int),
{
    let delta: usize = if char_at(chars, i) == x {
        if char_at(chars, i + 1) == x { 2 } else { 1 }
    } else {
        0
    };
    let ch = char_at(chars, i + delta);
    if i + delta < chars.len() && ch != x && ch != '\\' {
        delta + 1
    } else if ch == '\\' && is_escape_char(char_at(chars, i + delta + 1)) {
        delta + 2
    } else {
        0
    }
}

/// Where white space and comments starting at `i` end.
pub open spec fn ws_spec(chars: Seq<char>, i: int) -> int
    decreases chars.len() - i,
{
    if i < 0 || i >= chars.len() {
        i
    } else if chars[i] == ' ' || chars[i] == '\t' || chars[i] == '\r' || chars[i] == '\n' {
        ws_spec(chars, i + 1)
    } else if chars[i] == '#' {
        proof {
            lemma_comment_end(chars, i + 1);
        }
        ws_spec(chars, comment_end(chars, i + 1))
    } else {
        i
    }
}

/// Where a comment starting at `i` ends: at the next line break or the end.
pub open spec fn comment_end(chars: Seq<char>, i: int) -> int
    decreases chars.len() - i,
{
    if i < 0 || i >= chars.len() || chars[i] == '\r' || chars[i] == '\n' {
        i
    } else {
        comment_end(chars, i + 1)
    }
}

pub proof fn lemma_comment_end(chars: Seq<char>, i: int)
    requires
        0 <= i <= chars.len(),
    ensures
        i <= comment_end(chars, i) <= chars.len(),
    decreases chars.len() - i,
{
    if i < chars.len() && chars[i] != '\r' && chars[i] != '\n' {
        lemma_comment_end(chars, i + 1);
    }
}

/// Skips white space and comments.
pub fn ws(chars: &Vec<char>, i: usize) -> (r: usize)
    requires
        i <= chars@.len(),
    ensures
        r == ws_spec(chars@, i as int),
        i <= r <= chars@.len(),
{
    let mut j = i;
    while j < chars.len()
        invariant
            i <= j <= chars@.len(),
            ws_spec(chars@, i as int) == ws_spec(chars@, j as int),
        decreases chars.len() - j,
    {
        let c = chars[j];
        if c == ' ' || c == '\t' || c == '\r' || c == '\n' {
            j += 1;
        } else if c == '#' {
            let ghost start = j;
            proof {
                lemma_comment_end(chars@, (j + 1) as int);
            }
            j += 1;
            while j < chars.len() && chars[j] != '\r' && chars[j] != '\n'
                invariant
                    start < j <= chars@.len(),
                    chars@[start as int] == '#',
                    ws_spec(chars@, i as int) == ws_spec(chars@, comment_end(chars@, j as int)),
                decreases chars.len() - j,
            {
                j += 1;
            }
        } else {
            return j;
        }
    }
    j
}

// ---- Tokens ---------------------------------------------------------------------------------

/// Where a parse failed and what it expected there.
pub struct Fail {
    pub pos: usize,
    pub expected: String,
}

fn fail_at(pos: usize, what: &str) -> (r: Fail)
    ensures
        r.pos == pos,
{
    Fail { pos, expected: what.to_owned() }
}

/// Of two failures, the one that got further.
fn further(a: Fail, b: Fail) -> (r: Fail)
    ensures
        r.pos == if b.pos > a.pos { b.pos } else { a.pos },
{
    if b.pos > a.pos { b } else { a }
}

/// Whether two characters are the same, ignoring ASCII case when `fold` is set.
pub open spec fn same_char(a: char, b: char, fold: bool) -> bool {
    if fold { lower_char(a) == lower_char(b) } else { a == b }
}

/// Whether the (non-empty) literal `t` stands at `i`.
pub open spec fn lit_at(chars: Seq<char>, i: int, t: Seq<char>, fold: bool) -> bool {
    &&& t.len() > 0
    &&& 0 <= i && i + t.len() <= chars.len()
    &&& forall|k: int| 0 <= k < t.len() ==> #[trigger] same_char(chars[i + k], t[k], fold)
}

/// Matches a literal at `i` (case-insensitively for ASCII letters when `fold` is set).
fn match_lit(chars: &Vec<char>, i: usize, t: &str, fold: bool) -> (r: Option<usize>)
    requires
        i <= chars@.len(),
    ensures
        r is Some <==> lit_at(chars@, i as int, t@, fold),
        r matches Some(j) ==> j == i + t@.len() && i < j <= chars@.len(),
{
    let tc = crate::text::chars_of(t);
    if tc.len() == 0 || tc.len() > chars.len() - i {
        return None;
    }
    let n = chars.len();
    let mut k: usize = 0;
    while k < tc.len()
        invariant
            k <= tc@.len(),
            n == chars@.len(),
            tc@ == t@,
            i + tc@.len() <= chars@.len(),
            forall|q: int| 0 <= q < k ==> #[trigger] same_char(chars@[i + q], t@[q], fold),
        decreases tc.len() - k,
    {
        let a = chars[i + k];
        let b = tc[k];
        let same = if fold { lower_char_exec(a) == lower_char_exec(b) } else { a == b };
        if !same {
            assert(!same_char(chars@[i + k], t@[k as int], fold));
            return None;
        }
        k += 1;
    }
    Some(i + tc.len())
}

/// A token: the literal, then white space.
fn tok(chars: &Vec<char>, i: usize, t: &str) -> (r: Result<usize, Fail>)
    requires
        i <= chars@.len(),
    ensures
        r matches Ok(j) ==> i < j <= chars@.len(),
        match r {
            Ok(j) => lit_at(chars@, i as int, t@, false) && j == ws_spec(chars@, i + t@.len()),
            Err(f) => !lit_at(chars@, i as int, t@, false) && f.pos == i,
        },
{
    match match_lit(chars, i, t, false) {
        Some(j) => Ok(ws(chars, j)),
        None => {
            let a = concat_str("'", t);
            Err(Fail { pos: i, expected: concat_str(a.as_str(), "'") })
        },
    }
}

/// A keyword (any case), then white space.
fn keyword(chars: &Vec<char>, i: usize, t: &str) -> (r: Result<usize, Fail>)
    requires
        i <= chars@.len(),
    ensures
        r matches Ok(j) ==> i < j <= chars@.len(),
        match r {
            Ok(j) => lit_at(chars@, i as int, t@, true) && j == ws_spec(chars@, i + t@.len()),
            Err(f) => !lit_at(chars@, i as int, t@, true) && f.pos == i,
        },
{
    match match_lit(chars, i, t, true) {
        Some(j) => Ok(ws(chars, j)),
        None => Err(Fail { pos: i, expected: t.to_owned() }),
    }
}

/// The number of consecutive decimal digits from `j`.
pub open spec fn digit_run(chars: Seq<char>, j: int) -> int
    decreases chars.len() - j,
{
    if 0 <= j < chars.len() && '0' <= chars[j] && chars[j] <= '9' { 1 + digit_run(chars, j + 1) } else { 0 }
}

fn scan_digits(chars: &Vec<char>, i: usize) -> (r: usize)
    requires
        i <= chars@.len(),
    ensures
        i <= r <= chars@.len(),
        r == i + digit_run(chars@, i as int),
{
    let mut j = i;
    while j < chars.len() && chars[j] >= '0' && chars[j] <= '9'
        invariant
            i <= j <= chars@.len(),
            digit_run(chars@, i as int) == (j - i) + digit_run(chars@, j as int),
        decreases chars.len() - j,
    {
        j += 1;
    }
    j
}

/// The number of consecutive PN_CHARS or '.' characters from `j`.
pub open spec fn pn_dot_run(chars: Seq<char>, j: int) -> int
    decreases chars.len() - j,
{
    if 0 <= j < chars.len() && (pn_chars_spec(chars[j]) || chars[j] == '.') { 1 + pn_dot_run(chars, j + 1) } else { 0 }
}

/// `hi` moved back over the dots that end `chars[lo..hi]`.
pub open spec fn trim_dots(chars: Seq<char>, lo: int, hi: int) -> int
    decreases hi - lo,
{
    if hi > lo && chars[hi - 1] == '.' { trim_dots(chars, lo, hi - 1) } else { hi }
}

/// [158] PN_PREFIX ::= PN_CHARS_BASE ((PN_CHARS | '.')* PN_CHARS)?: where it ends.
pub open spec fn pn_prefix_spec(chars: Seq<char>, i: int) -> Option<int> {
    if pn_chars_base_spec(at(chars, i)) {
        Some(trim_dots(chars, i + 1, i + 1 + pn_dot_run(chars, i + 1)))
    } else {
        None
    }
}

fn pn_prefix(chars: &Vec<char>, i: usize) -> (r: Option<usize>)
    requires
        i <= chars@.len(),
    ensures
        r matches Some(j) ==> i < j <= chars@.len(),
        match pn_prefix_spec(chars@, i as int) {
            Some(e) => 0 <= e <= chars.len() && r == Some(e as usize),
            None => r is None,
        },
{
    if pn_chars_base(chars, i) == 0 {
        return None;
    }
    assert(!pn_chars_base_spec('\0'));
    assert(i < chars@.len());
    assert(chars@.len() == chars.len());
    let mut j = i + 1;
    let mut last = j;
    while j < chars.len() && pn_chars_or_dot(chars, j) > 0
        invariant
            i < last <= j <= chars@.len(),
            pn_dot_run(chars@, i + 1) == (j - (i + 1)) + pn_dot_run(chars@, j as int),
            last == trim_dots(chars@, i + 1, j as int),
        decreases chars.len() - j,
    {
        let dot = chars[j] == '.';
        j += 1;
        if !dot {
            last = j;
        }
    }
    Some(last)
}

/// The length of a PN_CHARS, '.' or PLX at `j` (0 for none).
pub open spec fn local_unit(chars: Seq<char>, j: int) -> int {
    if pn_chars_spec(at(chars, j)) || at(chars, j) == '.' { 1 } else { plx_spec(chars, j) as int }
}

/// Where the units from `j` end once trailing dots are given back; `last` is where they end
/// so far.
pub open spec fn local_end(chars: Seq<char>, j: int, last: int) -> int
    decreases chars.len() - j,
{
    let n = local_unit(chars, j);
    if n == 0 || j < 0 || n > chars.len() - j {
        last
    } else {
        local_end(chars, j + n, if n == 1 && chars[j] == '.' { last } else { j + n })
    }
}

/// [159] PN_LOCAL ::= (PN_CHARS_U | [0-9] | PLX) ((PN_CHARS | '.' | PLX)* (PN_CHARS | PLX))?:
/// where it ends (texts shorter than `usize::MAX - 4` only).
pub open spec fn pn_local_spec(chars: Seq<char>, i: int) -> Option<int> {
    let first = if pn_chars_u_spec(at(chars, i)) || ('0' <= at(chars, i) && at(chars, i) <= '9') {
        1
    } else {
        plx_spec(chars, i) as int
    };
    if chars.len() >= usize::MAX - 4 || first == 0 || first > chars.len() - i {
        None
    } else {
        Some(local_end(chars, i + first, i + first))
    }
}

fn pn_local(chars: &Vec<char>, i: usize) -> (r: Option<usize>)
    requires
        i <= chars@.len(),
    ensures
        r matches Some(j) ==> i < j <= chars@.len(),
        match pn_local_spec(chars@, i as int) {
            Some(e) => 0 <= e <= chars.len() && r == Some(e as usize),
            None => r is None,
        },
{
    if chars.len() >= usize::MAX - 4 {
        return None;
    }
    let first = if pn_chars_u(chars, i) > 0 || (i < chars.len() && chars[i] >= '0' && chars[i] <= '9') {
        1
    } else {
        plx(chars, i)
    };
    if first == 0 || first > chars.len() - i {
        return None;
    }
    let mut j = i + first;
    let mut last = j;
    loop
        invariant
            i < last <= j <= chars@.len(),
            chars@.len() < usize::MAX - 4,
            local_end(chars@, j as int, last as int) == local_end(chars@, i + first, i + first),
        ensures
            i < last <= chars@.len(),
            last == local_end(chars@, i + first, i + first),
        decreases chars.len() - j,
    {
        let n = pn_chars_or_dot_or_plx(chars, j);
        if n == 0 || n > chars.len() - j {
            break;
        }
        let dot = n == 1 && chars[j] == '.';
        j += n;
        if !dot {
            last = j;
        }
    }
    Some(last)
}

/// [130] PNAME_NS ::= PN_PREFIX? ':': where it ends.
pub open spec fn pname_ns_spec(chars: Seq<char>, i: int) -> Option<int> {
    let j = match pn_prefix_spec(chars, i) {
        Some(j) => j,
        None => i,
    };
    if at(chars, j) == ':' { Some(j + 1) } else { None }
}

fn pname_ns(chars: &Vec<char>, i: usize) -> (r: Option<usize>)
    requires
        i <= chars@.len(),
    ensures
        r matches Some(j) ==> i < j <= chars@.len(),
        match pname_ns_spec(chars@, i as int) {
            Some(e) => 0 <= e <= chars.len() && r == Some(e as usize),
            None => r is None,
        },
{
    let j = match pn_prefix(chars, i) {
        Some(j) => j,
        None => i,
    };
    if j < chars.len() && chars[j] == ':' { Some(j + 1) } else { None }
}

/// [127] PrefixedName ::= PNAME_LN | PNAME_NS, then white space: its text and where the
/// white space ends.
pub open spec fn prefixed_name_spec(chars: Seq<char>, i: int) -> Option<(Seq<char>, int)> {
    match pname_ns_spec(chars, i) {
        Some(j) => {
            let end = match pn_local_spec(chars, j) {
                Some(k) => k,
                None => j,
            };
            Some((chars.subrange(i, end), ws_spec(chars, end)))
        },
        None => None,
    }
}

fn prefixed_name(chars: &Vec<char>, i: usize) -> (r: Option<(String, usize)>)
    requires
        i <= chars@.len(),
    ensures
        r matches Some(x) ==> i < x.1 <= chars@.len(),
        match prefixed_name_spec(chars@, i as int) {
            Some(t) => r matches Some(x) && x.0@ == t.0 && x.1 == t.1,
            None => r is None,
        },
{
    match pname_ns(chars, i) {
        Some(j) => {
            let end = match pn_local(chars, j) {
                Some(k) => k,
                None => j,
            };
            Some((string_of_range(chars, i, end), ws(chars, end)))
        },
        None => None,
    }
}

/// The number of consecutive IRI characters from `j`.
pub open spec fn iri_run(chars: Seq<char>, j: int) -> int
    decreases chars.len() - j,
{
    if 0 <= j < chars.len() && iri_char_spec(chars[j]) { 1 + iri_run(chars, j + 1) } else { 0 }
}

/// [129] IRI_REF ::= '<' ([^<>"{}|^`\]-[#x00-#x20])* '>', then white space: the IRI and
/// where the white space ends.
pub open spec fn iri_ref_spec(chars: Seq<char>, i: int) -> Option<(Seq<char>, int)> {
    if at(chars, i) == '<' {
        let k = i + 1 + iri_run(chars, i + 1);
        if at(chars, k) == '>' { Some((chars.subrange(i + 1, k), ws_spec(chars, k + 1))) } else { None }
    } else {
        None
    }
}

fn iri_ref(chars: &Vec<char>, i: usize) -> (r: Option<(String, usize)>)
    requires
        i <= chars@.len(),
    ensures
        r matches Some(x) ==> i < x.1 <= chars@.len(),
        match iri_ref_spec(chars@, i as int) {
            Some(t) => r matches Some(x) && x.0@ == t.0 && x.1 == t.1,
            None => r is None,
        },
{
    if i >= chars.len() || chars[i] != '<' {
        return None;
    }
    let mut j = i + 1;
    while j < chars.len() && iri_char(chars[j])
        invariant
            i < j <= chars@.len(),
            iri_run(chars@, i + 1) == (j - (i + 1)) + iri_run(chars@, j as int),
        decreases chars.len() - j,
    {
        j += 1;
    }
    if j < chars.len() && chars[j] == '>' {
        Some((string_of_range(chars, i + 1, j), ws(chars, j + 1)))
    } else {
        None
    }
}

/// [126] IRIref ::= IRI_REF | PrefixedName: the text, where it ends, and whether it is a
/// prefixed name.
pub open spec fn iri_ref_or_name_spec(chars: Seq<char>, i: int) -> Option<(Seq<char>, int, bool)> {
    match iri_ref_spec(chars, i) {
        Some((t, j)) => Some((t, j, false)),
        None => match prefixed_name_spec(chars, i) {
            Some((t, j)) => Some((t, j, true)),
            None => None,
        },
    }
}

fn iri_ref_or_name(chars: &Vec<char>, i: usize) -> (r: Result<(String, usize, bool), Fail>)
    requires
        i <= chars@.len(),
    ensures
        r matches Ok(x) ==> i < x.1 <= chars@.len(),
        match iri_ref_or_name_spec(chars@, i as int) {
            Some(t) => r matches Ok(x) && x.0@ == t.0 && x.1 == t.1 && x.2 == t.2,
            None => r is Err,
        },
{
    match iri_ref(chars, i) {
        Some((t, j)) => Ok((t, j, false)),
        None => match prefixed_name(chars, i) {
            Some((t, j)) => Ok((t, j, true)),
            None => Err(fail_at(i, "IRI")),
        },
    }
}

/// One unit of a string quoted with `x`: thrice for a long string.
pub open spec fn string_unit(x: char, long: bool, chars: Seq<char>, j: int) -> int {
    if long { long_char_spec(x, chars, j) as int } else { short_char_spec(x, chars, j) as int }
}

/// Where the units of a string quoted with `x` that start at `j` end.
pub open spec fn string_units_end(x: char, long: bool, chars: Seq<char>, j: int) -> int
    decreases chars.len() - j,
{
    let n = string_unit(x, long, chars, j);
    if n == 0 || j < 0 || n > chars.len() - j { j } else { string_units_end(x, long, chars, j + n) }
}

/// Whether `q` characters `x` stand at `i`.
pub open spec fn quotes_at(chars: Seq<char>, i: int, q: int, x: char) -> bool {
    0 <= i && i + q <= chars.len() && forall|k: int| 0 <= k < q ==> #[trigger] chars[i + k] == x
}

/// A string literal quoted with `x`, once or thrice: its text (escapes kept as written) and
/// where the white space after it ends (texts shorter than `usize::MAX - 8` only).
pub open spec fn quoted_spec(chars: Seq<char>, i: int, x: char, long: bool) -> Option<(Seq<char>, int)> {
    let q: int = if long { 3 } else { 1 };
    let start = i + q;
    let j = string_units_end(x, long, chars, start);
    if chars.len() < usize::MAX - 8 && quotes_at(chars, i, q, x) && quotes_at(chars, j, q, x) {
        Some((chars.subrange(start, j), ws_spec(chars, j + q)))
    } else {
        None
    }
}

fn quoted(chars: &Vec<char>, i: usize, x: char, long: bool) -> (r: Option<(String, usize)>)
    requires
        i <= chars@.len(),
    ensures
        r matches Some(v) ==> i < v.1 <= chars@.len(),
        match quoted_spec(chars@, i as int, x, long) {
            Some(t) => r matches Some(v) && v.0@ == t.0 && v.1 == t.1,
            None => r is None,
        },
{
    if chars.len() >= usize::MAX - 8 {
        return None;
    }
    let q: usize = if long { 3 } else { 1 };
    if q > chars.len() - i {
        return None;
    }
    let n = chars.len();
    let mut k: usize = 0;
    while k < q
        invariant
            k <= q,
            n == chars@.len(),
            i + q <= chars@.len(),
            q == (if long { 3usize } else { 1usize }),
            chars@.len() < usize::MAX - 8,
            forall|m: int| 0 <= m < k ==> #[trigger] chars@[i + m] == x,
        decreases q - k,
    {
        if chars[i + k] != x {
            assert(chars@[i + k] != x);
            return None;
        }
        k += 1;
    }
    let start = i + q;
    let mut j = start;
    loop
        invariant
            start <= j <= chars@.len(),
            chars@.len() < usize::MAX - 8,
            start == i + q,
            q <= 3,
            string_units_end(x, long, chars@, j as int) == string_units_end(x, long, chars@, start as int),
        ensures
            start <= j <= chars@.len(),
            j == string_units_end(x, long, chars@, start as int),
        decreases chars.len() - j,
    {
        let n = if long { long_char(x, chars, j) } else { short_char(x, chars, j) };
        if n == 0 || n > chars.len() - j {
            break;
        }
        j += n;
    }
    if q > chars.len() - j {
        return None;
    }
    let mut m: usize = 0;
    while m < q
        invariant
            m <= q,
            n == chars@.len(),
            j + q <= chars@.len(),
            q == (if long { 3usize } else { 1usize }),
            chars@.len() < usize::MAX - 8,
            start == i + q,
            j == string_units_end(x, long, chars@, start as int),
            forall|p: int| 0 <= p < m ==> #[trigger] chars@[j + p] == x,
        decreases q - m,
    {
        if chars[j + m] != x {
            assert(chars@[j + m] != x);
            return None;
        }
        m += 1;
    }
    Some((string_of_range(chars, start, j), ws(chars, j + q)))
}

/// [125] String ::= STRING_LITERAL_LONG1 | STRING_LITERAL_LONG2 | STRING_LITERAL1 | STRING_LITERAL2
pub open spec fn string_token_spec(chars: Seq<char>, i: int) -> Option<(Seq<char>, int)> {
    match quoted_spec(chars, i, '\'', true) {
        Some(v) => Some(v),
        None => match quoted_spec(chars, i, '"', true) {
            Some(v) => Some(v),
            None => match quoted_spec(chars, i, '\'', false) {
                Some(v) => Some(v),
                None => quoted_spec(chars, i, '"', false),
            },
        },
    }
}

fn string_token(chars: &Vec<char>, i: usize) -> (r: Option<(String, usize)>)
    requires
        i <= chars@.len(),
    ensures
        r matches Some(v) ==> i < v.1 <= chars@.len(),
        match string_token_spec(chars@, i as int) {
            Some(t) => r matches Some(v) && v.0@ == t.0 && v.1 == t.1,
            None => r is None,
        },
{
    match quoted(chars, i, '\'', true) {
        Some(v) => Some(v),
        None => match quoted(chars, i, '"', true) {
            Some(v) => Some(v),
            None => match quoted(chars, i, '\'', false) {
                Some(v) => Some(v),
                None => quoted(chars, i, '"', false),
            },
        },
    }
}

pub open spec fn is_alnum_spec(c: char) -> bool {
    is_alpha_spec(c) || ('0' <= c && c <= '9')
}

/// The number of consecutive ASCII letters from `j`.
pub open spec fn alpha_run(chars: Seq<char>, j: int) -> nat
    decreases chars.len() - j,
{
    if 0 <= j < chars.len() && is_alpha_spec(chars[j]) { 1 + alpha_run(chars, j + 1) } else { 0 }
}

/// The number of consecutive ASCII letters and digits from `j`.
pub open spec fn alnum_run(chars: Seq<char>, j: int) -> nat
    decreases chars.len() - j,
{
    if 0 <= j < chars.len() && is_alnum_spec(chars[j]) { 1 + alnum_run(chars, j + 1) } else { 0 }
}

/// Where the '-' [a-zA-Z0-9]+ parts of a language tag that start at `j` end.
pub open spec fn subtags_end(chars: Seq<char>, j: int) -> int
    decreases chars.len() - j,
{
    if 0 <= j && j + 1 < chars.len() && chars[j] == '-' && is_alnum_spec(chars[j + 1]) {
        let k = j + 1 + alnum_run(chars, j + 1);
        if k <= chars.len() { subtags_end(chars, k) } else { j }
    } else {
        j
    }
}

/// [135] LANGTAG ::= '@' [a-zA-Z]+ ('-' [a-zA-Z0-9]+)*, then white space: the tag and where
/// the white space ends.
pub open spec fn langtag_spec(chars: Seq<char>, i: int) -> Option<(Seq<char>, int)> {
    let a = alpha_run(chars, i + 1);
    if at(chars, i) == '@' && a > 0 {
        let e = subtags_end(chars, i + 1 + a);
        Some((chars.subrange(i + 1, e), ws_spec(chars, e)))
    } else {
        None
    }
}

proof fn lemma_alpha_run(chars: Seq<char>, j: int, k: int)
    requires
        0 <= j <= k <= chars.len(),
        forall|q: int| j <= q < k ==> is_alpha_spec(#[trigger] chars[q]),
    ensures
        alpha_run(chars, j) == (k - j) + alpha_run(chars, k),
    decreases k - j,
{
    if j < k {
        lemma_alpha_run(chars, j + 1, k);
    }
}

proof fn lemma_alnum_run(chars: Seq<char>, j: int, k: int)
    requires
        0 <= j <= k <= chars.len(),
        forall|q: int| j <= q < k ==> is_alnum_spec(#[trigger] chars[q]),
    ensures
        alnum_run(chars, j) == (k - j) + alnum_run(chars, k),
    decreases k - j,
{
    if j < k {
        lemma_alnum_run(chars, j + 1, k);
    }
}

pub fn langtag(chars: &Vec<char>, i: usize) -> (r: Option<(String, usize)>)
    requires
        i <= chars@.len(),
    ensures
        r matches Some(v) ==> i < v.1 <= chars@.len() && at(chars@, i as int) == '@',
        match langtag_spec(chars@, i as int) {
            Some(t) => r matches Some(v) && v.0@ == t.0 && v.1 == t.1,
            None => r is None,
        },
{
    if i >= chars.len() || chars[i] != '@' {
        return None;
    }
    let mut j = i + 1;
    while j < chars.len() && is_langtag_prefix(chars[j])
        invariant
            i < j <= chars@.len(),
            forall|q: int| i + 1 <= q < j ==> is_alpha_spec(#[trigger] chars@[q]),
        decreases chars.len() - j,
    {
        j += 1;
    }
    proof {
        lemma_alpha_run(chars@, i + 1, j as int);
    }
    if j == i + 1 {
        return None;
    }
    let ghost a_end = j;
    let n = chars.len();
    loop
        invariant
            i + 1 < j <= chars@.len(),
            n == chars@.len(),
            subtags_end(chars@, j as int) == subtags_end(chars@, a_end as int),
        ensures
            i + 1 < j <= chars@.len(),
            j == subtags_end(chars@, a_end as int),
        decreases chars.len() - j,
    {
        if j < n - 1 && chars[j] == '-' && is_langtag_suffix(chars[j + 1]) {
            let ghost j0 = j;
            j += 2;
            while j < chars.len() && is_langtag_suffix(chars[j])
                invariant
                    j0 + 2 <= j <= chars@.len(),
                    forall|q: int| j0 + 1 <= q < j ==> is_alnum_spec(#[trigger] chars@[q]),
                decreases chars.len() - j,
            {
                j += 1;
            }
            proof {
                lemma_alnum_run(chars@, j0 + 1, j as int);
            }
        } else {
            break;
        }
    }
    Some((string_of_range(chars, i + 1, j), ws(chars, j)))
}

/// [145] EXPONENT ::= [eE] [+-]? [0-9]+: where it ends.
pub open spec fn exponent_spec(chars: Seq<char>, i: int) -> Option<int> {
    if at(chars, i) == 'e' || at(chars, i) == 'E' {
        let j = i + 1 + (if at(chars, i + 1) == '+' || at(chars, i + 1) == '-' { 1int } else { 0int });
        let d = digit_run(chars, j);
        if d > 0 { Some(j + d) } else { None }
    } else {
        None
    }
}

fn exponent(chars: &Vec<char>, i: usize) -> (r: Option<usize>)
    requires
        i <= chars@.len(),
    ensures
        r matches Some(j) ==> i < j <= chars@.len(),
        match exponent_spec(chars@, i as int) {
            Some(e) => 0 <= e <= chars.len() && r == Some(e as usize),
            None => r is None,
        },
{
    if i >= chars.len() || (chars[i] != 'e' && chars[i] != 'E') {
        return None;
    }
    let mut j = i + 1;
    if j < chars.len() && (chars[j] == '+' || chars[j] == '-') {
        j += 1;
    }
    let k = scan_digits(chars, j);
    if k == j { None } else { Some(k) }
}

/// An unsigned number (DOUBLE | DECIMAL | INTEGER), the first form that matches: where it
/// ends, and whether it has a fraction or exponent.
pub open spec fn unsigned_number_spec(chars: Seq<char>, i: int) -> Option<(int, bool)> {
    let d = i + digit_run(chars, i);
    let double1 = if d > i && at(chars, d) == '.' { exponent_spec(chars, d + 1 + digit_run(chars, d + 1)) } else { None };
    let f = i + 1 + digit_run(chars, i + 1);
    let double2 = if d == i && at(chars, i) == '.' && f > i + 1 { exponent_spec(chars, f) } else { None };
    let double3 = if d > i { exponent_spec(chars, d) } else { None };
    let g = d + 1 + digit_run(chars, d + 1);
    if double1 is Some {
        Some((double1->0, true))
    } else if double2 is Some {
        Some((double2->0, true))
    } else if double3 is Some {
        Some((double3->0, true))
    } else if at(chars, d) == '.' && g > d + 1 {
        Some((g, true))
    } else if d > i {
        Some((d, false))
    } else {
        None
    }
}

fn unsigned_number(chars: &Vec<char>, i: usize) -> (r: Option<(usize, bool)>)
    requires
        i <= chars@.len(),
    ensures
        r matches Some(v) ==> i < v.0 <= chars@.len(),
        match unsigned_number_spec(chars@, i as int) {
            Some(t) => r matches Some(v) && v.0 == t.0 && v.1 == t.1,
            None => r is None,
        },
{
    let d = scan_digits(chars, i);
    // DOUBLE
    if d > i && d < chars.len() && chars[d] == '.' {
        let f = scan_digits(chars, d + 1);
        if let Some(e) = exponent(chars, f) {
            return Some((e, true));
        }
    }
    if d == i && i < chars.len() && chars[i] == '.' {
        let f = scan_digits(chars, i + 1);
        if f > i + 1 {
            if let Some(e) = exponent(chars, f) {
                return Some((e, true));
            }
        }
    }
    if d > i {
        if let Some(e) = exponent(chars, d) {
            return Some((e, true));
        }
    }
    // DECIMAL
    if d < chars.len() && chars[d] == '.' {
        let f = scan_digits(chars, d + 1);
        if f > d + 1 {
            return Some((f, true));
        }
    }
    // INTEGER
    if d > i { Some((d, false)) } else { None }
}

/// [120] NumericLiteral: an optional sign and an unsigned number, then white space: the
/// value (an xsd:double literal with a fraction or exponent, else an xsd:integer one; a '+'
/// is dropped from the text and a '-' kept) and where the white space ends.
pub open spec fn numeric_literal_spec(chars: Seq<char>, i: int) -> Option<(Term, int)> {
    let sign = at(chars, i);
    let start = if sign == '+' || sign == '-' { i + 1 } else { i };
    let text_start = if sign == '+' { i + 1 } else { i };
    match unsigned_number_spec(chars, start) {
        Some((end, is_float)) => {
            let text = chars.subrange(text_start, end);
            let kind = if is_float { "http://www.w3.org/2001/XMLSchema#double"@ } else { "http://www.w3.org/2001/XMLSchema#integer"@ };
            Some((literal_spec(text, kind, ""@), ws_spec(chars, end)))
        },
        None => None,
    }
}

fn numeric_literal(chars: &Vec<char>, i: usize) -> (r: Option<(Object, usize)>)
    requires
        i <= chars@.len(),
    ensures
        r matches Some(v) ==> i < v.1 <= chars@.len(),
        match numeric_literal_spec(chars@, i as int) {
            Some(t) => r matches Some(v) && v.0@ == t.0 && v.1 == t.1,
            None => r is None,
        },
{
    let (start, text_start) = if i < chars.len() && chars[i] == '+' {
        (i + 1, i + 1)
    } else if i < chars.len() && chars[i] == '-' {
        (i + 1, i)
    } else {
        (i, i)
    };
    match unsigned_number(chars, start) {
        Some((end, is_float)) => {
            let text = string_of_range(chars, text_start, end);
            let value = if is_float { float_literal(text.as_str()) } else { int_literal(text.as_str()) };
            Some((value, ws(chars, end)))
        },
        None => None,
    }
}

/// [124] BooleanLiteral ::= 'true' | 'false', then white space: the value and where the
/// white space ends.
pub open spec fn boolean_literal_spec(chars: Seq<char>, i: int) -> Option<(Term, int)> {
    if lit_at(chars, i, "true"@, false) {
        Some((Term::Bool(true), ws_spec(chars, i + "true"@.len())))
    } else if lit_at(chars, i, "false"@, false) {
        Some((Term::Bool(false), ws_spec(chars, i + "false"@.len())))
    } else {
        None
    }
}

fn boolean_literal(chars: &Vec<char>, i: usize) -> (r: Option<(Object, usize)>)
    requires
        i <= chars@.len(),
    ensures
        r matches Some(v) ==> i < v.1 <= chars@.len(),
        match boolean_literal_spec(chars@, i as int) {
            Some(t) => r matches Some(v) && v.0@ == t.0 && v.1 == t.1,
            None => r is None,
        },
{
    match match_lit(chars, i, "true", false) {
        Some(j) => Some((Object::BoolValue(true), ws(chars, j))),
        None => match match_lit(chars, i, "false", false) {
            Some(j) => Some((Object::BoolValue(false), ws(chars, j))),
            None => None,
        },
    }
}

/// [119] RDFLiteral ::= String (LANGTAG | ('^^' IRIref))?: the value (a typed literal's
/// prefixed datatype expanded with the query's namespaces) and where it ends.
pub open spec fn rdf_literal_spec(chars: Seq<char>, i: int, ns: Seq<(Seq<char>, Seq<char>)>) -> Option<(Term, int)> {
    match string_token_spec(chars, i) {
        Some((value, j)) => {
            let typed = if lit_at(chars, j, "^^"@, false) { iri_ref_or_name_spec(chars, j + "^^"@.len()) } else { None };
            match typed {
                Some((kind, m, prefixed)) => {
                    let k = if prefixed { expand_spec(ns, kind) } else { kind };
                    Some((literal_spec(value, k, ""@), m))
                },
                None => match langtag_spec(chars, j) {
                    Some((lang, k)) => Some((literal_spec(value, "http://www.w3.org/2001/XMLSchema#string"@, lang), k)),
                    None => Some((literal_spec(value, "http://www.w3.org/2001/XMLSchema#string"@, ""@), j)),
                },
            }
        },
        None => None,
    }
}

fn rdf_literal(chars: &Vec<char>, i: usize, ns: &Vec<Namespace>) -> (r: Option<(Object, usize)>)
    requires
        i <= chars@.len(),
    ensures
        r matches Some(v) ==> i < v.1 <= chars@.len(),
        match rdf_literal_spec(chars@, i as int, ns_view(ns@)) {
            Some(t) => r matches Some(v) && v.0@ == t.0 && v.1 == t.1,
            None => r is None,
        },
{
    match string_token(chars, i) {
        Some((value, j)) => {
            if let Some(k) = match_lit(chars, j, "^^", false) {
                if let Ok((kind, m, prefixed)) = iri_ref_or_name(chars, k) {
                    let kind = if prefixed { expand_uri(ns, kind.as_str()) } else { kind };
                    return Some((literal_to_object(value.as_str(), kind.as_str(), ""), m));
                }
            }
            match langtag(chars, j) {
                Some((lang, k)) => Some((literal_to_object(value.as_str(), "http://www.w3.org/2001/XMLSchema#string", lang.as_str()), k)),
                None => Some((literal_to_object(value.as_str(), "http://www.w3.org/2001/XMLSchema#string", ""), j)),
            }
        },
        None => None,
    }
}

pub open spec fn varname_spec(c: char) -> bool {
    pn_chars_u_spec(c) || ('0' <= c && c <= '9') || c == '\u{B7}' || in_range(c, 0x300, 0x36F) || in_range(c, 0x203F, 0x2040)
}

/// The characters that may begin a VARNAME.
pub open spec fn varname_first_spec(c: char) -> bool {
    pn_chars_u_spec(c) || ('0' <= c && c <= '9')
}

fn varname_char(c: char) -> (r: bool)
    ensures
        r == varname_spec(c),
{
    pn_chars_base_char(c) || c == '_' || (c >= '0' && c <= '9') || c == '\u{B7}'
        || in_range_exec(c, 0x300, 0x36F) || in_range_exec(c, 0x203F, 0x2040)
}

/// The number of consecutive VARNAME characters from `j`.
pub open spec fn varname_run(chars: Seq<char>, j: int) -> int
    decreases chars.len() - j,
{
    if 0 <= j < chars.len() && varname_spec(chars[j]) { 1 + varname_run(chars, j + 1) } else { 0 }
}

/// [133] VAR1 ::= '?' VARNAME, with white space after each: the name, the longest run of
/// VARNAME characters after the '?' and its white space, and where the white space after
/// it ends.
pub open spec fn var_token(chars: Seq<char>, i: int) -> Option<(Seq<char>, int)> {
    if 0 <= i < chars.len() && chars[i] == '?' {
        let j = ws_spec(chars, i + 1);
        let k = j + varname_run(chars, j);
        if varname_first_spec(at(chars, j)) { Some((chars.subrange(j, k), ws_spec(chars, k))) } else { None }
    } else {
        None
    }
}

proof fn lemma_varname_run(chars: Seq<char>, j: int, k: int)
    requires
        0 <= j <= k <= chars.len(),
        forall|q: int| j <= q < k ==> varname_spec(#[trigger] chars[q]),
    ensures
        varname_run(chars, j) == (k - j) + varname_run(chars, k),
    decreases k - j,
{
    if j < k {
        lemma_varname_run(chars, j + 1, k);
    }
}

fn var(chars: &Vec<char>, i: usize) -> (r: Result<(String, usize), Fail>)
    requires
        i <= chars@.len(),
    ensures
        r matches Ok(v) ==> i < v.1 <= chars@.len(),
        match var_token(chars@, i as int) {
            Some(t) => r matches Ok(v) && v.0@ == t.0 && v.1 == t.1,
            None => r is Err,
        },
{
    proof {
        reveal_strlit("?");
    }
    let j = match tok(chars, i, "?") {
        Ok(j) => j,
        Err(f) => {
            proof {
                if i < chars@.len() && chars@[i as int] == '?' {
                    assert(same_char(chars@[i + 0], "?"@[0], false));
                }
            }
            return Err(fail_at(i, "variable"));
        },
    };
    assert(same_char(chars@[i + 0], "?"@[0], false));
    if j >= chars.len() || !(pn_chars_u(chars, j) > 0 || (chars[j] >= '0' && chars[j] <= '9')) {
        return Err(fail_at(j, "variable name"));
    }
    let mut k = j + 1;
    while k < chars.len() && varname_char(chars[k])
        invariant
            j < k <= chars@.len(),
            forall|q: int| j <= q < k ==> varname_spec(#[trigger] chars@[q]),
        decreases chars.len() - k,
    {
        k += 1;
    }
    proof {
        lemma_varname_run(chars@, j as int, k as int);
    }
    let name = string_of_range(chars, j, k);
    Ok((name, ws(chars, k)))
}

// ---- Expressions ----------------------------------------------------------------------------

/// A token at `i`: the literal, then white space; where the white space ends.
pub open spec fn tok_spec(chars: Seq<char>, i: int, t: Seq<char>) -> Option<int> {
    if lit_at(chars, i, t, false) { Some(ws_spec(chars, i + t.len())) } else { None }
}

/// A keyword at `i` (any case), then white space; where the white space ends.
pub open spec fn keyword_spec(chars: Seq<char>, i: int, t: Seq<char>) -> Option<int> {
    if lit_at(chars, i, t, true) { Some(ws_spec(chars, i + t.len())) } else { None }
}

/// Whether `j` lies after `i` and within the text.
pub open spec fn advances(chars: Seq<char>, i: int, j: int) -> bool {
    i < j <= chars.len()
}

/// The built-in calls: keyword, function name, and argument shape (1, 2 or 3 expressions;
/// 0: none; 4: a list of expressions; 5: a variable).
pub open spec fn builtin_spec(k: int) -> (&'static str, &'static str, u8) {
    if k == 0 { ("str", "str_fn", 1) }
    else if k == 1 { ("lang", "lang_fn", 1) }
    else if k == 2 { ("langmatches", "langmatches_fn", 2) }
    else if k == 3 { ("datatype", "datatype_fn", 1) }
    else if k == 4 { ("BOUND", "bound_fn", 5) }
    else if k == 5 { ("RAND", "rand_fn", 0) }
    else if k == 6 { ("abs", "abs_fn", 1) }
    else if k == 7 { ("ceil", "ceil_fn", 1) }
    else if k == 8 { ("floor", "floor_fn", 1) }
    else if k == 9 { ("round", "round_fn", 1) }
    else if k == 10 { ("CONCAT", "concat_fn", 4) }
    else if k == 11 { ("substr", "substr2_fn", 2) }
    else if k == 12 { ("substr", "substr3_fn", 3) }
    else if k == 13 { ("strlen", "strlen_fn", 1) }
    else if k == 14 { ("ucase", "ucase_fn", 1) }
    else if k == 15 { ("lcase", "lcase_fn", 1) }
    else if k == 16 { ("encode_for_uri", "encode_for_uri_fn", 1) }
    else if k == 17 { ("contains", "contains_fn", 2) }
    else if k == 18 { ("strstarts", "strstarts_fn", 2) }
    else if k == 19 { ("strends", "strends_fn", 2) }
    else if k == 20 { ("strbefore", "strbefore_fn", 2) }
    else if k == 21 { ("strafter", "strafter_fn", 2) }
    else if k == 22 { ("year", "year_fn", 1) }
    else if k == 23 { ("month", "month_fn", 1) }
    else if k == 24 { ("day", "day_fn", 1) }
    else if k == 25 { ("hours", "hours_fn", 1) }
    else if k == 26 { ("minutes", "minutes_fn", 1) }
    else if k == 27 { ("seconds", "seconds_fn", 1) }
    else if k == 28 { ("tz", "tz_fn", 1) }
    else if k == 29 { ("NOW", "now_fn", 0) }
    else if k == 30 { ("COALESCE", "coalesce_fn", 4) }
    else if k == 31 { ("IF", "if_fn", 3) }
    else if k == 32 { ("strlang", "strlang_fn", 2) }
    else if k == 33 { ("strdt", "strdt_fn", 2) }
    else if k == 34 { ("sameterm", "sameterm_fn", 2) }
    else if k == 35 { ("isiri", "isiri_fn", 1) }
    else if k == 36 { ("isURI", "is_iri_fn", 1) }
    else if k == 37 { ("isblank", "isblank_fn", 1) }
    else if k == 38 { ("isliteral", "isliteral_fn", 1) }
    else { ("isnumeric", "isnumeric_fn", 1) }
}

/// The operators of a level of binary expressions: (operator, function name).
pub open spec fn level_op_spec(level: u8, k: int) -> Option<(&'static str, &'static str)> {
    if level == 2 {
        if k == 0 { Some(("*", "op_multiply")) } else if k == 1 { Some(("/", "op_divide")) } else { None }
    } else if level == 3 {
        if k == 0 { Some(("+", "op_add")) } else if k == 1 { Some(("-", "op_subtract")) } else { None }
    } else if level == 5 {
        if k == 0 { Some(("&&", "op_and")) } else { None }
    } else {
        if k == 0 { Some(("||", "op_or")) } else { None }
    }
}

/// The relational operators, in the order they are tried: (operator, function name).
pub open spec fn rel_op_spec(k: int) -> (&'static str, &'static str) {
    if k == 0 { ("=", "op_equals") }
    else if k == 1 { ("!=", "op_not_equals") }
    else if k == 2 { ("<", "op_less_than") }
    else if k == 3 { (">", "op_greater_than") }
    else if k == 4 { ("<=", "op_less_than_or_equal") }
    else if k == 5 { (">=", "op_greater_than_or_equal") }
    else if k == 6 { ("IN", "in_op") }
    else { ("NOT", "not_in_op") }
}

/// The rank of a level of binary expressions among the rules tried at one position.
pub open spec fn bin_rank(level: u8) -> int {
    if level == 2 { 63 } else if level == 3 { 65 } else if level == 5 { 68 } else { 70 }
}

/// ')' after the arguments collected so far.
pub open spec fn close_args_spec(chars: Seq<char>, j: int, args: Seq<ExprV>) -> Option<(Seq<ExprV>, int)> {
    match tok_spec(chars, j, ")"@) {
        Some(k) => Some((args, k)),
        None => None,
    }
}

/// The arguments of a call after the first one, then ')': while the shape asks for more
/// (a list, shape 4, takes as many as follow), ',' and an expression.
pub open spec fn args_rest_spec(chars: Seq<char>, j: int, ns: Seq<(Seq<char>, Seq<char>)>, shape: u8, args: Seq<ExprV>) -> Option<(Seq<ExprV>, int)>
    decreases chars.len() - j, 0int,
{
    if shape != 4 && args.len() >= shape {
        close_args_spec(chars, j, args)
    } else {
        let next = match tok_spec(chars, j, ","@) {
            Some(k) => if advances(chars, j, k) { expression_spec(chars, k, ns) } else { None },
            None => None,
        };
        match next {
            Some((e, m)) => if advances(chars, j, m) { args_rest_spec(chars, m, ns, shape, args.push(e)) } else { None },
            None => if shape == 4 { close_args_spec(chars, j, args) } else { None },
        }
    }
}

/// '(' and the arguments of a call of the given shape, then ')': the arguments and where the
/// white space after ')' ends.
pub open spec fn call_args_spec(chars: Seq<char>, i: int, ns: Seq<(Seq<char>, Seq<char>)>, shape: u8) -> Option<(Seq<ExprV>, int)>
    decreases chars.len() - i, 1int,
{
    match tok_spec(chars, i, "("@) {
        Some(j) => if !advances(chars, i, j) {
            None
        } else if shape == 0 {
            close_args_spec(chars, j, Seq::empty())
        } else if shape == 5 {
            match var_token(chars, j) {
                Some((name, k)) => close_args_spec(chars, k, seq![ExprV::Variable(name)]),
                None => None,
            }
        } else {
            match expression_spec(chars, j, ns) {
                Some((first, k)) => if advances(chars, j, k) { args_rest_spec(chars, k, ns, shape, seq![first]) } else { None },
                None => None,
            }
        },
        None => None,
    }
}

/// [111] BuiltInCall: the first built-in from the `k`th on whose keyword and arguments match.
pub open spec fn builtin_from_spec(chars: Seq<char>, i: int, ns: Seq<(Seq<char>, Seq<char>)>, k: int) -> Option<(ExprV, int)>
    decreases chars.len() - i, 50 - k,
{
    if 0 <= k < 40 {
        let (kw, fname, shape) = builtin_spec(k);
        let call = match keyword_spec(chars, i, kw@) {
            Some(j) => if advances(chars, i, j) { call_args_spec(chars, j, ns, shape) } else { None },
            None => None,
        };
        match call {
            Some((args, m)) => Some((ExprV::Call(fname@, args), m)),
            None => builtin_from_spec(chars, i, ns, k + 1),
        }
    } else {
        None
    }
}

/// [110] BrackettedExpression ::= '(' Expression ')'
pub open spec fn bracketted_spec(chars: Seq<char>, i: int, ns: Seq<(Seq<char>, Seq<char>)>) -> Option<(ExprV, int)>
    decreases chars.len() - i, 5int,
{
    match tok_spec(chars, i, "("@) {
        Some(j) => if !advances(chars, i, j) {
            None
        } else {
            match expression_spec(chars, j, ns) {
                Some((e, k)) => match tok_spec(chars, k, ")"@) {
                    Some(m) => Some((e, m)),
                    None => None,
                },
                None => None,
            }
        },
        None => None,
    }
}

/// [109] PrimaryExpression: the first of BrackettedExpression, IRIrefOrFunction (an
/// extension call where arguments follow, else the IRI), BuiltInCall, RDFLiteral,
/// NumericLiteral, Var and BooleanLiteral that matches.
pub open spec fn primary_spec(chars: Seq<char>, i: int, ns: Seq<(Seq<char>, Seq<char>)>) -> Option<(ExprV, int)>
    decreases chars.len() - i, 60int,
{
    match bracketted_spec(chars, i, ns) {
        Some(v) => Some(v),
        None => match iri_ref_or_name_spec(chars, i) {
            Some((iri, j, _)) => if !advances(chars, i, j) {
                None
            } else {
                match call_args_spec(chars, j, ns, 4) {
                    Some((args, k)) => Some((ExprV::Extension(iri, args), k)),
                    None => Some((ExprV::Constant(Term::Iri(iri)), j)),
                }
            },
            None => match builtin_from_spec(chars, i, ns, 0) {
                Some(v) => Some(v),
                None => match rdf_literal_spec(chars, i, ns) {
                    Some((t, j)) => Some((ExprV::Constant(t), j)),
                    None => match numeric_literal_spec(chars, i) {
                        Some((t, j)) => Some((ExprV::Constant(t), j)),
                        None => match var_token(chars, i) {
                            Some((name, j)) => Some((ExprV::Variable(name), j)),
                            None => match boolean_literal_spec(chars, i) {
                                Some((t, j)) => Some((ExprV::Constant(t), j)),
                                None => None,
                            },
                        },
                    },
                },
            },
        },
    }
}

/// A unary operator `op` at `i` applied to the PrimaryExpression after it.
pub open spec fn prefixed_spec(chars: Seq<char>, i: int, ns: Seq<(Seq<char>, Seq<char>)>, op: Seq<char>) -> Option<(ExprV, int)>
    decreases chars.len() - i, 0int,
{
    match tok_spec(chars, i, op) {
        Some(j) => if advances(chars, i, j) { primary_spec(chars, j, ns) } else { None },
        None => None,
    }
}

/// [108] UnaryExpression ::= '!' PrimaryExpression | '+' PrimaryExpression |
/// '-' PrimaryExpression | PrimaryExpression, the first that matches.
pub open spec fn unary_expr_spec(chars: Seq<char>, i: int, ns: Seq<(Seq<char>, Seq<char>)>) -> Option<(ExprV, int)>
    decreases chars.len() - i, 61int,
{
    match prefixed_spec(chars, i, ns, "!"@) {
        Some((e, k)) => Some((ExprV::Call("op_not"@, seq![e]), k)),
        None => match prefixed_spec(chars, i, ns, "+"@) {
            Some(v) => Some(v),
            None => match prefixed_spec(chars, i, ns, "-"@) {
                Some((e, k)) => Some((ExprV::Call("op_unary_minus"@, seq![e]), k)),
                None => primary_spec(chars, i, ns),
            },
        },
    }
}

/// The operand of a level of binary expressions.
pub open spec fn term_spec(chars: Seq<char>, i: int, ns: Seq<(Seq<char>, Seq<char>)>, level: u8) -> Option<(ExprV, int)>
    decreases chars.len() - i, bin_rank(level) - 1,
{
    if level == 2 {
        unary_expr_spec(chars, i, ns)
    } else if level == 3 {
        bin_spec(chars, i, ns, 2)
    } else if level == 5 {
        relational_expr_spec(chars, i, ns)
    } else {
        bin_spec(chars, i, ns, 5)
    }
}

/// The `k`th operator of a level at `j` and the operand after it: the function name, the
/// operand and where it ends.
pub open spec fn op_try_spec(chars: Seq<char>, j: int, ns: Seq<(Seq<char>, Seq<char>)>, level: u8, k: int) -> Option<(Seq<char>, ExprV, int)>
    decreases chars.len() - j, 0int,
{
    match level_op_spec(level, k) {
        Some((op, fname)) => match tok_spec(chars, j, op@) {
            Some(m) => if !advances(chars, j, m) {
                None
            } else {
                match term_spec(chars, m, ns, level) {
                    Some((rhs, n)) => Some((fname@, rhs, n)),
                    None => None,
                }
            },
            None => None,
        },
        None => None,
    }
}

/// The first operator of a level at `j` that is followed by an operand.
pub open spec fn op_step_spec(chars: Seq<char>, j: int, ns: Seq<(Seq<char>, Seq<char>)>, level: u8) -> Option<(Seq<char>, ExprV, int)>
    decreases chars.len() - j, 1int,
{
    match op_try_spec(chars, j, ns, level, 0) {
        Some(v) => Some(v),
        None => op_try_spec(chars, j, ns, level, 1),
    }
}

/// Operators and operands after `lhs`, combined from left to right.
pub open spec fn bin_rest_spec(chars: Seq<char>, j: int, ns: Seq<(Seq<char>, Seq<char>)>, level: u8, lhs: ExprV) -> (ExprV, int)
    decreases chars.len() - j, 2int,
{
    match op_step_spec(chars, j, ns, level) {
        Some((fname, rhs, n)) => if advances(chars, j, n) {
            bin_rest_spec(chars, n, ns, level, ExprV::Call(fname, seq![lhs, rhs]))
        } else {
            (lhs, j)
        },
        None => (lhs, j),
    }
}

/// A level of binary expressions at `i`: level 2 multiplies and divides UnaryExpressions, 3
/// adds and subtracts level-2 expressions, 5 joins RelationalExpressions with '&&', and 6
/// (any other level) joins level-5 expressions with '||'.
pub open spec fn bin_spec(chars: Seq<char>, i: int, ns: Seq<(Seq<char>, Seq<char>)>, level: u8) -> Option<(ExprV, int)>
    decreases chars.len() - i, bin_rank(level),
{
    match term_spec(chars, i, ns, level) {
        Some((lhs, j)) => if advances(chars, i, j) { Some(bin_rest_spec(chars, j, ns, level, lhs)) } else { None },
        None => None,
    }
}

/// The `k`th relational operator and on, at `j` after `lhs`: the first one followed by a
/// NumericExpression, else `lhs` alone.
pub open spec fn rel_rest_spec(chars: Seq<char>, j: int, ns: Seq<(Seq<char>, Seq<char>)>, lhs: ExprV, k: int) -> (ExprV, int)
    decreases chars.len() - j, 8 - k,
{
    if 0 <= k < 8 {
        let (op, fname) = rel_op_spec(k);
        let after = if k == 6 {
            keyword_spec(chars, j, op@)
        } else if k == 7 {
            match keyword_spec(chars, j, op@) {
                Some(m) => keyword_spec(chars, m, "IN"@),
                None => None,
            }
        } else {
            tok_spec(chars, j, op@)
        };
        let rhs = match after {
            Some(m) => if advances(chars, j, m) { bin_spec(chars, m, ns, 3) } else { None },
            None => None,
        };
        match rhs {
            Some((r, n)) => (ExprV::Call(fname@, seq![lhs, r]), n),
            None => rel_rest_spec(chars, j, ns, lhs, k + 1),
        }
    } else {
        (lhs, j)
    }
}

/// [104] RelationalExpression ::= NumericExpression (('=' | '!=' | '<' | '>' | '<=' | '>=' |
/// 'IN' | 'NOT' 'IN') NumericExpression)?
pub open spec fn relational_expr_spec(chars: Seq<char>, i: int, ns: Seq<(Seq<char>, Seq<char>)>) -> Option<(ExprV, int)>
    decreases chars.len() - i, 66int,
{
    match bin_spec(chars, i, ns, 3) {
        Some((lhs, j)) => if advances(chars, i, j) { Some(rel_rest_spec(chars, j, ns, lhs, 0)) } else { None },
        None => None,
    }
}

/// [100] Expression ::= ConditionalOrExpression: the expression at `i` and where it ends.
pub open spec fn expression_spec(chars: Seq<char>, i: int, ns: Seq<(Seq<char>, Seq<char>)>) -> Option<(ExprV, int)>
    decreases chars.len() - i, 71int,
{
    bin_spec(chars, i, ns, 6)
}

/// The `k`th built-in call: keyword, function name and argument shape.
fn builtin_entry(k: usize) -> (r: (&'static str, &'static str, u8))
    requires
        k < 40,
    ensures
        r == builtin_spec(k as int),
{
    match k {
        0 => ("str", "str_fn", 1),
        1 => ("lang", "lang_fn", 1),
        2 => ("langmatches", "langmatches_fn", 2),
        3 => ("datatype", "datatype_fn", 1),
        4 => ("BOUND", "bound_fn", 5),
        5 => ("RAND", "rand_fn", 0),
        6 => ("abs", "abs_fn", 1),
        7 => ("ceil", "ceil_fn", 1),
        8 => ("floor", "floor_fn", 1),
        9 => ("round", "round_fn", 1),
        10 => ("CONCAT", "concat_fn", 4),
        11 => ("substr", "substr2_fn", 2),
        12 => ("substr", "substr3_fn", 3),
        13 => ("strlen", "strlen_fn", 1),
        14 => ("ucase", "ucase_fn", 1),
        15 => ("lcase", "lcase_fn", 1),
        16 => ("encode_for_uri", "encode_for_uri_fn", 1),
        17 => ("contains", "contains_fn", 2),
        18 => ("strstarts", "strstarts_fn", 2),
        19 => ("strends", "strends_fn", 2),
        20 => ("strbefore", "strbefore_fn", 2),
        21 => ("strafter", "strafter_fn", 2),
        22 => ("year", "year_fn", 1),
        23 => ("month", "month_fn", 1),
        24 => ("day", "day_fn", 1),
        25 => ("hours", "hours_fn", 1),
        26 => ("minutes", "minutes_fn", 1),
        27 => ("seconds", "seconds_fn", 1),
        28 => ("tz", "tz_fn", 1),
        29 => ("NOW", "now_fn", 0),
        30 => ("COALESCE", "coalesce_fn", 4),
        31 => ("IF", "if_fn", 3),
        32 => ("strlang", "strlang_fn", 2),
        33 => ("strdt", "strdt_fn", 2),
        34 => ("sameterm", "sameterm_fn", 2),
        35 => ("isiri", "isiri_fn", 1),
        36 => ("isURI", "is_iri_fn", 1),
        37 => ("isblank", "isblank_fn", 1),
        38 => ("isliteral", "isliteral_fn", 1),
        _ => ("isnumeric", "isnumeric_fn", 1),
    }
}

proof fn lemma_exprs_view_push(s: Seq<Expr>, e: Expr)
    ensures
        exprs_view(s.push(e)) == exprs_view(s).push(expr_view(e)),
{
    assert(s.push(e).drop_last() =~= s);
}

/// The arguments of an operator: `a` then `b`.
fn pair_args(a: Expr, b: Expr) -> (r: Vec<Expr>)
    ensures
        exprs_view(r@) == seq![expr_view(a), expr_view(b)],
{
    let mut args: Vec<Expr> = Vec::new();
    let ghost e = args@;
    args.push(a);
    proof {
        lemma_exprs_view_push(e, a);
        assert(exprs_view(e) =~= Seq::<ExprV>::empty());
    }
    let ghost one = args@;
    args.push(b);
    proof {
        lemma_exprs_view_push(one, b);
    }
    args
}

/// The argument of a unary operator or a call of one argument.
fn single_arg(a: Expr) -> (r: Vec<Expr>)
    ensures
        exprs_view(r@) == seq![expr_view(a)],
        r@.len() == 1,
{
    let mut args: Vec<Expr> = Vec::new();
    let ghost e = args@;
    args.push(a);
    proof {
        lemma_exprs_view_push(e, a);
        assert(exprs_view(e) =~= Seq::<ExprV>::empty());
    }
    args
}

/// '(' Expression (',' Expression){n-1} ')' with white space; for `n == 0` just '(' ')';
/// for a list (`n == 4`) one or more expressions; for `n == 5` a variable.
fn call_args(chars: &Vec<char>, i: usize, ns: &Vec<Namespace>, shape: u8) -> (r: Result<(Vec<Expr>, usize), Fail>)
    requires
        i <= chars@.len(),
    ensures
        r matches Ok(v) ==> i < v.1 <= chars@.len(),
        match call_args_spec(chars@, i as int, ns_view(ns@), shape) {
            Some(t) => r matches Ok(v) && exprs_view(v.0@) == t.0 && v.1 == t.1,
            None => r is Err,
        },
    decreases chars@.len() - i, 1int,
{
    let ghost nsv = ns_view(ns@);
    let mut j = tok(chars, i, "(")?;
    let mut args: Vec<Expr> = Vec::new();
    if shape == 0 {
        let k = tok(chars, j, ")")?;
        assert(exprs_view(args@) =~= Seq::<ExprV>::empty());
        return Ok((args, k));
    }
    if shape == 5 {
        let (name, k) = match var(chars, j) {
            Ok(v) => v,
            Err(f) => {
                return Err(f);
            },
        };
        let args = single_arg(Expr::VariableExpr(name));
        let m = tok(chars, k, ")")?;
        return Ok((args, m));
    }
    let (first, k) = expression(chars, j, ns)?;
    let mut args = single_arg(first);
    j = k;
    loop
        invariant
            i < j <= chars@.len(),
            shape != 0 && shape != 5,
            nsv == ns_view(ns@),
            exprs_view(args@).len() == args@.len(),
            call_args_spec(chars@, i as int, nsv, shape) == args_rest_spec(chars@, j as int, nsv, shape, exprs_view(args@)),
        ensures
            i < j <= chars@.len(),
            call_args_spec(chars@, i as int, nsv, shape) == close_args_spec(chars@, j as int, exprs_view(args@)),
        decreases chars@.len() - j,
    {
        if shape != 4 && args.len() >= shape as usize {
            break;
        }
        match tok(chars, j, ",") {
            Ok(k) => match expression(chars, k, ns) {
                Ok((e, m)) => {
                    let ghost before = args@;
                    args.push(e);
                    proof {
                        lemma_exprs_view_push(before, e);
                    }
                    j = m;
                },
                Err(f) => {
                    if shape == 4 {
                        break;
                    }
                    return Err(f);
                },
            },
            Err(f) => {
                if shape == 4 {
                    break;
                }
                return Err(f);
            },
        }
    }
    let k = tok(chars, j, ")")?;
    Ok((args, k))
}

/// [111] BuiltInCall: the first built-in whose keyword and arguments match.
pub fn built_in_call(chars: &Vec<char>, i: usize, ns: &Vec<Namespace>) -> (r: Result<(Expr, usize), Fail>)
    requires
        i <= chars@.len(),
    ensures
        r matches Ok(v) ==> i < v.1 <= chars@.len(),
        match builtin_from_spec(chars@, i as int, ns_view(ns@), 0) {
            Some(t) => r matches Ok(v) && expr_view(v.0) == t.0 && v.1 == t.1,
            None => r is Err,
        },
    decreases chars@.len() - i, 50int,
{
    let ghost nsv = ns_view(ns@);
    let mut best = fail_at(i, "built-in call");
    let mut k: usize = 0;
    while k < 40
        invariant
            i <= chars@.len(),
            k <= 40,
            nsv == ns_view(ns@),
            builtin_from_spec(chars@, i as int, nsv, 0) == builtin_from_spec(chars@, i as int, nsv, k as int),
        decreases 40 - k,
    {
        let (kw, fname, shape) = builtin_entry(k);
        match keyword(chars, i, kw) {
            Ok(j) => match call_args(chars, j, ns, shape) {
                Ok((args, m)) => {
                    return Ok((Expr::CallExpr(fname.to_owned(), args), m));
                },
                Err(f) => {
                    best = further(best, f);
                },
            },
            Err(_) => {},
        }
        k += 1;
    }
    Err(best)
}

/// [110] BrackettedExpression ::= '(' Expression ')'
fn bracketted(chars: &Vec<char>, i: usize, ns: &Vec<Namespace>) -> (r: Result<(Expr, usize), Fail>)
    requires
        i <= chars@.len(),
    ensures
        r matches Ok(v) ==> i < v.1 <= chars@.len(),
        match bracketted_spec(chars@, i as int, ns_view(ns@)) {
            Some(t) => r matches Ok(v) && expr_view(v.0) == t.0 && v.1 == t.1,
            None => r is Err,
        },
    decreases chars@.len() - i, 5int,
{
    let j = tok(chars, i, "(")?;
    let (e, k) = expression(chars, j, ns)?;
    let m = tok(chars, k, ")")?;
    Ok((e, m))
}

/// [109] PrimaryExpression ::= BrackettedExpression | BuiltInCall | IRIrefOrFunction |
/// RDFLiteral | NumericLiteral | BooleanLiteral | Var
fn primary(chars: &Vec<char>, i: usize, ns: &Vec<Namespace>) -> (r: Result<(Expr, usize), Fail>)
    requires
        i <= chars@.len(),
    ensures
        r matches Ok(v) ==> i < v.1 <= chars@.len(),
        match primary_spec(chars@, i as int, ns_view(ns@)) {
            Some(t) => r matches Ok(v) && expr_view(v.0) == t.0 && v.1 == t.1,
            None => r is Err,
        },
    decreases chars@.len() - i, 60int,
{
    let mut best = fail_at(i, "expression");
    match bracketted(chars, i, ns) {
        Ok(v) => {
            return Ok(v);
        },
        Err(f) => {
            best = further(best, f);
        },
    }
    match iri_ref_or_name(chars, i) {
        Ok((iri, j, _)) => {
            match call_args(chars, j, ns, 4) {
                Ok((args, k)) => {
                    return Ok((Expr::ExtensionExpr(iri, args), k));
                },
                Err(f) => {
                    best = further(best, f);
                },
            }
            return Ok((Expr::ConstantExpr(Object::IriValue(iri)), j));
        },
        Err(_) => {},
    }
    match built_in_call(chars, i, ns) {
        Ok(v) => {
            return Ok(v);
        },
        Err(f) => {
            best = further(best, f);
        },
    }
    if let Some((o, j)) = rdf_literal(chars, i, ns) {
        return Ok((Expr::ConstantExpr(o), j));
    }
    if let Some((o, j)) = numeric_literal(chars, i) {
        return Ok((Expr::ConstantExpr(o), j));
    }
    if let Ok((name, j)) = var(chars, i) {
        return Ok((Expr::VariableExpr(name), j));
    }
    if let Some((o, j)) = boolean_literal(chars, i) {
        return Ok((Expr::ConstantExpr(o), j));
    }
    Err(best)
}

/// A unary operator `op` at `i` and the PrimaryExpression after it.
fn prefixed(chars: &Vec<char>, i: usize, ns: &Vec<Namespace>, op: &str) -> (r: Option<(Expr, usize)>)
    requires
        i <= chars@.len(),
    ensures
        r matches Some(v) ==> i < v.1 <= chars@.len(),
        match prefixed_spec(chars@, i as int, ns_view(ns@), op@) {
            Some(t) => r matches Some(v) && expr_view(v.0) == t.0 && v.1 == t.1,
            None => r is None,
        },
    decreases chars@.len() - i, 0int,
{
    match tok(chars, i, op) {
        Ok(j) => match primary(chars, j, ns) {
            Ok(v) => Some(v),
            Err(_) => None,
        },
        Err(_) => None,
    }
}

/// [108] UnaryExpression ::= '!' PrimaryExpression | '+' PrimaryExpression |
/// '-' PrimaryExpression | PrimaryExpression
fn unary(chars: &Vec<char>, i: usize, ns: &Vec<Namespace>) -> (r: Result<(Expr, usize), Fail>)
    requires
        i <= chars@.len(),
    ensures
        r matches Ok(v) ==> i < v.1 <= chars@.len(),
        match unary_expr_spec(chars@, i as int, ns_view(ns@)) {
            Some(t) => r matches Ok(v) && expr_view(v.0) == t.0 && v.1 == t.1,
            None => r is Err,
        },
    decreases chars@.len() - i, 61int,
{
    if let Some((e, k)) = prefixed(chars, i, ns, "!") {
        return Ok((Expr::CallExpr("op_not".to_owned(), single_arg(e)), k));
    }
    if let Some((e, k)) = prefixed(chars, i, ns, "+") {
        return Ok((e, k));
    }
    if let Some((e, k)) = prefixed(chars, i, ns, "-") {
        return Ok((Expr::CallExpr("op_unary_minus".to_owned(), single_arg(e)), k));
    }
    primary(chars, i, ns)
}

/// The operators of a level of binary expressions: (operator, function name).
fn level_op(level: u8, k: usize) -> (r: Option<(&'static str, &'static str)>)
    ensures
        r == level_op_spec(level, k as int),
{
    if level == 2 {
        if k == 0 { Some(("*", "op_multiply")) } else if k == 1 { Some(("/", "op_divide")) } else { None }
    } else if level == 3 {
        if k == 0 { Some(("+", "op_add")) } else if k == 1 { Some(("-", "op_subtract")) } else { None }
    } else if level == 5 {
        if k == 0 { Some(("&&", "op_and")) } else { None }
    } else {
        if k == 0 { Some(("||", "op_or")) } else { None }
    }
}

/// The `k`th operator of a level at `j` and the operand after it.
fn op_try(chars: &Vec<char>, j: usize, ns: &Vec<Namespace>, level: u8, k: usize) -> (r: Option<(&'static str, Expr, usize)>)
    requires
        j <= chars@.len(),
    ensures
        r matches Some(v) ==> j < v.2 <= chars@.len(),
        match op_try_spec(chars@, j as int, ns_view(ns@), level, k as int) {
            Some(t) => r matches Some(v) && v.0@ == t.0 && expr_view(v.1) == t.1 && v.2 == t.2,
            None => r is None,
        },
    decreases chars@.len() - j, 0int,
{
    match level_op(level, k) {
        Some((op, fname)) => match tok(chars, j, op) {
            Ok(m) => match term_at(chars, m, ns, level) {
                Ok((rhs, n)) => Some((fname, rhs, n)),
                Err(_) => None,
            },
            Err(_) => None,
        },
        None => None,
    }
}

/// The first operator of a level at `j` that is followed by an operand.
fn op_step(chars: &Vec<char>, j: usize, ns: &Vec<Namespace>, level: u8) -> (r: Option<(&'static str, Expr, usize)>)
    requires
        j <= chars@.len(),
    ensures
        r matches Some(v) ==> j < v.2 <= chars@.len(),
        match op_step_spec(chars@, j as int, ns_view(ns@), level) {
            Some(t) => r matches Some(v) && v.0@ == t.0 && expr_view(v.1) == t.1 && v.2 == t.2,
            None => r is None,
        },
    decreases chars@.len() - j, 1int,
{
    match op_try(chars, j, ns, level, 0) {
        Some(v) => Some(v),
        None => op_try(chars, j, ns, level, 1),
    }
}

/// A term followed by any number of (operator, term) pairs, combined from left to right:
/// level 2 multiplies and divides UnaryExpressions, 3 adds and subtracts level-2
/// expressions, 5 joins RelationalExpressions with '&&', and 6 joins level-5 expressions
/// with '||'.
pub fn binary_expr(chars: &Vec<char>, i: usize, ns: &Vec<Namespace>, level: u8) -> (r: Result<(Expr, usize), Fail>)
    requires
        i <= chars@.len(),
    ensures
        r matches Ok(v) ==> i < v.1 <= chars@.len(),
        match bin_spec(chars@, i as int, ns_view(ns@), level) {
            Some(t) => r matches Ok(v) && expr_view(v.0) == t.0 && v.1 == t.1,
            None => r is Err,
        },
    decreases chars@.len() - i, bin_rank(level),
{
    let ghost nsv = ns_view(ns@);
    let (mut lhs, mut j) = term_at(chars, i, ns, level)?;
    loop
        invariant
            i < j <= chars@.len(),
            nsv == ns_view(ns@),
            bin_spec(chars@, i as int, nsv, level) == Some(bin_rest_spec(chars@, j as int, nsv, level, expr_view(lhs))),
        ensures
            i < j <= chars@.len(),
            bin_spec(chars@, i as int, nsv, level) == Some((expr_view(lhs), j as int)),
        decreases chars@.len() - j,
    {
        match op_step(chars, j, ns, level) {
            Some((fname, rhs, n)) => {
                lhs = Expr::CallExpr(fname.to_owned(), pair_args(lhs, rhs));
                j = n;
            },
            None => {
                break;
            },
        }
    }
    Ok((lhs, j))
}

/// The operand of a level of binary expressions.
fn term_at(chars: &Vec<char>, i: usize, ns: &Vec<Namespace>, level: u8) -> (r: Result<(Expr, usize), Fail>)
    requires
        i <= chars@.len(),
    ensures
        r matches Ok(v) ==> i < v.1 <= chars@.len(),
        match term_spec(chars@, i as int, ns_view(ns@), level) {
            Some(t) => r matches Ok(v) && expr_view(v.0) == t.0 && v.1 == t.1,
            None => r is Err,
        },
    decreases chars@.len() - i, bin_rank(level) - 1,
{
    if level == 2 {
        unary(chars, i, ns)
    } else if level == 3 {
        binary_expr(chars, i, ns, 2)
    } else if level == 5 {
        relational(chars, i, ns)
    } else {
        binary_expr(chars, i, ns, 5)
    }
}

/// The `k`th relational operator: (operator, function name).
fn rel_op(k: usize) -> (r: (&'static str, &'static str))
    ensures
        r == rel_op_spec(k as int),
{
    if k == 0 {
        ("=", "op_equals")
    } else if k == 1 {
        ("!=", "op_not_equals")
    } else if k == 2 {
        ("<", "op_less_than")
    } else if k == 3 {
        (">", "op_greater_than")
    } else if k == 4 {
        ("<=", "op_less_than_or_equal")
    } else if k == 5 {
        (">=", "op_greater_than_or_equal")
    } else if k == 6 {
        ("IN", "in_op")
    } else {
        ("NOT", "not_in_op")
    }
}

/// [104] RelationalExpression ::= NumericExpression (('=' | '!=' | '<' | '>' | '<=' | '>=' |
/// 'IN' | 'NOT' 'IN') NumericExpression)?
fn relational(chars: &Vec<char>, i: usize, ns: &Vec<Namespace>) -> (r: Result<(Expr, usize), Fail>)
    requires
        i <= chars@.len(),
    ensures
        r matches Ok(v) ==> i < v.1 <= chars@.len(),
        match relational_expr_spec(chars@, i as int, ns_view(ns@)) {
            Some(t) => r matches Ok(v) && expr_view(v.0) == t.0 && v.1 == t.1,
            None => r is Err,
        },
    decreases chars@.len() - i, 66int,
{
    let ghost nsv = ns_view(ns@);
    let (lhs, j) = binary_expr(chars, i, ns, 3)?;
    let mut k: usize = 0;
    while k < 8
        invariant
            i < j <= chars@.len(),
            k <= 8,
            nsv == ns_view(ns@),
            relational_expr_spec(chars@, i as int, nsv) == Some(rel_rest_spec(chars@, j as int, nsv, expr_view(lhs), k as int)),
        decreases 8 - k,
    {
        let (op, fname) = rel_op(k);
        let after_op = if k == 6 {
            keyword(chars, j, op)
        } else if k == 7 {
            match keyword(chars, j, op) {
                Ok(m) => keyword(chars, m, "IN"),
                Err(f) => Err(f),
            }
        } else {
            tok(chars, j, op)
        };
        if let Ok(m) = after_op {
            if let Ok((rhs, n)) = binary_expr(chars, m, ns, 3) {
                return Ok((Expr::CallExpr(fname.to_owned(), pair_args(copy_expr(&lhs), rhs)), n));
            }
        }
        k += 1;
    }
    Ok((lhs, j))
}

/// [100] Expression ::= ConditionalOrExpression
pub fn expression(chars: &Vec<char>, i: usize, ns: &Vec<Namespace>) -> (r: Result<(Expr, usize), Fail>)
    requires
        i <= chars@.len(),
    ensures
        r matches Ok(v) ==> i < v.1 <= chars@.len(),
        match expression_spec(chars@, i as int, ns_view(ns@)) {
            Some(t) => r matches Ok(v) && expr_view(v.0) == t.0 && v.1 == t.1,
            None => r is Err,
        },
    decreases chars@.len() - i, 71int,
{
    binary_expr(chars, i, ns, 6)
}


// ---- Graph patterns -------------------------------------------------------------------------

/// An IRI as a pattern constant: an xsd:anyURI literal.
pub open spec fn iri_term(iri: Seq<char>) -> Term {
    literal_spec(iri, "http://www.w3.org/2001/XMLSchema#anyURI"@, ""@)
}

/// [99] GraphTerm ::= RDFLiteral | IRIref | NumericLiteral | BooleanLiteral, the first that
/// matches.
pub open spec fn graph_term_spec(chars: Seq<char>, i: int, ns: Seq<(Seq<char>, Seq<char>)>) -> Option<(PatternV, int)> {
    match rdf_literal_spec(chars, i, ns) {
        Some((t, j)) => Some((PatternV::Constant(t), j)),
        None => match iri_ref_or_name_spec(chars, i) {
            Some((iri, j, _)) => Some((PatternV::Constant(iri_term(iri)), j)),
            None => match numeric_literal_spec(chars, i) {
                Some((t, j)) => Some((PatternV::Constant(t), j)),
                None => match boolean_literal_spec(chars, i) {
                    Some((t, j)) => Some((PatternV::Constant(t), j)),
                    None => None,
                },
            },
        },
    }
}

/// [96] VarOrTerm ::= Var | GraphTerm
pub open spec fn var_or_term_spec(chars: Seq<char>, i: int, ns: Seq<(Seq<char>, Seq<char>)>) -> Option<(PatternV, int)> {
    match var_token(chars, i) {
        Some((name, j)) => Some((PatternV::Variable(name), j)),
        None => graph_term_spec(chars, i, ns),
    }
}

/// A verb: an IRIref or a Var.
pub open spec fn verb_spec(chars: Seq<char>, i: int) -> Option<(PatternV, int)> {
    match iri_ref_or_name_spec(chars, i) {
        Some((iri, j, _)) => Some((PatternV::Constant(iri_term(iri)), j)),
        None => match var_token(chars, i) {
            Some((name, j)) => Some((PatternV::Variable(name), j)),
            None => None,
        },
    }
}

/// A triple: subject, verb and object, as a basic pattern.
pub open spec fn triple_spec(chars: Seq<char>, i: int, ns: Seq<(Seq<char>, Seq<char>)>) -> Option<(AlgebraV, int)> {
    match var_or_term_spec(chars, i, ns) {
        Some((s, j)) => match verb_spec(chars, j) {
            Some((p, k)) => match var_or_term_spec(chars, k, ns) {
                Some((o, m)) => Some((AlgebraV::Basic(s, p, o), m)),
                None => None,
            },
            None => None,
        },
        None => None,
    }
}

/// The triples after the first one in a block: each after a '.'; a '.' with no triple after
/// it ends the block.
pub open spec fn triples_rest_spec(chars: Seq<char>, j: int, ns: Seq<(Seq<char>, Seq<char>)>, parts: Seq<AlgebraV>) -> (Seq<AlgebraV>, int)
    decreases chars.len() - j,
{
    match tok_spec(chars, j, "."@) {
        Some(k) => if !advances(chars, j, k) {
            (parts, j)
        } else {
            match triple_spec(chars, k, ns) {
                Some((t, m)) => if advances(chars, k, m) { triples_rest_spec(chars, m, ns, parts.push(t)) } else { (parts, k) },
                None => (parts, k),
            }
        },
        None => (parts, j),
    }
}

/// One part alone, else a group of the parts.
pub open spec fn single_or_group(parts: Seq<AlgebraV>) -> AlgebraV {
    if parts.len() == 1 { parts[0] } else { AlgebraV::Group(parts) }
}

/// [56] TriplesBlock ::= TriplesSameSubjectPath ('.' TriplesBlock?)?: one triple gives a
/// basic pattern, several a group of basic patterns.
pub open spec fn triples_block_spec(chars: Seq<char>, i: int, ns: Seq<(Seq<char>, Seq<char>)>) -> Option<(AlgebraV, int)> {
    match triple_spec(chars, i, ns) {
        Some((t, j)) => {
            let (parts, e) = triples_rest_spec(chars, j, ns, seq![t]);
            Some((single_or_group(parts), e))
        },
        None => None,
    }
}

/// [65] Constraint ::= BrackettedExpression | BuiltInCall
pub open spec fn constraint_spec(chars: Seq<char>, i: int, ns: Seq<(Seq<char>, Seq<char>)>) -> Option<(ExprV, int)> {
    match bracketted_spec(chars, i, ns) {
        Some(v) => Some(v),
        None => builtin_from_spec(chars, i, ns, 0),
    }
}

/// 'BIND' '(' Expression 'AS' Var ')' after the keyword.
pub open spec fn bind_spec(chars: Seq<char>, j: int, ns: Seq<(Seq<char>, Seq<char>)>) -> Option<(AlgebraV, int)> {
    match tok_spec(chars, j, "("@) {
        Some(j2) => match expression_spec(chars, j2, ns) {
            Some((e, k)) => match keyword_spec(chars, k, "AS"@) {
                Some(k2) => match var_token(chars, k2) {
                    Some((name, m)) => match tok_spec(chars, m, ")"@) {
                        Some(m2) => Some((AlgebraV::Bind(e, name), m2)),
                        None => None,
                    },
                    None => None,
                },
                None => None,
            },
            None => None,
        },
        None => None,
    }
}

/// [57] GraphPatternNotTriples ::= 'OPTIONAL' GroupGraphPattern | 'FILTER' Constraint |
/// 'BIND' '(' Expression 'AS' Var ')': the alternative whose keyword (any case) matches.
pub open spec fn not_triples_spec(chars: Seq<char>, i: int, ns: Seq<(Seq<char>, Seq<char>)>) -> Option<(AlgebraV, int)>
    decreases chars.len() - i, 0int,
{
    match keyword_spec(chars, i, "OPTIONAL"@) {
        Some(j) => if !advances(chars, i, j) {
            None
        } else {
            match group_pattern_spec(chars, j, ns) {
                Some((g, k)) => Some((AlgebraV::Optional(Box::new(g)), k)),
                None => None,
            }
        },
        None => match keyword_spec(chars, i, "FILTER"@) {
            Some(j) => match constraint_spec(chars, j, ns) {
                Some((e, k)) => Some((AlgebraV::Filter(e), k)),
                None => None,
            },
            None => match keyword_spec(chars, i, "BIND"@) {
                Some(j) => bind_spec(chars, j, ns),
                None => None,
            },
        },
    }
}

/// The parts after the leading triples block of a group: each GraphPatternNotTriples, an
/// optional '.', and a triples block after it (the two then make a group).
pub open spec fn sub_rest_spec(chars: Seq<char>, j: int, ns: Seq<(Seq<char>, Seq<char>)>, parts: Seq<AlgebraV>) -> (Seq<AlgebraV>, int)
    decreases chars.len() - j, 1int,
{
    match not_triples_spec(chars, j, ns) {
        Some((gp, k)) => if !advances(chars, j, k) {
            (parts, j)
        } else {
            let k2 = match tok_spec(chars, k, "."@) {
                Some(m) => m,
                None => k,
            };
            if !(k <= k2 <= chars.len()) {
                (parts, j)
            } else {
                match triples_block_spec(chars, k2, ns) {
                    Some((tb, m)) => if advances(chars, k2, m) {
                        sub_rest_spec(chars, m, ns, parts.push(AlgebraV::Group(seq![gp, tb])))
                    } else {
                        (parts, j)
                    },
                    None => sub_rest_spec(chars, k2, ns, parts.push(gp)),
                }
            }
        },
        None => (parts, j),
    }
}

/// [55] GroupGraphPatternSub ::= TriplesBlock? (GraphPatternNotTriples '.'? TriplesBlock?)*:
/// one part stands alone, several (or none) make a group.
pub open spec fn group_sub_spec(chars: Seq<char>, i: int, ns: Seq<(Seq<char>, Seq<char>)>) -> (AlgebraV, int)
    decreases chars.len() - i, 2int,
{
    let (parts, j) = match triples_block_spec(chars, i, ns) {
        Some((tb, k)) => if advances(chars, i, k) { (seq![tb], k) } else { (Seq::empty(), i) },
        None => (Seq::empty(), i),
    };
    if !(i <= j <= chars.len()) {
        (single_or_group(parts), j)
    } else {
        let (all, e) = sub_rest_spec(chars, j, ns, parts);
        (single_or_group(all), e)
    }
}

/// [54] GroupGraphPattern ::= '{' GroupGraphPatternSub '}'
pub open spec fn group_pattern_spec(chars: Seq<char>, i: int, ns: Seq<(Seq<char>, Seq<char>)>) -> Option<(AlgebraV, int)>
    decreases chars.len() - i, 3int,
{
    match tok_spec(chars, i, "{"@) {
        Some(j) => if !advances(chars, i, j) {
            None
        } else {
            let (a, k) = group_sub_spec(chars, j, ns);
            match tok_spec(chars, k, "}"@) {
                Some(m) => Some((a, m)),
                None => None,
            }
        },
        None => None,
    }
}

/// A sort key marked ascending or descending: `kw` then a BrackettedExpression.
pub open spec fn directed_key_spec(chars: Seq<char>, i: int, ns: Seq<(Seq<char>, Seq<char>)>, kw: Seq<char>, mark: Seq<char>) -> Option<(ExprV, int)> {
    match keyword_spec(chars, i, kw) {
        Some(j) => match bracketted_spec(chars, j, ns) {
            Some((e, k)) => Some((ExprV::Call(mark, seq![e]), k)),
            None => None,
        },
        None => None,
    }
}

/// [24] OrderCondition ::= (('ASC' | 'DESC') BrackettedExpression) | (Constraint | Var):
/// an ascending or descending key is marked by a call of "!asc" or "!desc".
pub open spec fn order_condition_spec(chars: Seq<char>, i: int, ns: Seq<(Seq<char>, Seq<char>)>) -> Option<(ExprV, int)> {
    match directed_key_spec(chars, i, ns, "ASC"@, "!asc"@) {
        Some(v) => Some(v),
        None => match directed_key_spec(chars, i, ns, "DESC"@, "!desc"@) {
            Some(v) => Some(v),
            None => match constraint_spec(chars, i, ns) {
                Some(v) => Some(v),
                None => match var_token(chars, i) {
                    Some((name, j)) => Some((ExprV::Variable(name), j)),
                    None => None,
                },
            },
        },
    }
}

/// The order conditions that follow one another from `j`, after `keys`.
pub open spec fn keys_rest_spec(chars: Seq<char>, j: int, ns: Seq<(Seq<char>, Seq<char>)>, keys: Seq<ExprV>) -> (Seq<ExprV>, int)
    decreases chars.len() - j,
{
    match order_condition_spec(chars, j, ns) {
        Some((e, m)) => if advances(chars, j, m) { keys_rest_spec(chars, m, ns, keys.push(e)) } else { (keys, j) },
        None => (keys, j),
    }
}

/// [23] OrderClause ::= 'ORDER' 'BY' OrderCondition+
pub open spec fn order_clause_spec(chars: Seq<char>, i: int, ns: Seq<(Seq<char>, Seq<char>)>) -> Option<(Seq<ExprV>, int)> {
    match keyword_spec(chars, i, "ORDER"@) {
        Some(j) => match keyword_spec(chars, j, "BY"@) {
            Some(j2) => match order_condition_spec(chars, j2, ns) {
                Some((first, k)) => Some(keys_rest_spec(chars, k, ns, seq![first])),
                None => None,
            },
            None => None,
        },
        None => None,
    }
}

/// [26] LimitClause ::= 'LIMIT' INTEGER: the digits read as an xsd:integer literal (a value
/// that does not fit in an i64 is refused), and where the white space after them ends.
pub open spec fn limit_spec(chars: Seq<char>, i: int) -> Option<(usize, int)> {
    match keyword_spec(chars, i, "LIMIT"@) {
        Some(j) => {
            let k = j + digit_run(chars, j);
            if k == j {
                None
            } else {
                match literal_spec(chars.subrange(j, k), "http://www.w3.org/2001/XMLSchema#integer"@, ""@) {
                    Term::Int(n) => if n < 0 { None } else { Some((n as usize, ws_spec(chars, k))) },
                    _ => None,
                }
            }
        },
        None => None,
    }
}

/// The model of a parsed query.
pub struct ParsedV {
    pub namespaces: Seq<(Seq<char>, Seq<char>)>,
    pub names: Seq<Seq<char>>,
    pub distinct: bool,
    pub algebra: AlgebraV,
    pub order_by: Seq<ExprV>,
    pub limit: Option<usize>,
}

/// [2] Query ::= Prologue SelectQuery, where Prologue ::= PrefixDecl* and
/// SelectQuery ::= SelectClause 'WHERE'? GroupGraphPattern OrderClause? LimitClause?;
/// white space may lead, and nothing but white space may follow.
#[verifier::opaque]
pub open spec fn query_spec(chars: Seq<char>) -> Option<ParsedV> {
    let p = prologue_spec(chars, ws_spec(chars, 0));
    match select_clause_spec(chars, p.1) {
        Some((names, distinct, j)) => {
            let k = match keyword_spec(chars, j, "WHERE"@) {
                Some(k) => k,
                None => j,
            };
            match group_pattern_spec(chars, k, p.0) {
                Some((algebra, m)) => {
                    let (order_by, n) = match order_clause_spec(chars, m, p.0) {
                        Some(v) => v,
                        None => (Seq::empty(), m),
                    };
                    let (limit, q) = match limit_spec(chars, n) {
                        Some((l, q)) => (Some(l), q),
                        None => (None, n),
                    };
                    if q < chars.len() {
                        None
                    } else {
                        Some(ParsedV { namespaces: p.0, names, distinct, algebra, order_by, limit })
                    }
                },
                None => None,
            }
        },
        None => None,
    }
}

/// The model of what `make_parser` yields.
pub open spec fn parsed_view(q: ParsedQuery) -> ParsedV {
    ParsedV {
        namespaces: ns_view(q.namespaces@),
        names: names_view(q.names@),
        distinct: q.distinct,
        algebra: algebra_view(q.algebra),
        order_by: exprs_view(q.order_by@),
        limit: q.limit,
    }
}

/// [99] GraphTerm ::= RDFLiteral | IRIref | NumericLiteral | BooleanLiteral
fn graph_term(chars: &Vec<char>, i: usize, ns: &Vec<Namespace>) -> (r: Result<(Pattern, usize), Fail>)
    requires
        i <= chars@.len(),
    ensures
        r matches Ok(v) ==> i < v.1 <= chars@.len(),
        match graph_term_spec(chars@, i as int, ns_view(ns@)) {
            Some(t) => r matches Ok(v) && pattern_view(v.0) == t.0 && v.1 == t.1,
            None => r is Err,
        },
{
    if let Some((o, j)) = rdf_literal(chars, i, ns) {
        return Ok((Pattern::Constant(o), j));
    }
    if let Ok((iri, j, _)) = iri_ref_or_name(chars, i) {
        return Ok((iri_literal(iri.as_str()), j));
    }
    if let Some((o, j)) = numeric_literal(chars, i) {
        return Ok((Pattern::Constant(o), j));
    }
    if let Some((o, j)) = boolean_literal(chars, i) {
        return Ok((Pattern::Constant(o), j));
    }
    Err(fail_at(i, "term"))
}

/// [96] VarOrTerm ::= Var | GraphTerm
fn var_or_term(chars: &Vec<char>, i: usize, ns: &Vec<Namespace>) -> (r: Result<(Pattern, usize), Fail>)
    requires
        i <= chars@.len(),
    ensures
        r matches Ok(v) ==> i < v.1 <= chars@.len(),
        match var_or_term_spec(chars@, i as int, ns_view(ns@)) {
            Some(t) => r matches Ok(v) && pattern_view(v.0) == t.0 && v.1 == t.1,
            None => r is Err,
        },
{
    match var(chars, i) {
        Ok((name, j)) => Ok((Pattern::Variable(name), j)),
        Err(f) => match graph_term(chars, i, ns) {
            Ok(v) => Ok(v),
            Err(g) => Err(further(f, g)),
        },
    }
}

/// A verb: an IRIref or a Var.
fn verb(chars: &Vec<char>, i: usize) -> (r: Result<(Pattern, usize), Fail>)
    requires
        i <= chars@.len(),
    ensures
        r matches Ok(v) ==> i < v.1 <= chars@.len(),
        match verb_spec(chars@, i as int) {
            Some(t) => r matches Ok(v) && pattern_view(v.0) == t.0 && v.1 == t.1,
            None => r is Err,
        },
{
    match iri_ref_or_name(chars, i) {
        Ok((iri, j, _)) => Ok((iri_literal(iri.as_str()), j)),
        Err(f) => match var(chars, i) {
            Ok((name, j)) => Ok((Pattern::Variable(name), j)),
            Err(g) => Err(further(f, g)),
        },
    }
}

/// [77] TriplesSameSubjectPath, with one verb and one object.
fn triple(chars: &Vec<char>, i: usize, ns: &Vec<Namespace>) -> (r: Result<(TriplePattern, usize), Fail>)
    requires
        i <= chars@.len(),
    ensures
        r matches Ok(v) ==> i < v.1 <= chars@.len(),
        match triple_spec(chars@, i as int, ns_view(ns@)) {
            Some(t) => r matches Ok(v) && algebra_view(Algebra::Basic(v.0)) == t.0 && v.1 == t.1,
            None => r is Err,
        },
{
    let (subject, j) = var_or_term(chars, i, ns)?;
    let (predicate, k) = verb(chars, j)?;
    let (object, m) = var_or_term(chars, k, ns)?;
    Ok((TriplePattern { subject, predicate, object }, m))
}

/// One part alone, else a group of the parts.
fn one_or_group(parts: Vec<Algebra>) -> (r: Algebra)
    ensures
        algebra_view(r) == single_or_group(algebras_view(parts@)),
{
    proof {
        lemma_algebras_view_len(parts@);
    }
    let mut parts = parts;
    if parts.len() == 1 {
        parts.remove(0)
    } else {
        Algebra::Group(parts)
    }
}

/// [56] TriplesBlock ::= TriplesSameSubjectPath ('.' TriplesBlock?)?
/// One triple gives a basic pattern, several a group of basic patterns.
fn triples_block(chars: &Vec<char>, i: usize, ns: &Vec<Namespace>) -> (r: Result<(Algebra, usize), Fail>)
    requires
        i <= chars@.len(),
    ensures
        r matches Ok(v) ==> i < v.1 <= chars@.len(),
        match triples_block_spec(chars@, i as int, ns_view(ns@)) {
            Some(t) => r matches Ok(v) && algebra_view(v.0) == t.0 && v.1 == t.1,
            None => r is Err,
        },
{
    let ghost nsv = ns_view(ns@);
    let (first, mut j) = triple(chars, i, ns)?;
    let mut parts: Vec<Algebra> = Vec::new();
    let ghost empty = parts@;
    let first = Algebra::Basic(first);
    let ghost j0 = j;
    let ghost t0 = algebra_view(first);
    parts.push(first);
    proof {
        lemma_algebras_view_push(empty, first);
        assert(algebras_view(empty) =~= Seq::<AlgebraV>::empty());
        assert(algebras_view(parts@) =~= seq![t0]);
    }
    loop
        invariant_except_break
            triples_rest_spec(chars@, j0 as int, nsv, seq![t0]) == triples_rest_spec(chars@, j as int, nsv, algebras_view(parts@)),
        invariant
            i < j <= chars@.len(),
            nsv == ns_view(ns@),
        ensures
            i < j <= chars@.len(),
            triples_rest_spec(chars@, j0 as int, nsv, seq![t0]) == (algebras_view(parts@), j as int),
        decreases chars@.len() - j,
    {
        match tok(chars, j, ".") {
            Ok(k) => match triple(chars, k, ns) {
                Ok((t, m)) => {
                    let ghost before = parts@;
                    let b = Algebra::Basic(t);
                    parts.push(b);
                    proof {
                        lemma_algebras_view_push(before, b);
                    }
                    j = m;
                },
                Err(_) => {
                    j = k;
                    break;
                },
            },
            Err(_) => {
                break;
            },
        }
    }
    Ok((one_or_group(parts), j))
}

/// [65] Constraint ::= BrackettedExpression | BuiltInCall
fn constraint(chars: &Vec<char>, i: usize, ns: &Vec<Namespace>) -> (r: Result<(Expr, usize), Fail>)
    requires
        i <= chars@.len(),
    ensures
        r matches Ok(v) ==> i < v.1 <= chars@.len(),
        match constraint_spec(chars@, i as int, ns_view(ns@)) {
            Some(t) => r matches Ok(v) && expr_view(v.0) == t.0 && v.1 == t.1,
            None => r is Err,
        },
{
    match bracketted(chars, i, ns) {
        Ok(v) => Ok(v),
        Err(f) => match built_in_call(chars, i, ns) {
            Ok(v) => Ok(v),
            Err(g) => Err(further(f, g)),
        },
    }
}

/// [57] GraphPatternNotTriples ::= 'OPTIONAL' GroupGraphPattern | 'FILTER' Constraint |
/// 'BIND' '(' Expression 'AS' Var ')'
fn not_triples(chars: &Vec<char>, i: usize, ns: &Vec<Namespace>) -> (r: Result<(Algebra, usize), Fail>)
    requires
        i <= chars@.len(),
    ensures
        r matches Ok(v) ==> i < v.1 <= chars@.len(),
        match not_triples_spec(chars@, i as int, ns_view(ns@)) {
            Some(t) => r matches Ok(v) && algebra_view(v.0) == t.0 && v.1 == t.1,
            None => r is Err,
        },
    decreases chars@.len() - i, 0int,
{
    if let Ok(j) = keyword(chars, i, "OPTIONAL") {
        let (g, k) = group_graph_pattern(chars, j, ns)?;
        return Ok((Algebra::Optional(Box::new(g)), k));
    }
    if let Ok(j) = keyword(chars, i, "FILTER") {
        let (e, k) = constraint(chars, j, ns)?;
        return Ok((Algebra::Filter(e), k));
    }
    if let Ok(j) = keyword(chars, i, "BIND") {
        let j = tok(chars, j, "(")?;
        let (e, k) = expression(chars, j, ns)?;
        let k = keyword(chars, k, "AS")?;
        let (name, m) = var(chars, k)?;
        let m = tok(chars, m, ")")?;
        return Ok((Algebra::Bind(e, name), m));
    }
    Err(fail_at(i, "OPTIONAL, FILTER or BIND"))
}

/// [55] GroupGraphPatternSub ::= TriplesBlock? (GraphPatternNotTriples '.'? TriplesBlock?)*
/// A part followed by a triples block makes a group of the two; one part stands alone,
/// several (or none) make a group.
fn group_graph_pattern_sub(chars: &Vec<char>, i: usize, ns: &Vec<Namespace>) -> (r: (Algebra, usize))
    requires
        i <= chars@.len(),
    ensures
        i <= r.1 <= chars@.len(),
        group_sub_spec(chars@, i as int, ns_view(ns@)) == (algebra_view(r.0), r.1 as int),
    decreases chars@.len() - i, 1int,
{
    let ghost nsv = ns_view(ns@);
    let mut parts: Vec<Algebra> = Vec::new();
    let mut j = i;
    proof {
        assert(algebras_view(parts@) =~= Seq::<AlgebraV>::empty());
    }
    if let Ok((tb, k)) = triples_block(chars, i, ns) {
        let ghost before = parts@;
        parts.push(tb);
        proof {
            lemma_algebras_view_push(before, tb);
            assert(algebras_view(parts@) =~= seq![algebra_view(tb)]);
        }
        j = k;
    }
    let ghost j0 = j;
    let ghost p0 = algebras_view(parts@);
    loop
        invariant
            i <= j0 <= j <= chars@.len(),
            nsv == ns_view(ns@),
            sub_rest_spec(chars@, j0 as int, nsv, p0) == sub_rest_spec(chars@, j as int, nsv, algebras_view(parts@)),
        ensures
            i <= j <= chars@.len(),
            sub_rest_spec(chars@, j0 as int, nsv, p0) == (algebras_view(parts@), j as int),
        decreases chars@.len() - j,
    {
        match not_triples(chars, j, ns) {
            Ok((gp, k)) => {
                let k = match tok(chars, k, ".") {
                    Ok(m) => m,
                    Err(_) => k,
                };
                let ghost before = parts@;
                match triples_block(chars, k, ns) {
                    Ok((tb, m)) => {
                        let g = Algebra::Group(pair_algebras(gp, tb));
                        parts.push(g);
                        proof {
                            lemma_algebras_view_push(before, g);
                        }
                        j = m;
                    },
                    Err(_) => {
                        parts.push(gp);
                        proof {
                            lemma_algebras_view_push(before, gp);
                        }
                        j = k;
                    },
                }
            },
            Err(_) => {
                break;
            },
        }
    }
    (one_or_group(parts), j)
}

/// Two algebras side by side.
fn pair_algebras(a: Algebra, b: Algebra) -> (r: Vec<Algebra>)
    ensures
        algebras_view(r@) == seq![algebra_view(a), algebra_view(b)],
{
    let mut v: Vec<Algebra> = Vec::new();
    let ghost e = v@;
    v.push(a);
    proof {
        lemma_algebras_view_push(e, a);
        assert(algebras_view(e) =~= Seq::<AlgebraV>::empty());
    }
    let ghost one = v@;
    v.push(b);
    proof {
        lemma_algebras_view_push(one, b);
    }
    v
}

/// [54] GroupGraphPattern ::= '{' GroupGraphPatternSub '}'
fn group_graph_pattern(chars: &Vec<char>, i: usize, ns: &Vec<Namespace>) -> (r: Result<(Algebra, usize), Fail>)
    requires
        i <= chars@.len(),
    ensures
        r matches Ok(v) ==> i < v.1 <= chars@.len(),
        match group_pattern_spec(chars@, i as int, ns_view(ns@)) {
            Some(t) => r matches Ok(v) && algebra_view(v.0) == t.0 && v.1 == t.1,
            None => r is Err,
        },
    decreases chars@.len() - i, 2int,
{
    let j = tok(chars, i, "{")?;
    let (a, k) = group_graph_pattern_sub(chars, j, ns);
    let m = tok(chars, k, "}")?;
    Ok((a, m))
}

// ---- Queries --------------------------------------------------------------------------------

/// The names of the variables that follow one another from `i`, and where they end.
pub open spec fn var_list(chars: Seq<char>, i: int) -> (Seq<Seq<char>>, int)
    decreases chars.len() - i,
{
    match var_token(chars, i) {
        Some((name, e)) => if i < e <= chars.len() {
            let rest = var_list(chars, e);
            (seq![name] + rest.0, rest.1)
        } else {
            (Seq::empty(), i)
        },
        None => (Seq::empty(), i),
    }
}

/// [9] SelectClause ::= 'SELECT' 'DISTINCT'? (Var+ | '*'), keywords in any case: the
/// selected names ("*" for all), whether DISTINCT was given, and where the clause ends.
pub open spec fn select_clause_spec(chars: Seq<char>, i: int) -> Option<(Seq<Seq<char>>, bool, int)> {
    match keyword_spec(chars, i, "SELECT"@) {
        Some(j) => {
            let (distinct, k) = match keyword_spec(chars, j, "DISTINCT"@) {
                Some(k) => (true, k),
                None => (false, j),
            };
            let vars = var_list(chars, k);
            if vars.0.len() > 0 {
                Some((vars.0, distinct, vars.1))
            } else {
                match tok_spec(chars, k, "*"@) {
                    Some(m) => Some((seq!["*"@], distinct, m)),
                    None => None,
                }
            }
        },
        None => None,
    }
}

fn select_clause(chars: &Vec<char>, i: usize) -> (r: Result<(Vec<String>, bool, usize), Fail>)
    requires
        i <= chars@.len(),
    ensures
        r matches Ok(v) ==> i < v.2 <= chars@.len(),
        match select_clause_spec(chars@, i as int) {
            Some(t) => r matches Ok(v) && names_view(v.0@) == t.0 && v.1 == t.1 && v.2 == t.2,
            None => r is Err,
        },
{
    let j = keyword(chars, i, "SELECT")?;
    let (distinct, k) = match keyword(chars, j, "DISTINCT") {
        Ok(k) => (true, k),
        Err(_) => (false, j),
    };
    let mut names: Vec<String> = Vec::new();
    let mut m = k;
    proof {
        assert(names_view(names@) + var_list(chars@, m as int).0 =~= var_list(chars@, k as int).0);
    }
    loop
        invariant
            i < k <= m <= chars@.len(),
            names_view(names@) + var_list(chars@, m as int).0 == var_list(chars@, k as int).0,
            var_list(chars@, m as int).1 == var_list(chars@, k as int).1,
        ensures
            i < k <= m <= chars@.len(),
            names_view(names@) == var_list(chars@, k as int).0,
            m == var_list(chars@, k as int).1,
        decreases chars@.len() - m,
    {
        let ghost before = names_view(names@);
        match var(chars, m) {
            Ok((name, e)) => {
                proof {
                    assert(var_list(chars@, m as int).0 =~= seq![name@] + var_list(chars@, e as int).0);
                }
                names.push(name);
                proof {
                    assert(names_view(names@) =~= before.push(name@));
                    assert(before.push(name@) + var_list(chars@, e as int).0 =~= before + (seq![name@] + var_list(chars@, e as int).0));
                }
                m = e;
            },
            Err(_) => {
                proof {
                    assert(var_list(chars@, m as int).0 =~= Seq::<Seq<char>>::empty());
                    assert(before + Seq::<Seq<char>>::empty() =~= before);
                }
                break;
            },
        }
    }
    if names.len() > 0 {
        return Ok((names, distinct, m));
    }
    let e = tok(chars, k, "*")?;
    let mut star: Vec<String> = Vec::new();
    star.push("*".to_owned());
    proof {
        assert(names_view(star@) =~= seq!["*"@]);
    }
    Ok((star, distinct, e))
}

/// A sort key marked ascending or descending: `kw` then a BrackettedExpression.
fn directed_key(chars: &Vec<char>, i: usize, ns: &Vec<Namespace>, kw: &str, mark: &str) -> (r: Option<(Expr, usize)>)
    requires
        i <= chars@.len(),
    ensures
        r matches Some(v) ==> i < v.1 <= chars@.len(),
        match directed_key_spec(chars@, i as int, ns_view(ns@), kw@, mark@) {
            Some(t) => r matches Some(v) && expr_view(v.0) == t.0 && v.1 == t.1,
            None => r is None,
        },
{
    match keyword(chars, i, kw) {
        Ok(j) => match bracketted(chars, j, ns) {
            Ok((e, k)) => Some((Expr::CallExpr(mark.to_owned(), single_arg(e)), k)),
            Err(_) => None,
        },
        Err(_) => None,
    }
}

/// [24] OrderCondition ::= (('ASC' | 'DESC') BrackettedExpression) | (Constraint | Var)
/// An ascending or descending key is marked by a call of "!asc" or "!desc".
fn order_condition(chars: &Vec<char>, i: usize, ns: &Vec<Namespace>) -> (r: Result<(Expr, usize), Fail>)
    requires
        i <= chars@.len(),
    ensures
        r matches Ok(v) ==> i < v.1 <= chars@.len(),
        match order_condition_spec(chars@, i as int, ns_view(ns@)) {
            Some(t) => r matches Ok(v) && expr_view(v.0) == t.0 && v.1 == t.1,
            None => r is Err,
        },
{
    if let Some(v) = directed_key(chars, i, ns, "ASC", "!asc") {
        return Ok(v);
    }
    if let Some(v) = directed_key(chars, i, ns, "DESC", "!desc") {
        return Ok(v);
    }
    match constraint(chars, i, ns) {
        Ok(v) => Ok(v),
        Err(f) => match var(chars, i) {
            Ok((name, j)) => Ok((Expr::VariableExpr(name), j)),
            Err(g) => Err(further(f, g)),
        },
    }
}

/// [23] OrderClause ::= 'ORDER' 'BY' OrderCondition+
fn order_clause(chars: &Vec<char>, i: usize, ns: &Vec<Namespace>) -> (r: Result<(Vec<Expr>, usize), Fail>)
    requires
        i <= chars@.len(),
    ensures
        r matches Ok(v) ==> i < v.1 <= chars@.len(),
        match order_clause_spec(chars@, i as int, ns_view(ns@)) {
            Some(t) => r matches Ok(v) && exprs_view(v.0@) == t.0 && v.1 == t.1,
            None => r is Err,
        },
{
    let ghost nsv = ns_view(ns@);
    let j = keyword(chars, i, "ORDER")?;
    let j = keyword(chars, j, "BY")?;
    let (first, mut k) = order_condition(chars, j, ns)?;
    let ghost k0 = k;
    let ghost f0 = expr_view(first);
    let mut keys = single_arg(first);
    loop
        invariant
            i < k <= chars@.len(),
            nsv == ns_view(ns@),
            keys_rest_spec(chars@, k0 as int, nsv, seq![f0]) == keys_rest_spec(chars@, k as int, nsv, exprs_view(keys@)),
        ensures
            i < k <= chars@.len(),
            keys_rest_spec(chars@, k0 as int, nsv, seq![f0]) == (exprs_view(keys@), k as int),
        decreases chars@.len() - k,
    {
        match order_condition(chars, k, ns) {
            Ok((e, m)) => {
                let ghost before = keys@;
                keys.push(e);
                proof {
                    lemma_exprs_view_push(before, e);
                }
                k = m;
            },
            Err(_) => {
                break;
            },
        }
    }
    Ok((keys, k))
}

/// [26] LimitClause ::= 'LIMIT' INTEGER
fn limit_clause(chars: &Vec<char>, i: usize) -> (r: Result<(usize, usize), Fail>)
    requires
        i <= chars@.len(),
    ensures
        r matches Ok(v) ==> i < v.1 <= chars@.len(),
        match limit_spec(chars@, i as int) {
            Some(t) => r matches Ok(v) && v.0 == t.0 && v.1 == t.1,
            None => r is Err,
        },
{
    let j = keyword(chars, i, "LIMIT")?;
    let k = scan_digits(chars, j);
    if k == j {
        return Err(fail_at(j, "integer"));
    }
    let text = string_of_range(chars, j, k);
    match int_literal(text.as_str()) {
        Object::IntValue(n) => {
            if n < 0 {
                Err(fail_at(j, "integer"))
            } else {
                Ok((n as usize, ws(chars, k)))
            }
        },
        _ => Err(fail_at(j, "integer")),
    }
}

/// [6] PrefixDecl ::= 'PREFIX' PNAME_NS IRI_REF, the keyword in any case: the prefix
/// (without its colon), the path, and where the declaration ends.
pub open spec fn prefix_decl_spec(chars: Seq<char>, i: int) -> Option<((Seq<char>, Seq<char>), int)> {
    if lit_at(chars, i, "PREFIX"@, true) {
        let j = ws_spec(chars, i + "PREFIX"@.len());
        match pname_ns_spec(chars, j) {
            Some(k) => match iri_ref_spec(chars, ws_spec(chars, k)) {
                Some((path, n)) => Some(((chars.subrange(j, k - 1), path), n)),
                None => None,
            },
            None => None,
        }
    } else {
        None
    }
}

fn prefix_decl(chars: &Vec<char>, i: usize) -> (r: Result<(Namespace, usize), Fail>)
    requires
        i <= chars@.len(),
    ensures
        r matches Ok(v) ==> i < v.1 <= chars@.len(),
        match prefix_decl_spec(chars@, i as int) {
            Some(t) => r matches Ok(v) && v.0@ == t.0 && v.1 == t.1,
            None => r is Err,
        },
{
    let j = keyword(chars, i, "PREFIX")?;
    let k = match pname_ns(chars, j) {
        Some(k) => k,
        None => {
            return Err(fail_at(j, "prefix"));
        },
    };
    let prefix = string_of_range(chars, j, k - 1);
    let m = ws(chars, k);
    match iri_ref(chars, m) {
        Some((path, n)) => Ok((Namespace { prefix, path }, n)),
        None => Err(fail_at(m, "IRI")),
    }
}

/// [4] Prologue ::= PrefixDecl*: the declared (prefix, path) pairs, and where they end.
pub open spec fn prologue_spec(chars: Seq<char>, i: int) -> (Seq<(Seq<char>, Seq<char>)>, int)
    decreases chars.len() - i,
{
    match prefix_decl_spec(chars, i) {
        Some((decl, e)) => if i < e <= chars.len() {
            let rest = prologue_spec(chars, e);
            (seq![decl] + rest.0, rest.1)
        } else {
            (Seq::empty(), i)
        },
        None => (Seq::empty(), i),
    }
}

/// [2] Query ::= Prologue SelectQuery, where Prologue ::= PrefixDecl* and
/// SelectQuery ::= SelectClause 'WHERE'? GroupGraphPattern OrderClause? LimitClause?;
/// white space may lead, and nothing but white space may follow.
///
/// The namespaces are those of the PREFIX declarations that open the text, and the
/// selected names and DISTINCT are those of the SELECT clause that follows them; without
/// such a clause there the text is refused at its start.
pub fn make_parser(chars: &Vec<char>) -> (r: Result<ParsedQuery, Fail>)
    ensures
        r matches Err(f) ==> f.pos <= chars@.len(),
        match query_spec(chars@) {
            Some(pv) => r matches Ok(q) && parsed_view(q) == pv,
            None => r is Err,
        },
        ({
            let p = prologue_spec(chars@, ws_spec(chars@, 0));
            select_clause_spec(chars@, p.1) is None ==> (r matches Err(f) && f.pos == p.1)
        }),
{
    reveal(query_spec);
    let mut i = ws(chars, 0);
    let ghost start = i;
    let mut namespaces: Vec<Namespace> = Vec::new();
    proof {
        assert(ns_view(namespaces@) + prologue_spec(chars@, i as int).0 =~= prologue_spec(chars@, start as int).0);
    }
    loop
        invariant
            i <= chars@.len(),
            ns_view(namespaces@) + prologue_spec(chars@, i as int).0 == prologue_spec(chars@, start as int).0,
            prologue_spec(chars@, i as int).1 == prologue_spec(chars@, start as int).1,
        ensures
            i <= chars@.len(),
            ns_view(namespaces@) == prologue_spec(chars@, start as int).0,
            i == prologue_spec(chars@, start as int).1,
        decreases chars@.len() - i,
    {
        let ghost before = ns_view(namespaces@);
        match prefix_decl(chars, i) {
            Ok((n, j)) => {
                proof {
                    assert(prologue_spec(chars@, i as int).0 =~= seq![n@] + prologue_spec(chars@, j as int).0);
                }
                namespaces.push(n);
                proof {
                    assert(ns_view(namespaces@) =~= before.push(n@));
                    assert(before.push(n@) + prologue_spec(chars@, j as int).0 =~= before + (seq![n@] + prologue_spec(chars@, j as int).0));
                }
                i = j;
            },
            Err(_) => {
                proof {
                    assert(prologue_spec(chars@, i as int).0 =~= Seq::<(Seq<char>, Seq<char>)>::empty());
                    assert(before + Seq::<(Seq<char>, Seq<char>)>::empty() =~= before);
                }
                break;
            },
        }
    }
    let (names, distinct, j) = match select_clause(chars, i) {
        Ok(v) => v,
        Err(f) => {
            return Err(fail_at(i, "PREFIX or SELECT"));
        },
    };
    let k = match keyword(chars, j, "WHERE") {
        Ok(k) => k,
        Err(_) => j,
    };
    let (algebra, m) = match group_graph_pattern(chars, k, &namespaces) {
        Ok(v) => v,
        Err(f) => {
            return Err(if f.pos <= chars.len() { f } else { fail_at(k, "group") });
        },
    };
    let (order_by, n) = match order_clause(chars, m, &namespaces) {
        Ok(v) => v,
        Err(_) => {
            let none: Vec<Expr> = Vec::new();
            assert(exprs_view(none@) =~= Seq::<ExprV>::empty());
            (none, m)
        },
    };
    let (limit, p) = match limit_clause(chars, n) {
        Ok((l, p)) => (Some(l), p),
        Err(_) => (None, n),
    };
    if p < chars.len() {
        return Err(fail_at(p, "end of query"));
    }
    Ok(ParsedQuery { namespaces, names, distinct, algebra, order_by, limit })
}

/// The line and column (both from 1) of a position in the text.
pub open spec fn line_col(chars: Seq<char>, pos: int) -> (int, int)
    decreases pos,
{
    if pos <= 0 {
        (1, 1)
    } else {
        let (l, c) = line_col(chars, pos - 1);
        if chars[pos - 1] == '\n' { (l + 1, 1) } else { (l, c + 1) }
    }
}

fn position_of(chars: &Vec<char>, pos: usize) -> (r: (u64, u64))
    requires
        pos <= chars@.len(),
        chars@.len() < u64::MAX,
    ensures
        r.0 as int == line_col(chars@, pos as int).0,
        r.1 as int == line_col(chars@, pos as int).1,
{
    let mut line: u64 = 1;
    let mut col: u64 = 1;
    let mut k: usize = 0;
    while k < pos
        invariant
            k <= pos <= chars@.len() < u64::MAX,
            line as int == line_col(chars@, k as int).0,
            col as int == line_col(chars@, k as int).1,
            1 <= line <= k + 1,
            1 <= col <= k + 1,
        decreases pos - k,
    {
        if chars[k] == '\n' {
            line += 1;
            col = 1;
        } else {
            col += 1;
        }
        k += 1;
    }
    (line, col)
}

/// The text of a parse failure: what was expected, and where ("... on line L col C").
pub fn failure_message(chars: &Vec<char>, f: &Fail) -> (r: String)
    requires
        f.pos <= chars@.len(),
    ensures
        chars@.len() < u64::MAX ==> r@ == f.expected@ + " on line "@
            + nat_digits(line_col(chars@, f.pos as int).0 as nat) + " col "@
            + nat_digits(line_col(chars@, f.pos as int).1 as nat),
{
    if chars.len() as u64 == u64::MAX {
        return f.expected.clone();
    }
    let (line, col) = position_of(chars, f.pos);
    let b = concat_str(f.expected.as_str(), " on line ");
    let c = concat_str(b.as_str(), nat_to_string(line).as_str());
    let d = concat_str(c.as_str(), " col ");
    concat_str(d.as_str(), nat_to_string(col).as_str())
}

/// Compiles a query: a parse error as text ("... on line L col C"), or the
/// selector that `build_parser` makes of the parsed query.
///
/// The text is refused when it is not a query of the grammar (`query_spec`), and when its
/// SELECT clause names a variable twice; else the selector selects the clause's variables,
/// in order, is DISTINCT when the clause is, and evaluates the query's algebra (its IRIs
/// expanded with the PREFIX namespaces), ORDER BY keys and LIMIT.
pub fn compile(text: &str) -> (r: Result<Selector, String>)
    ensures
        r matches Ok(sel) ==> sel.wf(),
        match query_spec(text@) {
            None => r is Err,
            Some(pv) => {
                &&& (exists|x: Seq<char>| occurs_twice(pv.names, x)) <==> r is Err
                &&& r matches Err(e) ==> exists|d: Seq<Seq<char>>| {
                    &&& strictly_sorted(d)
                    &&& (forall|x: Seq<char>| d.contains(x) <==> occurs_twice(pv.names, x))
                    &&& e@ == "Select clause has duplicates: "@ + join_spaces(d)
                }
                &&& r matches Ok(sel) ==> {
                    &&& sel.context.distinct == pv.distinct
                    &&& pv.names != seq!["*"@] ==> sel.num_selected == pv.names.len()
                        && names_view(sel.bindings@).take(pv.names.len() as int) == pv.names
                    &&& pv.names == seq!["*"@] ==> sel.num_selected == sel.bindings@.len()
                    &&& algebra_view(sel.context.algebra) == if pv.namespaces.len() > 0 {
                        expand_algebra_view(pv.namespaces, pv.algebra)
                    } else {
                        pv.algebra
                    }
                    &&& exprs_view(sel.context.order_by@) == pv.order_by
                    &&& sel.context.limit == pv.limit
                }
            },
        },
{
    let chars = chars_of(text);
    match make_parser(&chars) {
        Ok(q) => {
            let ghost q0 = q;
            let ghost names = names_view(q.names@);
            let ghost star = q.names@.len() == 1 && q.names@[0]@ == "*"@;
            proof {
                if star {
                    assert(names =~= seq!["*"@]);
                }
                assert(names.len() == q.names@.len());
                if names == seq!["*"@] {
                    assert(names[0] == q.names@[0]@);
                }
                assert(star <==> names == seq!["*"@]);
            }
            let r = build_parser(q);
            proof {
                assert(query_spec(text@) == Some(parsed_view(q0)));
                let pv = parsed_view(q0);
                assert(pv.names == names);
                if r is Err {
                    assert(exists|x: Seq<char>| occurs_twice(pv.names, x));
                } else {
                    assert(forall|x: Seq<char>| !occurs_twice(pv.names, x));
                }
                assert(ns_view(q0.namespaces@).len() == q0.namespaces@.len());
                if r is Ok {
                    let sel = r->Ok_0;
                    if q0.namespaces@.len() > 0 {
                        lemma_expanded_algebra_view(ns_view(q0.namespaces@), q0.algebra, sel.context.algebra);
                    }
                    assert(exprs_view(sel.context.order_by@) == exprs_view(q0.order_by@));
                }
            }
            r
        },
        Err(f) => Err(failure_message(&chars, &f)),
    }
}

} // verus!
