//! The structural order of values and rows: without NaN values it is a strict weak order
//! whose ties are structural equality, so DISTINCT keeps one row for each combination of
//! selected values.
use vstd::prelude::*;
use crate::object::{Term, float_lt, float_eq, float_is_nan, float_is_zero, float_magnitude, float_sign_bit};
use crate::operators::lemma_seq_order_eq;
use crate::sparql::lemma_seq_order_antisymmetric;
use crate::text::seq_order;
use crate::query::{
    term_lt, text_lt, pair_lt, fields_lt, datetime_fields, kind_index, term_same, row_lt, same_prefix,
    ins_struct, sort_struct, next_distinct, dedup_from, distinct_rows, lemma_next_distinct,
};

verus! {

// ---- Texts --------------------------------------------------------------------------------

proof fn lemma_seq_order_trans(a: Seq<char>, b: Seq<char>, c: Seq<char>)
    requires
        seq_order(a, b) < 0,
        seq_order(b, c) < 0,
    ensures
        seq_order(a, c) < 0,
    decreases a.len(),
{
    if a.len() > 0 && b.len() > 0 && c.len() > 0 && a[0] == b[0] && b[0] == c[0] {
        lemma_seq_order_trans(a.drop_first(), b.drop_first(), c.drop_first());
    }
}

proof fn lemma_text_total(a: Seq<char>, b: Seq<char>)
    ensures
        text_lt(a, b) || text_lt(b, a) || a == b,
        !(text_lt(a, b) && text_lt(b, a)),
        a == b ==> !text_lt(a, b),
{
    lemma_seq_order_eq(a, b);
    lemma_seq_order_antisymmetric(a, b);
}

proof fn lemma_text_trans(a: Seq<char>, b: Seq<char>, c: Seq<char>)
    requires
        text_lt(a, b),
        text_lt(b, c),
    ensures
        text_lt(a, c),
{
    lemma_seq_order_trans(a, b, c);
}

proof fn lemma_pair_total(a: (Seq<char>, Seq<char>), b: (Seq<char>, Seq<char>))
    ensures
        pair_lt(a, b) || pair_lt(b, a) || a == b,
        !(pair_lt(a, b) && pair_lt(b, a)),
        a == b ==> !pair_lt(a, b),
{
    lemma_text_total(a.0, b.0);
    lemma_text_total(a.1, b.1);
}

proof fn lemma_pair_trans(a: (Seq<char>, Seq<char>), b: (Seq<char>, Seq<char>), c: (Seq<char>, Seq<char>))
    requires
        pair_lt(a, b),
        pair_lt(b, c),
    ensures
        pair_lt(a, c),
{
    lemma_text_total(a.0, b.0);
    lemma_text_total(b.0, c.0);
    lemma_text_total(a.0, c.0);
    if text_lt(a.0, b.0) && text_lt(b.0, c.0) {
        lemma_text_trans(a.0, b.0, c.0);
    } else if text_lt(a.0, b.0) {
        assert(b.0 == c.0);
    } else if text_lt(b.0, c.0) {
        assert(a.0 == b.0);
    } else {
        assert(a.0 == b.0 && b.0 == c.0);
        lemma_text_trans(a.1, b.1, c.1);
    }
}

// ---- Date and time fields -----------------------------------------------------------------

proof fn lemma_fields_total(a: Seq<int>, b: Seq<int>)
    requires
        a.len() == b.len(),
    ensures
        fields_lt(a, b) || fields_lt(b, a) || a == b,
        !(fields_lt(a, b) && fields_lt(b, a)),
        a == b ==> !fields_lt(a, b),
    decreases a.len(),
{
    if a.len() > 0 && a[0] == b[0] {
        lemma_fields_total(a.drop_first(), b.drop_first());
        if a.drop_first() == b.drop_first() {
            assert(a =~= seq![a[0]] + a.drop_first());
            assert(b =~= seq![b[0]] + b.drop_first());
        }
    } else if a.len() == 0 {
        assert(a =~= b);
    }
}

proof fn lemma_fields_trans(a: Seq<int>, b: Seq<int>, c: Seq<int>)
    requires
        fields_lt(a, b),
        fields_lt(b, c),
    ensures
        fields_lt(a, c),
    decreases a.len(),
{
    if a.len() > 0 && b.len() > 0 && c.len() > 0 && a[0] == b[0] && b[0] == c[0] {
        lemma_fields_trans(a.drop_first(), b.drop_first(), c.drop_first());
    }
}

// ---- Binary64 values ----------------------------------------------------------------------

proof fn lemma_float_total(a: u64, b: u64)
    requires
        !float_is_nan(a),
        !float_is_nan(b),
    ensures
        float_lt(a, b) || float_lt(b, a) || float_eq(a, b),
        !(float_lt(a, b) && float_lt(b, a)),
        float_eq(a, b) ==> !float_lt(a, b),
{
    if float_sign_bit(a) == float_sign_bit(b) && float_magnitude(a) == float_magnitude(b) {
        assert((a as int) == (b as int)) by {
            assert(float_sign_bit(a) ==> (a as int) == 0x8000_0000_0000_0000 + float_magnitude(a));
            assert(!float_sign_bit(a) ==> (a as int) == float_magnitude(a));
            assert(float_sign_bit(b) ==> (b as int) == 0x8000_0000_0000_0000 + float_magnitude(b));
            assert(!float_sign_bit(b) ==> (b as int) == float_magnitude(b));
        }
    }
}

proof fn lemma_float_trans(a: u64, b: u64, c: u64)
    requires
        float_lt(a, b),
        float_lt(b, c),
    ensures
        float_lt(a, c),
{
}

proof fn lemma_float_same_lt(a: u64, b: u64, c: u64)
    requires
        float_eq(a, b),
    ensures
        float_lt(b, c) ==> float_lt(a, c),
        float_lt(c, b) ==> float_lt(c, a),
        float_eq(b, c) ==> float_eq(a, c),
{
}

// ---- Values -------------------------------------------------------------------------------

/// A value that is not a NaN.
pub open spec fn term_ordered(t: Term) -> bool {
    !(t matches Term::Float(x) && float_is_nan(x))
}

proof fn lemma_term_total(a: Term, b: Term)
    requires
        term_ordered(a),
        term_ordered(b),
    ensures
        term_lt(a, b) || term_lt(b, a) || term_same(a, b),
        !(term_lt(a, b) && term_lt(b, a)),
        term_same(a, b) ==> !term_lt(a, b),
{
    if kind_index(a) == kind_index(b) {
        match (a, b) {
            (Term::Float(x), Term::Float(y)) => lemma_float_total(x, y),
            (Term::DateTime(x), Term::DateTime(y)) => {
                lemma_fields_total(datetime_fields(x), datetime_fields(y));
                if datetime_fields(x) == datetime_fields(y) {
                    assert(datetime_fields(x)[0] == datetime_fields(y)[0]);
                    assert(datetime_fields(x)[1] == datetime_fields(y)[1]);
                    assert(datetime_fields(x)[2] == datetime_fields(y)[2]);
                    assert(datetime_fields(x)[3] == datetime_fields(y)[3]);
                    assert(datetime_fields(x)[4] == datetime_fields(y)[4]);
                    assert(datetime_fields(x)[5] == datetime_fields(y)[5]);
                    assert(datetime_fields(x)[6] == datetime_fields(y)[6]);
                    assert(datetime_fields(x)[7] == datetime_fields(y)[7]);
                    assert(datetime_fields(x)[8] == datetime_fields(y)[8]);
                    assert(datetime_fields(x)[9] == datetime_fields(y)[9]);
                    assert(datetime_fields(x)[10] == datetime_fields(y)[10]);
                    assert(x == y);
                }
            },
            (Term::Str(v1, l1), Term::Str(v2, l2)) => lemma_pair_total((v1, l1), (v2, l2)),
            (Term::Typed(v1, k1), Term::Typed(v2, k2)) => lemma_pair_total((v1, k1), (v2, k2)),
            (Term::Iri(x), Term::Iri(y)) => lemma_text_total(x, y),
            (Term::Blank(x), Term::Blank(y)) => lemma_text_total(x, y),
            (Term::Unbound(x), Term::Unbound(y)) => lemma_text_total(x, y),
            (Term::Invalid(v1, k1), Term::Invalid(v2, k2)) => lemma_pair_total((v1, k1), (v2, k2)),
            (Term::Error(x), Term::Error(y)) => lemma_text_total(x, y),
            _ => {},
        }
    }
}

proof fn lemma_term_trans(a: Term, b: Term, c: Term)
    requires
        term_lt(a, b),
        term_lt(b, c),
    ensures
        term_lt(a, c),
{
    if kind_index(a) == kind_index(b) && kind_index(b) == kind_index(c) {
        match (a, b, c) {
            (Term::Float(x), Term::Float(y), Term::Float(z)) => lemma_float_trans(x, y, z),
            (Term::DateTime(x), Term::DateTime(y), Term::DateTime(z)) =>
                lemma_fields_trans(datetime_fields(x), datetime_fields(y), datetime_fields(z)),
            (Term::Str(v1, l1), Term::Str(v2, l2), Term::Str(v3, l3)) => lemma_pair_trans((v1, l1), (v2, l2), (v3, l3)),
            (Term::Typed(v1, l1), Term::Typed(v2, l2), Term::Typed(v3, l3)) => lemma_pair_trans((v1, l1), (v2, l2), (v3, l3)),
            (Term::Iri(x), Term::Iri(y), Term::Iri(z)) => lemma_text_trans(x, y, z),
            (Term::Blank(x), Term::Blank(y), Term::Blank(z)) => lemma_text_trans(x, y, z),
            (Term::Unbound(x), Term::Unbound(y), Term::Unbound(z)) => lemma_text_trans(x, y, z),
            (Term::Invalid(v1, l1), Term::Invalid(v2, l2), Term::Invalid(v3, l3)) => lemma_pair_trans((v1, l1), (v2, l2), (v3, l3)),
            (Term::Error(x), Term::Error(y), Term::Error(z)) => lemma_text_trans(x, y, z),
            _ => {},
        }
    }
}

proof fn lemma_term_same(a: Term, b: Term, c: Term)
    requires
        term_same(a, b),
    ensures
        term_same(b, a),
        term_lt(b, c) ==> term_lt(a, c),
        term_lt(c, b) ==> term_lt(c, a),
        term_same(b, c) ==> term_same(a, c),
        kind_index(a) == kind_index(b),
{
    match (a, b, c) {
        (Term::Float(x), Term::Float(y), Term::Float(z)) => lemma_float_same_lt(x, y, z),
        _ => {},
    }
}

// ---- Rows ---------------------------------------------------------------------------------

/// A row without NaN values.
pub open spec fn row_ordered(r: Seq<Term>) -> bool {
    forall|j: int| 0 <= j < r.len() ==> term_ordered(#[trigger] r[j])
}

/// Rows without NaN values, each with at least `n` values.
pub open spec fn rows_ordered(n: int, rows: Seq<Seq<Term>>) -> bool {
    forall|i: int| 0 <= i < rows.len() ==> row_ordered(#[trigger] rows[i]) && n <= rows[i].len()
}

/// Rows in structural order: none sorts before an earlier one.
pub open spec fn rows_sorted(s: Seq<Seq<Term>>) -> bool {
    forall|i: int, j: int| 0 <= i < j < s.len() ==> !row_lt(#[trigger] s[j], #[trigger] s[i])
}

proof fn lemma_tail_ordered(r: Seq<Term>)
    requires
        row_ordered(r),
        r.len() > 0,
    ensures
        row_ordered(r.drop_first()),
        term_ordered(r[0]),
{
    assert forall|j: int| 0 <= j < r.drop_first().len() implies term_ordered(#[trigger] r.drop_first()[j]) by {
        assert(r.drop_first()[j] == r[j + 1]);
    }
}

proof fn lemma_row_asym(a: Seq<Term>, b: Seq<Term>)
    requires
        row_ordered(a),
        row_ordered(b),
    ensures
        !(row_lt(a, b) && row_lt(b, a)),
    decreases a.len(),
{
    if a.len() > 0 && b.len() > 0 {
        lemma_tail_ordered(a);
        lemma_tail_ordered(b);
        lemma_term_total(a[0], b[0]);
        lemma_row_asym(a.drop_first(), b.drop_first());
    }
}

/// If `a` sorts before `c`, then `b` sorts after `a` or before `c`.
proof fn lemma_row_split(a: Seq<Term>, b: Seq<Term>, c: Seq<Term>)
    requires
        row_ordered(a),
        row_ordered(b),
        row_ordered(c),
        row_lt(a, c),
    ensures
        row_lt(a, b) || row_lt(b, c),
    decreases a.len(),
{
    if a.len() > 0 && b.len() > 0 && c.len() > 0 {
        lemma_tail_ordered(a);
        lemma_tail_ordered(b);
        lemma_tail_ordered(c);
        let (x, y, z) = (a[0], b[0], c[0]);
        lemma_term_total(x, y);
        lemma_term_total(y, z);
        lemma_term_total(x, z);
        if term_lt(x, z) {
            if term_lt(y, x) {
                lemma_term_trans(y, x, z);
            } else if term_same(x, y) {
                lemma_term_same(y, x, z);
                lemma_term_same(x, y, z);
            }
        } else {
            assert(term_same(x, z));
            if term_lt(y, x) {
                lemma_term_same(x, z, y);
                lemma_term_same(z, x, y);
            } else if term_same(x, y) {
                lemma_term_same(x, y, z);
                lemma_term_same(y, x, z);
                lemma_term_total(y, z);
                lemma_row_split(a.drop_first(), b.drop_first(), c.drop_first());
            }
        }
    }
}

proof fn lemma_ins_struct(sorted: Seq<Seq<Term>>, x: Seq<Term>)
    requires
        rows_sorted(sorted),
        forall|i: int| 0 <= i < sorted.len() ==> row_ordered(#[trigger] sorted[i]),
        row_ordered(x),
    ensures
        rows_sorted(ins_struct(sorted, x)),
        ins_struct(sorted, x).len() == sorted.len() + 1,
        forall|k: int| 0 <= k < ins_struct(sorted, x).len() ==>
            (#[trigger] ins_struct(sorted, x)[k] == x || sorted.contains(ins_struct(sorted, x)[k])),
        forall|y: Seq<Term>| sorted.contains(y) ==> ins_struct(sorted, x).contains(y),
        ins_struct(sorted, x).contains(x),
    decreases sorted.len(),
{
    let r = ins_struct(sorted, x);
    if sorted.len() == 0 {
        assert(r[0] == x);
    } else {
        let last = sorted.last();
        let front = sorted.drop_last();
        if !row_lt(x, last) {
            assert forall|i: int, j: int| 0 <= i < j < r.len() implies !row_lt(#[trigger] r[j], #[trigger] r[i]) by {
                if j == sorted.len() {
                    if i < sorted.len() - 1 {
                        if row_lt(x, sorted[i]) {
                            lemma_row_split(x, last, sorted[i]);
                        }
                    }
                }
            }
            assert(r[sorted.len() as int] == x);
            assert forall|y: Seq<Term>| sorted.contains(y) implies r.contains(y) by {
                let k = choose|k: int| 0 <= k < sorted.len() && sorted[k] == y;
                assert(r[k] == y);
            }
        } else {
            assert forall|i: int, j: int| 0 <= i < j < front.len() implies !row_lt(#[trigger] front[j], #[trigger] front[i]) by {
                assert(front[i] == sorted[i] && front[j] == sorted[j]);
            }
            assert forall|i: int| 0 <= i < front.len() implies row_ordered(#[trigger] front[i]) by {
                assert(front[i] == sorted[i]);
            }
            lemma_ins_struct(front, x);
            let m = ins_struct(front, x);
            assert(r == m.push(last));
            lemma_row_asym(x, last);
            assert forall|i: int, j: int| 0 <= i < j < r.len() implies !row_lt(#[trigger] r[j], #[trigger] r[i]) by {
                if j == r.len() - 1 {
                    assert(r[j] == last);
                    assert(r[i] == m[i]);
                    if m[i] != x {
                        let k = choose|k: int| 0 <= k < front.len() && front[k] == m[i];
                        assert(sorted[k] == front[k]);
                    }
                } else {
                    assert(r[i] == m[i] && r[j] == m[j]);
                }
            }
            assert forall|k: int| 0 <= k < r.len() implies (#[trigger] r[k] == x || sorted.contains(r[k])) by {
                if k < m.len() {
                    assert(r[k] == m[k]);
                    if m[k] != x {
                        let q = choose|q: int| 0 <= q < front.len() && front[q] == m[k];
                        assert(sorted[q] == m[k]);
                    }
                } else {
                    assert(sorted[sorted.len() - 1] == r[k]);
                }
            }
            assert forall|y: Seq<Term>| sorted.contains(y) implies r.contains(y) by {
                let k = choose|k: int| 0 <= k < sorted.len() && sorted[k] == y;
                if k == sorted.len() - 1 {
                    assert(r[r.len() - 1] == y);
                } else {
                    assert(front[k] == y);
                    assert(front.contains(y));
                    assert(m.contains(y));
                    let q = choose|q: int| 0 <= q < m.len() && m[q] == y;
                    assert(r[q] == y);
                }
            }
            let q = choose|q: int| 0 <= q < m.len() && m[q] == x;
            assert(r[q] == x);
        }
    }
}

proof fn lemma_sort_struct(rows: Seq<Seq<Term>>)
    requires
        forall|i: int| 0 <= i < rows.len() ==> row_ordered(#[trigger] rows[i]),
    ensures
        rows_sorted(sort_struct(rows)),
        sort_struct(rows).len() == rows.len(),
        forall|k: int| 0 <= k < sort_struct(rows).len() ==> rows.contains(#[trigger] sort_struct(rows)[k]),
        forall|y: Seq<Term>| rows.contains(y) ==> sort_struct(rows).contains(y),
    decreases rows.len(),
{
    if rows.len() > 0 {
        let front = rows.drop_last();
        assert forall|i: int| 0 <= i < front.len() implies row_ordered(#[trigger] front[i]) by {
            assert(front[i] == rows[i]);
        }
        lemma_sort_struct(front);
        let s = sort_struct(front);
        assert forall|i: int| 0 <= i < s.len() implies row_ordered(#[trigger] s[i]) by {
            let k = choose|k: int| 0 <= k < front.len() && front[k] == s[i];
            assert(front[k] == rows[k]);
        }
        lemma_ins_struct(s, rows.last());
        let r = sort_struct(rows);
        assert forall|k: int| 0 <= k < r.len() implies rows.contains(#[trigger] r[k]) by {
            if r[k] != rows.last() {
                let q = choose|q: int| 0 <= q < s.len() && s[q] == r[k];
                let q2 = choose|q2: int| 0 <= q2 < front.len() && front[q2] == s[q];
                assert(rows[q2] == r[k]);
            } else {
                assert(rows[rows.len() - 1] == r[k]);
            }
        }
        assert forall|y: Seq<Term>| rows.contains(y) implies r.contains(y) by {
            let k = choose|k: int| 0 <= k < rows.len() && rows[k] == y;
            if k < rows.len() - 1 {
                assert(front[k] == y);
                assert(front.contains(y));
                assert(s.contains(y));
            }
        }
    }
}

/// Between two rows that agree on their first `n` values, a row in structural order agrees
/// with them too.
proof fn lemma_between(n: int, x: Seq<Term>, y: Seq<Term>, z: Seq<Term>)
    requires
        0 <= n <= x.len(),
        n <= y.len(),
        n <= z.len(),
        row_ordered(x),
        row_ordered(y),
        row_ordered(z),
        !row_lt(y, x),
        !row_lt(z, y),
        same_prefix(n, x, z),
    ensures
        same_prefix(n, x, y),
    decreases n,
{
    if n > 0 {
        lemma_tail_ordered(x);
        lemma_tail_ordered(y);
        lemma_tail_ordered(z);
        let (a, b, c) = (x[0], y[0], z[0]);
        assert(term_same(a, c));
        lemma_term_total(a, b);
        lemma_term_total(b, c);
        lemma_term_same(a, c, b);
        lemma_term_same(c, a, b);
        assert(term_same(a, b));
        lemma_term_same(a, b, c);
        lemma_term_same(b, a, c);
        lemma_term_total(b, a);
        lemma_term_total(c, b);
        assert(same_prefix(n - 1, x.drop_first(), z.drop_first())) by {
            assert forall|i: int| 0 <= i < n - 1 implies term_same(#[trigger] x.drop_first()[i], z.drop_first()[i]) by {
                assert(x.drop_first()[i] == x[i + 1]);
                assert(z.drop_first()[i] == z[i + 1]);
            }
        }
        lemma_between(n - 1, x.drop_first(), y.drop_first(), z.drop_first());
        assert forall|i: int| 0 <= i < n implies term_same(#[trigger] x[i], y[i]) by {
            if i > 0 {
                assert(x.drop_first()[i - 1] == x[i]);
                assert(y.drop_first()[i - 1] == y[i]);
            }
        }
    }
}

/// `next_distinct` passes over rows that agree with `first` and stops at one that does not.
proof fn lemma_next_distinct_stops(n: int, first: Seq<Term>, rows: Seq<Seq<Term>>, i: int)
    requires
        0 <= i <= rows.len(),
    ensures
        i <= next_distinct(n, first, rows, i) <= rows.len(),
        forall|t: int| i <= t < next_distinct(n, first, rows, i) ==> same_prefix(n, first, #[trigger] rows[t]),
        next_distinct(n, first, rows, i) < rows.len() ==> !same_prefix(n, first, rows[next_distinct(n, first, rows, i)]),
    decreases rows.len() - i,
{
    if i < rows.len() && same_prefix(n, first, rows[i]) {
        lemma_next_distinct_stops(n, first, rows, i + 1);
    }
}

proof fn lemma_same_prefix_refl(n: int, r: Seq<Term>)
    requires
        row_ordered(r),
        n <= r.len(),
    ensures
        same_prefix(n, r, r),
{
    assert forall|i: int| 0 <= i < n implies term_same(#[trigger] r[i], r[i]) by {
        assert(term_ordered(r[i]));
    }
}

/// The first row, then the rest from where `next_distinct` stops.
proof fn lemma_dedup_unfold(n: int, s: Seq<Seq<Term>>, i: int)
    requires
        0 <= i < s.len(),
    ensures
        i + 1 <= next_distinct(n, s[i], s, i + 1) <= s.len(),
        dedup_from(n, s, i) == seq![s[i]] + dedup_from(n, s, next_distinct(n, s[i], s, i + 1)),
{
    lemma_next_distinct_stops(n, s[i], s, i + 1);
}

/// The rows kept from `i` on are rows at `i` or later.
proof fn lemma_dedup_elems(n: int, s: Seq<Seq<Term>>, i: int)
    requires
        0 <= i,
    ensures
        forall|k: int| 0 <= k < dedup_from(n, s, i).len() ==>
            exists|q: int| i <= q < s.len() && #[trigger] dedup_from(n, s, i)[k] == s[q],
    decreases s.len() - i,
{
    if i < s.len() {
        lemma_dedup_unfold(n, s, i);
        let j = next_distinct(n, s[i], s, i + 1);
        lemma_dedup_elems(n, s, j);
        let d = dedup_from(n, s, i);
        let rest = dedup_from(n, s, j);
        assert forall|k: int| 0 <= k < d.len() implies exists|q: int| i <= q < s.len() && #[trigger] d[k] == s[q] by {
            if k == 0 {
                assert(d[0] == s[i]);
            } else {
                assert(d[k] == rest[k - 1]);
                let q = choose|q: int| j <= q < s.len() && rest[k - 1] == s[q];
                assert(d[k] == s[q]);
            }
        }
    }
}

/// No two kept rows agree on the first `n` values.
#[verifier::spinoff_prover]
proof fn lemma_dedup_unique(n: int, s: Seq<Seq<Term>>, i: int)
    requires
        0 <= n,
        0 <= i,
        rows_sorted(s),
        rows_ordered(n, s),
    ensures
        forall|a: int, b: int| 0 <= a < b < dedup_from(n, s, i).len() ==>
            !same_prefix(n, #[trigger] dedup_from(n, s, i)[a], #[trigger] dedup_from(n, s, i)[b]),
    decreases s.len() - i,
{
    if i < s.len() {
        lemma_dedup_unfold(n, s, i);
        lemma_next_distinct_stops(n, s[i], s, i + 1);
        let j = next_distinct(n, s[i], s, i + 1);
        lemma_dedup_unique(n, s, j);
        lemma_dedup_elems(n, s, j);
        let d = dedup_from(n, s, i);
        let rest = dedup_from(n, s, j);
        assert forall|a: int, b: int| 0 <= a < b < d.len() implies !same_prefix(n, #[trigger] d[a], #[trigger] d[b]) by {
            if a == 0 {
                assert(d[b] == rest[b - 1]);
                let q = choose|q: int| j <= q < s.len() && rest[b - 1] == s[q];
                if same_prefix(n, s[i], s[q]) && q > j {
                    assert(!row_lt(s[j], s[i]));
                    assert(!row_lt(s[q], s[j]));
                    assert(row_ordered(s[i]) && n <= s[i].len());
                    assert(row_ordered(s[j]) && n <= s[j].len());
                    assert(row_ordered(s[q]) && n <= s[q].len());
                    lemma_between(n, s[i], s[j], s[q]);
                }
            } else {
                assert(d[a] == rest[a - 1] && d[b] == rest[b - 1]);
            }
        }
    }
}

/// Every row at `i` or later agrees with a kept row on the first `n` values.
#[verifier::spinoff_prover]
proof fn lemma_dedup_cover(n: int, s: Seq<Seq<Term>>, i: int)
    requires
        0 <= n,
        0 <= i,
        rows_ordered(n, s),
    ensures
        forall|q: int| i <= q < s.len() ==>
            exists|k: int| 0 <= k < dedup_from(n, s, i).len() && same_prefix(n, #[trigger] dedup_from(n, s, i)[k], #[trigger] s[q]),
    decreases s.len() - i,
{
    if i < s.len() {
        lemma_dedup_unfold(n, s, i);
        lemma_next_distinct_stops(n, s[i], s, i + 1);
        let j = next_distinct(n, s[i], s, i + 1);
        lemma_dedup_cover(n, s, j);
        let d = dedup_from(n, s, i);
        let rest = dedup_from(n, s, j);
        assert forall|q: int| i <= q < s.len() implies
            exists|k: int| 0 <= k < d.len() && same_prefix(n, #[trigger] d[k], #[trigger] s[q]) by {
            if q < j {
                if q == i {
                    assert(row_ordered(s[i]) && n <= s[i].len());
                    lemma_same_prefix_refl(n, s[i]);
                }
                assert(d[0] == s[i]);
                assert(same_prefix(n, d[0], s[q]));
            } else {
                let k = choose|k: int| 0 <= k < rest.len() && same_prefix(n, #[trigger] rest[k], #[trigger] s[q]);
                assert(d[k + 1] == rest[k]);
            }
        }
    }
}

/// The sorted rows are rows without NaN values, each with at least `n` values.
proof fn lemma_sorted_rows_ordered(n: int, rows: Seq<Seq<Term>>)
    requires
        rows_ordered(n, rows),
        forall|k: int| 0 <= k < sort_struct(rows).len() ==> rows.contains(#[trigger] sort_struct(rows)[k]),
    ensures
        rows_ordered(n, sort_struct(rows)),
{
    let s = sort_struct(rows);
    assert forall|i: int| 0 <= i < s.len() implies row_ordered(#[trigger] s[i]) && n <= s[i].len() by {
        assert(rows.contains(s[i]));
        let q = choose|q: int| 0 <= q < rows.len() && rows[q] == s[i];
        assert(row_ordered(rows[q]) && n <= rows[q].len());
    }
}

/// DISTINCT keeps, of rows without NaN values, exactly one for each combination of
/// selected values: no two of the rows it keeps agree on the first `n` values, each kept
/// row is one of the given rows, and each given row agrees with a kept one.
#[verifier::spinoff_prover]
pub proof fn law_distinct_rows(n: int, rows: Seq<Seq<Term>>)
    requires
        0 <= n,
        rows_ordered(n, rows),
    ensures
        forall|a: int, b: int| 0 <= a < b < distinct_rows(n, rows).len() ==>
            !same_prefix(n, #[trigger] distinct_rows(n, rows)[a], #[trigger] distinct_rows(n, rows)[b]),
        forall|k: int| 0 <= k < distinct_rows(n, rows).len() ==> rows.contains(#[trigger] distinct_rows(n, rows)[k]),
        forall|q: int| 0 <= q < rows.len() ==>
            exists|k: int| 0 <= k < distinct_rows(n, rows).len() && same_prefix(n, #[trigger] distinct_rows(n, rows)[k], #[trigger] rows[q]),
{
    let s = sort_struct(rows);
    assert(forall|i: int| 0 <= i < rows.len() ==> row_ordered(#[trigger] rows[i]));
    lemma_sort_struct(rows);
    lemma_sorted_rows_ordered(n, rows);
    lemma_dedup_unique(n, s, 0);
    lemma_dedup_elems(n, s, 0);
    lemma_dedup_cover(n, s, 0);
    let d = dedup_from(n, s, 0);
    assert(d == distinct_rows(n, rows));
    assert forall|k: int| 0 <= k < d.len() implies rows.contains(#[trigger] d[k]) by {
        let q = choose|q: int| 0 <= q < s.len() && #[trigger] d[k] == s[q];
        assert(rows.contains(s[q]));
    }
    assert forall|q: int| 0 <= q < rows.len() implies
        exists|k: int| 0 <= k < d.len() && same_prefix(n, #[trigger] d[k], #[trigger] rows[q]) by {
        assert(rows.contains(rows[q]));
        assert(s.contains(rows[q]));
        let p = choose|p: int| 0 <= p < s.len() && s[p] == rows[q];
        let k = choose|k: int| 0 <= k < d.len() && same_prefix(n, #[trigger] d[k], #[trigger] s[p]);
    }
}

} // verus!
