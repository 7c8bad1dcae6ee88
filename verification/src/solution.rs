//! The result of a SPARQL query.
use vstd::prelude::*;
use crate::namespace::{Namespace, ns_view};
use crate::object::{Object, Term, terms, term_friendly};
use crate::operators::{compare_spec, compare_values};
use crate::text::{concat_str, nat_to_string, nat_digits, str_eq};

verus! {

/// Result of matching a triple with a SPARQL query: one value per binding.
pub type SolutionRow = Vec<Object>;

/// Result of a SPARQL query.
///
/// Bindings contains the names of variables for each row. The order of the names
/// will match the order in the SELECT clause. To allow for faster query execution
/// there may be more bindings than those listed in the SELECT clause.
pub struct Solution {
    pub namespaces: Vec<Namespace>,
    pub bindings: Vec<String>,
    pub num_selected: usize,
    pub rows: Vec<SolutionRow>,
}

/// The views of a list of names.
pub open spec fn names_view(s: Seq<String>) -> Seq<Seq<char>> {
    s.map_values(|x: String| x@)
}

/// The views of a list of rows.
pub open spec fn rows_view(s: Seq<SolutionRow>) -> Seq<Seq<Term>> {
    s.map_values(|r: SolutionRow| terms(r@))
}

/// The first position of a name, if any.
pub open spec fn position_of(s: Seq<Seq<char>>, x: Seq<char>) -> Option<int>
    decreases s.len(),
{
    if s.len() == 0 {
        None
    } else if s[0] == x {
        Some(0)
    } else {
        match position_of(s.drop_first(), x) {
            Some(i) => Some(i + 1),
            None => None,
        }
    }
}

pub proof fn lemma_position_of(s: Seq<Seq<char>>, x: Seq<char>)
    ensures
        match position_of(s, x) {
            Some(i) => 0 <= i < s.len() && s[i] == x && forall|k: int| 0 <= k < i ==> s[k] != x,
            None => forall|k: int| 0 <= k < s.len() ==> s[k] != x,
        },
    decreases s.len(),
{
    if s.len() > 0 && s[0] != x {
        lemma_position_of(s.drop_first(), x);
        assert forall|k: int| 1 <= k < s.len() implies s[k] == s.drop_first()[k - 1] by {}
    }
}

/// The position of the first name equal to `name`.
pub fn find_name(names: &Vec<String>, name: &str) -> (r: Option<usize>)
    ensures
        match r {
            Some(i) => position_of(names_view(names@), name@) == Some(i as int) && i < names@.len(),
            None => position_of(names_view(names@), name@) is None,
        },
{
    let ghost s = names_view(names@);
    proof {
        lemma_position_of(s, name@);
    }
    let mut i: usize = 0;
    while i < names.len()
        invariant
            i <= names.len(),
            s == names_view(names@),
            forall|k: int| 0 <= k < i ==> s[k] != name@,
            match position_of(s, name@) {
                Some(p) => 0 <= p < s.len() && s[p] == name@ && forall|k: int| 0 <= k < p ==> s[k] != name@,
                None => forall|k: int| 0 <= k < s.len() ==> s[k] != name@,
            },
        decreases names.len() - i,
    {
        if str_eq(names[i].as_str(), name) {
            assert(s[i as int] == name@);
            return Some(i);
        }
        assert(s[i as int] != name@);
        i += 1;
    }
    None
}

/// Whether `x` sorts before or with `y`: the first column that orders them decides, and rows
/// that no column orders stay as they are.
pub open spec fn row_le_spec(x: Seq<Term>, y: Seq<Term>) -> bool
    decreases x.len(),
{
    if x.len() == 0 || y.len() == 0 {
        true
    } else {
        let c = compare_spec("sort"@, x[0], y[0]);
        if c == Ok::<int, Seq<char>>(-1) {
            true
        } else if c == Ok::<int, Seq<char>>(1) {
            false
        } else {
            row_le_spec(x.drop_first(), y.drop_first())
        }
    }
}

/// `x` inserted into `sorted` after the last row that sorts before or with it.
pub open spec fn insert_row(sorted: Seq<Seq<Term>>, x: Seq<Term>) -> Seq<Seq<Term>>
    decreases sorted.len(),
{
    if sorted.len() == 0 {
        seq![x]
    } else if row_le_spec(sorted.last(), x) {
        sorted.push(x)
    } else {
        insert_row(sorted.drop_last(), x).push(sorted.last())
    }
}

/// The rows in the stable order of `row_le_spec`.
pub open spec fn sorted_rows(rows: Seq<Seq<Term>>) -> Seq<Seq<Term>>
    decreases rows.len(),
{
    if rows.len() == 0 {
        Seq::empty()
    } else {
        insert_row(sorted_rows(rows.drop_last()), rows.last())
    }
}

/// The text of one solution row: the selected names and values.
pub open spec fn row_entries_text(names: Seq<Seq<char>>, row: Seq<Term>, ns: Seq<(Seq<char>, Seq<char>)>, n: int) -> Seq<char>
    decreases n,
{
    if n <= 0 {
        Seq::empty()
    } else if n == 1 {
        names[0] + ": "@ + term_friendly(row[0], ns)
    } else {
        row_entries_text(names, row, ns, n - 1) + ", "@ + (names[n - 1] + ": "@ + term_friendly(row[n - 1], ns))
    }
}

/// The text of a solution: one numbered line per row.
pub open spec fn solution_text(names: Seq<Seq<char>>, rows: Seq<Seq<Term>>, ns: Seq<(Seq<char>, Seq<char>)>, n: int) -> Seq<char>
    decreases rows.len(),
{
    if rows.len() == 0 {
        Seq::empty()
    } else {
        solution_text(names, rows.drop_last(), ns, n) + (nat_digits((rows.len() - 1) as nat) + " "@
            + row_entries_text(names, rows.last(), ns, n) + "\n"@)
    }
}

impl Solution {
    /// Every row has a value for each binding, and the selected bindings come first.
    pub open spec fn wf(&self) -> bool {
        &&& self.num_selected <= self.bindings@.len()
        &&& forall|i: int| 0 <= i < self.rows@.len() ==> #[trigger] self.rows@[i]@.len() == self.bindings@.len()
    }

    /// The value of a binding in a row. The name must be one of the bindings.
    pub fn get(&self, row: usize, name: &str) -> (r: Object)
        requires
            self.wf(),
            row < self.rows@.len(),
            position_of(names_view(self.bindings@), name@) is Some,
        ensures
            r@ == self.rows@[row as int]@[position_of(names_view(self.bindings@), name@)->0]@,
    {
        let i = find_name(&self.bindings, name);
        match i {
            Some(i) => self.rows[row][i].copy(),
            None => Object::unbound(),
        }
    }

    /// The value of a binding in a row, if the name is one of the bindings.
    pub fn find(&self, row: usize, name: &str) -> (r: Option<Object>)
        requires
            self.wf(),
            row < self.rows@.len(),
        ensures
            match position_of(names_view(self.bindings@), name@) {
                Some(i) => r is Some && r->0@ == self.rows@[row as int]@[i]@,
                None => r is None,
            },
    {
        match find_name(&self.bindings, name) {
            Some(i) => Some(self.rows[row][i].copy()),
            None => None,
        }
    }

    /// A copy with the rows sorted, stably, by their first differing column.
    ///
    /// In general an ORDER BY clause should be used to sort solutions. However it can be
    /// convenient to manually sort them for things like unit tests.
    pub fn sort(&self) -> (r: Solution)
        requires
            self.wf(),
        ensures
            r.wf(),
            ns_view(r.namespaces@) == ns_view(self.namespaces@),
            names_view(r.bindings@) == names_view(self.bindings@),
            r.num_selected == self.num_selected,
            rows_view(r.rows@).to_multiset() == rows_view(self.rows@).to_multiset(),
            rows_view(r.rows@) == sorted_rows(rows_view(self.rows@)),
    {
        let ghost input = rows_view(self.rows@);
        let mut out: Vec<SolutionRow> = Vec::new();
        let mut i: usize = 0;
        proof {
            assert(rows_view(out@) =~= Seq::<Seq<Term>>::empty());
            assert(input.take(0) =~= Seq::<Seq<Term>>::empty());
        }
        while i < self.rows.len()
            invariant
                i <= self.rows.len(),
                self.wf(),
                input == rows_view(self.rows@),
                forall|k: int| 0 <= k < out@.len() ==> #[trigger] out@[k]@.len() == self.bindings@.len(),
                rows_view(out@).to_multiset() == input.take(i as int).to_multiset(),
                rows_view(out@) == sorted_rows(input.take(i as int)),
            decreases self.rows.len() - i,
        {
            let row = copy_row(&self.rows[i]);
            proof {
                assert(self.rows@[i as int]@.len() == self.bindings@.len());
                assert(input.take(i + 1).drop_last() =~= input.take(i as int));
                assert(input.take(i + 1).last() == input[i as int]);
            }
            insert_sorted(&mut out, row);
            i += 1;
            proof {
                assert(input.take(i as int) =~= input.take(i - 1).push(input[i - 1]));
                vstd::seq_lib::to_multiset_build(input.take(i - 1), input[i - 1]);
            }
        }
        proof {
            assert(input.take(self.rows.len() as int) =~= input);
        }
        let r = Solution {
            namespaces: copy_namespaces(&self.namespaces),
            bindings: copy_names(&self.bindings),
            num_selected: self.num_selected,
            rows: out,
        };
        assert(r.bindings@.len() == names_view(r.bindings@).len());
        r
    }

    /// The selected values of each row, one numbered line per row.
    pub fn to_str(&self) -> (s: String)
        requires
            self.wf(),
        ensures
            s@ == solution_text(names_view(self.bindings@), rows_view(self.rows@), ns_view(self.namespaces@),
                self.num_selected as int),
    {
        let ghost names = names_view(self.bindings@);
        let ghost rows = rows_view(self.rows@);
        let ghost ns = ns_view(self.namespaces@);
        let mut out = String::new();
        let mut i: usize = 0;
        while i < self.rows.len()
            invariant
                i <= self.rows.len(),
                self.wf(),
                names == names_view(self.bindings@),
                rows == rows_view(self.rows@),
                ns == ns_view(self.namespaces@),
                out@ == solution_text(names, rows.take(i as int), ns, self.num_selected as int),
            decreases self.rows.len() - i,
        {
            let row = &self.rows[i];
            assert(row@.len() == self.bindings@.len());
            let mut line = String::new();
            let mut j: usize = 0;
            while j < self.num_selected
                invariant
                    j <= self.num_selected <= self.bindings@.len() == row@.len(),
                    names == names_view(self.bindings@),
                    ns == ns_view(self.namespaces@),
                    line@ == row_entries_text(names, terms(row@), ns, j as int),
                decreases self.num_selected - j,
            {
                let v = row[j].to_friendly_str(&self.namespaces);
                let a = concat_str(self.bindings[j].as_str(), ": ");
                let entry = concat_str(a.as_str(), v.as_str());
                if j == 0 {
                    line = entry;
                } else {
                    let b = concat_str(line.as_str(), ", ");
                    line = concat_str(b.as_str(), entry.as_str());
                }
                j += 1;
            }
            let n = nat_to_string(i as u64);
            let c = concat_str(n.as_str(), " ");
            let d = concat_str(c.as_str(), line.as_str());
            let e = concat_str(d.as_str(), "\n");
            out = concat_str(out.as_str(), e.as_str());
            i += 1;
            proof {
                assert(rows.take(i as int).drop_last() =~= rows.take(i - 1));
                assert(rows.take(i as int).last() == terms(row@));
            }
        }
        proof {
            assert(rows.take(self.rows.len() as int) =~= rows);
        }
        out
    }
}

/// A copy of a row.
pub fn copy_row(row: &SolutionRow) -> (r: SolutionRow)
    ensures
        terms(r@) == terms(row@),
        r@.len() == row@.len(),
{
    let mut r: SolutionRow = Vec::new();
    let mut i: usize = 0;
    while i < row.len()
        invariant
            i <= row.len(),
            terms(r@) == terms(row@).take(i as int),
        decreases row.len() - i,
    {
        let ghost before = r@;
        r.push(row[i].copy());
        i += 1;
        proof {
            assert(terms(r@) =~= terms(before).push(row@[i - 1]@));
            assert(terms(row@).take(i as int) =~= terms(row@).take(i - 1).push(row@[i - 1]@));
        }
    }
    assert(terms(row@).take(row.len() as int) =~= terms(row@));
    r
}

/// A copy of a list of names.
pub fn copy_names(names: &Vec<String>) -> (r: Vec<String>)
    ensures
        names_view(r@) == names_view(names@),
{
    let mut r: Vec<String> = Vec::new();
    let mut i: usize = 0;
    while i < names.len()
        invariant
            i <= names.len(),
            names_view(r@) == names_view(names@).take(i as int),
        decreases names.len() - i,
    {
        let ghost before = r@;
        r.push(names[i].clone());
        i += 1;
        proof {
            assert(names_view(r@) =~= names_view(before).push(names@[i - 1]@));
            assert(names_view(names@).take(i as int) =~= names_view(names@).take(i - 1).push(names@[i - 1]@));
        }
    }
    assert(names_view(names@).take(names.len() as int) =~= names_view(names@));
    r
}

/// A copy of a list of namespaces.
pub fn copy_namespaces(ns: &Vec<Namespace>) -> (r: Vec<Namespace>)
    ensures
        ns_view(r@) == ns_view(ns@),
{
    let mut r: Vec<Namespace> = Vec::new();
    let mut i: usize = 0;
    while i < ns.len()
        invariant
            i <= ns.len(),
            ns_view(r@) == ns_view(ns@).take(i as int),
        decreases ns.len() - i,
    {
        let ghost before = r@;
        r.push(Namespace { prefix: ns[i].prefix.clone(), path: ns[i].path.clone() });
        i += 1;
        proof {
            assert(ns_view(r@) =~= ns_view(before).push(ns@[i - 1]@));
            assert(ns_view(ns@).take(i as int) =~= ns_view(ns@).take(i - 1).push(ns@[i - 1]@));
        }
    }
    assert(ns_view(ns@).take(ns.len() as int) =~= ns_view(ns@));
    r
}

/// Whether `x` sorts before or with `y` (see `row_le_spec`).
pub fn row_le(x: &SolutionRow, y: &SolutionRow) -> (r: bool)
    requires
        x@.len() == y@.len(),
    ensures
        r == row_le_spec(terms(x@), terms(y@)),
{
    let ghost xs = terms(x@);
    let ghost ys = terms(y@);
    let mut i: usize = 0;
    proof {
        assert(xs.skip(0) =~= xs);
        assert(ys.skip(0) =~= ys);
    }
    while i < x.len()
        invariant
            i <= x.len() == y.len(),
            xs == terms(x@),
            ys == terms(y@),
            row_le_spec(xs, ys) == row_le_spec(xs.skip(i as int), ys.skip(i as int)),
        decreases x.len() - i,
    {
        let c = compare_values("sort", &x[i], &y[i]);
        proof {
            assert(xs.skip(i as int)[0] == xs[i as int]);
            assert(ys.skip(i as int)[0] == ys[i as int]);
            assert(xs.skip(i as int).drop_first() =~= xs.skip(i + 1));
            assert(ys.skip(i as int).drop_first() =~= ys.skip(i + 1));
        }
        match c {
            Ok(v) => {
                if v == -1 {
                    return true;
                } else if v == 1 {
                    return false;
                }
            },
            Err(_) => {},
        }
        i += 1;
    }
    true
}

/// Inserts a row after the last row of `out` that sorts before or with it.
fn insert_sorted(out: &mut Vec<SolutionRow>, row: SolutionRow)
    requires
        forall|k: int| 0 <= k < old(out)@.len() ==> #[trigger] old(out)@[k]@.len() == row@.len(),
    ensures
        forall|k: int| 0 <= k < final(out)@.len() ==> #[trigger] final(out)@[k]@.len() == row@.len(),
        rows_view(final(out)@).to_multiset() == rows_view(old(out)@).to_multiset().insert(terms(row@)),
        rows_view(final(out)@) == insert_row(rows_view(old(out)@), terms(row@)),
{
    let ghost s = rows_view(out@);
    let ghost x = terms(row@);
    let mut j: usize = out.len();
    proof {
        assert(s.skip(j as int) =~= Seq::<Seq<Term>>::empty());
        assert(s.take(j as int) =~= s);
    }
    let mut found = false;
    while j > 0 && !found
        invariant
            j <= out@.len(),
            s == rows_view(out@),
            x == terms(row@),
            forall|k: int| 0 <= k < out@.len() ==> #[trigger] out@[k]@.len() == row@.len(),
            insert_row(s, x) == insert_row(s.take(j as int), x) + s.skip(j as int),
            found ==> j > 0,
            found ==> row_le_spec(s[j - 1], x),
        decreases (j as int) * 2 + (if found { 0int } else { 1int }),
    {
        let le = row_le(&out[j - 1], &row);
        if le {
            found = true;
        } else {
            proof {
                assert(s.take(j as int).drop_last() =~= s.take(j - 1));
                assert(s.take(j as int).last() == s[j - 1]);
                assert(s.skip(j - 1) =~= seq![s[j - 1]] + s.skip(j as int));
                let t = insert_row(s.take(j - 1), x);
                assert(t.push(s[j - 1]) + s.skip(j as int) =~= t + s.skip(j - 1));
            }
            j -= 1;
        }
    }
    proof {
        if j == 0 {
            assert(s.take(0) =~= Seq::<Seq<Term>>::empty());
        }
    }
    out.insert(j, row);
    proof {
        assert(rows_view(out@) =~= s.take(j as int).push(x) + s.skip(j as int));
        if j > 0 {
            assert(s.take(j as int).last() == s[j - 1]);
            assert(insert_row(s.take(j as int), x) == s.take(j as int).push(x));
        } else {
            assert(insert_row(s.take(0), x) =~= seq![x]);
        }
        assert(rows_view(out@) =~= s.insert(j as int, x));
        vstd::seq_lib::to_multiset_insert(s, j as int, x);
    }
}

} // verus!
