//! The type which stores triples.
use vstd::prelude::*;
use crate::namespace::{
    Namespace, ns_view, expand_spec, expand_or_blank_spec, expand_uri, expand_uri_or_blank,
    contract_spec, contract_uri,
};
use crate::object::{Object, Term, terms, term_text, term_debug};
use crate::text::{concat_str, nat_to_string, nat_digits, chars_of, string_of_range, str_eq, lemma_nat_digits_injective};

verus! {

/// A relationship between a subject and an object.
///
/// * subject identifies a resource, usually via an IRI.
/// * predicate is an IRI describing the relationship. Also known as a property.
/// * object is a IRI, literal, or blank node containing the value for the relationship.
#[derive(Debug, Clone, PartialEq)]
pub struct Triple {
    pub subject: String,
    pub predicate: String,
    pub object: Object,
}

/// Predicate and object associated with a subject.
#[derive(Debug, Clone, PartialEq)]
pub struct Entry {
    pub predicate: String,
    pub object: Object,
}

impl View for Entry {
    type V = (Seq<char>, Term);

    open spec fn view(&self) -> (Seq<char>, Term) {
        (self.predicate@, self.object@)
    }
}

impl View for Triple {
    type V = (Seq<char>, Seq<char>, Term);

    open spec fn view(&self) -> (Seq<char>, Seq<char>, Term) {
        (self.subject@, self.predicate@, self.object@)
    }
}

pub open spec fn entries_view(s: Seq<Entry>) -> Seq<(Seq<char>, Term)> {
    s.map_values(|e: Entry| e@)
}

/// SPARQL extension function, registered with a store under a name.
pub trait ExtensionFn {
    fn call(&self, namespaces: &Vec<Namespace>, args: &Vec<Object>) -> Object;
}

/// The statements about one subject.
pub struct SubjectEntries {
    pub name: String,
    pub entries: Vec<Entry>,
}

/// A named extension function.
pub struct Extension {
    pub name: String,
    pub function: Box<dyn ExtensionFn>,
}

/// The model of a graph: each subject (distinct) with its (predicate, object) entries,
/// in the order subjects were first added.
pub type Graph = Seq<(Seq<char>, Seq<(Seq<char>, Term)>)>;

pub open spec fn graph_of(s: Seq<SubjectEntries>) -> Graph {
    s.map_values(|x: SubjectEntries| (x.name@, entries_view(x.entries@)))
}

pub open spec fn distinct_subjects(g: Graph) -> bool {
    forall|i: int, j: int| 0 <= i < j < g.len() ==> g[i].0 != g[j].0
}

/// The position of a subject in the graph, if it has statements.
pub open spec fn subject_index(g: Graph, s: Seq<char>) -> Option<int> {
    if exists|i: int| 0 <= i < g.len() && g[i].0 == s {
        Some(choose|i: int| 0 <= i < g.len() && g[i].0 == s)
    } else {
        None
    }
}

/// The entries of a subject (empty when it has none).
pub open spec fn entries_of(g: Graph, s: Seq<char>) -> Seq<(Seq<char>, Term)> {
    match subject_index(g, s) {
        Some(k) => g[k].1,
        None => Seq::empty(),
    }
}

/// The graph with entries appended to a subject's statements.
pub open spec fn graph_append(g: Graph, s: Seq<char>, es: Seq<(Seq<char>, Term)>) -> Graph {
    match subject_index(g, s) {
        Some(k) => g.update(k, (s, g[k].1 + es)),
        None => g.push((s, es)),
    }
}

/// Object values with their IRIs expanded.
pub open spec fn expand_object_spec(ns: Seq<(Seq<char>, Seq<char>)>, t: Term) -> Term {
    match t {
        Term::Typed(v, k) => Term::Typed(v, expand_spec(ns, k)),
        Term::Iri(v) => Term::Iri(expand_spec(ns, v)),
        Term::Blank(v) => Term::Blank(expand_spec(ns, v)),
        _ => t,
    }
}

pub open spec fn expand_entries_spec(ns: Seq<(Seq<char>, Seq<char>)>, es: Seq<(Seq<char>, Term)>) -> Seq<(Seq<char>, Term)> {
    es.map_values(|e: (Seq<char>, Term)| (expand_spec(ns, e.0), expand_object_spec(ns, e.1)))
}

/// The name of the `n`th blank node made for a label.
pub open spec fn blank_name(prefix: Seq<char>, n: u64) -> Seq<char> {
    "_:"@ + prefix + "-"@ + nat_digits(n as nat)
}

/// The views of (predicate, object) pairs.
pub open spec fn pairs_view(s: Seq<(String, Object)>) -> Seq<(Seq<char>, Term)> {
    s.map_values(|p: (String, Object)| (p.0@, p.1@))
}

/// The first position of an entry with the predicate, if any.
pub open spec fn first_pred(es: Seq<(Seq<char>, Term)>, p: Seq<char>) -> Option<int> {
    if exists|j: int| 0 <= j < es.len() && es[j].0 == p {
        Some(choose|j: int| 0 <= j < es.len() && es[j].0 == p && forall|k: int| 0 <= k < j ==> es[k].0 != p)
    } else {
        None
    }
}

/// The objects of the entries with the predicate, in order.
pub open spec fn objects_with(es: Seq<(Seq<char>, Term)>, p: Seq<char>) -> Seq<Term>
    decreases es.len(),
{
    if es.len() == 0 {
        Seq::empty()
    } else {
        let rest = objects_with(es.drop_last(), p);
        if es.last().0 == p { rest.push(es.last().1) } else { rest }
    }
}

/// The first entry with a predicate, and what the objects with it begin with.
proof fn lemma_first_occurrence(es: Seq<(Seq<char>, Term)>, p: Seq<char>) -> (m: int)
    requires
        exists|j: int| 0 <= j < es.len() && es[j].0 == p,
    ensures
        0 <= m < es.len(),
        es[m].0 == p,
        forall|k: int| 0 <= k < m ==> es[k].0 != p,
        objects_with(es, p).len() > 0,
        objects_with(es, p)[0] == es[m].1,
    decreases es.len(),
{
    let d = es.drop_last();
    if exists|j: int| 0 <= j < d.len() && d[j].0 == p {
        let m = lemma_first_occurrence(d, p);
        assert(es[m] == d[m]);
        assert forall|k: int| 0 <= k < m implies es[k].0 != p by {
            assert(es[k] == d[k]);
        }
        m
    } else {
        lemma_no_occurrence(d, p);
        assert forall|k: int| 0 <= k < es.len() - 1 implies es[k].0 != p by {
            assert(es[k] == d[k]);
        }
        let j = choose|j: int| 0 <= j < es.len() && es[j].0 == p;
        assert(j == es.len() - 1);
        (es.len() - 1) as int
    }
}

proof fn lemma_no_occurrence(es: Seq<(Seq<char>, Term)>, p: Seq<char>)
    requires
        !exists|j: int| 0 <= j < es.len() && es[j].0 == p,
    ensures
        objects_with(es, p).len() == 0,
    decreases es.len(),
{
    if es.len() > 0 {
        let d = es.drop_last();
        assert forall|j: int| 0 <= j < d.len() implies d[j].0 != p by {
            assert(d[j] == es[j]);
        }
        lemma_no_occurrence(d, p);
        assert(es.last() == es[es.len() - 1]);
    }
}

/// What is found for a predicate is the first of what is found for it: `first_pred` picks
/// the first entry of those whose objects `objects_with` lists, and there is none exactly
/// when that list is empty.
pub proof fn law_find_object_is_first(es: Seq<(Seq<char>, Term)>, p: Seq<char>)
    ensures
        match first_pred(es, p) {
            Some(j) => objects_with(es, p).len() > 0 && objects_with(es, p)[0] == es[j].1,
            None => objects_with(es, p).len() == 0,
        },
{
    if exists|j: int| 0 <= j < es.len() && es[j].0 == p {
        let m = lemma_first_occurrence(es, p);
        let j = first_pred(es, p)->Some_0;
        assert(0 <= j < es.len() && es[j].0 == p && forall|k: int| 0 <= k < j ==> es[k].0 != p);
        if j < m {
            assert(es[j].0 != p);
        }
        if m < j {
            assert(es[m].0 != p);
        }
    } else {
        lemma_no_occurrence(es, p);
    }
}

/// The graph with the first statement (s, p, _) given the object o, or (s, p, o) added.
pub open spec fn graph_replace(g: Graph, s: Seq<char>, p: Seq<char>, o: Term) -> Graph {
    match subject_index(g, s) {
        Some(k) => match first_pred(g[k].1, p) {
            Some(j) => g.update(k, (s, g[k].1.update(j, (p, o)))),
            None => g.update(k, (s, g[k].1.push((p, o)))),
        },
        None => g.push((s, seq![(p, o)])),
    }
}

/// The namespaces every store starts with.
pub open spec fn default_ns() -> Seq<(Seq<char>, Seq<char>)> {
    seq![
        ("_"@, "_:"@),
        ("xsd"@, "http://www.w3.org/2001/XMLSchema#"@),
        ("rdf"@, "http://www.w3.org/1999/02/22-rdf-syntax-ns#"@),
        ("rdfs"@, "http://www.w3.org/2000/01/rdf-schema#"@),
        ("owl"@, "http://www.w3.org/2002/07/owl#"@),
    ]
}

/// The graph with one statement added, names expanded with `ns`.
pub open spec fn append_one(g: Graph, ns: Seq<(Seq<char>, Seq<char>)>, s: Seq<char>, p: Seq<char>, o: Term) -> Graph {
    graph_append(g, expand_or_blank_spec(ns, s), seq![(expand_spec(ns, p), expand_object_spec(ns, o))])
}

/// The last position of a character, if any.
pub open spec fn last_index(t: Seq<char>, c: char) -> Option<int>
    decreases t.len(),
{
    if t.len() == 0 {
        None
    } else if t.last() == c {
        Some(t.len() - 1)
    } else {
        last_index(t.drop_last(), c)
    }
}

/// The text after the last occurrence of a character, or all of it.
pub open spec fn after_spec(t: Seq<char>, c: char) -> Seq<char> {
    match last_index(t, c) {
        Some(i) => t.skip(i + 1),
        None => t,
    }
}

/// The predicate of the `n`th member of a container.
pub open spec fn member_pred(n: nat) -> Seq<char> {
    "http://www.w3.org/1999/02/22-rdf-syntax-ns#_"@ + nat_digits(n)
}

/// The member entries of a container holding the values.
pub open spec fn container_entries(vs: Seq<Term>) -> Seq<(Seq<char>, Term)> {
    Seq::new(vs.len(), |i: int| (member_pred((i + 1) as nat), vs[i]))
}

/// The statements that chain a list's cells, starting at cell `blank`, with cell names
/// numbered from `n`.
pub open spec fn list_graph(
    g: Graph,
    ns: Seq<(Seq<char>, Seq<char>)>,
    prefix: Seq<char>,
    n: u64,
    blank: Seq<char>,
    vs: Seq<Term>,
) -> Graph
    decreases vs.len(),
{
    if vs.len() == 0 {
        append_one(g, ns, blank, "http://www.w3.org/1999/02/22-rdf-syntax-ns#rest"@,
            Term::Iri("http://www.w3.org/1999/02/22-rdf-syntax-ns#nil"@))
    } else {
        let next = blank_name(prefix, n);
        let g1 = append_one(g, ns, blank, "http://www.w3.org/1999/02/22-rdf-syntax-ns#first"@, vs[0]);
        let g2 = append_one(g1, ns, blank, "http://www.w3.org/1999/02/22-rdf-syntax-ns#rest"@, Term::Blank(next));
        list_graph(g2, ns, prefix, n.wrapping_add(1), next, vs.drop_first())
    }
}

/// The graph with statements added one by one, names expanded with `ns`.
pub open spec fn append_all(g: Graph, ns: Seq<(Seq<char>, Seq<char>)>, ts: Seq<(Seq<char>, Seq<char>, Term)>) -> Graph
    decreases ts.len(),
{
    if ts.len() == 0 {
        g
    } else {
        append_all(append_one(g, ns, ts[0].0, ts[0].1, ts[0].2), ns, ts.drop_first())
    }
}

/// The name of the `k`th cell of a list that starts at `blank` and names its further cells
/// from counter `n` on.
pub open spec fn list_cell(prefix: Seq<char>, n: u64, blank: Seq<char>, k: nat) -> Seq<char> {
    if k == 0 { blank } else { blank_name(prefix, counter_after(n, (k - 1) as nat)) }
}

/// The statements of a list of the values: for the `k`th value, its cell's rdf:first is the
/// value and its rdf:rest the next cell; the cell after the last value has rdf:rest rdf:nil.
pub open spec fn list_statements(prefix: Seq<char>, n: u64, blank: Seq<char>, vs: Seq<Term>) -> Seq<(Seq<char>, Seq<char>, Term)> {
    Seq::new(2 * vs.len() + 1, |i: int|
        if i == 2 * vs.len() {
            (list_cell(prefix, n, blank, vs.len()), "http://www.w3.org/1999/02/22-rdf-syntax-ns#rest"@,
                Term::Iri("http://www.w3.org/1999/02/22-rdf-syntax-ns#nil"@))
        } else if i % 2 == 0 {
            (list_cell(prefix, n, blank, (i / 2) as nat), "http://www.w3.org/1999/02/22-rdf-syntax-ns#first"@, vs[i / 2])
        } else {
            (list_cell(prefix, n, blank, (i / 2) as nat), "http://www.w3.org/1999/02/22-rdf-syntax-ns#rest"@,
                Term::Blank(list_cell(prefix, n, blank, (i / 2 + 1) as nat)))
        })
}

/// A list is a chain of cells holding the values in their order: the statements that make it
/// are, one after the other, the `k`th cell's rdf:first (the `k`th value) and its rdf:rest
/// (the next cell), ending with rdf:rest rdf:nil.
pub proof fn law_list_chain(
    g: Graph,
    ns: Seq<(Seq<char>, Seq<char>)>,
    prefix: Seq<char>,
    n: u64,
    blank: Seq<char>,
    vs: Seq<Term>,
)
    ensures
        list_graph(g, ns, prefix, n, blank, vs) == append_all(g, ns, list_statements(prefix, n, blank, vs)),
        forall|k: int| 0 <= k < vs.len() ==> #[trigger] list_statements(prefix, n, blank, vs)[2 * k]
            == (list_cell(prefix, n, blank, k as nat), "http://www.w3.org/1999/02/22-rdf-syntax-ns#first"@, vs[k]),
        forall|k: int| 0 <= k < vs.len() ==> #[trigger] list_statements(prefix, n, blank, vs)[2 * k + 1]
            == (list_cell(prefix, n, blank, k as nat), "http://www.w3.org/1999/02/22-rdf-syntax-ns#rest"@,
                Term::Blank(list_cell(prefix, n, blank, (k + 1) as nat))),
    decreases vs.len(),
{
    let l = list_statements(prefix, n, blank, vs);
    assert forall|k: int| 0 <= k < vs.len() implies #[trigger] l[2 * k]
        == (list_cell(prefix, n, blank, k as nat), "http://www.w3.org/1999/02/22-rdf-syntax-ns#first"@, vs[k]) by {
        assert((2 * k) % 2 == 0 && (2 * k) / 2 == k);
    }
    assert forall|k: int| 0 <= k < vs.len() implies #[trigger] l[2 * k + 1]
        == (list_cell(prefix, n, blank, k as nat), "http://www.w3.org/1999/02/22-rdf-syntax-ns#rest"@,
            Term::Blank(list_cell(prefix, n, blank, (k + 1) as nat))) by {
        assert((2 * k + 1) % 2 == 1 && (2 * k + 1) / 2 == k);
    }
    if vs.len() == 0 {
        assert(l.drop_first() =~= Seq::<(Seq<char>, Seq<char>, Term)>::empty());
        let g1 = append_one(g, ns, l[0].0, l[0].1, l[0].2);
        assert(append_all(g1, ns, l.drop_first()) == g1);
        assert(append_all(g, ns, l) == append_all(g1, ns, l.drop_first()));
    } else {
        let next = blank_name(prefix, n);
        let m = n.wrapping_add(1);
        let rest = vs.drop_first();
        law_list_chain(
            append_one(append_one(g, ns, blank, "http://www.w3.org/1999/02/22-rdf-syntax-ns#first"@, vs[0]), ns, blank,
                "http://www.w3.org/1999/02/22-rdf-syntax-ns#rest"@, Term::Blank(next)),
            ns, prefix, m, next, rest);
        let l2 = list_statements(prefix, m, next, rest);
        assert forall|k: nat| #![trigger list_cell(prefix, m, next, k)] list_cell(prefix, m, next, k) == list_cell(prefix, n, blank, k + 1) by {
            if k > 0 {
                assert(counter_after(n, k) == counter_after(m, (k - 1) as nat));
            }
        }
        assert forall|i: int| 0 <= i < l2.len() implies #[trigger] l.drop_first().drop_first()[i] == l2[i] by {
            assert(l.drop_first().drop_first()[i] == l[i + 2]);
            assert((i + 2) / 2 == i / 2 + 1 && (i + 2) % 2 == i % 2);
            assert(list_cell(prefix, m, next, (i / 2) as nat) == list_cell(prefix, n, blank, (i / 2 + 1) as nat));
            assert(list_cell(prefix, m, next, (i / 2 + 1) as nat) == list_cell(prefix, n, blank, (i / 2 + 2) as nat));
            assert(list_cell(prefix, m, next, rest.len()) == list_cell(prefix, n, blank, vs.len()));
            if i % 2 == 0 && i != 2 * rest.len() {
                assert(rest[i / 2] == vs[i / 2 + 1]);
            }
        }
        assert(l.drop_first().drop_first() =~= l2);
        assert(l[0] == (blank, "http://www.w3.org/1999/02/22-rdf-syntax-ns#first"@, vs[0]));
        assert(l[1] == (blank, "http://www.w3.org/1999/02/22-rdf-syntax-ns#rest"@, Term::Blank(next)));
        assert(l.drop_first()[0] == l[1]);
        let g1 = append_one(g, ns, l[0].0, l[0].1, l[0].2);
        let g2 = append_one(g1, ns, l[1].0, l[1].1, l[1].2);
        assert(append_all(g, ns, l) == append_all(g1, ns, l.drop_first()));
        assert(append_all(g1, ns, l.drop_first()) == append_all(g2, ns, l.drop_first().drop_first()));
    }
}

/// The blank counter after `k` more names.
pub open spec fn counter_after(n: u64, k: nat) -> u64
    decreases k,
{
    if k == 0 { n } else { counter_after(n.wrapping_add(1), (k - 1) as nat) }
}

/// The text of one statement in a store dump.
pub open spec fn entry_line(i: nat, s: Seq<char>, e: (Seq<char>, Term)) -> Seq<char> {
    nat_digits(i) + ": <"@ + s + ">  <"@ + e.0 + ">  "@ + term_text(e.1) + "}\n"@
}

pub open spec fn entries_text(s: Seq<char>, es: Seq<(Seq<char>, Term)>) -> Seq<char>
    decreases es.len(),
{
    if es.len() == 0 {
        Seq::empty()
    } else {
        entries_text(s, es.drop_last()) + entry_line((es.len() - 1) as nat, s, es.last())
    }
}

/// The text of a store dump.
pub open spec fn graph_text(g: Graph) -> Seq<char>
    decreases g.len(),
{
    if g.len() == 0 {
        Seq::empty()
    } else {
        graph_text(g.drop_last()) + entries_text(g.last().0, g.last().1)
    }
}

pub open spec fn subject_triples(s: Seq<char>, es: Seq<(Seq<char>, Term)>) -> Seq<(Seq<char>, Seq<char>, Term)> {
    es.map_values(|e: (Seq<char>, Term)| (s, e.0, e.1))
}

/// Every statement of a graph, subject by subject.
pub open spec fn graph_triples(g: Graph) -> Seq<(Seq<char>, Seq<char>, Term)>
    decreases g.len(),
{
    if g.len() == 0 {
        Seq::empty()
    } else {
        graph_triples(g.drop_last()) + subject_triples(g.last().0, g.last().1)
    }
}

/// Whether `blk` may answer `b` for a statement whose view is `v`.
pub open spec fn answered<F: Fn(&Triple) -> bool>(blk: F, v: (Seq<char>, Seq<char>, Term), b: bool) -> bool {
    exists|t: Triple| t@ == v && call_ensures(blk, (&t,), b)
}

/// The text of a triple.
pub open spec fn triple_text(t: (Seq<char>, Seq<char>, Term)) -> Seq<char> {
    "{"@ + t.0 + ", "@ + t.1 + ", "@ + term_text(t.2) + "}"@
}

/// What the rrdf:pname extension returns.
pub open spec fn pname_spec(ns: Seq<(Seq<char>, Seq<char>)>, args: Seq<Term>) -> Term {
    if args.len() == 1 {
        match args[0] {
            Term::Iri(iri) => Term::Str(contract_spec(ns, iri), Seq::empty()),
            Term::Blank(name) => Term::Str(name, Seq::empty()),
            _ => Term::Error("rrdf:pname expected an IriValue or BlankValue but was called with "@
                + term_debug(args[0]) + "."@),
        }
    } else {
        Term::Error("rrdf:pname accepts 1 argument but was called with "@ + nat_digits(args.len())
            + " arguments."@)
    }
}

/// What the first position of a predicate is: a match with no match before it.
pub proof fn lemma_first_pred(es: Seq<(Seq<char>, Term)>, p: Seq<char>)
    ensures
        match first_pred(es, p) {
            Some(j) => 0 <= j < es.len() && es[j].0 == p && forall|k: int| 0 <= k < j ==> es[k].0 != p,
            None => forall|k: int| 0 <= k < es.len() ==> es[k].0 != p,
        },
{
    if exists|j: int| 0 <= j < es.len() && es[j].0 == p {
        let j = choose|j: int| 0 <= j < es.len() && es[j].0 == p;
        lemma_first_match_exists(es, p, j);
    }
}

proof fn lemma_first_match_exists(es: Seq<(Seq<char>, Term)>, p: Seq<char>, j: int)
    requires
        0 <= j < es.len(),
        es[j].0 == p,
    ensures
        exists|m: int| 0 <= m < es.len() && es[m].0 == p && forall|k: int| 0 <= k < m ==> es[k].0 != p,
    decreases j,
{
    if exists|k: int| 0 <= k < j && es[k].0 == p {
        let k = choose|k: int| 0 <= k < j && es[k].0 == p;
        lemma_first_match_exists(es, p, k);
    } else {
        assert(0 <= j < es.len() && es[j].0 == p && forall|k: int| 0 <= k < j ==> es[k].0 != p);
    }
}

/// A subject that has statements is found at its one position.
pub proof fn lemma_subject_index(g: Graph, k: int)
    requires
        distinct_subjects(g),
        0 <= k < g.len(),
    ensures
        subject_index(g, g[k].0) == Some(k),
{
    let s = g[k].0;
    assert(0 <= k < g.len() && g[k].0 == s);
    let c = choose|i: int| 0 <= i < g.len() && g[i].0 == s;
    if c < k {
        assert(g[c].0 != g[k].0);
    } else if c > k {
        assert(g[k].0 != g[c].0);
    }
}

/// A subject without statements has no position.
pub proof fn lemma_subject_absent(g: Graph, s: Seq<char>)
    requires
        forall|i: int| 0 <= i < g.len() ==> g[i].0 != s,
    ensures
        subject_index(g, s) is None,
{
}

/// Appending entries keeps the subjects distinct.
pub proof fn lemma_append_distinct(g: Graph, s: Seq<char>, es: Seq<(Seq<char>, Term)>)
    requires
        distinct_subjects(g),
    ensures
        distinct_subjects(graph_append(g, s, es)),
{
    match subject_index(g, s) {
        Some(k) => {
            let c = choose|i: int| 0 <= i < g.len() && g[i].0 == s;
            assert(g[c].0 == s);
        },
        None => {
            assert forall|i: int| 0 <= i < g.len() implies g[i].0 != s by {
                if g[i].0 == s {
                    assert(exists|j: int| 0 <= j < g.len() && g[j].0 == s);
                }
            }
        },
    }
}

/// Replacing a statement keeps the subjects distinct.
pub proof fn lemma_replace_distinct(g: Graph, s: Seq<char>, p: Seq<char>, o: Term)
    requires
        distinct_subjects(g),
    ensures
        distinct_subjects(graph_replace(g, s, p, o)),
{
    match subject_index(g, s) {
        Some(k) => {
            let c = choose|i: int| 0 <= i < g.len() && g[i].0 == s;
            assert(g[c].0 == s);
        },
        None => {
            assert forall|i: int| 0 <= i < g.len() implies g[i].0 != s by {
                if g[i].0 == s {
                    assert(exists|j: int| 0 <= j < g.len() && g[j].0 == s);
                }
            }
        },
    }
}

/// The subject's entries after an append are its entries before, then the new ones.
pub proof fn lemma_entries_after_append(g: Graph, s: Seq<char>, es: Seq<(Seq<char>, Term)>)
    requires
        distinct_subjects(g),
    ensures
        entries_of(graph_append(g, s, es), s) == entries_of(g, s) + es,
{
    lemma_append_distinct(g, s, es);
    let g2 = graph_append(g, s, es);
    match subject_index(g, s) {
        Some(k) => {
            let c = choose|i: int| 0 <= i < g.len() && g[i].0 == s;
            assert(g[c].0 == s);
            assert(g2[k].0 == s);
            lemma_subject_index(g2, k);
        },
        None => {
            assert(g2[g.len() as int].0 == s);
            lemma_subject_index(g2, g.len() as int);
            assert(entries_of(g, s) + es =~= es);
        },
    }
}

/// Adding statements about one subject leaves the statements about every other subject as
/// they were.
pub proof fn law_add_leaves_other_subjects(g: Graph, s: Seq<char>, es: Seq<(Seq<char>, Term)>, t: Seq<char>)
    requires
        distinct_subjects(g),
        t != s,
    ensures
        entries_of(graph_append(g, s, es), t) == entries_of(g, t),
{
    lemma_append_distinct(g, s, es);
    let g2 = graph_append(g, s, es);
    match subject_index(g, t) {
        Some(k) => {
            let c = choose|i: int| 0 <= i < g.len() && g[i].0 == t;
            assert(g[c].0 == t);
            assert(g2[k].0 == t);
            lemma_subject_index(g2, k);
        },
        None => {
            assert forall|i: int| 0 <= i < g2.len() implies g2[i].0 != t by {
                if i < g.len() && g[i].0 == t {
                    assert(exists|j: int| 0 <= j < g.len() && g[j].0 == t);
                }
            }
            lemma_subject_absent(g2, t);
        },
    }
}

/// Blank node names made with different counters differ.
pub proof fn law_blank_names_distinct(prefix: Seq<char>, a: u64, b: u64)
    requires
        a != b,
    ensures
        blank_name(prefix, a) != blank_name(prefix, b),
{
    let h = "_:"@ + prefix + "-"@;
    assert(blank_name(prefix, a) == h + nat_digits(a as nat));
    assert(blank_name(prefix, b) == h + nat_digits(b as nat));
    if blank_name(prefix, a) == blank_name(prefix, b) {
        assert((h + nat_digits(a as nat)).skip(h.len() as int) =~= nat_digits(a as nat));
        assert((h + nat_digits(b as nat)).skip(h.len() as int) =~= nat_digits(b as nat));
        lemma_nat_digits_injective(a as nat, b as nat);
    }
}

/// Successive blank node names from a store differ: the counter moves on after each.
pub proof fn law_successive_blank_names_differ(prefix: Seq<char>, n: u64)
    ensures
        blank_name(prefix, n) != blank_name(prefix, n.wrapping_add(1)),
{
    law_blank_names_distinct(prefix, n, n.wrapping_add(1));
}

/// Adding a triple adds its object to what is found for its subject and predicate:
/// the objects found afterwards are those found before, then the new object.
pub proof fn law_add_then_find_objects(g: Graph, s: Seq<char>, p: Seq<char>, o: Term)
    requires
        distinct_subjects(g),
    ensures
        objects_with(entries_of(graph_append(g, s, seq![(p, o)]), s), p)
            == objects_with(entries_of(g, s), p).push(o),
{
    lemma_entries_after_append(g, s, seq![(p, o)]);
    let es = entries_of(g, s);
    assert((es + seq![(p, o)]).drop_last() =~= es);
}

/// After a triple is replaced, the first object found for its subject and predicate is the
/// new object.
pub proof fn law_replace_then_find(g: Graph, s: Seq<char>, p: Seq<char>, o: Term)
    requires
        distinct_subjects(g),
    ensures
        ({
            let es = entries_of(graph_replace(g, s, p, o), s);
            first_pred(es, p) matches Some(j) && es[j].1 == o
        }),
{
    lemma_replace_distinct(g, s, p, o);
    let g2 = graph_replace(g, s, p, o);
    match subject_index(g, s) {
        Some(k) => {
            let c = choose|i: int| 0 <= i < g.len() && g[i].0 == s;
            assert(g[c].0 == s);
            assert(g2[k].0 == s);
            lemma_subject_index(g2, k);
            let old_es = g[k].1;
            lemma_first_pred(old_es, p);
            match first_pred(old_es, p) {
                Some(j) => {
                    let new_es = old_es.update(j, (p, o));
                    assert(new_es[j].0 == p);
                    let d = choose|x: int| 0 <= x < new_es.len() && new_es[x].0 == p
                        && forall|y: int| 0 <= y < x ==> new_es[y].0 != p;
                    if d < j {
                        assert(old_es[d].0 == p);
                    } else if d > j {
                        assert(new_es[j].0 != p);
                    }
                },
                None => {
                    let new_es = old_es.push((p, o));
                    let n = old_es.len() as int;
                    assert(new_es[n].0 == p);
                    assert forall|y: int| 0 <= y < n implies new_es[y].0 != p by {
                        if old_es[y].0 == p {
                            assert(exists|x: int| 0 <= x < old_es.len() && old_es[x].0 == p);
                        }
                    }
                    let d = choose|x: int| 0 <= x < new_es.len() && new_es[x].0 == p
                        && forall|y: int| 0 <= y < x ==> new_es[y].0 != p;
                    if d > n {
                    } else if d < n {
                    }
                },
            }
        },
        None => {
            assert(g2[g.len() as int].0 == s);
            lemma_subject_index(g2, g.len() as int);
            let new_es: Seq<(Seq<char>, Term)> = seq![(p, o)];
            assert(new_es[0].0 == p);
        },
    }
}

/// Stores triples in a more or less efficient format.
pub struct Store {
    namespaces: Vec<Namespace>,
    subjects: Vec<SubjectEntries>,
    extensions: Vec<Extension>,
    next_blank: u64,
}

impl Store {
    #[verifier::type_invariant]
    spec fn distinct(self) -> bool {
        distinct_subjects(graph_of(self.subjects@))
    }

    /// The namespaces of the store, defaults first.
    pub closed spec fn ns(&self) -> Seq<(Seq<char>, Seq<char>)> {
        ns_view(self.namespaces@)
    }

    /// The statements of the store.
    pub closed spec fn graph(&self) -> Graph {
        graph_of(self.subjects@)
    }

    /// The number used for the next blank node name.
    pub closed spec fn blank_counter(&self) -> u64 {
        self.next_blank
    }

    /// The names of the registered extension functions.
    pub closed spec fn extension_names(&self) -> Seq<Seq<char>> {
        self.extensions@.map_values(|e: Extension| e.name@)
    }

    /// Initializes a store object.
    ///
    /// xsd, rdf, rdfs, and owl namespaces are automatically added. An rrdf:pname extension
    /// is always available; it converts an IriValue to a StringValue using namespaces (or
    /// simply stringifies it if none of the namespaces paths match).
    pub fn new(namespaces: &Vec<Namespace>, extensions: Vec<Extension>) -> (s: Store)
        ensures
            s.ns() == default_ns() + ns_view(namespaces@),
            s.graph() == Seq::<(Seq<char>, Seq<(Seq<char>, Term)>)>::empty(),
            s.blank_counter() == 0,
            s.extension_names() == extensions@.map_values(|e: Extension| e.name@),
    {
        let all = join_namespaces(&default_namespaces(), namespaces);
        let s = Store { namespaces: all, subjects: Vec::new(), extensions, next_blank: 0 };
        assert(graph_of(s.subjects@) =~= Seq::<(Seq<char>, Seq<(Seq<char>, Term)>)>::empty());
        s
    }

    pub fn namespaces(&self) -> (r: &Vec<Namespace>)
        ensures
            ns_view(r@) == self.ns(),
    {
        &self.namespaces
    }

    /// The number of subjects that have statements.
    pub fn subject_count(&self) -> (r: usize)
        ensures
            r == self.graph().len(),
            distinct_subjects(self.graph()),
    {
        proof {
            use_type_invariant(self);
        }
        self.subjects.len()
    }

    /// The number of subjects that have statements.
    pub fn size_hint(&self) -> (r: Option<usize>)
        ensures
            r == Some(self.graph().len() as usize),
    {
        Some(self.subjects.len())
    }

    /// The `i`th subject and its statements.
    pub fn subject_at(&self, i: usize) -> (r: (&String, &Vec<Entry>))
        requires
            i < self.graph().len(),
        ensures
            r.0@ == self.graph()[i as int].0,
            entries_view(r.1@) == self.graph()[i as int].1,
    {
        let se = &self.subjects[i];
        (&se.name, &se.entries)
    }

    /// The position of a subject, if it has statements.
    pub fn find_subject(&self, subject: &str) -> (r: Option<usize>)
        ensures
            match r {
                Some(k) => subject_index(self.graph(), subject@) == Some(k as int) && k < self.graph().len(),
                None => subject_index(self.graph(), subject@) is None,
            },
    {
        proof {
            use_type_invariant(self);
        }
        let ghost g = self.graph();
        let mut i: usize = 0;
        while i < self.subjects.len()
            invariant
                i <= self.subjects.len(),
                g == graph_of(self.subjects@),
                distinct_subjects(g),
                forall|j: int| 0 <= j < i ==> g[j].0 != subject@,
            decreases self.subjects.len() - i,
        {
            if str_eq(self.subjects[i].name.as_str(), subject) {
                proof {
                    assert(g[i as int].0 == subject@);
                    lemma_subject_index(g, i as int);
                }
                return Some(i);
            }
            assert(g[i as int].0 != subject@);
            i += 1;
        }
        proof {
            lemma_subject_absent(g, subject@);
        }
        None
    }

    /// A new blank node name ("_:prefix-n"); each call uses the next number.
    pub fn get_blank_name(&mut self, prefix: &str) -> (r: String)
        ensures
            r@ == blank_name(prefix@, old(self).blank_counter()),
            final(self).blank_counter() == old(self).blank_counter().wrapping_add(1),
            final(self).graph() == old(self).graph(),
            final(self).ns() == old(self).ns(),
            final(self).extension_names() == old(self).extension_names(),
    {
        proof {
            use_type_invariant(&*self);
        }
        let suffix = self.next_blank;
        self.next_blank = suffix.wrapping_add(1);
        let a = concat_str("_:", prefix);
        let b = concat_str(a.as_str(), "-");
        let n = nat_to_string(suffix);
        concat_str(b.as_str(), n.as_str())
    }

    /// Appends entries to a subject's statements (a new subject comes last).
    fn append_entries(&mut self, subject: String, mut es: Vec<Entry>)
        ensures
            final(self).graph() == graph_append(old(self).graph(), subject@, entries_view(es@)),
            final(self).blank_counter() == old(self).blank_counter(),
            final(self).ns() == old(self).ns(),
            final(self).extension_names() == old(self).extension_names(),
    {
        proof {
            use_type_invariant(&*self);
        }
        let ghost g = self.graph();
        let ghost esv = entries_view(es@);
        let found = self.find_subject(subject.as_str());
        let mut subjects: Vec<SubjectEntries> = Vec::new();
        std::mem::swap(&mut subjects, &mut self.subjects);
        assert(graph_of(subjects@) == g);
        match found {
            Some(k) => {
                let mut se = subjects.remove(k);
                assert(se.name@ == g[k as int].0);
                se.entries.append(&mut es);
                let ghost se_entries = se.entries@;
                subjects.insert(k, se);
                proof {
                    assert(entries_view(se_entries) =~= g[k as int].1 + esv);
                    assert(graph_of(subjects@) =~= graph_append(g, subject@, esv));
                    lemma_append_distinct(g, subject@, esv);
                }
                self.subjects = subjects;
            },
            None => {
                subjects.push(SubjectEntries { name: subject, entries: es });
                proof {
                    assert(graph_of(subjects@) =~= graph_append(g, subject@, esv));
                    lemma_append_distinct(g, subject@, esv);
                }
                self.subjects = subjects;
            },
        }
    }

    /// Efficient addition of triples to the store.
    ///
    /// Names are expanded with the store's namespaces; nothing is added for no entries.
    pub fn add(&mut self, subject: &str, entries: &Vec<(String, Object)>)
        ensures
            final(self).graph() == (if entries@.len() == 0 {
                old(self).graph()
            } else {
                graph_append(
                    old(self).graph(),
                    expand_or_blank_spec(old(self).ns(), subject@),
                    expand_entries_spec(old(self).ns(), pairs_view(entries@)),
                )
            }),
            final(self).blank_counter() == old(self).blank_counter(),
            final(self).ns() == old(self).ns(),
            final(self).extension_names() == old(self).extension_names(),
    {
        if entries.len() == 0 {
            return;
        }
        let ghost nsv = self.ns();
        let s = expand_uri_or_blank(&self.namespaces, subject);
        let mut es: Vec<Entry> = Vec::new();
        let mut i: usize = 0;
        while i < entries.len()
            invariant
                i <= entries.len(),
                nsv == ns_view(self.namespaces@),
                entries_view(es@) == expand_entries_spec(nsv, pairs_view(entries@.take(i as int))),
            decreases entries.len() - i,
        {
            let p = expand_uri(&self.namespaces, entries[i].0.as_str());
            let o = expand_object(&self.namespaces, &entries[i].1);
            let ghost before = es@;
            let ghost pv = pairs_view(entries@.take(i as int));
            es.push(Entry { predicate: p, object: o });
            i += 1;
            proof {
                let pair = (entries@[i - 1].0@, entries@[i - 1].1@);
                assert(pairs_view(entries@.take(i as int)) =~= pv.push(pair));
                assert(entries_view(es@) =~= entries_view(before).push((p@, o@)));
                assert(expand_entries_spec(nsv, pv.push(pair)) =~= expand_entries_spec(nsv, pv).push(
                    (expand_spec(nsv, pair.0), expand_object_spec(nsv, pair.1))));
            }
        }
        assert(entries@.take(entries.len() as int) == entries@);
        self.append_entries(s, es);
    }

    /// Relatively inefficient addition of one triple to the store.
    ///
    /// Qualified names may use the namespaces associated with the store and the supplied namespaces.
    pub fn add_triple(&mut self, namespaces: &Vec<Namespace>, triple: Triple)
        ensures
            ({
                let ns = old(self).ns() + ns_view(namespaces@);
                final(self).graph() == graph_append(
                    old(self).graph(),
                    expand_or_blank_spec(ns, triple.subject@),
                    seq![(expand_spec(ns, triple.predicate@), expand_object_spec(ns, triple.object@))],
                )
            }),
            final(self).blank_counter() == old(self).blank_counter(),
            final(self).ns() == old(self).ns(),
            final(self).extension_names() == old(self).extension_names(),
    {
        let all = join_namespaces(&self.namespaces, namespaces);
        let s = expand_uri_or_blank(&all, triple.subject.as_str());
        let p = expand_uri(&all, triple.predicate.as_str());
        let o = expand_object(&all, &triple.object);
        let mut es: Vec<Entry> = Vec::new();
        es.push(Entry { predicate: p, object: o });
        assert(entries_view(es@) =~= seq![(p@, o@)]);
        self.append_entries(s, es);
    }

    /// Replaces the object of an existing triple or adds a new triple.
    ///
    /// Qualified names may use the namespaces associated with the store and the supplied namespaces.
    pub fn replace_triple(&mut self, namespaces: &Vec<Namespace>, triple: Triple)
        ensures
            ({
                let ns = old(self).ns() + ns_view(namespaces@);
                final(self).graph() == graph_replace(
                    old(self).graph(),
                    expand_or_blank_spec(ns, triple.subject@),
                    expand_spec(ns, triple.predicate@),
                    expand_object_spec(ns, triple.object@),
                )
            }),
            final(self).blank_counter() == old(self).blank_counter(),
            final(self).ns() == old(self).ns(),
            final(self).extension_names() == old(self).extension_names(),
    {
        proof {
            use_type_invariant(&*self);
        }
        let all = join_namespaces(&self.namespaces, namespaces);
        let s = expand_uri_or_blank(&all, triple.subject.as_str());
        let p = expand_uri(&all, triple.predicate.as_str());
        let o = expand_object(&all, &triple.object);
        let ghost g = self.graph();
        let found = self.find_subject(s.as_str());
        let mut subjects: Vec<SubjectEntries> = Vec::new();
        std::mem::swap(&mut subjects, &mut self.subjects);
        assert(graph_of(subjects@) == g);
        proof {
            lemma_replace_distinct(g, s@, p@, o@);
        }
        match found {
            Some(k) => {
                let mut se = subjects.remove(k);
                let ghost old_es = entries_view(se.entries@);
                assert(old_es == g[k as int].1);
                let pos = pred_position(&se.entries, p.as_str());
                match pos {
                    Some(j) => {
                        se.entries.set(j, Entry { predicate: p, object: o });
                        proof {
                            assert(entries_view(se.entries@) =~= old_es.update(j as int, (p@, o@)));
                        }
                    },
                    None => {
                        se.entries.push(Entry { predicate: p, object: o });
                        proof {
                            assert(entries_view(se.entries@) =~= old_es.push((p@, o@)));
                        }
                    },
                }
                subjects.insert(k, se);
                proof {
                    assert(graph_of(subjects@) =~= graph_replace(g, s@, p@, o@));
                }
                self.subjects = subjects;
            },
            None => {
                let mut es: Vec<Entry> = Vec::new();
                es.push(Entry { predicate: p, object: o });
                subjects.push(SubjectEntries { name: s, entries: es });
                proof {
                    assert(entries_view(es@) =~= seq![(p@, o@)]);
                    assert(graph_of(subjects@) =~= graph_replace(g, s@, p@, o@));
                }
                self.subjects = subjects;
            },
        }
    }

    /// Returns the first matching object, if any.
    ///
    /// Qualified names may use the namespaces associated with the store.
    pub fn find_object(&self, subject: &str, predicate: &str) -> (r: Option<Object>)
        ensures
            ({
                let es = entries_of(self.graph(), expand_or_blank_spec(self.ns(), subject@));
                match first_pred(es, expand_spec(self.ns(), predicate@)) {
                    Some(j) => r is Some && r.unwrap()@ == es[j].1,
                    None => r is None,
                }
            }),
    {
        let s = expand_uri_or_blank(&self.namespaces, subject);
        let p = expand_uri(&self.namespaces, predicate);
        match self.find_subject(s.as_str()) {
            Some(k) => {
                let es = &self.subjects[k].entries;
                match pred_position(es, p.as_str()) {
                    Some(j) => Some(es[j].object.copy()),
                    None => None,
                }
            },
            None => {
                assert(entries_of(self.graph(), s@) =~= Seq::<(Seq<char>, Term)>::empty());
                None
            },
        }
    }

    /// Returns all matching objects.
    ///
    /// Qualified names may use the namespaces associated with the store.
    pub fn find_objects(&self, subject: &str, predicate: &str) -> (r: Vec<Object>)
        ensures
            terms(r@) == objects_with(
                entries_of(self.graph(), expand_or_blank_spec(self.ns(), subject@)),
                expand_spec(self.ns(), predicate@),
            ),
    {
        let s = expand_uri_or_blank(&self.namespaces, subject);
        let p = expand_uri(&self.namespaces, predicate);
        match self.find_subject(s.as_str()) {
            Some(k) => {
                let es = &self.subjects[k].entries;
                let ghost ev = entries_view(es@);
                let mut r: Vec<Object> = Vec::new();
                let mut i: usize = 0;
                while i < es.len()
                    invariant
                        i <= es.len(),
                        ev == entries_view(es@),
                        terms(r@) == objects_with(ev.take(i as int), p@),
                    decreases es.len() - i,
                {
                    if str_eq(es[i].predicate.as_str(), p.as_str()) {
                        r.push(es[i].object.copy());
                    }
                    i += 1;
                    proof {
                        assert(ev.take(i as int).drop_last() =~= ev.take(i - 1));
                        assert(terms(r@) =~= objects_with(ev.take(i as int), p@));
                    }
                }
                assert(ev.take(es.len() as int) =~= ev);
                r
            },
            None => {
                assert(entries_of(self.graph(), s@) =~= Seq::<(Seq<char>, Term)>::empty());
                let r: Vec<Object> = Vec::new();
                assert(terms(r@) =~= Seq::<Term>::empty());
                r
            },
        }
    }

    /// Removes all triples from the store.
    pub fn clear(&mut self)
        ensures
            final(self).graph() == Seq::<(Seq<char>, Seq<(Seq<char>, Term)>)>::empty(),
            final(self).blank_counter() == old(self).blank_counter(),
            final(self).ns() == old(self).ns(),
            final(self).extension_names() == old(self).extension_names(),
    {
        self.subjects = Vec::new();
        assert(graph_of(self.subjects@) =~= Seq::<(Seq<char>, Seq<(Seq<char>, Term)>)>::empty());
    }
}

impl Store {
    /// Adds one statement, names expanded with the store's namespaces.
    fn add_one(&mut self, subject: String, predicate: String, object: Object)
        ensures
            final(self).graph() == append_one(old(self).graph(), old(self).ns(), subject@, predicate@, object@),
            final(self).blank_counter() == old(self).blank_counter(),
            final(self).ns() == old(self).ns(),
            final(self).extension_names() == old(self).extension_names(),
    {
        let none: Vec<Namespace> = Vec::new();
        assert(self.ns() + ns_view(none@) =~= self.ns());
        self.add_triple(&none, Triple { subject, predicate, object });
    }

    /// Adds a subject statement referencing a new blank node, and the entries about that node.
    ///
    /// Label is an arbitrary string useful for debugging. Returns the name of the blank node.
    pub fn add_aggregate(&mut self, subject: &str, predicate: &str, label: &str, entries: &Vec<(String, Object)>) -> (r: String)
        ensures
            r@ == blank_name(label@, old(self).blank_counter()),
            ({
                let ns = old(self).ns();
                let g1 = append_one(old(self).graph(), ns, subject@, predicate@, Term::Blank(r@));
                final(self).graph() == (if entries@.len() == 0 {
                    g1
                } else {
                    graph_append(g1, expand_or_blank_spec(ns, r@), expand_entries_spec(ns, pairs_view(entries@)))
                })
            }),
            final(self).blank_counter() == old(self).blank_counter().wrapping_add(1),
            final(self).ns() == old(self).ns(),
            final(self).extension_names() == old(self).extension_names(),
    {
        let blank = self.get_blank_name(label);
        self.add_one(subject.to_owned(), predicate.to_owned(), Object::BlankValue(blank.clone()));
        self.add(blank.as_str(), entries);
        blank
    }

    /// Adds statements representing an arbitrary open container using 1-based integral keys.
    pub fn add_container(&mut self, subject: &str, kind: &str, values: &Vec<Object>)
        ensures
            ({
                let ns = old(self).ns();
                let blank = blank_name(after_spec(subject@, ':') + "-items"@, old(self).blank_counter());
                let g1 = append_one(old(self).graph(), ns, subject@, kind@, Term::Blank(blank));
                final(self).graph() == (if values@.len() == 0 {
                    g1
                } else {
                    graph_append(g1, expand_or_blank_spec(ns, blank),
                        expand_entries_spec(ns, container_entries(terms(values@))))
                })
            }),
            final(self).blank_counter() == old(self).blank_counter().wrapping_add(1),
            final(self).ns() == old(self).ns(),
            final(self).extension_names() == old(self).extension_names(),
    {
        let a = after(subject, ':');
        let label = concat_str(a.as_str(), "-items");
        let blank = self.get_blank_name(label.as_str());
        self.add_one(subject.to_owned(), kind.to_owned(), Object::BlankValue(blank.clone()));
        let mut pairs: Vec<(String, Object)> = Vec::new();
        let mut i: usize = 0;
        while i < values.len()
            invariant
                i <= values.len(),
                pairs_view(pairs@) == container_entries(terms(values@)).take(i as int),
            decreases values.len() - i,
        {
            assert(i + 1 <= usize::MAX);
            let n = nat_to_string((i + 1) as u64);
            let pred = concat_str("http://www.w3.org/1999/02/22-rdf-syntax-ns#_", n.as_str());
            let ghost before = pairs@;
            pairs.push((pred, values[i].copy()));
            i += 1;
            proof {
                assert(pairs_view(pairs@) =~= pairs_view(before).push((pred@, values@[i - 1]@)));
                assert(container_entries(terms(values@)).take(i as int) =~= container_entries(terms(values@)).take(i - 1).push(
                    (member_pred(i as nat), values@[i - 1]@)));
            }
        }
        assert(container_entries(terms(values@)).take(values.len() as int) =~= container_entries(terms(values@)));
        self.add(blank.as_str(), &pairs);
    }

    /// Adds statements representing a choice between alternatives.
    pub fn add_alt(&mut self, subject: &str, values: &Vec<Object>)
        ensures
            ({
                let ns = old(self).ns();
                let blank = blank_name(after_spec(subject@, ':') + "-items"@, old(self).blank_counter());
                let g1 = append_one(old(self).graph(), ns, subject@,
                    "http://www.w3.org/1999/02/22-rdf-syntax-ns#Alt"@, Term::Blank(blank));
                final(self).graph() == (if values@.len() == 0 {
                    g1
                } else {
                    graph_append(g1, expand_or_blank_spec(ns, blank),
                        expand_entries_spec(ns, container_entries(terms(values@))))
                })
            }),
            final(self).blank_counter() == old(self).blank_counter().wrapping_add(1),
            final(self).ns() == old(self).ns(),
            final(self).extension_names() == old(self).extension_names(),
    {
        self.add_container(subject, "http://www.w3.org/1999/02/22-rdf-syntax-ns#Alt", values);
    }

    /// Adds statements representing an unordered set of (possibly duplicate) values.
    pub fn add_bag(&mut self, subject: &str, values: &Vec<Object>)
        ensures
            ({
                let ns = old(self).ns();
                let blank = blank_name(after_spec(subject@, ':') + "-items"@, old(self).blank_counter());
                let g1 = append_one(old(self).graph(), ns, subject@,
                    "http://www.w3.org/1999/02/22-rdf-syntax-ns#Bag"@, Term::Blank(blank));
                final(self).graph() == (if values@.len() == 0 {
                    g1
                } else {
                    graph_append(g1, expand_or_blank_spec(ns, blank),
                        expand_entries_spec(ns, container_entries(terms(values@))))
                })
            }),
            final(self).blank_counter() == old(self).blank_counter().wrapping_add(1),
            final(self).ns() == old(self).ns(),
            final(self).extension_names() == old(self).extension_names(),
    {
        self.add_container(subject, "http://www.w3.org/1999/02/22-rdf-syntax-ns#Bag", values);
    }

    /// Adds statements representing an ordered set of (possibly duplicate) values.
    pub fn add_seq(&mut self, subject: &str, values: &Vec<Object>)
        ensures
            ({
                let ns = old(self).ns();
                let blank = blank_name(after_spec(subject@, ':') + "-items"@, old(self).blank_counter());
                let g1 = append_one(old(self).graph(), ns, subject@,
                    "http://www.w3.org/1999/02/22-rdf-syntax-ns#Seq"@, Term::Blank(blank));
                final(self).graph() == (if values@.len() == 0 {
                    g1
                } else {
                    graph_append(g1, expand_or_blank_spec(ns, blank),
                        expand_entries_spec(ns, container_entries(terms(values@))))
                })
            }),
            final(self).blank_counter() == old(self).blank_counter().wrapping_add(1),
            final(self).ns() == old(self).ns(),
            final(self).extension_names() == old(self).extension_names(),
    {
        self.add_container(subject, "http://www.w3.org/1999/02/22-rdf-syntax-ns#Seq", values);
    }

    /// Adds a fixed size list of (possibly duplicate) items, as a chain of rdf:first/rdf:rest
    /// cells ending in rdf:nil.
    pub fn add_list(&mut self, subject: &str, predicate: &str, values: &Vec<Object>)
        ensures
            ({
                let ns = old(self).ns();
                let prefix = after_spec(predicate@, ':');
                let c = old(self).blank_counter();
                let b0 = blank_name(prefix, c);
                let g1 = append_one(old(self).graph(), ns, subject@, predicate@, Term::Blank(b0));
                &&& final(self).graph() == list_graph(g1, ns, prefix, c.wrapping_add(1), b0, terms(values@))
                &&& final(self).graph() == append_all(g1, ns, list_statements(prefix, c.wrapping_add(1), b0, terms(values@)))
                &&& final(self).blank_counter() == counter_after(c.wrapping_add(1), values@.len())
            }),
            final(self).ns() == old(self).ns(),
            final(self).extension_names() == old(self).extension_names(),
    {
        let ghost ns = self.ns();
        let ghost names = self.extension_names();
        let ghost vs = terms(values@);
        let prefix = after(predicate, ':');
        let mut blank = self.get_blank_name(prefix.as_str());
        self.add_one(subject.to_owned(), predicate.to_owned(), Object::BlankValue(blank.clone()));
        let ghost target = list_graph(self.graph(), ns, prefix@, self.blank_counter(), blank@, vs);
        proof {
            law_list_chain(self.graph(), ns, prefix@, self.blank_counter(), blank@, vs);
        }
        let ghost target_counter = counter_after(self.blank_counter(), vs.len());
        assert(vs.skip(0) =~= vs);
        let mut i: usize = 0;
        while i < values.len()
            invariant
                i <= values.len(),
                vs == terms(values@),
                ns == self.ns(),
                names == self.extension_names(),
                list_graph(self.graph(), ns, prefix@, self.blank_counter(), blank@, vs.skip(i as int)) == target,
                counter_after(self.blank_counter(), (vs.len() - i) as nat) == target_counter,
            decreases values.len() - i,
        {
            proof {
                assert(vs.skip(i as int)[0] == values@[i as int]@);
                assert(vs.skip(i as int).drop_first() =~= vs.skip(i + 1));
            }
            let next = self.get_blank_name(prefix.as_str());
            self.add_one(blank.clone(), "http://www.w3.org/1999/02/22-rdf-syntax-ns#first".to_owned(), values[i].copy());
            self.add_one(blank.clone(), "http://www.w3.org/1999/02/22-rdf-syntax-ns#rest".to_owned(), Object::BlankValue(next.clone()));
            blank = next;
            i += 1;
        }
        self.add_one(blank.clone(), "http://www.w3.org/1999/02/22-rdf-syntax-ns#rest".to_owned(),
            Object::IriValue("http://www.w3.org/1999/02/22-rdf-syntax-ns#nil".to_owned()));
        proof {
            assert(vs.skip(values.len() as int) =~= Seq::<Term>::empty());
        }
    }

    /// Adds a statement about a statement: a blank node typed rdf:Statement with its subject,
    /// predicate and object.
    ///
    /// Often used for meta-data, e.g. a timestamp stating when a statement was added to the store.
    pub fn add_reify(&mut self, subject: &str, predicate: &str, value: Object)
        ensures
            ({
                let ns = old(self).ns();
                let b = blank_name(after_spec(predicate@, ':'), old(self).blank_counter());
                let g1 = append_one(old(self).graph(), ns, b, "http://www.w3.org/1999/02/22-rdf-syntax-ns#type"@,
                    Term::Iri("http://www.w3.org/1999/02/22-rdf-syntax-ns#Statement"@));
                let g2 = append_one(g1, ns, b, "http://www.w3.org/1999/02/22-rdf-syntax-ns#subject"@, Term::Iri(subject@));
                let g3 = append_one(g2, ns, b, "http://www.w3.org/1999/02/22-rdf-syntax-ns#predicate"@, Term::Iri(predicate@));
                final(self).graph() == append_one(g3, ns, b, "http://www.w3.org/1999/02/22-rdf-syntax-ns#object"@, value@)
            }),
            final(self).blank_counter() == old(self).blank_counter().wrapping_add(1),
            final(self).ns() == old(self).ns(),
            final(self).extension_names() == old(self).extension_names(),
    {
        let a = after(predicate, ':');
        let blank = self.get_blank_name(a.as_str());
        self.add_one(blank.clone(), "http://www.w3.org/1999/02/22-rdf-syntax-ns#type".to_owned(),
            Object::IriValue("http://www.w3.org/1999/02/22-rdf-syntax-ns#Statement".to_owned()));
        self.add_one(blank.clone(), "http://www.w3.org/1999/02/22-rdf-syntax-ns#subject".to_owned(),
            Object::IriValue(subject.to_owned()));
        self.add_one(blank.clone(), "http://www.w3.org/1999/02/22-rdf-syntax-ns#predicate".to_owned(),
            Object::IriValue(predicate.to_owned()));
        self.add_one(blank, "http://www.w3.org/1999/02/22-rdf-syntax-ns#object".to_owned(), value);
    }

    /// Every statement of the store, subject by subject.
    pub fn triples(&self) -> (r: Vec<Triple>)
        ensures
            r@.map_values(|t: Triple| t@) == graph_triples(self.graph()),
    {
        let ghost g = self.graph();
        let mut r: Vec<Triple> = Vec::new();
        let mut i: usize = 0;
        while i < self.subjects.len()
            invariant
                i <= self.subjects.len(),
                g == graph_of(self.subjects@),
                r@.map_values(|t: Triple| t@) == graph_triples(g.take(i as int)),
            decreases self.subjects.len() - i,
        {
            let se = &self.subjects[i];
            let ghost base = r@.map_values(|t: Triple| t@);
            let ghost ev = entries_view(se.entries@);
            let mut j: usize = 0;
            while j < se.entries.len()
                invariant
                    j <= se.entries.len(),
                    ev == entries_view(se.entries@),
                    r@.map_values(|t: Triple| t@) == base + subject_triples(se.name@, ev.take(j as int)),
                decreases se.entries.len() - j,
            {
                let e = &se.entries[j];
                let ghost before = r@;
                r.push(Triple { subject: se.name.clone(), predicate: e.predicate.clone(), object: e.object.copy() });
                j += 1;
                proof {
                    assert(r@.map_values(|t: Triple| t@) =~= before.map_values(|t: Triple| t@).push((se.name@, e.predicate@, e.object@)));
                    assert(subject_triples(se.name@, ev.take(j as int)) =~= subject_triples(se.name@, ev.take(j - 1)).push(
                        (se.name@, e.predicate@, e.object@)));
                }
            }
            i += 1;
            proof {
                assert(ev.take(se.entries.len() as int) =~= ev);
                assert(g.take(i as int).drop_last() =~= g.take(i - 1));
                assert(g.take(i as int).last() == g[i - 1]);
            }
        }
        assert(g.take(self.subjects.len() as int) =~= g);
        r
    }

    /// Hands each statement of the store, subject by subject, to `blk`, and stops after the
    /// first one for which `blk` answers false. The result is the number of statements handed
    /// out: all of them, or up to and including the one that stopped the walk.
    pub fn each<F: Fn(&Triple) -> bool>(&self, blk: F) -> (r: usize)
        requires
            forall|t: Triple| call_requires(blk, (&t,)),
        ensures
            r <= graph_triples(self.graph()).len(),
            forall|k: int| 0 <= k < r - 1 ==> answered(blk, #[trigger] graph_triples(self.graph())[k], true),
            r < graph_triples(self.graph()).len() ==> r >= 1 && answered(blk, graph_triples(self.graph())[r - 1], false),
    {
        let ts = self.triples();
        let ghost gt = graph_triples(self.graph());
        assert(ts@.len() == gt.len()) by {
            assert(ts@.map_values(|t: Triple| t@).len() == ts@.len());
        }
        let mut i: usize = 0;
        while i < ts.len()
            invariant
                i <= ts.len(),
                ts@.map_values(|t: Triple| t@) == gt,
                gt == graph_triples(self.graph()),
                ts@.len() == gt.len(),
                forall|t: Triple| call_requires(blk, (&t,)),
                forall|k: int| 0 <= k < i ==> answered(blk, #[trigger] gt[k], true),
            decreases ts.len() - i,
        {
            let go = blk(&ts[i]);
            proof {
                assert(ts@.map_values(|t: Triple| t@)[i as int] == ts@[i as int]@);
                assert(answered(blk, gt[i as int], go));
            }
            if !go {
                return i + 1;
            }
            i += 1;
        }
        i
    }

    /// A dump of the statements, one per line.
    pub fn to_str(&self) -> (s: String)
        ensures
            s@ == graph_text(self.graph()),
    {
        let ghost g = self.graph();
        let mut out = String::new();
        let mut i: usize = 0;
        while i < self.subjects.len()
            invariant
                i <= self.subjects.len(),
                g == graph_of(self.subjects@),
                out@ == graph_text(g.take(i as int)),
            decreases self.subjects.len() - i,
        {
            let se = &self.subjects[i];
            let ghost base = out@;
            let ghost ev = entries_view(se.entries@);
            let mut j: usize = 0;
            while j < se.entries.len()
                invariant
                    j <= se.entries.len(),
                    ev == entries_view(se.entries@),
                    out@ == base + entries_text(se.name@, ev.take(j as int)),
                decreases se.entries.len() - j,
            {
                let e = &se.entries[j];
                let line = statement_line(j, se.name.as_str(), e);
                out = concat_str(out.as_str(), line.as_str());
                j += 1;
                proof {
                    assert(ev.take(j as int).drop_last() =~= ev.take(j - 1));
                    assert(ev.take(j as int).last() == ev[j - 1]);
                }
            }
            i += 1;
            proof {
                assert(ev.take(se.entries.len() as int) =~= ev);
                assert(g.take(i as int).drop_last() =~= g.take(i - 1));
                assert(g.take(i as int).last() == g[i - 1]);
            }
        }
        assert(g.take(self.subjects.len() as int) =~= g);
        out
    }

    /// Calls an extension function; rrdf:pname is always available and comes first.
    ///
    /// Returns `None` when no extension has that name.
    pub fn call_extension(&self, name: &str, args: &Vec<Object>) -> (r: Option<Object>)
        ensures
            name@ == "rrdf:pname"@ ==> r is Some && r.unwrap()@ == pname_spec(self.ns(), terms(args@)),
            name@ != "rrdf:pname"@ ==> (r is Some <==> self.extension_names().contains(name@)),
    {
        if str_eq(name, "rrdf:pname") {
            return Some(pname_fn(&self.namespaces, args));
        }
        let ghost names = self.extension_names();
        let mut i: usize = 0;
        while i < self.extensions.len()
            invariant
                i <= self.extensions.len(),
                names == self.extensions@.map_values(|e: Extension| e.name@),
                name@ != "rrdf:pname"@,
                forall|k: int| 0 <= k < i ==> names[k] != name@,
            decreases self.extensions.len() - i,
        {
            if str_eq(self.extensions[i].name.as_str(), name) {
                assert(names[i as int] == name@);
                return Some(self.extensions[i].function.call(&self.namespaces, args));
            }
            i += 1;
        }
        proof {
            if names.contains(name@) {
                let k = choose|k: int| 0 <= k < names.len() && names[k] == name@;
                assert(names[k] != name@);
            }
        }
        None
    }
}

fn statement_line(i: usize, subject: &str, e: &Entry) -> (r: String)
    ensures
        r@ == entry_line(i as nat, subject@, e@),
{
    let n = nat_to_string(i as u64);
    let a = concat_str(n.as_str(), ": <");
    let b = concat_str(a.as_str(), subject);
    let c = concat_str(b.as_str(), ">  <");
    let d = concat_str(c.as_str(), e.predicate.as_str());
    let f = concat_str(d.as_str(), ">  ");
    let t = e.object.to_str();
    let h = concat_str(f.as_str(), t.as_str());
    concat_str(h.as_str(), "}\n")
}

impl Triple {
    /// The text of the triple: "{subject, predicate, object}".
    pub fn to_str(&self) -> (s: String)
        ensures
            s@ == triple_text(self@),
    {
        let a = concat_str("{", self.subject.as_str());
        let b = concat_str(a.as_str(), ", ");
        let c = concat_str(b.as_str(), self.predicate.as_str());
        let d = concat_str(c.as_str(), ", ");
        let t = self.object.to_str();
        let f = concat_str(d.as_str(), t.as_str());
        concat_str(f.as_str(), "}")
    }
}

/// The text after the last occurrence of a character, or all of it.
pub fn after(text: &str, ch: char) -> (r: String)
    ensures
        r@ == after_spec(text@, ch),
{
    let chars = chars_of(text);
    let ghost t = text@;
    let mut i: usize = chars.len();
    assert(t.take(i as int) =~= t);
    while i > 0
        invariant
            i <= chars.len(),
            chars@ == t,
            t == text@,
            last_index(t, ch) == last_index(t.take(i as int), ch),
        decreases i,
    {
        if chars[i - 1] == ch {
            assert(t.take(i as int).len() == i);
            assert(t.take(i as int).last() == ch);
            assert(last_index(t.take(i as int), ch) == Some(i - 1));
            assert(t.skip(i as int) =~= t.subrange(i as int, t.len() as int));
            return string_of_range(&chars, i, chars.len());
        }
        assert(t.take(i as int).drop_last() =~= t.take(i - 1));
        i -= 1;
    }
    assert(t.take(0) =~= Seq::<char>::empty());
    text.to_owned()
}

/// The rrdf:pname extension: the prefixed name of an IRI (or the name of a blank node).
pub fn pname_fn(namespaces: &Vec<Namespace>, args: &Vec<Object>) -> (r: Object)
    ensures
        r@ == pname_spec(ns_view(namespaces@), terms(args@)),
{
    if args.len() == 1 {
        match &args[0] {
            Object::IriValue(iri) => Object::StringValue(contract_uri(namespaces, iri.as_str()), String::new()),
            Object::BlankValue(name) => Object::StringValue(name.clone(), String::new()),
            _ => {
                let d = args[0].to_debug_str();
                let a = concat_str("rrdf:pname expected an IriValue or BlankValue but was called with ", d.as_str());
                Object::ErrorValue(concat_str(a.as_str(), "."))
            },
        }
    } else {
        let n = nat_to_string(args.len() as u64);
        let a = concat_str("rrdf:pname accepts 1 argument but was called with ", n.as_str());
        Object::ErrorValue(concat_str(a.as_str(), " arguments."))
    }
}

/// The position of the first entry with the predicate, if any.
fn pred_position(es: &Vec<Entry>, p: &str) -> (r: Option<usize>)
    ensures
        match r {
            Some(j) => first_pred(entries_view(es@), p@) == Some(j as int) && j < es@.len(),
            None => first_pred(entries_view(es@), p@) is None,
        },
{
    let ghost ev = entries_view(es@);
    let mut i: usize = 0;
    while i < es.len()
        invariant
            i <= es.len(),
            ev == entries_view(es@),
            forall|k: int| 0 <= k < i ==> ev[k].0 != p@,
        decreases es.len() - i,
    {
        if str_eq(es[i].predicate.as_str(), p) {
            proof {
                assert(ev[i as int].0 == p@);
                let c = choose|j: int| 0 <= j < ev.len() && ev[j].0 == p@ && forall|k: int| 0 <= k < j ==> ev[k].0 != p@;
                if c < i {
                } else if c > i {
                    assert(ev[i as int].0 != p@);
                }
            }
            return Some(i);
        }
        assert(ev[i as int].0 != p@);
        i += 1;
    }
    None
}

/// The namespaces of `a` followed by those of `b`.
fn join_namespaces(a: &Vec<Namespace>, b: &Vec<Namespace>) -> (r: Vec<Namespace>)
    ensures
        ns_view(r@) == ns_view(a@) + ns_view(b@),
{
    let mut all: Vec<Namespace> = Vec::new();
    let mut i: usize = 0;
    while i < a.len()
        invariant
            i <= a.len(),
            ns_view(all@) == ns_view(a@.take(i as int)),
        decreases a.len() - i,
    {
        let ghost before = all@;
        all.push(Namespace { prefix: a[i].prefix.clone(), path: a[i].path.clone() });
        i += 1;
        proof {
            assert(ns_view(all@) =~= ns_view(before).push(a@[i - 1]@));
            assert(ns_view(a@.take(i as int)) =~= ns_view(a@.take(i - 1)).push(a@[i - 1]@));
        }
    }
    let mut j: usize = 0;
    while j < b.len()
        invariant
            j <= b.len(),
            ns_view(all@) == ns_view(a@.take(a.len() as int)) + ns_view(b@.take(j as int)),
        decreases b.len() - j,
    {
        let ghost before = all@;
        all.push(Namespace { prefix: b[j].prefix.clone(), path: b[j].path.clone() });
        j += 1;
        proof {
            assert(ns_view(all@) =~= ns_view(before).push(b@[j - 1]@));
            assert(ns_view(b@.take(j as int)) =~= ns_view(b@.take(j - 1)).push(b@[j - 1]@));
        }
    }
    assert(a@.take(a.len() as int) =~= a@);
    assert(b@.take(b.len() as int) =~= b@);
    all
}

/// An object with its IRIs (and datatype IRI) expanded.
pub fn expand_object(namespaces: &Vec<Namespace>, obj: &Object) -> (r: Object)
    ensures
        r@ == expand_object_spec(ns_view(namespaces@), obj@),
{
    match obj {
        Object::TypedValue(value, kind) => Object::TypedValue(value.clone(), expand_uri(namespaces, kind.as_str())),
        Object::IriValue(value) => Object::IriValue(expand_uri(namespaces, value.as_str())),
        Object::BlankValue(value) => Object::BlankValue(expand_uri(namespaces, value.as_str())),
        _ => obj.copy(),
    }
}

pub fn default_namespaces() -> (r: Vec<Namespace>)
    ensures
        ns_view(r@) == default_ns(),
{
    let mut v: Vec<Namespace> = Vec::new();
    v.push(Namespace { prefix: "_".to_owned(), path: "_:".to_owned() });
    v.push(Namespace { prefix: "xsd".to_owned(), path: "http://www.w3.org/2001/XMLSchema#".to_owned() });
    v.push(Namespace { prefix: "rdf".to_owned(), path: "http://www.w3.org/1999/02/22-rdf-syntax-ns#".to_owned() });
    v.push(Namespace { prefix: "rdfs".to_owned(), path: "http://www.w3.org/2000/01/rdf-schema#".to_owned() });
    v.push(Namespace { prefix: "owl".to_owned(), path: "http://www.w3.org/2002/07/owl#".to_owned() });
    assert(ns_view(v@) =~= default_ns());
    v
}

} // verus!
