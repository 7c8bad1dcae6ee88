//! Namespaces: prefixes that stand for the leading part of IRIs.
use vstd::prelude::*;
use crate::text::{chars_of, concat_str, starts_with_str, string_of_range};

verus! {

/// Name of a namespace plus the IRI it expands to.
#[derive(Debug, Clone)]
pub struct Namespace {
    pub prefix: String,
    pub path: String,
}

impl View for Namespace {
    type V = (Seq<char>, Seq<char>);

    open spec fn view(&self) -> (Seq<char>, Seq<char>) {
        (self.prefix@, self.path@)
    }
}

impl PartialEq for Namespace {
    fn eq(&self, other: &Namespace) -> (r: bool) {
        self.prefix == other.prefix && self.path == other.path
    }
}

impl vstd::std_specs::cmp::PartialEqSpecImpl for Namespace {
    open spec fn obeys_eq_spec() -> bool {
        true
    }

    open spec fn eq_spec(&self, other: &Namespace) -> bool {
        self.prefix@ == other.prefix@ && self.path@ == other.path@
    }
}

/// The views of a list of namespaces.
pub open spec fn ns_view(ns: Seq<Namespace>) -> Seq<(Seq<char>, Seq<char>)> {
    ns.map_values(|n: Namespace| n@)
}

/// The first namespace whose path starts `iri` replaced by its prefix and a colon.
pub open spec fn contract_spec(ns: Seq<(Seq<char>, Seq<char>)>, iri: Seq<char>) -> Seq<char>
    decreases ns.len(),
{
    if ns.len() == 0 {
        iri
    } else if ns[0].1.is_prefix_of(iri) {
        ns[0].0 + ":"@ + iri.skip(ns[0].1.len() as int)
    } else {
        contract_spec(ns.drop_first(), iri)
    }
}

/// The first namespace whose prefix and a colon start `name` replaced by its path.
pub open spec fn expand_spec(ns: Seq<(Seq<char>, Seq<char>)>, name: Seq<char>) -> Seq<char>
    decreases ns.len(),
{
    if ns.len() == 0 {
        name
    } else if (ns[0].0 + ":"@).is_prefix_of(name) {
        ns[0].1 + name.skip(ns[0].0.len() as int + 1)
    } else {
        expand_spec(ns.drop_first(), name)
    }
}

/// Names of blank nodes start with "_:" and are never expanded.
pub open spec fn expand_or_blank_spec(ns: Seq<(Seq<char>, Seq<char>)>, name: Seq<char>) -> Seq<char> {
    if "_:"@.is_prefix_of(name) {
        name
    } else {
        expand_spec(ns, name)
    }
}

/// Returns either the iri or the prefixed version of the iri.
pub fn contract_uri(namespaces: &Vec<Namespace>, iri: &str) -> (r: String)
    ensures
        r@ == contract_spec(ns_view(namespaces@), iri@),
{
    let ghost nsv = ns_view(namespaces@);
    let chars = chars_of(iri);
    let mut i: usize = 0;
    assert(nsv.skip(0) == nsv);
    while i < namespaces.len()
        invariant
            i <= namespaces.len(),
            nsv == ns_view(namespaces@),
            chars@ == iri@,
            contract_spec(nsv, iri@) == contract_spec(nsv.skip(i as int), iri@),
        decreases namespaces.len() - i,
    {
        let n = &namespaces[i];
        proof {
            assert(nsv.skip(i as int)[0] == n@);
            assert(nsv.skip(i as int).drop_first() == nsv.skip(i + 1));
        }
        if starts_with_str(iri, n.path.as_str()) {
            let plen = chars_of(n.path.as_str()).len();
            let rest = string_of_range(&chars, plen, chars.len());
            let head = concat_str(n.prefix.as_str(), ":");
            proof {
                assert(rest@ == iri@.skip(n.path@.len() as int));
            }
            return concat_str(head.as_str(), rest.as_str());
        }
        i += 1;
    }
    iri.to_owned()
}

/// Expands a prefixed name using the first namespace whose prefix matches.
pub fn expand_uri(namespaces: &Vec<Namespace>, name: &str) -> (r: String)
    ensures
        r@ == expand_spec(ns_view(namespaces@), name@),
{
    let ghost nsv = ns_view(namespaces@);
    let chars = chars_of(name);
    let mut i: usize = 0;
    assert(nsv.skip(0) == nsv);
    while i < namespaces.len()
        invariant
            i <= namespaces.len(),
            nsv == ns_view(namespaces@),
            chars@ == name@,
            expand_spec(nsv, name@) == expand_spec(nsv.skip(i as int), name@),
        decreases namespaces.len() - i,
    {
        let n = &namespaces[i];
        proof {
            assert(nsv.skip(i as int)[0] == n@);
            assert(nsv.skip(i as int).drop_first() == nsv.skip(i + 1));
        }
        let head = concat_str(n.prefix.as_str(), ":");
        if starts_with_str(name, head.as_str()) {
            let hlen = chars_of(head.as_str()).len();
            let rest = string_of_range(&chars, hlen, chars.len());
            proof {
                reveal_strlit(":");
                assert(head@.len() == n.prefix@.len() + 1);
                assert(rest@ == name@.skip(n.prefix@.len() as int + 1));
            }
            return concat_str(n.path.as_str(), rest.as_str());
        }
        i += 1;
    }
    name.to_owned()
}

/// Like `expand_uri`, but leaves blank node names ("_:...") alone.
pub fn expand_uri_or_blank(namespaces: &Vec<Namespace>, name: &str) -> (r: String)
    ensures
        r@ == expand_or_blank_spec(ns_view(namespaces@), name@),
{
    if starts_with_str(name, "_:") {
        name.to_owned()
    } else {
        expand_uri(namespaces, name)
    }
}

// ---- Laws ---------------------------------------------------------------------------------

/// Prefixes that a colon cannot run into: none holds a colon, and no two are equal.
pub open spec fn separable_prefixes(ns: Seq<(Seq<char>, Seq<char>)>) -> bool {
    &&& forall|i: int| 0 <= i < ns.len() ==> !(#[trigger] ns[i].0).contains(':')
    &&& forall|i: int, j: int| 0 <= i < j < ns.len() ==> #[trigger] ns[i].0 != #[trigger] ns[j].0
}

/// A colon-free prefix followed by a colon starts no text that another colon-free prefix
/// and a colon start.
proof fn lemma_prefix_colon(a: Seq<char>, b: Seq<char>, rest: Seq<char>)
    requires
        !a.contains(':'),
        !b.contains(':'),
        a != b,
    ensures
        !(a + ":"@).is_prefix_of(b + ":"@ + rest),
{
    reveal_strlit(":");
    let x = a + ":"@;
    let y = b + ":"@ + rest;
    if x.is_prefix_of(y) {
        if a.len() < b.len() {
            assert(x[a.len() as int] == ':');
            assert(y[a.len() as int] == b[a.len() as int]);
            assert(b.contains(b[a.len() as int]));
        } else if a.len() > b.len() {
            assert(y[b.len() as int] == ':');
            assert(x[b.len() as int] == a[b.len() as int]);
            assert(a.contains(a[b.len() as int]));
        } else {
            assert forall|i: int| 0 <= i < a.len() implies a[i] == b[i] by {
                assert(x[i] == y[i]);
            }
            assert(a =~= b);
        }
    }
}

/// What `contract_spec` makes of an IRI that some namespace path starts: the first such
/// namespace's prefix, a colon and the rest of the IRI.
proof fn lemma_contract_form(ns: Seq<(Seq<char>, Seq<char>)>, iri: Seq<char>) -> (m: int)
    requires
        exists|k: int| 0 <= k < ns.len() && (#[trigger] ns[k]).1.is_prefix_of(iri),
    ensures
        0 <= m < ns.len(),
        ns[m].1.is_prefix_of(iri),
        contract_spec(ns, iri) == ns[m].0 + ":"@ + iri.skip(ns[m].1.len() as int),
    decreases ns.len(),
{
    if ns[0].1.is_prefix_of(iri) {
        0
    } else {
        let k = choose|k: int| 0 <= k < ns.len() && (#[trigger] ns[k]).1.is_prefix_of(iri);
        assert(ns.drop_first()[k - 1] == ns[k]);
        let m = lemma_contract_form(ns.drop_first(), iri);
        assert(ns.drop_first()[m] == ns[m + 1]);
        m + 1
    }
}

/// `expand_spec` uses the first namespace whose prefix and a colon start the name.
proof fn lemma_expand_at(ns: Seq<(Seq<char>, Seq<char>)>, name: Seq<char>, m: int)
    requires
        0 <= m < ns.len(),
        (ns[m].0 + ":"@).is_prefix_of(name),
        forall|j: int| 0 <= j < m ==> !(#[trigger] ns[j].0 + ":"@).is_prefix_of(name),
    ensures
        expand_spec(ns, name) == ns[m].1 + name.skip(ns[m].0.len() as int + 1),
    decreases m,
{
    if m > 0 {
        assert(!(ns[0].0 + ":"@).is_prefix_of(name));
        assert forall|j: int| 0 <= j < m - 1 implies !(#[trigger] ns.drop_first()[j].0 + ":"@).is_prefix_of(name) by {
            assert(ns.drop_first()[j] == ns[j + 1]);
        }
        lemma_expand_at(ns.drop_first(), name, m - 1);
    }
}

/// Expanding a contracted IRI gives the IRI back, when a namespace path starts it and the
/// prefixes are colon-free and distinct.
pub proof fn law_expand_contracted(ns: Seq<(Seq<char>, Seq<char>)>, iri: Seq<char>)
    requires
        separable_prefixes(ns),
        exists|k: int| 0 <= k < ns.len() && (#[trigger] ns[k]).1.is_prefix_of(iri),
    ensures
        expand_spec(ns, contract_spec(ns, iri)) == iri,
{
    reveal_strlit(":");
    let m = lemma_contract_form(ns, iri);
    let rest = iri.skip(ns[m].1.len() as int);
    let c = contract_spec(ns, iri);
    assert(c == ns[m].0 + ":"@ + rest);
    assert((ns[m].0 + ":"@).is_prefix_of(c)) by {
        assert forall|i: int| 0 <= i < ns[m].0.len() + 1 implies (ns[m].0 + ":"@)[i] == c[i] by {}
    }
    assert forall|j: int| 0 <= j < m implies !(#[trigger] ns[j].0 + ":"@).is_prefix_of(c) by {
        lemma_prefix_colon(ns[j].0, ns[m].0, rest);
    }
    lemma_expand_at(ns, c, m);
    assert(c.skip(ns[m].0.len() as int + 1) =~= rest);
    assert(ns[m].1 + rest =~= iri);
}

} // verus!
