use rrdf::datetime::DateTime;
use rrdf::expression::Expr;
use rrdf::namespace::Namespace;
use rrdf::object::Object;
use rrdf::query::{bind_solution, eval_basic, get_bindings, join_solutions, Algebra, Pattern, QueryContext, TriplePattern};
use rrdf::solution::Solution;
use rrdf::store::Store;

fn string(s: &str, lang: &str) -> Object {
    Object::StringValue(s.to_string(), lang.to_string())
}

fn iri(s: &str) -> Object {
    Object::IriValue(s.to_string())
}

fn unbound() -> Object {
    Object::unbound()
}

fn names(v: &[&str]) -> Vec<String> {
    v.iter().map(|s| s.to_string()).collect()
}

fn ns(prefix: &str, path: &str) -> Namespace {
    Namespace { prefix: prefix.to_string(), path: path.to_string() }
}

fn entries(v: Vec<(&str, Object)>) -> Vec<(String, Object)> {
    v.into_iter().map(|(p, o)| (p.to_string(), o)).collect()
}

fn got_cast1() -> Store {
    let mut store = Store::new(&vec![ns("got", "http://awoiaf.westeros.org/index.php/"), ns("v", "http://www.w3.org/2006/vcard/ns#")], Vec::new());
    store.add("got:Eddard_Stark", &entries(vec![
        ("v:fn", string("Eddard Stark", "")),
        ("v:nickname", string("Ned", "")),
    ]));
    store
}

fn got_cast3() -> Store {
    let mut store = Store::new(&vec![ns("got", "http://awoiaf.westeros.org/index.php/"), ns("v", "http://www.w3.org/2006/vcard/ns#")], Vec::new());
    store.add("got:Eddard_Stark", &entries(vec![
        ("v:fn", string("Eddard Stark", "")),
        ("v:nickname", string("Ned", "")),
        ("v:honorific-prefix", string("Lord", "")),
    ]));
    store.add_aggregate("got:Eddard_Stark", "v:org", "ned-org", &entries(vec![
        ("v:organisation-name", string("Small Council", "")),
        ("v:organisation-unit", string("Hand", "")),
    ]));
    store.add("got:Jon_Snow", &entries(vec![
        ("v:fn", string("Jon Snow", "")),
        ("v:nickname", string("Lord Snow", "")),
        ("v:pet", string("Ghost", "")),
    ]));
    store.add_aggregate("got:Jon_Snow", "v:org", "jon-org", &entries(vec![
        ("v:organisation-name", string("Night's Watch", "")),
        ("v:organisation-unit", string("Stewards", "")),
    ]));
    store.add("got:Sandor_Clegane", &entries(vec![
        ("v:fn", string("Sandor Clegane", "")),
        ("v:nickname", string("The Hound", "")),
    ]));
    store
}

fn animals() -> Store {
    let mut store = Store::new(&vec![ns("wiki", "http://en.wikipedia.org/wiki/")], Vec::new());
    store.add("wiki:aardvark", &entries(vec![
        ("wiki:phylum", string("chordata", "")),
        ("wiki:class", string("mammalia", "")),
        ("wiki:family", string("orycteropodidae", "")),
    ]));
    store.add("wiki:black_widow", &entries(vec![
        ("wiki:phylum", string("arthropoda", "")),
        ("wiki:class", string("arachnida", "")),
        ("wiki:family", string("theridiidae", "")),
    ]));
    store.add("wiki:firefly", &entries(vec![
        ("wiki:phylum", string("arthropoda", "")),
        ("wiki:class", string("insecta", "")),
        ("wiki:family", string("lampyridae", "")),
    ]));
    store.add("wiki:giraffe", &entries(vec![
        ("wiki:phylum", string("chordata", "")),
        ("wiki:class", string("mammalia", "")),
        ("wiki:family", string("giraffidae", "")),
        ("wiki:habitat", string("savannah", "")),
    ]));
    store.add("wiki:grizzly", &entries(vec![
        ("wiki:phylum", string("chordata", "")),
        ("wiki:class", string("mammalia", "")),
        ("wiki:family", string("ursidae", "")),
    ]));
    store.add("wiki:salmon", &entries(vec![
        ("wiki:phylum", string("chordata", "")),
        ("wiki:class", string("actinopterygii", "")),
        ("wiki:family", string("salmonidae", "")),
    ]));
    store
}

/// Compares the selected columns of the rows, as multisets of rows.
fn check_solution(actual: &Solution, expected: &Solution) -> bool {
    assert_eq!(actual.bindings.len(), expected.bindings.len());
    assert_eq!(actual.num_selected, expected.num_selected);
    if actual.rows.len() != expected.rows.len() {
        println!("Actual result had {} rows but expected {} rows: {:?}", actual.rows.len(), expected.rows.len(), actual.rows);
        return false;
    }
    let n = actual.num_selected;
    let mut used = vec![false; actual.rows.len()];
    for erow in expected.rows.iter() {
        let e = &erow[0..n];
        match actual.rows.iter().enumerate().position(|(i, a)| !used[i] && &a[0..n] == e) {
            Some(i) => used[i] = true,
            None => {
                println!("Expected row {:?} is missing from {:?}", e, actual.rows);
                return false;
            },
        }
    }
    true
}

fn sol(store: &Store, rows: Vec<Vec<Object>>) -> Solution {
    Solution { namespaces: store.namespaces().clone(), bindings: names(&["name", "nickname", "honorific"]), num_selected: 3, rows }
}

fn triple(s: Pattern, p: Pattern, o: Pattern) -> TriplePattern {
    TriplePattern { subject: s, predicate: p, object: o }
}

fn var(n: &str) -> Pattern {
    Pattern::Variable(n.to_string())
}

#[test]
fn test_get_bindings() {
    let bindings = get_bindings(&names(&[]), &Algebra::Group(vec![]));
    assert_eq!(bindings, names(&[]));

    let bindings = get_bindings(&names(&["c", "d"]), &Algebra::Group(vec![]));
    assert_eq!(bindings, names(&["c", "d"]));

    let triple1 = || triple(var("a"), Pattern::Constant(Object::BoolValue(true)), var("b"));
    let bindings = get_bindings(&names(&[]), &Algebra::Basic(triple1()));
    assert_eq!(bindings, names(&["a", "b"]));

    let bindings = get_bindings(&names(&["c", "d"]), &Algebra::Basic(triple1()));
    assert_eq!(bindings, names(&["c", "d", "a", "b"]));

    let triple2 = triple(var("a"), Pattern::Constant(Object::BoolValue(true)), var("x"));
    let bindings = get_bindings(&names(&["c", "d"]), &Algebra::Group(vec![Algebra::Basic(triple1()), Algebra::Basic(triple2)]));
    assert_eq!(bindings, names(&["c", "d", "a", "b", "x"]));
}

#[test]
fn test_join() {
    let store = got_cast3();

    // empty x empty
    let group1 = sol(&store, vec![]);
    let group2 = sol(&store, vec![]);
    let expected1 = sol(&store, vec![]);
    assert!(check_solution(&join_solutions(&store, &group1, &group2, false), &expected1));
    assert!(check_solution(&join_solutions(&store, &group1, &group2, true), &expected1));

    // full x empty
    let full = || vec![
        vec![string("Eddark Stark", ""), string("Ned", ""), unbound()],
        vec![string("Jon Snow", ""), string("Lord Snow", ""), unbound()],
        vec![string("Sandor Clegane", ""), string("The Hound", ""), unbound()],
    ];
    let group1 = sol(&store, full());
    let group2 = sol(&store, vec![]);
    let expected1 = sol(&store, vec![]);
    let expected2 = sol(&store, full());
    assert!(check_solution(&join_solutions(&store, &group1, &group2, false), &expected1));
    assert!(check_solution(&join_solutions(&store, &group1, &group2, true), &expected2));

    // full x none
    let group1 = sol(&store, full());
    let group2 = sol(&store, vec![
        vec![string("Petyr Baelish", ""), unbound(), string("Lord", "")],
    ]);
    let expected1 = sol(&store, vec![]);
    let expected2 = sol(&store, full());
    assert!(check_solution(&join_solutions(&store, &group1, &group2, false), &expected1));
    assert!(check_solution(&join_solutions(&store, &group1, &group2, true), &expected2));

    // empty x full
    let group1 = sol(&store, vec![]);
    let group2 = sol(&store, vec![
        vec![string("Jon Snow", ""), unbound(), string("", "")],
        vec![string("Eddark Stark", ""), unbound(), string("Warden of the North", "")],
        vec![string("Petyr Baelish", ""), unbound(), string("Lord", "")],
    ]);
    let expected1 = sol(&store, vec![]);
    let expected2 = sol(&store, vec![]);
    assert!(check_solution(&join_solutions(&store, &group1, &group2, false), &expected1));
    assert!(check_solution(&join_solutions(&store, &group1, &group2, true), &expected2));

    // full x some
    let group1 = sol(&store, full());
    let group2 = sol(&store, vec![
        vec![string("Eddark Stark", ""), unbound(), string("Warden of the North", "")],
    ]);
    let expected1 = sol(&store, vec![
        vec![string("Eddark Stark", ""), string("Ned", ""), string("Warden of the North", "")],
    ]);
    let expected2 = sol(&store, vec![
        vec![string("Eddark Stark", ""), string("Ned", ""), string("Warden of the North", "")],
        vec![string("Jon Snow", ""), string("Lord Snow", ""), unbound()],
        vec![string("Sandor Clegane", ""), string("The Hound", ""), unbound()],
    ]);
    assert!(check_solution(&join_solutions(&store, &group1, &group2, false), &expected1));
    assert!(check_solution(&join_solutions(&store, &group1, &group2, true), &expected2));

    // full x all
    let group1 = sol(&store, vec![
        vec![string("Eddark Stark", ""), string("Ned", ""), unbound()],
        vec![string("Jon Snow", ""), string("Lord Snow", ""), unbound()],
    ]);
    let group2 = sol(&store, vec![
        vec![string("Jon Snow", ""), unbound(), string("", "")],
        vec![string("Eddark Stark", ""), unbound(), string("Warden of the North", "")],
        vec![string("Petyr Baelish", ""), unbound(), string("Lord", "")],
    ]);
    let expected1 = sol(&store, vec![
        vec![string("Eddark Stark", ""), string("Ned", ""), string("Warden of the North", "")],
        vec![string("Jon Snow", ""), string("Lord Snow", ""), string("", "")],
    ]);
    let expected2 = sol(&store, vec![
        vec![string("Eddark Stark", ""), string("Ned", ""), string("Warden of the North", "")],
        vec![string("Jon Snow", ""), string("Lord Snow", ""), string("", "")],
    ]);
    assert!(check_solution(&join_solutions(&store, &group1, &group2, false), &expected1));
    assert!(check_solution(&join_solutions(&store, &group1, &group2, true), &expected2));
}

fn basic_solution(store: &Store, bindings: Vec<String>, num_selected: usize, rows: Vec<Vec<Object>>) -> Solution {
    Solution { namespaces: store.namespaces().clone(), bindings, num_selected, rows }
}

#[test]
fn test_basic() {
    // Variable Variable Variable
    let store = got_cast1();
    let pattern = triple(var("subject"), var("predicate"), var("value"));
    let bindings = names(&["value", "subject", "predicate"]);
    let actual = eval_basic(&store, bindings.clone(), 1, &pattern).unwrap();
    let expected = basic_solution(&store, bindings, 1, vec![
        vec![string("Eddard Stark", ""), iri("http://awoiaf.westeros.org/index.php/Eddard_Stark"), iri("http://www.w3.org/2006/vcard/ns#fn")],
        vec![string("Ned", ""), iri("http://awoiaf.westeros.org/index.php/Eddard_Stark"), iri("http://www.w3.org/2006/vcard/ns#nickname")],
    ]);
    assert!(check_solution(&actual, &expected));

    // Variable Variable Constant
    let store = animals();
    let pattern = triple(var("subject"), var("predicate"), Pattern::Constant(string("mammalia", "")));
    let bindings = names(&["subject", "predicate"]);
    let actual = eval_basic(&store, bindings.clone(), 2, &pattern).unwrap();
    let expected = basic_solution(&store, bindings, 2, vec![
        vec![iri("http://en.wikipedia.org/wiki/aardvark"), iri("http://en.wikipedia.org/wiki/class")],
        vec![iri("http://en.wikipedia.org/wiki/giraffe"), iri("http://en.wikipedia.org/wiki/class")],
        vec![iri("http://en.wikipedia.org/wiki/grizzly"), iri("http://en.wikipedia.org/wiki/class")],
    ]);
    assert!(check_solution(&actual, &expected));

    // Variable Constant Variable
    let pattern = triple(var("subject"), Pattern::Constant(iri("http://en.wikipedia.org/wiki/class")), var("value"));
    let bindings = names(&["value", "subject"]);
    let actual = eval_basic(&store, bindings.clone(), 1, &pattern).unwrap();
    let expected = basic_solution(&store, bindings, 1, vec![
        vec![string("actinopterygii", ""), iri("http://en.wikipedia.org/wiki/salmon")],
        vec![string("arachnida", ""), iri("http://en.wikipedia.org/wiki/black_widow")],
        vec![string("insecta", ""), iri("http://en.wikipedia.org/wiki/firefly")],
        vec![string("mammalia", ""), iri("http://en.wikipedia.org/wiki/aardvark")],
        vec![string("mammalia", ""), iri("http://en.wikipedia.org/wiki/giraffe")],
        vec![string("mammalia", ""), iri("http://en.wikipedia.org/wiki/grizzly")],
    ]);
    assert!(check_solution(&actual, &expected));

    // Constant Variable Variable
    let pattern = triple(Pattern::Constant(iri("http://en.wikipedia.org/wiki/black_widow")), var("predicate"), var("value"));
    let bindings = names(&["value", "predicate"]);
    let actual = eval_basic(&store, bindings.clone(), 1, &pattern).unwrap();
    let expected = basic_solution(&store, bindings, 1, vec![
        vec![string("arachnida", ""), iri("http://en.wikipedia.org/wiki/class")],
        vec![string("arthropoda", ""), iri("http://en.wikipedia.org/wiki/phylum")],
        vec![string("theridiidae", ""), iri("http://en.wikipedia.org/wiki/family")],
    ]);
    assert!(check_solution(&actual, &expected));

    // Constant Variable Constant
    let pattern = triple(Pattern::Constant(iri("http://en.wikipedia.org/wiki/black_widow")), var("predicate"), Pattern::Constant(string("arthropoda", "")));
    let bindings = names(&["predicate"]);
    let actual = eval_basic(&store, bindings.clone(), 1, &pattern).unwrap();
    let expected = basic_solution(&store, bindings, 1, vec![
        vec![iri("http://en.wikipedia.org/wiki/phylum")],
    ]);
    assert!(check_solution(&actual, &expected));

    // Constant Constant Constant
    let pattern = triple(Pattern::Constant(iri("http://en.wikipedia.org/wiki/black_widow")), Pattern::Constant(iri("http://en.wikipedia.org/wiki/phylum")), Pattern::Constant(string("arthropoda", "")));
    let bindings = names(&[]);
    let actual = eval_basic(&store, bindings.clone(), 0, &pattern).unwrap();
    let expected = basic_solution(&store, bindings, 0, vec![
        vec![],
    ]);
    assert!(check_solution(&actual, &expected));
}

fn bind_input() -> Solution {
    Solution { namespaces: Vec::new(), bindings: names(&["subject", "predicate", "value", "x"]), num_selected: 3, rows: vec![
        vec![iri("subject0"), iri("predicate0"), string("value0", ""), unbound()],
        vec![iri("subject1"), iri("predicate1"), string("value1", ""), unbound()],
        vec![iri("subject2"), iri("predicate2"), string("value2", ""), unbound()],
    ] }
}

fn bind_expected(x: Vec<Object>) -> Solution {
    let mut s = bind_input();
    for (row, value) in s.rows.iter_mut().zip(x.into_iter()) {
        row[3] = value;
    }
    s
}

#[test]
fn test_bind() {
    let context = QueryContext { algebra: Algebra::Group(vec![]), order_by: vec![], distinct: false, limit: None, timestamp: DateTime::now() };
    let store = Store::new(&Vec::new(), Vec::new());

    // constant
    let mut actual = bind_input();
    let expr = Expr::ConstantExpr(Object::IntValue(42));
    let result = bind_solution(&store, &context, &mut actual, &expr, "x");
    assert!(result.is_none());
    let expected = bind_expected(vec![Object::IntValue(42), Object::IntValue(42), Object::IntValue(42)]);
    assert!(check_solution(&actual, &expected));
    assert_eq!(actual.rows, expected.rows);

    // variable
    let mut actual = bind_input();
    let expr = Expr::VariableExpr("predicate".to_string());
    let result = bind_solution(&store, &context, &mut actual, &expr, "x");
    assert!(result.is_none());
    let expected = bind_expected(vec![iri("predicate0"), iri("predicate1"), iri("predicate2")]);
    assert!(check_solution(&actual, &expected));
    assert_eq!(actual.rows, expected.rows);

    // call + variable
    let mut actual = bind_input();
    let expr = Expr::CallExpr("ucase_fn".to_string(), vec![Expr::VariableExpr("value".to_string())]);
    let result = bind_solution(&store, &context, &mut actual, &expr, "x");
    assert!(result.is_none());
    let expected = bind_expected(vec![string("VALUE0", ""), string("VALUE1", ""), string("VALUE2", "")]);
    assert!(check_solution(&actual, &expected));
    assert_eq!(actual.rows, expected.rows);
}
