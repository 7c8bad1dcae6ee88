use rrdf::expression::{expr_to_str, Expr};
use rrdf::namespace::Namespace;
use rrdf::object::Object;
use rrdf::query::{algebra_to_str, make_distinct, pattern_to_str, solution_row_to_str, solution_to_str, triple_pattern_to_str, Algebra, Pattern, TriplePattern};
use rrdf::solution::Solution;
use rrdf::store::{after, default_namespaces, pname_fn, Store, Triple};

fn s(v: &str) -> Object {
    Object::StringValue(v.to_string(), String::new())
}

fn ns(prefix: &str, path: &str) -> Namespace {
    Namespace { prefix: prefix.to_string(), path: path.to_string() }
}

fn got_cast1() -> Store {
    let mut store = Store::new(&vec![ns("got", "http://awoiaf.westeros.org/index.php/"), ns("v", "http://www.w3.org/2006/vcard/ns#")], Vec::new());
    store.add("got:Eddard_Stark", &vec![("v:fn".to_string(), s("Eddard Stark")), ("v:nickname".to_string(), s("Ned"))]);
    store
}

#[test]
fn store_text() {
    let mut store = got_cast1();
    assert_eq!(store.to_str(),
        "0: <http://awoiaf.westeros.org/index.php/Eddard_Stark>  <http://www.w3.org/2006/vcard/ns#fn>  \"Eddard Stark\"}\n\
         1: <http://awoiaf.westeros.org/index.php/Eddard_Stark>  <http://www.w3.org/2006/vcard/ns#nickname>  \"Ned\"}\n");
    assert_eq!(store.size_hint(), Some(1));
    store.add("got:Jon_Snow", &vec![("v:fn".to_string(), s("Jon Snow"))]);
    assert_eq!(store.size_hint(), Some(2));
    store.clear();
    assert_eq!(store.size_hint(), Some(0));
    assert!(store.triples().is_empty());
    let t = Triple { subject: "a".to_string(), predicate: "b".to_string(), object: Object::IntValue(3) };
    assert_eq!(t.to_str(), "{a, b, 3}");
}

#[test]
fn containers() {
    let mut store = Store::new(&vec![ns("got", "http://awoiaf.westeros.org/index.php/")], Vec::new());
    store.add_bag("got:bag", &vec![s("x")]);
    store.add_seq("got:seq", &vec![s("y"), s("z")]);
    let rdf = "http://www.w3.org/1999/02/22-rdf-syntax-ns#";
    assert_eq!(store.find_object("got:bag", "rdf:Bag"), Some(Object::BlankValue("_:bag-items-0".to_string())));
    assert_eq!(store.find_object("_:bag-items-0", "rdf:_1"), Some(s("x")));
    assert_eq!(store.find_object("got:seq", &format!("{}Seq", rdf)), Some(Object::BlankValue("_:seq-items-1".to_string())));
    assert_eq!(store.find_objects("_:seq-items-1", "rdf:_2"), vec![s("z")]);
}

#[test]
fn namespaces_and_names() {
    let d = default_namespaces();
    assert_eq!(d.len(), 5);
    assert_eq!((d[0].prefix.as_str(), d[0].path.as_str()), ("_", "_:"));
    assert_eq!((d[1].prefix.as_str(), d[1].path.as_str()), ("xsd", "http://www.w3.org/2001/XMLSchema#"));
    assert_eq!(after("http://x/y#z", '#'), "z");
    assert_eq!(after("abc", '#'), "abc");
    let namespaces = vec![ns("got", "http://awoiaf.westeros.org/index.php/")];
    assert_eq!(pname_fn(&namespaces, &vec![Object::IriValue("http://awoiaf.westeros.org/index.php/Arya".to_string())]), s("got:Arya"));
    assert_eq!(pname_fn(&namespaces, &vec![Object::BlankValue("_:b".to_string())]), s("_:b"));
}

#[test]
fn friendly_text() {
    let store = got_cast1();
    let iri = Object::IriValue("http://awoiaf.westeros.org/index.php/Arya".to_string());
    assert_eq!(iri.to_friendly_str(store.namespaces()), "got:Arya");
    assert_eq!(Object::IriValue("http://x/".to_string()).to_friendly_str(store.namespaces()), "<http://x/>");
    assert_eq!(pattern_to_str(&store, &Pattern::Variable("x".to_string())), "?x");
    let tp = TriplePattern {
        subject: Pattern::Variable("s".to_string()),
        predicate: Pattern::Constant(Object::IriValue("http://www.w3.org/2006/vcard/ns#fn".to_string())),
        object: Pattern::Constant(s("Ned")),
    };
    assert_eq!(triple_pattern_to_str(&store, &tp), "{subject: ?s, predicate: v:fn, object: \"Ned\"}");
    let e = Expr::CallExpr("op_equals".to_string(), vec![Expr::VariableExpr("s".to_string()), Expr::ConstantExpr(Object::IntValue(1))]);
    assert_eq!(expr_to_str(&store, &e), "op_equals?s, 1");
    let a = Algebra::Group(vec![
        Algebra::Basic(tp),
        Algebra::Optional(Box::new(Algebra::Filter(Expr::VariableExpr("x".to_string())))),
        Algebra::Bind(Expr::ConstantExpr(Object::BoolValue(true)), "b".to_string()),
    ]);
    assert_eq!(algebra_to_str(&store, &a), "[{subject: ?s, predicate: v:fn, object: \"Ned\"}, optional filter ?x, b = true]");
}

#[test]
fn solution_text() {
    let store = got_cast1();
    let sol = Solution { namespaces: Vec::new(), bindings: vec!["a".to_string(), "b".to_string()], num_selected: 1, rows: vec![
        vec![s("x"), Object::IntValue(1)],
        vec![s("y"), Object::IntValue(2)],
    ] };
    assert_eq!(solution_row_to_str(&store, &sol, &sol.rows[0]), "a: \"x\", [b: 1]");
    assert_eq!(solution_to_str(&store, &sol), "0: a: \"x\", [b: 1]   1: a: \"y\", [b: 2]   ");
    let empty = Solution { namespaces: Vec::new(), bindings: vec!["a".to_string()], num_selected: 1, rows: vec![] };
    assert_eq!(solution_to_str(&store, &empty), "nothing");
    assert_eq!(sol.get(1, "b"), Object::IntValue(2));
    assert_eq!(sol.find(0, "a"), Some(s("x")));
    assert_eq!(sol.find(0, "c"), None);
}

#[test]
fn distinct_keeps_one_row_per_selection() {
    let sol = Solution { namespaces: Vec::new(), bindings: vec!["a".to_string(), "b".to_string()], num_selected: 1, rows: vec![
        vec![s("y"), Object::IntValue(1)],
        vec![s("x"), Object::IntValue(2)],
        vec![s("y"), Object::IntValue(3)],
    ] };
    let d = make_distinct(sol).ok().unwrap();
    let firsts: Vec<Object> = d.rows.iter().map(|r| r[0].clone()).collect();
    assert_eq!(firsts, vec![s("x"), s("y")]);
}
