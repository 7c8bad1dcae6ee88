use rrdf::namespace::{contract_uri, expand_uri, expand_uri_or_blank, Namespace};
use rrdf::object::{literal_to_object, Object};
use rrdf::operators::op_less_than;
use rrdf::query::join_solutions;
use rrdf::solution::Solution;
use rrdf::sparql::{compile, find_dupes, make_parser};
use rrdf::store::{Store, Triple};

fn string(s: &str) -> Object {
    Object::StringValue(s.to_string(), String::new())
}

fn ns(prefix: &str, path: &str) -> Namespace {
    Namespace { prefix: prefix.to_string(), path: path.to_string() }
}

fn names(v: &[&str]) -> Vec<String> {
    v.iter().map(|s| s.to_string()).collect()
}

fn got_store() -> Store {
    let mut store = Store::new(&vec![ns("got", "http://awoiaf.westeros.org/index.php/"), ns("v", "http://www.w3.org/2006/vcard/ns#")], Vec::new());
    store.add("got:Eddard_Stark", &vec![
        ("v:fn".to_string(), string("Eddard Stark")),
        ("v:nickname".to_string(), string("Ned")),
    ]);
    store
}

fn select(store: &Store, expr: &str) -> Result<Solution, String> {
    compile(expr)?.select(store)
}

#[test]
fn add_then_find_objects() {
    let mut store = got_store();
    assert_eq!(store.find_objects("got:Eddard_Stark", "v:nickname"), vec![string("Ned")]);
    store.add_triple(&Vec::new(), Triple { subject: "got:Eddard_Stark".to_string(), predicate: "v:nickname".to_string(), object: string("Lord Stark") });
    assert_eq!(store.find_objects("got:Eddard_Stark", "v:nickname"), vec![string("Ned"), string("Lord Stark")]);
    assert_eq!(store.find_objects("got:Jon_Snow", "v:nickname"), Vec::<Object>::new());
}

#[test]
fn replace_then_find() {
    let mut store = got_store();
    store.replace_triple(&Vec::new(), Triple { subject: "got:Eddard_Stark".to_string(), predicate: "v:nickname".to_string(), object: string("Ned the Dead") });
    assert_eq!(store.find_object("got:Eddard_Stark", "v:nickname"), Some(string("Ned the Dead")));
    store.replace_triple(&Vec::new(), Triple { subject: "got:Arya".to_string(), predicate: "v:nickname".to_string(), object: string("Underfoot") });
    assert_eq!(store.find_object("got:Arya", "v:nickname"), Some(string("Underfoot")));
    assert_eq!(store.find_object("got:Arya", "v:fn"), None);
}

#[test]
fn successive_blank_names() {
    let mut store = got_store();
    assert_eq!(store.get_blank_name("foo"), "_:foo-0");
    assert_eq!(store.get_blank_name("foo"), "_:foo-1");
    assert_eq!(store.get_blank_name("bar"), "_:bar-2");
}

#[test]
fn expand_contracted() {
    let namespaces = vec![ns("got", "http://awoiaf.westeros.org/index.php/"), ns("v", "http://www.w3.org/2006/vcard/ns#")];
    let iri = "http://www.w3.org/2006/vcard/ns#nickname";
    let short = contract_uri(&namespaces, iri);
    assert_eq!(short, "v:nickname");
    assert_eq!(expand_uri(&namespaces, &short), iri);
    assert_eq!(contract_uri(&namespaces, "http://example.org/x"), "http://example.org/x");
    assert_eq!(expand_uri_or_blank(&namespaces, "_:v-0"), "_:v-0");
    assert_eq!(expand_uri(&namespaces, "got:Arya"), "http://awoiaf.westeros.org/index.php/Arya");
}

fn sol(rows: Vec<Vec<Object>>) -> Solution {
    Solution { namespaces: Vec::new(), bindings: names(&["name", "age"]), num_selected: 2, rows }
}

#[test]
fn optional_join_keeps_left() {
    let store = Store::new(&Vec::new(), Vec::new());
    let left = || sol(vec![
        vec![string("Bob"), Object::unbound()],
        vec![string("Ted"), Object::unbound()],
    ]);
    let right = sol(vec![vec![string("Ted"), Object::IntValue(30)]]);
    let joined = join_solutions(&store, &left(), &right, true);
    assert_eq!(joined.rows, vec![
        vec![string("Bob"), Object::unbound()],
        vec![string("Ted"), Object::IntValue(30)],
    ]);
    let joined = join_solutions(&store, &left(), &right, false);
    assert_eq!(joined.rows, vec![vec![string("Ted"), Object::IntValue(30)]]);
    let empty = sol(vec![]);
    assert_eq!(join_solutions(&store, &left(), &empty, true).rows, left().rows);
    assert!(join_solutions(&store, &left(), &empty, false).rows.is_empty());
}

#[test]
fn limit_caps_rows() {
    let store = got_store();
    let r = select(&store, "SELECT ?s ?p ?o WHERE {?s ?p ?o} LIMIT 1").unwrap();
    assert_eq!(r.rows.len(), 1);
    let r = select(&store, "SELECT ?s ?p ?o WHERE {?s ?p ?o} LIMIT 0").unwrap();
    assert_eq!(r.rows.len(), 0);
}

#[test]
fn order_by_permutes() {
    let store = got_store();
    let plain = select(&store, "SELECT ?o WHERE {?s ?p ?o}").unwrap();
    let down = select(&store, "SELECT ?o WHERE {?s ?p ?o} ORDER BY DESC(?o)").unwrap();
    let up = select(&store, "SELECT ?o WHERE {?s ?p ?o} ORDER BY ?o").unwrap();
    assert_eq!(up.rows.len(), plain.rows.len());
    assert_eq!(down.rows.len(), plain.rows.len());
    assert_eq!(up.rows[0][0], string("Eddard Stark"));
    assert_eq!(up.rows[1][0], string("Ned"));
    assert_eq!(down.rows[0][0], string("Ned"));
    assert_eq!(down.rows[1][0], string("Eddard Stark"));
}

#[test]
fn duplicate_names_are_listed_once_in_order() {
    let dupes = find_dupes(&names(&["b", "a", "c", "b", "a", "b"]));
    assert_eq!(dupes, names(&["a", "b"]));
    assert!(find_dupes(&names(&["a", "b"])).is_empty());
    match compile("SELECT ?y ?x ?y ?x WHERE {?x ?p ?y}") {
        Err(e) => assert_eq!(e, "Select clause has duplicates: x y"),
        Ok(_) => panic!("duplicates were accepted"),
    }
}

#[test]
fn parse_errors() {
    match compile("SELECT ?s WHERE {?s ?p}") {
        Err(e) => assert_eq!(e, "'}' on line 1 col 18"),
        Ok(_) => panic!("an incomplete triple was accepted"),
    }
    match compile("SELECT ?s\nWHERE {?s ?p ?o} junk") {
        Err(e) => assert_eq!(e, "end of query on line 2 col 18"),
        Ok(_) => panic!("trailing text was accepted"),
    }
    let chars: Vec<char> = "PREFIX x: <http://x/> SELECT * {?s ?p ?o}".chars().collect();
    let q = make_parser(&chars).ok().unwrap();
    assert_eq!(q.names, names(&["*"]));
    assert_eq!(q.namespaces.len(), 1);
    assert_eq!(q.namespaces[0].prefix, "x");
    assert_eq!(q.namespaces[0].path, "http://x/");
    assert!(!q.distinct);
    assert_eq!(q.limit, None);
}

#[test]
fn float_literals() {
    let double = "http://www.w3.org/2001/XMLSchema#double";
    let typed = |v: &str| Object::TypedValue(v.to_string(), double.to_string());
    let invalid = |v: &str| Object::InvalidValue(v.to_string(), double.to_string());
    for v in ["3.14", "-3.14", "314e-2", ".5", "5.", " 1e5", "INF", "-infinity", "nan", "nan(x1)", "0x1.8p3", "0x10", ""] {
        assert_eq!(literal_to_object(v, double, ""), typed(v), "{}", v);
    }
    for v in ["2..3", "1e", "1e+", "x", " ", "1 ", "0x", "infin", "nan(", "."] {
        assert_eq!(literal_to_object(v, double, ""), invalid(v), "{}", v);
    }
}

#[test]
fn integer_literals() {
    let integer = "http://www.w3.org/2001/XMLSchema#integer";
    assert_eq!(literal_to_object(" -42", integer, ""), Object::IntValue(-42));
    assert_eq!(literal_to_object("+7", integer, ""), Object::IntValue(7));
    assert_eq!(literal_to_object("99999999999999999999", integer, ""), Object::IntValue(i64::MAX));
    assert_eq!(literal_to_object("-99999999999999999999", integer, ""), Object::IntValue(i64::MIN));
    assert_eq!(literal_to_object("", integer, ""), Object::IntValue(0));
    assert_eq!(literal_to_object("4 ", integer, ""), Object::InvalidValue("4 ".to_string(), integer.to_string()));
}

#[test]
fn accessors() {
    assert!(Object::BoolValue(true).as_bool());
    assert_eq!(Object::IntValue(-5).as_int(), -5);
    assert_eq!(Object::IntValue(5).as_uint(), 5);
    assert_eq!(Object::IntValue(i64::MIN).as_i64(), i64::MIN);
    assert_eq!(string("x").as_str(), "x");
    assert_eq!(Object::IriValue("http://x".to_string()).as_iri(), "http://x");
    assert_eq!(string("x").as_i64_or_default(3), 3);
    assert_eq!(Object::IntValue(4).as_i64_or_default(3), 4);
    assert_eq!(Object::IntValue(4).as_str_or_default("d"), "d");
    assert!(!Object::IntValue(4).as_bool_or_default(false));
}

#[test]
fn datetimes() {
    let kind = "http://www.w3.org/2001/XMLSchema#dateTime";
    let a = literal_to_object("1999-05-31T13:10:00-05:00", kind, "");
    let b = literal_to_object("1999-05-31T13:22:00-05:00", kind, "");
    assert!(matches!(a, Object::DateTimeValue(_)));
    assert_eq!(a.to_str(), "1999-05-31T13:10:00-05:00");
    assert_eq!(op_less_than(&a, &b), Object::BoolValue(true));
    assert_eq!(op_less_than(&b, &a), Object::BoolValue(false));
    assert_eq!(a.as_tm(), match a { Object::DateTimeValue(d) => d, _ => unreachable!() });
    let store = got_store();
    let r = select(&store, "SELECT ?n WHERE {?s ?p ?o . BIND (NOW() AS ?n)}").unwrap();
    assert!(matches!(r.rows[0][0], Object::DateTimeValue(_)));
}

#[test]
fn keywords_and_comments() {
    let store = got_store();
    let r = select(&store, "prefix v: <http://www.w3.org/2006/vcard/ns#> # names\nselect distinct ?s where { ?s v:fn ?o } order by ?s limit 5").unwrap();
    assert_eq!(r.rows.len(), 1);
    assert_eq!(r.rows[0][0], Object::IriValue("http://awoiaf.westeros.org/index.php/Eddard_Stark".to_string()));
}

#[test]
fn zoned_datetimes_order_by_instant() {
    let kind = "http://www.w3.org/2001/XMLSchema#dateTime";
    let early_fields_late_instant = literal_to_object("1999-05-31T13:22:00-05:00", kind, "");
    let late_fields_early_instant = literal_to_object("1999-05-31T14:10:00-04:00", kind, "");
    assert_eq!(op_less_than(&late_fields_early_instant, &early_fields_late_instant), Object::BoolValue(true));
    assert_eq!(op_less_than(&early_fields_late_instant, &late_fields_early_instant), Object::BoolValue(false));

    let mut store = got_store();
    store.add("got:A_Dude", &vec![("v:born".to_string(), early_fields_late_instant)]);
    store.add("got:A_Woman", &vec![("v:born".to_string(), late_fields_early_instant)]);
    let r = select(&store, "PREFIX v: <http://www.w3.org/2006/vcard/ns#> SELECT ?s WHERE {?s v:born ?b} ORDER BY ?b").unwrap();
    assert_eq!(r.rows.len(), 2);
    assert_eq!(r.rows[0][0], Object::IriValue("http://awoiaf.westeros.org/index.php/A_Woman".to_string()));
    assert_eq!(r.rows[1][0], Object::IriValue("http://awoiaf.westeros.org/index.php/A_Dude".to_string()));
}
