use rrdf::namespace::Namespace;
use rrdf::object::{literal_to_object, Object};
use rrdf::solution::Solution;
use rrdf::sparql::compile;
use rrdf::store::Store;

fn got(s: &str) -> String {
    format!("http://awoiaf.westeros.org/index.php/{}", s)
}

fn v(s: &str) -> String {
    format!("http://www.w3.org/2006/vcard/ns#{}", s)
}

fn iri(s: String) -> Object {
    Object::IriValue(s)
}

fn string(s: &str, lang: &str) -> Object {
    Object::StringValue(s.to_string(), lang.to_string())
}



fn ns(prefix: &str, path: &str) -> Namespace {
    Namespace { prefix: prefix.to_string(), path: path.to_string() }
}

fn entries(v: Vec<(&str, Object)>) -> Vec<(String, Object)> {
    v.into_iter().map(|(p, o)| (p.to_string(), o)).collect()
}

fn got_cast1() -> Store {
    let mut store = Store::new(&vec![ns("got", "http://awoiaf.westeros.org/index.php/"), ns("v", "http://www.w3.org/2006/vcard/ns#")], Vec::new());
    store.add("got:Eddard_Stark", &entries(vec![
        ("v:fn", string("Eddard Stark", "")),
        ("v:nickname", string("Ned", "")),
    ]));
    store
}

fn got_cast3() -> Store {
    let mut store = Store::new(&vec![ns("got", "http://awoiaf.westeros.org/index.php/"), ns("v", "http://www.w3.org/2006/vcard/ns#")], Vec::new());
    store.add("got:Eddard_Stark", &entries(vec![
        ("v:fn", string("Eddard Stark", "")),
        ("v:nickname", string("Ned", "")),
        ("v:honorific-prefix", string("Lord", "")),
    ]));
    store.add_aggregate("got:Eddard_Stark", "v:org", "ned-org", &entries(vec![
        ("v:organisation-name", string("Small Council", "")),
        ("v:organisation-unit", string("Hand", "")),
    ]));
    store.add("got:Jon_Snow", &entries(vec![
        ("v:fn", string("Jon Snow", "")),
        ("v:nickname", string("Lord Snow", "")),
        ("v:pet", string("Ghost", "")),
    ]));
    store.add_aggregate("got:Jon_Snow", "v:org", "jon-org", &entries(vec![
        ("v:organisation-name", string("Night's Watch", "")),
        ("v:organisation-unit", string("Stewards", "")),
    ]));
    store.add("got:Sandor_Clegane", &entries(vec![
        ("v:fn", string("Sandor Clegane", "")),
        ("v:nickname", string("The Hound", "")),
    ]));
    store
}


/// Compares the selected columns of the rows, as multisets of rows.
fn check_solution(actual: &Solution, expected: &Solution) -> bool {
    assert_eq!(actual.bindings.len(), expected.bindings.len());
    assert_eq!(actual.num_selected, expected.num_selected);
    if actual.rows.len() != expected.rows.len() {
        println!("Actual result had {} rows but expected {} rows: {:?}", actual.rows.len(), expected.rows.len(), actual.rows);
        return false;
    }
    let n = actual.num_selected;
    let mut used = vec![false; actual.rows.len()];
    for erow in expected.rows.iter() {
        let e = &erow[0..n];
        let mut found = false;
        for (i, arow) in actual.rows.iter().enumerate() {
            if !used[i] && &arow[0..n] == e {
                used[i] = true;
                found = true;
                break;
            }
        }
        if !found {
            println!("Expected row {:?} is missing from {:?}", e, actual.rows);
            return false;
        }
    }
    true
}



/// Checks that the selected values of the rows are `expected`, in any order.
fn check_rows(store: &Store, expr: &str, expected: Vec<Vec<(&str, Object)>>) -> bool {
    match compile(expr) {
        Ok(selector) => match selector.select(store) {
            Ok(actual) => {
                let n = actual.num_selected;
                let want: Vec<Vec<Object>> = expected.iter().map(|row| {
                    for (i, (name, _)) in row.iter().enumerate() {
                        assert_eq!(actual.bindings[i], name.to_string());
                    }
                    row.iter().map(|(_, o)| o.clone()).collect()
                }).collect();
                let e = Solution { namespaces: Vec::new(), bindings: actual.bindings.clone(), num_selected: n, rows: want };
                check_solution(&actual, &e)
            },
            Err(mesg) => {
                println!("Eval error: {}", mesg);
                false
            },
        },
        Err(mesg) => {
            println!("Parse error: {}", mesg);
            false
        },
    }
}

#[test]
fn string1_match() {
    let expr = "SELECT ?s ?p WHERE {?s ?p 'Ned'}";
    let store = got_cast1();
    let expected = vec![
        vec![("s", iri(got("Eddard_Stark"))), ("p", iri(v("nickname")))],
    ];
    assert!(check_rows(&store, expr, expected));
}

#[test]
fn string2_match() {
    let expr = "SELECT ?s ?p WHERE {?s ?p \"Ned\"}";
    let store = got_cast1();
    let expected = vec![
        vec![("s", iri(got("Eddard_Stark"))), ("p", iri(v("nickname")))],
    ];
    assert!(check_rows(&store, expr, expected));
}

#[test]
fn long_string1_match() {
    let expr = "SELECT ?s ?p WHERE {?s ?p '''Name\nTitle'''}";
    let mut store = got_cast1();
    store.add("got:Some_Guy", &entries(vec![
        ("v:fn", string("Name\nTitle", "")),
    ]));
    let expected = vec![
        vec![("s", iri(got("Some_Guy"))), ("p", iri(v("fn")))],
    ];
    assert!(check_rows(&store, expr, expected));
}

#[test]
fn long_string2_match() {
    let expr = "SELECT ?s ?p WHERE {?s ?p \"\"\"Bob \"Bob\n\"\"\"}";
    let mut store = got_cast1();
    store.add("got:Some_Guy", &entries(vec![
        ("v:fn", string("Bob \"Bob\n", "")),
    ]));
    let expected = vec![
        vec![("s", iri(got("Some_Guy"))), ("p", iri(v("fn")))],
    ];
    assert!(check_rows(&store, expr, expected));
}

fn fancy_types() -> Store {
    let mut store = Store::new(&vec![ns("got", "http://awoiaf.westeros.org/index.php/"), ns("x", "http://blah#")], Vec::new());
    store.add("x:Hans", &entries(vec![("x:greeting", string("guten tag", "de"))]));
    store.add("x:Jones", &entries(vec![("x:greeting", string("guten tag", "en-US"))]));
    store
}

#[test]
fn language_tags() {
    let expr = "SELECT ?s WHERE {?s ?p \"guten tag\"@en-US}";
    let store = fancy_types();
    let expected = vec![
        vec![("s", iri("http://blah#Jones".to_string()))],
    ];
    assert!(check_rows(&store, expr, expected));
}

#[test]
fn iri_match() {
    let expr = "SELECT ?s WHERE {?s <http://www.w3.org/2006/vcard/ns#nickname> ?z}";
    let store = got_cast3();
    let expected = vec![
        vec![("s", iri(got("Eddard_Stark")))],
        vec![("s", iri(got("Jon_Snow")))],
        vec![("s", iri(got("Sandor_Clegane")))],
    ];
    assert!(check_rows(&store, expr, expected));
}

#[test]
fn subject_match() {
    let expr = "SELECT ?p WHERE {<http://awoiaf.westeros.org/index.php/Sandor_Clegane> ?p ?z}";
    let store = got_cast3();
    let expected = vec![
        vec![("p", iri(v("fn")))],
        vec![("p", iri(v("nickname")))],
    ];
    assert!(check_rows(&store, expr, expected));
}

#[test]
fn strings_dont_match_uris() {
    let expr = "SELECT ?p WHERE {\"got:Sandor_Clegane\" ?p ?z}";
    let store = got_cast3();
    let expected = vec![];
    assert!(check_rows(&store, expr, expected));
}

#[test]
fn typed_literal_match() {
    let expr = "SELECT ?s ?p WHERE {?s ?p \"Ned\"^^<http://www.w3.org/2001/XMLSchema#string>}";
    let store = got_cast1();
    let expected = vec![
        vec![("s", iri(got("Eddard_Stark"))), ("p", iri(v("nickname")))],
    ];
    assert!(check_rows(&store, expr, expected));
}

#[test]
fn typed_literal_match2() {
    let expr = "
PREFIX xsd: <http://www.w3.org/2001/XMLSchema#>
SELECT 
	?s ?p 
WHERE 
{
	?s ?p \"Ned\"^^xsd:string
}";
    let store = got_cast1();
    let expected = vec![
        vec![("s", iri(got("Eddard_Stark"))), ("p", iri(v("nickname")))],
    ];
    assert!(check_rows(&store, expr, expected));
}

#[test]
fn int_literal() {
    let expr = "SELECT ?s WHERE {?s ?p 23}";
    let mut store = got_cast1();
    store.add("got:Some_Guy", &entries(vec![("v:age", Object::IntValue(23))]));
    store.add("got:Another_Guy", &entries(vec![("v:age", Object::IntValue(23))]));
    let expected = vec![
        vec![("s", iri(got("Another_Guy")))],
        vec![("s", iri(got("Some_Guy")))],
    ];
    assert!(check_rows(&store, expr, expected));
}

#[test]
fn signed_int_literal() {
    let expr = "SELECT ?s WHERE {?s ?p -23}";
    let mut store = got_cast1();
    store.add("got:Some_Guy", &entries(vec![("v:age", Object::IntValue(23))]));
    store.add("got:Another_Guy", &entries(vec![("v:age", Object::IntValue(-23))]));
    let expected = vec![
        vec![("s", iri(got("Another_Guy")))],
    ];
    assert!(check_rows(&store, expr, expected));
}

#[test]
fn boolean_literal() {
    let expr = "SELECT ?s WHERE {?s ?p false}";
    let mut store = got_cast1();
    store.add("got:Some_Guy", &entries(vec![("v:male", Object::BoolValue(true))]));
    store.add("got:A_Woman", &entries(vec![("v:male", Object::BoolValue(false))]));
    let expected = vec![
        vec![("s", iri(got("A_Woman")))],
    ];
    assert!(check_rows(&store, expr, expected));
}

#[test]
fn datetime() {
    let expr = "SELECT ?s WHERE {?s ?p \"1999-05-31T13:10:00-05:00\"^^<http://www.w3.org/2001/XMLSchema#dateTime>}";
    let mut store = got_cast1();
    store.add("got:Some_Guy", &entries(vec![
        ("v:born", literal_to_object("1999-05-31T13:10:00-05:00", "http://www.w3.org/2001/XMLSchema#dateTime", "")),
    ]));
    store.add("got:A_Dude", &entries(vec![
        ("v:born", literal_to_object("1999-05-31T13:22:00-05:00", "http://www.w3.org/2001/XMLSchema#dateTime", "")),
    ]));
    let expected = vec![
        vec![("s", iri(got("Some_Guy")))],
    ];
    assert!(check_rows(&store, expr, expected));
}
