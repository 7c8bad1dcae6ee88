use rrdf::namespace::Namespace;
use rrdf::object::Object;
use rrdf::solution::Solution;
use rrdf::sparql::compile;
use rrdf::store::Store;

fn got(s: &str) -> String {
    format!("http://awoiaf.westeros.org/index.php/{}", s)
}

fn v(s: &str) -> String {
    format!("http://www.w3.org/2006/vcard/ns#{}", s)
}

fn iri(s: String) -> Object {
    Object::IriValue(s)
}

fn string(s: &str, lang: &str) -> Object {
    Object::StringValue(s.to_string(), lang.to_string())
}

fn unbound() -> Object {
    Object::unbound()
}

fn names(v: &[&str]) -> Vec<String> {
    v.iter().map(|s| s.to_string()).collect()
}

fn ns(prefix: &str, path: &str) -> Namespace {
    Namespace { prefix: prefix.to_string(), path: path.to_string() }
}

fn entries(v: Vec<(&str, Object)>) -> Vec<(String, Object)> {
    v.into_iter().map(|(p, o)| (p.to_string(), o)).collect()
}

fn got_cast1() -> Store {
    let mut store = Store::new(&vec![ns("got", "http://awoiaf.westeros.org/index.php/"), ns("v", "http://www.w3.org/2006/vcard/ns#")], Vec::new());
    store.add("got:Eddard_Stark", &entries(vec![
        ("v:fn", string("Eddard Stark", "")),
        ("v:nickname", string("Ned", "")),
    ]));
    store
}

fn got_cast3() -> Store {
    let mut store = Store::new(&vec![ns("got", "http://awoiaf.westeros.org/index.php/"), ns("v", "http://www.w3.org/2006/vcard/ns#")], Vec::new());
    store.add("got:Eddard_Stark", &entries(vec![
        ("v:fn", string("Eddard Stark", "")),
        ("v:nickname", string("Ned", "")),
        ("v:honorific-prefix", string("Lord", "")),
    ]));
    store.add_aggregate("got:Eddard_Stark", "v:org", "ned-org", &entries(vec![
        ("v:organisation-name", string("Small Council", "")),
        ("v:organisation-unit", string("Hand", "")),
    ]));
    store.add("got:Jon_Snow", &entries(vec![
        ("v:fn", string("Jon Snow", "")),
        ("v:nickname", string("Lord Snow", "")),
        ("v:pet", string("Ghost", "")),
    ]));
    store.add_aggregate("got:Jon_Snow", "v:org", "jon-org", &entries(vec![
        ("v:organisation-name", string("Night's Watch", "")),
        ("v:organisation-unit", string("Stewards", "")),
    ]));
    store.add("got:Sandor_Clegane", &entries(vec![
        ("v:fn", string("Sandor Clegane", "")),
        ("v:nickname", string("The Hound", "")),
    ]));
    store
}

fn animals() -> Store {
    let mut store = Store::new(&vec![ns("wiki", "http://en.wikipedia.org/wiki/")], Vec::new());
    store.add("wiki:aardvark", &entries(vec![
        ("wiki:phylum", string("chordata", "")),
        ("wiki:class", string("mammalia", "")),
        ("wiki:family", string("orycteropodidae", "")),
    ]));
    store.add("wiki:black_widow", &entries(vec![
        ("wiki:phylum", string("arthropoda", "")),
        ("wiki:class", string("arachnida", "")),
        ("wiki:family", string("theridiidae", "")),
    ]));
    store.add("wiki:firefly", &entries(vec![
        ("wiki:phylum", string("arthropoda", "")),
        ("wiki:class", string("insecta", "")),
        ("wiki:family", string("lampyridae", "")),
    ]));
    store.add("wiki:giraffe", &entries(vec![
        ("wiki:phylum", string("chordata", "")),
        ("wiki:class", string("mammalia", "")),
        ("wiki:family", string("giraffidae", "")),
        ("wiki:habitat", string("savannah", "")),
    ]));
    store.add("wiki:grizzly", &entries(vec![
        ("wiki:phylum", string("chordata", "")),
        ("wiki:class", string("mammalia", "")),
        ("wiki:family", string("ursidae", "")),
    ]));
    store.add("wiki:salmon", &entries(vec![
        ("wiki:phylum", string("chordata", "")),
        ("wiki:class", string("actinopterygii", "")),
        ("wiki:family", string("salmonidae", "")),
    ]));
    store
}

/// Compares the selected columns of the rows, as multisets of rows.
fn check_solution(actual: &Solution, expected: &Solution) -> bool {
    assert_eq!(actual.bindings.len(), expected.bindings.len());
    assert_eq!(actual.num_selected, expected.num_selected);
    if actual.rows.len() != expected.rows.len() {
        println!("Actual result had {} rows but expected {} rows: {:?}", actual.rows.len(), expected.rows.len(), actual.rows);
        return false;
    }
    let n = actual.num_selected;
    let mut used = vec![false; actual.rows.len()];
    for erow in expected.rows.iter() {
        let e = &erow[0..n];
        let mut found = false;
        for (i, arow) in actual.rows.iter().enumerate() {
            if !used[i] && &arow[0..n] == e {
                used[i] = true;
                found = true;
                break;
            }
        }
        if !found {
            println!("Expected row {:?} is missing from {:?}", e, actual.rows);
            return false;
        }
    }
    true
}

fn check_eval(store: &Store, expr: &str, expected: &Solution) -> bool {
    match compile(expr) {
        Ok(selector) => match selector.select(store) {
            Ok(actual) => {
                check_solution(&actual, expected)
            },
            Err(mesg) => {
                println!("Eval error: {}", mesg);
                false
            },
        },
        Err(mesg) => {
            println!("Parse error: {}", mesg);
            false
        },
    }
}

fn check_solution_err(store: &Store, expr: &str, expected: &str) -> bool {
    match compile(expr) {
        Ok(selector) => match selector.select(store) {
            Ok(_) => {
                println!("Expr evaluated but expected to find error '{}'.", expected);
                false
            },
            Err(mesg) => {
                if mesg.contains(expected) {
                    true
                } else {
                    println!("Actual eval error was '{}' but expected to find '{}'.", mesg, expected);
                    false
                }
            },
        },
        Err(mesg) => {
            if mesg.contains(expected) {
                true
            } else {
                println!("Actual parse error was '{}' but expected to find '{}'.", mesg, expected);
                false
            }
        },
    }
}

fn wiki(s: &str) -> String {
    format!("http://en.wikipedia.org/wiki/{}", s)
}

fn sol(bindings: &[&str], num_selected: usize, rows: Vec<Vec<Object>>) -> Solution {
    Solution { namespaces: Vec::new(), bindings: names(bindings), num_selected, rows }
}

fn ages(store: &mut Store, ned: i64, jon: i64, sandor: i64) {
    store.add("got:Eddard_Stark", &entries(vec![("v:age", Object::IntValue(ned))]));
    store.add("got:Jon_Snow", &entries(vec![("v:age", Object::IntValue(jon))]));
    store.add("got:Sandor_Clegane", &entries(vec![("v:age", Object::IntValue(sandor))]));
}

#[test]
fn trivial() {
    let expr = "SELECT ?s ?p ?o WHERE {?s ?p ?o}";
    let store = got_cast1();
    let expected = sol(&["s", "p", "o"], 3, vec![
        vec![iri(got("Eddard_Stark")), iri(v("fn")), string("Eddard Stark", "")],
        vec![iri(got("Eddard_Stark")), iri(v("nickname")), string("Ned", "")],
    ]);
    assert!(check_eval(&store, expr, &expected));
}

#[test]
fn out_of_order() {
    let expr = "SELECT ?o ?s ?p WHERE {?s ?p ?o}";
    let store = got_cast1();
    let expected = sol(&["o", "s", "p"], 3, vec![
        vec![string("Eddard Stark", ""), iri(got("Eddard_Stark")), iri(v("fn"))],
        vec![string("Ned", ""), iri(got("Eddard_Stark")), iri(v("nickname"))],
    ]);
    assert!(check_eval(&store, expr, &expected));
}

#[test]
fn long_names() {
    let expr = "SELECT ?subject ?p ?obj WHERE {?subject ?p ?obj}";
    let store = got_cast1();
    let expected = sol(&["subject", "p", "obj"], 3, vec![
        vec![iri(got("Eddard_Stark")), iri(v("fn")), string("Eddard Stark", "")],
        vec![iri(got("Eddard_Stark")), iri(v("nickname")), string("Ned", "")],
    ]);
    assert!(check_eval(&store, expr, &expected));
}

#[test]
fn keyword_case() {
    let expr = "SeLecT ?s ?p ?o where {?s ?p ?o}";
    let store = got_cast1();
    let expected = sol(&["s", "p", "o"], 3, vec![
        vec![iri(got("Eddard_Stark")), iri(v("fn")), string("Eddard Stark", "")],
        vec![iri(got("Eddard_Stark")), iri(v("nickname")), string("Ned", "")],
    ]);
    assert!(check_eval(&store, expr, &expected));
}

#[test]
fn duplicate_select_variables() {
    let expr = "SELECT ?s ?s ?o WHERE {?s ?p ?o}";
    let store = got_cast1();
    assert!(check_solution_err(&store, expr, "Select clause has duplicates: s"));
}

#[test]
fn duplicate_where_variables() {
    let expr = "SELECT ?s ?p ?o WHERE {?s ?s ?o}";
    let store = got_cast1();
    assert!(check_solution_err(&store, expr, "Binding ?s was set more than once."));
}

#[test]
fn unbound_variable() {
    let expr = "SELECT ?s ?p ?z WHERE {?s ?p ?o}";
    let store = got_cast1();
    let expected = sol(&["s", "p", "z", "o"], 3, vec![
        vec![iri(got("Eddard_Stark")), iri(v("fn")), unbound()],
        vec![iri(got("Eddard_Stark")), iri(v("nickname")), unbound()],
    ]);
    assert!(check_eval(&store, expr, &expected));
}

#[test]
fn no_match() {
    let expr = "SELECT ?s ?p WHERE {?s ?p \"Peter Pan\"}";
    let store = got_cast1();
    let expected = sol(&["s", "p"], 2, vec![]);
    assert!(check_eval(&store, expr, &expected));
}

#[test]
fn comment() {
    let expr = "SELECT ?s ?p #your comment here
	WHERE {	# yet another comment
		?s ?p \"Peter Pan\"
	}";
    let store = got_cast1();
    let expected = sol(&["s", "p"], 2, vec![]);
    assert!(check_eval(&store, expr, &expected));
}

#[test]
fn simple_path() {
    let expr = "SELECT ?org
	WHERE {
		<http://awoiaf.westeros.org/index.php/Eddard_Stark> <http://www.w3.org/2006/vcard/ns#org> ?z .
		?z <http://www.w3.org/2006/vcard/ns#organisation-name> ?org
	}";
    let store = got_cast3();
    let expected = sol(&["org", "z"], 1, vec![
        vec![string("Small Council", "")],
    ]);
    assert!(check_eval(&store, expr, &expected));
}

#[test]
fn unmatched_path() {
    let expr = "
	PREFIX wiki: <http://en.wikipedia.org/wiki/>
	SELECT
		?subject
	WHERE
	{
		?subject wiki:phylum \"chordata\" .
		?subject wiki:class \"arachnid\"
	}";
    let mut store = Store::new(&vec![ns("wiki", "http://en.wikipedia.org/wiki/")], Vec::new());
    store.add("wiki:giraffe", &entries(vec![
        ("wiki:phylum", string("chordata", "")),
        ("wiki:class", string("mammalia", "")),
    ]));
    let expected = sol(&["subject"], 1, vec![]);
    assert!(check_eval(&store, expr, &expected));
}

#[test]
fn unmatched_path2() {
    let expr = "
	PREFIX wiki: <http://en.wikipedia.org/wiki/>
	SELECT
		?subject
	WHERE
	{
		?subject wiki:phylum \"motie\" .
		?subject wiki:class \"mammalia\"
	}";
    let store = animals();
    let expected = sol(&["subject"], 1, vec![]);
    assert!(check_eval(&store, expr, &expected));
}

#[test]
fn unmatched_path3() {
    let expr = "
	PREFIX wiki: <http://en.wikipedia.org/wiki/>
	SELECT
		?subject ?family
	WHERE
	{
		?subject wiki:phylum \"arthropoda\" .
		?subject wiki:class \"mammalia\" .
		?subject wiki:family ?family
	}";
    let store = animals();
    let expected = sol(&["subject", "family"], 2, vec![]);
    assert!(check_eval(&store, expr, &expected));
}

#[test]
fn select_all() {
    let expr = "SELECT *
	WHERE {
		<http://awoiaf.westeros.org/index.php/Sandor_Clegane> ?p ?o
	}";
    let store = got_cast3();
    let expected = sol(&["p", "o"], 2, vec![
        vec![iri(v("fn")), string("Sandor Clegane", "")],
        vec![iri(v("nickname")), string("The Hound", "")],
    ]);
    assert!(check_eval(&store, expr, &expected));
}

#[test]
fn prefixes() {
    let expr = "PREFIX got: <http://awoiaf.westeros.org/index.php/>
	PREFIX v: <http://www.w3.org/2006/vcard/ns#>
	SELECT ?org
	WHERE {
		got:Eddard_Stark v:org ?z .
		?z v:organisation-name ?org
	}";
    let store = got_cast3();
    let expected = sol(&["org", "z"], 1, vec![
        vec![string("Small Council", "")],
    ]);
    assert!(check_eval(&store, expr, &expected));
}

#[test]
fn options1() {
    let expr = "PREFIX got: <http://awoiaf.westeros.org/index.php/>
	PREFIX v: <http://www.w3.org/2006/vcard/ns#>
	SELECT ?name ?title
	WHERE {
		?s v:fn ?name .
		OPTIONAL {
			?s v:honorific-prefix ?title
		}
	}";
    let store = got_cast3();
    let expected = sol(&["name", "title", "s"], 2, vec![
        vec![string("Eddard Stark", ""), string("Lord", "")],
        vec![string("Jon Snow", ""), unbound()],
        vec![string("Sandor Clegane", ""), unbound()],
    ]);
    assert!(check_eval(&store, expr, &expected));
}

#[test]
fn options2() {
    let expr = "PREFIX got: <http://awoiaf.westeros.org/index.php/>
	PREFIX v: <http://www.w3.org/2006/vcard/ns#>
	SELECT ?name ?title ?pet
	WHERE {
		?s v:fn ?name .
		OPTIONAL {?s v:honorific-prefix ?title} .
		OPTIONAL {?s v:pet ?pet}
	}";
    let store = got_cast3();
    let expected = sol(&["name", "title", "pet", "s"], 3, vec![
        vec![string("Eddard Stark", ""), string("Lord", ""), unbound()],
        vec![string("Jon Snow", ""), unbound(), string("Ghost", "")],
        vec![string("Sandor Clegane", ""), unbound(), unbound()],
    ]);
    assert!(check_eval(&store, expr, &expected));
}

#[test]
fn filter_constant() {
    let expr = "PREFIX got: <http://awoiaf.westeros.org/index.php/>
	PREFIX v: <http://www.w3.org/2006/vcard/ns#>
	SELECT ?s
	WHERE {
		?s v:age ?age .
		FILTER (?age = 19)
	}";
    let mut store = got_cast3();
    ages(&mut store, 45, 19, 35);
    let expected = sol(&["s", "age"], 1, vec![
        vec![iri(got("Jon_Snow"))],
    ]);
    assert!(check_eval(&store, expr, &expected));
}

#[test]
fn filter_typed_literal() {
    let expr = "PREFIX got: <http://awoiaf.westeros.org/index.php/>
	PREFIX xsd: <http://www.w3.org/2001/XMLSchema#>
	PREFIX v: <http://www.w3.org/2006/vcard/ns#>
	SELECT ?s
	WHERE {
		?s v:age ?age .
		FILTER (?age = \"19\"^^xsd:integer)
	}";
    let mut store = got_cast3();
    ages(&mut store, 45, 19, 35);
    let expected = sol(&["s", "age"], 1, vec![
        vec![iri(got("Jon_Snow"))],
    ]);
    assert!(check_eval(&store, expr, &expected));
}

#[test]
fn filter_non_ebv() {
    let expr = "PREFIX got: <http://awoiaf.westeros.org/index.php/>
	PREFIX v: <http://www.w3.org/2006/vcard/ns#>
	SELECT ?s
	WHERE {
		?s v:age ?age .
		FILTER (?agge = 19)
	}";
    let mut store = got_cast3();
    ages(&mut store, 45, 19, 35);
    assert!(check_solution_err(&store, expr, "=: ?agge was not bound."));
}

#[test]
fn filter_binary() {
    let expr = "PREFIX got: <http://awoiaf.westeros.org/index.php/>
	PREFIX v: <http://www.w3.org/2006/vcard/ns#>
	SELECT ?s
	WHERE {
		?s v:age ?age .
		FILTER (?age = 18 + 5 - 4)
	}";
    let mut store = got_cast3();
    ages(&mut store, 45, 19, 35);
    let expected = sol(&["s", "age"], 1, vec![
        vec![iri(got("Jon_Snow"))],
    ]);
    assert!(check_eval(&store, expr, &expected));
}

#[test]
fn filter_bound() {
    let expr = "PREFIX got: <http://awoiaf.westeros.org/index.php/>
	PREFIX v: <http://www.w3.org/2006/vcard/ns#>
	SELECT ?s
	WHERE {
		?s v:age ?age .
		FILTER (BOUND (?age) && ?age = 19)
	}";
    let mut store = got_cast3();
    ages(&mut store, 45, 19, 35);
    let expected = sol(&["s", "age"], 1, vec![
        vec![iri(got("Jon_Snow"))],
    ]);
    assert!(check_eval(&store, expr, &expected));
}

#[test]
fn filter_if() {
    let expr = "PREFIX got: <http://awoiaf.westeros.org/index.php/>
	PREFIX v: <http://www.w3.org/2006/vcard/ns#>
	SELECT ?s
	WHERE {
		?s v:age ?age .
		FILTER IF(?s = got:Eddard_Stark, ?age = 45, ?age = 19)
	}";
    let mut store = got_cast3();
    ages(&mut store, 45, 19, 35);
    let expected = sol(&["s", "age"], 1, vec![
        vec![iri(got("Eddard_Stark"))],
        vec![iri(got("Jon_Snow"))],
    ]);
    assert!(check_eval(&store, expr, &expected));
}

#[test]
fn filter_coalesce() {
    let expr = "PREFIX got: <http://awoiaf.westeros.org/index.php/>
	PREFIX v: <http://www.w3.org/2006/vcard/ns#>
	SELECT ?s
	WHERE {
		?s v:age ?age .
		FILTER (COALESCE(?x, ?age) = 19)
	}";
    let mut store = got_cast3();
    ages(&mut store, 45, 19, 35);
    let expected = sol(&["s", "age"], 1, vec![
        vec![iri(got("Jon_Snow"))],
    ]);
    assert!(check_eval(&store, expr, &expected));
}

#[test]
fn filter_term_fn() {
    let expr = "PREFIX got: <http://awoiaf.westeros.org/index.php/>
	PREFIX v: <http://www.w3.org/2006/vcard/ns#>
	SELECT ?s
	WHERE {
		?s v:age ?age .
		FILTER (STR(?age) = \"19\")
	}";
    let mut store = got_cast3();
    ages(&mut store, 45, 19, 35);
    let expected = sol(&["s", "age"], 1, vec![
        vec![iri(got("Jon_Snow"))],
    ]);
    assert!(check_eval(&store, expr, &expected));
}

#[test]
fn filter_str_fn() {
    let expr = "PREFIX got: <http://awoiaf.westeros.org/index.php/>
	PREFIX v: <http://www.w3.org/2006/vcard/ns#>
	SELECT ?s
	WHERE {
		?s v:age ?age .
		FILTER CONTAINS(STR(?s), \"_S\")
	}";
    let mut store = got_cast3();
    ages(&mut store, 45, 19, 35);
    let expected = sol(&["s", "age"], 1, vec![
        vec![iri(got("Eddard_Stark"))],
        vec![iri(got("Jon_Snow"))],
    ]);
    assert!(check_eval(&store, expr, &expected));
}

#[test]
fn filter_numeric() {
    let expr = "PREFIX got: <http://awoiaf.westeros.org/index.php/>
	PREFIX v: <http://www.w3.org/2006/vcard/ns#>
	SELECT ?s
	WHERE {
		?s v:age ?age .
		FILTER (ABS(?age) = 19)
	}";
    let mut store = got_cast3();
    ages(&mut store, 45, -19, 35);
    let expected = sol(&["s", "age"], 1, vec![
        vec![iri(got("Jon_Snow"))],
    ]);
    assert!(check_eval(&store, expr, &expected));
}

#[test]
fn filter_optional() {
    let expr = "PREFIX got: <http://awoiaf.westeros.org/index.php/>
	PREFIX v: <http://www.w3.org/2006/vcard/ns#>
	SELECT ?name ?nick
	WHERE {
		?s v:fn ?name .
		OPTIONAL {?s v:nickname ?nick . FILTER CONTAINS(?nick, \" \")}
	}";
    let store = got_cast3();
    let expected = sol(&["name", "nick", "s"], 2, vec![
        vec![string("Eddard Stark", ""), unbound()],
        vec![string("Jon Snow", ""), string("Lord Snow", "")],
        vec![string("Sandor Clegane", ""), string("The Hound", "")],
    ]);
    assert!(check_eval(&store, expr, &expected));
}

fn ordered_rows() -> Vec<Vec<Object>> {
    vec![
        vec![iri(got("Eddard_Stark")), string("Eddard Stark", "")],
        vec![iri(got("Eddard_Stark")), string("Lord", "")],
        vec![iri(got("Eddard_Stark")), string("Ned", "")],
        vec![iri(got("Jon_Snow")), string("Ghost", "")],
        vec![iri(got("Jon_Snow")), string("Jon Snow", "")],
        vec![iri(got("Jon_Snow")), string("Lord Snow", "")],
        vec![iri(got("Sandor_Clegane")), string("Sandor Clegane", "")],
        vec![iri(got("Sandor_Clegane")), string("The Hound", "")],
    ]
}

/// Like `check_eval`, but the rows must come in the expected order.
fn check_ordered(store: &Store, expr: &str, expected: &Solution) -> bool {
    match compile(expr) {
        Ok(selector) => match selector.select(store) {
            Ok(actual) => {
                assert_eq!(actual.bindings.len(), expected.bindings.len());
                assert_eq!(actual.num_selected, expected.num_selected);
                let n = actual.num_selected;
                let a: Vec<Vec<Object>> = actual.rows.iter().map(|r| r[0..n].to_vec()).collect();
                if a != expected.rows {
                    println!("Actual rows {:?} but expected {:?}", a, expected.rows);
                    return false;
                }
                true
            },
            Err(mesg) => {
                println!("Eval error: {}", mesg);
                false
            },
        },
        Err(mesg) => {
            println!("Parse error: {}", mesg);
            false
        },
    }
}

#[test]
fn order_by() {
    let expr = "PREFIX got: <http://awoiaf.westeros.org/index.php/>
	PREFIX v: <http://www.w3.org/2006/vcard/ns#>
	SELECT ?s ?o
	WHERE {
		?s ?p ?o .
		FILTER (!ISBLANK(?s) && !ISBLANK(?o))
	} ORDER BY ?s ?o";
    let store = got_cast3();
    let expected = sol(&["s", "o", "p"], 2, ordered_rows());
    assert!(check_eval(&store, expr, &expected));
    assert!(check_ordered(&store, expr, &expected));
}

#[test]
fn bad_order_by() {
    let expr = "PREFIX got: <http://awoiaf.westeros.org/index.php/>
	PREFIX v: <http://www.w3.org/2006/vcard/ns#>
	SELECT ?s ?o
	WHERE {
		?s ?p ?o .
		FILTER (!ISBLANK(?s) && !ISBLANK(?o))
	} ORDER BY (?s + ?o)";
    let store = got_cast3();
    assert!(check_solution_err(&store, expr, "<: +: expected numeric value but found IriValue(~\"http://awoiaf.westeros.org/index.php/Eddard_Stark\")."));
}

#[test]
fn order_by_desc() {
    let expr = "PREFIX got: <http://awoiaf.westeros.org/index.php/>
	PREFIX v: <http://www.w3.org/2006/vcard/ns#>
	SELECT ?s ?o
	WHERE {
		?s ?p ?o .
		FILTER (!ISBLANK(?s) && !ISBLANK(?o))
	} ORDER BY ASC(?s) DESC(?o)";
    let store = got_cast3();
    let expected = sol(&["s", "o", "p"], 2, vec![
        vec![iri(got("Eddard_Stark")), string("Ned", "")],
        vec![iri(got("Eddard_Stark")), string("Lord", "")],
        vec![iri(got("Eddard_Stark")), string("Eddard Stark", "")],
        vec![iri(got("Jon_Snow")), string("Lord Snow", "")],
        vec![iri(got("Jon_Snow")), string("Jon Snow", "")],
        vec![iri(got("Jon_Snow")), string("Ghost", "")],
        vec![iri(got("Sandor_Clegane")), string("The Hound", "")],
        vec![iri(got("Sandor_Clegane")), string("Sandor Clegane", "")],
    ]);
    assert!(check_eval(&store, expr, &expected));
    assert!(check_ordered(&store, expr, &expected));
}

#[test]
fn limit() {
    let expr = "PREFIX got: <http://awoiaf.westeros.org/index.php/>
	PREFIX v: <http://www.w3.org/2006/vcard/ns#>
	SELECT ?s ?o
	WHERE {
		?s ?p ?o .
		FILTER (!ISBLANK(?s) && !ISBLANK(?o))
	} ORDER BY ?s ?o LIMIT 4";
    let store = got_cast3();
    let mut rows = ordered_rows();
    rows.truncate(4);
    let expected = sol(&["s", "o", "p"], 2, rows);
    assert!(check_eval(&store, expr, &expected));
}

#[test]
fn big_limit() {
    let expr = "PREFIX got: <http://awoiaf.westeros.org/index.php/>
	PREFIX v: <http://www.w3.org/2006/vcard/ns#>
	SELECT ?s ?o
	WHERE {
		?s ?p ?o .
		FILTER (!ISBLANK(?s) && !ISBLANK(?o))
	} ORDER BY ?s ?o LIMIT 400";
    let store = got_cast3();
    let expected = sol(&["s", "o", "p"], 2, ordered_rows());
    assert!(check_eval(&store, expr, &expected));
}

#[test]
fn bind() {
    let expr = "PREFIX got: <http://awoiaf.westeros.org/index.php/>
	PREFIX v: <http://www.w3.org/2006/vcard/ns#>
	SELECT ?d
	WHERE {
		got:Eddard_Stark v:honorific-prefix ?o .
		BIND (CONCAT(?o, ?o) AS ?d)
	}";
    let store = got_cast3();
    let expected = sol(&["d", "o"], 1, vec![
        vec![string("LordLord", "")],
    ]);
    assert!(check_eval(&store, expr, &expected));
}

#[test]
fn extensions() {
    let expr = "SELECT ?sp ?pp
	WHERE {
		?s ?p ?o .
		BIND(rrdf:pname(?s) AS ?sp) .
		BIND(rrdf:pname(?p) AS ?pp) 
	}";
    let store = got_cast1();
    let expected = sol(&["sp", "pp", "s", "p", "o"], 2, vec![
        vec![string("got:Eddard_Stark", ""), string("v:fn", "")],
        vec![string("got:Eddard_Stark", ""), string("v:nickname", "")],
    ]);
    assert!(check_eval(&store, expr, &expected));
}

#[test]
fn distinct() {
    let expr = "SELECT DISTINCT ?s
	WHERE {
		?s ?p ?o .
		FILTER (!ISBLANK(?s))
	}";
    let store = got_cast3();
    let expected = sol(&["s", "p", "o"], 1, vec![
        vec![iri(got("Eddard_Stark"))],
        vec![iri(got("Jon_Snow"))],
        vec![iri(got("Sandor_Clegane"))],
    ]);
    assert!(check_eval(&store, expr, &expected));
}

#[test]
fn pname_with_blank() {
    let expr = "
		SELECT DISTINCT
			?name
		WHERE
		{
			?subject ?predicate ?object .
			BIND(rrdf:pname(?subject) AS ?name) .
		} ORDER BY ?name";
    let store = got_cast3();
    let expected = sol(&["name", "subject", "predicate", "object"], 1, vec![
        vec![string("_:jon-org-1", "")],
        vec![string("_:ned-org-0", "")],
        vec![string("got:Eddard_Stark", "")],
        vec![string("got:Jon_Snow", "")],
        vec![string("got:Sandor_Clegane", "")],
    ]);
    assert!(check_eval(&store, expr, &expected));
    assert!(check_ordered(&store, expr, &expected));
}

#[test]
fn animals1() {
    let expr = "
	PREFIX wiki: <http://en.wikipedia.org/wiki/>
	SELECT
		?subject
	WHERE
	{
		?subject wiki:phylum \"chordata\" .
		?subject wiki:family \"ursidae\"
	}";
    let store = animals();
    let expected = sol(&["subject"], 1, vec![
        vec![iri(wiki("grizzly"))],
    ]);
    assert!(check_eval(&store, expr, &expected));
}

#[test]
fn animals2() {
    let expr = "
	PREFIX wiki: <http://en.wikipedia.org/wiki/>
	SELECT
		?phylum ?family
	WHERE
	{
		?subject wiki:phylum ?phylum .
		?subject wiki:family ?family
	}";
    let store = animals();
    let expected = sol(&["phylum", "family", "subject"], 2, vec![
        vec![string("arthropoda", ""), string("theridiidae", "")],
        vec![string("chordata", ""), string("salmonidae", "")],
        vec![string("chordata", ""), string("orycteropodidae", "")],
        vec![string("arthropoda", ""), string("lampyridae", "")],
        vec![string("chordata", ""), string("giraffidae", "")],
        vec![string("chordata", ""), string("ursidae", "")],
    ]);
    assert!(check_eval(&store, expr, &expected));
}

#[test]
fn animals3() {
    let expr = "
	PREFIX wiki: <http://en.wikipedia.org/wiki/>
	SELECT
		?phylum ?family
	WHERE
	{
		?subject wiki:family ?family .
		?subject wiki:phylum ?phylum .
		?subject wiki:class \"mammalia\"
	}";
    let store = animals();
    let expected = sol(&["phylum", "family", "subject"], 2, vec![
        vec![string("chordata", ""), string("orycteropodidae", "")],
        vec![string("chordata", ""), string("giraffidae", "")],
        vec![string("chordata", ""), string("ursidae", "")],
    ]);
    assert!(check_eval(&store, expr, &expected));
}

#[test]
fn animals4() {
    let expr = "
	PREFIX wiki: <http://en.wikipedia.org/wiki/>
	SELECT
		?phylum ?family ?foo
	WHERE
	{
		?subject wiki:family ?family .
		?subject wiki:phylum ?phylum .
		?subject wiki:class \"mammalia\" .
		OPTIONAL
		{
			?subject wiki:foobar ?foo
		}
	}";
    let store = animals();
    let expected = sol(&["phylum", "family", "foo", "subject"], 3, vec![
        vec![string("chordata", ""), string("orycteropodidae", ""), unbound()],
        vec![string("chordata", ""), string("giraffidae", ""), unbound()],
        vec![string("chordata", ""), string("ursidae", ""), unbound()],
    ]);
    assert!(check_eval(&store, expr, &expected));
}

#[test]
fn animals5() {
    let expr = "
	PREFIX wiki: <http://en.wikipedia.org/wiki/>
	SELECT
		?phylum ?family ?habitat
	WHERE
	{
		?subject wiki:family ?family .
		?subject wiki:phylum ?phylum .
		?subject wiki:class \"mammalia\" .
		OPTIONAL
		{
			?subject wiki:habitat ?habitat
		}
	}";
    let store = animals();
    let expected = sol(&["phylum", "family", "habitat", "subject"], 3, vec![
        vec![string("chordata", ""), string("orycteropodidae", ""), unbound()],
        vec![string("chordata", ""), string("giraffidae", ""), string("savannah", "")],
        vec![string("chordata", ""), string("ursidae", ""), unbound()],
    ]);
    assert!(check_eval(&store, expr, &expected));
}

#[test]
fn blank_query1() {
    let expr = "
	PREFIX got: <http://awoiaf.westeros.org/index.php/>
	PREFIX v: <http://www.w3.org/2006/vcard/ns#>
	SELECT
		?b ?name ?unit
	WHERE
	{
		?b v:organisation-name ?name .
		?b v:organisation-unit ?unit
	}";
    let store = got_cast3();
    let expected = sol(&["b", "name", "unit"], 3, vec![
        vec![Object::BlankValue("_:ned-org-0".to_string()), string("Small Council", ""), string("Hand", "")],
        vec![Object::BlankValue("_:jon-org-1".to_string()), string("Night's Watch", ""), string("Stewards", "")],
    ]);
    assert!(check_eval(&store, expr, &expected));
}

#[test]
fn bad_optional() {
    let expr = "
	PREFIX got: <http://awoiaf.westeros.org/index.php/>
	PREFIX v:    <http://www.w3.org/2006/vcard/ns#>
	SELECT
		?name ?bogus ?pet
	WHERE
	{
		?s v:fn ?name .
		?s v:bogus ?bogus .
		OPTIONAL {?s v:pet ?pet}
	}";
    let store = got_cast3();
    let expected = sol(&["name", "bogus", "pet", "s"], 3, vec![]);
    assert!(check_eval(&store, expr, &expected));
}
