use rrdf::namespace::{expand_uri, expand_uri_or_blank, Namespace};
use rrdf::object::{literal_to_object, Object};
use rrdf::query::join_solutions;
use rrdf::solution::Solution;
use rrdf::store::{Store, Triple};

fn string(s: &str, lang: &str) -> Object {
    Object::StringValue(s.to_string(), lang.to_string())
}

fn int_value(i: i64) -> Object {
    Object::IntValue(i)
}

fn unbound() -> Object {
    Object::unbound()
}

fn names(v: &[&str]) -> Vec<String> {
    v.iter().map(|s| s.to_string()).collect()
}

fn ns(prefix: &str, path: &str) -> Namespace {
    Namespace { prefix: prefix.to_string(), path: path.to_string() }
}

fn entries(v: Vec<(&str, Object)>) -> Vec<(String, Object)> {
    v.into_iter().map(|(p, o)| (p.to_string(), o)).collect()
}

fn got_cast1() -> Store {
    let mut store = Store::new(&vec![ns("got", "http://awoiaf.westeros.org/index.php/"), ns("v", "http://www.w3.org/2006/vcard/ns#")], Vec::new());
    store.add("got:Eddard_Stark", &entries(vec![
        ("v:fn", string("Eddard Stark", "")),
        ("v:nickname", string("Ned", "")),
    ]));
    store
}

fn got_cast3() -> Store {
    let mut store = Store::new(&vec![ns("got", "http://awoiaf.westeros.org/index.php/"), ns("v", "http://www.w3.org/2006/vcard/ns#")], Vec::new());
    store.add("got:Eddard_Stark", &entries(vec![
        ("v:fn", string("Eddard Stark", "")),
        ("v:nickname", string("Ned", "")),
        ("v:honorific-prefix", string("Lord", "")),
    ]));
    store.add_aggregate("got:Eddard_Stark", "v:org", "ned-org", &entries(vec![
        ("v:organisation-name", string("Small Council", "")),
        ("v:organisation-unit", string("Hand", "")),
    ]));
    store.add("got:Jon_Snow", &entries(vec![
        ("v:fn", string("Jon Snow", "")),
        ("v:nickname", string("Lord Snow", "")),
        ("v:pet", string("Ghost", "")),
    ]));
    store.add_aggregate("got:Jon_Snow", "v:org", "jon-org", &entries(vec![
        ("v:organisation-name", string("Night's Watch", "")),
        ("v:organisation-unit", string("Stewards", "")),
    ]));
    store.add("got:Sandor_Clegane", &entries(vec![
        ("v:fn", string("Sandor Clegane", "")),
        ("v:nickname", string("The Hound", "")),
    ]));
    store
}

fn make_triple_blank(store: &Store, subject: &str, predicate: &str, value: &str) -> Triple {
    Triple {
        subject: expand_uri_or_blank(store.namespaces(), subject),
        predicate: expand_uri(store.namespaces(), predicate),
        object: Object::BlankValue(format!("_:{}", value)),
    }
}

fn make_triple_str(store: &Store, subject: &str, predicate: &str, value: &str) -> Triple {
    Triple {
        subject: expand_uri_or_blank(store.namespaces(), subject),
        predicate: expand_uri(store.namespaces(), predicate),
        object: Object::StringValue(value.to_string(), String::new()),
    }
}

fn make_triple_uri(store: &Store, subject: &str, predicate: &str, value: &str) -> Triple {
    Triple {
        subject: expand_uri_or_blank(store.namespaces(), subject),
        predicate: expand_uri(store.namespaces(), predicate),
        object: Object::IriValue(expand_uri(store.namespaces(), value)),
    }
}

/// The same triples, in any order.
fn same_triples(actual: &[Triple], expected: &[Triple]) -> bool {
    if actual.len() != expected.len() {
        println!("Actual length is {}, but expected {}: {:?}", actual.len(), expected.len(), actual);
        return false;
    }
    let mut used = vec![false; actual.len()];
    for e in expected.iter() {
        match actual.iter().enumerate().position(|(i, a)| !used[i] && a == e) {
            Some(i) => used[i] = true,
            None => {
                println!("Expected {:?} is missing from {:?}", e, actual);
                return false;
            },
        }
    }
    true
}

fn sol(bindings: &[&str], num_selected: usize, rows: Vec<Vec<Object>>) -> Solution {
    Solution { namespaces: Vec::new(), bindings: names(bindings), num_selected, rows }
}

/// Joins the groups from left to right and compares the rows as multisets.
fn check_bgp(groups: &[Solution], expected: &Solution) -> bool {
    let store = Store::new(&Vec::new(), Vec::new());
    let first = &groups[0];
    let mut actual = Solution {
        namespaces: Vec::new(),
        bindings: first.bindings.clone(),
        num_selected: first.num_selected,
        rows: first.rows.clone(),
    };
    for group in groups[1..].iter() {
        actual = join_solutions(&store, &actual, group, false);
    }
    if actual.rows.len() != expected.rows.len() {
        println!("Actual length is {}, but expected {}: {:?}", actual.rows.len(), expected.rows.len(), actual.rows);
        return false;
    }
    let mut used = vec![false; actual.rows.len()];
    for e in expected.rows.iter() {
        match actual.rows.iter().enumerate().position(|(i, a)| !used[i] && a == e) {
            Some(i) => used[i] = true,
            None => {
                println!("Expected row {:?} is missing from {:?}", e, actual.rows);
                return false;
            },
        }
    }
    true
}

#[test]
fn to_strs() {
    let obj = literal_to_object("some long url", "http://www.w3.org/2001/XMLSchema#anyURI", "");
    assert_eq!(obj.to_str(), "<some long url>");

    let obj = literal_to_object("12", "http://www.w3.org/2001/XMLSchema#integer", "");
    assert_eq!(obj.to_str(), "12");

    let obj = literal_to_object("12", "http://www.w3.org/2001/XMLSchema#string", "en");
    assert_eq!(obj.to_str(), "\"12\"@en");

    let obj = literal_to_object("12", "http://www.w3.org/2001/XMLSchema#string", "");
    assert_eq!(obj.to_str(), "\"12\"");
}

#[test]
fn iteration() {
    let store = got_cast1();
    let seen = std::cell::RefCell::new(Vec::new());
    let count = store.each(|t: &Triple| {
        seen.borrow_mut().push(t.clone());
        true
    });
    let actual = seen.into_inner();
    let expected = vec![
        make_triple_str(&store, "got:Eddard_Stark", "v:fn", "Eddard Stark"),
        make_triple_str(&store, "got:Eddard_Stark", "v:nickname", "Ned"),
    ];
    assert_eq!(count, 2);
    assert!(same_triples(&actual, &expected));
    assert!(same_triples(&store.triples(), &expected));
}

#[test]
fn each_stops_at_first_refusal() {
    let store = got_cast1();
    let seen = std::cell::RefCell::new(Vec::new());
    let count = store.each(|t: &Triple| {
        seen.borrow_mut().push(t.clone());
        false
    });
    assert_eq!(count, 1);
    assert_eq!(seen.into_inner(), vec![store.triples()[0].clone()]);
}

#[test]
fn references() {
    let mut store = Store::new(&vec![
        ns("got", "http://awoiaf.westeros.org/index.php/"),
        ns("v", "http://www.w3.org/2006/vcard/ns#"),
        ns("foo", "http://www.whatever.org/"),
    ], Vec::new());
    store.add("got:Eddard_Stark", &entries(vec![
        ("v:fn", string("Eddard Stark", "")),
        ("v:nickname", string("Ned", "")),
        ("foo:child", Object::IriValue("got:Jon_Snow".to_string())),
    ]));
    store.add("got:Jon_Snow", &entries(vec![
        ("v:fn", string("Jon Snow", "")),
    ]));
    let actual = store.triples();
    let expected = vec![
        make_triple_str(&store, "got:Eddard_Stark", "v:fn", "Eddard Stark"),
        make_triple_str(&store, "got:Eddard_Stark", "v:nickname", "Ned"),
        make_triple_uri(&store, "got:Eddard_Stark", "foo:child", "got:Jon_Snow"),
        make_triple_str(&store, "got:Jon_Snow", "v:fn", "Jon Snow"),
    ];
    assert!(same_triples(&actual, &expected));
}

#[test]
fn blank_nodes() {
    let store = got_cast3();
    let actual = store.triples();
    let expected = vec![
        make_triple_str(&store, "_:jon-org-1", "v:organisation-name", "Night's Watch"),
        make_triple_str(&store, "_:jon-org-1", "v:organisation-unit", "Stewards"),
        make_triple_str(&store, "_:ned-org-0", "v:organisation-name", "Small Council"),
        make_triple_str(&store, "_:ned-org-0", "v:organisation-unit", "Hand"),
        make_triple_str(&store, "got:Eddard_Stark", "v:fn", "Eddard Stark"),
        make_triple_str(&store, "got:Eddard_Stark", "v:nickname", "Ned"),
        make_triple_str(&store, "got:Eddard_Stark", "v:honorific-prefix", "Lord"),
        make_triple_blank(&store, "got:Eddard_Stark", "v:org", "ned-org-0"),
        make_triple_str(&store, "got:Jon_Snow", "v:fn", "Jon Snow"),
        make_triple_str(&store, "got:Jon_Snow", "v:nickname", "Lord Snow"),
        make_triple_str(&store, "got:Jon_Snow", "v:pet", "Ghost"),
        make_triple_blank(&store, "got:Jon_Snow", "v:org", "jon-org-1"),
        make_triple_str(&store, "got:Sandor_Clegane", "v:fn", "Sandor Clegane"),
        make_triple_str(&store, "got:Sandor_Clegane", "v:nickname", "The Hound"),
    ];
    assert!(same_triples(&actual, &expected));
}

#[test]
fn container() {
    let mut store = Store::new(&vec![ns("got", "http://awoiaf.westeros.org/index.php/")], Vec::new());
    store.add_alt("got:places", &vec![Object::IriValue("got:The_Wall".to_string()), Object::IriValue("got:Winterfell".to_string())]);
    let actual = store.triples();
    let expected = vec![
        make_triple_blank(&store, "got:places", "rdf:Alt", "places-items-0"),
        make_triple_uri(&store, "_:places-items-0", "rdf:_1", "got:The_Wall"),
        make_triple_uri(&store, "_:places-items-0", "rdf:_2", "got:Winterfell"),
    ];
    assert!(same_triples(&actual, &expected));
}

#[test]
fn list0() {
    let mut store = Store::new(&vec![ns("got", "http://awoiaf.westeros.org/index.php/")], Vec::new());
    store.add_list("got:westeros", "got:cities", &vec![]);
    let actual = store.triples();
    let expected = vec![
        make_triple_blank(&store, "got:westeros", "got:cities", "cities-0"),
        make_triple_uri(&store, "_:cities-0", "rdf:rest", "rdf:nil"),
    ];
    assert!(same_triples(&actual, &expected));
}

#[test]
fn list1() {
    let mut store = Store::new(&vec![ns("got", "http://awoiaf.westeros.org/index.php/")], Vec::new());
    store.add_list("got:westeros", "got:cities", &vec![string("Lanisport", "")]);
    let actual = store.triples();
    let expected = vec![
        make_triple_blank(&store, "got:westeros", "got:cities", "cities-0"),
        make_triple_str(&store, "_:cities-0", "rdf:first", "Lanisport"),
        make_triple_blank(&store, "_:cities-0", "rdf:rest", "cities-1"),
        make_triple_uri(&store, "_:cities-1", "rdf:rest", "rdf:nil"),
    ];
    assert!(same_triples(&actual, &expected));
}

#[test]
fn reify() {
    let mut store = got_cast1();
    store.add_reify("got:Eddard_Stark", "got:wife", Object::IriValue("got:Caitlyn_Stark".to_string()));
    let actual = store.triples();
    let expected = vec![
        make_triple_uri(&store, "_:wife-0", "rdf:type", "rdf:Statement"),
        make_triple_uri(&store, "_:wife-0", "rdf:subject", "got:Eddard_Stark"),
        make_triple_uri(&store, "_:wife-0", "rdf:predicate", "got:wife"),
        make_triple_uri(&store, "_:wife-0", "rdf:object", "got:Caitlyn_Stark"),
        make_triple_str(&store, "got:Eddard_Stark", "v:fn", "Eddard Stark"),
        make_triple_str(&store, "got:Eddard_Stark", "v:nickname", "Ned"),
    ];
    assert!(same_triples(&actual, &expected));
}

#[test]
fn replace() {
    let mut store = got_cast1();
    store.replace_triple(&Vec::new(), Triple { subject: "got:Eddard_Stark".to_string(), predicate: "v:nickname".to_string(), object: string("Ned the Dead", "") });
    store.replace_triple(&Vec::new(), Triple { subject: "got:Arya".to_string(), predicate: "v:nickname".to_string(), object: string("Underfoot", "") });
    let actual = store.triples();
    let expected = vec![
        make_triple_str(&store, "got:Eddard_Stark", "v:fn", "Eddard Stark"),
        make_triple_str(&store, "got:Eddard_Stark", "v:nickname", "Ned the Dead"),
        make_triple_str(&store, "got:Arya", "v:nickname", "Underfoot"),
    ];
    assert!(same_triples(&actual, &expected));
}

#[test]
fn trivial_bgp() {
    let group1 = || sol(&["age"], 1, vec![]);
    let group2 = || sol(&["age"], 1, vec![vec![int_value(25)], vec![int_value(18)]]);
    assert!(check_bgp(&[group1(), group2()], &sol(&["age"], 1, vec![])));
    assert!(check_bgp(&[group2(), group1()], &sol(&["age"], 1, vec![])));
}

#[test]
fn identical_bgp() {
    let group1 = || sol(&["age"], 1, vec![vec![int_value(25)], vec![int_value(18)]]);
    let group2 = || sol(&["age"], 1, vec![vec![int_value(25)], vec![int_value(18)]]);
    let expected = group2();
    assert!(check_bgp(&[group1(), group2()], &expected));
    assert!(check_bgp(&[group2(), group1()], &expected));
}

#[test]
fn disjoint1_bgp() {
    let group1 = || sol(&["age", "name"], 2, vec![
        vec![int_value(25), unbound()],
        vec![int_value(18), unbound()],
    ]);
    let group2 = || sol(&["age", "name"], 2, vec![
        vec![unbound(), string("Bob", "")],
        vec![unbound(), string("Ted", "")],
    ]);
    let expected = sol(&["age", "name"], 2, vec![
        vec![int_value(18), string("Bob", "")],
        vec![int_value(18), string("Ted", "")],
        vec![int_value(25), string("Bob", "")],
        vec![int_value(25), string("Ted", "")],
    ]);
    assert!(check_bgp(&[group1(), group2()], &expected));
    assert!(check_bgp(&[group2(), group1()], &expected));
}

#[test]
fn disjoint2_bgp() {
    let group1 = || sol(&["age", "id", "job", "name"], 4, vec![
        vec![int_value(25), unbound(), string("cowboy", ""), unbound()],
        vec![int_value(18), unbound(), string("muckraker", ""), unbound()],
    ]);
    let group2 = || sol(&["age", "id", "job", "name"], 4, vec![
        vec![unbound(), string("bbb", ""), unbound(), string("Bob", "")],
        vec![unbound(), string("ttt", ""), unbound(), string("Ted", "")],
    ]);
    let expected = sol(&["age", "id", "job", "name"], 4, vec![
        vec![int_value(18), string("bbb", ""), string("muckraker", ""), string("Bob", "")],
        vec![int_value(18), string("ttt", ""), string("muckraker", ""), string("Ted", "")],
        vec![int_value(25), string("bbb", ""), string("cowboy", ""), string("Bob", "")],
        vec![int_value(25), string("ttt", ""), string("cowboy", ""), string("Ted", "")],
    ]);
    assert!(check_bgp(&[group1(), group2()], &expected));
    assert!(check_bgp(&[group2(), group1()], &expected));
}

#[test]
fn asymmetric_bgp() {
    let group1 = || sol(&["age", "name"], 2, vec![
        vec![int_value(33), unbound()],
        vec![int_value(25), unbound()],
        vec![int_value(18), unbound()],
    ]);
    let group2 = || sol(&["age", "name"], 2, vec![
        vec![int_value(88), string("Bob", "")],
        vec![int_value(18), string("Bob", "")],
        vec![int_value(18), string("Ted", "")],
    ]);
    let expected = sol(&["age", "name"], 2, vec![
        vec![int_value(18), string("Bob", "")],
        vec![int_value(18), string("Ted", "")],
    ]);
    assert!(check_bgp(&[group1(), group2()], &expected));
    assert!(check_bgp(&[group2(), group1()], &expected));
}

#[test]
fn symmetric_bgp() {
    let group1 = || sol(&["age", "name"], 2, vec![
        vec![int_value(33), unbound()],
        vec![int_value(25), unbound()],
        vec![int_value(18), unbound()],
    ]);
    let group2 = || sol(&["age", "name"], 2, vec![
        vec![int_value(88), string("Bob", "")],
        vec![int_value(18), string("Bob", "")],
        vec![int_value(18), string("Ted", "")],
    ]);
    let expected = sol(&["age", "name"], 2, vec![
        vec![int_value(18), string("Bob", "")],
        vec![int_value(18), string("Ted", "")],
    ]);
    assert!(check_bgp(&[group1(), group2()], &expected));
    assert!(check_bgp(&[group2(), group1()], &expected));
}

#[test]
fn path_bgp() {
    let group1 = || sol(&["age", "id", "name"], 3, vec![
        vec![unbound(), string("bbb", ""), string("Bob", "")],
        vec![unbound(), string("ttt", ""), string("Ted", "")],
        vec![unbound(), string("ggg", ""), string("George", "")],
    ]);
    let group2 = || sol(&["age", "id", "name"], 3, vec![
        vec![int_value(18), string("ttt", ""), unbound()],
        vec![int_value(88), string("bbb", ""), unbound()],
        vec![int_value(38), string("zzz", ""), unbound()],
    ]);
    let expected = sol(&["age", "id", "name"], 3, vec![
        vec![int_value(88), string("bbb", ""), string("Bob", "")],
        vec![int_value(18), string("ttt", ""), string("Ted", "")],
    ]);
    assert!(check_bgp(&[group1(), group2()], &expected));
    assert!(check_bgp(&[group2(), group1()], &expected));
}

#[test]
fn incompatible_bgp() {
    let group1 = || sol(&["age", "id", "name"], 2, vec![
        vec![unbound(), string("bbb", ""), string("Bob", "")],
        vec![unbound(), string("ttt", ""), string("Ted", "")],
        vec![unbound(), string("ggg", ""), string("George", "")],
    ]);
    let group2 = || sol(&["age", "id", "name"], 2, vec![
        vec![int_value(18), string("tyt", ""), unbound()],
        vec![int_value(88), string("bxb", ""), unbound()],
        vec![int_value(38), string("zzz", ""), unbound()],
    ]);
    let expected = sol(&["age", "id", "name"], 2, vec![]);
    assert!(check_bgp(&[group1(), group2()], &expected));
    assert!(check_bgp(&[group2(), group1()], &expected));
}

#[test]
fn multiple_bgp() {
    let group1 = || sol(&["name", "id", "age"], 2, vec![
        vec![string("Bob", ""), string("bbb", ""), unbound()],
        vec![string("Ted", ""), string("ttt", ""), unbound()],
        vec![string("George", ""), string("ggg", ""), unbound()],
    ]);
    let group2 = || sol(&["name", "id", "age"], 2, vec![
        vec![unbound(), string("tyt", ""), int_value(18)],
        vec![unbound(), string("bxb", ""), int_value(88)],
        vec![unbound(), string("zzz", ""), int_value(38)],
    ]);
    let expected = sol(&["name", "id", "age"], 2, vec![]);
    assert!(check_bgp(&[group1(), group2()], &expected));
    assert!(check_bgp(&[group2(), group1()], &expected));
}

#[test]
fn get_blanks() {
    let mut store = got_cast1();
    let f1 = store.get_blank_name("foo");
    let f2 = store.get_blank_name("foo");
    let f3 = store.get_blank_name("foo");
    assert!(f1 != f2);
    assert!(f2 != f3);
}
