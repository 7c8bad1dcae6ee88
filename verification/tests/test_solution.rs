use rrdf::namespace::Namespace;
use rrdf::object::Object;
use rrdf::sparql::compile;
use rrdf::store::Store;

fn ns(prefix: &str, path: &str) -> Namespace {
    Namespace { prefix: prefix.to_string(), path: path.to_string() }
}

fn got_cast1() -> Store {
    let mut store = Store::new(&vec![ns("got", "http://awoiaf.westeros.org/index.php/"), ns("v", "http://www.w3.org/2006/vcard/ns#")], Vec::new());
    store.add("got:Eddard_Stark", &vec![
        ("v:fn".to_string(), Object::StringValue("Eddard Stark".to_string(), String::new())),
        ("v:nickname".to_string(), Object::StringValue("Ned".to_string(), String::new())),
    ]);
    store
}

#[test]
fn solution_to_str() {
    let expr = "
PREFIX got: <http://awoiaf.westeros.org/index.php/>
PREFIX v: <http://www.w3.org/2006/vcard/ns#>
SELECT 
	?s ?p ?o WHERE {?s ?p ?o}";
    let store = got_cast1();
    match compile(expr) {
        Ok(selector) => match selector.select(&store) {
            Ok(actual) => {
                let actual = actual.sort();
                let actual = actual.to_str();
                let expected = "0 s: got:Eddard_Stark, p: v:fn, o: \"Eddard Stark\"\n1 s: got:Eddard_Stark, p: v:nickname, o: \"Ned\"\n";
                assert_eq!(actual, expected);
            },
            Err(mesg) => panic!("Eval error: {}", mesg),
        },
        Err(mesg) => panic!("Parse error: {}", mesg),
    }
}
