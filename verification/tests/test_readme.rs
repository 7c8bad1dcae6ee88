use rrdf::namespace::Namespace;
use rrdf::object::Object;
use rrdf::sparql::compile;
use rrdf::store::Store;

fn s(v: &str) -> Object {
    Object::StringValue(v.to_string(), String::new())
}

fn monster(store: &mut Store, subject: &str, name: &str, min: i64, max: i64, weight: i64, habitat: &str) {
    store.add(subject, &vec![
        ("game:name".to_string(), s(name)),
        ("game:min_level".to_string(), Object::IntValue(min)),
        ("game:max_level".to_string(), Object::IntValue(max)),
        ("game:weight".to_string(), Object::IntValue(weight)),
        ("game:habitat".to_string(), s(habitat)),
    ]);
}

fn monsters() -> Store {
    let namespaces = vec![Namespace { prefix: "game".to_string(), path: "http://game/ns#".to_string() }];
    let mut store = Store::new(&namespaces, Vec::new());
    monster(&mut store, "game:snake", "King Snake", 1, 5, 4, "|land|water|");
    monster(&mut store, "game:bear", "Grizzly Bear", 3, 6, 3, "|land|");
    monster(&mut store, "game:naga", "Naga Warrior", 7, 15, 2, "|land|water|");
    monster(&mut store, "game:shark", "Hammerhead Shark", 5, 21, 1, "|water|");
    monster(&mut store, "game:mummy", "Mummy", 10, 20, 2, "|land|");
    monster(&mut store, "game:lich", "Lich", 15, 30, 3, "|land|");
    store.add("game:lich", &vec![("game:announce".to_string(), s("You feel a chill."))]);
    monster(&mut store, "game:necromancer", "Necromancer", 20, 30, 2, "|land|");
    store
}

#[test]
fn query_monsters() {
    let expr = "PREFIX game: <http://game/ns#>
            SELECT
                ?name ?weight ?announcement
            WHERE
            {
                ?subject game:name ?name .
                ?subject game:weight ?weight .
                ?subject game:min_level ?min .
                ?subject game:max_level ?max .
                ?subject game:habitat ?habitat .
                OPTIONAL
                {
                    ?subject game:announce ?announcement
                }
                FILTER (CONTAINS(?habitat, \"|land|\") && ?min <= 20 && 20 <= ?max)
            } ORDER BY ?name";
    let store = monsters();
    let selector = compile(expr).unwrap();
    let solution = selector.select(&store).unwrap();
    let rows: Vec<Vec<Object>> = solution.rows.iter().map(|r| r[0..3].to_vec()).collect();
    assert_eq!(rows, vec![
        vec![s("Lich"), Object::IntValue(3), s("You feel a chill.")],
        vec![s("Mummy"), Object::IntValue(2), Object::unbound()],
        vec![s("Necromancer"), Object::IntValue(2), Object::unbound()],
    ]);
    let text = solution.to_str();
    assert_eq!(text, "0 name: \"Lich\", weight: 3, announcement: \"You feel a chill.\"\n1 name: \"Mummy\", weight: 2, announcement:  unbound\n2 name: \"Necromancer\", weight: 2, announcement:  unbound\n");
}
