use rrdf::float::unit_fraction_bits;
use rrdf::functions::rand_fn;
use rrdf::object::Object;
use rrdf::solution::Solution;
use rrdf::sparql::compile;
use rrdf::store::Store;

fn quotient_bits(n: u32) -> u64 {
    (n as f64 / u32::MAX as f64).to_bits()
}

#[test]
fn fraction_matches_binary64_division() {
    let samples: [u32; 12] = [0, 1, 2, 3, 7, 255, 65535, 123456789, 2147483647, 2147483648, 4294967294, 4294967295];
    for n in samples.iter() {
        assert_eq!(unit_fraction_bits(*n), quotient_bits(*n), "n = {}", n);
    }
    let mut x: u32 = 2463534242;
    for _ in 0..2000 {
        x ^= x << 13;
        x ^= x >> 17;
        x ^= x << 5;
        assert_eq!(unit_fraction_bits(x), quotient_bits(x), "n = {}", x);
    }
}

#[test]
fn fraction_end_points() {
    assert_eq!(unit_fraction_bits(0), 0);
    assert_eq!(unit_fraction_bits(u32::MAX), 1.0f64.to_bits());
}

#[test]
fn rand_gives_a_fraction() {
    for _ in 0..100 {
        match rand_fn(&Vec::new()) {
            Object::FloatValue(bits) => {
                let v = f64::from_bits(bits);
                assert!(0.0 <= v && v <= 1.0);
            },
            other => panic!("{:?}", other),
        }
    }
}

#[test]
fn rand_in_a_query() {
    let store = Store::new(&Vec::new(), Vec::new());
    let mut store = store;
    store.add("http://x/a", &vec![("http://x/p".to_string(), Object::IntValue(1))]);
    let sel = compile("SELECT ?r WHERE { ?s <http://x/p> ?o . BIND(RAND() AS ?r) }").unwrap();
    let sol: Solution = sel.select(&store).unwrap();
    assert_eq!(sol.rows.len(), 1);
    match &sol.rows[0][0] {
        Object::FloatValue(bits) => {
            let v = f64::from_bits(*bits);
            assert!(0.0 <= v && v <= 1.0);
        },
        other => panic!("{:?}", other),
    }
}
