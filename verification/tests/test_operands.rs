use rrdf::object::{literal_to_object, Object};

#[test]
fn invalid_values() {
    let op = literal_to_object("23xx", "http://www.w3.org/2001/XMLSchema#integer", "");
    assert_eq!(op, Object::InvalidValue("23xx".to_string(), "http://www.w3.org/2001/XMLSchema#integer".to_string()));

    let op = literal_to_object("2..3", "http://www.w3.org/2001/XMLSchema#double", "");
    assert_eq!(op, Object::InvalidValue("2..3".to_string(), "http://www.w3.org/2001/XMLSchema#double".to_string()));

    let op = literal_to_object("05062012", "http://www.w3.org/2001/XMLSchema#dateTime", "");
    assert_eq!(op, Object::ErrorValue("'05062012' is not an ISO 8601 dateTime.".to_string()));
}
