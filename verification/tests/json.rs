use centaur_wiki::json::{
    array_of_one, integer_array, optional_string, put, put_text, string, string_array, Json, Number,
};

fn object(fields: &[(&str, Json)]) -> Json {
    let mut list = Vec::new();
    for (name, value) in fields {
        put(&mut list, name, value.duplicate());
    }
    Json::Object(list)
}

#[test]
fn the_last_field_of_a_name_counts() {
    let mut fields = Vec::new();
    put_text(&mut fields, "a", "first");
    put(&mut fields, "b", Json::Null);
    put_text(&mut fields, "a", "second");
    let json = Json::Object(fields);
    assert_eq!(json.get("a"), Some(&string("second")));
    assert_eq!(json.get("b"), Some(&Json::Null));
    assert_eq!(json.get("c"), None);
    assert_eq!(string("a").get("a"), None);
    assert_eq!(Json::Array(Vec::new()).get("0"), None);
}

#[test]
fn fields_are_read_by_type() {
    let json = object(&[
        ("s", string("x")),
        ("t", Json::Bool(true)),
        ("f", Json::Bool(false)),
        ("n", Json::Int(-5)),
        ("big", Json::Int(i64::MAX as i128 + 1)),
        ("d", Json::Float(1.5f64.to_bits())),
        ("l", array_of_one(Json::Int(1))),
    ]);
    assert_eq!(json.get_str("s").as_deref(), Some("x"));
    assert_eq!(json.get_str("n"), None);
    assert_eq!(json.get_text("s"), "x");
    assert_eq!(json.get_text("none"), "");
    assert!(json.get_flag("t"));
    assert!(!json.get_flag("f"));
    assert!(!json.get_flag("s"));
    assert_eq!(json.get_i64("n"), Some(-5));
    assert_eq!(json.get_i64("big"), None);
    assert_eq!(json.get_i64("d"), None);
    assert_eq!(json.get_number("n"), Some(Number::Int(-5)));
    assert_eq!(json.get_number("d"), Some(Number::Float(1.5f64.to_bits())));
    assert_eq!(json.get_number("s"), None);
    assert_eq!(json.get("l").and_then(Json::as_array).map(Vec::len), Some(1));
    assert_eq!(json.as_array(), None);
    assert_eq!(string("x").as_str(), Some("x"));
    assert_eq!(Json::Null.as_str(), None);
}

#[test]
fn values_are_built() {
    let names = vec!["a".to_owned(), "b".to_owned()];
    assert_eq!(string_array(&names), Json::Array(vec![string("a"), string("b")]));
    assert_eq!(integer_array(&vec![1, -2]), Json::Array(vec![Json::Int(1), Json::Int(-2)]));
    assert_eq!(optional_string(&Some("a".to_owned())), string("a"));
    assert_eq!(optional_string(&None), Json::Null);
}

#[test]
fn a_copy_is_equal() {
    let inner = object(&[("x", array_of_one(string("y"))), ("z", Json::Float(7))]);
    let json = Json::Array(vec![inner, Json::Null, Json::Bool(true), Json::Int(3)]);
    assert_eq!(json.duplicate(), json);
}
