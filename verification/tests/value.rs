use famdo::engine::apply_mapping_at;
use famdo::extract::{assemble_metadata, tag_list, IfdValue};
use famdo::path::extract_simple_path;
use famdo::value::{GenericValue, Number};

fn text(s: &str) -> GenericValue {
    GenericValue::text(s)
}

fn number(n: u64) -> GenericValue {
    GenericValue::unsigned(n)
}

fn object(members: Vec<(&str, GenericValue)>) -> GenericValue {
    GenericValue::Object(members.into_iter().map(|(k, v)| (k.to_string(), v)).collect())
}

#[test]
fn get_finds_members_by_exact_name() {
    let v = object(vec![("a", number(1)), ("A", number(2)), ("", number(3)), ("a.b", number(4))]);
    assert_eq!(v.get("a"), Some(&number(1)));
    assert_eq!(v.get("A"), Some(&number(2)));
    assert_eq!(v.get(""), Some(&number(3)));
    assert_eq!(v.get("a.b"), Some(&number(4)));
    assert_eq!(v.get("b"), None);
    assert_eq!(v.get("a "), None);
}

#[test]
fn get_takes_the_first_of_several() {
    let v = object(vec![("k", number(1)), ("k", number(2))]);
    assert_eq!(v.get("k"), Some(&number(1)));
}

#[test]
fn get_of_what_is_no_object() {
    for v in [
        GenericValue::Null,
        GenericValue::Bool(true),
        number(1),
        text("k"),
        GenericValue::Array(vec![object(vec![("k", number(1))])]),
    ] {
        assert_eq!(v.get("k"), None);
    }
}

#[test]
fn path_resolution() {
    let v = object(vec![("a", object(vec![("b", number(5))]))]);
    assert_eq!(extract_simple_path(&v, "a.b"), Some(number(5)));
    assert_eq!(extract_simple_path(&v, "a"), Some(object(vec![("b", number(5))])));
    assert_eq!(extract_simple_path(&v, "missing"), None);
    assert_eq!(extract_simple_path(&v, "a.missing"), None);
    assert_eq!(extract_simple_path(&v, "a.b.c"), None);
    assert_eq!(extract_simple_path(&v, "A.b"), None);
    assert_eq!(extract_simple_path(&v, "a..b"), None);
    assert_eq!(extract_simple_path(&v, ".a"), None);
    assert_eq!(extract_simple_path(&v, "a."), None);
    assert_eq!(extract_simple_path(&v, "."), None);
}

#[test]
fn path_has_no_indices() {
    let v = object(vec![("list", GenericValue::Array(vec![number(1), number(2)]))]);
    assert_eq!(extract_simple_path(&v, "list.0"), None);
    assert_eq!(extract_simple_path(&v, "list"), Some(GenericValue::Array(vec![number(1), number(2)])));
}

#[test]
fn path_parts_may_be_empty_names() {
    let v = object(vec![("", object(vec![("", number(1))])), ("x", object(vec![("", number(2))]))]);
    assert_eq!(extract_simple_path(&v, "."), Some(number(1)));
    assert_eq!(extract_simple_path(&v, "x."), Some(number(2)));
}

#[test]
fn accessors() {
    assert!(GenericValue::Null.is_null());
    assert!(!number(0).is_null());
    assert!(object(vec![]).is_object());
    assert!(!GenericValue::Array(vec![]).is_object());
    assert_eq!(text("x").as_str(), Some("x"));
    assert_eq!(number(1).as_str(), None);
    assert_eq!(GenericValue::Array(vec![number(1)]).as_array(), Some(&vec![number(1)]));
    assert_eq!(object(vec![]).as_array(), None);
    assert_eq!(
        object(vec![("k", number(1))]).as_object(),
        Some(&vec![("k".to_string(), number(1))])
    );
    assert_eq!(text("k").as_object(), None);
}

#[test]
fn builders() {
    assert_eq!(GenericValue::text("é"), GenericValue::Text("é".to_string()));
    assert_eq!(GenericValue::unsigned(u64::MAX), GenericValue::Number(Number::PosInt(u64::MAX)));
    assert_eq!(GenericValue::signed(-1), GenericValue::Number(Number::NegInt(-1)));
    assert_eq!(GenericValue::signed(i64::MIN), GenericValue::Number(Number::NegInt(i64::MIN)));
    assert_eq!(GenericValue::signed(0), GenericValue::Number(Number::PosInt(0)));
    assert_eq!(
        GenericValue::signed(i64::MAX),
        GenericValue::Number(Number::PosInt(i64::MAX as u64))
    );
    assert_eq!(Number::from_signed(-5), Number::NegInt(-5));
    assert_eq!(Number::from_signed(5), Number::PosInt(5));
}

#[test]
fn copies_are_equal_and_independent() {
    let v = object(vec![
        ("a", GenericValue::Array(vec![number(1), text("x"), GenericValue::Null])),
        ("b", object(vec![("c", GenericValue::Bool(false))])),
        ("n", GenericValue::Number(Number::Float(1.5f64.to_bits()))),
    ]);
    let copy = v.duplicate();
    assert_eq!(copy, v);
    assert_eq!(v.clone(), v);
    drop(v);
    assert_eq!(copy.get("b").unwrap().get("c"), Some(&GenericValue::Bool(false)));
}

#[test]
fn well_formed_values() {
    for v in [
        GenericValue::Null,
        GenericValue::Bool(false),
        number(0),
        GenericValue::Number(Number::NegInt(-1)),
        GenericValue::Number(Number::Float(0.5f64.to_bits())),
        text(""),
        GenericValue::Array(vec![]),
        object(vec![]),
        object(vec![("a", number(1)), ("b", number(1)), ("A", number(1))]),
        GenericValue::Array(vec![object(vec![("a", number(1))]), object(vec![("a", number(1))])]),
        object(vec![("a", object(vec![("a", object(vec![("a", GenericValue::Null)]))]))]),
    ] {
        assert!(v.is_well_formed(), "{:?}", v);
    }
}

#[test]
fn malformed_values() {
    for v in [
        GenericValue::Number(Number::NegInt(0)),
        GenericValue::Number(Number::NegInt(5)),
        GenericValue::Number(Number::Float(f64::NAN.to_bits())),
        GenericValue::Number(Number::Float(f64::INFINITY.to_bits())),
        GenericValue::Number(Number::Float(f64::NEG_INFINITY.to_bits())),
        object(vec![("a", number(1)), ("a", number(2))]),
        object(vec![("a", number(1)), ("b", number(2)), ("c", number(3)), ("b", number(4))]),
        GenericValue::Array(vec![number(1), GenericValue::Number(Number::NegInt(1))]),
        object(vec![("a", object(vec![("x", number(1)), ("x", number(1))]))]),
        GenericValue::Array(vec![GenericValue::Array(vec![object(vec![("", number(1)), ("", number(1))])])]),
    ] {
        assert!(!v.is_well_formed(), "{:?}", v);
    }
    assert!(Number::PosInt(0).is_well_formed());
    assert!(!Number::NegInt(0).is_well_formed());
}

#[test]
fn extracted_metadata_and_mapped_output_are_well_formed() {
    let tags = vec![
        ("XResolution".to_string(), IfdValue::Rational(96000, 1000)),
        ("Gamma".to_string(), IfdValue::Double(f64::NAN.to_bits())),
        ("Offsets".to_string(), IfdValue::List(vec![IfdValue::SignedShort(-1), IfdValue::Other])),
    ];
    let metadata = assemble_metadata("a/b.tiff", 10, 20, tag_list(&tags));
    assert!(metadata.is_well_formed());

    let rules = object(vec![(
        "mappings",
        object(vec![(
            "s",
            object(vec![
                ("w", object(vec![("source", text("dimensions.width")), ("unit", text("px"))])),
                (
                    "res",
                    object(vec![
                        ("source", text("tags[?tag=='XResolution'].value")),
                        ("transform", text("resolution_to_nanometers")),
                    ]),
                ),
                ("t", object(vec![("fallback", text("current_timestamp")), ("transform", text("current_timestamp"))])),
                ("all", object(vec![("source", text("tags"))])),
            ]),
        )]),
    )]);
    assert!(rules.is_well_formed());
    let out = apply_mapping_at(&metadata, &rules, "NOW").unwrap();
    assert!(out.is_well_formed());
    assert_eq!(out.get("s").unwrap().get("res"), Some(&number(264583)));
}
