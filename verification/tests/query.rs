use famdo::error::MappingError;
use famdo::query::{extract_jsonpath, read_literal, Query};
use famdo::value::{GenericValue, Number};

fn text(s: &str) -> GenericValue {
    GenericValue::text(s)
}

fn number(n: u64) -> GenericValue {
    GenericValue::unsigned(n)
}

fn object(members: Vec<(&str, GenericValue)>) -> GenericValue {
    GenericValue::Object(members.into_iter().map(|(k, v)| (k.to_string(), v)).collect())
}

fn tag(name: &str, value: GenericValue) -> GenericValue {
    object(vec![("tag", text(name)), ("value", value), ("type", text("ASCII"))])
}

fn metadata() -> GenericValue {
    object(vec![
        ("filename", text("test.tiff")),
        (
            "tags",
            GenericValue::Array(vec![
                tag("Artist", text("someone")),
                tag("DateTime", text("2024:01:02 03:04:05")),
                tag("DateTime", text("second")),
                object(vec![("tag", text("NoValue"))]),
                object(vec![("tag", text("NoValue")), ("value", text("late"))]),
                text("no object"),
                object(vec![("tag", number(7)), ("value", text("seven"))]),
                object(vec![("tag", GenericValue::Number(Number::NegInt(-7))), ("value", text("minus"))]),
                object(vec![("tag", GenericValue::Bool(true)), ("value", text("yes"))]),
                object(vec![("tag", text("7")), ("value", text("text seven"))]),
                object(vec![
                    ("tag", text("Deep")),
                    ("meta", object(vec![("id", text("x1"))])),
                    ("value", object(vec![("inner", object(vec![("leaf", number(1))]))])),
                ]),
            ]),
        ),
        ("nested", object(vec![("list", GenericValue::Array(vec![object(vec![("k", text("v")), ("n", number(1))])]))])),
    ])
}

#[test]
fn query_finds_by_text() {
    let m = metadata();
    assert_eq!(
        extract_jsonpath(&m, "tags[?tag=='Artist'].value"),
        Ok(Some(text("someone")))
    );
    assert_eq!(
        extract_jsonpath(&m, "tags[?tag==\"Artist\"].value"),
        Ok(Some(text("someone")))
    );
    assert_eq!(
        extract_jsonpath(&m, "tags[?  tag  ==  'Artist'  ].value"),
        Ok(Some(text("someone")))
    );
}

#[test]
fn query_returns_the_first_match() {
    let m = metadata();
    assert_eq!(
        extract_jsonpath(&m, "tags[?tag=='DateTime'].value"),
        Ok(Some(text("2024:01:02 03:04:05")))
    );
    assert_eq!(
        extract_jsonpath(&m, "tags[?tag=='DateTime']"),
        Ok(Some(tag("DateTime", text("2024:01:02 03:04:05"))))
    );
}

#[test]
fn query_suffix_is_read_in_the_first_match_only() {
    let m = metadata();
    assert_eq!(extract_jsonpath(&m, "tags[?tag=='NoValue'].value"), Ok(None));
    assert_eq!(
        extract_jsonpath(&m, "tags[?tag=='NoValue']"),
        Ok(Some(object(vec![("tag", text("NoValue"))])))
    );
}

#[test]
fn query_compares_exactly() {
    let m = metadata();
    assert_eq!(extract_jsonpath(&m, "tags[?tag==7].value"), Ok(Some(text("seven"))));
    assert_eq!(extract_jsonpath(&m, "tags[?tag=='7'].value"), Ok(Some(text("text seven"))));
    assert_eq!(extract_jsonpath(&m, "tags[?tag==-7].value"), Ok(Some(text("minus"))));
    assert_eq!(extract_jsonpath(&m, "tags[?tag==true].value"), Ok(Some(text("yes"))));
    assert_eq!(extract_jsonpath(&m, "tags[?tag==false].value"), Ok(None));
    assert_eq!(extract_jsonpath(&m, "tags[?tag=='artist'].value"), Ok(None));
    assert_eq!(extract_jsonpath(&m, "tags[?tag=='Artist '].value"), Ok(None));
    assert_eq!(extract_jsonpath(&m, "tags[?tag==8].value"), Ok(None));
}

#[test]
fn query_walks_paths() {
    let m = metadata();
    assert_eq!(extract_jsonpath(&m, "nested.list[?k=='v'].n"), Ok(Some(number(1))));
    assert_eq!(
        extract_jsonpath(&m, "tags[?tag=='Deep'].value.inner.leaf"),
        Ok(Some(number(1)))
    );
    assert_eq!(extract_jsonpath(&m, "tags[?meta.id=='x1'].tag"), Ok(Some(text("Deep"))));
    assert_eq!(extract_jsonpath(&m, "tags[?tag=='Deep'].value.missing"), Ok(None));
}

#[test]
fn query_finds_nothing() {
    let m = metadata();
    assert_eq!(extract_jsonpath(&m, "tags[?tag=='Missing'].value"), Ok(None));
    assert_eq!(extract_jsonpath(&m, "missing[?tag=='Artist'].value"), Ok(None));
    assert_eq!(extract_jsonpath(&m, "filename[?tag=='Artist'].value"), Ok(None));
    assert_eq!(extract_jsonpath(&m, "nested[?k=='v']"), Ok(None));
    assert_eq!(extract_jsonpath(&text("x"), "tags[?tag=='Artist']"), Ok(None));
}

#[test]
fn query_syntax_errors() {
    let m = metadata();
    for q in [
        "tags[?tag=='Artist'",
        "tags[0]",
        "tags[",
        "tags[]",
        "tags[?]",
        "tags[?tag]",
        "tags[?tag='Artist']",
        "[?tag=='Artist']",
        "tags[?=='Artist']",
        "tags[?   =='Artist']",
        "tags[?tag==]",
        "tags[?tag==Artist]",
        "tags[?tag=='Artist]",
        "tags[?tag=='Artist\"]",
        "tags[?tag==']",
        "tags[?tag=='it's']",
        "tags[?tag=='a\\'b']",
        "tags[?tag==1.5]",
        "tags[?tag==1e3]",
        "tags[?tag==+1]",
        "tags[?tag==-]",
        "tags[?tag==null]",
        "tags[?tag==True]",
        "tags[?tag==18446744073709551616]",
        "tags[?tag==-9223372036854775809]",
        "tags[?tag=='Artist']value",
        "tags[?tag=='Artist'].",
        "tags[?tag=='Artist'] .value",
        "[",
    ] {
        assert_eq!(extract_jsonpath(&m, q), Err(MappingError::QueryParseError), "{:?}", q);
        assert!(Query::parse(q).is_err(), "{:?}", q);
    }
}

#[test]
fn query_parts() {
    let q = Query::parse("a.b[? f.g == 'x y' ].c.d").ok().unwrap();
    assert_eq!(q.base, "a.b");
    assert_eq!(q.field, "f.g");
    assert_eq!(q.literal, text("x y"));
    assert_eq!(q.suffix, Some("c.d".to_string()));

    let q = Query::parse("tags[?n==12]").ok().unwrap();
    assert_eq!(q.base, "tags");
    assert_eq!(q.field, "n");
    assert_eq!(q.literal, number(12));
    assert_eq!(q.suffix, None);

    let q = Query::parse("t[?a=='']").ok().unwrap();
    assert_eq!(q.literal, text(""));

    let q = Query::parse("t[?a=='x==y']").ok().unwrap();
    assert_eq!(q.field, "a");
    assert_eq!(q.literal, text("x==y"));
}

#[test]
fn literals() {
    assert_eq!(read_literal("'a'"), Some(text("a")));
    assert_eq!(read_literal("\"a\""), Some(text("a")));
    assert_eq!(read_literal("'a\"b'"), Some(text("a\"b")));
    assert_eq!(read_literal("\"it's\""), Some(text("it's")));
    assert_eq!(read_literal("''"), Some(text("")));
    assert_eq!(read_literal("'"), None);
    assert_eq!(read_literal("'a\""), None);
    assert_eq!(read_literal("true"), Some(GenericValue::Bool(true)));
    assert_eq!(read_literal("false"), Some(GenericValue::Bool(false)));
    assert_eq!(read_literal("0"), Some(number(0)));
    assert_eq!(read_literal("-0"), Some(number(0)));
    assert_eq!(read_literal("42"), Some(number(42)));
    assert_eq!(read_literal("18446744073709551615"), Some(number(u64::MAX)));
    assert_eq!(read_literal("-1"), Some(GenericValue::Number(Number::NegInt(-1))));
    assert_eq!(
        read_literal("-9223372036854775808"),
        Some(GenericValue::Number(Number::NegInt(i64::MIN)))
    );
    assert_eq!(read_literal("-9223372036854775809"), None);
    assert_eq!(read_literal(""), None);
    assert_eq!(read_literal("abc"), None);
    assert_eq!(read_literal("1.0"), None);
}
