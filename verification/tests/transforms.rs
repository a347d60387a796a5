use famdo::transform::{
    apply_transform, apply_transform_at, clean_string, dotted_extension, extract_basename,
    extract_extension, extract_first_numeric, is_clock_transform, nanometers_at,
    parse_resolution, read_number, resolution_to_nanometers, Decimal,
};
use famdo::value::{GenericValue, Number};

fn text(s: &str) -> GenericValue {
    GenericValue::text(s)
}

fn number(n: u64) -> GenericValue {
    GenericValue::unsigned(n)
}

fn samples() -> Vec<GenericValue> {
    vec![
        GenericValue::Null,
        GenericValue::Bool(true),
        number(7),
        GenericValue::Number(Number::NegInt(-7)),
        text("  a/b.c  "),
        text("96/1"),
        GenericValue::Array(vec![]),
        GenericValue::Array(vec![text("x"), number(1)]),
        GenericValue::Object(vec![("k".to_string(), text("v"))]),
    ]
}

#[test]
fn basename_is_the_final_component() {
    assert_eq!(extract_basename(text("path/to/test.tiff")), text("test.tiff"));
    assert_eq!(extract_basename(text("test.tiff")), text("test.tiff"));
    assert_eq!(extract_basename(text("dir/sub/")), text("sub"));
    assert_eq!(extract_basename(text("a/./b/.")), text("b"));
}

#[test]
fn basename_leaves_what_has_no_final_component() {
    for s in ["", "/", "..", "a/.."] {
        assert_eq!(extract_basename(text(s)), text(s));
    }
    for v in samples() {
        if v.as_str().is_none() {
            assert_eq!(extract_basename(v.clone()), v);
        }
    }
}

#[test]
fn basename_agrees_with_std() {
    for s in ["a", "a/b", "/a/b/c.d", "./x", "x/", "x//y", "..", ".", "", "/", "a b/c d.e"] {
        let expected = std::path::Path::new(s)
            .file_name()
            .and_then(|n| n.to_str())
            .map(GenericValue::text)
            .unwrap_or(text(s));
        assert_eq!(extract_basename(text(s)), expected, "{:?}", s);
    }
}

#[test]
fn extension_has_a_dot_before_it() {
    assert_eq!(extract_extension(text("test.tiff")), text(".tiff"));
    assert_eq!(extract_extension(text("archive.tar.gz")), text(".gz"));
    assert_eq!(extract_extension(text("dir.d/file.TXT")), text(".TXT"));
    assert_eq!(extract_extension(text("trailing.")), text("."));
    assert_eq!(extract_extension(text(".hidden.cfg")), text(".cfg"));
}

#[test]
fn extension_leaves_what_has_none() {
    for s in ["noext", ".bashrc", "dir.d/file", "", "/", "..", "a/.."] {
        assert_eq!(extract_extension(text(s)), text(s), "{:?}", s);
    }
    assert_eq!(extract_extension(number(3)), number(3));
}

#[test]
fn extension_agrees_with_std() {
    let samples = [
        "a", "a.b", "a.b.c", ".a", ".a.b", "a.", "a..", "..a", "x/y.z", "x.y/z", "x/.y", "", ".",
        "..", "...", "a/b/", "a.b/", "é.ü",
    ];
    for s in samples {
        let expected = std::path::Path::new(s)
            .extension()
            .and_then(|e| e.to_str())
            .map(|e| text(&format!(".{}", e)))
            .unwrap_or(text(s));
        assert_eq!(extract_extension(text(s)), expected, "{:?}", s);
    }
}

#[test]
fn first_numeric_takes_the_first_item() {
    assert_eq!(
        extract_first_numeric(GenericValue::Array(vec![number(8), number(9), number(10)])),
        number(8)
    );
    assert_eq!(
        extract_first_numeric(GenericValue::Array(vec![text("a")])),
        text("a")
    );
    assert_eq!(extract_first_numeric(GenericValue::Array(vec![])), GenericValue::Array(vec![]));
    assert_eq!(extract_first_numeric(text("8")), text("8"));
    assert_eq!(extract_first_numeric(GenericValue::Null), GenericValue::Null);
}

#[test]
fn nanometers_exact_values() {
    assert_eq!(resolution_to_nanometers(text("96000/1000")), number(264583));
    assert_eq!(resolution_to_nanometers(text("96/1")), number(264583));
    assert_eq!(resolution_to_nanometers(text("72/1")), number(352778));
    assert_eq!(resolution_to_nanometers(text("300/1")), number(84667));
    assert_eq!(resolution_to_nanometers(text("1/2")), number(50_800_000));
    assert_eq!(resolution_to_nanometers(text("25400000/1")), number(1));
    assert_eq!(resolution_to_nanometers(text("0096/01")), number(264583));
}

#[test]
fn nanometers_round_a_half_up() {
    // 25 400 000 / 128 = 198 437.5
    assert_eq!(resolution_to_nanometers(text("128/1")), number(198438));
    // 25 400 000 / 50 800 000 = 0.5
    assert_eq!(resolution_to_nanometers(text("50800000/1")), number(1));
    // just below a half
    assert_eq!(resolution_to_nanometers(text("50800001/1")), number(0));
}

#[test]
fn nanometers_without_a_resolution() {
    assert_eq!(resolution_to_nanometers(text("5/0")), number(0));
    assert_eq!(resolution_to_nanometers(text("0/5")), number(i64::MAX as u64));
    assert_eq!(resolution_to_nanometers(text("0/0")), number(0));
    assert_eq!(
        resolution_to_nanometers(text("1/18446744073709551615")),
        number(i64::MAX as u64)
    );
}

#[test]
fn nanometers_leave_what_is_no_rational() {
    for s in [
        "", "/", "96", "96/", "/96", "a/b", "1/2/3", " 1/2", "1/2 ", "1 / 2", "1e3/1", "1/1e3",
        "./1", "1/.", "-/1", "+/1", "+-1/2", "--1/2", "1-/2", "1.2.3/1", "1..2/1", "inf/1",
        "1/nan", "0x10/1", "18446744073709551616/1", "1/18446744073709551616",
        "1.0000000001/1", "1/0.0000000001", "1844674407370955161.6/1",
    ] {
        assert_eq!(resolution_to_nanometers(text(s)), text(s), "{:?}", s);
    }
    assert_eq!(resolution_to_nanometers(number(96)), number(96));
}

#[test]
fn nanometers_of_signed_and_fractional_numbers() {
    let signed = GenericValue::signed;
    assert_eq!(resolution_to_nanometers(text("-1/2")), signed(-50_800_000));
    assert_eq!(resolution_to_nanometers(text("1/-2")), signed(-50_800_000));
    assert_eq!(resolution_to_nanometers(text("-1/-2")), signed(50_800_000));
    assert_eq!(resolution_to_nanometers(text("+1/2")), signed(50_800_000));
    assert_eq!(resolution_to_nanometers(text("+1/+2")), signed(50_800_000));
    assert_eq!(resolution_to_nanometers(text("1.5/1")), signed(16_933_333));
    assert_eq!(resolution_to_nanometers(text("1/1.5")), signed(38_100_000));
    assert_eq!(resolution_to_nanometers(text(".5/1")), signed(50_800_000));
    assert_eq!(resolution_to_nanometers(text("5./1")), signed(5_080_000));
    assert_eq!(resolution_to_nanometers(text("-.5/1.")), signed(-50_800_000));
    assert_eq!(resolution_to_nanometers(text("0.0254/1")), signed(1_000_000_000));
    assert_eq!(resolution_to_nanometers(text("96.000/1.000")), signed(264_583));
    assert_eq!(resolution_to_nanometers(text("1.000000001/1")), signed(25_400_000));
    assert_eq!(resolution_to_nanometers(text("1844674407370955161.5/1")), signed(0));
    // 25 400 000 / 3251.2 = 7812.5, and a half rounds away from zero
    assert_eq!(resolution_to_nanometers(text("3251.2/1")), signed(7813));
    assert_eq!(resolution_to_nanometers(text("-3251.2/1")), signed(-7813));
}

#[test]
fn nanometers_without_a_signed_resolution() {
    let signed = GenericValue::signed;
    assert_eq!(resolution_to_nanometers(text("-0/5")), signed(i64::MIN));
    assert_eq!(resolution_to_nanometers(text("0/-5")), signed(i64::MIN));
    assert_eq!(resolution_to_nanometers(text("-0/-5")), signed(i64::MAX));
    assert_eq!(resolution_to_nanometers(text("0.0/0.5")), signed(i64::MAX));
    assert_eq!(resolution_to_nanometers(text("-0/0")), signed(0));
    assert_eq!(resolution_to_nanometers(text("5/-0")), signed(0));
    assert_eq!(resolution_to_nanometers(text("-5/0.0")), signed(0));
    assert_eq!(
        resolution_to_nanometers(text("-0.000000001/18446744073709551615")),
        signed(i64::MIN)
    );
    assert_eq!(
        resolution_to_nanometers(text("0.000000001/18446744073709551615")),
        signed(i64::MAX)
    );
}

#[test]
fn nanometers_of_decimals_agree_with_floating_point() {
    let mut state: u64 = 0x9e37_79b9_7f4a_7c15;
    let mut next = move || {
        state ^= state << 13;
        state ^= state >> 7;
        state ^= state << 17;
        state
    };
    for _ in 0..20000 {
        let n = (next() % 2_000_000) as f64 / 1000.0;
        let d = (next() % 20_000) as f64 / 100.0;
        let n = if next() % 2 == 0 { n } else { -n };
        let d = if next() % 2 == 0 { d } else { -d };
        let s = format!("{:.3}/{:.2}", n, d);
        let expected = (25400000.0 / (n / d)).round() as i64;
        assert_eq!(resolution_to_nanometers(text(&s)), GenericValue::signed(expected), "{}", s);
    }
}

#[test]
fn numbers_as_decimal_notation_writes_them() {
    let d = |negative, mantissa, scale| Some(Decimal { negative, mantissa, scale });
    assert_eq!(read_number("0"), d(false, 0, 0));
    assert_eq!(read_number("96000"), d(false, 96000, 0));
    assert_eq!(read_number("+7"), d(false, 7, 0));
    assert_eq!(read_number("-7"), d(true, 7, 0));
    assert_eq!(read_number("-0"), d(true, 0, 0));
    assert_eq!(read_number("1.25"), d(false, 125, 2));
    assert_eq!(read_number("-01.250"), d(true, 1250, 3));
    assert_eq!(read_number(".5"), d(false, 5, 1));
    assert_eq!(read_number("5."), d(false, 5, 0));
    assert_eq!(read_number("0.000000001"), d(false, 1, 9));
    assert_eq!(read_number("18446744073709551615"), d(false, u64::MAX, 0));
    assert_eq!(read_number("1844674407370955161.5"), d(false, u64::MAX, 1));
    for s in ["", ".", "+", "-", "+.", "1.2.3", "1,5", "1e5", " 1", "1 ", "--1", "0.0000000001",
        "18446744073709551616", "inf", "NaN", "١"] {
        assert_eq!(read_number(s), None, "{:?}", s);
    }
    assert_eq!(nanometers_at(d(false, 96, 0).unwrap(), d(false, 1, 0).unwrap()), 264583);
    assert_eq!(nanometers_at(d(true, 965, 1).unwrap(), d(false, 1, 0).unwrap()), -263212);
    assert_eq!(parse_resolution("96000/1000"), Some(264583));
    assert_eq!(parse_resolution("96000"), None);
}

#[test]
fn nanometers_agree_with_floating_point() {
    fn by_float(n: u32, d: u32) -> i64 {
        let dpi = n as f64 / d as f64;
        (25400000.0 / dpi).round() as i64
    }
    let mut state: u64 = 0x2545_f491_4f6c_dd1d;
    let mut next = move || {
        state ^= state << 13;
        state ^= state >> 7;
        state ^= state << 17;
        state
    };
    for n in 0u32..40 {
        for d in 0u32..40 {
            let s = format!("{}/{}", n, d);
            assert_eq!(
                resolution_to_nanometers(text(&s)),
                number(by_float(n, d) as u64),
                "{}",
                s
            );
        }
    }
    for _ in 0..20000 {
        let n = (next() % 1_000_000) as u32 + 1;
        let d = (next() % 10_000) as u32 + 1;
        let s = format!("{}/{}", n, d);
        assert_eq!(resolution_to_nanometers(text(&s)), number(by_float(n, d) as u64), "{}", s);
    }
}

#[test]
fn clean_string_trims() {
    assert_eq!(clean_string(text("  test string  ")), text("test string"));
    assert_eq!(clean_string(text("\t\n")), text(""));
    assert_eq!(clean_string(text("a")), text("a"));
    assert_eq!(clean_string(number(1)), number(1));
    assert_eq!(clean_string(GenericValue::Null), GenericValue::Null);
}

#[test]
fn clean_string_twice_is_clean_string_once() {
    for v in samples() {
        let once = clean_string(v);
        assert_eq!(clean_string(once.clone()), once);
    }
}

#[test]
fn unknown_transform_returns_the_value() {
    for name in ["", "nope", "Extract_Basename", "extract_basename ", "clean-string"] {
        for v in samples() {
            assert_eq!(apply_transform(v.clone(), name).unwrap(), v);
            assert_eq!(apply_transform_at(v.clone(), name, "NOW"), v);
        }
    }
}

#[test]
fn the_catalog_by_name() {
    assert_eq!(apply_transform_at(text("a/b.c"), "extract_basename", "NOW"), text("b.c"));
    assert_eq!(apply_transform_at(text("a/b.c"), "extract_extension", "NOW"), text(".c"));
    assert_eq!(
        apply_transform_at(GenericValue::Array(vec![number(1)]), "extract_first_numeric", "NOW"),
        number(1)
    );
    assert_eq!(
        apply_transform_at(text("254/1"), "resolution_to_nanometers", "NOW"),
        number(100000)
    );
    assert_eq!(apply_transform_at(text(" x "), "clean_string", "NOW"), text("x"));
    assert_eq!(apply_transform_at(text(" x "), "current_timestamp", "NOW"), text("NOW"));
    assert_eq!(apply_transform_at(number(4), "tiff_datetime_to_iso8601", "NOW"), text("NOW"));
}

#[test]
fn clock_transforms_write_the_time() {
    assert!(is_clock_transform("current_timestamp"));
    assert!(is_clock_transform("tiff_datetime_to_iso8601"));
    assert!(!is_clock_transform("clean_string"));
    assert!(!is_clock_transform(""));
    for name in ["current_timestamp", "tiff_datetime_to_iso8601"] {
        for v in samples() {
            let before = chrono::Local::now();
            let result = apply_transform(v, name).unwrap();
            let after = chrono::Local::now();
            let written = result.as_str().expect("a text");
            let time = chrono::DateTime::parse_from_rfc3339(written).expect("RFC 3339");
            assert!(before <= time && time <= after);
        }
    }
}

#[test]
fn dotted_extension_of_a_file_name() {
    assert_eq!(dotted_extension("test.tiff"), Some(".tiff".to_string()));
    assert_eq!(dotted_extension("a.b.c"), Some(".c".to_string()));
    assert_eq!(dotted_extension("a."), Some(".".to_string()));
    assert_eq!(dotted_extension(".hidden"), None);
    assert_eq!(dotted_extension("plain"), None);
    assert_eq!(dotted_extension(""), None);
}
