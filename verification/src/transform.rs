//! The named value transforms. Each is total: a value that a transform does
//! not apply to comes back unchanged, and so does every value under a name
//! that is not in the catalog.

use vstd::prelude::*;
use crate::clock::now_rfc3339;
use crate::error::MappingError;
use crate::text::{
    chars_of, decimal_value, find_char, first_index, is_decimal, last_index, parse_decimal,
    rfind_char, slice_of, str_equal, trim, trimmed,
};
use crate::value::{array_view, GenericValue, Number, Tree};

verus! {

/// The final component of `path`, read as a path of the file system, as
/// `std::path::Path::file_name` gives it; nothing where the path has none.
pub uninterp spec fn path_file_name(path: Seq<char>) -> Option<Seq<char>>;

/// Calls `std::path::Path::file_name` on `path`. The contract only names the
/// result: which component is the final one is for the platform's path
/// syntax to say.
#[verifier::external_body]
fn file_name_of(path: &str) -> (r: Option<String>)
    ensures
        match r {
            Some(name) => path_file_name(path@) == Some(name@),
            None => path_file_name(path@) is None,
        },
{
    std::path::Path::new(path).file_name().and_then(|n| n.to_str()).map(|n| n.to_owned())
}

/// The extension of a file name: what follows its last `.`, unless the name
/// has no `.` or only the one it begins with.
pub open spec fn extension_of(name: Seq<char>) -> Option<Seq<char>> {
    let dot = last_index(name, '.');
    if dot <= 0 {
        None
    } else {
        Some(name.skip(dot + 1))
    }
}

/// Nanometres per dot at a resolution of `num / den` dots per inch, for
/// two counting numbers: 25 400 000 nm divided by the resolution, rounded to
/// the nearest integer (a half rounds up) and capped at the largest signed
/// 64-bit value. No dots per inch at all is an infinite distance, which the
/// cap makes finite; `0 / 0` is no resolution and gives 0.
pub open spec fn nanometers_of(num: nat, den: nat) -> nat {
    if num == 0 {
        if den == 0 {
            0
        } else {
            i64::MAX as nat
        }
    } else {
        let q = (2 * 25_400_000 * den + num) / (2 * num);
        if q > i64::MAX {
            i64::MAX as nat
        } else {
            q as nat
        }
    }
}

/// A number as decimal notation writes it: whether a `-` stands before it,
/// the number that its digits write when the point is left out, and how
/// many of the digits stand behind the point.
#[derive(Clone, Copy, Debug, PartialEq, Eq, Structural)]
pub struct Decimal {
    pub negative: bool,
    pub mantissa: u64,
    pub scale: u8,
}

/// The most digits that may stand behind the point.
pub const MAX_SCALE: u8 = 9;

impl Decimal {
    /// No more digits stand behind the point than may.
    pub open spec fn wf(self) -> bool {
        self.scale <= MAX_SCALE
    }
}

/// Ten to the power of `k`.
pub open spec fn pow10(k: nat) -> nat
    decreases k,
{
    if k == 0 {
        1
    } else {
        10 * pow10((k - 1) as nat)
    }
}

/// `s` without the sign that it begins with, if it begins with one.
pub open spec fn unsigned_part(s: Seq<char>) -> Seq<char> {
    if s.len() > 0 && (s[0] == '+' || s[0] == '-') {
        s.skip(1)
    } else {
        s
    }
}

/// The digits of the number that `s` writes, with the point left out, and
/// the digits behind the point alone.
pub open spec fn digits_and_fraction(s: Seq<char>) -> (Seq<char>, Seq<char>) {
    let body = unsigned_part(s);
    let point = first_index(body, '.');
    if point < body.len() {
        (body.take(point) + body.skip(point + 1), body.skip(point + 1))
    } else {
        (body, Seq::empty())
    }
}

/// The number that `s` writes: an optional `+` or `-`, then digits with at
/// most one point among them, before them or behind them. There is at
/// least one digit, there are at most nine behind the point, and the digits
/// without the point write a number below 2^64. No other text writes a
/// number here: none with an exponent, and no word for infinity.
pub open spec fn written_number(s: Seq<char>) -> Option<Decimal> {
    let (digits, fraction) = digits_and_fraction(s);
    if is_decimal(digits) && decimal_value(digits) <= u64::MAX && fraction.len() <= MAX_SCALE {
        Some(
            Decimal {
                negative: s.len() > 0 && s[0] == '-',
                mantissa: decimal_value(digits) as u64,
                scale: fraction.len() as u8,
            },
        )
    } else {
        None
    }
}

/// Nanometres per dot at a resolution of `num / den` dots per inch:
/// 25 400 000 nm divided by the resolution, rounded to the nearest integer
/// (a half rounds away from zero) and kept within the signed 64-bit
/// numbers. No dots per inch at all is an infinite distance, which the
/// bounds make finite; zero by zero is no resolution and gives 0.
pub open spec fn nanometers_between(num: Decimal, den: Decimal) -> int {
    let negative = num.negative != den.negative;
    if num.mantissa == 0 {
        if den.mantissa == 0 {
            0
        } else if negative {
            i64::MIN as int
        } else {
            i64::MAX as int
        }
    } else {
        let top = 25_400_000 * den.mantissa * pow10(num.scale as nat);
        let bottom = num.mantissa * pow10(den.scale as nat);
        let q = (2 * top + bottom) / (2 * bottom);
        if negative {
            if q > 0x8000_0000_0000_0000 {
                i64::MIN as int
            } else {
                -q
            }
        } else {
            if q > i64::MAX {
                i64::MAX as int
            } else {
                q
            }
        }
    }
}

/// What the text `num/den` gives in nanometres, where both parts write a
/// number. The parts end at the first `/`.
pub open spec fn resolution_nanometers(s: Seq<char>) -> Option<int> {
    let slash = first_index(s, '/');
    let num = written_number(s.take(slash));
    let den = written_number(s.skip(slash + 1));
    if slash < s.len() && num is Some && den is Some {
        Some(nanometers_between(num->0, den->0))
    } else {
        None
    }
}

/// For two counting numbers without sign and point the nanometres are those
/// of `nanometers_of`.
pub proof fn lemma_nanometers_of_counting_numbers(num: u64, den: u64)
    ensures
        nanometers_between(
            Decimal { negative: false, mantissa: num, scale: 0 },
            Decimal { negative: false, mantissa: den, scale: 0 },
        ) == nanometers_of(num as nat, den as nat),
{
    assert(pow10(0) == 1);
    if num != 0 {
        let one = pow10(0);
        let top = 25_400_000 * den * one;
        let bottom = num * one;
        assert(top == 25_400_000 * den) by (nonlinear_arith)
            requires
                top == 25_400_000 * den * one,
                one == 1,
        ;
        assert(bottom == num) by (nonlinear_arith)
            requires
                bottom == num * one,
                one == 1,
        ;
        assert(2 * top + bottom == 2 * 25_400_000 * den + num) by (nonlinear_arith)
            requires
                top == 25_400_000 * den,
                bottom == num,
        ;
        assert(2 * bottom == 2 * num);
    }
}

/// A run of digits writes the number of its value, with no sign and nothing
/// behind the point.
pub proof fn lemma_written_digits(s: Seq<char>)
    requires
        is_decimal(s),
        decimal_value(s) <= u64::MAX,
    ensures
        written_number(s) == Some(
            Decimal { negative: false, mantissa: decimal_value(s) as u64, scale: 0 },
        ),
{
    assert(crate::text::is_digit(s[0]));
    assert(unsigned_part(s) == s);
    crate::text::lemma_first_index(s, '.');
    let point = first_index(s, '.');
    if point < s.len() {
        assert(crate::text::is_digit(s[point]));
    }
}

/// `extract_basename`: a path becomes its final component.
pub open spec fn basename(v: Tree) -> Tree {
    match v {
        Tree::Text(s) => match path_file_name(s) {
            Some(name) => Tree::Text(name),
            None => v,
        },
        _ => v,
    }
}

/// `extract_extension`: a path becomes `.` and the extension of its final
/// component.
pub open spec fn extension(v: Tree) -> Tree {
    match v {
        Tree::Text(s) => match path_file_name(s) {
            Some(name) => match extension_of(name) {
                Some(ext) => Tree::Text(seq!['.'] + ext),
                None => v,
            },
            None => v,
        },
        _ => v,
    }
}

/// `extract_first_numeric`: an array that is not empty becomes its first item.
pub open spec fn first_numeric(v: Tree) -> Tree {
    match v {
        Tree::Array(items) => if items.len() > 0 {
            items[0]
        } else {
            v
        },
        _ => v,
    }
}

/// `resolution_to_nanometers`: a text `num/den` becomes a number.
pub open spec fn nanometers(v: Tree) -> Tree {
    match v {
        Tree::Text(s) => match resolution_nanometers(s) {
            Some(nm) => Tree::Number(Number::of_signed(nm as i64)),
            None => v,
        },
        _ => v,
    }
}

/// `clean_string`: a text loses the white space around it.
pub open spec fn cleaned(v: Tree) -> Tree {
    match v {
        Tree::Text(s) => Tree::Text(trimmed(s)),
        _ => v,
    }
}

/// The names under which the time of the run is written in place of the
/// value.
pub open spec fn uses_clock(name: Seq<char>) -> bool {
    name == "current_timestamp"@ || name == "tiff_datetime_to_iso8601"@
}

/// The names of the catalog.
pub open spec fn is_transform_name(name: Seq<char>) -> bool {
    ||| name == "extract_basename"@
    ||| name == "extract_extension"@
    ||| name == "extract_first_numeric"@
    ||| name == "resolution_to_nanometers"@
    ||| name == "clean_string"@
    ||| uses_clock(name)
}

/// What the transform called `name` makes of `v` at the time `now`.
pub open spec fn transformed(v: Tree, name: Seq<char>, now: Seq<char>) -> Tree {
    if name == "extract_basename"@ {
        basename(v)
    } else if name == "extract_extension"@ {
        extension(v)
    } else if name == "extract_first_numeric"@ {
        first_numeric(v)
    } else if name == "resolution_to_nanometers"@ {
        nanometers(v)
    } else if name == "clean_string"@ {
        cleaned(v)
    } else if uses_clock(name) {
        Tree::Text(now)
    } else {
        v
    }
}

/// What each name of the catalog stands for.
pub proof fn lemma_catalog(v: Tree, now: Seq<char>)
    ensures
        transformed(v, "extract_basename"@, now) == basename(v),
        transformed(v, "extract_extension"@, now) == extension(v),
        transformed(v, "extract_first_numeric"@, now) == first_numeric(v),
        transformed(v, "resolution_to_nanometers"@, now) == nanometers(v),
        transformed(v, "clean_string"@, now) == cleaned(v),
        transformed(v, "current_timestamp"@, now) == Tree::Text(now),
        transformed(v, "tiff_datetime_to_iso8601"@, now) == Tree::Text(now),
{
    reveal_strlit("extract_basename");
    reveal_strlit("extract_extension");
    reveal_strlit("extract_first_numeric");
    reveal_strlit("resolution_to_nanometers");
    reveal_strlit("clean_string");
    reveal_strlit("current_timestamp");
    reveal_strlit("tiff_datetime_to_iso8601");
    assert("extract_basename"@.len() == 16);
    assert("extract_extension"@.len() == 17);
    assert("extract_first_numeric"@.len() == 21);
    assert("resolution_to_nanometers"@.len() == 24);
    assert("clean_string"@.len() == 12);
    assert("current_timestamp"@.len() == 17);
    assert("tiff_datetime_to_iso8601"@.len() == 24);
    assert("current_timestamp"@[0] != "extract_extension"@[0]);
    assert("tiff_datetime_to_iso8601"@[0] != "resolution_to_nanometers"@[0]);
}

/// A name that is not in the catalog leaves every value unchanged.
pub proof fn lemma_unknown_transform(v: Tree, name: Seq<char>, now: Seq<char>)
    requires
        !is_transform_name(name),
    ensures
        transformed(v, name, now) == v,
{
}

/// Only the two time transforms depend on the time.
pub proof fn lemma_transform_without_clock(v: Tree, name: Seq<char>, now: Seq<char>, then: Seq<char>)
    requires
        !uses_clock(name),
    ensures
        transformed(v, name, now) == transformed(v, name, then),
{
}

/// `clean_string` applied twice gives what it gives applied once.
pub proof fn lemma_clean_string_idempotent(v: Tree, now: Seq<char>, then: Seq<char>)
    ensures
        cleaned(cleaned(v)) == cleaned(v),
        transformed(transformed(v, "clean_string"@, now), "clean_string"@, then) == transformed(
            v,
            "clean_string"@,
            now,
        ),
{
    match v {
        Tree::Text(s) => {
            crate::text::lemma_trimmed_idempotent(s);
        },
        _ => {},
    }
    lemma_catalog(v, now);
    lemma_catalog(cleaned(v), then);
}

/// A transform makes a well-formed value of a well-formed value.
pub proof fn lemma_transformed_wf(v: Tree, name: Seq<char>, now: Seq<char>)
    requires
        v.wf(),
    ensures
        transformed(v, name, now).wf(),
{
}

/// `extract_basename`: a text that is a path becomes its final component.
pub fn extract_basename(value: GenericValue) -> (r: GenericValue)
    ensures
        r@ == basename(value@),
{
    let name: Option<String> = match &value {
        GenericValue::Text(s) => file_name_of(s.as_str()),
        _ => None,
    };
    match name {
        Some(n) => GenericValue::Text(n),
        None => value,
    }
}

/// The extension of a file name, with a `.` before it.
pub fn dotted_extension(name: &str) -> (r: Option<String>)
    ensures
        match r {
            Some(e) => extension_of(name@) is Some && e@ == seq!['.'] + extension_of(name@)->0,
            None => extension_of(name@) is None,
        },
{
    match rfind_char(name, '.') {
        Some(dot) => {
            if dot == 0 {
                None
            } else {
                let e = slice_of(name, dot, name.unicode_len());
                assert(e@ =~= seq!['.'] + name@.skip(dot as int + 1));
                Some(e)
            }
        },
        None => None,
    }
}

/// `extract_extension`: a text that is a path with an extension becomes
/// `.` and the extension.
pub fn extract_extension(value: GenericValue) -> (r: GenericValue)
    ensures
        r@ == extension(value@),
{
    let ext: Option<String> = match &value {
        GenericValue::Text(s) => match file_name_of(s.as_str()) {
            Some(name) => dotted_extension(name.as_str()),
            None => None,
        },
        _ => None,
    };
    match ext {
        Some(e) => GenericValue::Text(e),
        None => value,
    }
}

/// `extract_first_numeric`: an array that is not empty becomes a copy of
/// its first item.
pub fn extract_first_numeric(value: GenericValue) -> (r: GenericValue)
    ensures
        r@ == first_numeric(value@),
{
    let first: Option<GenericValue> = match &value {
        GenericValue::Array(items) => {
            assert(array_view(items@).len() == items@.len());
            if items.len() > 0 {
                assert(array_view(items@)[0] == items@[0]@);
                Some(items[0].duplicate())
            } else {
                None
            }
        },
        _ => None,
    };
    match first {
        Some(v) => v,
        None => value,
    }
}

/// Ten to the power of `k`.
fn power_of_ten(k: u8) -> (r: u128)
    requires
        k <= MAX_SCALE,
    ensures
        r == pow10(k as nat),
        1 <= r <= 1_000_000_000,
{
    proof {
        reveal_with_fuel(pow10, 10);
    }
    let mut r: u128 = 1;
    let mut i: u8 = 0;
    while i < k
        invariant
            i <= k <= MAX_SCALE,
            r == pow10(i as nat),
            1 <= r,
            r * pow10((MAX_SCALE - i) as nat) == 1_000_000_000,
        decreases k - i,
    {
        proof {
            let rest = (MAX_SCALE - i) as nat;
            assert(pow10(rest) == 10 * pow10((rest - 1) as nat));
            assert(r * (10 * pow10((rest - 1) as nat)) == (r * 10) * pow10((rest - 1) as nat))
                by (nonlinear_arith);
            assert(pow10((rest - 1) as nat) >= 1) by {
                lemma_pow10_positive((rest - 1) as nat);
            }
            assert(r * 10 <= (r * 10) * pow10((rest - 1) as nat)) by (nonlinear_arith)
                requires
                    pow10((rest - 1) as nat) >= 1,
                    r >= 1,
            ;
            assert(pow10((i + 1) as nat) == 10 * pow10(i as nat));
        }
        r = r * 10;
        i = i + 1;
    }
    proof {
        lemma_pow10_positive((MAX_SCALE - i) as nat);
        assert(r <= r * pow10((MAX_SCALE - i) as nat)) by (nonlinear_arith)
            requires
                pow10((MAX_SCALE - i) as nat) >= 1,
                r >= 1,
        ;
    }
    r
}

/// A power of ten is at least one.
pub proof fn lemma_pow10_positive(k: nat)
    ensures
        pow10(k) >= 1,
    decreases k,
{
    if k > 0 {
        lemma_pow10_positive((k - 1) as nat);
    }
}

/// Reads the number that `s` writes.
pub fn read_number(s: &str) -> (r: Option<Decimal>)
    ensures
        r == written_number(s@),
        r matches Some(d) ==> d.wf(),
{
    let chars = chars_of(s);
    let n = chars.len();
    let signed = n > 0 && (chars[0] == '+' || chars[0] == '-');
    let negative = n > 0 && chars[0] == '-';
    let body = if signed {
        s.substring_char(1, n)
    } else {
        s
    };
    assert(body@ =~= unsigned_part(s@));
    let m = body.unicode_len();
    let point = find_char(body, '.');
    let mut digits = slice_of(body, 0, point);
    let fraction_len: usize = if point < m {
        let fraction = body.substring_char(point + 1, m);
        digits.append(fraction);
        m - point - 1
    } else {
        assert(body@.take(point as int) =~= body@);
        0
    };
    proof {
        let (d, f) = digits_and_fraction(s@);
        assert(digits@ =~= d);
        assert(fraction_len == f.len());
    }
    if fraction_len > MAX_SCALE as usize {
        return None;
    }
    match parse_decimal(digits.as_str()) {
        Some(mantissa) => Some(Decimal { negative, mantissa, scale: fraction_len as u8 }),
        None => None,
    }
}

/// Nanometres per dot at `num / den` dots per inch.
pub fn nanometers_at(num: Decimal, den: Decimal) -> (r: i64)
    requires
        num.wf(),
        den.wf(),
    ensures
        r == nanometers_between(num, den),
{
    let negative = num.negative != den.negative;
    if num.mantissa == 0 {
        if den.mantissa == 0 {
            0
        } else if negative {
            i64::MIN
        } else {
            i64::MAX
        }
    } else {
        let scale_up = power_of_ten(num.scale);
        let scale_down = power_of_ten(den.scale);
        let ghost md = den.mantissa as int;
        let ghost mn = num.mantissa as int;
        proof {
            assert(0 <= md * scale_up <= 0xffff_ffff_ffff_ffff * 1_000_000_000) by (nonlinear_arith)
                requires
                    0 <= md <= 0xffff_ffff_ffff_ffff,
                    1 <= scale_up <= 1_000_000_000,
            ;
            assert(1 <= mn * scale_down <= 0xffff_ffff_ffff_ffff * 1_000_000_000)
                by (nonlinear_arith)
                requires
                    1 <= mn <= 0xffff_ffff_ffff_ffff,
                    1 <= scale_down <= 1_000_000_000,
            ;
        }
        let scaled: u128 = (den.mantissa as u128) * scale_up;
        let top: u128 = 25_400_000 * scaled;
        let bottom: u128 = (num.mantissa as u128) * scale_down;
        proof {
            assert(25_400_000 * (md * scale_up) == 25_400_000 * md * scale_up) by (nonlinear_arith);
        }
        let q: u128 = (2 * top + bottom) / (2 * bottom);
        if negative {
            if q > 0x8000_0000_0000_0000 {
                i64::MIN
            } else if q == 0x8000_0000_0000_0000 {
                i64::MIN
            } else {
                -(q as i64)
            }
        } else {
            if q > 0x7fff_ffff_ffff_ffff {
                i64::MAX
            } else {
                q as i64
            }
        }
    }
}

/// Reads `num/den` and gives the nanometres per dot.
pub fn parse_resolution(s: &str) -> (r: Option<i64>)
    ensures
        match r {
            Some(nm) => resolution_nanometers(s@) == Some(nm as int),
            None => resolution_nanometers(s@) is None,
        },
{
    let n = s.unicode_len();
    let slash = find_char(s, '/');
    if slash >= n {
        return None;
    }
    let num = read_number(s.substring_char(0, slash));
    let den = read_number(s.substring_char(slash + 1, n));
    match (num, den) {
        (Some(a), Some(b)) => Some(nanometers_at(a, b)),
        _ => None,
    }
}

/// `resolution_to_nanometers`: a text `num/den` becomes the number of
/// nanometres per dot. Each part is a number in decimal notation, with or
/// without sign and point; a part that is written in any other way, such as
/// with an exponent, leaves the text as it is.
pub fn resolution_to_nanometers(value: GenericValue) -> (r: GenericValue)
    ensures
        r@ == nanometers(value@),
{
    let parsed: Option<i64> = match &value {
        GenericValue::Text(s) => parse_resolution(s.as_str()),
        _ => None,
    };
    match parsed {
        Some(nm) => GenericValue::signed(nm),
        None => value,
    }
}

/// `clean_string`: a text loses the white space around it.
pub fn clean_string(value: GenericValue) -> (r: GenericValue)
    ensures
        r@ == cleaned(value@),
{
    let clean: Option<String> = match &value {
        GenericValue::Text(s) => Some(trim(s.as_str())),
        _ => None,
    };
    match clean {
        Some(s) => GenericValue::Text(s),
        None => value,
    }
}

/// Whether `name` is one of the two time transforms.
pub fn is_clock_transform(name: &str) -> (r: bool)
    ensures
        r == uses_clock(name@),
{
    str_equal(name, "current_timestamp") || str_equal(name, "tiff_datetime_to_iso8601")
}

/// Applies the transform called `transform` to `value`, with `now` as the
/// time of the run.
pub fn apply_transform_at(value: GenericValue, transform: &str, now: &str) -> (r: GenericValue)
    ensures
        r@ == transformed(value@, transform@, now@),
        value@.wf() ==> r@.wf(),
{
    proof {
        if value@.wf() {
            lemma_transformed_wf(value@, transform@, now@);
        }
    }
    if str_equal(transform, "extract_basename") {
        extract_basename(value)
    } else if str_equal(transform, "extract_extension") {
        extract_extension(value)
    } else if str_equal(transform, "extract_first_numeric") {
        extract_first_numeric(value)
    } else if str_equal(transform, "resolution_to_nanometers") {
        resolution_to_nanometers(value)
    } else if str_equal(transform, "clean_string") {
        clean_string(value)
    } else if is_clock_transform(transform) {
        GenericValue::text(now)
    } else {
        value
    }
}

/// Applies the transform called `transform` to `value`. Never fails. The two
/// time transforms read the clock; every other result is fixed by `value`
/// and `transform` alone.
pub fn apply_transform(value: GenericValue, transform: &str) -> (r: Result<
    GenericValue,
    MappingError,
>)
    ensures
        r is Ok,
        exists|now: Seq<char>| r->Ok_0@ == #[trigger] transformed(value@, transform@, now),
        !uses_clock(transform@) ==> forall|now: Seq<char>|
            r->Ok_0@ == #[trigger] transformed(value@, transform@, now),
        value@.wf() ==> r->Ok_0@.wf(),
{
    if is_clock_transform(transform) {
        let now = now_rfc3339();
        Ok(apply_transform_at(value, transform, now.as_str()))
    } else {
        Ok(apply_transform_at(value, transform, ""))
    }
}

} // verus!
