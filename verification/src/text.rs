//! Searching, trimming and reading numbers in text, over sequences of
//! characters.

use vstd::prelude::*;

verus! {

/// Position of the first `c` in `s`, or the length of `s` where there is none.
pub open spec fn first_index(s: Seq<char>, c: char) -> int
    decreases s.len(),
{
    if s.len() == 0 {
        0
    } else if s[0] == c {
        0
    } else {
        1 + first_index(s.skip(1), c)
    }
}

/// `i` is where `c` first occurs in `s`, or the length of `s` where it does
/// not occur.
pub open spec fn is_first_index(s: Seq<char>, c: char, i: int) -> bool {
    &&& 0 <= i <= s.len()
    &&& forall|j: int| 0 <= j < i ==> s[j] != c
    &&& i < s.len() ==> s[i] == c
}

/// `first_index` is where the character first occurs.
pub proof fn lemma_first_index(s: Seq<char>, c: char)
    ensures
        is_first_index(s, c, first_index(s, c)),
    decreases s.len(),
{
    if s.len() > 0 && s[0] != c {
        let t = s.skip(1);
        lemma_first_index(t, c);
        let k = first_index(t, c);
        assert forall|j: int| 0 <= j < 1 + k implies s[j] != c by {
            if j > 0 {
                assert(t[j - 1] == s[j]);
            }
        }
        if 1 + k < s.len() {
            assert(t[k] == s[1 + k]);
        }
    }
}

/// There is one such position only.
pub proof fn lemma_first_index_unique(s: Seq<char>, c: char, i: int)
    requires
        is_first_index(s, c, i),
    ensures
        i == first_index(s, c),
{
    lemma_first_index(s, c);
}

/// Position of the first place where `a` is directly followed by `b`, or the
/// length of `s` where there is none.
pub open spec fn first_pair(s: Seq<char>, a: char, b: char) -> int
    decreases s.len(),
{
    if s.len() < 2 {
        s.len() as int
    } else if s[0] == a && s[1] == b {
        0
    } else {
        1 + first_pair(s.skip(1), a, b)
    }
}

/// In `s`, `a` stands at `j` and `b` directly behind it.
pub open spec fn pair_at(s: Seq<char>, a: char, b: char, j: int) -> bool {
    0 <= j && j + 1 < s.len() && s[j] == a && s[j + 1] == b
}

/// `i` is the first place in `s` where `a` is directly followed by `b`, or
/// the length of `s` where there is none.
pub open spec fn is_first_pair(s: Seq<char>, a: char, b: char, i: int) -> bool {
    &&& 0 <= i <= s.len()
    &&& forall|j: int| 0 <= j < i ==> !#[trigger] pair_at(s, a, b, j)
    &&& i < s.len() ==> pair_at(s, a, b, i)
}

/// `first_pair` is where the pair first occurs.
pub proof fn lemma_first_pair(s: Seq<char>, a: char, b: char)
    ensures
        is_first_pair(s, a, b, first_pair(s, a, b)),
    decreases s.len(),
{
    if s.len() >= 2 && !(s[0] == a && s[1] == b) {
        let t = s.skip(1);
        lemma_first_pair(t, a, b);
        let k = first_pair(t, a, b);
        assert forall|j: int| 0 <= j < 1 + k implies !#[trigger] pair_at(s, a, b, j) by {
            if j > 0 {
                assert(!pair_at(t, a, b, j - 1));
                if j + 1 < s.len() {
                    assert(t[j - 1] == s[j]);
                    assert(t[j] == s[j + 1]);
                }
            }
        }
        if 1 + k < s.len() {
            assert(pair_at(t, a, b, k));
            assert(t[k] == s[1 + k]);
            assert(t[k + 1] == s[2 + k]);
        }
    }
}

/// There is one such position only.
pub proof fn lemma_first_pair_unique(s: Seq<char>, a: char, b: char, i: int)
    requires
        is_first_pair(s, a, b, i),
    ensures
        i == first_pair(s, a, b),
{
    lemma_first_pair(s, a, b);
    let k = first_pair(s, a, b);
    if i < k {
        assert(pair_at(s, a, b, i));
    } else if k < i {
        assert(pair_at(s, a, b, k));
    }
}

/// Position of the last `c` in `s`, or -1 where there is none.
pub open spec fn last_index(s: Seq<char>, c: char) -> int
    decreases s.len(),
{
    if s.len() == 0 {
        -1
    } else if s.last() == c {
        s.len() - 1
    } else {
        last_index(s.drop_last(), c)
    }
}

/// `i` is where `c` last occurs in `s`, or -1 where it does not occur.
pub open spec fn is_last_index(s: Seq<char>, c: char, i: int) -> bool {
    &&& -1 <= i < s.len()
    &&& forall|j: int| i < j < s.len() ==> s[j] != c
    &&& 0 <= i ==> s[i] == c
}

/// `last_index` is where the character last occurs.
pub proof fn lemma_last_index(s: Seq<char>, c: char)
    ensures
        is_last_index(s, c, last_index(s, c)),
    decreases s.len(),
{
    if s.len() > 0 && s.last() != c {
        let t = s.drop_last();
        lemma_last_index(t, c);
        let k = last_index(t, c);
        assert forall|j: int| k < j < s.len() implies s[j] != c by {
            if j < t.len() {
                assert(t[j] == s[j]);
            }
        }
        if 0 <= k {
            assert(t[k] == s[k]);
        }
    }
}

/// There is one such position only.
pub proof fn lemma_last_index_unique(s: Seq<char>, c: char, i: int)
    requires
        is_last_index(s, c, i),
    ensures
        i == last_index(s, c),
{
    lemma_last_index(s, c);
}

/// The characters with the Unicode property White_Space.
pub open spec fn is_white_space(c: char) -> bool {
    let u = c as u32;
    ||| 0x09 <= u <= 0x0d
    ||| u == 0x20
    ||| u == 0x85
    ||| u == 0xa0
    ||| u == 0x1680
    ||| 0x2000 <= u <= 0x200a
    ||| u == 0x2028
    ||| u == 0x2029
    ||| u == 0x202f
    ||| u == 0x205f
    ||| u == 0x3000
}

/// `s` without its leading white space.
pub open spec fn trimmed_start(s: Seq<char>) -> Seq<char>
    decreases s.len(),
{
    if s.len() > 0 && is_white_space(s[0]) {
        trimmed_start(s.skip(1))
    } else {
        s
    }
}

/// `s` without its trailing white space.
pub open spec fn trimmed_end(s: Seq<char>) -> Seq<char>
    decreases s.len(),
{
    if s.len() > 0 && is_white_space(s.last()) {
        trimmed_end(s.drop_last())
    } else {
        s
    }
}

/// `s` without its leading and trailing white space.
pub open spec fn trimmed(s: Seq<char>) -> Seq<char> {
    trimmed_end(trimmed_start(s))
}

/// `t` is `s` from its first character that is no white space up to its last
/// one, or empty where `s` holds white space only.
pub open spec fn is_trimmed_of(s: Seq<char>, t: Seq<char>) -> bool {
    exists|a: int, b: int|
        {
            &&& 0 <= a <= b <= s.len()
            &&& #[trigger] s.subrange(a, b) == t
            &&& forall|j: int| 0 <= j < a ==> is_white_space(s[j])
            &&& forall|j: int| b <= j < s.len() ==> is_white_space(s[j])
            &&& a < b ==> !is_white_space(s[a]) && !is_white_space(s[b - 1])
        }
}

/// What `trimmed_start` cuts off: the white space before position `a`.
pub proof fn lemma_trimmed_start(s: Seq<char>) -> (a: int)
    ensures
        0 <= a <= s.len(),
        trimmed_start(s) == s.skip(a),
        forall|j: int| 0 <= j < a ==> is_white_space(s[j]),
        a < s.len() ==> !is_white_space(s[a]),
    decreases s.len(),
{
    if s.len() > 0 && is_white_space(s[0]) {
        let t = s.skip(1);
        let k = lemma_trimmed_start(t);
        assert(t.skip(k) =~= s.skip(k + 1));
        assert forall|j: int| 0 <= j < k + 1 implies is_white_space(s[j]) by {
            if j > 0 {
                assert(t[j - 1] == s[j]);
            }
        }
        if k + 1 < s.len() {
            assert(t[k] == s[k + 1]);
        }
        k + 1
    } else {
        assert(s.skip(0) =~= s);
        0
    }
}

/// What `trimmed_end` cuts off: the white space from position `b` on.
pub proof fn lemma_trimmed_end(s: Seq<char>) -> (b: int)
    ensures
        0 <= b <= s.len(),
        trimmed_end(s) == s.take(b),
        forall|j: int| b <= j < s.len() ==> is_white_space(s[j]),
        0 < b ==> !is_white_space(s[b - 1]),
    decreases s.len(),
{
    if s.len() > 0 && is_white_space(s.last()) {
        let t = s.drop_last();
        let k = lemma_trimmed_end(t);
        assert(t.take(k) =~= s.take(k));
        assert forall|j: int| k <= j < s.len() implies is_white_space(s[j]) by {
            if j < t.len() {
                assert(t[j] == s[j]);
            }
        }
        if 0 < k {
            assert(t[k - 1] == s[k - 1]);
        }
        k
    } else {
        assert(s.take(s.len() as int) =~= s);
        s.len() as int
    }
}

/// What `trimmed` cuts out of `s`: the bounds of the part that stays.
pub proof fn lemma_trimmed(s: Seq<char>) -> (bounds: (int, int))
    ensures
        0 <= bounds.0 <= bounds.1 <= s.len(),
        trimmed(s) == s.subrange(bounds.0, bounds.1),
        forall|j: int| 0 <= j < bounds.0 ==> is_white_space(s[j]),
        forall|j: int| bounds.1 <= j < s.len() ==> is_white_space(s[j]),
        bounds.0 < bounds.1 ==> !is_white_space(s[bounds.0]) && !is_white_space(s[bounds.1 - 1]),
        is_trimmed_of(s, trimmed(s)),
{
    let a = lemma_trimmed_start(s);
    let t = s.skip(a);
    let k = lemma_trimmed_end(t);
    let b = a + k;
    assert(t.take(k) =~= s.subrange(a, b));
    assert forall|j: int| b <= j < s.len() implies is_white_space(s[j]) by {
        assert(t[j - a] == s[j]);
    }
    if a < b {
        assert(t[k - 1] == s[b - 1]);
    }
    (a, b)
}

/// Any part of `s` that starts and ends at a character that is no white
/// space, with only white space around it, is `trimmed(s)`.
pub proof fn lemma_trimmed_unique(s: Seq<char>, a: int, b: int)
    requires
        0 <= a <= b <= s.len(),
        forall|j: int| 0 <= j < a ==> is_white_space(s[j]),
        forall|j: int| b <= j < s.len() ==> is_white_space(s[j]),
        a < b ==> !is_white_space(s[a]) && !is_white_space(s[b - 1]),
    ensures
        trimmed(s) == s.subrange(a, b),
{
    let (x, y) = lemma_trimmed(s);
    if a < b {
        assert(x == a) by {
            if x < a {
                assert(is_white_space(s[x]));
            } else if a < x {
                assert(is_white_space(s[a]));
            }
        }
        assert(x < y) by {
            if x >= y {
                assert(is_white_space(s[b - 1]));
            }
        }
        assert(y == b) by {
            if y < b {
                assert(is_white_space(s[b - 1]));
            } else if b < y {
                assert(is_white_space(s[y - 1]));
            }
        }
    } else {
        if x < y {
            assert(is_white_space(s[x])) by {
                if x >= a {
                    assert(b <= x);
                }
            }
        }
        assert(s.subrange(x, y) =~= s.subrange(a, b));
    }
}

/// Trimming what is trimmed already changes nothing.
pub proof fn lemma_trimmed_idempotent(s: Seq<char>)
    ensures
        trimmed(trimmed(s)) == trimmed(s),
{
    let (a, b) = lemma_trimmed(s);
    let t = trimmed(s);
    if a < b {
        assert(t[0] == s[a]);
        assert(t[t.len() - 1] == s[b - 1]);
    }
    lemma_trimmed_unique(t, 0, t.len() as int);
    assert(t.subrange(0, t.len() as int) =~= t);
}

/// The ten decimal digits.
pub open spec fn is_digit(c: char) -> bool {
    '0' <= c <= '9'
}

/// The number that the digit `c` writes.
pub open spec fn digit_value(c: char) -> nat
    recommends
        is_digit(c),
{
    (c as u32 - '0' as u32) as nat
}

/// Every character of `s` is a decimal digit, and there is at least one.
pub open spec fn is_decimal(s: Seq<char>) -> bool {
    s.len() > 0 && forall|i: int| 0 <= i < s.len() ==> is_digit(#[trigger] s[i])
}

/// The number that the decimal digits `s` write.
pub open spec fn decimal_value(s: Seq<char>) -> nat
    decreases s.len(),
{
    if s.len() == 0 {
        0
    } else {
        10 * decimal_value(s.drop_last()) + digit_value(s.last())
    }
}

/// The character that writes the digit `d`.
pub open spec fn digit_char(d: nat) -> char
    recommends
        d < 10,
{
    if d == 0 {
        '0'
    } else if d == 1 {
        '1'
    } else if d == 2 {
        '2'
    } else if d == 3 {
        '3'
    } else if d == 4 {
        '4'
    } else if d == 5 {
        '5'
    } else if d == 6 {
        '6'
    } else if d == 7 {
        '7'
    } else if d == 8 {
        '8'
    } else {
        '9'
    }
}

/// The decimal digits that write `n`, without leading zeros.
pub open spec fn digits_of(n: nat) -> Seq<char>
    decreases n,
{
    if n < 10 {
        seq![digit_char(n)]
    } else {
        digits_of(n / 10).push(digit_char(n % 10))
    }
}

/// Writing a number and reading it again gives the number.
pub proof fn lemma_digits_round_trip(n: nat)
    ensures
        is_decimal(digits_of(n)),
        decimal_value(digits_of(n)) == n,
    decreases n,
{
    let s = digits_of(n);
    if n < 10 {
        assert(s.drop_last() =~= Seq::<char>::empty());
        assert(decimal_value(s.drop_last()) == 0);
        assert(s.last() == digit_char(n));
    } else {
        lemma_digits_round_trip(n / 10);
        let head = digits_of(n / 10);
        assert(s.drop_last() =~= head);
        assert(s.last() == digit_char(n % 10));
        assert forall|i: int| 0 <= i < s.len() implies is_digit(#[trigger] s[i]) by {
            if i < head.len() {
                assert(s[i] == head[i]);
            }
        }
    }
}

/// The characters of `s`.
pub fn chars_of(s: &str) -> (r: Vec<char>)
    ensures
        r@ == s@,
{
    let mut out: Vec<char> = Vec::new();
    for c in it: s.chars()
        invariant
            out@ == it.seq().take(it.index() as int),
    {
        out.push(c);
    }
    out
}

/// Whether two texts hold the same characters.
pub fn str_equal(a: &str, b: &str) -> (r: bool)
    ensures
        r == (a@ == b@),
{
    let x: String = a.to_owned();
    let y: String = b.to_owned();
    x == y
}

/// The part of `s` from character `from` up to, not including, character `to`.
pub fn slice_of(s: &str, from: usize, to: usize) -> (r: String)
    requires
        from <= to <= s@.len(),
    ensures
        r@ == s@.subrange(from as int, to as int),
{
    s.substring_char(from, to).to_owned()
}

/// Position of the first `c` in `s`, or the length of `s`.
pub fn find_char(s: &str, c: char) -> (r: usize)
    ensures
        r == first_index(s@, c),
        is_first_index(s@, c, r as int),
{
    let chars = chars_of(s);
    let mut i: usize = 0;
    while i < chars.len() && chars[i] != c
        invariant
            i <= chars.len(),
            forall|j: int| 0 <= j < i ==> chars@[j] != c,
        decreases chars.len() - i,
    {
        i = i + 1;
    }
    proof {
        lemma_first_index_unique(s@, c, i as int);
    }
    i
}

/// Position of the first `a` that `b` directly follows, or the length of `s`.
pub fn find_pair(s: &str, a: char, b: char) -> (r: usize)
    ensures
        r == first_pair(s@, a, b),
        is_first_pair(s@, a, b, r as int),
{
    let chars = chars_of(s);
    let n = chars.len();
    let mut i: usize = 0;
    while i < n && !(i + 1 < n && chars[i] == a && chars[i + 1] == b)
        invariant
            n == chars.len(),
            i <= n,
            forall|j: int| 0 <= j < i ==> !#[trigger] pair_at(chars@, a, b, j),
        decreases n - i,
    {
        i = i + 1;
    }
    proof {
        lemma_first_pair_unique(s@, a, b, i as int);
    }
    i
}

/// Position of the last `c` in `s`, if there is one.
pub fn rfind_char(s: &str, c: char) -> (r: Option<usize>)
    ensures
        match r {
            Some(i) => i == last_index(s@, c),
            None => last_index(s@, c) == -1,
        },
        is_last_index(
            s@,
            c,
            match r {
                Some(i) => i as int,
                None => -1,
            },
        ),
{
    let chars = chars_of(s);
    let mut i: usize = chars.len();
    while i > 0 && chars[i - 1] != c
        invariant
            i <= chars.len(),
            forall|j: int| i <= j < chars.len() ==> chars@[j] != c,
        decreases i,
    {
        i = i - 1;
    }
    proof {
        lemma_last_index_unique(s@, c, i as int - 1);
    }
    if i == 0 {
        None
    } else {
        Some(i - 1)
    }
}

/// Whether `c` occurs in `s`.
pub fn contains_char(s: &str, c: char) -> (r: bool)
    ensures
        r == s@.contains(c),
{
    let i = find_char(s, c);
    if i < s.unicode_len() {
        assert(s@[i as int] == c);
        true
    } else {
        false
    }
}

/// Whether `c` is white space.
pub fn is_space(c: char) -> (r: bool)
    ensures
        r == is_white_space(c),
{
    let u: u32 = c as u32;
    (0x09 <= u && u <= 0x0d) || u == 0x20 || u == 0x85 || u == 0xa0 || u == 0x1680 || (0x2000 <= u
        && u <= 0x200a) || u == 0x2028 || u == 0x2029 || u == 0x202f || u == 0x205f || u == 0x3000
}

/// `s` without the white space at its beginning and end.
pub fn trim(s: &str) -> (r: String)
    ensures
        r@ == trimmed(s@),
        is_trimmed_of(s@, r@),
{
    let chars = chars_of(s);
    let n = chars.len();
    let mut a: usize = 0;
    while a < n && is_space(chars[a])
        invariant
            n == chars.len(),
            a <= n,
            forall|j: int| 0 <= j < a ==> is_white_space(chars@[j]),
        decreases n - a,
    {
        a = a + 1;
    }
    let mut b: usize = n;
    while b > a && is_space(chars[b - 1])
        invariant
            n == chars.len(),
            a <= b <= n,
            forall|j: int| b <= j < n ==> is_white_space(chars@[j]),
        decreases b,
    {
        b = b - 1;
    }
    proof {
        lemma_trimmed_unique(s@, a as int, b as int);
        lemma_trimmed(s@);
    }
    slice_of(s, a, b)
}

/// Reads `s` as a decimal number, where it is one that fits in 64 bits.
pub fn parse_decimal(s: &str) -> (r: Option<u64>)
    ensures
        r is Some <==> is_decimal(s@) && decimal_value(s@) <= u64::MAX,
        r matches Some(v) ==> v == decimal_value(s@),
{
    let chars = chars_of(s);
    let n = chars.len();
    if n == 0 {
        return None;
    }
    let mut acc: u64 = 0;
    let mut i: usize = 0;
    while i < n
        invariant
            n == chars.len(),
            chars@ == s@,
            i <= n,
            forall|j: int| 0 <= j < i ==> is_digit(#[trigger] chars@[j]),
            acc == decimal_value(chars@.take(i as int)),
        decreases n - i,
    {
        let c = chars[i];
        if !('0' <= c && c <= '9') {
            return None;
        }
        let d: u64 = (c as u32 - '0' as u32) as u64;
        proof {
            let p = chars@.take(i as int + 1);
            assert(p.drop_last() =~= chars@.take(i as int));
            assert(p.last() == c);
            assert(decimal_value(p) == 10 * acc + d);
            lemma_decimal_value_grows(chars@, i as int + 1);
        }
        if acc > (u64::MAX - d) / 10 {
            return None;
        }
        acc = acc * 10 + d;
        i = i + 1;
    }
    proof {
        assert(chars@.take(n as int) =~= chars@);
    }
    Some(acc)
}

/// The digit `d` as a text.
fn digit_text(d: u64) -> (r: &'static str)
    requires
        d < 10,
    ensures
        r@ == seq![digit_char(d as nat)],
{
    proof {
        reveal_strlit("0");
        reveal_strlit("1");
        reveal_strlit("2");
        reveal_strlit("3");
        reveal_strlit("4");
        reveal_strlit("5");
        reveal_strlit("6");
        reveal_strlit("7");
        reveal_strlit("8");
        reveal_strlit("9");
    }
    let r = if d == 0 {
        "0"
    } else if d == 1 {
        "1"
    } else if d == 2 {
        "2"
    } else if d == 3 {
        "3"
    } else if d == 4 {
        "4"
    } else if d == 5 {
        "5"
    } else if d == 6 {
        "6"
    } else if d == 7 {
        "7"
    } else if d == 8 {
        "8"
    } else {
        "9"
    };
    assert(r@ =~= seq![digit_char(d as nat)]);
    r
}

/// `n` in decimal digits.
pub fn decimal_text(n: u64) -> (r: String)
    ensures
        r@ == digits_of(n as nat),
    decreases n,
{
    if n < 10 {
        digit_text(n).to_owned()
    } else {
        let mut out = decimal_text(n / 10);
        out.append(digit_text(n % 10));
        assert(out@ =~= digits_of(n as nat / 10).push(digit_char(n as nat % 10)));
        out
    }
}

/// A longer run of digits never writes a smaller number than its beginning.
pub proof fn lemma_decimal_value_grows(s: Seq<char>, k: int)
    requires
        0 <= k <= s.len(),
    ensures
        decimal_value(s.take(k)) <= decimal_value(s),
    decreases s.len() - k,
{
    if k < s.len() {
        lemma_decimal_value_grows(s, k + 1);
        let p = s.take(k + 1);
        assert(p.drop_last() =~= s.take(k));
    } else {
        assert(s.take(k) =~= s);
    }
}

} // verus!
