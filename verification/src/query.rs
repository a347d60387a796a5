//! Filter queries: `base[?field==literal]suffix` names, in the array that the
//! path `base` leads to, the first item whose `field` equals `literal`, or
//! what the path `suffix` names in that item.

use vstd::prelude::*;
use crate::error::{outcome_view, MappingError};
use crate::path::{lemma_resolve_wf, resolve, resolve_path};
use crate::text::{
    chars_of, contains_char, decimal_value, find_char, find_pair, first_index, first_pair,
    is_decimal, lemma_first_index_unique, lemma_first_pair, lemma_first_pair_unique, pair_at,
    parse_decimal, slice_of, str_equal, trim, trimmed,
};
use crate::value::{array_view, option_ref_view, option_view, GenericValue, Number, Tree};

verus! {

/// A filter query, taken apart.
pub struct Query {
    /// The path to the array that is searched.
    pub base: String,
    /// The path, within an item, to the value that is compared.
    pub field: String,
    /// What that value has to equal: a text, a boolean or an integer.
    pub literal: GenericValue,
    /// The path, within the item found, to the result; without it the item
    /// itself is the result.
    pub suffix: Option<String>,
}

/// The mathematical model of a [`Query`].
pub struct QueryModel {
    pub base: Seq<char>,
    pub field: Seq<char>,
    pub literal: Tree,
    pub suffix: Option<Seq<char>>,
}

impl View for Query {
    type V = QueryModel;

    open spec fn view(&self) -> QueryModel {
        QueryModel {
            base: self.base@,
            field: self.field@,
            literal: self.literal@,
            suffix: match self.suffix {
                Some(s) => Some(s@),
                None => None,
            },
        }
    }
}

/// The values that a literal can be.
pub open spec fn is_scalar(t: Tree) -> bool {
    t is Text || t is Bool || t is Number
}

/// The two characters that a text literal can stand between.
pub open spec fn is_quote(c: char) -> bool {
    c == '\'' || c == '"'
}

/// The value that a literal writes. A text stands between two quotes of one
/// kind and holds neither that quote nor a backslash; `true` and `false` are
/// the booleans; a run of digits, with or without `-` before it, is an
/// integer, as far as 64 bits hold it. Nothing else is a literal.
pub open spec fn parse_literal(s: Seq<char>) -> Option<Tree> {
    if s.len() >= 2 && is_quote(s[0]) && s.last() == s[0] {
        let inner = s.subrange(1, s.len() - 1);
        if inner.contains(s[0]) || inner.contains('\\') {
            None
        } else {
            Some(Tree::Text(inner))
        }
    } else if s == "true"@ {
        Some(Tree::Bool(true))
    } else if s == "false"@ {
        Some(Tree::Bool(false))
    } else if s.len() > 0 && s[0] == '-' {
        let digits = s.skip(1);
        if is_decimal(digits) && decimal_value(digits) <= 0x8000_0000_0000_0000 {
            if decimal_value(digits) == 0 {
                Some(Tree::Number(Number::PosInt(0)))
            } else {
                Some(Tree::Number(Number::NegInt((-decimal_value(digits)) as i64)))
            }
        } else {
            None
        }
    } else if is_decimal(s) && decimal_value(s) <= u64::MAX {
        Some(Tree::Number(Number::PosInt(decimal_value(s) as u64)))
    } else {
        None
    }
}

/// What stands between `[?` and `]`: a field and a literal with `==` between
/// them, each with any white space around it. The field is not empty.
pub open spec fn parse_filter(filter: Seq<char>) -> Option<(Seq<char>, Tree)> {
    let eq = first_pair(filter, '=', '=');
    let field = trimmed(filter.take(eq));
    let literal = parse_literal(trimmed(filter.skip(eq + 2)));
    if eq < filter.len() && field.len() > 0 && literal is Some {
        Some((field, literal->0))
    } else {
        None
    }
}

/// What follows `]`: nothing, or a `.` and a path that is not empty. The
/// outer `None` stands for anything else.
pub open spec fn parse_suffix(after: Seq<char>) -> Option<Option<Seq<char>>> {
    if after.len() == 0 {
        Some(None)
    } else if after[0] == '.' && after.len() >= 2 {
        Some(Some(after.skip(1)))
    } else {
        None
    }
}

/// The parts of the query `q`, or nothing where `q` does not follow the
/// syntax `base[?field==literal]suffix`: the base ends at the first `[?` and
/// is not empty, the filter ends at the first `]` behind that.
pub open spec fn parse_query(q: Seq<char>) -> Option<QueryModel> {
    let open = first_pair(q, '[', '?');
    let rest = q.skip(open + 2);
    let close = first_index(rest, ']');
    let filter = parse_filter(rest.take(close));
    let suffix = parse_suffix(rest.skip(close + 1));
    if 0 < open < q.len() && close < rest.len() {
        match (filter, suffix) {
            (Some((field, literal)), Some(suffix)) => Some(
                QueryModel { base: q.take(open), field, literal, suffix },
            ),
            _ => None,
        }
    } else {
        None
    }
}

/// `v` is the scalar `literal`: a text with the same characters, the same
/// boolean, or a number of the same form and value. Nothing equals what is
/// no scalar.
pub open spec fn scalar_equal(v: Tree, literal: Tree) -> bool {
    is_scalar(literal) && v == literal
}

/// The item's `field` is there and equals `literal`.
pub open spec fn satisfies(item: Tree, field: Seq<char>, literal: Tree) -> bool {
    match resolve_path(item, field) {
        Some(v) => scalar_equal(v, literal),
        None => false,
    }
}

/// The first of `items`, in their order, that satisfies the filter.
pub open spec fn first_match(items: Seq<Tree>, field: Seq<char>, literal: Tree) -> Option<Tree>
    decreases items.len(),
{
    if items.len() == 0 {
        None
    } else if satisfies(items[0], field, literal) {
        Some(items[0])
    } else {
        first_match(items.skip(1), field, literal)
    }
}

/// What the query `q` names in `t`: nothing where the base leads to no
/// array, where no item satisfies the filter, or where the suffix names
/// nothing in the first item that does.
pub open spec fn query_result(t: Tree, q: QueryModel) -> Option<Tree> {
    match resolve_path(t, q.base) {
        Some(Tree::Array(items)) => match first_match(items, q.field, q.literal) {
            Some(found) => match q.suffix {
                Some(p) => resolve_path(found, p),
                None => Some(found),
            },
            None => None,
        },
        _ => None,
    }
}

/// What the query text `query` names in `t`, or the failure to read it.
pub open spec fn resolve_query(t: Tree, query: Seq<char>) -> Result<Option<Tree>, MappingError> {
    match parse_query(query) {
        Some(q) => Ok(query_result(t, q)),
        None => Err(MappingError::QueryParseError),
    }
}

/// Of the items that satisfy the filter it is the first, in the order of
/// the array, that is found; none is found exactly where none satisfies it.
pub proof fn lemma_first_match(items: Seq<Tree>, field: Seq<char>, literal: Tree)
    ensures
        match first_match(items, field, literal) {
            Some(found) => exists|i: int|
                {
                    &&& 0 <= i < items.len()
                    &&& #[trigger] items[i] == found
                    &&& satisfies(items[i], field, literal)
                    &&& forall|j: int| 0 <= j < i ==> !satisfies(#[trigger] items[j], field, literal)
                },
            None => forall|i: int|
                0 <= i < items.len() ==> !satisfies(#[trigger] items[i], field, literal),
        },
    decreases items.len(),
{
    if items.len() == 0 {
    } else if satisfies(items[0], field, literal) {
        assert(items[0] == items[0]);
    } else {
        let rest = items.skip(1);
        lemma_first_match(rest, field, literal);
        match first_match(rest, field, literal) {
            Some(found) => {
                let i = choose|i: int|
                    {
                        &&& 0 <= i < rest.len()
                        &&& #[trigger] rest[i] == found
                        &&& satisfies(rest[i], field, literal)
                        &&& forall|j: int|
                            0 <= j < i ==> !satisfies(#[trigger] rest[j], field, literal)
                    };
                assert(items[i + 1] == rest[i]);
                assert forall|j: int| 0 <= j < i + 1 implies !satisfies(
                    #[trigger] items[j],
                    field,
                    literal,
                ) by {
                    if j > 0 {
                        assert(items[j] == rest[j - 1]);
                    }
                }
            },
            None => {
                assert forall|i: int| 0 <= i < items.len() implies !satisfies(
                    #[trigger] items[i],
                    field,
                    literal,
                ) by {
                    if i > 0 {
                        assert(items[i] == rest[i - 1]);
                    }
                }
            },
        }
    }
}

/// The query text that is made of these parts and has no suffix.
pub open spec fn query_text(base: Seq<char>, field: Seq<char>, literal: Seq<char>) -> Seq<char> {
    base + seq!['[', '?'] + field + seq!['=', '='] + literal + seq![']']
}

/// The three texts can be told apart again in `query_text`: the base is not
/// empty and holds no `[?`, neither field nor literal holds a `]`, and the
/// `==` between field and literal is the first one.
pub open spec fn are_query_parts(base: Seq<char>, field: Seq<char>, literal: Seq<char>) -> bool {
    &&& base.len() > 0
    &&& first_pair(base, '[', '?') == base.len()
    &&& !field.contains(']')
    &&& !literal.contains(']')
    &&& first_pair(field + seq!['=', '='] + literal, '=', '=') == field.len()
}

/// How the text `base[?field==literal]` is taken apart: into the base, the
/// field and the literal without the white space around them, and no
/// suffix. It is a query exactly where the field is not empty and the
/// literal is one.
pub proof fn lemma_parse_query_text(base: Seq<char>, field: Seq<char>, literal: Seq<char>)
    requires
        are_query_parts(base, field, literal),
    ensures
        parse_query(query_text(base, field, literal)) == (if trimmed(field).len() > 0
            && parse_literal(trimmed(literal)) is Some {
            Some(
                QueryModel {
                    base,
                    field: trimmed(field),
                    literal: parse_literal(trimmed(literal))->0,
                    suffix: None,
                },
            )
        } else {
            None
        }),
{
    let q = query_text(base, field, literal);
    let filter = field + seq!['=', '='] + literal;
    let open = base.len() as int;
    lemma_first_pair(base, '[', '?');
    assert(q =~= base + seq!['[', '?'] + filter + seq![']']);
    assert forall|j: int| 0 <= j < open implies !#[trigger] pair_at(q, '[', '?', j) by {
        if j + 1 < open {
            assert(!pair_at(base, '[', '?', j));
            assert(q[j] == base[j]);
            assert(q[j + 1] == base[j + 1]);
        } else {
            assert(q[j + 1] == '[');
        }
    }
    assert(q[open] == '[' && q[open + 1] == '?');
    assert(pair_at(q, '[', '?', open));
    lemma_first_pair_unique(q, '[', '?', open);
    let rest = q.skip(open + 2);
    assert(rest =~= filter + seq![']']);
    let close = filter.len() as int;
    assert forall|j: int| 0 <= j < close implies rest[j] != ']' by {
        if j < field.len() {
            assert(rest[j] == field[j]);
            assert(field.contains(field[j]));
        } else if j >= field.len() + 2 {
            assert(rest[j] == literal[j - field.len() - 2]);
            assert(literal.contains(literal[j - field.len() - 2]));
        } else {
            assert(rest[j] == '=');
        }
    }
    assert(rest[close] == ']');
    lemma_first_index_unique(rest, ']', close);
    assert(rest.take(close) =~= filter);
    assert(rest.skip(close + 1) =~= Seq::<char>::empty());
    assert(q.take(open) =~= base);
    assert(filter.take(field.len() as int) =~= field);
    assert(filter.skip(field.len() as int + 2) =~= literal);
}

/// A query without suffix gives one item of the array that its base leads
/// to: the first, in the order of the array, whose field equals the
/// literal. It is never a later one, and never more than one.
pub proof fn lemma_query_gives_first_match(
    metadata: Tree,
    base: Seq<char>,
    field: Seq<char>,
    literal: Seq<char>,
    items: Seq<Tree>,
    value: Tree,
    i: int,
)
    requires
        are_query_parts(base, field, literal),
        trimmed(field).len() > 0,
        parse_literal(trimmed(literal)) == Some(value),
        resolve_path(metadata, base) == Some(Tree::Array(items)),
        0 <= i < items.len(),
        satisfies(items[i], trimmed(field), value),
        forall|j: int| 0 <= j < i ==> !satisfies(#[trigger] items[j], trimmed(field), value),
    ensures
        resolve_query(metadata, query_text(base, field, literal)) == Ok::<
            Option<Tree>,
            MappingError,
        >(Some(items[i])),
{
    lemma_parse_query_text(base, field, literal);
    lemma_first_match_at(items, trimmed(field), value, i);
}

/// The first item that satisfies the filter is what `first_match` gives.
pub proof fn lemma_first_match_at(items: Seq<Tree>, field: Seq<char>, literal: Tree, i: int)
    requires
        0 <= i < items.len(),
        satisfies(items[i], field, literal),
        forall|j: int| 0 <= j < i ==> !satisfies(#[trigger] items[j], field, literal),
    ensures
        first_match(items, field, literal) == Some(items[i]),
    decreases items.len(),
{
    if i > 0 {
        let rest = items.skip(1);
        assert(!satisfies(items[0], field, literal));
        assert(rest[i - 1] == items[i]);
        assert forall|j: int| 0 <= j < i - 1 implies !satisfies(
            #[trigger] rest[j],
            field,
            literal,
        ) by {
            assert(rest[j] == items[j + 1]);
        }
        lemma_first_match_at(rest, field, literal, i - 1);
    }
}

/// What a query names in a well-formed value is well formed.
pub proof fn lemma_query_wf(t: Tree, q: QueryModel)
    requires
        t.wf(),
    ensures
        query_result(t, q) matches Some(v) ==> v.wf(),
{
    lemma_resolve_wf(t, q.base);
    if let Some(Tree::Array(items)) = resolve_path(t, q.base) {
        lemma_first_match(items, q.field, q.literal);
        if let Some(found) = first_match(items, q.field, q.literal) {
            assert(found.wf());
            if let Some(p) = q.suffix {
                lemma_resolve_wf(found, p);
            }
        }
    }
}

/// Reads a literal.
pub fn read_literal(s: &str) -> (r: Option<GenericValue>)
    ensures
        option_view(r) == parse_literal(s@),
        r matches Some(v) ==> is_scalar(v@),
{
    let chars = chars_of(s);
    let n = chars.len();
    if n >= 2 && (chars[0] == '\'' || chars[0] == '"') && chars[n - 1] == chars[0] {
        let inner = s.substring_char(1, n - 1);
        if contains_char(inner, chars[0]) || contains_char(inner, '\\') {
            None
        } else {
            Some(GenericValue::text(inner))
        }
    } else if str_equal(s, "true") {
        Some(GenericValue::Bool(true))
    } else if str_equal(s, "false") {
        Some(GenericValue::Bool(false))
    } else if n > 0 && chars[0] == '-' {
        match parse_decimal(s.substring_char(1, n)) {
            Some(v) => {
                if v == 0 {
                    Some(GenericValue::Number(Number::PosInt(0)))
                } else if v < 0x8000_0000_0000_0000 {
                    Some(GenericValue::Number(Number::NegInt(-(v as i64))))
                } else if v == 0x8000_0000_0000_0000 {
                    Some(GenericValue::Number(Number::NegInt(i64::MIN)))
                } else {
                    None
                }
            },
            None => None,
        }
    } else {
        match parse_decimal(s) {
            Some(v) => Some(GenericValue::Number(Number::PosInt(v))),
            None => None,
        }
    }
}

/// Whether `v` is the scalar `literal`.
pub fn equals_scalar(v: &GenericValue, literal: &GenericValue) -> (r: bool)
    ensures
        r == scalar_equal(v@, literal@),
{
    match (v, literal) {
        (GenericValue::Text(a), GenericValue::Text(b)) => *a == *b,
        (GenericValue::Bool(a), GenericValue::Bool(b)) => *a == *b,
        (GenericValue::Number(a), GenericValue::Number(b)) => *a == *b,
        _ => false,
    }
}

/// The first of `items` whose `field` equals `literal`.
pub fn first_matching<'a>(items: &'a Vec<GenericValue>, field: &str, literal: &GenericValue) -> (r:
    Option<&'a GenericValue>)
    ensures
        option_ref_view(r) == first_match(array_view(items@), field@, literal@),
{
    let ghost all = array_view(items@);
    let mut i: usize = 0;
    proof {
        assert(all.skip(0) =~= all);
    }
    while i < items.len()
        invariant
            i <= items.len(),
            all == array_view(items@),
            first_match(all, field@, literal@) == first_match(all.skip(i as int), field@, literal@),
        decreases items.len() - i,
    {
        let hit = match resolve(&items[i], field) {
            Some(v) => equals_scalar(v, literal),
            None => false,
        };
        proof {
            assert(all.skip(i as int)[0] == items@[i as int]@);
            assert(hit == satisfies(items@[i as int]@, field@, literal@));
            assert(all.skip(i as int).skip(1) =~= all.skip(i as int + 1));
        }
        if hit {
            return Some(&items[i]);
        }
        i = i + 1;
    }
    proof {
        assert(all.skip(i as int).len() == 0);
    }
    None
}

impl Query {
    /// What holds of every query that `parse` gives: the literal is a
    /// scalar, and no path is empty.
    pub open spec fn wf(&self) -> bool {
        &&& is_scalar(self.literal@)
        &&& self.base@.len() > 0
        &&& self.field@.len() > 0
        &&& self.suffix matches Some(p) ==> p@.len() > 0
    }

    /// Takes the query text apart.
    pub fn parse(query: &str) -> (r: Result<Query, MappingError>)
        ensures
            match r {
                Ok(q) => parse_query(query@) == Some(q@) && q.wf(),
                Err(e) => e == MappingError::QueryParseError && parse_query(query@) is None,
            },
    {
        let n = query.unicode_len();
        let open = find_pair(query, '[', '?');
        if open == 0 || open >= n {
            return Err(MappingError::QueryParseError);
        }
        let rest = query.substring_char(open + 2, n);
        let m = rest.unicode_len();
        let close = find_char(rest, ']');
        if close >= m {
            return Err(MappingError::QueryParseError);
        }
        let filter = rest.substring_char(0, close);
        let after = rest.substring_char(close + 1, m);
        let k = filter.unicode_len();
        let eq = find_pair(filter, '=', '=');
        if eq >= k {
            return Err(MappingError::QueryParseError);
        }
        let field = trim(filter.substring_char(0, eq));
        if field.as_str().unicode_len() == 0 {
            return Err(MappingError::QueryParseError);
        }
        let literal_text = trim(filter.substring_char(eq + 2, k));
        let literal = match read_literal(literal_text.as_str()) {
            Some(v) => v,
            None => {
                return Err(MappingError::QueryParseError);
            },
        };
        let after_chars = chars_of(after);
        let suffix: Option<String> = if after_chars.len() == 0 {
            None
        } else if after_chars[0] == '.' && after_chars.len() >= 2 {
            Some(slice_of(after, 1, after_chars.len()))
        } else {
            return Err(MappingError::QueryParseError);
        };
        Ok(Query { base: slice_of(query, 0, open), field, literal, suffix })
    }

    /// What the query names in `tree`, borrowed from it.
    pub fn evaluate<'a>(&self, tree: &'a GenericValue) -> (r: Option<&'a GenericValue>)
        ensures
            option_ref_view(r) == query_result(tree@, self@),
    {
        let items = match resolve(tree, self.base.as_str()) {
            Some(GenericValue::Array(items)) => items,
            _ => {
                return None;
            },
        };
        match first_matching(items, self.field.as_str(), &self.literal) {
            Some(found) => match &self.suffix {
                Some(p) => resolve(found, p.as_str()),
                None => Some(found),
            },
            None => None,
        }
    }
}

/// A copy of what the filter query `query` names in `metadata`, if it names
/// anything; `QueryParseError` where the text is no filter query.
pub fn extract_jsonpath(metadata: &GenericValue, query: &str) -> (r: Result<
    Option<GenericValue>,
    MappingError,
>)
    ensures
        outcome_view(r) == resolve_query(metadata@, query@),
        metadata@.wf() ==> (r matches Ok(Some(v)) ==> v@.wf()),
{
    proof {
        if metadata@.wf() && parse_query(query@) is Some {
            lemma_query_wf(metadata@, parse_query(query@)->0);
        }
    }
    match Query::parse(query) {
        Ok(q) => match q.evaluate(metadata) {
            Some(v) => Ok(Some(v.duplicate())),
            None => Ok(None),
        },
        Err(e) => Err(e),
    }
}

} // verus!
