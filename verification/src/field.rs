//! One output field from one field rule. A rule is an object whose members
//! `default`, `source`, `fallback`, `transform` and `unit` are all optional;
//! `default` comes before `source`, and `source` before `fallback`.

use vstd::prelude::*;
use crate::clock::now_rfc3339;
use crate::error::{outcome_view, ConfigFault, MappingError};
use crate::path::{extract_simple_path, lemma_resolve_wf, resolve_path};
use crate::query::{extract_jsonpath, lemma_query_wf, parse_query, resolve_query};
use crate::text::{contains_char, str_equal};
use crate::transform::{
    apply_transform_at, is_clock_transform, lemma_transformed_wf, transformed, uses_clock,
};
use crate::value::{distinct_names, lemma_member_wf, option_view, GenericValue, Tree};

verus! {

/// The member `key` of `rule`, where it is a text.
pub open spec fn text_member(rule: Tree, key: Seq<char>) -> Option<Seq<char>> {
    match rule.member(key) {
        Some(Tree::Text(s)) => Some(s),
        _ => None,
    }
}

/// The object that holds `v` as `value` and `unit` as `unit`.
pub open spec fn unit_wrapped(v: Tree, unit: Seq<char>) -> Tree {
    Tree::Object(seq![("value"@, v), ("unit"@, Tree::Text(unit))])
}

/// `v`, wrapped with the unit of `rule` where it names one.
pub open spec fn with_unit(v: Tree, rule: Tree) -> Tree {
    match text_member(rule, "unit"@) {
        Some(unit) => unit_wrapped(v, unit),
        None => v,
    }
}

/// `v` after the transform that `rule` names, where it names one, and
/// wrapped with its unit, where it names one.
pub open spec fn formatted(v: Tree, rule: Tree, now: Seq<char>) -> Tree {
    match text_member(rule, "transform"@) {
        Some(name) => with_unit(transformed(v, name, now), rule),
        None => with_unit(v, rule),
    }
}

/// `formatted`, for a value that may be absent.
pub open spec fn formatted_option(v: Option<Tree>, rule: Tree, now: Seq<char>) -> Option<Tree> {
    match v {
        Some(v) => Some(formatted(v, rule, now)),
        None => None,
    }
}

/// What the `source` text of a rule names in `metadata`. With a `[` in it
/// the text is a filter query, without one a dotted path; the empty text
/// names nothing.
pub open spec fn resolved_source(metadata: Tree, source: Seq<char>) -> Result<
    Option<Tree>,
    MappingError,
> {
    if source.contains('[') {
        resolve_query(metadata, source)
    } else if source.len() == 0 {
        Ok(None)
    } else {
        Ok(resolve_path(metadata, source))
    }
}

/// What `rule` gives where its source gave nothing: its `fallback` text as
/// it is. Only where the rule names a transform, and the fallback is that
/// name or `current_timestamp`, the transform is applied to the empty text
/// and the unit added.
pub open spec fn fallback_value(rule: Tree, now: Seq<char>) -> Option<Tree> {
    match text_member(rule, "fallback"@) {
        Some(fallback) => match text_member(rule, "transform"@) {
            Some(name) => if fallback == "current_timestamp"@ || fallback == name {
                Some(with_unit(transformed(Tree::Text(Seq::empty()), name, now), rule))
            } else {
                Some(Tree::Text(fallback))
            },
            None => Some(Tree::Text(fallback)),
        },
        None => None,
    }
}

/// The `default` of `rule`, where it has one that is not null.
pub open spec fn default_value(rule: Tree) -> Option<Tree> {
    match rule.member("default"@) {
        Some(d) => if d is Null {
            None
        } else {
            Some(d)
        },
        None => None,
    }
}

/// The value of the field that `rule` describes, none where the field is
/// left out, or the failure that ends the run.
pub open spec fn field_value(metadata: Tree, rule: Tree, now: Seq<char>) -> Result<
    Option<Tree>,
    MappingError,
> {
    match default_value(rule) {
        Some(d) => Ok(Some(d)),
        None => match rule.member("source"@) {
            None => Ok(fallback_value(rule, now)),
            Some(Tree::Null) => Ok(fallback_value(rule, now)),
            Some(Tree::Text(source)) => match resolved_source(metadata, source) {
                Err(e) => Err(e),
                Ok(Some(v)) => Ok(Some(formatted(v, rule, now))),
                Ok(None) => Ok(fallback_value(rule, now)),
            },
            Some(_) => Err(MappingError::ConfigError(ConfigFault::SourceNotText)),
        },
    }
}

/// A default that is not null is the field's value, whatever the rest of the
/// rule and the metadata hold: no source is read, no transform applied and
/// no unit added.
pub proof fn lemma_default_wins(metadata: Tree, rule: Tree, now: Seq<char>, d: Tree)
    requires
        rule.member("default"@) == Some(d),
        !(d is Null),
    ensures
        field_value(metadata, rule, now) == Ok::<Option<Tree>, MappingError>(Some(d)),
{
}

/// A rule without default and transform, whose source names nothing, gives
/// its fallback text as it is.
pub proof fn lemma_plain_fallback(
    metadata: Tree,
    rule: Tree,
    now: Seq<char>,
    source: Seq<char>,
    fallback: Seq<char>,
)
    requires
        default_value(rule) is None,
        rule.member("source"@) == Some(Tree::Text(source)),
        resolved_source(metadata, source) == Ok::<Option<Tree>, MappingError>(None),
        rule.member("fallback"@) == Some(Tree::Text(fallback)),
        text_member(rule, "transform"@) is None,
    ensures
        field_value(metadata, rule, now) == Ok::<Option<Tree>, MappingError>(
            Some(Tree::Text(fallback)),
        ),
{
}

/// A rule without default, fallback and usable source leaves its field out.
pub proof fn lemma_absent_without_fallback(metadata: Tree, rule: Tree, now: Seq<char>)
    requires
        default_value(rule) is None,
        rule.member("source"@) is None || rule.member("source"@) == Some(Tree::Null),
        text_member(rule, "fallback"@) is None,
    ensures
        field_value(metadata, rule, now) == Ok::<Option<Tree>, MappingError>(None),
{
}

/// The rule names one of the two transforms that write the time of the run.
pub open spec fn rule_uses_clock(rule: Tree) -> bool {
    match text_member(rule, "transform"@) {
        Some(name) => uses_clock(name),
        None => false,
    }
}

/// What a rule without a time transform gives does not depend on the time.
pub proof fn lemma_field_without_clock(metadata: Tree, rule: Tree, now: Seq<char>, then: Seq<char>)
    requires
        !rule_uses_clock(rule),
    ensures
        field_value(metadata, rule, now) == field_value(metadata, rule, then),
{
}

/// A well-formed value with a unit is a well-formed value.
pub proof fn lemma_with_unit_wf(v: Tree, rule: Tree)
    requires
        v.wf(),
    ensures
        with_unit(v, rule).wf(),
{
    reveal_strlit("value");
    reveal_strlit("unit");
    if let Some(unit) = text_member(rule, "unit"@) {
        let members = seq![("value"@, v), ("unit"@, Tree::Text(unit))];
        assert("value"@.len() != "unit"@.len());
        assert(distinct_names(members));
        assert forall|i: int| 0 <= i < members.len() implies (#[trigger] members[i]).1.wf() by {}
    }
}

/// From well-formed metadata a well-formed rule resolves to a well-formed
/// value.
pub proof fn lemma_field_wf(metadata: Tree, rule: Tree, now: Seq<char>)
    requires
        metadata.wf(),
        rule.wf(),
    ensures
        field_value(metadata, rule, now) matches Ok(Some(v)) ==> v.wf(),
{
    lemma_member_wf(rule, "default"@);
    match text_member(rule, "transform"@) {
        Some(name) => {
            lemma_transformed_wf(Tree::Text(Seq::empty()), name, now);
            lemma_with_unit_wf(transformed(Tree::Text(Seq::empty()), name, now), rule);
        },
        None => {},
    }
    if let Some(Tree::Text(source)) = rule.member("source"@) {
        if source.contains('[') {
            if let Some(q) = parse_query(source) {
                lemma_query_wf(metadata, q);
            }
        } else {
            lemma_resolve_wf(metadata, source);
        }
        if let Ok(Some(v)) = resolved_source(metadata, source) {
            match text_member(rule, "transform"@) {
                Some(name) => {
                    lemma_transformed_wf(v, name, now);
                    lemma_with_unit_wf(transformed(v, name, now), rule);
                },
                None => {
                    lemma_with_unit_wf(v, rule);
                },
            }
        }
    }
}

/// The member `key` of `rule`, where it is a text.
pub fn get_text<'a>(rule: &'a GenericValue, key: &str) -> (r: Option<&'a str>)
    ensures
        match r {
            Some(s) => text_member(rule@, key@) == Some(s@),
            None => text_member(rule@, key@) is None,
        },
{
    match rule.get(key) {
        Some(v) => v.as_str(),
        None => None,
    }
}

/// Whether `rule` names one of the two transforms that write the time of
/// the run.
pub fn names_clock_transform(rule: &GenericValue) -> (r: bool)
    ensures
        r == rule_uses_clock(rule@),
{
    match get_text(rule, "transform") {
        Some(name) => is_clock_transform(name),
        None => false,
    }
}

/// The time of the run for `rule`: a reading of the clock where the rule
/// names a time transform, and the empty text, which no one will read,
/// where it names none.
fn time_for(rule: &GenericValue) -> (r: String)
    ensures
        !rule_uses_clock(rule@) ==> r@ == Seq::<char>::empty(),
{
    if names_clock_transform(rule) {
        now_rfc3339()
    } else {
        String::new()
    }
}

/// `value`, wrapped with the unit of `config` where it names one.
fn wrap_unit(value: GenericValue, config: &GenericValue) -> (r: GenericValue)
    ensures
        r@ == with_unit(value@, config@),
{
    match get_text(config, "unit") {
        Some(unit) => {
            let ghost v = value@;
            let mut members: Vec<(String, GenericValue)> = Vec::new();
            members.push(("value".to_owned(), value));
            members.push(("unit".to_owned(), GenericValue::text(unit)));
            let r = GenericValue::Object(members);
            assert(r@->Object_0 =~= seq![("value"@, v), ("unit"@, Tree::Text(unit@))]);
            r
        },
        None => value,
    }
}

/// `value` after the transform that `config` names, wrapped with the unit
/// that it names, with `now` as the time of the run.
pub fn format_output_at(value: Option<GenericValue>, config: &GenericValue, now: &str) -> (r:
    Option<GenericValue>)
    ensures
        option_view(r) == formatted_option(option_view(value), config@, now@),
        (value matches Some(v) && v@.wf()) ==> (r matches Some(w) && w@.wf()),
{
    proof {
        if let Some(v) = option_view(value) {
            if v.wf() {
                match text_member(config@, "transform"@) {
                    Some(name) => {
                        lemma_transformed_wf(v, name, now@);
                        lemma_with_unit_wf(transformed(v, name, now@), config@);
                    },
                    None => {
                        lemma_with_unit_wf(v, config@);
                    },
                }
            }
        }
    }
    match value {
        Some(v) => {
            let t = match get_text(config, "transform") {
                Some(name) => apply_transform_at(v, name, now),
                None => v,
            };
            Some(wrap_unit(t, config))
        },
        None => None,
    }
}

/// `value` after the transform that `config` names, wrapped with the unit
/// that it names. Never fails. The clock is read where `config` names a
/// time transform, and only there.
pub fn format_output(value: Option<GenericValue>, config: &GenericValue) -> (r: Result<
    Option<GenericValue>,
    MappingError,
>)
    ensures
        r is Ok,
        exists|now: Seq<char>|
            outcome_view(r) == Ok::<Option<Tree>, MappingError>(
                #[trigger] formatted_option(option_view(value), config@, now),
            ),
        !rule_uses_clock(config@) ==> forall|now: Seq<char>|
            outcome_view(r) == Ok::<Option<Tree>, MappingError>(
                #[trigger] formatted_option(option_view(value), config@, now),
            ),
        (value matches Some(v) && v@.wf()) ==> (r matches Ok(Some(w)) && w@.wf()),
{
    let now = time_for(config);
    Ok(format_output_at(value, config, now.as_str()))
}

/// What `config` gives where its source gave nothing.
fn fallback_at(config: &GenericValue, now: &str) -> (r: Option<GenericValue>)
    ensures
        option_view(r) == fallback_value(config@, now@),
{
    match get_text(config, "fallback") {
        Some(fallback) => {
            match get_text(config, "transform") {
                Some(name) => {
                    if str_equal(fallback, "current_timestamp") || str_equal(fallback, name) {
                        let empty = GenericValue::Text(String::new());
                        return Some(wrap_unit(apply_transform_at(empty, name, now), config));
                    }
                },
                None => {},
            }
            Some(GenericValue::text(fallback))
        },
        None => None,
    }
}

/// The value of the field that the rule `config` describes, with `now` as
/// the time of the run.
pub fn extract_field_at(metadata: &GenericValue, config: &GenericValue, now: &str) -> (r: Result<
    Option<GenericValue>,
    MappingError,
>)
    ensures
        outcome_view(r) == field_value(metadata@, config@, now@),
        metadata@.wf() && config@.wf() ==> (r matches Ok(Some(v)) ==> v@.wf()),
{
    proof {
        if metadata@.wf() && config@.wf() {
            lemma_field_wf(metadata@, config@, now@);
        }
    }
    match config.get("default") {
        Some(d) => {
            if !d.is_null() {
                return Ok(Some(d.duplicate()));
            }
        },
        None => {},
    }
    let source: Option<&str> = match config.get("source") {
        None => None,
        Some(s) => match s {
            GenericValue::Null => None,
            GenericValue::Text(text) => Some(text.as_str()),
            _ => {
                return Err(MappingError::ConfigError(ConfigFault::SourceNotText));
            },
        },
    };
    match source {
        Some(source) => {
            let found: Option<GenericValue> = if contains_char(source, '[') {
                match extract_jsonpath(metadata, source) {
                    Ok(v) => v,
                    Err(e) => {
                        return Err(e);
                    },
                }
            } else if source.unicode_len() == 0 {
                None
            } else {
                extract_simple_path(metadata, source)
            };
            match found {
                Some(v) => {
                    return Ok(format_output_at(Some(v), config, now));
                },
                None => {},
            }
        },
        None => {},
    }
    Ok(fallback_at(config, now))
}

/// The value of the field that the rule `config` describes. The clock is
/// read where `config` names a time transform, and only there.
pub fn extract_field(metadata: &GenericValue, config: &GenericValue) -> (r: Result<
    Option<GenericValue>,
    MappingError,
>)
    ensures
        exists|now: Seq<char>| outcome_view(r) == #[trigger] field_value(metadata@, config@, now),
        !rule_uses_clock(config@) ==> forall|now: Seq<char>|
            outcome_view(r) == #[trigger] field_value(metadata@, config@, now),
        metadata@.wf() && config@.wf() ==> (r matches Ok(Some(v)) ==> v@.wf()),
{
    let now = time_for(config);
    extract_field_at(metadata, config, now.as_str())
}

} // verus!
