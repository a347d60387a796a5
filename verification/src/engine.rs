//! The mapping run: every section of the rule set, every field of a section,
//! and one level of nested sections below that. What resolves to nothing
//! leaves no trace in the output: no field, no empty nested section, no
//! empty section.

use vstd::prelude::*;
use crate::clock::now_rfc3339;
use crate::collect::{
    collected, comes_from, kept_object, lemma_all_absent, lemma_collected_failure,
    lemma_collected_members, lemma_collected_same, lemma_collected_skips_absent,
    lemma_collected_step, lemma_collected_wf,
};
use crate::error::{outcome_view, ConfigFault, MappingError};
use crate::field::{
    extract_field_at, field_value, lemma_field_wf, lemma_field_without_clock,
    names_clock_transform, rule_uses_clock,
};
use crate::value::{lemma_member_wf, members_view, GenericValue, Tree};

verus! {

/// A rule has the shape of a nested section where it is an object with a
/// member called `objectiveMagnification`, or with a member that is itself
/// an object.
pub open spec fn is_nested_section(rule: Tree) -> bool {
    match rule {
        Tree::Object(members) => {
            ||| rule.member("objectiveMagnification"@) is Some
            ||| exists|i: int| 0 <= i < members.len() && (#[trigger] members[i]).1 is Object
        },
        _ => false,
    }
}

/// Resolves a field rule against `metadata` at the time `now`.
pub open spec fn field_resolver(metadata: Tree, now: Seq<char>) -> spec_fn(Tree) -> Result<
    Option<Tree>,
    MappingError,
> {
    |rule: Tree| field_value(metadata, rule, now)
}

/// What stands under the name of one entry of a section. The entry is
/// resolved as a field rule first, and a failure there is final. Then an
/// entry with the shape of a nested section gives the object of its own
/// fields, if they give any; any other entry gives its value as a field.
pub open spec fn member_value(metadata: Tree, rule: Tree, now: Seq<char>) -> Result<
    Option<Tree>,
    MappingError,
> {
    match field_value(metadata, rule, now) {
        Err(e) => Err(e),
        Ok(flat) => if is_nested_section(rule) {
            kept_object(rule, field_resolver(metadata, now))
        } else {
            Ok(flat)
        },
    }
}

/// Resolves an entry of a section against `metadata` at the time `now`.
pub open spec fn member_resolver(metadata: Tree, now: Seq<char>) -> spec_fn(Tree) -> Result<
    Option<Tree>,
    MappingError,
> {
    |rule: Tree| member_value(metadata, rule, now)
}

/// Resolves a section against `metadata` at the time `now`.
pub open spec fn section_resolver(metadata: Tree, now: Seq<char>) -> spec_fn(Tree) -> Result<
    Option<Tree>,
    MappingError,
> {
    |rules: Tree| kept_object(rules, member_resolver(metadata, now))
}

/// The output of the rule set `rules` for `metadata` at the time `now`: an
/// object with one member for each section that gives any field, in the
/// order of the rule set.
pub open spec fn mapped(metadata: Tree, rules: Tree, now: Seq<char>) -> Result<Tree, MappingError> {
    match rules.member("mappings"@) {
        Some(Tree::Object(sections)) => match collected(sections, section_resolver(metadata, now)) {
            Ok(members) => Ok(Tree::Object(members)),
            Err(e) => Err(e),
        },
        _ => Err(MappingError::ConfigError(ConfigFault::MissingMappings)),
    }
}

/// The model of the members that a loop has gathered, or of its failure.
pub open spec fn members_outcome(r: Result<Vec<(String, GenericValue)>, MappingError>) -> Result<
    Seq<(Seq<char>, Tree)>,
    MappingError,
> {
    match r {
        Ok(members) => Ok(members_view(members@)),
        Err(e) => Err(e),
    }
}

/// The model of the output of a run, or of its failure.
pub open spec fn run_view(r: Result<GenericValue, MappingError>) -> Result<Tree, MappingError> {
    match r {
        Ok(v) => Ok(v@),
        Err(e) => Err(e),
    }
}

/// A section gives nothing where it is no object of rules, or where each of
/// its entries resolves to nothing.
pub open spec fn section_is_empty(metadata: Tree, section: Tree, now: Seq<char>) -> bool {
    section matches Tree::Object(fields) ==> forall|i: int|
        0 <= i < fields.len() ==> member_value(metadata, (#[trigger] fields[i]).1, now) == Ok::<
            Option<Tree>,
            MappingError,
        >(None)
}

/// A section whose every field resolves to nothing does not appear in the
/// output: where all the sections called `name` are empty, the output has
/// no member called `name`.
pub proof fn lemma_empty_section_omitted(
    metadata: Tree,
    rules: Tree,
    now: Seq<char>,
    sections: Seq<(Seq<char>, Tree)>,
    name: Seq<char>,
)
    requires
        rules.member("mappings"@) == Some(Tree::Object(sections)),
        forall|i: int|
            0 <= i < sections.len() && (#[trigger] sections[i]).0 == name ==> section_is_empty(
                metadata,
                sections[i].1,
                now,
            ),
    ensures
        mapped(metadata, rules, now) matches Ok(out) ==> out.member(name) is None,
{
    let f = section_resolver(metadata, now);
    assert forall|i: int| 0 <= i < sections.len() && (#[trigger] sections[i]).0 == name implies f(
        sections[i].1,
    ) == Ok::<Option<Tree>, MappingError>(None) by {
        match sections[i].1 {
            Tree::Object(fields) => {
                let g = member_resolver(metadata, now);
                assert forall|k: int| 0 <= k < fields.len() implies g((#[trigger] fields[k]).1)
                    == Ok::<Option<Tree>, MappingError>(None) by {
                    assert(g(fields[k].1) == member_value(metadata, fields[k].1, now));
                }
                lemma_all_absent(fields, g);
            },
            _ => {},
        }
    }
    lemma_collected_skips_absent(sections, f, name);
}

/// An object with at least one member.
pub open spec fn is_filled_object(t: Tree) -> bool {
    match t {
        Tree::Object(members) => members.len() > 0,
        _ => false,
    }
}

/// Every section of the output is an object with at least one field.
pub proof fn lemma_sections_not_empty(metadata: Tree, rules: Tree, now: Seq<char>)
    ensures
        mapped(metadata, rules, now) matches Ok(Tree::Object(out)) ==> forall|k: int|
            0 <= k < out.len() ==> is_filled_object((#[trigger] out[k]).1),
{
    if let Some(Tree::Object(sections)) = rules.member("mappings"@) {
        let f = section_resolver(metadata, now);
        lemma_collected_members(sections, f);
        if let Ok(out) = collected(sections, f) {
            assert forall|k: int| 0 <= k < out.len() implies is_filled_object(
                (#[trigger] out[k]).1,
            ) by {
                assert(comes_from(sections, f, out[k]));
            }
        }
    }
}

/// A rule set without an object `mappings` is refused, whatever else it
/// holds: there is no output.
pub proof fn lemma_missing_mappings(metadata: Tree, rules: Tree, now: Seq<char>)
    requires
        !(rules.member("mappings"@) matches Some(m) && m is Object),
    ensures
        mapped(metadata, rules, now) == Err::<Tree, MappingError>(
            MappingError::ConfigError(ConfigFault::MissingMappings),
        ),
{
}

/// None of the rules names a time transform.
pub open spec fn fields_without_clock(fields: Seq<(Seq<char>, Tree)>) -> bool {
    forall|i: int| 0 <= i < fields.len() ==> !rule_uses_clock((#[trigger] fields[i]).1)
}

/// Neither the entry of a section nor, where it is an object, any of its
/// members names a time transform.
pub open spec fn member_without_clock(rule: Tree) -> bool {
    &&& !rule_uses_clock(rule)
    &&& rule matches Tree::Object(fields) ==> fields_without_clock(fields)
}

/// No entry of the section names a time transform.
pub open spec fn section_without_clock(section: Tree) -> bool {
    section matches Tree::Object(fields) ==> forall|i: int|
        0 <= i < fields.len() ==> member_without_clock((#[trigger] fields[i]).1)
}

/// No rule of the rule set names a time transform.
pub open spec fn rules_without_clock(rules: Tree) -> bool {
    rules.member("mappings"@) matches Some(Tree::Object(sections)) ==> forall|i: int|
        0 <= i < sections.len() ==> section_without_clock((#[trigger] sections[i]).1)
}

/// The output of a rule set without time transforms is fixed by the
/// metadata and the rule set alone: it is the same at every time.
pub proof fn lemma_mapped_without_clock(metadata: Tree, rules: Tree, now: Seq<char>, then: Seq<char>)
    requires
        rules_without_clock(rules),
    ensures
        mapped(metadata, rules, now) == mapped(metadata, rules, then),
{
    if let Some(Tree::Object(sections)) = rules.member("mappings"@) {
        let f = section_resolver(metadata, now);
        let g = section_resolver(metadata, then);
        assert forall|i: int| 0 <= i < sections.len() implies f((#[trigger] sections[i]).1) == g(
            sections[i].1,
        ) by {
            if let Tree::Object(fields) = sections[i].1 {
                let mf = member_resolver(metadata, now);
                let mg = member_resolver(metadata, then);
                assert forall|k: int| 0 <= k < fields.len() implies mf((#[trigger] fields[k]).1)
                    == mg(fields[k].1) by {
                    let rule = fields[k].1;
                    assert(member_without_clock(rule));
                    lemma_field_without_clock(metadata, rule, now, then);
                    if let Tree::Object(inner) = rule {
                        let ff = field_resolver(metadata, now);
                        let fg = field_resolver(metadata, then);
                        assert forall|n: int| 0 <= n < inner.len() implies ff(
                            (#[trigger] inner[n]).1,
                        ) == fg(inner[n].1) by {
                            lemma_field_without_clock(metadata, inner[n].1, now, then);
                        }
                        lemma_collected_same(inner, ff, fg);
                    }
                }
                lemma_collected_same(fields, mf, mg);
            }
        }
        lemma_collected_same(sections, f, g);
    }
}

/// Well-formed metadata and a well-formed rule set give well-formed output.
pub proof fn lemma_mapped_wf(metadata: Tree, rules: Tree, now: Seq<char>)
    requires
        metadata.wf(),
        rules.wf(),
    ensures
        mapped(metadata, rules, now) matches Ok(out) ==> out.wf(),
{
    lemma_member_wf(rules, "mappings"@);
    if let Some(Tree::Object(sections)) = rules.member("mappings"@) {
        let f = section_resolver(metadata, now);
        assert forall|i: int| 0 <= i < sections.len() implies (f(
            (#[trigger] sections[i]).1,
        ) matches Ok(Some(v)) ==> v.wf()) by {
            let section = sections[i].1;
            assert(section.wf());
            if let Tree::Object(fields) = section {
                let g = member_resolver(metadata, now);
                assert forall|k: int| 0 <= k < fields.len() implies (g(
                    (#[trigger] fields[k]).1,
                ) matches Ok(Some(v)) ==> v.wf()) by {
                    let rule = fields[k].1;
                    assert(rule.wf());
                    lemma_field_wf(metadata, rule, now);
                    if let Tree::Object(inner) = rule {
                        let h = field_resolver(metadata, now);
                        assert forall|n: int| 0 <= n < inner.len() implies (h(
                            (#[trigger] inner[n]).1,
                        ) matches Ok(Some(v)) ==> v.wf()) by {
                            assert(inner[n].1.wf());
                            lemma_field_wf(metadata, inner[n].1, now);
                        }
                        lemma_collected_wf(inner, h);
                    }
                }
                lemma_collected_wf(fields, g);
            }
        }
        lemma_collected_wf(sections, f);
    }
}

/// Adds the member `name` with the value `value` behind the others.
fn push_member(out: &mut Vec<(String, GenericValue)>, name: &String, value: GenericValue)
    ensures
        members_view(final(out)@) == members_view(old(out)@).push((name@, value@)),
{
    out.push((name.clone(), value));
    assert(members_view(out@) =~= members_view(old(out)@).push((name@, value@)));
}

/// Resolves each of `fields` as a field rule.
pub fn map_fields(metadata: &GenericValue, fields: &Vec<(String, GenericValue)>, now: &str) -> (r:
    Result<Vec<(String, GenericValue)>, MappingError>)
    ensures
        members_outcome(r) == collected(members_view(fields@), field_resolver(metadata@, now@)),
{
    let ghost entries = members_view(fields@);
    let ghost f = field_resolver(metadata@, now@);
    let mut out: Vec<(String, GenericValue)> = Vec::new();
    let mut i: usize = 0;
    assert(members_view(out@) =~= Seq::empty());
    while i < fields.len()
        invariant
            i <= fields.len(),
            entries == members_view(fields@),
            f == field_resolver(metadata@, now@),
            collected(entries.take(i as int), f) == Ok::<Seq<(Seq<char>, Tree)>, MappingError>(
                members_view(out@),
            ),
        decreases fields.len() - i,
    {
        proof {
            lemma_collected_step(entries, f, i as int);
            assert(entries[i as int] == (fields@[i as int].0@, fields@[i as int].1@));
        }
        match extract_field_at(metadata, &fields[i].1, now) {
            Err(e) => {
                proof {
                    lemma_collected_failure(entries, f, i as int + 1);
                }
                return Err(e);
            },
            Ok(Some(v)) => {
                push_member(&mut out, &fields[i].0, v);
            },
            Ok(None) => {},
        }
        i = i + 1;
    }
    proof {
        assert(entries.take(i as int) =~= entries);
    }
    Ok(out)
}

/// Whether `rule` has the shape of a nested section.
pub fn has_nested_shape(rule: &GenericValue) -> (r: bool)
    ensures
        r == is_nested_section(rule@),
{
    match rule {
        GenericValue::Object(members) => {
            if rule.get("objectiveMagnification").is_some() {
                return true;
            }
            let mut i: usize = 0;
            while i < members.len()
                invariant
                    i <= members.len(),
                    rule@ == Tree::Object(members_view(members@)),
                    forall|j: int| 0 <= j < i ==> !((#[trigger] members@[j]).1@ is Object),
                decreases members.len() - i,
            {
                if members[i].1.is_object() {
                    assert(members_view(members@)[i as int].1 is Object);
                    return true;
                }
                i = i + 1;
            }
            proof {
                let m = members_view(members@);
                assert forall|j: int| 0 <= j < m.len() implies !((#[trigger] m[j]).1 is Object) by {
                    assert(!(members@[j].1@ is Object));
                }
            }
            false
        },
        _ => false,
    }
}

/// What stands under the name of the section entry `rule`.
pub fn map_member(metadata: &GenericValue, rule: &GenericValue, now: &str) -> (r: Result<
    Option<GenericValue>,
    MappingError,
>)
    ensures
        outcome_view(r) == member_value(metadata@, rule@, now@),
{
    let flat = match extract_field_at(metadata, rule, now) {
        Ok(v) => v,
        Err(e) => {
            return Err(e);
        },
    };
    if has_nested_shape(rule) {
        match rule {
            GenericValue::Object(fields) => {
                match map_fields(metadata, fields, now) {
                    Ok(inner) => {
                        if inner.len() > 0 {
                            Ok(Some(GenericValue::Object(inner)))
                        } else {
                            Ok(None)
                        }
                    },
                    Err(e) => Err(e),
                }
            },
            _ => Ok(None),
        }
    } else {
        Ok(flat)
    }
}

/// Resolves each entry of a section.
pub fn map_section(metadata: &GenericValue, fields: &Vec<(String, GenericValue)>, now: &str) -> (r:
    Result<Vec<(String, GenericValue)>, MappingError>)
    ensures
        members_outcome(r) == collected(members_view(fields@), member_resolver(metadata@, now@)),
{
    let ghost entries = members_view(fields@);
    let ghost f = member_resolver(metadata@, now@);
    let mut out: Vec<(String, GenericValue)> = Vec::new();
    let mut i: usize = 0;
    assert(members_view(out@) =~= Seq::empty());
    while i < fields.len()
        invariant
            i <= fields.len(),
            entries == members_view(fields@),
            f == member_resolver(metadata@, now@),
            collected(entries.take(i as int), f) == Ok::<Seq<(Seq<char>, Tree)>, MappingError>(
                members_view(out@),
            ),
        decreases fields.len() - i,
    {
        proof {
            lemma_collected_step(entries, f, i as int);
            assert(entries[i as int] == (fields@[i as int].0@, fields@[i as int].1@));
        }
        match map_member(metadata, &fields[i].1, now) {
            Err(e) => {
                proof {
                    lemma_collected_failure(entries, f, i as int + 1);
                }
                return Err(e);
            },
            Ok(Some(v)) => {
                push_member(&mut out, &fields[i].0, v);
            },
            Ok(None) => {},
        }
        i = i + 1;
    }
    proof {
        assert(entries.take(i as int) =~= entries);
    }
    Ok(out)
}

/// Resolves each section of a rule set.
pub fn map_sections(
    metadata: &GenericValue,
    sections: &Vec<(String, GenericValue)>,
    now: &str,
) -> (r: Result<Vec<(String, GenericValue)>, MappingError>)
    ensures
        members_outcome(r) == collected(members_view(sections@), section_resolver(metadata@, now@)),
{
    let ghost entries = members_view(sections@);
    let ghost f = section_resolver(metadata@, now@);
    let mut out: Vec<(String, GenericValue)> = Vec::new();
    let mut i: usize = 0;
    assert(members_view(out@) =~= Seq::empty());
    while i < sections.len()
        invariant
            i <= sections.len(),
            entries == members_view(sections@),
            f == section_resolver(metadata@, now@),
            collected(entries.take(i as int), f) == Ok::<Seq<(Seq<char>, Tree)>, MappingError>(
                members_view(out@),
            ),
        decreases sections.len() - i,
    {
        proof {
            lemma_collected_step(entries, f, i as int);
            assert(entries[i as int] == (sections@[i as int].0@, sections@[i as int].1@));
        }
        match &sections[i].1 {
            GenericValue::Object(fields) => {
                match map_section(metadata, fields, now) {
                    Err(e) => {
                        proof {
                            lemma_collected_failure(entries, f, i as int + 1);
                        }
                        return Err(e);
                    },
                    Ok(members) => {
                        if members.len() > 0 {
                            push_member(&mut out, &sections[i].0, GenericValue::Object(members));
                        }
                    },
                }
            },
            _ => {},
        }
        i = i + 1;
    }
    proof {
        assert(entries.take(i as int) =~= entries);
    }
    Ok(out)
}

/// Maps `metadata` by the rule set `connector`, with `now` as the time of
/// the run. Fails with `ConfigError` where the rule set has no object
/// `mappings`, and with the first failure of a field otherwise.
pub fn apply_mapping_at(metadata: &GenericValue, connector: &GenericValue, now: &str) -> (r: Result<
    GenericValue,
    MappingError,
>)
    ensures
        run_view(r) == mapped(metadata@, connector@, now@),
        metadata@.wf() && connector@.wf() ==> (r matches Ok(v) ==> v@.wf()),
{
    proof {
        if metadata@.wf() && connector@.wf() {
            lemma_mapped_wf(metadata@, connector@, now@);
        }
    }
    match connector.get("mappings") {
        Some(GenericValue::Object(sections)) => {
            match map_sections(metadata, sections, now) {
                Ok(members) => Ok(GenericValue::Object(members)),
                Err(e) => Err(e),
            }
        },
        _ => Err(MappingError::ConfigError(ConfigFault::MissingMappings)),
    }
}

/// Whether one of `fields` names a time transform.
fn fields_name_clock(fields: &Vec<(String, GenericValue)>) -> (r: bool)
    ensures
        r == !fields_without_clock(members_view(fields@)),
{
    let ghost m = members_view(fields@);
    let mut i: usize = 0;
    while i < fields.len()
        invariant
            i <= fields.len(),
            m == members_view(fields@),
            forall|j: int| 0 <= j < i ==> !rule_uses_clock((#[trigger] m[j]).1),
        decreases fields.len() - i,
    {
        assert(m[i as int] == (fields@[i as int].0@, fields@[i as int].1@));
        if names_clock_transform(&fields[i].1) {
            return true;
        }
        i = i + 1;
    }
    false
}

/// Whether the entry `rule` of a section, or one of its members, names a
/// time transform.
fn member_names_clock(rule: &GenericValue) -> (r: bool)
    ensures
        r == !member_without_clock(rule@),
{
    if names_clock_transform(rule) {
        return true;
    }
    match rule {
        GenericValue::Object(fields) => fields_name_clock(fields),
        _ => false,
    }
}

/// Whether an entry of `section` names a time transform.
fn section_names_clock(section: &GenericValue) -> (r: bool)
    ensures
        r == !section_without_clock(section@),
{
    match section {
        GenericValue::Object(fields) => {
            let ghost m = members_view(fields@);
            let mut i: usize = 0;
            while i < fields.len()
                invariant
                    i <= fields.len(),
                    m == members_view(fields@),
                    section@ == Tree::Object(m),
                    forall|j: int| 0 <= j < i ==> member_without_clock((#[trigger] m[j]).1),
                decreases fields.len() - i,
            {
                assert(m[i as int] == (fields@[i as int].0@, fields@[i as int].1@));
                if member_names_clock(&fields[i].1) {
                    assert(!member_without_clock(section@->Object_0[i as int].1));
                    return true;
                }
                i = i + 1;
            }
            false
        },
        _ => false,
    }
}

/// Whether a rule of the rule set `connector` names a time transform.
pub fn names_clock_transforms(connector: &GenericValue) -> (r: bool)
    ensures
        r == !rules_without_clock(connector@),
{
    match connector.get("mappings") {
        Some(GenericValue::Object(sections)) => {
            let ghost m = members_view(sections@);
            let mut i: usize = 0;
            while i < sections.len()
                invariant
                    i <= sections.len(),
                    m == members_view(sections@),
                    connector@.member("mappings"@) == Some(Tree::Object(m)),
                    forall|j: int| 0 <= j < i ==> section_without_clock((#[trigger] m[j]).1),
                decreases sections.len() - i,
            {
                assert(m[i as int] == (sections@[i as int].0@, sections@[i as int].1@));
                if section_names_clock(&sections[i].1) {
                    assert(!section_without_clock(
                        connector@.member("mappings"@)->0->Object_0[i as int].1,
                    ));
                    return true;
                }
                i = i + 1;
            }
            false
        },
        _ => false,
    }
}

/// Maps `metadata` by the rule set `connector`. The clock is read where a
/// rule names a time transform, and only there; it is read once, and every
/// field that writes the time of the run writes that reading.
pub fn apply_mapping(metadata: &GenericValue, connector: &GenericValue) -> (r: Result<
    GenericValue,
    MappingError,
>)
    ensures
        exists|now: Seq<char>| run_view(r) == #[trigger] mapped(metadata@, connector@, now),
        rules_without_clock(connector@) ==> forall|now: Seq<char>|
            run_view(r) == #[trigger] mapped(metadata@, connector@, now),
        metadata@.wf() && connector@.wf() ==> (r matches Ok(v) ==> v@.wf()),
{
    let now = if names_clock_transforms(connector) {
        now_rfc3339()
    } else {
        String::new()
    };
    proof {
        if rules_without_clock(connector@) {
            assert forall|then: Seq<char>|
                mapped(metadata@, connector@, now@) == #[trigger] mapped(
                    metadata@,
                    connector@,
                    then,
                ) by {
                lemma_mapped_without_clock(metadata@, connector@, now@, then);
            }
        }
    }
    apply_mapping_at(metadata, connector, now.as_str())
}

} // verus!
