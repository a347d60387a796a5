//! Validation of a header document against the schema documents of its
//! sections. Whether a schema is usable and whether it accepts a document
//! is for `jsonschema` to say, and has a name here; what is decided here is
//! which sections are checked, in which order, when the run stops, and when
//! the document counts as valid.

use vstd::prelude::*;
use crate::schema::{SchemaCache, SchemaType};

verus! {

/// What checking a document against one schema came to.
pub enum SchemaCheck {
    /// The document satisfies the schema.
    Valid,
    /// The document does not; the text says why.
    Invalid(String),
    /// The schema itself could not be used; the text says why.
    BadSchema(String),
}

/// What one section's check says of the document.
pub struct SectionReport {
    pub schema_type: SchemaType,
    /// Why the document fails the section's schema, if it does.
    pub error: Option<String>,
}

/// A schema that could not be used, and the reports of the sections that
/// were checked before it.
pub struct SchemaFailure {
    pub schema_type: SchemaType,
    pub message: String,
    pub checked: Vec<SectionReport>,
}

/// Whether `jsonschema::validator_for` makes a validator of `schema`.
pub uninterp spec fn schema_usable(schema: serde_json::Value) -> bool;

/// Whether the validator that `jsonschema::validator_for` makes of `schema`
/// lets `document` pass its `validate`.
pub uninterp spec fn schema_accepts(schema: serde_json::Value, document: serde_json::Value) -> bool;

/// `check` is what checking `document` against `schema` comes to: the schema
/// is bad exactly where it is not usable, and the document valid exactly
/// where a usable schema accepts it.
pub open spec fn is_check_of(
    check: SchemaCheck,
    schema: serde_json::Value,
    document: serde_json::Value,
) -> bool {
    &&& (check is BadSchema) == !schema_usable(schema)
    &&& (check is Valid) == (schema_usable(schema) && schema_accepts(schema, document))
}

/// Compiles `schema` with `jsonschema::validator_for` and, where that
/// succeeds, validates `document` with `Validator::validate`. Each error is
/// handed on as the text that it writes of itself. The crate is built
/// without the fetching of remote references, so which of the three
/// outcomes comes back is fixed by schema and document; the contract names
/// that verdict and says nothing of the texts.
#[verifier::external_body]
fn check_against(schema: &serde_json::Value, document: &serde_json::Value) -> (r: SchemaCheck)
    ensures
        (r is BadSchema) == !schema_usable(*schema),
        (r is Valid) == (schema_usable(*schema) && schema_accepts(*schema, *document)),
{
    match jsonschema::validator_for(schema) {
        Ok(validator) => match validator.validate(document) {
            Ok(()) => SchemaCheck::Valid,
            Err(e) => SchemaCheck::Invalid(e.to_string()),
        },
        Err(e) => SchemaCheck::BadSchema(e.to_string()),
    }
}

/// The sections that a document is checked against, in this order.
pub open spec fn validated_sections() -> Seq<SchemaType> {
    seq![SchemaType::General, SchemaType::Method]
}

/// The first `n` reports are those of the first `n` validated sections.
pub open spec fn reports_follow_sections(reports: Seq<SectionReport>) -> bool {
    &&& reports.len() <= validated_sections().len()
    &&& forall|i: int|
        0 <= i < reports.len() ==> (#[trigger] reports[i]).schema_type == validated_sections()[i]
}

/// No report holds an error.
pub open spec fn no_errors(reports: Seq<SectionReport>) -> bool {
    forall|i: int| 0 <= i < reports.len() ==> (#[trigger] reports[i]).error is None
}

/// What the check of one section adds to a run: a report, or the failure
/// that ends the run.
pub open spec fn recorded(schema_type: SchemaType, check: SchemaCheck) -> Result<
    SectionReport,
    String,
> {
    match check {
        SchemaCheck::Valid => Ok(SectionReport { schema_type, error: None }),
        SchemaCheck::Invalid(why) => Ok(SectionReport { schema_type, error: Some(why) }),
        SchemaCheck::BadSchema(why) => Err(why),
    }
}

/// Turns the outcome of one section's check into its report, or into the
/// failure that ends the run.
pub fn record_check(schema_type: SchemaType, check: SchemaCheck) -> (r: Result<
    SectionReport,
    String,
>)
    ensures
        r == recorded(schema_type, check),
{
    match check {
        SchemaCheck::Valid => Ok(SectionReport { schema_type, error: None }),
        SchemaCheck::Invalid(why) => Ok(SectionReport { schema_type, error: Some(why) }),
        SchemaCheck::BadSchema(why) => Err(why),
    }
}

/// Whether the document is valid: no section's report holds an error.
pub fn all_valid(reports: &Vec<SectionReport>) -> (r: bool)
    ensures
        r == no_errors(reports@),
{
    let mut i: usize = 0;
    while i < reports.len()
        invariant
            i <= reports.len(),
            forall|j: int| 0 <= j < i ==> (#[trigger] reports@[j]).error is None,
        decreases reports.len() - i,
    {
        if reports[i].error.is_some() {
            return false;
        }
        i = i + 1;
    }
    true
}

/// How a run ends: with the reports of all sections, or with a schema that
/// could not be used.
pub enum Conclusion {
    Reports(Seq<SectionReport>),
    Failure { schema_type: SchemaType, message: String, checked: Seq<SectionReport> },
}

/// How the run ends where `first` is what the check of the general section
/// comes to and `second` what that of the method section would come to. A
/// general schema that cannot be used ends the run before the method
/// section is checked.
pub open spec fn concluded(first: SchemaCheck, second: SchemaCheck) -> Conclusion {
    match recorded(SchemaType::General, first) {
        Err(message) => Conclusion::Failure {
            schema_type: SchemaType::General,
            message,
            checked: Seq::empty(),
        },
        Ok(general) => match recorded(SchemaType::Method, second) {
            Err(message) => Conclusion::Failure {
                schema_type: SchemaType::Method,
                message,
                checked: seq![general],
            },
            Ok(method) => Conclusion::Reports(seq![general, method]),
        },
    }
}

/// A run reports the validated sections in their order, all of them where it
/// ends with reports; a failure names the section that comes after those
/// already checked.
pub proof fn lemma_concluded_in_order(first: SchemaCheck, second: SchemaCheck)
    ensures
        match concluded(first, second) {
            Conclusion::Reports(reports) => reports.len() == validated_sections().len()
                && reports_follow_sections(reports),
            Conclusion::Failure { schema_type, message, checked } => {
                &&& checked.len() < validated_sections().len()
                &&& reports_follow_sections(checked)
                &&& schema_type == validated_sections()[checked.len() as int]
            },
        },
{
}

/// A run ends with reports that hold no error exactly where the document
/// satisfies both schemas.
pub proof fn lemma_valid_document(first: SchemaCheck, second: SchemaCheck)
    ensures
        (concluded(first, second) matches Conclusion::Reports(reports) && no_errors(reports)) <==> (
        first is Valid && second is Valid),
{
    match concluded(first, second) {
        Conclusion::Reports(reports) => {
            if no_errors(reports) {
                assert(reports[0].error is None);
                assert(reports[1].error is None);
            }
        },
        _ => {},
    }
}

/// The model of what `validate_document` returns.
pub open spec fn conclusion_of(r: Result<Vec<SectionReport>, SchemaFailure>) -> Conclusion {
    match r {
        Ok(reports) => Conclusion::Reports(reports@),
        Err(failure) => Conclusion::Failure {
            schema_type: failure.schema_type,
            message: failure.message,
            checked: failure.checked@,
        },
    }
}

/// Checks `document` against the schemas of the general and of the method
/// section, in this order; the other four schemas have no part in it. A
/// document that fails a schema is reported and the run goes on, so both
/// sections are reported whenever both schemas are usable. A schema that is
/// not usable ends the run, the general one before the method section is
/// looked at.
pub fn validate_document(cache: &SchemaCache, document: &serde_json::Value) -> (r: Result<
    Vec<SectionReport>,
    SchemaFailure,
>)
    ensures
        r is Err <==> !schema_usable(cache.general) || !schema_usable(cache.method),
        r matches Err(failure) ==> failure.schema_type == (if !schema_usable(cache.general) {
            SchemaType::General
        } else {
            SchemaType::Method
        }),
        r matches Ok(reports) ==> {
            &&& reports@.len() == 2
            &&& reports@[0].schema_type == SchemaType::General
            &&& reports@[1].schema_type == SchemaType::Method
            &&& (reports@[0].error is None) == schema_accepts(cache.general, *document)
            &&& (reports@[1].error is None) == schema_accepts(cache.method, *document)
            &&& no_errors(reports@) == (schema_accepts(cache.general, *document) && schema_accepts(
                cache.method,
                *document,
            ))
        },
        exists|first: SchemaCheck, second: SchemaCheck|
            {
                &&& is_check_of(first, cache.general, *document)
                &&& is_check_of(second, cache.method, *document)
                &&& conclusion_of(r) == #[trigger] concluded(first, second)
            },
{
    let mut reports: Vec<SectionReport> = Vec::new();
    let first = check_against(cache.get(SchemaType::General), document);
    let ghost first_check = first;
    match record_check(SchemaType::General, first) {
        Ok(report) => {
            reports.push(report);
        },
        Err(message) => {
            let r = Err(SchemaFailure { schema_type: SchemaType::General, message, checked: reports });
            proof {
                let unread = if schema_usable(cache.method) {
                    if schema_accepts(cache.method, *document) {
                        SchemaCheck::Valid
                    } else {
                        SchemaCheck::Invalid(message)
                    }
                } else {
                    SchemaCheck::BadSchema(message)
                };
                assert(is_check_of(unread, cache.method, *document));
                assert(conclusion_of(r) == concluded(first_check, unread));
            }
            return r;
        },
    }
    let second = check_against(cache.get(SchemaType::Method), document);
    let ghost second_check = second;
    match record_check(SchemaType::Method, second) {
        Ok(report) => {
            reports.push(report);
        },
        Err(message) => {
            let r = Err(SchemaFailure { schema_type: SchemaType::Method, message, checked: reports });
            proof {
                assert(conclusion_of(r)->Failure_checked =~= concluded(
                    first_check,
                    second_check,
                )->Failure_checked);
                assert(conclusion_of(r) == concluded(first_check, second_check));
            }
            return r;
        },
    }
    proof {
        assert(reports@ =~= concluded(first_check, second_check)->Reports_0);
        assert(conclusion_of(Ok::<Vec<SectionReport>, SchemaFailure>(reports)) == concluded(
            first_check,
            second_check,
        ));
    }
    Ok(reports)
}

} // verus!
