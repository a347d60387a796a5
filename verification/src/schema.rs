//! The schema documents that a header is validated against: which there
//! are, where each is published, and a set of them held in memory.

use vstd::prelude::*;
use crate::json::{is_json, json_document, parse_json};

verus! {

/// Where the branches of the schema repository are published.
pub const SCHEMA_BASE_URL: &'static str =
    "https://raw.githubusercontent.com/Failure-Analysis-Metadata-Header/fa-metadata-schema/refs/heads";

/// The versions of the schema.
#[derive(Debug, Clone, Copy, PartialEq, Eq, Structural)]
pub enum SchemaVersion {
    V1,
    V2,
}

/// The sections of a header that have a schema document of their own.
#[derive(Debug, Clone, Copy, PartialEq, Eq, Structural)]
pub enum SchemaType {
    General,
    Customer,
    Tool,
    Method,
    DataEvaluation,
    History,
}

impl SchemaVersion {
    /// The branch of the schema repository that holds this version.
    pub open spec fn branch_text(self) -> Seq<char> {
        match self {
            SchemaVersion::V1 => "master"@,
            SchemaVersion::V2 => "schema-v2"@,
        }
    }

    /// The folder, below `schema`, that holds this version.
    pub open spec fn folder_text(self) -> Seq<char> {
        match self {
            SchemaVersion::V1 => "v1"@,
            SchemaVersion::V2 => "v2"@,
        }
    }

    /// The address of the document of `schema_type` in this version.
    pub open spec fn url_text(self, schema_type: SchemaType) -> Seq<char> {
        SCHEMA_BASE_URL@ + "/"@ + self.branch_text() + "/schema/"@ + self.folder_text() + "/"@
            + schema_type.file_name_text()
    }

    /// The branch of the schema repository that holds this version.
    pub fn branch(&self) -> (r: &'static str)
        ensures
            r@ == self.branch_text(),
    {
        match self {
            SchemaVersion::V1 => "master",
            SchemaVersion::V2 => "schema-v2",
        }
    }

    /// The folder, below `schema`, that holds this version.
    pub fn folder(&self) -> (r: &'static str)
        ensures
            r@ == self.folder_text(),
    {
        match self {
            SchemaVersion::V1 => "v1",
            SchemaVersion::V2 => "v2",
        }
    }

    /// The directory, below the cache of schemas, that holds this version.
    pub fn cache_dir_name(&self) -> (r: &'static str)
        ensures
            r@ == self.folder_text(),
    {
        match self {
            SchemaVersion::V1 => "v1",
            SchemaVersion::V2 => "v2",
        }
    }

    /// The address of the document of `schema_type` in this version.
    pub fn url_for(&self, schema_type: SchemaType) -> (r: String)
        ensures
            r@ == self.url_text(schema_type),
    {
        let mut url = SCHEMA_BASE_URL.to_owned();
        url.append("/");
        url.append(self.branch());
        url.append("/schema/");
        url.append(self.folder());
        url.append("/");
        url.append(schema_type.file_name());
        url
    }
}

impl SchemaType {
    /// The name of the file that holds the document.
    pub open spec fn file_name_text(self) -> Seq<char> {
        match self {
            SchemaType::General => "generalSection.json"@,
            SchemaType::Customer => "customerSection.json"@,
            SchemaType::Tool => "toolSpecific.json"@,
            SchemaType::Method => "methodSpecific.json"@,
            SchemaType::DataEvaluation => "dataEvaluation.json"@,
            SchemaType::History => "historySection.json"@,
        }
    }

    /// The name of the section in messages.
    pub open spec fn label_text(self) -> Seq<char> {
        match self {
            SchemaType::General => "general"@,
            SchemaType::Customer => "customer"@,
            SchemaType::Tool => "tool"@,
            SchemaType::Method => "method"@,
            SchemaType::DataEvaluation => "data evaluation"@,
            SchemaType::History => "history"@,
        }
    }

    /// The name of the file that holds the document.
    pub fn file_name(&self) -> (r: &'static str)
        ensures
            r@ == self.file_name_text(),
    {
        match self {
            SchemaType::General => "generalSection.json",
            SchemaType::Customer => "customerSection.json",
            SchemaType::Tool => "toolSpecific.json",
            SchemaType::Method => "methodSpecific.json",
            SchemaType::DataEvaluation => "dataEvaluation.json",
            SchemaType::History => "historySection.json",
        }
    }

    /// The name of the section in messages.
    pub fn label(&self) -> (r: &'static str)
        ensures
            r@ == self.label_text(),
    {
        match self {
            SchemaType::General => "general",
            SchemaType::Customer => "customer",
            SchemaType::Tool => "tool",
            SchemaType::Method => "method",
            SchemaType::DataEvaluation => "data evaluation",
            SchemaType::History => "history",
        }
    }
}

/// One schema document for each section.
pub struct SchemaCache {
    pub general: serde_json::Value,
    pub customer: serde_json::Value,
    pub tool: serde_json::Value,
    pub method: serde_json::Value,
    pub data_evaluation: serde_json::Value,
    pub history: serde_json::Value,
}

impl SchemaCache {
    /// The document of `schema_type`.
    pub open spec fn document(self, schema_type: SchemaType) -> serde_json::Value {
        match schema_type {
            SchemaType::General => self.general,
            SchemaType::Customer => self.customer,
            SchemaType::Tool => self.tool,
            SchemaType::Method => self.method,
            SchemaType::DataEvaluation => self.data_evaluation,
            SchemaType::History => self.history,
        }
    }

    /// The document of `schema_type`.
    pub fn get(&self, schema_type: SchemaType) -> (r: &serde_json::Value)
        ensures
            *r == self.document(schema_type),
    {
        match schema_type {
            SchemaType::General => &self.general,
            SchemaType::Customer => &self.customer,
            SchemaType::Tool => &self.tool,
            SchemaType::Method => &self.method,
            SchemaType::DataEvaluation => &self.data_evaluation,
            SchemaType::History => &self.history,
        }
    }
}

/// How the message begins that says that a downloaded schema is no JSON.
pub open spec fn parse_failure_prefix(schema_type: SchemaType, version: SchemaVersion) -> Seq<char> {
    "Failed to parse "@ + schema_type.label_text() + " schema downloaded from "@ + version.url_text(
        schema_type,
    ) + ": "@
}

/// The message that says that a downloaded schema is no JSON: the section,
/// the address that the document came from, and `detail`, the reader's own
/// words.
pub fn parse_failure_message(schema_type: SchemaType, version: SchemaVersion, detail: &str) -> (r:
    String)
    ensures
        r@ == parse_failure_prefix(schema_type, version) + detail@,
{
    let url = version.url_for(schema_type);
    let mut message = "Failed to parse ".to_owned();
    message.append(schema_type.label());
    message.append(" schema downloaded from ");
    message.append(url.as_str());
    message.append(": ");
    message.append(detail);
    message
}

/// Reads the text of a downloaded schema document. Fails exactly where the
/// text is no JSON, with the message of `parse_failure_message`.
pub fn parse_schema(schema_type: SchemaType, schema_text: &str, version: SchemaVersion) -> (r:
    Result<serde_json::Value, String>)
    ensures
        r is Ok <==> is_json(schema_text@),
        r matches Ok(v) ==> v == json_document(schema_text@),
        r matches Err(message) ==> parse_failure_prefix(schema_type, version).is_prefix_of(
            message@,
        ),
{
    match parse_json(schema_text) {
        Ok(v) => Ok(v),
        Err(detail) => Err(parse_failure_message(schema_type, version, detail.as_str())),
    }
}

/// The sections, in the order in which a set of schema documents holds them.
pub open spec fn all_sections() -> Seq<SchemaType> {
    seq![
        SchemaType::General,
        SchemaType::Customer,
        SchemaType::Tool,
        SchemaType::Method,
        SchemaType::DataEvaluation,
        SchemaType::History,
    ]
}

/// The download brought a text, and the text is a JSON document.
pub open spec fn download_usable(download: Result<String, String>) -> bool {
    download matches Ok(text) && is_json(text@)
}

/// `message` says why the download of the document of `schema_type` is of
/// no use: it is the failure of the download itself, or the message for a
/// text that is no JSON.
pub open spec fn is_download_failure(
    schema_type: SchemaType,
    version: SchemaVersion,
    download: Result<String, String>,
    message: Seq<char>,
) -> bool {
    match download {
        Err(why) => message == why@,
        Ok(text) => !is_json(text@) && parse_failure_prefix(schema_type, version).is_prefix_of(
            message,
        ),
    }
}

/// The schema document that the download of `schema_type` brought, or why
/// it brought none.
pub fn read_download(
    schema_type: SchemaType,
    version: SchemaVersion,
    download: &Result<String, String>,
) -> (r: Result<serde_json::Value, String>)
    ensures
        r is Ok <==> download_usable(*download),
        r matches Ok(v) ==> v == json_document(download->Ok_0@),
        r matches Err(message) ==> is_download_failure(schema_type, version, *download, message@),
{
    match download {
        Ok(text) => parse_schema(schema_type, text.as_str(), version),
        Err(why) => Err(why.clone()),
    }
}

/// The set of schema documents that six downloads brought, one for each
/// section in the order of `all_sections`. There is a set exactly where
/// every download brought a JSON document; otherwise the failure is that of
/// the first section, in that order, whose download is of no use.
pub fn assemble_cache(version: SchemaVersion, downloads: Vec<Result<String, String>>) -> (r: Result<
    SchemaCache,
    String,
>)
    requires
        downloads@.len() == 6,
    ensures
        r is Ok <==> forall|i: int| 0 <= i < 6 ==> download_usable(#[trigger] downloads@[i]),
        r matches Ok(cache) ==> forall|i: int|
            0 <= i < 6 ==> cache.document(#[trigger] all_sections()[i]) == json_document(
                downloads@[i]->Ok_0@,
            ),
        r matches Err(message) ==> exists|i: int|
            {
                &&& 0 <= i < 6
                &&& !download_usable(#[trigger] downloads@[i])
                &&& forall|j: int| 0 <= j < i ==> download_usable(#[trigger] downloads@[j])
                &&& is_download_failure(all_sections()[i], version, downloads@[i], message@)
            },
{
    let general = match read_download(SchemaType::General, version, &downloads[0]) {
        Ok(v) => v,
        Err(message) => {
            return Err(message);
        },
    };
    let customer = match read_download(SchemaType::Customer, version, &downloads[1]) {
        Ok(v) => v,
        Err(message) => {
            return Err(message);
        },
    };
    let tool = match read_download(SchemaType::Tool, version, &downloads[2]) {
        Ok(v) => v,
        Err(message) => {
            return Err(message);
        },
    };
    let method = match read_download(SchemaType::Method, version, &downloads[3]) {
        Ok(v) => v,
        Err(message) => {
            return Err(message);
        },
    };
    let data_evaluation = match read_download(SchemaType::DataEvaluation, version, &downloads[4]) {
        Ok(v) => v,
        Err(message) => {
            return Err(message);
        },
    };
    let history = match read_download(SchemaType::History, version, &downloads[5]) {
        Ok(v) => v,
        Err(message) => {
            return Err(message);
        },
    };
    Ok(SchemaCache { general, customer, tool, method, data_evaluation, history })
}

} // verus!
