//! Why a mapping run stops without output.

use vstd::prelude::*;
use crate::value::{GenericValue, Tree};

verus! {

/// What is wrong with a rule set.
#[derive(Clone, Copy, Debug, PartialEq, Eq, Structural)]
pub enum ConfigFault {
    /// The rule set has no member `mappings`, or it is no object.
    MissingMappings,
    /// The `source` of a field rule is neither missing, null nor a text.
    SourceNotText,
}

/// The failures of a mapping run. Each of them ends the whole run: there is
/// no output then.
#[derive(Clone, Copy, Debug, PartialEq, Eq, Structural)]
pub enum MappingError {
    /// The rule set is malformed.
    ConfigError(ConfigFault),
    /// A filter query in a `source` does not follow the query syntax.
    QueryParseError,
}

/// The model of what resolving one field gives: a value, none, or a failure.
pub open spec fn outcome_view(r: Result<Option<GenericValue>, MappingError>) -> Result<
    Option<Tree>,
    MappingError,
> {
    match r {
        Ok(Some(v)) => Ok(Some(v@)),
        Ok(None) => Ok(None),
        Err(e) => Err(e),
    }
}

impl MappingError {
    /// The failure in words.
    pub fn message(&self) -> (r: &'static str)
        ensures
            r@ == match *self {
                MappingError::ConfigError(ConfigFault::MissingMappings) =>
                    "Missing 'mappings' in connector"@,
                MappingError::ConfigError(ConfigFault::SourceNotText) => "Source must be a string"@,
                MappingError::QueryParseError => "Malformed filter query in source"@,
            },
    {
        match self {
            MappingError::ConfigError(ConfigFault::MissingMappings) =>
                "Missing 'mappings' in connector",
            MappingError::ConfigError(ConfigFault::SourceNotText) => "Source must be a string",
            MappingError::QueryParseError => "Malformed filter query in source",
        }
    }
}

} // verus!
