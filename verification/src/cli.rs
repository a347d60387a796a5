//! What the command line asks for, as plain data.

use vstd::prelude::*;
use crate::schema::SchemaVersion;

verus! {

/// A parsed command line.
pub struct Cli {
    pub command: Commands,
}

/// The commands.
pub enum Commands {
    /// Validate a header document against the schemas.
    Validate(ValidateArgs),
    /// Extract the metadata of an image.
    Extract(ExtractArgs),
    /// Map the metadata of an image to a header document.
    MapMetadata(MapArgs),
}

/// What `validate` is asked to do.
pub struct ValidateArgs {
    /// The header document.
    pub path: String,
    /// The schema version to validate against.
    pub version: SchemaVersion,
    /// Download the schemas even where a cached copy exists.
    pub no_cache: bool,
}

/// What `extract` is asked to do.
pub struct ExtractArgs {
    /// The image.
    pub path: String,
    /// Where the metadata is written.
    pub out: String,
}

/// What `map` is asked to do.
pub struct MapArgs {
    /// The image.
    pub image: String,
    /// The rule set.
    pub connector: String,
    /// Where the header document is written.
    pub out: String,
}

impl ValidateArgs {
    /// The arguments for `path` where no option is given: the second schema
    /// version, with the cache in use.
    pub fn new(path: String) -> (r: ValidateArgs)
        ensures
            r.path == path,
            r.version == SchemaVersion::V2,
            !r.no_cache,
    {
        ValidateArgs { path, version: SchemaVersion::V2, no_cache: false }
    }

    /// Whether cached schemas may be used.
    pub fn use_cache(&self) -> (r: bool)
        ensures
            r == !self.no_cache,
    {
        !self.no_cache
    }
}

} // verus!
