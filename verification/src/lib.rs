//! Instrument metadata, re-projected by rule.
//!
//! The metadata of an image is a tree of values ([`value`]). A rule set, a
//! tree of the same kind, says for every field of the output where its
//! value comes from: a default, a dotted path into the metadata ([`path`]),
//! a filter query over one of its arrays ([`query`]), or a fallback; and it
//! may name a transform ([`transform`]) and a unit for it ([`field`]). The
//! engine ([`engine`]) walks the sections of the rule set, gathers what
//! their rules give ([`collect`]) and puts the output together.
//!
//! Around that stand the parts that prepare and check: the metadata tree is
//! put together from the tags of an image ([`extract`]), and a finished
//! document is validated against the published schemas ([`schema`],
//! [`validate`], [`json`]).

use vstd::prelude::*;

pub mod cli;
pub mod collect;
mod clock;
pub mod engine;
pub mod error;
pub mod extract;
pub mod field;
pub mod json;
pub mod path;
pub mod query;
pub mod schema;
pub mod text;
pub mod transform;
pub mod validate;
pub mod value;
