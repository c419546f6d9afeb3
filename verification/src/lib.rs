//! A layered configuration engine: sources hand in trees of values partitioned
//! by profile, the aggregator folds them in priority order into one tree, and
//! the extractor decodes that tree against a declared shape.

pub mod error;
pub mod extract;
pub mod figment;
pub mod laws;
pub mod metadata;
pub mod profile;
pub mod provider;
pub mod providers;
pub mod value;

pub use crate::metadata::Metadata;
pub use crate::profile::Profile;
pub use crate::provider::Provider;
pub use crate::value::Dict;
pub use crate::value::Num;
pub use crate::value::Tag;
pub use crate::value::Value;
pub use crate::error::Error;
pub use crate::error::Kind;
pub use crate::figment::Figment;
