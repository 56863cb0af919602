//! Client-side logic for a domain-ranking web API.
//!
//! The library normalizes the domains a caller asks about, builds the query
//! for the ranking endpoint, models the typed results the service returns
//! together with the projections and conversions on them, and encodes and
//! decodes the JSON wire form of those results.  The HTTP transport itself
//! lives outside this crate.

pub mod error;
pub mod json;
pub mod model;
pub mod normalize;
pub mod query;

pub use error::RankError;
pub use json::{from_json, to_json};
pub use model::{PageRank, PageRankFirst, Response};
pub use normalize::remove_trailing_slash;
pub use query::{api_header_name, api_root, build_query};
