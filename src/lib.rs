//! Intermediate representation of a gateway field's resolution plan: the
//! tree of operators, a structural rewrite engine over it, and the
//! derivation of cache identifiers for leaf operations.
use vstd::prelude::*;

pub mod cache_key;
pub mod model;
pub mod rewrite;
pub mod wrap;

pub use cache_key::{CacheKey, EvalContext};
pub use model::{
    Auth, Cache, DataLoaderId, Discriminator, FieldMap, FreshnessWindow, GroupBy, IoId,
    RequestTemplate, Segment, WorkerHooks, IO, IR,
};

verus! {

} // verus!
