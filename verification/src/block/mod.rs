//! Terminal blocks: identities, canonical records and the lifecycle reducer.

pub mod content;
pub mod id;
pub mod metrics;
pub mod model;
pub mod lifecycle;
