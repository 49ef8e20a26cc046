//! Context-qualified readings, journals, spreads and sky rules.

pub mod context;
pub mod digest;
pub mod enrichment;
pub mod order;
pub mod reading;
pub mod session;
pub mod text;
pub mod summary;
pub mod journal;
pub mod spread;
pub mod sky;
pub mod intents;
pub mod consultation;
pub mod sync;
pub mod scene;
pub mod fixtures;
pub mod admission;
pub mod binding;
pub mod sync_plan;
pub mod cards;
