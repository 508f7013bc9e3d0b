//! The arena fact store under its historical module path.

pub use crate::fact_store::{ArenaFactStore, ThreadSafeArenaFactStore};
