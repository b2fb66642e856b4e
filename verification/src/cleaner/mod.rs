//! Cleanup: the plan of what to move, and carrying it out (or rehearsing it)
//! with the protected roots checked once more for every action.
pub mod plan;
pub mod trash;

pub use plan::{CleanAction, CleanPlan, CleanSummary};
pub use trash::TrashCleaner;

