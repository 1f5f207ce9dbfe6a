//! Groups the resource changes of a Terraform JSON plan
//! (`terraform show -json`) by what they do and renders them as a readable
//! summary, with the destroy-and-recreate replacements called out first.
pub mod categorize;
pub mod diff;
pub mod json;
pub mod order;
pub mod path;
pub mod plan;
pub mod render;
pub mod summary;
pub mod text;

pub use categorize::{categorize, ActionKind};
pub use diff::changed_top_level_keys;
pub use json::{JsonValue, PathSegment};
pub use path::render_path;
pub use plan::{Change, Plan, ResourceChange};
pub use render::render_text;
pub use summary::{should_fail, summarize, PlanSummary};
