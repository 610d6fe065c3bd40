//! Review Helper core: the verified logic behind the project-review and
//! learning assistant — prompt assembly, model-output parsing, plan merging,
//! document sectioning and the small state machines around model runs.

pub mod assess;
pub mod cards;
pub mod carry;
pub mod chat;
pub mod chunks;
pub mod context;
pub mod github;
pub mod ingest;
pub mod grill;
pub mod json;
pub mod learning;
pub mod model;
pub mod plan;
pub mod profile;
pub mod prompts;
pub mod records;
pub mod runs;
pub mod sections;
pub mod stream;
pub mod text;
