//! Rule manifests, target outlines, markdown import and catalog helpers.
pub mod cli;
pub mod commands;
pub mod error;
pub mod text;
pub mod filter;
pub mod import;
pub mod manifest;
pub mod no_match;
pub mod paths;
pub mod rule_index;
pub mod store_index;
pub mod sync_rules;
pub mod sync_targets;
pub mod target_rules;
pub mod targets_load;
pub mod targets_loader;
pub mod targets_model;
pub mod targets_query;

pub use filter::RuleFilter;
pub use manifest::{RuleManifest, RuleState};
pub use no_match::{emit_missing_rule_match_signal, MissingRuleMatchSignal};
pub use text::chars_of;
