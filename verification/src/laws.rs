//! What the parts promise of their results, said of the inputs themselves.
pub mod balancer;
pub mod conditions;
pub mod files;
pub mod heads;
pub mod language;
pub mod lines;
pub mod lists;
pub mod previews;
pub mod records;
pub mod rulesets;
pub mod stored;
pub mod texts;
pub mod work;
