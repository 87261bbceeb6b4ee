//! Transformation passes that turn a machine-derived JSON Schema document
//! into a strict schema suitable for validating user configuration files.

pub mod alias;
pub mod normalize;
pub mod pipeline;
pub mod schema;
pub mod variant;
