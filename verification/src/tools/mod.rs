//! Model-facing tool logic.

pub mod goal;
pub mod goal_update;
pub mod image_generation;
pub mod jobs;
pub mod vision;
pub mod default_tools;
