//! Miyu's verified core: the rules of its QQ (OneBot) bridge, its platform
//! plugins, its model tools (goals, background jobs, vision, image
//! generation, file search) and its daemon runtime, each stated as a
//! contract over a mathematical model and proved. Network, disk, clocks,
//! randomness and model calls stay with the caller, which hands results in
//! as plain values.

pub mod codec;
pub mod config;
pub mod hashing;
pub mod i18n;
pub mod lookup;
pub mod path;
pub mod platforms;
pub mod runtime;
pub mod state;
pub mod text;
pub mod tools;
