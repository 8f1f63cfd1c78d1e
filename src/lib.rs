//! Plugin registry, dependency resolution and the runtime actor's decision
//! logic for hosting plugins of an embedded runtime.

pub mod actor;
pub mod bridge;
pub mod config;
pub mod lifecycle;
pub mod loading;
pub mod mailbox;
pub mod order_laws;
pub mod paths;
pub mod registry;
pub mod resolver;
pub mod text;
