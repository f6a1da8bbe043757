//! A small library for managing local game-server installations: a persisted
//! registry of named servers, a line-oriented relay between an operator and a
//! supervised child process, and helpers for resolving and downloading builds
//! from a remote catalog.

pub mod install;
pub mod paths;
pub mod registry;
pub mod relay;
pub mod resolver;
pub mod store;
pub mod text;

pub use registry::Config;
pub use registry::Server;
pub use resolver::ServerManager;
