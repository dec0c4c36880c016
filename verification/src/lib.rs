//! The verified core of a mesh-hosted message board: its configuration, its
//! message log and attachment quota, its roster labels, its rate limit, the
//! decisions behind each HTTP route, and the plans of its service installer.
//! Everything that touches a socket, a file, a process or the environment is
//! done by the caller, which hands in plain values and carries out what comes
//! back.

pub mod text;
pub mod lines;
pub mod raw;
pub mod number;
pub mod compose;
pub mod rank;
pub mod clock;
pub mod config;
pub mod roster;
pub mod ratelimit;
pub mod content;
pub mod quota;
pub mod store;
pub mod upload;
pub mod api;
pub mod steps;
pub mod service;
