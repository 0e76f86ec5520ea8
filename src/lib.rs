//! Core logic of a desktop shell: the greeting command offered to the
//! front-end, the launch configuration of the backend process, and the
//! lifecycle rules by which that process is supervised.

pub mod config;
pub mod greeting;
pub mod lifecycle;
