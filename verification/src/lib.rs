//! Resilient teleoperation link: connection supervision, newline-delimited
//! command protocol, and holonomic-drive kinematics.
//!
//! Axis and motor values are carried in fixed-point milli-units: the integer
//! 1000 stands for a full-scale command of 1.0.

pub mod link;
pub mod mapper;
pub mod protocol;
pub mod session;
pub mod supervisor;
pub mod tick;
pub mod text;
pub mod wire;
