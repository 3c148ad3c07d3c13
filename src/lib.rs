//! Host telemetry pipeline: multi-resolution history, adaptive sampling,
//! temperature grouping, broadcast fan-out and access tokens.

pub mod auth;
pub mod clock;
pub mod collector;
pub mod history;
pub mod hub;
pub mod model;
pub mod sampler;
pub mod session;
pub mod temps;
pub mod text;
