//! What the operations are for, stated of the functions themselves.
//!
//! Each law speaks of what comes back from a call, for every argument: it is
//! over `call_ensures` of the function and over plain values. Nothing here runs.
pub mod auth;
pub mod clock;
pub mod collector;
pub mod datapoint;
pub mod devices;
pub mod history;
pub mod image;
pub mod interval;
pub mod invites;
pub mod lifecycle;
pub mod message;
pub mod number;
pub mod registration;
pub mod schedule;
pub mod supervision;
pub mod telemetry;
pub mod text;
pub mod traffic;
pub mod users;
