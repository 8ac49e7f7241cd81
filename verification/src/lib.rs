//! The logic of a Matrix test client.
//!
//! The client plays a number of users. Each of them logs in with a fresh
//! device, checks the history of its rooms, sends numbered messages and
//! measures those that arrive. Of several devices of a user only the first one
//! sends. What happens is recorded as datapoints, which a collector gathers in
//! a file.
//!
//! Requests, connections and timers are outside of this crate: its functions
//! say what is to be done next and take in what came of it.
pub mod auth;
pub mod clock;
pub mod collector;
pub mod config;
pub mod crypto;
pub mod damage;
pub mod datapoint;
pub mod devices;
pub mod history;
pub mod image;
pub mod interval;
pub mod invites;
pub mod laws;
pub mod lifecycle;
pub mod message;
pub mod number;
pub mod registration;
pub mod schedule;
pub mod supervision;
pub mod telemetry;
pub mod text;
pub mod traffic;
pub mod users;
