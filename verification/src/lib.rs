//! The decisions of a proxy that stands before an HTTP server and also carries websockets.
//!
//! The crate opens no connection and reads no clock. A driver does, and asks this crate at each
//! point what comes next: [`exchange`] follows one request upstream and back, [`relay`] follows
//! one direction of an open websocket. Both answer with a command for the driver, a line to log
//! and an event to count; [`metrics`] counts it and [`log`] words the line, with the time as
//! [`calendar`] has it. What holds of every sequence of events is stated and proved in
//! [`exchange_laws`] and [`relay_laws`].

pub mod args;
pub mod calendar;
pub mod counters;
pub mod exchange;
pub mod exchange_laws;
pub mod headers;
pub mod log;
pub mod metrics;
pub mod path;
pub mod relay;
pub mod relay_laws;
pub mod text;
pub mod tls;
