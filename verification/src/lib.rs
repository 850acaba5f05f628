//! A verified core for a session-scoped browser-automation command-line
//! front end: session path derivation, a newline-delimited JSON wire codec,
//! the command-to-request translator, the worker supervisor's decision
//! logic, and the response renderer.

pub mod flags;
pub mod json;
pub mod numtext;
pub mod protocol;
pub mod render;
pub mod session;
pub mod strutil;
pub mod supervisor;
pub mod translate;
