//! A test harness for a logging library and its firmware crates.
//!
//! The heart of it is the snapshot engine: it runs a fixed catalog of example
//! programs, masks what varies in their output, and holds the output against
//! checked-in goldens, or writes the goldens anew. The engine decides and the
//! caller acts: nothing in this library starts a process or touches a file.

pub mod catalog;
pub mod compare;
pub mod diff;
pub mod dispatch;
pub mod errors;
pub mod lines;
pub mod normalize;
pub mod output;
pub mod plan;
pub mod report;
pub mod runner;
pub mod session;
pub mod world;
