//! Parses the line-oriented text output of a test run into structured
//! suites, cases and failure records, and emits a JUnit-shaped sequence
//! of structured write events from them.

pub mod text;
pub mod grammar;
pub mod cases;
pub mod scan;
pub mod failures;
pub mod junit;
