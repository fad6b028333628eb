//! Line-oriented static analysis of smart-contract sources.
//!
//! A catalog of checks is matched against every line of a source file. The
//! findings of each file are folded into one running state per language,
//! together with the evidence that a risky construct was used safely, and
//! each language's state is finally turned into a report.

pub mod views;
pub mod pattern;
pub mod catalog;
pub mod text;
pub mod matcher;
pub mod aggregate;
pub mod validation;
pub mod report;
pub mod pipeline;
