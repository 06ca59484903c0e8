//! Bulk copy / move of files whose names match a regular expression, with
//! destinations built from a small template language.
//!
//! The library holds the decisions: compiling destination templates, matching
//! and rendering, the directory convention, checking a plan for collisions,
//! and the ordered steps of a run. Reading directories and touching files is
//! left to the caller.
pub mod error;
pub mod matcher;
pub mod plan;
pub mod run;
pub mod template;
