//! Annotation and metric materialization engine for software-project
//! analytics dashboards.
//!
//! The library turns a project's tag history and milestone dates into a
//! deduplicated annotation timeline, derives a catalogue of "quick range"
//! time windows from it, interprets tabular SQL results into named series
//! points, and prepares the parameterized statements that persist them.
//! All instants are UTC unix timestamps in seconds; all numeric metric
//! values are exact decimals.

pub mod annotations;
pub mod assemble;
pub mod error;
pub mod columns_cfg;
pub mod extract;
pub mod gha;
pub mod metric;
pub mod num;
pub mod points;
pub mod project;
pub mod ranges;
pub mod tags_cfg;
pub mod text;
pub mod timeutil;
pub mod writer;
