//! Exponential age-based file retention: files are grouped into buckets by
//! how old they are (power-of-two day boundaries), and within each bucket only
//! a configured number of files is kept while the rest are marked for
//! deletion.

pub mod buckets;
pub mod errors;
pub mod grouping;
pub mod orchestrate;
pub mod records;
pub mod render;
pub mod selection;
pub mod times;
pub mod workflow;
