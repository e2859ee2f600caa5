//! Writing check results in each output format.
pub mod gha;


pub mod junit;
pub mod human;
pub mod json_report;
pub mod sarif;
pub mod render;
