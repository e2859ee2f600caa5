//! Capability profiles: keywords, severities, structural limits, evidence.
pub mod evidence;
pub mod keyword;
pub mod parser;
pub mod structural;
pub mod tables;
