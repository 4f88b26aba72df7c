//! Checks theme family files against the keys that the editor knows: which colour keys a
//! theme leaves out or invents, and which syntax captures it leaves without a style.
pub mod analyze;
pub mod check_laws;
pub mod coverage;
pub mod errors;
pub mod file_laws;
pub mod files;
pub mod key_laws;
pub mod keys;
pub mod patterns;
pub mod policy;
pub mod report;
pub mod report_laws;
pub mod summary;
