//! Enrichment analysis of analyte lists: over-representation analysis (ORA),
//! its meta-analysis across several lists, and network topology analysis (NTA).
//! The statistics are computed by `webgestalt_lib`; this library checks the inputs
//! on which they are defined, assembles what the engine is asked, and states what
//! comes back.
pub mod analytes;
pub mod meta;
pub mod nta;
pub mod ora;

pub use nta::NTAMethod;
