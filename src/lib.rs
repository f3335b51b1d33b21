//! Comparison tables of guided-missile performance and the decisions of a live
//! single-missile calculator: reading launch settings from a page address,
//! sorting the catalog, laying out result rows and tables, and driving the
//! backward search for a missile's splash distance.

pub mod catalog;
pub mod names;
pub mod query;
pub mod splash;
pub mod table;
