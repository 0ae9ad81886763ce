//! Verified core of an XLSX (SpreadsheetML) editing toolkit: cell and range
//! references, sheet selectors, number formats, worksheet XML surgery and the
//! workbook-level helpers that the command layer builds on.

pub mod error;
pub mod text;
pub mod cellref;
pub mod xml;
pub mod orders;
pub mod sheets;
pub mod elements;
pub mod freeze;
pub mod attrmap;
pub mod rels;
pub mod hyperlinks;
pub mod model;
pub mod commands;
pub mod mutation;
pub mod numfmt;
pub mod styles;
pub mod style;
pub mod names;
pub mod definednames;
pub mod sheetxml;
pub mod rangeset;
pub mod matrix;
pub mod metadata;
pub mod cellformat;
pub mod cellstyle;
pub mod structure;
pub mod lifecycle;
pub mod pivots;
pub mod rangeinput;
pub mod xmlscan;
pub mod cellbatch;
pub mod rangeexport;
