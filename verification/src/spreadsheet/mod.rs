//! Spreadsheet circuits: cells, formulas, their compilation into gates and
//! the constraint polynomial of the spreadsheet argument.
pub mod gates;
pub mod circuit_builder;
pub mod argument;
pub mod parsing;
