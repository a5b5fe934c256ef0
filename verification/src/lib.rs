//! A reactive spreadsheet engine for a small expression language.
//!
//! Cells hold expressions. The engine parses each expression, evaluates it
//! against the values of the other cells, records which cells it read and
//! which cells it pushed values into, and re-evaluates dependent cells when a
//! cell changes.
pub mod language;
pub mod maps;
pub mod reactive;
