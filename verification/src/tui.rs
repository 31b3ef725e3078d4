//! Pure helpers for the live table view.

pub mod table;
