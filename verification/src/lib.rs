//! Reading, writing and comparing bank transaction reports in binary, CSV and
//! text form, together with the small bank model and service helpers that
//! surround them.

pub mod encoding;
pub mod lexical;
pub mod input;
pub mod error;
pub mod transaction;
pub mod bin_format;
pub mod report;
pub mod csv_format;
pub mod text_format;
pub mod file_formats;
pub mod bank;
pub mod comparator;
pub mod config;
pub mod api;
pub mod quotes;
