//! Lotus 1-2-3 `.WK3` import and What-If data tables.

pub mod calculation;
pub mod datatable;
pub mod engine;
pub mod error;
pub mod formula;
pub mod input;
pub mod number;
pub mod record;
pub mod style;
pub mod text;
pub mod user_model;
pub mod workbook;

pub use error::LotusError;
pub use text::col_letters;
