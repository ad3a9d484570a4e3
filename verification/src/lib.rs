//! Semantic diff engine for tabular data.
//!
//! The library models two versions of a table (columns, typed cell values,
//! rows with composite keys) and computes which rows were added, removed or
//! modified and how the column layout changed, independent of row order.
//! Format readers and report renderers live outside the library and exchange
//! plain `Table` and `DiffResult` values with it.

pub mod cell_diff;
pub mod config;
pub mod engine;
pub mod git_driver;
pub mod key;
pub mod numeric;
pub mod row_diff;
pub mod schema;
pub mod schema_diff;
pub mod table;
pub mod text;
pub mod value;

pub use config::Config;
pub use engine::DiffResult;
pub use schema::CellType;
pub use schema::Column;
pub use table::Table;
