//! Extraction, joining and serialization of two country-keyed statistical
//! tables that arrive as lines of plain text.
//!
//! Every function here carries a contract over sequences of characters and
//! integers; the contracts are proved, except for the two calls into the
//! `regex` crate in [`scan`], whose contracts are taken on trust.

pub mod text;
pub mod number;
pub mod entry;
pub mod country;
pub mod schema;
pub mod scan;
pub mod join;
pub mod record;
pub mod delimited;

pub use entry::{Entry, TableError};
pub use country::normalize_country;
pub use schema::Schema;
pub use scan::{compile, pattern_from, row_at, row_pattern_text, table};
pub use join::join;
pub use record::{Field, Record, record, to_records};
pub use delimited::{to_delimited, tsv_to_writer};
