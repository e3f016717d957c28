//! A live columnar store for streams of numeric records.
//!
//! Input lines (CSV rows or flat JSON objects) are parsed into records,
//! accumulated in a schema-consistent columnar store, and fanned out to
//! connected observers as serialized messages.

use vstd::prelude::*;

pub mod number;
pub mod record;
pub mod compose;
pub mod csv;
pub mod json;
pub mod server;
pub mod storage;
pub mod token;
mod util;

pub use compose::Message;
pub use csv::CsvParser;
pub use json::JsonParser;
pub use number::Number;
pub use number::NumberVec;
pub use record::ParseError;
pub use record::RawRecord;
pub use record::RawValue;
pub use record::ReadError;
pub use record::Record;
pub use server::InternalError;
pub use server::Server;
pub use server::StopAppMessage;
pub use storage::Storage;
pub use storage::StorageError;

verus! {

/// Parser settings: the input format, with its configuration.
pub enum ParserSettings {
    /// Parse CSV rows, positionally associated with these headers, split on
    /// this delimiter byte (`None`: a comma).
    Csv {
        /// The configured headers.
        headers: Vec<String>,
        /// The delimiter byte.
        delimiter: Option<u8>,
    },
    /// Parse JSON lines.
    Json,
}

} // verus!
