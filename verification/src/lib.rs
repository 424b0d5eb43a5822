//! Flight logging: from command-line text to one record per line.
//!
//! The crate turns an origin, a list of waypoints, an elapsed-time expression
//! and free-text notes into a flight record, and frames the encoded record as
//! one line of an append-only log. Every executable function carries a
//! contract over the `Seq<char>` view of the text it reads or writes.

pub mod decimal;
pub mod elapsed;
pub mod flight;
pub mod lines;
pub mod notes;
pub mod store;
pub mod text;

pub use decimal::IntParseError;
pub use elapsed::{ElapsedTime, ParseElapsedTimeError};
pub use flight::Flight;
pub use notes::{notes_source, strip_comments, NotesSource};
pub use store::log_line;
