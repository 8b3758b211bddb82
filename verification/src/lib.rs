//! The logic of a small line-search tool, with proofs.
//!
//! [`search`] returns the lines of a text in which a query occurs. [`Config`]
//! reads the query and the name of the file to search from a process's
//! arguments, and [`Error`] names the ways in which a run can fail and words
//! the report of each. Reading the file and writing the output are left to
//! the caller.
//!
//! The contracts speak of texts as sequences of characters; [`text`] holds
//! that model and what is proved of it. The executable code scans bytes, and
//! [`encoding`] carries facts from one view to the other.
//!
//! [`rectangle`] stands apart from the search: it computes the area of a
//! rectangle from three shapes of input and shows that they agree.

pub mod config;
pub mod encoding;
pub mod error;
pub mod rectangle;
pub mod search;
pub mod text;

pub use config::Config;
pub use error::Error;
pub use search::search;
