//! A minimal JSON reader: it parses JSON text into an owned tree of typed
//! values, using a character cursor and one recursive-descent routine per
//! grammar production, and reports the first malformed construct as a
//! typed error.
//!
//! The crate is organised around one idea: the grammar is written twice.
//! `grammar` states each production as a specification function over the
//! input characters and a scan position; `parser` implements each
//! production executably, and every production's contract says that it
//! returns exactly what its specification counterpart says — the same
//! value tree on success, an error of the same kind on failure. `value`
//! holds the tree of parsed values with its mathematical model, the
//! insertion laws for object keys, and the fallible narrowing operations;
//! `text` holds the character-level helpers; `errors` the error taxonomy.
//!
//! A number is kept as the exact literal consumed from the input, so the
//! tree is lossless; converting a literal to a machine double is left to
//! the host application.

pub mod errors;
pub mod grammar;
pub mod parser;
pub mod text;
pub mod value;

pub use errors::{ErrorKind, ParseError};
pub use parser::{JSONArray, JSONMap, JSONResult, JSON};
pub use value::JSONValue;
