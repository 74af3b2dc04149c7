//! Conversion of bank-issued transaction exports into the Homebank CSV
//! dialect.
//!
//! Each supported bank gets an adapter that strips that bank's boilerplate
//! lines, decodes its byte encoding, splits its delimiter-separated columns
//! and parses its date and currency conventions into an intermediate row.
//! A normalizer maps every intermediate row onto one canonical record shape,
//! and a writer serializes canonical records into the fixed destination
//! dialect.

pub mod date;
pub mod decode;
pub mod error;
pub mod homebank;
pub mod inputs;
pub mod money;
pub mod text;
