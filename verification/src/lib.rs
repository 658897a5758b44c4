//! Scrapes song titles out of a concert-setlist web page and mints signed
//! ES256 tokens for a vendor API.
//!
//! The two halves are independent: [`extract`] walks a parsed HTML document
//! and collects the song titles under the setlist container, and [`jwt`]
//! builds and signs a three-field claim set. Network and file reads stay
//! with the caller; this crate works on the values they hand over.
use vstd::prelude::*;

pub mod b64;
pub mod errors;
pub mod extract;
pub mod json;
pub mod jwt;
pub mod tokens;
