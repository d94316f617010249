//! What the gateway promises, said of the fields, the numbers and the characters themselves.
//!
//! The contracts of the library speak in its own terms: a key is eligible, an answer is
//! rate-limited, a request may try. The laws here say what those terms come to, so that a
//! promise can be read without looking any of them up.

pub mod accounts;
pub mod keys;
pub mod reading;
pub mod requests;
pub mod routing;
pub mod texts;
