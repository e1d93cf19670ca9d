//! String algorithms over sequences of UTF-16 code units.
//!
//! A string here is a sequence of 16-bit code units. It need not be
//! well-formed UTF-16: a surrogate code unit without a partner is a legal
//! element and every operation keeps it.
//!
//! - `code_units`: the string type.
//! - `code_point`: decoding into code points and encoding back.
//! - `search`: finding one string in another.
//! - `convert`: case conversion and normalization, run by run.
//! - `preservation`: what cutting into runs and converting them keeps.
//! - `substitution`: expanding a replacement template for a match.
//! - `replace`, `split`, `whitespace`, `builtins`: the operations of the
//!   string type.
//! - `unicode`: the Unicode algorithms that are taken from elsewhere.

pub mod builtins;
pub mod code_point;
pub mod code_units;
pub mod convert;
pub mod error;
pub mod integer;
pub mod preservation;
pub mod replace;
pub mod search;
pub mod split;
pub mod substitution;
pub mod unicode;
pub mod whitespace;

pub use builtins::{Placement, String};
pub use code_point::{CodePoint, CodePoints};
pub use code_units::JsString;
pub use convert::{Conversion, Normalization, Runs};
pub use error::StringError;
pub use integer::IntegerOrInfinity;
pub use substitution::{get_substitution, named_references, NamedCapture};
pub use whitespace::is_trimmable_whitespace;
