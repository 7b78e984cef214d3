//! Message formatting: templates with named arguments, plural and select
//! branches, parsed into a tree of format nodes and rendered against an
//! argument chain and a context.

pub mod args;
pub mod context;
pub mod icu;
pub mod laws;
pub mod message;
pub mod plural;
pub mod value;

pub use crate::args::{arg, Args};
pub use crate::context::Context;
pub use crate::icu::{parse, ParseError};
pub use crate::message::{
    Format, FormatError, Message, PlaceholderFormat, PlainText, PluralFormat, SelectFormat,
    SimpleFormat,
};
pub use crate::plural::{english_cardinal_classifier, Classifier, PluralCategory};
pub use crate::value::{AsValue, Value};
