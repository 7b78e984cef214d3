use vstd::prelude::*;

use language_tags::LanguageTag;

use crate::args::{args_seq, Args};
use crate::message::{render_message, FormatError, Message};

verus! {

/// `language_tags::LanguageTag`, carried through rendering as an opaque value.
#[verifier::external_type_specification]
#[verifier::external_body]
pub struct ExLanguageTag(LanguageTag);

/// Relies on the `Default` that `language_tags::LanguageTag` derives: the empty tag.
#[verifier::external_body]
fn default_tag() -> (r: LanguageTag) {
    LanguageTag::default()
}

/// Relies on the `Clone` that `language_tags::LanguageTag` derives: a field-by-field copy.
#[verifier::external_body]
fn clone_tag(t: &LanguageTag) -> (r: LanguageTag)
    ensures
        r == *t,
{
    t.clone()
}

/// The ambient state of one render: the language rendered for, and the
/// number that a placeholder inside a plural branch stands for.
#[derive(Debug)]
pub struct Context {
    /// The language being localized for.
    pub language_tag: LanguageTag,
    /// The value a placeholder renders; set only inside a plural branch.
    pub placeholder_value: Option<i64>,
}

impl Context {
    /// Creates a context.
    pub fn new(language: LanguageTag, placeholder_value: Option<i64>) -> (r: Context)
        ensures
            r.language_tag == language,
            r.placeholder_value == placeholder_value,
    {
        Context { language_tag: language, placeholder_value }
    }

    /// A new context for the same language whose placeholder stands for `value`.
    pub fn with_placeholder(&self, value: i64) -> (r: Context)
        ensures
            r.language_tag == self.language_tag,
            r.placeholder_value == Some(value),
    {
        Context { language_tag: clone_tag(&self.language_tag), placeholder_value: Some(value) }
    }

    /// Renders `message` with `args` into a new string.
    pub fn format(&self, message: &Message, args: Option<&Args>) -> (r: Result<String, FormatError>)
        ensures
            match render_message(*message, self.placeholder_value, args_seq(args)) {
                Ok(text) => r matches Ok(s) && s@ == text,
                Err(e) => r matches Err(f) && f == e,
            },
    {
        let mut output = String::new();
        match message.write_message(self, &mut output, args) {
            Ok(()) => {
                assert(output@ =~= render_message(*message, self.placeholder_value, args_seq(args))->Ok_0);
                Ok(output)
            },
            Err(e) => Err(e),
        }
    }

    /// Renders `message` with `args`, appending the text to `stream`.
    pub fn write(&self, message: &Message, stream: &mut String, args: Option<&Args>) -> (r: Result<
        (),
        FormatError,
    >)
        ensures
            match render_message(*message, self.placeholder_value, args_seq(args)) {
                Ok(text) => r is Ok && final(stream)@ == old(stream)@ + text,
                Err(e) => r == Err::<(), FormatError>(e),
            },
    {
        message.write_message(self, stream, args)
    }
}

impl Default for Context {
    fn default() -> (r: Context)
        ensures
            r.placeholder_value is None,
    {
        Context { language_tag: default_tag(), placeholder_value: None }
    }
}

} // verus!
