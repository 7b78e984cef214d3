use vstd::prelude::*;

use crate::args::{args_seq, lookup, Args};
use crate::context::Context;
use crate::plural::{Classifier, PluralCategory};
use crate::value::{int_text, value_text, write_int, Value, ValueView};

verus! {

/// Why rendering a message failed.
#[derive(Clone, Copy, Debug, PartialEq, Eq, Structural)]
pub enum FormatError {
    /// A node refers to an argument that was not supplied.
    MissingArgument,
    /// An argument holds the wrong kind of value for the node that reads it.
    TypeMismatch,
    /// A placeholder was rendered outside of any plural branch.
    MissingContextValue,
    /// Subtracting a plural offset from the argument leaves the 64-bit range.
    OffsetOverflow,
}

/// A parsed message: a sequence of format nodes, rendered in order.
#[derive(Debug)]
pub struct Message {
    pub parts: Vec<Format>,
}

/// One node of a message.
#[derive(Debug)]
pub enum Format {
    PlainText(PlainText),
    SimpleFormat(SimpleFormat),
    PlaceholderFormat(PlaceholderFormat),
    PluralFormat(PluralFormat),
    SelectFormat(SelectFormat),
}

/// Text that is written out as it stands.
#[derive(Debug)]
pub struct PlainText {
    pub text: String,
}

/// The display form of a named argument.
#[derive(Debug)]
pub struct SimpleFormat {
    pub variable_name: String,
}

/// The number that the enclosing plural branch was chosen for.
#[derive(Debug)]
pub struct PlaceholderFormat {}

/// The message chosen for one exact number.
#[derive(Debug)]
pub struct PluralMapping {
    pub value: i64,
    pub message: Message,
}

/// Chooses a message by the plural category of a numeric argument.
#[derive(Debug)]
pub struct PluralFormat {
    pub variable_name: String,
    pub classifier: Classifier,
    pub literals: Vec<PluralMapping>,
    pub offset: i64,
    pub zero: Option<Message>,
    pub one: Option<Message>,
    pub two: Option<Message>,
    pub few: Option<Message>,
    pub many: Option<Message>,
    pub other: Message,
}

/// The message chosen for one exact string.
#[derive(Debug)]
pub struct SelectMapping {
    pub value: String,
    pub message: Message,
}

/// Chooses a message by the exact value of a string argument.
#[derive(Debug)]
pub struct SelectFormat {
    pub variable_name: String,
    pub mappings: Vec<SelectMapping>,
    pub default: Message,
}

/// The index of the literal mapping for `v` registered last, if any.
pub open spec fn literal_index(lits: Seq<PluralMapping>, v: i64) -> Option<int>
    decreases lits.len(),
{
    if lits.len() == 0 {
        None
    } else if lits.last().value == v {
        Some(lits.len() - 1)
    } else {
        literal_index(lits.drop_last(), v)
    }
}

/// The index of the mapping for `v` registered last, if any.
pub open spec fn select_index(maps: Seq<SelectMapping>, v: Seq<char>) -> Option<int>
    decreases maps.len(),
{
    if maps.len() == 0 {
        None
    } else if maps.last().value@ == v {
        Some(maps.len() - 1)
    } else {
        select_index(maps.drop_last(), v)
    }
}

/// The branch set for category `c`, or `other` where none is.
pub open spec fn category_branch(p: PluralFormat, c: PluralCategory) -> Message {
    let chosen = match c {
        PluralCategory::Zero => p.zero,
        PluralCategory::One => p.one,
        PluralCategory::Two => p.two,
        PluralCategory::Few => p.few,
        PluralCategory::Many => p.many,
        PluralCategory::Other => None,
    };
    match chosen {
        Some(m) => m,
        None => p.other,
    }
}

/// The branch a plural node renders for the offset value `v`: an exact
/// literal first, else the branch of `v`'s category, else `other`.
pub open spec fn plural_branch(p: PluralFormat, v: i64) -> Message {
    match literal_index(p.literals@, v) {
        Some(i) => p.literals@[i].message,
        None => category_branch(p, p.classifier.category(v)),
    }
}

/// The branch a select node renders for the string `v`: the exact match, else `default`.
pub open spec fn select_branch(s: SelectFormat, v: Seq<char>) -> Message {
    match select_index(s.mappings@, v) {
        Some(i) => s.mappings@[i].message,
        None => s.default,
    }
}

pub proof fn lemma_literal_index(lits: Seq<PluralMapping>, v: i64)
    ensures
        match literal_index(lits, v) {
            Some(i) => 0 <= i < lits.len() && lits[i].value == v && forall|j: int|
                i < j < lits.len() ==> lits[j].value != v,
            None => forall|j: int| 0 <= j < lits.len() ==> lits[j].value != v,
        },
    decreases lits.len(),
{
    if lits.len() > 0 && lits.last().value != v {
        let rest = lits.drop_last();
        lemma_literal_index(rest, v);
        assert(forall|j: int| 0 <= j < rest.len() ==> rest[j] == lits[j]);
    }
}

pub proof fn lemma_select_index(maps: Seq<SelectMapping>, v: Seq<char>)
    ensures
        match select_index(maps, v) {
            Some(i) => 0 <= i < maps.len() && maps[i].value@ == v && forall|j: int|
                i < j < maps.len() ==> maps[j].value@ != v,
            None => forall|j: int| 0 <= j < maps.len() ==> maps[j].value@ != v,
        },
    decreases maps.len(),
{
    if maps.len() > 0 && maps.last().value@ != v {
        let rest = maps.drop_last();
        lemma_select_index(rest, v);
        assert(forall|j: int| 0 <= j < rest.len() ==> rest[j] == maps[j]);
    }
}

pub proof fn lemma_plural_branch_smaller(p: PluralFormat, v: i64)
    ensures
        decreases_to!(p => plural_branch(p, v)),
{
    lemma_literal_index(p.literals@, v);
    match literal_index(p.literals@, v) {
        Some(i) => {
            assert(decreases_to!(p.literals => p.literals@));
            assert(decreases_to!(p.literals@ => p.literals@[i]));
            assert(decreases_to!(p.literals@[i] => p.literals@[i].message));
        },
        None => {
            assert(decreases_to!(p.zero => p.zero->0) || p.zero is None);
            assert(decreases_to!(p.one => p.one->0) || p.one is None);
            assert(decreases_to!(p.two => p.two->0) || p.two is None);
            assert(decreases_to!(p.few => p.few->0) || p.few is None);
            assert(decreases_to!(p.many => p.many->0) || p.many is None);
        },
    }
}

pub proof fn lemma_select_branch_smaller(s: SelectFormat, v: Seq<char>)
    ensures
        decreases_to!(s => select_branch(s, v)),
{
    lemma_select_index(s.mappings@, v);
    match select_index(s.mappings@, v) {
        Some(i) => {
            assert(decreases_to!(s.mappings => s.mappings@));
            assert(decreases_to!(s.mappings@ => s.mappings@[i]));
            assert(decreases_to!(s.mappings@[i] => s.mappings@[i].message));
        },
        None => {},
    }
}

/// What rendering `m` gives, with placeholder value `ph` and arguments `args`.
pub open spec fn render_message(
    m: Message,
    ph: Option<i64>,
    args: Seq<(Seq<char>, ValueView)>,
) -> Result<Seq<char>, FormatError>
    decreases m,
{
    render_parts(m.parts@, ph, args)
}

/// What rendering the nodes `parts` in order gives: their texts joined, or
/// the error of the first node that fails.
pub open spec fn render_parts(
    parts: Seq<Format>,
    ph: Option<i64>,
    args: Seq<(Seq<char>, ValueView)>,
) -> Result<Seq<char>, FormatError>
    decreases parts,
{
    if parts.len() == 0 {
        Ok(Seq::empty())
    } else {
        match render_parts(parts.subrange(0, parts.len() - 1), ph, args) {
            Err(e) => Err(e),
            Ok(head) => match render_format(parts[parts.len() - 1], ph, args) {
                Err(e) => Err(e),
                Ok(tail) => Ok(head + tail),
            },
        }
    }
}

/// What rendering the node `f` gives.
pub open spec fn render_format(
    f: Format,
    ph: Option<i64>,
    args: Seq<(Seq<char>, ValueView)>,
) -> Result<Seq<char>, FormatError>
    decreases f,
{
    match f {
        Format::PlainText(t) => Ok(t.text@),
        Format::SimpleFormat(s) => match lookup(args, s.variable_name@) {
            Some(v) => Ok(value_text(v)),
            None => Err(FormatError::MissingArgument),
        },
        Format::PlaceholderFormat(_) => match ph {
            Some(v) => Ok(int_text(v as int)),
            None => Err(FormatError::MissingContextValue),
        },
        Format::PluralFormat(p) => match lookup(args, p.variable_name@) {
            Some(ValueView::Number(n)) => {
                let ov = n - p.offset;
                if i64::MIN <= ov <= i64::MAX {
                    proof {
                        lemma_plural_branch_smaller(p, ov as i64);
                    }
                    render_message(plural_branch(p, ov as i64), Some(ov as i64), args)
                } else {
                    Err(FormatError::OffsetOverflow)
                }
            },
            Some(ValueView::Str(_)) => Err(FormatError::TypeMismatch),
            None => Err(FormatError::MissingArgument),
        },
        Format::SelectFormat(s) => match lookup(args, s.variable_name@) {
            Some(ValueView::Str(v)) => {
                proof {
                    lemma_select_branch_smaller(s, v);
                }
                render_message(select_branch(s, v), ph, args)
            },
            Some(ValueView::Number(_)) => Err(FormatError::TypeMismatch),
            None => Err(FormatError::MissingArgument),
        },
    }
}

/// Once a prefix of the nodes fails, rendering all of them fails the same way.
proof fn lemma_parts_error_extends(
    parts: Seq<Format>,
    k: int,
    ph: Option<i64>,
    args: Seq<(Seq<char>, ValueView)>,
)
    requires
        0 <= k <= parts.len(),
        render_parts(parts.subrange(0, k), ph, args) is Err,
    ensures
        render_parts(parts, ph, args) == render_parts(parts.subrange(0, k), ph, args),
    decreases parts.len() - k,
{
    if k < parts.len() {
        let next = parts.subrange(0, k + 1);
        assert(next.subrange(0, k) =~= parts.subrange(0, k));
        lemma_parts_error_extends(parts, k + 1, ph, args);
    } else {
        assert(parts.subrange(0, k) =~= parts);
    }
}

impl Message {
    /// Creates a message from its nodes.
    pub fn new(parts: Vec<Format>) -> (r: Message)
        ensures
            r.parts@ == parts@,
    {
        Message { parts }
    }

    /// Renders this message, appending the text to `stream`.
    pub fn write_message(&self, ctx: &Context, stream: &mut String, args: Option<&Args>) -> (r:
        Result<(), FormatError>)
        ensures
            match render_message(*self, ctx.placeholder_value, args_seq(args)) {
                Ok(text) => r is Ok && final(stream)@ == old(stream)@ + text,
                Err(e) => r == Err::<(), FormatError>(e),
            },
        decreases self,
    {
        let ghost ph = ctx.placeholder_value;
        let ghost a = args_seq(args);
        let ghost start = stream@;
        let ghost mut done: Seq<char> = Seq::empty();
        let mut i: usize = 0;
        assert(self.parts@.subrange(0, 0) =~= Seq::<Format>::empty());
        while i < self.parts.len()
            invariant
                0 <= i <= self.parts@.len(),
                ph == ctx.placeholder_value,
                a == args_seq(args),
                start == old(stream)@,
                render_parts(self.parts@.subrange(0, i as int), ph, a) == Ok::<
                    Seq<char>,
                    FormatError,
                >(done),
                stream@ == start + done,
            decreases self.parts@.len() - i,
        {
            let ghost prefix = self.parts@.subrange(0, i + 1);
            assert(prefix.subrange(0, i as int) =~= self.parts@.subrange(0, i as int));
            assert(prefix[i as int] == self.parts@[i as int]);
            let part = &self.parts[i];
            match part.apply_format(ctx, stream, args) {
                Ok(()) => {
                    proof {
                        let t = render_format(self.parts@[i as int], ph, a)->Ok_0;
                        done = done + t;
                        assert(stream@ =~= start + done);
                    }
                },
                Err(e) => {
                    proof {
                        lemma_parts_error_extends(self.parts@, i + 1, ph, a);
                    }
                    return Err(e);
                },
            }
            i = i + 1;
        }
        assert(self.parts@.subrange(0, i as int) =~= self.parts@);
        Ok(())
    }
}

impl Format {
    /// Renders this node, appending the text to `stream`.
    pub fn apply_format(&self, ctx: &Context, stream: &mut String, args: Option<&Args>) -> (r:
        Result<(), FormatError>)
        ensures
            match render_format(*self, ctx.placeholder_value, args_seq(args)) {
                Ok(text) => r is Ok && final(stream)@ == old(stream)@ + text,
                Err(e) => r == Err::<(), FormatError>(e),
            },
        decreases self,
    {
        match self {
            Format::PlainText(t) => {
                stream.append(t.text.as_str());
                Ok(())
            },
            Format::SimpleFormat(s) => {
                let found = match args {
                    Some(a) => a.find(&s.variable_name),
                    None => None,
                };
                match found {
                    Some(link) => {
                        link.value.write_to(stream);
                        Ok(())
                    },
                    None => Err(FormatError::MissingArgument),
                }
            },
            Format::PlaceholderFormat(_) => match ctx.placeholder_value {
                Some(v) => {
                    write_int(stream, v);
                    Ok(())
                },
                None => Err(FormatError::MissingContextValue),
            },
            Format::PluralFormat(p) => p.apply_format(ctx, stream, args),
            Format::SelectFormat(s) => s.apply_format(ctx, stream, args),
        }
    }
}

impl PlainText {
    /// Creates a text node.
    pub fn new(text: &str) -> (r: PlainText)
        ensures
            r.text@ == text@,
    {
        PlainText { text: text.to_owned() }
    }
}

impl SimpleFormat {
    /// Creates a node that renders the argument `variable_name`.
    pub fn new(variable_name: &str) -> (r: SimpleFormat)
        ensures
            r.variable_name@ == variable_name@,
    {
        SimpleFormat { variable_name: variable_name.to_owned() }
    }
}

impl PlaceholderFormat {
    /// Creates a placeholder node.
    pub fn new() -> (r: PlaceholderFormat) {
        PlaceholderFormat {  }
    }
}

impl PluralFormat {
    /// Creates a plural node on the argument `variable_name` with the
    /// mandatory `other` branch, the English rule, no offset and no other branch.
    pub fn new(variable_name: &str, other: Message) -> (r: PluralFormat)
        ensures
            r.variable_name@ == variable_name@,
            r.classifier == Classifier::EnglishCardinal,
            r.literals@ == Seq::<PluralMapping>::empty(),
            r.offset == 0,
            r.zero is None,
            r.one is None,
            r.two is None,
            r.few is None,
            r.many is None,
            r.other == other,
    {
        PluralFormat {
            variable_name: variable_name.to_owned(),
            classifier: Classifier::EnglishCardinal,
            literals: Vec::new(),
            offset: 0,
            zero: None,
            one: None,
            two: None,
            few: None,
            many: None,
            other,
        }
    }

    /// Sets the message used when the offset value is exactly `literal`;
    /// it takes precedence over every category branch.
    pub fn literal(&mut self, literal: i64, message: Message)
        ensures
            final(self).literals@ == old(self).literals@.push(
                (PluralMapping { value: literal, message }),
            ),
            *final(self) == (PluralFormat { literals: final(self).literals, ..*old(self) }),
            forall|v: i64|
                plural_branch(*final(self), v) == if v == literal {
                    message
                } else {
                    plural_branch(*old(self), v)
                },
    {
        self.literals.push(PluralMapping { value: literal, message });
        assert forall|v: i64|
            plural_branch(*self, v) == if v == literal {
                message
            } else {
                plural_branch(*old(self), v)
            } by {
            let lits = self.literals@;
            assert(lits.drop_last() =~= old(self).literals@);
            assert(lits.last() == (PluralMapping { value: literal, message }));
            if v != literal {
                lemma_literal_index(old(self).literals@, v);
                assert(literal_index(lits, v) == literal_index(old(self).literals@, v));
                assert(category_branch(*self, self.classifier.category(v)) == category_branch(
                    *old(self),
                    old(self).classifier.category(v),
                ));
            }
        }
    }

    /// Sets the offset subtracted from the argument before a branch is chosen.
    pub fn offset(&mut self, offset: i64)
        ensures
            *final(self) == (PluralFormat { offset, ..*old(self) }),
    {
        self.offset = offset;
    }

    /// Sets the rule that maps a number to its category.
    pub fn classifier(&mut self, classifier: Classifier)
        ensures
            *final(self) == (PluralFormat { classifier, ..*old(self) }),
    {
        self.classifier = classifier;
    }

    /// Sets the message for `PluralCategory::Zero`.
    pub fn zero(&mut self, message: Message)
        ensures
            *final(self) == (PluralFormat { zero: Some(message), ..*old(self) }),
    {
        self.zero = Some(message);
    }

    /// Sets the message for `PluralCategory::One`.
    pub fn one(&mut self, message: Message)
        ensures
            *final(self) == (PluralFormat { one: Some(message), ..*old(self) }),
    {
        self.one = Some(message);
    }

    /// Sets the message for `PluralCategory::Two`.
    pub fn two(&mut self, message: Message)
        ensures
            *final(self) == (PluralFormat { two: Some(message), ..*old(self) }),
    {
        self.two = Some(message);
    }

    /// Sets the message for `PluralCategory::Few`.
    pub fn few(&mut self, message: Message)
        ensures
            *final(self) == (PluralFormat { few: Some(message), ..*old(self) }),
    {
        self.few = Some(message);
    }

    /// Sets the message for `PluralCategory::Many`.
    pub fn many(&mut self, message: Message)
        ensures
            *final(self) == (PluralFormat { many: Some(message), ..*old(self) }),
    {
        self.many = Some(message);
    }

    /// The message to render for a value already adjusted by the offset.
    pub fn lookup_message(&self, offset_value: i64) -> (r: &Message)
        ensures
            *r == plural_branch(*self, offset_value),
    {
        let mut i: usize = self.literals.len();
        assert(self.literals@.subrange(0, i as int) =~= self.literals@);
        while i > 0
            invariant
                i <= self.literals@.len(),
                literal_index(self.literals@, offset_value) == literal_index(
                    self.literals@.subrange(0, i as int),
                    offset_value,
                ),
            decreases i,
        {
            let ghost prefix = self.literals@.subrange(0, i as int);
            i = i - 1;
            assert(prefix.drop_last() =~= self.literals@.subrange(0, i as int));
            if self.literals[i].value == offset_value {
                return &self.literals[i].message;
            }
        }
        let category = self.classifier.classify(offset_value);
        let chosen = match category {
            PluralCategory::Zero => &self.zero,
            PluralCategory::One => &self.one,
            PluralCategory::Two => &self.two,
            PluralCategory::Few => &self.few,
            PluralCategory::Many => &self.many,
            PluralCategory::Other => &None,
        };
        match chosen {
            Some(m) => m,
            None => &self.other,
        }
    }

    /// Renders the branch chosen by the argument, with the offset value as
    /// the placeholder's value.
    pub fn apply_format(&self, ctx: &Context, stream: &mut String, args: Option<&Args>) -> (r:
        Result<(), FormatError>)
        ensures
            match render_format(
                Format::PluralFormat(*self),
                ctx.placeholder_value,
                args_seq(args),
            ) {
                Ok(text) => r is Ok && final(stream)@ == old(stream)@ + text,
                Err(e) => r == Err::<(), FormatError>(e),
            },
        decreases self,
    {
        let found = match args {
            Some(a) => a.find(&self.variable_name),
            None => None,
        };
        match found {
            Some(link) => match &link.value {
                Value::Number(n) => match n.checked_sub(self.offset) {
                    Some(offset_value) => {
                        let message = self.lookup_message(offset_value);
                        proof {
                            lemma_plural_branch_smaller(*self, offset_value);
                        }
                        let inner = ctx.with_placeholder(offset_value);
                        message.write_message(&inner, stream, args)
                    },
                    None => Err(FormatError::OffsetOverflow),
                },
                Value::Str(_) => Err(FormatError::TypeMismatch),
            },
            None => Err(FormatError::MissingArgument),
        }
    }
}

impl SelectFormat {
    /// Creates a select node on the argument `variable_name` with the
    /// mandatory `default` branch and no mapping.
    pub fn new(variable_name: &str, default: Message) -> (r: SelectFormat)
        ensures
            r.variable_name@ == variable_name@,
            r.mappings@ == Seq::<SelectMapping>::empty(),
            r.default == default,
    {
        SelectFormat { variable_name: variable_name.to_owned(), mappings: Vec::new(), default }
    }

    /// Sets the message used when the argument is exactly `value`.
    pub fn map(&mut self, value: &str, message: Message)
        ensures
            final(self).mappings@.len() == old(self).mappings@.len() + 1,
            final(self).mappings@.drop_last() == old(self).mappings@,
            final(self).mappings@.last().value@ == value@,
            final(self).mappings@.last().message == message,
            final(self).variable_name == old(self).variable_name,
            final(self).default == old(self).default,
            forall|v: Seq<char>|
                select_branch(*final(self), v) == if v == value@ {
                    message
                } else {
                    select_branch(*old(self), v)
                },
    {
        self.mappings.push(SelectMapping { value: value.to_owned(), message });
        assert(self.mappings@.drop_last() =~= old(self).mappings@);
        assert forall|v: Seq<char>|
            select_branch(*self, v) == if v == value@ {
                message
            } else {
                select_branch(*old(self), v)
            } by {
            if v != value@ {
                lemma_select_index(old(self).mappings@, v);
                assert(select_index(self.mappings@, v) == select_index(old(self).mappings@, v));
            }
        }
    }

    fn branch_for(&self, value: &String) -> (r: &Message)
        ensures
            *r == select_branch(*self, value@),
    {
        let mut i: usize = self.mappings.len();
        assert(self.mappings@.subrange(0, i as int) =~= self.mappings@);
        while i > 0
            invariant
                i <= self.mappings@.len(),
                select_index(self.mappings@, value@) == select_index(
                    self.mappings@.subrange(0, i as int),
                    value@,
                ),
            decreases i,
        {
            let ghost prefix = self.mappings@.subrange(0, i as int);
            i = i - 1;
            assert(prefix.drop_last() =~= self.mappings@.subrange(0, i as int));
            if self.mappings[i].value == *value {
                return &self.mappings[i].message;
            }
        }
        &self.default
    }

    /// The message to render when the argument is `value`.
    pub fn lookup_message(&self, value: &str) -> (r: &Message)
        ensures
            *r == select_branch(*self, value@),
    {
        let key = value.to_owned();
        self.branch_for(&key)
    }

    /// Renders the branch chosen by the argument, in the same context.
    pub fn apply_format(&self, ctx: &Context, stream: &mut String, args: Option<&Args>) -> (r:
        Result<(), FormatError>)
        ensures
            match render_format(
                Format::SelectFormat(*self),
                ctx.placeholder_value,
                args_seq(args),
            ) {
                Ok(text) => r is Ok && final(stream)@ == old(stream)@ + text,
                Err(e) => r == Err::<(), FormatError>(e),
            },
        decreases self,
    {
        let found = match args {
            Some(a) => a.find(&self.variable_name),
            None => None,
        };
        match found {
            Some(link) => match &link.value {
                Value::Str(v) => {
                    let message = self.branch_for(v);
                    proof {
                        lemma_select_branch_smaller(*self, v@);
                    }
                    message.write_message(ctx, stream, args)
                },
                Value::Number(_) => Err(FormatError::TypeMismatch),
            },
            None => Err(FormatError::MissingArgument),
        }
    }
}

} // verus!
