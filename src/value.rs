use vstd::prelude::*;

verus! {

/// An argument value: a signed 64-bit integer or a string.
#[derive(Debug, PartialEq, Eq)]
pub enum Value {
    Number(i64),
    Str(String),
}

/// The character of a decimal digit `d` (`0 <= d < 10`).
pub open spec fn digit_char(d: nat) -> char {
    (48 + d) as char
}

/// The decimal digits of `n`, most significant first, with no leading zero.
pub open spec fn nat_text(n: nat) -> Seq<char>
    decreases n,
{
    if n < 10 {
        seq![digit_char(n)]
    } else {
        nat_text(n / 10).push(digit_char(n % 10))
    }
}

/// The decimal text of `n`, with a leading `-` when it is negative.
pub open spec fn int_text(n: int) -> Seq<char> {
    if n < 0 {
        seq!['-'] + nat_text((-n) as nat)
    } else {
        nat_text(n as nat)
    }
}

/// Relies on `String::push`: appends one character.
#[verifier::external_body]
fn push_char(s: &mut String, c: char)
    ensures
        final(s)@ == old(s)@.push(c),
{
    s.push(c);
}

fn write_nat(out: &mut String, n: u64)
    ensures
        final(out)@ == old(out)@ + nat_text(n as nat),
    decreases n,
{
    if n >= 10 {
        write_nat(out, n / 10);
    }
    let d = (n % 10) as u8;
    push_char(out, (48u8 + d) as char);
    assert(out@ =~= old(out)@ + nat_text(n as nat));
}

/// Appends the decimal text of `n` to `out`.
pub fn write_int(out: &mut String, n: i64)
    ensures
        final(out)@ == old(out)@ + int_text(n as int),
{
    if n < 0 {
        push_char(out, '-');
        let mag: u64 = if n == i64::MIN {
            9223372036854775808u64
        } else {
            (-n) as u64
        };
        write_nat(out, mag);
        assert(final(out)@ =~= old(out)@ + int_text(n as int));
    } else {
        write_nat(out, n as u64);
    }
}

impl Value {
    /// Appends the display text of this value to `out`.
    pub fn write_to(&self, out: &mut String)
        ensures
            final(out)@ == old(out)@ + value_text(self@),
    {
        match self {
            Value::Number(n) => write_int(out, *n),
            Value::Str(s) => out.append(s.as_str()),
        }
    }

    /// The display text of this value.
    pub fn to_string(&self) -> (r: String)
        ensures
            r@ == value_text(self@),
    {
        let mut out = String::new();
        self.write_to(&mut out);
        assert(out@ =~= value_text(self@));
        out
    }
}

/// What a value holds, as a mathematical value.
pub enum ValueView {
    Number(i64),
    Str(Seq<char>),
}

impl View for Value {
    type V = ValueView;

    open spec fn view(&self) -> ValueView {
        match self {
            Value::Number(n) => ValueView::Number(*n),
            Value::Str(s) => ValueView::Str(s@),
        }
    }
}

/// The display text of a value.
pub open spec fn value_text(v: ValueView) -> Seq<char> {
    match v {
        ValueView::Number(n) => int_text(n as int),
        ValueView::Str(s) => s,
    }
}

/// A type whose values can be handed to a message as arguments.
pub trait AsValue {
    /// The argument value that `self` becomes.
    spec fn value_view(&self) -> ValueView;

    /// Wraps `self` as an argument value.
    fn as_value(self) -> (r: Value)
        ensures
            r@ == self.value_view(),
    ;
}

impl AsValue for i32 {
    open spec fn value_view(&self) -> ValueView {
        ValueView::Number(*self as i64)
    }

    fn as_value(self) -> (r: Value) {
        Value::Number(self as i64)
    }
}

impl AsValue for u32 {
    open spec fn value_view(&self) -> ValueView {
        ValueView::Number(*self as i64)
    }

    fn as_value(self) -> (r: Value) {
        Value::Number(self as i64)
    }
}

impl AsValue for i64 {
    open spec fn value_view(&self) -> ValueView {
        ValueView::Number(*self as i64)
    }

    fn as_value(self) -> (r: Value) {
        Value::Number(self as i64)
    }
}

impl AsValue for u64 {
    open spec fn value_view(&self) -> ValueView {
        ValueView::Number(*self as i64)
    }

    fn as_value(self) -> (r: Value) {
        Value::Number(self as i64)
    }
}

impl AsValue for usize {
    open spec fn value_view(&self) -> ValueView {
        ValueView::Number(*self as i64)
    }

    fn as_value(self) -> (r: Value) {
        Value::Number(self as i64)
    }
}

impl<'a> AsValue for &'a str {
    open spec fn value_view(&self) -> ValueView {
        ValueView::Str(self@)
    }

    fn as_value(self) -> (r: Value) {
        Value::Str(self.to_owned())
    }
}

impl AsValue for String {
    open spec fn value_view(&self) -> ValueView {
        ValueView::Str(self@)
    }

    fn as_value(self) -> (r: Value) {
        Value::Str(self)
    }
}

} // verus!
