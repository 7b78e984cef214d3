use vstd::prelude::*;

use vstd::std_specs::iter::IteratorSpec;

use crate::message::{
    Format, Message, PlaceholderFormat, PlainText, PluralFormat, PluralMapping, SelectFormat,
    SelectMapping, SimpleFormat,
};
use crate::plural::{Classifier, PluralCategory};

verus! {

/// Why a template could not be parsed.
#[derive(Clone, Copy, Debug, PartialEq, Eq, Structural)]
pub enum ParseError {
    /// The input ends inside a format: a `{` is never closed.
    Incomplete,
    /// A format holds something that the grammar does not allow.
    Invalid,
}

/// What selects a plural branch: an exact number or a category.
#[derive(Clone, Copy, Debug, PartialEq, Eq, Structural)]
pub enum PluralKey {
    Exact(i64),
    Category(PluralCategory),
}

/// The branches of a plural format, as mathematical values.
pub struct PluralPieces {
    pub literals: Seq<(i64, Seq<Piece>)>,
    pub zero: Option<Seq<Piece>>,
    pub one: Option<Seq<Piece>>,
    pub two: Option<Seq<Piece>>,
    pub few: Option<Seq<Piece>>,
    pub many: Option<Seq<Piece>>,
    pub other: Option<Seq<Piece>>,
}

/// The branches of a select format, as mathematical values.
pub struct SelectPieces {
    pub mappings: Seq<(Seq<char>, Seq<Piece>)>,
    pub default: Option<Seq<Piece>>,
}

/// A part of a parsed template, as a mathematical value.
pub enum Piece {
    /// A run of text.
    Text(Seq<char>),
    /// A reference to the argument of this name.
    Var(Seq<char>),
    /// `#` in a plural branch: the number the branch was chosen for.
    Hash,
    /// A plural format: argument name, offset and branches.
    Plural(Seq<char>, i64, PluralPieces),
    /// A select format: argument name and branches.
    Select(Seq<char>, SelectPieces),
}

/// Whitespace that may surround keywords, selectors and branches.
pub open spec fn is_ws(c: char) -> bool {
    c == ' ' || c == '\t' || c == '\r' || c == '\n'
}

pub open spec fn is_digit(c: char) -> bool {
    '0' <= c <= '9'
}

/// Whether `c` ends a run of text: `{` always, `}` inside a branch, `#`
/// inside a plural branch.
pub open spec fn stops_text(c: char, nested: bool, in_plural: bool) -> bool {
    c == '{' || (nested && c == '}') || (in_plural && c == '#')
}

/// The first index at or after `i` that ends a run of text, or the length.
pub open spec fn text_end(s: Seq<char>, i: int, nested: bool, in_plural: bool) -> int
    decreases s.len() - i,
{
    if i < 0 || i >= s.len() {
        s.len() as int
    } else if stops_text(s[i], nested, in_plural) {
        i
    } else {
        text_end(s, i + 1, nested, in_plural)
    }
}

/// The first index at or after `i` that ends a variable name, or the length.
pub open spec fn name_end(s: Seq<char>, i: int) -> int
    decreases s.len() - i,
{
    if i < 0 || i >= s.len() {
        s.len() as int
    } else if s[i] == ',' || s[i] == '}' {
        i
    } else {
        name_end(s, i + 1)
    }
}

/// The first index at or after `i` that is not whitespace, or the length.
pub open spec fn ws_end(s: Seq<char>, i: int) -> int
    decreases s.len() - i,
{
    if i < 0 || i >= s.len() {
        s.len() as int
    } else if is_ws(s[i]) {
        ws_end(s, i + 1)
    } else {
        i
    }
}

/// The first index at or after `i` that is not a decimal digit, or the length.
pub open spec fn digits_end(s: Seq<char>, i: int) -> int
    decreases s.len() - i,
{
    if i < 0 || i >= s.len() {
        s.len() as int
    } else if is_digit(s[i]) {
        digits_end(s, i + 1)
    } else {
        i
    }
}

/// The first index at or after `i` that ends a selector word, or the length.
pub open spec fn key_end(s: Seq<char>, i: int) -> int
    decreases s.len() - i,
{
    if i < 0 || i >= s.len() {
        s.len() as int
    } else if is_ws(s[i]) || s[i] == '{' || s[i] == '}' {
        i
    } else {
        key_end(s, i + 1)
    }
}

/// The number that the decimal digits `s[p..e]` spell.
pub open spec fn digits_value(s: Seq<char>, p: int, e: int) -> int
    decreases e - p,
{
    if e <= p {
        0
    } else {
        digits_value(s, p, e - 1) * 10 + (s[e - 1] as int - 48)
    }
}

/// The integer written at `p` (an optional `-` and at least one digit) and
/// where it ends, if it is there and fits 64 bits.
pub open spec fn int_at(s: Seq<char>, p: int) -> Option<(i64, int)> {
    let neg = 0 <= p < s.len() && s[p] == '-';
    let d = if neg {
        p + 1
    } else {
        p
    };
    let e = digits_end(s, d);
    let v = if neg {
        -digits_value(s, d, e)
    } else {
        digits_value(s, d, e)
    };
    if e == d || v < i64::MIN || v > i64::MAX {
        None
    } else {
        Some((v as i64, e))
    }
}

pub open spec fn plural_word() -> Seq<char> {
    seq!['p', 'l', 'u', 'r', 'a', 'l']
}

pub open spec fn select_word() -> Seq<char> {
    seq!['s', 'e', 'l', 'e', 'c', 't']
}

pub open spec fn offset_word() -> Seq<char> {
    seq!['o', 'f', 'f', 's', 'e', 't', ':']
}

pub open spec fn other_word() -> Seq<char> {
    seq!['o', 't', 'h', 'e', 'r']
}

/// The plural category that the selector word `w` names.
pub open spec fn category_of_word(w: Seq<char>) -> Option<PluralCategory> {
    if w == seq!['z', 'e', 'r', 'o'] {
        Some(PluralCategory::Zero)
    } else if w == seq!['o', 'n', 'e'] {
        Some(PluralCategory::One)
    } else if w == seq!['t', 'w', 'o'] {
        Some(PluralCategory::Two)
    } else if w == seq!['f', 'e', 'w'] {
        Some(PluralCategory::Few)
    } else if w == seq!['m', 'a', 'n', 'y'] {
        Some(PluralCategory::Many)
    } else if w == other_word() {
        Some(PluralCategory::Other)
    } else {
        None
    }
}

/// Whether the word `w` stands in `s` at index `i`.
pub open spec fn has_word(s: Seq<char>, i: int, w: Seq<char>) -> bool {
    0 <= i && i + w.len() <= s.len() && s.subrange(i, i + w.len()) == w
}

/// Whether a `}` stands at or after index `i`.
pub open spec fn closes_after(s: Seq<char>, i: int) -> bool {
    exists|j: int| i <= j < s.len() && s[j] == '}'
}

/// The error for input that does not fit the grammar at `p`: incomplete
/// when no `}` follows, so that a `{` is never closed.
pub open spec fn failure(s: Seq<char>, p: int) -> ParseError {
    if closes_after(s, p) {
        ParseError::Invalid
    } else {
        ParseError::Incomplete
    }
}

/// The offset written at `b` (`offset:` and an integer) and where it ends;
/// zero where none is written.
pub open spec fn offset_at(s: Seq<char>, b: int) -> Option<(i64, int)> {
    if has_word(s, b, offset_word()) {
        int_at(s, ws_end(s, b + 7))
    } else {
        Some((0, b))
    }
}

/// The plural selector at `q` (`=` and an integer, or a category word) and
/// where it ends.
pub open spec fn plural_key_at(s: Seq<char>, q: int) -> Option<(PluralKey, int)> {
    if 0 <= q < s.len() && s[q] == '=' {
        match int_at(s, q + 1) {
            Some((n, e)) => Some((PluralKey::Exact(n), e)),
            None => None,
        }
    } else {
        let k = key_end(s, q);
        match category_of_word(s.subrange(q, k)) {
            Some(c) => Some((PluralKey::Category(c), k)),
            None => None,
        }
    }
}

pub open spec fn no_plural_branches() -> PluralPieces {
    PluralPieces {
        literals: Seq::empty(),
        zero: None,
        one: None,
        two: None,
        few: None,
        many: None,
        other: None,
    }
}

pub open spec fn no_select_branches() -> SelectPieces {
    SelectPieces { mappings: Seq::empty(), default: None }
}

/// The branches after one more plural branch `body` for `key`.
pub open spec fn with_plural_branch(acc: PluralPieces, key: PluralKey, body: Seq<Piece>) -> PluralPieces {
    match key {
        PluralKey::Exact(n) => PluralPieces { literals: acc.literals.push((n, body)), ..acc },
        PluralKey::Category(PluralCategory::Zero) => PluralPieces { zero: Some(body), ..acc },
        PluralKey::Category(PluralCategory::One) => PluralPieces { one: Some(body), ..acc },
        PluralKey::Category(PluralCategory::Two) => PluralPieces { two: Some(body), ..acc },
        PluralKey::Category(PluralCategory::Few) => PluralPieces { few: Some(body), ..acc },
        PluralKey::Category(PluralCategory::Many) => PluralPieces { many: Some(body), ..acc },
        PluralKey::Category(PluralCategory::Other) => PluralPieces { other: Some(body), ..acc },
    }
}

/// The branches after one more select branch `body` for `key`; the key
/// `other` sets the default.
pub open spec fn with_select_branch(acc: SelectPieces, key: Seq<char>, body: Seq<Piece>) -> SelectPieces {
    if key == other_word() {
        SelectPieces { default: Some(body), ..acc }
    } else {
        SelectPieces { mappings: acc.mappings.push((key, body)), ..acc }
    }
}

/// The plural format named `name` with offset `off`, from its branches.
pub open spec fn plural_result(
    name: Seq<char>,
    off: i64,
    r: Result<(PluralPieces, int), ParseError>,
) -> Result<(Piece, int), ParseError> {
    match r {
        Ok((pp, e)) => Ok((Piece::Plural(name, off, pp), e)),
        Err(x) => Err(x),
    }
}

/// The select format named `name`, from its branches.
pub open spec fn select_result(name: Seq<char>, r: Result<(SelectPieces, int), ParseError>) -> Result<
    (Piece, int),
    ParseError,
> {
    match r {
        Ok((sp, e)) => Ok((Piece::Select(name, sp), e)),
        Err(x) => Err(x),
    }
}

pub open spec fn prepend(p: Piece, r: Result<(Seq<Piece>, int), ParseError>) -> Result<
    (Seq<Piece>, int),
    ParseError,
> {
    match r {
        Ok((ps, e)) => Ok((seq![p] + ps, e)),
        Err(x) => Err(x),
    }
}

pub proof fn lemma_int_at(s: Seq<char>, p: int)
    requires
        0 <= p <= s.len(),
    ensures
        int_at(s, p) matches Some((_, e)) ==> p < e <= s.len(),
{
    lemma_scan_bounds(s, p, false, false);
    if p < s.len() {
        lemma_scan_bounds(s, p + 1, false, false);
    }
}

pub proof fn lemma_scan_bounds(s: Seq<char>, i: int, nested: bool, in_plural: bool)
    requires
        0 <= i <= s.len(),
    ensures
        i <= text_end(s, i, nested, in_plural) <= s.len(),
        i <= name_end(s, i) <= s.len(),
        i <= ws_end(s, i) <= s.len(),
        i <= digits_end(s, i) <= s.len(),
        i <= key_end(s, i) <= s.len(),
    decreases s.len() - i,
{
    if i < s.len() {
        lemma_scan_bounds(s, i + 1, nested, in_plural);
    }
}

/// The message from index `i` on (up to the `}` that closes it when
/// `nested`) and where it ends, or why it cannot be parsed.
pub open spec fn parse_msg(s: Seq<char>, i: int, nested: bool, in_plural: bool) -> Result<
    (Seq<Piece>, int),
    ParseError,
>
    decreases s.len() - i, 2int,
{
    if i < 0 || i >= s.len() {
        if nested {
            Err(ParseError::Incomplete)
        } else {
            Ok((Seq::empty(), s.len() as int))
        }
    } else if nested && s[i] == '}' {
        Ok((Seq::empty(), i))
    } else if s[i] == '{' {
        match parse_format(s, i, in_plural) {
            Ok((p, e)) => if i < e <= s.len() {
                prepend(p, parse_msg(s, e, nested, in_plural))
            } else {
                Err(ParseError::Invalid)
            },
            Err(x) => Err(x),
        }
    } else if in_plural && s[i] == '#' {
        prepend(Piece::Hash, parse_msg(s, i + 1, nested, in_plural))
    } else {
        proof {
            lemma_scan_bounds(s, i + 1, nested, in_plural);
        }
        let j = text_end(s, i + 1, nested, in_plural);
        prepend(Piece::Text(s.subrange(i, j)), parse_msg(s, j, nested, in_plural))
    }
}

/// The format that opens at `i` and where it ends (just past its `}`), or
/// why it cannot be parsed.
pub open spec fn parse_format(s: Seq<char>, i: int, in_plural: bool) -> Result<
    (Piece, int),
    ParseError,
>
    decreases s.len() - i, 1int,
{
    if i < 0 || i >= s.len() {
        Err(ParseError::Incomplete)
    } else {
        let j = name_end(s, i + 1);
        if j >= s.len() {
            Err(ParseError::Incomplete)
        } else if j <= i + 1 {
            Err(ParseError::Invalid)
        } else if s[j] == '}' {
            Ok((Piece::Var(s.subrange(i + 1, j)), j + 1))
        } else {
            let name = s.subrange(i + 1, j);
            let k = ws_end(s, j + 1);
            let plural = has_word(s, k, plural_word());
            if plural || has_word(s, k, select_word()) {
                let m = ws_end(s, k + 6);
                if m < s.len() && s[m] == '}' {
                    Ok((Piece::Var(name), m + 1))
                } else if m < s.len() && s[m] == ',' {
                    let b = ws_end(s, m + 1);
                    if !(i < b <= s.len()) {
                        Err(ParseError::Invalid)
                    } else if plural {
                        match offset_at(s, b) {
                            Some((off, c)) => if i < c <= s.len() {
                                plural_result(
                                    name,
                                    off,
                                    parse_plural_branches(s, c, no_plural_branches()),
                                )
                            } else {
                                Err(ParseError::Invalid)
                            },
                            None => Err(failure(s, b)),
                        }
                    } else {
                        select_result(
                            name,
                            parse_select_branches(s, b, in_plural, no_select_branches()),
                        )
                    }
                } else {
                    Err(failure(s, m))
                }
            } else {
                Err(failure(s, k))
            }
        }
    }
}

/// The plural branches from `p` on, added to `acc`, up to and past the
/// `}` that closes the format; an `other` branch is required.
pub open spec fn parse_plural_branches(s: Seq<char>, p: int, acc: PluralPieces) -> Result<
    (PluralPieces, int),
    ParseError,
>
    decreases s.len() - p, 0int,
{
    let q = ws_end(s, p);
    if p < 0 || p > s.len() || q >= s.len() {
        Err(ParseError::Incomplete)
    } else if s[q] == '}' {
        if acc.other is Some {
            Ok((acc, q + 1))
        } else {
            Err(ParseError::Invalid)
        }
    } else {
        match plural_key_at(s, q) {
            Some((key, a)) => {
                let r = ws_end(s, a);
                if r >= s.len() || s[r] != '{' || r < p {
                    Err(failure(s, r))
                } else {
                    match parse_msg(s, r + 1, true, true) {
                        Ok((body, e)) => if p <= e < s.len() {
                            parse_plural_branches(s, e + 1, with_plural_branch(acc, key, body))
                        } else {
                            Err(ParseError::Invalid)
                        },
                        Err(x) => Err(x),
                    }
                }
            },
            None => Err(failure(s, q)),
        }
    }
}

/// The select branches from `p` on, added to `acc`, up to and past the
/// `}` that closes the format; an `other` branch is required.
pub open spec fn parse_select_branches(
    s: Seq<char>,
    p: int,
    in_plural: bool,
    acc: SelectPieces,
) -> Result<(SelectPieces, int), ParseError>
    decreases s.len() - p, 0int,
{
    let q = ws_end(s, p);
    if p < 0 || p > s.len() || q >= s.len() {
        Err(ParseError::Incomplete)
    } else if s[q] == '}' {
        if acc.default is Some {
            Ok((acc, q + 1))
        } else {
            Err(ParseError::Invalid)
        }
    } else {
        let k = key_end(s, q);
        let r = ws_end(s, k);
        if k <= q {
            Err(failure(s, q))
        } else if r >= s.len() || s[r] != '{' || r < p {
            Err(failure(s, r))
        } else {
            match parse_msg(s, r + 1, true, in_plural) {
                Ok((body, e)) => if p <= e < s.len() {
                    parse_select_branches(
                        s,
                        e + 1,
                        in_plural,
                        with_select_branch(acc, s.subrange(q, k), body),
                    )
                } else {
                    Err(ParseError::Invalid)
                },
                Err(x) => Err(x),
            }
        }
    }
}

/// The pieces of the template `s`, or why it cannot be parsed.
pub open spec fn parse_spec(s: Seq<char>) -> Result<Seq<Piece>, ParseError> {
    match parse_msg(s, 0, false, false) {
        Ok((ps, _)) => Ok(ps),
        Err(x) => Err(x),
    }
}

/// The node `f` is the one that the piece `p` stands for.
pub open spec fn denotes(f: Format, p: Piece) -> bool
    decreases p, 0int,
{
    match p {
        Piece::Text(t) => f matches Format::PlainText(x) && x.text@ == t,
        Piece::Var(n) => f matches Format::SimpleFormat(x) && x.variable_name@ == n,
        Piece::Hash => f is PlaceholderFormat,
        Piece::Plural(n, off, pp) => match f {
            Format::PluralFormat(x) => {
                &&& x.variable_name@ == n
                &&& x.offset == off
                &&& x.classifier == Classifier::EnglishCardinal
                &&& literals_built(x.literals@, pp.literals)
                &&& opt_built(x.zero, pp.zero)
                &&& opt_built(x.one, pp.one)
                &&& opt_built(x.two, pp.two)
                &&& opt_built(x.few, pp.few)
                &&& opt_built(x.many, pp.many)
                &&& pp.other is Some
                &&& built_from(x.other, pp.other->0)
            },
            _ => false,
        },
        Piece::Select(n, sp) => match f {
            Format::SelectFormat(x) => {
                &&& x.variable_name@ == n
                &&& mappings_built(x.mappings@, sp.mappings)
                &&& sp.default is Some
                &&& built_from(x.default, sp.default->0)
            },
            _ => false,
        },
    }
}

/// The nodes of `m` are, one for one, those that `ps` stand for.
pub open spec fn built_from(m: Message, ps: Seq<Piece>) -> bool
    decreases ps, 2int,
{
    parts_built(m.parts@, ps)
}

pub open spec fn parts_built(parts: Seq<Format>, ps: Seq<Piece>) -> bool
    decreases ps, 1int,
{
    &&& parts.len() == ps.len()
    &&& ps.len() > 0 ==> {
        &&& parts_built(parts.drop_last(), ps.drop_last())
        &&& denotes(parts.last(), ps.last())
    }
}

pub open spec fn literals_built(ms: Seq<PluralMapping>, ls: Seq<(i64, Seq<Piece>)>) -> bool
    decreases ls, 1int,
{
    &&& ms.len() == ls.len()
    &&& ls.len() > 0 ==> {
        &&& literals_built(ms.drop_last(), ls.drop_last())
        &&& ms.last().value == ls.last().0
        &&& built_from(ms.last().message, ls.last().1)
    }
}

pub open spec fn mappings_built(ms: Seq<SelectMapping>, ks: Seq<(Seq<char>, Seq<Piece>)>) -> bool
    decreases ks, 1int,
{
    &&& ms.len() == ks.len()
    &&& ks.len() > 0 ==> {
        &&& mappings_built(ms.drop_last(), ks.drop_last())
        &&& ms.last().value@ == ks.last().0
        &&& built_from(ms.last().message, ks.last().1)
    }
}

pub open spec fn opt_built(m: Option<Message>, p: Option<Seq<Piece>>) -> bool
    decreases p, 1int,
{
    match p {
        Some(ps) => m matches Some(x) && built_from(x, ps),
        None => m is None,
    }
}

/// The pieces hold `#` only inside plural branches (`in_plural` for the
/// pieces themselves).
pub open spec fn hash_placed(ps: Seq<Piece>, in_plural: bool) -> bool
    decreases ps, 1int,
{
    ps.len() > 0 ==> {
        &&& hash_placed(ps.drop_last(), in_plural)
        &&& piece_hash_placed(ps.last(), in_plural)
    }
}

pub open spec fn piece_hash_placed(p: Piece, in_plural: bool) -> bool
    decreases p, 0int,
{
    match p {
        Piece::Hash => in_plural,
        Piece::Plural(_, _, pp) => plural_hash_placed(pp),
        Piece::Select(_, sp) => select_hash_placed(sp, in_plural),
        _ => true,
    }
}

pub open spec fn plural_hash_placed(pp: PluralPieces) -> bool
    decreases pp, 2int,
{
    &&& literals_hash_placed(pp.literals)
    &&& opt_hash_placed(pp.zero, true)
    &&& opt_hash_placed(pp.one, true)
    &&& opt_hash_placed(pp.two, true)
    &&& opt_hash_placed(pp.few, true)
    &&& opt_hash_placed(pp.many, true)
    &&& opt_hash_placed(pp.other, true)
}

pub open spec fn select_hash_placed(sp: SelectPieces, in_plural: bool) -> bool
    decreases sp, 2int,
{
    &&& mappings_hash_placed(sp.mappings, in_plural)
    &&& opt_hash_placed(sp.default, in_plural)
}

pub open spec fn literals_hash_placed(ls: Seq<(i64, Seq<Piece>)>) -> bool
    decreases ls, 1int,
{
    ls.len() > 0 ==> {
        &&& literals_hash_placed(ls.drop_last())
        &&& hash_placed(ls.last().1, true)
    }
}

pub open spec fn mappings_hash_placed(ks: Seq<(Seq<char>, Seq<Piece>)>, in_plural: bool) -> bool
    decreases ks, 1int,
{
    ks.len() > 0 ==> {
        &&& mappings_hash_placed(ks.drop_last(), in_plural)
        &&& hash_placed(ks.last().1, in_plural)
    }
}

pub open spec fn opt_hash_placed(o: Option<Seq<Piece>>, in_plural: bool) -> bool
    decreases o, 1int,
{
    match o {
        Some(b) => hash_placed(b, in_plural),
        None => true,
    }
}

proof fn lemma_hash_placed_prepend(p: Piece, ps: Seq<Piece>, in_plural: bool)
    requires
        piece_hash_placed(p, in_plural),
        hash_placed(ps, in_plural),
    ensures
        hash_placed(seq![p] + ps, in_plural),
    decreases ps.len(),
{
    if ps.len() > 0 {
        lemma_hash_placed_prepend(p, ps.drop_last(), in_plural);
        assert((seq![p] + ps).drop_last() =~= seq![p] + ps.drop_last());
        assert((seq![p] + ps).last() == ps.last());
    } else {
        assert(seq![p] + ps =~= seq![p]);
        assert(seq![p].drop_last() =~= Seq::<Piece>::empty());
        assert(hash_placed(Seq::<Piece>::empty(), in_plural));
    }
}

proof fn lemma_literals_hash_placed_push(ls: Seq<(i64, Seq<Piece>)>, n: i64, body: Seq<Piece>)
    requires
        literals_hash_placed(ls),
        hash_placed(body, true),
    ensures
        literals_hash_placed(ls.push((n, body))),
{
    assert(ls.push((n, body)).drop_last() =~= ls);
}

proof fn lemma_mappings_hash_placed_push(
    ks: Seq<(Seq<char>, Seq<Piece>)>,
    k: Seq<char>,
    body: Seq<Piece>,
    in_plural: bool,
)
    requires
        mappings_hash_placed(ks, in_plural),
        hash_placed(body, in_plural),
    ensures
        mappings_hash_placed(ks.push((k, body)), in_plural),
{
    assert(ks.push((k, body)).drop_last() =~= ks);
}

/// Parsing puts `#` only inside plural branches.
pub proof fn lemma_parse_msg_hash_placed(s: Seq<char>, i: int, nested: bool, in_plural: bool)
    ensures
        parse_msg(s, i, nested, in_plural) matches Ok((ps, _)) ==> hash_placed(ps, in_plural),
    decreases s.len() - i, 2int,
{
    if i < 0 || i >= s.len() {
    } else if nested && s[i] == '}' {
    } else if s[i] == '{' {
        lemma_parse_format_hash_placed(s, i, in_plural);
        if let Ok((p, e)) = parse_format(s, i, in_plural) {
            if i < e <= s.len() {
                lemma_parse_msg_hash_placed(s, e, nested, in_plural);
                if let Ok((ps, _)) = parse_msg(s, e, nested, in_plural) {
                    lemma_hash_placed_prepend(p, ps, in_plural);
                }
            }
        }
    } else if in_plural && s[i] == '#' {
        lemma_parse_msg_hash_placed(s, i + 1, nested, in_plural);
        if let Ok((ps, _)) = parse_msg(s, i + 1, nested, in_plural) {
            lemma_hash_placed_prepend(Piece::Hash, ps, in_plural);
        }
    } else {
        lemma_scan_bounds(s, i + 1, nested, in_plural);
        let j = text_end(s, i + 1, nested, in_plural);
        lemma_parse_msg_hash_placed(s, j, nested, in_plural);
        if let Ok((ps, _)) = parse_msg(s, j, nested, in_plural) {
            lemma_hash_placed_prepend(Piece::Text(s.subrange(i, j)), ps, in_plural);
        }
    }
}

pub proof fn lemma_parse_format_hash_placed(s: Seq<char>, i: int, in_plural: bool)
    ensures
        parse_format(s, i, in_plural) matches Ok((p, _)) ==> piece_hash_placed(p, in_plural),
    decreases s.len() - i, 1int,
{
    if 0 <= i < s.len() {
        let j = name_end(s, i + 1);
        if j < s.len() && j > i + 1 && s[j] != '}' {
            let k = ws_end(s, j + 1);
            let plural = has_word(s, k, plural_word());
            let m = ws_end(s, k + 6);
            let b = ws_end(s, m + 1);
            if (plural || has_word(s, k, select_word())) && m < s.len() && s[m] == ',' && i < b
                <= s.len() {
                if plural {
                    if let Some((off, c)) = offset_at(s, b) {
                        if i < c <= s.len() {
                            lemma_plural_branches_hash_placed(s, c, no_plural_branches());
                        }
                    }
                } else {
                    lemma_select_branches_hash_placed(s, b, in_plural, no_select_branches());
                }
            }
        }
    }
}

pub proof fn lemma_plural_branches_hash_placed(s: Seq<char>, p: int, acc: PluralPieces)
    requires
        plural_hash_placed(acc),
    ensures
        parse_plural_branches(s, p, acc) matches Ok((pp, _)) ==> plural_hash_placed(pp),
    decreases s.len() - p, 0int,
{
    let q = ws_end(s, p);
    if 0 <= p <= s.len() && q < s.len() && s[q] != '}' {
        if let Some((key, a)) = plural_key_at(s, q) {
            let r = ws_end(s, a);
            if r < s.len() && s[r] == '{' && r >= p {
                lemma_parse_msg_hash_placed(s, r + 1, true, true);
                if let Ok((body, e)) = parse_msg(s, r + 1, true, true) {
                    if p <= e < s.len() {
                        let next = with_plural_branch(acc, key, body);
                        if let PluralKey::Exact(n) = key {
                            lemma_literals_hash_placed_push(acc.literals, n, body);
                        }
                        lemma_plural_branches_hash_placed(s, e + 1, next);
                    }
                }
            }
        }
    }
}

pub proof fn lemma_select_branches_hash_placed(
    s: Seq<char>,
    p: int,
    in_plural: bool,
    acc: SelectPieces,
)
    requires
        select_hash_placed(acc, in_plural),
    ensures
        parse_select_branches(s, p, in_plural, acc) matches Ok((sp, _)) ==> select_hash_placed(
            sp,
            in_plural,
        ),
    decreases s.len() - p, 0int,
{
    let q = ws_end(s, p);
    if 0 <= p <= s.len() && q < s.len() && s[q] != '}' {
        let k = key_end(s, q);
        let r = ws_end(s, k);
        if k > q && r < s.len() && s[r] == '{' && r >= p {
            lemma_parse_msg_hash_placed(s, r + 1, true, in_plural);
            if let Ok((body, e)) = parse_msg(s, r + 1, true, in_plural) {
                if p <= e < s.len() {
                    let key = s.subrange(q, k);
                    if key != other_word() {
                        lemma_mappings_hash_placed_push(acc.mappings, key, body, in_plural);
                    }
                    lemma_select_branches_hash_placed(
                        s,
                        e + 1,
                        in_plural,
                        with_select_branch(acc, key, body),
                    );
                }
            }
        }
    }
}

/// A parsed template holds `#` only inside plural branches.
pub proof fn lemma_parsed_hash_placed(s: Seq<char>)
    ensures
        parse_spec(s) matches Ok(ps) ==> hash_placed(ps, false),
{
    lemma_parse_msg_hash_placed(s, 0, false, false);
}

/// `m` is what parsing the template `s` gives.
pub open spec fn parses_to(s: Seq<char>, m: Message) -> bool {
    parse_spec(s) matches Ok(ps) && built_from(m, ps)
}

fn text_end_at(s: &Vec<char>, i: usize, nested: bool, in_plural: bool) -> (r: usize)
    requires
        i <= s@.len(),
    ensures
        r == text_end(s@, i as int, nested, in_plural),
{
    let mut j = i;
    while j < s.len() && !(s[j] == '{' || (nested && s[j] == '}') || (in_plural && s[j] == '#'))
        invariant
            i <= j <= s@.len(),
            text_end(s@, i as int, nested, in_plural) == text_end(s@, j as int, nested, in_plural),
        decreases s@.len() - j,
    {
        j = j + 1;
    }
    j
}

fn name_end_at(s: &Vec<char>, i: usize) -> (r: usize)
    requires
        i <= s@.len(),
    ensures
        r == name_end(s@, i as int),
{
    let mut j = i;
    while j < s.len() && s[j] != ',' && s[j] != '}'
        invariant
            i <= j <= s@.len(),
            name_end(s@, i as int) == name_end(s@, j as int),
        decreases s@.len() - j,
    {
        j = j + 1;
    }
    j
}

fn ws_end_at(s: &Vec<char>, i: usize) -> (r: usize)
    requires
        i <= s@.len(),
    ensures
        r == ws_end(s@, i as int),
{
    let mut j = i;
    while j < s.len() && (s[j] == ' ' || s[j] == '\t' || s[j] == '\r' || s[j] == '\n')
        invariant
            i <= j <= s@.len(),
            ws_end(s@, i as int) == ws_end(s@, j as int),
        decreases s@.len() - j,
    {
        j = j + 1;
    }
    j
}

fn key_end_at(s: &Vec<char>, i: usize) -> (r: usize)
    requires
        i <= s@.len(),
    ensures
        r == key_end(s@, i as int),
{
    let mut j = i;
    while j < s.len() && !(s[j] == ' ' || s[j] == '\t' || s[j] == '\r' || s[j] == '\n' || s[j]
        == '{' || s[j] == '}')
        invariant
            i <= j <= s@.len(),
            key_end(s@, i as int) == key_end(s@, j as int),
        decreases s@.len() - j,
    {
        j = j + 1;
    }
    j
}

fn same_chars(s: &Vec<char>, from: usize, to: usize, w: &Vec<char>) -> (r: bool)
    requires
        from <= to <= s@.len(),
    ensures
        r == (s@.subrange(from as int, to as int) == w@),
{
    if to - from != w.len() {
        return false;
    }
    let mut k: usize = 0;
    while k < w.len()
        invariant
            to - from == w@.len(),
            from <= to <= s@.len(),
            k <= w@.len(),
            forall|t: int| 0 <= t < k ==> s@[from + t] == w@[t],
        decreases w@.len() - k,
    {
        if s[from + k] != w[k] {
            assert(s@.subrange(from as int, to as int)[k as int] != w@[k as int]);
            return false;
        }
        k = k + 1;
    }
    assert(s@.subrange(from as int, to as int) =~= w@);
    true
}

fn has_word_at(s: &Vec<char>, i: usize, w: &Vec<char>) -> (r: bool)
    requires
        i <= s@.len(),
    ensures
        r == has_word(s@, i as int, w@),
{
    if s.len() - i < w.len() {
        false
    } else {
        same_chars(s, i, i + w.len(), w)
    }
}

proof fn lemma_digits_value_grows(s: Seq<char>, p: int, j: int, e: int)
    requires
        0 <= p <= j <= e <= s.len(),
        forall|k: int| p <= k < e ==> is_digit(s[k]),
    ensures
        digits_value(s, p, j) <= digits_value(s, p, e),
        0 <= digits_value(s, p, j),
    decreases e - p,
{
    if e > p {
        if j < e {
            lemma_digits_value_grows(s, p, j, e - 1);
        }
        lemma_digits_value_grows(s, p, e - 1, e - 1);
    }
}

proof fn lemma_digits_end(s: Seq<char>, i: int)
    requires
        0 <= i <= s.len(),
    ensures
        forall|k: int| i <= k < digits_end(s, i) ==> is_digit(s[k]),
    decreases s.len() - i,
{
    if i < s.len() && is_digit(s[i]) {
        lemma_digits_end(s, i + 1);
    }
}

fn int_at_exec(s: &Vec<char>, p: usize) -> (r: Option<(i64, usize)>)
    requires
        p <= s@.len(),
    ensures
        match int_at(s@, p as int) {
            Some((v, e)) => r == Some((v, e as usize)),
            None => r is None,
        },
{
    let n = s.len();
    let neg = p < n && s[p] == '-';
    let d = if neg {
        p + 1
    } else {
        p
    };
    let ghost e = digits_end(s@, d as int);
    proof {
        lemma_scan_bounds(s@, d as int, false, false);
        lemma_digits_end(s@, d as int);
    }
    let mut j = d;
    let mut mag: u64 = 0;
    while j < n && '0' <= s[j] && s[j] <= '9'
        invariant
            n == s@.len(),
            neg == (0 <= p < s@.len() && s@[p as int] == '-'),
            d == if neg {
                p + 1
            } else {
                p as int
            },
            d <= j <= e <= n,
            e == digits_end(s@, d as int),
            digits_end(s@, j as int) == e,
            forall|k: int| d <= k < e ==> is_digit(s@[k]),
            mag == digits_value(s@, d as int, j as int),
            mag <= 9223372036854775808u64,
        decreases n - j,
    {
        proof {
            lemma_scan_bounds(s@, j + 1, false, false);
        }
        let digit = (s[j] as u32 - 48) as u64;
        assert(digit as int == s@[j as int] as int - 48);
        assert(digits_value(s@, d as int, j + 1) == mag * 10 + digit);
        if mag > 922337203685477580u64 || (mag == 922337203685477580u64 && digit > 8) {
            proof {
                lemma_digits_value_grows(s@, d as int, j as int + 1, e);

            }
            return None;
        }
        mag = mag * 10 + digit;
        j = j + 1;
    }
    if j == d {
        return None;
    }
    if neg {
        if mag == 9223372036854775808u64 {
            Some((i64::MIN, j))
        } else {
            Some((-(mag as i64), j))
        }
    } else if mag > 9223372036854775807u64 {
        None
    } else {
        Some((mag as i64, j))
    }
}

fn closes_at_or_after(s: &Vec<char>, i: usize) -> (r: bool)
    requires
        i <= s@.len(),
    ensures
        r == closes_after(s@, i as int),
{
    let mut j = i;
    while j < s.len()
        invariant
            i <= j <= s@.len(),
            forall|k: int| i <= k < j ==> s@[k] != '}',
        decreases s@.len() - j,
    {
        if s[j] == '}' {
            return true;
        }
        j = j + 1;
    }
    false
}

fn failure_at(s: &Vec<char>, p: usize) -> (r: ParseError)
    requires
        p <= s@.len(),
    ensures
        r == failure(s@, p as int),
{
    if closes_at_or_after(s, p) {
        ParseError::Invalid
    } else {
        ParseError::Incomplete
    }
}

fn offset_at_exec(s: &Vec<char>, b: usize) -> (r: Option<(i64, usize)>)
    requires
        b <= s@.len(),
    ensures
        match offset_at(s@, b as int) {
            Some((v, e)) => r == Some((v, e as usize)),
            None => r is None,
        },
{
    let n = s.len();
    let word = vec!['o', 'f', 'f', 's', 'e', 't', ':'];
    assert(word@ =~= offset_word());
    assert(offset_word().len() == 7);
    if has_word_at(s, b, &word) {
        let c = ws_end_at(s, b + 7);
        proof {
            lemma_scan_bounds(s@, b + 7, false, false);
        }
        int_at_exec(s, c)
    } else {
        Some((0, b))
    }
}

fn plural_key_at_exec(s: &Vec<char>, q: usize) -> (r: Option<(PluralKey, usize)>)
    requires
        q < s@.len(),
    ensures
        match plural_key_at(s@, q as int) {
            Some((key, e)) => r == Some((key, e as usize)),
            None => r is None,
        },
{
    let n = s.len();
    if s[q] == '=' {
        match int_at_exec(s, q + 1) {
            Some((v, e)) => Some((PluralKey::Exact(v), e)),
            None => None,
        }
    } else {
        let k = key_end_at(s, q);
        proof {
            lemma_scan_bounds(s@, q as int, false, false);
        }
        let zero = vec!['z', 'e', 'r', 'o'];
        let one = vec!['o', 'n', 'e'];
        let two = vec!['t', 'w', 'o'];
        let few = vec!['f', 'e', 'w'];
        let many = vec!['m', 'a', 'n', 'y'];
        let other = vec!['o', 't', 'h', 'e', 'r'];
        assert(zero@ =~= seq!['z', 'e', 'r', 'o']);
        assert(one@ =~= seq!['o', 'n', 'e']);
        assert(two@ =~= seq!['t', 'w', 'o']);
        assert(few@ =~= seq!['f', 'e', 'w']);
        assert(many@ =~= seq!['m', 'a', 'n', 'y']);
        assert(other@ =~= other_word());
        let category = if same_chars(s, q, k, &zero) {
            PluralCategory::Zero
        } else if same_chars(s, q, k, &one) {
            PluralCategory::One
        } else if same_chars(s, q, k, &two) {
            PluralCategory::Two
        } else if same_chars(s, q, k, &few) {
            PluralCategory::Few
        } else if same_chars(s, q, k, &many) {
            PluralCategory::Many
        } else if same_chars(s, q, k, &other) {
            PluralCategory::Other
        } else {
            return None;
        };
        Some((PluralKey::Category(category), k))
    }
}

fn chars_of(text: &str) -> (r: Vec<char>)
    ensures
        r@ == text@,
{
    broadcast use vstd::string::group_string_axioms;

    let mut it = text.chars();
    let mut out: Vec<char> = Vec::new();
    loop
        invariant
            out@ + it.remaining() == text@,
            it.obeys_prophetic_iter_laws(),
            it.decrease() is Some,
        ensures
            out@ == text@,
        decreases it.decrease()->0,
    {
        match it.next() {
            Some(c) => {
                out.push(c);
                assert(out@ + it.remaining() =~= text@);
            },
            None => {
                assert(out@ =~= text@);
                break ;
            },
        }
    }
    out
}

proof fn lemma_parts_push(parts: Seq<Format>, ps: Seq<Piece>, f: Format, p: Piece)
    requires
        parts_built(parts, ps),
        denotes(f, p),
    ensures
        parts_built(parts.push(f), ps.push(p)),
{
    assert(parts.push(f).drop_last() =~= parts);
    assert(ps.push(p).drop_last() =~= ps);
}

spec fn joined(done: Seq<Piece>, r: Result<(Seq<Piece>, int), ParseError>) -> Result<
    (Seq<Piece>, int),
    ParseError,
> {
    match r {
        Ok((rest, e)) => Ok((done + rest, e)),
        Err(x) => Err(x),
    }
}

proof fn lemma_joined_step(done: Seq<Piece>, p: Piece, r: Result<(Seq<Piece>, int), ParseError>)
    ensures
        joined(done, prepend(p, r)) == joined(done.push(p), r),
{
    if let Ok((rest, e)) = r {
        assert(done + (seq![p] + rest) =~= done.push(p) + rest);
    }
}

/// Parses the message from `i` on; see `parse_msg`.
fn parse_msg_at(s: &Vec<char>, text: &str, i: usize, nested: bool, in_plural: bool) -> (r: Result<
    (Message, usize),
    ParseError,
>)
    requires
        s@ == text@,
        i <= s@.len(),
    ensures
        match parse_msg(s@, i as int, nested, in_plural) {
            Ok((ps, e)) => r matches Ok((m, e2)) && e2 == e && built_from(m, ps),
            Err(x) => r == Err::<(Message, usize), ParseError>(x),
        },
        r matches Ok((_, e)) ==> i <= e <= s@.len() && (nested ==> e < s@.len() && s@[e as int]
            == '}'),
    decreases s@.len() - i, 2int,
{
    let n = s.len();
    let mut parts: Vec<Format> = Vec::new();
    let mut j: usize = i;
    let ghost mut done: Seq<Piece> = Seq::empty();
    loop
        invariant
            n == s@.len(),
            s@ == text@,
            i <= j <= n,
            parse_msg(s@, i as int, nested, in_plural) == joined(
                done,
                parse_msg(s@, j as int, nested, in_plural),
            ),
            parts_built(parts@, done),
        decreases n - j,
    {
        if j >= n {
            if nested {
                return Err(ParseError::Incomplete);
            }
            assert(done + Seq::<Piece>::empty() =~= done);
            return Ok((Message::new(parts), n));
        }
        if nested && s[j] == '}' {
            assert(done + Seq::<Piece>::empty() =~= done);
            return Ok((Message::new(parts), j));
        }
        if s[j] == '{' {
            match parse_format_at(s, text, j, in_plural) {
                Ok((f, e)) => {
                    let ghost piece = parse_format(s@, j as int, in_plural)->Ok_0.0;
                    proof {
                        lemma_joined_step(done, piece, parse_msg(s@, e as int, nested, in_plural));
                        lemma_parts_push(parts@, done, f, piece);
                        done = done.push(piece);
                    }
                    parts.push(f);
                    j = e;
                },
                Err(x) => {
                    return Err(x);
                },
            }
        } else if in_plural && s[j] == '#' {
            let f = Format::PlaceholderFormat(PlaceholderFormat::new());
            proof {
                lemma_joined_step(done, Piece::Hash, parse_msg(s@, j + 1, nested, in_plural));
                lemma_parts_push(parts@, done, f, Piece::Hash);
                done = done.push(Piece::Hash);
            }
            parts.push(f);
            j = j + 1;
        } else {
            proof {
                lemma_scan_bounds(s@, j + 1, nested, in_plural);
            }
            let k = text_end_at(s, j + 1, nested, in_plural);
            let ghost piece = Piece::Text(s@.subrange(j as int, k as int));
            let f = Format::PlainText(PlainText::new(text.substring_char(j, k)));
            proof {
                lemma_joined_step(done, piece, parse_msg(s@, k as int, nested, in_plural));
                lemma_parts_push(parts@, done, f, piece);
                done = done.push(piece);
            }
            parts.push(f);
            j = k;
        }
    }
}

/// Parses the format that opens at `i`; see `parse_format`.
fn parse_format_at(s: &Vec<char>, text: &str, i: usize, in_plural: bool) -> (r: Result<
    (Format, usize),
    ParseError,
>)
    requires
        s@ == text@,
        i < s@.len(),
    ensures
        match parse_format(s@, i as int, in_plural) {
            Ok((p, e)) => r matches Ok((f, e2)) && e2 == e && denotes(f, p),
            Err(x) => r == Err::<(Format, usize), ParseError>(x),
        },
        r matches Ok((_, e)) ==> i < e <= s@.len(),
    decreases s@.len() - i, 1int,
{
    let n = s.len();
    proof {
        lemma_scan_bounds(s@, i + 1, false, false);
    }
    let j = name_end_at(s, i + 1);
    if j >= n {
        return Err(ParseError::Incomplete);
    }
    if j <= i + 1 {
        return Err(ParseError::Invalid);
    }
    let name = text.substring_char(i + 1, j);
    if s[j] == '}' {
        return Ok((Format::SimpleFormat(SimpleFormat::new(name)), j + 1));
    }
    proof {
        lemma_scan_bounds(s@, j + 1, false, false);
    }
    let k = ws_end_at(s, j + 1);
    let plural_kw = vec!['p', 'l', 'u', 'r', 'a', 'l'];
    let select_kw = vec!['s', 'e', 'l', 'e', 'c', 't'];
    assert(plural_kw@ =~= plural_word());
    assert(select_kw@ =~= select_word());
    let plural = has_word_at(s, k, &plural_kw);
    if !plural && !has_word_at(s, k, &select_kw) {
        return Err(failure_at(s, k));
    }
    proof {
        lemma_scan_bounds(s@, k + 6, false, false);
    }
    let m = ws_end_at(s, k + 6);
    if m < n && s[m] == '}' {
        return Ok((Format::SimpleFormat(SimpleFormat::new(name)), m + 1));
    }
    if !(m < n && s[m] == ',') {
        return Err(failure_at(s, m));
    }
    proof {
        lemma_scan_bounds(s@, m + 1, false, false);
    }
    let b = ws_end_at(s, m + 1);
    if plural {
        let (offset, c) = match offset_at_exec(s, b) {
            Some(found) => found,
            None => {
                return Err(failure_at(s, b));
            },
        };
        proof {
            if has_word(s@, b as int, offset_word()) {
                lemma_scan_bounds(s@, b + 7, false, false);
                lemma_scan_bounds(s@, ws_end(s@, b + 7), false, false);
                lemma_int_at(s@, ws_end(s@, b + 7));
            }
        }
        parse_plural_body_at(s, text, c, name, offset)
    } else {
        parse_select_body_at(s, text, b, name, in_plural)
    }
}

/// Parses the branches of the plural format on `name` with `offset`, from
/// `c` on; see `parse_plural_branches`.
fn parse_plural_body_at(s: &Vec<char>, text: &str, c: usize, name: &str, offset: i64) -> (r: Result<
    (Format, usize),
    ParseError,
>)
    requires
        s@ == text@,
        c <= s@.len(),
    ensures
        match parse_plural_branches(s@, c as int, no_plural_branches()) {
            Ok((pp, e)) => r matches Ok((f, e2)) && e2 == e && denotes(
                f,
                Piece::Plural(name@, offset, pp),
            ),
            Err(x) => r == Err::<(Format, usize), ParseError>(x),
        },
        r matches Ok((_, e)) ==> c < e <= s@.len(),
    decreases s@.len() - c, 0int,
{
    let n = s.len();
    let mut fmt = PluralFormat::new(name, Message::new(Vec::new()));
    fmt.offset(offset);
    let mut has_other = false;
    let ghost mut acc = no_plural_branches();
    let ghost pname = name@;
    let mut p = c;
    loop
        invariant
            n == s@.len(),
            s@ == text@,
            c <= p <= n,
            pname == name@,
            parse_plural_branches(s@, c as int, no_plural_branches())
                == parse_plural_branches(s@, p as int, acc),
            fmt.variable_name@ == pname,
            fmt.offset == offset,
            fmt.classifier == Classifier::EnglishCardinal,
            literals_built(fmt.literals@, acc.literals),
            opt_built(fmt.zero, acc.zero),
            opt_built(fmt.one, acc.one),
            opt_built(fmt.two, acc.two),
            opt_built(fmt.few, acc.few),
            opt_built(fmt.many, acc.many),
            has_other == acc.other is Some,
            acc.other matches Some(o) ==> built_from(fmt.other, o),
        decreases n - p,
    {
        proof {
            lemma_scan_bounds(s@, p as int, false, false);
        }
        let q = ws_end_at(s, p);
        if q >= n {
            return Err(ParseError::Incomplete);
        }
        if s[q] == '}' {
            if has_other {
                return Ok((Format::PluralFormat(fmt), q + 1));
            } else {
                return Err(ParseError::Invalid);
            }
        }
        let (key, a) = match plural_key_at_exec(s, q) {
            Some(found) => found,
            None => {
                return Err(failure_at(s, q));
            },
        };
        proof {
            if s@[q as int] == '=' {
                lemma_int_at(s@, q + 1);
            } else {
                lemma_scan_bounds(s@, q as int, false, false);
            }
            lemma_scan_bounds(s@, a as int, false, false);
        }
        let r = ws_end_at(s, a);
        if r >= n || s[r] != '{' || r < p {
            return Err(failure_at(s, r));
        }
        let (body, e) = match parse_msg_at(s, text, r + 1, true, true) {
            Ok(found) => found,
            Err(x) => {
                return Err(x);
            },
        };
        let ghost body_pieces = parse_msg(s@, r + 1, true, true)->Ok_0.0;
        let ghost before = acc;
        proof {
            acc = with_plural_branch(acc, key, body_pieces);
        }
        match key {
            PluralKey::Exact(v) => {
                let ghost old_lits = fmt.literals@;
                fmt.literal(v, body);
                proof {
                    assert(fmt.literals@.drop_last() =~= old_lits);
                    assert(acc.literals.drop_last() =~= before.literals);
                }
            },
            PluralKey::Category(PluralCategory::Zero) => fmt.zero(body),
            PluralKey::Category(PluralCategory::One) => fmt.one(body),
            PluralKey::Category(PluralCategory::Two) => fmt.two(body),
            PluralKey::Category(PluralCategory::Few) => fmt.few(body),
            PluralKey::Category(PluralCategory::Many) => fmt.many(body),
            PluralKey::Category(PluralCategory::Other) => {
                fmt.other = body;
                has_other = true;
            },
        }
        p = e + 1;
    }
}

/// Parses the branches of the select format on `name`, from `b` on; see
/// `parse_select_branches`.
fn parse_select_body_at(s: &Vec<char>, text: &str, b: usize, name: &str, in_plural: bool) -> (r:
    Result<(Format, usize), ParseError>)
    requires
        s@ == text@,
        b <= s@.len(),
    ensures
        match parse_select_branches(s@, b as int, in_plural, no_select_branches()) {
            Ok((sp, e)) => r matches Ok((f, e2)) && e2 == e && denotes(f, Piece::Select(name@, sp)),
            Err(x) => r == Err::<(Format, usize), ParseError>(x),
        },
        r matches Ok((_, e)) ==> b < e <= s@.len(),
    decreases s@.len() - b, 0int,
{
    let n = s.len();
    let mut fmt = SelectFormat::new(name, Message::new(Vec::new()));
    let mut has_default = false;
    let ghost mut acc = no_select_branches();
    let ghost sname = name@;
    let other = vec!['o', 't', 'h', 'e', 'r'];
    assert(other@ =~= other_word());
    let mut p = b;
    loop
        invariant
            n == s@.len(),
            s@ == text@,
            b <= p <= n,
            sname == name@,
            other@ == other_word(),
            parse_select_branches(s@, b as int, in_plural, no_select_branches())
                == parse_select_branches(s@, p as int, in_plural, acc),
            fmt.variable_name@ == sname,
            mappings_built(fmt.mappings@, acc.mappings),
            has_default == acc.default is Some,
            acc.default matches Some(d) ==> built_from(fmt.default, d),
        decreases n - p,
    {
        proof {
            lemma_scan_bounds(s@, p as int, false, false);
        }
        let q = ws_end_at(s, p);
        if q >= n {
            return Err(ParseError::Incomplete);
        }
        if s[q] == '}' {
            if has_default {
                return Ok((Format::SelectFormat(fmt), q + 1));
            } else {
                return Err(ParseError::Invalid);
            }
        }
        proof {
            lemma_scan_bounds(s@, q as int, false, false);
        }
        let k = key_end_at(s, q);
        proof {
            lemma_scan_bounds(s@, k as int, false, false);
        }
        let r = ws_end_at(s, k);
        if k <= q {
            return Err(failure_at(s, q));
        }
        if r >= n || s[r] != '{' || r < p {
            return Err(failure_at(s, r));
        }
        let (body, e) = match parse_msg_at(s, text, r + 1, true, in_plural) {
            Ok(found) => found,
            Err(x) => {
                return Err(x);
            },
        };
        let ghost body_pieces = parse_msg(s@, r + 1, true, in_plural)->Ok_0.0;
        let ghost key = s@.subrange(q as int, k as int);
        let ghost before = acc;
        proof {
            acc = with_select_branch(acc, key, body_pieces);
        }
        if same_chars(s, q, k, &other) {
            fmt.default = body;
            has_default = true;
        } else {
            fmt.map(text.substring_char(q, k), body);
            proof {
                assert(acc.mappings.drop_last() =~= before.mappings);
            }
        }
        p = e + 1;
    }
}

/// Parses a template into a message.
///
/// Text becomes text nodes; `{name}` a node that renders the argument;
/// `{name, plural, ...}` and `{name, select, ...}` plural and select nodes
/// whose branches are messages parsed by the same rule, `#` in a plural
/// branch standing for the number it was chosen for. A keyword with no
/// branches, `{name, plural}`, renders the argument as it is.
pub fn parse(text: &str) -> (r: Result<Message, ParseError>)
    ensures
        match parse_spec(text@) {
            Ok(pieces) => r matches Ok(m) && built_from(m, pieces),
            Err(e) => r == Err::<Message, ParseError>(e),
        },
{
    let s = chars_of(text);
    match parse_msg_at(&s, text, 0, false, false) {
        Ok((m, _)) => Ok(m),
        Err(x) => Err(x),
    }
}

} // verus!
