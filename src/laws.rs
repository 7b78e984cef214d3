use vstd::prelude::*;

use crate::args::lookup;
use crate::icu::{
    built_from, denotes, hash_placed, lemma_parsed_hash_placed, literals_built,
    literals_hash_placed, mappings_built, mappings_hash_placed, name_end, parse_format, parse_msg,
    parse_spec, parses_to, parts_built, piece_hash_placed, text_end, ParseError, Piece,
};
use crate::message::{
    lemma_literal_index, lemma_select_index, literal_index, plural_branch, render_format,
    render_message, render_parts, select_branch, select_index, FormatError, Format, Message,
    PluralFormat, PluralMapping, SelectFormat, SelectMapping,
};
use crate::value::ValueView;

verus! {

/// The characters of `name`.
pub open spec fn name_word() -> Seq<char> {
    seq!['n', 'a', 'm', 'e']
}

/// The template `{name}`.
pub open spec fn name_template() -> Seq<char> {
    seq!['{', 'n', 'a', 'm', 'e', '}']
}

proof fn lemma_text_end_without_brace(s: Seq<char>, i: int)
    requires
        0 <= i <= s.len(),
        forall|k: int| 0 <= k < s.len() ==> s[k] != '{',
    ensures
        text_end(s, i, false, false) == s.len(),
    decreases s.len() - i,
{
    if i < s.len() {
        lemma_text_end_without_brace(s, i + 1);
    }
}

proof fn lemma_name_template_parses(m: Message)
    requires
        parses_to(name_template(), m),
    ensures
        m.parts@.len() == 1,
        m.parts@[0] matches Format::SimpleFormat(x) && x.variable_name@ == name_word(),
{
    let t = name_template();
    assert(name_end(t, 5) == 5);
    assert(name_end(t, 4) == 5);
    assert(name_end(t, 3) == 5);
    assert(name_end(t, 2) == 5);
    assert(name_end(t, 1) == 5);
    assert(t.subrange(1, 5) =~= name_word());
    assert(parse_format(t, 0, false) == Ok::<(Piece, int), ParseError>(
        (Piece::Var(name_word()), 6),
    ));
    assert(parse_msg(t, 6, false, false) == Ok::<(Seq<Piece>, int), ParseError>(
        (Seq::empty(), 6),
    ));
    assert(seq![Piece::Var(name_word())] + Seq::<Piece>::empty() =~= seq![Piece::Var(name_word())]);
    assert(parse_spec(t) == Ok::<Seq<Piece>, ParseError>(seq![Piece::Var(name_word())]));
    let ps = seq![Piece::Var(name_word())];
    assert(parts_built(m.parts@, ps));
    assert(m.parts@.last() == m.parts@[0]);
}

proof fn lemma_single_part(f: Format, ph: Option<i64>, args: Seq<(Seq<char>, ValueView)>)
    ensures
        render_parts(seq![f], ph, args) == match render_format(f, ph, args) {
            Ok(t) => Ok(t),
            Err(e) => Err::<Seq<char>, FormatError>(e),
        },
{
    let parts = seq![f];
    assert(render_parts(parts.subrange(0, 0), ph, args) == Ok::<Seq<char>, FormatError>(
        Seq::empty(),
    ));
    assert(parts[0] == f);
    if let Ok(t) = render_format(f, ph, args) {
        assert(Seq::<char>::empty() + t =~= t);
    }
}

/// A template without `{` renders as its own text, whatever the arguments
/// and the placeholder value.
pub proof fn law_plain_template_renders_unchanged(
    text: Seq<char>,
    m: Message,
    ph: Option<i64>,
    args: Seq<(Seq<char>, ValueView)>,
)
    requires
        forall|i: int| 0 <= i < text.len() ==> text[i] != '{',
        parses_to(text, m),
    ensures
        render_message(m, ph, args) == Ok::<Seq<char>, FormatError>(text),
{
    if text.len() == 0 {
        assert(m.parts@.len() == 0);
        assert(text =~= Seq::<char>::empty());
    } else {
        lemma_text_end_without_brace(text, 1);
        assert(text.subrange(0, text.len() as int) =~= text);
        assert(parse_msg(text, text.len() as int, false, false) == Ok::<
            (Seq<Piece>, int),
            ParseError,
        >((Seq::empty(), text.len() as int)));
        assert(seq![Piece::Text(text)] + Seq::<Piece>::empty() =~= seq![Piece::Text(text)]);
        assert(parse_spec(text) == Ok::<Seq<Piece>, ParseError>(seq![Piece::Text(text)]));
        let ps = seq![Piece::Text(text)];
        assert(parts_built(m.parts@, ps));
        assert(m.parts@.last() == m.parts@[0]);
        assert(denotes(m.parts@[0], Piece::Text(text)));
        assert(m.parts@ =~= seq![m.parts@[0]]);
        lemma_single_part(m.parts@[0], ph, args);
    }
}

/// Rendering the template `{name}` with `name` bound to a string `s`
/// free of braces gives exactly `s`.
pub proof fn law_single_reference_renders_argument(
    s: Seq<char>,
    m: Message,
    ph: Option<i64>,
)
    requires
        forall|i: int| 0 <= i < s.len() ==> s[i] != '{' && s[i] != '}',
        parses_to(name_template(), m),
    ensures
        render_message(m, ph, seq![(name_word(), ValueView::Str(s))]) == Ok::<
            Seq<char>,
            FormatError,
        >(s),
{
    let args = seq![(name_word(), ValueView::Str(s))];
    lemma_name_template_parses(m);
    assert(lookup(args, name_word()) == Some(ValueView::Str(s)));
    assert(m.parts@ =~= seq![m.parts@[0]]);
    lemma_single_part(m.parts@[0], ph, args);
}

/// Rendering the template `{name}` with no argument `name` fails with
/// `MissingArgument`.
pub proof fn law_missing_argument(m: Message, ph: Option<i64>, args: Seq<(Seq<char>, ValueView)>)
    requires
        parses_to(name_template(), m),
        lookup(args, name_word()) is None,
    ensures
        render_message(m, ph, args) == Err::<Seq<char>, FormatError>(FormatError::MissingArgument),
{
    lemma_name_template_parses(m);
    assert(m.parts@ =~= seq![m.parts@[0]]);
    lemma_single_part(m.parts@[0], ph, args);
}

/// Every argument that the pieces read is supplied, with a value of the
/// kind its format reads: any value for a reference, a number for a plural
/// (which its offset keeps in the 64-bit range), a string for a select.
pub open spec fn supplied(ps: Seq<Piece>, args: Seq<(Seq<char>, ValueView)>) -> bool
    decreases ps, 1int,
{
    ps.len() > 0 ==> {
        &&& supplied(ps.drop_last(), args)
        &&& piece_supplied(ps.last(), args)
    }
}

pub open spec fn piece_supplied(p: Piece, args: Seq<(Seq<char>, ValueView)>) -> bool
    decreases p, 0int,
{
    match p {
        Piece::Var(n) => lookup(args, n) is Some,
        Piece::Plural(n, off, pp) => {
            &&& lookup(args, n) is Some
            &&& lookup(args, n)->Some_0 is Number
            &&& i64::MIN <= lookup(args, n)->Some_0->Number_0 - off <= i64::MAX
            &&& literals_supplied(pp.literals, args)
            &&& opt_supplied(pp.zero, args)
            &&& opt_supplied(pp.one, args)
            &&& opt_supplied(pp.two, args)
            &&& opt_supplied(pp.few, args)
            &&& opt_supplied(pp.many, args)
            &&& opt_supplied(pp.other, args)
        },
        Piece::Select(n, sp) => {
            &&& lookup(args, n) is Some
            &&& lookup(args, n)->Some_0 is Str
            &&& mappings_supplied(sp.mappings, args)
            &&& opt_supplied(sp.default, args)
        },
        _ => true,
    }
}

pub open spec fn literals_supplied(
    ls: Seq<(i64, Seq<Piece>)>,
    args: Seq<(Seq<char>, ValueView)>,
) -> bool
    decreases ls, 1int,
{
    ls.len() > 0 ==> {
        &&& literals_supplied(ls.drop_last(), args)
        &&& supplied(ls.last().1, args)
    }
}

pub open spec fn mappings_supplied(
    ks: Seq<(Seq<char>, Seq<Piece>)>,
    args: Seq<(Seq<char>, ValueView)>,
) -> bool
    decreases ks, 1int,
{
    ks.len() > 0 ==> {
        &&& mappings_supplied(ks.drop_last(), args)
        &&& supplied(ks.last().1, args)
    }
}

pub open spec fn opt_supplied(o: Option<Seq<Piece>>, args: Seq<(Seq<char>, ValueView)>) -> bool
    decreases o, 1int,
{
    match o {
        Some(b) => supplied(b, args),
        None => true,
    }
}

proof fn lemma_literal_at(
    ms: Seq<PluralMapping>,
    ls: Seq<(i64, Seq<Piece>)>,
    args: Seq<(Seq<char>, ValueView)>,
    i: int,
)
    requires
        literals_built(ms, ls),
        literals_supplied(ls, args),
        literals_hash_placed(ls),
        0 <= i < ls.len(),
    ensures
        built_from(ms[i].message, ls[i].1),
        supplied(ls[i].1, args),
        hash_placed(ls[i].1, true),
    decreases ls.len(),
{
    if i < ls.len() - 1 {
        lemma_literal_at(ms.drop_last(), ls.drop_last(), args, i);
        assert(ms.drop_last()[i] == ms[i]);
        assert(ls.drop_last()[i] == ls[i]);
    }
}

proof fn lemma_mapping_at(
    ms: Seq<SelectMapping>,
    ks: Seq<(Seq<char>, Seq<Piece>)>,
    args: Seq<(Seq<char>, ValueView)>,
    in_plural: bool,
    i: int,
)
    requires
        mappings_built(ms, ks),
        mappings_supplied(ks, args),
        mappings_hash_placed(ks, in_plural),
        0 <= i < ks.len(),
    ensures
        built_from(ms[i].message, ks[i].1),
        supplied(ks[i].1, args),
        hash_placed(ks[i].1, in_plural),
    decreases ks.len(),
{
    if i < ks.len() - 1 {
        lemma_mapping_at(ms.drop_last(), ks.drop_last(), args, in_plural, i);
        assert(ms.drop_last()[i] == ms[i]);
        assert(ks.drop_last()[i] == ks[i]);
    }
}

proof fn lemma_message_renders(
    m: Message,
    ps: Seq<Piece>,
    ph: Option<i64>,
    args: Seq<(Seq<char>, ValueView)>,
    in_plural: bool,
)
    requires
        built_from(m, ps),
        supplied(ps, args),
        hash_placed(ps, in_plural),
        in_plural ==> ph is Some,
    ensures
        render_message(m, ph, args) is Ok,
    decreases ps, 2int,
{
    lemma_parts_render(m.parts@, ps, ph, args, in_plural);
}

proof fn lemma_parts_render(
    parts: Seq<Format>,
    ps: Seq<Piece>,
    ph: Option<i64>,
    args: Seq<(Seq<char>, ValueView)>,
    in_plural: bool,
)
    requires
        parts_built(parts, ps),
        supplied(ps, args),
        hash_placed(ps, in_plural),
        in_plural ==> ph is Some,
    ensures
        render_parts(parts, ph, args) is Ok,
    decreases ps, 1int,
{
    if ps.len() > 0 {
        lemma_parts_render(parts.drop_last(), ps.drop_last(), ph, args, in_plural);
        lemma_format_renders(parts.last(), ps.last(), ph, args, in_plural);
        assert(parts.subrange(0, parts.len() - 1) =~= parts.drop_last());
    }
}

proof fn lemma_format_renders(
    f: Format,
    p: Piece,
    ph: Option<i64>,
    args: Seq<(Seq<char>, ValueView)>,
    in_plural: bool,
)
    requires
        denotes(f, p),
        piece_supplied(p, args),
        piece_hash_placed(p, in_plural),
        in_plural ==> ph is Some,
    ensures
        render_format(f, ph, args) is Ok,
    decreases p, 0int,
{
    match p {
        Piece::Plural(n, off, pp) => {
            let x = f->PluralFormat_0;
            let v = lookup(args, n)->Some_0->Number_0;
            let ov = (v - off) as i64;
            lemma_literal_index(x.literals@, ov);
            match literal_index(x.literals@, ov) {
                Some(i) => {
                    lemma_literal_at(x.literals@, pp.literals, args, i);
                    lemma_message_renders(
                        x.literals@[i].message,
                        pp.literals[i].1,
                        Some(ov),
                        args,
                        true,
                    );
                },
                None => {
                    if ov == 1 && x.one is Some {
                        lemma_message_renders(x.one->0, pp.one->0, Some(ov), args, true);
                    } else {
                        lemma_message_renders(x.other, pp.other->0, Some(ov), args, true);
                    }
                },
            }
        },
        Piece::Select(n, sp) => {
            let x = f->SelectFormat_0;
            let v = lookup(args, n)->Some_0->Str_0;
            lemma_select_index(x.mappings@, v);
            match select_index(x.mappings@, v) {
                Some(i) => {
                    lemma_mapping_at(x.mappings@, sp.mappings, args, in_plural, i);
                    lemma_message_renders(
                        x.mappings@[i].message,
                        sp.mappings[i].1,
                        ph,
                        args,
                        in_plural,
                    );
                },
                None => {
                    lemma_message_renders(x.default, sp.default->0, ph, args, in_plural);
                },
            }
        },
        _ => {},
    }
}

/// Rendering a parsed template never fails when every argument it refers
/// to is supplied with a value of the kind its format reads, whatever the
/// placeholder value.
pub proof fn law_supplied_arguments_render(
    text: Seq<char>,
    pieces: Seq<Piece>,
    m: Message,
    ph: Option<i64>,
    args: Seq<(Seq<char>, ValueView)>,
)
    requires
        parse_spec(text) == Ok::<Seq<Piece>, ParseError>(pieces),
        built_from(m, pieces),
        supplied(pieces, args),
    ensures
        render_message(m, ph, args) is Ok,
{
    lemma_parsed_hash_placed(text);
    lemma_message_renders(m, pieces, ph, args, false);
}

/// A literal branch registered for a value is the branch rendered for it,
/// whatever category branches are set; of two for the same value, the one
/// registered last.
pub proof fn law_literal_precedence(p: PluralFormat, v: i64, i: int)
    requires
        0 <= i < p.literals@.len(),
        p.literals@[i].value == v,
        forall|j: int| i < j < p.literals@.len() ==> p.literals@[j].value != v,
    ensures
        plural_branch(p, v) == p.literals@[i].message,
{
    lemma_literal_index(p.literals@, v);
}

/// A select node renders the branch mapped to the exact value, the one
/// mapped last where there are several, and its `default` for a value
/// mapped to nothing.
pub proof fn law_select_fallback(s: SelectFormat, v: Seq<char>)
    ensures
        (forall|j: int| 0 <= j < s.mappings@.len() ==> s.mappings@[j].value@ != v)
            ==> select_branch(s, v) == s.default,
        forall|i: int|
            0 <= i < s.mappings@.len() && s.mappings@[i].value@ == v && (forall|j: int|
                i < j < s.mappings@.len() ==> s.mappings@[j].value@ != v) ==> select_branch(s, v)
                == #[trigger] s.mappings@[i].message,
{
    lemma_select_index(s.mappings@, v);
}

} // verus!
