use vstd::prelude::*;

use crate::value::{AsValue, Value, ValueView};

verus! {

/// The named arguments of one render call.
///
/// A chain of links, each holding one name and its value and owning the link
/// attached before it. A name attached later shadows the same name attached
/// earlier.
#[derive(Debug)]
pub struct Args {
    /// The name of the argument, as the message refers to it.
    pub name: String,
    /// The value of the argument.
    pub value: Value,
    /// The link attached before this one.
    pub prev: Option<Box<Args>>,
}

/// The arguments of a chain, in the order they were attached.
pub open spec fn chain(a: Args) -> Seq<(Seq<char>, ValueView)>
    decreases a,
{
    match a.prev {
        Some(p) => chain(*p).push((a.name@, a.value@)),
        None => seq![(a.name@, a.value@)],
    }
}

/// The arguments of an optional chain; no chain holds none.
pub open spec fn args_seq(a: Option<&Args>) -> Seq<(Seq<char>, ValueView)> {
    match a {
        Some(a) => chain(*a),
        None => Seq::empty(),
    }
}

/// The value of the argument `name` attached last, if any.
pub open spec fn lookup(args: Seq<(Seq<char>, ValueView)>, name: Seq<char>) -> Option<ValueView>
    decreases args.len(),
{
    if args.len() == 0 {
        None
    } else if args.last().0 == name {
        Some(args.last().1)
    } else {
        lookup(args.drop_last(), name)
    }
}

impl View for Args {
    type V = Seq<(Seq<char>, ValueView)>;

    open spec fn view(&self) -> Seq<(Seq<char>, ValueView)> {
        chain(*self)
    }
}

/// Creates a chain holding one argument.
pub fn arg<T: AsValue>(name: &str, value: T) -> (r: Args)
    ensures
        r@ == seq![(name@, value.value_view())],
{
    Args { name: name.to_owned(), value: value.as_value(), prev: None }
}

impl Args {
    /// Attaches one more argument to this chain.
    pub fn arg<T: AsValue>(self, name: &str, value: T) -> (r: Args)
        ensures
            r@ == self@.push((name@, value.value_view())),
    {
        Args { name: name.to_owned(), value: value.as_value(), prev: Some(Box::new(self)) }
    }

    pub(crate) fn find(&self, name: &String) -> (r: Option<&Args>)
        ensures
            match r {
                Some(a) => a.name@ == name@ && lookup(self@, name@) == Some(a.value@),
                None => lookup(self@, name@) is None,
            },
        decreases self,
    {
        assert(self@.len() > 0 && self@.last() == (self.name@, self.value@));
        if self.name == *name {
            Some(self)
        } else {
            match &self.prev {
                Some(p) => {
                    assert(self@.drop_last() =~= p@);
                    p.find(name)
                },
                None => {
                    assert(self@.drop_last() =~= Seq::empty());
                    assert(lookup(self@.drop_last(), name@) is None);
                    None
                },
            }
        }
    }

    /// The link that holds the argument `name` attached last, if any.
    pub fn get(&self, name: &str) -> (r: Option<&Args>)
        ensures
            match r {
                Some(a) => a.name@ == name@ && lookup(self@, name@) == Some(a.value@),
                None => lookup(self@, name@) is None,
            },
    {
        let key = name.to_owned();
        self.find(&key)
    }

    /// The value held by this link.
    pub fn value(&self) -> (r: &Value)
        ensures
            *r == self.value,
    {
        &self.value
    }
}

} // verus!
