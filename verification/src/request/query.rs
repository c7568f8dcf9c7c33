//! The query of a request: names and values in the order they were added.

use vstd::prelude::*;

verus! {

/// The decimal digit of `d`.
pub open spec fn digit(d: nat) -> char {
    if d == 0 {
        '0'
    } else if d == 1 {
        '1'
    } else if d == 2 {
        '2'
    } else if d == 3 {
        '3'
    } else if d == 4 {
        '4'
    } else if d == 5 {
        '5'
    } else if d == 6 {
        '6'
    } else if d == 7 {
        '7'
    } else if d == 8 {
        '8'
    } else {
        '9'
    }
}

/// The decimal notation of `n`, without leading zeros.
pub open spec fn decimal(n: nat) -> Seq<char>
    decreases n,
{
    if n < 10 {
        seq![digit(n)]
    } else {
        decimal(n / 10).push(digit(n % 10))
    }
}

/// Calls `ToString::to_string` on a `u64`. The contract claims what std
/// documents of formatting an unsigned integer: the string is the decimal
/// notation of the number.
#[verifier::external_body]
pub(crate) fn decimal_string(n: u64) -> (r: String)
    ensures
        r@ == decimal(n as nat),
{
    n.to_string()
}

/// The parameters of a request.
#[derive(Debug, Clone, PartialEq, Eq)]
pub struct Query {
    pairs: Vec<(&'static str, String)>,
}

impl View for Query {
    type V = Seq<(Seq<char>, Seq<char>)>;

    /// The names and values, in the order they were added.
    closed spec fn view(&self) -> Seq<(Seq<char>, Seq<char>)> {
        Seq::new(self.pairs@.len(), |i: int| (self.pairs@[i].0@, self.pairs@[i].1@))
    }
}

impl Query {
    /// The query without parameters.
    pub fn new() -> (r: Self)
        ensures
            r@ == Seq::<(Seq<char>, Seq<char>)>::empty(),
    {
        let r = Query { pairs: Vec::new() };
        assert(r@ =~= Seq::<(Seq<char>, Seq<char>)>::empty());
        r
    }

    /// Adds the parameter `key` with the value `value` behind the others.
    pub fn push(&mut self, key: &'static str, value: String)
        ensures
            final(self)@ == old(self)@.push((key@, value@)),
    {
        self.pairs.push((key, value));
        assert(self@ =~= old(self)@.push((key@, value@)));
    }

    /// The number of parameters.
    pub fn len(&self) -> (r: usize)
        ensures
            r == self@.len(),
    {
        self.pairs.len()
    }

    /// The name of parameter `index`.
    pub fn key(&self, index: usize) -> (r: &'static str)
        requires
            index < self@.len(),
        ensures
            r@ == self@[index as int].0,
    {
        self.pairs[index].0
    }

    /// The value of parameter `index`.
    pub fn value(&self, index: usize) -> (r: &str)
        requires
            index < self@.len(),
        ensures
            r@ == self@[index as int].1,
    {
        self.pairs[index].1.as_str()
    }
}

} // verus!
