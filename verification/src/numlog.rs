//! The log of the questions that the interpreter puts to its number domain.
use vstd::prelude::*;

use crate::value::{Ans, Number, Op};

verus! {

/// The questions put to the number domain and its answers, in order. It
/// exists only for the proofs.
#[derive(Clone)]
pub struct NumLog<N> {
    entries: Ghost<Seq<Ans<N>>>,
}

impl<N> NumLog<N> {
    /// The entries of the log, oldest first. Only the methods of `NumLog`
    /// add to it, each after putting its question to the number domain.
    pub closed spec fn entries(&self) -> Seq<Ans<N>> {
        self.entries@
    }
}

impl<N: Number> NumLog<N> {
    /// An empty log.
    pub fn new() -> (l: Self)
        ensures
            l.entries() == Seq::<Ans<N>>::empty(),
    {
        NumLog { entries: Ghost(Seq::empty()) }
    }

    /// `a op b`, logged.
    pub fn arith(&mut self, op: Op, a: &N, b: &N) -> (r: N)
        ensures
            final(self).entries() == old(self).entries().push(Ans::Arith(op, *a, *b, r)),
    {
        let r = match op {
            Op::Plus => a.plus(b),
            Op::Minus => a.minus(b),
            Op::Times => a.times(b),
            Op::Divided => a.divided(b),
            Op::DivEuclid => a.div_euclid(b),
            Op::Remainder => a.remainder(b),
        };
        proof {
            self.entries@ = self.entries@.push(Ans::Arith(op, *a, *b, r));
        }
        r
    }

    /// The additive (`false`) or multiplicative (`true`) unit, logged.
    pub fn unit(&mut self, one: bool) -> (r: N)
        ensures
            final(self).entries() == old(self).entries().push(Ans::Unit(one, r)),
    {
        let r = if one {
            N::one()
        } else {
            N::zero()
        };
        proof {
            self.entries@ = self.entries@.push(Ans::Unit(one, r));
        }
        r
    }

    /// The number of a count, logged.
    pub fn from_count(&mut self, n: usize) -> (r: N)
        ensures
            final(self).entries() == old(self).entries().push(Ans::Count(n, r)),
    {
        let r = N::from_count(n);
        proof {
            self.entries@ = self.entries@.push(Ans::Count(n, r));
        }
        r
    }

    /// Whether `a < b`, logged.
    pub fn less(&mut self, a: &N, b: &N) -> (r: bool)
        ensures
            final(self).entries() == old(self).entries().push(Ans::Less(*a, *b, r)),
    {
        let r = a.less(b);
        proof {
            self.entries@ = self.entries@.push(Ans::Less(*a, *b, r));
        }
        r
    }

    /// Whether `a == b`, logged.
    pub fn same(&mut self, a: &N, b: &N) -> (r: bool)
        ensures
            final(self).entries() == old(self).entries().push(Ans::Same(*a, *b, r)),
    {
        let r = a.same(b);
        proof {
            self.entries@ = self.entries@.push(Ans::Same(*a, *b, r));
        }
        r
    }

    /// Whether `a` is zero, logged.
    pub fn is_zero(&mut self, a: &N) -> (r: bool)
        ensures
            final(self).entries() == old(self).entries().push(Ans::IsZero(*a, r)),
    {
        let r = a.is_zero();
        proof {
            self.entries@ = self.entries@.push(Ans::IsZero(*a, r));
        }
        r
    }

    /// The index that `a` denotes, logged.
    pub fn to_index(&mut self, a: &N) -> (r: usize)
        ensures
            final(self).entries() == old(self).entries().push(Ans::Index(*a, r)),
    {
        let r = a.to_index();
        proof {
            self.entries@ = self.entries@.push(Ans::Index(*a, r));
        }
        r
    }

    /// The byte that `a` denotes, logged.
    pub fn to_byte(&mut self, a: &N) -> (r: Option<u8>)
        ensures
            final(self).entries() == old(self).entries().push(Ans::Byte(*a, r)),
    {
        let r = a.to_byte();
        proof {
            self.entries@ = self.entries@.push(Ans::Byte(*a, r));
        }
        r
    }

    /// The printed form of `a`, logged.
    pub fn render(&mut self, a: &N) -> (r: String)
        ensures
            final(self).entries() == old(self).entries().push(Ans::Text(*a, r@)),
    {
        let r = a.render();
        proof {
            self.entries@ = self.entries@.push(Ans::Text(*a, r@));
        }
        r
    }

    /// The number that `text` is a literal of, if any, logged.
    pub fn parse_num(&mut self, text: &str) -> (r: Option<N>)
        ensures
            final(self).entries() == old(self).entries().push(Ans::Parsed(text@, r)),
    {
        let r = N::parse_num(text);
        proof {
            self.entries@ = self.entries@.push(Ans::Parsed(text@, r));
        }
        r
    }
}

} // verus!
