//! Which series a figure is made from.
use crate::key::{KeyView, SeriesKey};
use crate::metrics::Sample;
use crate::num::Num;
use crate::text::same;
use vstd::prelude::*;

verus! {

/// Selects the series of a family, or those of them that carry a label.
#[derive(Clone, Copy)]
pub struct Selector<'a> {
    pub name: &'a str,
    pub label: Option<(&'a str, &'a str)>,
}

pub struct Choice {
    pub name: Seq<char>,
    pub label: Option<(Seq<char>, Seq<char>)>,
}

impl<'a> View for Selector<'a> {
    type V = Choice;

    open spec fn view(&self) -> Choice {
        Choice {
            name: self.name@,
            label: match self.label {
                Some((k, v)) => Some((k@, v@)),
                None => None,
            },
        }
    }
}

impl Choice {
    pub open spec fn of(name: &str) -> Choice {
        Choice { name: name@, label: None }
    }

    pub open spec fn labeled(name: &str, k: &str, v: &str) -> Choice {
        Choice { name: name@, label: Some((k@, v@)) }
    }

    pub open spec fn takes(self, k: KeyView) -> bool {
        k.name == self.name && match self.label {
            Some((lk, lv)) => k.labeled(lk, lv),
            None => true,
        }
    }

    /// Whether one of the series is selected.
    pub open spec fn in_sample(self, s: Seq<(KeyView, Num)>) -> bool {
        exists|i: int| 0 <= i < s.len() && self.takes((#[trigger] s[i]).0)
    }

    /// The value of the first selected series.
    pub open spec fn first_of(self, s: Seq<(KeyView, Num)>) -> Option<Num>
        decreases s.len(),
    {
        if s.len() == 0 {
            None
        } else if self.takes(s[0].0) {
            Some(s[0].1)
        } else {
            self.first_of(s.drop_first())
        }
    }
}

/// Selects every series of a family.
pub fn fam<'a>(name: &'a str) -> (r: Selector<'a>)
    ensures
        r@ == Choice::of(name),
{
    Selector { name, label: None }
}

/// Selects the series of a family with the label `lk="lv"`.
pub fn fam_labeled<'a>(name: &'a str, lk: &'a str, lv: &'a str) -> (r: Selector<'a>)
    ensures
        r@ == Choice::labeled(name, lk, lv),
{
    Selector { name, label: Some((lk, lv)) }
}

impl<'a> Selector<'a> {
    pub fn accepts(self, k: &SeriesKey) -> (r: bool)
        ensures
            r == self@.takes(k@),
    {
        same(k.name.as_str(), self.name) && match self.label {
            Some((lk, lv)) => k.has_label(lk, lv),
            None => true,
        }
    }

    /// Whether the sample carries a selected series.
    pub fn is_in(self, s: &Sample) -> (r: bool)
        ensures
            r == self@.in_sample(s@.simple),
    {
        let mut i: usize = 0;
        while i < s.simple.entries.len()
            invariant
                i <= s.simple.entries.len(),
                forall|j: int| 0 <= j < i ==> !self@.takes((#[trigger] s@.simple[j]).0),
            decreases s.simple.entries.len() - i,
        {
            if self.accepts(&s.simple.entries[i].0) {
                proof {
                    assert(self@.takes(s@.simple[i as int].0));
                }
                return true;
            }
            i = i + 1;
        }
        false
    }

    /// The value of the first selected series.
    pub fn first_in(self, s: &Sample) -> (r: Option<Num>)
        ensures
            r == self@.first_of(s@.simple),
    {
        let mut i: usize = 0;
        proof {
            assert(s@.simple.skip(0) =~= s@.simple);
        }
        while i < s.simple.entries.len()
            invariant
                i <= s.simple.entries.len(),
                self@.first_of(s@.simple) == self@.first_of(s@.simple.skip(i as int)),
            decreases s.simple.entries.len() - i,
        {
            if self.accepts(&s.simple.entries[i].0) {
                return Some(s.simple.entries[i].1);
            }
            proof {
                assert(s@.simple.skip(i as int).drop_first() =~= s@.simple.skip(i + 1));
            }
            i = i + 1;
        }
        None
    }
}

/// A selection has a first value exactly where the sample carries one of its
/// series.
pub proof fn law_first_where_carried(c: Choice, s: Seq<(KeyView, Num)>)
    ensures
        c.first_of(s) is Some <==> c.in_sample(s),
    decreases s.len(),
{
    if s.len() > 0 {
        law_first_where_carried(c, s.drop_first());
        if c.takes(s[0].0) {
        } else if c.in_sample(s.drop_first()) {
            let i = choose|i: int|
                0 <= i < s.drop_first().len() && c.takes((#[trigger] s.drop_first()[i]).0);
            assert(c.takes(s[i + 1].0));
        } else if c.in_sample(s) {
            let i = choose|i: int| 0 <= i < s.len() && c.takes((#[trigger] s[i]).0);
            assert(c.takes(s.drop_first()[i - 1].0));
        }
    }
}

} // verus!
