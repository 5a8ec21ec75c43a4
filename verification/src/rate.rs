//! Counters between two scrapes.
use crate::key::KeyView;
use crate::keymap;
use crate::metrics::Sample;
use crate::num;
use crate::num::{num, Calc, Model, Num, ZERO};
use crate::select::{fam_labeled, Choice, Selector};
use vstd::prelude::*;

verus! {

/// How far a counter moved. A value that dropped is a restart: the counter
/// moved from zero.
pub open spec fn delta_of(m: Model, old: Num, new: Num) -> Num {
    if new.below(old) {
        new
    } else {
        m(Calc::Difference(new, old))
    }
}

pub fn counter_delta<C: Fn(Calc) -> Num + Copy>(old: Num, new: Num, calc: C) -> (r: Num)
    requires
        num::total(calc),
    ensures
        forall|m: Model| #[trigger] num::models(calc, m) ==> r == delta_of(m, old, new),
{
    if new.is_below(old) {
        new
    } else {
        calc(Calc::Difference(new, old))
    }
}

/// How far the selected counters moved, added up in key order. A series that
/// the earlier scrape lacks is new: it is never paired with anything, so it
/// adds nothing.
pub open spec fn moved(
    m: Model,
    c: Choice,
    old: Seq<(KeyView, Num)>,
    new: Seq<(KeyView, Num)>,
) -> Num
    decreases new.len(),
{
    if new.len() == 0 {
        num(ZERO)
    } else {
        let d = moved(m, c, old, new.drop_last());
        let (k, v) = new.last();
        match keymap::lookup(old, k) {
            Some(o) => if c.takes(k) {
                m(Calc::Sum(d, delta_of(m, o, v)))
            } else {
                d
            },
            None => d,
        }
    }
}

pub fn interval_delta<C: Fn(Calc) -> Num + Copy>(
    old: &Sample,
    new: &Sample,
    sel: Selector,
    calc: C,
) -> (r: Num)
    requires
        num::total(calc),
        old.wf(),
    ensures
        forall|m: Model| #[trigger]
            num::models(calc, m) ==> r == moved(m, sel@, old@.simple, new@.simple),
{
    let mut delta = num(ZERO);
    let mut i: usize = 0;
    while i < new.simple.entries.len()
        invariant
            i <= new.simple.entries.len(),
            num::total(calc),
            old.wf(),
            forall|m: Model| #[trigger]
                num::models(calc, m) ==> delta == moved(
                    m,
                    sel@,
                    old@.simple,
                    new@.simple.take(i as int),
                ),
        decreases new.simple.entries.len() - i,
    {
        proof {
            assert(new@.simple.take(i + 1).drop_last() =~= new@.simple.take(i as int));
            assert(new@.simple.take(i + 1).last() == new@.simple[i as int]);
        }
        if sel.accepts(&new.simple.entries[i].0) {
            if let Some(v_old) = old.simple.get(&new.simple.entries[i].0) {
                let d = counter_delta(*v_old, new.simple.entries[i].1, calc);
                delta = calc(Calc::Sum(delta, d));
            }
        }
        i = i + 1;
    }
    proof {
        assert(new@.simple.take(new@.simple.len() as int) =~= new@.simple);
    }
    delta
}

/// The token counters of one kind of work.
pub open spec fn tokens(mode: Seq<char>) -> Choice {
    Choice { name: "sglang:realtime_tokens_total"@, label: Some(("mode"@, mode)) }
}

/// How many tokens of one kind of work were counted between two scrapes.
pub fn interval_rate<C: Fn(Calc) -> Num + Copy>(
    old: &Sample,
    new: &Sample,
    mode: &str,
    calc: C,
) -> (r: Num)
    requires
        num::total(calc),
        old.wf(),
    ensures
        forall|m: Model| #[trigger]
            num::models(calc, m) ==> r == moved(m, tokens(mode@), old@.simple, new@.simple),
{
    interval_delta(old, new, fam_labeled("sglang:realtime_tokens_total", "mode", mode), calc)
}

/// Counters that only the later scrape carries move nothing.
pub proof fn law_new_series_move_nothing(
    m: Model,
    c: Choice,
    old: Seq<(KeyView, Num)>,
    new: Seq<(KeyView, Num)>,
)
    requires
        forall|i: int|
            0 <= i < new.len() && c.takes((#[trigger] new[i]).0) ==> keymap::lookup(old, new[i].0) is None,
    ensures
        moved(m, c, old, new) == num(ZERO),
    decreases new.len(),
{
    if new.len() > 0 {
        let t = new.drop_last();
        assert forall|i: int| 0 <= i < t.len() && c.takes((#[trigger] t[i]).0) implies keymap::lookup(
            old,
            t[i].0,
        ) is None by {
            assert(t[i] == new[i]);
        }
        law_new_series_move_nothing(m, c, old, t);
        assert(new.last() == new[new.len() - 1]);
    }
}

/// A counter that dropped was restarted: it counts from zero, so it moved by
/// its new value and never backwards.
pub proof fn law_restart_counts_from_zero(m: Model, old: Num, new: Num)
    requires
        new.below(old),
    ensures
        delta_of(m, old, new) == new,
{
}

} // verus!
