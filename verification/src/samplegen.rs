//! The parameter context handed to every signal evaluation.

use vstd::prelude::*;

use crate::fixed::valid_amp;
use crate::text::str_eq;

verus! {

/// Look a name up among bindings, the latest binding winning.
pub open spec fn lookup(entries: Seq<(String, i64)>, name: Seq<char>) -> Option<i64>
    decreases entries.len(),
{
    if entries.len() == 0 {
        None
    } else if entries.last().0@ == name {
        Some(entries.last().1)
    } else {
        lookup(entries.drop_last(), name)
    }
}

/// The named amplitudes available to one evaluation instant (time, duration,
/// sample index, pitch, rate, phase coordinate).  Built fresh per call and
/// never persisted.
pub struct Params {
    entries: Vec<(String, i64)>,
}

impl View for Params {
    type V = Seq<(String, i64)>;

    closed spec fn view(&self) -> Seq<(String, i64)> {
        self.entries@
    }
}

impl Params {
    /// Every bound value is a representable amplitude.
    pub open spec fn wf(&self) -> bool {
        forall|i: int| 0 <= i < self@.len() ==> valid_amp(#[trigger] self@[i].1 as int)
    }

    /// An empty context.
    pub fn new() -> (r: Params)
        ensures
            r@.len() == 0,
            r.wf(),
    {
        Params { entries: Vec::new() }
    }

    /// Bind a name; a later binding shadows an earlier one of the same name.
    pub fn insert(&mut self, name: String, value: i64)
        requires
            old(self).wf(),
            valid_amp(value as int),
        ensures
            final(self)@ == old(self)@.push((name, value)),
            final(self).wf(),
    {
        self.entries.push((name, value));
        proof {
            let s = self@;
            assert forall|i: int| 0 <= i < s.len() implies valid_amp(#[trigger] s[i].1 as int) by {
                if i < s.len() - 1 {
                    assert(s[i] == old(self)@[i]);
                }
            }
        }
    }

    /// The value bound to a name, if any.
    pub fn get(&self, name: &str) -> (r: Option<i64>)
        ensures
            r == lookup(self@, name@),
            r is Some && self.wf() ==> valid_amp(r->Some_0 as int),
    {
        let mut i: usize = self.entries.len();
        proof {
            assert(self@.take(self@.len() as int) =~= self@);
        }
        while i > 0
            invariant
                i <= self.entries.len(),
                lookup(self@, name@) == lookup(self@.take(i as int), name@),
                self.wf() ==> forall|j: int|
                    0 <= j < self@.len() ==> valid_amp(#[trigger] self@[j].1 as int),
            decreases i,
        {
            i = i - 1;
            if str_eq(self.entries[i].0.as_str(), name) {
                proof {
                    assert(self@.take(i as int + 1).last() == self@[i as int]);
                }
                return Some(self.entries[i].1);
            }
            proof {
                assert(self@.take(i as int + 1).drop_last() =~= self@.take(i as int));
            }
        }
        proof {
            assert(self@.take(0).len() == 0);
        }
        None
    }
}

} // verus!
