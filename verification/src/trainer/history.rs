use crate::trainer::score::score_sum;
use std::collections::VecDeque;
use vstd::prelude::*;

verus! {

/// The most recent scores of a training run, oldest first: a window that
/// holds at most a set number of them.
#[derive(Debug)]
pub struct ValueThingy {
    values: VecDeque<isize>,
    len: usize,
}

impl View for ValueThingy {
    type V = Seq<isize>;

    closed spec fn view(&self) -> Seq<isize> {
        self.values@
    }
}

/// Whether the sum of every leading part of the values can be held.
pub open spec fn sums_fit(values: Seq<isize>) -> bool {
    forall|k: int|
        0 <= k <= values.len() ==> isize::MIN <= #[trigger] score_sum(values.take(k)) <= isize::MAX
}

/// Whether `greatest` is among the values and none is greater.
pub open spec fn is_greatest(values: Seq<isize>, greatest: isize) -> bool {
    &&& values.contains(greatest)
    &&& forall|i: int| 0 <= i < values.len() ==> values[i] <= greatest
}

/// Whether `least` is among the values and none is smaller.
pub open spec fn is_least(values: Seq<isize>, least: isize) -> bool {
    &&& values.contains(least)
    &&& forall|i: int| 0 <= i < values.len() ==> values[i] >= least
}

impl Clone for ValueThingy {
    fn clone(&self) -> (copy: ValueThingy)
        ensures
            copy@ == self@,
            copy.window() == self.window(),
    {
        let mut values: VecDeque<isize> = VecDeque::new();
        let mut index: usize = 0;
        while index < self.values.len()
            invariant
                index <= self.values@.len(),
                values@ == self.values@.take(index as int),
            decreases self.values@.len() - index,
        {
            values.push_back(self.values[index]);
            proof {
                assert(values@ =~= self.values@.take(index + 1));
            }
            index += 1;
        }
        proof {
            assert(self.values@.take(index as int) =~= self.values@);
        }
        ValueThingy { values, len: self.len }
    }
}

impl ValueThingy {
    /// The number of values at which the window is full.
    pub closed spec fn window(&self) -> nat {
        self.len as nat
    }

    /// An empty window for `len` values.
    pub fn new(len: usize) -> (thingy: ValueThingy)
        ensures
            thingy@.len() == 0,
            thingy.window() == len,
    {
        ValueThingy { values: VecDeque::new(), len }
    }

    /// Records `value` as the newest. A window that holds exactly as many
    /// values as make it full drops its oldest first.
    pub fn update(&mut self, value: isize)
        ensures
            final(self).window() == old(self).window(),
            final(self)@ == if old(self)@.len() == old(self).window() && old(self)@.len() > 0 {
                old(self)@.skip(1).push(value)
            } else {
                old(self)@.push(value)
            },
    {
        if self.values.len() == self.len {
            self.values.pop_front();
        }
        self.values.push_back(value);
        proof {
            if old(self)@.len() == old(self).window() && old(self)@.len() > 0 {
                assert(old(self)@.subrange(1, old(self)@.len() as int) =~= old(self)@.skip(1));
            }
        }
    }

    /// The newest value.
    pub fn value(&self) -> (newest: Option<isize>)
        ensures
            self@.len() == 0 <==> newest is None,
            newest matches Some(value) ==> value == self@.last(),
    {
        if self.values.len() == 0 {
            None
        } else {
            Some(self.values[self.values.len() - 1])
        }
    }

    /// The sum of the values and their number, from which their average
    /// follows. The values are added up oldest first: there is a total exactly
    /// if the sum of every leading part of them can be held.
    pub fn total(&self) -> (total: Option<(isize, usize)>)
        ensures
            total is Some <==> sums_fit(self@),
            total matches Some(pair) ==> pair.0 == score_sum(self@) && pair.1
                == self@.len(),
    {
        let mut sum: isize = 0;
        let mut index: usize = 0;
        proof {
            assert(self@.take(0) =~= Seq::<isize>::empty());
        }
        while index < self.values.len()
            invariant
                index <= self@.len(),
                sum == score_sum(self@.take(index as int)),
                forall|k: int|
                    0 <= k <= index ==> isize::MIN <= #[trigger] score_sum(self@.take(k))
                        <= isize::MAX,
            decreases self@.len() - index,
        {
            proof {
                assert(self@.take(index + 1).drop_last() =~= self@.take(index as int));
            }
            let value = self.values[index];
            match sum.checked_add(value) {
                Some(next) => {
                    sum = next;
                },
                None => {
                    proof {
                        let longer = score_sum(self@.take(index + 1));
                        assert(longer == sum + value);
                        assert(!(isize::MIN <= longer <= isize::MAX));
                    }
                    return None;
                },
            }
            index += 1;
        }
        proof {
            assert(self@.take(index as int) =~= self@);
        }
        Some((sum, self.values.len()))
    }

    /// The greatest value.
    pub fn max(&self) -> (greatest: Option<isize>)
        ensures
            self@.len() == 0 <==> greatest is None,
            greatest matches Some(value) ==> is_greatest(self@, value),
    {
        if self.values.len() == 0 {
            return None;
        }
        let mut greatest: isize = self.values[0];
        let ghost mut at: int = 0;
        let mut index: usize = 1;
        while index < self.values.len()
            invariant
                1 <= index <= self@.len(),
                0 <= at < index && self@[at] == greatest,
                forall|i: int| 0 <= i < index ==> self@[i] <= greatest,
            decreases self@.len() - index,
        {
            if self.values[index] > greatest {
                greatest = self.values[index];
                proof {
                    at = index as int;
                }
            }
            index += 1;
        }
        Some(greatest)
    }

    /// The smallest value.
    pub fn min(&self) -> (least: Option<isize>)
        ensures
            self@.len() == 0 <==> least is None,
            least matches Some(value) ==> is_least(self@, value),
    {
        if self.values.len() == 0 {
            return None;
        }
        let mut least: isize = self.values[0];
        let ghost mut at: int = 0;
        let mut index: usize = 1;
        while index < self.values.len()
            invariant
                1 <= index <= self@.len(),
                0 <= at < index && self@[at] == least,
                forall|i: int| 0 <= i < index ==> self@[i] >= least,
            decreases self@.len() - index,
        {
            if self.values[index] < least {
                least = self.values[index];
                proof {
                    at = index as int;
                }
            }
            index += 1;
        }
        Some(least)
    }

    /// Whether the window is full, so that an average over it means something.
    pub fn averages_ready(&self) -> (ready: bool)
        ensures
            ready == (self@.len() >= self.window()),
    {
        self.values.len() >= self.len
    }
}

} // verus!
