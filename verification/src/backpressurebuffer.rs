//! A bounded queue that makes room for what is new by giving up what is oldest.

use std::collections::VecDeque;
use vstd::prelude::*;

verus! {

/// What a queue of bound `max_capacity` holds after `value` is pushed onto one
/// that holds `held`: the oldest element leaves where the bound is reached.
///
/// A bound of 0 is reached by the empty queue, which has nothing to give up and
/// takes the element all the same, so it works as a bound of 1.
pub open spec fn pushed<T>(held: Seq<T>, max_capacity: nat, value: T) -> Seq<T> {
    if held.len() < max_capacity || held.len() == 0 {
        held.push(value)
    } else {
        held.skip(1).push(value)
    }
}

/// What such a queue holds after all of `values` are pushed, in order.
pub open spec fn pushed_all<T>(held: Seq<T>, max_capacity: nat, values: Seq<T>) -> Seq<T>
    decreases values.len(),
{
    if values.len() == 0 {
        held
    } else {
        pushed(pushed_all(held, max_capacity, values.drop_last()), max_capacity, values.last())
    }
}

/// The most elements that a queue of bound `max_capacity` holds.
pub open spec fn most_held(max_capacity: nat) -> nat {
    if max_capacity == 0 {
        1
    } else {
        max_capacity
    }
}

/// A queue of at most `max_capacity` elements, oldest first.
pub struct BackpressureBuffer<T> {
    buffer: VecDeque<T>,
    max_capacity: usize,
}

impl<T> View for BackpressureBuffer<T> {
    type V = Seq<T>;

    closed spec fn view(&self) -> Seq<T> {
        self.buffer@
    }
}

impl<T> BackpressureBuffer<T> {
    /// The bound that the queue was made with.
    pub closed spec fn max_capacity(self) -> nat {
        self.max_capacity as nat
    }

    /// The queue holds no more than its bound allows.
    pub open spec fn wf(self) -> bool {
        self@.len() <= most_held(self.max_capacity())
    }

    /// An empty queue of bound `max_capacity`.
    pub fn new(max_capacity: usize) -> (buffer: BackpressureBuffer<T>)
        ensures
            buffer@ == Seq::<T>::empty(),
            buffer.max_capacity() == max_capacity,
            buffer.wf(),
    {
        BackpressureBuffer { buffer: VecDeque::new(), max_capacity }
    }

    /// Adds `value` at the back, giving up the oldest element where the bound is
    /// reached.
    pub fn push(&mut self, value: T)
        ensures
            final(self)@ == pushed(old(self)@, old(self).max_capacity(), value),
            final(self).max_capacity() == old(self).max_capacity(),
            old(self).wf() ==> final(self).wf(),
    {
        if self.buffer.len() < self.max_capacity {
            self.buffer.push_back(value);
        } else {
            let _dropped = self.buffer.pop_front();
            self.buffer.push_back(value);
        }
        assert(self@ =~= pushed(old(self)@, old(self).max_capacity(), value));
    }

    /// Takes out the oldest element.
    pub fn pop(&mut self) -> (value: Option<T>)
        ensures
            value == (if old(self)@.len() > 0 {
                Some(old(self)@[0])
            } else {
                None
            }),
            final(self)@ == (if old(self)@.len() > 0 {
                old(self)@.skip(1)
            } else {
                old(self)@
            }),
            final(self).max_capacity() == old(self).max_capacity(),
            old(self).wf() ==> final(self).wf(),
    {
        let value = self.buffer.pop_front();
        proof {
            if old(self)@.len() > 0 {
                assert(self@ =~= old(self)@.skip(1));
            }
        }
        value
    }

    /// Takes out everything, oldest first.
    pub fn flush(&mut self) -> (values: Vec<T>)
        ensures
            values@ == old(self)@,
            final(self)@ == Seq::<T>::empty(),
            final(self).max_capacity() == old(self).max_capacity(),
            final(self).wf(),
    {
        let mut values: Vec<T> = Vec::new();
        loop
            invariant
                values@ + self@ == old(self)@,
                self.max_capacity() == old(self).max_capacity(),
            ensures
                self@.len() == 0,
            decreases self@.len(),
        {
            match self.pop() {
                Some(value) => {
                    values.push(value);
                },
                None => {
                    break;
                },
            }
        }
        assert(values@ =~= old(self)@);
        values
    }
}

/// Of all that was pushed onto an empty queue and not taken out, the newest
/// elements are kept, as many as the bound allows, in the order in which they
/// came.
pub proof fn law_newest_are_kept<T>(max_capacity: nat, values: Seq<T>)
    ensures
        pushed_all(Seq::<T>::empty(), max_capacity, values) == (if values.len() <= most_held(
            max_capacity,
        ) {
            values
        } else {
            values.skip(values.len() - most_held(max_capacity))
        }),
    decreases values.len(),
{
    let most = most_held(max_capacity);
    if values.len() == 0 {
        assert(values =~= Seq::<T>::empty());
    } else {
        let earlier = values.drop_last();
        law_newest_are_kept(max_capacity, earlier);
        let held = pushed_all(Seq::<T>::empty(), max_capacity, earlier);
        if values.len() <= most {
            assert(held.push(values.last()) =~= values);
        } else {
            assert(held.len() == most);
            assert(held.skip(1).push(values.last()) =~= values.skip(values.len() - most));
        }
    }
}

/// No sequence of pushes takes a queue past its bound.
pub proof fn law_bound_is_kept<T>(held: Seq<T>, max_capacity: nat, values: Seq<T>)
    requires
        held.len() <= most_held(max_capacity),
    ensures
        pushed_all(held, max_capacity, values).len() <= most_held(max_capacity),
    decreases values.len(),
{
    if values.len() > 0 {
        law_bound_is_kept(held, max_capacity, values.drop_last());
    }
}

/// What is pushed goes to the back. While the bound leaves room, all that was held
/// stays where it was; once it is reached, exactly the oldest element leaves, and
/// the others move up.
pub proof fn law_push_gives_up_the_oldest_only<T>(held: Seq<T>, max_capacity: nat, value: T)
    requires
        0 < max_capacity,
    ensures
        ({
            let after = pushed(held, max_capacity, value);
            &&& after.len() > 0
            &&& after.last() == value
            &&& held.len() < max_capacity ==> after.len() == held.len() + 1 && forall|i: int|
                0 <= i < held.len() ==> after[i] == held[i]
            &&& held.len() >= max_capacity ==> after.len() == held.len() && forall|i: int|
                0 <= i < held.len() - 1 ==> after[i] == held[i + 1]
        }),
{
}

/// However much is pushed, a queue holds the newest of what it held and what was
/// pushed since, in order: all of it, or as much as the bound allows.
pub proof fn law_pushes_keep_the_newest<T>(held: Seq<T>, max_capacity: nat, values: Seq<T>)
    requires
        0 < max_capacity,
        held.len() <= max_capacity,
    ensures
        ({
            let all = held + values;
            pushed_all(held, max_capacity, values) == (if all.len() <= max_capacity {
                all
            } else {
                all.skip(all.len() - max_capacity)
            })
        }),
    decreases values.len(),
{
    let all = held + values;
    if values.len() == 0 {
        assert(all =~= held);
    } else {
        law_pushes_keep_the_newest(held, max_capacity, values.drop_last());
        let before = held + values.drop_last();
        let kept = pushed_all(held, max_capacity, values.drop_last());
        assert(all =~= before.push(values.last()));
        if all.len() <= max_capacity {
            assert(pushed(kept, max_capacity, values.last()) =~= all);
        } else {
            assert(kept.len() == max_capacity);
            assert(pushed(kept, max_capacity, values.last()) =~= all.skip(
                all.len() - max_capacity,
            ));
        }
    }
}

} // verus!
