//! A fixed-size, round-robin pool of publisher handles.
//!
//! The pool owns an ordered, non-empty collection of handles and hands them
//! out cyclically: handle 0, 1, ..., N-1, 0, 1, ... in strict call order.
//! The collection never grows or shrinks after construction.

use vstd::prelude::*;

verus! {

use vstd::arithmetic::div_mod::lemma_small_mod;
use vstd::arithmetic::div_mod::lemma_mod_self_0;

/// A round-robin pool over a fixed, non-empty set of handles.
pub struct ChannelPool<T> {
    channels: Vec<T>,
    next: usize,
}

impl<T> ChannelPool<T> {
    /// The ordered handles the pool was constructed from.
    pub closed spec fn handles(&self) -> Seq<T> {
        self.channels@
    }

    /// The index of the handle the next acquisition will return.
    pub closed spec fn cursor(&self) -> int {
        self.next as int
    }

    /// The pool is non-empty and the cursor points at a handle.
    pub open spec fn well_formed(&self) -> bool {
        &&& self.handles().len() > 0
        &&& 0 <= self.cursor() < self.handles().len()
    }

    /// Builds a pool over the given handles, starting at the first one.
    pub fn new(channels: Vec<T>) -> (r: Self)
        requires
            channels@.len() > 0,
        ensures
            r.well_formed(),
            r.handles() == channels@,
            r.cursor() == 0,
    {
        ChannelPool { channels, next: 0 }
    }

    /// Returns a borrow of the current handle and advances the cursor by one,
    /// wrapping to the first handle after the last.
    pub fn get_next_channel(&mut self) -> (r: &T)
        requires
            old(self).well_formed(),
        ensures
            final(self).well_formed(),
            final(self).handles() == old(self).handles(),
            *r == old(self).handles()[old(self).cursor()],
            final(self).cursor() == (old(self).cursor() + 1) % (old(self).handles().len() as int),
    {
        let i = self.next;
        let n = self.channels.len();
        if self.next + 1 == n {
            self.next = 0;
        } else {
            self.next = self.next + 1;
        }
        proof {
            if i + 1 == n {
                lemma_mod_self_0(n as int);
            } else {
                lemma_small_mod((i + 1) as nat, n as nat);
            }
        }
        &self.channels[i]
    }
}

/// One acquisition step, exactly as `get_next_channel` promises it: `post`
/// is `pre` with the cursor advanced by one modulo the pool size, and
/// `issued` is the handle the cursor pointed at.
pub open spec fn acquisition<T>(pre: ChannelPool<T>, post: ChannelPool<T>, issued: T) -> bool {
    &&& pre.well_formed()
    &&& post.handles() == pre.handles()
    &&& issued == pre.handles()[pre.cursor()]
    &&& post.cursor() == (pre.cursor() + 1) % (pre.handles().len() as int)
}

/// Acquisition-order law: over any chain of pool states linked by single
/// acquisitions — however many callers the acquisitions came from, as long
/// as each ran alone in the critical section — the `t`-th acquisition
/// issues the handle at index `(c0 + t) % K`, where `c0` is the starting
/// cursor and `K` the pool size. With `lemma_round_robin_cycle` this pins
/// the concurrent behaviour: within one full cycle of `K` acquisitions no
/// index is issued twice and none is skipped, and after a full cycle the
/// cursor is back where it started.
pub proof fn lemma_acquisition_chain<T>(states: Seq<ChannelPool<T>>, issued: Seq<T>)
    requires
        states.len() == issued.len() + 1,
        states[0].well_formed(),
        forall|t: int|
            0 <= t < issued.len() ==> #[trigger] acquisition(states[t], states[t + 1], issued[t]),
    ensures
        forall|t: int|
            0 <= t < issued.len() ==> #[trigger] issued[t] == states[0].handles()[(states[0].cursor()
                + t) % (states[0].handles().len() as int)],
        forall|t: int|
            0 <= t < states.len() ==> #[trigger] states[t].cursor() == (states[0].cursor() + t) % (
            states[0].handles().len() as int),
{
    let k = states[0].handles().len() as int;
    assert forall|t: int| 0 <= t < states.len() implies #[trigger] states[t].cursor() == (
    states[0].cursor() + t) % k by {
        lemma_chain_cursor(states, issued, t);
    }
    assert forall|t: int| 0 <= t < issued.len() implies #[trigger] issued[t]
        == states[0].handles()[(states[0].cursor() + t) % k] by {
        lemma_chain_cursor(states, issued, t);
        assert(acquisition(states[t], states[t + 1], issued[t]));
    }
}

proof fn lemma_chain_cursor<T>(states: Seq<ChannelPool<T>>, issued: Seq<T>, t: int)
    requires
        states.len() == issued.len() + 1,
        states[0].well_formed(),
        forall|t: int|
            0 <= t < issued.len() ==> #[trigger] acquisition(states[t], states[t + 1], issued[t]),
        0 <= t < states.len(),
    ensures
        states[t].well_formed(),
        states[t].handles() == states[0].handles(),
        states[t].cursor() == (states[0].cursor() + t) % (states[0].handles().len() as int),
    decreases t,
{
    let k = states[0].handles().len() as int;
    if t == 0 {
        lemma_small_mod(states[0].cursor() as nat, k as nat);
    } else {
        lemma_chain_cursor(states, issued, t - 1);
        assert(acquisition(states[t - 1], states[(t - 1) + 1], issued[t - 1]));
        vstd::arithmetic::div_mod::lemma_add_mod_noop(states[0].cursor() + t - 1, 1, k);
        if k == 1 {
            lemma_mod_self_0(1);
        } else {
            lemma_small_mod(1, k as nat);
        }
        vstd::arithmetic::div_mod::lemma_mod_twice(states[0].cursor() + t - 1, k);
        vstd::arithmetic::div_mod::lemma_mod_bound(states[0].cursor() + t, k);
    }
}

/// The position within one full cycle, starting at cursor `start`, at which a
/// pool of `k` handles issues the handle of index `h`.
pub open spec fn cycle_position(start: int, k: int, h: int) -> int {
    if h >= start {
        h - start
    } else {
        h - start + k
    }
}

/// Round-robin law: starting from any cursor position, a full cycle of
/// acquisitions over a pool of `k` handles issues every index in `0..k`
/// exactly once (the indices `(start + i) % k` for `i` in `0..k` are pairwise
/// distinct and cover `0..k`), and the acquisition after a full cycle returns
/// to the starting index.
pub proof fn lemma_round_robin_cycle(start: int, k: int)
    requires
        k > 0,
        0 <= start < k,
    ensures
        forall|i: int, j: int|
            0 <= i < k && 0 <= j < k && i != j ==> #[trigger] ((start + i) % k) != #[trigger] ((start
                + j) % k),
        forall|h: int|
            0 <= h < k ==> 0 <= #[trigger] cycle_position(start, k, h) < k && (start
                + cycle_position(start, k, h)) % k == h,
        (start + k) % k == start,
{
    assert forall|i: int| 0 <= i < k implies #[trigger] ((start + i) % k) == if start + i < k {
        start + i
    } else {
        start + i - k
    } by {
        if start + i < k {
            lemma_small_mod((start + i) as nat, k as nat);
        } else {
            vstd::arithmetic::div_mod::lemma_mod_sub_multiples_vanish(start + i, k);
            lemma_small_mod((start + i - k) as nat, k as nat);
        }
    }
    assert forall|h: int| 0 <= h < k implies 0 <= #[trigger] cycle_position(start, k, h) < k && (
    start + cycle_position(start, k, h)) % k == h by {
        assert((start + cycle_position(start, k, h)) % k == h);
    }
    vstd::arithmetic::div_mod::lemma_mod_sub_multiples_vanish(start + k, k);
    lemma_small_mod(start as nat, k as nat);
}

} // verus!
