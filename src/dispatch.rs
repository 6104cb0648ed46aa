//! The rotating cursor that a stage supervisor uses to hand each packet to one
//! of its child workers: try the child under the cursor, move on to the next
//! one when its queue is full, and drop the packet after one full revolution.

use vstd::prelude::*;
use vstd::arithmetic::div_mod::lemma_add_mod_noop;

verus! {

/// The child (numbered from 1) that lies `k` steps after child `c` among `n`.
pub open spec fn rotate(c: int, k: int, n: int) -> int {
    (c - 1 + k) % n + 1
}

/// What the supervisor does after a child's queue refused a packet.
pub enum DispatchStep {
    /// Try this child next.
    Retry(usize),
    /// Every child was tried once: the packet is dropped.
    Drop,
}

/// The supervisor's rotating cursor over `child_num` children.
pub struct FanOut {
    /// The child to try next, numbered from 1.
    pub cursor: usize,
    pub child_num: usize,
    /// How many children refused the packet being dispatched.
    pub tries: usize,
    /// How many packets were dropped.
    pub dropped: u64,
}

impl FanOut {
    pub open spec fn wf(&self) -> bool {
        &&& 1 <= self.cursor
        &&& (self.child_num > 0 ==> self.cursor <= self.child_num && self.tries < self.child_num)
        &&& (self.child_num == 0 ==> self.cursor == 1 && self.tries == 0)
    }

    pub fn new(child_num: usize) -> (r: FanOut)
        ensures
            r.wf(),
            r.cursor == 1,
            r.child_num == child_num,
            r.tries == 0,
            r.dropped == 0,
    {
        FanOut { cursor: 1, child_num, tries: 0, dropped: 0 }
    }

    /// The child sequence number for a cursor: `(cursor - 1) % num + 1`.
    pub fn child_seq(cursor: usize, num: usize) -> (r: usize)
        requires
            cursor >= 1,
            num > 0,
        ensures
            r == rotate(cursor as int, 0, num as int),
            1 <= r <= num,
    {
        (cursor - 1) % num + 1
    }

    /// The child to try now; `None` where there are no children.
    pub fn target(&self) -> (r: Option<usize>)
        requires
            self.wf(),
        ensures
            self.child_num == 0 ==> r is None,
            self.child_num > 0 ==> r == Some(self.cursor),
    {
        if self.child_num == 0 {
            None
        } else {
            Some(self.cursor)
        }
    }

    fn advance(&mut self)
        requires
            old(self).wf(),
        ensures
            final(self).child_num == old(self).child_num,
            final(self).tries == old(self).tries,
            final(self).dropped == old(self).dropped,
            old(self).child_num > 0 ==> final(self).cursor == rotate(
                old(self).cursor as int,
                1,
                old(self).child_num as int,
            ),
            old(self).child_num == 0 ==> final(self).cursor == 1,
    {
        if self.child_num > 0 {
            if self.cursor >= self.child_num {
                self.cursor = 1;
            } else {
                self.cursor = self.cursor + 1;
            }
            proof {
                let c = old(self).cursor as int;
                let n = self.child_num as int;
                if c < n {
                    assert(c % n == c) by (nonlinear_arith)
                        requires 1 <= c < n;
                } else {
                    assert(n % n == 0) by (nonlinear_arith)
                        requires n > 0;
                }
            }
        }
    }

    /// The child under the cursor took the packet: the next packet starts at
    /// the following child.
    pub fn on_delivered(&mut self)
        requires
            old(self).wf(),
        ensures
            final(self).wf(),
            final(self).child_num == old(self).child_num,
            final(self).tries == 0,
            final(self).dropped == old(self).dropped,
            old(self).child_num > 0 ==> final(self).cursor == rotate(
                old(self).cursor as int,
                1,
                old(self).child_num as int,
            ),
    {
        self.advance();
        self.tries = 0;
    }

    /// The child under the cursor refused the packet (its queue is full or
    /// closed). The cursor moves on; once every child has refused, the packet
    /// is dropped and the drop counter goes up.
    pub fn on_rejected(&mut self) -> (r: DispatchStep)
        requires
            old(self).wf(),
        ensures
            final(self).wf(),
            final(self).child_num == old(self).child_num,
            old(self).child_num > 0 ==> final(self).cursor == rotate(
                old(self).cursor as int,
                1,
                old(self).child_num as int,
            ),
            old(self).tries + 1 >= old(self).child_num ==> r is Drop && final(self).tries == 0
                && final(self).dropped == (if old(self).dropped < u64::MAX {
                old(self).dropped + 1
            } else {
                old(self).dropped as int
            }),
            old(self).tries + 1 < old(self).child_num ==> r == DispatchStep::Retry(
                final(self).cursor,
            ) && final(self).tries == old(self).tries + 1 && final(self).dropped == old(
                self,
            ).dropped,
    {
        self.advance();
        if self.tries + 1 >= self.child_num {
            self.tries = 0;
            if self.dropped < u64::MAX {
                self.dropped = self.dropped + 1;
            }
            DispatchStep::Drop
        } else {
            self.tries = self.tries + 1;
            DispatchStep::Retry(self.cursor)
        }
    }
}

/// One revolution of the cursor tries every child exactly once and ends where
/// it began: the `n` targets after a start `c` are `n` distinct children.
pub proof fn lemma_revolution_visits_every_child(c: int, n: int)
    requires
        1 <= c <= n,
    ensures
        forall|k: int| 0 <= k < n ==> 1 <= #[trigger] rotate(c, k, n) <= n,
        forall|k1: int, k2: int|
            0 <= k1 < k2 < n ==> #[trigger] rotate(c, k1, n) != #[trigger] rotate(c, k2, n),
        rotate(c, n, n) == c,
{
    assert forall|k: int| 0 <= k < n implies 1 <= #[trigger] rotate(c, k, n) <= n by {
        assert(0 <= (c - 1 + k) % n < n) by (nonlinear_arith)
            requires n > 0;
    }
    assert forall|k1: int, k2: int|
        0 <= k1 < k2 < n implies #[trigger] rotate(c, k1, n) != #[trigger] rotate(c, k2, n) by {
        let a = c - 1 + k1;
        let b = c - 1 + k2;
        assert(a % n != b % n) by (nonlinear_arith)
            requires 0 <= a < b, b - a < n, n > 0;
    }
    assert((c - 1 + n) % n == c - 1) by (nonlinear_arith)
        requires 1 <= c <= n;
}

/// A packet that meets full queues everywhere, dispatched from cursor `c`
/// among `n` children: its `k`-th refusal (counting from 0, `tries` starting
/// at 0) moves the cursor from `rotate(c, k, n)` to `rotate(c, k + 1, n)`,
/// and it is the `n`-th refusal, and only that one, that drops the packet.
/// With `lemma_revolution_visits_every_child`, the children tried are the
/// `n` distinct children, each once.
pub proof fn lemma_full_queues_drop_after_one_revolution(c: int, n: int, k: int)
    requires
        1 <= c <= n,
        0 <= k < n,
    ensures
        rotate(rotate(c, k, n), 1, n) == rotate(c, k + 1, n),
        (k + 1 >= n) <==> k == n - 1,
        1 <= rotate(c, k, n) <= n,
{
    lemma_add_mod_noop(c - 1 + k, 1, n);
    if n > 1 {
        assert(1int % n == 1) by (nonlinear_arith)
            requires n > 1;
    } else {
        assert(1int % n == 0);
    }
    assert(0 <= (c - 1 + k) % n < n) by (nonlinear_arith)
        requires n > 0;
    assert(((c - 1 + k) % n) % n == (c - 1 + k) % n) by (nonlinear_arith)
        requires n > 0, 0 <= (c - 1 + k) % n < n;
}

} // verus!
