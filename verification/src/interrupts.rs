//! Input queues filled by interrupt handlers, and the timer's scheduling decision.
use vstd::prelude::*;

pub mod tick_counter;
use crate::scheduler::Scheduler;
use crate::process::Context;

verus! {

/// Slot `h + k` taken cyclically over `n` slots (for `h, k < n`).
pub open spec fn ring_index(h: int, k: int, n: int) -> int {
    if h + k < n {
        h + k
    } else {
        h + k - n
    }
}

/// The queue `s` of capacity `n` after pushing `v`: appended at the back, and when the
/// queue was full the oldest element is dropped first.
pub open spec fn queue_push<T>(s: Seq<T>, v: T, n: nat) -> Seq<T> {
    if s.len() < n {
        s.push(v)
    } else {
        s.drop_first().push(v)
    }
}

/// The queue `s` of capacity `n` after pushing every element of `t` in turn.
pub open spec fn queue_push_all<T>(s: Seq<T>, t: Seq<T>, n: nat) -> Seq<T>
    decreases t.len(),
{
    if t.len() == 0 {
        s
    } else {
        queue_push(queue_push_all(s, t.drop_last(), n), t.last(), n)
    }
}

/// First in, first out: elements pushed into a queue with room for them all come out after
/// the elements already queued, in the order they were pushed; each pop takes the front.
pub proof fn lemma_fifo<T>(s: Seq<T>, t: Seq<T>, n: nat)
    requires
        s.len() + t.len() <= n,
    ensures
        queue_push_all(s, t, n) == s + t,
        (s + t).len() > 0 ==> queue_push_all(s, t, n)[0] == (if s.len() > 0 {
            s[0]
        } else {
            t[0]
        }),
    decreases t.len(),
{
    if t.len() > 0 {
        lemma_fifo(s, t.drop_last(), n);
        assert(s + t.drop_last() + seq![t.last()] =~= s + t);
        assert((s + t.drop_last()).push(t.last()) =~= s + t);
    } else {
        assert(s + t =~= s);
    }
}

/// Fixed-capacity FIFO queue of `N` slots; when full, a push drops the oldest element.
pub struct RingBuffer<T, const N: usize> {
    buffer: Vec<Option<T>>,
    head: usize,
    tail: usize,
    count: Ghost<nat>,
}

impl<T: Copy, const N: usize> RingBuffer<T, N> {
    pub closed spec fn wf(&self) -> bool {
        &&& self.buffer@.len() == N
        &&& N > 0 ==> {
            &&& self.head < N
            &&& self.tail < N
            &&& self.count@ <= N
            &&& self.tail == ring_index(self.head as int, self.count@ as int, N as int) || (
            self.count@ == N && self.tail == self.head)
            &&& forall|k: int|
                0 <= k < self.count@ ==> (#[trigger] self.buffer@[ring_index(
                    self.head as int,
                    k,
                    N as int,
                )]).is_some()
            &&& forall|k: int|
                self.count@ <= k < N ==> (#[trigger] self.buffer@[ring_index(
                    self.head as int,
                    k,
                    N as int,
                )]).is_none()
        }
        &&& N == 0 ==> self.count@ == 0
    }

    /// The queued elements, oldest first.
    pub closed spec fn view(&self) -> Seq<T> {
        Seq::new(
            self.count@,
            |k: int| self.buffer@[ring_index(self.head as int, k, N as int)].unwrap(),
        )
    }

    pub fn new() -> (r: Self)
        ensures
            r.wf(),
            r@ == Seq::<T>::empty(),
    {
        let mut buffer: Vec<Option<T>> = Vec::new();
        let mut i: usize = 0;
        while i < N
            invariant
                i <= N,
                buffer@.len() == i,
                forall|k: int| 0 <= k < i ==> (#[trigger] buffer@[k]).is_none(),
            decreases N - i,
        {
            buffer.push(None);
            i += 1;
        }
        let r = Self { buffer, head: 0, tail: 0, count: Ghost(0) };
        assert(r@ =~= Seq::<T>::empty());
        r
    }

    /// Appends `value`; on a full queue the oldest element is dropped first.
    pub fn push(&mut self, value: T)
        requires
            old(self).wf(),
            N > 0,
        ensures
            final(self).wf(),
            final(self)@ == queue_push(old(self)@, value, N as nat),
    {
        let ghost h0 = self.head as int;
        let ghost c0 = self.count@;
        proof {
            assert(ring_index(h0, 0, N as int) == h0);
            if c0 == N {
                assert(self.buffer@[ring_index(h0, 0, N as int)].is_some());
                assert(self.tail == h0);
            }
        }
        if self.buffer[self.tail].is_some() {
            proof {
                if c0 < N {
                    assert(self.buffer@[ring_index(h0, c0 as int, N as int)].is_none());
                }
            }
            self.head = if self.head + 1 == N { 0 } else { self.head + 1 };
        }
        proof {
            if c0 < N {
                assert(self.tail == ring_index(h0, c0 as int, N as int));
            }
        }
        self.buffer.set(self.tail, Some(value));
        self.tail = if self.tail + 1 == N { 0 } else { self.tail + 1 };
        self.count = Ghost(if c0 < N { c0 + 1 } else { c0 });
        proof {
            let h = self.head as int;
            let c = self.count@;
            if c0 < N {
                assert forall|k: int| 0 <= k < c implies (#[trigger] self.buffer@[ring_index(h, k, N as int)]).is_some() by {
                    if k < c0 {
                        assert(ring_index(h, k, N as int) != ring_index(h0, c0 as int, N as int));
                    }
                }
                assert forall|k: int| c <= k < N implies (#[trigger] self.buffer@[ring_index(h, k, N as int)]).is_none() by {
                    assert(ring_index(h, k, N as int) != ring_index(h0, c0 as int, N as int));
                }
                assert(self@ =~= old(self)@.push(value));
            } else {
                assert forall|k: int| 0 <= k < c implies (#[trigger] self.buffer@[ring_index(h, k, N as int)]).is_some() by {
                    if k < N - 1 {
                        assert(ring_index(h, k, N as int) == ring_index(h0, k + 1, N as int));
                    } else {
                        assert(ring_index(h, k, N as int) == h0);
                    }
                }
                assert forall|k: int| 0 <= k < c implies #[trigger] self@[k] == old(self)@.drop_first().push(value)[k] by {
                    if k < N - 1 {
                        assert(ring_index(h, k, N as int) == ring_index(h0, k + 1, N as int));
                        assert(ring_index(h, k, N as int) != h0);
                    } else {
                        assert(ring_index(h, k, N as int) == h0);
                    }
                }
                assert(self@ =~= old(self)@.drop_first().push(value));
            }
        }
    }

    /// Removes and returns the oldest element.
    pub fn pop(&mut self) -> (r: Option<T>)
        requires
            old(self).wf(),
        ensures
            final(self).wf(),
            old(self)@.len() == 0 ==> r.is_none() && final(self)@ == old(self)@,
            old(self)@.len() > 0 ==> r == Some(old(self)@[0]) && final(self)@ == old(self)@.drop_first(),
    {
        if N == 0 {
            return None;
        }
        let ghost h0 = self.head as int;
        let ghost c0 = self.count@;
        proof {
            assert(ring_index(h0, 0, N as int) == h0);
        }
        let value = self.buffer[self.head];
        if value.is_some() {
            self.buffer.set(self.head, None);
            self.head = if self.head + 1 == N { 0 } else { self.head + 1 };
            self.count = Ghost((c0 - 1) as nat);
            proof {
                let h = self.head as int;
                let c = self.count@;
                assert forall|k: int| 0 <= k < c implies (#[trigger] self.buffer@[ring_index(h, k, N as int)]).is_some() by {
                    assert(ring_index(h, k, N as int) == ring_index(h0, k + 1, N as int));
                }
                assert forall|k: int| c <= k < N implies (#[trigger] self.buffer@[ring_index(h, k, N as int)]).is_none() by {
                    if k < N - 1 {
                        assert(ring_index(h, k, N as int) == ring_index(h0, k + 1, N as int));
                    } else {
                        assert(ring_index(h, k, N as int) == h0);
                    }
                }
                assert forall|k: int| 0 <= k < c implies #[trigger] self@[k] == old(self)@.drop_first()[k] by {
                    assert(ring_index(h, k, N as int) == ring_index(h0, k + 1, N as int));
                }
                assert(self@ =~= old(self)@.drop_first());
            }
        } else {
            proof {
                if c0 > 0 {
                    assert(self.buffer@[ring_index(h0, 0, N as int)].is_some());
                }
            }
        }
        value
    }
}

/// Queues a keyboard scan code.
pub fn handle_scancode(queue: &mut RingBuffer<u8, 256>, scancode: u8)
    requires
        old(queue).wf(),
    ensures
        final(queue).wf(),
        final(queue)@ == queue_push(old(queue)@, scancode, 256),
{
    queue.push(scancode);
}

/// Queues a mouse packet byte.
pub fn handle_byte(queue: &mut RingBuffer<u8, 256>, byte: u8)
    requires
        old(queue).wf(),
    ensures
        final(queue).wf(),
        final(queue)@ == queue_push(old(queue)@, byte, 256),
{
    queue.push(byte);
}

/// The registers that the timer stub pushed, as a context: `saved` holds RFLAGS, R15 down to
/// R8, RBP, RDI, RSI, RDX, RCX, RBX, RAX (the order of the stub's pushes, reversed), and
/// `frame` is the address of the interrupt frame above them.
pub open spec fn saved_context(saved: Seq<u64>, frame: u64, cr3: u64) -> Context {
    Context {
        rflags: saved[0],
        r15: saved[1],
        r14: saved[2],
        r13: saved[3],
        r12: saved[4],
        r11: saved[5],
        r10: saved[6],
        r9: saved[7],
        r8: saved[8],
        rbp: saved[9],
        rdi: saved[10],
        rsi: saved[11],
        rdx: saved[12],
        rcx: saved[13],
        rbx: saved[14],
        rax: saved[15],
        rsp: frame,
        cr3,
    }
}

/// Timer interrupt decision: count the tick; at the end of a time slice, store the
/// interrupted registers into the current process and pick the next process, whose index
/// is returned (`None`: resume the interrupted code).
pub fn timer_schedule(sched: &mut Option<Scheduler>, saved: &[u64; 16], frame: u64) -> (r: Option<
    usize,
>)
    requires
        *old(sched) matches Some(s) && s.wf(),
    ensures
        *final(sched) matches Some(s) && s.wf(),
        final(sched).unwrap().pending() == old(sched).unwrap().pending(),
        final(sched).unwrap().slice_len() == old(sched).unwrap().slice_len(),
        ({
            let s0 = old(sched).unwrap();
            let switch = s0.ticks() + 1 >= s0.slice_len();
            &&& !switch ==> r.is_none()
            &&& (switch && s0.current_index().is_none()) ==> r.is_none()
            &&& (switch && s0.current_index().is_some()) ==> {
                let c = s0.current_index().unwrap();
                let s1 = final(sched).unwrap();
                &&& s1.procs()[c as int].ctx == saved_context(
                    saved@,
                    frame,
                    s0.procs()[c as int].ctx.cr3,
                )
                &&& match r {
                    Some(j) => s1.current_index() == Some(j),
                    None => s1.current_index() == Some(c),
                }
            }
        }),
{
    proof {
        old(sched).unwrap().lemma_wf_bounds();
    }
    match sched {
        Some(s) => {
            if !s.tick() {
                return None;
            }
            if !s.save_current(saved, frame) {
                return None;
            }
            s.pick_next()
        },
        None => None,
    }
}

} // verus!
