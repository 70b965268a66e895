//! Round-robin process scheduler.
use vstd::prelude::*;
use crate::process::{Process, ProcessState, Context};

verus! {

pub struct Scheduler {
    processes: Vec<Process>,
    current: Option<usize>,
    tick_count: u64,
    ticks_per_slice: u64,
    switch_pending: bool,
}

/// Index `c + k` taken cyclically over `len` slots (for `c, k < len`).
pub open spec fn wrap(c: int, k: int, len: int) -> int {
    if c + k < len {
        c + k
    } else {
        c + k - len
    }
}

/// The first index after `c`, in cyclic order, whose process is ready, looking from offset
/// `k` to the last offset before coming back to `c`.
pub open spec fn first_ready(st: Seq<ProcessState>, c: int, k: int) -> Option<int>
    decreases st.len() - k,
{
    if k >= st.len() || k <= 0 {
        None
    } else if st[wrap(c, k, st.len() as int)] == ProcessState::Ready {
        Some(wrap(c, k, st.len() as int))
    } else {
        first_ready(st, c, k + 1)
    }
}

/// Round robin skips no one: looking from offset `k`, the ready process that is picked lies
/// no further (in cyclic order after `c`) than any other ready process at offset `m` from `k`
/// on, and it is ready.
pub proof fn lemma_round_robin_fair(st: Seq<ProcessState>, c: int, k: int, m: int)
    requires
        0 <= c < st.len(),
        1 <= k <= m < st.len(),
        st[wrap(c, m, st.len() as int)] == ProcessState::Ready,
    ensures
        first_ready(st, c, k) matches Some(j) && st[j] == ProcessState::Ready && exists|d: int|
            k <= d <= m && j == wrap(c, d, st.len() as int),
    decreases st.len() - k,
{
    if st[wrap(c, k, st.len() as int)] == ProcessState::Ready {
        assert(k <= k <= m && wrap(c, k, st.len() as int) == wrap(c, k, st.len() as int));
    } else {
        lemma_round_robin_fair(st, c, k + 1, m);
    }
}

pub open spec fn states_of(ps: Seq<Process>) -> Seq<ProcessState> {
    ps.map_values(|p: Process| p.state)
}

/// Two process tables that differ at most in the processes' states.
pub open spec fn same_but_state(a: Seq<Process>, b: Seq<Process>) -> bool {
    &&& a.len() == b.len()
    &&& forall|i: int|
        0 <= i < a.len() ==> {
            &&& (#[trigger] a[i]).pid == b[i].pid
            &&& a[i].name == b[i].name
            &&& a[i].priority == b[i].priority
            &&& a[i].ctx == b[i].ctx
            &&& a[i].stack() == b[i].stack()
        }
}

/// The states after the current process `c` stops running (a running one becomes ready).
pub open spec fn demoted(st: Seq<ProcessState>, c: int) -> Seq<ProcessState> {
    if st[c] == ProcessState::Running {
        st.update(c, ProcessState::Ready)
    } else {
        st
    }
}

pub open spec fn state_name(s: ProcessState) -> &'static str {
    match s {
        ProcessState::Running => "Running",
        ProcessState::Ready => "Ready",
        ProcessState::Blocked => "Blocked",
        ProcessState::Dead => "Dead",
    }
}

/// The first index whose process has identifier `pid`, or -1.
pub open spec fn index_of_pid(ps: Seq<Process>, pid: u32) -> int
    decreases ps.len(),
{
    if ps.len() == 0 {
        -1
    } else {
        let i = index_of_pid(ps.drop_last(), pid);
        if i >= 0 {
            i
        } else if ps.last().pid == pid {
            ps.len() - 1
        } else {
            -1
        }
    }
}

impl Scheduler {
    pub closed spec fn procs(&self) -> Seq<Process> {
        self.processes@
    }

    pub closed spec fn current_index(&self) -> Option<usize> {
        self.current
    }

    pub closed spec fn ticks(&self) -> u64 {
        self.tick_count
    }

    pub closed spec fn slice_len(&self) -> u64 {
        self.ticks_per_slice
    }

    pub closed spec fn pending(&self) -> bool {
        self.switch_pending
    }

    /// The table is never empty, the current index is in it and the tick counter stays
    /// below the slice length.
    pub closed spec fn wf(&self) -> bool {
        &&& self.processes@.len() > 0
        &&& match self.current {
            Some(i) => i < self.processes@.len(),
            None => true,
        }
        &&& self.ticks_per_slice > 0
        &&& self.tick_count < self.ticks_per_slice
    }

    /// The table is never empty and the current index lies in it.
    pub proof fn lemma_wf_bounds(&self)
        requires
            self.wf(),
        ensures
            self.procs().len() > 0,
            self.ticks() < self.slice_len(),
            match self.current_index() {
                Some(i) => i < self.procs().len(),
                None => true,
            },
    {
    }

    /// A scheduler whose only process is the idle process `idle`, which is current; a time
    /// slice is five ticks.
    fn new(idle: Process) -> (r: Self)
        ensures
            r.wf(),
            r.procs() == seq![idle],
            r.current_index() == Some(0usize),
            r.ticks() == 0,
            r.slice_len() == 5,
            !r.pending(),
    {
        let mut procs: Vec<Process> = Vec::new();
        procs.push(idle);
        Scheduler {
            processes: procs,
            current: Some(0),
            tick_count: 0,
            ticks_per_slice: 5,
            switch_pending: false,
        }
    }

    fn set_state_at(&mut self, i: usize, s: ProcessState)
        requires
            old(self).wf(),
            i < old(self).processes@.len(),
        ensures
            final(self).wf(),
            same_but_state(old(self).procs(), final(self).procs()),
            states_of(final(self).procs()) == states_of(old(self).procs()).update(i as int, s),
            final(self).current == old(self).current,
            final(self).tick_count == old(self).tick_count,
            final(self).ticks_per_slice == old(self).ticks_per_slice,
            final(self).switch_pending == old(self).switch_pending,
    {
        let mut p = self.processes.remove(i);
        p.set_state(s);
        self.processes.insert(i, p);
        assert(states_of(self.procs()) =~= states_of(old(self).procs()).update(i as int, s));
    }

    pub fn add_process(&mut self, proc: Process) -> (r: u32)
        requires
            old(self).wf(),
        ensures
            final(self).wf(),
            r == proc.pid,
            final(self).procs() == old(self).procs().push(proc),
            final(self).current_index() == old(self).current_index(),
            final(self).ticks() == old(self).ticks(),
            final(self).slice_len() == old(self).slice_len(),
            final(self).pending() == old(self).pending(),
    {
        let pid = proc.pid();
        self.processes.push(proc);
        pid
    }

    /// Identifier of the current process, 0 when there is none.
    pub fn current_pid(&self) -> (r: u32)
        requires
            self.wf(),
        ensures
            r == match self.current_index() {
                Some(i) => self.procs()[i as int].pid,
                None => 0,
            },
    {
        match self.current {
            Some(i) => self.processes[i].pid(),
            None => 0,
        }
    }

    /// Called on every timer tick; true when the time slice is used up.
    pub fn tick(&mut self) -> (r: bool)
        requires
            old(self).wf(),
        ensures
            final(self).wf(),
            r == (old(self).ticks() + 1 >= old(self).slice_len()),
            final(self).ticks() == if r { 0 } else { (old(self).ticks() + 1) as u64 },
            final(self).procs() == old(self).procs(),
            final(self).current_index() == old(self).current_index(),
            final(self).slice_len() == old(self).slice_len(),
            final(self).pending() == old(self).pending(),
    {
        self.tick_count = self.tick_count + 1;
        if self.tick_count >= self.ticks_per_slice {
            self.tick_count = 0;
            return true;
        }
        false
    }

    /// Consumes a pending switch request.
    pub fn take_switch_pending(&mut self) -> (r: bool)
        requires
            old(self).wf(),
        ensures
            final(self).wf(),
            r == old(self).pending(),
            !r ==> *final(self) == *old(self),
            !final(self).pending(),
            final(self).procs() == old(self).procs(),
            final(self).current_index() == old(self).current_index(),
            final(self).ticks() == old(self).ticks(),
            final(self).slice_len() == old(self).slice_len(),
    {
        if self.switch_pending {
            self.switch_pending = false;
            true
        } else {
            false
        }
    }

    /// Round robin: the current process stops running, and the first ready process after it
    /// in cyclic order becomes current and running; its index is returned. When there is
    /// none, the current process keeps running and nothing is returned.
    pub fn pick_next(&mut self) -> (r: Option<usize>)
        requires
            old(self).wf(),
        ensures
            final(self).wf(),
            same_but_state(old(self).procs(), final(self).procs()),
            final(self).ticks() == old(self).ticks(),
            final(self).slice_len() == old(self).slice_len(),
            final(self).pending() == old(self).pending(),
            match old(self).current_index() {
                None => r.is_none() && final(self).procs() == old(self).procs()
                    && final(self).current_index().is_none(),
                Some(c) => {
                    let st = demoted(states_of(old(self).procs()), c as int);
                    match first_ready(st, c as int, 1) {
                        Some(j) => r == Some(j as usize) && final(self).current_index() == Some(
                            j as usize,
                        ) && states_of(final(self).procs()) == st.update(j, ProcessState::Running),
                        None => r.is_none() && final(self).current_index() == Some(c)
                            && states_of(final(self).procs()) == st.update(
                            c as int,
                            ProcessState::Running,
                        ),
                    }
                },
            },
    {
        let current_idx = match self.current {
            Some(i) => i,
            None => {
                return None;
            },
        };
        if self.processes[current_idx].state() == ProcessState::Running {
            self.set_state_at(current_idx, ProcessState::Ready);
        }
        let ghost st = states_of(self.procs());
        assert(st =~= demoted(states_of(old(self).procs()), current_idx as int));
        let len = self.processes.len();
        let mut next_idx = if current_idx + 1 == len { 0 } else { current_idx + 1 };
        let mut attempts: usize = 0;
        while attempts < len
            invariant
                self.wf(),
                len == self.processes@.len(),
                st == states_of(self.procs()),
                current_idx < len,
                attempts <= len,
                attempts < len ==> next_idx == wrap(current_idx as int, attempts + 1, len as int),
                attempts < len ==> next_idx < len,
                first_ready(st, current_idx as int, 1) == first_ready(
                    st,
                    current_idx as int,
                    attempts + 1,
                ),
            ensures
                attempts < len ==> next_idx < len && st[next_idx as int] == ProcessState::Ready
                    && next_idx != current_idx && first_ready(st, current_idx as int, 1) == Some(
                    next_idx as int,
                ),
                attempts >= len ==> first_ready(st, current_idx as int, 1).is_none(),
            decreases len - attempts,
        {
            if self.processes[next_idx].state() == ProcessState::Ready && next_idx != current_idx {
                assert(attempts + 1 < len);
                break;
            }
            proof {
                if attempts + 1 < len {
                    assert(next_idx != current_idx);
                }
            }
            next_idx = if next_idx + 1 == len { 0 } else { next_idx + 1 };
            attempts += 1;
        }
        if attempts < len {
            self.set_state_at(next_idx, ProcessState::Running);
            self.current = Some(next_idx);
            Some(next_idx)
        } else {
            self.set_state_at(current_idx, ProcessState::Running);
            None
        }
    }

    /// Stores the registers of the interrupted code into the current process; false when
    /// there is no current process.
    pub fn save_current(&mut self, saved: &[u64; 16], frame: u64) -> (r: bool)
        requires
            old(self).wf(),
        ensures
            final(self).wf(),
            r == old(self).current_index().is_some(),
            final(self).current_index() == old(self).current_index(),
            final(self).ticks() == old(self).ticks(),
            final(self).slice_len() == old(self).slice_len(),
            final(self).pending() == old(self).pending(),
            final(self).procs().len() == old(self).procs().len(),
            states_of(final(self).procs()) == states_of(old(self).procs()),
            forall|i: int|
                0 <= i < old(self).procs().len() && Some(i as usize) != old(self).current_index()
                    ==> #[trigger] final(self).procs()[i] == old(self).procs()[i],
            r ==> {
                let c = old(self).current_index().unwrap() as int;
                let p0 = old(self).procs()[c];
                let p1 = final(self).procs()[c];
                &&& p1.ctx == crate::interrupts::saved_context(saved@, frame, p0.ctx.cr3)
                &&& p1.pid == p0.pid && p1.name == p0.name && p1.priority == p0.priority
                &&& p1.stack() == p0.stack() && p1.state == p0.state
            },
    {
        let i = match self.current {
            Some(i) => i,
            None => {
                return false;
            },
        };
        let mut p = self.processes.remove(i);
        let cr3 = p.ctx.cr3;
        p.ctx = Context {
            rflags: saved[0],
            r15: saved[1],
            r14: saved[2],
            r13: saved[3],
            r12: saved[4],
            r11: saved[5],
            r10: saved[6],
            r9: saved[7],
            r8: saved[8],
            rbp: saved[9],
            rdi: saved[10],
            rsi: saved[11],
            rdx: saved[12],
            rcx: saved[13],
            rbx: saved[14],
            rax: saved[15],
            rsp: frame,
            cr3,
        };
        self.processes.insert(i, p);
        proof {
            assert(states_of(self.procs()) =~= states_of(old(self).procs()));
        }
        true
    }

    pub fn process_count(&self) -> (r: usize)
        ensures
            r == self.procs().len(),
    {
        self.processes.len()
    }

    pub fn list_pids(&self) -> (r: Vec<u32>)
        ensures
            r@ == self.procs().map_values(|p: Process| p.pid),
    {
        let mut r: Vec<u32> = Vec::new();
        let mut i: usize = 0;
        while i < self.processes.len()
            invariant
                i <= self.procs().len(),
                r@ == self.procs().subrange(0, i as int).map_values(|p: Process| p.pid),
            decreases self.procs().len() - i,
        {
            r.push(self.processes[i].pid());
            i += 1;
            assert(r@ =~= self.procs().subrange(0, i as int).map_values(|p: Process| p.pid));
        }
        assert(self.procs().subrange(0, i as int) =~= self.procs());
        r
    }

    /// `(pid, name, state name)` of every process, in table order.
    pub fn list_processes(&self) -> (r: Vec<(u32, &'static str, &'static str)>)
        ensures
            r@ == self.procs().map_values(|p: Process| (p.pid, p.name, state_name(p.state))),
    {
        let mut r: Vec<(u32, &'static str, &'static str)> = Vec::new();
        let mut i: usize = 0;
        while i < self.processes.len()
            invariant
                i <= self.procs().len(),
                r@ == self.procs().subrange(0, i as int).map_values(
                    |p: Process| (p.pid, p.name, state_name(p.state)),
                ),
            decreases self.procs().len() - i,
        {
            let p = &self.processes[i];
            let state_str = match p.state() {
                ProcessState::Running => "Running",
                ProcessState::Ready => "Ready",
                ProcessState::Blocked => "Blocked",
                ProcessState::Dead => "Dead",
            };
            r.push((p.pid(), p.name(), state_str));
            i += 1;
            assert(r@ =~= self.procs().subrange(0, i as int).map_values(
                |p: Process| (p.pid, p.name, state_name(p.state)),
            ));
        }
        assert(self.procs().subrange(0, i as int) =~= self.procs());
        r
    }

    /// Marks the first process with identifier `pid` dead; false when there is none.
    pub fn kill_process(&mut self, pid: u32) -> (r: bool)
        requires
            old(self).wf(),
        ensures
            final(self).wf(),
            same_but_state(old(self).procs(), final(self).procs()),
            final(self).current_index() == old(self).current_index(),
            final(self).ticks() == old(self).ticks(),
            final(self).slice_len() == old(self).slice_len(),
            final(self).pending() == old(self).pending(),
            r == (index_of_pid(old(self).procs(), pid) >= 0),
            r ==> states_of(final(self).procs()) == states_of(old(self).procs()).update(
                index_of_pid(old(self).procs(), pid),
                ProcessState::Dead,
            ),
            !r ==> final(self).procs() == old(self).procs(),
    {
        let mut i: usize = 0;
        while i < self.processes.len()
            invariant
                self.wf(),
                *self == *old(self),
                i <= self.procs().len(),
                index_of_pid(self.procs().subrange(0, i as int), pid) == -1,
            decreases self.procs().len() - i,
        {
            proof {
                assert(self.procs().subrange(0, i as int + 1).drop_last() =~= self.procs().subrange(0, i as int));
            }
            if self.processes[i].pid() == pid {
                proof {
                    lemma_index_of_prefix(self.procs(), pid, i as int + 1);
                }
                self.set_state_at(i, ProcessState::Dead);
                return true;
            }
            i += 1;
        }
        proof {
            assert(self.procs().subrange(0, i as int) =~= self.procs());
        }
        false
    }
}

/// A first match within a prefix is the first match overall.
proof fn lemma_index_of_prefix(ps: Seq<Process>, pid: u32, n: int)
    requires
        0 <= n <= ps.len(),
        index_of_pid(ps.subrange(0, n), pid) >= 0,
    ensures
        index_of_pid(ps, pid) == index_of_pid(ps.subrange(0, n), pid),
    decreases ps.len(),
{
    if n < ps.len() {
        assert(ps.drop_last().subrange(0, n) =~= ps.subrange(0, n));
        lemma_index_of_prefix(ps.drop_last(), pid, n);
    } else {
        assert(ps.subrange(0, n) =~= ps);
    }
}

/// Installs a fresh scheduler whose only process is `idle`.
pub fn init(sched: &mut Option<Scheduler>, idle: Process)
    ensures
        *final(sched) matches Some(s) && s.wf() && s.procs() == seq![idle] && s.current_index()
            == Some(0usize),
        final(sched).unwrap().ticks() == 0,
        final(sched).unwrap().slice_len() == 5,
        !final(sched).unwrap().pending(),
{
    *sched = Some(Scheduler::new(idle));
}

pub fn add_process(sched: &mut Option<Scheduler>, proc: Process) -> (r: u32)
    requires
        *old(sched) matches Some(s) && s.wf(),
    ensures
        r == proc.pid,
        *final(sched) matches Some(s) && s.wf() && s.procs() == old(sched).unwrap().procs().push(proc),
        final(sched).unwrap().current_index() == old(sched).unwrap().current_index(),
        final(sched).unwrap().ticks() == old(sched).unwrap().ticks(),
        final(sched).unwrap().slice_len() == old(sched).unwrap().slice_len(),
        final(sched).unwrap().pending() == old(sched).unwrap().pending(),
{
    match sched {
        Some(s) => s.add_process(proc),
        None => 0,
    }
}

pub fn current_pid(sched: &Option<Scheduler>) -> (r: u32)
    requires
        sched matches Some(s) && s.wf(),
    ensures
        r == match sched.unwrap().current_index() {
            Some(i) => sched.unwrap().procs()[i as int].pid,
            None => 0,
        },
{
    match sched {
        Some(s) => s.current_pid(),
        None => 0,
    }
}

/// The process list, empty before the scheduler exists.
pub fn list_processes(sched: &Option<Scheduler>) -> (r: Vec<(u32, &'static str, &'static str)>)
    ensures
        match sched {
            Some(s) => r@ == s.procs().map_values(|p: Process| (p.pid, p.name, state_name(p.state))),
            None => r@.len() == 0,
        },
{
    match sched {
        Some(s) => s.list_processes(),
        None => Vec::new(),
    }
}

/// Kills process `pid`; false when there is no scheduler or no such process.
pub fn kill_process(sched: &mut Option<Scheduler>, pid: u32) -> (r: bool)
    requires
        *old(sched) matches Some(s) ==> s.wf(),
    ensures
        match *old(sched) {
            Some(s) => r == (index_of_pid(s.procs(), pid) >= 0) && (*final(sched) matches Some(t)
                && t.wf() && t.current_index() == s.current_index() && t.ticks() == s.ticks()
                && t.slice_len() == s.slice_len() && t.pending() == s.pending()
                && (r ==> states_of(t.procs()) == states_of(s.procs()).update(index_of_pid(s.procs(), pid), ProcessState::Dead))
                && (!r ==> t.procs() == s.procs())),
            None => !r && final(sched).is_none(),
        },
{
    match sched {
        Some(s) => s.kill_process(pid),
        None => false,
    }
}

pub fn tick(sched: &mut Option<Scheduler>) -> (r: bool)
    requires
        *old(sched) matches Some(s) && s.wf(),
    ensures
        *final(sched) matches Some(s) && s.wf(),
        r == (old(sched).unwrap().ticks() + 1 >= old(sched).unwrap().slice_len()),
        final(sched).unwrap().ticks() == if r { 0 } else { (old(sched).unwrap().ticks() + 1) as u64 },
        final(sched).unwrap().procs() == old(sched).unwrap().procs(),
        final(sched).unwrap().current_index() == old(sched).unwrap().current_index(),
        final(sched).unwrap().slice_len() == old(sched).unwrap().slice_len(),
        final(sched).unwrap().pending() == old(sched).unwrap().pending(),
{
    match sched {
        Some(s) => s.tick(),
        None => false,
    }
}

/// Performs a requested switch; true when one was pending (and a pick was made).
pub fn check_and_schedule(sched: &mut Option<Scheduler>) -> (r: bool)
    requires
        *old(sched) matches Some(s) && s.wf(),
    ensures
        *final(sched) matches Some(s) && s.wf(),
        r == old(sched).unwrap().pending(),
        !r ==> *final(sched) == *old(sched),
        !final(sched).unwrap().pending(),
        final(sched).unwrap().ticks() == old(sched).unwrap().ticks(),
        final(sched).unwrap().slice_len() == old(sched).unwrap().slice_len(),
{
    match sched {
        Some(s) => {
            if s.take_switch_pending() {
                s.pick_next();
                true
            } else {
                false
            }
        },
        None => false,
    }
}

/// Moves to the next ready process after the current one, round robin: the current one goes
/// back to ready and the one picked runs; returns its index, or `None` when no other process
/// is ready (the current one then keeps running) or there is no current process.
pub fn pick_next_and_switch(sched: &mut Option<Scheduler>) -> (r: Option<usize>)
    requires
        *old(sched) matches Some(s) && s.wf(),
    ensures
        *final(sched) matches Some(s) && s.wf(),
        ({
            let s0 = old(sched).unwrap();
            let s1 = final(sched).unwrap();
            &&& same_but_state(s0.procs(), s1.procs())
            &&& s1.ticks() == s0.ticks() && s1.slice_len() == s0.slice_len() && s1.pending() == s0.pending()
            &&& match s0.current_index() {
                None => r.is_none() && s1.procs() == s0.procs() && s1.current_index().is_none(),
                Some(c) => {
                    let st = demoted(states_of(s0.procs()), c as int);
                    match first_ready(st, c as int, 1) {
                        Some(j) => r == Some(j as usize) && s1.current_index() == Some(j as usize)
                            && states_of(s1.procs()) == st.update(j, ProcessState::Running),
                        None => r.is_none() && s1.current_index() == Some(c) && states_of(s1.procs())
                            == st.update(c as int, ProcessState::Running),
                    }
                },
            }
        }),
{
    match sched {
        Some(s) => s.pick_next(),
        None => None,
    }
}

pub fn process_count(sched: &Option<Scheduler>) -> (r: usize)
    requires
        sched.is_some(),
    ensures
        r == sched.unwrap().procs().len(),
{
    match sched {
        Some(s) => s.process_count(),
        None => 0,
    }
}

pub fn list_pids(sched: &Option<Scheduler>) -> (r: Vec<u32>)
    requires
        sched.is_some(),
    ensures
        r@ == sched.unwrap().procs().map_values(|p: Process| p.pid),
{
    match sched {
        Some(s) => s.list_pids(),
        None => Vec::new(),
    }
}

/// Spawns a kernel thread: a ready process of priority 1 whose context starts on the given
/// stack (`stack_size` bytes from `stack_base`), added to the table. Returns its pid.
pub fn spawn_kernel_thread(
    sched: &mut Option<Scheduler>,
    pid: u32,
    name: &'static str,
    stack_base: usize,
    stack_size: usize,
) -> (r: u32)
    requires
        *old(sched) matches Some(s) && s.wf(),
        stack_base + stack_size <= usize::MAX,
        stack_base + stack_size >= 40,
    ensures
        r == pid,
        *final(sched) matches Some(s) && s.wf() && s.procs().len() == old(sched).unwrap().procs().len() + 1
            && s.procs().drop_last() == old(sched).unwrap().procs() && s.procs().last().pid == pid
            && s.procs().last().name == name && s.procs().last().priority == 1
            && s.procs().last().state == ProcessState::Ready && s.procs().last().stack() == (
        stack_base,
        stack_size,
    ) && s.procs().last().ctx.rsp == stack_base + stack_size - 40 && s.procs().last().ctx.rflags == 0x202,
        final(sched).unwrap().current_index() == old(sched).unwrap().current_index(),
        final(sched).unwrap().ticks() == old(sched).unwrap().ticks(),
        final(sched).unwrap().slice_len() == old(sched).unwrap().slice_len(),
        final(sched).unwrap().pending() == old(sched).unwrap().pending(),
{
    let ctx = Context::new_kernel_thread(stack_base as u64, stack_size as u64);
    let p = Process::from_parts(pid, name, 1, ctx, stack_base, stack_size);
    let r = add_process(sched, p);
    proof {
        let s = final(sched).unwrap();
        assert(s.procs().drop_last() =~= old(sched).unwrap().procs());
    }
    r
}

/// The saved registers of the current process: `None` when there is no scheduler, no
/// current process, or the current index lies outside the table.
pub fn current_ctx_mut(sched: &Option<Scheduler>) -> (r: Option<Context>)
    ensures
        r == match *sched {
            Some(s) => match s.current_index() {
                Some(i) => if i < s.procs().len() {
                    Some(s.procs()[i as int].ctx)
                } else {
                    None
                },
                None => None,
            },
            None => None,
        },
{
    match sched {
        Some(s) => match s.current {
            Some(i) => if i < s.processes.len() {
                Some(s.processes[i].ctx)
            } else {
                None
            },
            None => None,
        },
        None => None,
    }
}

/// The tick counter after `k` timer ticks from `t0` with a slice of `slice` ticks.
pub open spec fn ticks_after(t0: int, slice: int, k: nat) -> int
    decreases k,
{
    if k == 0 {
        t0
    } else {
        let t = ticks_after(t0, slice, (k - 1) as nat);
        if t + 1 >= slice { 0 } else { t + 1 }
    }
}

/// Whether the `k`-th timer tick (counting from 1) ends a slice.
pub open spec fn tick_fires(t0: int, slice: int, k: nat) -> bool {
    k >= 1 && ticks_after(t0, slice, (k - 1) as nat) + 1 >= slice
}

/// From a fresh scheduler (counter 0, slices of five ticks) the counter after `k` ticks is
/// `k % 5`, and exactly the ticks numbered 5, 10, 15, ... end a slice.
pub proof fn lemma_tick_every_fifth(k: nat)
    ensures
        ticks_after(0, 5, k) == k % 5,
        k >= 1 ==> (tick_fires(0, 5, k) <==> k % 5 == 0),
    decreases k,
{
    if k > 0 {
        lemma_tick_every_fifth((k - 1) as nat);
    }
}

/// No operation raises a switch request: along any run of schedulers that starts with no
/// request pending (as `init` leaves it), where each step keeps the flag or clears it (as
/// every operation on the scheduler does), no state has a request pending, so
/// `take_switch_pending` and `check_and_schedule` answer false throughout.
pub proof fn lemma_switch_never_raised(states: Seq<Scheduler>)
    requires
        states.len() > 0,
        !states[0].pending(),
        forall|i: int| 0 <= i < states.len() - 1 ==> keeps_quiet(states[i], #[trigger] states[i + 1]),
    ensures
        forall|i: int| 0 <= i < states.len() ==> !(#[trigger] states[i]).pending(),
    decreases states.len(),
{
    if states.len() > 1 {
        let prefix = states.drop_last();
        assert forall|i: int| 0 <= i < prefix.len() - 1 implies keeps_quiet(prefix[i], #[trigger] prefix[i + 1]) by {
            assert(keeps_quiet(states[i], states[i + 1]));
        }
        lemma_switch_never_raised(prefix);
        let n = states.len() - 1;
        let m = n - 1;
        assert(keeps_quiet(states[m], states[m + 1]));
        assert(!prefix[n - 1].pending());
        assert forall|i: int| 0 <= i < states.len() implies !(#[trigger] states[i]).pending() by {
            if i < n {
                assert(!prefix[i].pending());
            }
        }
    }
}

/// A step that keeps the switch flag off when it was off: every operation on the scheduler
/// either leaves the flag as it was or clears it.
pub open spec fn keeps_quiet(s0: Scheduler, s1: Scheduler) -> bool {
    s1.pending() ==> s0.pending()
}

} // verus!
