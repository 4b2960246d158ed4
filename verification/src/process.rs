//! Processes and their registry: each process owns a page table and a
//! synthetic workload generator (a working set re-sampled with configurable
//! locality, and a lifespan after which the process stops issuing requests).

use vstd::prelude::*;
use crate::mmu::Operation;
use crate::paging::{PageTable, PageTableEntry, Vpn};
use crate::rng::{random_chance, random_index};

verus! {

/// Probability that a reference falls inside the current working set: 9 in 10.
pub const WORKING_SET_HIT_NUM: u32 = 9;
pub const WORKING_SET_HIT_DEN: u32 = 10;

/// Probability that an access is a read rather than a write: 4 in 5.
pub const READ_NUM: u32 = 4;
pub const READ_DEN: u32 = 5;

/// A process identifier: an index into the process registry.
#[derive(Clone, Copy, PartialEq, Eq, Structural, Debug)]
pub struct Pid(pub usize);

/// The registry of processes, owned by the kernel and indexed by `Pid`.
pub struct ProcessManager {
    pub processes: Vec<Process>,
}

impl View for ProcessManager {
    type V = Seq<Process>;

    open spec fn view(&self) -> Seq<Process> {
        self.processes@
    }
}

/// The page-table entry of process `pid` at `vpn`.
pub open spec fn pte_at(procs: Seq<Process>, pid: Pid, vpn: Vpn) -> PageTableEntry {
    procs[pid.0 as int].page_table.entries@[vpn.0 as int]
}

/// Whether `(pid, vpn)` indexes an existing page-table entry.
pub open spec fn valid_slot(procs: Seq<Process>, pid: Pid, vpn: Vpn) -> bool {
    &&& pid.0 < procs.len()
    &&& vpn.0 < procs[pid.0 as int].page_table.entries@.len()
}

/// `b` is `a` with at most the page-table entries changed: identity, page
/// count, workload state and table lengths all agree.
pub open spec fn proc_same_shape(a: Process, b: Process) -> bool {
    &&& b.pid == a.pid
    &&& b.page_count == a.page_count
    &&& b.working_set == a.working_set
    &&& b.state == a.state
    &&& b.page_table.entries@.len() == a.page_table.entries@.len()
}

pub open spec fn same_shape(a: Seq<Process>, b: Seq<Process>) -> bool {
    &&& b.len() == a.len()
    &&& forall|p: int| 0 <= p < a.len() ==> proc_same_shape(a[p], #[trigger] b[p])
}

/// `b` is `a` with at most some reference bits cleared: every entry keeps its
/// location and dirty bit, and a reference bit set in `b` was set in `a`.
pub open spec fn only_refs_cleared(a: Seq<Process>, b: Seq<Process>) -> bool {
    &&& same_shape(a, b)
    &&& forall|pid: Pid, vpn: Vpn|
        valid_slot(a, pid, vpn) ==> {
            &&& (#[trigger] pte_at(b, pid, vpn)).location == pte_at(a, pid, vpn).location
            &&& pte_at(b, pid, vpn).modified == pte_at(a, pid, vpn).modified
            &&& (pte_at(b, pid, vpn).referenced ==> pte_at(a, pid, vpn).referenced)
        }
}

impl ProcessManager {
    pub fn new() -> (pm: ProcessManager)
        ensures
            pm@.len() == 0,
    {
        ProcessManager { processes: Vec::new() }
    }

    pub fn spawn_process(&mut self, process: Process)
        ensures
            final(self)@ == old(self)@.push(process),
    {
        self.processes.push(process);
    }

    pub fn get_mut_process(&mut self, pid: Pid) -> (r: Option<&mut Process>)
        ensures
            pid.0 < old(self)@.len() ==> (r matches Some(p)
                && *p == old(self)@[pid.0 as int]
                && final(self)@ == old(self)@.update(pid.0 as int, *final(p))),
            pid.0 >= old(self)@.len() ==> r is None && final(self)@ == old(self)@,
    {
        if pid.0 < self.processes.len() {
            Some(&mut self.processes[pid.0])
        } else {
            None
        }
    }

    pub fn process_count(&self) -> (n: usize)
        ensures
            n == self@.len(),
    {
        self.processes.len()
    }

    pub fn get_mut_pte(&mut self, pid: Pid, vpn: Vpn) -> (pte: &mut PageTableEntry)
        requires
            valid_slot(old(self)@, pid, vpn),
        ensures
            *pte == pte_at(old(self)@, pid, vpn),
            final(self)@.len() == old(self)@.len(),
            forall|q: int| 0 <= q < old(self)@.len() && q != pid.0 ==> final(self)@[q] == old(
                self,
            )@[q],
            proc_same_shape(old(self)@[pid.0 as int], final(self)@[pid.0 as int]),
            final(self)@[pid.0 as int].page_table.entries@ == old(self)@[pid.0 as int]
                .page_table.entries@.update(vpn.0 as int, *final(pte)),
            pte_at(final(self)@, pid, vpn) == *final(pte),
    {
        &mut self.processes[pid.0].page_table.entries[vpn.0]
    }
}

/// A simulated process: its page table plus the workload parameters that
/// drive its synthetic reference stream.
pub struct Process {
    pub pid: Pid,
    pub page_table: PageTable,
    pub page_count: usize,
    pub working_set: WorkingSet,
    pub state: ProcessState,
}

/// What every process established at construction keeps for its whole life.
pub open spec fn proc_wf(p: Process) -> bool {
    &&& p.page_count > 0
    &&& p.page_table.entries@.len() == p.page_count
    &&& p.working_set.size > 0
    &&& p.working_set.vpns@.len() == p.working_set.size
    &&& forall|i: int| 0 <= i < p.working_set.vpns@.len() ==> p.working_set.vpns@[i]
        < p.page_count
}

impl Process {
    pub fn new(
        pid: Pid,
        page_count: usize,
        working_set_size: usize,
        lifespan: usize,
        working_set_lifespan: usize,
    ) -> (p: Process)
        requires
            page_count > 0,
            working_set_size > 0,
        ensures
            proc_wf(p),
            p.pid == pid,
            p.page_count == page_count,
            p.working_set.size == working_set_size,
            p.state == (ProcessState {
                age: 0,
                lifespan,
                working_set_age: 0,
                working_set_lifespan,
            }),
            p.page_table.entries@.len() == page_count,
            forall|i: int| 0 <= i < page_count ==> p.page_table.entries@[i]
                == PageTableEntry::absent(),
    {
        let page_table = PageTable::new(page_count);
        let mut working_set = WorkingSet::new(working_set_size);
        working_set.scramble(page_count);
        let state = ProcessState::new(lifespan, working_set_lifespan);
        Process { pid, page_table, page_count, working_set, state }
    }

    /// Produce the next synthetic memory reference, or `Termination` once the
    /// process has outlived its lifespan. A live request ages the process,
    /// re-samples the working set when it has expired, and draws a page:
    /// usually from the working set, otherwise uniformly from all pages.
    pub fn request(&mut self) -> (r: Request)
        requires
            proc_wf(*old(self)),
        ensures
            proc_wf(*final(self)),
            final(self).pid == old(self).pid,
            final(self).page_count == old(self).page_count,
            final(self).page_table == old(self).page_table,
            final(self).state.lifespan == old(self).state.lifespan,
            final(self).state.working_set_lifespan == old(self).state.working_set_lifespan,
            (r is Termination) <==> old(self).state.age >= old(self).state.lifespan,
            r is Termination ==> *final(self) == *old(self),
            r matches Request::MemoryReference { vpn, operation } ==> {
                &&& vpn < old(self).page_count
                &&& final(self).state.age == old(self).state.age + 1
                &&& (old(self).state.working_set_age >= old(self).state.working_set_lifespan
                    ==> final(self).state.working_set_age == 1)
                &&& (old(self).state.working_set_age < old(self).state.working_set_lifespan ==> {
                    &&& final(self).state.working_set_age == old(self).state.working_set_age + 1
                    &&& final(self).working_set == old(self).working_set
                })
            },
    {
        if self.state.age >= self.state.lifespan {
            return Request::Termination;
        }

        if self.state.working_set_age >= self.state.working_set_lifespan {
            self.working_set.scramble(self.page_count);
            self.state.working_set_age = 0;
        }

        self.state.age = self.state.age + 1;
        self.state.working_set_age = self.state.working_set_age + 1;

        let working_set_hit = random_chance(WORKING_SET_HIT_NUM, WORKING_SET_HIT_DEN);
        let vpn: usize = if working_set_hit {
            let idx = random_index(self.working_set.size);
            self.working_set.vpns[idx]
        } else {
            random_index(self.page_count)
        };

        let is_read = random_chance(READ_NUM, READ_DEN);
        let operation = if is_read {
            Operation::Read
        } else {
            Operation::Write
        };

        Request::MemoryReference { vpn, operation }
    }
}

/// What one tick of a process's workload produces.
#[derive(Clone, Copy, PartialEq, Eq, Structural, Debug)]
pub enum Request {
    MemoryReference { vpn: usize, operation: Operation },
    Termination,
}

/// A process's ages: how long it has run, and how long since its working set
/// was last re-sampled.
#[derive(Clone, Copy, PartialEq, Eq, Structural, Debug)]
pub struct ProcessState {
    pub age: usize,
    pub lifespan: usize,
    pub working_set_age: usize,
    pub working_set_lifespan: usize,
}

impl ProcessState {
    pub fn new(lifespan: usize, working_set_lifespan: usize) -> (s: ProcessState)
        ensures
            s == (ProcessState { age: 0, lifespan, working_set_age: 0, working_set_lifespan }),
    {
        ProcessState { age: 0, lifespan, working_set_age: 0, working_set_lifespan }
    }
}

/// The pages a process currently favours: referenced with high probability
/// until the set is re-sampled.
pub struct WorkingSet {
    pub size: usize,
    pub vpns: Vec<usize>,
}

impl WorkingSet {
    pub fn new(size: usize) -> (ws: WorkingSet)
        ensures
            ws.size == size,
            ws.vpns@.len() == 0,
    {
        WorkingSet { size, vpns: Vec::with_capacity(size) }
    }

    /// Re-sample the working set: `size` pages drawn uniformly from
    /// `[0, page_count)`, repetitions allowed.
    pub fn scramble(&mut self, page_count: usize)
        requires
            page_count > 0,
        ensures
            final(self).size == old(self).size,
            final(self).vpns@.len() == old(self).size,
            forall|i: int| 0 <= i < final(self).vpns@.len() ==> final(self).vpns@[i] < page_count,
    {
        self.vpns.clear();
        let mut drawn: usize = 0;
        let ghost size0 = self.size;
        while drawn < self.size
            invariant
                drawn <= self.size,
                self.size == size0,
                self.vpns@.len() == drawn,
                page_count > 0,
                forall|i: int| 0 <= i < self.vpns@.len() ==> self.vpns@[i] < page_count,
            decreases self.size - drawn,
        {
            let vpn = random_index(page_count);
            self.vpns.push(vpn);
            drawn += 1;
        }
    }
}

} // verus!
