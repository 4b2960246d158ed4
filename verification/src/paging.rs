//! The address-space side of the data model: virtual and physical page
//! numbers, page-table entries with a tagged location, and the page table
//! itself.

use vstd::prelude::*;
use crate::memory::{frame_wf, no_free_frame, page_wf, table_wf, FrameTable, FrameTableEntry};
use crate::process::{
    only_refs_cleared, proc_same_shape, pte_at, valid_slot, Pid, Process, ProcessManager,
};
use crate::rng::random_index;

verus! {

/// A pluggable victim-selection strategy. `pick_victim` is called only when
/// the frame table is fully occupied; it may clear reference bits while
/// scanning (second chance) but must leave ownership, locations and dirty
/// bits alone.
pub trait PageReplacementPolicy: Sized {
    /// What the policy's own state must satisfy for a table of
    /// `frame_count` frames (the clock keeps its hand inside the table).
    spec fn policy_wf(&self, frame_count: nat) -> bool;

    fn pick_victim(&mut self, frame_table: &mut FrameTable, pm: &mut ProcessManager) -> (victim:
        Pfn)
        requires
            old(self).policy_wf(old(frame_table)@.len()),
            old(frame_table)@.len() > 0,
            no_free_frame(old(frame_table)@),
            table_wf(old(frame_table)@, old(pm)@),
        ensures
            final(self).policy_wf(old(frame_table)@.len()),
            final(frame_table)@ == old(frame_table)@,
            victim.0 < old(frame_table)@.len(),
            table_wf(final(frame_table)@, final(pm)@),
            only_refs_cleared(old(pm)@, final(pm)@),
    ;
}

/// A virtual page number: an index into one process's page table.
#[derive(Clone, Copy, PartialEq, Eq, Structural, Debug)]
pub struct Vpn(pub usize);

/// A physical frame number: an index into the global frame table.
#[derive(Clone, Copy, PartialEq, Eq, Structural, Debug)]
pub struct Pfn(pub usize);

/// A backing-store slot identifier, recording where an evicted page was
/// written. The simulation performs no real transfer, so slot identity only
/// matters for the clean-reuse optimization.
#[derive(Clone, Copy, PartialEq, Eq, Structural, Debug)]
pub struct Spn(pub usize);

/// Where the contents of a virtual page currently live. A tagged value keeps
/// "physical frame" and "backing-store slot" apart, with a separate case for
/// a page that was never faulted in at all.
#[derive(Clone, Copy, PartialEq, Eq, Structural, Debug)]
pub enum PageLocation {
    /// The page is resident in the named physical frame.
    InFrame(Pfn),
    /// The page was evicted; its last copy sits in the named slot.
    SwappedOut(Spn),
    /// The page has never been faulted in (zero-fill on first touch).
    NeverMapped,
}

/// One entry of a page table: the page's location plus the reference and
/// dirty bits maintained by the translator.
#[derive(Clone, Copy, PartialEq, Eq, Structural, Debug)]
pub struct PageTableEntry {
    pub location: PageLocation,
    pub referenced: bool,
    pub modified: bool,
}

impl PageTableEntry {
    /// A page is present exactly when it is resident in some frame.
    pub open spec fn is_present(self) -> bool {
        self.location is InFrame
    }

    /// The state every entry starts in: never mapped, no bits set.
    pub open spec fn absent() -> PageTableEntry {
        PageTableEntry { location: PageLocation::NeverMapped, referenced: false, modified: false }
    }

    pub fn new() -> (pte: PageTableEntry)
        ensures
            pte == PageTableEntry::absent(),
    {
        PageTableEntry { location: PageLocation::NeverMapped, referenced: false, modified: false }
    }
}

/// A per-process virtual-to-physical mapping: one entry per virtual page.
pub struct PageTable {
    pub entries: Vec<PageTableEntry>,
}

impl PageTable {
    pub fn new(page_count: usize) -> (pt: PageTable)
        ensures
            pt.entries@.len() == page_count,
            forall|i: int| 0 <= i < page_count ==> pt.entries@[i] == PageTableEntry::absent(),
    {
        let mut entries: Vec<PageTableEntry> = Vec::with_capacity(page_count);
        let mut idx: usize = 0;
        while idx < page_count
            invariant
                idx <= page_count,
                entries@.len() == idx,
                forall|i: int| 0 <= i < idx ==> entries@[i] == PageTableEntry::absent(),
            decreases page_count - idx,
        {
            entries.push(PageTableEntry::new());
            idx += 1;
        }
        PageTable { entries }
    }
}

/// Uniform-random selection over the whole frame range. Correct only under
/// the caller's guarantee that no frame is free: the draw does not filter by
/// ownership, so with free frames present it could name an unowned frame.
pub struct Random;

impl PageReplacementPolicy for Random {
    open spec fn policy_wf(&self, frame_count: nat) -> bool {
        true
    }

    fn pick_victim(&mut self, frame_table: &mut FrameTable, pm: &mut ProcessManager) -> (victim:
        Pfn) {
        let bound = frame_table.entries.len();
        let idx = random_index(bound);
        proof {
            assert forall|q: int| 0 <= q < pm@.len() implies proc_same_shape(pm@[q], pm@[q]) by {}
        }
        Pfn(idx)
    }
}

/// The number of hand advances needed to reach frame `j` from position
/// `from` on a table of `n` frames.
pub open spec fn cyc_dist(from: int, j: int, n: int) -> int {
    if j >= from {
        j - from
    } else {
        j + n - from
    }
}

/// Whether frame `i` holds a page whose reference bit is currently set.
pub open spec fn frame_referenced(
    frames: Seq<FrameTableEntry>,
    procs: Seq<Process>,
    i: int,
) -> bool {
    &&& frames[i].owner matches Some((pid, vpn))
    &&& valid_slot(procs, pid, vpn)
    &&& pte_at(procs, pid, vpn).referenced
}

/// How many of the first `n` frames hold a referenced page: the clock's
/// termination measure, since every pass over a referenced frame clears
/// exactly one bit.
pub open spec fn ref_count(frames: Seq<FrameTableEntry>, procs: Seq<Process>, n: int) -> nat
    decreases n,
{
    if n <= 0 {
        0
    } else {
        ref_count(frames, procs, n - 1) + (if frame_referenced(frames, procs, n - 1) {
            1nat
        } else {
            0nat
        })
    }
}

/// The clock's termination measure is bounded by the frame count: over a
/// fully occupied table at most `n` reference bits can be set, each hand
/// advance but the last clears one, so a selection takes at most `n + 1`
/// hand advances — within twice the frame count.
pub proof fn lemma_ref_count_bounded(frames: Seq<FrameTableEntry>, procs: Seq<Process>, n: int)
    requires
        0 <= n <= frames.len(),
    ensures
        ref_count(frames, procs, n) <= n,
    decreases n,
{
    if n > 0 {
        lemma_ref_count_bounded(frames, procs, n - 1);
    }
}

proof fn lemma_ref_count_same(
    frames: Seq<FrameTableEntry>,
    procs1: Seq<Process>,
    procs2: Seq<Process>,
    n: int,
)
    requires
        forall|i: int| 0 <= i < n ==> #[trigger] frame_referenced(frames, procs2, i)
            == frame_referenced(frames, procs1, i),
    ensures
        ref_count(frames, procs2, n) == ref_count(frames, procs1, n),
    decreases n,
{
    if n > 0 {
        lemma_ref_count_same(frames, procs1, procs2, n - 1);
    }
}

proof fn lemma_ref_count_decreases(
    frames: Seq<FrameTableEntry>,
    procs1: Seq<Process>,
    procs2: Seq<Process>,
    k: int,
    n: int,
)
    requires
        0 <= k < n,
        forall|i: int| 0 <= i < n && i != k ==> #[trigger] frame_referenced(frames, procs2, i)
            == frame_referenced(frames, procs1, i),
        frame_referenced(frames, procs1, k),
        !frame_referenced(frames, procs2, k),
    ensures
        ref_count(frames, procs2, n) < ref_count(frames, procs1, n),
    decreases n,
{
    if k == n - 1 {
        lemma_ref_count_same(frames, procs1, procs2, n - 1);
    } else {
        lemma_ref_count_decreases(frames, procs1, procs2, k, n - 1);
    }
}

/// Second-chance selection: a persistent circular hand scans the frames,
/// clearing reference bits until it finds a frame whose page is
/// unreferenced.
pub struct Clock {
    pub hand: usize,
}

impl Clock {
    pub fn new() -> (c: Clock)
        ensures
            c.hand == 0,
    {
        Clock { hand: 0 }
    }

    /// Advance the hand by one, wrapping at `frame_count`.
    pub fn inc(&mut self, frame_count: usize)
        requires
            old(self).hand < frame_count,
        ensures
            final(self).hand == (if old(self).hand + 1 == frame_count {
                0int
            } else {
                old(self).hand + 1
            }),
            final(self).hand < frame_count,
    {
        self.hand = self.hand + 1;
        if self.hand == frame_count {
            self.hand = 0;
        }
    }

    /// Scan from the hand over the fully occupied frame table: each
    /// referenced page passed over has its bit cleared; the first frame
    /// whose page is unreferenced is taken, and the hand advances past it.
    /// The scan terminates because every non-final step clears one bit.
    pub fn select_victim(&mut self, frame_table: &mut FrameTable, pm: &mut ProcessManager) -> (victim: Pfn)
        requires
            old(self).hand < old(frame_table)@.len(),
            no_free_frame(old(frame_table)@),
            table_wf(old(frame_table)@, old(pm)@),
        ensures
            final(self).hand < old(frame_table)@.len(),
            final(self).hand == (if victim.0 + 1 == old(frame_table)@.len() {
                0int
            } else {
                victim.0 + 1
            }),
            final(frame_table)@ == old(frame_table)@,
            victim.0 < old(frame_table)@.len(),
            table_wf(final(frame_table)@, final(pm)@),
            only_refs_cleared(old(pm)@, final(pm)@),
            (final(frame_table)@[victim.0 as int].owner matches Some((p, v)) && pte_at(
                final(pm)@,
                p,
                v,
            ).referenced == false),
            ({
                let frames = old(frame_table)@;
                let procs0 = old(pm)@;
                let n = frames.len() as int;
                let hand0 = old(self).hand as int;
                let steps = (if frame_referenced(frames, procs0, victim.0 as int) {
                    n
                } else {
                    cyc_dist(hand0, victim.0 as int, n)
                });
                // the victim is the first frame from the hand whose page was
                // already unreferenced; with every bit set the scan clears
                // them all and wraps back to the hand itself
                &&& (frame_referenced(frames, procs0, victim.0 as int) ==> victim.0 == hand0)
                &&& forall|j: int|
                    0 <= j < n && cyc_dist(hand0, j, n) < steps ==> #[trigger] frame_referenced(
                        frames,
                        procs0,
                        j,
                    ) && !frame_referenced(frames, final(pm)@, j)
                &&& forall|j: int|
                    0 <= j < n && cyc_dist(hand0, j, n) >= steps ==> #[trigger] frame_referenced(
                        frames,
                        final(pm)@,
                        j,
                    ) == frame_referenced(frames, procs0, j)
            }),
    {
        let frame_count = frame_table.entries.len();
        let ghost frames0 = frame_table@;
        let ghost procs0 = pm@;
        let ghost hand0 = self.hand as int;
        let ghost mut steps: int = 0;
        proof {
            assert forall|q: int| 0 <= q < pm@.len() implies proc_same_shape(pm@[q], pm@[q]) by {}
        }
        loop
            invariant
                frames0 == old(frame_table)@,
                procs0 == old(pm)@,
                hand0 == old(self).hand as int,
                0 <= hand0 < frames0.len(),
                frame_table@ == frames0,
                self.hand < frame_count,
                frame_count == frames0.len(),
                frame_count > 0,
                no_free_frame(frames0),
                table_wf(frames0, pm@),
                only_refs_cleared(procs0, pm@),
                0 <= steps <= frames0.len(),
                self.hand as int == (if hand0 + steps < frames0.len() {
                    hand0 + steps
                } else {
                    hand0 + steps - frames0.len()
                }),
                forall|j: int|
                    0 <= j < frames0.len() && cyc_dist(hand0, j, frames0.len() as int) < steps
                        ==> #[trigger] frame_referenced(frames0, procs0, j) && !frame_referenced(
                        frames0,
                        pm@,
                        j,
                    ),
                forall|j: int|
                    0 <= j < frames0.len() && cyc_dist(hand0, j, frames0.len() as int) >= steps
                        ==> #[trigger] frame_referenced(frames0, pm@, j) == frame_referenced(
                        frames0,
                        procs0,
                        j,
                    ),
            decreases ref_count(frames0, pm@, frames0.len() as int),
        {
            let fte = frame_table.entries[self.hand];
            match fte.owner {
                Some((pid, vpn)) => {
                    proof {
                        assert(frame_wf(frames0, pm@, self.hand as int));
                    }
                    let referenced = pm.processes[pid.0].page_table.entries[vpn.0].referenced;
                    if referenced {
                        proof {
                            // a full wrap would have cleared the bit under
                            // the hand, so the scan is still short of one
                            assert(frame_referenced(frames0, pm@, self.hand as int));
                            if steps == frames0.len() as int {
                                assert(cyc_dist(hand0, self.hand as int, frames0.len() as int)
                                    < steps);
                                assert(frame_referenced(frames0, procs0, self.hand as int));
                                assert(!frame_referenced(frames0, pm@, self.hand as int));
                                assert(false);
                            }
                            assert(cyc_dist(hand0, self.hand as int, frames0.len() as int)
                                == steps);
                        }
                        let ghost procs_pre = pm@;
                        let pte = pm.get_mut_pte(pid, vpn);
                        pte.referenced = false;
                        proof {
                            let hand = self.hand as int;
                            assert forall|i: int|
                                0 <= i < frames0.len() && i != hand implies #[trigger]
                            frame_referenced(frames0, pm@, i) == frame_referenced(
                                frames0,
                                procs_pre,
                                i,
                            ) by {
                                assert(frame_wf(frames0, procs_pre, i));
                                assert(frame_wf(frames0, procs_pre, hand));
                                match frames0[i].owner {
                                    Some((p, v)) => {
                                        if p == pid && v == vpn {
                                            assert(false);
                                        }
                                        if p.0 != pid.0 {
                                            assert(pm@[p.0 as int] == procs_pre[p.0 as int]);
                                        }
                                        assert(pte_at(pm@, p, v) == pte_at(procs_pre, p, v));
                                    },
                                    None => {},
                                }
                            }
                            assert(frame_referenced(frames0, procs_pre, hand));
                            assert(!frame_referenced(frames0, pm@, hand));
                            lemma_ref_count_decreases(
                                frames0,
                                procs_pre,
                                pm@,
                                hand,
                                frames0.len() as int,
                            );
                            assert forall|i: int| 0 <= i < frames0.len() implies frame_wf(
                                frames0,
                                pm@,
                                i,
                            ) by {
                                assert(frame_wf(frames0, procs_pre, i));
                                match frames0[i].owner {
                                    Some((p, v)) => {
                                        if p.0 != pid.0 {
                                            assert(pm@[p.0 as int] == procs_pre[p.0 as int]);
                                        }
                                        assert(pte_at(pm@, p, v).location == pte_at(
                                            procs_pre,
                                            p,
                                            v,
                                        ).location);
                                    },
                                    None => {},
                                }
                            }
                            assert forall|p: Pid, v: Vpn| valid_slot(pm@, p, v) implies page_wf(
                                frames0,
                                pm@,
                                p,
                                v,
                            ) by {
                                assert(valid_slot(procs_pre, p, v));
                                assert(page_wf(frames0, procs_pre, p, v));
                                if p.0 != pid.0 {
                                    assert(pm@[p.0 as int] == procs_pre[p.0 as int]);
                                }
                                assert(pte_at(pm@, p, v).location == pte_at(
                                    procs_pre,
                                    p,
                                    v,
                                ).location);
                            }
                            assert forall|p: Pid, v: Vpn| valid_slot(procs0, p, v) implies {
                                &&& (#[trigger] pte_at(pm@, p, v)).location == pte_at(
                                    procs0,
                                    p,
                                    v,
                                ).location
                                &&& pte_at(pm@, p, v).modified == pte_at(procs0, p, v).modified
                                &&& (pte_at(pm@, p, v).referenced ==> pte_at(
                                    procs0,
                                    p,
                                    v,
                                ).referenced)
                            } by {
                                assert(pte_at(procs_pre, p, v).location == pte_at(
                                    procs0,
                                    p,
                                    v,
                                ).location);
                                if p.0 != pid.0 {
                                    assert(pm@[p.0 as int] == procs_pre[p.0 as int]);
                                }
                            }
                            assert forall|q: int| 0 <= q < procs0.len() implies proc_same_shape(
                                procs0[q],
                                pm@[q],
                            ) by {
                                assert(proc_same_shape(procs0[q], procs_pre[q]));
                            }
                            // scan bookkeeping: the hand's frame sits at
                            // distance `steps` and is the one just cleared
                            let n = frames0.len() as int;
                            assert(frame_referenced(frames0, procs_pre, hand)
                                == frame_referenced(frames0, procs0, hand));
                            assert forall|j: int|
                                0 <= j < n && cyc_dist(hand0, j, n) < steps + 1 implies #[trigger]
                            frame_referenced(frames0, procs0, j) && !frame_referenced(
                                frames0,
                                pm@,
                                j,
                            ) by {
                                if cyc_dist(hand0, j, n) < steps {
                                    assert(j != hand);
                                    assert(frame_referenced(frames0, pm@, j) == frame_referenced(
                                        frames0,
                                        procs_pre,
                                        j,
                                    ));
                                } else {
                                    assert(j == hand);
                                }
                            }
                            assert forall|j: int|
                                0 <= j < n && cyc_dist(hand0, j, n) >= steps + 1
                                    implies #[trigger] frame_referenced(frames0, pm@, j)
                                == frame_referenced(frames0, procs0, j) by {
                                assert(j != hand);
                                assert(frame_referenced(frames0, pm@, j) == frame_referenced(
                                    frames0,
                                    procs_pre,
                                    j,
                                ));
                            }
                        }
                        self.inc(frame_count);
                        proof {
                            steps = steps + 1;
                        }
                    } else {
                        let victim = self.hand;
                        proof {
                            let n = frames0.len() as int;
                            let hand = self.hand as int;
                            assert(!frame_referenced(frames0, pm@, hand));
                            if steps == n {
                                assert(cyc_dist(hand0, hand, n) == 0);
                                assert(frame_referenced(frames0, procs0, hand));
                            } else {
                                assert(cyc_dist(hand0, hand, n) == steps);
                                assert(frame_referenced(frames0, pm@, hand) == frame_referenced(
                                    frames0,
                                    procs0,
                                    hand,
                                ));
                                assert(!frame_referenced(frames0, procs0, hand));
                            }
                        }
                        self.inc(frame_count);
                        return Pfn(victim);
                    }
                },
                None => {
                    proof {
                        assert(frames0[self.hand as int].owner is Some);
                    }
                    return vstd::pervasive::unreached();
                },
            }
        }
    }
}

impl PageReplacementPolicy for Clock {
    open spec fn policy_wf(&self, frame_count: nat) -> bool {
        (self.hand as nat) < frame_count
    }

    fn pick_victim(&mut self, frame_table: &mut FrameTable, pm: &mut ProcessManager) -> (victim:
        Pfn) {
        self.select_victim(frame_table, pm)
    }
}

} // verus!
