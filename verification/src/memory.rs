//! The physical side of the data model and the memory manager: the global
//! frame table, the well-formedness invariant tying it to the page tables,
//! and the fault-resolution protocol with its swap bookkeeping.

use vstd::prelude::*;
use crate::mmu::Mmu;
use crate::paging::{PageLocation, PageReplacementPolicy, PageTableEntry, Pfn, Spn, Vpn};
use crate::process::{
    only_refs_cleared, proc_same_shape, pte_at, same_shape, valid_slot, Pid, Process,
    ProcessManager,
};

verus! {

/// The slot identifier handed out by a swap-out. The simulation writes no
/// real backing store, so one symbolic slot stands for "written out".
pub const BACKING_SLOT: usize = 0xDEAD_BEEF;

/// One entry of the global frame table: the page that owns the frame, if
/// any, and the backing-store slot last known to hold a copy of that page.
#[derive(Clone, Copy, Debug)]
pub struct FrameTableEntry {
    pub owner: Option<(Pid, Vpn)>,
    pub spn: Option<Spn>,
}

impl FrameTableEntry {
    pub fn new() -> (fte: FrameTableEntry)
        ensures
            fte == (FrameTableEntry { owner: None, spn: None }),
    {
        FrameTableEntry { owner: None, spn: None }
    }

    /// A frame is free exactly when it has no owner.
    pub fn is_free(&self) -> (r: bool)
        ensures
            r == (self.owner is None),
    {
        self.owner.is_none()
    }

    pub fn clear(&mut self)
        ensures
            *final(self) == (FrameTableEntry { owner: None, spn: None }),
    {
        self.owner = None;
        self.spn = None;
    }

    pub fn assign(&mut self, pid: Pid, vpn: Vpn, spn: Option<Spn>)
        ensures
            *final(self) == (FrameTableEntry { owner: Some((pid, vpn)), spn }),
    {
        self.owner = Some((pid, vpn));
        self.spn = spn;
    }
}

/// The fixed-size inventory of physical frames.
pub struct FrameTable {
    pub entries: Vec<FrameTableEntry>,
}

impl View for FrameTable {
    type V = Seq<FrameTableEntry>;

    open spec fn view(&self) -> Seq<FrameTableEntry> {
        self.entries@
    }
}

/// Frame `i`'s owner, if it has one, points back at it: the owning process's
/// entry exists, is present, and names exactly this frame.
pub open spec fn frame_wf(frames: Seq<FrameTableEntry>, procs: Seq<Process>, i: int) -> bool {
    frames[i].owner matches Some((pid, vpn)) ==> {
        &&& valid_slot(procs, pid, vpn)
        &&& (pte_at(procs, pid, vpn).location matches PageLocation::InFrame(f) && f.0 == i)
    }
}

/// A present page-table entry points at a frame that is owned by exactly
/// that page.
pub open spec fn page_wf(frames: Seq<FrameTableEntry>, procs: Seq<Process>, pid: Pid, vpn: Vpn) -> bool {
    pte_at(procs, pid, vpn).location matches PageLocation::InFrame(f) ==> {
        &&& f.0 < frames.len()
        &&& frames[f.0 as int].owner == Some((pid, vpn))
    }
}

/// The system invariant: frame ownership and page presence form a partial
/// bijection between frames and page-table entries.
pub open spec fn table_wf(frames: Seq<FrameTableEntry>, procs: Seq<Process>) -> bool {
    &&& forall|i: int| 0 <= i < frames.len() ==> #[trigger] frame_wf(frames, procs, i)
    &&& forall|pid: Pid, vpn: Vpn| valid_slot(procs, pid, vpn) ==> #[trigger] page_wf(
        frames,
        procs,
        pid,
        vpn,
    )
}

/// The frame table is fully occupied.
pub open spec fn no_free_frame(frames: Seq<FrameTableEntry>) -> bool {
    forall|i: int| 0 <= i < frames.len() ==> (#[trigger] frames[i]).owner is Some
}

impl FrameTable {
    pub fn new(frame_count: usize) -> (ft: FrameTable)
        ensures
            ft@.len() == frame_count,
            forall|i: int| 0 <= i < frame_count ==> ft@[i] == (FrameTableEntry {
                owner: None,
                spn: None,
            }),
    {
        let mut entries: Vec<FrameTableEntry> = Vec::with_capacity(frame_count);
        let mut idx: usize = 0;
        while idx < frame_count
            invariant
                idx <= frame_count,
                entries@.len() == idx,
                forall|i: int| 0 <= i < idx ==> entries@[i] == (FrameTableEntry {
                    owner: None,
                    spn: None,
                }),
            decreases frame_count - idx,
        {
            entries.push(FrameTableEntry::new());
            idx += 1;
        }
        FrameTable { entries }
    }

    /// The lowest-numbered free frame, if any frame is free.
    pub fn get_unassigned(&self) -> (r: Option<Pfn>)
        ensures
            match r {
                Some(pfn) => {
                    &&& pfn.0 < self@.len()
                    &&& self@[pfn.0 as int].owner is None
                    &&& forall|j: int| 0 <= j < pfn.0 ==> (#[trigger] self@[j]).owner is Some
                },
                None => no_free_frame(self@),
            },
    {
        let mut idx: usize = 0;
        while idx < self.entries.len()
            invariant
                idx <= self@.len(),
                forall|j: int| 0 <= j < idx ==> (#[trigger] self@[j]).owner is Some,
            decreases self@.len() - idx,
        {
            if self.entries[idx].is_free() {
                return Some(Pfn(idx));
            }
            idx += 1;
        }
        None
    }
}

/// How many of the first `n` frames are owned.
pub open spec fn owned_count(frames: Seq<FrameTableEntry>, n: int) -> nat
    decreases n,
{
    if n <= 0 {
        0
    } else {
        owned_count(frames, n - 1) + (if frames[n - 1].owner is Some {
            1nat
        } else {
            0nat
        })
    }
}

pub proof fn lemma_owned_count_bounded(frames: Seq<FrameTableEntry>, n: int)
    requires
        0 <= n <= frames.len(),
    ensures
        owned_count(frames, n) <= n,
    decreases n,
{
    if n > 0 {
        lemma_owned_count_bounded(frames, n - 1);
    }
}

/// The data model's invariants, spelled out from the system invariant: no
/// two frames share an owner; a frame's owner has a present entry pointing
/// back at that frame; the number of owned frames never exceeds the frame
/// count; and an absent page-table entry has no frame pointing at it.
pub proof fn lemma_table_wf_invariants(frames: Seq<FrameTableEntry>, procs: Seq<Process>)
    requires
        table_wf(frames, procs),
    ensures
        forall|i: int, j: int|
            0 <= i < frames.len() && 0 <= j < frames.len() && (#[trigger] frames[i]).owner
                is Some && frames[i].owner == (#[trigger] frames[j]).owner ==> i == j,
        forall|i: int| 0 <= i < frames.len() ==> #[trigger] frame_wf(frames, procs, i),
        owned_count(frames, frames.len() as int) <= frames.len(),
        forall|i: int, pid: Pid, vpn: Vpn|
            0 <= i < frames.len() && valid_slot(procs, pid, vpn) && !(#[trigger] pte_at(
                procs,
                pid,
                vpn,
            )).is_present() ==> (#[trigger] frames[i]).owner != Some((pid, vpn)),
{
    lemma_owned_count_bounded(frames, frames.len() as int);
    assert forall|i: int, j: int|
        0 <= i < frames.len() && 0 <= j < frames.len() && (#[trigger] frames[i]).owner is Some
            && frames[i].owner == (#[trigger] frames[j]).owner implies i == j by {
        assert(frame_wf(frames, procs, i));
        assert(frame_wf(frames, procs, j));
    }
    assert forall|i: int, pid: Pid, vpn: Vpn|
        0 <= i < frames.len() && valid_slot(procs, pid, vpn) && !(#[trigger] pte_at(
            procs,
            pid,
            vpn,
        )).is_present() implies (#[trigger] frames[i]).owner != Some((pid, vpn)) by {
        assert(frame_wf(frames, procs, i));
    }
}

/// Registering a fresh process whose pages are all absent preserves the
/// system invariant: no frame can point into the new, empty page table.
pub proof fn lemma_spawn_preserves_wf(
    frames: Seq<FrameTableEntry>,
    procs: Seq<Process>,
    p: Process,
)
    requires
        table_wf(frames, procs),
        forall|v: int| 0 <= v < p.page_table.entries@.len() ==> !(#[trigger] p
            .page_table.entries@[v]).is_present(),
    ensures
        table_wf(frames, procs.push(p)),
{
    let procs1 = procs.push(p);
    assert forall|i: int| 0 <= i < frames.len() implies frame_wf(frames, procs1, i) by {
        assert(frame_wf(frames, procs, i));
        match frames[i].owner {
            Some((q, v)) => {
                assert(procs1[q.0 as int] == procs[q.0 as int]);
                assert(pte_at(procs1, q, v) == pte_at(procs, q, v));
            },
            None => {},
        }
    }
    assert forall|q: Pid, v: Vpn| valid_slot(procs1, q, v) implies page_wf(
        frames,
        procs1,
        q,
        v,
    ) by {
        if q.0 < procs.len() {
            assert(valid_slot(procs, q, v));
            assert(page_wf(frames, procs, q, v));
            assert(pte_at(procs1, q, v) == pte_at(procs, q, v));
        } else {
            assert(procs1[q.0 as int] == p);
            assert(!pte_at(procs1, q, v).is_present());
        }
    }
}

/// The externally observable cost counters of demand paging.
#[derive(Clone, Copy, PartialEq, Eq, Structural, Debug)]
pub struct MemoryStats {
    pub swap_out_count: u64,
    pub swap_in_count: u64,
}

impl MemoryStats {
    pub fn new() -> (stats: MemoryStats)
        ensures
            stats == (MemoryStats { swap_out_count: 0, swap_in_count: 0 }),
    {
        MemoryStats { swap_out_count: 0, swap_in_count: 0 }
    }
}

/// The central orchestrator: owns the frame table, the translator, the
/// active replacement policy and the swap counters.
pub struct MemoryManager<P: PageReplacementPolicy> {
    pub frame_table: FrameTable,
    pub mmu: Mmu,
    pub policy: P,
    pub stats: MemoryStats,
}

impl<P: PageReplacementPolicy> MemoryManager<P> {
    pub fn new(policy: P, frame_count: usize) -> (mm: MemoryManager<P>)
        ensures
            mm.frame_table@.len() == frame_count,
            forall|i: int| 0 <= i < frame_count ==> mm.frame_table@[i] == (FrameTableEntry {
                owner: None,
                spn: None,
            }),
            mm.policy == policy,
            mm.stats == (MemoryStats { swap_out_count: 0, swap_in_count: 0 }),
    {
        MemoryManager {
            frame_table: FrameTable::new(frame_count),
            mmu: Mmu::new(),
            policy,
            stats: MemoryStats::new(),
        }
    }

    /// Record a simulated transfer from the backing store.
    pub fn swap_in(&mut self, _spn: Spn)
        requires
            old(self).stats.swap_in_count < u64::MAX,
        ensures
            final(self).stats.swap_in_count == old(self).stats.swap_in_count + 1,
            final(self).stats.swap_out_count == old(self).stats.swap_out_count,
            final(self).frame_table == old(self).frame_table,
            final(self).policy == old(self).policy,
            final(self).mmu == old(self).mmu,
    {
        self.stats.swap_in_count = self.stats.swap_in_count + 1;
    }

    /// Record a simulated transfer to the backing store and name the slot
    /// that now holds the copy.
    pub fn swap_out(&mut self) -> (spn: Spn)
        requires
            old(self).stats.swap_out_count < u64::MAX,
        ensures
            final(self).stats.swap_out_count == old(self).stats.swap_out_count + 1,
            final(self).stats.swap_in_count == old(self).stats.swap_in_count,
            final(self).frame_table == old(self).frame_table,
            final(self).policy == old(self).policy,
            final(self).mmu == old(self).mmu,
            spn == Spn(BACKING_SLOT),
    {
        self.stats.swap_out_count = self.stats.swap_out_count + 1;
        Spn(BACKING_SLOT)
    }

    /// Evict the page resident in `pfn`, if any: mark it absent, record
    /// where its copy lives — reusing the known slot when the page is clean,
    /// performing a swap-out otherwise — and free the frame.
    pub fn evict_page(&mut self, pfn: Pfn, pm: &mut ProcessManager)
        requires
            table_wf(old(self).frame_table@, old(pm)@),
            pfn.0 < old(self).frame_table@.len(),
            old(self).stats.swap_out_count < u64::MAX,
        ensures
            final(self).mmu == old(self).mmu,
            final(self).policy == old(self).policy,
            final(self).stats.swap_in_count == old(self).stats.swap_in_count,
            final(self).frame_table@ == old(self).frame_table@.update(
                pfn.0 as int,
                (FrameTableEntry { owner: None, spn: None }),
            ),
            table_wf(final(self).frame_table@, final(pm)@),
            same_shape(old(pm)@, final(pm)@),
            (match old(self).frame_table@[pfn.0 as int].owner {
                None => {
                    &&& final(pm)@ == old(pm)@
                    &&& final(self).stats.swap_out_count == old(self).stats.swap_out_count
                },
                Some((pid, vpn)) => {
                    &&& valid_slot(old(pm)@, pid, vpn)
                    &&& ({
                        let pte0 = pte_at(old(pm)@, pid, vpn);
                        let spn0 = old(self).frame_table@[pfn.0 as int].spn;
                        let reuse = !pte0.modified && spn0 is Some;
                        let slot = (match (pte0.modified, spn0) {
                            (false, Some(s)) => s,
                            _ => Spn(BACKING_SLOT),
                        });
                        let new_pte = (PageTableEntry {
                            location: PageLocation::SwappedOut(slot),
                            referenced: pte0.referenced,
                            modified: pte0.modified,
                        });
                        &&& final(self).stats.swap_out_count == old(self).stats.swap_out_count
                            + (if reuse { 0int } else { 1int })
                        &&& pte_at(final(pm)@, pid, vpn) == new_pte
                        &&& forall|q: int| 0 <= q < old(pm)@.len() && q != pid.0 ==> final(pm)@[q]
                            == old(pm)@[q]
                        &&& final(pm)@[pid.0 as int].page_table.entries@ == old(pm)@[pid.0 as int]
                            .page_table.entries@.update(vpn.0 as int, new_pte)
                    })
                },
            }),
    {
        let fte = self.frame_table.entries[pfn.0];

        if let Some((pid, vpn)) = fte.owner {
            proof {
                assert(frame_wf(self.frame_table@, pm@, pfn.0 as int));
            }
            let pte = pm.get_mut_pte(pid, vpn);
            let slot: Spn = match (pte.modified, fte.spn) {
                (false, Some(s)) => s,
                _ => self.swap_out(),
            };
            pte.location = PageLocation::SwappedOut(slot);
        }

        let fte_ref = &mut self.frame_table.entries[pfn.0];
        fte_ref.clear();

        proof {
            let frames0 = old(self).frame_table@;
            let frames1 = self.frame_table@;
            let procs0 = old(pm)@;
            let procs1 = pm@;
            assert(frames1 =~= frames0.update(pfn.0 as int, (FrameTableEntry {
                owner: None,
                spn: None,
            })));
            assert forall|q: int| 0 <= q < procs0.len() implies proc_same_shape(
                procs0[q],
                procs1[q],
            ) by {
                if procs1[q] == procs0[q] {
                }
            }
            assert forall|i: int| 0 <= i < frames1.len() implies frame_wf(
                frames1,
                procs1,
                i,
            ) by {
                assert(frame_wf(frames0, procs0, i));
                assert(frame_wf(frames0, procs0, pfn.0 as int));
                if i != pfn.0 {
                    assert(frames1[i] == frames0[i]);
                    match frames0[i].owner {
                        Some((p, v)) => {
                            match frames0[pfn.0 as int].owner {
                                Some((ep, ev)) => {
                                    if p == ep && v == ev {
                                        assert(false);
                                    }
                                    if p.0 != ep.0 {
                                        assert(procs1[p.0 as int] == procs0[p.0 as int]);
                                    }
                                    assert(pte_at(procs1, p, v) == pte_at(procs0, p, v));
                                },
                                None => {
                                    assert(pte_at(procs1, p, v) == pte_at(procs0, p, v));
                                },
                            }
                        },
                        None => {},
                    }
                }
            }
            assert forall|p: Pid, v: Vpn| valid_slot(procs1, p, v) implies page_wf(
                frames1,
                procs1,
                p,
                v,
            ) by {
                assert(valid_slot(procs0, p, v));
                assert(page_wf(frames0, procs0, p, v));
                assert(frame_wf(frames0, procs0, pfn.0 as int));
                match frames0[pfn.0 as int].owner {
                    Some((ep, ev)) => {
                        if p == ep && v == ev {
                            assert(pte_at(procs1, p, v).location is SwappedOut);
                        } else {
                            if p.0 != ep.0 {
                                assert(procs1[p.0 as int] == procs0[p.0 as int]);
                            }
                            assert(pte_at(procs1, p, v) == pte_at(procs0, p, v));
                            match pte_at(procs0, p, v).location {
                                PageLocation::InFrame(g) => {
                                    assert(frames0[g.0 as int].owner == Some((p, v)));
                                    assert(g.0 != pfn.0);
                                    assert(frames1[g.0 as int] == frames0[g.0 as int]);
                                },
                                _ => {},
                            }
                        }
                    },
                    None => {
                        assert(pte_at(procs1, p, v) == pte_at(procs0, p, v));
                        match pte_at(procs0, p, v).location {
                            PageLocation::InFrame(g) => {
                                assert(frames0[g.0 as int].owner == Some((p, v)));
                                assert(g.0 != pfn.0);
                                assert(frames1[g.0 as int] == frames0[g.0 as int]);
                            },
                            _ => {},
                        }
                    },
                }
            }
        }
    }

    /// Hand out a frame that is free at return time: the lowest-numbered
    /// free frame when one exists, otherwise the policy's victim after
    /// evicting its page.
    pub fn allocate_frame(&mut self, pm: &mut ProcessManager) -> (pfn: Pfn)
        requires
            table_wf(old(self).frame_table@, old(pm)@),
            old(self).frame_table@.len() > 0,
            old(self).policy.policy_wf(old(self).frame_table@.len()),
            old(self).stats.swap_out_count < u64::MAX,
        ensures
            final(self).mmu == old(self).mmu,
            final(self).frame_table@.len() == old(self).frame_table@.len(),
            final(self).policy.policy_wf(old(self).frame_table@.len()),
            final(self).stats.swap_in_count == old(self).stats.swap_in_count,
            old(self).stats.swap_out_count <= final(self).stats.swap_out_count <= old(self).stats.swap_out_count + 1,
            table_wf(final(self).frame_table@, final(pm)@),
            same_shape(old(pm)@, final(pm)@),
            pfn.0 < old(self).frame_table@.len(),
            final(self).frame_table@[pfn.0 as int].owner is None,
            forall|j: int| 0 <= j < old(self).frame_table@.len() && j != pfn.0 ==> final(self).frame_table@[j] == old(self).frame_table@[j],
            forall|p: Pid, v: Vpn| valid_slot(old(pm)@, p, v) ==> {
                &&& (#[trigger] pte_at(final(pm)@, p, v)).modified == pte_at(old(pm)@, p, v).modified
                &&& (pte_at(final(pm)@, p, v).referenced ==> pte_at(old(pm)@, p, v).referenced)
                &&& (old(self).frame_table@[pfn.0 as int].owner != Some((p, v)) ==> pte_at(
                    final(pm)@,
                    p,
                    v,
                ).location == pte_at(old(pm)@, p, v).location)
            },
            !no_free_frame(old(self).frame_table@) ==> {
                &&& final(self).frame_table@ == old(self).frame_table@
                &&& final(pm)@ == old(pm)@
                &&& final(self).stats == old(self).stats
                &&& final(self).policy == old(self).policy
                &&& old(self).frame_table@[pfn.0 as int].owner is None
                &&& forall|j: int| 0 <= j < pfn.0 ==> (#[trigger] old(self).frame_table@[j]).owner is Some
            },
            no_free_frame(old(self).frame_table@) ==> {
                &&& old(self).frame_table@[pfn.0 as int].owner is Some
                &&& final(self).frame_table@ == old(self).frame_table@.update(
                    pfn.0 as int,
                    (FrameTableEntry { owner: None, spn: None }),
                )
                &&& (old(self).frame_table@[pfn.0 as int].owner matches Some((p, v)) ==> {
                    &&& pte_at(final(pm)@, p, v).location is SwappedOut
                    &&& final(self).stats.swap_out_count == old(self).stats.swap_out_count + (
                    if !pte_at(old(pm)@, p, v).modified && old(self).frame_table@[pfn.0 as int].spn is Some {
                        0int
                    } else {
                        1int
                    })
                })
            },
    {
        if let Some(pfn) = self.frame_table.get_unassigned() {
            proof {
                assert(!no_free_frame(old(self).frame_table@)) by {
                    assert(old(self).frame_table@[pfn.0 as int].owner is None);
                }
            }
            return pfn;
        }
        let victim_pfn = self.policy.pick_victim(&mut self.frame_table, pm);
        let ghost procs_mid = pm@;
        self.evict_page(victim_pfn, pm);

        proof {
            let frames0 = old(self).frame_table@;
            let procs0 = old(pm)@;
            let procs2 = pm@;
            assert(frame_wf(frames0, procs_mid, victim_pfn.0 as int));
            assert forall|p: Pid, v: Vpn| valid_slot(procs0, p, v) implies {
                &&& (#[trigger] pte_at(procs2, p, v)).modified == pte_at(procs0, p, v).modified
                &&& (pte_at(procs2, p, v).referenced ==> pte_at(procs0, p, v).referenced)
                &&& (frames0[victim_pfn.0 as int].owner != Some((p, v)) ==> pte_at(
                    procs2,
                    p,
                    v,
                ).location == pte_at(procs0, p, v).location)
            } by {
                assert(pte_at(procs_mid, p, v).location == pte_at(procs0, p, v).location);
                match frames0[victim_pfn.0 as int].owner {
                    Some((ep, ev)) => {
                        if p != ep || v != ev {
                            if p.0 != ep.0 {
                                assert(procs2[p.0 as int] == procs_mid[p.0 as int]);
                            }
                            assert(pte_at(procs2, p, v) == pte_at(procs_mid, p, v));
                        }
                    },
                    None => {},
                }
            }
        }
        victim_pfn
    }

    /// The fault-resolution protocol: remember the faulting page's prior
    /// swap slot if it has one, obtain a frame (evicting lazily), count a
    /// swap-in when a prior copy exists, and install the page with
    /// `referenced` set and `modified` clear.
    pub fn handle_page_fault(&mut self, pid: Pid, vpn: Vpn, pm: &mut ProcessManager)
        requires
            table_wf(old(self).frame_table@, old(pm)@),
            valid_slot(old(pm)@, pid, vpn),
            !pte_at(old(pm)@, pid, vpn).is_present(),
            old(self).frame_table@.len() > 0,
            old(self).policy.policy_wf(old(self).frame_table@.len()),
            old(self).stats.swap_out_count < u64::MAX,
            old(self).stats.swap_in_count < u64::MAX,
        ensures
            final(self).mmu == old(self).mmu,
            final(self).frame_table@.len() == old(self).frame_table@.len(),
            final(self).policy.policy_wf(old(self).frame_table@.len()),
            table_wf(final(self).frame_table@, final(pm)@),
            same_shape(old(pm)@, final(pm)@),
            ({
                let rem = (match pte_at(old(pm)@, pid, vpn).location {
                    PageLocation::SwappedOut(s) => Some(s),
                    _ => None,
                });
                &&& pte_at(final(pm)@, pid, vpn) matches PageTableEntry {
                    location: PageLocation::InFrame(f),
                    referenced: true,
                    modified: false,
                } && {
                    &&& f.0 < final(self).frame_table@.len()
                    &&& final(self).frame_table@[f.0 as int].owner == Some((pid, vpn))
                    &&& final(self).frame_table@[f.0 as int].spn == rem
                }
                &&& final(self).stats.swap_in_count == old(self).stats.swap_in_count + (
                if rem is Some {
                    1int
                } else {
                    0int
                })
            }),
            old(self).stats.swap_out_count <= final(self).stats.swap_out_count <= old(self).stats.swap_out_count + 1,
            forall|p: Pid, v: Vpn|
                valid_slot(old(pm)@, p, v) && (p, v) != (pid, vpn) ==> {
                    &&& (#[trigger] pte_at(final(pm)@, p, v)).modified == pte_at(
                        old(pm)@,
                        p,
                        v,
                    ).modified
                    &&& (pte_at(final(pm)@, p, v).referenced ==> pte_at(old(pm)@, p, v).referenced)
                    &&& (pte_at(final(pm)@, p, v).location == pte_at(old(pm)@, p, v).location
                        || (pte_at(old(pm)@, p, v).location is InFrame && pte_at(
                        final(pm)@,
                        p,
                        v,
                    ).location is SwappedOut))
                },
    {
        let pte0 = pm.processes[pid.0].page_table.entries[vpn.0];
        let spn: Option<Spn> = match pte0.location {
            PageLocation::SwappedOut(s) => Some(s),
            _ => None,
        };

        let pfn = self.allocate_frame(pm);
        let ghost frames_mid = self.frame_table@;
        let ghost procs_mid = pm@;

        proof {
            // the faulting page is not the evicted owner, so its entry kept
            // its (absent) location through the allocation
            assert(frame_wf(old(self).frame_table@, old(pm)@, pfn.0 as int));
            assert(!pte_at(procs_mid, pid, vpn).is_present());
        }

        if let Some(s) = spn {
            self.swap_in(s);
        }

        let fte = &mut self.frame_table.entries[pfn.0];
        fte.assign(pid, vpn, spn);

        let pte = pm.get_mut_pte(pid, vpn);
        pte.location = PageLocation::InFrame(pfn);
        pte.referenced = true;
        pte.modified = false;

        proof {
            let frames0 = old(self).frame_table@;
            let procs0 = old(pm)@;
            let frames2 = self.frame_table@;
            let procs2 = pm@;
            assert(frames2 =~= frames_mid.update(
                pfn.0 as int,
                (FrameTableEntry { owner: Some((pid, vpn)), spn }),
            ));
            assert forall|q: int| 0 <= q < procs0.len() implies proc_same_shape(
                procs0[q],
                procs2[q],
            ) by {
                assert(proc_same_shape(procs0[q], procs_mid[q]));
            }
            assert forall|i: int| 0 <= i < frames2.len() implies frame_wf(
                frames2,
                procs2,
                i,
            ) by {
                assert(frame_wf(frames_mid, procs_mid, i));
                if i != pfn.0 {
                    assert(frames2[i] == frames_mid[i]);
                    match frames_mid[i].owner {
                        Some((p, v)) => {
                            assert(p != pid || v != vpn);
                            if p.0 != pid.0 {
                                assert(procs2[p.0 as int] == procs_mid[p.0 as int]);
                            }
                            assert(pte_at(procs2, p, v) == pte_at(procs_mid, p, v));
                        },
                        None => {},
                    }
                } else {
                    assert(pte_at(procs2, pid, vpn).location == PageLocation::InFrame(pfn));
                }
            }
            assert forall|p: Pid, v: Vpn| valid_slot(procs2, p, v) implies page_wf(
                frames2,
                procs2,
                p,
                v,
            ) by {
                assert(valid_slot(procs_mid, p, v));
                assert(page_wf(frames_mid, procs_mid, p, v));
                if p == pid && v == vpn {
                    assert(frames2[pfn.0 as int].owner == Some((pid, vpn)));
                } else {
                    if p.0 != pid.0 {
                        assert(procs2[p.0 as int] == procs_mid[p.0 as int]);
                    }
                    assert(pte_at(procs2, p, v) == pte_at(procs_mid, p, v));
                    match pte_at(procs_mid, p, v).location {
                        PageLocation::InFrame(g) => {
                            assert(frames_mid[g.0 as int].owner == Some((p, v)));
                            assert(frames_mid[pfn.0 as int].owner is None);
                            assert(g.0 != pfn.0);
                            assert(frames2[g.0 as int] == frames_mid[g.0 as int]);
                        },
                        _ => {},
                    }
                }
            }
            // the untouched pages kept their bits through allocation, and the
            // final write touched only the faulting page
            assert forall|p: Pid, v: Vpn|
                valid_slot(procs0, p, v) && (p, v) != (pid, vpn) implies {
                    &&& (#[trigger] pte_at(procs2, p, v)).modified == pte_at(procs0, p, v).modified
                    &&& (pte_at(procs2, p, v).referenced ==> pte_at(procs0, p, v).referenced)
                    &&& (pte_at(procs2, p, v).location == pte_at(procs0, p, v).location || (pte_at(
                        procs0,
                        p,
                        v,
                    ).location is InFrame && pte_at(procs2, p, v).location is SwappedOut))
                } by {
                if p.0 != pid.0 {
                    assert(procs2[p.0 as int] == procs_mid[p.0 as int]);
                }
                assert(pte_at(procs2, p, v) == pte_at(procs_mid, p, v));
                assert(pte_at(procs_mid, p, v).modified == pte_at(procs0, p, v).modified);
                match old(self).frame_table@[pfn.0 as int].owner {
                    Some((ep, ev)) => {
                        if p == ep && v == ev {
                            assert(frame_wf(frames0, procs0, pfn.0 as int));
                            assert(pte_at(procs0, p, v).location is InFrame);
                            assert(pte_at(procs_mid, p, v).location is SwappedOut);
                        } else {
                            assert(pte_at(procs_mid, p, v).location == pte_at(
                                procs0,
                                p,
                                v,
                            ).location);
                        }
                    },
                    None => {
                        assert(pte_at(procs_mid, p, v).location == pte_at(procs0, p, v).location);
                    },
                }
            }
        }
    }
}

} // verus!
