//! The kernel composes the translator, the memory manager and the process
//! registry into the single entry point the workload driver calls per
//! simulated memory reference.

use vstd::prelude::*;
use crate::memory::{frame_wf, page_wf, table_wf, MemoryManager, MemoryStats};
use crate::mmu::{Operation, TranslationResult};
use crate::paging::{PageLocation, PageReplacementPolicy, PageTableEntry, Vpn};
use crate::process::{
    proc_same_shape, pte_at, same_shape, valid_slot, Pid, ProcessManager,
};

verus! {

/// What one memory access cost: a translation hit, or a fault that the
/// fault-resolution protocol served.
#[derive(Clone, Copy, PartialEq, Eq, Structural, Debug)]
pub enum AccessResult {
    Hit,
    Miss,
}

pub struct Kernel<P: PageReplacementPolicy> {
    pub mm: MemoryManager<P>,
    pub pm: ProcessManager,
}

impl<P: PageReplacementPolicy> Kernel<P> {
    /// Everything `access_memory` maintains: the frame/page bijection, the
    /// policy's own well-formedness, and a nonempty frame table.
    pub open spec fn wf(&self) -> bool {
        &&& table_wf(self.mm.frame_table@, self.pm@)
        &&& self.mm.policy.policy_wf(self.mm.frame_table@.len())
        &&& self.mm.frame_table@.len() > 0
    }

    pub fn new(policy: P, frame_count: usize) -> (k: Kernel<P>)
        requires
            frame_count > 0,
            policy.policy_wf(frame_count as nat),
        ensures
            k.wf(),
            k.pm@.len() == 0,
            k.mm.frame_table@.len() == frame_count,
            forall|i: int| 0 <= i < frame_count ==> (#[trigger] k.mm.frame_table@[i]).owner
                is None,
            k.mm.stats == (MemoryStats { swap_out_count: 0, swap_in_count: 0 }),
            k.mm.policy == policy,
    {
        let k = Kernel::<P> {
            mm: MemoryManager::new(policy, frame_count),
            pm: ProcessManager::new(),
        };
        proof {
            assert forall|i: int| 0 <= i < k.mm.frame_table@.len() implies frame_wf(
                k.mm.frame_table@,
                k.pm@,
                i,
            ) by {
                assert(k.mm.frame_table@[i].owner is None);
            }
        }
        k
    }

    /// Serve one memory reference of process `pid` at page `vpn`: translate,
    /// and on a fault run the fault-resolution protocol. Reports `Hit`
    /// exactly when the page was present.
    pub fn access_memory(&mut self, pid: Pid, vpn: Vpn, operation: Operation) -> (r: AccessResult)
        requires
            old(self).wf(),
            valid_slot(old(self).pm@, pid, vpn),
            old(self).mm.stats.swap_out_count < u64::MAX,
            old(self).mm.stats.swap_in_count < u64::MAX,
        ensures
            final(self).wf(),
            same_shape(old(self).pm@, final(self).pm@),
            final(self).mm.frame_table@.len() == old(self).mm.frame_table@.len(),
            (r is Hit) <==> pte_at(old(self).pm@, pid, vpn).is_present(),
            pte_at(old(self).pm@, pid, vpn).is_present() ==> {
                &&& final(self).mm.frame_table@ == old(self).mm.frame_table@
                &&& final(self).mm.stats == old(self).mm.stats
                &&& final(self).mm.policy == old(self).mm.policy
                &&& final(self).pm@[pid.0 as int].page_table.entries@ == old(self).pm@[pid.0 as int].page_table.entries@.update(
                    vpn.0 as int,
                    (PageTableEntry {
                        location: pte_at(old(self).pm@, pid, vpn).location,
                        referenced: true,
                        modified: pte_at(old(self).pm@, pid, vpn).modified || operation is Write,
                    }),
                )
                &&& forall|q: int| 0 <= q < old(self).pm@.len() && q != pid.0 ==> final(self).pm@[q] == old(self).pm@[q]
            },
            !pte_at(old(self).pm@, pid, vpn).is_present() ==> {
                &&& pte_at(final(self).pm@, pid, vpn) matches PageTableEntry {
                    location: PageLocation::InFrame(f),
                    referenced: true,
                    modified: false,
                } && {
                    &&& f.0 < final(self).mm.frame_table@.len()
                    &&& final(self).mm.frame_table@[f.0 as int].owner == Some((pid, vpn))
                }
                &&& final(self).mm.stats.swap_in_count == old(self).mm.stats.swap_in_count + (
                if pte_at(old(self).pm@, pid, vpn).location is SwappedOut {
                    1int
                } else {
                    0int
                })
                &&& old(self).mm.stats.swap_out_count <= final(self).mm.stats.swap_out_count <= old(self).mm.stats.swap_out_count + 1
                &&& forall|p: Pid, v: Vpn|
                    valid_slot(old(self).pm@, p, v) && (p, v) != (pid, vpn) ==> {
                        &&& (#[trigger] pte_at(final(self).pm@, p, v)).modified == pte_at(
                            old(self).pm@,
                            p,
                            v,
                        ).modified
                        &&& (pte_at(final(self).pm@, p, v).referenced ==> pte_at(
                            old(self).pm@,
                            p,
                            v,
                        ).referenced)
                        &&& (pte_at(final(self).pm@, p, v).location == pte_at(
                            old(self).pm@,
                            p,
                            v,
                        ).location || (pte_at(old(self).pm@, p, v).location is InFrame && pte_at(
                            final(self).pm@,
                            p,
                            v,
                        ).location is SwappedOut))
                    }
            },
    {
        let ghost procs0 = self.pm@;
        let page_table = match self.pm.get_mut_process(pid) {
            Some(p) => &mut p.page_table,
            None => vstd::pervasive::unreached(),
        };
        let res = self.mm.mmu.translate(page_table, vpn, operation);
        match res {
            TranslationResult::Success(_) => {
                proof {
                    let procs1 = self.pm@;
                    let frames = self.mm.frame_table@;
                    assert forall|i: int| 0 <= i < frames.len() implies frame_wf(
                        frames,
                        procs1,
                        i,
                    ) by {
                        assert(frame_wf(frames, procs0, i));
                        match frames[i].owner {
                            Some((p, v)) => {
                                if p.0 != pid.0 {
                                    assert(procs1[p.0 as int] == procs0[p.0 as int]);
                                }
                                assert(pte_at(procs1, p, v).location == pte_at(
                                    procs0,
                                    p,
                                    v,
                                ).location);
                            },
                            None => {},
                        }
                    }
                    assert forall|p: Pid, v: Vpn| valid_slot(procs1, p, v) implies page_wf(
                        frames,
                        procs1,
                        p,
                        v,
                    ) by {
                        assert(valid_slot(procs0, p, v));
                        assert(page_wf(frames, procs0, p, v));
                        if p.0 != pid.0 {
                            assert(procs1[p.0 as int] == procs0[p.0 as int]);
                        }
                        assert(pte_at(procs1, p, v).location == pte_at(procs0, p, v).location);
                    }
                    assert forall|q: int| 0 <= q < procs0.len() implies proc_same_shape(
                        procs0[q],
                        self.pm@[q],
                    ) by {}
                }
                AccessResult::Hit
            },
            TranslationResult::PageFault => {
                proof {
                    let procs1 = self.pm@;
                    let frames = self.mm.frame_table@;
                    assert forall|i: int| 0 <= i < frames.len() implies frame_wf(
                        frames,
                        procs1,
                        i,
                    ) by {
                        assert(frame_wf(frames, procs0, i));
                        match frames[i].owner {
                            Some((p, v)) => {
                                if p.0 != pid.0 {
                                    assert(procs1[p.0 as int] == procs0[p.0 as int]);
                                }
                                assert(pte_at(procs1, p, v) == pte_at(procs0, p, v));
                            },
                            None => {},
                        }
                    }
                    assert forall|p: Pid, v: Vpn| valid_slot(procs1, p, v) implies page_wf(
                        frames,
                        procs1,
                        p,
                        v,
                    ) by {
                        assert(valid_slot(procs0, p, v));
                        assert(page_wf(frames, procs0, p, v));
                        if p.0 != pid.0 {
                            assert(procs1[p.0 as int] == procs0[p.0 as int]);
                        }
                        assert(pte_at(procs1, p, v) == pte_at(procs0, p, v));
                    }
                    assert(pte_at(procs1, pid, vpn) == pte_at(procs0, pid, vpn));
                    assert forall|q: int| 0 <= q < procs0.len() implies proc_same_shape(
                        procs0[q],
                        self.pm@[q],
                    ) by {}
                }
                let ghost procs1 = self.pm@;
                self.mm.handle_page_fault(pid, vpn, &mut self.pm);
                proof {
                    assert forall|q: int| 0 <= q < procs0.len() implies proc_same_shape(
                        procs0[q],
                        self.pm@[q],
                    ) by {
                        assert(proc_same_shape(procs0[q], procs1[q]));
                        assert(proc_same_shape(procs1[q], self.pm@[q]));
                    }
                    assert forall|p: Pid, v: Vpn|
                        valid_slot(procs0, p, v) && (p, v) != (pid, vpn) implies {
                            &&& (#[trigger] pte_at(self.pm@, p, v)).modified == pte_at(
                                procs0,
                                p,
                                v,
                            ).modified
                            &&& (pte_at(self.pm@, p, v).referenced ==> pte_at(
                                procs0,
                                p,
                                v,
                            ).referenced)
                            &&& (pte_at(self.pm@, p, v).location == pte_at(procs0, p, v).location
                                || (pte_at(procs0, p, v).location is InFrame && pte_at(
                                self.pm@,
                                p,
                                v,
                            ).location is SwappedOut))
                        } by {
                        if p.0 != pid.0 {
                            assert(procs1[p.0 as int] == procs0[p.0 as int]);
                        }
                        assert(pte_at(procs1, p, v) == pte_at(procs0, p, v));
                        assert(valid_slot(procs1, p, v));
                    }
                }
                AccessResult::Miss
            },
        }
    }
}

} // verus!
