//! The memory manager: fault resolution, lazy eviction, swap accounting and
//! the clean-reuse optimization.

use paging_sim::memory::{MemoryManager, MemoryStats, BACKING_SLOT};
use paging_sim::paging::{Clock, PageLocation, Pfn, Spn, Vpn};
use paging_sim::process::{Pid, Process, ProcessManager};

fn manager_with_process(
    frame_count: usize,
    page_count: usize,
) -> (MemoryManager<Clock>, ProcessManager) {
    let mm = MemoryManager::new(Clock::new(), frame_count);
    let mut pm = ProcessManager::new();
    pm.spawn_process(Process::new(Pid(0), page_count, 1, 100, 100));
    (mm, pm)
}

#[test]
fn memory_stats_start_at_zero() {
    let stats = MemoryStats::new();
    assert_eq!(stats.swap_out_count, 0);
    assert_eq!(stats.swap_in_count, 0);
}

#[test]
fn first_fault_fills_lowest_frame_without_swapping() {
    let (mut mm, mut pm) = manager_with_process(2, 3);
    mm.handle_page_fault(Pid(0), Vpn(0), &mut pm);

    let pte = &pm.processes[0].page_table.entries[0];
    assert_eq!(pte.location, PageLocation::InFrame(Pfn(0)));
    assert!(pte.referenced);
    assert!(!pte.modified);
    let fte = &mm.frame_table.entries[0];
    assert_eq!(fte.owner, Some((Pid(0), Vpn(0))));
    assert_eq!(fte.spn, None);
    assert_eq!(mm.stats.swap_out_count, 0);
    assert_eq!(mm.stats.swap_in_count, 0);
}

#[test]
fn allocation_exhaustion_evicts_exactly_one_frame() {
    let (mut mm, mut pm) = manager_with_process(2, 3);
    mm.handle_page_fault(Pid(0), Vpn(0), &mut pm);
    mm.handle_page_fault(Pid(0), Vpn(1), &mut pm);
    assert_eq!(mm.frame_table.get_unassigned(), None);

    let outs_before = mm.stats.swap_out_count;
    let ins_before = mm.stats.swap_in_count;
    let pfn = mm.allocate_frame(&mut pm);

    assert!(pfn.0 < 2);
    assert!(mm.frame_table.entries[pfn.0].is_free());
    let freed: usize = (0..2).filter(|i| mm.frame_table.entries[*i].is_free()).count();
    assert_eq!(freed, 1);
    assert!(mm.stats.swap_out_count <= outs_before + 1);
    assert_eq!(mm.stats.swap_in_count, ins_before);
}

#[test]
fn eviction_of_never_swapped_clean_page_swaps_out() {
    let (mut mm, mut pm) = manager_with_process(2, 3);
    mm.handle_page_fault(Pid(0), Vpn(0), &mut pm);

    mm.evict_page(Pfn(0), &mut pm);
    assert_eq!(mm.stats.swap_out_count, 1);
    let pte = &pm.processes[0].page_table.entries[0];
    assert_eq!(pte.location, PageLocation::SwappedOut(Spn(BACKING_SLOT)));
    assert!(mm.frame_table.entries[0].is_free());
}

#[test]
fn clean_reuse_skips_swap_out() {
    let (mut mm, mut pm) = manager_with_process(2, 3);

    // fault in, evict (first swap-out), fault back in: the frame now
    // remembers the page's slot
    mm.handle_page_fault(Pid(0), Vpn(0), &mut pm);
    mm.evict_page(Pfn(0), &mut pm);
    assert_eq!(mm.stats.swap_out_count, 1);
    mm.handle_page_fault(Pid(0), Vpn(0), &mut pm);
    assert_eq!(mm.stats.swap_in_count, 1);
    assert_eq!(mm.frame_table.entries[0].spn, Some(Spn(BACKING_SLOT)));

    // the page is clean and has a known slot: evicting it again reuses the
    // slot and does not count a swap-out
    mm.evict_page(Pfn(0), &mut pm);
    assert_eq!(mm.stats.swap_out_count, 1);
    assert_eq!(
        pm.processes[0].page_table.entries[0].location,
        PageLocation::SwappedOut(Spn(BACKING_SLOT))
    );
}

#[test]
fn eviction_of_dirty_page_swaps_out_even_with_known_slot() {
    let (mut mm, mut pm) = manager_with_process(2, 3);
    mm.handle_page_fault(Pid(0), Vpn(0), &mut pm);
    mm.evict_page(Pfn(0), &mut pm);
    mm.handle_page_fault(Pid(0), Vpn(0), &mut pm);
    assert_eq!(mm.stats.swap_out_count, 1);

    // dirty the page: its backing copy is stale, so eviction must write
    pm.processes[0].page_table.entries[0].modified = true;
    mm.evict_page(Pfn(0), &mut pm);
    assert_eq!(mm.stats.swap_out_count, 2);
}

#[test]
fn fault_evict_fault_round_trip_restores_canonical_bits() {
    let (mut mm, mut pm) = manager_with_process(2, 3);

    mm.handle_page_fault(Pid(0), Vpn(0), &mut pm);
    // disturb the bits as a write access would
    pm.processes[0].page_table.entries[0].modified = true;
    pm.processes[0].page_table.entries[0].referenced = true;

    mm.evict_page(Pfn(0), &mut pm);
    mm.handle_page_fault(Pid(0), Vpn(0), &mut pm);

    let pte = &pm.processes[0].page_table.entries[0];
    assert!(matches!(pte.location, PageLocation::InFrame(_)));
    assert!(pte.referenced);
    assert!(!pte.modified);
}

#[test]
fn swap_counters_accumulate() {
    let mut mm: MemoryManager<Clock> = MemoryManager::new(Clock::new(), 1);
    assert_eq!(mm.swap_out(), Spn(BACKING_SLOT));
    assert_eq!(mm.swap_out(), Spn(BACKING_SLOT));
    mm.swap_in(Spn(BACKING_SLOT));
    assert_eq!(mm.stats.swap_out_count, 2);
    assert_eq!(mm.stats.swap_in_count, 1);
}
