//! The replacement policies: the clock's second-chance scan and the random
//! policy's range.

use paging_sim::memory::MemoryManager;
use paging_sim::paging::{Clock, PageReplacementPolicy, Pfn, Random, Vpn};
use paging_sim::process::{Pid, Process, ProcessManager};

fn full_table(frame_count: usize) -> (MemoryManager<Clock>, ProcessManager) {
    let mut mm = MemoryManager::new(Clock::new(), frame_count);
    let mut pm = ProcessManager::new();
    pm.spawn_process(Process::new(Pid(0), frame_count + 1, 1, 100, 100));
    for vpn in 0..frame_count {
        mm.handle_page_fault(Pid(0), Vpn(vpn), &mut pm);
    }
    assert_eq!(mm.frame_table.get_unassigned(), None);
    (mm, pm)
}

#[test]
fn clock_inc_wraps_at_frame_count() {
    let mut clock = Clock::new();
    assert_eq!(clock.hand, 0);
    clock.inc(3);
    assert_eq!(clock.hand, 1);
    clock.inc(3);
    assert_eq!(clock.hand, 2);
    clock.inc(3);
    assert_eq!(clock.hand, 0);
}

#[test]
fn clock_clears_all_referenced_bits_then_wraps_to_first_frame() {
    let (mm, mut pm) = full_table(2);
    let mut frame_table = mm.frame_table;
    let mut clock = Clock::new();

    // both pages were just faulted in, so both reference bits are set: the
    // hand clears both, wraps, and takes the first frame
    let victim = clock.select_victim(&mut frame_table, &mut pm);
    assert_eq!(victim, Pfn(0));
    assert_eq!(clock.hand, 1);
    assert!(!pm.processes[0].page_table.entries[0].referenced);
    assert!(!pm.processes[0].page_table.entries[1].referenced);
}

#[test]
fn clock_takes_first_unreferenced_frame() {
    let (mm, mut pm) = full_table(3);
    let mut frame_table = mm.frame_table;
    let mut clock = Clock::new();
    pm.processes[0].page_table.entries[1].referenced = false;

    let victim = clock.select_victim(&mut frame_table, &mut pm);
    assert_eq!(victim, Pfn(1));
    assert_eq!(clock.hand, 2);
    // the frame passed over lost its second chance; the ones not reached
    // keep their bits
    assert!(!pm.processes[0].page_table.entries[0].referenced);
    assert!(pm.processes[0].page_table.entries[2].referenced);
}

#[test]
fn clock_victim_is_unreferenced_at_selection() {
    for _ in 0..10 {
        let (mm, mut pm) = full_table(4);
        let mut frame_table = mm.frame_table;
        let mut clock = Clock::new();
        let victim = clock.select_victim(&mut frame_table, &mut pm);
        let (pid, vpn) = frame_table.entries[victim.0].owner.unwrap();
        assert!(!pm.processes[pid.0].page_table.entries[vpn.0].referenced);
    }
}

#[test]
fn random_victim_stays_in_frame_range() {
    let (mm, mut pm) = full_table(4);
    let mut frame_table = mm.frame_table;
    let mut policy = Random;
    for _ in 0..100 {
        let victim = policy.pick_victim(&mut frame_table, &mut pm);
        assert!(victim.0 < 4);
        assert!(!frame_table.entries[victim.0].is_free());
    }
}
