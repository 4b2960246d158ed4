//! The kernel's access path end to end, including the fixed clock scenario.

use paging_sim::kernel::{AccessResult, Kernel};
use paging_sim::mmu::Operation;
use paging_sim::paging::{Clock, PageLocation, Pfn, Random, Vpn};
use paging_sim::process::{Pid, Process, Request, WorkingSet};

#[test]
fn kernel_starts_empty_with_zero_counters() {
    let kernel: Kernel<Clock> = Kernel::new(Clock::new(), 4);
    assert_eq!(kernel.pm.process_count(), 0);
    assert_eq!(kernel.mm.frame_table.entries.len(), 4);
    assert_eq!(kernel.mm.stats.swap_out_count, 0);
    assert_eq!(kernel.mm.stats.swap_in_count, 0);
}

#[test]
fn spawn_registers_processes_in_order() {
    let mut kernel: Kernel<Clock> = Kernel::new(Clock::new(), 2);
    kernel.pm.spawn_process(Process::new(Pid(0), 4, 2, 10, 5));
    kernel.pm.spawn_process(Process::new(Pid(1), 4, 2, 10, 5));
    assert_eq!(kernel.pm.process_count(), 2);
    assert!(kernel.pm.get_mut_process(Pid(1)).is_some());
    assert!(kernel.pm.get_mut_process(Pid(2)).is_none());
}

#[test]
fn second_access_to_resident_page_hits() {
    let mut kernel: Kernel<Clock> = Kernel::new(Clock::new(), 1);
    kernel.pm.spawn_process(Process::new(Pid(0), 1, 1, 10, 5));
    assert_eq!(kernel.access_memory(Pid(0), Vpn(0), Operation::Read), AccessResult::Miss);
    assert_eq!(kernel.access_memory(Pid(0), Vpn(0), Operation::Read), AccessResult::Hit);
    assert_eq!(kernel.mm.stats.swap_out_count, 0);
    assert_eq!(kernel.mm.stats.swap_in_count, 0);
}

/// Two frames, one process with pages {0, 1, 2}, second-chance clock.
/// Accesses 0, 1, 2, 0, 1: the first three miss; serving page 2 makes the
/// clock clear both set reference bits, wrap, and evict the frame of page 0.
/// Faulting page 0 back in then necessarily evicts page 1 — the only frame
/// whose reference bit is clear — so the final access to page 1 misses too.
#[test]
fn clock_scenario_two_frames_three_pages() {
    let mut kernel: Kernel<Clock> = Kernel::new(Clock::new(), 2);
    kernel.pm.spawn_process(Process::new(Pid(0), 3, 1, 1000, 1000));

    let accesses = [Vpn(0), Vpn(1), Vpn(2), Vpn(0), Vpn(1)];
    let mut hits: u64 = 0;
    let mut misses: u64 = 0;
    let mut tally: u64 = 0;
    let mut results = Vec::new();
    for vpn in accesses {
        tally += 1;
        match kernel.access_memory(Pid(0), vpn, Operation::Read) {
            AccessResult::Hit => hits += 1,
            AccessResult::Miss => misses += 1,
        }
        results.push(kernel.mm.policy.hand);
    }

    assert_eq!(tally, 5);
    assert_eq!(hits, 0);
    assert_eq!(misses, 5);
    assert!(kernel.mm.stats.swap_out_count >= 1);
    assert_eq!(kernel.mm.stats.swap_out_count, 3);
    assert_eq!(kernel.mm.stats.swap_in_count, 2);
    // hand positions after each access: untouched while frames were free,
    // then one step past each victim
    assert_eq!(results, vec![0, 0, 1, 0, 1]);

    // pages 0 and 1 are resident at the end, page 2 was evicted
    assert!(matches!(
        kernel.pm.processes[0].page_table.entries[0].location,
        PageLocation::InFrame(_)
    ));
    assert!(matches!(
        kernel.pm.processes[0].page_table.entries[1].location,
        PageLocation::InFrame(_)
    ));
    assert!(matches!(
        kernel.pm.processes[0].page_table.entries[2].location,
        PageLocation::SwappedOut(_)
    ));
}

#[test]
fn workload_requests_stay_in_page_range() {
    let mut process = Process::new(Pid(0), 8, 3, 1000, 4);
    for _ in 0..200 {
        match process.request() {
            Request::MemoryReference { vpn, .. } => assert!(vpn < 8),
            Request::Termination => panic!("process terminated before its lifespan"),
        }
    }
}

#[test]
fn workload_terminates_after_lifespan() {
    let mut process = Process::new(Pid(0), 4, 2, 3, 10);
    for _ in 0..3 {
        assert!(matches!(process.request(), Request::MemoryReference { .. }));
    }
    assert!(matches!(process.request(), Request::Termination));
    assert!(matches!(process.request(), Request::Termination));
}

#[test]
fn working_set_scramble_draws_size_pages_in_range() {
    let mut ws = WorkingSet::new(6);
    assert_eq!(ws.size, 6);
    assert_eq!(ws.vpns.len(), 0);
    ws.scramble(1);
    // with a single page every draw must be page 0
    assert_eq!(ws.vpns, vec![0, 0, 0, 0, 0, 0]);
    ws.scramble(5);
    assert_eq!(ws.vpns.len(), 6);
    assert!(ws.vpns.iter().all(|v| *v < 5));
}

#[test]
fn kernel_with_random_policy_keeps_serving_under_pressure() {
    let mut kernel: Kernel<Random> = Kernel::new(Random, 2);
    kernel.pm.spawn_process(Process::new(Pid(0), 5, 2, 1000, 100));
    for vpn in 0..5 {
        assert_eq!(
            kernel.access_memory(Pid(0), Vpn(vpn), Operation::Write),
            AccessResult::Miss
        );
    }
    // each fault past capacity evicted one clean, never-swapped page
    assert_eq!(kernel.mm.stats.swap_out_count, 3);
    assert_eq!(kernel.mm.stats.swap_in_count, 0);
    let owned = kernel
        .mm
        .frame_table
        .entries
        .iter()
        .filter(|e| !e.is_free())
        .count();
    assert_eq!(owned, 2);
}

#[test]
fn get_mut_pte_gives_write_access_to_one_entry() {
    let mut kernel: Kernel<Clock> = Kernel::new(Clock::new(), 2);
    kernel.pm.spawn_process(Process::new(Pid(0), 3, 1, 10, 5));
    kernel.pm.get_mut_pte(Pid(0), Vpn(2)).referenced = true;
    assert!(kernel.pm.processes[0].page_table.entries[2].referenced);
    assert!(!kernel.pm.processes[0].page_table.entries[1].referenced);
}

/// After an arbitrary workload the data-model invariants hold: owners are
/// unique, ownership and presence point at each other, and no more frames
/// are owned than exist.
#[test]
fn invariants_hold_after_a_long_random_workload() {
    let mut kernel: Kernel<Clock> = Kernel::new(Clock::new(), 4);
    for p in 0..2 {
        kernel.pm.spawn_process(Process::new(Pid(p), 10, 3, 10_000, 50));
    }
    for _ in 0..500 {
        for p in 0..2 {
            let request = kernel.pm.get_mut_process(Pid(p)).unwrap().request();
            if let Request::MemoryReference { vpn, operation } = request {
                kernel.access_memory(Pid(p), Vpn(vpn), operation);
            }
        }
    }

    let frames = &kernel.mm.frame_table.entries;
    let mut owners = Vec::new();
    for (i, fte) in frames.iter().enumerate() {
        if let Some((pid, vpn)) = fte.owner {
            assert!(!owners.contains(&(pid, vpn)), "two frames share an owner");
            owners.push((pid, vpn));
            let pte = &kernel.pm.processes[pid.0].page_table.entries[vpn.0];
            assert_eq!(pte.location, PageLocation::InFrame(Pfn(i)));
        }
    }
    assert!(owners.len() <= 4);

    for (p, process) in kernel.pm.processes.iter().enumerate() {
        for (v, pte) in process.page_table.entries.iter().enumerate() {
            if let PageLocation::InFrame(f) = pte.location {
                assert_eq!(frames[f.0].owner, Some((Pid(p), Vpn(v))));
            }
        }
    }
}
