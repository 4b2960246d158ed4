//! The frame table: free-frame search and entry lifecycle.

use paging_sim::memory::{FrameTable, FrameTableEntry};
use paging_sim::paging::{Pfn, Spn, Vpn};
use paging_sim::process::Pid;

#[test]
fn frame_entry_lifecycle() {
    let mut fte = FrameTableEntry::new();
    assert!(fte.is_free());
    assert_eq!(fte.owner, None);
    assert_eq!(fte.spn, None);

    fte.assign(Pid(3), Vpn(9), Some(Spn(4)));
    assert!(!fte.is_free());
    assert_eq!(fte.owner, Some((Pid(3), Vpn(9))));
    assert_eq!(fte.spn, Some(Spn(4)));

    fte.clear();
    assert!(fte.is_free());
    assert_eq!(fte.owner, None);
    assert_eq!(fte.spn, None);
}

#[test]
fn frame_table_new_all_free() {
    let ft = FrameTable::new(5);
    assert_eq!(ft.entries.len(), 5);
    for e in &ft.entries {
        assert!(e.is_free());
    }
}

#[test]
fn get_unassigned_picks_lowest_free_index() {
    let mut ft = FrameTable::new(3);
    assert_eq!(ft.get_unassigned(), Some(Pfn(0)));

    ft.entries[0].assign(Pid(0), Vpn(0), None);
    assert_eq!(ft.get_unassigned(), Some(Pfn(1)));

    ft.entries[1].assign(Pid(0), Vpn(1), None);
    ft.entries[2].assign(Pid(0), Vpn(2), None);
    assert_eq!(ft.get_unassigned(), None);

    ft.entries[1].clear();
    assert_eq!(ft.get_unassigned(), Some(Pfn(1)));
}
