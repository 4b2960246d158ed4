//! The translator's single-step contract, and the basic data-model types.

use paging_sim::mmu::{Mmu, Operation, TranslationResult};
use paging_sim::paging::{PageLocation, PageTable, PageTableEntry, Pfn, Spn, Vpn};

fn present_entry(pfn: usize) -> PageTableEntry {
    PageTableEntry {
        location: PageLocation::InFrame(Pfn(pfn)),
        referenced: false,
        modified: false,
    }
}

#[test]
fn translate_absent_returns_fault_without_mutation() {
    let mmu = Mmu::new();
    let mut pt = PageTable::new(3);
    let r = mmu.translate(&mut pt, Vpn(1), Operation::Read);
    assert_eq!(r, TranslationResult::PageFault);
    for e in &pt.entries {
        assert_eq!(*e, PageTableEntry::new());
    }
}

#[test]
fn translate_swapped_out_returns_fault() {
    let mmu = Mmu::new();
    let mut pt = PageTable::new(2);
    pt.entries[0].location = PageLocation::SwappedOut(Spn(7));
    let r = mmu.translate(&mut pt, Vpn(0), Operation::Write);
    assert_eq!(r, TranslationResult::PageFault);
    assert_eq!(pt.entries[0].location, PageLocation::SwappedOut(Spn(7)));
    assert!(!pt.entries[0].referenced);
    assert!(!pt.entries[0].modified);
}

#[test]
fn translate_present_read_sets_referenced_only() {
    let mmu = Mmu::new();
    let mut pt = PageTable::new(1);
    pt.entries[0] = present_entry(5);
    let r = mmu.translate(&mut pt, Vpn(0), Operation::Read);
    assert_eq!(r, TranslationResult::Success(Pfn(5)));
    assert!(pt.entries[0].referenced);
    assert!(!pt.entries[0].modified);
    assert_eq!(pt.entries[0].location, PageLocation::InFrame(Pfn(5)));
}

#[test]
fn translate_present_write_sets_modified_too() {
    let mmu = Mmu::new();
    let mut pt = PageTable::new(1);
    pt.entries[0] = present_entry(2);
    let r = mmu.translate(&mut pt, Vpn(0), Operation::Write);
    assert_eq!(r, TranslationResult::Success(Pfn(2)));
    assert!(pt.entries[0].referenced);
    assert!(pt.entries[0].modified);
}

#[test]
fn page_table_new_starts_absent() {
    let pt = PageTable::new(4);
    assert_eq!(pt.entries.len(), 4);
    for e in &pt.entries {
        assert_eq!(e.location, PageLocation::NeverMapped);
        assert!(!e.referenced);
        assert!(!e.modified);
    }
}
