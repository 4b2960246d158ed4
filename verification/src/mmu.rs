//! The translator: a single hardware-level translation step. It never
//! allocates, evicts, or touches the frame table; it only looks an entry up
//! and maintains the reference and dirty bits.

use vstd::prelude::*;
use crate::paging::{PageLocation, PageTable, PageTableEntry, Pfn, Vpn};

verus! {

/// The kind of a memory access.
#[derive(Clone, Copy, PartialEq, Eq, Structural, Debug)]
pub enum Operation {
    Read,
    Write,
}

/// What a single translation step reports: the resident frame, or a fault.
#[derive(Clone, Copy, PartialEq, Eq, Structural, Debug)]
pub enum TranslationResult {
    Success(Pfn),
    PageFault,
}

pub struct Mmu;

impl Mmu {
    pub fn new() -> Mmu {
        Mmu {}
    }

    /// Look up `vpn`. An absent entry faults with no state change; a present
    /// entry has its reference bit set (and its dirty bit on a write) and
    /// reports its frame.
    pub fn translate(
        &self,
        page_table: &mut PageTable,
        vpn: Vpn,
        operation: Operation,
    ) -> (r: TranslationResult)
        requires
            vpn.0 < old(page_table).entries@.len(),
        ensures
            ({
                let pte0 = old(page_table).entries@[vpn.0 as int];
                match pte0.location {
                    PageLocation::InFrame(f) => {
                        &&& r == TranslationResult::Success(f)
                        &&& final(page_table).entries@ == old(page_table).entries@.update(
                            vpn.0 as int,
                            (PageTableEntry {
                                location: pte0.location,
                                referenced: true,
                                modified: pte0.modified || operation is Write,
                            }),
                        )
                    },
                    _ => {
                        &&& r == TranslationResult::PageFault
                        &&& final(page_table).entries@ == old(page_table).entries@
                    },
                }
            }),
    {
        let loc = page_table.entries[vpn.0].location;
        match loc {
            PageLocation::InFrame(f) => {
                let pte = &mut page_table.entries[vpn.0];
                pte.referenced = true;
                if let Operation::Write = operation {
                    pte.modified = true;
                }
                TranslationResult::Success(f)
            },
            _ => TranslationResult::PageFault,
        }
    }
}

} // verus!
