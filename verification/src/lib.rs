//! A virtual-memory paging simulator: address translation with reference and
//! dirty bits, a fixed table of physical frames, demand paging with swap
//! bookkeeping, and pluggable page-replacement policies (uniform random and
//! second-chance clock).

pub mod kernel;
pub mod memory;
pub mod mmu;
pub mod paging;
pub mod process;
mod rng;
