//! Page-table engine: a generic walker over typed virtual address spaces and
//! the page-table formats of x86_64, aarch64 and riscv64.
//!
//! Addresses and byte counts are 64 bits wide, as on every supported target.

pub mod addr;
pub mod alignment;
pub mod answers;
pub mod arch;
pub mod cursor;
pub mod cutting;
pub mod effect;
pub mod encoding;
pub mod error;
pub mod flush;
pub mod geometry;
pub mod invalidation;
pub mod laws;
pub mod mapping;
pub mod meta;
pub mod operations;
pub mod page_table;
pub mod paging;
pub mod plan;
pub mod reclaim;
pub mod request;
pub mod tree;
pub mod walker;

pub use addr::{AddrRange, MemoryAddr, PhysAddr, PhysAddrRange, VirtAddr, VirtAddrRange};
pub use error::{PagingError, PagingResult};
pub use mapping::{
    IntoMapBacking, IntoMappingFlags, MapBacking, Mapping, MappingContiguity, MappingFlags,
};
pub use meta::{AccessFlags, CachePolicy, Coherency, MemoryAttributes, PageSize, Shareability};
pub use paging::{
    AddrSpaceActivation, AddrSpaceToken, FrameAllocator, NoFlush, PageTableEntry,
    PageTableEntryKind, PagingMetaData, TlbInvalidation,
};
pub use page_table::PageTable;
pub use walker::PageTableWalker;
