//! Translation-table entries, field by field.
//!
//! Every function here stands for one function of `aarch64_cpu_ext`'s `TTE64`,
//! on raw 64-bit words. But for [`address`](address_4k48) they do not depend on
//! the granule and the output width that `TTE64` is instantiated with, beyond
//! the alignment and the range that making an entry insists on.

use aarch64_cpu_ext::structures::tte::{
    AccessPermission, Shareability, TTE16K48, TTE16K52, TTE4K48, TTE4K52, TTE64K48, TTE64K52,
};
use vstd::prelude::*;

verus! {

/// Access permissions of an entry, by their encoding in the AP field.
#[derive(Clone, Copy, Debug, PartialEq, Eq, Structural)]
pub enum A64Permission {
    /// Encoded as 0.
    PrivilegedReadWrite,
    /// Encoded as 1.
    ReadWrite,
    /// Encoded as 2.
    PrivilegedReadOnly,
    /// Encoded as 3.
    ReadOnly,
}

/// Sharing domains of an entry, by their encoding in the SH field.
#[derive(Clone, Copy, Debug, PartialEq, Eq, Structural)]
pub enum A64Domain {
    /// Encoded as 0.
    NonShareable,
    /// Encoded as 2.
    OuterShareable,
    /// Encoded as 3.
    InnerShareable,
}

impl A64Permission {
    /// The AP encoding.
    pub open spec fn code(self) -> u64 {
        match self {
            A64Permission::PrivilegedReadWrite => 0,
            A64Permission::ReadWrite => 1,
            A64Permission::PrivilegedReadOnly => 2,
            A64Permission::ReadOnly => 3,
        }
    }

    /// Whether unprivileged code has access.
    pub fn allows_unprivileged(self) -> (r: bool)
        ensures
            r == (self == A64Permission::ReadWrite || self == A64Permission::ReadOnly),
    {
        matches!(self, A64Permission::ReadWrite | A64Permission::ReadOnly)
    }

    /// Whether privileged code may write.
    pub fn allows_privileged_write(self) -> (r: bool)
        ensures
            r == (self == A64Permission::PrivilegedReadWrite || self == A64Permission::ReadWrite),
    {
        matches!(self, A64Permission::PrivilegedReadWrite | A64Permission::ReadWrite)
    }
}

impl A64Domain {
    /// The SH encoding.
    pub open spec fn code(self) -> u64 {
        match self {
            A64Domain::NonShareable => 0,
            A64Domain::OuterShareable => 2,
            A64Domain::InnerShareable => 3,
        }
    }
}

/// The address field of an entry, bits 49:12.
pub const ADDR_FIELD: u64 = 0x0003_ffff_ffff_f000;

/// `TTE64::new_table`: a valid, accessed entry of table type. Address bits
/// above the field are dropped. The call panics unless the address is aligned
/// to the granule and within the output width.
#[verifier::external_body]
pub(crate) fn new_table(addr: u64) -> (r: u64)
    requires
        addr % 0x1000 == 0,
        addr < 0x10_0000_0000_0000,
    ensures
        r == (addr & ADDR_FIELD) | 0x403,
{
    TTE4K52::new_table(addr).get()
}

/// `TTE64::new_block`: a valid, accessed entry of block type. Address bits
/// above the field are dropped. The call panics unless the address is aligned
/// to the granule and within the output width.
#[verifier::external_body]
pub(crate) fn new_block(addr: u64) -> (r: u64)
    requires
        addr % 0x1000 == 0,
        addr < 0x10_0000_0000_0000,
    ensures
        r == (addr & ADDR_FIELD) | 0x401,
{
    TTE4K52::new_block(addr).get()
}

/// The address that a word holds, read through a mask; zero if it is not
/// valid.
pub open spec fn masked(raw: u64, mask: u64) -> u64 {
    if raw & 1 == 0 {
        0
    } else {
        raw & mask
    }
}

/// `TTE64::address` for a 4 KiB granule and 48 bits: bits 48:12.
#[verifier::external_body]
pub(crate) fn address_4k48(raw: u64) -> (r: u64)
    ensures
        r == masked(raw, 0x0001_ffff_ffff_f000),
{
    TTE4K48::new(raw).address()
}

/// `TTE64::address` for a 4 KiB granule and 52 bits: bits 50:12.
#[verifier::external_body]
pub(crate) fn address_4k52(raw: u64) -> (r: u64)
    ensures
        r == masked(raw, 0x0007_ffff_ffff_f000),
{
    TTE4K52::new(raw).address()
}

/// `TTE64::address` for a 16 KiB granule and 48 bits: bits 48:14.
#[verifier::external_body]
pub(crate) fn address_16k48(raw: u64) -> (r: u64)
    ensures
        r == masked(raw, 0x0001_ffff_ffff_c000),
{
    TTE16K48::new(raw).address()
}

/// `TTE64::address` for a 16 KiB granule and 52 bits: bits 50:14.
#[verifier::external_body]
pub(crate) fn address_16k52(raw: u64) -> (r: u64)
    ensures
        r == masked(raw, 0x0007_ffff_ffff_c000),
{
    TTE16K52::new(raw).address()
}

/// `TTE64::address` for a 64 KiB granule and 48 bits: bits 48:16.
#[verifier::external_body]
pub(crate) fn address_64k48(raw: u64) -> (r: u64)
    ensures
        r == masked(raw, 0x0001_ffff_ffff_0000),
{
    TTE64K48::new(raw).address()
}

/// `TTE64::address` for a 64 KiB granule and 52 bits: bits 48:16.
#[verifier::external_body]
pub(crate) fn address_64k52(raw: u64) -> (r: u64)
    ensures
        r == masked(raw, 0x0001_ffff_ffff_0000),
{
    TTE64K52::new(raw).address()
}

/// `TTE64::is_valid`: bit 0.
#[verifier::external_body]
pub(crate) fn is_valid(raw: u64) -> (r: bool)
    ensures
        r == (raw & 1 != 0),
{
    TTE4K48::new(raw).is_valid()
}

/// `TTE64::is_table`: valid, and bit 1 set.
#[verifier::external_body]
pub(crate) fn is_table(raw: u64) -> (r: bool)
    ensures
        r == (raw & 1 != 0 && raw & 2 != 0),
{
    TTE4K48::new(raw).is_table()
}

/// `TTE64::is_block`: valid, and bit 1 clear.
#[verifier::external_body]
pub(crate) fn is_block(raw: u64) -> (r: bool)
    ensures
        r == (raw & 1 != 0 && raw & 2 == 0),
{
    TTE4K48::new(raw).is_block()
}

/// `TTE64::attr_index`: bits 4:2.
#[verifier::external_body]
pub(crate) fn attr_index(raw: u64) -> (r: u64)
    ensures
        r == (raw & 0x1c) >> 2,
{
    TTE4K48::new(raw).attr_index()
}

/// `TTE64::set_attr_index`: replaces bits 4:2. The call panics on an index
/// above seven.
#[verifier::external_body]
pub(crate) fn set_attr_index(raw: u64, index: u64) -> (r: u64)
    requires
        index < 8,
    ensures
        r == (raw & !0x1cu64) | (index << 2),
{
    let mut tte = TTE4K48::new(raw);
    tte.set_attr_index(index);
    tte.get()
}

/// `TTE64::access_permission`: bits 7:6.
#[verifier::external_body]
pub(crate) fn access_permission(raw: u64) -> (r: A64Permission)
    ensures
        r.code() == (raw & 0xc0) >> 6,
{
    match TTE4K48::new(raw).access_permission() {
        AccessPermission::PrivilegedReadWrite => A64Permission::PrivilegedReadWrite,
        AccessPermission::ReadWrite => A64Permission::ReadWrite,
        AccessPermission::PrivilegedReadOnly => A64Permission::PrivilegedReadOnly,
        AccessPermission::ReadOnly => A64Permission::ReadOnly,
    }
}

/// `TTE64::set_access_permission`: replaces bits 7:6.
#[verifier::external_body]
pub(crate) fn set_access_permission(raw: u64, permission: A64Permission) -> (r: u64)
    ensures
        r == (raw & !0xc0u64) | (permission.code() << 6),
{
    let mut tte = TTE4K48::new(raw);
    tte.set_access_permission(match permission {
        A64Permission::PrivilegedReadWrite => AccessPermission::PrivilegedReadWrite,
        A64Permission::ReadWrite => AccessPermission::ReadWrite,
        A64Permission::PrivilegedReadOnly => AccessPermission::PrivilegedReadOnly,
        A64Permission::ReadOnly => AccessPermission::ReadOnly,
    });
    tte.get()
}

/// `TTE64::shareability`: bits 9:8. The call panics on the reserved encoding.
#[verifier::external_body]
pub(crate) fn shareability(raw: u64) -> (r: A64Domain)
    requires
        (raw & 0x300) >> 8 != 1,
    ensures
        r.code() == (raw & 0x300) >> 8,
{
    match TTE4K48::new(raw).shareability() {
        Shareability::NonShareable => A64Domain::NonShareable,
        Shareability::OuterShareable => A64Domain::OuterShareable,
        Shareability::InnerShareable => A64Domain::InnerShareable,
    }
}

/// `TTE64::set_shareability`: replaces bits 9:8.
#[verifier::external_body]
pub(crate) fn set_shareability(raw: u64, domain: A64Domain) -> (r: u64)
    ensures
        r == (raw & !0x300u64) | (domain.code() << 8),
{
    let mut tte = TTE4K48::new(raw);
    tte.set_shareability(match domain {
        A64Domain::NonShareable => Shareability::NonShareable,
        A64Domain::OuterShareable => Shareability::OuterShareable,
        A64Domain::InnerShareable => Shareability::InnerShareable,
    });
    tte.get()
}

/// `TTE64::is_executable`: bit 54 clear.
#[verifier::external_body]
pub(crate) fn is_executable(raw: u64) -> (r: bool)
    ensures
        r == (raw & 0x0040_0000_0000_0000 == 0),
{
    TTE4K48::new(raw).is_executable()
}

/// `TTE64::set_executable`: clears bit 54 to allow execution, and sets it to
/// forbid it.
#[verifier::external_body]
pub(crate) fn set_executable(raw: u64, allowed: bool) -> (r: u64)
    ensures
        r == (raw & !0x0040_0000_0000_0000u64) | (if allowed {
            0
        } else {
            0x0040_0000_0000_0000u64
        }),
{
    let mut tte = TTE4K48::new(raw);
    tte.set_executable(allowed);
    tte.get()
}

/// `TTE64::is_privileged_executable`: bit 53 clear.
#[verifier::external_body]
pub(crate) fn is_privileged_executable(raw: u64) -> (r: bool)
    ensures
        r == (raw & 0x0020_0000_0000_0000 == 0),
{
    TTE4K48::new(raw).is_privileged_executable()
}

/// `TTE64::set_privileged_executable`: clears bit 53 to allow execution, and
/// sets it to forbid it.
#[verifier::external_body]
pub(crate) fn set_privileged_executable(raw: u64, allowed: bool) -> (r: u64)
    ensures
        r == (raw & !0x0020_0000_0000_0000u64) | (if allowed {
            0
        } else {
            0x0020_0000_0000_0000u64
        }),
{
    let mut tte = TTE4K48::new(raw);
    tte.set_privileged_executable(allowed);
    tte.get()
}

/// `TTE64::is_global`: bit 11 clear.
#[verifier::external_body]
pub(crate) fn is_global(raw: u64) -> (r: bool)
    ensures
        r == (raw & 0x800 == 0),
{
    TTE4K48::new(raw).is_global()
}

/// `TTE64::set_not_global`: sets bit 11.
#[verifier::external_body]
pub(crate) fn set_not_global(raw: u64) -> (r: u64)
    ensures
        r == raw | 0x800,
{
    let mut tte = TTE4K48::new(raw);
    tte.set_not_global();
    tte.get()
}

} // verus!
