//! Numbers of the Linux and ELF interfaces.
//!
//! Contracts speak of the numbers through the constants here; code gets them from
//! `linux_raw_sys` through the function of the same name.

use vstd::prelude::*;

verus! {

/// Key of the entry that ends an auxiliary vector.
pub const AT_NULL: u32 = 0;

/// Key of the size of a page.
pub const AT_PAGESZ: u32 = 6;

/// Key of the address of the vDSO.
pub const AT_SYSINFO_EHDR: u32 = 33;

/// Type of a segment that is mapped.
pub const PT_LOAD: u32 = 1;

/// Type of the segment with the dynamic entries.
pub const PT_DYNAMIC: u32 = 2;

/// Flag of a segment that can be executed.
pub const PF_X: u32 = 1;

/// Type of the section with the dynamic symbols.
pub const SHT_DYNSYM: u32 = 11;

/// Tag of the entry that ends the dynamic entries.
pub const DT_NULL: u32 = 0;

/// Tag of the address of the string table.
pub const DT_STRTAB: u32 = 5;

/// Tag of the address of the symbol table.
pub const DT_SYMTAB: u32 = 6;

/// Tag of the address of the version of each symbol.
pub const DT_VERSYM: u32 = 0x6fff_fff0;

/// Tag of the address of the version definitions.
pub const DT_VERDEF: u32 = 0x6fff_fffc;

/// Flag of the version definition that names the object itself.
pub const VER_FLG_BASE: u16 = 1;

/// `linux_raw_sys::auxvec::AT_NULL`: equals [`AT_NULL`].
#[verifier::external_body]
pub(crate) fn at_null() -> (value: u32)
    ensures
        value == AT_NULL,
{
    linux_raw_sys::auxvec::AT_NULL
}

/// `linux_raw_sys::auxvec::AT_PAGESZ`: equals [`AT_PAGESZ`].
#[verifier::external_body]
pub(crate) fn at_pagesz() -> (value: u32)
    ensures
        value == AT_PAGESZ,
{
    linux_raw_sys::auxvec::AT_PAGESZ
}

/// `linux_raw_sys::auxvec::AT_SYSINFO_EHDR`: equals [`AT_SYSINFO_EHDR`].
#[verifier::external_body]
pub(crate) fn at_sysinfo_ehdr() -> (value: u32)
    ensures
        value == AT_SYSINFO_EHDR,
{
    linux_raw_sys::auxvec::AT_SYSINFO_EHDR
}

/// `linux_raw_sys::elf_uapi::PT_LOAD`: equals [`PT_LOAD`].
#[verifier::external_body]
pub(crate) fn pt_load() -> (value: u32)
    ensures
        value == PT_LOAD,
{
    linux_raw_sys::elf_uapi::PT_LOAD
}

/// `linux_raw_sys::elf_uapi::PT_DYNAMIC`: equals [`PT_DYNAMIC`].
#[verifier::external_body]
pub(crate) fn pt_dynamic() -> (value: u32)
    ensures
        value == PT_DYNAMIC,
{
    linux_raw_sys::elf_uapi::PT_DYNAMIC
}

/// `linux_raw_sys::elf_uapi::PF_X`: equals [`PF_X`].
#[verifier::external_body]
pub(crate) fn pf_x() -> (value: u32)
    ensures
        value == PF_X,
{
    linux_raw_sys::elf_uapi::PF_X
}

/// `linux_raw_sys::elf_uapi::SHT_DYNSYM`: equals [`SHT_DYNSYM`].
#[verifier::external_body]
pub(crate) fn sht_dynsym() -> (value: u32)
    ensures
        value == SHT_DYNSYM,
{
    linux_raw_sys::elf_uapi::SHT_DYNSYM
}

/// `linux_raw_sys::elf_uapi::DT_NULL`: equals [`DT_NULL`].
#[verifier::external_body]
pub(crate) fn dt_null() -> (value: u32)
    ensures
        value == DT_NULL,
{
    linux_raw_sys::elf_uapi::DT_NULL
}

/// `linux_raw_sys::elf_uapi::DT_STRTAB`: equals [`DT_STRTAB`].
#[verifier::external_body]
pub(crate) fn dt_strtab() -> (value: u32)
    ensures
        value == DT_STRTAB,
{
    linux_raw_sys::elf_uapi::DT_STRTAB
}

/// `linux_raw_sys::elf_uapi::DT_SYMTAB`: equals [`DT_SYMTAB`].
#[verifier::external_body]
pub(crate) fn dt_symtab() -> (value: u32)
    ensures
        value == DT_SYMTAB,
{
    linux_raw_sys::elf_uapi::DT_SYMTAB
}

/// `linux_raw_sys::elf_uapi::DT_VERSYM`: equals [`DT_VERSYM`].
#[verifier::external_body]
pub(crate) fn dt_versym() -> (value: u32)
    ensures
        value == DT_VERSYM,
{
    linux_raw_sys::elf_uapi::DT_VERSYM
}

/// `linux_raw_sys::elf_uapi::DT_VERDEF`: equals [`DT_VERDEF`].
#[verifier::external_body]
pub(crate) fn dt_verdef() -> (value: u32)
    ensures
        value == DT_VERDEF,
{
    linux_raw_sys::elf_uapi::DT_VERDEF
}

/// `linux_raw_sys::elf::VER_FLG_BASE`: equals [`VER_FLG_BASE`].
#[verifier::external_body]
pub(crate) fn ver_flg_base() -> (value: u16)
    ensures
        value == VER_FLG_BASE,
{
    linux_raw_sys::elf::VER_FLG_BASE
}

} // verus!
