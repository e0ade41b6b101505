//! The way from the header of the vDSO to a versioned symbol.
//!
//! Addresses are computed modulo 2^64. An object whose tables reach out of its image
//! has no symbols.

use super::auxv::{lemma_live_len, live_len, Auxv, AuxvEntry, AuxvIter};
use super::constants::{
    at_pagesz, at_sysinfo_ehdr, dt_null, dt_strtab, dt_symtab, dt_verdef, dt_versym, pf_x,
    pt_dynamic, pt_load, sht_dynsym, ver_flg_base, AT_PAGESZ, AT_SYSINFO_EHDR, DT_NULL, DT_STRTAB,
    DT_SYMTAB, DT_VERDEF, DT_VERSYM, PF_X, PT_DYNAMIC, PT_LOAD, SHT_DYNSYM, VER_FLG_BASE,
};
use super::elf::{
    Dyn, Ehdr, Phdr, Shdr, Sym, Verdaux, Verdef, DYN_SIZE, PHDR_SIZE, SHDR_SIZE, SYM_SIZE,
};
use super::image::{is_spelled, spells, Image};
use super::laws::{
    is_first_dynsym, is_found, is_given_by_last, last_entries_decide, no_section_no_symbols,
    section, symbols_fill_their_section, tables_are_given_by_the_last_entries,
};
use vstd::prelude::*;

verus! {

/// The architectures whose vDSO names are known.
#[derive(Debug, Clone, Copy, PartialEq, Eq, Structural)]
pub enum Arch {
    Aarch64,
    X86_64,
    Other,
}

/// The name and the version of the random number generator in the vDSO.
pub open spec fn name_and_version(arch: Arch) -> Option<(Seq<char>, Seq<char>)> {
    match arch {
        Arch::Aarch64 => Some(("__kernel_getrandom"@, "LINUX_2.6.39"@)),
        Arch::X86_64 => Some(("__vdso_getrandom"@, "LINUX_2.6"@)),
        Arch::Other => None,
    }
}

/// The name and the version of the random number generator in the vDSO.
pub fn get_name_and_version(arch: Arch) -> (names: Option<(&'static str, &'static str)>)
    ensures
        names is Some <==> name_and_version(arch) is Some,
        names matches Some(names) ==> name_and_version(arch) == Some((names.0@, names.1@)),
        arch is Aarch64 ==> (names matches Some(names) && names.0@ == "__kernel_getrandom"@
            && names.1@ == "LINUX_2.6.39"@),
        arch is X86_64 ==> (names matches Some(names) && names.0@ == "__vdso_getrandom"@
            && names.1@ == "LINUX_2.6"@),
        arch is Other ==> names is None,
{
    match arch {
        Arch::Aarch64 => Some(("__kernel_getrandom", "LINUX_2.6.39")),
        Arch::X86_64 => Some(("__vdso_getrandom", "LINUX_2.6")),
        Arch::Other => None,
    }
}

/// Whether a table of `count` records of `size` bytes is in the image.
pub open spec fn has_table(image: Image, table: u64, count: int, size: int) -> bool {
    count == 0 || image.has(table as int, count * size)
}

/// Decides whether a table of `count` records of `size` bytes is in the image.
fn contains_table(image: &Image, table: u64, count: u64, size: u64) -> (is_in: bool)
    ensures
        is_in == has_table(*image, table, count as int, size as int),
{
    if count == 0 {
        return true;
    }
    match count.checked_mul(size) {
        Some(width) => image.contains(table, width),
        None => {
            let end: u64 = image.end();
            assert(table + count * size > end);
            false
        },
    }
}

/// The record at place `i` of a table in the image is in the image.
proof fn lemma_in_table(image: Image, table: u64, count: int, size: int, i: int)
    requires
        has_table(image, table, count, size),
        0 <= i < count,
        size > 0,
    ensures
        image.has(table + i * size, size),
        0 <= i * size,
        i * size + size <= count * size,
{
    assert(i * size + size <= count * size) by (nonlinear_arith)
        requires
            0 <= i < count,
            size > 0,
    ;
    assert(0 <= i * size) by (nonlinear_arith)
        requires
            0 <= i,
            size > 0,
    ;
}

/// The program headers of an object.
pub open spec fn program_headers(image: Image, table: u64, count: nat) -> Seq<Phdr> {
    Seq::new(count, |i: int| Phdr::at(image, table + i * PHDR_SIZE)->0)
}

/// Whether a segment holds the dynamic entries.
pub open spec fn is_dynamic(phdr: Phdr) -> bool {
    phdr.p_type == PT_DYNAMIC
}

/// Whether a segment holds code.
pub open spec fn is_code(phdr: Phdr) -> bool {
    phdr.p_type == PT_LOAD && phdr.p_flags & PF_X != 0
}

/// The last header of a kind.
pub open spec fn last_where(phdrs: Seq<Phdr>, kind: spec_fn(Phdr) -> bool) -> Option<Phdr>
    decreases phdrs.len(),
{
    if phdrs.len() == 0 {
        None
    } else if kind(phdrs.last()) {
        Some(phdrs.last())
    } else {
        last_where(phdrs.drop_last(), kind)
    }
}

/// Where an object was mapped.
#[derive(Debug, Clone, Copy, PartialEq, Eq, Structural)]
pub struct PhdrInfo {
    /// What has to be added to the addresses that the object was linked for.
    pub vdso_addr: u64,
    /// The address of the dynamic entries.
    pub vdso_dyn: u64,
}

/// Where the object with the header at `ehdr` was mapped, by its last code segment and
/// its last dynamic segment.
pub open spec fn phdr_info(image: Image, ehdr: u64) -> Option<PhdrInfo> {
    match Ehdr::at(image, ehdr as int) {
        None => None,
        Some(header) => {
            let table = ehdr.wrapping_add(header.e_phoff);
            let phdrs = program_headers(image, table, header.e_phnum as nat);
            if !has_table(image, table, header.e_phnum as int, PHDR_SIZE as int) {
                None
            } else {
                match (
                    last_where(phdrs, |phdr: Phdr| is_code(phdr)),
                    last_where(phdrs, |phdr: Phdr| is_dynamic(phdr)),
                ) {
                    (Some(code), Some(dynamic)) => Some(
                        PhdrInfo {
                            vdso_addr: ehdr.wrapping_add(code.p_offset.wrapping_sub(code.p_vaddr)),
                            vdso_dyn: ehdr.wrapping_add(dynamic.p_offset),
                        },
                    ),
                    _ => None,
                }
            }
        },
    }
}

impl PhdrInfo {
    /// Finds out where the object with the header at `ehdr` was mapped.
    pub fn load(image: &Image, ehdr: u64) -> (info: Option<Self>)
        ensures
            info == phdr_info(*image, ehdr),
    {
        let header = match Ehdr::read(image, ehdr) {
            None => {
                return None;
            },
            Some(header) => header,
        };
        let table: u64 = ehdr.wrapping_add(header.e_phoff);
        let count: u64 = header.e_phnum as u64;
        if !contains_table(image, table, count, PHDR_SIZE) {
            return None;
        }
        let end: u64 = image.end();
        let mut vdso_addr: Option<u64> = None;
        let mut vdso_dyn: Option<u64> = None;
        let ghost phdrs = program_headers(*image, table, count as nat);
        let ghost code = |phdr: Phdr| is_code(phdr);
        let ghost dynamic = |phdr: Phdr| is_dynamic(phdr);
        let mut i: u64 = 0;
        assert(phdrs.take(0) =~= Seq::<Phdr>::empty());
        while i < count
            invariant
                i <= count <= u16::MAX,
                has_table(*image, table, count as int, PHDR_SIZE as int),
                end == image.base() + image.bytes().len(),
                phdrs == program_headers(*image, table, count as nat),
                code == (|phdr: Phdr| is_code(phdr)),
                dynamic == (|phdr: Phdr| is_dynamic(phdr)),
                vdso_addr == (match last_where(phdrs.take(i as int), code) {
                    Some(phdr) => Some(ehdr.wrapping_add(phdr.p_offset.wrapping_sub(phdr.p_vaddr))),
                    None => None::<u64>,
                }),
                vdso_dyn == (match last_where(phdrs.take(i as int), dynamic) {
                    Some(phdr) => Some(ehdr.wrapping_add(phdr.p_offset)),
                    None => None::<u64>,
                }),
            decreases count - i,
        {
            proof {
                lemma_in_table(*image, table, count as int, PHDR_SIZE as int, i as int);
                assert(phdrs.take(i + 1).drop_last() =~= phdrs.take(i as int));
                assert(phdrs.take(i + 1).last() == phdrs[i as int]);
            }
            if let Some(phdr) = Phdr::read(image, table + i * PHDR_SIZE) {
                if phdr.p_type == pt_dynamic() {
                    vdso_dyn = Some(ehdr.wrapping_add(phdr.p_offset));
                } else if phdr.p_type == pt_load() && phdr.p_flags & pf_x() != 0 {
                    vdso_addr = Some(ehdr.wrapping_add(phdr.p_offset.wrapping_sub(phdr.p_vaddr)));
                }
            }
            i += 1;
        }
        assert(phdrs.take(count as int) =~= phdrs);
        match (vdso_addr, vdso_dyn) {
            (Some(vdso_addr), Some(vdso_dyn)) => Some(PhdrInfo { vdso_addr, vdso_dyn }),
            _ => None,
        }
    }
}

/// The first section of the dynamic symbols from place `i` on.
pub open spec fn dynsym_from(image: Image, table: u64, count: int, i: int) -> Option<Shdr>
    decreases count - i,
{
    if i >= count {
        None
    } else {
        let shdr = Shdr::at(image, table + i * SHDR_SIZE)->0;
        if shdr.sh_type == SHT_DYNSYM {
            Some(shdr)
        } else {
            dynsym_from(image, table, count, i + 1)
        }
    }
}

/// The section headers of an object.
#[derive(Debug, Clone, Copy, PartialEq, Eq, Structural)]
pub struct ElfShdrArray {
    /// The address of the first header.
    pub table: u64,
    /// How many headers there are.
    pub count: u16,
}

impl ElfShdrArray {
    /// The section headers of the object with the header at `ehdr`.
    pub open spec fn of(image: Image, ehdr: u64) -> Option<Self> {
        match Ehdr::at(image, ehdr as int) {
            Some(header) => {
                let table = ehdr.wrapping_add(header.e_shoff);
                if has_table(image, table, header.e_shnum as int, SHDR_SIZE as int) {
                    Some(ElfShdrArray { table, count: header.e_shnum })
                } else {
                    None
                }
            },
            None => None,
        }
    }

    /// Whether the headers are in the image.
    pub open spec fn is_in(self, image: Image) -> bool {
        has_table(image, self.table, self.count as int, SHDR_SIZE as int)
    }

    /// The section of the dynamic symbols.
    pub open spec fn dynsym(self, image: Image) -> Option<Shdr> {
        dynsym_from(image, self.table, self.count as int, 0)
    }

    /// Whether the section of the dynamic symbols says how large a symbol is.
    pub open spec fn is_countable(self, image: Image) -> bool {
        self.dynsym(image) matches Some(shdr) ==> shdr.sh_entsize != 0
    }

    /// How many dynamic symbols there are.
    pub open spec fn symbols(self, image: Image) -> u64 {
        match self.dynsym(image) {
            Some(shdr) => shdr.sh_size / shdr.sh_entsize,
            None => 0,
        }
    }

    /// Finds the section headers of the object with the header at `ehdr`.
    pub fn load(image: &Image, ehdr: u64) -> (headers: Option<Self>)
        ensures
            headers == Self::of(*image, ehdr),
    {
        match Ehdr::read(image, ehdr) {
            Some(header) => {
                let table: u64 = ehdr.wrapping_add(header.e_shoff);
                if contains_table(image, table, header.e_shnum as u64, SHDR_SIZE) {
                    Some(ElfShdrArray { table, count: header.e_shnum })
                } else {
                    None
                }
            },
            None => None,
        }
    }

    /// Finds the section of the dynamic symbols.
    pub fn find_dynsym(&self, image: &Image) -> (section: Option<Shdr>)
        requires
            self.is_in(*image),
        ensures
            section == self.dynsym(*image),
    {
        let end: u64 = image.end();
        let count: u64 = self.count as u64;
        let mut i: u64 = 0;
        while i < count
            invariant
                i <= count,
                count == self.count,
                self.is_in(*image),
                end == image.base() + image.bytes().len(),
                self.dynsym(*image) == dynsym_from(*image, self.table, count as int, i as int),
            decreases count - i,
        {
            proof {
                lemma_in_table(*image, self.table, count as int, SHDR_SIZE as int, i as int);
            }
            if let Some(shdr) = Shdr::read(image, self.table + i * SHDR_SIZE) {
                if shdr.sh_type == sht_dynsym() {
                    return Some(shdr);
                }
            }
            i += 1;
        }
        None
    }

    /// Counts the dynamic symbols.
    pub fn symbol_count(&self, image: &Image) -> (count: u64)
        requires
            self.is_in(*image),
            self.is_countable(*image),
        ensures
            count == self.symbols(*image),
            forall|i: int| #[trigger]
                is_first_dynsym(*image, *self, i) && section(*image, *self, i)->0.sh_entsize > 0
                    ==> count * section(*image, *self, i)->0.sh_entsize <= section(
                    *image,
                    *self,
                    i,
                )->0.sh_size < (count + 1) * section(*image, *self, i)->0.sh_entsize,
            (forall|i: int|
                0 <= i < self.count ==> (#[trigger] section(*image, *self, i))->0.sh_type != 11)
                ==> count == 0,
    {
        proof {
            assert forall|i: int| #[trigger]
                is_first_dynsym(*image, *self, i) && section(*image, *self, i)->0.sh_entsize
                    > 0 implies self.symbols(*image) * section(*image, *self, i)->0.sh_entsize
                <= section(*image, *self, i)->0.sh_size < (self.symbols(*image) + 1) * section(
                *image,
                *self,
                i,
            )->0.sh_entsize by {
                symbols_fill_their_section(*image, *self, i);
            }
            if forall|i: int|
                0 <= i < self.count ==> (#[trigger] section(*image, *self, i))->0.sh_type != 11 {
                no_section_no_symbols(*image, *self);
            }
        }
        match self.find_dynsym(image) {
            Some(shdr) => shdr.sh_size / shdr.sh_entsize,
            None => 0,
        }
    }
}

/// The dynamic entries from an address on. They end before the entry with the tag zero,
/// or with the image.
pub open spec fn dyn_entries(image: Image, address: int) -> Seq<Dyn>
    decreases image.base() + image.bytes().len() - address,
{
    match Dyn::at(image, address) {
        Some(entry) => if entry.d_tag == DT_NULL {
            Seq::empty()
        } else {
            seq![entry] + dyn_entries(image, address + DYN_SIZE)
        },
        None => Seq::empty(),
    }
}

/// A walk over dynamic entries.
pub struct DynIter {
    address: Option<u64>,
}

impl DynIter {
    /// The entries that are still to come.
    pub closed spec fn remaining(self, image: Image) -> Seq<Dyn> {
        match self.address {
            Some(address) => dyn_entries(image, address as int),
            None => Seq::empty(),
        }
    }

    /// Walks the entries from an address on.
    pub fn new(address: u64) -> (iter: Self)
        ensures
            forall|image: Image| #[trigger]
                iter.remaining(image) == dyn_entries(image, address as int),
    {
        DynIter { address: Some(address) }
    }

    /// Hands out the next entry.
    pub fn next(&mut self, image: &Image) -> (entry: Option<Dyn>)
        ensures
            entry is Some <==> old(self).remaining(*image).len() > 0,
            entry matches Some(entry) ==> entry == old(self).remaining(*image)[0],
            entry is Some ==> final(self).remaining(*image) == old(self).remaining(*image).skip(1),
            entry is None ==> final(self).remaining(*image) == old(self).remaining(*image),
    {
        let ghost before = self.remaining(*image);
        let address: u64 = match self.address {
            Some(address) => address,
            None => {
                return None;
            },
        };
        match Dyn::read(image, address) {
            Some(entry) => {
                if entry.d_tag == dt_null() as u64 {
                    return None;
                }
                let end: u64 = image.end();
                assert(address + DYN_SIZE <= end);
                self.address = Some(address + DYN_SIZE);
                assert(before.skip(1) =~= dyn_entries(*image, address + DYN_SIZE));
                Some(entry)
            },
            None => None,
        }
    }
}

/// The address in the last entry with a tag. Only the low half of a tag counts.
pub open spec fn last_address(entries: Seq<Dyn>, tag: u32, vdso_addr: u64) -> Option<u64>
    decreases entries.len(),
{
    if entries.len() == 0 {
        None
    } else if entries.last().d_tag as u32 == tag {
        Some(vdso_addr.wrapping_add(entries.last().d_val))
    } else {
        last_address(entries.drop_last(), tag, vdso_addr)
    }
}

/// Whether an entry gives the address of one of the tables that a symbol is found by.
pub open spec fn is_table_tag(tag: u32) -> bool {
    tag == DT_STRTAB || tag == DT_SYMTAB || tag == DT_VERSYM || tag == DT_VERDEF
}

/// Whether no entry puts such a table at address zero.
pub open spec fn are_tables_mapped(entries: Seq<Dyn>, vdso_addr: u64) -> bool {
    forall|i: int|
        0 <= i < entries.len() && is_table_tag((#[trigger] entries[i]).d_tag as u32)
            ==> vdso_addr.wrapping_add(entries[i].d_val) != 0
}

/// One entry more that puts no table at address zero.
proof fn lemma_mapped_step(entries: Seq<Dyn>, vdso_addr: u64, n: int)
    requires
        0 <= n < entries.len(),
        are_tables_mapped(entries.take(n), vdso_addr),
        is_table_tag(entries[n].d_tag as u32) ==> vdso_addr.wrapping_add(entries[n].d_val) != 0,
    ensures
        are_tables_mapped(entries.take(n + 1), vdso_addr),
{
    assert forall|i: int|
        0 <= i < n + 1 && is_table_tag(
            (#[trigger] entries.take(n + 1)[i]).d_tag as u32,
        ) implies vdso_addr.wrapping_add(entries.take(n + 1)[i].d_val) != 0 by {
        if i < n {
            assert(entries.take(n)[i] == entries[i]);
        }
    }
}

/// The tables that a symbol is found by.
#[derive(Debug, Clone, Copy, PartialEq, Eq, Structural)]
pub struct SymbolTable {
    /// The address of the strings.
    pub strtab: u64,
    /// The address of the symbols.
    pub symtab: u64,
    /// The address of the version of each symbol.
    pub versym: u64,
    /// The address of the first version definition.
    pub verdef: u64,
    /// How many symbols there are.
    pub symbol_count: u64,
    /// What has to be added to the addresses that the object was linked for.
    pub vdso_addr: u64,
}

/// How many bytes the version of a symbol has.
pub const VERSYM_SIZE: u64 = 2;

impl SymbolTable {
    /// Whether the symbols and their versions are in the image.
    pub open spec fn is_in(self, image: Image) -> bool {
        &&& has_table(image, self.symtab, self.symbol_count as int, SYM_SIZE as int)
        &&& has_table(image, self.versym, self.symbol_count as int, VERSYM_SIZE as int)
    }

    /// The tables of an object with `symbol_count` symbols.
    pub open spec fn of(image: Image, phdr: PhdrInfo, symbol_count: u64) -> Option<Self> {
        let entries = dyn_entries(image, phdr.vdso_dyn as int);
        let strtab = last_address(entries, DT_STRTAB, phdr.vdso_addr);
        let symtab = last_address(entries, DT_SYMTAB, phdr.vdso_addr);
        let versym = last_address(entries, DT_VERSYM, phdr.vdso_addr);
        let verdef = last_address(entries, DT_VERDEF, phdr.vdso_addr);
        let table = SymbolTable {
            strtab: strtab->0,
            symtab: symtab->0,
            versym: versym->0,
            verdef: verdef->0,
            symbol_count,
            vdso_addr: phdr.vdso_addr,
        };
        if are_tables_mapped(entries, phdr.vdso_addr) && strtab is Some && symtab is Some
            && versym is Some && verdef is Some && table.is_in(image) {
            Some(table)
        } else {
            None
        }
    }

    /// Finds the tables of an object with `symbol_count` symbols.
    pub fn load(image: &Image, phdr: PhdrInfo, symbol_count: u64) -> (table: Option<Self>)
        ensures
            table == Self::of(*image, phdr, symbol_count),
            table matches Some(table) ==> {
                let entries = dyn_entries(*image, phdr.vdso_dyn as int);
                &&& is_given_by_last(entries, 5, phdr.vdso_addr, table.strtab)
                &&& is_given_by_last(entries, 6, phdr.vdso_addr, table.symtab)
                &&& is_given_by_last(entries, 0x6fff_fff0, phdr.vdso_addr, table.versym)
                &&& is_given_by_last(entries, 0x6fff_fffc, phdr.vdso_addr, table.verdef)
            },
    {
        proof {
            tables_are_given_by_the_last_entries(*image, phdr, symbol_count);
        }
        let mut strtab: Option<u64> = None;
        let mut symtab: Option<u64> = None;
        let mut versym: Option<u64> = None;
        let mut verdef: Option<u64> = None;
        let mut iter = DynIter::new(phdr.vdso_dyn);
        let ghost entries = dyn_entries(*image, phdr.vdso_dyn as int);
        let ghost mut n: int = 0;
        assert(entries.take(0) =~= Seq::<Dyn>::empty());
        assert(entries.skip(0) =~= entries);
        loop
            invariant
                0 <= n <= entries.len(),
                iter.remaining(*image) == entries.skip(n),
                are_tables_mapped(entries.take(n), phdr.vdso_addr),
                strtab == last_address(entries.take(n), DT_STRTAB, phdr.vdso_addr),
                symtab == last_address(entries.take(n), DT_SYMTAB, phdr.vdso_addr),
                versym == last_address(entries.take(n), DT_VERSYM, phdr.vdso_addr),
                verdef == last_address(entries.take(n), DT_VERDEF, phdr.vdso_addr),
                entries == dyn_entries(*image, phdr.vdso_dyn as int),
            ensures
                n == entries.len(),
            decreases entries.len() - n,
        {
            let entry = match iter.next(image) {
                Some(entry) => entry,
                None => {
                    break ;
                },
            };
            proof {
                assert(entries.take(n + 1).drop_last() =~= entries.take(n));
                assert(entry == entries[n]);
                assert(entries.take(n + 1).last() == entry);
                assert(entries.skip(n).skip(1) =~= entries.skip(n + 1));
            }
            let tag: u32 = entry.d_tag as u32;
            let address: u64 = phdr.vdso_addr.wrapping_add(entry.d_val);
            if tag == dt_strtab() {
                strtab = Some(address);
            } else if tag == dt_symtab() {
                symtab = Some(address);
            } else if tag == dt_versym() {
                versym = Some(address);
            } else if tag == dt_verdef() {
                verdef = Some(address);
            } else {
                proof {
                    lemma_mapped_step(entries, phdr.vdso_addr, n);
                    n = n + 1;
                }
                continue ;
            }
            if address == 0 {
                assert(entries[n] == entry);
                return None;
            }
            proof {
                lemma_mapped_step(entries, phdr.vdso_addr, n);
                n = n + 1;
            }
        }
        assert(entries.take(n) =~= entries);
        match (strtab, symtab, versym, verdef) {
            (Some(strtab), Some(symtab), Some(versym), Some(verdef)) => {
                if contains_table(image, symtab, symbol_count, SYM_SIZE) && contains_table(
                    image,
                    versym,
                    symbol_count,
                    VERSYM_SIZE,
                ) {
                    Some(
                        SymbolTable {
                            strtab,
                            symtab,
                            versym,
                            verdef,
                            symbol_count,
                            vdso_addr: phdr.vdso_addr,
                        },
                    )
                } else {
                    None
                }
            },
            _ => None,
        }
    }
}

/// A version definition in an image.
#[derive(Debug, Clone, Copy, PartialEq, Eq, Structural)]
pub struct VerdefRef {
    /// Where the definition is.
    pub address: u64,
    /// The definition.
    pub verdef: Verdef,
}

impl VerdefRef {
    /// The record of the name of the version.
    pub open spec fn name_record(self, image: Image) -> Option<Verdaux> {
        if self.verdef.vd_aux == 0 {
            None
        } else {
            Verdaux::at(image, self.address + self.verdef.vd_aux)
        }
    }

    /// Reads the record of the name of the version.
    pub fn aux(&self, image: &Image) -> (record: Option<Verdaux>)
        ensures
            record == self.name_record(*image),
    {
        if self.verdef.vd_aux == 0 {
            return None;
        }
        match self.address.checked_add(self.verdef.vd_aux as u64) {
            Some(address) => Verdaux::read(image, address),
            None => {
                let end: u64 = image.end();
                None
            },
        }
    }
}

/// The version definitions from an address on. They end with the one that says that none
/// follows, or with the image.
pub open spec fn verdefs(image: Image, address: int) -> Seq<VerdefRef>
    decreases
            (if image.has(address, 1) {
                image.base() + image.bytes().len() - address
            } else {
                0
            }),
{
    match Verdef::at(image, address) {
        Some(verdef) => {
            let first = VerdefRef { address: address as u64, verdef };
            if verdef.vd_next == 0 {
                seq![first]
            } else {
                seq![first] + verdefs(image, address + verdef.vd_next)
            }
        },
        None => Seq::empty(),
    }
}

/// A walk over version definitions.
pub struct VerdefIter {
    address: Option<u64>,
}

impl VerdefIter {
    /// The definitions that are still to come.
    pub closed spec fn remaining(self, image: Image) -> Seq<VerdefRef> {
        match self.address {
            Some(address) => verdefs(image, address as int),
            None => Seq::empty(),
        }
    }

    /// Walks the definitions from an address on.
    pub fn new(address: u64) -> (iter: Self)
        ensures
            forall|image: Image| #[trigger]
                iter.remaining(image) == verdefs(image, address as int),
    {
        VerdefIter { address: Some(address) }
    }

    /// Hands out the next definition.
    pub fn next(&mut self, image: &Image) -> (verdef: Option<VerdefRef>)
        ensures
            verdef is Some <==> old(self).remaining(*image).len() > 0,
            verdef matches Some(verdef) ==> verdef == old(self).remaining(*image)[0],
            verdef is Some ==> final(self).remaining(*image) == old(self).remaining(*image).skip(1),
            verdef is None ==> final(self).remaining(*image) == old(self).remaining(*image),
    {
        let ghost before = self.remaining(*image);
        let address: u64 = match self.address {
            Some(address) => address,
            None => {
                return None;
            },
        };
        match Verdef::read(image, address) {
            Some(verdef) => {
                let end: u64 = image.end();
                if verdef.vd_next == 0 {
                    self.address = None;
                } else {
                    self.address = address.checked_add(verdef.vd_next as u64);
                    assert(before.skip(1) =~= verdefs(*image, address + verdef.vd_next));
                }
                assert(self.remaining(*image) =~= before.skip(1));
                Some(VerdefRef { address, verdef })
            },
            None => None,
        }
    }
}

/// Whether a definition defines the version with a number. The one that names the object
/// itself does not.
pub open spec fn defines(verdef: VerdefRef, identifier: u16) -> bool {
    verdef.verdef.vd_flags & VER_FLG_BASE == 0 && verdef.verdef.vd_ndx & 0x7FFF == identifier
}

/// The first definition of the version with a number.
pub open spec fn first_defining(verdefs: Seq<VerdefRef>, identifier: u16) -> Option<VerdefRef>
    decreases verdefs.len(),
{
    if verdefs.len() == 0 {
        None
    } else if defines(verdefs[0], identifier) {
        Some(verdefs[0])
    } else {
        first_defining(verdefs.skip(1), identifier)
    }
}

impl SymbolTable {
    /// The symbol at place `i`.
    pub open spec fn symbol(self, image: Image, i: int) -> Sym {
        Sym::at(image, self.symtab + i * SYM_SIZE)->0
    }

    /// The name of the symbol at place `i`.
    pub open spec fn name(self, image: Image, i: int) -> Option<Seq<u8>> {
        image.text_at(self.strtab + self.symbol(image, i).st_name)
    }

    /// The name of the version of the symbol at place `i`.
    pub open spec fn version(self, image: Image, i: int) -> Option<Seq<u8>> {
        if 0 <= i < self.symbol_count {
            let identifier = (image.u16_at(self.versym + i * VERSYM_SIZE) as u16) & 0x7FFF;
            match first_defining(verdefs(image, self.verdef as int), identifier) {
                Some(verdef) => match verdef.name_record(image) {
                    Some(record) => image.text_at(self.strtab + record.vda_name),
                    None => None,
                },
                None => None,
            }
        } else {
            None
        }
    }

    /// Reads the text at an offset in the string table.
    fn read_string<'a>(&self, image: &'a Image, offset: u32) -> (text: Option<&'a [u8]>)
        ensures
            text is Some <==> image.text_at(self.strtab + offset) is Some,
            text matches Some(text) ==> Some(text@) == image.text_at(self.strtab + offset),
    {
        match self.strtab.checked_add(offset as u64) {
            Some(address) => image.read_text(address),
            None => {
                let end: u64 = image.end();
                let ghost address = self.strtab + offset;
                assert(forall|len: int| !image.is_text(address, len));
                None
            },
        }
    }

    /// Finds the name of the version of the symbol at place `index`.
    pub fn find_version<'a>(&self, image: &'a Image, index: u64) -> (version: Option<&'a [u8]>)
        requires
            self.is_in(*image),
        ensures
            version is Some <==> self.version(*image, index as int) is Some,
            version matches Some(version) ==> Some(version@) == self.version(*image, index as int),
    {
        if index >= self.symbol_count {
            return None;
        }
        let end: u64 = image.end();
        proof {
            lemma_in_table(
                *image,
                self.versym,
                self.symbol_count as int,
                VERSYM_SIZE as int,
                index as int,
            );
        }
        let identifier: u16 = image.read_u16(self.versym + index * VERSYM_SIZE) & 0x7FFF;
        let mut iter = VerdefIter::new(self.verdef);
        loop
            invariant
                self.is_in(*image),
                index < self.symbol_count,
                identifier == (image.u16_at(self.versym + index * VERSYM_SIZE) as u16) & 0x7FFF,
                first_defining(verdefs(*image, self.verdef as int), identifier) == first_defining(
                    iter.remaining(*image),
                    identifier,
                ),
            decreases iter.remaining(*image).len(),
        {
            let verdef = match iter.next(image) {
                Some(verdef) => verdef,
                None => {
                    return None;
                },
            };
            if verdef.verdef.vd_flags & ver_flg_base() != 0 {
                continue ;
            }
            if verdef.verdef.vd_ndx & 0x7FFF == identifier {
                return match verdef.aux(image) {
                    Some(record) => self.read_string(image, record.vda_name),
                    None => None,
                };
            }
        }
    }

    /// Whether the search for a symbol ends at place `i`: the symbol has the name, and
    /// the version or none at all.
    pub open spec fn decides(
        self,
        image: Image,
        name: Seq<char>,
        version: Seq<char>,
        i: int,
    ) -> bool {
        &&& self.name(image, i) matches Some(text) && spells(text, name)
        &&& self.version(image, i) matches Some(text) ==> spells(text, version)
    }

    /// The address of a symbol, by the places from `i` on.
    pub open spec fn symbol_from(
        self,
        image: Image,
        name: Seq<char>,
        version: Seq<char>,
        i: int,
    ) -> Option<u64>
        decreases self.symbol_count - i,
    {
        if i >= self.symbol_count {
            None
        } else if self.decides(image, name, version, i) {
            if self.version(image, i) is Some {
                Some(self.vdso_addr.wrapping_add(self.symbol(image, i).st_value))
            } else {
                None
            }
        } else {
            self.symbol_from(image, name, version, i + 1)
        }
    }

    /// The address of the random number generator.
    pub open spec fn generator(self, image: Image, arch: Arch) -> Option<u64> {
        match name_and_version(arch) {
            Some((name, version)) => self.symbol_from(image, name, version, 0),
            None => None,
        }
    }

    /// Finds the random number generator.
    pub fn find_symbol(&self, image: &Image, arch: Arch) -> (address: Option<u64>)
        requires
            self.is_in(*image),
        ensures
            address == self.generator(*image, arch),
    {
        let (target_name, target_version) = match get_name_and_version(arch) {
            Some(names) => names,
            None => {
                return None;
            },
        };
        let end: u64 = image.end();
        let mut i: u64 = 0;
        while i < self.symbol_count
            invariant
                i <= self.symbol_count,
                self.is_in(*image),
                end == image.base() + image.bytes().len(),
                name_and_version(arch) == Some((target_name@, target_version@)),
                self.generator(*image, arch) == self.symbol_from(
                    *image,
                    target_name@,
                    target_version@,
                    i as int,
                ),
            decreases self.symbol_count - i,
        {
            proof {
                lemma_in_table(
                    *image,
                    self.symtab,
                    self.symbol_count as int,
                    SYM_SIZE as int,
                    i as int,
                );
            }
            if let Some(sym) = Sym::read(image, self.symtab + i * SYM_SIZE) {
                let named = match self.read_string(image, sym.st_name) {
                    Some(name) => is_spelled(name, target_name),
                    None => false,
                };
                if named {
                    match self.find_version(image, i) {
                        Some(version) => {
                            if is_spelled(version, target_version) {
                                return Some(self.vdso_addr.wrapping_add(sym.st_value));
                            }
                        },
                        None => {
                            return None;
                        },
                    }
                }
            }
            i += 1;
        }
        None
    }
}

/// Whether the symbols of the object with the header at `ehdr` can be counted: its
/// section of dynamic symbols, if it has one, says how large a symbol is.
pub open spec fn is_countable(image: Image, ehdr: u64) -> bool {
    ehdr != 0 ==> (ElfShdrArray::of(image, ehdr) matches Some(headers) ==> headers.is_countable(
        image,
    ))
}

/// Decides whether the symbols of the object with the header at `ehdr` can be counted.
pub fn can_count(image: &Image, ehdr: u64) -> (countable: bool)
    ensures
        countable == is_countable(*image, ehdr),
{
    if ehdr == 0 {
        return true;
    }
    match ElfShdrArray::load(image, ehdr) {
        Some(headers) => match headers.find_dynsym(image) {
            Some(shdr) => shdr.sh_entsize != 0,
            None => true,
        },
        None => true,
    }
}

/// The address of the random number generator in the object with the header at `ehdr`.
/// The outer `None` stands for an object whose tables are not there.
pub open spec fn function_at(image: Image, ehdr: u64, arch: Arch) -> Option<Option<u64>> {
    match (ElfShdrArray::of(image, ehdr), phdr_info(image, ehdr)) {
        (Some(headers), Some(info)) => match SymbolTable::of(image, info, headers.symbols(image)) {
            Some(table) => if ehdr == 0 {
                None
            } else {
                Some(table.generator(image, arch))
            },
            None => None,
        },
        _ => None,
    }
}

/// Finds the random number generator in the object with the header at `ehdr`.
pub fn find_function(image: &Image, ehdr: u64, arch: Arch) -> (function: Option<Option<u64>>)
    requires
        is_countable(*image, ehdr),
    ensures
        function == function_at(*image, ehdr, arch),
{
    if ehdr == 0 {
        return None;
    }
    let headers = match ElfShdrArray::load(image, ehdr) {
        Some(headers) => headers,
        None => {
            return None;
        },
    };
    let symbol_count: u64 = headers.symbol_count(image);
    let info = match PhdrInfo::load(image, ehdr) {
        Some(info) => info,
        None => {
            return None;
        },
    };
    match SymbolTable::load(image, info, symbol_count) {
        Some(table) => Some(table.find_symbol(image, arch)),
        None => None,
    }
}

/// The generator and the page size that the entries of an auxiliary vector give. The last
/// entry of each kind counts. `None` stands for an object whose tables are not there.
pub open spec fn gathered(entries: Seq<AuxvEntry>, image: Image, arch: Arch) -> Option<
    (Option<u64>, Option<u64>),
>
    decreases entries.len(),
{
    if entries.len() == 0 {
        Some((None, None))
    } else {
        let entry = entries.last();
        match gathered(entries.drop_last(), image, arch) {
            Some((function, page_size)) => if entry.key == AT_SYSINFO_EHDR {
                match function_at(image, entry.value, arch) {
                    Some(function) => Some((function, page_size)),
                    None => None,
                }
            } else if entry.key == AT_PAGESZ {
                Some((function, Some(entry.value)))
            } else {
                Some((function, page_size))
            },
            None => None,
        }
    }
}

/// Whether every object that the walk over the entries comes to can have its symbols
/// counted.
pub open spec fn are_countable(entries: Seq<AuxvEntry>, image: Image, arch: Arch) -> bool {
    forall|i: int|
        0 <= i < entries.len() && (#[trigger] entries[i]).key == AT_SYSINFO_EHDR && gathered(
            entries.take(i),
            image,
            arch,
        ) is Some ==> is_countable(image, entries[i].value)
}

/// Finds the random number generator in the vDSO, and the page size.
pub fn get_function_and_page_size(auxv: &Auxv, image: &Image, arch: Arch) -> (found: Option<
    (u64, u64),
>)
    requires
        are_countable(auxv.entries(), *image, arch),
    ensures
        found == (match gathered(auxv.entries(), *image, arch) {
            Some((Some(function), Some(page_size))) => Some((function, page_size)),
            _ => None::<(u64, u64)>,
        }),
        found matches Some((function, page_size)) ==> is_found(
            auxv.entries(),
            *image,
            arch,
            function,
            page_size,
        ),
        found is None ==> forall|function: u64, page_size: u64|
            !(#[trigger] is_found(auxv.entries(), *image, arch, function, page_size)),
{
    proof {
        assert forall|function: u64, page_size: u64| #[trigger]
            is_found(auxv.entries(), *image, arch, function, page_size) <==> gathered(
                auxv.entries(),
                *image,
                arch,
            ) == Some((Some(function), Some(page_size))) by {
            last_entries_decide(auxv.entries(), *image, arch, function, page_size);
        }
    }
    let mut function: Option<u64> = None;
    let mut page_size: Option<u64> = None;
    let mut iter: AuxvIter = auxv.iter();
    let ghost entries = auxv.entries();
    proof {
        lemma_live_len(auxv.buffer(), 0);
        assert(entries.take(0) =~= Seq::<AuxvEntry>::empty());
    }
    loop
        invariant
            entries == auxv.entries(),
            iter.buffer() == auxv.buffer(),
            0 <= iter.position() <= live_len(auxv.buffer()) <= auxv.buffer().len(),
            are_countable(entries, *image, arch),
            gathered(entries.take(iter.position()), *image, arch) == Some((function, page_size)),
        ensures
            iter.position() == live_len(auxv.buffer()),
        decreases live_len(auxv.buffer()) - iter.position(),
    {
        let ghost i = iter.position();
        let entry = match iter.next() {
            Some(entry) => entry,
            None => {
                break ;
            },
        };
        proof {
            assert(entry == entries[i]);
            assert(entries.take(i + 1).drop_last() =~= entries.take(i));
            assert(entries.take(i + 1).last() == entry);
            lemma_gathered_prefix(entries, *image, arch, i + 1);
        }
        if entry.key == at_sysinfo_ehdr() as u64 {
            match find_function(image, entry.value, arch) {
                Some(address) => {
                    function = address;
                },
                None => {
                    return None;
                },
            }
        }
        if entry.key == at_pagesz() as u64 {
            page_size = Some(entry.value);
        }
    }
    assert(entries.take(iter.position()) =~= entries);
    match (function, page_size) {
        (Some(function), Some(page_size)) => Some((function, page_size)),
        _ => None,
    }
}

/// Nothing is gathered from entries if nothing is gathered from the first of them.
proof fn lemma_gathered_prefix(entries: Seq<AuxvEntry>, image: Image, arch: Arch, n: int)
    requires
        0 <= n <= entries.len(),
    ensures
        gathered(entries.take(n), image, arch) is None ==> gathered(entries, image, arch) is None,
    decreases entries.len(),
{
    if n == entries.len() {
        assert(entries.take(n) =~= entries);
    } else {
        assert(entries.drop_last().take(n) =~= entries.take(n));
        lemma_gathered_prefix(entries.drop_last(), image, arch, n);
    }
}

/// An address that the search finds is that of a symbol with the name and the version
/// that were looked for, and no symbol before it has both.
pub proof fn found_symbol_has_name_and_version(
    table: SymbolTable,
    image: Image,
    name: Seq<char>,
    version: Seq<char>,
)
    ensures
        table.symbol_from(image, name, version, 0) matches Some(address) ==> exists|i: int|
            {
                &&& 0 <= i < table.symbol_count
                &&& #[trigger] table.is_match(image, name, version, i)
                &&& address == table.vdso_addr.wrapping_add(table.symbol(image, i).st_value)
                &&& forall|j: int| 0 <= j < i ==> !table.is_match(image, name, version, j)
            },
{
    lemma_symbol_from(table, image, name, version, 0);
}

/// The search finds a symbol with the name and the version that are looked for, if there
/// is one and every symbol with the name has a version.
pub proof fn versioned_symbol_is_found(
    table: SymbolTable,
    image: Image,
    name: Seq<char>,
    version: Seq<char>,
    i: int,
)
    requires
        0 <= i < table.symbol_count,
        table.is_match(image, name, version, i),
        forall|j: int|
            0 <= j < i && (#[trigger] table.name(image, j) matches Some(text) && spells(text, name))
                ==> table.version(image, j) is Some,
    ensures
        table.symbol_from(image, name, version, 0) is Some,
{
    lemma_decided_by(table, image, name, version, 0, i);
}

impl SymbolTable {
    /// Whether the symbol at place `i` has a name and a version.
    pub open spec fn is_match(
        self,
        image: Image,
        name: Seq<char>,
        version: Seq<char>,
        i: int,
    ) -> bool {
        &&& self.name(image, i) matches Some(text) && spells(text, name)
        &&& self.version(image, i) matches Some(text) && spells(text, version)
    }
}

proof fn lemma_symbol_from(
    table: SymbolTable,
    image: Image,
    name: Seq<char>,
    version: Seq<char>,
    start: int,
)
    requires
        0 <= start,
    ensures
        table.symbol_from(image, name, version, start) matches Some(address) ==> exists|i: int|
            {
                &&& start <= i < table.symbol_count
                &&& #[trigger] table.is_match(image, name, version, i)
                &&& address == table.vdso_addr.wrapping_add(table.symbol(image, i).st_value)
                &&& forall|j: int| start <= j < i ==> !table.is_match(image, name, version, j)
            },
    decreases table.symbol_count - start,
{
    if start < table.symbol_count {
        if table.decides(image, name, version, start) {
            if table.version(image, start) is Some {
                assert(table.is_match(image, name, version, start));
            }
        } else {
            lemma_symbol_from(table, image, name, version, start + 1);
            assert(!table.is_match(image, name, version, start));
        }
    }
}

proof fn lemma_decided_by(
    table: SymbolTable,
    image: Image,
    name: Seq<char>,
    version: Seq<char>,
    start: int,
    i: int,
)
    requires
        0 <= start <= i < table.symbol_count,
        table.is_match(image, name, version, i),
        forall|j: int|
            start <= j < i && (#[trigger] table.name(image, j) matches Some(text) && spells(
                text,
                name,
            )) ==> table.version(image, j) is Some,
    ensures
        table.symbol_from(image, name, version, start) is Some,
    decreases i - start,
{
    if start < i && !table.decides(image, name, version, start) {
        lemma_decided_by(table, image, name, version, start + 1, i);
    } else if start < i {
        assert(table.name(image, start) is Some);
    }
}

} // verus!
