use sysparts::vdso_rng::auxv::{Auxv, AuxvEntry, MAX_AUXV_ENTRIES};
use sysparts::vdso_rng::constants;
use sysparts::vdso_rng::elf::{Dyn, Ehdr, Phdr, Shdr, Sym, Verdef};
use sysparts::vdso_rng::image::{is_spelled, ByteOrder, Image};
use sysparts::vdso_rng::vdso::{
    can_count, find_function, get_function_and_page_size, get_name_and_version, Arch, DynIter,
    ElfShdrArray, PhdrInfo, SymbolTable, VerdefIter,
};

const BASE: u64 = 0x7fff_0000_1000;
const PHDRS: usize = 0x40;
const SHDRS: usize = 0x200;
const DYNAMIC: usize = 0x300;
const STRINGS: usize = 0x400;
const SYMBOLS: usize = 0x500;
const VERSYMS: usize = 0x600;
const VERDEFS: usize = 0x680;
const SIZE: usize = 0x800;

/// A small shared object in memory, linked for address zero.
struct Object {
    bytes: Vec<u8>,
    strings: usize,
    order: ByteOrder,
}

impl Object {
    fn put16(&mut self, at: usize, value: u16) {
        let bytes = match self.order {
            ByteOrder::Little => value.to_le_bytes(),
            ByteOrder::Big => value.to_be_bytes(),
        };
        self.bytes[at..at + 2].copy_from_slice(&bytes);
    }
    fn put32(&mut self, at: usize, value: u32) {
        let bytes = match self.order {
            ByteOrder::Little => value.to_le_bytes(),
            ByteOrder::Big => value.to_be_bytes(),
        };
        self.bytes[at..at + 4].copy_from_slice(&bytes);
    }
    fn put64(&mut self, at: usize, value: u64) {
        let bytes = match self.order {
            ByteOrder::Little => value.to_le_bytes(),
            ByteOrder::Big => value.to_be_bytes(),
        };
        self.bytes[at..at + 8].copy_from_slice(&bytes);
    }
    fn string(&mut self, text: &str) -> u32 {
        let at = self.strings;
        self.bytes[at..at + text.len()].copy_from_slice(text.as_bytes());
        self.strings += text.len() + 1;
        (at - STRINGS) as u32
    }
    fn phdr(&mut self, i: usize, kind: u32, flags: u32, offset: u64, vaddr: u64) {
        let at = PHDRS + 56 * i;
        self.put32(at, kind);
        self.put32(at + 4, flags);
        self.put64(at + 8, offset);
        self.put64(at + 16, vaddr);
    }
    fn dynamic(&mut self, i: usize, tag: u64, value: u64) {
        self.put64(DYNAMIC + 16 * i, tag);
        self.put64(DYNAMIC + 16 * i + 8, value);
    }
    fn symbol(&mut self, i: usize, name: &str, value: u64, version: u16) {
        let name = self.string(name);
        self.put32(SYMBOLS + 24 * i, name);
        self.put64(SYMBOLS + 24 * i + 8, value);
        self.put16(VERSYMS + 2 * i, version);
    }
    fn verdef(&mut self, at: usize, flags: u16, number: u16, name: &str, next: u32) {
        let name = self.string(name);
        self.put16(at + 2, flags);
        self.put16(at + 4, number);
        self.put32(at + 12, 20);
        self.put32(at + 16, next);
        self.put32(at + 20, name);
    }
    fn image(self) -> Image {
        Image::new(BASE, self.bytes, self.order)
    }
}

/// An object like the vDSO of x86-64: a base definition, a version, and three symbols.
fn object() -> Object {
    object_in(ByteOrder::Little)
}

fn object_in(order: ByteOrder) -> Object {
    let mut o = Object {
        bytes: vec![0; SIZE],
        strings: STRINGS + 1,
        order,
    };
    o.put64(32, PHDRS as u64);
    o.put64(40, SHDRS as u64);
    o.put16(56, 3);
    o.put16(60, 3);
    o.phdr(0, 1, 4, 0, 0);
    o.phdr(1, 1, 5, 0, 0);
    o.phdr(2, 2, 4, DYNAMIC as u64, DYNAMIC as u64);
    o.put32(SHDRS + 4, 3);
    o.put32(SHDRS + 64 + 4, 11);
    o.put64(SHDRS + 64 + 32, 3 * 24);
    o.put64(SHDRS + 64 + 56, 24);
    o.put32(SHDRS + 128 + 4, 11);
    o.put64(SHDRS + 128 + 32, 24);
    o.put64(SHDRS + 128 + 56, 24);
    o.dynamic(0, 5, STRINGS as u64);
    o.dynamic(1, 6, SYMBOLS as u64);
    o.dynamic(2, 0x6fff_fff0, VERSYMS as u64);
    o.dynamic(3, 0x6fff_fffc, VERDEFS as u64);
    o.dynamic(4, 14, 0x123);
    o.dynamic(5, 0, 0);
    o.symbol(0, "", 0, 0);
    o.symbol(1, "__vdso_gettimeofday", 0x700, 0x8002);
    o.symbol(2, "__vdso_getrandom", 0x740, 2);
    o.verdef(VERDEFS, 1, 1, "linux-vdso.so.1", 28);
    o.verdef(VERDEFS + 28, 0, 2, "LINUX_2.6", 0);
    o
}

fn auxv(entries: &[(u64, u64)]) -> Auxv {
    let mut buffer = Auxv::blank();
    for (slot, (key, value)) in buffer.iter_mut().zip(entries) {
        *slot = AuxvEntry {
            key: *key,
            value: *value,
        };
    }
    Auxv::new(Some(buffer)).unwrap()
}

#[test]
fn test_mmap_auxv() {
    assert!(Auxv::new(Some(Auxv::blank())).is_some(), "Failed to mmap auxiliary vector");
    assert!(Auxv::new(None).is_none());
}

#[test]
fn test_auxv_iter() {
    let auxv = auxv(&[(33, BASE), (6, 4096), (linux_raw_sys::auxvec::AT_RANDOM as u64, 0x1234)]);
    let mut iter = auxv.iter();
    let mut found = false;
    while let Some(entry) = iter.next() {
        found = found || entry.key == linux_raw_sys::auxvec::AT_RANDOM as u64;
    }
    assert!(found, "AT_RANDOM not found in auxiliary vector");
}

#[test]
fn auxv_ends_at_the_null_entry() {
    let auxv = Auxv::new(Some(vec![
        AuxvEntry { key: 6, value: 1 },
        AuxvEntry { key: 0, value: 2 },
        AuxvEntry { key: 7, value: 3 },
    ]))
    .unwrap();
    let mut iter = auxv.iter();
    assert_eq!(iter.next(), Some(AuxvEntry { key: 6, value: 1 }));
    assert_eq!(iter.next(), None);
    assert_eq!(iter.next(), None);
}

#[test]
fn auxv_ends_with_the_buffer() {
    let full = vec![AuxvEntry { key: 1, value: 9 }; 2];
    let auxv = Auxv::new(Some(full)).unwrap();
    let mut iter = auxv.iter();
    assert!(iter.next().is_some());
    assert!(iter.next().is_some());
    assert_eq!(iter.next(), None);
    assert_eq!(Auxv::blank(), vec![AuxvEntry { key: 0, value: 0 }; MAX_AUXV_ENTRIES]);
}

#[test]
fn test_get_function() {
    let image = object().image();
    let auxv = auxv(&[(33, BASE), (6, 4096)]);
    let (function, page_size) = get_function_and_page_size(&auxv, &image, Arch::X86_64)
        .expect("Failed to get VDSO function and page size");
    assert!(page_size > 0, "Page size should be greater than 0");
    assert_eq!((function, page_size), (BASE + 0x740, 4096));
}

#[test]
fn last_auxv_entry_counts() {
    let image = object().image();
    let twice = auxv(&[(6, 4096), (33, BASE), (6, 16384)]);
    assert_eq!(
        get_function_and_page_size(&twice, &image, Arch::X86_64),
        Some((BASE + 0x740, 16384))
    );
    let no_page_size = auxv(&[(33, BASE)]);
    assert_eq!(get_function_and_page_size(&no_page_size, &image, Arch::X86_64), None);
    let no_object = auxv(&[(6, 4096)]);
    assert_eq!(get_function_and_page_size(&no_object, &image, Arch::X86_64), None);
    let null_object = auxv(&[(33, 0), (33, BASE), (6, 4096)]);
    assert_eq!(get_function_and_page_size(&null_object, &image, Arch::X86_64), None);
    let elsewhere = auxv(&[(33, BASE - 0x1000), (6, 4096)]);
    assert_eq!(get_function_and_page_size(&elsewhere, &image, Arch::X86_64), None);
}

#[test]
fn other_architectures() {
    assert_eq!(get_name_and_version(Arch::Other), None);
    assert_eq!(
        get_name_and_version(Arch::Aarch64),
        Some(("__kernel_getrandom", "LINUX_2.6.39"))
    );
    assert_eq!(get_name_and_version(Arch::X86_64), Some(("__vdso_getrandom", "LINUX_2.6")));
    assert_eq!(find_function(&object().image(), BASE, Arch::Other), Some(None));
    assert_eq!(find_function(&object().image(), BASE, Arch::Aarch64), Some(None));
    let mut o = object();
    o.symbol(1, "__kernel_getrandom", 0x750, 2);
    o.verdef(VERDEFS + 28, 0, 2, "LINUX_2.6.39", 0);
    assert_eq!(find_function(&o.image(), BASE, Arch::Aarch64), Some(Some(BASE + 0x750)));
}

#[test]
fn object_of_a_big_endian_machine() {
    let mut o = object_in(ByteOrder::Big);
    o.symbol(1, "__kernel_getrandom", 0x750, 2);
    o.verdef(VERDEFS + 28, 0, 2, "LINUX_2.6.39", 0);
    let image = o.image();
    let auxv = auxv(&[(33, BASE), (6, 65536)]);
    assert_eq!(
        get_function_and_page_size(&auxv, &image, Arch::Aarch64),
        Some((BASE + 0x750, 65536))
    );
}

#[test]
fn object_linked_for_a_high_address() {
    let linked = 0xffff_ffff_ff70_0000u64;
    let mut o = object();
    o.phdr(1, 1, 5, 0, linked);
    o.dynamic(0, 5, linked + STRINGS as u64);
    o.dynamic(1, 6, linked + SYMBOLS as u64);
    o.dynamic(2, 0x6fff_fff0, linked + VERSYMS as u64);
    o.dynamic(3, 0x6fff_fffc, linked + VERDEFS as u64);
    o.symbol(2, "__vdso_getrandom", linked + 0x740, 2);
    let image = o.image();
    assert_eq!(
        PhdrInfo::load(&image, BASE),
        Some(PhdrInfo {
            vdso_addr: BASE.wrapping_sub(linked),
            vdso_dyn: BASE + DYNAMIC as u64
        })
    );
    assert_eq!(find_function(&image, BASE, Arch::X86_64), Some(Some(BASE + 0x740)));
}

#[test]
fn last_segment_of_a_kind_counts() {
    let mut o = object();
    o.put16(56, 4);
    o.phdr(3, 1, 1, 0x10, 0);
    assert_eq!(
        PhdrInfo::load(&o.image(), BASE),
        Some(PhdrInfo { vdso_addr: BASE + 0x10, vdso_dyn: BASE + DYNAMIC as u64 })
    );
    let mut o = object();
    o.phdr(2, 1, 4, 0, 0);
    assert_eq!(PhdrInfo::load(&o.image(), BASE), None);
    let mut o = object();
    o.phdr(1, 1, 4, 0, 0);
    assert_eq!(PhdrInfo::load(&o.image(), BASE), None);
    let mut o = object();
    o.put16(56, 0xffff);
    assert_eq!(PhdrInfo::load(&o.image(), BASE), None);
}

#[test]
fn first_section_of_symbols_counts() {
    let image = object().image();
    let headers = ElfShdrArray::load(&image, BASE).unwrap();
    assert_eq!(headers, ElfShdrArray { table: BASE + SHDRS as u64, count: 3 });
    assert_eq!(headers.symbol_count(&image), 3);
    assert_eq!(
        headers.find_dynsym(&image),
        Some(Shdr { sh_type: 11, sh_size: 72, sh_entsize: 24 })
    );
    let mut o = object();
    o.put16(60, 1);
    let image = o.image();
    let headers = ElfShdrArray::load(&image, BASE).unwrap();
    assert_eq!(headers.find_dynsym(&image), None);
    assert_eq!(headers.symbol_count(&image), 0);
    // Without symbols, none is found.
    assert_eq!(find_function(&image, BASE, Arch::X86_64), Some(None));
}

#[test]
fn symbols_without_a_size_cannot_be_counted() {
    let mut o = object();
    assert!(can_count(&object().image(), BASE));
    o.put64(SHDRS + 64 + 56, 0);
    let image = o.image();
    assert!(!can_count(&image, BASE));
    assert!(can_count(&image, 0));
    assert!(can_count(&image, BASE + SIZE as u64));
}

#[test]
fn missing_tables() {
    for tag in 0..4 {
        let mut o = object();
        // An unknown tag hides the entry.
        o.dynamic(tag, 0x1234, 0);
        assert_eq!(find_function(&o.image(), BASE, Arch::X86_64), None);
    }
    // A table at address zero ends the search, even if a later entry is sound.
    let mut o = object();
    o.dynamic(4, 5, BASE.wrapping_neg());
    assert_eq!(find_function(&o.image(), BASE, Arch::X86_64), None);
    // Symbols out of the image.
    let mut o = object();
    o.dynamic(1, 6, SIZE as u64 - 24);
    assert_eq!(find_function(&o.image(), BASE, Arch::X86_64), None);
    let mut o = object();
    o.dynamic(2, 0x6fff_fff0, SIZE as u64 - 2);
    assert_eq!(find_function(&o.image(), BASE, Arch::X86_64), None);
}

#[test]
fn dynamic_tags_are_cut() {
    // Only the low half of a tag counts, but the end needs the whole tag to be zero.
    let mut o = object();
    o.dynamic(0, 0x1_0000_0005, STRINGS as u64);
    o.dynamic(4, 0x1_0000_0000, 0);
    assert_eq!(find_function(&o.image(), BASE, Arch::X86_64), Some(Some(BASE + 0x740)));
    // The last entry with a tag counts.
    let mut o = object();
    o.dynamic(4, 5, STRINGS as u64 + 1);
    assert_eq!(find_function(&o.image(), BASE, Arch::X86_64), Some(None));
    let image = object().image();
    let mut iter = DynIter::new(BASE + DYNAMIC as u64);
    let mut tags = Vec::new();
    while let Some(Dyn { d_tag, .. }) = iter.next(&image) {
        tags.push(d_tag);
    }
    assert_eq!(tags, vec![5, 6, 0x6fff_fff0, 0x6fff_fffc, 14]);
}

fn table(image: &Image) -> SymbolTable {
    let info = PhdrInfo::load(image, BASE).unwrap();
    SymbolTable::load(image, info, 3).unwrap()
}

#[test]
fn versions_of_symbols() {
    let image = object().image();
    let symbols = table(&image);
    // The number of the base definition is not a version.
    assert_eq!(symbols.find_version(&image, 0), None);
    // The top bit of a number does not count.
    assert_eq!(symbols.find_version(&image, 1), Some("LINUX_2.6".as_bytes()));
    assert_eq!(symbols.find_version(&image, 2), Some("LINUX_2.6".as_bytes()));
    assert_eq!(symbols.find_version(&image, 3), None);
    let mut o = object();
    o.put16(VERSYMS + 4, 1);
    let image = o.image();
    assert_eq!(table(&image).find_version(&image, 2), None);
    let mut iter = VerdefIter::new(BASE + VERDEFS as u64);
    let mut numbers = Vec::new();
    while let Some(found) = iter.next(&image) {
        numbers.push((found.address - BASE, found.verdef.vd_ndx, found.aux(&image).is_some()));
    }
    assert_eq!(numbers, vec![(VERDEFS as u64, 1, true), (VERDEFS as u64 + 28, 2, true)]);
}

#[test]
fn symbol_without_a_version_ends_the_search() {
    // The name is there twice; the first has no version.
    let mut o = object();
    o.symbol(1, "__vdso_getrandom", 0x700, 7);
    assert_eq!(find_function(&o.image(), BASE, Arch::X86_64), Some(None));
    // With another version, the search goes on.
    let mut o = object();
    o.symbol(1, "__vdso_getrandom", 0x700, 3);
    o.verdef(VERDEFS + 28, 0, 2, "LINUX_2.6", 28);
    o.verdef(VERDEFS + 56, 0, 3, "LINUX_2.5", 0);
    assert_eq!(find_function(&o.image(), BASE, Arch::X86_64), Some(Some(BASE + 0x740)));
    // A definition without a name record is no version.
    let mut o = object();
    o.put32(VERDEFS + 28 + 12, 0);
    assert_eq!(find_function(&o.image(), BASE, Arch::X86_64), Some(None));
}

#[test]
fn records_of_an_object() {
    let image = object().image();
    assert_eq!(
        Ehdr::read(&image, BASE),
        Some(Ehdr { e_phoff: 0x40, e_shoff: 0x200, e_phnum: 3, e_shnum: 3 })
    );
    assert_eq!(
        Phdr::read(&image, BASE + PHDRS as u64 + 56),
        Some(Phdr { p_type: 1, p_flags: 5, p_offset: 0, p_vaddr: 0 })
    );
    assert_eq!(
        Sym::read(&image, BASE + SYMBOLS as u64 + 48).map(|sym| sym.st_value),
        Some(0x740)
    );
    assert_eq!(
        Verdef::read(&image, BASE + VERDEFS as u64),
        Some(Verdef { vd_flags: 1, vd_ndx: 1, vd_aux: 20, vd_next: 28 })
    );
    assert_eq!(Ehdr::read(&image, BASE + SIZE as u64 - 63), None);
    assert_eq!(Ehdr::read(&image, BASE - 1), None);
    assert!(Ehdr::read(&image, BASE + SIZE as u64 - 64).is_some());
}

#[test]
fn numbers_and_texts_in_an_image() {
    let bytes = vec![1, 2, 3, 4, 5, 6, 7, 8, 65, 66, 0, 67];
    let big = Image::new(0x100, bytes.clone(), ByteOrder::Big);
    assert_eq!(big.read_u16(0x100), 0x0102);
    assert_eq!(big.read_u32(0x101), 0x0203_0405);
    assert_eq!(big.read_u64(0x100), 0x0102_0304_0506_0708);
    assert_eq!(big.read_text(0x108), Some("AB".as_bytes()));
    let image = Image::new(0x100, bytes, ByteOrder::Little);
    assert_eq!(image.read_u16(0x100), 0x0201);
    assert_eq!(image.read_u32(0x101), 0x0504_0302);
    assert_eq!(image.read_u64(0x100), 0x0807_0605_0403_0201);
    assert_eq!(image.end(), 0x10c);
    assert_eq!(image.read_text(0x108), Some("AB".as_bytes()));
    assert_eq!(image.read_text(0x10a), Some("".as_bytes()));
    assert_eq!(image.read_text(0x10b), None);
    assert_eq!(image.read_text(0x200), None);
    assert!(image.contains(0x10b, 1));
    assert!(!image.contains(0x10b, 2));
    assert!(!image.contains(0xff, 1));
    assert!(is_spelled("AB".as_bytes(), "AB"));
    assert!(!is_spelled("AB".as_bytes(), "ABC"));
    assert!(!is_spelled("AB".as_bytes(), "AC"));
}

#[test]
fn constants_of_the_interfaces() {
    assert_eq!(constants::AT_NULL, linux_raw_sys::auxvec::AT_NULL);
    assert_eq!(constants::AT_PAGESZ, linux_raw_sys::auxvec::AT_PAGESZ);
    assert_eq!(constants::AT_SYSINFO_EHDR, linux_raw_sys::auxvec::AT_SYSINFO_EHDR);
    assert_eq!(constants::PT_LOAD, linux_raw_sys::elf_uapi::PT_LOAD);
    assert_eq!(constants::PT_DYNAMIC, linux_raw_sys::elf_uapi::PT_DYNAMIC);
    assert_eq!(constants::PF_X, linux_raw_sys::elf_uapi::PF_X);
    assert_eq!(constants::SHT_DYNSYM, linux_raw_sys::elf_uapi::SHT_DYNSYM);
    assert_eq!(constants::DT_NULL, linux_raw_sys::elf_uapi::DT_NULL);
    assert_eq!(constants::DT_STRTAB, linux_raw_sys::elf_uapi::DT_STRTAB);
    assert_eq!(constants::DT_SYMTAB, linux_raw_sys::elf_uapi::DT_SYMTAB);
    assert_eq!(constants::DT_VERSYM, linux_raw_sys::elf_uapi::DT_VERSYM);
    assert_eq!(constants::DT_VERDEF, linux_raw_sys::elf_uapi::DT_VERDEF);
    assert_eq!(constants::VER_FLG_BASE, linux_raw_sys::elf::VER_FLG_BASE);
}
