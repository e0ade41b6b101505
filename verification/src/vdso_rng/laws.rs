//! What the search for the generator gives, said of the bytes, the records and the entries
//! themselves.

use super::auxv::{lemma_live_len, Auxv, AuxvEntry};
use super::elf::{Dyn, Ehdr, Phdr, Shdr, Sym, Verdaux, Verdef};
use super::image::{spells, Image};
use super::vdso::{
    are_tables_mapped, defines, dyn_entries, dynsym_from, first_defining, function_at, gathered,
    has_table, is_code, is_countable, is_dynamic, is_table_tag, last_address, last_where,
    name_and_version, phdr_info, program_headers, verdefs, Arch, ElfShdrArray, PhdrInfo,
    SymbolTable, VerdefRef,
};
use vstd::prelude::*;

verus! {

/// The number of addresses.
pub open spec fn address_count() -> int {
    0x1_0000_0000_0000_0000
}

/// A sum of addresses wraps around at the number of addresses.
pub proof fn address_sums_wrap(a: u64, b: u64, c: u64)
    ensures
        a.wrapping_add(b) as int == (a + b) % address_count(),
        a.wrapping_add(b.wrapping_sub(c)) as int == (a + b - c) % address_count(),
{
}

/// Whether an address is in the image.
pub open spec fn is_address(image: Image, address: int) -> bool {
    image.base() <= address < image.base() + image.bytes().len()
}

/// A stretch of memory is in the image exactly if each of its bytes is.
pub proof fn stretches_are_their_bytes(image: Image, address: int, width: int)
    requires
        0 < width,
    ensures
        image.has(address, width) <==> forall|a: int|
            address <= a < address + width ==> #[trigger] is_address(image, a),
{
    if forall|a: int| address <= a < address + width ==> #[trigger] is_address(image, a) {
        assert(is_address(image, address));
        assert(is_address(image, address + width - 1));
    }
}

proof fn lemma_byte(b: u8)
    ensures
        0 <= b as int <= 255,
{
}

/// A number is the sum of its bytes, each with the weight of its place, and fits its width.
pub proof fn numbers_are_sums_of_bytes(image: Image, a: int)
    ensures
        image.order() is Little ==> {
            &&& image.u16_at(a) == image.byte(a) + 0x100 * image.byte(a + 1)
            &&& image.u32_at(a) == image.byte(a) + 0x100 * image.byte(a + 1) + 0x1_0000
                * image.byte(a + 2) + 0x100_0000 * image.byte(a + 3)
            &&& image.u64_at(a) == image.byte(a) + 0x100 * image.byte(a + 1) + 0x1_0000
                * image.byte(a + 2) + 0x100_0000 * image.byte(a + 3) + 0x1_0000_0000 * image.byte(
                a + 4,
            ) + 0x100_0000_0000 * image.byte(a + 5) + 0x1_0000_0000_0000 * image.byte(a + 6)
                + 0x100_0000_0000_0000 * image.byte(a + 7)
        },
        image.order() is Big ==> {
            &&& image.u16_at(a) == 0x100 * image.byte(a) + image.byte(a + 1)
            &&& image.u32_at(a) == 0x100_0000 * image.byte(a) + 0x1_0000 * image.byte(a + 1)
                + 0x100 * image.byte(a + 2) + image.byte(a + 3)
            &&& image.u64_at(a) == 0x100_0000_0000_0000 * image.byte(a) + 0x1_0000_0000_0000
                * image.byte(a + 1) + 0x100_0000_0000 * image.byte(a + 2) + 0x1_0000_0000
                * image.byte(a + 3) + 0x100_0000 * image.byte(a + 4) + 0x1_0000 * image.byte(a + 5)
                + 0x100 * image.byte(a + 6) + image.byte(a + 7)
        },
        0 <= image.u16_at(a) <= u16::MAX,
        0 <= image.u32_at(a) <= u32::MAX,
        0 <= image.u64_at(a) <= u64::MAX,
{
    assert forall|x: int| 0 <= #[trigger] image.byte(x) <= 255 by {
        lemma_byte(image.bytes()[x - image.base()]);
    }
    assert(image.u16_at(a + 2) <= u16::MAX);
    assert(a + 4 + 2 == a + 6);
}

/// Where a member of a record begins: behind the members before it.
pub open spec fn member_offset(sizes: Seq<int>, member: int) -> int
    decreases member,
{
    if member <= 0 {
        0
    } else {
        member_offset(sizes, member - 1) + sizes[member - 1]
    }
}

/// The members of the header of an object: the identification, type, machine, version, entry,
/// program headers, section headers, flags, and the six sizes and counts.
pub open spec fn ehdr_members() -> Seq<int> {
    seq![16, 2, 2, 4, 8, 8, 8, 4, 2, 2, 2, 2, 2, 2]
}

/// A record of this kind is there exactly if all its members are, and its fields are the
/// numbers at the members' places.
pub proof fn ehdr_is_laid_out(image: Image, a: int)
    ensures
        Ehdr::at(image, a) is Some <==> image.has(
            a,
            member_offset(ehdr_members(), 14),
        ),
        Ehdr::at(image, a) matches Some(record) ==> {
            &&& record.e_phoff == image.u64_at(a + member_offset(ehdr_members(), 5))
            &&& record.e_shoff == image.u64_at(a + member_offset(ehdr_members(), 6))
            &&& record.e_phnum == image.u16_at(a + member_offset(ehdr_members(), 10))
            &&& record.e_shnum == image.u16_at(a + member_offset(ehdr_members(), 12))
        },
{
    reveal_with_fuel(member_offset, 15);
    numbers_are_sums_of_bytes(image, a + 32);
    numbers_are_sums_of_bytes(image, a + 40);
    numbers_are_sums_of_bytes(image, a + 56);
    numbers_are_sums_of_bytes(image, a + 60);
}

/// The members of a program header: type, flags, offset, virtual and physical address, the two
/// sizes, alignment.
pub open spec fn phdr_members() -> Seq<int> {
    seq![4, 4, 8, 8, 8, 8, 8, 8]
}

/// A record of this kind is there exactly if all its members are, and its fields are the
/// numbers at the members' places.
pub proof fn phdr_is_laid_out(image: Image, a: int)
    ensures
        Phdr::at(image, a) is Some <==> image.has(
            a,
            member_offset(phdr_members(), 8),
        ),
        Phdr::at(image, a) matches Some(record) ==> {
            &&& record.p_type == image.u32_at(a + member_offset(phdr_members(), 0))
            &&& record.p_flags == image.u32_at(a + member_offset(phdr_members(), 1))
            &&& record.p_offset == image.u64_at(a + member_offset(phdr_members(), 2))
            &&& record.p_vaddr == image.u64_at(a + member_offset(phdr_members(), 3))
        },
{
    reveal_with_fuel(member_offset, 9);
    numbers_are_sums_of_bytes(image, a + 0);
    numbers_are_sums_of_bytes(image, a + 4);
    numbers_are_sums_of_bytes(image, a + 8);
    numbers_are_sums_of_bytes(image, a + 16);
}

/// The members of a section header: name, type, flags, address, offset, size, link, info, alignment,
/// size of an entry.
pub open spec fn shdr_members() -> Seq<int> {
    seq![4, 4, 8, 8, 8, 8, 4, 4, 8, 8]
}

/// A record of this kind is there exactly if all its members are, and its fields are the
/// numbers at the members' places.
pub proof fn shdr_is_laid_out(image: Image, a: int)
    ensures
        Shdr::at(image, a) is Some <==> image.has(
            a,
            member_offset(shdr_members(), 10),
        ),
        Shdr::at(image, a) matches Some(record) ==> {
            &&& record.sh_type == image.u32_at(a + member_offset(shdr_members(), 1))
            &&& record.sh_size == image.u64_at(a + member_offset(shdr_members(), 5))
            &&& record.sh_entsize == image.u64_at(a + member_offset(shdr_members(), 9))
        },
{
    reveal_with_fuel(member_offset, 11);
    numbers_are_sums_of_bytes(image, a + 4);
    numbers_are_sums_of_bytes(image, a + 32);
    numbers_are_sums_of_bytes(image, a + 56);
}

/// The members of a symbol: name, info, other, section, value, size.
pub open spec fn sym_members() -> Seq<int> {
    seq![4, 1, 1, 2, 8, 8]
}

/// A record of this kind is there exactly if all its members are, and its fields are the
/// numbers at the members' places.
pub proof fn sym_is_laid_out(image: Image, a: int)
    ensures
        Sym::at(image, a) is Some <==> image.has(
            a,
            member_offset(sym_members(), 6),
        ),
        Sym::at(image, a) matches Some(record) ==> {
            &&& record.st_name == image.u32_at(a + member_offset(sym_members(), 0))
            &&& record.st_value == image.u64_at(a + member_offset(sym_members(), 4))
        },
{
    reveal_with_fuel(member_offset, 7);
    numbers_are_sums_of_bytes(image, a + 0);
    numbers_are_sums_of_bytes(image, a + 8);
}

/// The members of a version definition: version, flags, index, count, hash, name record, next.
pub open spec fn verdef_members() -> Seq<int> {
    seq![2, 2, 2, 2, 4, 4, 4]
}

/// A record of this kind is there exactly if all its members are, and its fields are the
/// numbers at the members' places.
pub proof fn verdef_is_laid_out(image: Image, a: int)
    ensures
        Verdef::at(image, a) is Some <==> image.has(
            a,
            member_offset(verdef_members(), 7),
        ),
        Verdef::at(image, a) matches Some(record) ==> {
            &&& record.vd_flags == image.u16_at(a + member_offset(verdef_members(), 1))
            &&& record.vd_ndx == image.u16_at(a + member_offset(verdef_members(), 2))
            &&& record.vd_aux == image.u32_at(a + member_offset(verdef_members(), 5))
            &&& record.vd_next == image.u32_at(a + member_offset(verdef_members(), 6))
        },
{
    reveal_with_fuel(member_offset, 8);
    numbers_are_sums_of_bytes(image, a + 2);
    numbers_are_sums_of_bytes(image, a + 4);
    numbers_are_sums_of_bytes(image, a + 12);
    numbers_are_sums_of_bytes(image, a + 16);
}

/// The members of the record of a version's name: name, next.
pub open spec fn verdaux_members() -> Seq<int> {
    seq![4, 4]
}

/// A record of this kind is there exactly if all its members are, and its fields are the
/// numbers at the members' places.
pub proof fn verdaux_is_laid_out(image: Image, a: int)
    ensures
        Verdaux::at(image, a) is Some <==> image.has(
            a,
            member_offset(verdaux_members(), 2),
        ),
        Verdaux::at(image, a) matches Some(record) ==> {
            &&& record.vda_name == image.u32_at(a + member_offset(verdaux_members(), 0))
        },
{
    reveal_with_fuel(member_offset, 3);
    numbers_are_sums_of_bytes(image, a + 0);
}

/// The members of a dynamic entry: tag, value.
pub open spec fn dyn_members() -> Seq<int> {
    seq![8, 8]
}

/// A record of this kind is there exactly if all its members are, and its fields are the
/// numbers at the members' places.
pub proof fn dyn_is_laid_out(image: Image, a: int)
    ensures
        Dyn::at(image, a) is Some <==> image.has(
            a,
            member_offset(dyn_members(), 2),
        ),
        Dyn::at(image, a) matches Some(record) ==> {
            &&& record.d_tag == image.u64_at(a + member_offset(dyn_members(), 0))
            &&& record.d_val == image.u64_at(a + member_offset(dyn_members(), 1))
        },
{
    reveal_with_fuel(member_offset, 3);
    numbers_are_sums_of_bytes(image, a + 0);
    numbers_are_sums_of_bytes(image, a + 8);
}

/// A text that is read has no zero in it and a zero behind it, and is in the image with that
/// zero; there is no text exactly if no zero follows in the image.
pub proof fn texts_end_at_the_first_zero(image: Image, a: int)
    ensures
        image.text_at(a) matches Some(text) ==> {
            &&& image.base() <= a
            &&& a + text.len() < image.base() + image.bytes().len()
            &&& forall|i: int|
                0 <= i < text.len() ==> (#[trigger] text[i]) as int == image.byte(a + i) && text[i]
                    != 0
            &&& image.byte(a + text.len()) == 0
        },
        image.base() <= a ==> (image.text_at(a) is None <==> forall|x: int|
            a <= x < image.base() + image.bytes().len() ==> #[trigger] image.byte(x) != 0),
{
    if image.text_at(a) is Some {
        let len = choose|len: int| image.is_text(a, len);
        assert(image.is_text(a, len));
        assert forall|i: int| 0 <= i < len implies (#[trigger] image.text_at(a)->0[i]) as int
            == image.byte(a + i) && image.text_at(a)->0[i] != 0 by {
            assert(image.byte(a + i) != 0);
        }
    } else if image.base() <= a {
        assert forall|x: int| a <= x < image.base() + image.bytes().len() implies
            #[trigger] image.byte(x) != 0 by {
            if image.byte(x) == 0 {
                lemma_first_zero(image, a, x);
            }
        }
    }
}

/// Up to a zero there is a first zero.
proof fn lemma_first_zero(image: Image, a: int, x: int)
    requires
        image.base() <= a <= x < image.base() + image.bytes().len(),
        image.byte(x) == 0,
    ensures
        exists|len: int| image.is_text(a, len),
    decreases x - a,
{
    if exists|y: int| a <= y < x && #[trigger] image.byte(y) == 0 {
        let y = choose|y: int| a <= y < x && #[trigger] image.byte(y) == 0;
        lemma_first_zero(image, a, y);
    } else {
        assert(image.is_text(a, x - a));
    }
}

/// Bytes spell one text, and a text is spelled by one sequence of bytes. A text of characters
/// below 256 is spelled by the bytes with their values.
pub proof fn spelling_is_exact(a: Seq<u8>, b: Seq<u8>, s: Seq<char>, t: Seq<char>)
    ensures
        spells(a, s) && spells(b, s) ==> a == b,
        spells(a, s) && spells(a, t) ==> s == t,
        a.len() == s.len() && (forall|i: int|
            0 <= i < a.len() ==> (#[trigger] a[i]) as int == s[i] as int) ==> spells(a, s),
{
    if spells(a, s) && spells(b, s) {
        assert forall|i: int| 0 <= i < a.len() implies a[i] == b[i] by {
            assert(a[i] as int == s[i] as int);
            assert(b[i] as int == s[i] as int);
        }
        assert(a =~= b);
    }
    if spells(a, s) && spells(a, t) {
        assert forall|i: int| 0 <= i < s.len() implies s[i] == t[i] by {
            assert(a[i] as int == s[i] as int);
            assert(a[i] as int == t[i] as int);
            lemma_same_char(s[i], t[i]);
        }
        assert(s =~= t);
    }
}

proof fn lemma_same_char(a: char, b: char)
    requires
        a as int == b as int,
    ensures
        a == b,
{
}

/// A table is in the image exactly if its first and its last record are.
pub proof fn tables_are_their_records(image: Image, table: u64, count: int, size: int)
    requires
        0 < count,
        0 < size,
    ensures
        has_table(image, table, count, size) <==> image.has(table as int, size) && image.has(
            table + (count - 1) * size,
            size,
        ),
{
    assert((count - 1) * size == count * size - size) by (nonlinear_arith);
    assert(0 <= (count - 1) * size) by (nonlinear_arith)
        requires
            1 <= count,
            0 < size,
    ;
}

/// The entries of an auxiliary vector are those of its buffer before the first with the key
/// zero, all of them.
pub proof fn entries_end_before_the_null_entry(auxv: Auxv)
    ensures
        auxv.entries().len() <= auxv.buffer().len(),
        forall|i: int|
            0 <= i < auxv.entries().len() ==> #[trigger] auxv.entries()[i] == auxv.buffer()[i]
                && auxv.entries()[i].key != 0,
        auxv.entries().len() < auxv.buffer().len() ==> auxv.buffer()[
            auxv.entries().len() as int
        ].key == 0,
{
    lemma_live_len(auxv.buffer(), 0);
    assert forall|i: int| 0 <= i < auxv.entries().len() implies #[trigger] auxv.entries()[i]
        == auxv.buffer()[i] && auxv.entries()[i].key != 0 by {
        lemma_live_len(auxv.buffer(), i);
    }
}

/// The program header at place `i` of the object with the header at `ehdr`.
pub open spec fn segment(image: Image, ehdr: u64, i: int) -> Option<Phdr> {
    Phdr::at(image, (ehdr + Ehdr::at(image, ehdr as int)->0.e_phoff) % address_count() + 56 * i)
}

/// Whether the segment at place `i` is mapped to be executed, and no later one is.
pub open spec fn is_last_code(image: Image, ehdr: u64, i: int) -> bool {
    &&& 0 <= i < Ehdr::at(image, ehdr as int)->0.e_phnum
    &&& segment(image, ehdr, i) matches Some(phdr) && phdr.p_type == 1 && phdr.p_flags % 2 == 1
    &&& forall|j: int|
        i < j < Ehdr::at(image, ehdr as int)->0.e_phnum ==> (
        #[trigger] segment(image, ehdr, j) matches Some(phdr) && !(phdr.p_type == 1 && phdr.p_flags
            % 2 == 1))
}

/// Whether the segment at place `i` holds the dynamic entries, and no later one does.
pub open spec fn is_last_dynamic(image: Image, ehdr: u64, i: int) -> bool {
    &&& 0 <= i < Ehdr::at(image, ehdr as int)->0.e_phnum
    &&& segment(image, ehdr, i) matches Some(phdr) && phdr.p_type == 2
    &&& forall|j: int|
        i < j < Ehdr::at(image, ehdr as int)->0.e_phnum ==> (
        #[trigger] segment(image, ehdr, j) matches Some(phdr) && phdr.p_type != 2)
}

proof fn lemma_last_where(phdrs: Seq<Phdr>, kind: spec_fn(Phdr) -> bool) -> (i: int)
    ensures
        last_where(phdrs, kind) matches Some(phdr) ==> 0 <= i < phdrs.len() && phdrs[i] == phdr
            && kind(phdr) && forall|j: int| i < j < phdrs.len() ==> !kind(#[trigger] phdrs[j]),
        last_where(phdrs, kind) is None ==> forall|j: int|
            0 <= j < phdrs.len() ==> !kind(#[trigger] phdrs[j]),
    decreases phdrs.len(),
{
    if phdrs.len() == 0 {
        0
    } else if kind(phdrs.last()) {
        phdrs.len() - 1
    } else {
        let i = lemma_last_where(phdrs.drop_last(), kind);
        assert forall|j: int| 0 <= j < phdrs.len() - 1 implies #[trigger] phdrs[j]
            == phdrs.drop_last()[j] by {}
        i
    }
}

proof fn lemma_code(phdr: Phdr)
    ensures
        is_code(phdr) <==> phdr.p_type == 1 && phdr.p_flags % 2 == 1,
        is_dynamic(phdr) <==> phdr.p_type == 2,
{
    let flags = phdr.p_flags;
    assert(flags & 1 != 0 <==> flags % 2 == 1) by (bit_vector);
}

/// The segments of an object whose program headers are in the image.
proof fn lemma_segments(image: Image, ehdr: u64)
    requires
        Ehdr::at(image, ehdr as int) matches Some(header) && has_table(
            image,
            ehdr.wrapping_add(header.e_phoff),
            header.e_phnum as int,
            56,
        ),
    ensures
        ({
            let header = Ehdr::at(image, ehdr as int)->0;
            let phdrs = program_headers(
                image,
                ehdr.wrapping_add(header.e_phoff),
                header.e_phnum as nat,
            );
            forall|i: int|
                0 <= i < phdrs.len() ==> #[trigger] segment(image, ehdr, i) == Some(phdrs[i])
        }),
{
    let header = Ehdr::at(image, ehdr as int)->0;
    let table = ehdr.wrapping_add(header.e_phoff);
    let phdrs = program_headers(image, table, header.e_phnum as nat);
    address_sums_wrap(ehdr, header.e_phoff, 0);
    assert forall|i: int| 0 <= i < phdrs.len() implies #[trigger] segment(image, ehdr, i) == Some(
        phdrs[i],
    ) by {
        assert(image.has(table + 56 * i, 56));
        assert(segment(image, ehdr, i) == Phdr::at(image, table + 56 * i));
    }
}

/// An object is mapped where its last code segment says, and its dynamic entries are where
/// its last dynamic segment says.
pub proof fn object_is_mapped_by_its_last_segments(image: Image, ehdr: u64)
    ensures
        phdr_info(image, ehdr) matches Some(info) ==> {
            &&& Ehdr::at(image, ehdr as int) is Some
            &&& exists|i: int|
                #[trigger] is_last_code(image, ehdr, i) && info.vdso_addr == (ehdr + segment(
                    image,
                    ehdr,
                    i,
                )->0.p_offset - segment(image, ehdr, i)->0.p_vaddr) % address_count()
            &&& exists|i: int|
                #[trigger] is_last_dynamic(image, ehdr, i) && info.vdso_dyn == (ehdr + segment(
                    image,
                    ehdr,
                    i,
                )->0.p_offset) % address_count()
        },
{
    if phdr_info(image, ehdr) is Some {
        let header = Ehdr::at(image, ehdr as int)->0;
        let table = ehdr.wrapping_add(header.e_phoff);
        let phdrs = program_headers(image, table, header.e_phnum as nat);
        lemma_segments(image, ehdr);
        let code = |phdr: Phdr| is_code(phdr);
        let dynamic = |phdr: Phdr| is_dynamic(phdr);
        assert forall|j: int| 0 <= j < phdrs.len() implies #[trigger] segment(image, ehdr, j)
            == Some(phdrs[j]) && (code(phdrs[j]) <==> phdrs[j].p_type == 1 && phdrs[j].p_flags % 2
            == 1) && (dynamic(phdrs[j]) <==> phdrs[j].p_type == 2) by {
            lemma_code(phdrs[j]);
        }
        let i = lemma_last_where(phdrs, code);
        address_sums_wrap(ehdr, phdrs[i].p_offset, phdrs[i].p_vaddr);
        assert(segment(image, ehdr, i) == Some(phdrs[i]));
        assert(is_last_code(image, ehdr, i));
        let k = lemma_last_where(phdrs, dynamic);
        address_sums_wrap(ehdr, phdrs[k].p_offset, 0);
        assert(segment(image, ehdr, k) == Some(phdrs[k]));
        assert(is_last_dynamic(image, ehdr, k));
    }
}

/// An object with a code segment and a dynamic segment is found to be mapped.
pub proof fn mapped_objects_are_found(image: Image, ehdr: u64, i: int, j: int)
    requires
        Ehdr::at(image, ehdr as int) matches Some(header) && 0 <= i < header.e_phnum && 0 <= j
            < header.e_phnum,
        segment(image, ehdr, 0) is Some,
        segment(image, ehdr, Ehdr::at(image, ehdr as int)->0.e_phnum - 1) is Some,
        segment(image, ehdr, i) matches Some(phdr) && phdr.p_type == 1 && phdr.p_flags % 2 == 1,
        segment(image, ehdr, j) matches Some(phdr) && phdr.p_type == 2,
    ensures
        phdr_info(image, ehdr) is Some,
{
    let header = Ehdr::at(image, ehdr as int)->0;
    let table = ehdr.wrapping_add(header.e_phoff);
    let phdrs = program_headers(image, table, header.e_phnum as nat);
    address_sums_wrap(ehdr, header.e_phoff, 0);
    tables_are_their_records(image, table, header.e_phnum as int, 56);
    lemma_segments(image, ehdr);
    let code = |phdr: Phdr| is_code(phdr);
    let dynamic = |phdr: Phdr| is_dynamic(phdr);
    let a = lemma_last_where(phdrs, code);
    let b = lemma_last_where(phdrs, dynamic);
    lemma_code(phdrs[i]);
    lemma_code(phdrs[j]);
    assert(segment(image, ehdr, i) == Some(phdrs[i]));
    assert(segment(image, ehdr, j) == Some(phdrs[j]));
    assert(code(phdrs[i]));
    assert(dynamic(phdrs[j]));
}

/// The section header at place `i`.
pub open spec fn section(image: Image, headers: ElfShdrArray, i: int) -> Option<Shdr> {
    Shdr::at(image, headers.table + 64 * i)
}

/// Whether the section at place `i` is the first of the dynamic symbols.
pub open spec fn is_first_dynsym(image: Image, headers: ElfShdrArray, i: int) -> bool {
    &&& 0 <= i < headers.count
    &&& section(image, headers, i)->0.sh_type == 11
    &&& forall|j: int| 0 <= j < i ==> (#[trigger] section(image, headers, j))->0.sh_type != 11
}

/// The section headers of an object are as many as its header says, where its header says,
/// and all of them are in the image.
pub proof fn sections_are_where_the_header_says(image: Image, ehdr: u64)
    ensures
        ElfShdrArray::of(image, ehdr) matches Some(headers) ==> {
            &&& Ehdr::at(image, ehdr as int) is Some
            &&& headers.count == Ehdr::at(image, ehdr as int)->0.e_shnum
            &&& headers.table == (ehdr + Ehdr::at(image, ehdr as int)->0.e_shoff) % address_count()
            &&& forall|i: int|
                0 <= i < headers.count ==> #[trigger] section(image, headers, i) is Some
        },
{
    if ElfShdrArray::of(image, ehdr) is Some {
        address_sums_wrap(ehdr, Ehdr::at(image, ehdr as int)->0.e_shoff, 0);
    }
}

/// They are found if the header and as many section headers as it says are in the image.
pub proof fn sections_are_found(image: Image, ehdr: u64)
    requires
        Ehdr::at(image, ehdr as int) is Some,
        Ehdr::at(image, ehdr as int)->0.e_shnum > 0 ==> image.has(
            (ehdr + Ehdr::at(image, ehdr as int)->0.e_shoff) % address_count(),
            64 * Ehdr::at(image, ehdr as int)->0.e_shnum,
        ),
    ensures
        ElfShdrArray::of(image, ehdr) is Some,
{
    address_sums_wrap(ehdr, Ehdr::at(image, ehdr as int)->0.e_shoff, 0);
}

proof fn lemma_dynsym_from(image: Image, headers: ElfShdrArray, start: int)
    requires
        0 <= start,
    ensures
        dynsym_from(image, headers.table, headers.count as int, start) matches Some(shdr)
            ==> exists|i: int|
            start <= i < headers.count && #[trigger] section(image, headers, i)->0 == shdr
                && shdr.sh_type == 11 && forall|j: int|
                start <= j < i ==> (#[trigger] section(image, headers, j))->0.sh_type != 11,
        dynsym_from(image, headers.table, headers.count as int, start) is None ==> forall|j: int|
            start <= j < headers.count ==> (#[trigger] section(image, headers, j))->0.sh_type != 11,
    decreases headers.count - start,
{
    if start < headers.count {
        assert(section(image, headers, start) == Shdr::at(image, headers.table + start * 64));
        if section(image, headers, start)->0.sh_type != 11 {
            lemma_dynsym_from(image, headers, start + 1);
        }
    }
}

proof fn lemma_first_dynsym(image: Image, headers: ElfShdrArray, i: int)
    requires
        is_first_dynsym(image, headers, i),
    ensures
        headers.dynsym(image) == Some(section(image, headers, i)->0),
{
    lemma_dynsym_from(image, headers, 0);
    assert(section(image, headers, i)->0.sh_type == 11);
    let shdr = headers.dynsym(image)->0;
    let k = choose|k: int|
        0 <= k < headers.count && #[trigger] section(image, headers, k)->0 == shdr && shdr.sh_type
            == 11 && forall|j: int|
            0 <= j < k ==> (#[trigger] section(image, headers, j))->0.sh_type != 11;
    assert(section(image, headers, k)->0.sh_type == 11);
    assert(k == i);
}

/// The symbols of an object can be counted exactly if its first section of the dynamic
/// symbols, where there is one, gives a symbol a size.
pub proof fn sized_symbols_can_be_counted(image: Image, ehdr: u64)
    ensures
        ehdr == 0 ==> is_countable(image, ehdr),
        ElfShdrArray::of(image, ehdr) is None ==> is_countable(image, ehdr),
        ehdr != 0 ==> (ElfShdrArray::of(image, ehdr) matches Some(headers) ==> (is_countable(
            image,
            ehdr,
        ) <==> forall|i: int| #[trigger]
            is_first_dynsym(image, headers, i) ==> section(image, headers, i)->0.sh_entsize > 0)),
{
    if let Some(headers) = ElfShdrArray::of(image, ehdr) {
        assert forall|i: int| #[trigger] is_first_dynsym(image, headers, i) implies headers.dynsym(
            image,
        ) == Some(section(image, headers, i)->0) by {
            lemma_first_dynsym(image, headers, i);
        }
        lemma_dynsym_from(image, headers, 0);
        if let Some(shdr) = headers.dynsym(image) {
            let k = choose|k: int|
                0 <= k < headers.count && #[trigger] section(image, headers, k)->0 == shdr
                    && shdr.sh_type == 11 && forall|j: int|
                    0 <= j < k ==> (#[trigger] section(image, headers, j))->0.sh_type != 11;
            assert(is_first_dynsym(image, headers, k));
        }
    }
}

/// The symbols fill the first section of the dynamic symbols: one more would not fit.
pub proof fn symbols_fill_their_section(image: Image, headers: ElfShdrArray, i: int)
    requires
        is_first_dynsym(image, headers, i),
        section(image, headers, i)->0.sh_entsize > 0,
    ensures
        headers.symbols(image) * section(image, headers, i)->0.sh_entsize <= section(
            image,
            headers,
            i,
        )->0.sh_size,
        section(image, headers, i)->0.sh_size < (headers.symbols(image) + 1) * section(
            image,
            headers,
            i,
        )->0.sh_entsize,
{
    lemma_first_dynsym(image, headers, i);
    let shdr = section(image, headers, i)->0;
    let size = shdr.sh_size as int;
    let each = shdr.sh_entsize as int;
    vstd::arithmetic::div_mod::lemma_fundamental_div_mod(size, each);
    vstd::arithmetic::div_mod::lemma_mod_bound(size, each);
    let count = size / each;
    assert(count * each <= size < (count + 1) * each) by (nonlinear_arith)
        requires
            size == each * count + size % each,
            0 <= size % each < each,
    ;
}

/// Without a section of the dynamic symbols there are none.
pub proof fn no_section_no_symbols(image: Image, headers: ElfShdrArray)
    requires
        forall|i: int|
            0 <= i < headers.count ==> (#[trigger] section(image, headers, i))->0.sh_type != 11,
    ensures
        headers.symbols(image) == 0,
{
    lemma_dynsym_from(image, headers, 0);
}

/// The dynamic entries lie in a row, and end before the first that is not in the image or
/// has the tag zero.
pub proof fn dynamic_entries_lie_in_a_row(image: Image, address: int)
    ensures
        forall|i: int|
            0 <= i < dyn_entries(image, address).len() ==> Dyn::at(image, address + 16 * i) == Some(
                #[trigger] dyn_entries(image, address)[i],
            ) && dyn_entries(image, address)[i].d_tag != 0,
        Dyn::at(image, address + 16 * dyn_entries(image, address).len()) matches Some(entry)
            ==> entry.d_tag == 0,
    decreases image.base() + image.bytes().len() - address,
{
    if Dyn::at(image, address) is Some && Dyn::at(image, address)->0.d_tag != 0 {
        let rest = dyn_entries(image, address + 16);
        let all = dyn_entries(image, address);
        dynamic_entries_lie_in_a_row(image, address + 16);
        assert(all =~= seq![Dyn::at(image, address)->0] + rest);
        assert forall|i: int| 0 <= i < all.len() implies Dyn::at(image, address + 16 * i) == Some(
            #[trigger] all[i],
        ) && all[i].d_tag != 0 by {
            if i > 0 {
                assert(all[i] == rest[i - 1]);
                assert(address + 16 + 16 * (i - 1) == address + 16 * i);
            }
        }
        assert(address + 16 + 16 * rest.len() == address + 16 * all.len());
    }
}

/// Whether an entry has a tag. Only the low half of its own tag counts.
pub open spec fn has_tag(entry: Dyn, tag: int) -> bool {
    entry.d_tag as int % 0x1_0000_0000 == tag
}

/// Whether an address is what the last entry with a tag gives.
pub open spec fn is_given_by_last(
    entries: Seq<Dyn>,
    tag: int,
    vdso_addr: u64,
    address: u64,
) -> bool {
    exists|i: int|
        {
            &&& 0 <= i < entries.len()
            &&& has_tag(#[trigger] entries[i], tag)
            &&& address == (vdso_addr + entries[i].d_val) % address_count()
            &&& forall|j: int| i < j < entries.len() ==> !has_tag(#[trigger] entries[j], tag)
        }
}

proof fn lemma_tag(entry: Dyn, tag: u32)
    ensures
        entry.d_tag as u32 == tag <==> has_tag(entry, tag as int),
{
    let t = entry.d_tag;
    assert(t as u32 == t % 0x1_0000_0000) by (bit_vector);
}

proof fn lemma_last_address(entries: Seq<Dyn>, tag: u32, vdso_addr: u64)
    ensures
        last_address(entries, tag, vdso_addr) matches Some(address) ==> is_given_by_last(
            entries,
            tag as int,
            vdso_addr,
            address,
        ),
        last_address(entries, tag, vdso_addr) is None ==> forall|i: int|
            0 <= i < entries.len() ==> !has_tag(#[trigger] entries[i], tag as int),
    decreases entries.len(),
{
    if entries.len() > 0 {
        let last = entries.len() - 1;
        lemma_tag(entries[last], tag);
        if has_tag(entries[last], tag as int) {
            address_sums_wrap(vdso_addr, entries[last].d_val, 0);
        } else {
            let rest = entries.drop_last();
            lemma_last_address(rest, tag, vdso_addr);
            assert forall|j: int| 0 <= j < rest.len() implies #[trigger] rest[j] == entries[j] by {}
            if let Some(address) = last_address(rest, tag, vdso_addr) {
                let i = choose|i: int|
                    {
                        &&& 0 <= i < rest.len()
                        &&& has_tag(#[trigger] rest[i], tag as int)
                        &&& address == (vdso_addr + rest[i].d_val) % address_count()
                        &&& forall|j: int|
                            i < j < rest.len() ==> !has_tag(#[trigger] rest[j], tag as int)
                    };
                assert forall|j: int| i < j < entries.len() implies !has_tag(
                    #[trigger] entries[j],
                    tag as int,
                ) by {
                    if j < rest.len() {
                        assert(!has_tag(rest[j], tag as int));
                    }
                }
                assert(has_tag(entries[i], tag as int));
            } else {
                assert forall|j: int| 0 <= j < entries.len() implies !has_tag(
                    #[trigger] entries[j],
                    tag as int,
                ) by {
                    if j < rest.len() {
                        assert(!has_tag(rest[j], tag as int));
                    }
                }
            }
        }
    }
}

/// The tables of an object are where the last dynamic entries with their tags say: 5 for the
/// strings, 6 for the symbols, 0x6ffffff0 for the versions of the symbols, and 0x6ffffffc for
/// the version definitions. No entry with one of these tags gives the address zero, and the
/// symbols and their versions are in the image.
pub proof fn tables_are_given_by_the_last_entries(image: Image, phdr: PhdrInfo, count: u64)
    ensures
        SymbolTable::of(image, phdr, count) matches Some(table) ==> {
            let entries = dyn_entries(image, phdr.vdso_dyn as int);
            &&& is_given_by_last(entries, 5, phdr.vdso_addr, table.strtab)
            &&& is_given_by_last(entries, 6, phdr.vdso_addr, table.symtab)
            &&& is_given_by_last(entries, 0x6fff_fff0, phdr.vdso_addr, table.versym)
            &&& is_given_by_last(entries, 0x6fff_fffc, phdr.vdso_addr, table.verdef)
            &&& table.symbol_count == count
            &&& table.vdso_addr == phdr.vdso_addr
            &&& forall|i: int|
                0 <= i < entries.len() && (has_tag(#[trigger] entries[i], 5) || has_tag(
                    entries[i],
                    6,
                ) || has_tag(entries[i], 0x6fff_fff0) || has_tag(entries[i], 0x6fff_fffc)) ==> (
                phdr.vdso_addr + entries[i].d_val) % address_count() != 0
            &&& forall|i: int|
                0 <= i < count ==> Sym::at(image, #[trigger] (table.symtab + 24 * i)) is Some
            &&& forall|i: int|
                0 <= i < count ==> image.has(#[trigger] (table.versym + 2 * i), 2)
        },
{
    let entries = dyn_entries(image, phdr.vdso_dyn as int);
    if SymbolTable::of(image, phdr, count) is Some {
        let table = SymbolTable::of(image, phdr, count)->0;
        lemma_last_address(entries, 5, phdr.vdso_addr);
        lemma_last_address(entries, 6, phdr.vdso_addr);
        lemma_last_address(entries, 0x6fff_fff0, phdr.vdso_addr);
        lemma_last_address(entries, 0x6fff_fffc, phdr.vdso_addr);
        assert forall|i: int|
            0 <= i < entries.len() && (has_tag(#[trigger] entries[i], 5) || has_tag(entries[i], 6)
                || has_tag(entries[i], 0x6fff_fff0) || has_tag(entries[i], 0x6fff_fffc)) implies (
        phdr.vdso_addr + entries[i].d_val) % address_count() != 0 by {
            lemma_tag(entries[i], 5);
            lemma_tag(entries[i], 6);
            lemma_tag(entries[i], 0x6fff_fff0);
            lemma_tag(entries[i], 0x6fff_fffc);
            address_sums_wrap(phdr.vdso_addr, entries[i].d_val, 0);
        }
    }
}

/// The tables are found if each tag is there, no entry with one of the tags gives the address
/// zero, and the symbols and their versions are in the image.
pub proof fn tables_are_found(
    image: Image,
    phdr: PhdrInfo,
    count: u64,
    strtab: u64,
    symtab: u64,
    versym: u64,
    verdef: u64,
)
    requires
        is_given_by_last(
            dyn_entries(image, phdr.vdso_dyn as int),
            5,
            phdr.vdso_addr,
            strtab,
        ),
        is_given_by_last(
            dyn_entries(image, phdr.vdso_dyn as int),
            6,
            phdr.vdso_addr,
            symtab,
        ),
        is_given_by_last(
            dyn_entries(image, phdr.vdso_dyn as int),
            0x6fff_fff0,
            phdr.vdso_addr,
            versym,
        ),
        is_given_by_last(
            dyn_entries(image, phdr.vdso_dyn as int),
            0x6fff_fffc,
            phdr.vdso_addr,
            verdef,
        ),
        forall|i: int|
            0 <= i < dyn_entries(image, phdr.vdso_dyn as int).len() && (has_tag(
                #[trigger] dyn_entries(image, phdr.vdso_dyn as int)[i],
                5,
            ) || has_tag(dyn_entries(image, phdr.vdso_dyn as int)[i], 6) || has_tag(
                dyn_entries(image, phdr.vdso_dyn as int)[i],
                0x6fff_fff0,
            ) || has_tag(dyn_entries(image, phdr.vdso_dyn as int)[i], 0x6fff_fffc)) ==> (
            phdr.vdso_addr + dyn_entries(image, phdr.vdso_dyn as int)[i].d_val) % address_count()
                != 0,
        count > 0 ==> image.has(symtab as int, 24 * count) && image.has(versym as int, 2 * count),
    ensures
        SymbolTable::of(image, phdr, count) == Some(
            SymbolTable {
                strtab,
                symtab,
                versym,
                verdef,
                symbol_count: count,
                vdso_addr: phdr.vdso_addr,
            },
        ),
{
    let entries = dyn_entries(image, phdr.vdso_dyn as int);
    let bias = phdr.vdso_addr;
    lemma_last_address(entries, 5, bias);
    lemma_last_address(entries, 6, bias);
    lemma_last_address(entries, 0x6fff_fff0, bias);
    lemma_last_address(entries, 0x6fff_fffc, bias);
    assert forall|tag: int, a: u64, b: u64|
        #[trigger] is_given_by_last(entries, tag, bias, a) && #[trigger] is_given_by_last(
            entries,
            tag,
            bias,
            b,
        ) implies a == b by {
        lemma_given_once(entries, tag, bias, a, b);
    }
    assert forall|i: int|
        0 <= i < entries.len() && is_table_tag((#[trigger] entries[i]).d_tag as u32) implies
        bias.wrapping_add(entries[i].d_val) != 0 by {
        lemma_tag(entries[i], 5);
        lemma_tag(entries[i], 6);
        lemma_tag(entries[i], 0x6fff_fff0);
        lemma_tag(entries[i], 0x6fff_fffc);
        address_sums_wrap(bias, entries[i].d_val, 0);
    }
    assert(are_tables_mapped(entries, bias));
}

proof fn lemma_given_once(entries: Seq<Dyn>, tag: int, vdso_addr: u64, a: u64, b: u64)
    requires
        is_given_by_last(entries, tag, vdso_addr, a),
        is_given_by_last(entries, tag, vdso_addr, b),
    ensures
        a == b,
{
    let i = choose|i: int|
        {
            &&& 0 <= i < entries.len()
            &&& has_tag(#[trigger] entries[i], tag)
            &&& a == (vdso_addr + entries[i].d_val) % address_count()
            &&& forall|j: int| i < j < entries.len() ==> !has_tag(#[trigger] entries[j], tag)
        };
    let k = choose|k: int|
        {
            &&& 0 <= k < entries.len()
            &&& has_tag(#[trigger] entries[k], tag)
            &&& b == (vdso_addr + entries[k].d_val) % address_count()
            &&& forall|j: int| k < j < entries.len() ==> !has_tag(#[trigger] entries[j], tag)
        };
    assert(has_tag(entries[i], tag) && has_tag(entries[k], tag));
    assert(i == k);
}

/// The version definitions follow one another by their own words, from the first address on,
/// until one says that none follows or the next is not in the image.
pub proof fn version_definitions_follow_one_another(image: Image, address: int)
    requires
        image.base() + image.bytes().len() <= u64::MAX,
    ensures
        verdefs(image, address).len() == 0 <==> Verdef::at(image, address) is None,
        verdefs(image, address).len() > 0 ==> verdefs(image, address)[0].address == address,
        forall|i: int|
            0 <= i < verdefs(image, address).len() ==> Verdef::at(
                image,
                (#[trigger] verdefs(image, address)[i]).address as int,
            ) == Some(verdefs(image, address)[i].verdef),
        forall|i: int|
            0 <= i < verdefs(image, address).len() - 1 ==> (#[trigger] verdefs(
                image,
                address,
            )[i]).verdef.vd_next != 0,
        forall|i: int, j: int|
            0 <= i < verdefs(image, address).len() && j == i + 1 && j < verdefs(
                image,
                address,
            ).len() ==> (#[trigger] verdefs(image, address)[j]).address == (#[trigger] verdefs(
                image,
                address,
            )[i]).address + verdefs(image, address)[i].verdef.vd_next,
        verdefs(image, address).len() > 0 ==> ({
            let last = verdefs(image, address).last();
            last.verdef.vd_next == 0 || Verdef::at(image, last.address + last.verdef.vd_next)
                is None
        }),
    decreases
            (if image.has(address, 1) {
                image.base() + image.bytes().len() - address
            } else {
                0
            }),
{
    if let Some(verdef) = Verdef::at(image, address) {
        let all = verdefs(image, address);
        let first = VerdefRef { address: address as u64, verdef };
        if verdef.vd_next == 0 {
            assert(all =~= seq![first]);
        } else {
            let rest = verdefs(image, address + verdef.vd_next);
            version_definitions_follow_one_another(image, address + verdef.vd_next);
            assert(all =~= seq![first] + rest);
            assert forall|i: int| 0 < i < all.len() implies #[trigger] all[i] == rest[i - 1] by {}
            assert forall|i: int, j: int|
                0 <= i < all.len() && j == i + 1 && j < all.len() implies (#[trigger] all[j]).address == (#[trigger] all[i]).address + all[i].verdef.vd_next by {
                if i == 0 {
                    assert(rest[0].address == address + verdef.vd_next);
                } else {
                    assert(all[j] == rest[j - 1]);
                    assert(rest[j - 1].address == rest[i - 1].address + rest[i - 1].verdef.vd_next);
                }
            }
            if rest.len() > 0 {
                assert(all.last() == rest.last());
            }
        }
    }
}

/// Whether the definition at place `d` is the first that defines the version with a number.
/// Only the low fifteen bits of a number count, and a definition whose flags are odd names
/// the object and no version.
pub open spec fn is_first_definition(defs: Seq<VerdefRef>, number: int, d: int) -> bool {
    &&& 0 <= d < defs.len()
    &&& defs[d].verdef.vd_flags % 2 == 0
    &&& defs[d].verdef.vd_ndx % 0x8000 == number % 0x8000
    &&& forall|j: int|
        0 <= j < d ==> !((#[trigger] defs[j]).verdef.vd_flags % 2 == 0 && defs[j].verdef.vd_ndx
            % 0x8000 == number % 0x8000)
}

proof fn lemma_defines(verdef: VerdefRef, number: u16)
    ensures
        defines(verdef, number & 0x7FFF) <==> verdef.verdef.vd_flags % 2 == 0
            && verdef.verdef.vd_ndx % 0x8000 == number % 0x8000,
{
    let flags = verdef.verdef.vd_flags;
    let index = verdef.verdef.vd_ndx;
    assert(flags & 1 == 0 <==> flags % 2 == 0) by (bit_vector);
    assert(index & 0x7FFF == index % 0x8000) by (bit_vector);
    assert(number & 0x7FFF == number % 0x8000) by (bit_vector);
}

proof fn lemma_first_defining(defs: Seq<VerdefRef>, number: u16) -> (d: int)
    ensures
        first_defining(defs, number & 0x7FFF) matches Some(verdef) ==> is_first_definition(
            defs,
            number as int,
            d,
        ) && verdef == defs[d],
        first_defining(defs, number & 0x7FFF) is None ==> forall|j: int|
            0 <= j < defs.len() ==> !((#[trigger] defs[j]).verdef.vd_flags % 2 == 0
                && defs[j].verdef.vd_ndx % 0x8000 == number % 0x8000),
    decreases defs.len(),
{
    if defs.len() == 0 {
        0
    } else {
        lemma_defines(defs[0], number);
        if defines(defs[0], number & 0x7FFF) {
            0
        } else {
            let rest = defs.skip(1);
            let d = lemma_first_defining(rest, number);
            assert forall|j: int| 0 < j < defs.len() implies #[trigger] defs[j] == rest[j - 1] by {}
            d + 1
        }
    }
}

/// The number of the version of the symbol at place `i`.
pub open spec fn version_number(table: SymbolTable, image: Image, i: int) -> int {
    image.u16_at(table.versym + 2 * i)
}

/// The version of a symbol is the text that the name record of the first definition of its
/// number points to.
pub proof fn versions_are_named_by_their_definitions(table: SymbolTable, image: Image, i: int)
    ensures
        table.version(image, i) matches Some(text) ==> {
            let defs = verdefs(image, table.verdef as int);
            &&& 0 <= i < table.symbol_count
            &&& exists|d: int|
                {
                    let def = defs[d];
                    &&& #[trigger] is_first_definition(defs, version_number(table, image, i), d)
                    &&& def.verdef.vd_aux != 0
                    &&& Verdaux::at(image, def.address + def.verdef.vd_aux) matches Some(record)
                        && image.text_at(table.strtab + record.vda_name) == Some(text)
                }
        },
{
    if table.version(image, i) is Some {
        let defs = verdefs(image, table.verdef as int);
        numbers_are_sums_of_bytes(image, table.versym + 2 * i);
        let number = version_number(table, image, i) as u16;
        let d = lemma_first_defining(defs, number);
        assert(is_first_definition(defs, version_number(table, image, i), d));
    }
}

/// A symbol has a version if the first definition of its number has a name record that points
/// to a text.
pub proof fn defined_versions_are_found(table: SymbolTable, image: Image, i: int, d: int)
    requires
        0 <= i < table.symbol_count,
        is_first_definition(
            verdefs(image, table.verdef as int),
            version_number(table, image, i),
            d,
        ),
        verdefs(image, table.verdef as int)[d].verdef.vd_aux != 0,
    ensures
        ({
            let def = verdefs(image, table.verdef as int)[d];
            Verdaux::at(image, def.address + def.verdef.vd_aux) matches Some(record)
                ==> table.version(image, i) == image.text_at(table.strtab + record.vda_name)
        }),
{
    let defs = verdefs(image, table.verdef as int);
    numbers_are_sums_of_bytes(image, table.versym + 2 * i);
    let number = version_number(table, image, i) as u16;
    let e = lemma_first_defining(defs, number);
    assert(defs[d].verdef.vd_flags % 2 == 0);
    assert(d == e);
}

/// Whether the symbol at place `i` has a name.
pub open spec fn is_named(table: SymbolTable, image: Image, i: int, name: Seq<char>) -> bool {
    Sym::at(image, table.symtab + 24 * i) matches Some(sym) && (image.text_at(
        table.strtab + sym.st_name,
    ) matches Some(text) && text.len() == name.len() && forall|c: int|
        0 <= c < text.len() ==> (#[trigger] text[c]) as int == name[c] as int)
}

/// Whether the symbol at place `i` has a version with a name.
pub open spec fn is_versioned(
    table: SymbolTable,
    image: Image,
    i: int,
    version: Seq<char>,
) -> bool {
    table.version(image, i) matches Some(text) && text.len() == version.len() && forall|c: int|
        0 <= c < text.len() ==> (#[trigger] text[c]) as int == version[c] as int
}

/// The symbols in a table that is in the image.
proof fn lemma_named(table: SymbolTable, image: Image, i: int, name: Seq<char>, version: Seq<char>)
    requires
        table.is_in(image),
        0 <= i < table.symbol_count,
    ensures
        Sym::at(image, table.symtab + 24 * i) == Some(table.symbol(image, i)),
        is_named(table, image, i, name) <==> (table.name(image, i) matches Some(text) && spells(
            text,
            name,
        )),
        is_versioned(table, image, i, version) <==> (table.version(image, i) matches Some(text)
            && spells(text, version)),
{
    assert(image.has(table.symtab + 24 * i, 24));
    assert(table.symtab + i * 24 == table.symtab + 24 * i);
}

proof fn lemma_search(
    table: SymbolTable,
    image: Image,
    name: Seq<char>,
    version: Seq<char>,
    start: int,
) -> (i: int)
    requires
        table.is_in(image),
        0 <= start,
    ensures
        table.symbol_from(image, name, version, start) matches Some(address) ==> {
            &&& start <= i < table.symbol_count
            &&& is_named(table, image, i, name)
            &&& is_versioned(table, image, i, version)
            &&& address == (table.vdso_addr + Sym::at(image, table.symtab + 24 * i)->0.st_value)
                % address_count()
            &&& forall|j: int|
                start <= j < i && #[trigger] is_named(table, image, j, name) ==> table.version(
                    image,
                    j,
                ) is Some && !is_versioned(table, image, j, version)
        },
    decreases table.symbol_count - start,
{
    if start >= table.symbol_count {
        start
    } else {
        lemma_named(table, image, start, name, version);
        if table.decides(image, name, version, start) {
            address_sums_wrap(table.vdso_addr, table.symbol(image, start).st_value, 0);
            start
        } else {
            lemma_search(table, image, name, version, start + 1)
        }
    }
}

/// The generator that is found is a symbol with the name and the version that its
/// architecture gives it. Every symbol before it with the name has another version.
pub proof fn generator_is_a_versioned_symbol(table: SymbolTable, image: Image)
    requires
        table.is_in(image),
    ensures
        table.generator(image, Arch::X86_64) matches Some(address) ==> exists|i: int|
            #[trigger] is_generator(
                table,
                image,
                "__vdso_getrandom"@,
                "LINUX_2.6"@,
                i,
                address,
            ),
        table.generator(image, Arch::Aarch64) matches Some(address) ==> exists|i: int|
            #[trigger] is_generator(
                table,
                image,
                "__kernel_getrandom"@,
                "LINUX_2.6.39"@,
                i,
                address,
            ),
        table.generator(image, Arch::Other) is None,
{
    if let Some(address) = table.generator(image, Arch::X86_64) {
        let i = lemma_search(table, image, "__vdso_getrandom"@, "LINUX_2.6"@, 0);
        assert(is_generator(table, image, "__vdso_getrandom"@, "LINUX_2.6"@, i, address));
    }
    if let Some(address) = table.generator(image, Arch::Aarch64) {
        let i = lemma_search(table, image, "__kernel_getrandom"@, "LINUX_2.6.39"@, 0);
        assert(is_generator(table, image, "__kernel_getrandom"@, "LINUX_2.6.39"@, i, address));
    }
}

/// Whether `address` is that of the symbol at place `i`, and this is the symbol that a search
/// for a name and a version comes to.
pub open spec fn is_generator(
    table: SymbolTable,
    image: Image,
    name: Seq<char>,
    version: Seq<char>,
    i: int,
    address: u64,
) -> bool {
    &&& 0 <= i < table.symbol_count
    &&& is_named(table, image, i, name)
    &&& is_versioned(table, image, i, version)
    &&& address == (table.vdso_addr + Sym::at(image, table.symtab + 24 * i)->0.st_value)
        % address_count()
    &&& forall|j: int|
        0 <= j < i && #[trigger] is_named(table, image, j, name) ==> table.version(image, j) is Some
            && !is_versioned(table, image, j, version)
}

/// Such a symbol is found: no other answer is given.
pub proof fn versioned_generator_is_found(
    table: SymbolTable,
    image: Image,
    arch: Arch,
    i: int,
    address: u64,
)
    requires
        table.is_in(image),
        match arch {
            Arch::X86_64 => is_generator(
                table,
                image,
                "__vdso_getrandom"@,
                "LINUX_2.6"@,
                i,
                address,
            ),
            Arch::Aarch64 => is_generator(
                table,
                image,
                "__kernel_getrandom"@,
                "LINUX_2.6.39"@,
                i,
                address,
            ),
            Arch::Other => false,
        },
    ensures
        table.generator(image, arch) == Some(address),
{
    let (name, version) = name_and_version(arch)->0;
    lemma_finds(table, image, name, version, i, address, 0);
}

proof fn lemma_finds(
    table: SymbolTable,
    image: Image,
    name: Seq<char>,
    version: Seq<char>,
    i: int,
    address: u64,
    start: int,
)
    requires
        table.is_in(image),
        is_generator(table, image, name, version, i, address),
        0 <= start <= i,
    ensures
        table.symbol_from(image, name, version, start) == Some(address),
    decreases i - start,
{
    lemma_named(table, image, start, name, version);
    if start < i {
        assert(is_named(table, image, start, name) ==> table.version(image, start) is Some);
        lemma_finds(table, image, name, version, i, address, start + 1);
    } else {
        address_sums_wrap(table.vdso_addr, table.symbol(image, start).st_value, 0);
    }
}

/// A symbol with the name but without a version ends the search without an answer, if no
/// symbol before it is the one that is looked for.
pub proof fn unversioned_symbol_ends_the_search(
    table: SymbolTable,
    image: Image,
    name: Seq<char>,
    version: Seq<char>,
    i: int,
)
    requires
        table.is_in(image),
        0 <= i < table.symbol_count,
        is_named(table, image, i, name),
        table.version(image, i) is None,
        forall|j: int|
            0 <= j < i && #[trigger] is_named(table, image, j, name) ==> !is_versioned(
                table,
                image,
                j,
                version,
            ),
    ensures
        table.symbol_from(image, name, version, 0) is None,
{
    let k = lemma_search(table, image, name, version, 0);
    if table.symbol_from(image, name, version, 0) is Some {
        if k < i {
            assert(is_named(table, image, k, name));
        } else if i < k {
            assert(is_named(table, image, i, name));
        }
    }
}

/// The function that is found in an object comes from its tables: as many symbols as its
/// first section of dynamic symbols holds, and the tables that its dynamic entries give.
pub proof fn function_comes_from_the_tables(image: Image, ehdr: u64, arch: Arch)
    ensures
        function_at(image, ehdr, arch) is Some <==> ehdr != 0 && (ElfShdrArray::of(
            image,
            ehdr,
        ) matches Some(headers) && (phdr_info(image, ehdr) matches Some(info) && SymbolTable::of(
            image,
            info,
            headers.symbols(image),
        ) is Some)),
        function_at(image, ehdr, arch) matches Some(function) ==> function == SymbolTable::of(
            image,
            phdr_info(image, ehdr)->0,
            ElfShdrArray::of(image, ehdr)->0.symbols(image),
        )->0.generator(image, arch),
{
}

/// Whether the entry at place `i` is the last with a key.
pub open spec fn is_last_with_key(entries: Seq<AuxvEntry>, key: u64, i: int) -> bool {
    &&& 0 <= i < entries.len()
    &&& entries[i].key == key
    &&& forall|j: int| i < j < entries.len() ==> (#[trigger] entries[j]).key != key
}

/// What is gathered: the value of the last entry with the key 6 as the page size, and the
/// function of the object that the last entry with the key 33 gives. Every object on the way
/// has its tables.
pub proof fn last_entries_are_gathered(entries: Seq<AuxvEntry>, image: Image, arch: Arch)
    ensures
        gathered(entries, image, arch) matches Some((function, page_size)) ==> {
            &&& page_size matches Some(value) ==> exists|i: int|
                #[trigger] is_last_with_key(entries, 6, i) && entries[i].value == value
            &&& page_size is None ==> forall|i: int|
                0 <= i < entries.len() ==> (#[trigger] entries[i]).key != 6
            &&& function matches Some(address) ==> exists|i: int|
                #[trigger] is_last_with_key(entries, 33, i) && function_at(
                    image,
                    entries[i].value,
                    arch,
                ) == Some(Some(address))
            &&& function is None ==> forall|i: int|
                #[trigger] is_last_with_key(entries, 33, i) ==> function_at(
                    image,
                    entries[i].value,
                    arch,
                ) == Some(None::<u64>)
        },
        gathered(entries, image, arch) is Some <==> forall|i: int|
            0 <= i < entries.len() && (#[trigger] entries[i]).key == 33 ==> function_at(
                image,
                entries[i].value,
                arch,
            ) is Some,
    decreases entries.len(),
{
    if entries.len() > 0 {
        let rest = entries.drop_last();
        let last = entries.len() - 1;
        last_entries_are_gathered(rest, image, arch);
        assert forall|j: int| 0 <= j < last implies #[trigger] entries[j] == rest[j] by {}
        lemma_last_with_key(entries, 6);
        lemma_last_with_key(entries, 33);
    }
}

/// The last entry with a key is the last of all, or the last of the others.
proof fn lemma_last_with_key(entries: Seq<AuxvEntry>, key: u64)
    requires
        entries.len() > 0,
    ensures
        entries.last().key == key ==> is_last_with_key(entries, key, entries.len() - 1),
        entries.last().key == key ==> forall|i: int| #[trigger]
            is_last_with_key(entries, key, i) ==> i == entries.len() - 1,
        entries.last().key != key ==> forall|i: int|
            #![trigger is_last_with_key(entries, key, i)]
            #![trigger is_last_with_key(entries.drop_last(), key, i)]
            is_last_with_key(entries, key, i) <==> is_last_with_key(entries.drop_last(), key, i),
{
    let rest = entries.drop_last();
    let last = entries.len() - 1;
    assert forall|i: int| #[trigger] is_last_with_key(entries, key, i) implies (entries.last().key
        == key ==> i == last) && (entries.last().key != key ==> is_last_with_key(rest, key, i)) by {
        assert(i <= last);
        if i < last {
            assert(entries[last].key != key);
        }
        assert forall|j: int| i < j < rest.len() implies (#[trigger] rest[j]).key != key by {
            assert(entries[j].key != key);
        }
    }
    assert forall|i: int|
        entries.last().key != key && #[trigger] is_last_with_key(rest, key, i) implies
        is_last_with_key(entries, key, i) by {
        assert forall|j: int| i < j < entries.len() implies (#[trigger] entries[j]).key != key by {
            if j < last {
                assert(rest[j].key != key);
            }
        }
    }
}

/// Whether a function and a page size are those that the entries of an auxiliary vector give:
/// the page size by the last entry with the key 6, and the function by the object of the last
/// entry with the key 33. Every object of such an entry has its tables.
pub open spec fn is_found(
    entries: Seq<AuxvEntry>,
    image: Image,
    arch: Arch,
    function: u64,
    page_size: u64,
) -> bool {
    &&& exists|i: int| #[trigger]
        is_last_with_key(entries, 6, i) && entries[i].value == page_size
    &&& exists|i: int| #[trigger]
        is_last_with_key(entries, 33, i) && function_at(image, entries[i].value, arch) == Some(
            Some(function),
        )
    &&& forall|i: int|
        0 <= i < entries.len() && (#[trigger] entries[i]).key == 33 ==> function_at(
            image,
            entries[i].value,
            arch,
        ) is Some
}

/// What is gathered from the entries is what the last entries give, and it is gathered
/// whenever they give it.
pub proof fn last_entries_decide(
    entries: Seq<AuxvEntry>,
    image: Image,
    arch: Arch,
    function: u64,
    page_size: u64,
)
    ensures
        gathered(entries, image, arch) == Some((Some(function), Some(page_size))) <==> is_found(
            entries,
            image,
            arch,
            function,
            page_size,
        ),
{
    last_entries_are_gathered(entries, image, arch);
    if is_found(entries, image, arch, function, page_size) {
        let i = choose|i: int| #[trigger]
            is_last_with_key(entries, 6, i) && entries[i].value == page_size;
        let k = choose|k: int| #[trigger]
            is_last_with_key(entries, 33, k) && function_at(image, entries[k].value, arch) == Some(
                Some(function),
            );
        lemma_one_last(entries, 6);
        lemma_one_last(entries, 33);
        assert(is_last_with_key(entries, 6, i));
        assert(entries[i].key == 6);
        assert(is_last_with_key(entries, 33, k));
    }
}

/// There is one last entry with a key.
proof fn lemma_one_last(entries: Seq<AuxvEntry>, key: u64)
    ensures
        forall|i: int, k: int| #[trigger]
            is_last_with_key(entries, key, i) && #[trigger] is_last_with_key(entries, key, k) ==> i
                == k,
{
    assert forall|i: int, k: int| #[trigger]
        is_last_with_key(entries, key, i) && #[trigger] is_last_with_key(entries, key, k) implies i
        == k by {
        assert(entries[i].key == key && entries[k].key == key);
    }
}

/// An entry with another key than 6 and 33 makes no difference to what is found.
pub proof fn other_keys_make_no_difference(
    entries: Seq<AuxvEntry>,
    image: Image,
    arch: Arch,
    i: int,
    function: u64,
    page_size: u64,
)
    requires
        0 <= i < entries.len(),
        entries[i].key != 6,
        entries[i].key != 33,
    ensures
        is_found(entries.remove(i), image, arch, function, page_size) <==> is_found(
            entries,
            image,
            arch,
            function,
            page_size,
        ),
{
    other_entries_make_no_difference(entries, image, arch, i);
    last_entries_decide(entries, image, arch, function, page_size);
    last_entries_decide(entries.remove(i), image, arch, function, page_size);
}

/// Entries with other keys than 6 and 33 make no difference.
pub proof fn other_entries_make_no_difference(
    entries: Seq<AuxvEntry>,
    image: Image,
    arch: Arch,
    i: int,
)
    requires
        0 <= i < entries.len(),
        entries[i].key != 6,
        entries[i].key != 33,
    ensures
        gathered(entries.remove(i), image, arch) == gathered(entries, image, arch),
    decreases entries.len(),
{
    let fewer = entries.remove(i);
    if i == entries.len() - 1 {
        assert(fewer =~= entries.drop_last());
    } else {
        other_entries_make_no_difference(entries.drop_last(), image, arch, i);
        assert(fewer.drop_last() =~= entries.drop_last().remove(i));
        assert(fewer.last() == entries.last());
    }
}

} // verus!
