//! Records of a 64-bit ELF object. Only the fields that the search for a symbol reads
//! are kept.

use super::image::Image;
use vstd::prelude::*;

verus! {

/// How many bytes [`Ehdr`] has in memory.
pub const EHDR_SIZE: u64 = 64;

/// The header of an object.
#[derive(Debug, Clone, Copy, PartialEq, Eq, Structural)]
pub struct Ehdr {
    /// Where the program headers are, from the header on.
    pub e_phoff: u64,
    /// Where the section headers are, from the header on.
    pub e_shoff: u64,
    /// How many program headers there are.
    pub e_phnum: u16,
    /// How many section headers there are.
    pub e_shnum: u16,
}

impl Ehdr {
    /// The record at an address, if it is in the image.
    pub open spec fn at(image: Image, address: int) -> Option<Self> {
        if image.has(address, EHDR_SIZE as int) {
            Some(
                Ehdr {
                    e_phoff: image.u64_at(address + 32) as u64,
                    e_shoff: image.u64_at(address + 40) as u64,
                    e_phnum: image.u16_at(address + 56) as u16,
                    e_shnum: image.u16_at(address + 60) as u16,
                },
            )
        } else {
            None
        }
    }

    /// Reads the record at an address.
    pub fn read(image: &Image, address: u64) -> (record: Option<Self>)
        ensures
            record == Self::at(*image, address as int),
    {
        if image.contains(address, EHDR_SIZE) {
            let end: u64 = image.end();
            assert(address + EHDR_SIZE <= end);
            Some(
                Ehdr {
                    e_phoff: image.read_u64(address + 32),
                    e_shoff: image.read_u64(address + 40),
                    e_phnum: image.read_u16(address + 56),
                    e_shnum: image.read_u16(address + 60),
                },
            )
        } else {
            None
        }
    }
}

/// How many bytes [`Phdr`] has in memory.
pub const PHDR_SIZE: u64 = 56;

/// A program header, which describes a segment.
#[derive(Debug, Clone, Copy, PartialEq, Eq, Structural)]
pub struct Phdr {
    /// What the segment is.
    pub p_type: u32,
    /// What the segment is mapped for.
    pub p_flags: u32,
    /// Where the segment is in the object.
    pub p_offset: u64,
    /// The address that the object was linked for.
    pub p_vaddr: u64,
}

impl Phdr {
    /// The record at an address, if it is in the image.
    pub open spec fn at(image: Image, address: int) -> Option<Self> {
        if image.has(address, PHDR_SIZE as int) {
            Some(
                Phdr {
                    p_type: image.u32_at(address) as u32,
                    p_flags: image.u32_at(address + 4) as u32,
                    p_offset: image.u64_at(address + 8) as u64,
                    p_vaddr: image.u64_at(address + 16) as u64,
                },
            )
        } else {
            None
        }
    }

    /// Reads the record at an address.
    pub fn read(image: &Image, address: u64) -> (record: Option<Self>)
        ensures
            record == Self::at(*image, address as int),
    {
        if image.contains(address, PHDR_SIZE) {
            let end: u64 = image.end();
            assert(address + PHDR_SIZE <= end);
            Some(
                Phdr {
                    p_type: image.read_u32(address),
                    p_flags: image.read_u32(address + 4),
                    p_offset: image.read_u64(address + 8),
                    p_vaddr: image.read_u64(address + 16),
                },
            )
        } else {
            None
        }
    }
}

/// How many bytes [`Shdr`] has in memory.
pub const SHDR_SIZE: u64 = 64;

/// A section header.
#[derive(Debug, Clone, Copy, PartialEq, Eq, Structural)]
pub struct Shdr {
    /// What the section is.
    pub sh_type: u32,
    /// How many bytes it has.
    pub sh_size: u64,
    /// How many bytes an entry of it has.
    pub sh_entsize: u64,
}

impl Shdr {
    /// The record at an address, if it is in the image.
    pub open spec fn at(image: Image, address: int) -> Option<Self> {
        if image.has(address, SHDR_SIZE as int) {
            Some(
                Shdr {
                    sh_type: image.u32_at(address + 4) as u32,
                    sh_size: image.u64_at(address + 32) as u64,
                    sh_entsize: image.u64_at(address + 56) as u64,
                },
            )
        } else {
            None
        }
    }

    /// Reads the record at an address.
    pub fn read(image: &Image, address: u64) -> (record: Option<Self>)
        ensures
            record == Self::at(*image, address as int),
    {
        if image.contains(address, SHDR_SIZE) {
            let end: u64 = image.end();
            assert(address + SHDR_SIZE <= end);
            Some(
                Shdr {
                    sh_type: image.read_u32(address + 4),
                    sh_size: image.read_u64(address + 32),
                    sh_entsize: image.read_u64(address + 56),
                },
            )
        } else {
            None
        }
    }
}

/// How many bytes [`Sym`] has in memory.
pub const SYM_SIZE: u64 = 24;

/// A symbol.
#[derive(Debug, Clone, Copy, PartialEq, Eq, Structural)]
pub struct Sym {
    /// Where its name is in the string table.
    pub st_name: u32,
    /// The address that it was linked for.
    pub st_value: u64,
}

impl Sym {
    /// The record at an address, if it is in the image.
    pub open spec fn at(image: Image, address: int) -> Option<Self> {
        if image.has(address, SYM_SIZE as int) {
            Some(
                Sym {
                    st_name: image.u32_at(address) as u32,
                    st_value: image.u64_at(address + 8) as u64,
                },
            )
        } else {
            None
        }
    }

    /// Reads the record at an address.
    pub fn read(image: &Image, address: u64) -> (record: Option<Self>)
        ensures
            record == Self::at(*image, address as int),
    {
        if image.contains(address, SYM_SIZE) {
            let end: u64 = image.end();
            assert(address + SYM_SIZE <= end);
            Some(
                Sym {
                    st_name: image.read_u32(address),
                    st_value: image.read_u64(address + 8),
                },
            )
        } else {
            None
        }
    }
}

/// How many bytes [`Verdef`] has in memory.
pub const VERDEF_SIZE: u64 = 20;

/// A version definition.
#[derive(Debug, Clone, Copy, PartialEq, Eq, Structural)]
pub struct Verdef {
    /// What it defines.
    pub vd_flags: u16,
    /// The number of the version.
    pub vd_ndx: u16,
    /// Where its name's record is, from the definition on.
    pub vd_aux: u32,
    /// Where the next definition is, from this one on.
    pub vd_next: u32,
}

impl Verdef {
    /// The record at an address, if it is in the image.
    pub open spec fn at(image: Image, address: int) -> Option<Self> {
        if image.has(address, VERDEF_SIZE as int) {
            Some(
                Verdef {
                    vd_flags: image.u16_at(address + 2) as u16,
                    vd_ndx: image.u16_at(address + 4) as u16,
                    vd_aux: image.u32_at(address + 12) as u32,
                    vd_next: image.u32_at(address + 16) as u32,
                },
            )
        } else {
            None
        }
    }

    /// Reads the record at an address.
    pub fn read(image: &Image, address: u64) -> (record: Option<Self>)
        ensures
            record == Self::at(*image, address as int),
    {
        if image.contains(address, VERDEF_SIZE) {
            let end: u64 = image.end();
            assert(address + VERDEF_SIZE <= end);
            Some(
                Verdef {
                    vd_flags: image.read_u16(address + 2),
                    vd_ndx: image.read_u16(address + 4),
                    vd_aux: image.read_u32(address + 12),
                    vd_next: image.read_u32(address + 16),
                },
            )
        } else {
            None
        }
    }
}

/// How many bytes [`Verdaux`] has in memory.
pub const VERDAUX_SIZE: u64 = 8;

/// The record of a version's name.
#[derive(Debug, Clone, Copy, PartialEq, Eq, Structural)]
pub struct Verdaux {
    /// Where the name is in the string table.
    pub vda_name: u32,
}

impl Verdaux {
    /// The record at an address, if it is in the image.
    pub open spec fn at(image: Image, address: int) -> Option<Self> {
        if image.has(address, VERDAUX_SIZE as int) {
            Some(
                Verdaux {
                    vda_name: image.u32_at(address) as u32,
                },
            )
        } else {
            None
        }
    }

    /// Reads the record at an address.
    pub fn read(image: &Image, address: u64) -> (record: Option<Self>)
        ensures
            record == Self::at(*image, address as int),
    {
        if image.contains(address, VERDAUX_SIZE) {
            Some(
                Verdaux {
                    vda_name: image.read_u32(address),
                },
            )
        } else {
            None
        }
    }
}

/// How many bytes [`Dyn`] has in memory.
pub const DYN_SIZE: u64 = 16;

/// A dynamic entry.
#[derive(Debug, Clone, Copy, PartialEq, Eq, Structural)]
pub struct Dyn {
    /// What the entry says.
    pub d_tag: u64,
    /// Its number.
    pub d_val: u64,
}

impl Dyn {
    /// The record at an address, if it is in the image.
    pub open spec fn at(image: Image, address: int) -> Option<Self> {
        if image.has(address, DYN_SIZE as int) {
            Some(
                Dyn {
                    d_tag: image.u64_at(address) as u64,
                    d_val: image.u64_at(address + 8) as u64,
                },
            )
        } else {
            None
        }
    }

    /// Reads the record at an address.
    pub fn read(image: &Image, address: u64) -> (record: Option<Self>)
        ensures
            record == Self::at(*image, address as int),
    {
        if image.contains(address, DYN_SIZE) {
            let end: u64 = image.end();
            assert(address + DYN_SIZE <= end);
            Some(
                Dyn {
                    d_tag: image.read_u64(address),
                    d_val: image.read_u64(address + 8),
                },
            )
        } else {
            None
        }
    }
}

} // verus!
