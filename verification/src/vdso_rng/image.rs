//! A stretch of memory that can be read.

use vstd::prelude::*;

verus! {

/// In which order the bytes of a number lie.
#[derive(Debug, Clone, Copy, PartialEq, Eq, Structural)]
pub enum ByteOrder {
    /// The least significant byte first.
    Little,
    /// The most significant byte first.
    Big,
}

/// The number that two halves make, of which the first lies before the second; a half is
/// below `unit`.
pub open spec fn joined(order: ByteOrder, first: int, second: int, unit: int) -> int {
    match order {
        ByteOrder::Little => first + unit * second,
        ByteOrder::Big => unit * first + second,
    }
}

/// Bytes at consecutive addresses, and the order of the bytes of the numbers in them.
pub struct Image {
    base: u64,
    bytes: Vec<u8>,
    order: ByteOrder,
}

impl Image {
    /// The address of the first byte.
    pub closed spec fn base(self) -> u64 {
        self.base
    }

    /// The bytes.
    pub closed spec fn bytes(self) -> Seq<u8> {
        self.bytes@
    }

    /// The order of the bytes of a number.
    pub closed spec fn order(self) -> ByteOrder {
        self.order
    }

    #[verifier::type_invariant]
    spec fn inv(self) -> bool {
        self.base + self.bytes@.len() <= u64::MAX
    }

    /// Whether `width` bytes from an address on are there.
    pub open spec fn has(self, address: int, width: int) -> bool {
        self.base() <= address && address + width <= self.base() + self.bytes().len()
    }

    /// The byte at an address.
    pub open spec fn byte(self, address: int) -> int {
        self.bytes()[address - self.base()] as int
    }

    /// The two-byte number at an address.
    pub open spec fn u16_at(self, address: int) -> int {
        joined(self.order(), self.byte(address), self.byte(address + 1), 0x100)
    }

    /// The four-byte number at an address.
    pub open spec fn u32_at(self, address: int) -> int {
        joined(self.order(), self.u16_at(address), self.u16_at(address + 2), 0x1_0000)
    }

    /// The eight-byte number at an address.
    pub open spec fn u64_at(self, address: int) -> int {
        joined(self.order(), self.u32_at(address), self.u32_at(address + 4), 0x1_0000_0000)
    }

    /// Whether a text of `len` bytes starts at an address: `len` bytes other than
    /// zero, and a zero behind them.
    pub open spec fn is_text(self, address: int, len: int) -> bool {
        &&& 0 <= len
        &&& self.has(address, len + 1)
        &&& forall|a: int| address <= a < address + len ==> #[trigger] self.byte(a) != 0
        &&& self.byte(address + len) == 0
    }

    /// The zero-terminated text at an address, if it ends within the image.
    pub open spec fn text_at(self, address: int) -> Option<Seq<u8>> {
        if exists|len: int| self.is_text(address, len) {
            let len = choose|len: int| self.is_text(address, len);
            Some(self.bytes().subrange(address - self.base(), address - self.base() + len))
        } else {
            None
        }
    }

    /// The bytes from an address on.
    pub fn new(base: u64, bytes: Vec<u8>, order: ByteOrder) -> (image: Self)
        requires
            base + bytes@.len() <= u64::MAX,
        ensures
            image.base() == base,
            image.bytes() == bytes@,
            image.order() == order,
    {
        Image { base, bytes, order }
    }

    /// Whether `width` bytes from an address on are there.
    pub fn contains(&self, address: u64, width: u64) -> (is_in: bool)
        ensures
            is_in == self.has(address as int, width as int),
    {
        proof {
            use_type_invariant(self);
        }
        let len: u64 = self.bytes.len() as u64;
        address >= self.base && width <= len && address - self.base <= len - width
    }

    /// The address behind the last byte.
    pub fn end(&self) -> (end: u64)
        ensures
            end == self.base() + self.bytes().len(),
    {
        proof {
            use_type_invariant(self);
        }
        self.base + self.bytes.len() as u64
    }

    fn read_u8(&self, address: u64) -> (value: u8)
        requires
            self.has(address as int, 1),
        ensures
            value == self.byte(address as int),
    {
        let len: usize = self.bytes.len();
        assert(address - self.base < len);
        self.bytes[(address - self.base) as usize]
    }

    /// Reads a two-byte number.
    pub fn read_u16(&self, address: u64) -> (value: u16)
        requires
            self.has(address as int, 2),
        ensures
            value == self.u16_at(address as int),
    {
        proof {
            use_type_invariant(self);
        }
        let first: u16 = self.read_u8(address) as u16;
        let second: u16 = self.read_u8(address + 1) as u16;
        match self.order {
            ByteOrder::Little => first + 0x100 * second,
            ByteOrder::Big => 0x100 * first + second,
        }
    }

    /// Reads a four-byte number.
    pub fn read_u32(&self, address: u64) -> (value: u32)
        requires
            self.has(address as int, 4),
        ensures
            value == self.u32_at(address as int),
    {
        proof {
            use_type_invariant(self);
        }
        let first: u32 = self.read_u16(address) as u32;
        let second: u32 = self.read_u16(address + 2) as u32;
        match self.order {
            ByteOrder::Little => first + 0x1_0000 * second,
            ByteOrder::Big => 0x1_0000 * first + second,
        }
    }

    /// Reads an eight-byte number.
    pub fn read_u64(&self, address: u64) -> (value: u64)
        requires
            self.has(address as int, 8),
        ensures
            value == self.u64_at(address as int),
    {
        proof {
            use_type_invariant(self);
        }
        let first: u64 = self.read_u32(address) as u64;
        let second: u64 = self.read_u32(address + 4) as u64;
        match self.order {
            ByteOrder::Little => first + 0x1_0000_0000 * second,
            ByteOrder::Big => 0x1_0000_0000 * first + second,
        }
    }

    /// Reads a zero-terminated text.
    pub fn read_text(&self, address: u64) -> (text: Option<&[u8]>)
        ensures
            text is Some == self.text_at(address as int) is Some,
            text matches Some(text) ==> Some(text@) == self.text_at(address as int),
    {
        proof {
            use_type_invariant(self);
        }
        let mut end: u64 = address;
        while self.contains(end, 1)
            invariant
                address <= end,
                end == address || self.has(address as int, end - address),
                forall|a: int| address <= a < end ==> #[trigger] self.byte(a) != 0,
                self.base() + self.bytes().len() <= u64::MAX,
            ensures
                !self.has(end as int, 1),
            decreases u64::MAX - end,
        {
            if self.read_u8(end) == 0 {
                let len: usize = self.bytes.len();
                assert(end - self.base < len);
                let start: usize = (address - self.base) as usize;
                let stop: usize = (end - self.base) as usize;
                proof {
                    let len = end - address;
                    assert(self.is_text(address as int, len));
                    assert forall|other: int| self.is_text(address as int, other) implies other
                        == len by {
                        lemma_text_len_unique(*self, address as int, other, len);
                    }
                }
                return Some(vstd::slice::slice_subrange(self.bytes.as_slice(), start, stop));
            }
            end = end + 1;
        }
        proof {
            assert forall|len: int| !self.is_text(address as int, len) by {
                if self.is_text(address as int, len) {
                    assert(end > address + len);
                    assert(self.byte(address + len) != 0);
                }
            }
        }
        None
    }
}

/// A text has one length.
proof fn lemma_text_len_unique(image: Image, address: int, a: int, b: int)
    requires
        image.is_text(address, a),
        image.is_text(address, b),
    ensures
        a == b,
{
    if a < b {
        assert(image.byte(address + a) != 0);
    } else if b < a {
        assert(image.byte(address + b) != 0);
    }
}

/// Whether bytes spell a text of characters below 256, one byte for each.
pub open spec fn spells(bytes: Seq<u8>, text: Seq<char>) -> bool {
    &&& bytes.len() == text.len()
    &&& forall|i: int| 0 <= i < bytes.len() ==> (#[trigger] bytes[i]) as int == text[i] as int
}

/// Compares bytes with a text.
pub fn is_spelled(bytes: &[u8], text: &str) -> (equal: bool)
    ensures
        equal == spells(bytes@, text@),
{
    if bytes.len() != text.unicode_len() {
        return false;
    }
    let mut i: usize = 0;
    while i < bytes.len()
        invariant
            i <= bytes@.len(),
            bytes@.len() == text@.len(),
            forall|k: int| 0 <= k < i ==> (#[trigger] bytes@[k]) as int == text@[k] as int,
        decreases bytes@.len() - i,
    {
        if bytes[i] as u32 != text.get_char(i) as u32 {
            assert(bytes@[i as int] as int != text@[i as int] as int);
            return false;
        }
        i += 1;
    }
    true
}

} // verus!
