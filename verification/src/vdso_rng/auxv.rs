//! The auxiliary vector.

use super::constants::{at_null, AT_NULL};
use vstd::prelude::*;

verus! {

/// The most entries that are asked of the kernel.
pub const MAX_AUXV_ENTRIES: usize = 64;

/// An entry of the auxiliary vector.
#[derive(Debug, Clone, Copy, PartialEq, Eq, Structural)]
pub struct AuxvEntry {
    pub key: u64,
    pub value: u64,
}

/// How many entries there are before the one that ends the vector, or before the end
/// of the buffer.
pub open spec fn live_len(entries: Seq<AuxvEntry>) -> int
    decreases entries.len(),
{
    if entries.len() == 0 || entries[0].key == AT_NULL {
        0
    } else {
        1 + live_len(entries.skip(1))
    }
}

/// The auxiliary vector of a process.
pub struct Auxv(Vec<AuxvEntry>);

impl Auxv {
    /// The buffer that the kernel has filled.
    pub closed spec fn buffer(self) -> Seq<AuxvEntry> {
        self.0@
    }

    /// The entries before the one that ends the vector.
    pub open spec fn entries(self) -> Seq<AuxvEntry> {
        self.buffer().take(live_len(self.buffer()))
    }

    /// A buffer for the kernel to fill, with room for [`MAX_AUXV_ENTRIES`] entries.
    /// Whatever the kernel leaves alone ends the vector.
    pub fn blank() -> (buffer: Vec<AuxvEntry>)
        ensures
            buffer@ == Seq::new(
                MAX_AUXV_ENTRIES as nat,
                |i: int| AuxvEntry { key: AT_NULL as u64, value: AT_NULL as u64 },
            ),
            buffer@.len() == 64,
            forall|i: int|
                0 <= i < buffer@.len() ==> (#[trigger] buffer@[i]).key == 0 && buffer@[i].value
                    == 0,
    {
        let null: u64 = at_null() as u64;
        let mut buffer: Vec<AuxvEntry> = Vec::new();
        while buffer.len() < MAX_AUXV_ENTRIES
            invariant
                null == AT_NULL,
                buffer@.len() <= MAX_AUXV_ENTRIES,
                forall|i: int|
                    0 <= i < buffer@.len() ==> buffer@[i] == (AuxvEntry { key: null, value: null }),
            decreases MAX_AUXV_ENTRIES - buffer@.len(),
        {
            buffer.push(AuxvEntry { key: null, value: null });
        }
        buffer
    }

    /// The vector in a buffer that the kernel was asked to fill; `None` if the kernel
    /// has refused.
    pub fn new(filled: Option<Vec<AuxvEntry>>) -> (auxv: Option<Self>)
        ensures
            auxv is Some <==> filled is Some,
            auxv matches Some(auxv) ==> auxv.buffer() == filled->0@,
    {
        match filled {
            Some(buffer) => Some(Auxv(buffer)),
            None => None,
        }
    }

    /// Walks the entries.
    pub fn iter(&self) -> (iter: AuxvIter<'_>)
        ensures
            iter.buffer() == self.buffer(),
            iter.position() == 0,
    {
        AuxvIter::new(self.0.as_slice())
    }
}

/// A walk over the entries of an auxiliary vector.
pub struct AuxvIter<'a> {
    auxv: &'a [AuxvEntry],
    index: usize,
}

impl<'a> AuxvIter<'a> {
    /// The buffer that is walked.
    pub closed spec fn buffer(self) -> Seq<AuxvEntry> {
        self.auxv@
    }

    /// How many entries were handed out.
    pub closed spec fn position(self) -> int {
        self.index as int
    }

    fn new(auxv: &'a [AuxvEntry]) -> (iter: Self)
        ensures
            iter.buffer() == auxv@,
            iter.position() == 0,
    {
        AuxvIter { auxv, index: 0 }
    }

    /// Hands out the next entry, until the vector ends.
    pub fn next(&mut self) -> (entry: Option<AuxvEntry>)
        requires
            old(self).position() <= live_len(old(self).buffer()),
        ensures
            final(self).buffer() == old(self).buffer(),
            entry == (if old(self).position() < live_len(old(self).buffer()) {
                Some(old(self).buffer()[old(self).position()])
            } else {
                None::<AuxvEntry>
            }),
            final(self).position() == (if entry is Some {
                old(self).position() + 1
            } else {
                old(self).position()
            }),
    {
        proof {
            lemma_live_len(self.auxv@, self.index as int);
        }
        if self.index >= self.auxv.len() {
            return None;
        }
        let current: AuxvEntry = self.auxv[self.index];
        if current.key == at_null() as u64 {
            return None;
        }
        self.index += 1;
        Some(current)
    }
}

/// The vector ends at the first entry with the key zero.
pub proof fn lemma_live_len(entries: Seq<AuxvEntry>, i: int)
    ensures
        0 <= live_len(entries) <= entries.len(),
        0 <= i < live_len(entries) ==> entries[i].key != AT_NULL,
        live_len(entries) < entries.len() ==> entries[live_len(entries)].key == AT_NULL,
    decreases entries.len(),
{
    if entries.len() > 0 && entries[0].key != AT_NULL {
        lemma_live_len(entries.skip(1), i - 1);
    }
}

} // verus!
