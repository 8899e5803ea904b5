//! The dumped code section, plus address translation.
//!
//! The dump is raw bytes with no PE header: byte 0 is the first byte of the
//! section, which lived at `base` in the running process. Every address here
//! is a runtime virtual address, so it compares directly against a debugger.

use vstd::prelude::*;
use vstd::slice::slice_subrange;

verus! {

pub struct Image {
    pub base: u64,
    pub bytes: Vec<u8>,
}

impl Image {
    /// The section's addresses fit in 64 bits.
    pub open spec fn wf(&self) -> bool {
        self.base + self.bytes@.len() <= u64::MAX
    }

    pub open spec fn end_spec(&self) -> int {
        self.base + self.bytes@.len()
    }

    /// Whether `va` is an address of the section.
    pub open spec fn holds(&self, va: int) -> bool {
        self.base <= va < self.end_spec()
    }

    /// The address just past the section.
    pub fn end(&self) -> (r: u64)
        requires
            self.wf(),
        ensures
            r == self.end_spec(),
    {
        self.base + self.bytes.len() as u64
    }

    pub fn contains(&self, va: u64) -> (r: bool)
        requires
            self.wf(),
        ensures
            r == self.holds(va as int),
    {
        self.base <= va && va < self.end()
    }

    /// Where `va` lies in the dump.
    pub fn offset_of(&self, va: u64) -> (r: Option<usize>)
        requires
            self.wf(),
        ensures
            match r {
                Some(o) => self.holds(va as int) && o == va - self.base,
                None => !self.holds(va as int),
            },
    {
        if self.contains(va) {
            assert(va - self.base < self.bytes.len());
            Some((va - self.base) as usize)
        } else {
            None
        }
    }

    /// Bytes from `va` to the end of the section.
    pub fn from(&self, va: u64) -> (r: Option<&[u8]>)
        requires
            self.wf(),
        ensures
            match r {
                Some(b) => self.holds(va as int) && b@ == self.bytes@.skip(va - self.base),
                None => !self.holds(va as int),
            },
    {
        match self.offset_of(va) {
            Some(o) => {
                let b = slice_subrange(self.bytes.as_slice(), o, self.bytes.len());
                assert(b@ =~= self.bytes@.skip(va - self.base));
                Some(b)
            },
            None => None,
        }
    }

    /// At most `len` bytes starting at `va`.
    pub fn slice(&self, va: u64, len: usize) -> (r: Option<&[u8]>)
        requires
            self.wf(),
            self.holds(va as int) ==> va - self.base + len <= usize::MAX,
        ensures
            match r {
                Some(b) => self.holds(va as int) && b@ == self.bytes@.subrange(
                    va - self.base,
                    if va - self.base + len < self.bytes@.len() {
                        va - self.base + len
                    } else {
                        self.bytes@.len() as int
                    },
                ),
                None => !self.holds(va as int),
            },
    {
        let offset = match self.offset_of(va) {
            Some(o) => o,
            None => {
                return None;
            },
        };
        let wanted = offset + len;
        let end = if wanted < self.bytes.len() {
            wanted
        } else {
            self.bytes.len()
        };
        Some(slice_subrange(self.bytes.as_slice(), offset, end))
    }
}

} // verus!
