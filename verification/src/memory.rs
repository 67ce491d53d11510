//! A flat simulated address space: byte ranges placed at absolute virtual
//! addresses, each tagged with permission flags.

use vstd::prelude::*;

verus! {

/// No access.
pub const PERM_NONE: u32 = 0;
/// The range may be read.
pub const PERM_READ: u32 = 1;
/// The range may be written.
pub const PERM_WRITE: u32 = 2;
/// The range may be executed.
pub const PERM_EXECUTE: u32 = 4;

/// The mathematical value of a `MemorySegment`.
#[verifier::ext_equal]
pub ghost struct SegmentView {
    pub address: u64,
    pub bytes: Seq<u8>,
    pub permissions: u32,
}

/// A contiguous byte range at an absolute virtual address, immutable once
/// constructed.
#[derive(Debug)]
pub struct MemorySegment {
    /// The base address.
    pub address: u64,
    /// The contents.
    pub bytes: Vec<u8>,
    /// The permission flags.
    pub permissions: u32,
}

impl View for MemorySegment {
    type V = SegmentView;

    open spec fn view(&self) -> SegmentView {
        SegmentView { address: self.address, bytes: self.bytes@, permissions: self.permissions }
    }
}

impl MemorySegment {
    /// Builds a segment from its base address, contents and permissions.
    pub fn new(address: u64, bytes: Vec<u8>, permissions: u32) -> (r: MemorySegment)
        ensures
            r@ == (SegmentView { address, bytes: bytes@, permissions }),
    {
        MemorySegment { address, bytes, permissions }
    }

    /// The base address of this segment.
    pub fn address(&self) -> (r: u64)
        ensures
            r == self@.address,
    {
        self.address
    }

    /// The bytes this segment holds.
    pub fn bytes(&self) -> (r: &Vec<u8>)
        ensures
            r@ == self@.bytes,
    {
        &self.bytes
    }

    /// The permission flags of this segment.
    pub fn permissions(&self) -> (r: u32)
        ensures
            r == self@.permissions,
    {
        self.permissions
    }

    /// The number of bytes this segment holds.
    pub fn len(&self) -> (r: usize)
        ensures
            r == self@.bytes.len(),
    {
        self.bytes.len()
    }

    /// An independent copy of this segment.
    pub fn duplicate(&self) -> (r: MemorySegment)
        ensures
            r@ == self@,
    {
        let mut bytes: Vec<u8> = Vec::new();
        let mut i: usize = 0;
        while i < self.bytes.len()
            invariant
                i <= self.bytes.len(),
                bytes@ == self.bytes@.take(i as int),
            decreases self.bytes.len() - i,
        {
            bytes.push(self.bytes[i]);
            i = i + 1;
        }
        proof {
            assert(bytes@ =~= self.bytes@);
        }
        MemorySegment { address: self.address, bytes, permissions: self.permissions }
    }
}

/// An ordered collection of memory segments. Overlapping segments are
/// permitted: this layer enforces no overlap policy, callers resolve overlap
/// themselves.
#[derive(Debug)]
pub struct Memory {
    /// The segments, in the order they were added.
    pub segments: Vec<MemorySegment>,
}

impl View for Memory {
    type V = Seq<SegmentView>;

    open spec fn view(&self) -> Seq<SegmentView> {
        self.segments@.map(|i: int, s: MemorySegment| s@)
    }
}

impl Memory {
    /// An empty address space.
    pub fn new() -> (r: Memory)
        ensures
            r@ == Seq::<SegmentView>::empty(),
    {
        let m = Memory { segments: Vec::new() };
        proof {
            assert(m@ =~= Seq::<SegmentView>::empty());
        }
        m
    }

    /// Appends a segment. No constraint checking and no overlap resolution is
    /// performed, and there is no removal operation.
    pub fn add_segment(&mut self, segment: MemorySegment)
        ensures
            final(self)@ == old(self)@.push(segment@),
    {
        self.segments.push(segment);
        proof {
            assert(self@ =~= old(self)@.push(segment@));
        }
    }

    /// The segments of this address space, in the order they were added.
    pub fn segments(&self) -> (r: &Vec<MemorySegment>)
        ensures
            r@.map(|i: int, s: MemorySegment| s@) == self@,
    {
        &self.segments
    }

    /// The number of segments.
    pub fn len(&self) -> (r: usize)
        ensures
            r == self@.len(),
    {
        self.segments.len()
    }

    /// An independent copy of this address space.
    pub fn duplicate(&self) -> (r: Memory)
        ensures
            r@ == self@,
    {
        let mut segments: Vec<MemorySegment> = Vec::new();
        let mut i: usize = 0;
        while i < self.segments.len()
            invariant
                i <= self.segments.len(),
                segments@.map(|j: int, s: MemorySegment| s@)
                    =~= self.segments@.map(|j: int, s: MemorySegment| s@).take(i as int),
            decreases self.segments.len() - i,
        {
            let ghost prev = segments@;
            segments.push(self.segments[i].duplicate());
            proof {
                assert(segments@.map(|j: int, s: MemorySegment| s@)
                    =~= prev.map(|j: int, s: MemorySegment| s@).push(segments@.last()@));
            }
            i = i + 1;
        }
        let m = Memory { segments };
        proof {
            assert(m@ =~= self@);
        }
        m
    }
}

} // verus!
