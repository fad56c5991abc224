//! Plain-value records for one loaded object, as the platform loader
//! reports it: the raw name, the base address and the program segment
//! headers. The platform layer fills these records in; everything that
//! reads them is verified here.

use vstd::prelude::*;

verus! {

/// Permission bit of an executable segment in an ELF program header.
pub const PF_X: u32 = 1;

/// Permission bit of a writable segment in an ELF program header.
pub const PF_W: u32 = 2;

/// Permission bit of a readable segment in an ELF program header.
pub const PF_R: u32 = 4;

/// The permission word of one segment, as the loader reports it.
#[derive(Clone, Copy, PartialEq, Eq, Structural)]
pub struct SegmentFlags(pub u32);

impl SegmentFlags {
    /// The segment may be executed.
    pub open spec fn spec_has_x(self) -> bool {
        self.0 & PF_X != 0
    }

    /// The segment may be read.
    pub open spec fn spec_has_r(self) -> bool {
        self.0 & PF_R != 0
    }

    /// The segment may be written.
    pub open spec fn spec_has_w(self) -> bool {
        self.0 & PF_W != 0
    }

    /// The flags are exactly read-and-execute: equal to the union of the
    /// two permission bits, not merely containing both.
    pub open spec fn spec_is_rx(self) -> bool {
        self.0 == PF_R | PF_X
    }

    /// The flag word with only the executable bit set.
    pub fn executable() -> (r: SegmentFlags)
        ensures
            r.0 == PF_X,
    {
        SegmentFlags(PF_X)
    }

    /// The flag word with only the writable bit set.
    pub fn writable() -> (r: SegmentFlags)
        ensures
            r.0 == PF_W,
    {
        SegmentFlags(PF_W)
    }

    /// The flag word with only the readable bit set.
    pub fn readable() -> (r: SegmentFlags)
        ensures
            r.0 == PF_R,
    {
        SegmentFlags(PF_R)
    }

    /// The bitwise union of two flag words.
    pub fn union(self, other: SegmentFlags) -> (r: SegmentFlags)
        ensures
            r.0 == self.0 | other.0,
    {
        SegmentFlags(self.0 | other.0)
    }

    /// Exact equality of two flag words.
    pub fn is(&self, other: &SegmentFlags) -> (r: bool)
        ensures
            r == (self.0 == other.0),
    {
        self.0 == other.0
    }

    /// Do the two flag words share any bit?
    pub fn contains(&self, other: &SegmentFlags) -> (r: bool)
        ensures
            r == (self.0 & other.0 != 0),
    {
        (self.0 & other.0) != 0
    }

    /// Is the executable bit set?
    pub fn is_executable(&self) -> (r: bool)
        ensures
            r == self.spec_has_x(),
    {
        (self.0 & PF_X) != 0
    }

    /// Is the writable bit set?
    pub fn is_writable(&self) -> (r: bool)
        ensures
            r == self.spec_has_w(),
    {
        (self.0 & PF_W) != 0
    }

    /// Is the readable bit set?
    pub fn is_readable(&self) -> (r: bool)
        ensures
            r == self.spec_has_r(),
    {
        (self.0 & PF_R) != 0
    }
}

/// `spec_is_rx` is an exact-match test: it demands read and execute and
/// rules out every other bit, the writable bit first of all.
pub proof fn lemma_is_rx_exact(f: SegmentFlags)
    ensures
        f.spec_is_rx() ==> f.spec_has_r() && f.spec_has_x() && !f.spec_has_w(),
        f.spec_has_w() ==> !f.spec_is_rx(),
        f.0 == PF_R | PF_X ==> f.spec_is_rx(),
{
    let w = f.0;
    assert(w == 4u32 | 1u32 ==> (w & 4u32 != 0 && w & 1u32 != 0 && w & 2u32 == 0))
        by (bit_vector);
}

/// Flag union is an associative bitwise operation over the permission
/// bits, so grouping never matters when permissions are combined.
pub proof fn lemma_union_associative(a: SegmentFlags, b: SegmentFlags, c: SegmentFlags)
    ensures
        (a.0 | b.0) | c.0 == a.0 | (b.0 | c.0),
{
    let (x, y, z) = (a.0, b.0, c.0);
    assert((x | y) | z == x | (y | z)) by (bit_vector);
}

/// One ELF program segment header, reduced to the three fields the
/// inspection logic reads: virtual address, size in memory and flags.
#[derive(Clone, Copy)]
pub struct ElfSegmentHeader {
    /// Virtual address of the segment, relative to the object's base.
    pub p_vaddr: usize,
    /// Size of the segment in memory, in bytes.
    pub p_memsz: usize,
    /// Permission flags of the segment.
    pub p_flags: u32,
}

impl ElfSegmentHeader {
    /// Builds a header record from the three fields of interest.
    pub fn new(p_vaddr: usize, p_memsz: usize, p_flags: u32) -> (r: ElfSegmentHeader)
        ensures
            r.p_vaddr == p_vaddr,
            r.p_memsz == p_memsz,
            r.p_flags == p_flags,
    {
        ElfSegmentHeader { p_vaddr, p_memsz, p_flags }
    }

    /// The segment's virtual address.
    pub fn virtual_addr(&self) -> (r: usize)
        ensures
            r == self.p_vaddr,
    {
        self.p_vaddr
    }

    /// The segment's permission flags.
    pub fn flags(&self) -> (r: SegmentFlags)
        ensures
            r.0 == self.p_flags,
    {
        SegmentFlags(self.p_flags)
    }

    /// The segment's size in memory.
    pub fn size(&self) -> (r: usize)
        ensures
            r == self.p_memsz,
    {
        self.p_memsz
    }
}

/// The mathematical content of one loaded-object record.
pub ghost struct ObjectView {
    /// The raw name, as a byte string; empty for the main program.
    pub name: Seq<u8>,
    /// The base address the object is loaded at.
    pub base_addr: usize,
    /// The object's segment headers.
    pub headers: Seq<ElfSegmentHeader>,
}

/// One loaded object, as the platform traversal reports it: raw name,
/// base address and segment headers, held as plain values.
pub struct UnixObject {
    name: Vec<u8>,
    base_addr: usize,
    headers: Vec<ElfSegmentHeader>,
}

impl View for UnixObject {
    type V = ObjectView;

    closed spec fn view(&self) -> ObjectView {
        ObjectView { name: self.name@, base_addr: self.base_addr, headers: self.headers@ }
    }
}

impl DeepView for UnixObject {
    type V = ObjectView;

    open spec fn deep_view(&self) -> ObjectView {
        self.view()
    }
}

impl UnixObject {
    /// Builds the record for one loaded object from the values the
    /// platform traversal read out of the loader.
    pub fn new(name: Vec<u8>, base_addr: usize, headers: Vec<ElfSegmentHeader>) -> (r:
        UnixObject)
        ensures
            r@.name == name@,
            r@.base_addr == base_addr,
            r@.headers == headers@,
    {
        UnixObject { name, base_addr, headers }
    }

    /// The loader reports the main program with an empty raw name.
    pub fn is_main_program(&self) -> (r: bool)
        ensures
            r == (self@.name.len() == 0),
    {
        self.name.len() == 0
    }

    /// The base address the object is loaded at.
    pub fn base_addr(&self) -> (r: usize)
        ensures
            r == self@.base_addr,
    {
        self.base_addr
    }

    /// The object's raw name.
    pub fn name(&self) -> (r: &Vec<u8>)
        ensures
            r@ == self@.name,
    {
        &self.name
    }

    /// How many segment headers the object has.
    pub fn n_headers(&self) -> (r: usize)
        ensures
            r == self@.headers.len(),
    {
        self.headers.len()
    }

    /// The object's segment headers.
    pub fn headers(&self) -> (r: &Vec<ElfSegmentHeader>)
        ensures
            r@ == self@.headers,
    {
        &self.headers
    }
}

} // verus!
