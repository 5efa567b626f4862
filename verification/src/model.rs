//! The data model: processes, memory regions, queries and candidates.

use vstd::prelude::*;

verus! {

/// One process of the target system, as it was when the process table was read.
/// The operating system may reuse `pid` later on.
#[derive(Clone, Debug, PartialEq, Eq)]
pub struct ProcessRef {
    pub pid: i32,
    pub command: String,
    pub exe: String,
}

/// Every way an operation of this library can fail.
#[derive(Clone, Copy, Debug, PartialEq, Eq, Structural)]
pub enum ErrorKind {
    /// The target process is gone.
    TargetUnavailable,
    /// The operating system refused access to the target.
    PermissionDenied,
    /// An address range is not inside what it is read from or written to.
    OutOfRange,
    /// The bytes could not be read: their region does not grant reading, the
    /// read failed, or it gave another number of bytes than it was asked for.
    Unreadable,
    /// A write was aimed at a region that is not writable.
    ReadOnlyRegion,
    /// A write stored fewer or more bytes than it was asked to.
    PartialWrite,
    /// The request makes no sense in the current state of the session.
    ProtocolViolation,
}

/// Access rights of a mapped region.
#[derive(Clone, Copy, Debug, PartialEq, Eq, Structural)]
pub struct Permissions {
    pub read: bool,
    pub write: bool,
    pub execute: bool,
}

/// What a mapped region is used for.
#[derive(Clone, Copy, Debug, PartialEq, Eq, Structural)]
pub enum RegionLabel {
    Heap,
    Stack,
    Anonymous,
    FileBacked,
    Other,
}

/// A contiguous address range mapped into a process: `start_address` is its
/// first byte, `end_address` the first byte behind it.
#[derive(Clone, Debug, PartialEq, Eq)]
pub struct MemoryRegion {
    pub start_address: u64,
    pub end_address: u64,
    pub permissions: Permissions,
    pub backing_path: Option<String>,
    pub label: RegionLabel,
}

impl MemoryRegion {
    /// A region is well formed when it holds at least one byte.
    pub open spec fn wf(&self) -> bool {
        self.start_address < self.end_address
    }

    /// The number of bytes in the region.
    pub open spec fn spec_size(&self) -> int {
        self.end_address - self.start_address
    }

    /// Whether the `length` bytes from `address` on all lie inside the region.
    /// The sum is taken in the integers, so a range that would run past the
    /// end of the address space is never inside.
    pub open spec fn covers(&self, address: u64, length: int) -> bool {
        self.start_address <= address && address + length <= self.end_address
    }

    /// Checks that the region holds at least one byte.
    pub fn is_well_formed(&self) -> (r: bool)
        ensures
            r == self.wf(),
    {
        self.start_address < self.end_address
    }

    /// The number of bytes in the region.
    pub fn size(&self) -> (r: u64)
        requires
            self.wf(),
        ensures
            r == self.spec_size(),
    {
        self.end_address - self.start_address
    }

    /// Whether the `length` bytes from `address` on all lie inside the region.
    pub fn contains_range(&self, address: u64, length: usize) -> (r: bool)
        ensures
            r == self.covers(address, length as int),
    {
        if address < self.start_address || address > self.end_address {
            false
        } else {
            let room: u64 = self.end_address - address;
            length as u64 <= room
        }
    }

    /// A copy of the region.
    pub fn duplicate(&self) -> (r: MemoryRegion)
        ensures
            r == *self,
    {
        let backing_path = match &self.backing_path {
            Some(path) => Some(path.clone()),
            None => None,
        };
        MemoryRegion {
            start_address: self.start_address,
            end_address: self.end_address,
            permissions: self.permissions,
            backing_path,
            label: self.label,
        }
    }
}

impl ProcessRef {
    /// A copy of the process entry.
    pub fn duplicate(&self) -> (r: ProcessRef)
        ensures
            r == *self,
    {
        ProcessRef { pid: self.pid, command: self.command.clone(), exe: self.exe.clone() }
    }
}

/// How the bytes of a number are laid out in memory.
#[derive(Clone, Copy, Debug, PartialEq, Eq, Structural)]
pub enum ByteOrder {
    /// Least significant byte first.
    Little,
    /// Most significant byte first.
    Big,
}

/// The type that a search reads at each address.
#[derive(Clone, Copy, Debug, PartialEq, Eq, Structural)]
pub enum DataType {
    Int8,
    Int16,
    Int32,
    Int64,
    UInt8,
    UInt16,
    UInt32,
    UInt64,
    Float32,
    Float64,
    /// A byte string of the given length.
    Bytes(usize),
}

impl DataType {
    /// The number of bytes that one value of the type takes.
    pub open spec fn spec_width(self) -> nat {
        match self {
            DataType::Int8 | DataType::UInt8 => 1,
            DataType::Int16 | DataType::UInt16 => 2,
            DataType::Int32 | DataType::UInt32 | DataType::Float32 => 4,
            DataType::Int64 | DataType::UInt64 | DataType::Float64 => 8,
            DataType::Bytes(n) => n as nat,
        }
    }

    /// The number of bytes that one value of the type takes.
    pub fn width(self) -> (w: usize)
        ensures
            w == self.spec_width(),
    {
        match self {
            DataType::Int8 | DataType::UInt8 => 1,
            DataType::Int16 | DataType::UInt16 => 2,
            DataType::Int32 | DataType::UInt32 | DataType::Float32 => 4,
            DataType::Int64 | DataType::UInt64 | DataType::Float64 => 8,
            DataType::Bytes(n) => n,
        }
    }
}

/// The comparison that decides whether an address stays a candidate.
#[derive(Clone, Copy, Debug, PartialEq, Eq, Structural)]
pub enum Predicate {
    Equal,
    NotEqual,
    Greater,
    Less,
    Changed,
    Unchanged,
}

/// Which offsets of a buffer a first scan looks at.
#[derive(Clone, Copy, Debug, PartialEq, Eq, Structural)]
pub enum Alignment {
    /// Only offsets that are multiples of the type's width.
    TypeAligned,
    /// Every offset.
    ByteAligned,
}

/// The value that a query compares against. A float is held as its bit
/// pattern.
#[derive(Clone, Debug, PartialEq, Eq)]
pub enum Literal {
    Integer(i128),
    Float32(u32),
    Float64(u64),
    Bytes(Vec<u8>),
}

/// One search pass: what to read at each address and how to judge it.
#[derive(Clone, Debug, PartialEq, Eq)]
pub struct SearchQuery {
    pub predicate: Predicate,
    pub data_type: DataType,
    pub literal: Option<Literal>,
    pub byte_order: ByteOrder,
    pub alignment: Alignment,
}

/// An address that has passed every filter so far, with the bytes that were
/// last read there.
#[derive(Clone, Debug, PartialEq, Eq)]
pub struct Candidate {
    pub address: u64,
    pub last_known_value: Vec<u8>,
    pub width: usize,
}

/// What a candidate stands for: an address and the bytes last seen there.
pub struct CandidateModel {
    pub address: u64,
    pub value: Seq<u8>,
}

impl View for Candidate {
    type V = CandidateModel;

    open spec fn view(&self) -> CandidateModel {
        CandidateModel { address: self.address, value: self.last_known_value@ }
    }
}

impl Candidate {
    /// A candidate is well formed when `width` is the number of bytes it holds
    /// and that number is not zero.
    pub open spec fn wf(&self) -> bool {
        self.width >= 1 && self.last_known_value@.len() == self.width
    }

    /// A copy of the candidate.
    pub fn duplicate(&self) -> (r: Candidate)
        ensures
            r@ == self@,
            r.width == self.width,
    {
        Candidate {
            address: self.address,
            last_known_value: vstd::slice::slice_to_vec(self.last_known_value.as_slice()),
            width: self.width,
        }
    }
}

/// The models of a sequence of candidates, in the same order.
pub open spec fn candidate_models(candidates: Seq<Candidate>) -> Seq<CandidateModel> {
    Seq::new(candidates.len(), |i: int| candidates[i]@)
}

/// Whether every candidate of the sequence is well formed.
pub open spec fn candidates_wf(candidates: Seq<Candidate>) -> bool {
    forall|i: int| 0 <= i < candidates.len() ==> (#[trigger] candidates[i]).wf()
}

/// Whether the addresses of a sequence of candidates strictly ascend.
pub open spec fn ascending(candidates: Seq<CandidateModel>) -> bool {
    forall|i: int, j: int|
        0 <= i < j < candidates.len() ==> (#[trigger] candidates[i]).address < (
        #[trigger] candidates[j]).address
}

/// Copies a list of process entries.
pub fn copy_processes(list: &[ProcessRef]) -> (r: Vec<ProcessRef>)
    ensures
        r@ == list@,
{
    let mut copy: Vec<ProcessRef> = Vec::new();
    let mut i: usize = 0;
    while i < list.len()
        invariant
            i <= list@.len(),
            copy@ == list@.subrange(0, i as int),
        decreases list@.len() - i,
    {
        copy.push(list[i].duplicate());
        assert(copy@ =~= list@.subrange(0, i + 1));
        i += 1;
    }
    assert(list@.subrange(0, list@.len() as int) =~= list@);
    copy
}

/// Copies a list of regions.
pub fn copy_regions(list: &[MemoryRegion]) -> (r: Vec<MemoryRegion>)
    ensures
        r@ == list@,
{
    let mut copy: Vec<MemoryRegion> = Vec::new();
    let mut i: usize = 0;
    while i < list.len()
        invariant
            i <= list@.len(),
            copy@ == list@.subrange(0, i as int),
        decreases list@.len() - i,
    {
        copy.push(list[i].duplicate());
        assert(copy@ =~= list@.subrange(0, i + 1));
        i += 1;
    }
    assert(list@.subrange(0, list@.len() as int) =~= list@);
    copy
}

/// Copies a list of candidates.
pub fn copy_candidates(list: &[Candidate]) -> (r: Vec<Candidate>)
    ensures
        candidate_models(r@) == candidate_models(list@),
        forall|i: int| 0 <= i < list@.len() ==> (#[trigger] r@[i]).width == list@[i].width,
        candidates_wf(list@) ==> candidates_wf(r@),
{
    let mut copy: Vec<Candidate> = Vec::new();
    let mut i: usize = 0;
    while i < list.len()
        invariant
            i <= list@.len(),
            copy@.len() == i,
            forall|k: int| 0 <= k < i ==> (#[trigger] copy@[k])@ == list@[k]@,
            forall|k: int| 0 <= k < i ==> (#[trigger] copy@[k]).width == list@[k].width,
        decreases list@.len() - i,
    {
        copy.push(list[i].duplicate());
        i += 1;
    }
    assert(candidate_models(copy@) =~= candidate_models(list@));
    assert forall|k: int| 0 <= k < copy@.len() && candidates_wf(list@) implies (
    #[trigger] copy@[k]).wf() by {
        assert(list@[k].wf());
        assert(copy@[k]@ == list@[k]@);
    }
    copy
}

} // verus!
