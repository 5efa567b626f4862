//! Checked access to target memory: every read and write is held against the
//! regions last known before it is issued, and a write counts only when every
//! byte was stored.

use crate::model::{ErrorKind, MemoryRegion};
use vstd::prelude::*;

verus! {

/// What an access does to the target.
#[derive(Clone, Copy, Debug, PartialEq, Eq, Structural)]
pub enum AccessKind {
    Read,
    Write,
}

/// What to do about an access after it was held against the known regions.
#[derive(Clone, Copy, Debug, PartialEq, Eq, Structural)]
pub enum AccessPlan {
    /// Issue it; the region at this place of the list covers it.
    Proceed(usize),
    /// The known regions do not allow it, and they may be stale: list the
    /// regions again and decide anew.
    Refresh,
    /// The regions were listed again and still do not allow it.
    Fail(ErrorKind),
}

/// Whether `index` is the first place in `regions` whose region covers the
/// `length` bytes from `address` on.
pub open spec fn first_covering(
    regions: Seq<MemoryRegion>,
    address: u64,
    length: int,
    index: int,
) -> bool {
    &&& 0 <= index < regions.len()
    &&& regions[index].covers(address, length)
    &&& forall|j: int| 0 <= j < index ==> !(#[trigger] regions[j]).covers(address, length)
}

/// Whether no region of the list covers the range.
pub open spec fn uncovered(regions: Seq<MemoryRegion>, address: u64, length: int) -> bool {
    forall|j: int| 0 <= j < regions.len() ==> !(#[trigger] regions[j]).covers(address, length)
}

/// Whether a region grants what an access needs.
pub open spec fn permitted(region: MemoryRegion, kind: AccessKind) -> bool {
    match kind {
        AccessKind::Read => region.permissions.read,
        AccessKind::Write => region.permissions.write,
    }
}

/// The error for an access that a region does not grant.
pub open spec fn refusal(kind: AccessKind) -> ErrorKind {
    match kind {
        AccessKind::Read => ErrorKind::Unreadable,
        AccessKind::Write => ErrorKind::ReadOnlyRegion,
    }
}

/// Whether `outcome` is what the check of an access against `regions` gives:
/// the first region that covers the whole range, if it grants the access;
/// `OutOfRange` where no region covers the range; and where the first one
/// that does withholds the access, `Unreadable` for a read and
/// `ReadOnlyRegion` for a write.
pub open spec fn is_check_outcome(
    regions: Seq<MemoryRegion>,
    address: u64,
    length: int,
    kind: AccessKind,
    outcome: Result<usize, ErrorKind>,
) -> bool {
    match outcome {
        Ok(index) => first_covering(regions, address, length, index as int) && permitted(
            regions[index as int],
            kind,
        ),
        Err(e) => if uncovered(regions, address, length) {
            e == ErrorKind::OutOfRange
        } else {
            e == refusal(kind) && exists|index: int|
                first_covering(regions, address, length, index) && !permitted(regions[index], kind)
        },
    }
}

/// Why an access is not allowed by `regions`, or `None` where it is allowed.
pub open spec fn access_error(
    regions: Seq<MemoryRegion>,
    address: u64,
    length: int,
    kind: AccessKind,
) -> Option<ErrorKind> {
    if uncovered(regions, address, length) {
        Some(ErrorKind::OutOfRange)
    } else if exists|index: int|
        first_covering(regions, address, length, index) && permitted(regions[index], kind) {
        None
    } else {
        Some(refusal(kind))
    }
}

/// Finds the first region that covers the `length` bytes from `address` on.
pub fn locate(regions: &[MemoryRegion], address: u64, length: usize) -> (r: Option<usize>)
    ensures
        match r {
            Some(index) => first_covering(regions@, address, length as int, index as int),
            None => uncovered(regions@, address, length as int),
        },
{
    let mut i: usize = 0;
    while i < regions.len()
        invariant
            i <= regions@.len(),
            forall|j: int| 0 <= j < i ==> !(#[trigger] regions@[j]).covers(address, length as int),
        decreases regions@.len() - i,
    {
        if regions[i].contains_range(address, length) {
            return Some(i);
        }
        i += 1;
    }
    None
}

/// Holds an access against the known regions before it is issued.
pub fn check_access(regions: &[MemoryRegion], address: u64, length: usize, kind: AccessKind) -> (r:
    Result<usize, ErrorKind>)
    ensures
        is_check_outcome(regions@, address, length as int, kind, r),
        match r {
            Ok(_) => access_error(regions@, address, length as int, kind) is None,
            Err(e) => access_error(regions@, address, length as int, kind) == Some(e),
        },
{
    match locate(regions, address, length) {
        None => Err(ErrorKind::OutOfRange),
        Some(index) => {
            let granted = match kind {
                AccessKind::Read => regions[index].permissions.read,
                AccessKind::Write => regions[index].permissions.write,
            };
            if granted {
                Ok(index)
            } else {
                assert(first_covering(regions@, address, length as int, index as int));
                Err(
                    match kind {
                        AccessKind::Read => ErrorKind::Unreadable,
                        AccessKind::Write => ErrorKind::ReadOnlyRegion,
                    },
                )
            }
        },
    }
}

/// Decides what to do about an access. Where the known regions allow it, it
/// goes ahead. Where they do not, the regions are listed again once
/// (`refreshed` says whether that has happened), and only then the error is
/// final.
pub fn plan_access(
    regions: &[MemoryRegion],
    address: u64,
    length: usize,
    kind: AccessKind,
    refreshed: bool,
) -> (plan: AccessPlan)
    ensures
        match plan {
            AccessPlan::Proceed(index) => is_check_outcome(
                regions@,
                address,
                length as int,
                kind,
                Ok(index),
            ),
            AccessPlan::Refresh => !refreshed && exists|e: ErrorKind|
                is_check_outcome(regions@, address, length as int, kind, Err(e)),
            AccessPlan::Fail(e) => refreshed && is_check_outcome(
                regions@,
                address,
                length as int,
                kind,
                Err(e),
            ),
        },
        match plan {
            AccessPlan::Proceed(_) => access_error(regions@, address, length as int, kind) is None,
            AccessPlan::Refresh => !refreshed && access_error(
                regions@,
                address,
                length as int,
                kind,
            ) is Some,
            AccessPlan::Fail(e) => refreshed && access_error(regions@, address, length as int, kind)
                == Some(e),
        },
{
    match check_access(regions, address, length, kind) {
        Ok(index) => AccessPlan::Proceed(index),
        Err(e) => if refreshed {
            AccessPlan::Fail(e)
        } else {
            AccessPlan::Refresh
        },
    }
}

/// Judges what a write reported: it succeeded only if it stored exactly the
/// bytes it was asked to store. Anything else is a `PartialWrite`.
pub fn write_outcome(requested: usize, written: usize) -> (r: Result<usize, ErrorKind>)
    ensures
        r == if written == requested {
            Ok::<usize, ErrorKind>(requested)
        } else {
            Err::<usize, ErrorKind>(ErrorKind::PartialWrite)
        },
{
    if written == requested {
        Ok(requested)
    } else {
        Err(ErrorKind::PartialWrite)
    }
}

/// One region of a target together with the bytes it holds: a target that
/// lives in this process. Reads and writes on it obey the same checks as
/// those on a live target.
#[derive(Clone, Debug, PartialEq, Eq)]
pub struct MemoryImage {
    pub region: MemoryRegion,
    pub bytes: Vec<u8>,
}

/// `bytes` with `data` stored from `offset` on.
pub open spec fn overwritten(bytes: Seq<u8>, offset: int, data: Seq<u8>) -> Seq<u8> {
    bytes.subrange(0, offset) + data + bytes.subrange(offset + data.len(), bytes.len() as int)
}

/// Bytes that were written are read back as they were written, and the
/// bytes around them stay as they were.
pub proof fn lemma_write_then_read(bytes: Seq<u8>, offset: int, data: Seq<u8>)
    requires
        0 <= offset,
        offset + data.len() <= bytes.len(),
    ensures
        overwritten(bytes, offset, data).len() == bytes.len(),
        overwritten(bytes, offset, data).subrange(offset, offset + data.len()) == data,
        forall|i: int|
            0 <= i < bytes.len() && !(offset <= i < offset + data.len()) ==> overwritten(
                bytes,
                offset,
                data,
            )[i] == bytes[i],
{
    assert(overwritten(bytes, offset, data).subrange(offset, offset + data.len()) =~= data);
}

impl MemoryImage {
    /// An image is well formed when it holds one byte for each address of its
    /// region.
    pub open spec fn wf(&self) -> bool {
        self.region.wf() && self.bytes@.len() == self.region.spec_size()
    }

    /// What reading `length` bytes at `address` gives.
    pub open spec fn read_result(&self, address: u64, length: int) -> Result<Seq<u8>, ErrorKind> {
        if !self.region.covers(address, length) {
            Err(ErrorKind::OutOfRange)
        } else if !self.region.permissions.read {
            Err(ErrorKind::Unreadable)
        } else {
            Ok(
                self.bytes@.subrange(
                    address - self.region.start_address,
                    address - self.region.start_address + length,
                ),
            )
        }
    }

    /// What writing `data` at `address` gives: the bytes of the image
    /// afterwards, or why nothing was written.
    pub open spec fn write_result(&self, address: u64, data: Seq<u8>) -> Result<
        Seq<u8>,
        ErrorKind,
    > {
        if !self.region.covers(address, data.len() as int) {
            Err(ErrorKind::OutOfRange)
        } else if !self.region.permissions.write {
            Err(ErrorKind::ReadOnlyRegion)
        } else {
            Ok(overwritten(self.bytes@, address - self.region.start_address, data))
        }
    }

    /// Reads `length` bytes at `address`.
    pub fn read(&self, address: u64, length: usize) -> (r: Result<Vec<u8>, ErrorKind>)
        requires
            self.wf(),
        ensures
            match r {
                Ok(bytes) => self.read_result(address, length as int) == Ok::<Seq<u8>, ErrorKind>(
                    bytes@,
                ),
                Err(e) => self.read_result(address, length as int) == Err::<Seq<u8>, ErrorKind>(e),
            },
    {
        if !self.region.contains_range(address, length) {
            return Err(ErrorKind::OutOfRange);
        }
        if !self.region.permissions.read {
            return Err(ErrorKind::Unreadable);
        }
        let total: usize = self.bytes.len();
        assert(address - self.region.start_address + length <= total);
        let offset: usize = (address - self.region.start_address) as usize;
        let slice = vstd::slice::slice_subrange(self.bytes.as_slice(), offset, offset + length);
        Ok(vstd::slice::slice_to_vec(slice))
    }

    /// Writes `data` at `address` and returns the number of bytes written,
    /// which is all of them. A write that is refused changes nothing.
    pub fn write(&mut self, address: u64, data: &[u8]) -> (r: Result<usize, ErrorKind>)
        requires
            old(self).wf(),
        ensures
            final(self).wf(),
            final(self).region == old(self).region,
            match r {
                Ok(written) => written == data@.len() && old(self).write_result(address, data@)
                    == Ok::<Seq<u8>, ErrorKind>(final(self).bytes@),
                Err(e) => old(self).write_result(address, data@) == Err::<Seq<u8>, ErrorKind>(e)
                    && final(self).bytes == old(self).bytes,
            },
    {
        if !self.region.contains_range(address, data.len()) {
            return Err(ErrorKind::OutOfRange);
        }
        if !self.region.permissions.write {
            return Err(ErrorKind::ReadOnlyRegion);
        }
        let total: usize = self.bytes.len();
        assert(address - self.region.start_address + data@.len() <= total);
        let offset: usize = (address - self.region.start_address) as usize;
        let ghost before = self.bytes@;
        let mut i: usize = 0;
        while i < data.len()
            invariant
                i <= data@.len(),
                offset + data@.len() <= total,
                total == before.len(),
                self.bytes@.len() == before.len(),
                self.region == old(self).region,
                before == old(self).bytes@,
                forall|k: int|
                    0 <= k < before.len() ==> self.bytes@[k] == if offset <= k < offset + i {
                        data@[k - offset]
                    } else {
                        before[k]
                    },
            decreases data@.len() - i,
        {
            self.bytes.set(offset + i, data[i]);
            i += 1;
        }
        assert(self.bytes@ =~= overwritten(before, offset as int, data@));
        Ok(data.len())
    }
}

/// On a region that may be read and written, bytes that were written in
/// range are read back as they were written.
pub proof fn lemma_round_trip(image: MemoryImage, address: u64, data: Seq<u8>, after: MemoryImage)
    requires
        image.wf(),
        image.region.covers(address, data.len() as int),
        image.region.permissions.write,
        image.region.permissions.read,
        after.region == image.region,
        image.write_result(address, data) == Ok::<Seq<u8>, ErrorKind>(after.bytes@),
    ensures
        after.wf(),
        after.read_result(address, data.len() as int) == Ok::<Seq<u8>, ErrorKind>(data),
{
    lemma_write_then_read(image.bytes@, address - image.region.start_address, data);
}

} // verus!
