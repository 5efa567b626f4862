//! Captured copies of a region: how one is put together from bounded reads,
//! how the store keeps the newest two, and how two of them are compared.

use crate::model::{ErrorKind, MemoryRegion};
use vstd::prelude::*;

verus! {

/// The largest number of bytes that one read of a capture asks for.
pub const CAPTURE_WINDOW: usize = 0x100_0000;

/// Whether a byte differs between two snapshots.
#[derive(Clone, Copy, Debug, PartialEq, Eq, Structural)]
pub enum Classification {
    Changed,
    Unchanged,
}

/// What a snapshot holds.
pub struct SnapshotModel {
    pub region: MemoryRegion,
    pub bytes: Seq<u8>,
    pub capture_time: u64,
}

/// A copy of the bytes of one region, taken at one time. It never changes
/// after it was made.
#[derive(Debug, PartialEq, Eq)]
pub struct MemorySnapshot {
    region: MemoryRegion,
    bytes: Vec<u8>,
    capture_time: u64,
}

impl View for MemorySnapshot {
    type V = SnapshotModel;

    closed spec fn view(&self) -> SnapshotModel {
        SnapshotModel {
            region: self.region,
            bytes: self.bytes@,
            capture_time: self.capture_time,
        }
    }
}

impl MemorySnapshot {
    /// Makes a snapshot of `region` from the bytes read there at
    /// `capture_time`.
    pub fn new(region: MemoryRegion, bytes: Vec<u8>, capture_time: u64) -> (r: MemorySnapshot)
        ensures
            r@ == (SnapshotModel { region, bytes: bytes@, capture_time }),
    {
        MemorySnapshot { region, bytes, capture_time }
    }

    /// The region that was captured.
    pub fn region(&self) -> (r: &MemoryRegion)
        ensures
            *r == self@.region,
    {
        &self.region
    }

    /// The bytes that were captured.
    pub fn bytes(&self) -> (r: &[u8])
        ensures
            r@ == self@.bytes,
    {
        self.bytes.as_slice()
    }

    /// When the capture was made.
    pub fn capture_time(&self) -> (r: u64)
        ensures
            r == self@.capture_time,
    {
        self.capture_time
    }
}

/// Whether the byte at `offset` differs between `old` and `new`.
pub open spec fn classify(old: Seq<u8>, new: Seq<u8>, offset: int) -> Classification {
    if old[offset] == new[offset] {
        Classification::Unchanged
    } else {
        Classification::Changed
    }
}

/// Whether every offset of the list lies inside both byte strings.
pub open spec fn offsets_inside(old: Seq<u8>, new: Seq<u8>, offsets: Seq<usize>) -> bool {
    forall|i: int|
        0 <= i < offsets.len() ==> (#[trigger] offsets[i]) < old.len() && offsets[i] < new.len()
}

/// Compares two snapshots byte by byte at the given offsets and says for each
/// whether the byte changed.
///
/// Fails with `OutOfRange` exactly when an offset lies outside one of the
/// snapshots.
pub fn diff(old: &MemorySnapshot, new: &MemorySnapshot, offsets: &[usize]) -> (r: Result<
    Vec<Classification>,
    ErrorKind,
>)
    ensures
        match r {
            Ok(classes) => {
                &&& offsets_inside(old@.bytes, new@.bytes, offsets@)
                &&& classes@.len() == offsets@.len()
                &&& forall|i: int|
                    0 <= i < offsets@.len() ==> #[trigger] classes@[i] == classify(
                        old@.bytes,
                        new@.bytes,
                        offsets@[i] as int,
                    )
            },
            Err(e) => !offsets_inside(old@.bytes, new@.bytes, offsets@) && e
                == ErrorKind::OutOfRange,
        },
{
    let mut classes: Vec<Classification> = Vec::new();
    let mut i: usize = 0;
    while i < offsets.len()
        invariant
            i <= offsets@.len(),
            classes@.len() == i,
            forall|k: int|
                0 <= k < i ==> (#[trigger] offsets@[k]) < old@.bytes.len() && offsets@[k]
                    < new@.bytes.len(),
            forall|k: int|
                0 <= k < i ==> #[trigger] classes@[k] == classify(
                    old@.bytes,
                    new@.bytes,
                    offsets@[k] as int,
                ),
        decreases offsets@.len() - i,
    {
        let offset: usize = offsets[i];
        if offset >= old.bytes.len() || offset >= new.bytes.len() {
            return Err(ErrorKind::OutOfRange);
        }
        if old.bytes[offset] == new.bytes[offset] {
            classes.push(Classification::Unchanged);
        } else {
            classes.push(Classification::Changed);
        }
        i += 1;
    }
    Ok(classes)
}

/// The newest snapshot of a session and the one before it. Older ones are
/// dropped, so at most two are alive.
#[derive(Debug, PartialEq, Eq)]
pub struct SnapshotStore {
    current: Option<MemorySnapshot>,
    previous: Option<MemorySnapshot>,
}

impl SnapshotStore {
    /// The newest snapshot, if there is one.
    pub closed spec fn current_model(&self) -> Option<SnapshotModel> {
        match self.current {
            Some(snapshot) => Some(snapshot@),
            None => None,
        }
    }

    /// The snapshot before the newest, if there is one.
    pub closed spec fn previous_model(&self) -> Option<SnapshotModel> {
        match self.previous {
            Some(snapshot) => Some(snapshot@),
            None => None,
        }
    }

    /// The number of snapshots that are alive.
    pub open spec fn spec_live(&self) -> nat {
        (if self.current_model() is Some {
            1nat
        } else {
            0nat
        }) + (if self.previous_model() is Some {
            1nat
        } else {
            0nat
        })
    }

    /// A store without snapshots.
    pub fn new() -> (r: SnapshotStore)
        ensures
            r.current_model() is None,
            r.previous_model() is None,
    {
        SnapshotStore { current: None, previous: None }
    }

    /// Takes in a new snapshot. It becomes the current one; the one that was
    /// current becomes the previous one; the one that was previous is dropped.
    pub fn capture(&mut self, snapshot: MemorySnapshot)
        ensures
            final(self).current_model() == Some(snapshot@),
            final(self).previous_model() == old(self).current_model(),
            final(self).spec_live() <= 2,
    {
        let demoted = self.current.take();
        self.previous = demoted;
        self.current = Some(snapshot);
    }

    /// Drops every snapshot.
    pub fn release(&mut self)
        ensures
            final(self).current_model() is None,
            final(self).previous_model() is None,
    {
        self.current = None;
        self.previous = None;
    }

    /// The newest snapshot, if there is one.
    pub fn current(&self) -> (r: Option<&MemorySnapshot>)
        ensures
            match r {
                Some(snapshot) => self.current_model() == Some(snapshot@),
                None => self.current_model() is None,
            },
    {
        self.current.as_ref()
    }

    /// The snapshot before the newest, if there is one.
    pub fn previous(&self) -> (r: Option<&MemorySnapshot>)
        ensures
            match r {
                Some(snapshot) => self.previous_model() == Some(snapshot@),
                None => self.previous_model() is None,
            },
    {
        self.previous.as_ref()
    }

    /// The number of snapshots that are alive: never more than two.
    pub fn live(&self) -> (r: usize)
        ensures
            r == self.spec_live(),
            r <= 2,
    {
        let newest: usize = if self.current.is_some() {
            1
        } else {
            0
        };
        let older: usize = if self.previous.is_some() {
            1
        } else {
            0
        };
        newest + older
    }
}

/// The read that comes next in a capture of `region` of which `filled`
/// bytes were read already, as an address and a number of bytes: it starts
/// where the last one ended and asks for what is left of the region, but for
/// no more than `window` bytes. There is none when nothing is left.
pub open spec fn next_read(region: MemoryRegion, filled: int, window: int) -> Option<(u64, usize)> {
    let left = region.spec_size() - filled;
    if left <= 0 {
        None
    } else {
        Some(
            (
                (region.start_address + filled) as u64,
                (if left < window {
                    left
                } else {
                    window
                }) as usize,
            ),
        )
    }
}

/// A capture in progress: the bytes of a region, read front to back in
/// pieces of bounded size.
#[derive(Debug, PartialEq, Eq)]
pub struct Capture {
    region: MemoryRegion,
    window: usize,
    bytes: Vec<u8>,
}

impl Capture {
    /// The region that is being captured.
    pub closed spec fn region(&self) -> MemoryRegion {
        self.region
    }

    /// The largest number of bytes that one read asks for.
    pub closed spec fn window(&self) -> nat {
        self.window as nat
    }

    /// The bytes that were read so far.
    pub closed spec fn filled(&self) -> Seq<u8> {
        self.bytes@
    }

    /// A capture is well formed when its region is, its reads ask for at
    /// least one byte, and it holds no more bytes than the region has.
    pub open spec fn wf(&self) -> bool {
        &&& self.region().wf()
        &&& self.window() >= 1
        &&& self.filled().len() <= self.region().spec_size()
        &&& self.region().spec_size() <= usize::MAX
    }

    /// Whether every byte of the region was read.
    pub open spec fn complete(&self) -> bool {
        self.filled().len() == self.region().spec_size()
    }

    /// The read that comes next, or `None` when the capture is complete.
    pub open spec fn spec_next(&self) -> Option<(u64, usize)> {
        next_read(self.region(), self.filled().len() as int, self.window() as int)
    }

    /// Starts a capture of `region` with reads of at most `window` bytes.
    ///
    /// A region without bytes or a window of zero is a `ProtocolViolation`;
    /// a region too large for one buffer on this machine is `OutOfRange`.
    pub fn begin(region: MemoryRegion, window: usize) -> (r: Result<Capture, ErrorKind>)
        ensures
            match r {
                Ok(capture) => {
                    &&& capture.wf()
                    &&& capture.region() == region
                    &&& capture.window() == window
                    &&& capture.filled() == Seq::<u8>::empty()
                },
                Err(e) => if !region.wf() || window == 0 {
                    e == ErrorKind::ProtocolViolation
                } else {
                    region.spec_size() > usize::MAX && e == ErrorKind::OutOfRange
                },
            },
    {
        if !region.is_well_formed() || window == 0 {
            return Err(ErrorKind::ProtocolViolation);
        }
        if region.size() > usize::MAX as u64 {
            return Err(ErrorKind::OutOfRange);
        }
        Ok(Capture { region, window, bytes: Vec::new() })
    }

    /// The read that comes next, or `None` when the capture is complete.
    pub fn next_chunk(&self) -> (r: Option<(u64, usize)>)
        requires
            self.wf(),
        ensures
            r == self.spec_next(),
            r matches Some((_, length)) ==> 1 <= length <= self.window(),
    {
        let size: u64 = self.region.size();
        let filled: u64 = self.bytes.len() as u64;
        if filled == size {
            None
        } else {
            let left: u64 = size - filled;
            let length: usize = if left < self.window as u64 {
                left as usize
            } else {
                self.window
            };
            Some((self.region.start_address + filled, length))
        }
    }

    /// Takes in the bytes that the next read gave and says whether the
    /// capture is now complete.
    ///
    /// A capture that is complete already takes no more bytes: that is a
    /// `ProtocolViolation`. A read that gave another number of bytes than it
    /// was asked for is `Unreadable`. Either way the capture stays as it was.
    pub fn accept(&mut self, chunk: Vec<u8>) -> (r: Result<bool, ErrorKind>)
        requires
            old(self).wf(),
        ensures
            final(self).wf(),
            final(self).region() == old(self).region(),
            final(self).window() == old(self).window(),
            match r {
                Ok(done) => {
                    &&& old(self).spec_next() matches Some((_, length)) && length == chunk@.len()
                    &&& final(self).filled() == old(self).filled() + chunk@
                    &&& done == final(self).complete()
                },
                Err(e) => {
                    &&& final(self).filled() == old(self).filled()
                    &&& match old(self).spec_next() {
                        None => e == ErrorKind::ProtocolViolation,
                        Some((_, length)) => length != chunk@.len() && e == ErrorKind::Unreadable,
                    }
                },
            },
    {
        match self.next_chunk() {
            None => Err(ErrorKind::ProtocolViolation),
            Some((_, length)) => {
                if chunk.len() != length {
                    return Err(ErrorKind::Unreadable);
                }
                let mut chunk = chunk;
                self.bytes.append(&mut chunk);
                let size: u64 = self.region.size();
                Ok(self.bytes.len() as u64 == size)
            },
        }
    }

    /// Turns a complete capture into a snapshot taken at `capture_time`.
    ///
    /// A capture that is not complete is a `ProtocolViolation`.
    pub fn finish(self, capture_time: u64) -> (r: Result<MemorySnapshot, ErrorKind>)
        requires
            self.wf(),
        ensures
            match r {
                Ok(snapshot) => self.complete() && snapshot@ == (SnapshotModel {
                    region: self.region(),
                    bytes: self.filled(),
                    capture_time,
                }),
                Err(e) => !self.complete() && e == ErrorKind::ProtocolViolation,
            },
    {
        let size: u64 = self.region.size();
        if self.bytes.len() as u64 != size {
            return Err(ErrorKind::ProtocolViolation);
        }
        Ok(MemorySnapshot { region: self.region, bytes: self.bytes, capture_time })
    }
}

} // verus!
