//! The search engine: a first scan over a captured buffer, and refinement
//! scans that narrow an existing candidate list with fresh reads.

use crate::access::{access_error, check_access, AccessKind};
use crate::codec::{decode, holds, judge, scalar_of, Scalar};
use crate::model::{
    ascending, candidate_models, candidates_wf, Alignment, Candidate, CandidateModel, DataType,
    ErrorKind, Literal, MemoryRegion, Predicate, SearchQuery,
};
use vstd::prelude::*;

verus! {

/// Whether a literal is of the kind that a data type compares with. A byte
/// string must have the type's length.
pub open spec fn literal_fits(data_type: DataType, literal: Literal) -> bool {
    match (data_type, literal) {
        (DataType::Bytes(n), Literal::Bytes(bytes)) => bytes@.len() == n,
        (DataType::Bytes(_), _) => false,
        (DataType::Float32, Literal::Float32(_)) => true,
        (DataType::Float32, _) => false,
        (DataType::Float64, Literal::Float64(_)) => true,
        (DataType::Float64, _) => false,
        (_, Literal::Integer(_)) => true,
        _ => false,
    }
}

impl SearchQuery {
    /// The number of bytes read at each address.
    pub open spec fn spec_width(&self) -> nat {
        self.data_type.spec_width()
    }

    /// The distance between two offsets that a first scan looks at.
    pub open spec fn spec_stride(&self) -> nat {
        match self.alignment {
            Alignment::TypeAligned => self.spec_width(),
            Alignment::ByteAligned => 1,
        }
    }

    /// Whether the query carries a literal of the right kind.
    pub open spec fn has_fitting_literal(&self) -> bool {
        self.literal matches Some(literal) && literal_fits(self.data_type, literal)
    }

    /// Whether the query can be run as a first scan: it reads at least one
    /// byte, and it compares with a literal of the right kind. `Changed` and
    /// `Unchanged` have nothing to compare with yet.
    pub open spec fn valid_first(&self) -> bool {
        &&& self.spec_width() >= 1
        &&& self.predicate != Predicate::Changed
        &&& self.predicate != Predicate::Unchanged
        &&& self.has_fitting_literal()
    }

    /// Whether the query can be run as a refinement: it reads at least one
    /// byte, and `Equal` and `NotEqual` carry a literal of the right kind. The
    /// other predicates compare with the value seen before and ignore the
    /// literal.
    pub open spec fn valid_refinement(&self) -> bool {
        &&& self.spec_width() >= 1
        &&& (self.predicate == Predicate::Equal || self.predicate == Predicate::NotEqual)
            ==> self.has_fitting_literal()
    }

    /// The value of the literal; meaningful where there is one.
    pub open spec fn literal_scalar(&self) -> Scalar {
        match self.literal {
            Some(literal) => literal@,
            None => Scalar::Integer(0),
        }
    }

    /// What a freshly read value is compared with in a refinement: the
    /// literal for `Equal` and `NotEqual`, else the value seen before.
    pub open spec fn reference(&self, previous: Seq<u8>) -> Scalar {
        if self.predicate == Predicate::Equal || self.predicate == Predicate::NotEqual {
            self.literal_scalar()
        } else {
            scalar_of(self.data_type, self.byte_order, previous)
        }
    }

    /// The distance between two offsets that a first scan looks at.
    pub fn stride(&self) -> (r: usize)
        ensures
            r == self.spec_stride(),
    {
        match self.alignment {
            Alignment::TypeAligned => self.data_type.width(),
            Alignment::ByteAligned => 1,
        }
    }

    /// Whether the query carries a literal of the right kind.
    pub fn check_literal(&self) -> (r: bool)
        ensures
            r == self.has_fitting_literal(),
    {
        match &self.literal {
            None => false,
            Some(literal) => match (self.data_type, literal) {
                (DataType::Bytes(n), Literal::Bytes(bytes)) => bytes.len() == n,
                (DataType::Bytes(_), _) => false,
                (DataType::Float32, Literal::Float32(_)) => true,
                (DataType::Float32, _) => false,
                (DataType::Float64, Literal::Float64(_)) => true,
                (DataType::Float64, _) => false,
                (_, Literal::Integer(_)) => true,
                _ => false,
            },
        }
    }

    /// Whether the query can be run as a first scan.
    pub fn is_valid_first(&self) -> (r: bool)
        ensures
            r == self.valid_first(),
    {
        self.data_type.width() >= 1 && !matches!(
            self.predicate,
            Predicate::Changed | Predicate::Unchanged
        ) && self.check_literal()
    }

    /// Whether the query can be run as a refinement.
    pub fn is_valid_refinement(&self) -> (r: bool)
        ensures
            r == self.valid_refinement(),
    {
        self.data_type.width() >= 1 && (!matches!(
            self.predicate,
            Predicate::Equal | Predicate::NotEqual
        ) || self.check_literal())
    }
}

/// Whether the `width` bytes from `offset` on all lie inside a buffer of
/// `len` bytes. The sum is taken in the integers and cannot wrap around.
pub open spec fn in_window(len: int, offset: int, width: int) -> bool {
    0 <= offset && offset + width <= len
}

/// The last offset at which a value of `width` bytes still fits is
/// `len - width`; one byte further it does not.
pub proof fn lemma_window_boundary(len: int, width: int)
    requires
        1 <= width <= len,
    ensures
        in_window(len, len - width, width),
        !in_window(len, len - width + 1, width),
{
}

/// Whether the value at `offset` of `buffer` passes a first-scan query.
pub open spec fn matches_at(buffer: Seq<u8>, offset: int, query: SearchQuery) -> bool {
    holds(
        query.predicate,
        scalar_of(
            query.data_type,
            query.byte_order,
            buffer.subrange(offset, offset + query.spec_width()),
        ),
        query.literal_scalar(),
    )
}

/// The candidate that a first scan records for `offset` of a buffer that
/// starts at address `base`.
pub open spec fn candidate_at(
    base: u64,
    buffer: Seq<u8>,
    offset: int,
    query: SearchQuery,
) -> CandidateModel {
    CandidateModel {
        address: (base + offset) as u64,
        value: buffer.subrange(offset, offset + query.spec_width()),
    }
}

/// What a first scan finds from `offset` on: it looks at `offset`, then at
/// every stride further, as long as a whole value fits, and keeps the places
/// that pass, in this order.
pub open spec fn scan_from(base: u64, buffer: Seq<u8>, query: SearchQuery, offset: int) -> Seq<
    CandidateModel,
>
    decreases buffer.len() - offset,
{
    if offset < 0 || query.spec_width() == 0 || offset + query.spec_width() > buffer.len() {
        Seq::empty()
    } else {
        let rest = scan_from(base, buffer, query, offset + query.spec_stride());
        if matches_at(buffer, offset, query) {
            seq![candidate_at(base, buffer, offset, query)] + rest
        } else {
            rest
        }
    }
}

/// What a first scan over the whole buffer finds.
pub open spec fn first_scan_result(base: u64, buffer: Seq<u8>, query: SearchQuery) -> Seq<
    CandidateModel,
> {
    scan_from(base, buffer, query, 0)
}

/// A first scan lists its finds by strictly ascending address, none below the
/// place it started from, and each with as many bytes as the query reads.
pub proof fn lemma_scan_ascending(base: u64, buffer: Seq<u8>, query: SearchQuery, offset: int)
    requires
        base + buffer.len() <= u64::MAX,
        0 <= offset,
    ensures
        ascending(scan_from(base, buffer, query, offset)),
        forall|i: int|
            0 <= i < scan_from(base, buffer, query, offset).len() ==> {
                &&& base + offset <= (#[trigger] scan_from(base, buffer, query, offset)[i]).address
                &&& scan_from(base, buffer, query, offset)[i].value.len() == query.spec_width()
            },
    decreases buffer.len() - offset,
{
    if query.spec_width() == 0 || offset + query.spec_width() > buffer.len() {
    } else {
        lemma_scan_ascending(base, buffer, query, offset + query.spec_stride());
    }
}

/// Whether a first scan that starts at `from` looks at `offset`: it looks at
/// `from` and then at every stride further.
pub open spec fn is_scanned(query: SearchQuery, from: int, offset: int) -> bool
    decreases offset - from,
{
    if offset < from || query.spec_stride() == 0 {
        false
    } else if offset == from {
        true
    } else if offset < from + query.spec_stride() {
        false
    } else {
        is_scanned(query, from + query.spec_stride(), offset)
    }
}

/// The offsets that a first scan looks at are those that lie a whole number
/// of strides behind its start: every offset for a byte-aligned scan, every
/// multiple of the width for a type-aligned scan from the start of a buffer.
pub proof fn lemma_scanned_offsets(query: SearchQuery, from: int, offset: int)
    requires
        query.spec_stride() >= 1,
    ensures
        is_scanned(query, from, offset) <==> from <= offset && (offset - from) % (
        query.spec_stride() as int) == 0,
    decreases offset - from,
{
    let stride = query.spec_stride() as int;
    if offset < from {
    } else if offset == from {
        vstd::arithmetic::div_mod::lemma_small_mod(0, stride as nat);
    } else if offset < from + stride {
        vstd::arithmetic::div_mod::lemma_small_mod((offset - from) as nat, stride as nat);
    } else {
        lemma_scanned_offsets(query, from + stride, offset);
        vstd::arithmetic::div_mod::lemma_mod_sub_multiples_vanish(offset - from, stride);
        assert(-stride + (offset - from) == offset - (from + stride));
    }
}

/// Whether `candidate` is what a first scan from `from` records for
/// `offset`: the scan looks at `offset`, a whole value fits there and passes
/// the query, and the candidate holds its address and bytes.
pub open spec fn is_find(
    base: u64,
    buffer: Seq<u8>,
    query: SearchQuery,
    from: int,
    offset: int,
    candidate: CandidateModel,
) -> bool {
    &&& is_scanned(query, from, offset)
    &&& in_window(buffer.len() as int, offset, query.spec_width() as int)
    &&& matches_at(buffer, offset, query)
    &&& candidate == candidate_at(base, buffer, offset, query)
}

/// Whether `candidate` is what a first scan from `from` records for some
/// offset.
pub open spec fn is_some_find(
    base: u64,
    buffer: Seq<u8>,
    query: SearchQuery,
    from: int,
    candidate: CandidateModel,
) -> bool {
    exists|offset: int| #[trigger] is_find(base, buffer, query, from, offset, candidate)
}

/// Everything that a first scan finds is a place that it looked at, where a
/// whole value fits and passes the query.
pub proof fn lemma_scan_sound(base: u64, buffer: Seq<u8>, query: SearchQuery, from: int)
    requires
        0 <= from,
    ensures
        forall|i: int|
            0 <= i < scan_from(base, buffer, query, from).len() ==> is_some_find(
                base,
                buffer,
                query,
                from,
                #[trigger] scan_from(base, buffer, query, from)[i],
            ),
    decreases buffer.len() - from,
{
    let found = scan_from(base, buffer, query, from);
    if query.spec_width() == 0 || from + query.spec_width() > buffer.len() {
    } else {
        let next = from + query.spec_stride();
        let rest = scan_from(base, buffer, query, next);
        lemma_scan_sound(base, buffer, query, next);
        assert forall|i: int| 0 <= i < found.len() implies is_some_find(
            base,
            buffer,
            query,
            from,
            #[trigger] found[i],
        ) by {
            if matches_at(buffer, from, query) && i == 0 {
                assert(is_find(base, buffer, query, from, from, found[0]));
            } else {
                let j = if matches_at(buffer, from, query) {
                    i - 1
                } else {
                    i
                };
                assert(found[i] == rest[j]);
                let offset = choose|offset: int|
                    #[trigger] is_find(base, buffer, query, next, offset, rest[j]);
                assert(is_find(base, buffer, query, from, offset, found[i]));
            }
        }
    }
}

/// A first scan finds every place that it looks at where a whole value fits
/// and passes the query.
pub proof fn lemma_scan_complete(
    base: u64,
    buffer: Seq<u8>,
    query: SearchQuery,
    from: int,
    offset: int,
)
    requires
        0 <= from,
        query.spec_width() >= 1,
        is_scanned(query, from, offset),
        in_window(buffer.len() as int, offset, query.spec_width() as int),
        matches_at(buffer, offset, query),
    ensures
        scan_from(base, buffer, query, from).contains(candidate_at(base, buffer, offset, query)),
    decreases offset - from,
{
    let found = scan_from(base, buffer, query, from);
    let next = from + query.spec_stride();
    let rest = scan_from(base, buffer, query, next);
    if offset == from {
        assert(found[0] == candidate_at(base, buffer, offset, query));
    } else {
        lemma_scan_complete(base, buffer, query, next, offset);
        let j = choose|j: int|
            0 <= j < rest.len() && rest[j] == candidate_at(base, buffer, offset, query);
        if matches_at(buffer, from, query) {
            assert(found[j + 1] == rest[j]);
        } else {
            assert(found[j] == rest[j]);
        }
    }
}

/// Reads the `width` bytes at `offset` of `buffer`.
///
/// Fails with `OutOfRange` exactly when they do not all lie inside it.
pub fn window(buffer: &[u8], offset: usize, width: usize) -> (r: Result<&[u8], ErrorKind>)
    ensures
        match r {
            Ok(bytes) => in_window(buffer@.len() as int, offset as int, width as int) && bytes@
                == buffer@.subrange(offset as int, offset + width),
            Err(e) => !in_window(buffer@.len() as int, offset as int, width as int) && e
                == ErrorKind::OutOfRange,
        },
{
    let len: usize = buffer.len();
    if offset > len || width > len - offset {
        Err(ErrorKind::OutOfRange)
    } else {
        Ok(vstd::slice::slice_subrange(buffer, offset, offset + width))
    }
}

/// Judges the value at one offset of a buffer by a first-scan query.
///
/// A query that cannot be run as a first scan is a `ProtocolViolation`.
/// Otherwise the result is `OutOfRange` exactly when the value does not lie
/// inside the buffer, and else says whether it passes.
pub fn probe(buffer: &[u8], offset: usize, query: &SearchQuery) -> (r: Result<bool, ErrorKind>)
    ensures
        match r {
            Ok(hit) => {
                &&& query.valid_first()
                &&& in_window(buffer@.len() as int, offset as int, query.spec_width() as int)
                &&& hit == matches_at(buffer@, offset as int, *query)
            },
            Err(e) => if query.valid_first() {
                !in_window(buffer@.len() as int, offset as int, query.spec_width() as int) && e
                    == ErrorKind::OutOfRange
            } else {
                e == ErrorKind::ProtocolViolation
            },
        },
{
    if !query.is_valid_first() {
        return Err(ErrorKind::ProtocolViolation);
    }
    match &query.literal {
        None => Err(ErrorKind::ProtocolViolation),
        Some(literal) => {
            let bytes = window(buffer, offset, query.data_type.width())?;
            match decode(query.data_type, query.byte_order, bytes) {
                Some(fresh) => Ok(judge(query.predicate, &fresh, &literal.as_operand())),
                None => Err(ErrorKind::OutOfRange),
            }
        },
    }
}

/// Runs a first scan over `buffer`, whose first byte has the address `base`.
///
/// A query that cannot be run as a first scan is a `ProtocolViolation`. A
/// buffer that would reach past the last address is `OutOfRange`. Otherwise
/// the result lists every place that passes, by ascending address.
pub fn first_scan(base: u64, buffer: &[u8], query: &SearchQuery) -> (r: Result<
    Vec<Candidate>,
    ErrorKind,
>)
    ensures
        match r {
            Ok(found) => {
                &&& query.valid_first()
                &&& base + buffer@.len() <= u64::MAX
                &&& candidate_models(found@) == first_scan_result(base, buffer@, *query)
                &&& candidates_wf(found@)
                &&& forall|i: int|
                    0 <= i < found@.len() ==> (#[trigger] found@[i]).width == query.spec_width()
                &&& ascending(candidate_models(found@))
            },
            Err(e) => if query.valid_first() {
                base + buffer@.len() > u64::MAX && e == ErrorKind::OutOfRange
            } else {
                e == ErrorKind::ProtocolViolation
            },
        },
{
    if !query.is_valid_first() {
        return Err(ErrorKind::ProtocolViolation);
    }
    let len: usize = buffer.len();
    if len as u64 > u64::MAX - base {
        return Err(ErrorKind::OutOfRange);
    }
    let width: usize = query.data_type.width();
    let stride: usize = query.stride();
    let mut found: Vec<Candidate> = Vec::new();
    match &query.literal {
        None => Err(ErrorKind::ProtocolViolation),
        Some(literal) => {
            let reference = literal.as_operand();
            let mut offset: usize = 0;
            assert(candidate_models(found@) + scan_from(base, buffer@, *query, 0)
                =~= first_scan_result(base, buffer@, *query));
            while offset <= len && width <= len - offset
                invariant
                    offset <= len,
                    len == buffer@.len(),
                    base + len <= u64::MAX,
                    width == query.spec_width(),
                    stride == query.spec_stride(),
                    1 <= stride <= width,
                    query.valid_first(),
                    query.literal == Some(*literal),
                    reference@ == literal@,
                    candidate_models(found@) + scan_from(base, buffer@, *query, offset as int)
                        == first_scan_result(base, buffer@, *query),
                    candidates_wf(found@),
                    forall|i: int| 0 <= i < found@.len() ==> (#[trigger] found@[i]).width == width,
                decreases len - offset,
            {
                let bytes = vstd::slice::slice_subrange(buffer, offset, offset + width);
                let ghost before = candidate_models(found@);
                let ghost rest = scan_from(base, buffer@, *query, offset + stride);
                let hit = match decode(query.data_type, query.byte_order, bytes) {
                    Some(fresh) => judge(query.predicate, &fresh, &reference),
                    None => false,
                };
                if hit {
                    let candidate = Candidate {
                        address: base + offset as u64,
                        last_known_value: vstd::slice::slice_to_vec(bytes),
                        width,
                    };
                    found.push(candidate);
                    assert(candidate_models(found@) =~= before.push(candidate@));
                    assert(before.push(candidate@) + rest =~= before + (seq![candidate@] + rest));
                }
                offset = offset + stride;
            }
            proof {
                assert(scan_from(base, buffer@, *query, offset as int) =~= Seq::empty());
                assert(candidate_models(found@) + Seq::<CandidateModel>::empty()
                    =~= candidate_models(found@));
                lemma_scan_ascending(base, buffer@, *query, 0);
            }
            Ok(found)
        },
    }
}

/// What a batch of reads holds: for each read the bytes that came back, or
/// nothing where the read failed.
pub open spec fn read_models(reads: Seq<Option<Vec<u8>>>) -> Seq<Option<Seq<u8>>> {
    Seq::new(
        reads.len(),
        |i: int|
            match reads[i] {
                Some(bytes) => Some(bytes@),
                None => None,
            },
    )
}

/// The read that belongs to the candidate at place `i`. A batch that is too
/// short counts as failed reads for the candidates it does not reach.
pub open spec fn read_for(reads: Seq<Option<Seq<u8>>>, i: int) -> Option<Seq<u8>> {
    if 0 <= i < reads.len() {
        reads[i]
    } else {
        None
    }
}

/// What becomes of one candidate in a refinement. It stays, with the fresh
/// bytes as its value, when the read came back with as many bytes as the
/// query reads, the candidate held that many too, and the fresh value passes.
/// A failed read drops it.
pub open spec fn refined(
    candidate: CandidateModel,
    read: Option<Seq<u8>>,
    query: SearchQuery,
) -> Option<CandidateModel> {
    match read {
        Some(bytes) => if bytes.len() == query.spec_width() && candidate.value.len()
            == query.spec_width() && holds(
            query.predicate,
            scalar_of(query.data_type, query.byte_order, bytes),
            query.reference(candidate.value),
        ) {
            Some(CandidateModel { address: candidate.address, value: bytes })
        } else {
            None
        },
        None => None,
    }
}

/// What a refinement leaves of `candidates`: those that stay, in their old
/// order. The read at place `i` belongs to the candidate at place `i`.
pub open spec fn refine_result(
    candidates: Seq<CandidateModel>,
    reads: Seq<Option<Seq<u8>>>,
    query: SearchQuery,
) -> Seq<CandidateModel>
    decreases candidates.len(),
{
    if candidates.len() == 0 {
        Seq::empty()
    } else {
        let earlier = refine_result(candidates.drop_last(), reads, query);
        match refined(candidates.last(), read_for(reads, candidates.len() - 1), query) {
            Some(kept) => earlier.push(kept),
            None => earlier,
        }
    }
}

/// Whether `kept` is what is left of one of `candidates`: it has the address
/// of one of them and holds as many bytes.
pub open spec fn stems_from(kept: CandidateModel, candidates: Seq<CandidateModel>) -> bool {
    exists|i: int|
        0 <= i < candidates.len() && (#[trigger] candidates[i]).address == kept.address
            && candidates[i].value.len() == kept.value.len()
}

/// A refinement never makes the candidate list longer, whatever the
/// predicate and whatever was read. Each candidate that is left is what is
/// left of an old one, and holds as many bytes as the query reads.
pub proof fn lemma_refine_shrinks(
    candidates: Seq<CandidateModel>,
    reads: Seq<Option<Seq<u8>>>,
    query: SearchQuery,
)
    ensures
        refine_result(candidates, reads, query).len() <= candidates.len(),
        forall|j: int|
            0 <= j < refine_result(candidates, reads, query).len() ==> {
                &&& stems_from(#[trigger] refine_result(candidates, reads, query)[j], candidates)
                &&& refine_result(candidates, reads, query)[j].value.len() == query.spec_width()
            },
    decreases candidates.len(),
{
    if candidates.len() > 0 {
        let shorter = candidates.drop_last();
        lemma_refine_shrinks(shorter, reads, query);
        let earlier = refine_result(shorter, reads, query);
        let result = refine_result(candidates, reads, query);
        assert forall|j: int| 0 <= j < result.len() implies {
            &&& stems_from(#[trigger] result[j], candidates)
            &&& result[j].value.len() == query.spec_width()
        } by {
            if j < earlier.len() {
                assert(stems_from(earlier[j], shorter));
                let i = choose|i: int|
                    0 <= i < shorter.len() && (#[trigger] shorter[i]).address == earlier[j].address
                        && shorter[i].value.len() == earlier[j].value.len();
                assert(candidates[i] == shorter[i]);
            } else {
                assert(candidates[candidates.len() - 1].address == result[j].address);
            }
        }
    }
}

/// A refinement keeps the order of the candidates: a list that ascends by
/// address still does afterwards.
pub proof fn lemma_refine_ascending(
    candidates: Seq<CandidateModel>,
    reads: Seq<Option<Seq<u8>>>,
    query: SearchQuery,
)
    requires
        ascending(candidates),
    ensures
        ascending(refine_result(candidates, reads, query)),
    decreases candidates.len(),
{
    if candidates.len() > 0 {
        let shorter = candidates.drop_last();
        lemma_refine_ascending(shorter, reads, query);
        lemma_refine_shrinks(shorter, reads, query);
        let earlier = refine_result(shorter, reads, query);
        let result = refine_result(candidates, reads, query);
        assert forall|i: int, j: int| 0 <= i < j < result.len() implies (
        #[trigger] result[i]).address < (#[trigger] result[j]).address by {
            if j >= earlier.len() {
                assert(stems_from(earlier[i], shorter));
                let k = choose|k: int|
                    0 <= k < shorter.len() && (#[trigger] shorter[k]).address == earlier[i].address
                        && shorter[k].value.len() == earlier[i].value.len();
                assert(candidates[k].address < candidates[candidates.len() - 1].address);
            }
        }
    }
}

/// A refinement looks only at the reads that belong to its candidates: two
/// batches that agree on those give the same result.
pub proof fn lemma_refine_reads_agree(
    candidates: Seq<CandidateModel>,
    first: Seq<Option<Seq<u8>>>,
    second: Seq<Option<Seq<u8>>>,
    query: SearchQuery,
)
    requires
        forall|i: int| 0 <= i < candidates.len() ==> read_for(first, i) == read_for(second, i),
    ensures
        refine_result(candidates, first, query) == refine_result(candidates, second, query),
    decreases candidates.len(),
{
    if candidates.len() > 0 {
        lemma_refine_reads_agree(candidates.drop_last(), first, second, query);
    }
}

/// The reads that a target gives for a list of candidates, when reading
/// `length` bytes at `address` gives `memory(address, length)`.
pub open spec fn reads_of(
    memory: spec_fn(u64, nat) -> Option<Seq<u8>>,
    candidates: Seq<CandidateModel>,
) -> Seq<Option<Seq<u8>>> {
    Seq::new(candidates.len(), |i: int| memory(candidates[i].address, candidates[i].value.len()))
}

/// Repeating an `Unchanged` refinement while the target stays as it is
/// changes nothing: the second pass returns what the first one left.
pub proof fn lemma_unchanged_fixed_point(
    candidates: Seq<CandidateModel>,
    memory: spec_fn(u64, nat) -> Option<Seq<u8>>,
    query: SearchQuery,
)
    requires
        query.predicate == Predicate::Unchanged,
    ensures
        ({
            let once = refine_result(candidates, reads_of(memory, candidates), query);
            refine_result(once, reads_of(memory, once), query) == once
        }),
    decreases candidates.len(),
{
    let reads = reads_of(memory, candidates);
    let once = refine_result(candidates, reads, query);
    if candidates.len() > 0 {
        let shorter = candidates.drop_last();
        let last = candidates.last();
        lemma_unchanged_fixed_point(shorter, memory, query);
        lemma_refine_reads_agree(shorter, reads, reads_of(memory, shorter), query);
        let earlier = refine_result(shorter, reads_of(memory, shorter), query);
        assert(refine_result(shorter, reads, query) == earlier);
        match refined(last, read_for(reads, candidates.len() - 1), query) {
            Some(kept) => {
                assert(once == earlier.push(kept));
                assert(once.drop_last() =~= earlier);
                let again = reads_of(memory, once);
                lemma_refine_reads_agree(earlier, again, reads_of(memory, earlier), query);
                assert(read_for(again, once.len() - 1) == memory(kept.address, kept.value.len()));
                assert(refined(kept, read_for(again, once.len() - 1), query) == Some(kept));
            },
            None => {
                assert(once == earlier);
            },
        }
    }
}

/// Narrows `candidates` with a batch of fresh reads, one for each candidate
/// and in the same order; `None` stands for a read that failed.
///
/// A query that cannot be run as a refinement is a `ProtocolViolation` and
/// leaves the list as it was. Otherwise each candidate stays exactly when its
/// read came back and the fresh value passes, and it then holds the fresh
/// bytes. A candidate whose read failed is dropped.
pub fn refine(
    candidates: &mut Vec<Candidate>,
    reads: &[Option<Vec<u8>>],
    query: &SearchQuery,
) -> (r: Result<(), ErrorKind>)
    ensures
        match r {
            Ok(()) => {
                &&& query.valid_refinement()
                &&& candidate_models(final(candidates)@) == refine_result(
                    candidate_models(old(candidates)@),
                    read_models(reads@),
                    *query,
                )
                &&& candidates_wf(final(candidates)@)
                &&& forall|i: int|
                    0 <= i < final(candidates)@.len() ==> (#[trigger] final(candidates)@[i]).width
                        == query.spec_width()
                &&& final(candidates)@.len() <= old(candidates)@.len()
                &&& ascending(candidate_models(old(candidates)@)) ==> ascending(
                    candidate_models(final(candidates)@),
                )
            },
            Err(e) => {
                &&& !query.valid_refinement()
                &&& e == ErrorKind::ProtocolViolation
                &&& *final(candidates) == *old(candidates)
            },
        },
{
    if !query.is_valid_refinement() {
        return Err(ErrorKind::ProtocolViolation);
    }
    let width: usize = query.data_type.width();
    let n: usize = candidates.len();
    let mut kept: Vec<Candidate> = Vec::new();
    let mut i: usize = 0;
    let ghost before = candidate_models(candidates@);
    let ghost batch = read_models(reads@);
    assert(before.subrange(0, 0) =~= Seq::empty());
    while i < n
        invariant
            i <= n,
            n == candidates@.len(),
            *candidates == *old(candidates),
            before == candidate_models(candidates@),
            batch == read_models(reads@),
            width == query.spec_width(),
            width >= 1,
            query.valid_refinement(),
            candidate_models(kept@) == refine_result(before.subrange(0, i as int), batch, *query),
            candidates_wf(kept@),
            forall|k: int| 0 <= k < kept@.len() ==> (#[trigger] kept@[k]).width == width,
        decreases n - i,
    {
        let ghost prefix = before.subrange(0, i + 1);
        let ghost earlier = candidate_models(kept@);
        proof {
            assert(prefix.drop_last() =~= before.subrange(0, i as int));
            assert(prefix.last() == candidates@[i as int]@);
        }
        let candidate = &candidates[i];
        if i < reads.len() {
            match &reads[i] {
                Some(bytes) => {
                    let fresh = decode(query.data_type, query.byte_order, bytes.as_slice());
                    let previous = decode(
                        query.data_type,
                        query.byte_order,
                        candidate.last_known_value.as_slice(),
                    );
                    if let (Some(fresh), Some(previous)) = (fresh, previous) {
                        let pass = match query.predicate {
                            Predicate::Equal | Predicate::NotEqual => match &query.literal {
                                Some(literal) => judge(
                                    query.predicate,
                                    &fresh,
                                    &literal.as_operand(),
                                ),
                                None => false,
                            },
                            _ => judge(query.predicate, &fresh, &previous),
                        };
                        if pass {
                            let fresh_candidate = Candidate {
                                address: candidate.address,
                                last_known_value: vstd::slice::slice_to_vec(bytes.as_slice()),
                                width,
                            };
                            kept.push(fresh_candidate);
                            assert(candidate_models(kept@) =~= earlier.push(fresh_candidate@));
                        }
                    }
                },
                None => {},
            }
        }
        i += 1;
    }
    proof {
        assert(before.subrange(0, n as int) =~= before);
        lemma_refine_shrinks(before, batch, *query);
        assert(candidate_models(kept@).len() == kept@.len());
        if ascending(before) {
            lemma_refine_ascending(before, batch, *query);
        }
    }
    *candidates = kept;
    Ok(())
}

/// Whether the known regions allow reading a candidate's bytes.
pub open spec fn is_readable(candidate: CandidateModel, regions: Seq<MemoryRegion>) -> bool {
    access_error(regions, candidate.address, candidate.value.len() as int, AccessKind::Read) is None
}

/// The candidates whose bytes the known regions allow to be read, in their
/// old order.
pub open spec fn readable(candidates: Seq<CandidateModel>, regions: Seq<MemoryRegion>) -> Seq<
    CandidateModel,
>
    decreases candidates.len(),
{
    if candidates.len() == 0 {
        Seq::empty()
    } else {
        let earlier = readable(candidates.drop_last(), regions);
        if is_readable(candidates.last(), regions) {
            earlier.push(candidates.last())
        } else {
            earlier
        }
    }
}

/// Leaving out the candidates that cannot be read makes the list no longer,
/// and each candidate that is left is one of the old ones and can be read.
pub proof fn lemma_readable_shrinks(candidates: Seq<CandidateModel>, regions: Seq<MemoryRegion>)
    ensures
        readable(candidates, regions).len() <= candidates.len(),
        forall|j: int|
            0 <= j < readable(candidates, regions).len() ==> {
                &&& candidates.contains(#[trigger] readable(candidates, regions)[j])
                &&& is_readable(readable(candidates, regions)[j], regions)
            },
    decreases candidates.len(),
{
    if candidates.len() > 0 {
        let shorter = candidates.drop_last();
        lemma_readable_shrinks(shorter, regions);
        let earlier = readable(shorter, regions);
        let result = readable(candidates, regions);
        assert forall|j: int| 0 <= j < result.len() implies {
            &&& candidates.contains(#[trigger] result[j])
            &&& is_readable(result[j], regions)
        } by {
            if j < earlier.len() {
                let i = choose|i: int| 0 <= i < shorter.len() && shorter[i] == earlier[j];
                assert(candidates[i] == result[j]);
            } else {
                assert(candidates[candidates.len() - 1] == result[j]);
            }
        }
    }
}

/// Where every candidate can be read, none is left out.
pub proof fn lemma_readable_all(candidates: Seq<CandidateModel>, regions: Seq<MemoryRegion>)
    requires
        forall|i: int| 0 <= i < candidates.len() ==> is_readable(#[trigger] candidates[i], regions),
    ensures
        readable(candidates, regions) == candidates,
    decreases candidates.len(),
{
    if candidates.len() > 0 {
        let shorter = candidates.drop_last();
        assert forall|i: int| 0 <= i < shorter.len() implies is_readable(
            #[trigger] shorter[i],
            regions,
        ) by {
            assert(shorter[i] == candidates[i]);
        }
        lemma_readable_all(shorter, regions);
        assert(is_readable(candidates[candidates.len() - 1], regions));
        assert(shorter.push(candidates.last()) =~= candidates);
    } else {
        assert(candidates =~= Seq::empty());
    }
}

/// Leaving out the candidates that cannot be read keeps the order of the
/// others.
pub proof fn lemma_readable_ascending(candidates: Seq<CandidateModel>, regions: Seq<MemoryRegion>)
    requires
        ascending(candidates),
    ensures
        ascending(readable(candidates, regions)),
    decreases candidates.len(),
{
    if candidates.len() > 0 {
        let shorter = candidates.drop_last();
        lemma_readable_ascending(shorter, regions);
        lemma_readable_shrinks(shorter, regions);
        let earlier = readable(shorter, regions);
        let result = readable(candidates, regions);
        assert forall|i: int, j: int| 0 <= i < j < result.len() implies (
        #[trigger] result[i]).address < (#[trigger] result[j]).address by {
            if j >= earlier.len() {
                assert(shorter.contains(earlier[i]));
                let k = choose|k: int| 0 <= k < shorter.len() && shorter[k] == earlier[i];
                assert(candidates[k].address < candidates[candidates.len() - 1].address);
            }
        }
    }
}

/// Drops the candidates whose bytes the known regions do not allow to be
/// read, so that no read is issued for them.
pub fn retain_readable(candidates: &mut Vec<Candidate>, regions: &[MemoryRegion])
    requires
        candidates_wf(old(candidates)@),
    ensures
        candidate_models(final(candidates)@) == readable(
            candidate_models(old(candidates)@),
            regions@,
        ),
        candidates_wf(final(candidates)@),
        final(candidates)@.len() <= old(candidates)@.len(),
        ascending(candidate_models(old(candidates)@)) ==> ascending(
            candidate_models(final(candidates)@),
        ),
{
    let n: usize = candidates.len();
    let mut kept: Vec<Candidate> = Vec::new();
    let mut i: usize = 0;
    let ghost before = candidate_models(candidates@);
    assert(before.subrange(0, 0) =~= Seq::empty());
    while i < n
        invariant
            i <= n,
            n == candidates@.len(),
            *candidates == *old(candidates),
            before == candidate_models(candidates@),
            candidates_wf(candidates@),
            candidate_models(kept@) == readable(before.subrange(0, i as int), regions@),
            candidates_wf(kept@),
        decreases n - i,
    {
        let ghost prefix = before.subrange(0, i + 1);
        let ghost earlier = candidate_models(kept@);
        proof {
            assert(prefix.drop_last() =~= before.subrange(0, i as int));
            assert(prefix.last() == candidates@[i as int]@);
            assert(candidates@[i as int].wf());
        }
        let candidate = &candidates[i];
        if check_access(regions, candidate.address, candidate.width, AccessKind::Read).is_ok() {
            let copy = candidate.duplicate();
            kept.push(copy);
            assert(candidate_models(kept@) =~= earlier.push(copy@));
        }
        i += 1;
    }
    proof {
        assert(before.subrange(0, n as int) =~= before);
        lemma_readable_shrinks(before, regions@);
        assert(candidate_models(kept@).len() == kept@.len());
        if ascending(before) {
            lemma_readable_ascending(before, regions@);
        }
    }
    *candidates = kept;
}

} // verus!
