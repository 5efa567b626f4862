//! The session state machine.
//!
//! The front end sends events; each event is answered by exactly one render
//! event. Between the two the session may ask for outside work (opening the
//! target, listing its regions, reading, writing): it hands out a request,
//! and takes the completion of that request as its next input. The session
//! itself never blocks and never touches the target.

use crate::access::{
    access_error, lemma_round_trip, plan_access, write_outcome, AccessKind, AccessPlan, MemoryImage,
};
use crate::model::{
    ascending, candidate_models, candidates_wf, copy_candidates, copy_processes, copy_regions,
    Candidate, CandidateModel, ErrorKind, MemoryRegion, Predicate, ProcessRef, SearchQuery,
};
use crate::search::{
    first_scan, first_scan_result, is_readable, lemma_readable_all, lemma_readable_shrinks,
    lemma_refine_shrinks, lemma_unchanged_fixed_point, read_models, readable, reads_of, refine,
    refine_result, retain_readable, stems_from,
};
use crate::snapshot::{
    next_read, Capture, MemorySnapshot, SnapshotModel, SnapshotStore, CAPTURE_WINDOW,
};
use vstd::prelude::*;

verus! {

/// Where a session stands.
#[derive(Clone, Copy, Debug, PartialEq, Eq, Structural)]
pub enum Step {
    SelectingProcess,
    SelectingRegion,
    Loaded,
    Searching,
    Terminated,
}

/// What the front end asks for.
#[derive(Debug, PartialEq, Eq)]
pub enum UiEvent {
    /// Attach to the process at this place of the process list.
    SelectProcess(usize),
    /// Load the region at this place of the region list.
    SelectRegion(usize),
    /// Run a search pass: a first scan while there are no candidates, a
    /// refinement of the candidates else.
    Search(SearchQuery),
    /// Store these bytes at this address of the target.
    WriteValue(u64, Vec<u8>),
    /// End the session.
    Quit,
}

/// What the front end is told.
#[derive(Debug, PartialEq, Eq)]
pub enum RenderEvent {
    ProcessList(Vec<ProcessRef>),
    RegionList(Vec<MemoryRegion>),
    /// A region was loaded: its first address, the address behind its last
    /// byte, and its bytes.
    BufferLoaded(u64, u64, Vec<u8>),
    SearchResult(Vec<Candidate>),
    WriteAck,
    WriteError(ErrorKind),
    /// There is nothing to show.
    Empty,
    /// The event was turned down or the work for it failed.
    Error(ErrorKind),
}

/// Outside work that the session asks for.
#[derive(Debug, PartialEq, Eq)]
pub enum Request {
    /// Open the memory of the process with this pid.
    Open(i32),
    /// List the mapped regions of the process with this pid.
    ListRegions(i32),
    /// Read this many bytes at this address.
    Read(u64, usize),
    /// Read each of these ranges, given as address and length, on its own.
    ReadEach(Vec<(u64, usize)>),
    /// Store these bytes at this address.
    Write(u64, Vec<u8>),
}

/// What came of a request.
#[derive(Debug, PartialEq, Eq)]
pub enum Completion {
    /// The process was opened.
    Opened,
    /// The regions of the process.
    Regions(Vec<MemoryRegion>),
    /// The bytes that a read gave, and the time at which it was made.
    Bytes(Vec<u8>, u64),
    /// What each read of a batch gave, in the order of the request; `None`
    /// where a read failed.
    Samples(Vec<Option<Vec<u8>>>),
    /// The number of bytes that a write stored.
    Written(usize),
    /// The request failed as a whole.
    Failed(ErrorKind),
}

/// What the session does next: answer the front end, or ask for outside
/// work first.
#[derive(Debug, PartialEq, Eq)]
pub enum Action {
    Reply(RenderEvent),
    Perform(Request),
}

/// The request that a session waits for, if any.
pub enum PendingModel {
    /// No request is out.
    Idle,
    /// The process with this pid is being opened.
    Opening(i32),
    /// The regions of the chosen process are being listed.
    Listing,
    /// A region is being read to be loaded; so many bytes are in.
    Loading(MemoryRegion, Seq<u8>),
    /// A first scan did not pass the check against the known regions, and
    /// the regions are being listed again.
    Rechecking(SearchQuery),
    /// The loaded region is being read anew for a first scan.
    Scanning(MemoryRegion, Seq<u8>, SearchQuery),
    /// The candidates are being read for a refinement.
    Refining(SearchQuery),
    /// A write did not pass the check against the known regions, and the
    /// regions are being listed again.
    Refreshing(u64, Seq<u8>),
    /// A write of so many bytes is out.
    Writing(usize),
}

/// Everything a session knows.
pub struct StateModel {
    pub step: Step,
    pub processes: Seq<ProcessRef>,
    pub pid: Option<i32>,
    pub regions: Seq<MemoryRegion>,
    pub region: Option<MemoryRegion>,
    pub current: Option<SnapshotModel>,
    pub previous: Option<SnapshotModel>,
    pub candidates: Seq<CandidateModel>,
    pub pending: PendingModel,
}

/// Whether a capture of `region` that holds `filled` is under way: the region
/// fits into one buffer and at least one byte is still to be read.
pub open spec fn capture_under_way(region: MemoryRegion, filled: Seq<u8>) -> bool {
    &&& region.wf()
    &&& region.spec_size() <= usize::MAX
    &&& filled.len() < region.spec_size()
}

impl StateModel {
    /// What holds of every session.
    pub open spec fn wf(self) -> bool {
        &&& ascending(self.candidates)
        &&& self.step == Step::SelectingRegion || self.step == Step::Loaded
            || self.step == Step::Searching ==> self.pid is Some
        &&& self.step == Step::Loaded || self.step == Step::Searching
            ==> self.region is Some
        &&& self.region matches Some(region) ==> region.wf() && region.spec_size() <= usize::MAX
        &&& match self.pending {
            PendingModel::Idle => self.step != Step::Searching,
            PendingModel::Opening(_) => self.step == Step::SelectingProcess,
            PendingModel::Listing => self.step == Step::SelectingProcess && self.pid
                is Some,
            PendingModel::Loading(region, filled) => self.step == Step::SelectingRegion
                && capture_under_way(region, filled),
            PendingModel::Rechecking(query) => {
                &&& self.step == Step::Searching
                &&& query.valid_first()
                &&& self.candidates.len() == 0
            },
            PendingModel::Scanning(region, filled, query) => {
                &&& self.step == Step::Searching
                &&& capture_under_way(region, filled)
                &&& self.region == Some(region)
                &&& query.valid_first()
                &&& self.candidates.len() == 0
            },
            PendingModel::Refining(query) => self.step == Step::Searching
                && query.valid_refinement(),
            PendingModel::Refreshing(_, _) | PendingModel::Writing(_) => self.step
                == Step::Loaded,
        }
    }

    /// The session after it ended: no request is out and no snapshot is
    /// kept.
    pub open spec fn terminated(self) -> StateModel {
        StateModel {
            step: Step::Terminated,
            pending: PendingModel::Idle,
            current: None,
            previous: None,
            ..self
        }
    }
}

/// Whether a session may go from state `from` to state `to` in one step:
/// it may stay where it is, end from anywhere, and else only move along
/// selecting a process, selecting a region, loaded, and from there into a
/// search and back.
pub open spec fn follows(from: Step, to: Step) -> bool {
    ||| from == to
    ||| to == Step::Terminated
    ||| from == Step::SelectingProcess && to == Step::SelectingRegion
    ||| from == Step::SelectingRegion && to == Step::Loaded
    ||| from == Step::Loaded && to == Step::Searching
    ||| from == Step::Searching && to == Step::Loaded
}

/// Whether a session turned its input down: it stays as it was and answers
/// with the reason.
pub open spec fn rejected(
    pre: StateModel,
    post: StateModel,
    action: Action,
    kind: ErrorKind,
) -> bool {
    post == pre && action == Action::Reply(RenderEvent::Error(kind))
}

/// The reads that a refinement asks for: the bytes of each candidate, in the
/// order of the candidates.
pub open spec fn sample_plan(candidates: Seq<CandidateModel>) -> Seq<(u64, usize)> {
    Seq::new(
        candidates.len(),
        |i: int| (candidates[i].address, candidates[i].value.len() as usize),
    )
}

/// What `SelectProcess(index)` does. While a process is being chosen and
/// `index` is a place of the process list, the session asks for that process
/// to be opened. Otherwise the event is a `ProtocolViolation`.
pub open spec fn select_process_outcome(
    pre: StateModel,
    index: usize,
    post: StateModel,
    action: Action,
) -> bool {
    if pre.step == Step::SelectingProcess && index < pre.processes.len() {
        let pid = pre.processes[index as int].pid;
        &&& post == StateModel { pending: PendingModel::Opening(pid), ..pre }
        &&& action == Action::Perform(Request::Open(pid))
    } else {
        rejected(pre, post, action, ErrorKind::ProtocolViolation)
    }
}

/// What `SelectRegion(index)` does. While a region is being chosen and
/// `index` is a place of the region list, the session starts to capture that
/// region and asks for its first bytes. A region without bytes is a
/// `ProtocolViolation`, one that may not be read `Unreadable`, one too
/// large for a buffer `OutOfRange`. In another state, or with an `index`
/// outside the list, the event is a `ProtocolViolation`.
pub open spec fn select_region_outcome(
    pre: StateModel,
    index: usize,
    post: StateModel,
    action: Action,
) -> bool {
    if pre.step != Step::SelectingRegion || index >= pre.regions.len() {
        rejected(pre, post, action, ErrorKind::ProtocolViolation)
    } else {
        let region = pre.regions[index as int];
        if !region.wf() {
            rejected(pre, post, action, ErrorKind::ProtocolViolation)
        } else if !region.permissions.read {
            rejected(pre, post, action, ErrorKind::Unreadable)
        } else if region.spec_size() > usize::MAX {
            rejected(pre, post, action, ErrorKind::OutOfRange)
        } else {
            &&& post == StateModel { pending: PendingModel::Loading(region, Seq::empty()), ..pre }
            &&& next_read(region, 0, CAPTURE_WINDOW as int) matches Some(read) && action
                == Action::Perform(Request::Read(read.0, read.1))
        }
    }
}

/// What `Search(query)` does in a loaded session.
///
/// Without candidates the search is a first scan: the query must be valid
/// for one. Where the known regions allow the loaded region to be read, the
/// session starts to capture it anew. Where they do not, it asks for the
/// regions to be listed again and decides then.
///
/// With candidates it is a refinement: the query must be valid for one and
/// read as many bytes as the candidates hold. The candidates that the known
/// regions do not allow to be read are dropped at once, and the session asks
/// for the bytes of the others.
///
/// Any other query is a `ProtocolViolation`.
pub open spec fn search_outcome(
    pre: StateModel,
    query: SearchQuery,
    post: StateModel,
    action: Action,
) -> bool {
    if pre.step != Step::Loaded || pre.region is None || pre.pid is None {
        rejected(pre, post, action, ErrorKind::ProtocolViolation)
    } else if pre.candidates.len() == 0 {
        let region = pre.region->0;
        if !query.valid_first() {
            rejected(pre, post, action, ErrorKind::ProtocolViolation)
        } else if access_error(
            pre.regions,
            region.start_address,
            region.spec_size(),
            AccessKind::Read,
        ) is None {
            &&& post == StateModel {
                step: Step::Searching,
                pending: PendingModel::Scanning(region, Seq::empty(), query),
                ..pre
            }
            &&& next_read(region, 0, CAPTURE_WINDOW as int) matches Some(read) && action
                == Action::Perform(Request::Read(read.0, read.1))
        } else {
            &&& post == StateModel {
                step: Step::Searching,
                pending: PendingModel::Rechecking(query),
                ..pre
            }
            &&& action == Action::Perform(Request::ListRegions(pre.pid->0))
        }
    } else if !query.valid_refinement() || query.spec_width() != pre.candidates[0].value.len() {
        rejected(pre, post, action, ErrorKind::ProtocolViolation)
    } else {
        &&& post == StateModel {
            step: Step::Searching,
            candidates: readable(pre.candidates, pre.regions),
            pending: PendingModel::Refining(query),
            ..pre
        }
        &&& action matches Action::Perform(Request::ReadEach(plan)) && plan@ == sample_plan(
            post.candidates,
        )
    }
}

/// What `WriteValue(address, data)` does in a loaded session. Where the
/// known regions allow the write, the session asks for it. Where they do
/// not, it asks for the regions to be listed again and decides then.
pub open spec fn write_value_outcome(
    pre: StateModel,
    address: u64,
    data: Vec<u8>,
    post: StateModel,
    action: Action,
) -> bool {
    if pre.step != Step::Loaded || pre.pid is None {
        rejected(pre, post, action, ErrorKind::ProtocolViolation)
    } else if access_error(pre.regions, address, data@.len() as int, AccessKind::Write) is None {
        &&& post == StateModel { pending: PendingModel::Writing(data@.len() as usize), ..pre }
        &&& action matches Action::Perform(Request::Write(target, bytes)) && target == address
            && bytes@ == data@
    } else {
        &&& post == StateModel { pending: PendingModel::Refreshing(address, data@), ..pre }
        &&& action == Action::Perform(Request::ListRegions(pre.pid->0))
    }
}

/// What an event does to a session, and what the session does next.
///
/// `Quit` ends the session in every state, also while a request is out.
/// Every other event is a `ProtocolViolation` once the session has ended
/// and while a request is out, and it then changes nothing.
pub open spec fn event_outcome(
    pre: StateModel,
    event: UiEvent,
    post: StateModel,
    action: Action,
) -> bool {
    if event is Quit {
        post == pre.terminated() && action == Action::Reply(RenderEvent::Empty)
    } else if pre.step == Step::Terminated || !(pre.pending is Idle) {
        rejected(pre, post, action, ErrorKind::ProtocolViolation)
    } else {
        match event {
            UiEvent::SelectProcess(index) => select_process_outcome(pre, index, post, action),
            UiEvent::SelectRegion(index) => select_region_outcome(pre, index, post, action),
            UiEvent::Search(query) => search_outcome(pre, query, post, action),
            UiEvent::WriteValue(address, data) => write_value_outcome(
                pre,
                address,
                data,
                post,
                action,
            ),
            UiEvent::Quit => false,
        }
    }
}

/// Whether a completion is of a kind that answers the request that is out.
/// Every request may fail as a whole.
pub open spec fn expected(pending: PendingModel, completion: Completion) -> bool {
    match pending {
        PendingModel::Idle => false,
        PendingModel::Opening(_) => completion is Opened || completion is Failed,
        PendingModel::Listing | PendingModel::Rechecking(_) | PendingModel::Refreshing(_, _) => {
            completion is Regions || completion is Failed
        },
        PendingModel::Loading(_, _) | PendingModel::Scanning(_, _, _) => completion is Bytes
            || completion is Failed,
        PendingModel::Refining(_) => completion is Samples || completion is Failed,
        PendingModel::Writing(_) => completion is Written || completion is Failed,
    }
}

/// What the bytes of one read do to a capture that holds `filled` of
/// `region`, for loading the region (`scan` is `None`) or for a first scan.
///
/// A read that gave another number of bytes than was asked for ends the
/// capture with `Unreadable`; a first scan then falls back to the loaded
/// state. While bytes are missing, the session asks for the next ones. With
/// the last bytes the capture becomes the current snapshot and the one that
/// was current the previous one. A loaded region is shown with its bytes; a
/// first scan replaces the candidates by what it found and shows them.
pub open spec fn capture_outcome(
    pre: StateModel,
    region: MemoryRegion,
    filled: Seq<u8>,
    scan: Option<SearchQuery>,
    chunk: Seq<u8>,
    time: u64,
    post: StateModel,
    action: Action,
) -> bool {
    let asked = next_read(region, filled.len() as int, CAPTURE_WINDOW as int);
    let bytes = filled + chunk;
    if asked is None || chunk.len() != (asked->0).1 {
        &&& post == StateModel {
            step: if scan is Some {
                Step::Loaded
            } else {
                pre.step
            },
            pending: PendingModel::Idle,
            ..pre
        }
        &&& action == Action::Reply(RenderEvent::Error(ErrorKind::Unreadable))
    } else if bytes.len() < region.spec_size() {
        &&& post == StateModel {
            pending: match scan {
                Some(query) => PendingModel::Scanning(region, bytes, query),
                None => PendingModel::Loading(region, bytes),
            },
            ..pre
        }
        &&& next_read(region, bytes.len() as int, CAPTURE_WINDOW as int) matches Some(read)
            && action == Action::Perform(Request::Read(read.0, read.1))
    } else {
        let snapshot = SnapshotModel { region, bytes, capture_time: time };
        match scan {
            None => {
                &&& post == StateModel {
                    step: Step::Loaded,
                    region: Some(region),
                    current: Some(snapshot),
                    previous: pre.current,
                    candidates: Seq::empty(),
                    pending: PendingModel::Idle,
                    ..pre
                }
                &&& action matches Action::Reply(RenderEvent::BufferLoaded(start, end, shown))
                    && start == region.start_address && end == region.end_address && shown@
                    == bytes
            },
            Some(query) => {
                &&& post == StateModel {
                    step: Step::Loaded,
                    current: Some(snapshot),
                    previous: pre.current,
                    candidates: first_scan_result(region.start_address, bytes, query),
                    pending: PendingModel::Idle,
                    ..pre
                }
                &&& action matches Action::Reply(RenderEvent::SearchResult(found))
                    && candidate_models(found@) == post.candidates && candidates_wf(found@)
            },
        }
    }
}

/// What the completion of a request does to a session, and what the session
/// does next.
///
/// A completion that does not answer the request that is out, or that comes
/// while none is out, is a `ProtocolViolation` and changes nothing.
///
/// - Opening: once the process is open, its regions are asked for. A failure
///   ends the session.
/// - Listing: the regions are taken in and shown, the process list is
///   dropped, and a region is to be chosen. After a failure the region list
///   is empty and the error is shown.
/// - Rechecking: the new regions are taken in. Where they allow the loaded
///   region to be read, the first scan starts to capture it; where not, the
///   error is final and the session falls back to the loaded state.
/// - Loading and scanning: see [`capture_outcome`]. A failure ends the
///   capture; a first scan falls back to the loaded state.
/// - Refining: each candidate stays exactly when its read came back and its
///   fresh value passes the query; the candidates that are left are shown.
///   After a failure the candidates stay as they are.
/// - Refreshing: the new regions are taken in. Where they allow the write,
///   it is asked for; where not, the error is final.
/// - Writing: the write succeeded only if it stored every byte; else it is
///   a `PartialWrite`.
pub open spec fn completion_outcome(
    pre: StateModel,
    completion: Completion,
    post: StateModel,
    action: Action,
) -> bool {
    if !expected(pre.pending, completion) {
        rejected(pre, post, action, ErrorKind::ProtocolViolation)
    } else {
        match (pre.pending, completion) {
            (PendingModel::Opening(pid), Completion::Opened) => {
                &&& post == StateModel { pid: Some(pid), pending: PendingModel::Listing, ..pre }
                &&& action == Action::Perform(Request::ListRegions(pid))
            },
            (PendingModel::Opening(_), Completion::Failed(kind)) => {
                &&& post == pre.terminated()
                &&& action == Action::Reply(RenderEvent::Error(kind))
            },
            (PendingModel::Listing, Completion::Regions(list)) => {
                &&& post == StateModel {
                    step: Step::SelectingRegion,
                    processes: Seq::empty(),
                    regions: list@,
                    pending: PendingModel::Idle,
                    ..pre
                }
                &&& action matches Action::Reply(RenderEvent::RegionList(shown)) && shown@ == list@
            },
            (PendingModel::Listing, Completion::Failed(kind)) => {
                &&& post == StateModel {
                    step: Step::SelectingRegion,
                    processes: Seq::empty(),
                    regions: Seq::empty(),
                    pending: PendingModel::Idle,
                    ..pre
                }
                &&& action == Action::Reply(RenderEvent::Error(kind))
            },
            (PendingModel::Loading(region, filled), Completion::Bytes(chunk, time)) => {
                capture_outcome(pre, region, filled, None, chunk@, time, post, action)
            },
            (PendingModel::Loading(_, _), Completion::Failed(kind)) => {
                &&& post == StateModel { pending: PendingModel::Idle, ..pre }
                &&& action == Action::Reply(RenderEvent::Error(kind))
            },
            (PendingModel::Rechecking(query), Completion::Regions(list)) => {
                let region = pre.region->0;
                match access_error(
                    list@,
                    region.start_address,
                    region.spec_size(),
                    AccessKind::Read,
                ) {
                    None => {
                        &&& post == StateModel {
                            regions: list@,
                            pending: PendingModel::Scanning(region, Seq::empty(), query),
                            ..pre
                        }
                        &&& next_read(region, 0, CAPTURE_WINDOW as int) matches Some(read)
                            && action == Action::Perform(Request::Read(read.0, read.1))
                    },
                    Some(e) => {
                        &&& post == StateModel {
                            step: Step::Loaded,
                            regions: list@,
                            pending: PendingModel::Idle,
                            ..pre
                        }
                        &&& action == Action::Reply(RenderEvent::Error(e))
                    },
                }
            },
            (PendingModel::Rechecking(_), Completion::Failed(kind)) => {
                &&& post == StateModel { step: Step::Loaded, pending: PendingModel::Idle, ..pre }
                &&& action == Action::Reply(RenderEvent::Error(kind))
            },
            (PendingModel::Scanning(region, filled, query), Completion::Bytes(chunk, time)) => {
                capture_outcome(pre, region, filled, Some(query), chunk@, time, post, action)
            },
            (PendingModel::Scanning(_, _, _), Completion::Failed(kind)) => {
                &&& post == StateModel {
                    step: Step::Loaded,
                    pending: PendingModel::Idle,
                    ..pre
                }
                &&& action == Action::Reply(RenderEvent::Error(kind))
            },
            (PendingModel::Refining(query), Completion::Samples(reads)) => {
                &&& post == StateModel {
                    step: Step::Loaded,
                    candidates: refine_result(pre.candidates, read_models(reads@), query),
                    pending: PendingModel::Idle,
                    ..pre
                }
                &&& action matches Action::Reply(RenderEvent::SearchResult(found))
                    && candidate_models(found@) == post.candidates && candidates_wf(found@)
            },
            (PendingModel::Refining(_), Completion::Failed(kind)) => {
                &&& post == StateModel {
                    step: Step::Loaded,
                    pending: PendingModel::Idle,
                    ..pre
                }
                &&& action == Action::Reply(RenderEvent::Error(kind))
            },
            (PendingModel::Refreshing(address, data), Completion::Regions(list)) => {
                match access_error(list@, address, data.len() as int, AccessKind::Write) {
                    None => {
                        &&& post == StateModel {
                            regions: list@,
                            pending: PendingModel::Writing(data.len() as usize),
                            ..pre
                        }
                        &&& action matches Action::Perform(Request::Write(target, bytes)) && target
                            == address && bytes@ == data
                    },
                    Some(e) => {
                        &&& post == StateModel {
                            regions: list@,
                            pending: PendingModel::Idle,
                            ..pre
                        }
                        &&& action == Action::Reply(RenderEvent::WriteError(e))
                    },
                }
            },
            (PendingModel::Refreshing(_, _), Completion::Failed(kind)) => {
                &&& post == StateModel { pending: PendingModel::Idle, ..pre }
                &&& action == Action::Reply(RenderEvent::WriteError(kind))
            },
            (PendingModel::Writing(length), Completion::Written(written)) => {
                &&& post == StateModel { pending: PendingModel::Idle, ..pre }
                &&& action == Action::Reply(
                    if written == length {
                        RenderEvent::WriteAck
                    } else {
                        RenderEvent::WriteError(ErrorKind::PartialWrite)
                    },
                )
            },
            (PendingModel::Writing(_), Completion::Failed(kind)) => {
                &&& post == StateModel { pending: PendingModel::Idle, ..pre }
                &&& action == Action::Reply(RenderEvent::WriteError(kind))
            },
            _ => false,
        }
    }
}

/// An upper bound on the number of requests that a session still hands out
/// before it answers the front end.
pub open spec fn work_left(model: StateModel) -> nat {
    match model.pending {
        PendingModel::Idle => 0,
        PendingModel::Opening(_) => 2,
        PendingModel::Listing => 1,
        PendingModel::Loading(region, filled) => (region.spec_size() - filled.len()) as nat,
        PendingModel::Rechecking(_) => match model.region {
            Some(region) => region.spec_size() as nat + 1,
            None => 1,
        },
        PendingModel::Scanning(region, filled, _) => (region.spec_size() - filled.len()) as nat,
        PendingModel::Refining(_) => 1,
        PendingModel::Refreshing(_, _) => 2,
        PendingModel::Writing(_) => 1,
    }
}

/// An event that reaches a session that waits for nothing is either answered
/// at once, and the session then still waits for nothing, or it leads to a
/// request, and the session then waits for its completion.
pub proof fn lemma_event_alternates(
    pre: StateModel,
    event: UiEvent,
    post: StateModel,
    action: Action,
)
    requires
        pre.wf(),
        pre.pending is Idle,
        event_outcome(pre, event, post, action),
    ensures
        action is Reply <==> post.pending is Idle,
        action is Perform ==> work_left(post) > 0,
{
}

/// The completion of the request that is out either brings the answer for
/// the front end, and the session then waits for nothing, or it leads to
/// another request and leaves less work than before. So every event is
/// answered by exactly one render event after finitely many requests.
pub proof fn lemma_completion_progress(
    pre: StateModel,
    completion: Completion,
    post: StateModel,
    action: Action,
)
    requires
        pre.wf(),
        expected(pre.pending, completion),
        completion_outcome(pre, completion, post, action),
    ensures
        action is Reply <==> post.pending is Idle,
        action is Perform ==> work_left(post) < work_left(pre),
{
}

/// Searching twice for what is unchanged, while the target stays as it is,
/// changes nothing the second time.
///
/// A loaded session takes `Search` with an `Unchanged` query and is given
/// what the target holds at each address it asks for. The same search is then
/// repeated, and the target gives the same bytes for the same addresses. The
/// candidates after the second search are those after the first.
pub proof fn lemma_unchanged_search_fixed_point(
    pre: StateModel,
    query: SearchQuery,
    memory: spec_fn(u64, nat) -> Option<Seq<u8>>,
    first_wait: StateModel,
    first_asked: Action,
    first_reads: Vec<Option<Vec<u8>>>,
    first_post: StateModel,
    first_reply: Action,
    second_wait: StateModel,
    second_asked: Action,
    second_reads: Vec<Option<Vec<u8>>>,
    second_post: StateModel,
    second_reply: Action,
)
    requires
        pre.wf(),
        pre.step == Step::Loaded,
        pre.pending is Idle,
        query.predicate == Predicate::Unchanged,
        event_outcome(pre, UiEvent::Search(query), first_wait, first_asked),
        read_models(first_reads@) == reads_of(memory, first_wait.candidates),
        completion_outcome(first_wait, Completion::Samples(first_reads), first_post, first_reply),
        event_outcome(first_post, UiEvent::Search(query), second_wait, second_asked),
        read_models(second_reads@) == reads_of(memory, second_wait.candidates),
        completion_outcome(
            second_wait,
            Completion::Samples(second_reads),
            second_post,
            second_reply,
        ),
    ensures
        second_post.candidates == first_post.candidates,
{
    if pre.candidates.len() > 0 && query.valid_refinement() && query.spec_width()
        == pre.candidates[0].value.len() {
        let readable_first = first_wait.candidates;
        let kept = first_post.candidates;
        lemma_readable_shrinks(pre.candidates, pre.regions);
        lemma_refine_shrinks(readable_first, reads_of(memory, readable_first), query);
        lemma_unchanged_fixed_point(readable_first, memory, query);
        if kept.len() > 0 {
            assert forall|j: int| 0 <= j < kept.len() implies is_readable(
                #[trigger] kept[j],
                pre.regions,
            ) by {
                assert(stems_from(kept[j], readable_first));
                let i = choose|i: int|
                    0 <= i < readable_first.len() && (#[trigger] readable_first[i]).address
                        == kept[j].address && readable_first[i].value.len() == kept[j].value.len();
                assert(is_readable(readable_first[i], pre.regions));
            }
            lemma_readable_all(kept, pre.regions);
        }
    }
}

/// Bytes that the front end has written are read back as they were written.
///
/// A loaded session takes `WriteValue(address, data)` for a range that the
/// known regions allow to be written. It then asks for exactly these bytes
/// to be stored at exactly this address. When a target whose region covers
/// the range and may be read and written stores them, and reports to have
/// stored all of them, the session acknowledges the write and is as it was
/// before, and reading the range from the target gives `data`.
pub proof fn lemma_write_value_round_trip(
    pre: StateModel,
    address: u64,
    data: Vec<u8>,
    waiting: StateModel,
    asked: Action,
    target: MemoryImage,
    stored: MemoryImage,
    post: StateModel,
    reply: Action,
)
    requires
        pre.wf(),
        pre.step == Step::Loaded,
        pre.pending is Idle,
        access_error(pre.regions, address, data@.len() as int, AccessKind::Write) is None,
        event_outcome(pre, UiEvent::WriteValue(address, data), waiting, asked),
        target.wf(),
        target.region.covers(address, data@.len() as int),
        target.region.permissions.read,
        target.region.permissions.write,
        stored.region == target.region,
        target.write_result(address, data@) == Ok::<Seq<u8>, ErrorKind>(stored.bytes@),
        completion_outcome(waiting, Completion::Written(data@.len() as usize), post, reply),
    ensures
        asked matches Action::Perform(Request::Write(place, bytes)) && place == address && bytes@
            == data@,
        reply == Action::Reply(RenderEvent::WriteAck),
        post == pre,
        stored.read_result(address, data@.len() as int) == Ok::<Seq<u8>, ErrorKind>(data@),
{
    lemma_round_trip(target, address, data@, stored);
}

/// The request that a session waits for, with what it needs to go on.
#[derive(Debug)]
enum Pending {
    Idle,
    Opening(i32),
    Listing,
    Loading(Capture),
    Rechecking(SearchQuery),
    Scanning(Capture, SearchQuery),
    Refining(SearchQuery),
    Refreshing(u64, Vec<u8>),
    Writing(usize),
}

impl View for Pending {
    type V = PendingModel;

    closed spec fn view(&self) -> PendingModel {
        match *self {
            Pending::Idle => PendingModel::Idle,
            Pending::Opening(pid) => PendingModel::Opening(pid),
            Pending::Listing => PendingModel::Listing,
            Pending::Loading(capture) => PendingModel::Loading(capture.region(), capture.filled()),
            Pending::Rechecking(query) => PendingModel::Rechecking(query),
            Pending::Scanning(capture, query) => PendingModel::Scanning(
                capture.region(),
                capture.filled(),
                query,
            ),
            Pending::Refining(query) => PendingModel::Refining(query),
            Pending::Refreshing(address, data) => PendingModel::Refreshing(address, data@),
            Pending::Writing(length) => PendingModel::Writing(length),
        }
    }
}

/// One session of the inspector: where it stands, what it has listed, loaded
/// and found, and the request it waits for.
#[derive(Debug)]
pub struct State {
    step: Step,
    processes: Vec<ProcessRef>,
    pid: Option<i32>,
    regions: Vec<MemoryRegion>,
    region: Option<MemoryRegion>,
    store: SnapshotStore,
    candidates: Vec<Candidate>,
    pending: Pending,
}

impl View for State {
    type V = StateModel;

    closed spec fn view(&self) -> StateModel {
        StateModel {
            step: self.step,
            processes: self.processes@,
            pid: self.pid,
            regions: self.regions@,
            region: self.region,
            current: self.store.current_model(),
            previous: self.store.previous_model(),
            candidates: candidate_models(self.candidates@),
            pending: self.pending@,
        }
    }
}

impl State {
    /// What holds of every session between two calls: what
    /// [`StateModel::wf`] says, and that the candidates and the capture under
    /// way are well formed.
    pub closed spec fn wf(&self) -> bool {
        &&& self@.wf()
        &&& candidates_wf(self.candidates@)
        &&& match self.pending {
            Pending::Loading(capture) => capture.wf() && capture.window() == CAPTURE_WINDOW,
            Pending::Scanning(capture, _) => capture.wf() && capture.window() == CAPTURE_WINDOW,
            _ => true,
        }
    }

    /// Starts a session from the process table, or from the error that
    /// reading the table gave. The session waits for a process to be chosen.
    /// After an error it holds an empty list and reports the error.
    pub fn start(processes: Result<Vec<ProcessRef>, ErrorKind>) -> (r: (State, RenderEvent))
        ensures
            r.0.wf(),
            r.0@.wf(),
            r.0@ == (StateModel {
                step: Step::SelectingProcess,
                processes: match processes {
                    Ok(list) => list@,
                    Err(_) => Seq::empty(),
                },
                pid: None,
                regions: Seq::empty(),
                region: None,
                current: None,
                previous: None,
                candidates: Seq::empty(),
                pending: PendingModel::Idle,
            }),
            match processes {
                Ok(list) => r.1 matches RenderEvent::ProcessList(shown) && shown@ == list@,
                Err(e) => r.1 == RenderEvent::Error(e),
            },
    {
        let (list, message) = match processes {
            Ok(list) => {
                let shown = copy_processes(list.as_slice());
                (list, RenderEvent::ProcessList(shown))
            },
            Err(e) => (Vec::new(), RenderEvent::Error(e)),
        };
        let session = State {
            step: Step::SelectingProcess,
            processes: list,
            pid: None,
            regions: Vec::new(),
            region: None,
            store: SnapshotStore::new(),
            candidates: Vec::new(),
            pending: Pending::Idle,
        };
        assert(candidate_models(session.candidates@) =~= Seq::empty());
        (session, message)
    }

    /// Where the session stands.
    pub fn step(&self) -> (r: Step)
        ensures
            r == self@.step,
    {
        self.step
    }

    /// Whether the session has ended.
    pub fn is_terminated(&self) -> (r: bool)
        ensures
            r == (self@.step == Step::Terminated),
    {
        self.step == Step::Terminated
    }

    /// Whether the session waits for the completion of a request.
    pub fn is_waiting(&self) -> (r: bool)
        ensures
            r == !(self@.pending is Idle),
    {
        match &self.pending {
            Pending::Idle => false,
            _ => true,
        }
    }

    /// The process list that the session chooses from.
    pub fn processes(&self) -> (r: &[ProcessRef])
        ensures
            r@ == self@.processes,
    {
        self.processes.as_slice()
    }

    /// The pid of the chosen process.
    pub fn pid(&self) -> (r: Option<i32>)
        ensures
            r == self@.pid,
    {
        self.pid
    }

    /// The regions of the target as they were last listed.
    pub fn regions(&self) -> (r: &[MemoryRegion])
        ensures
            r@ == self@.regions,
    {
        self.regions.as_slice()
    }

    /// The region that was loaded.
    pub fn region(&self) -> (r: Option<&MemoryRegion>)
        ensures
            match r {
                Some(region) => self@.region == Some(*region),
                None => self@.region is None,
            },
    {
        self.region.as_ref()
    }

    /// The candidates, by ascending address.
    pub fn candidates(&self) -> (r: &[Candidate])
        requires
            self.wf(),
        ensures
            candidate_models(r@) == self@.candidates,
            candidates_wf(r@),
            ascending(candidate_models(r@)),
    {
        self.candidates.as_slice()
    }

    /// The newest snapshot, if there is one.
    pub fn current_snapshot(&self) -> (r: Option<&MemorySnapshot>)
        ensures
            match r {
                Some(snapshot) => self@.current == Some(snapshot@),
                None => self@.current is None,
            },
    {
        self.store.current()
    }

    /// The snapshot before the newest, if there is one.
    pub fn previous_snapshot(&self) -> (r: Option<&MemorySnapshot>)
        ensures
            match r {
                Some(snapshot) => self@.previous == Some(snapshot@),
                None => self@.previous is None,
            },
    {
        self.store.previous()
    }

    /// Takes in one event and says what the session does next. See
    /// [`event_outcome`].
    pub fn on_event(&mut self, event: UiEvent) -> (action: Action)
        requires
            old(self).wf(),
        ensures
            final(self).wf(),
            final(self)@.wf(),
            event_outcome(old(self)@, event, final(self)@, action),
            follows(old(self)@.step, final(self)@.step),
            old(self)@.step == Step::Terminated ==> final(self)@.step
                == Step::Terminated,
            final(self)@.candidates.len() <= old(self)@.candidates.len(),
    {
        if let UiEvent::Quit = event {
            self.step = Step::Terminated;
            self.pending = Pending::Idle;
            self.store.release();
            return Action::Reply(RenderEvent::Empty);
        }
        if self.step == Step::Terminated || self.is_waiting() {
            return Action::Reply(RenderEvent::Error(ErrorKind::ProtocolViolation));
        }
        match event {
            UiEvent::SelectProcess(index) => self.select_process(index),
            UiEvent::SelectRegion(index) => self.select_region(index),
            UiEvent::Search(query) => self.search(query),
            UiEvent::WriteValue(address, data) => self.write_value(address, data),
            UiEvent::Quit => Action::Reply(RenderEvent::Empty),
        }
    }

    /// Handles `SelectProcess` in a session that waits for nothing.
    fn select_process(&mut self, index: usize) -> (action: Action)
        requires
            old(self).wf(),
            old(self)@.pending is Idle,
        ensures
            final(self).wf(),
            select_process_outcome(old(self)@, index, final(self)@, action),
            final(self)@.step == old(self)@.step,
            final(self)@.candidates == old(self)@.candidates,
    {
        if self.step == Step::SelectingProcess && index < self.processes.len() {
            let pid: i32 = self.processes[index].pid;
            self.pending = Pending::Opening(pid);
            Action::Perform(Request::Open(pid))
        } else {
            Action::Reply(RenderEvent::Error(ErrorKind::ProtocolViolation))
        }
    }

    /// Handles `SelectRegion` in a session that waits for nothing.
    fn select_region(&mut self, index: usize) -> (action: Action)
        requires
            old(self).wf(),
            old(self)@.pending is Idle,
        ensures
            final(self).wf(),
            select_region_outcome(old(self)@, index, final(self)@, action),
            final(self)@.step == old(self)@.step,
            final(self)@.candidates == old(self)@.candidates,
    {
        if self.step != Step::SelectingRegion || index >= self.regions.len() {
            return Action::Reply(RenderEvent::Error(ErrorKind::ProtocolViolation));
        }
        let region = self.regions[index].duplicate();
        if !region.is_well_formed() {
            return Action::Reply(RenderEvent::Error(ErrorKind::ProtocolViolation));
        }
        if !region.permissions.read {
            return Action::Reply(RenderEvent::Error(ErrorKind::Unreadable));
        }
        match Capture::begin(region, CAPTURE_WINDOW) {
            Err(e) => Action::Reply(RenderEvent::Error(e)),
            Ok(capture) => match capture.next_chunk() {
                Some((address, length)) => {
                    self.pending = Pending::Loading(capture);
                    Action::Perform(Request::Read(address, length))
                },
                None => Action::Reply(RenderEvent::Error(ErrorKind::ProtocolViolation)),
            },
        }
    }

    /// Handles `Search` in a session that waits for nothing.
    fn search(&mut self, query: SearchQuery) -> (action: Action)
        requires
            old(self).wf(),
            old(self)@.pending is Idle,
        ensures
            final(self).wf(),
            search_outcome(old(self)@, query, final(self)@, action),
            follows(old(self)@.step, final(self)@.step),
            old(self)@.step == Step::Terminated ==> final(self)@.step
                == Step::Terminated,
            final(self)@.candidates.len() <= old(self)@.candidates.len(),
    {
        if self.step != Step::Loaded {
            return Action::Reply(RenderEvent::Error(ErrorKind::ProtocolViolation));
        }
        if self.candidates.len() == 0 {
            if !query.is_valid_first() {
                return Action::Reply(RenderEvent::Error(ErrorKind::ProtocolViolation));
            }
            let (region, pid) = match (&self.region, self.pid) {
                (Some(region), Some(pid)) => (region.duplicate(), pid),
                _ => {
                    return Action::Reply(RenderEvent::Error(ErrorKind::ProtocolViolation));
                },
            };
            let size: usize = region.size() as usize;
            match plan_access(
                self.regions.as_slice(),
                region.start_address,
                size,
                AccessKind::Read,
                false,
            ) {
                AccessPlan::Proceed(_) => self.begin_scan(region, query),
                AccessPlan::Refresh => {
                    self.step = Step::Searching;
                    self.pending = Pending::Rechecking(query);
                    Action::Perform(Request::ListRegions(pid))
                },
                AccessPlan::Fail(e) => Action::Reply(RenderEvent::Error(e)),
            }
        } else {
            assert(self.candidates@[0].wf());
            if !query.is_valid_refinement() || query.data_type.width() != self.candidates[0].width {
                return Action::Reply(RenderEvent::Error(ErrorKind::ProtocolViolation));
            }
            retain_readable(&mut self.candidates, self.regions.as_slice());
            let plan = plan_samples(self.candidates.as_slice());
            self.step = Step::Searching;
            self.pending = Pending::Refining(query);
            Action::Perform(Request::ReadEach(plan))
        }
    }

    /// Starts to capture the loaded region for a first scan.
    fn begin_scan(&mut self, region: MemoryRegion, query: SearchQuery) -> (action: Action)
        requires
            old(self).wf(),
            old(self)@.pending is Idle,
            old(self)@.region == Some(region),
            old(self)@.step == Step::Loaded,
            old(self)@.candidates.len() == 0,
            query.valid_first(),
        ensures
            final(self).wf(),
            final(self)@ == (StateModel {
                step: Step::Searching,
                pending: PendingModel::Scanning(region, Seq::empty(), query),
                ..old(self)@
            }),
            next_read(region, 0, CAPTURE_WINDOW as int) matches Some(read) && action
                == Action::Perform(Request::Read(read.0, read.1)),
    {
        match Capture::begin(region, CAPTURE_WINDOW) {
            Err(e) => Action::Reply(RenderEvent::Error(e)),
            Ok(capture) => match capture.next_chunk() {
                Some((address, length)) => {
                    self.step = Step::Searching;
                    self.pending = Pending::Scanning(capture, query);
                    Action::Perform(Request::Read(address, length))
                },
                None => Action::Reply(RenderEvent::Error(ErrorKind::ProtocolViolation)),
            },
        }
    }

    /// Handles `WriteValue` in a session that waits for nothing.
    fn write_value(&mut self, address: u64, data: Vec<u8>) -> (action: Action)
        requires
            old(self).wf(),
            old(self)@.pending is Idle,
        ensures
            final(self).wf(),
            write_value_outcome(old(self)@, address, data, final(self)@, action),
            final(self)@.step == old(self)@.step,
            final(self)@.candidates == old(self)@.candidates,
    {
        if self.step != Step::Loaded {
            return Action::Reply(RenderEvent::Error(ErrorKind::ProtocolViolation));
        }
        let pid: i32 = match self.pid {
            Some(pid) => pid,
            None => {
                return Action::Reply(RenderEvent::Error(ErrorKind::ProtocolViolation));
            },
        };
        match plan_access(self.regions.as_slice(), address, data.len(), AccessKind::Write, false) {
            AccessPlan::Proceed(_) => {
                self.pending = Pending::Writing(data.len());
                Action::Perform(Request::Write(address, data))
            },
            AccessPlan::Refresh => {
                self.pending = Pending::Refreshing(address, data);
                Action::Perform(Request::ListRegions(pid))
            },
            AccessPlan::Fail(e) => Action::Reply(RenderEvent::WriteError(e)),
        }
    }
    /// Whether a completion is of a kind that answers the request that is
    /// out.
    fn expects(&self, completion: &Completion) -> (r: bool)
        ensures
            r == expected(self@.pending, *completion),
    {
        match (&self.pending, completion) {
            (Pending::Idle, _) => false,
            (_, Completion::Failed(_)) => true,
            (Pending::Opening(_), Completion::Opened) => true,
            (Pending::Listing, Completion::Regions(_)) => true,
            (Pending::Refreshing(_, _), Completion::Regions(_)) => true,
            (Pending::Rechecking(_), Completion::Regions(_)) => true,
            (Pending::Loading(_), Completion::Bytes(_, _)) => true,
            (Pending::Scanning(_, _), Completion::Bytes(_, _)) => true,
            (Pending::Refining(_), Completion::Samples(_)) => true,
            (Pending::Writing(_), Completion::Written(_)) => true,
            _ => false,
        }
    }

    /// Takes in the completion of the request that is out and says what the
    /// session does next. See [`completion_outcome`].
    pub fn on_completion(&mut self, completion: Completion) -> (action: Action)
        requires
            old(self).wf(),
        ensures
            final(self).wf(),
            final(self)@.wf(),
            completion_outcome(old(self)@, completion, final(self)@, action),
            follows(old(self)@.step, final(self)@.step),
            old(self)@.step == Step::Terminated ==> final(self)@.step
                == Step::Terminated,
            !(old(self)@.pending is Scanning) ==> final(self)@.candidates.len() <= old(
                self,
            )@.candidates.len(),
    {
        if !self.expects(&completion) {
            return Action::Reply(RenderEvent::Error(ErrorKind::ProtocolViolation));
        }
        let mut pending = Pending::Idle;
        core::mem::swap(&mut self.pending, &mut pending);
        match (pending, completion) {
            (Pending::Opening(pid), Completion::Opened) => {
                self.pid = Some(pid);
                self.pending = Pending::Listing;
                Action::Perform(Request::ListRegions(pid))
            },
            (Pending::Opening(_), Completion::Failed(kind)) => {
                self.step = Step::Terminated;
                self.store.release();
                Action::Reply(RenderEvent::Error(kind))
            },
            (Pending::Listing, Completion::Regions(list)) => {
                let shown = copy_regions(list.as_slice());
                self.regions = list;
                self.processes = Vec::new();
                self.step = Step::SelectingRegion;
                Action::Reply(RenderEvent::RegionList(shown))
            },
            (Pending::Listing, Completion::Failed(kind)) => {
                self.regions = Vec::new();
                self.processes = Vec::new();
                self.step = Step::SelectingRegion;
                Action::Reply(RenderEvent::Error(kind))
            },
            (Pending::Loading(capture), Completion::Bytes(chunk, time)) => self.take_bytes(
                capture,
                None,
                chunk,
                time,
            ),
            (Pending::Loading(_), Completion::Failed(kind)) => Action::Reply(
                RenderEvent::Error(kind),
            ),
            (Pending::Rechecking(query), Completion::Regions(list)) => {
                self.regions = list;
                let region = match &self.region {
                    Some(region) => region.duplicate(),
                    None => {
                        return Action::Reply(RenderEvent::Error(ErrorKind::ProtocolViolation));
                    },
                };
                let size: usize = region.size() as usize;
                match plan_access(
                    self.regions.as_slice(),
                    region.start_address,
                    size,
                    AccessKind::Read,
                    true,
                ) {
                    AccessPlan::Proceed(_) => {
                        self.step = Step::Loaded;
                        self.begin_scan(region, query)
                    },
                    AccessPlan::Fail(e) => {
                        self.step = Step::Loaded;
                        Action::Reply(RenderEvent::Error(e))
                    },
                    AccessPlan::Refresh => Action::Reply(
                        RenderEvent::Error(ErrorKind::OutOfRange),
                    ),
                }
            },
            (Pending::Rechecking(_), Completion::Failed(kind)) => {
                self.step = Step::Loaded;
                Action::Reply(RenderEvent::Error(kind))
            },
            (Pending::Scanning(capture, query), Completion::Bytes(chunk, time)) => self.take_bytes(
                capture,
                Some(query),
                chunk,
                time,
            ),
            (Pending::Scanning(_, _), Completion::Failed(kind)) => {
                self.step = Step::Loaded;
                Action::Reply(RenderEvent::Error(kind))
            },
            (Pending::Refining(query), Completion::Samples(reads)) => {
                self.step = Step::Loaded;
                match refine(&mut self.candidates, reads.as_slice(), &query) {
                    Ok(()) => Action::Reply(
                        RenderEvent::SearchResult(copy_candidates(self.candidates.as_slice())),
                    ),
                    Err(e) => Action::Reply(RenderEvent::Error(e)),
                }
            },
            (Pending::Refining(_), Completion::Failed(kind)) => {
                self.step = Step::Loaded;
                Action::Reply(RenderEvent::Error(kind))
            },
            (Pending::Refreshing(address, data), Completion::Regions(list)) => {
                self.regions = list;
                match plan_access(
                    self.regions.as_slice(),
                    address,
                    data.len(),
                    AccessKind::Write,
                    true,
                ) {
                    AccessPlan::Proceed(_) => {
                        self.pending = Pending::Writing(data.len());
                        Action::Perform(Request::Write(address, data))
                    },
                    AccessPlan::Fail(e) => Action::Reply(RenderEvent::WriteError(e)),
                    AccessPlan::Refresh => Action::Reply(
                        RenderEvent::WriteError(ErrorKind::OutOfRange),
                    ),
                }
            },
            (Pending::Refreshing(_, _), Completion::Failed(kind)) => Action::Reply(
                RenderEvent::WriteError(kind),
            ),
            (Pending::Writing(length), Completion::Written(written)) => {
                match write_outcome(length, written) {
                    Ok(_) => Action::Reply(RenderEvent::WriteAck),
                    Err(e) => Action::Reply(RenderEvent::WriteError(e)),
                }
            },
            (Pending::Writing(_), Completion::Failed(kind)) => Action::Reply(
                RenderEvent::WriteError(kind),
            ),
            _ => Action::Reply(RenderEvent::Error(ErrorKind::ProtocolViolation)),
        }
    }

    /// Takes the bytes of one read into the capture that is under way.
    fn take_bytes(
        &mut self,
        capture: Capture,
        scan: Option<SearchQuery>,
        chunk: Vec<u8>,
        time: u64,
    ) -> (action: Action)
        requires
            old(self)@.pending is Idle,
            capture.window() == CAPTURE_WINDOW,
            candidates_wf(old(self).candidates@),
            (StateModel {
                pending: match scan {
                    Some(query) => PendingModel::Scanning(
                        capture.region(),
                        capture.filled(),
                        query,
                    ),
                    None => PendingModel::Loading(capture.region(), capture.filled()),
                },
                ..old(self)@
            }).wf(),
        ensures
            final(self).wf(),
            capture_outcome(
                StateModel {
                    pending: match scan {
                        Some(query) => PendingModel::Scanning(
                            capture.region(),
                            capture.filled(),
                            query,
                        ),
                        None => PendingModel::Loading(capture.region(), capture.filled()),
                    },
                    ..old(self)@
                },
                capture.region(),
                capture.filled(),
                scan,
                chunk@,
                time,
                final(self)@,
                action,
            ),
            follows(old(self)@.step, final(self)@.step),
            scan is None ==> final(self)@.candidates.len() <= old(self)@.candidates.len(),
    {
        let mut capture = capture;
        match capture.accept(chunk) {
            Err(e) => {
                if scan.is_some() {
                    self.step = Step::Loaded;
                }
                Action::Reply(RenderEvent::Error(e))
            },
            Ok(false) => match capture.next_chunk() {
                Some((address, length)) => {
                    self.pending = match scan {
                        Some(query) => Pending::Scanning(capture, query),
                        None => Pending::Loading(capture),
                    };
                    Action::Perform(Request::Read(address, length))
                },
                None => Action::Reply(RenderEvent::Error(ErrorKind::ProtocolViolation)),
            },
            Ok(true) => match capture.finish(time) {
                Err(e) => Action::Reply(RenderEvent::Error(e)),
                Ok(snapshot) => {
                    let region = snapshot.region().duplicate();
                    match scan {
                        None => {
                            let shown = vstd::slice::slice_to_vec(snapshot.bytes());
                            let start: u64 = region.start_address;
                            let end: u64 = region.end_address;
                            self.store.capture(snapshot);
                            self.region = Some(region);
                            self.candidates = Vec::new();
                            self.step = Step::Loaded;
                            assert(candidate_models(self.candidates@) =~= Seq::empty());
                            Action::Reply(RenderEvent::BufferLoaded(start, end, shown))
                        },
                        Some(query) => match first_scan(
                            region.start_address,
                            snapshot.bytes(),
                            &query,
                        ) {
                            Err(e) => Action::Reply(RenderEvent::Error(e)),
                            Ok(found) => {
                                let shown = copy_candidates(found.as_slice());
                                self.candidates = found;
                                self.store.capture(snapshot);
                                self.step = Step::Loaded;
                                Action::Reply(RenderEvent::SearchResult(shown))
                            },
                        },
                    }
                },
            },
        }
    }
}

/// Lists the reads that a refinement asks for.
fn plan_samples(candidates: &[Candidate]) -> (plan: Vec<(u64, usize)>)
    requires
        candidates_wf(candidates@),
    ensures
        plan@ == sample_plan(candidate_models(candidates@)),
{
    let mut plan: Vec<(u64, usize)> = Vec::new();
    let mut i: usize = 0;
    while i < candidates.len()
        invariant
            i <= candidates@.len(),
            candidates_wf(candidates@),
            plan@.len() == i,
            forall|k: int|
                0 <= k < i ==> #[trigger] plan@[k] == (
                    candidates@[k].address,
                    candidates@[k].last_known_value@.len() as usize,
                ),
        decreases candidates@.len() - i,
    {
        assert(candidates@[i as int].wf());
        plan.push((candidates[i].address, candidates[i].width));
        i += 1;
    }
    assert(plan@ =~= sample_plan(candidate_models(candidates@)));
    plan
}

} // verus!
