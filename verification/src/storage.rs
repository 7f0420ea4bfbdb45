//! The driver's side of the exchange, as a model: what carrying out an action
//! does to the storage directory, and what the driver may report of it.
//!
//! The model takes the directory as it is shared: a file is created only
//! under a name that no file has, and other requests create and write files
//! of their own in between. Under these terms a request changes no file but
//! those that it created, and requests that run at the same time store under
//! different names.

use crate::filename::candidate;
use crate::ingest::{ActionModel, EventModel, Model, PhaseModel};
use crate::response::{url_of, ResponseModel};
use vstd::prelude::*;

verus! {

/// A request in progress: its ingestor and what its driver holds.
pub struct Request {
    /// The state of the ingestor.
    pub state: Model,
    /// The action that the ingestor called for last.
    pub pending: ActionModel,
    /// The name of the file that the driver holds open, if any.
    pub open: Option<Seq<char>>,
    /// The files that the request created, each with the bytes that the
    /// request has appended to it.
    pub appended: Map<Seq<char>, Seq<u8>>,
}

impl Request {
    /// A request of which nothing has been seen yet.
    pub open spec fn start(base_url: Seq<char>, windows: bool) -> Request {
        Request {
            state: Model::start(base_url, windows),
            pending: ActionModel::NextPart,
            open: None,
            appended: Map::empty(),
        }
    }

    /// The names of the files that the request created.
    pub open spec fn created(self) -> Set<Seq<char>> {
        self.appended.dom()
    }

    /// Whether the request has ended in failure, so that a write of it may
    /// have failed and left anything in its file.
    pub open spec fn has_failed(self) -> bool {
        self.state.phase == (PhaseModel::Done { response: ResponseModel::InternalServerError })
    }

    /// The action called for fits the state, the file held open is the one
    /// streamed to, and the files spoken of are files that the request created.
    pub open spec fn inv(self) -> bool {
        &&& self.pending is NextPart ==> self.state.phase is AwaitingPart
        &&& self.pending matches ActionModel::Create { name } ==> (self.state.phase matches
            PhaseModel::Creating { stem, ext, attempt } && name == candidate(
            stem,
            ext,
            attempt as nat,
        ))
        &&& self.pending is NextChunk || self.pending is Write ==> (self.state.phase matches
            PhaseModel::Streaming { name } && self.open == Some(name))
        &&& self.pending is Respond ==> self.state.phase is Done
        &&& self.open matches Some(name) ==> self.created().contains(name)
        &&& self.state.stored matches Some(name) ==> self.created().contains(name)
        &&& self.state.phase matches PhaseModel::Done {
            response: ResponseModel::Created { url },
        } ==> (self.state.stored matches Some(name) && url == url_of(self.state.base_url, name))
    }

    /// Whether the driver may report `event` of the action called for, the
    /// directory holding `files`. A file is reported created only where none
    /// of its name exists, and a name taken only where one does.
    pub open spec fn may_report(self, files: Map<Seq<char>, Seq<u8>>, event: EventModel) -> bool {
        match self.pending {
            ActionModel::NextPart => event is Part || event is NoMoreParts || event is Malformed,
            ActionModel::Create { name } => {
                ||| event is Created && !files.dom().contains(name)
                ||| event is NameTaken && files.dom().contains(name)
                ||| event is StorageFailed
            },
            ActionModel::NextChunk => event is Chunk || event is PartEnd || event is Malformed,
            ActionModel::Write { .. } => {
                ||| event is Chunk
                ||| event is PartEnd
                ||| event is Malformed
                ||| event is StorageFailed
            },
            ActionModel::Respond { .. } => false,
        }
    }

    /// Whether carrying out the action called for, with `event` as its
    /// outcome, may turn `files` into `after`. A file created is empty. A
    /// write that succeeds appends its data to the open file; one that fails
    /// may leave anything in that file. Nothing else changes.
    pub open spec fn may_leave(
        self,
        files: Map<Seq<char>, Seq<u8>>,
        event: EventModel,
        after: Map<Seq<char>, Seq<u8>>,
    ) -> bool {
        match self.pending {
            ActionModel::Create { name } => if event is Created {
                after == files.insert(name, Seq::empty())
            } else {
                after == files
            },
            ActionModel::Write { data } => match self.open {
                Some(name) => if event is StorageFailed {
                    &&& after.dom() == files.dom()
                    &&& forall|other: Seq<char>| other != name ==> after[other] == files[other]
                } else {
                    after == files.insert(name, files[name] + data)
                },
                None => after == files,
            },
            _ => after == files,
        }
    }

    /// The request after the driver has carried out the action called for
    /// and reported `event` to the ingestor.
    pub open spec fn after(self, event: EventModel) -> Request {
        let (state, action) = self.state.next(event);
        let made = self.pending is Create && event is Created;
        let appended = if made {
            self.appended.insert(self.pending->name, Seq::empty())
        } else if self.pending is Write && self.open is Some && !(event is StorageFailed) {
            self.appended.insert(
                self.open->0,
                self.appended[self.open->0] + self.pending->data,
            )
        } else {
            self.appended
        };
        let open = if action is NextPart || action is Respond {
            None
        } else if made {
            Some(self.pending->name)
        } else {
            self.open
        };
        Request { state, pending: action, open, appended }
    }

    /// The directory holds every file that the request created, and, unless
    /// the request has ended in failure, each with the bytes that the request
    /// appended and no others.
    pub open spec fn fits(self, files: Map<Seq<char>, Seq<u8>>) -> bool {
        &&& self.created().subset_of(files.dom())
        &&& !self.has_failed() ==> forall|name: Seq<char>| #[trigger]
            self.created().contains(name) ==> files[name] == self.appended[name]
    }
}

/// No file is of both requests.
pub open spec fn are_apart(a: Request, b: Request) -> bool {
    a.created().disjoint(b.created())
}

/// Every file of `before` is in `after`, and with the same bytes unless it is
/// one of `own`.
pub open spec fn keeps_others(
    before: Map<Seq<char>, Seq<u8>>,
    after: Map<Seq<char>, Seq<u8>>,
    own: Set<Seq<char>>,
) -> bool {
    &&& before.dom().subset_of(after.dom())
    &&& forall|name: Seq<char>| #[trigger]
        before.dom().contains(name) && !own.contains(name) ==> after[name] == before[name]
}

/// Whatever is reported, the request stays as its invariant says.
pub proof fn law_request_keeps_its_invariant(request: Request, event: EventModel)
    requires
        request.inv(),
    ensures
        request.after(event).inv(),
{
}

/// A request changes no file but those that it created, removes none, and
/// creates only under names that no file had. Its own files hold what it
/// appended to them.
pub proof fn law_request_touches_only_its_own_files(
    request: Request,
    files: Map<Seq<char>, Seq<u8>>,
    event: EventModel,
    after: Map<Seq<char>, Seq<u8>>,
)
    requires
        request.inv(),
        request.fits(files),
        request.may_report(files, event),
        request.may_leave(files, event, after),
    ensures
        request.after(event).fits(after),
        keeps_others(files, after, request.created()),
        request.after(event).created().difference(request.created()).disjoint(files.dom()),
{
}

/// While two requests run at the same time, a step of one leaves the files
/// of the other as they are, and the two never come to share a file.
pub proof fn law_requests_at_once_keep_apart(
    acting: Request,
    other: Request,
    files: Map<Seq<char>, Seq<u8>>,
    event: EventModel,
    after: Map<Seq<char>, Seq<u8>>,
)
    requires
        acting.inv(),
        other.inv(),
        acting.fits(files),
        other.fits(files),
        are_apart(acting, other),
        acting.may_report(files, event),
        acting.may_leave(files, event, after),
    ensures
        are_apart(acting.after(event), other),
        acting.after(event).fits(after),
        other.fits(after),
{
    law_request_touches_only_its_own_files(acting, files, event, after);
}

/// Two requests that ran at the same time and both stored a file are
/// answered with different files, each created by the request itself.
pub proof fn law_requests_at_once_store_apart(a: Request, b: Request)
    requires
        a.inv(),
        b.inv(),
        are_apart(a, b),
        a.state.stored is Some,
        b.state.stored is Some,
    ensures
        a.state.stored != b.state.stored,
        a.created().contains(a.state.stored->0),
        b.created().contains(b.state.stored->0),
{
}

/// One step of two requests that run at the same time: which of the two
/// acted, what its driver reported, and what the directory held afterwards.
pub struct Turn {
    pub first_acts: bool,
    pub event: EventModel,
    pub files: Map<Seq<char>, Seq<u8>>,
}

/// The two requests after the turns.
pub open spec fn requests_after(a: Request, b: Request, turns: Seq<Turn>) -> (Request, Request)
    decreases turns.len(),
{
    if turns.len() == 0 {
        (a, b)
    } else {
        let (first, second) = requests_after(a, b, turns.drop_last());
        if turns.last().first_acts {
            (first.after(turns.last().event), second)
        } else {
            (first, second.after(turns.last().event))
        }
    }
}

/// What the directory holds after the turns.
pub open spec fn files_after(files: Map<Seq<char>, Seq<u8>>, turns: Seq<Turn>) -> Map<
    Seq<char>,
    Seq<u8>,
> {
    if turns.len() == 0 {
        files
    } else {
        turns.last().files
    }
}

/// Whether the turns are such as drivers may take them: in each, the request
/// that acts carries out the action called for, on the directory as the turn
/// before left it, and reports what the directory allows.
pub open spec fn are_possible(
    a: Request,
    b: Request,
    files: Map<Seq<char>, Seq<u8>>,
    turns: Seq<Turn>,
) -> bool
    decreases turns.len(),
{
    if turns.len() == 0 {
        true
    } else {
        let before = turns.drop_last();
        let acting = if turns.last().first_acts {
            requests_after(a, b, before).0
        } else {
            requests_after(a, b, before).1
        };
        &&& are_possible(a, b, files, before)
        &&& acting.may_report(files_after(files, before), turns.last().event)
        &&& acting.may_leave(files_after(files, before), turns.last().event, turns.last().files)
    }
}

/// However the steps of two requests fall in with each other, the two share
/// no file, each file of a request holds what that request appended to it
/// (unless the request ended in failure), and the files that were there
/// before are still there, unchanged.
pub proof fn law_interleaved_requests_keep_apart(
    a: Request,
    b: Request,
    files: Map<Seq<char>, Seq<u8>>,
    turns: Seq<Turn>,
)
    requires
        a.inv(),
        b.inv(),
        a.fits(files),
        b.fits(files),
        are_apart(a, b),
        are_possible(a, b, files, turns),
    ensures
        requests_after(a, b, turns).0.inv(),
        requests_after(a, b, turns).1.inv(),
        are_apart(requests_after(a, b, turns).0, requests_after(a, b, turns).1),
        requests_after(a, b, turns).0.fits(files_after(files, turns)),
        requests_after(a, b, turns).1.fits(files_after(files, turns)),
        a.created().subset_of(requests_after(a, b, turns).0.created()),
        b.created().subset_of(requests_after(a, b, turns).1.created()),
        keeps_others(
            files,
            files_after(files, turns),
            requests_after(a, b, turns).0.created().union(requests_after(a, b, turns).1.created()),
        ),
    decreases turns.len(),
{
    if turns.len() > 0 {
        let before = turns.drop_last();
        let turn = turns.last();
        law_interleaved_requests_keep_apart(a, b, files, before);
        let (a1, b1) = requests_after(a, b, before);
        let f1 = files_after(files, before);
        if turn.first_acts {
            law_request_keeps_its_invariant(a1, turn.event);
            law_requests_at_once_keep_apart(a1, b1, f1, turn.event, turn.files);
            law_request_touches_only_its_own_files(a1, f1, turn.event, turn.files);
        } else {
            law_request_keeps_its_invariant(b1, turn.event);
            law_requests_at_once_keep_apart(b1, a1, f1, turn.event, turn.files);
            law_request_touches_only_its_own_files(b1, f1, turn.event, turn.files);
        }
    }
}

/// Two requests that start on the same directory and run at the same time,
/// in whatever order their steps fall: each is answered with a file that it
/// created itself, so the two are answered with different files, and no file
/// that was there before has changed.
pub proof fn law_requests_from_the_start_keep_apart(
    base_url: Seq<char>,
    windows: bool,
    files: Map<Seq<char>, Seq<u8>>,
    turns: Seq<Turn>,
)
    requires
        are_possible(
            Request::start(base_url, windows),
            Request::start(base_url, windows),
            files,
            turns,
        ),
    ensures
        ({
            let start = Request::start(base_url, windows);
            let (a, b) = requests_after(start, start, turns);
            let left = files_after(files, turns);
            &&& are_apart(a, b)
            &&& a.fits(left)
            &&& b.fits(left)
            &&& keeps_others(files, left, a.created().union(b.created()))
            &&& a.state.stored is Some && b.state.stored is Some ==> a.state.stored
                != b.state.stored
        }),
{
    let start = Request::start(base_url, windows);
    law_interleaved_requests_keep_apart(start, start, files, turns);
    let (a, b) = requests_after(start, start, turns);
    if a.state.stored is Some && b.state.stored is Some {
        law_requests_at_once_store_apart(a, b);
    }
}

} // verus!
