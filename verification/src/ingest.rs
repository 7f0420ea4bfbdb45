//! The upload request as a state machine.
//!
//! A driver does the I/O and tells the [`Ingestor`] what happened; the
//! `Ingestor` tells the driver what to do next. The driver starts by pulling
//! the first part, as if it had been told [`Action::NextPart`], and it stops
//! at [`Action::Respond`]. A file that it created stays open until the next
//! `NextPart` or `Respond`, at which it closes the file before anything else.

use crate::extension::{classified, classify, Extension};
use crate::filename::{
    candidate, candidate_name, first_free, is_clean, is_first_free, is_single_component,
    lemma_candidate_is_single_component, lemma_first_free_unique, make_safe, resolved, safe_name,
    stem_or_empty, stem_or_empty_of,
};
use crate::response::{public_url, url_of, Response, ResponseModel};
use vstd::prelude::*;

verus! {

/// What the driver reports.
#[derive(Debug, PartialEq, Eq)]
pub enum Event {
    /// The request's next part has arrived. `filename` is the name that its
    /// content disposition gives, if any; `content_type` is its declared type.
    Part { filename: Option<String>, content_type: String },
    /// The request has no further part.
    NoMoreParts,
    /// The file asked for was created; no file of that name existed before.
    Created,
    /// The file asked for was not created: a file of that name exists.
    NameTaken,
    /// The current part's next chunk has arrived.
    Chunk { data: Vec<u8> },
    /// The current part has no further chunk.
    PartEnd,
    /// Creating the file or writing to it failed.
    StorageFailed,
    /// The request's framing is broken.
    Malformed,
}

/// An [`Event`] as plain values.
pub enum EventModel {
    Part { filename: Option<Seq<char>>, content_type: Seq<char> },
    NoMoreParts,
    Created,
    NameTaken,
    Chunk { data: Seq<u8> },
    PartEnd,
    StorageFailed,
    Malformed,
}

impl View for Event {
    type V = EventModel;

    open spec fn view(&self) -> EventModel {
        match self {
            Event::Part { filename, content_type } => EventModel::Part {
                filename: filename.deep_view(),
                content_type: content_type@,
            },
            Event::NoMoreParts => EventModel::NoMoreParts,
            Event::Created => EventModel::Created,
            Event::NameTaken => EventModel::NameTaken,
            Event::Chunk { data } => EventModel::Chunk { data: data@ },
            Event::PartEnd => EventModel::PartEnd,
            Event::StorageFailed => EventModel::StorageFailed,
            Event::Malformed => EventModel::Malformed,
        }
    }
}

/// What the driver is to do next.
#[derive(Debug, PartialEq, Eq)]
pub enum Action {
    /// Pull the request's next part and report `Part`, `NoMoreParts` or `Malformed`.
    NextPart,
    /// Create the file `name` in the storage directory, failing if it exists,
    /// and report `Created`, `NameTaken` or `StorageFailed`.
    Create { name: String },
    /// Pull the current part's next chunk and report `Chunk`, `PartEnd` or `Malformed`.
    NextChunk,
    /// Append `data` to the open file. Then report `StorageFailed`, or pull
    /// the part's next chunk as for `NextChunk`.
    Write { data: Vec<u8> },
    /// Answer the request. Nothing follows.
    Respond { response: Response },
}

/// An [`Action`] as plain values.
pub enum ActionModel {
    NextPart,
    Create { name: Seq<char> },
    NextChunk,
    Write { data: Seq<u8> },
    Respond { response: ResponseModel },
}

impl View for Action {
    type V = ActionModel;

    open spec fn view(&self) -> ActionModel {
        match self {
            Action::NextPart => ActionModel::NextPart,
            Action::Create { name } => ActionModel::Create { name: name@ },
            Action::NextChunk => ActionModel::NextChunk,
            Action::Write { data } => ActionModel::Write { data: data@ },
            Action::Respond { response } => ActionModel::Respond { response: response@ },
        }
    }
}

/// Where a request stands.
pub enum PhaseModel {
    /// Between parts.
    AwaitingPart,
    /// A file for the current part is being created. The candidates of
    /// `stem` and `ext` before `attempt` were found taken; that of `attempt`
    /// is asked for.
    Creating { stem: Seq<char>, ext: Extension, attempt: u64 },
    /// The current part's chunks are written to the file `name`.
    Streaming { name: Seq<char> },
    /// The request is answered.
    Done { response: ResponseModel },
}

/// An [`Ingestor`] as plain values.
pub struct Model {
    pub phase: PhaseModel,
    /// The name of the last part that was stored in full.
    pub stored: Option<Seq<char>>,
    /// Whether names are made safe for Windows as well.
    pub windows: bool,
    /// What the public address of a stored file begins with.
    pub base_url: Seq<char>,
}

impl Model {
    /// A request of which nothing has been seen yet.
    pub open spec fn start(base_url: Seq<char>, windows: bool) -> Model {
        Model { phase: PhaseModel::AwaitingPart, stored: None, windows, base_url }
    }

    /// The stem that a file is being created for holds no forbidden character.
    pub open spec fn wf(self) -> bool {
        self.phase matches PhaseModel::Creating { stem, .. } ==> is_clean(stem)
    }

    /// The same request between parts, with `stored` the last part stored.
    pub open spec fn awaiting(self, stored: Option<Seq<char>>) -> Model {
        Model { phase: PhaseModel::AwaitingPart, stored, ..self }
    }

    /// The same request creating a file, with `attempt` names found taken.
    pub open spec fn creating(self, stem: Seq<char>, ext: Extension, attempt: u64) -> Model {
        Model { phase: PhaseModel::Creating { stem, ext, attempt }, ..self }
    }

    /// The same request streaming a part to the file `name`.
    pub open spec fn streaming(self, name: Seq<char>) -> Model {
        Model { phase: PhaseModel::Streaming { name }, ..self }
    }

    /// The same request answered with `response`.
    pub open spec fn done(self, response: ResponseModel) -> Model {
        Model { phase: PhaseModel::Done { response }, ..self }
    }

    /// The request ends with `response`.
    pub open spec fn finish(self, response: ResponseModel) -> (Model, ActionModel) {
        (self.done(response), ActionModel::Respond { response })
    }

    /// The answer to a request whose parts were all taken in: the address of
    /// the last file stored, or a refusal where none was.
    pub open spec fn answer(self) -> ResponseModel {
        match self.stored {
            Some(name) => ResponseModel::Created { url: url_of(self.base_url, name) },
            None => ResponseModel::BadRequest,
        }
    }

    /// What follows a part's arrival between parts. A part without a file
    /// name is passed over. A part of another type than the accepted ones
    /// ends the request. For any other part a file is created, under its
    /// first candidate.
    pub open spec fn on_part(self, filename: Option<Seq<char>>, content_type: Seq<char>) -> (
        Model,
        ActionModel,
    ) {
        if filename is None || filename->0.len() == 0 {
            (self, ActionModel::NextPart)
        } else {
            match classified(content_type) {
                None => self.finish(ResponseModel::UnsupportedMediaType),
                Some(ext) => {
                    let stem = stem_or_empty(safe_name(filename->0, self.windows));
                    (
                        self.creating(stem, ext, 0),
                        ActionModel::Create { name: candidate(stem, ext, 0) },
                    )
                },
            }
        }
    }

    /// What follows the report that the name asked for is taken: the next
    /// candidate is asked for, unless the counter is spent.
    pub open spec fn on_name_taken(self, stem: Seq<char>, ext: Extension, attempt: u64) -> (
        Model,
        ActionModel,
    ) {
        if attempt < u64::MAX {
            let again = (attempt + 1) as u64;
            (
                self.creating(stem, ext, again),
                ActionModel::Create { name: candidate(stem, ext, again as nat) },
            )
        } else {
            self.finish(ResponseModel::InternalServerError)
        }
    }

    /// The state after `event` and the action that it calls for.
    ///
    /// An event that the driver has no reason to report in the state at hand
    /// ends the request like a failure. Once the request is answered, the
    /// answer is repeated whatever comes.
    pub open spec fn next(self, event: EventModel) -> (Model, ActionModel) {
        match self.phase {
            PhaseModel::Done { response } => (self, ActionModel::Respond { response }),
            PhaseModel::AwaitingPart => match event {
                EventModel::Part { filename, content_type } => self.on_part(filename, content_type),
                EventModel::NoMoreParts => self.finish(self.answer()),
                _ => self.finish(ResponseModel::InternalServerError),
            },
            PhaseModel::Creating { stem, ext, attempt } => match event {
                EventModel::Created => (
                    self.streaming(candidate(stem, ext, attempt as nat)),
                    ActionModel::NextChunk,
                ),
                EventModel::NameTaken => self.on_name_taken(stem, ext, attempt),
                _ => self.finish(ResponseModel::InternalServerError),
            },
            PhaseModel::Streaming { name } => match event {
                EventModel::Chunk { data } => (self, ActionModel::Write { data }),
                EventModel::PartEnd => (self.awaiting(Some(name)), ActionModel::NextPart),
                _ => self.finish(ResponseModel::InternalServerError),
            },
        }
    }
}

/// An action that creates a file names it by a single path component.
pub open spec fn stays_inside(action: ActionModel) -> bool {
    action matches ActionModel::Create { name } ==> is_single_component(name)
}

/// `n` times the same action.
pub open spec fn times(action: ActionModel, n: nat) -> Seq<ActionModel> {
    Seq::new(n, |i: int| action)
}

/// The state after a run of events and the actions that they called for, one
/// for each event.
pub open spec fn run(start: Model, events: Seq<EventModel>) -> (Model, Seq<ActionModel>)
    decreases events.len(),
{
    if events.len() == 0 {
        (start, Seq::empty())
    } else {
        let (mid, actions) = run(start, events.drop_last());
        let (end, action) = mid.next(events.last());
        (end, actions.push(action))
    }
}

/// The bytes that the actions append to files, in their order.
pub open spec fn written(actions: Seq<ActionModel>) -> Seq<u8>
    decreases actions.len(),
{
    if actions.len() == 0 {
        Seq::empty()
    } else {
        match actions.last() {
            ActionModel::Write { data } => written(actions.drop_last()) + data,
            _ => written(actions.drop_last()),
        }
    }
}

/// The arrival of a part that names no file.
pub open spec fn names_no_file(event: EventModel) -> bool {
    event matches EventModel::Part { filename, .. } && (filename is None || filename->0.len()
        == 0)
}

/// The request was answered with a refusal for want of a file.
pub open spec fn is_refused(end: Model, actions: Seq<ActionModel>) -> bool {
    &&& end == end.done(ResponseModel::BadRequest)
    &&& actions.len() > 0
    &&& actions.last() == ActionModel::Respond { response: ResponseModel::BadRequest }
}

/// None of the actions creates a file or writes to one.
pub open spec fn touches_no_file(actions: Seq<ActionModel>) -> bool {
    forall|i: int|
        0 <= i < actions.len() ==> !(#[trigger] actions[i] is Create) && !(actions[i] is Write)
}

/// Parts that name no file are passed over one by one.
proof fn lemma_parts_without_file_are_passed_over(start: Model, parts: Seq<EventModel>)
    requires
        start.phase is AwaitingPart,
        forall|i: int| 0 <= i < parts.len() ==> names_no_file(#[trigger] parts[i]),
    ensures
        run(start, parts) == (start, times(ActionModel::NextPart, parts.len())),
    decreases parts.len(),
{
    if parts.len() > 0 {
        lemma_parts_without_file_are_passed_over(start, parts.drop_last());
        assert(names_no_file(parts.last()));
        assert(times(ActionModel::NextPart, (parts.len() - 1) as nat).push(ActionModel::NextPart)
            =~= times(ActionModel::NextPart, parts.len()));
    } else {
        assert(Seq::<ActionModel>::empty() =~= times(ActionModel::NextPart, 0));
    }
}

/// A request none of whose parts names a file is refused, and nothing is
/// created or written for it.
pub proof fn law_request_without_file_is_refused(
    base_url: Seq<char>,
    windows: bool,
    parts: Seq<EventModel>,
)
    requires
        forall|i: int| 0 <= i < parts.len() ==> names_no_file(#[trigger] parts[i]),
    ensures
        is_refused(
            run(Model::start(base_url, windows), parts.push(EventModel::NoMoreParts)).0,
            run(Model::start(base_url, windows), parts.push(EventModel::NoMoreParts)).1,
        ),
        touches_no_file(
            run(Model::start(base_url, windows), parts.push(EventModel::NoMoreParts)).1,
        ),
{
    let start = Model::start(base_url, windows);
    let events = parts.push(EventModel::NoMoreParts);
    lemma_parts_without_file_are_passed_over(start, parts);
    assert(events.drop_last() =~= parts);
    assert(events.last() == EventModel::NoMoreParts);
}

/// A failure of the storage or of the framing ends a request that is not yet
/// answered, and it is answered as a failure, whatever was stored before.
pub proof fn law_failure_ends_the_request(state: Model, event: EventModel)
    requires
        !(state.phase is Done),
        event is StorageFailed || event is Malformed,
    ensures
        state.next(event) == state.finish(ResponseModel::InternalServerError),
{
}

/// Once a request is answered nothing changes the answer.
pub proof fn law_answer_is_final(state: Model, response: ResponseModel, events: Seq<EventModel>)
    requires
        state == state.done(response),
    ensures
        run(state, events) == (state, times(ActionModel::Respond { response }, events.len())),
    decreases events.len(),
{
    let answer = ActionModel::Respond { response };
    if events.len() > 0 {
        law_answer_is_final(state, response, events.drop_last());
        assert(times(answer, (events.len() - 1) as nat).push(answer) =~= times(
            answer,
            events.len(),
        ));
    } else {
        assert(Seq::<ActionModel>::empty() =~= times(answer, 0));
    }
}

/// The arrival of each of the chunks, in their order.
pub open spec fn chunk_events(chunks: Seq<Seq<u8>>) -> Seq<EventModel> {
    Seq::new(chunks.len(), |i: int| EventModel::Chunk { data: chunks[i] })
}

/// The writing of each of the chunks, in their order.
pub open spec fn write_actions(chunks: Seq<Seq<u8>>) -> Seq<ActionModel> {
    Seq::new(chunks.len(), |i: int| ActionModel::Write { data: chunks[i] })
}

/// While a part is streamed, each chunk that arrives is written as it is and
/// in its turn: what is appended to the file is the chunks joined, however
/// many they are and however long each.
pub proof fn law_chunks_are_written_in_order(state: Model, chunks: Seq<Seq<u8>>)
    requires
        state.phase is Streaming,
    ensures
        run(state, chunk_events(chunks)) == (state, write_actions(chunks)),
        written(write_actions(chunks)) == chunks.flatten(),
    decreases chunks.len(),
{
    broadcast use Seq::lemma_flatten_push;

    if chunks.len() > 0 {
        let before = chunks.drop_last();
        law_chunks_are_written_in_order(state, before);
        assert(chunk_events(chunks).drop_last() =~= chunk_events(before));
        assert(write_actions(chunks).drop_last() =~= write_actions(before));
        assert(write_actions(before).push(ActionModel::Write { data: chunks.last() })
            =~= write_actions(chunks));
        assert(before.push(chunks.last()) =~= chunks);
    } else {
        assert(write_actions(chunks) =~= Seq::empty());
        assert(chunks.flatten() =~= Seq::empty());
    }
}

/// `n` times the report that the name asked for is taken.
pub open spec fn taken_times(n: nat) -> Seq<EventModel> {
    Seq::new(n, |i: int| EventModel::NameTaken)
}

/// The asking for each of the `n` candidates after the first, in their order.
pub open spec fn asked_anew(stem: Seq<char>, ext: Extension, n: nat) -> Seq<ActionModel> {
    Seq::new(n, |i: int| ActionModel::Create { name: candidate(stem, ext, (i + 1) as nat) })
}

/// Each name found taken is answered by asking for the next candidate.
pub proof fn lemma_retries_count_up(state: Model, stem: Seq<char>, ext: Extension, n: nat)
    requires
        state == state.creating(stem, ext, 0),
        n <= u64::MAX,
    ensures
        run(state, taken_times(n)) == (
            state.creating(stem, ext, n as u64),
            asked_anew(stem, ext, n),
        ),
    decreases n,
{
    if n > 0 {
        lemma_retries_count_up(state, stem, ext, (n - 1) as nat);
        assert(taken_times(n).drop_last() =~= taken_times((n - 1) as nat));
        assert(asked_anew(stem, ext, (n - 1) as nat).push(
            ActionModel::Create { name: candidate(stem, ext, n) },
        ) =~= asked_anew(stem, ext, n));
    } else {
        assert(Seq::<ActionModel>::empty() =~= asked_anew(stem, ext, 0));
    }
}

/// Creating a file by asking anew for each name found taken ends on the name
/// that the part would be given from a listing of the same directory: where
/// the first free candidate is that of `attempt`, the driver reports
/// `attempt` names taken and then the file created, and the part is streamed
/// to that candidate.
pub proof fn law_retries_end_on_first_free(
    state: Model,
    stem: Seq<char>,
    ext: Extension,
    taken: Set<Seq<char>>,
    attempt: nat,
)
    requires
        state == state.creating(stem, ext, 0),
        is_first_free(stem, ext, taken, attempt),
        attempt <= u64::MAX,
    ensures
        run(state, taken_times(attempt).push(EventModel::Created)) == (
            state.streaming(resolved(stem, ext, taken)),
            asked_anew(stem, ext, attempt).push(ActionModel::NextChunk),
        ),
{
    let events = taken_times(attempt).push(EventModel::Created);
    lemma_retries_count_up(state, stem, ext, attempt);
    lemma_first_free_unique(stem, ext, taken, attempt, first_free(stem, ext, taken));
    assert(events.drop_last() =~= taken_times(attempt));
    assert(events.last() == EventModel::Created);
}

/// Where a request stands.
enum Phase {
    AwaitingPart,
    Creating { stem: String, ext: Extension, attempt: u64 },
    Streaming { name: String },
    Done { response: Response },
}

impl View for Phase {
    type V = PhaseModel;

    closed spec fn view(&self) -> PhaseModel {
        match self {
            Phase::AwaitingPart => PhaseModel::AwaitingPart,
            Phase::Creating { stem, ext, attempt } => PhaseModel::Creating {
                stem: stem@,
                ext: *ext,
                attempt: *attempt,
            },
            Phase::Streaming { name } => PhaseModel::Streaming { name: name@ },
            Phase::Done { response } => PhaseModel::Done { response: response@ },
        }
    }
}

/// The decisions of one upload request.
pub struct Ingestor {
    phase: Phase,
    stored: Option<String>,
    windows: bool,
    base_url: String,
}

impl View for Ingestor {
    type V = Model;

    closed spec fn view(&self) -> Model {
        Model {
            phase: self.phase@,
            stored: self.stored.deep_view(),
            windows: self.windows,
            base_url: self.base_url@,
        }
    }
}

impl Ingestor {
    #[verifier::type_invariant]
    spec fn inv(self) -> bool {
        self@.wf()
    }

    /// A request of which nothing has been seen yet. Stored files are
    /// published under `base_url`; `windows` says whether names are made safe
    /// for Windows as well.
    pub fn new(base_url: &str, windows: bool) -> (ingestor: Ingestor)
        ensures
            ingestor@ == Model::start(base_url@, windows),
    {
        Ingestor {
            phase: Phase::AwaitingPart,
            stored: None,
            windows,
            base_url: base_url.to_owned(),
        }
    }

    /// Whether the request is answered.
    pub fn is_done(&self) -> (done: bool)
        ensures
            done == (self@.phase is Done),
    {
        match self.phase {
            Phase::Done { .. } => true,
            _ => false,
        }
    }

    /// Ends the request with `response`.
    fn finish(self, response: Response) -> (res: (Ingestor, Action))
        ensures
            (res.0@, res.1@) == self@.finish(response@),
    {
        let again: Response = response.clone();
        (
            Ingestor {
                phase: Phase::Done { response },
                stored: self.stored,
                windows: self.windows,
                base_url: self.base_url,
            },
            Action::Respond { response: again },
        )
    }

    /// Takes in an event and says what to do next.
    pub fn step(self, event: Event) -> (res: (Ingestor, Action))
        ensures
            (res.0@, res.1@) == self@.next(event@),
            stays_inside(res.1@),
    {
        proof {
            use_type_invariant(&self);
        }
        let Ingestor { phase, stored, windows, base_url } = self;
        match phase {
            Phase::Done { response } => {
                let again: Response = response.clone();
                (
                    Ingestor { phase: Phase::Done { response }, stored, windows, base_url },
                    Action::Respond { response: again },
                )
            },
            Phase::AwaitingPart => {
                let waiting = Ingestor { phase: Phase::AwaitingPart, stored, windows, base_url };
                match event {
                    Event::Part { filename, content_type } => waiting.take_part(
                        filename,
                        content_type,
                    ),
                    Event::NoMoreParts => {
                        let response: Response = match &waiting.stored {
                            Some(name) => Response::Created {
                                url: public_url(waiting.base_url.as_str(), name.as_str()),
                            },
                            None => Response::BadRequest,
                        };
                        waiting.finish(response)
                    },
                    _ => waiting.finish(Response::InternalServerError),
                }
            },
            Phase::Creating { stem, ext, attempt } => match event {
                Event::Created => {
                    let name: String = candidate_name(stem.as_str(), ext, attempt);
                    (
                        Ingestor { phase: Phase::Streaming { name }, stored, windows, base_url },
                        Action::NextChunk,
                    )
                },
                Event::NameTaken => {
                    if attempt < u64::MAX {
                        let name: String = candidate_name(stem.as_str(), ext, attempt + 1);
                        proof {
                            lemma_candidate_is_single_component(stem@, ext, (attempt + 1) as nat);
                        }
                        (
                            Ingestor {
                                phase: Phase::Creating { stem, ext, attempt: attempt + 1 },
                                stored,
                                windows,
                                base_url,
                            },
                            Action::Create { name },
                        )
                    } else {
                        let spent = Ingestor {
                            phase: Phase::Creating { stem, ext, attempt },
                            stored,
                            windows,
                            base_url,
                        };
                        spent.finish(Response::InternalServerError)
                    }
                },
                _ => {
                    let failed = Ingestor {
                        phase: Phase::Creating { stem, ext, attempt },
                        stored,
                        windows,
                        base_url,
                    };
                    failed.finish(Response::InternalServerError)
                },
            },
            Phase::Streaming { name } => match event {
                Event::Chunk { data } => (
                    Ingestor { phase: Phase::Streaming { name }, stored, windows, base_url },
                    Action::Write { data },
                ),
                Event::PartEnd => (
                    Ingestor { phase: Phase::AwaitingPart, stored: Some(name), windows, base_url },
                    Action::NextPart,
                ),
                _ => {
                    let failed = Ingestor {
                        phase: Phase::Streaming { name },
                        stored,
                        windows,
                        base_url,
                    };
                    failed.finish(Response::InternalServerError)
                },
            },
        }
    }

    /// Takes in a part that arrived between parts.
    fn take_part(self, filename: Option<String>, content_type: String) -> (res: (Ingestor, Action))
        requires
            self@.phase is AwaitingPart,
        ensures
            (res.0@, res.1@) == self@.on_part(filename.deep_view(), content_type@),
            stays_inside(res.1@),
    {
        let original: String = match filename {
            Some(name) => name,
            None => {
                return (self, Action::NextPart);
            },
        };
        if original.as_str().is_empty() {
            return (self, Action::NextPart);
        }
        match classify(content_type.as_str()) {
            None => self.finish(Response::UnsupportedMediaType),
            Some(ext) => {
                let safe: String = make_safe(original.as_str(), self.windows);
                let stem: String = stem_or_empty_of(safe.as_str());
                let name: String = candidate_name(stem.as_str(), ext, 0);
                proof {
                    lemma_candidate_is_single_component(stem@, ext, 0);
                }
                (
                    Ingestor {
                        phase: Phase::Creating { stem, ext, attempt: 0 },
                        stored: self.stored,
                        windows: self.windows,
                        base_url: self.base_url,
                    },
                    Action::Create { name },
                )
            },
        }
    }
}

} // verus!
