//! Two requests that upload a file of the same name at the same time, told
//! over the model of [`crate::storage`]: in whatever order their steps fall,
//! the directory ends up with two files, one under the name and one under the
//! name with the counter 1, each holding the chunks of one of the two.

use crate::extension::{classified, Extension};
use crate::filename::{candidate, lemma_candidate_injective, safe_name, stem_or_empty};
use crate::ingest::{ActionModel, EventModel, Model, PhaseModel};
use crate::response::{url_of, ResponseModel};
use crate::storage::{are_apart, law_request_keeps_its_invariant, Request};
use vstd::prelude::*;

verus! {

/// A request that uploads one file, with what its client sends and how far
/// the driver has come with it.
pub struct Upload {
    pub request: Request,
    /// The name that the client gives the file.
    pub filename: Seq<char>,
    /// The type that the client declares.
    pub content_type: Seq<char>,
    /// The chunks that the file arrives in.
    pub chunks: Seq<Seq<u8>>,
    /// Whether the part has been reported to the ingestor.
    pub announced: bool,
    /// How many of the chunks have been reported to the ingestor.
    pub sent: nat,
}

impl Upload {
    /// An upload of which nothing has been seen yet.
    pub open spec fn start(
        base_url: Seq<char>,
        windows: bool,
        filename: Seq<char>,
        content_type: Seq<char>,
        chunks: Seq<Seq<u8>>,
    ) -> Upload {
        Upload {
            request: Request::start(base_url, windows),
            filename,
            content_type,
            chunks,
            announced: false,
            sent: 0,
        }
    }

    /// Whether the request is answered.
    pub open spec fn is_answered(self) -> bool {
        self.request.pending is Respond
    }

    /// What the driver reports of the action called for, the directory
    /// holding `files`, when neither the storage nor the framing fails.
    pub open spec fn report(self, files: Map<Seq<char>, Seq<u8>>) -> EventModel {
        match self.request.pending {
            ActionModel::NextPart => if self.announced {
                EventModel::NoMoreParts
            } else {
                EventModel::Part { filename: Some(self.filename), content_type: self.content_type }
            },
            ActionModel::Create { name } => if files.dom().contains(name) {
                EventModel::NameTaken
            } else {
                EventModel::Created
            },
            _ => if self.sent < self.chunks.len() {
                EventModel::Chunk { data: self.chunks[self.sent as int] }
            } else {
                EventModel::PartEnd
            },
        }
    }

    /// What the directory holds once the action called for is carried out.
    pub open spec fn leaves(self, files: Map<Seq<char>, Seq<u8>>) -> Map<Seq<char>, Seq<u8>> {
        match self.request.pending {
            ActionModel::Create { name } => if files.dom().contains(name) {
                files
            } else {
                files.insert(name, Seq::empty())
            },
            ActionModel::Write { data } => match self.request.open {
                Some(name) => files.insert(name, files[name] + data),
                None => files,
            },
            _ => files,
        }
    }

    /// The upload after the driver has carried out the action called for and
    /// reported its outcome.
    pub open spec fn turn(self, files: Map<Seq<char>, Seq<u8>>) -> Upload {
        Upload {
            request: self.request.after(self.report(files)),
            announced: self.announced || self.request.pending is NextPart,
            sent: if self.report(files) is Chunk {
                self.sent + 1
            } else {
                self.sent
            },
            ..self
        }
    }

    /// A bound on the turns that the upload has yet to take until it is
    /// answered.
    pub open spec fn turns_left(self) -> nat {
        let chunks = self.chunks.len();
        match self.request.pending {
            ActionModel::NextPart => if self.announced {
                1
            } else {
                chunks + 6
            },
            ActionModel::Create { .. } => match self.request.state.phase {
                PhaseModel::Creating { attempt, .. } => if attempt == 0 {
                    chunks + 5
                } else {
                    chunks + 4
                },
                _ => chunks + 4,
            },
            ActionModel::NextChunk => chunks + 3,
            ActionModel::Write { .. } => (chunks + 2 - self.sent) as nat,
            ActionModel::Respond { .. } => 0,
        }
    }
}

/// The two uploads and the directory after they have taken turns as
/// `schedule` says, the first acting where it holds `true`. An upload that is
/// answered does nothing more.
pub open spec fn taking_turns(
    a: Upload,
    b: Upload,
    files: Map<Seq<char>, Seq<u8>>,
    schedule: Seq<bool>,
) -> (Upload, Upload, Map<Seq<char>, Seq<u8>>)
    decreases schedule.len(),
{
    if schedule.len() == 0 {
        (a, b, files)
    } else {
        let (first, second, held) = taking_turns(a, b, files, schedule.drop_last());
        if schedule.last() {
            if first.is_answered() {
                (first, second, held)
            } else {
                (first.turn(held), second, first.leaves(held))
            }
        } else {
            if second.is_answered() {
                (first, second, held)
            } else {
                (first, second.turn(held), second.leaves(held))
            }
        }
    }
}

/// What an upload is after: the stem and extension it stores under, and the
/// settings of its request.
pub struct Aim {
    pub base_url: Seq<char>,
    pub windows: bool,
    pub stem: Seq<char>,
    pub ext: Extension,
}

impl Aim {
    /// The name tried first, or, with `second`, the one tried after it.
    pub open spec fn name(self, second: bool) -> Seq<char> {
        if second {
            candidate(self.stem, self.ext, 1)
        } else {
            candidate(self.stem, self.ext, 0)
        }
    }

    /// The request as it starts.
    pub open spec fn fresh(self) -> Model {
        Model::start(self.base_url, self.windows)
    }

    /// The answer that names the file stored under `name`.
    pub open spec fn answer(self, name: Seq<char>) -> ResponseModel {
        ResponseModel::Created { url: url_of(self.base_url, name) }
    }
}

/// The upload has announced nothing yet.
pub open spec fn is_fresh(u: Upload, aim: Aim) -> bool {
    &&& u.request.pending == ActionModel::NextPart
    &&& !u.announced
    &&& u.sent == 0
    &&& u.request.state == aim.fresh()
    &&& u.request.open is None
    &&& u.request.appended == Map::<Seq<char>, Seq<u8>>::empty()
}

/// The upload asks for its first name, or, with `second`, for the one after it.
pub open spec fn is_asking(u: Upload, aim: Aim, second: bool) -> bool {
    &&& u.request.pending == ActionModel::Create { name: aim.name(second) }
    &&& u.announced
    &&& u.sent == 0
    &&& u.request.state == if second {
        aim.fresh().creating(aim.stem, aim.ext, 1)
    } else {
        aim.fresh().creating(aim.stem, aim.ext, 0)
    }
    &&& u.request.open is None
    &&& u.request.appended == Map::<Seq<char>, Seq<u8>>::empty()
}

/// The upload owns the file of the name, and no other.
pub open spec fn owns(u: Upload, name: Seq<char>) -> bool {
    u.request.appended.dom() == Set::<Seq<char>>::empty().insert(name)
}

/// The upload streams to its file, which holds the chunks written so far.
pub open spec fn is_streaming(u: Upload, aim: Aim, second: bool) -> bool {
    let name = aim.name(second);
    &&& u.announced
    &&& u.sent <= u.chunks.len()
    &&& u.request.state == aim.fresh().streaming(name)
    &&& u.request.open == Some(name)
    &&& owns(u, name)
    &&& {
        ||| {
            &&& u.request.pending == ActionModel::NextChunk
            &&& u.sent == 0
            &&& u.request.appended[name] == Seq::<u8>::empty()
        }
        ||| {
            &&& u.sent >= 1
            &&& u.request.pending == ActionModel::Write { data: u.chunks[u.sent - 1] }
            &&& u.request.appended[name] == u.chunks.take(u.sent - 1).flatten()
        }
    }
}

/// The upload has stored its file in full and asks for the next part.
pub open spec fn is_stored(u: Upload, aim: Aim, second: bool) -> bool {
    let name = aim.name(second);
    &&& u.request.pending == ActionModel::NextPart
    &&& u.announced
    &&& u.request.state == aim.fresh().awaiting(Some(name))
    &&& u.request.open is None
    &&& owns(u, name)
    &&& u.request.appended[name] == u.chunks.flatten()
}

/// The upload is answered with the address of its file, stored in full.
pub open spec fn is_answered_with(u: Upload, aim: Aim, second: bool) -> bool {
    let name = aim.name(second);
    &&& u.request.pending == ActionModel::Respond { response: aim.answer(name) }
    &&& u.request.state == aim.fresh().awaiting(Some(name)).done(aim.answer(name))
    &&& u.request.open is None
    &&& owns(u, name)
    &&& u.request.appended[name] == u.chunks.flatten()
}

/// The upload is at one of its stages under the first name, or under the
/// second, and then the other upload owns the first.
pub open spec fn is_on_its_way(u: Upload, other: Upload, aim: Aim) -> bool {
    ||| is_fresh(u, aim)
    ||| is_asking(u, aim, false)
    ||| is_streaming(u, aim, false)
    ||| is_stored(u, aim, false)
    ||| is_answered_with(u, aim, false)
    ||| owns(other, aim.name(false)) && {
        ||| is_asking(u, aim, true)
        ||| is_streaming(u, aim, true)
        ||| is_stored(u, aim, true)
        ||| is_answered_with(u, aim, true)
    }
}

/// Both uploads are on their way, and the directory holds their files and no
/// others, each with what its upload has appended to it.
pub open spec fn are_on_their_way(
    a: Upload,
    b: Upload,
    files: Map<Seq<char>, Seq<u8>>,
    aim: Aim,
) -> bool {
    &&& is_on_its_way(a, b, aim)
    &&& is_on_its_way(b, a, aim)
    &&& a.request.inv()
    &&& b.request.inv()
    &&& files.dom() == a.request.created().union(b.request.created())
    &&& forall|name: Seq<char>| #[trigger]
        a.request.created().contains(name) ==> files[name] == a.request.appended[name]
    &&& forall|name: Seq<char>| #[trigger]
        b.request.created().contains(name) ==> files[name] == b.request.appended[name]
    &&& are_apart(a.request, b.request)
}

/// A turn of an upload that streams leaves it streaming, or, at the end of
/// its chunks, with its file stored in full.
proof fn lemma_streaming_goes_on(
    u: Upload,
    files: Map<Seq<char>, Seq<u8>>,
    aim: Aim,
    second: bool,
)
    requires
        is_streaming(u, aim, second),
    ensures
        is_streaming(u.turn(files), aim, second) || is_stored(u.turn(files), aim, second),
        owns(u.turn(files), aim.name(second)),
{
    let name = aim.name(second);
    let after = u.turn(files);
    let sent = u.sent as int;
    let none = Set::<Seq<char>>::empty();
    assert(after.request.appended.dom() =~= none.insert(name));
    assert(u.chunks.take(0) =~= Seq::<Seq<u8>>::empty());
    assert(Seq::<Seq<u8>>::empty().flatten() =~= Seq::<u8>::empty());
    assert(u.chunks.take(u.chunks.len() as int) =~= u.chunks);
    if u.chunks.len() == 0 {
        assert(u.chunks =~= Seq::<Seq<u8>>::empty());
    }
    if u.request.pending == ActionModel::NextChunk {
        if sent < u.chunks.len() {
            assert(is_streaming(after, aim, second));
        } else {
            assert(is_stored(after, aim, second));
        }
    } else {
        let written = u.chunks.take(sent - 1);
        assert(u.chunks.take(sent) =~= written.push(u.chunks[sent - 1]));
        written.lemma_flatten_push(u.chunks[sent - 1]);
        assert(after.request.appended[name] == u.chunks.take(sent).flatten());
        if sent < u.chunks.len() {
            assert(is_streaming(after, aim, second));
        } else {
            assert(is_stored(after, aim, second));
        }
    }
}

/// A turn of one upload leaves both on their way.
proof fn lemma_turn_keeps_on_the_way(
    acting: Upload,
    other: Upload,
    files: Map<Seq<char>, Seq<u8>>,
    aim: Aim,
)
    requires
        are_on_their_way(acting, other, files, aim),
        !acting.is_answered(),
        acting.filename.len() > 0,
        classified(acting.content_type) == Some(aim.ext),
        aim.stem == stem_or_empty(safe_name(acting.filename, aim.windows)),
    ensures
        are_on_their_way(acting.turn(files), other, acting.leaves(files), aim),
        acting.turn(files).turns_left() < acting.turns_left(),
{
    broadcast use Seq::lemma_flatten_push;

    let first = aim.name(false);
    let second = aim.name(true);
    assert(first != second) by {
        if first == second {
            lemma_candidate_injective(aim.stem, aim.ext, 0, 1);
        }
    }
    let after = acting.turn(files);
    let left = acting.leaves(files);
    law_request_keeps_its_invariant(acting.request, acting.report(files));
    let sent = acting.sent as int;
    if 1 <= sent <= acting.chunks.len() {
        let written = acting.chunks.take(sent - 1);
        assert(acting.chunks.take(sent) =~= written.push(acting.chunks[sent - 1]));
        written.lemma_flatten_push(acting.chunks[sent - 1]);
        assert(acting.chunks.take(sent).flatten() == written.flatten() + acting.chunks[sent
            - 1]);
    }
    if acting.chunks.len() == 0 {
        assert(acting.chunks =~= Seq::<Seq<u8>>::empty());
    }
    assert(acting.chunks.take(0) =~= Seq::<Seq<u8>>::empty());
    assert(Seq::<Seq<u8>>::empty().flatten() =~= Seq::<u8>::empty());
    assert(acting.chunks.take(acting.chunks.len() as int) =~= acting.chunks);
    let none = Set::<Seq<char>>::empty();
    assert(Map::<Seq<char>, Seq<u8>>::empty().dom() =~= none);
    let second_acts = owns(other, first) && (is_asking(acting, aim, true) || is_streaming(
        acting,
        aim,
        true,
    ) || is_stored(acting, aim, true));
    if is_fresh(acting, aim) {
        assert(is_asking(after, aim, false));
    } else if is_asking(acting, aim, false) {
        if files.dom().contains(first) {
            assert(other.request.created().contains(first));
            assert(owns(other, first));
            assert(is_asking(after, aim, true));
        } else {
            assert(after.request.appended.dom() =~= none.insert(first));
            assert(is_streaming(after, aim, false));
        }
    } else if is_streaming(acting, aim, false) {
        lemma_streaming_goes_on(acting, files, aim, false);
    } else if is_stored(acting, aim, false) {
        assert(is_answered_with(after, aim, false));
    } else if second_acts && is_asking(acting, aim, true) {
        assert(!files.dom().contains(second)) by {
            if files.dom().contains(second) {
                assert(other.request.created().contains(second));
            }
        }
        assert(after.request.appended.dom() =~= none.insert(second));
        assert(is_streaming(after, aim, true));
    } else if second_acts && is_streaming(acting, aim, true) {
        lemma_streaming_goes_on(acting, files, aim, true);
    } else {
        assert(second_acts && is_stored(acting, aim, true));
        assert(is_answered_with(after, aim, true));
    }
    assert(is_on_its_way(after, other, aim));
    assert(acting.request.created().subset_of(after.request.created()));
    assert(owns(acting, first) ==> owns(after, first)) by {
        if owns(acting, first) {
            assert(acting.request.created().contains(first));
            if second_acts {
                assert(acting.request.created().contains(second) || acting.request.created()
                    =~= none);
            }
        }
    }
    assert(is_on_its_way(other, after, aim));
    assert(left.dom() =~= after.request.created().union(other.request.created()));
}

/// Both uploads send the same name and type, which the aim is made of.
pub open spec fn send_the_same(a: Upload, b: Upload, aim: Aim) -> bool {
    &&& a.filename == b.filename
    &&& a.content_type == b.content_type
    &&& a.filename.len() > 0
    &&& classified(a.content_type) == Some(aim.ext)
    &&& aim.stem == stem_or_empty(safe_name(a.filename, aim.windows))
}

/// However the turns fall, both uploads stay on their way.
proof fn lemma_turns_keep_on_the_way(
    a: Upload,
    b: Upload,
    files: Map<Seq<char>, Seq<u8>>,
    aim: Aim,
    schedule: Seq<bool>,
)
    requires
        are_on_their_way(a, b, files, aim),
        send_the_same(a, b, aim),
    ensures
        are_on_their_way(
            taking_turns(a, b, files, schedule).0,
            taking_turns(a, b, files, schedule).1,
            taking_turns(a, b, files, schedule).2,
            aim,
        ),
        send_the_same(
            taking_turns(a, b, files, schedule).0,
            taking_turns(a, b, files, schedule).1,
            aim,
        ),
        taking_turns(a, b, files, schedule).0.chunks == a.chunks,
        taking_turns(a, b, files, schedule).1.chunks == b.chunks,
    decreases schedule.len(),
{
    if schedule.len() > 0 {
        lemma_turns_keep_on_the_way(a, b, files, aim, schedule.drop_last());
        let (first, second, held) = taking_turns(a, b, files, schedule.drop_last());
        if schedule.last() {
            if !first.is_answered() {
                lemma_turn_keeps_on_the_way(first, second, held, aim);
            }
        } else {
            if !second.is_answered() {
                assert(held.dom() =~= second.request.created().union(first.request.created()));
                lemma_turn_keeps_on_the_way(second, first, held, aim);
                let left = second.leaves(held);
                assert(left.dom() =~= first.request.created().union(
                    second.turn(held).request.created(),
                ));
            }
        }
    }
}

/// How many of the turns are the first upload's, or, with `second`, the other's.
pub open spec fn turns_of(schedule: Seq<bool>, second: bool) -> nat
    decreases schedule.len(),
{
    if schedule.len() == 0 {
        0
    } else if schedule.last() == second {
        turns_of(schedule.drop_last(), second)
    } else {
        turns_of(schedule.drop_last(), second) + 1
    }
}

/// Each turn of an upload brings it nearer to its answer.
proof fn lemma_turns_use_up_the_bound(
    a: Upload,
    b: Upload,
    files: Map<Seq<char>, Seq<u8>>,
    aim: Aim,
    schedule: Seq<bool>,
)
    requires
        are_on_their_way(a, b, files, aim),
        send_the_same(a, b, aim),
    ensures
        taking_turns(a, b, files, schedule).0.turns_left() + turns_of(schedule, false)
            <= a.turns_left() || taking_turns(a, b, files, schedule).0.is_answered(),
        taking_turns(a, b, files, schedule).1.turns_left() + turns_of(schedule, true)
            <= b.turns_left() || taking_turns(a, b, files, schedule).1.is_answered(),
    decreases schedule.len(),
{
    if schedule.len() > 0 {
        let before = schedule.drop_last();
        lemma_turns_use_up_the_bound(a, b, files, aim, before);
        lemma_turns_keep_on_the_way(a, b, files, aim, before);
        let (first, second, held) = taking_turns(a, b, files, before);
        if schedule.last() {
            if !first.is_answered() {
                lemma_turn_keeps_on_the_way(first, second, held, aim);
            }
        } else {
            if !second.is_answered() {
                assert(held.dom() =~= second.request.created().union(first.request.created()));
                lemma_turn_keeps_on_the_way(second, first, held, aim);
            }
        }
    }
}

/// Two requests that upload a file of the same name and type into an empty
/// directory at the same time, nothing failing: each is answered once it has
/// taken six turns and one more for each of its chunks, whatever the other
/// does in between.
pub proof fn law_two_uploads_of_one_name_are_answered(
    base_url: Seq<char>,
    windows: bool,
    filename: Seq<char>,
    content_type: Seq<char>,
    ext: Extension,
    x: Seq<Seq<u8>>,
    y: Seq<Seq<u8>>,
    schedule: Seq<bool>,
)
    requires
        filename.len() > 0,
        classified(content_type) == Some(ext),
    ensures
        ({
            let a = Upload::start(base_url, windows, filename, content_type, x);
            let b = Upload::start(base_url, windows, filename, content_type, y);
            let (a, b, files) = taking_turns(a, b, Map::empty(), schedule);
            &&& turns_of(schedule, false) >= x.len() + 6 ==> a.is_answered()
            &&& turns_of(schedule, true) >= y.len() + 6 ==> b.is_answered()
        }),
{
    let aim = Aim { base_url, windows, stem: stem_or_empty(safe_name(filename, windows)), ext };
    let a = Upload::start(base_url, windows, filename, content_type, x);
    let b = Upload::start(base_url, windows, filename, content_type, y);
    let none = Map::<Seq<char>, Seq<u8>>::empty();
    assert(none.dom() =~= a.request.created().union(b.request.created()));
    assert(is_fresh(a, aim));
    assert(is_fresh(b, aim));
    lemma_turns_use_up_the_bound(a, b, none, aim, schedule);
    lemma_turns_keep_on_the_way(a, b, none, aim, schedule);
    let (a, b, files) = taking_turns(a, b, none, schedule);
    assert(a.turns_left() == 0 ==> a.is_answered());
    assert(b.turns_left() == 0 ==> b.is_answered());
}

/// The upload `one` is answered with the first name and `other` with the one
/// after it, and the directory holds these two files and no others, each
/// with the chunks of its upload joined.
pub open spec fn have_landed(
    one: Upload,
    other: Upload,
    files: Map<Seq<char>, Seq<u8>>,
    aim: Aim,
) -> bool {
    let first = aim.name(false);
    let second = aim.name(true);
    &&& first != second
    &&& one.request.pending == ActionModel::Respond { response: aim.answer(first) }
    &&& other.request.pending == ActionModel::Respond { response: aim.answer(second) }
    &&& files.dom() == Set::<Seq<char>>::empty().insert(first).insert(second)
    &&& files[first] == one.chunks.flatten()
    &&& files[second] == other.chunks.flatten()
}

/// Two requests that upload a file of the same name and type into an empty
/// directory at the same time, nothing failing: in whatever order their
/// steps fall, once both are answered both have succeeded, one is answered
/// with the name and the other with the name counted 1, and the directory
/// holds exactly these two files, each with the chunks of its own request
/// and none of the other's.
pub proof fn law_two_uploads_of_one_name_store_two_files(
    base_url: Seq<char>,
    windows: bool,
    filename: Seq<char>,
    content_type: Seq<char>,
    ext: Extension,
    x: Seq<Seq<u8>>,
    y: Seq<Seq<u8>>,
    schedule: Seq<bool>,
)
    requires
        filename.len() > 0,
        classified(content_type) == Some(ext),
    ensures
        ({
            let aim = Aim {
                base_url,
                windows,
                stem: stem_or_empty(safe_name(filename, windows)),
                ext,
            };
            let a = Upload::start(base_url, windows, filename, content_type, x);
            let b = Upload::start(base_url, windows, filename, content_type, y);
            let (a, b, files) = taking_turns(a, b, Map::empty(), schedule);
            a.is_answered() && b.is_answered() ==> {
                &&& a.chunks == x
                &&& b.chunks == y
                &&& have_landed(a, b, files, aim) || have_landed(b, a, files, aim)
            }
        }),
{
    let aim = Aim { base_url, windows, stem: stem_or_empty(safe_name(filename, windows)), ext };
    let a = Upload::start(base_url, windows, filename, content_type, x);
    let b = Upload::start(base_url, windows, filename, content_type, y);
    let none = Map::<Seq<char>, Seq<u8>>::empty();
    assert(none.dom() =~= a.request.created().union(b.request.created()));
    assert(is_fresh(a, aim));
    assert(is_fresh(b, aim));
    lemma_turns_keep_on_the_way(a, b, none, aim, schedule);
    let (a, b, files) = taking_turns(a, b, none, schedule);
    let first = aim.name(false);
    let second = aim.name(true);
    assert(first != second) by {
        if first == second {
            lemma_candidate_injective(aim.stem, aim.ext, 0, 1);
        }
    }
    if a.is_answered() && b.is_answered() {
        assert(a.request.created().contains(first) || a.request.created().contains(second));
        assert(b.request.created().contains(first) || b.request.created().contains(second));
        if is_answered_with(a, aim, false) {
            assert(a.request.created().contains(first));
            assert(is_answered_with(b, aim, true));
            assert(files.dom() =~= Set::<Seq<char>>::empty().insert(first).insert(second));
            assert(have_landed(a, b, files, aim));
        } else {
            assert(is_answered_with(a, aim, true));
            assert(a.request.created().contains(second));
            assert(is_answered_with(b, aim, false));
            assert(b.request.created().contains(first));
            assert(files.dom() =~= Set::<Seq<char>>::empty().insert(first).insert(second));
            assert(have_landed(b, a, files, aim));
        }
    }
}

} // verus!
