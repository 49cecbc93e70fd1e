//! Persistent on-disk session log: every byte that the pty puts out is
//! appended, so that a cold reattach can replay history after the session has
//! exited, crashed or been rebooted away.
//!
//! A [`Rotation`] and a [`SessionLog`] decide; the caller owns the file. Each
//! of their methods hands out the next [`FileOp`]; the caller performs it and
//! hands back the [`FileReply`], until the operation is
//! [`FileOp::Finished`]. Where an operation fails, the caller reports the
//! failure and calls [`SessionLog::abandon`].
//!
//! The log knows its file's size from what it wrote, so that it never exceeds
//! its cap after an append.

use crate::ring_buffer::{concat, law_scrollback_is_the_tail, lemma_tail_of_tail, tail};
use vstd::prelude::*;
use vstd::slice::slice_to_vec;
use vstd::utf8::encode_utf8;

verus! {

/// One operation on the log file.
#[derive(Debug, Clone, PartialEq, Eq)]
pub enum FileOp {
    /// Move the cursor to the end and reply with its position.
    SeekEnd,
    /// Move the cursor to this position and reply with it.
    SeekTo(u64),
    /// Read at most this many bytes at the cursor and reply with them.
    Read(u64),
    /// Cut the file to this length.
    SetLen(u64),
    /// Write these bytes at the cursor, all of them.
    Write(Vec<u8>),
    /// Reply with the length of the file.
    Size,
    /// Nothing is left to do.
    Finished,
}

/// What an operation gave.
#[derive(Debug, Clone, PartialEq, Eq)]
pub enum FileReply {
    /// A position or a length.
    Position(u64),
    /// The bytes that were read.
    Content(Vec<u8>),
    /// It was done.
    Done,
}

/// A [`FileOp`] by its contents.
#[verifier::ext_equal]
pub enum Op {
    SeekEnd,
    SeekTo(u64),
    Read(u64),
    SetLen(u64),
    Write(Seq<u8>),
    Size,
    Finished,
}

/// A [`FileReply`] by its contents.
#[verifier::ext_equal]
pub enum Reply {
    Position(u64),
    Content(Seq<u8>),
    Done,
}

impl View for FileOp {
    type V = Op;

    open spec fn view(&self) -> Op {
        match *self {
            FileOp::SeekEnd => Op::SeekEnd,
            FileOp::SeekTo(n) => Op::SeekTo(n),
            FileOp::Read(n) => Op::Read(n),
            FileOp::SetLen(n) => Op::SetLen(n),
            FileOp::Write(b) => Op::Write(b@),
            FileOp::Size => Op::Size,
            FileOp::Finished => Op::Finished,
        }
    }
}

impl View for FileReply {
    type V = Reply;

    open spec fn view(&self) -> Reply {
        match *self {
            FileReply::Position(n) => Reply::Position(n),
            FileReply::Content(b) => Reply::Content(b@),
            FileReply::Done => Reply::Done,
        }
    }
}

/// A file: its bytes and where its cursor stands.
#[verifier::ext_equal]
pub struct FileModel {
    pub content: Seq<u8>,
    pub cursor: nat,
}

/// `n` zero bytes.
pub open spec fn zeros(n: nat) -> Seq<u8> {
    Seq::new(n, |i: int| 0u8)
}

/// `s` cut or filled up with zeros to the length `n`.
pub open spec fn resized(s: Seq<u8>, n: nat) -> Seq<u8> {
    if n <= s.len() {
        s.take(n as int)
    } else {
        s + zeros((n - s.len()) as nat)
    }
}

/// What a file does on an operation, and what it replies where a read is not
/// cut short.
pub open spec fn performed(f: FileModel, op: Op) -> (FileModel, Reply) {
    let len = f.content.len();
    match op {
        Op::SeekEnd => ((FileModel { cursor: len, ..f }), Reply::Position(len as u64)),
        Op::SeekTo(n) => ((FileModel { cursor: n as nat, ..f }), Reply::Position(n)),
        Op::Read(n) => {
            let from = if f.cursor <= len { f.cursor } else { len };
            let to = if from + n <= len { from + n } else { len as int };
            (
                (FileModel { cursor: f.cursor + (to - from) as nat, ..f }),
                Reply::Content(f.content.subrange(from as int, to)),
            )
        },
        Op::SetLen(n) => ((FileModel { content: resized(f.content, n as nat), ..f }), Reply::Done),
        Op::Write(b) => {
            let end = f.cursor + b.len();
            let rest = if end <= len { f.content.skip(end as int) } else { Seq::empty() };
            (
                (FileModel { content: resized(f.content, f.cursor) + b + rest, cursor: end }),
                Reply::Done,
            )
        },
        Op::Size => (f, Reply::Position(len as u64)),
        Op::Finished => (f, Reply::Done),
    }
}

/// How far a rotation has come: the operation that it waits for.
#[derive(Debug, Clone, Copy, PartialEq, Eq, Structural)]
pub enum RotationStage {
    Measuring,
    Seeking,
    Reading,
    Clearing,
    Rewinding,
    Writing,
    Ending,
    Over,
}

/// A [`Rotation`] by its contents.
#[verifier::ext_equal]
pub struct RotationView {
    pub max_size: u64,
    pub stage: RotationStage,
    pub kept: Seq<u8>,
}

/// Trims a file in place to its last `max_size` bytes, if it is longer, and
/// leaves the cursor at its end either way.
pub struct Rotation {
    max_size: u64,
    stage: RotationStage,
    kept: Vec<u8>,
}

impl View for Rotation {
    type V = RotationView;

    closed spec fn view(&self) -> RotationView {
        RotationView { max_size: self.max_size, stage: self.stage, kept: self.kept@ }
    }
}

/// A rotation that asks for the file's length first.
pub open spec fn rotation_start(max_size: u64) -> RotationView {
    RotationView { max_size, stage: RotationStage::Measuring, kept: Seq::empty() }
}

/// Whether `reply` can answer the operation that the rotation waits for.
pub open spec fn rotation_awaits(r: RotationView, reply: Reply) -> bool {
    match r.stage {
        RotationStage::Measuring => reply is Position,
        RotationStage::Reading => reply is Content,
        RotationStage::Over => false,
        _ => true,
    }
}

/// The next step of a rotation.
pub open spec fn rotation_step(r: RotationView, reply: Reply) -> (RotationView, Op) {
    match r.stage {
        RotationStage::Measuring => {
            let size = reply->Position_0;
            if size > r.max_size {
                (
                    (RotationView { stage: RotationStage::Seeking, ..r }),
                    Op::SeekTo((size - r.max_size) as u64),
                )
            } else {
                ((RotationView { stage: RotationStage::Ending, ..r }), Op::SeekEnd)
            }
        },
        RotationStage::Seeking => (
            (RotationView { stage: RotationStage::Reading, ..r }),
            Op::Read(r.max_size),
        ),
        RotationStage::Reading => (
            (RotationView { stage: RotationStage::Clearing, kept: reply->Content_0, ..r }),
            Op::SetLen(0),
        ),
        RotationStage::Clearing => (
            (RotationView { stage: RotationStage::Rewinding, ..r }),
            Op::SeekTo(0),
        ),
        RotationStage::Rewinding => (
            (RotationView { stage: RotationStage::Writing, kept: Seq::empty(), ..r }),
            Op::Write(r.kept),
        ),
        RotationStage::Writing => (
            (RotationView { stage: RotationStage::Ending, ..r }),
            Op::SeekEnd,
        ),
        RotationStage::Ending => ((RotationView { stage: RotationStage::Over, ..r }), Op::Finished),
        RotationStage::Over => (r, Op::Finished),
    }
}

impl Rotation {
    /// Starts a rotation.
    pub fn new(max_size: u64) -> (r: (Rotation, FileOp))
        ensures
            r.0@ == rotation_start(max_size),
            r.1@ == Op::SeekEnd,
    {
        let rotation = Rotation { max_size, stage: RotationStage::Measuring, kept: Vec::new() };
        assert(rotation@ =~= rotation_start(max_size));
        (rotation, FileOp::SeekEnd)
    }

    /// Takes the reply to the last operation and gives the next one.
    pub fn step(&mut self, reply: FileReply) -> (op: FileOp)
        requires
            rotation_awaits(old(self)@, reply@),
        ensures
            (final(self)@, op@) == rotation_step(old(self)@, reply@),
    {
        let op = match self.stage {
            RotationStage::Measuring => {
                let size: u64 = match reply {
                    FileReply::Position(n) => n,
                    _ => 0,
                };
                if size > self.max_size {
                    self.stage = RotationStage::Seeking;
                    FileOp::SeekTo(size - self.max_size)
                } else {
                    self.stage = RotationStage::Ending;
                    FileOp::SeekEnd
                }
            },
            RotationStage::Seeking => {
                self.stage = RotationStage::Reading;
                FileOp::Read(self.max_size)
            },
            RotationStage::Reading => {
                self.stage = RotationStage::Clearing;
                match reply {
                    FileReply::Content(b) => {
                        self.kept = b;
                    },
                    _ => {},
                }
                FileOp::SetLen(0)
            },
            RotationStage::Clearing => {
                self.stage = RotationStage::Rewinding;
                FileOp::SeekTo(0)
            },
            RotationStage::Rewinding => {
                self.stage = RotationStage::Writing;
                let mut kept: Vec<u8> = Vec::new();
                std::mem::swap(&mut kept, &mut self.kept);
                assert(self.kept@ =~= Seq::<u8>::empty());
                FileOp::Write(kept)
            },
            RotationStage::Writing => {
                self.stage = RotationStage::Ending;
                FileOp::SeekEnd
            },
            _ => {
                self.stage = RotationStage::Over;
                FileOp::Finished
            },
        };
        op
    }
}

/// A rotation of `f`, from the step at which it asks for `op` on, for at most
/// `fuel` operations: the file and what is still asked for.
pub open spec fn rotated(f: FileModel, r: RotationView, op: Op, fuel: nat) -> (FileModel, Op)
    decreases fuel,
{
    if op is Finished || fuel == 0 {
        (f, op)
    } else {
        let (g, reply) = performed(f, op);
        let (next, op2) = rotation_step(r, reply);
        rotated(g, next, op2, (fuel - 1) as nat)
    }
}

/// What a rotation makes of a file.
pub open spec fn trimmed(f: FileModel, max_size: u64) -> FileModel {
    let kept = tail(f.content, max_size as nat);
    FileModel { content: kept, cursor: kept.len() }
}

/// A rotation finishes, keeps exactly the last `max_size` bytes of the file,
/// and leaves the cursor at the end, ready for an append.
pub proof fn law_rotation_keeps_the_tail(f: FileModel, max_size: u64)
    requires
        f.content.len() <= u64::MAX,
    ensures
        rotated(f, rotation_start(max_size), Op::SeekEnd, 8) == (trimmed(f, max_size), Op::Finished),
{
    reveal_with_fuel(rotated, 9);
    let size = f.content.len();
    if size > max_size {
        let from = size - max_size;
        assert(f.content.subrange(from, size as int) =~= tail(f.content, max_size as nat));
        let kept = tail(f.content, max_size as nat);
        assert(resized(f.content, 0) =~= Seq::<u8>::empty());
        assert(resized(Seq::<u8>::empty(), 0) =~= Seq::<u8>::empty());
        assert(Seq::<u8>::empty() + kept + Seq::<u8>::empty() =~= kept);
    }
}

/// A file that was rotated is not changed by another rotation.
pub proof fn law_rotation_is_idempotent(f: FileModel, max_size: u64)
    ensures
        trimmed(trimmed(f, max_size), max_size) == trimmed(f, max_size),
        trimmed(f, max_size).content.len() <= max_size,
        f.content.len() <= max_size ==> trimmed(f, max_size).content == f.content,
{
}

/// What a log is busy with.
#[derive(Debug, Clone, Copy, PartialEq, Eq, Structural)]
pub enum Job {
    /// Nothing: an append can start.
    Idle,
    /// The rotation at the opening.
    Opening,
    /// The length of the file that was opened.
    Sizing,
    /// The write of an append of this many bytes.
    Appending(u64),
    /// The rotation after an append.
    Rotating,
    /// The write of the end marker.
    Marking,
}

/// A [`SessionLog`] by its contents.
#[verifier::ext_equal]
pub struct LogView {
    pub max_size: u64,
    pub current_size: u64,
    pub rotation: RotationView,
    pub job: Job,
}

/// A session's log: what is to be done to its file when it is opened, when
/// output is appended, and when the session ends.
pub struct SessionLog {
    max_size: u64,
    current_size: u64,
    rotation: Rotation,
    job: Job,
}

impl View for SessionLog {
    type V = LogView;

    closed spec fn view(&self) -> LogView {
        LogView {
            max_size: self.max_size,
            current_size: self.current_size,
            rotation: self.rotation@,
            job: self.job,
        }
    }
}

/// A log whose file was just opened.
pub open spec fn log_start(max_size: u64) -> LogView {
    LogView {
        max_size,
        current_size: 0,
        rotation: rotation_start(max_size),
        job: Job::Opening,
    }
}

/// Whether `reply` can answer the operation that the log waits for.
pub open spec fn log_awaits(l: LogView, reply: Reply) -> bool {
    match l.job {
        Job::Idle => false,
        Job::Opening | Job::Rotating => rotation_awaits(l.rotation, reply),
        Job::Sizing => reply is Position,
        Job::Appending(n) => l.current_size + n <= u64::MAX,
        Job::Marking => true,
    }
}

/// The next step of a log.
pub open spec fn log_step(l: LogView, reply: Reply) -> (LogView, Op) {
    match l.job {
        Job::Opening | Job::Rotating => {
            let (rotation, op) = rotation_step(l.rotation, reply);
            if !(op is Finished) {
                ((LogView { rotation, ..l }), op)
            } else if l.job is Opening {
                ((LogView { rotation, job: Job::Sizing, ..l }), Op::Size)
            } else {
                (
                    (LogView { rotation, current_size: l.max_size, job: Job::Idle, ..l }),
                    Op::Finished,
                )
            }
        },
        Job::Sizing => (
            (LogView { current_size: reply->Position_0, job: Job::Idle, ..l }),
            Op::Finished,
        ),
        Job::Appending(n) => {
            let size = (l.current_size + n) as u64;
            if size > l.max_size {
                (
                    (LogView {
                        current_size: size,
                        rotation: rotation_start(l.max_size),
                        job: Job::Rotating,
                        ..l
                    }),
                    Op::SeekEnd,
                )
            } else {
                ((LogView { current_size: size, job: Job::Idle, ..l }), Op::Finished)
            }
        },
        _ => ((LogView { job: Job::Idle, ..l }), Op::Finished),
    }
}

/// The log after an append of `len` bytes was asked for.
pub open spec fn log_appending(l: LogView, len: u64) -> LogView {
    LogView { job: Job::Appending(len), ..l }
}

impl SessionLog {
    /// Starts on a file that was opened, or created, with its content kept. A
    /// file that is longer than `max_size` is trimmed at once.
    pub fn open(max_size: u64) -> (r: (SessionLog, FileOp))
        ensures
            r.0@ == log_start(max_size),
            r.1@ == Op::SeekEnd,
    {
        let (rotation, op) = Rotation::new(max_size);
        (SessionLog { max_size, current_size: 0, rotation, job: Job::Opening }, op)
    }

    /// Whether nothing is under way.
    pub fn is_idle(&self) -> (r: bool)
        ensures
            r == (self@.job is Idle),
    {
        matches!(self.job, Job::Idle)
    }

    /// Whether the size of the log can still be counted after `len` more bytes.
    pub fn has_room(&self, len: usize) -> (r: bool)
        ensures
            r == (self@.current_size + len <= u64::MAX),
    {
        len as u64 <= u64::MAX - self.current_size
    }

    /// Appends `data`, and trims the file to its tail where that takes it past
    /// the cap.
    pub fn append(&mut self, data: &[u8]) -> (op: FileOp)
        requires
            old(self)@.job is Idle,
            old(self)@.current_size + data@.len() <= u64::MAX,
        ensures
            final(self)@ == log_appending(old(self)@, data@.len() as u64),
            op@ == Op::Write(data@),
    {
        self.job = Job::Appending(data.len() as u64);
        FileOp::Write(slice_to_vec(data))
    }

    /// Writes a human-readable marker at the end of the log. It does not count
    /// toward rotation: it is one write when the session ends.
    pub fn write_end_marker(&mut self, marker: &str) -> (op: FileOp)
        requires
            old(self)@.job is Idle,
        ensures
            final(self)@ == (LogView { job: Job::Marking, ..old(self)@ }),
            op@ == Op::Write(encode_utf8(marker@)),
    {
        self.job = Job::Marking;
        FileOp::Write(slice_to_vec(marker.as_bytes()))
    }

    /// Takes the reply to the last operation and gives the next one.
    pub fn step(&mut self, reply: FileReply) -> (op: FileOp)
        requires
            log_awaits(old(self)@, reply@),
        ensures
            (final(self)@, op@) == log_step(old(self)@, reply@),
    {
        match self.job {
            Job::Opening | Job::Rotating => {
                let op = self.rotation.step(reply);
                if !matches!(op, FileOp::Finished) {
                    return op;
                }
                if matches!(self.job, Job::Opening) {
                    self.job = Job::Sizing;
                    FileOp::Size
                } else {
                    self.current_size = self.max_size;
                    self.job = Job::Idle;
                    FileOp::Finished
                }
            },
            Job::Sizing => {
                match reply {
                    FileReply::Position(n) => {
                        self.current_size = n;
                    },
                    _ => {},
                }
                self.job = Job::Idle;
                FileOp::Finished
            },
            Job::Appending(n) => {
                self.current_size = self.current_size + n;
                if self.current_size > self.max_size {
                    let (rotation, op) = Rotation::new(self.max_size);
                    self.rotation = rotation;
                    self.job = Job::Rotating;
                    op
                } else {
                    self.job = Job::Idle;
                    FileOp::Finished
                }
            },
            _ => {
                self.job = Job::Idle;
                FileOp::Finished
            },
        }
    }

    /// Gives up what is under way, after an operation failed.
    pub fn abandon(&mut self)
        ensures
            final(self)@ == (LogView { job: Job::Idle, ..old(self)@ }),
    {
        self.job = Job::Idle;
    }
}

/// A log's work on `f`, from the step at which it asks for `op` on, for at most
/// `fuel` operations: the file, the log, and what is still asked for.
pub open spec fn worked(f: FileModel, l: LogView, op: Op, fuel: nat) -> (FileModel, LogView, Op)
    decreases fuel,
{
    if op is Finished || fuel == 0 {
        (f, l, op)
    } else {
        let (g, reply) = performed(f, op);
        let (next, op2) = log_step(l, reply);
        worked(g, next, op2, (fuel - 1) as nat)
    }
}

/// The log is idle, its cursor is at the end of the file, and it knows the
/// file's length, which is within the cap.
pub open spec fn in_step(f: FileModel, l: LogView) -> bool {
    &&& l.job is Idle
    &&& f.cursor == f.content.len()
    &&& l.current_size == f.content.len()
    &&& f.content.len() <= l.max_size
}

/// Opening a log trims the file to its tail and leaves the log in step with it.
pub proof fn law_open_trims(f: FileModel, max_size: u64)
    requires
        f.content.len() <= u64::MAX,
    ensures
        ({
            let (g, l, op) = worked(f, log_start(max_size), Op::SeekEnd, 10);
            &&& op is Finished
            &&& g.content == tail(f.content, max_size as nat)
            &&& l.max_size == max_size
            &&& in_step(g, l)
        }),
{
    reveal_with_fuel(worked, 11);
    let size = f.content.len();
    if size > max_size {
        let kept = tail(f.content, max_size as nat);
        assert(f.content.subrange(size - max_size, size as int) =~= kept);
        assert(resized(f.content, 0) =~= Seq::<u8>::empty());
        assert(resized(Seq::<u8>::empty(), 0) =~= Seq::<u8>::empty());
        assert(Seq::<u8>::empty() + kept + Seq::<u8>::empty() =~= kept);
    }
}

/// What an append makes of a file and its log.
pub open spec fn after_append(f: FileModel, l: LogView, data: Seq<u8>) -> (FileModel, LogView, Op) {
    worked(f, log_appending(l, data.len() as u64), Op::Write(data), 10)
}

/// After every append the file holds the last bytes of what was there followed
/// by `data`, and it never exceeds the cap.
pub proof fn law_append_keeps_the_tail(f: FileModel, l: LogView, data: Seq<u8>)
    requires
        in_step(f, l),
        l.current_size + data.len() <= u64::MAX,
    ensures
        ({
            let (g, m, op) = after_append(f, l, data);
            &&& op is Finished
            &&& g.content == tail(f.content + data, l.max_size as nat)
            &&& m.max_size == l.max_size
            &&& in_step(g, m)
        }),
{
    reveal_with_fuel(worked, 11);
    assert(resized(f.content, f.cursor) =~= f.content);
    let written = f.content + data + Seq::<u8>::empty();
    assert(written =~= f.content + data);
    let size = written.len();
    if size > l.max_size {
        let kept = tail(written, l.max_size as nat);
        assert(written.subrange(size - l.max_size, size as int) =~= kept);
        assert(resized(written, 0) =~= Seq::<u8>::empty());
        assert(resized(Seq::<u8>::empty(), 0) =~= Seq::<u8>::empty());
        assert(Seq::<u8>::empty() + kept + Seq::<u8>::empty() =~= kept);
    }
}

/// The end marker comes after everything in the log, and is not counted.
pub proof fn law_end_marker_ends_the_log(f: FileModel, l: LogView, marker: Seq<u8>)
    requires
        in_step(f, l),
    ensures
        ({
            let (g, m, op) = worked(f, (LogView { job: Job::Marking, ..l }), Op::Write(marker), 10);
            &&& op is Finished
            &&& g.content == f.content + marker
            &&& m == l
        }),
{
    reveal_with_fuel(worked, 2);
    assert(resized(f.content, f.cursor) =~= f.content);
    assert(f.content + marker + Seq::<u8>::empty() =~= f.content + marker);
}

/// A file and its log after the pieces were appended one by one.
pub open spec fn after_all(f: FileModel, l: LogView, pieces: Seq<Seq<u8>>) -> (FileModel, LogView)
    decreases pieces.len(),
{
    if pieces.len() == 0 {
        (f, l)
    } else {
        let (g, m) = after_all(f, l, pieces.drop_last());
        let (h, n, _) = after_append(g, m, pieces.last());
        (h, n)
    }
}

/// Each piece can be counted when it is appended: what the log holds by then,
/// which is never more than its cap, and the piece are within the counter.
pub open spec fn countable(content: Seq<u8>, max_size: u64, pieces: Seq<Seq<u8>>) -> bool {
    forall|i: int|
        0 <= i < pieces.len() ==> tail(
            content + concat(pieces.take(i)),
            max_size as nat,
        ).len() + (#[trigger] pieces[i]).len() <= u64::MAX
}

/// Whatever is appended, the log holds the last bytes ever written to it, as
/// many as its cap, and is ready for more.
pub proof fn law_log_is_the_tail_of_everything(f: FileModel, l: LogView, pieces: Seq<Seq<u8>>)
    requires
        in_step(f, l),
        countable(f.content, l.max_size, pieces),
    ensures
        after_all(f, l, pieces).0.content == tail(f.content + concat(pieces), l.max_size as nat),
        after_all(f, l, pieces).1.max_size == l.max_size,
        in_step(after_all(f, l, pieces).0, after_all(f, l, pieces).1),
    decreases pieces.len(),
{
    law_scrollback_is_the_tail(f.content, pieces, l.max_size as nat);
    if pieces.len() > 0 {
        let init = pieces.drop_last();
        assert(pieces.take(init.len() as int) =~= init);
        assert forall|i: int| 0 <= i < init.len() implies tail(
            f.content + concat(init.take(i)),
            l.max_size as nat,
        ).len() + (#[trigger] init[i]).len() <= u64::MAX by {
            assert(init[i] == pieces[i]);
            assert(init.take(i) =~= pieces.take(i));
        }
        law_log_is_the_tail_of_everything(f, l, init);
        law_scrollback_is_the_tail(f.content, init, l.max_size as nat);
        let (g, m) = after_all(f, l, init);
        assert(pieces[pieces.len() - 1] == pieces.last());
        law_append_keeps_the_tail(g, m, pieces.last());
    } else {
        assert(f.content + concat(pieces) =~= f.content);
    }
}

/// From its opening on: whatever the file held and whatever was appended, one
/// more append leaves the last bytes of what was there followed by `data`, as
/// many as the cap, so the log never exceeds its cap after an append.
pub proof fn law_log_never_exceeds_its_cap(
    f: FileModel,
    max_size: u64,
    pieces: Seq<Seq<u8>>,
    data: Seq<u8>,
)
    requires
        f.content.len() <= u64::MAX,
        countable(tail(f.content, max_size as nat), max_size, pieces.push(data)),
    ensures
        ({
            let (opened, log, _) = worked(f, log_start(max_size), Op::SeekEnd, 10);
            let (now, m) = after_all(opened, log, pieces);
            let (after, n, op) = after_append(now, m, data);
            &&& op is Finished
            &&& now.content == tail(f.content + concat(pieces), max_size as nat)
            &&& after.content == tail(now.content + data, max_size as nat)
            &&& after.content.len() <= max_size
            &&& in_step(after, n)
        }),
{
    law_open_trims(f, max_size);
    let kept = tail(f.content, max_size as nat);
    let (opened, log, _) = worked(f, log_start(max_size), Op::SeekEnd, 10);
    let all = pieces.push(data);
    assert forall|i: int| 0 <= i < pieces.len() implies tail(
        kept + concat(pieces.take(i)),
        max_size as nat,
    ).len() + (#[trigger] pieces[i]).len() <= u64::MAX by {
        assert(all[i] == pieces[i]);
        assert(all.take(i) =~= pieces.take(i));
    }
    law_log_is_the_tail_of_everything(opened, log, pieces);
    lemma_tail_of_tail(f.content, concat(pieces), max_size as nat);
    let (now, m) = after_all(opened, log, pieces);
    assert(all[pieces.len() as int] == data);
    assert(all.take(pieces.len() as int) =~= pieces);
    law_append_keeps_the_tail(now, m, data);
}

/// Opening a log on any file, and doing what it asks for, leaves the last bytes
/// of the file, as many as the cap, and a log that is ready. Until then nothing
/// is counted.
pub proof fn law_opened_log_holds_the_tail_of_the_file(
    max_size: u64,
    opened: (SessionLog, FileOp),
    f: FileModel,
)
    requires
        call_ensures(SessionLog::open, (max_size,), opened),
        f.content.len() <= u64::MAX,
    ensures
        ({
            let (g, l, op) = worked(f, opened.0@, opened.1@, 10);
            &&& op is Finished
            &&& g.content.is_suffix_of(f.content)
            &&& g.content.len() == if f.content.len() <= max_size {
                f.content.len()
            } else {
                max_size as nat
            }
            &&& in_step(g, l)
            &&& l.max_size == max_size
        }),
        opened.0@.current_size == 0,
        opened.0@.max_size == max_size,
{
    law_open_trims(f, max_size);
    let kept = tail(f.content, max_size as nat);
    assert(kept =~= f.content.subrange(f.content.len() - kept.len(), f.content.len() as int));
}

/// An append of any data, done as it asks, leaves in the file the last bytes of
/// what was there followed by exactly that data, as many as the cap.
pub proof fn law_appended_data_is_in_the_file(
    log: &mut SessionLog,
    data: &[u8],
    op: FileOp,
    f: FileModel,
)
    requires
        call_ensures(SessionLog::append, (log, data), op),
        in_step(f, old(log)@),
        old(log)@.current_size + data@.len() <= u64::MAX,
    ensures
        op matches FileOp::Write(bytes) && bytes@ == data@,
        ({
            let all = f.content + data@;
            let (g, l, done) = worked(f, final(log)@, op@, 10);
            &&& done is Finished
            &&& g.content.is_suffix_of(all)
            &&& g.content.len() == if all.len() <= old(log)@.max_size {
                all.len()
            } else {
                old(log)@.max_size as nat
            }
            &&& in_step(g, l)
            &&& l.max_size == old(log)@.max_size
        }),
{
    law_append_keeps_the_tail(f, old(log)@, data@);
    let all = f.content + data@;
    let kept = tail(all, old(log)@.max_size as nat);
    assert(kept =~= all.subrange(all.len() - kept.len(), all.len() as int));
}

/// A marker of any text, written as it asks, ends the file as it is, and the log
/// counts as much as before.
pub proof fn law_marker_is_at_the_end_of_the_file(
    log: &mut SessionLog,
    marker: &str,
    op: FileOp,
    f: FileModel,
)
    requires
        call_ensures(SessionLog::write_end_marker, (log, marker), op),
        in_step(f, old(log)@),
    ensures
        ({
            let (g, l, done) = worked(f, final(log)@, op@, 10);
            &&& done is Finished
            &&& g.content == f.content + encode_utf8(marker@)
            &&& l == old(log)@
        }),
{
    law_end_marker_ends_the_log(f, old(log)@, encode_utf8(marker@));
}

/// A log and a rotation go on by the steps of their course, and ask for what the
/// step says.
pub proof fn law_logs_take_the_steps_of_their_course(
    log: &mut SessionLog,
    reply: FileReply,
    op: FileOp,
    rotation: &mut Rotation,
    answer: FileReply,
    next: FileOp,
)
    requires
        call_ensures(SessionLog::step, (log, reply), op),
        call_ensures(Rotation::step, (rotation, answer), next),
    ensures
        (final(log)@, op@) == log_step(old(log)@, reply@),
        (final(rotation)@, next@) == rotation_step(old(rotation)@, answer@),
        op matches FileOp::Write(bytes) ==> op@ == Op::Write(bytes@),
        next matches FileOp::Write(bytes) ==> next@ == Op::Write(bytes@),
        op is Finished <==> op@ is Finished,
        next is Finished <==> next@ is Finished,
{
}

/// A rotation that is begun on any file, and done as it asks, trims it to its
/// last bytes and leaves the cursor at the end.
pub proof fn law_rotation_trims_the_file(
    max_size: u64,
    begun: (Rotation, FileOp),
    f: FileModel,
)
    requires
        call_ensures(Rotation::new, (max_size,), begun),
        f.content.len() <= u64::MAX,
    ensures
        ({
            let (g, op) = rotated(f, begun.0@, begun.1@, 8);
            &&& op is Finished
            &&& g.content.is_suffix_of(f.content)
            &&& g.content.len() == if f.content.len() <= max_size {
                f.content.len()
            } else {
                max_size as nat
            }
            &&& g.cursor == g.content.len()
        }),
{
    law_rotation_keeps_the_tail(f, max_size);
    let kept = tail(f.content, max_size as nat);
    assert(kept =~= f.content.subrange(f.content.len() - kept.len(), f.content.len() as int));
}

/// Where a read of a rotation is cut short, what was read is kept, all of it
/// and nothing else: the file is cleared, and that is written to it.
pub proof fn law_rotation_keeps_what_was_read(size: u64, max_size: u64, bytes: Seq<u8>)
    requires
        size > max_size,
    ensures
        ({
            let (r1, op1) = rotation_step(rotation_start(max_size), Reply::Position(size));
            let (r2, op2) = rotation_step(r1, Reply::Position((size - max_size) as u64));
            let (r3, op3) = rotation_step(r2, Reply::Content(bytes));
            let (r4, op4) = rotation_step(r3, Reply::Done);
            let (r5, op5) = rotation_step(r4, Reply::Position(0));
            let (r6, op6) = rotation_step(r5, Reply::Done);
            let (r7, op7) = rotation_step(r6, Reply::Position(bytes.len() as u64));
            &&& op1 == Op::SeekTo((size - max_size) as u64)
            &&& op2 == Op::Read(max_size)
            &&& op3 == Op::SetLen(0)
            &&& op4 == Op::SeekTo(0)
            &&& op5 == Op::Write(bytes)
            &&& op6 is SeekEnd
            &&& op7 is Finished
        }),
{
}

/// An operation that fails leaves the log idle and what it has counted as it is,
/// and a log tells whether it is idle and whether more can be counted.
pub proof fn law_abandoned_log_is_idle(
    log: &mut SessionLog,
    asked: &SessionLog,
    idle: bool,
    len: usize,
    room: bool,
)
    requires
        call_ensures(SessionLog::abandon, (log,), ()),
        call_ensures(SessionLog::is_idle, (asked,), idle),
        call_ensures(SessionLog::has_room, (asked, len), room),
    ensures
        final(log)@.job is Idle,
        final(log)@.current_size == old(log)@.current_size,
        final(log)@.max_size == old(log)@.max_size,
        idle <==> asked@.job is Idle,
        room <==> asked@.current_size + len <= u64::MAX,
{
}

} // verus!
