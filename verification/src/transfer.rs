//! The transfer of one download: yt-dlp puts the audio out, which is stored in
//! a temporary file, announced to the clients, and promoted to the cache when
//! all of it is there.
use vstd::prelude::*;

use crate::media;
use crate::paths;
use crate::text;

verus! {

/// Some bytes of the audio, and where in it they begin.
#[derive(Debug, PartialEq, Eq)]
pub struct DownloadChunk {
    pub offset: u64,
    pub bytes: Vec<u8>,
}

/// What a transfer waits for.
#[derive(Debug, Clone, Copy, PartialEq, Eq, Structural)]
pub enum TransferStage {
    /// The directory is being made.
    MakeDirectory,
    /// What is in the place of the output is being removed.
    ClearOutput,
    /// What is in the place of the temporary file is being removed.
    ClearTemp,
    /// yt-dlp is being started.
    Spawn,
    /// The temporary file is being created.
    CreateTemp,
    /// yt-dlp is to put something out, or the transfer to be cancelled.
    Read,
    /// What was put out is being stored.
    Store,
    /// What was stored is being announced.
    Announce,
    /// yt-dlp is being killed.
    Kill,
    /// The temporary file is being flushed.
    Flush,
    /// yt-dlp is to exit.
    AwaitExit,
    /// The temporary file is being moved to the place of the output.
    Promote,
    /// The temporary file is being removed.
    Discard,
    /// Nothing: the transfer has ended.
    Finished,
}

/// What happened to a transfer.
#[derive(Debug)]
pub enum TransferEvent {
    /// What was to be done is done.
    Succeeded,
    /// What was to be done could not be done.
    Failed { reason: String },
    /// yt-dlp has put something out; nothing is the end of its output.
    Output { bytes: Vec<u8> },
    /// The transfer is to be cancelled.
    Cancelled,
    /// yt-dlp has exited, with these last lines.
    Exited { succeeded: bool, stderr: Vec<String> },
}

/// What happened to a transfer.
pub enum EventView {
    Succeeded,
    Failed { reason: Seq<char> },
    Output { bytes: Seq<u8> },
    Cancelled,
    Exited { succeeded: bool, stderr: Seq<Seq<char>> },
}

impl View for TransferEvent {
    type V = EventView;

    open spec fn view(&self) -> EventView {
        match *self {
            TransferEvent::Succeeded => EventView::Succeeded,
            TransferEvent::Failed { reason } => EventView::Failed { reason: reason@ },
            TransferEvent::Output { bytes } => EventView::Output { bytes: bytes@ },
            TransferEvent::Cancelled => EventView::Cancelled,
            TransferEvent::Exited { succeeded, stderr } => EventView::Exited {
                succeeded,
                stderr: text::texts(stderr@),
            },
        }
    }
}

/// What is to be done next.
#[derive(Debug, PartialEq, Eq)]
pub enum TransferAction {
    /// Make a directory and those above it.
    MakeDirectory { path: String },
    /// Remove a file, if it is there.
    Remove { path: String },
    /// Start yt-dlp.
    Spawn,
    /// Create the temporary file.
    Create { path: String },
    /// Read what yt-dlp puts out.
    Read,
    /// Store bytes in the temporary file.
    Store { bytes: Vec<u8> },
    /// Announce a chunk to the clients.
    Announce { chunk: DownloadChunk },
    /// Kill yt-dlp.
    Kill,
    /// Flush the temporary file.
    Flush,
    /// Wait until yt-dlp exits.
    AwaitExit,
    /// Move the temporary file to the place of the output.
    Promote { from: String, to: String },
    /// End the transfer: with how many bytes were put out, or with what went
    /// wrong.
    Finish { result: Result<u64, String> },
}

/// What is to be done next.
pub enum ActionView {
    MakeDirectory { path: Seq<char> },
    Remove { path: Seq<char> },
    Spawn,
    Create { path: Seq<char> },
    Read,
    Store { bytes: Seq<u8> },
    Announce { offset: nat, bytes: Seq<u8> },
    Kill,
    Flush,
    AwaitExit,
    Promote { from: Seq<char>, to: Seq<char> },
    Succeed { total: nat },
    Fail { message: Seq<char> },
}

impl View for TransferAction {
    type V = ActionView;

    open spec fn view(&self) -> ActionView {
        match *self {
            TransferAction::MakeDirectory { path } => ActionView::MakeDirectory { path: path@ },
            TransferAction::Remove { path } => ActionView::Remove { path: path@ },
            TransferAction::Spawn => ActionView::Spawn,
            TransferAction::Create { path } => ActionView::Create { path: path@ },
            TransferAction::Read => ActionView::Read,
            TransferAction::Store { bytes } => ActionView::Store { bytes: bytes@ },
            TransferAction::Announce { chunk } => ActionView::Announce {
                offset: chunk.offset as nat,
                bytes: chunk.bytes@,
            },
            TransferAction::Kill => ActionView::Kill,
            TransferAction::Flush => ActionView::Flush,
            TransferAction::AwaitExit => ActionView::AwaitExit,
            TransferAction::Promote { from, to } => ActionView::Promote { from: from@, to: to@ },
            TransferAction::Finish { result } => match result {
                Ok(total) => ActionView::Succeed { total: total as nat },
                Err(message) => ActionView::Fail { message: message@ },
            },
        }
    }
}

/// A transfer.
pub struct DownloadTransfer {
    source_url: String,
    output_path: String,
    temp_path: String,
    stage: TransferStage,
    offset: u64,
    pending: Vec<u8>,
    cancelled: bool,
    verdict: String,
}

/// The state of a transfer.
#[verifier::ext_equal]
pub struct TransferView {
    pub source_url: Seq<char>,
    pub output_path: Seq<char>,
    pub stage: TransferStage,
    /// How many bytes were announced.
    pub offset: nat,
    /// The bytes that are being stored or announced.
    pub pending: Seq<u8>,
    /// Whether the transfer was cancelled.
    pub cancelled: bool,
    /// What the transfer ends with when the temporary file is removed.
    pub verdict: Seq<char>,
}

impl View for DownloadTransfer {
    type V = TransferView;

    closed spec fn view(&self) -> TransferView {
        TransferView {
            source_url: self.source_url@,
            output_path: self.output_path@,
            stage: self.stage,
            offset: self.offset as nat,
            pending: self.pending@,
            cancelled: self.cancelled,
            verdict: self.verdict@,
        }
    }
}

/// The lines of a text, with a line break between each two.
pub open spec fn joined_lines(lines: Seq<Seq<char>>) -> Seq<char>
    decreases lines.len(),
{
    if lines.len() == 0 {
        Seq::empty()
    } else if lines.len() == 1 {
        lines[0]
    } else {
        joined_lines(lines.drop_last()).push('\n') + lines.last()
    }
}

/// What is said of a downloader that failed.
pub open spec fn failure_text(source_url: Seq<char>, stderr: Seq<Seq<char>>) -> Seq<char> {
    "yt-dlp failed for "@ + source_url + ": "@ + text::trimmed(joined_lines(stderr))
}

fn join_lines(lines: &Vec<String>) -> (joined: String)
    ensures
        joined@ == joined_lines(text::texts(lines@)),
{
    let mut joined: String = String::new();
    let mut i: usize = 0;
    while i < lines.len()
        invariant
            i <= lines@.len(),
            joined@ == joined_lines(text::texts(lines@).take(i as int)),
        decreases lines@.len() - i,
    {
        let ghost shorter = text::texts(lines@).take(i as int);
        let ghost longer = text::texts(lines@).take(i + 1);
        assert(longer.drop_last() == shorter);
        assert(longer.last() == lines@[i as int]@);
        if i > 0 {
            joined.push('\n');
        }
        joined.append(lines[i].as_str());
        assert(joined@ =~= joined_lines(longer));
        i = i + 1;
    }
    assert(text::texts(lines@).take(lines@.len() as int) == text::texts(lines@));
    joined
}

/// The temporary file of a transfer that has one.
pub open spec fn temp_of(state: TransferView) -> Seq<char> {
    match media::temp_path_of(state.output_path) {
        Some(temp) => temp,
        None => Seq::empty(),
    }
}

/// Whether an event can happen to a transfer.
pub open spec fn fits(state: TransferView, event: EventView) -> bool {
    match state.stage {
        TransferStage::Read => event is Output || event is Cancelled || event is Failed,
        TransferStage::AwaitExit => event is Exited || event is Failed,
        TransferStage::Announce => event is Succeeded,
        TransferStage::Kill => event is Succeeded,
        TransferStage::Store => event is Failed || event is Succeeded && state.offset
            + state.pending.len() <= u64::MAX,
        TransferStage::Finished => false,
        _ => event is Succeeded || event is Failed,
    }
}

/// The transfer in another stage.
pub open spec fn moved(state: TransferView, stage: TransferStage) -> TransferView {
    TransferView { stage, ..state }
}

/// The transfer at its end, with what went wrong.
pub open spec fn failed(state: TransferView, message: Seq<char>) -> (TransferView, ActionView) {
    (moved(state, TransferStage::Finished), ActionView::Fail { message })
}

/// What is said of something that could not be done in a stage.
pub open spec fn trouble(state: TransferView, reason: Seq<char>) -> Seq<char> {
    match state.stage {
        TransferStage::MakeDirectory => reason,
        TransferStage::ClearOutput => "failed to remove "@ + state.output_path,
        TransferStage::ClearTemp => "failed to remove "@ + temp_of(state),
        TransferStage::Spawn => "failed to execute yt-dlp for "@ + state.source_url,
        TransferStage::CreateTemp => "failed to create "@ + temp_of(state),
        TransferStage::Read => "failed to read yt-dlp stdout for "@ + state.source_url,
        TransferStage::Store => "failed to write "@ + temp_of(state),
        TransferStage::Flush => "failed to flush "@ + temp_of(state),
        TransferStage::AwaitExit => "failed to wait for yt-dlp for "@ + state.source_url,
        TransferStage::Promote => "failed to move "@ + temp_of(state) + " to "@
            + state.output_path,
        TransferStage::Discard => "failed to remove "@ + temp_of(state),
        _ => reason,
    }
}

/// The transfer when yt-dlp has exited: a transfer that was cancelled or failed
/// loses its temporary file, any other one is promoted.
pub open spec fn concluded(state: TransferView, succeeded: bool, stderr: Seq<Seq<char>>) -> (
    TransferView,
    ActionView,
) {
    if state.cancelled {
        (
            TransferView {
                stage: TransferStage::Discard,
                verdict: "yt-dlp cancelled during shutdown"@,
                ..state
            },
            ActionView::Remove { path: temp_of(state) },
        )
    } else if !succeeded {
        (
            TransferView {
                stage: TransferStage::Discard,
                verdict: failure_text(state.source_url, stderr),
                ..state
            },
            ActionView::Remove { path: temp_of(state) },
        )
    } else {
        (
            moved(state, TransferStage::Promote),
            ActionView::Promote { from: temp_of(state), to: state.output_path },
        )
    }
}

/// The transfer when what was to be done is done.
pub open spec fn succeeded(state: TransferView) -> (TransferView, ActionView) {
    match state.stage {
        TransferStage::MakeDirectory => (
            moved(state, TransferStage::ClearOutput),
            ActionView::Remove { path: state.output_path },
        ),
        TransferStage::ClearOutput => if media::temp_path_of(state.output_path) is Some {
            (
                moved(state, TransferStage::ClearTemp),
                ActionView::Remove { path: temp_of(state) },
            )
        } else {
            failed(state, "download path has no valid file name"@)
        },
        TransferStage::ClearTemp => (moved(state, TransferStage::Spawn), ActionView::Spawn),
        TransferStage::Spawn => (
            moved(state, TransferStage::CreateTemp),
            ActionView::Create { path: temp_of(state) },
        ),
        TransferStage::Store => (
            TransferView {
                stage: TransferStage::Announce,
                offset: state.offset + state.pending.len(),
                ..state
            },
            ActionView::Announce { offset: state.offset, bytes: state.pending },
        ),
        TransferStage::CreateTemp => (moved(state, TransferStage::Read), ActionView::Read),
        TransferStage::Announce => (moved(state, TransferStage::Read), ActionView::Read),
        TransferStage::Kill => (moved(state, TransferStage::Flush), ActionView::Flush),
        TransferStage::Flush => (moved(state, TransferStage::AwaitExit), ActionView::AwaitExit),
        TransferStage::Promote => (
            moved(state, TransferStage::Finished),
            ActionView::Succeed { total: state.offset },
        ),
        TransferStage::Discard => failed(state, state.verdict),
        _ => (state, ActionView::Read),
    }
}

/// The transfer after an event, and what is to be done next.
pub open spec fn step(state: TransferView, event: EventView) -> (TransferView, ActionView) {
    match event {
        EventView::Succeeded => succeeded(state),
        EventView::Failed { reason } => failed(state, trouble(state, reason)),
        EventView::Output { bytes } => if bytes.len() == 0 {
            (moved(state, TransferStage::Flush), ActionView::Flush)
        } else {
            (
                TransferView { stage: TransferStage::Store, pending: bytes, ..state },
                ActionView::Store { bytes },
            )
        },
        EventView::Cancelled => (
            TransferView { stage: TransferStage::Kill, cancelled: true, ..state },
            ActionView::Kill,
        ),
        EventView::Exited { succeeded, stderr } => concluded(state, succeeded, stderr),
    }
}

/// The beginning of a transfer, and what is to be done first.
pub open spec fn begun(source_url: Seq<char>, output_path: Seq<char>) -> (TransferView, ActionView) {
    let state = TransferView {
        source_url,
        output_path,
        stage: TransferStage::MakeDirectory,
        offset: 0,
        pending: Seq::empty(),
        cancelled: false,
        verdict: Seq::empty(),
    };
    if paths::has_parent_dir(output_path) {
        (state, ActionView::MakeDirectory { path: paths::parent_of(output_path) })
    } else {
        failed(state, "download path has no parent"@)
    }
}

fn copy_bytes(bytes: &Vec<u8>) -> (copy: Vec<u8>)
    ensures
        copy@ == bytes@,
{
    let copy: Vec<u8> = bytes.clone();
    assert(copy@ =~= bytes@);
    copy
}

fn worded(words: &str, subject: &str) -> (message: String)
    ensures
        message@ == words@ + subject@,
{
    let mut message: String = words.to_owned();
    message.append(subject);
    message
}

impl DownloadTransfer {
    /// The temporary file is the one that stands beside the output.
    #[verifier::type_invariant]
    spec fn has_its_temp_file(self) -> bool {
        self.temp_path@ == temp_of(self@)
    }

    /// Begins a transfer.
    pub fn start(source_url: String, output_path: String) -> (begun: (
        DownloadTransfer,
        TransferAction,
    ))
        ensures
            (begun.0@, begun.1@) == self::begun(source_url@, output_path@),
    {
        let temp_path: String = match media::temp_download_path(output_path.as_str()) {
            Ok(path) => path,
            Err(_) => String::new(),
        };
        assert(temp_path@ =~= match media::temp_path_of(output_path@) {
            Some(temp) => temp,
            None => Seq::empty(),
        });
        let directory: String = paths::parent(output_path.as_str());
        let rooted: bool = paths::has_parent(output_path.as_str());
        let pending: Vec<u8> = Vec::new();
        assert(pending@ =~= Seq::<u8>::empty());
        let transfer: DownloadTransfer = DownloadTransfer {
            source_url,
            output_path,
            temp_path,
            stage: if rooted {
                TransferStage::MakeDirectory
            } else {
                TransferStage::Finished
            },
            offset: 0,
            pending,
            cancelled: false,
            verdict: String::new(),
        };
        if rooted {
            (transfer, TransferAction::MakeDirectory { path: directory })
        } else {
            (
                transfer,
                TransferAction::Finish { result: Err("download path has no parent".to_owned()) },
            )
        }
    }

    /// The file that the output is stored in until it is complete.
    pub fn temp_path(&self) -> (path: &str)
        ensures
            path@ == temp_of(self@),
    {
        proof {
            use_type_invariant(self);
        }
        self.temp_path.as_str()
    }

    /// Whether the transfer waits for output, and so can be cancelled.
    pub fn is_reading(&self) -> (yes: bool)
        ensures
            yes == (self@.stage == TransferStage::Read),
    {
        match self.stage {
            TransferStage::Read => true,
            _ => false,
        }
    }

    /// How many bytes were announced.
    pub fn offset(&self) -> (offset: u64)
        ensures
            offset == self@.offset,
    {
        self.offset
    }

    /// Takes an event, and decides what is to be done next.
    pub fn advance(&mut self, event: TransferEvent) -> (action: TransferAction)
        requires
            fits(old(self)@, event@),
        ensures
            (final(self)@, action@) == step(old(self)@, event@),
    {
        proof {
            use_type_invariant(&*self);
        }
        match event {
            TransferEvent::Succeeded => self.on_success(),
            TransferEvent::Failed { reason } => {
                let message: String = self.describe(reason);
                self.fail(message)
            },
            TransferEvent::Output { bytes } => {
                if bytes.len() == 0 {
                    self.stage = TransferStage::Flush;
                    TransferAction::Flush
                } else {
                    let stored: Vec<u8> = copy_bytes(&bytes);
                    self.pending = bytes;
                    self.stage = TransferStage::Store;
                    TransferAction::Store { bytes: stored }
                }
            },
            TransferEvent::Cancelled => {
                self.cancelled = true;
                self.stage = TransferStage::Kill;
                TransferAction::Kill
            },
            TransferEvent::Exited { succeeded, stderr } => self.on_exit(succeeded, &stderr),
        }
    }

    fn fail(&mut self, message: String) -> (action: TransferAction)
        ensures
            (final(self)@, action@) == failed(old(self)@, message@),
    {
        proof {
            use_type_invariant(&*self);
        }
        self.stage = TransferStage::Finished;
        TransferAction::Finish { result: Err(message) }
    }

    fn describe(&self, reason: String) -> (message: String)
        ensures
            message@ == trouble(self@, reason@),
    {
        proof {
            use_type_invariant(self);
        }
        match self.stage {
            TransferStage::MakeDirectory => reason,
            TransferStage::ClearOutput => worded("failed to remove ", self.output_path.as_str()),
            TransferStage::ClearTemp => worded("failed to remove ", self.temp_path.as_str()),
            TransferStage::Spawn => worded(
                "failed to execute yt-dlp for ",
                self.source_url.as_str(),
            ),
            TransferStage::CreateTemp => worded("failed to create ", self.temp_path.as_str()),
            TransferStage::Read => worded(
                "failed to read yt-dlp stdout for ",
                self.source_url.as_str(),
            ),
            TransferStage::Store => worded("failed to write ", self.temp_path.as_str()),
            TransferStage::Flush => worded("failed to flush ", self.temp_path.as_str()),
            TransferStage::AwaitExit => worded(
                "failed to wait for yt-dlp for ",
                self.source_url.as_str(),
            ),
            TransferStage::Promote => {
                let mut message: String = worded("failed to move ", self.temp_path.as_str());
                message.append(" to ");
                message.append(self.output_path.as_str());
                message
            },
            TransferStage::Discard => worded("failed to remove ", self.temp_path.as_str()),
            _ => reason,
        }
    }

    fn on_exit(&mut self, succeeded: bool, stderr: &Vec<String>) -> (action: TransferAction)
        ensures
            (final(self)@, action@) == concluded(
                old(self)@,
                succeeded,
                text::texts(stderr@),
            ),
    {
        proof {
            use_type_invariant(&*self);
        }
        let temp_path: String = self.temp_path.clone();
        if self.cancelled {
            self.verdict = "yt-dlp cancelled during shutdown".to_owned();
            self.stage = TransferStage::Discard;
            return TransferAction::Remove { path: temp_path };
        }
        if !succeeded {
            let joined: String = join_lines(stderr);
            let chars: Vec<char> = text::chars_of(joined.as_str());
            let trimmed: String = text::text_of(text::trim(chars.as_slice()));
            let mut message: String = "yt-dlp failed for ".to_owned();
            message.append(self.source_url.as_str());
            message.append(": ");
            message.append(trimmed.as_str());
            self.verdict = message;
            self.stage = TransferStage::Discard;
            return TransferAction::Remove { path: temp_path };
        }
        let output_path: String = self.output_path.clone();
        self.stage = TransferStage::Promote;
        TransferAction::Promote { from: temp_path, to: output_path }
    }

    fn on_success(&mut self) -> (action: TransferAction)
        requires
            fits(old(self)@, EventView::Succeeded),
        ensures
            (final(self)@, action@) == succeeded(old(self)@),
    {
        proof {
            use_type_invariant(&*self);
        }
        match self.stage {
            TransferStage::MakeDirectory => {
                let path: String = self.output_path.clone();
                self.stage = TransferStage::ClearOutput;
                TransferAction::Remove { path }
            },
            TransferStage::ClearOutput => {
                match media::temp_download_path(self.output_path.as_str()) {
                    Ok(path) => {
                        self.stage = TransferStage::ClearTemp;
                        TransferAction::Remove { path }
                    },
                    Err(error) => self.fail(error.message()),
                }
            },
            TransferStage::ClearTemp => {
                self.stage = TransferStage::Spawn;
                TransferAction::Spawn
            },
            TransferStage::Spawn => {
                let path: String = self.temp_path.clone();
                self.stage = TransferStage::CreateTemp;
                TransferAction::Create { path }
            },
            TransferStage::Store => {
                let chunk: DownloadChunk = DownloadChunk {
                    offset: self.offset,
                    bytes: copy_bytes(&self.pending),
                };
                self.offset = self.offset + self.pending.len() as u64;
                self.stage = TransferStage::Announce;
                TransferAction::Announce { chunk }
            },
            TransferStage::CreateTemp => {
                self.stage = TransferStage::Read;
                TransferAction::Read
            },
            TransferStage::Announce => {
                self.stage = TransferStage::Read;
                TransferAction::Read
            },
            TransferStage::Kill => {
                self.stage = TransferStage::Flush;
                TransferAction::Flush
            },
            TransferStage::Flush => {
                self.stage = TransferStage::AwaitExit;
                TransferAction::AwaitExit
            },
            TransferStage::Promote => {
                self.stage = TransferStage::Finished;
                TransferAction::Finish { result: Ok(self.offset) }
            },
            TransferStage::Discard => {
                let message: String = self.verdict.clone();
                self.fail(message)
            },
            _ => TransferAction::Read,
        }
    }
}

/// How many of the downloader's last lines are kept.
pub const STDERR_TAIL: usize = 20;

/// Keeps a line, and drops the first one where there are more than twenty then.
pub fn keep_stderr_line(tail: &mut Vec<String>, line: String)
    ensures
        text::texts(final(tail)@) == if old(tail)@.len() < STDERR_TAIL {
            text::texts(old(tail)@).push(line@)
        } else {
            text::texts(old(tail)@).push(line@).skip(1)
        },
{
    tail.push(line);
    if tail.len() > STDERR_TAIL {
        tail.remove(0);
    }
    assert(text::texts(tail@) =~= if old(tail)@.len() < STDERR_TAIL {
        text::texts(old(tail)@).push(line@)
    } else {
        text::texts(old(tail)@).push(line@).skip(1)
    });
}

/// The transfer after events.
pub open spec fn after_steps(state: TransferView, events: Seq<EventView>) -> TransferView
    decreases events.len(),
{
    if events.len() == 0 {
        state
    } else {
        step(after_steps(state, events.drop_last()), events.last()).0
    }
}

/// What was to be done after each of events.
pub open spec fn actions(state: TransferView, events: Seq<EventView>) -> Seq<ActionView>
    decreases events.len(),
{
    if events.len() == 0 {
        Seq::empty()
    } else {
        actions(state, events.drop_last()).push(
            step(after_steps(state, events.drop_last()), events.last()).1,
        )
    }
}

/// Whether each of events can happen when it does.
pub open spec fn all_fit(state: TransferView, events: Seq<EventView>) -> bool
    decreases events.len(),
{
    if events.len() == 0 {
        true
    } else {
        &&& all_fit(state, events.drop_last())
        &&& fits(after_steps(state, events.drop_last()), events.last())
    }
}

/// The chunks that actions announce: where they begin, and their bytes.
pub open spec fn announced(taken: Seq<ActionView>) -> Seq<(nat, Seq<u8>)>
    decreases taken.len(),
{
    if taken.len() == 0 {
        Seq::empty()
    } else {
        match taken.last() {
            ActionView::Announce { offset, bytes } => announced(taken.drop_last()).push(
                (offset, bytes),
            ),
            _ => announced(taken.drop_last()),
        }
    }
}

/// The bytes of chunks.
pub open spec fn bytes_of(chunks: Seq<(nat, Seq<u8>)>) -> Seq<Seq<u8>> {
    chunks.map_values(|chunk: (nat, Seq<u8>)| chunk.1)
}

/// All that a downloader puts out.
pub open spec fn whole_output(outputs: Seq<Seq<u8>>) -> Seq<u8>
    decreases outputs.len(),
{
    if outputs.len() == 0 {
        Seq::empty()
    } else {
        whole_output(outputs.drop_last()) + outputs.last()
    }
}

/// Each chunk is the part of the whole output that begins at its offset.
pub proof fn lemma_chunks_are_pieces(outputs: Seq<Seq<u8>>, k: int)
    requires
        0 <= k < outputs.len(),
    ensures
        whole_output(outputs.take(k)).len() + outputs[k].len() <= whole_output(outputs).len(),
        whole_output(outputs).subrange(
            whole_output(outputs.take(k)).len() as int,
            (whole_output(outputs.take(k)).len() + outputs[k].len()) as int,
        ) == outputs[k],
    decreases outputs.len(),
{
    let shorter = outputs.drop_last();
    let before = whole_output(outputs.take(k));
    let from = before.len() as int;
    let to = from + outputs[k].len();
    if k == outputs.len() - 1 {
        assert(outputs.take(k) == shorter);
        assert(whole_output(outputs).subrange(from, to) =~= outputs[k]);
    } else {
        lemma_chunks_are_pieces(shorter, k);
        assert(shorter.take(k) == outputs.take(k));
        assert(whole_output(outputs).subrange(from, to) =~= whole_output(shorter).subrange(
            from,
            to,
        ));
    }
}

/// The chunks of a transfer follow one another: each begins where the bytes
/// before it end.
pub proof fn lemma_chunks_follow_one_another(
    state: TransferView,
    events: Seq<EventView>,
    k: int,
)
    requires
        state.offset == 0,
        0 <= k < announced(actions(state, events)).len(),
    ensures
        announced(actions(state, events))[k].0 == whole_output(
            bytes_of(announced(actions(state, events))).take(k),
        ).len(),
    decreases events.len(),
{
    lemma_offset_counts_what_was_announced(state, events);
    if events.len() > 0 {
        let front = events.drop_last();
        let before = actions(state, front);
        let all = actions(state, events);
        assert(all.drop_last() =~= before);
        if k < announced(before).len() {
            lemma_chunks_follow_one_another(state, front, k);
            assert(announced(all)[k] == announced(before)[k]);
            assert(bytes_of(announced(all)).take(k) =~= bytes_of(announced(before)).take(k));
        } else {
            lemma_offset_counts_what_was_announced(state, front);
            assert(bytes_of(announced(all)).take(k) =~= bytes_of(announced(before)));
        }
    }
}

proof fn lemma_offset_counts_what_was_announced(state: TransferView, events: Seq<EventView>)
    requires
        state.offset == 0,
    ensures
        after_steps(state, events).offset == whole_output(
            bytes_of(announced(actions(state, events))),
        ).len(),
    decreases events.len(),
{
    if events.len() > 0 {
        let front = events.drop_last();
        let before = actions(state, front);
        let all = actions(state, events);
        lemma_offset_counts_what_was_announced(state, front);
        assert(all.drop_last() =~= before);
        let chunks = announced(before);
        match all.last() {
            ActionView::Announce { offset, bytes } => {
                assert(bytes_of(announced(all)) =~= bytes_of(chunks).push(bytes));
                assert(bytes_of(chunks).push(bytes).drop_last() =~= bytes_of(chunks));
            },
            _ => {},
        }
    } else {
        assert(bytes_of(announced(actions(state, events))) =~= Seq::<Seq<u8>>::empty());
    }
}

/// What yt-dlp puts out in the course of events, piece by piece.
pub open spec fn outputs(events: Seq<EventView>) -> Seq<Seq<u8>>
    decreases events.len(),
{
    if events.len() == 0 {
        Seq::empty()
    } else {
        match events.last() {
            EventView::Output { bytes } => if bytes.len() > 0 {
                outputs(events.drop_last()).push(bytes)
            } else {
                outputs(events.drop_last())
            },
            _ => outputs(events.drop_last()),
        }
    }
}

/// Whether the output of yt-dlp comes to its end in the course of events.
pub open spec fn comes_to_its_end(events: Seq<EventView>) -> bool {
    exists|i: int|
        0 <= i < events.len() && (#[trigger] events[i] matches EventView::Output { bytes }
            && bytes.len() == 0)
}

/// Whether the output of a transfer is over.
pub open spec fn is_over(stage: TransferStage) -> bool {
    ||| stage == TransferStage::Kill
    ||| stage == TransferStage::Flush
    ||| stage == TransferStage::AwaitExit
    ||| stage == TransferStage::Promote
    ||| stage == TransferStage::Discard
}

/// Whether a transfer is as far as what was put out and what was announced tell:
/// all that was put out was announced, except what is just being stored, and
/// what was never stored because the transfer has ended.
spec fn keeps_up(state: TransferView, events: Seq<EventView>) -> bool {
    let after = after_steps(state, events);
    let told = bytes_of(announced(actions(state, events)));
    &&& after.stage == TransferStage::Store ==> outputs(events) == told.push(after.pending)
    &&& after.stage != TransferStage::Store && after.stage != TransferStage::Finished ==> outputs(
        events,
    ) == told
    &&& is_over(after.stage) ==> after.cancelled || comes_to_its_end(events)
    &&& after.stage == TransferStage::Kill ==> after.cancelled
    &&& after.stage == TransferStage::Promote ==> !after.cancelled
}

proof fn lemma_transfer_keeps_up(source_url: Seq<char>, output_path: Seq<char>, events: Seq<EventView>)
    requires
        all_fit(begun(source_url, output_path).0, events),
    ensures
        keeps_up(begun(source_url, output_path).0, events),
    decreases events.len(),
{
    let state = begun(source_url, output_path).0;
    if events.len() == 0 {
        assert(outputs(events) =~= bytes_of(announced(actions(state, events))));
    } else {
        let front = events.drop_last();
        lemma_transfer_keeps_up(source_url, output_path, front);
        let before = actions(state, front);
        let all = actions(state, events);
        assert(all.drop_last() =~= before);
        let told = bytes_of(announced(before));
        match all.last() {
            ActionView::Announce { offset, bytes } => {
                assert(bytes_of(announced(all)) =~= told.push(bytes));
            },
            _ => {},
        }
        if comes_to_its_end(front) {
            let i = choose|i: int|
                0 <= i < front.len() && (#[trigger] front[i] matches EventView::Output { bytes }
                    && bytes.len() == 0);
            assert(events[i] == front[i]);
        }
        assert(events[events.len() - 1] == events.last());
    }
}

/// A transfer that ends with success has announced all that yt-dlp has put out,
/// to the end of its output, and tells how many bytes that were.
pub proof fn lemma_success_announces_all(
    source_url: Seq<char>,
    output_path: Seq<char>,
    events: Seq<EventView>,
    last: EventView,
)
    requires
        all_fit(begun(source_url, output_path).0, events.push(last)),
        step(after_steps(begun(source_url, output_path).0, events), last).1 is Succeed,
    ensures
        bytes_of(announced(actions(begun(source_url, output_path).0, events))) == outputs(events),
        comes_to_its_end(events),
        step(after_steps(begun(source_url, output_path).0, events), last).1
            == (ActionView::Succeed { total: whole_output(outputs(events)).len() }),
{
    let state = begun(source_url, output_path).0;
    assert(events.push(last).drop_last() =~= events);
    lemma_transfer_keeps_up(source_url, output_path, events);
    lemma_offset_counts_what_was_announced(state, events);
}

/// Bytes that yt-dlp puts out are stored, and announced when they are stored,
/// not before.
pub proof fn lemma_output_is_stored_then_announced(state: TransferView, bytes: Seq<u8>)
    requires
        state.stage == TransferStage::Read,
        bytes.len() > 0,
    ensures
        step(state, EventView::Output { bytes }).1 == (ActionView::Store { bytes }),
        step(step(state, EventView::Output { bytes }).0, EventView::Succeeded).1 == (
        ActionView::Announce { offset: state.offset, bytes }),
{
}

/// A temporary file is promoted only when yt-dlp has exited with success and
/// nobody has cancelled.
pub proof fn lemma_promotion_needs_success(state: TransferView, event: EventView)
    requires
        fits(state, event),
        step(state, event).1 is Promote,
    ensures
        event matches EventView::Exited { succeeded, .. } && succeeded,
        !state.cancelled,
{
}

proof fn lemma_cancelled_stays(state: TransferView, events: Seq<EventView>)
    requires
        state.cancelled,
    ensures
        after_steps(state, events).cancelled,
    decreases events.len(),
{
    if events.len() > 0 {
        lemma_cancelled_stays(state, events.drop_last());
    }
}

/// A transfer that was cancelled is never promoted, and does not end with
/// success.
pub proof fn lemma_cancelled_is_never_promoted(state: TransferView, events: Seq<EventView>, k: int)
    requires
        state.cancelled,
        state.stage != TransferStage::Promote,
        all_fit(state, events),
        0 <= k < actions(state, events).len(),
    ensures
        !(actions(state, events)[k] is Promote),
        !(actions(state, events)[k] is Succeed),
        after_steps(state, events).stage != TransferStage::Promote,
    decreases events.len(),
{
    let front = events.drop_last();
    lemma_cancelled_stays(state, front);
    if front.len() > 0 {
        assert(actions(state, front).len() > 0) by {
            lemma_one_action_each(state, front);
        }
        lemma_cancelled_is_never_promoted(state, front, 0);
    }
    lemma_one_action_each(state, events);
    lemma_one_action_each(state, front);
    if k < front.len() {
        lemma_cancelled_is_never_promoted(state, front, k);
    }
}

proof fn lemma_one_action_each(state: TransferView, events: Seq<EventView>)
    ensures
        actions(state, events).len() == events.len(),
    decreases events.len(),
{
    if events.len() > 0 {
        lemma_one_action_each(state, events.drop_last());
    }
}

/// When yt-dlp has exited without success, or the transfer was cancelled, the
/// temporary file is removed before the transfer ends with what went wrong.
pub proof fn lemma_failure_removes_the_temp_file(
    state: TransferView,
    succeeded: bool,
    stderr: Seq<Seq<char>>,
)
    requires
        state.stage == TransferStage::AwaitExit,
        state.cancelled || !succeeded,
    ensures
        step(state, EventView::Exited { succeeded, stderr }).1 == (ActionView::Remove {
            path: temp_of(state),
        }),
        step(
            step(state, EventView::Exited { succeeded, stderr }).0,
            EventView::Succeeded,
        ).1 == (ActionView::Fail {
            message: if state.cancelled {
                "yt-dlp cancelled during shutdown"@
            } else {
                failure_text(state.source_url, stderr)
            },
        }),
{
}

/// A transfer touches no files but its own: it removes its output before it begins
/// and its temporary file before and after, creates the temporary file, and moves
/// it to the place of the output. It stores what yt-dlp has put out and announces
/// what was stored.
pub proof fn lemma_transfer_touches_its_own_files(state: TransferView, event: EventView)
    requires
        fits(state, event),
        media::temp_path_of(state.output_path) is Some,
    ensures
        ({
            let temp = media::temp_path_of(state.output_path)->0;
            let action = step(state, event).1;
            &&& action !is MakeDirectory
            &&& action matches ActionView::Remove { path } ==> path == temp || path
                == state.output_path && state.stage == TransferStage::MakeDirectory
            &&& action matches ActionView::Create { path } ==> path == temp
            &&& action matches ActionView::Promote { from, to } ==> from == temp && to
                == state.output_path
            &&& action matches ActionView::Store { bytes } ==> event == (EventView::Output {
                bytes,
            }) && bytes.len() > 0
            &&& action matches ActionView::Announce { offset, bytes } ==> offset == state.offset
                && bytes == state.pending
            &&& action matches ActionView::Succeed { total } ==> total == state.offset
            &&& step(state, event).0.output_path == state.output_path
            &&& step(state, event).0.source_url == state.source_url
        }),
{
}

/// How a transfer begins when nothing goes wrong: the output's directory is made,
/// what is in the place of the output and of the temporary file is removed, yt-dlp
/// is started, the temporary file is created, and the output is read.
pub proof fn lemma_transfer_begins(source_url: Seq<char>, output_path: Seq<char>)
    requires
        paths::has_parent_dir(output_path),
        media::temp_path_of(output_path) is Some,
    ensures
        ({
            let temp = media::temp_path_of(output_path)->0;
            let first = begun(source_url, output_path);
            let second = step(first.0, EventView::Succeeded);
            let third = step(second.0, EventView::Succeeded);
            let fourth = step(third.0, EventView::Succeeded);
            let fifth = step(fourth.0, EventView::Succeeded);
            let sixth = step(fifth.0, EventView::Succeeded);
            &&& first.1 == (ActionView::MakeDirectory { path: paths::parent_of(output_path) })
            &&& second.1 == (ActionView::Remove { path: output_path })
            &&& third.1 == (ActionView::Remove { path: temp })
            &&& fourth.1 is Spawn
            &&& fifth.1 == (ActionView::Create { path: temp })
            &&& sixth.1 is Read
            &&& sixth.0.stage == TransferStage::Read
            &&& sixth.0.offset == 0
            &&& !sixth.0.cancelled
        }),
{
}

/// How a transfer ends when nothing goes wrong: at the end of its output the
/// temporary file is flushed, yt-dlp is waited for, the temporary file is moved to
/// the place of the output, and the transfer succeeds with as many bytes as were
/// announced.
pub proof fn lemma_transfer_succeeds(state: TransferView, stderr: Seq<Seq<char>>)
    requires
        state.stage == TransferStage::Read,
        !state.cancelled,
        media::temp_path_of(state.output_path) is Some,
    ensures
        ({
            let flush = step(state, EventView::Output { bytes: Seq::empty() });
            let wait = step(flush.0, EventView::Succeeded);
            let promote = step(wait.0, EventView::Exited { succeeded: true, stderr });
            let end = step(promote.0, EventView::Succeeded);
            &&& flush.1 is Flush
            &&& wait.1 is AwaitExit
            &&& promote.1 == (ActionView::Promote {
                from: media::temp_path_of(state.output_path)->0,
                to: state.output_path,
            })
            &&& end.1 == (ActionView::Succeed { total: state.offset })
            &&& end.0.stage == TransferStage::Finished
        }),
{
}

/// How a transfer ends when yt-dlp fails: the temporary file is removed, and the
/// transfer fails with the source and with yt-dlp's last lines.
pub proof fn lemma_failed_download_is_told(state: TransferView, stderr: Seq<Seq<char>>)
    requires
        state.stage == TransferStage::AwaitExit,
        !state.cancelled,
        media::temp_path_of(state.output_path) is Some,
    ensures
        ({
            let discard = step(state, EventView::Exited { succeeded: false, stderr });
            let end = step(discard.0, EventView::Succeeded);
            &&& discard.1 == (ActionView::Remove {
                path: media::temp_path_of(state.output_path)->0,
            })
            &&& end.1 matches ActionView::Fail { message } && message == "yt-dlp failed for "@
                + state.source_url + ": "@ + text::trimmed(text::joined_by(stderr, '\n'))
            &&& end.0.stage == TransferStage::Finished
        }),
{
    lemma_lines_are_joined(stderr);
}

/// The lines of a text are joined with line breaks between them, and, where none
/// holds a line break, can be told apart again.
pub proof fn lemma_lines_are_joined(lines: Seq<Seq<char>>)
    ensures
        joined_lines(lines) == text::joined_by(lines, '\n'),
        lines.len() > 0 && (forall|i: int|
            0 <= i < lines.len() ==> !(#[trigger] lines[i]).contains('\n')) ==> text::split_on(
            joined_lines(lines),
            '\n',
        ) == lines,
    decreases lines.len(),
{
    if lines.len() > 1 {
        lemma_lines_are_joined(lines.drop_last());
    }
    if lines.len() > 0 && forall|i: int|
        0 <= i < lines.len() ==> !(#[trigger] lines[i]).contains('\n') {
        text::lemma_joined_parts_split_back(lines, '\n');
    }
}

/// How a transfer ends when it is cancelled while it reads: yt-dlp is killed, the
/// temporary file is flushed and, however yt-dlp exits, removed; the transfer fails
/// and says that it was cancelled.
pub proof fn lemma_cancelled_transfer_ends(
    state: TransferView,
    exited: bool,
    stderr: Seq<Seq<char>>,
)
    requires
        state.stage == TransferStage::Read,
        media::temp_path_of(state.output_path) is Some,
    ensures
        ({
            let kill = step(state, EventView::Cancelled);
            let flush = step(kill.0, EventView::Succeeded);
            let wait = step(flush.0, EventView::Succeeded);
            let discard = step(wait.0, EventView::Exited { succeeded: exited, stderr });
            let end = step(discard.0, EventView::Succeeded);
            &&& kill.1 is Kill
            &&& flush.1 is Flush
            &&& wait.1 is AwaitExit
            &&& discard.1 == (ActionView::Remove {
                path: media::temp_path_of(state.output_path)->0,
            })
            &&& end.1 == (ActionView::Fail { message: "yt-dlp cancelled during shutdown"@ })
            &&& end.0.stage == TransferStage::Finished
        }),
{
}

/// A transfer in which something cannot be done ends, and says of what: of the
/// output, of the temporary file, of both where one cannot be moved to the other,
/// or of the source.
pub proof fn lemma_trouble_ends_the_transfer(state: TransferView, reason: Seq<char>)
    requires
        fits(state, EventView::Failed { reason }),
        media::temp_path_of(state.output_path) is Some,
    ensures
        ({
            let (after, action) = step(state, EventView::Failed { reason });
            let temp = media::temp_path_of(state.output_path)->0;
            &&& after.stage == TransferStage::Finished
            &&& action matches ActionView::Fail { message } && {
                &&& state.stage == TransferStage::MakeDirectory ==> message == reason
                &&& state.stage == TransferStage::ClearOutput ==> text::ends_with(
                    message,
                    state.output_path,
                )
                &&& state.stage == TransferStage::ClearTemp || state.stage
                    == TransferStage::CreateTemp || state.stage == TransferStage::Store
                    || state.stage == TransferStage::Flush || state.stage
                    == TransferStage::Discard ==> text::ends_with(message, temp)
                &&& state.stage == TransferStage::Promote ==> text::ends_with(
                    message,
                    temp + " to "@ + state.output_path,
                )
                &&& state.stage == TransferStage::Spawn || state.stage == TransferStage::Read
                    || state.stage == TransferStage::AwaitExit ==> text::ends_with(
                    message,
                    state.source_url,
                )
            }
        }),
{
    let temp = media::temp_path_of(state.output_path)->0;
    match state.stage {
        TransferStage::MakeDirectory => {},
        TransferStage::ClearOutput => {
            text::lemma_behind_head(Seq::empty(), "failed to remove "@, state.output_path);
        },
        TransferStage::ClearTemp => {
            text::lemma_behind_head(Seq::empty(), "failed to remove "@, temp);
        },
        TransferStage::Spawn => {
            text::lemma_behind_head(
                Seq::empty(),
                "failed to execute yt-dlp for "@,
                state.source_url,
            );
        },
        TransferStage::CreateTemp => {
            text::lemma_behind_head(Seq::empty(), "failed to create "@, temp);
        },
        TransferStage::Read => {
            text::lemma_behind_head(
                Seq::empty(),
                "failed to read yt-dlp stdout for "@,
                state.source_url,
            );
        },
        TransferStage::Store => {
            text::lemma_behind_head(Seq::empty(), "failed to write "@, temp);
        },
        TransferStage::Flush => {
            text::lemma_behind_head(Seq::empty(), "failed to flush "@, temp);
        },
        TransferStage::AwaitExit => {
            text::lemma_behind_head(
                Seq::empty(),
                "failed to wait for yt-dlp for "@,
                state.source_url,
            );
        },
        TransferStage::Promote => {
            let tail = temp + " to "@ + state.output_path;
            text::lemma_behind_head(Seq::empty(), "failed to move "@, tail);
            assert("failed to move "@ + temp + " to "@ + state.output_path =~= "failed to move "@
                + tail);
        },
        TransferStage::Discard => {
            text::lemma_behind_head(Seq::empty(), "failed to remove "@, temp);
        },
        _ => {},
    }
}

} // verus!
