//! The stream of a download to one client: what is in the temporary file
//! first, then chunk by chunk, and what is left from the finished output, with
//! nothing left out and nothing sent twice.
use vstd::prelude::*;

use crate::transfer::DownloadChunk;

verus! {

/// The part of bytes that begin at `at` which lies behind the first `sent`
/// bytes.
pub open spec fn unsent(at: int, bytes: Seq<u8>, sent: int) -> Seq<u8> {
    if at + bytes.len() <= sent {
        Seq::empty()
    } else if at >= sent {
        bytes
    } else {
        bytes.skip(sent - at)
    }
}

/// Cuts off what was sent of a chunk already, and counts the rest as sent.
/// Nothing is returned where nothing is left. A chunk that begins behind what
/// was sent is returned whole.
pub fn trim_chunk_to_offset(chunk: DownloadChunk, offset: &mut u64) -> (bytes: Option<Vec<u8>>)
    requires
        chunk.offset + chunk.bytes@.len() <= u64::MAX,
    ensures
        bytes is Some <==> chunk.offset + chunk.bytes@.len() > *old(offset),
        bytes is Some ==> bytes->0@ == unsent(
            chunk.offset as int,
            chunk.bytes@,
            *old(offset) as int,
        ),
        *final(offset) == *old(offset) + unsent(
            chunk.offset as int,
            chunk.bytes@,
            *old(offset) as int,
        ).len(),
{
    let chunk_end: u64 = chunk.offset + chunk.bytes.len() as u64;
    if chunk_end <= *offset {
        return None;
    }
    let skip: usize = if *offset <= chunk.offset {
        0
    } else {
        (*offset - chunk.offset) as usize
    };
    let bytes: Vec<u8> = if skip == 0 {
        chunk.bytes
    } else {
        let mut kept: Vec<u8> = Vec::new();
        let mut i: usize = skip;
        while i < chunk.bytes.len()
            invariant
                skip <= i <= chunk.bytes@.len(),
                kept@ == chunk.bytes@.subrange(skip as int, i as int),
            decreases chunk.bytes@.len() - i,
        {
            kept.push(chunk.bytes[i]);
            assert(kept@ =~= chunk.bytes@.subrange(skip as int, i + 1));
            i = i + 1;
        }
        assert(kept@ =~= chunk.bytes@.skip(skip as int));
        kept
    };
    *offset = *offset + bytes.len() as u64;
    Some(bytes)
}

/// The part of a chunk that a stream sends: what lies behind the bytes that were
/// sent, and nothing of a chunk that leaves a gap behind them.
pub open spec fn sendable(at: int, bytes: Seq<u8>, sent: int) -> Seq<u8> {
    if at > sent {
        Seq::empty()
    } else {
        unsent(at, bytes, sent)
    }
}

/// What a stream is to do next.
#[derive(Debug, PartialEq, Eq)]
pub enum StreamAction {
    /// Send bytes, and look for more.
    Yield { bytes: Vec<u8> },
    /// Look for more bytes in the temporary file.
    Read,
    /// Look for more bytes in the output, which the temporary file has become.
    ReadOutput,
    /// Wait for an event.
    Wait,
    /// End: all was sent.
    End,
    /// End, though nobody knows whether all was sent.
    Abandon,
    /// Remove the temporary file, and end.
    RemoveAndEnd,
    /// End with an error.
    Fail { message: String },
}

/// What a stream waits for.
#[derive(Debug, PartialEq, Eq)]
pub enum StreamEvent {
    /// A chunk was broadcast.
    Chunk { chunk: DownloadChunk },
    /// Chunks were lost, or no more will come.
    NoChunk,
    /// The download may have ended.
    CompletionChanged,
    /// Nobody will tell that the download has ended.
    CompletionClosed,
    /// The download was told to stop.
    ShutDown,
    /// Some time went by.
    Tick,
}

/// How a download has ended, if it has: with how many bytes, or with what went
/// wrong.
pub open spec fn ending(completion: Option<Result<u64, String>>) -> Option<Result<nat, Seq<char>>> {
    match completion {
        None => None,
        Some(Ok(total)) => Some(Ok(total as nat)),
        Some(Err(message)) => Some(Err(message@)),
    }
}

/// What is left of a stream that finds nothing more in the temporary file.
pub enum Outlook {
    /// More may come.
    Open,
    /// All was sent.
    Done,
    /// The rest is in the output.
    InOutput,
    /// Nothing: the download has failed.
    Failed { message: Seq<char> },
}

/// What is left of a stream that has sent a number of bytes and finds nothing
/// more in the temporary file, by how the download has ended. Only a stream that
/// has sent as many bytes as the download has put out is done.
pub open spec fn outlook(sent: int, ended: Option<Result<nat, Seq<char>>>) -> Outlook {
    match ended {
        None => Outlook::Open,
        Some(Ok(total)) => if sent >= total {
            Outlook::Done
        } else {
            Outlook::InOutput
        },
        Some(Err(message)) => Outlook::Failed { message },
    }
}

/// One client's stream of a download: how far it has come.
pub struct DownloadStream {
    offset: u64,
}

impl DownloadStream {
    /// How many bytes were sent.
    pub closed spec fn sent(self) -> u64 {
        self.offset
    }

    /// A stream of which nothing was sent.
    pub fn start() -> (stream: DownloadStream)
        ensures
            stream.sent() == 0,
    {
        DownloadStream { offset: 0 }
    }

    /// Where in the file the next bytes are read.
    pub fn offset(&self) -> (offset: u64)
        ensures
            offset == self.sent(),
    {
        self.offset
    }

    /// Decides after a look into the temporary file, with how the download has
    /// ended, if it has: with the number of bytes that it has put out, or with
    /// what went wrong. Bytes are sent first, whatever became of the download. A
    /// stream that is behind when the temporary file has become the output goes
    /// on there; it ends only when all was sent.
    pub fn on_read(&mut self, bytes: Vec<u8>, completion: Option<Result<u64, String>>) -> (action:
        StreamAction)
        requires
            old(self).sent() + bytes@.len() <= u64::MAX,
        ensures
            final(self).sent() == old(self).sent() + bytes@.len(),
            if bytes@.len() > 0 {
                action matches StreamAction::Yield { bytes: sent } && sent@ == bytes@
            } else {
                match outlook(old(self).sent() as int, ending(completion)) {
                    Outlook::Open => action is Wait,
                    Outlook::Done => action is End,
                    Outlook::InOutput => action is ReadOutput,
                    Outlook::Failed { message: reason } => action matches StreamAction::Fail {
                        message,
                    } && message@ == reason,
                }
            },
            action is End ==> completion is Some && (completion->0 matches Ok(total) && total <= old(
                self,
            ).sent()),
            action is ReadOutput ==> completion is Some && (completion->0 matches Ok(total) && total
                > old(self).sent()),
    {
        if bytes.len() > 0 {
            self.offset = self.offset + bytes.len() as u64;
            return StreamAction::Yield { bytes };
        }
        match completion {
            None => StreamAction::Wait,
            Some(Ok(total)) => {
                if self.offset >= total {
                    StreamAction::End
                } else {
                    StreamAction::ReadOutput
                }
            },
            Some(Err(message)) => StreamAction::Fail { message },
        }
    }

    /// Decides after a look into the output of a download of which not all was
    /// sent. Where the rest is gone, the stream does not end as if it were whole.
    pub fn on_output(&mut self, bytes: Vec<u8>) -> (action: StreamAction)
        requires
            old(self).sent() + bytes@.len() <= u64::MAX,
        ensures
            final(self).sent() == old(self).sent() + bytes@.len(),
            if bytes@.len() > 0 {
                action matches StreamAction::Yield { bytes: sent } && sent@ == bytes@
            } else {
                action matches StreamAction::Fail { message } && message@
                    == "downloaded media is no longer available"@
            },
    {
        if bytes.len() > 0 {
            self.offset = self.offset + bytes.len() as u64;
            return StreamAction::Yield { bytes };
        }
        StreamAction::Fail { message: "downloaded media is no longer available".to_owned() }
    }

    /// Decides on an event. Of a chunk only what follows on the bytes that were
    /// sent is sent: where there is a gap before it, the file is looked into.
    pub fn on_event(&mut self, event: StreamEvent) -> (action: StreamAction)
        requires
            event matches StreamEvent::Chunk { chunk } ==> chunk.offset + chunk.bytes@.len()
                <= u64::MAX,
        ensures
            match event {
                StreamEvent::Chunk { chunk } => {
                    let more = sendable(
                        chunk.offset as int,
                        chunk.bytes@,
                        old(self).sent() as int,
                    );
                    &&& final(self).sent() == old(self).sent() + more.len()
                    &&& if more.len() > 0 {
                        action matches StreamAction::Yield { bytes } && bytes@ == more
                    } else {
                        action is Read
                    }
                },
                StreamEvent::CompletionClosed => action is Abandon && final(self).sent() == old(
                    self,
                ).sent(),
                StreamEvent::ShutDown => action is RemoveAndEnd && final(self).sent() == old(
                    self,
                ).sent(),
                _ => action is Read && final(self).sent() == old(self).sent(),
            },
    {
        match event {
            StreamEvent::Chunk { chunk } => {
                if chunk.offset > self.offset {
                    return StreamAction::Read;
                }
                let mut offset: u64 = self.offset;
                let bytes: Option<Vec<u8>> = trim_chunk_to_offset(chunk, &mut offset);
                self.offset = offset;
                match bytes {
                    Some(bytes) => StreamAction::Yield { bytes },
                    None => StreamAction::Read,
                }
            },
            StreamEvent::NoChunk => StreamAction::Read,
            StreamEvent::CompletionChanged => StreamAction::Read,
            StreamEvent::CompletionClosed => StreamAction::Abandon,
            StreamEvent::ShutDown => StreamAction::RemoveAndEnd,
            StreamEvent::Tick => StreamAction::Read,
        }
    }
}

/// Something that a stream takes bytes from.
pub enum Delivery {
    /// A look into the temporary file or the output, behind what was sent.
    FromFile { bytes: Seq<u8> },
    /// A chunk.
    FromChunk { offset: int, bytes: Seq<u8> },
}

/// What was sent after one more delivery.
pub open spec fn sent_after(sent: Seq<u8>, delivery: Delivery) -> Seq<u8> {
    match delivery {
        Delivery::FromFile { bytes } => sent + bytes,
        Delivery::FromChunk { offset, bytes } => sent + sendable(offset, bytes, sent.len() as int),
    }
}

/// What was sent after deliveries.
pub open spec fn all_sent(deliveries: Seq<Delivery>) -> Seq<u8>
    decreases deliveries.len(),
{
    if deliveries.len() == 0 {
        Seq::empty()
    } else {
        sent_after(all_sent(deliveries.drop_last()), deliveries.last())
    }
}

/// Whether a delivery is a part of the audio, which in a file is the part behind
/// what was sent.
pub open spec fn is_part(audio: Seq<u8>, sent: int, delivery: Delivery) -> bool {
    match delivery {
        Delivery::FromFile { bytes } => {
            &&& sent + bytes.len() <= audio.len()
            &&& bytes == audio.subrange(sent, sent + bytes.len())
        },
        Delivery::FromChunk { offset, bytes } => {
            &&& 0 <= offset
            &&& offset + bytes.len() <= audio.len()
            &&& bytes == audio.subrange(offset, offset + bytes.len())
        },
    }
}

/// Whether all deliveries are parts of the audio.
pub open spec fn are_parts(audio: Seq<u8>, deliveries: Seq<Delivery>) -> bool
    decreases deliveries.len(),
{
    if deliveries.len() == 0 {
        true
    } else {
        &&& are_parts(audio, deliveries.drop_last())
        &&& is_part(audio, all_sent(deliveries.drop_last()).len() as int, deliveries.last())
    }
}

proof fn lemma_delivery_extends_the_prefix(audio: Seq<u8>, sent: Seq<u8>, delivery: Delivery)
    requires
        sent.len() <= audio.len(),
        sent == audio.take(sent.len() as int),
        is_part(audio, sent.len() as int, delivery),
    ensures
        sent.len() <= sent_after(sent, delivery).len() <= audio.len(),
        sent_after(sent, delivery) == audio.take(sent_after(sent, delivery).len() as int),
{
    let more = sent_after(sent, delivery);
    match delivery {
        Delivery::FromFile { bytes } => {
            assert(more =~= audio.take(more.len() as int));
        },
        Delivery::FromChunk { offset, bytes } => {
            if offset <= sent.len() < offset + bytes.len() {
                assert(sendable(offset, bytes, sent.len() as int) =~= audio.subrange(
                    sent.len() as int,
                    offset + bytes.len(),
                ));
            }
            assert(more =~= audio.take(more.len() as int));
        },
    }
}

/// A client is sent the audio from its start, with nothing left out and nothing
/// sent twice, however its bytes were delivered and whatever chunks were lost.
pub proof fn lemma_stream_sends_a_prefix(audio: Seq<u8>, deliveries: Seq<Delivery>)
    requires
        are_parts(audio, deliveries),
    ensures
        all_sent(deliveries).len() <= audio.len(),
        all_sent(deliveries) == audio.take(all_sent(deliveries).len() as int),
    decreases deliveries.len(),
{
    if deliveries.len() > 0 {
        lemma_stream_sends_a_prefix(audio, deliveries.drop_last());
        lemma_delivery_extends_the_prefix(
            audio,
            all_sent(deliveries.drop_last()),
            deliveries.last(),
        );
    }
}

/// A client's stream beside the transfer that feeds it. Chunks that were
/// announced and not yet taken wait in the client's queue, in their order.
pub struct Session {
    /// All that the download puts out.
    pub audio: Seq<u8>,
    /// How many bytes are stored.
    pub stored: int,
    /// How many bytes were announced.
    pub announced: int,
    /// Where the first chunk in the queue begins; the queue ends where the
    /// announced bytes end.
    pub head: int,
    /// The bytes that were sent to the client.
    pub sent: Seq<u8>,
    /// Whether the temporary file has become the output.
    pub promoted: bool,
    /// Whether it is told that the download has ended, with as many bytes as
    /// were announced.
    pub completed: bool,
    /// Whether the stream has ended.
    pub ended: bool,
}

/// What the transfer or the stream does.
pub enum SessionEvent {
    /// The transfer stores bytes.
    Store { count: int },
    /// The transfer announces what is stored.
    Announce,
    /// The transfer makes the temporary file the output, when all was put out
    /// and announced.
    Promote,
    /// The end of the download is told.
    Complete,
    /// The queue loses its first chunks.
    Lose { count: int },
    /// The stream sends bytes that it finds in the temporary file.
    SendFromFile { count: int },
    /// The stream takes the first chunk of its queue.
    TakeChunk { count: int },
    /// The stream sends bytes that it finds in the output.
    SendFromOutput { count: int },
    /// The stream ends.
    End,
}

/// The session of a client that comes when some bytes were stored and announced.
pub open spec fn joined_session(
    audio: Seq<u8>,
    stored: int,
    announced: int,
    promoted: bool,
) -> Session {
    Session {
        audio,
        stored,
        announced,
        head: announced,
        sent: Seq::empty(),
        promoted,
        completed: false,
        ended: false,
    }
}

/// How the download has ended, as far as it is told.
pub open spec fn told_ending(session: Session) -> Option<Result<nat, Seq<char>>> {
    if session.completed {
        Some(Ok(session.announced as nat))
    } else {
        None
    }
}

/// Whether the stream may find nothing more in the temporary file: all that is
/// stored was sent, or the file is no longer in its place.
pub open spec fn may_find_nothing(session: Session) -> bool {
    session.promoted || session.stored <= session.sent.len()
}

/// Whether something can be done.
pub open spec fn can_happen(session: Session, event: SessionEvent) -> bool {
    let left = outlook(session.sent.len() as int, told_ending(session));
    match event {
        SessionEvent::Store { count } => !session.promoted && 0 < count && session.stored
            == session.announced && session.stored + count <= session.audio.len(),
        SessionEvent::Announce => true,
        SessionEvent::Promote => session.announced == session.audio.len(),
        SessionEvent::Complete => session.promoted,
        SessionEvent::Lose { count } => 0 < count <= session.announced - session.head,
        SessionEvent::SendFromFile { count } => !session.ended && 0 < count <= session.stored
            - session.sent.len(),
        SessionEvent::TakeChunk { count } => !session.ended && may_find_nothing(session) && left
            is Open && 0 < count <= session.announced - session.head,
        SessionEvent::SendFromOutput { count } => !session.ended && may_find_nothing(session) && left
            is InOutput && 0 < count <= session.stored - session.sent.len(),
        SessionEvent::End => may_find_nothing(session) && left is Done,
    }
}

/// What is delivered to the stream, if anything is.
pub open spec fn delivered(session: Session, event: SessionEvent) -> Option<Delivery> {
    let from = session.sent.len() as int;
    match event {
        SessionEvent::SendFromFile { count } => Some(
            Delivery::FromFile { bytes: session.audio.subrange(from, from + count) },
        ),
        SessionEvent::SendFromOutput { count } => Some(
            Delivery::FromFile { bytes: session.audio.subrange(from, from + count) },
        ),
        SessionEvent::TakeChunk { count } => Some(
            Delivery::FromChunk {
                offset: session.head,
                bytes: session.audio.subrange(session.head, session.head + count),
            },
        ),
        _ => None,
    }
}

/// The session after something was done.
pub open spec fn after_session_event(session: Session, event: SessionEvent) -> Session {
    let sent = match delivered(session, event) {
        Some(delivery) => sent_after(session.sent, delivery),
        None => session.sent,
    };
    match event {
        SessionEvent::Store { count } => Session { stored: session.stored + count, ..session },
        SessionEvent::Announce => Session { announced: session.stored, ..session },
        SessionEvent::Promote => Session { promoted: true, ..session },
        SessionEvent::Complete => Session { completed: true, ..session },
        SessionEvent::Lose { count } => Session { head: session.head + count, ..session },
        SessionEvent::SendFromFile { .. } => Session { sent, ..session },
        SessionEvent::TakeChunk { count } => Session { head: session.head + count, sent, ..session },
        SessionEvent::SendFromOutput { .. } => Session { sent, ..session },
        SessionEvent::End => Session { ended: true, ..session },
    }
}

/// What holds of every session: what was sent is the audio from its start, and
/// nothing is sent that is not stored. A download that is promoted has put out
/// all of the audio, and a stream that has ended has sent all of it.
pub open spec fn is_sound(session: Session) -> bool {
    &&& 0 <= session.head <= session.announced <= session.stored <= session.audio.len()
    &&& session.sent.len() <= session.stored
    &&& session.sent == session.audio.take(session.sent.len() as int)
    &&& session.promoted ==> session.announced == session.audio.len()
    &&& session.completed ==> session.promoted
    &&& session.ended ==> session.sent == session.audio
}

/// Whatever the transfer or the stream does, and whatever chunks are lost, each
/// delivery is a part of the audio, and the session stays sound.
pub proof fn lemma_stream_meets_no_gap(session: Session, event: SessionEvent)
    requires
        is_sound(session),
        can_happen(session, event),
    ensures
        is_sound(after_session_event(session, event)),
        delivered(session, event) matches Some(delivery) ==> is_part(
            session.audio,
            session.sent.len() as int,
            delivery,
        ),
        event is End ==> session.sent == session.audio,
{
    match delivered(session, event) {
        Some(delivery) => {
            lemma_delivery_extends_the_prefix(session.audio, session.sent, delivery);
        },
        None => {},
    }
    if event is End {
        assert(session.audio.take(session.audio.len() as int) =~= session.audio);
    }
}

/// The session after events.
pub open spec fn after_session_events(session: Session, events: Seq<SessionEvent>) -> Session
    decreases events.len(),
{
    if events.len() == 0 {
        session
    } else {
        after_session_event(after_session_events(session, events.drop_last()), events.last())
    }
}

/// Whether each of events can happen when it does.
pub open spec fn all_can_happen(session: Session, events: Seq<SessionEvent>) -> bool
    decreases events.len(),
{
    if events.len() == 0 {
        true
    } else {
        &&& all_can_happen(session, events.drop_last())
        &&& can_happen(after_session_events(session, events.drop_last()), events.last())
    }
}

proof fn lemma_sessions_stay_sound(session: Session, events: Seq<SessionEvent>)
    requires
        is_sound(session),
        all_can_happen(session, events),
    ensures
        is_sound(after_session_events(session, events)),
        after_session_events(session, events).audio == session.audio,
    decreases events.len(),
{
    if events.len() > 0 {
        lemma_sessions_stay_sound(session, events.drop_last());
        lemma_stream_meets_no_gap(
            after_session_events(session, events.drop_last()),
            events.last(),
        );
    }
}

/// A stream that has ended has sent exactly the audio: whenever the client came,
/// however slowly it read, whatever chunks were lost, and though the temporary
/// file may have become the output meanwhile.
pub proof fn lemma_ended_stream_sent_all(
    audio: Seq<u8>,
    stored: int,
    announced: int,
    promoted: bool,
    events: Seq<SessionEvent>,
)
    requires
        0 <= announced <= stored <= audio.len(),
        promoted ==> announced == audio.len(),
        all_can_happen(joined_session(audio, stored, announced, promoted), events),
    ensures
        after_session_events(
            joined_session(audio, stored, announced, promoted),
            events,
        ).ended ==> after_session_events(
            joined_session(audio, stored, announced, promoted),
            events,
        ).sent == audio,
{
    let session = joined_session(audio, stored, announced, promoted);
    assert(session.sent =~= audio.take(0));
    lemma_sessions_stay_sound(session, events);
}

/// A stream of a download that has ended never waits for more: as long as
/// something is unsent it can be sent from the output, and when all is sent the
/// stream can end.
pub proof fn lemma_completed_stream_goes_on(session: Session)
    requires
        is_sound(session),
        session.completed,
        !session.ended,
    ensures
        session.sent.len() < session.audio.len() ==> can_happen(
            session,
            SessionEvent::SendFromOutput { count: session.audio.len() - session.sent.len() },
        ),
        session.sent.len() == session.audio.len() ==> can_happen(session, SessionEvent::End),
{
}

/// What is left of a chunk is all of its bytes that lie behind what was sent, in
/// their order, and none of the others.
pub proof fn lemma_unsent_lies_behind(at: int, bytes: Seq<u8>, sent: int)
    ensures
        ({
            let from = if at >= sent {
                at
            } else {
                sent
            };
            let left = unsent(at, bytes, sent);
            &&& at + bytes.len() > from ==> left.len() == at + bytes.len() - from
            &&& at + bytes.len() <= from ==> left.len() == 0
            &&& forall|i: int| 0 <= i < left.len() ==> #[trigger] left[i] == bytes[from - at + i]
        }),
{
}

/// What a stream sends of a chunk follows on what it has sent: nothing of a chunk
/// that begins behind that or ends before it, and else what is left of it up to
/// its end.
pub proof fn lemma_sendable_follows(at: int, bytes: Seq<u8>, sent: int)
    ensures
        at > sent || at + bytes.len() <= sent ==> sendable(at, bytes, sent).len() == 0,
        at <= sent < at + bytes.len() ==> sent + sendable(at, bytes, sent).len() == at
            + bytes.len(),
        forall|i: int|
            0 <= i < sendable(at, bytes, sent).len() ==> #[trigger] sendable(at, bytes, sent)[i]
                == bytes[sent - at + i],
{
}

/// A stream that finds nothing more ends only where the download has put out no
/// more than was sent; it goes on in the output where more was put out, fails
/// where the download has, with what went wrong, and waits while it runs.
pub proof fn lemma_stream_ends_with_the_audio(
    sent: int,
    completion: Option<Result<u64, String>>,
)
    ensures
        outlook(sent, ending(completion)) is Done <==> (completion matches Some(Ok(total)) && total
            <= sent),
        outlook(sent, ending(completion)) is InOutput <==> (completion matches Some(Ok(total))
            && total > sent),
        outlook(sent, ending(completion)) is Failed <==> (completion matches Some(Err(_))),
        completion matches Some(Err(reason)) ==> outlook(sent, ending(completion)) == (
        Outlook::Failed { message: reason@ }),
        outlook(sent, ending(completion)) is Open <==> completion is None,
{
}

} // verus!
