//! Just-in-time downloads: which requests start one, and what its clients do
//! to it.
use vstd::prelude::*;

use crate::config::DisconnectBehavior;
use crate::media;
use crate::text;

verus! {

/// Downloads that run at a time where nothing else is configured.
pub const DEFAULT_MAX_CONCURRENT: usize = 3;

/// Nanoseconds that a download waits for a reconnect where nothing else is
/// configured: fifteen seconds.
pub const DEFAULT_GRACE_NANOS: u128 = 15_000_000_000;

/// As many downloads run as may.
#[derive(Debug, Clone, Copy, PartialEq, Eq, Structural)]
pub struct DownloadLimitError;

/// What a request for a download comes to.
#[derive(Debug, PartialEq, Eq)]
pub enum EnsuredDownload {
    /// The download of the same key that runs already.
    Joined,
    /// A download that starts now, into a temporary file.
    Started { temp_path: String },
    /// A download that has failed before it could start.
    Failed { message: String },
}

/// The downloads that run, by their keys.
pub struct DownloadCoordinator {
    in_flight: Vec<String>,
    max_concurrent: usize,
    disconnect_behavior: DisconnectBehavior,
    disconnect_grace_nanos: u128,
}

impl DownloadCoordinator {
    /// The keys of the downloads that run, in the order of their start.
    pub closed spec fn running(self) -> Seq<Seq<char>> {
        text::texts(self.in_flight@)
    }

    /// How many downloads may run at a time.
    pub closed spec fn limit(self) -> nat {
        self.max_concurrent as nat
    }

    /// What becomes of a download without clients.
    pub closed spec fn behavior(self) -> DisconnectBehavior {
        self.disconnect_behavior
    }

    /// How many nanoseconds a download waits for a reconnect.
    pub closed spec fn grace(self) -> u128 {
        self.disconnect_grace_nanos
    }

    /// No key runs twice, and no more downloads run than may.
    #[verifier::type_invariant]
    spec fn within_limit(self) -> bool {
        &&& self.max_concurrent >= 1
        &&& self.in_flight@.len() <= self.max_concurrent
        &&& text::texts(self.in_flight@).no_duplicates()
    }

    /// A coordinator with all defaults.
    pub fn new() -> (coordinator: DownloadCoordinator)
        ensures
            coordinator.running() == Seq::<Seq<char>>::empty(),
            coordinator.limit() == DEFAULT_MAX_CONCURRENT,
            coordinator.behavior() == DisconnectBehavior::DelayCancel,
            coordinator.grace() == DEFAULT_GRACE_NANOS,
    {
        Self::with_disconnect_and_limit(
            DisconnectBehavior::DelayCancel,
            DEFAULT_GRACE_NANOS,
            DEFAULT_MAX_CONCURRENT,
        )
    }

    /// A coordinator with the default limit.
    pub fn with_disconnect(
        disconnect_behavior: DisconnectBehavior,
        disconnect_grace_nanos: u128,
    ) -> (coordinator: DownloadCoordinator)
        ensures
            coordinator.running() == Seq::<Seq<char>>::empty(),
            coordinator.limit() == DEFAULT_MAX_CONCURRENT,
            coordinator.behavior() == disconnect_behavior,
            coordinator.grace() == disconnect_grace_nanos,
    {
        Self::with_disconnect_and_limit(
            disconnect_behavior,
            disconnect_grace_nanos,
            DEFAULT_MAX_CONCURRENT,
        )
    }

    /// A coordinator with the default behavior.
    pub fn with_limit(max_concurrent: usize) -> (coordinator: DownloadCoordinator)
        ensures
            coordinator.running() == Seq::<Seq<char>>::empty(),
            coordinator.limit() == if max_concurrent == 0 {
                1
            } else {
                max_concurrent as nat
            },
            coordinator.behavior() == DisconnectBehavior::DelayCancel,
            coordinator.grace() == DEFAULT_GRACE_NANOS,
    {
        Self::with_disconnect_and_limit(
            DisconnectBehavior::DelayCancel,
            DEFAULT_GRACE_NANOS,
            max_concurrent,
        )
    }

    /// A coordinator. At least one download can run.
    pub fn with_disconnect_and_limit(
        disconnect_behavior: DisconnectBehavior,
        disconnect_grace_nanos: u128,
        max_concurrent: usize,
    ) -> (coordinator: DownloadCoordinator)
        ensures
            coordinator.running() == Seq::<Seq<char>>::empty(),
            coordinator.limit() == if max_concurrent == 0 {
                1
            } else {
                max_concurrent as nat
            },
            coordinator.behavior() == disconnect_behavior,
            coordinator.grace() == disconnect_grace_nanos,
    {
        let in_flight: Vec<String> = Vec::new();
        assert(text::texts(in_flight@) =~= Seq::<Seq<char>>::empty());
        DownloadCoordinator {
            in_flight,
            max_concurrent: if max_concurrent == 0 {
                1
            } else {
                max_concurrent
            },
            disconnect_behavior,
            disconnect_grace_nanos,
        }
    }

    fn position(&self, key: &str) -> (at: Option<usize>)
        ensures
            match at {
                Some(i) => i < self.in_flight@.len() && self.in_flight@[i as int]@ == key@,
                None => !text::texts(self.in_flight@).contains(key@),
            },
    {
        let mut i: usize = 0;
        while i < self.in_flight.len()
            invariant
                i <= self.in_flight@.len(),
                forall|j: int| 0 <= j < i ==> #[trigger] text::texts(self.in_flight@)[j] != key@,
            decreases self.in_flight@.len() - i,
        {
            if text::same_text(self.in_flight[i].as_str(), key) {
                return Some(i);
            }
            i = i + 1;
        }
        None
    }

    /// Whether a download runs.
    pub fn is_running(&self, key: &str) -> (yes: bool)
        ensures
            yes == self.running().contains(key@),
    {
        match self.position(key) {
            Some(i) => {
                assert(text::texts(self.in_flight@)[i as int] == key@);
                true
            },
            None => false,
        }
    }

    /// Joins the download of `key`, or starts one. A request joins whatever the
    /// limit; only a new download is refused when as many run as may.
    pub fn try_ensure_download(&mut self, key: String, output_path: &str) -> (ensured: Result<
        EnsuredDownload,
        DownloadLimitError,
    >)
        ensures
            final(self).limit() == old(self).limit(),
            final(self).behavior() == old(self).behavior(),
            final(self).grace() == old(self).grace(),
            if old(self).running().contains(key@) {
                &&& ensured matches Ok(EnsuredDownload::Joined)
                &&& final(self).running() == old(self).running()
            } else if old(self).running().len() >= old(self).limit() {
                &&& ensured is Err
                &&& final(self).running() == old(self).running()
            } else {
                match media::temp_path_of(output_path@) {
                    Some(temp) => {
                        &&& ensured matches Ok(EnsuredDownload::Started { temp_path })
                        &&& temp_path@ == temp
                        &&& final(self).running() == old(self).running().push(key@)
                    },
                    None => {
                        &&& ensured matches Ok(EnsuredDownload::Failed { message })
                        &&& message@ == "download path has no valid file name"@
                        &&& final(self).running() == old(self).running()
                    },
                }
            },
            final(self).running().no_duplicates(),
            final(self).running().len() <= final(self).limit(),
            ensured is Err <==> !old(self).running().contains(key@) && old(self).running().len()
                == old(self).limit(),
            ensured matches Ok(EnsuredDownload::Started { .. }) ==> final(self).running().contains(
                key@,
            ) && !old(self).running().contains(key@),
    {
        proof {
            use_type_invariant(&*self);
        }
        if self.is_running(key.as_str()) {
            return Ok(EnsuredDownload::Joined);
        }
        if self.in_flight.len() >= self.max_concurrent {
            return Err(DownloadLimitError);
        }
        match media::temp_download_path(output_path) {
            Ok(temp_path) => {
                let mut in_flight: Vec<String> = Vec::new();
                std::mem::swap(&mut in_flight, &mut self.in_flight);
                let ghost before = in_flight@;
                in_flight.push(key);
                assert(text::texts(in_flight@) =~= text::texts(before).push(key@));
                assert(text::texts(in_flight@)[before.len() as int] == key@);
                self.in_flight = in_flight;
                Ok(EnsuredDownload::Started { temp_path })
            },
            Err(error) => Ok(EnsuredDownload::Failed { message: error.message() }),
        }
    }

    /// Joins the download of `key`, or starts one. One that is refused because
    /// of the limit has failed before it could start.
    pub fn ensure_download(&mut self, key: String, output_path: &str) -> (ensured: EnsuredDownload)
        ensures
            final(self).limit() == old(self).limit(),
            final(self).behavior() == old(self).behavior(),
            final(self).grace() == old(self).grace(),
            if old(self).running().contains(key@) {
                &&& ensured is Joined
                &&& final(self).running() == old(self).running()
            } else if old(self).running().len() >= old(self).limit() {
                &&& ensured matches EnsuredDownload::Failed { message }
                &&& message@ == "maximum concurrent media downloads reached"@
                &&& final(self).running() == old(self).running()
            } else {
                match media::temp_path_of(output_path@) {
                    Some(temp) => {
                        &&& ensured matches EnsuredDownload::Started { temp_path }
                        &&& temp_path@ == temp
                        &&& final(self).running() == old(self).running().push(key@)
                    },
                    None => {
                        &&& ensured matches EnsuredDownload::Failed { message }
                        &&& message@ == "download path has no valid file name"@
                        &&& final(self).running() == old(self).running()
                    },
                }
            },
    {
        match self.try_ensure_download(key, output_path) {
            Ok(ensured) => ensured,
            Err(_) => EnsuredDownload::Failed {
                message: "maximum concurrent media downloads reached".to_owned(),
            },
        }
    }

    /// Takes note that a download has ended, however it did: its key can start
    /// another one.
    pub fn finish(&mut self, key: &str)
        ensures
            final(self).limit() == old(self).limit(),
            final(self).behavior() == old(self).behavior(),
            final(self).grace() == old(self).grace(),
            !final(self).running().contains(key@),
            if old(self).running().contains(key@) {
                final(self).running() == old(self).running().remove(
                    old(self).running().index_of(key@),
                )
            } else {
                final(self).running() == old(self).running()
            },
    {
        proof {
            use_type_invariant(&*self);
        }
        match self.position(key) {
            Some(i) => {
                let mut in_flight: Vec<String> = Vec::new();
                std::mem::swap(&mut in_flight, &mut self.in_flight);
                let ghost before = text::texts(in_flight@);
                in_flight.remove(i);
                proof {
                    assert(before[i as int] == key@);
                    assert(before.index_of(key@) == i);
                    assert(text::texts(in_flight@) =~= before.remove(i as int));
                    lemma_remove_keeps_distinct(before, i as int);
                }
                self.in_flight = in_flight;
            },
            None => {},
        }
    }

    /// The life of a download that starts now.
    pub fn lifecycle(&self) -> (lifecycle: DownloadLifecycle)
        ensures
            lifecycle@ == (LifecycleView {
                clients: 0,
                generation: 0,
                completed: false,
                cancelled: false,
                behavior: self.behavior(),
            }),
            lifecycle.grace() == self.grace(),
    {
        DownloadLifecycle {
            clients: 0,
            generation: 0,
            completed: false,
            cancelled: false,
            behavior: self.disconnect_behavior,
            grace_nanos: self.disconnect_grace_nanos,
        }
    }
}

proof fn lemma_remove_keeps_distinct(s: Seq<Seq<char>>, at: int)
    requires
        s.no_duplicates(),
        0 <= at < s.len(),
    ensures
        s.remove(at).no_duplicates(),
        !s.remove(at).contains(s[at]),
{
    let kept = s.remove(at);
    assert forall|i: int, j: int| 0 <= i < kept.len() && 0 <= j < kept.len() && i != j implies kept[i]
        != kept[j] by {
        let left = if i < at {
            i
        } else {
            i + 1
        };
        let right = if j < at {
            j
        } else {
            j + 1
        };
        assert(kept[i] == s[left] && kept[j] == s[right]);
    }
    assert forall|i: int| 0 <= i < kept.len() implies kept[i] != s[at] by {
        let from = if i < at {
            i
        } else {
            i + 1
        };
        assert(kept[i] == s[from]);
    }
}

/// The state of one download.
#[verifier::ext_equal]
pub struct LifecycleView {
    /// The clients that are attached.
    pub clients: nat,
    /// Counts attachments and detachments.
    pub generation: nat,
    /// Whether the download has ended.
    pub completed: bool,
    /// Whether the download was told to stop.
    pub cancelled: bool,
    pub behavior: DisconnectBehavior,
}

/// What happens to a download.
pub enum LifecycleEvent {
    /// A client begins to stream.
    Attach,
    /// A client goes away.
    Detach,
    /// The grace period that began with a detachment is over.
    GraceElapsed { generation: nat },
    /// The download ends.
    Complete,
    /// The server shuts down.
    ShutDown,
}

/// The state after a request to stop, which comes too late for a download that
/// has ended.
pub open spec fn after_cancel(state: LifecycleView) -> LifecycleView {
    LifecycleView { cancelled: state.cancelled || !state.completed, ..state }
}

/// The state after the last of the clients has gone.
pub open spec fn after_last_detach(state: LifecycleView) -> LifecycleView {
    if state.behavior == DisconnectBehavior::Cancel {
        after_cancel(state)
    } else {
        state
    }
}

/// The state after an event.
pub open spec fn after_event(state: LifecycleView, event: LifecycleEvent) -> LifecycleView {
    match event {
        LifecycleEvent::Attach => LifecycleView {
            clients: state.clients + 1,
            generation: state.generation + 1,
            ..state
        },
        LifecycleEvent::Detach => if state.clients == 0 {
            LifecycleView { clients: usize::MAX as nat, ..state }
        } else {
            let left = LifecycleView {
                clients: (state.clients - 1) as nat,
                generation: state.generation + 1,
                ..state
            };
            if left.clients == 0 {
                after_last_detach(left)
            } else {
                left
            }
        },
        LifecycleEvent::GraceElapsed { generation } => if state.clients == 0 && state.generation
            == generation {
            after_cancel(state)
        } else {
            state
        },
        LifecycleEvent::Complete => LifecycleView { completed: true, ..state },
        LifecycleEvent::ShutDown => LifecycleView { cancelled: true, ..state },
    }
}

/// What is to be done when a client has gone.
#[derive(Debug, Clone, Copy, PartialEq, Eq, Structural)]
pub enum DetachAction {
    /// Nothing: the download goes on, or has ended.
    Keep,
    /// The download is told to stop.
    Cancel,
    /// The grace period begins; what is remembered is the generation.
    DelayCancel { generation: u64 },
}

/// What is to be done when a client of a download goes.
pub open spec fn detach_action(state: LifecycleView) -> DetachAction {
    if state.clients != 1 || state.completed {
        DetachAction::Keep
    } else {
        match state.behavior {
            DisconnectBehavior::Continue => DetachAction::Keep,
            DisconnectBehavior::Cancel => DetachAction::Cancel,
            DisconnectBehavior::DelayCancel => DetachAction::DelayCancel {
                generation: (state.generation + 1) as u64,
            },
        }
    }
}

/// The state of one download, and how long it waits for a reconnect.
pub struct DownloadLifecycle {
    clients: usize,
    generation: u64,
    completed: bool,
    cancelled: bool,
    behavior: DisconnectBehavior,
    grace_nanos: u128,
}

impl View for DownloadLifecycle {
    type V = LifecycleView;

    closed spec fn view(&self) -> LifecycleView {
        LifecycleView {
            clients: self.clients as nat,
            generation: self.generation as nat,
            completed: self.completed,
            cancelled: self.cancelled,
            behavior: self.behavior,
        }
    }
}

impl DownloadLifecycle {
    /// How many nanoseconds the download waits for a reconnect.
    pub closed spec fn grace(self) -> u128 {
        self.grace_nanos
    }

    /// How many nanoseconds the download waits for a reconnect.
    pub fn grace_nanos(&self) -> (nanos: u128)
        ensures
            nanos == self.grace(),
    {
        self.grace_nanos
    }

    /// The clients that are attached.
    pub fn clients(&self) -> (clients: usize)
        ensures
            clients == self@.clients,
    {
        self.clients
    }

    /// How often a client was attached or detached.
    pub fn generation(&self) -> (generation: u64)
        ensures
            generation == self@.generation,
    {
        self.generation
    }

    /// Whether the download was told to stop.
    pub fn is_cancelled(&self) -> (yes: bool)
        ensures
            yes == self@.cancelled,
    {
        self.cancelled
    }

    /// Attaches a client.
    pub fn attach_client(&mut self)
        requires
            old(self)@.clients < usize::MAX,
            old(self)@.generation < u64::MAX,
        ensures
            final(self)@ == after_event(old(self)@, LifecycleEvent::Attach),
            final(self).grace() == old(self).grace(),
    {
        self.clients = self.clients + 1;
        self.generation = self.generation + 1;
    }

    /// Detaches a client. Where none is attached the count wraps around, and
    /// nothing else happens.
    pub fn detach_client(&mut self) -> (action: DetachAction)
        requires
            old(self)@.clients > 0 ==> old(self)@.generation < u64::MAX,
        ensures
            final(self)@ == after_event(old(self)@, LifecycleEvent::Detach),
            final(self).grace() == old(self).grace(),
            action == if old(self)@.clients != 1 || old(self)@.completed {
                DetachAction::Keep
            } else {
                match old(self)@.behavior {
                    DisconnectBehavior::Continue => DetachAction::Keep,
                    DisconnectBehavior::Cancel => DetachAction::Cancel,
                    DisconnectBehavior::DelayCancel => DetachAction::DelayCancel {
                        generation: final(self)@.generation as u64,
                    },
                }
            },
            action == detach_action(old(self)@),
    {
        if self.clients == 0 {
            self.clients = usize::MAX;
            return DetachAction::Keep;
        }
        self.clients = self.clients - 1;
        self.generation = self.generation + 1;
        if self.clients != 0 {
            return DetachAction::Keep;
        }
        if self.completed {
            return DetachAction::Keep;
        }
        match self.behavior {
            DisconnectBehavior::Continue => DetachAction::Keep,
            DisconnectBehavior::Cancel => {
                self.cancel();
                DetachAction::Cancel
            },
            DisconnectBehavior::DelayCancel => DetachAction::DelayCancel {
                generation: self.generation,
            },
        }
    }

    /// Decides at the end of a grace period: the download is told to stop unless
    /// a client came or went since the period began. Returns whether it is.
    pub fn grace_elapsed(&mut self, generation: u64) -> (stopped: bool)
        ensures
            final(self)@ == after_event(
                old(self)@,
                LifecycleEvent::GraceElapsed { generation: generation as nat },
            ),
            final(self).grace() == old(self).grace(),
            stopped == (old(self)@.clients == 0 && old(self)@.generation == generation && !old(
                self,
            )@.completed),
    {
        if self.clients == 0 && self.generation == generation {
            self.cancel()
        } else {
            false
        }
    }

    /// Tells the download to stop, unless it has ended. Returns whether it is
    /// told.
    pub fn cancel(&mut self) -> (told: bool)
        ensures
            final(self)@ == after_cancel(old(self)@),
            final(self).grace() == old(self).grace(),
            told == !old(self)@.completed,
    {
        if self.completed {
            return false;
        }
        self.cancelled = true;
        true
    }

    /// Tells the download to stop because the server does.
    pub fn shut_down(&mut self)
        ensures
            final(self)@ == after_event(old(self)@, LifecycleEvent::ShutDown),
            final(self).grace() == old(self).grace(),
    {
        self.cancelled = true;
    }

    /// Takes note that the download has ended.
    pub fn mark_completed(&mut self)
        ensures
            final(self)@ == after_event(old(self)@, LifecycleEvent::Complete),
            final(self).grace() == old(self).grace(),
    {
        self.completed = true;
    }
}

/// The state after a sequence of events.
pub open spec fn after_events(state: LifecycleView, events: Seq<LifecycleEvent>) -> LifecycleView
    decreases events.len(),
{
    if events.len() == 0 {
        state
    } else {
        after_event(after_events(state, events.drop_last()), events.last())
    }
}

/// Whether no client is detached that was not attached.
pub open spec fn is_paired(state: LifecycleView, events: Seq<LifecycleEvent>) -> bool
    decreases events.len(),
{
    if events.len() == 0 {
        true
    } else {
        &&& is_paired(state, events.drop_last())
        &&& events.last() is Detach ==> after_events(state, events.drop_last()).clients > 0
    }
}

/// How many clients the events attach.
pub open spec fn attachments(events: Seq<LifecycleEvent>) -> nat
    decreases events.len(),
{
    if events.len() == 0 {
        0
    } else {
        attachments(events.drop_last()) + if events.last() is Attach {
            1nat
        } else {
            0nat
        }
    }
}

/// How many clients the events detach.
pub open spec fn detachments(events: Seq<LifecycleEvent>) -> nat
    decreases events.len(),
{
    if events.len() == 0 {
        0
    } else {
        detachments(events.drop_last()) + if events.last() is Detach {
            1nat
        } else {
            0nat
        }
    }
}

/// Whether the server shuts down in the course of the events.
pub open spec fn shuts_down(events: Seq<LifecycleEvent>) -> bool {
    exists|i: int| 0 <= i < events.len() && #[trigger] events[i] is ShutDown
}

/// Whether a client begins to stream in the course of the events.
pub open spec fn reconnects(events: Seq<LifecycleEvent>) -> bool {
    exists|i: int| 0 <= i < events.len() && #[trigger] events[i] is Attach
}

/// The clients of a download are those attached and not yet detached, and the
/// generation counts both.
pub proof fn lemma_clients_are_counted(state: LifecycleView, events: Seq<LifecycleEvent>)
    requires
        is_paired(state, events),
    ensures
        after_events(state, events).clients == state.clients + attachments(events) - detachments(
            events,
        ),
        after_events(state, events).generation == state.generation + attachments(events)
            + detachments(events),
    decreases events.len(),
{
    if events.len() > 0 {
        lemma_clients_are_counted(state, events.drop_last());
    }
}

proof fn lemma_reconnect_is_counted(events: Seq<LifecycleEvent>)
    requires
        reconnects(events),
    ensures
        attachments(events) > 0,
    decreases events.len(),
{
    let i = choose|i: int| 0 <= i < events.len() && #[trigger] events[i] is Attach;
    if i < events.len() - 1 {
        assert(events.drop_last()[i] is Attach);
        lemma_reconnect_is_counted(events.drop_last());
    }
}

/// A client that comes during a grace period, though it may have gone again,
/// keeps that period's end from stopping the download.
pub proof fn lemma_reconnect_prevents_cancel(
    state: LifecycleView,
    generation: nat,
    events: Seq<LifecycleEvent>,
)
    requires
        is_paired(state, events),
        generation <= state.generation,
        reconnects(events),
    ensures
        after_event(
            after_events(state, events),
            LifecycleEvent::GraceElapsed { generation },
        ) == after_events(state, events),
{
    lemma_clients_are_counted(state, events);
    lemma_reconnect_is_counted(events);
}

/// A grace period that nobody interrupts ends with the download told to stop,
/// unless it has ended.
pub proof fn lemma_uninterrupted_grace_stops(state: LifecycleView)
    requires
        state.clients == 1,
        state.behavior == DisconnectBehavior::DelayCancel,
    ensures
        after_event(state, LifecycleEvent::Detach).cancelled == state.cancelled,
        after_event(
            after_event(state, LifecycleEvent::Detach),
            LifecycleEvent::GraceElapsed { generation: state.generation + 1 },
        ).cancelled == (state.cancelled || !state.completed),
{
}

/// A download that has ended is told to stop by nothing but the server's own
/// end.
pub proof fn lemma_completed_is_not_cancelled(state: LifecycleView, events: Seq<LifecycleEvent>)
    requires
        state.completed,
        !shuts_down(events),
    ensures
        after_events(state, events).completed,
        after_events(state, events).cancelled == state.cancelled,
    decreases events.len(),
{
    if events.len() > 0 {
        lemma_without_last_shuts_down(events);
        lemma_completed_is_not_cancelled(state, events.drop_last());
    }
}

proof fn lemma_without_last_shuts_down(events: Seq<LifecycleEvent>)
    requires
        events.len() > 0,
        !shuts_down(events),
    ensures
        !shuts_down(events.drop_last()),
        !(events.last() is ShutDown),
{
    let rest = events.drop_last();
    assert(!(events[events.len() - 1] is ShutDown));
    assert forall|i: int| 0 <= i < rest.len() implies !(#[trigger] rest[i] is ShutDown) by {
        assert(!(events[i] is ShutDown));
    }
}

/// A download that continues without clients is told to stop by nothing but the
/// server's own end: no grace period begins, and no disconnect stops it.
pub proof fn lemma_continue_is_not_cancelled(state: LifecycleView, events: Seq<LifecycleEvent>)
    requires
        state.behavior == DisconnectBehavior::Continue,
        !shuts_down(events),
        forall|i: int| 0 <= i < events.len() ==> !(#[trigger] events[i] is GraceElapsed),
    ensures
        after_events(state, events).behavior == DisconnectBehavior::Continue,
        after_events(state, events).cancelled == state.cancelled,
    decreases events.len(),
{
    if events.len() > 0 {
        lemma_without_last_shuts_down(events);
        assert(!(events[events.len() - 1] is GraceElapsed));
        assert forall|i: int| 0 <= i < events.len() - 1 implies !(#[trigger] events.drop_last()[i] is GraceElapsed) by {
            assert(!(events[i] is GraceElapsed));
        }
        lemma_continue_is_not_cancelled(state, events.drop_last());
    }
}

/// No disconnect and no end of a grace period stops a download that still has
/// a client.
pub proof fn lemma_clients_keep_the_download(state: LifecycleView, event: LifecycleEvent)
    requires
        !(event is ShutDown),
        after_event(state, event).clients > 0,
    ensures
        after_event(state, event).cancelled == state.cancelled,
{
}

/// What is done when a client goes is what becomes of the download. It is told to
/// stop at once exactly where the last client of a running download goes and
/// downloads are to be cancelled; where that is to be delayed, it is told to stop
/// when the grace period is over, if by then nobody came or went; and otherwise
/// nothing happens to it.
pub proof fn lemma_detach_is_carried_out(state: LifecycleView)
    requires
        state.clients > 0,
        state.generation < u64::MAX,
    ensures
        ({
            let after = after_event(state, LifecycleEvent::Detach);
            let action = detach_action(state);
            &&& after.clients == state.clients - 1
            &&& action == DetachAction::Cancel <==> state.clients == 1 && !state.completed
                && state.behavior == DisconnectBehavior::Cancel
            &&& action == DetachAction::Cancel ==> after.cancelled
            &&& action is DelayCancel <==> state.clients == 1 && !state.completed
                && state.behavior == DisconnectBehavior::DelayCancel
            &&& action matches DetachAction::DelayCancel { generation } ==> after.cancelled
                == state.cancelled && after_event(
                after,
                LifecycleEvent::GraceElapsed { generation: generation as nat },
            ).cancelled
            &&& action == DetachAction::Keep ==> after.cancelled == state.cancelled
        }),
{
}

/// A client that comes is one client more, and ends every grace period that had
/// begun; neither it nor the end of the download tells the download to stop. The
/// server's end does.
pub proof fn lemma_attach_keeps_the_download(state: LifecycleView, generation: nat)
    requires
        generation <= state.generation,
    ensures
        after_event(state, LifecycleEvent::Attach).clients == state.clients + 1,
        after_event(state, LifecycleEvent::Attach).cancelled == state.cancelled,
        after_event(
            after_event(state, LifecycleEvent::Attach),
            LifecycleEvent::GraceElapsed { generation },
        ).cancelled == state.cancelled,
        after_event(state, LifecycleEvent::Complete).completed,
        after_event(state, LifecycleEvent::Complete).cancelled == state.cancelled,
        after_event(state, LifecycleEvent::ShutDown).cancelled,
{
}

} // verus!
