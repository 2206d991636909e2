//! The decisions of starting a client: which message the start-up reports,
//! when to try the connection again, and whether an auth server is trusted.
//! The client, its errors and the server information come from the client
//! library and are carried through as the type parameters `C`, `E` and `I`.
use vstd::prelude::*;

verus! {

/// Why the client could not be started.
#[derive(Debug, PartialEq, Eq)]
pub enum Error<E, I> {
    /// The client library refused the connection.
    ClientError { error: E, mismatched_server_info: Option<I> },
    /// The start-up stopped without reporting.
    ClientCrashed,
    /// No attempt reached a server.
    ServerNotFound,
}

/// What the start-up reports.
pub enum Msg<C, E, I> {
    /// Asks whether the named auth server is trusted.
    IsAuthTrusted(String),
    /// The start-up is over, with a client or with why there is none.
    Done(Result<C, Error<E, I>>),
}

/// The answer to a trust question: the auth server it is about and whether
/// it is trusted.
pub struct AuthTrust(pub String, pub bool);

/// The question the start-up asks about an auth server: the server's name,
/// which it sends on the channel that `question_outcome` reads.
pub fn trust_question(auth_server: &str) -> (s: String)
    ensures
        s@ == auth_server@,
{
    String::from_str(auth_server)
}

/// Whether `auth_server` may be used, given the answer to the question about
/// it (`None` when no answer came): only an answer about that very server that
/// trusts it allows it.
pub fn auth_server_trusted(answer: Option<AuthTrust>, auth_server: &str) -> (b: bool)
    ensures
        b == match answer {
            Some(AuthTrust(server, trust)) => trust && server@ == auth_server@,
            None => false,
        },
{
    match answer {
        Some(AuthTrust(server, trust)) => trust && server == String::from_str(auth_server),
        None => false,
    }
}

/// What looking at a channel without waiting found.
pub enum TryRecv<T> {
    Received(T),
    /// Nothing has been sent yet.
    Empty,
    /// Nothing has been sent and the sender is gone.
    Disconnected,
}

/// What polling the start-up gives, from the channel on which it reports its
/// end: nothing while it is still running, and once it is over the result of
/// creating the client; a start-up that ended without reporting crashed.
/// Questions about auth servers never come this way (see `spec_question`).
pub open spec fn spec_poll<C, E, I>(r: TryRecv<Result<C, Error<E, I>>>) -> Option<Msg<C, E, I>> {
    match r {
        TryRecv::Received(result) => Some(Msg::Done(result)),
        TryRecv::Empty => None,
        TryRecv::Disconnected => Some(Msg::Done(Err(Error::ClientCrashed))),
    }
}

/// The result of polling the start-up, from what its result channel held.
pub fn poll_outcome<C, E, I>(r: TryRecv<Result<C, Error<E, I>>>) -> (m: Option<Msg<C, E, I>>)
    ensures
        m == spec_poll(r),
        m is None || m matches Some(Msg::Done(_)),
        r matches TryRecv::Received(result) ==> m == Some(Msg::<C, E, I>::Done(result)),
        r is Empty ==> m is None,
        r is Disconnected ==> m == Some(Msg::<C, E, I>::Done(Err(Error::ClientCrashed))),
{
    match r {
        TryRecv::Received(result) => Some(Msg::Done(result)),
        TryRecv::Empty => None,
        TryRecv::Disconnected => Some(Msg::Done(Err(Error::ClientCrashed))),
    }
}

/// What asking the start-up for a pending question gives, from the channel on
/// which it asks about auth servers: the question when one waits, else nothing.
pub open spec fn spec_question<C, E, I>(r: TryRecv<String>) -> Option<Msg<C, E, I>> {
    match r {
        TryRecv::Received(server) => Some(Msg::IsAuthTrusted(server)),
        _ => None,
    }
}

/// The pending question of the start-up, from what its question channel held.
pub fn question_outcome<C, E, I>(r: TryRecv<String>) -> (m: Option<Msg<C, E, I>>)
    ensures
        m == spec_question::<C, E, I>(r),
        m is None || m matches Some(Msg::IsAuthTrusted(_)),
        r matches TryRecv::Received(server) ==> m == Some(Msg::<C, E, I>::IsAuthTrusted(server)),
        !(r is Received) ==> m is None,
{
    match r {
        TryRecv::Received(server) => Some(Msg::IsAuthTrusted(server)),
        _ => None,
    }
}

/// How many times the connection is tried: about four minutes of attempts.
pub const FOUR_MINUTES_RETRIES: u64 = 48;

/// The pause between two attempts, in seconds.
pub const RETRY_DELAY_SECS: u64 = 5;

/// How an attempt to create the client ended.
pub enum AttemptOutcome<C, E, I> {
    Connected(C),
    /// The network connection could not be made; worth trying again.
    Unreachable,
    /// Any other error, which ends the start-up.
    Failed { error: E, mismatched_server_info: Option<I> },
}

/// What the start-up loop learns.
pub enum ConnectEvent<C, E, I> {
    /// It may go on: it is starting, or has waited; `cancelled` tells whether
    /// the player cancelled meanwhile.
    Ready { cancelled: bool },
    /// The attempt it asked for ended so.
    Attempted(AttemptOutcome<C, E, I>),
}

/// What the start-up loop asks to be done next.
#[derive(Debug, PartialEq, Eq)]
pub enum ConnectAction<C, E, I> {
    /// Try to create the client.
    Attempt,
    /// Wait this many seconds, then report `Ready`.
    Wait { secs: u64 },
    /// Report this outcome; the loop is over.
    Report(Result<C, Error<E, I>>),
}

/// Where the start-up loop stands.
#[derive(Clone, Copy, Debug, PartialEq, Eq, Structural)]
pub enum ConnectStage {
    /// It waits to learn whether it may go on.
    AwaitingReady,
    /// It waits for the outcome of an attempt.
    AwaitingOutcome,
    /// It has reported.
    Finished,
}

/// The start-up loop: attempts made so far, and where it stands.
#[derive(Clone, Copy, Debug, PartialEq, Eq, Structural)]
pub struct ConnectLoop {
    pub attempts: u64,
    pub stage: ConnectStage,
}

impl ConnectLoop {
    /// At most `FOUR_MINUTES_RETRIES` attempts, and at least one once an
    /// outcome is awaited.
    pub open spec fn wf(self) -> bool {
        &&& self.attempts <= FOUR_MINUTES_RETRIES
        &&& self.stage == ConnectStage::AwaitingOutcome ==> self.attempts >= 1
    }

    /// Whether the loop takes `event` where it stands.
    pub open spec fn accepts<C, E, I>(self, event: ConnectEvent<C, E, I>) -> bool {
        match event {
            ConnectEvent::Ready { .. } => self.stage == ConnectStage::AwaitingReady,
            ConnectEvent::Attempted(_) => self.stage == ConnectStage::AwaitingOutcome,
        }
    }

    /// One step: before each attempt the loop stops if the player cancelled or
    /// all attempts are used up, reporting that no server was found; a
    /// connection ends it with the client, an unreachable server makes it wait
    /// `RETRY_DELAY_SECS` seconds, any other error ends it with that error.
    pub open spec fn spec_step<C, E, I>(self, event: ConnectEvent<C, E, I>) -> (ConnectLoop, ConnectAction<C, E, I>) {
        match event {
            ConnectEvent::Ready { cancelled } => if cancelled || self.attempts >= FOUR_MINUTES_RETRIES {
                (
                    ConnectLoop { attempts: self.attempts, stage: ConnectStage::Finished },
                    ConnectAction::Report(Err(Error::ServerNotFound)),
                )
            } else {
                (
                    ConnectLoop { attempts: (self.attempts + 1) as u64, stage: ConnectStage::AwaitingOutcome },
                    ConnectAction::Attempt,
                )
            },
            ConnectEvent::Attempted(outcome) => match outcome {
                AttemptOutcome::Connected(c) => (
                    ConnectLoop { attempts: self.attempts, stage: ConnectStage::Finished },
                    ConnectAction::Report(Ok(c)),
                ),
                AttemptOutcome::Unreachable => (
                    ConnectLoop { attempts: self.attempts, stage: ConnectStage::AwaitingReady },
                    ConnectAction::Wait { secs: RETRY_DELAY_SECS },
                ),
                AttemptOutcome::Failed { error, mismatched_server_info } => (
                    ConnectLoop { attempts: self.attempts, stage: ConnectStage::Finished },
                    ConnectAction::Report(Err(Error::ClientError { error, mismatched_server_info })),
                ),
            },
        }
    }

    /// A loop that has made no attempt and waits to learn whether it may start.
    pub fn new() -> (l: Self)
        ensures
            l.wf(),
            l.attempts == 0,
            l.stage == ConnectStage::AwaitingReady,
    {
        ConnectLoop { attempts: 0, stage: ConnectStage::AwaitingReady }
    }

    /// Whether the loop is well formed and takes `event` where it stands.
    pub fn takes<C, E, I>(&self, event: &ConnectEvent<C, E, I>) -> (b: bool)
        ensures
            b == (self.wf() && self.accepts(*event)),
    {
        if !(self.attempts <= FOUR_MINUTES_RETRIES && (self.stage != ConnectStage::AwaitingOutcome || self.attempts >= 1)) {
            return false;
        }
        match event {
            ConnectEvent::Ready { .. } => self.stage == ConnectStage::AwaitingReady,
            ConnectEvent::Attempted(_) => self.stage == ConnectStage::AwaitingOutcome,
        }
    }

    /// Takes `event` and says what to do next.
    pub fn step<C, E, I>(&mut self, event: ConnectEvent<C, E, I>) -> (a: ConnectAction<C, E, I>)
        requires
            old(self).wf(),
            old(self).accepts(event),
        ensures
            (*final(self), a) == old(self).spec_step(event),
            final(self).wf(),
            (a is Report) == (final(self).stage == ConnectStage::Finished),
            (event matches ConnectEvent::Attempted(AttemptOutcome::Connected(c)) ==> a == ConnectAction::<C, E, I>::Report(Ok(c))),
            (event matches ConnectEvent::Attempted(AttemptOutcome::Failed { error, mismatched_server_info })
                ==> a == ConnectAction::<C, E, I>::Report(Err(Error::ClientError { error, mismatched_server_info }))),
            (event matches ConnectEvent::Attempted(AttemptOutcome::Unreachable)
                ==> a == (ConnectAction::<C, E, I>::Wait { secs: RETRY_DELAY_SECS }) && final(self).stage == ConnectStage::AwaitingReady),
            (event == (ConnectEvent::<C, E, I>::Ready { cancelled: true })
                ==> a == ConnectAction::<C, E, I>::Report(Err(Error::ServerNotFound))),
            (event == (ConnectEvent::<C, E, I>::Ready { cancelled: false }) ==> (
                if old(self).attempts < FOUR_MINUTES_RETRIES {
                    a == ConnectAction::<C, E, I>::Attempt && final(self).attempts == old(self).attempts + 1
                } else {
                    a == ConnectAction::<C, E, I>::Report(Err(Error::ServerNotFound))
                })),
            (event is Attempted ==> final(self).attempts == old(self).attempts),
    {
        match event {
            ConnectEvent::Ready { cancelled } => {
                if cancelled || self.attempts >= FOUR_MINUTES_RETRIES {
                    self.stage = ConnectStage::Finished;
                    ConnectAction::Report(Err(Error::ServerNotFound))
                } else {
                    self.attempts = self.attempts + 1;
                    self.stage = ConnectStage::AwaitingOutcome;
                    ConnectAction::Attempt
                }
            },
            ConnectEvent::Attempted(outcome) => match outcome {
                AttemptOutcome::Connected(c) => {
                    self.stage = ConnectStage::Finished;
                    ConnectAction::Report(Ok(c))
                },
                AttemptOutcome::Unreachable => {
                    self.stage = ConnectStage::AwaitingReady;
                    ConnectAction::Wait { secs: RETRY_DELAY_SECS }
                },
                AttemptOutcome::Failed { error, mismatched_server_info } => {
                    self.stage = ConnectStage::Finished;
                    ConnectAction::Report(Err(Error::ClientError { error, mismatched_server_info }))
                },
            },
        }
    }
}


/// The loop's states and actions over a sequence of events.
pub open spec fn run<C, E, I>(l: ConnectLoop, events: Seq<ConnectEvent<C, E, I>>) -> (ConnectLoop, Seq<ConnectAction<C, E, I>>)
    decreases events.len(),
{
    if events.len() == 0 {
        (l, Seq::empty())
    } else {
        let (next, a) = l.spec_step(events[0]);
        let (last, rest) = run(next, events.drop_first());
        (last, seq![a] + rest)
    }
}

/// Whether the loop takes each event of the sequence in turn.
pub open spec fn takes_all<C, E, I>(l: ConnectLoop, events: Seq<ConnectEvent<C, E, I>>) -> bool
    decreases events.len(),
{
    events.len() == 0 || (l.accepts(events[0]) && takes_all(l.spec_step(events[0]).0, events.drop_first()))
}

/// How many attempts a sequence of actions asks for.
pub open spec fn attempts_in<C, E, I>(actions: Seq<ConnectAction<C, E, I>>) -> nat
    decreases actions.len(),
{
    if actions.len() == 0 {
        0
    } else {
        (if actions[0] is Attempt { 1nat } else { 0nat }) + attempts_in(actions.drop_first())
    }
}

/// The loop never asks for more than `FOUR_MINUTES_RETRIES` attempts: over any
/// sequence of events it takes, its count of attempts grows by the attempts it
/// asks for and stays within the limit.
pub proof fn lemma_attempts_bounded<C, E, I>(l: ConnectLoop, events: Seq<ConnectEvent<C, E, I>>)
    requires
        l.wf(),
        takes_all(l, events),
    ensures
        run(l, events).0.wf(),
        run(l, events).0.attempts == l.attempts + attempts_in(run(l, events).1),
        l.attempts + attempts_in(run(l, events).1) <= FOUR_MINUTES_RETRIES,
    decreases events.len(),
{
    if events.len() > 0 {
        let (next, a) = l.spec_step(events[0]);
        lemma_attempts_bounded(next, events.drop_first());
        let (last, rest) = run(next, events.drop_first());
        let acts = seq![a] + rest;
        assert(acts.drop_first() =~= rest);
    }
}

/// `n` rounds in which the server cannot be reached: the loop may go on, and
/// the attempt fails to connect.
pub open spec fn unreachable_rounds<C, E, I>(n: nat) -> Seq<ConnectEvent<C, E, I>>
    decreases n,
{
    if n == 0 {
        Seq::empty()
    } else {
        seq![ConnectEvent::Ready { cancelled: false }, ConnectEvent::Attempted(AttemptOutcome::Unreachable)]
            + unreachable_rounds((n - 1) as nat)
    }
}

/// What the loop asks for in `n` such rounds: an attempt, then a pause.
pub open spec fn retry_actions<C, E, I>(n: nat) -> Seq<ConnectAction<C, E, I>>
    decreases n,
{
    if n == 0 {
        Seq::empty()
    } else {
        seq![ConnectAction::Attempt, ConnectAction::Wait { secs: RETRY_DELAY_SECS }] + retry_actions((n - 1) as nat)
    }
}

proof fn lemma_unreachable_rounds<C, E, I>(m: u64, n: nat)
    requires
        m + n <= FOUR_MINUTES_RETRIES,
    ensures
        takes_all(ConnectLoop { attempts: m, stage: ConnectStage::AwaitingReady }, unreachable_rounds::<C, E, I>(n)),
        run(ConnectLoop { attempts: m, stage: ConnectStage::AwaitingReady }, unreachable_rounds::<C, E, I>(n))
            == (ConnectLoop { attempts: (m + n) as u64, stage: ConnectStage::AwaitingReady }, retry_actions::<C, E, I>(n)),
    decreases n,
{
    let l = ConnectLoop { attempts: m, stage: ConnectStage::AwaitingReady };
    if n > 0 {
        let mid = ConnectLoop { attempts: (m + 1) as u64, stage: ConnectStage::AwaitingOutcome };
        let back = ConnectLoop { attempts: (m + 1) as u64, stage: ConnectStage::AwaitingReady };
        lemma_unreachable_rounds::<C, E, I>((m + 1) as u64, (n - 1) as nat);
        let evs = unreachable_rounds::<C, E, I>(n);
        let tail = unreachable_rounds::<C, E, I>((n - 1) as nat);
        let e1: ConnectEvent<C, E, I> = ConnectEvent::Attempted(AttemptOutcome::Unreachable);
        assert(evs.drop_first() =~= seq![e1] + tail);
        assert((seq![e1] + tail).drop_first() =~= tail);
        assert(l.spec_step(evs[0]).0 == mid);
        assert(mid.spec_step(e1).0 == back);
        assert(takes_all(back, tail));
        assert(takes_all(mid, seq![e1] + tail));
        assert(takes_all(l, evs));
        let acts = retry_actions::<C, E, I>(n);
        let tail_acts = retry_actions::<C, E, I>((n - 1) as nat);
        let w: ConnectAction<C, E, I> = ConnectAction::Wait { secs: RETRY_DELAY_SECS };
        assert(run(mid, seq![e1] + tail) == (run(back, tail).0, seq![w] + tail_acts));
        assert(acts =~= seq![ConnectAction::Attempt] + (seq![w] + tail_acts));
    }
}

/// When the server is never reached and the player does not cancel, the loop
/// tries `FOUR_MINUTES_RETRIES` times, pausing after each attempt, so that it
/// waits four minutes in all, and then reports that no server was found.
pub proof fn lemma_unreachable_server_gives_up<C, E, I>()
    ensures
        ({
            let start = ConnectLoop { attempts: 0, stage: ConnectStage::AwaitingReady };
            let events = unreachable_rounds::<C, E, I>(FOUR_MINUTES_RETRIES as nat).push(
                ConnectEvent::Ready { cancelled: false },
            );
            &&& takes_all(start, events)
            &&& run(start, events).1 == retry_actions::<C, E, I>(FOUR_MINUTES_RETRIES as nat).push(
                ConnectAction::Report(Err(Error::ServerNotFound)),
            )
            &&& run(start, events).0 == (ConnectLoop { attempts: FOUR_MINUTES_RETRIES, stage: ConnectStage::Finished })
            &&& waited_secs(run(start, events).1) == 240
        }),
{
    let start = ConnectLoop { attempts: 0, stage: ConnectStage::AwaitingReady };
    let rounds = unreachable_rounds::<C, E, I>(FOUR_MINUTES_RETRIES as nat);
    lemma_unreachable_rounds::<C, E, I>(0, FOUR_MINUTES_RETRIES as nat);
    lemma_run_append(start, rounds, ConnectEvent::Ready { cancelled: false });
    let acts = retry_actions::<C, E, I>(FOUR_MINUTES_RETRIES as nat);
    let report: ConnectAction<C, E, I> = ConnectAction::Report(Err(Error::ServerNotFound));
    lemma_retry_wait::<C, E, I>(FOUR_MINUTES_RETRIES as nat);
    lemma_waited_push(acts, report);
}

/// The seconds a sequence of actions waits in all.
pub open spec fn waited_secs<C, E, I>(actions: Seq<ConnectAction<C, E, I>>) -> nat
    decreases actions.len(),
{
    if actions.len() == 0 {
        0
    } else {
        (match actions[0] {
            ConnectAction::Wait { secs } => secs as nat,
            _ => 0nat,
        }) + waited_secs(actions.drop_first())
    }
}

proof fn lemma_retry_wait<C, E, I>(n: nat)
    ensures
        waited_secs(retry_actions::<C, E, I>(n)) == n * RETRY_DELAY_SECS,
    decreases n,
{
    if n > 0 {
        lemma_retry_wait::<C, E, I>((n - 1) as nat);
        let acts = retry_actions::<C, E, I>(n);
        let tail = retry_actions::<C, E, I>((n - 1) as nat);
        let w: ConnectAction<C, E, I> = ConnectAction::Wait { secs: RETRY_DELAY_SECS };
        assert(acts.drop_first() =~= seq![w] + tail);
        assert((seq![w] + tail).drop_first() =~= tail);
        assert(waited_secs(seq![w] + tail) == RETRY_DELAY_SECS + waited_secs(tail));
        assert(n * RETRY_DELAY_SECS == (n - 1) * RETRY_DELAY_SECS + RETRY_DELAY_SECS) by (nonlinear_arith);
    }
}

proof fn lemma_waited_push<C, E, I>(actions: Seq<ConnectAction<C, E, I>>, a: ConnectAction<C, E, I>)
    requires
        !(a is Wait),
    ensures
        waited_secs(actions.push(a)) == waited_secs(actions),
    decreases actions.len(),
{
    if actions.len() == 0 {
        assert(actions.push(a).drop_first() =~= actions);
    } else {
        assert(actions.push(a).drop_first() =~= actions.drop_first().push(a));
        lemma_waited_push(actions.drop_first(), a);
    }
}

/// Running over `events` followed by one more event is running over `events`
/// and then taking that event.
proof fn lemma_run_append<C, E, I>(l: ConnectLoop, events: Seq<ConnectEvent<C, E, I>>, e: ConnectEvent<C, E, I>)
    ensures
        run(l, events.push(e)) == ({
            let (mid, acts) = run(l, events);
            let (last, a) = mid.spec_step(e);
            (last, acts.push(a))
        }),
        takes_all(l, events.push(e)) == (takes_all(l, events) && run(l, events).0.accepts(e)),
    decreases events.len(),
{
    let ev = events.push(e);
    if events.len() == 0 {
        let empty_e = Seq::<ConnectEvent<C, E, I>>::empty();
        let empty_a = Seq::<ConnectAction<C, E, I>>::empty();
        assert(ev.drop_first() =~= empty_e);
        assert(ev[0] == e);
        let (next, a) = l.spec_step(e);
        assert(run(next, empty_e) == (next, empty_a));
        assert(run(l, events) == (l, empty_a));
        assert(run(l, ev) == (next, seq![a] + empty_a));
        assert(seq![a] + empty_a =~= empty_a.push(a));
        assert(takes_all(next, empty_e));
        assert(takes_all(l, events));
    } else {
        let (next, a) = l.spec_step(events[0]);
        assert(ev[0] == events[0]);
        assert(ev.drop_first() =~= events.drop_first().push(e));
        lemma_run_append(next, events.drop_first(), e);
        let (mid, rest) = run(next, events.drop_first());
        let (last, b) = mid.spec_step(e);
        assert(run(l, events) == (mid, seq![a] + rest));
        assert(run(l, ev) == (run(next, ev.drop_first()).0, seq![a] + run(next, ev.drop_first()).1));
        assert(seq![a] + rest.push(b) =~= (seq![a] + rest).push(b));
    }
}

/// A cancellation seen before an attempt ends the loop, which reports that no
/// server was found.
pub proof fn lemma_cancel_reports_server_not_found<C, E, I>(l: ConnectLoop)
    requires
        l.wf(),
        l.stage == ConnectStage::AwaitingReady,
    ensures
        l.spec_step(ConnectEvent::<C, E, I>::Ready { cancelled: true })
            == (ConnectLoop { attempts: l.attempts, stage: ConnectStage::Finished }, ConnectAction::<C, E, I>::Report(Err(Error::ServerNotFound))),
{
}


/// How the actions of a run answer its events: a report only as the last
/// action; an attempt only when the loop may go on and was not cancelled, and
/// after the first one only right after a pause; a pause, of
/// `RETRY_DELAY_SECS`, only after an attempt that could not reach the server;
/// a cancellation always answered by the report that no server was found; a
/// client or an error reported only as the attempt gave it.
pub open spec fn follows_retry_rule<C, E, I>(
    events: Seq<ConnectEvent<C, E, I>>,
    actions: Seq<ConnectAction<C, E, I>>,
) -> bool {
    &&& actions.len() == events.len()
    &&& forall|i: int| 0 <= i < actions.len() ==> {
        &&& ((#[trigger] actions[i]) is Report ==> i == actions.len() - 1)
        &&& (actions[i] is Attempt ==> events[i] == ConnectEvent::<C, E, I>::Ready { cancelled: false })
        &&& (actions[i] is Attempt && i > 0 ==> actions[i - 1] is Wait)
        &&& (actions[i] is Wait ==> events[i] == ConnectEvent::<C, E, I>::Attempted(AttemptOutcome::Unreachable)
            && actions[i] == ConnectAction::<C, E, I>::Wait { secs: RETRY_DELAY_SECS })
        &&& (events[i] == ConnectEvent::<C, E, I>::Ready { cancelled: true }
            ==> actions[i] == ConnectAction::<C, E, I>::Report(Err(Error::ServerNotFound)))
        &&& (actions[i] matches ConnectAction::Report(Ok(c))
            ==> events[i] == ConnectEvent::<C, E, I>::Attempted(AttemptOutcome::Connected(c)))
        &&& (actions[i] matches ConnectAction::Report(Err(Error::ClientError { error, mismatched_server_info }))
            ==> events[i] == ConnectEvent::<C, E, I>::Attempted(AttemptOutcome::Failed { error, mismatched_server_info }))
        &&& (events[i] matches ConnectEvent::Attempted(AttemptOutcome::Connected(c))
            ==> actions[i] == ConnectAction::<C, E, I>::Report(Ok(c)))
        &&& (events[i] matches ConnectEvent::Attempted(AttemptOutcome::Failed { error, mismatched_server_info })
            ==> actions[i] == ConnectAction::<C, E, I>::Report(Err(Error::ClientError { error, mismatched_server_info })))
        &&& (events[i] == ConnectEvent::<C, E, I>::Attempted(AttemptOutcome::Unreachable)
            ==> actions[i] == ConnectAction::<C, E, I>::Wait { secs: RETRY_DELAY_SECS })
    }
}

/// The most events the loop can still take from where it stands: two for each
/// attempt left and one for the final report.
pub open spec fn event_budget(l: ConnectLoop) -> nat {
    match l.stage {
        ConnectStage::Finished => 0,
        ConnectStage::AwaitingReady => (2 * (FOUR_MINUTES_RETRIES - l.attempts) + 1) as nat,
        ConnectStage::AwaitingOutcome => (2 * (FOUR_MINUTES_RETRIES - l.attempts) + 2) as nat,
    }
}

/// Over any sequence of events it takes, the loop answers by the retry rule,
/// takes no more events than its budget, and has finished exactly when it
/// has reported.
pub proof fn lemma_run_shape<C, E, I>(l: ConnectLoop, events: Seq<ConnectEvent<C, E, I>>)
    requires
        l.wf(),
        takes_all(l, events),
    ensures
        follows_retry_rule(events, run(l, events).1),
        events.len() <= event_budget(l),
        (run(l, events).0.stage == ConnectStage::Finished) == (l.stage == ConnectStage::Finished || (
        events.len() > 0 && run(l, events).1.last() is Report)),
        events.len() > 0 && run(l, events).1[0] is Attempt ==> l.stage == ConnectStage::AwaitingReady,
    decreases events.len(),
{
    if events.len() > 0 {
        let e0 = events[0];
        let (next, a0) = l.spec_step(e0);
        let rest = events.drop_first();
        lemma_run_shape(next, rest);
        let (last, ra) = run(next, rest);
        let acts = seq![a0] + ra;
        assert(run(l, events) == (last, acts));
        assert(next.wf());
        if a0 is Report {
            assert(next.stage == ConnectStage::Finished);
            if rest.len() > 0 {
                assert(!next.accepts(rest[0]));
            }
            assert(rest.len() == 0);
        }
        assert forall|i: int| 0 <= i < acts.len() implies {
            &&& ((#[trigger] acts[i]) is Report ==> i == acts.len() - 1)
            &&& (acts[i] is Attempt ==> events[i] == ConnectEvent::<C, E, I>::Ready { cancelled: false })
            &&& (acts[i] is Attempt && i > 0 ==> acts[i - 1] is Wait)
            &&& (acts[i] is Wait ==> events[i] == ConnectEvent::<C, E, I>::Attempted(AttemptOutcome::Unreachable)
                && acts[i] == ConnectAction::<C, E, I>::Wait { secs: RETRY_DELAY_SECS })
            &&& (events[i] == ConnectEvent::<C, E, I>::Ready { cancelled: true }
                ==> acts[i] == ConnectAction::<C, E, I>::Report(Err(Error::ServerNotFound)))
            &&& (acts[i] matches ConnectAction::Report(Ok(c))
                ==> events[i] == ConnectEvent::<C, E, I>::Attempted(AttemptOutcome::Connected(c)))
            &&& (acts[i] matches ConnectAction::Report(Err(Error::ClientError { error, mismatched_server_info }))
                ==> events[i] == ConnectEvent::<C, E, I>::Attempted(AttemptOutcome::Failed { error, mismatched_server_info }))
            &&& (events[i] matches ConnectEvent::Attempted(AttemptOutcome::Connected(c))
                ==> acts[i] == ConnectAction::<C, E, I>::Report(Ok(c)))
            &&& (events[i] matches ConnectEvent::Attempted(AttemptOutcome::Failed { error, mismatched_server_info })
                ==> acts[i] == ConnectAction::<C, E, I>::Report(Err(Error::ClientError { error, mismatched_server_info })))
            &&& (events[i] == ConnectEvent::<C, E, I>::Attempted(AttemptOutcome::Unreachable)
                ==> acts[i] == ConnectAction::<C, E, I>::Wait { secs: RETRY_DELAY_SECS })
        } by {
            if i == 0 {
                assert(acts[0] == a0);
                assert(events[0] == e0);
            } else {
                assert(acts[i] == ra[i - 1]);
                assert(events[i] == rest[i - 1]);
                if i == 1 && acts[i] is Attempt {
                    assert(ra[0] is Attempt);
                    assert(next.stage == ConnectStage::AwaitingReady);
                    assert(acts[0] == a0);
                } else if acts[i] is Attempt {
                    assert(acts[i - 1] == ra[i - 2]);
                }
            }
        }
        if events.len() > 0 && ra.len() > 0 {
            assert(acts.last() == ra.last());
        }
    } else {
        assert(run(l, events).1 =~= Seq::<ConnectAction<C, E, I>>::empty());
    }
}

/// Every run of the start-up from its start ends in exactly one report: the
/// loop takes at most `2 * FOUR_MINUTES_RETRIES + 1` events, answers them by
/// the retry rule with a report only as the last action, and, as long as it has
/// not reported, it takes a further event, so it cannot be left waiting.
pub proof fn lemma_start_up_reports_once<C, E, I>(events: Seq<ConnectEvent<C, E, I>>)
    requires
        takes_all(ConnectLoop { attempts: 0, stage: ConnectStage::AwaitingReady }, events),
    ensures
        ({
            let start = ConnectLoop { attempts: 0, stage: ConnectStage::AwaitingReady };
            let (last, actions) = run(start, events);
            &&& events.len() <= 2 * FOUR_MINUTES_RETRIES + 1
            &&& follows_retry_rule(events, actions)
            &&& (last.stage == ConnectStage::Finished) == (events.len() > 0 && actions.last() is Report)
            &&& last.stage != ConnectStage::Finished ==> (last.accepts(ConnectEvent::<C, E, I>::Ready { cancelled: false })
                || last.accepts(ConnectEvent::<C, E, I>::Attempted(AttemptOutcome::Unreachable)))
            &&& attempts_in(actions) <= FOUR_MINUTES_RETRIES
        }),
{
    let start = ConnectLoop { attempts: 0, stage: ConnectStage::AwaitingReady };
    lemma_run_shape(start, events);
    lemma_attempts_bounded(start, events);
}


/// A connection reports the client it made, whichever attempt made it.
pub proof fn lemma_connection_reports_client<C, E, I>(l: ConnectLoop, c: C)
    requires
        l.wf(),
        l.stage == ConnectStage::AwaitingOutcome,
    ensures
        l.spec_step(ConnectEvent::<C, E, I>::Attempted(AttemptOutcome::Connected(c)))
            == (ConnectLoop { attempts: l.attempts, stage: ConnectStage::Finished }, ConnectAction::<C, E, I>::Report(Ok(c))),
{
}

/// An error other than an unreachable server reports that very error, with
/// the server information the attempt gave.
pub proof fn lemma_failure_reports_error<C, E, I>(l: ConnectLoop, error: E, mismatched_server_info: Option<I>)
    requires
        l.wf(),
        l.stage == ConnectStage::AwaitingOutcome,
    ensures
        l.spec_step(ConnectEvent::<C, E, I>::Attempted(AttemptOutcome::Failed { error, mismatched_server_info })).1
            == ConnectAction::<C, E, I>::Report(Err(Error::ClientError { error, mismatched_server_info })),
{
}

/// An unreachable server is tried again after a pause of `RETRY_DELAY_SECS`,
/// and, while attempts are left and the player does not cancel, the next
/// attempt follows.
pub proof fn lemma_unreachable_retries<C, E, I>(l: ConnectLoop)
    requires
        l.wf(),
        l.stage == ConnectStage::AwaitingOutcome,
    ensures
        ({
            let (waiting, a) = l.spec_step(ConnectEvent::<C, E, I>::Attempted(AttemptOutcome::Unreachable));
            &&& a == ConnectAction::<C, E, I>::Wait { secs: RETRY_DELAY_SECS }
            &&& waiting.attempts == l.attempts
            &&& waiting.attempts < FOUR_MINUTES_RETRIES ==> waiting.spec_step(
                ConnectEvent::<C, E, I>::Ready { cancelled: false },
            ).1 == ConnectAction::<C, E, I>::Attempt
        }),
{
}

/// Polling hands on, unchanged, the result the start-up sent; it gives
/// nothing while the start-up runs, and a crash when it stopped silently.
pub proof fn lemma_poll_hands_on_result<C, E, I>(result: Result<C, Error<E, I>>)
    ensures
        spec_poll(TryRecv::Received(result)) == Some(Msg::<C, E, I>::Done(result)),
        spec_poll(TryRecv::<Result<C, Error<E, I>>>::Empty) == None::<Msg<C, E, I>>,
        spec_poll(TryRecv::<Result<C, Error<E, I>>>::Disconnected) == Some(Msg::<C, E, I>::Done(Err(Error::ClientCrashed))),
{
}

/// Every question the start-up asks is handed on, about the same server; when
/// none waits there is nothing.
pub proof fn lemma_question_handed_on<C, E, I>(server: String)
    ensures
        spec_question::<C, E, I>(TryRecv::Received(server)) matches Some(Msg::IsAuthTrusted(s)) && s == server
            && s@ == server@,
        spec_question::<C, E, I>(TryRecv::<String>::Empty) is None,
        spec_question::<C, E, I>(TryRecv::<String>::Disconnected) is None,
{
}

} // verus!
