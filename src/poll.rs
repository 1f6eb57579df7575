use vstd::prelude::*;

use crate::decision::{command_for, command_value, pow10, Humidity, SWITCH_OFF, SWITCH_ON, THRESHOLD};
use crate::request::{is_success_code, is_success_status};

verus! {

/// Seconds slept after every cycle, whatever its outcome.
pub const CHECK_INTERVAL: u64 = 900;

/// What the text of a credential file is once leading and trailing whitespace is removed.
pub uninterp spec fn trimmed(s: Seq<char>) -> Seq<char>;

/// Relies on `str::trim`: the text without leading and trailing whitespace,
/// which depends on the text alone.
#[verifier::external_body]
fn trim_text(s: &str) -> (r: String)
    ensures
        r@ == trimmed(s@),
{
    s.trim().to_string()
}

/// The credential held in the text of the key file.
pub fn api_key_from_text(text: &str) -> (r: String)
    ensures
        r@ == trimmed(text@),
{
    trim_text(text)
}

/// Where a cycle stands.
#[derive(PartialEq, Eq, Structural, Clone, Copy, Debug)]
pub enum Phase {
    /// Sleeping between cycles.
    Idle,
    /// The state request has been sent.
    AwaitingState,
    /// The state request succeeded; its body is being decoded.
    AwaitingBody,
    /// The control request has been sent.
    AwaitingControl,
}

/// What the outside world reports back.
pub enum Event {
    /// The sleep is over.
    Woke,
    /// The request in flight was answered with this status.
    Status(u16),
    /// The request in flight failed before any answer came.
    TransportError,
    /// The successful state response held this reading.
    Reading(Humidity),
}

/// A failure that is logged before sleeping.
#[derive(PartialEq, Eq, Structural, Clone, Copy, Debug)]
pub enum Failure {
    StateStatus(u16),
    StateTransport,
    ControlStatus(u16),
    ControlTransport,
}

/// What the outside world is asked to do next.
#[derive(PartialEq, Eq, Structural, Clone, Copy, Debug)]
pub enum Action {
    /// Send the state request for the sensor.
    FetchState,
    /// Decode the body of the successful state response.
    DecodeBody,
    /// Send the control request with this switch value.
    SendControl(i32),
    /// Log the failure, if any, then sleep for `CHECK_INTERVAL` seconds.
    Sleep(Option<Failure>),
}

/// The poll loop's decisions: where the cycle stands, and the credential that
/// both requests carry.
pub struct Poller {
    phase: Phase,
    api_key: String,
}

pub open spec fn event_wf(e: Event) -> bool {
    e matches Event::Reading(h) ==> h.wf()
}

/// The next phase and action. An event that does not fit the phase ends the cycle.
pub open spec fn transition(p: Phase, e: Event) -> (Phase, Action) {
    match (p, e) {
        (Phase::Idle, Event::Woke) => (Phase::AwaitingState, Action::FetchState),
        (Phase::AwaitingState, Event::Status(c)) => if is_success_code(c) {
            (Phase::AwaitingBody, Action::DecodeBody)
        } else {
            (Phase::Idle, Action::Sleep(Some(Failure::StateStatus(c))))
        },
        (Phase::AwaitingState, Event::TransportError) => (
            Phase::Idle,
            Action::Sleep(Some(Failure::StateTransport)),
        ),
        (Phase::AwaitingBody, Event::Reading(h)) => (
            Phase::AwaitingControl,
            Action::SendControl(command_value(h)),
        ),
        (Phase::AwaitingControl, Event::Status(c)) => if is_success_code(c) {
            (Phase::Idle, Action::Sleep(None))
        } else {
            (Phase::Idle, Action::Sleep(Some(Failure::ControlStatus(c))))
        },
        (Phase::AwaitingControl, Event::TransportError) => (
            Phase::Idle,
            Action::Sleep(Some(Failure::ControlTransport)),
        ),
        _ => (Phase::Idle, Action::Sleep(None)),
    }
}

impl Poller {
    pub closed spec fn key(&self) -> Seq<char> {
        self.api_key@
    }

    pub closed spec fn stage(&self) -> Phase {
        self.phase
    }

    /// Where the cycle stands.
    pub fn phase(&self) -> (r: Phase)
        ensures
            r == self.stage(),
    {
        self.phase
    }

    /// A poller at rest, holding the credential for its whole life.
    pub fn new(api_key: String) -> (r: Poller)
        ensures
            r.stage() == Phase::Idle,
            r.key() == api_key@,
    {
        Poller { phase: Phase::Idle, api_key }
    }

    /// The credential, exactly as it was given.
    pub fn api_key(&self) -> (r: &str)
        ensures
            r@ == self.key(),
    {
        self.api_key.as_str()
    }

    /// Takes one event and says what to do next.
    pub fn step(&mut self, e: Event) -> (r: Action)
        requires
            event_wf(e),
        ensures
            (final(self).stage(), r) == transition(old(self).stage(), e),
            final(self).key() == old(self).key(),
    {
        let (p, a) = match (self.phase, e) {
            (Phase::Idle, Event::Woke) => (Phase::AwaitingState, Action::FetchState),
            (Phase::AwaitingState, Event::Status(c)) => if is_success_status(c) {
                (Phase::AwaitingBody, Action::DecodeBody)
            } else {
                (Phase::Idle, Action::Sleep(Some(Failure::StateStatus(c))))
            },
            (Phase::AwaitingState, Event::TransportError) => (
                Phase::Idle,
                Action::Sleep(Some(Failure::StateTransport)),
            ),
            (Phase::AwaitingBody, Event::Reading(h)) => (
                Phase::AwaitingControl,
                Action::SendControl(command_for(&h)),
            ),
            (Phase::AwaitingControl, Event::Status(c)) => if is_success_status(c) {
                (Phase::Idle, Action::Sleep(None))
            } else {
                (Phase::Idle, Action::Sleep(Some(Failure::ControlStatus(c))))
            },
            (Phase::AwaitingControl, Event::TransportError) => (
                Phase::Idle,
                Action::Sleep(Some(Failure::ControlTransport)),
            ),
            _ => (Phase::Idle, Action::Sleep(None)),
        };
        self.phase = p;
        a
    }
}

/// The phase reached and the actions asked for when the events come in order.
pub open spec fn run(p: Phase, es: Seq<Event>) -> (Phase, Seq<Action>)
    decreases es.len(),
{
    if es.len() == 0 {
        (p, Seq::<Action>::empty())
    } else {
        let (q, a) = transition(p, es[0]);
        let (last, rest) = run(q, es.drop_first());
        (last, seq![a] + rest)
    }
}

pub open spec fn is_control(a: Action) -> bool {
    a is SendControl
}

/// A reading above the threshold switches the plug on; one at or below it,
/// exactly at the threshold included, switches it off.
pub proof fn threshold_law(h: Humidity)
    requires
        h.wf(),
    ensures
        transition(Phase::AwaitingBody, Event::Reading(h)) == (
            Phase::AwaitingControl,
            Action::SendControl(if h.exceeds(THRESHOLD as int) { SWITCH_ON } else { SWITCH_OFF }),
        ),
        h.scaled() == THRESHOLD * pow10(h.scale()) ==> command_value(h) == SWITCH_OFF,
{
}

proof fn lemma_run_cons(p: Phase, e: Event, es: Seq<Event>)
    ensures
        run(p, seq![e] + es) == ({
            let (q, a) = transition(p, e);
            let (last, rest) = run(q, es);
            (last, seq![a] + rest)
        }),
{
    assert((seq![e] + es).drop_first() =~= es);
    assert((seq![e] + es)[0] == e);
}

proof fn lemma_run_one(p: Phase, e: Event)
    ensures
        run(p, seq![e]) == (transition(p, e).0, seq![transition(p, e).1]),
{
    lemma_run_cons(p, e, Seq::<Event>::empty());
    assert(seq![e] + Seq::<Event>::empty() =~= seq![e]);
    assert(seq![transition(p, e).1] + Seq::<Action>::empty() =~= seq![transition(p, e).1]);
}

/// A state request answered with a non-success status, or lost to a transport
/// error, ends the cycle with a logged failure and no control request.
pub proof fn failed_fetch_law(c: u16)
    requires
        !is_success_code(c),
    ensures
        run(Phase::Idle, seq![Event::Woke, Event::Status(c)]) == (
            Phase::Idle,
            seq![Action::FetchState, Action::Sleep(Some(Failure::StateStatus(c)))],
        ),
        run(Phase::Idle, seq![Event::Woke, Event::TransportError]) == (
            Phase::Idle,
            seq![Action::FetchState, Action::Sleep(Some(Failure::StateTransport))],
        ),
{
    lemma_run_one(Phase::AwaitingState, Event::Status(c));
    lemma_run_cons(Phase::Idle, Event::Woke, seq![Event::Status(c)]);
    assert(seq![Event::Woke] + seq![Event::Status(c)] =~= seq![Event::Woke, Event::Status(c)]);
    assert(seq![Action::FetchState] + seq![Action::Sleep(Some(Failure::StateStatus(c)))]
        =~= seq![Action::FetchState, Action::Sleep(Some(Failure::StateStatus(c)))]);
    lemma_run_one(Phase::AwaitingState, Event::TransportError);
    lemma_run_cons(Phase::Idle, Event::Woke, seq![Event::TransportError]);
    assert(seq![Event::Woke] + seq![Event::TransportError] =~= seq![
        Event::Woke,
        Event::TransportError,
    ]);
    assert(seq![Action::FetchState] + seq![Action::Sleep(Some(Failure::StateTransport))]
        =~= seq![Action::FetchState, Action::Sleep(Some(Failure::StateTransport))]);
}

/// Each successful reading leads to exactly one control request, and the cycle
/// ends at rest whatever became of that request, so the next cycle does not
/// depend on it.
pub proof fn control_once_law(c: u16, h: Humidity, answer: Event)
    requires
        is_success_code(c),
        h.wf(),
    ensures
        ({
            let (last, acts) = run(
                Phase::Idle,
                seq![Event::Woke, Event::Status(c), Event::Reading(h), answer],
            );
            &&& last == Phase::Idle
            &&& acts.len() == 4
            &&& acts[0] == Action::FetchState
            &&& acts[1] == Action::DecodeBody
            &&& acts[2] == Action::SendControl(command_value(h))
            &&& acts[3] is Sleep
            &&& forall|i: int| 0 <= i < 4 && i != 2 ==> !is_control(#[trigger] acts[i])
        }),
{
    let last_action = transition(Phase::AwaitingControl, answer).1;
    let send = Action::SendControl(command_value(h));
    lemma_run_one(Phase::AwaitingControl, answer);
    let e2 = seq![Event::Reading(h), answer];
    lemma_run_cons(Phase::AwaitingBody, Event::Reading(h), seq![answer]);
    assert(seq![Event::Reading(h)] + seq![answer] =~= e2);
    assert(seq![send] + seq![last_action] =~= seq![send, last_action]);
    let e1 = seq![Event::Status(c), Event::Reading(h), answer];
    lemma_run_cons(Phase::AwaitingState, Event::Status(c), e2);
    assert(seq![Event::Status(c)] + e2 =~= e1);
    assert(seq![Action::DecodeBody] + seq![send, last_action] =~= seq![
        Action::DecodeBody,
        send,
        last_action,
    ]);
    let es = seq![Event::Woke, Event::Status(c), Event::Reading(h), answer];
    lemma_run_cons(Phase::Idle, Event::Woke, e1);
    assert(seq![Event::Woke] + e1 =~= es);
    assert(seq![Action::FetchState] + seq![Action::DecodeBody, send, last_action] =~= seq![
        Action::FetchState,
        Action::DecodeBody,
        send,
        last_action,
    ]);
}

} // verus!
