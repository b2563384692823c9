//! The supervisor daemon's decisions: from its state and one event to its
//! next state and the action to perform. Sockets, files and child processes
//! stay with the caller, which performs each action and reports back.
use vstd::prelude::*;
use vstd::utf8::*;
use crate::codec::{
    decoding, document, encoding, lemma_round_trip, ControlEvent, EventModel, ProtocolError,
};
use crate::text::{escape, quoted};
use crate::registry::{
    id_bound, ids_unique, lemma_id_bound, new_spec, specs_view, ManagedProcessSpec, Registry,
    RegistryError, SpecModel,
};

verus! {

/// The largest payload that the daemon's receive buffer holds.
pub const MAX_PAYLOAD: usize = 1024;

#[derive(Debug, Clone, Copy, PartialEq, Eq, Structural)]
pub enum Phase {
    Starting,
    Listening,
    Terminating,
}

/// What the caller does next.
#[derive(Debug, Clone, PartialEq, Eq)]
pub enum Action {
    /// Nothing: a reserved variant, a reply variant, or a datagram outside `Listening`.
    Idle,
    /// Drop the datagram, which did not decode, and report why.
    Discard(ProtocolError),
    /// Send this payload to the sender, then exit with status 0.
    ReplyAndExit(Vec<u8>),
    /// Store this registry, then report the outcome through `persisted`.
    Persist(Registry),
    /// The registry cannot take another specification.
    Refuse(RegistryError),
}

pub enum ActionModel {
    Idle,
    Discard(ProtocolError),
    ReplyAndExit(Seq<u8>),
    Persist(Seq<SpecModel>),
    Refuse(RegistryError),
}

impl View for Action {
    type V = ActionModel;

    open spec fn view(&self) -> ActionModel {
        match self {
            Action::Idle => ActionModel::Idle,
            Action::Discard(e) => ActionModel::Discard(*e),
            Action::ReplyAndExit(b) => ActionModel::ReplyAndExit(b@),
            Action::Persist(r) => ActionModel::Persist(r@),
            Action::Refuse(e) => ActionModel::Refuse(*e),
        }
    }
}

pub struct DaemonModel {
    pub phase: Phase,
    pub registry: Seq<SpecModel>,
    /// A specification waiting for its registry to be stored.
    pub pending: Option<SpecModel>,
}

/// The daemon's state between events.
#[derive(Debug, Clone, PartialEq, Eq)]
pub struct Daemon {
    phase: Phase,
    registry: Registry,
    pending: Option<ManagedProcessSpec>,
}

impl View for Daemon {
    type V = DaemonModel;

    closed spec fn view(&self) -> DaemonModel {
        DaemonModel {
            phase: self.phase,
            registry: self.registry@,
            pending: match self.pending {
                Some(s) => Some(s@),
                None => None,
            },
        }
    }
}

/// Ids stay unique, and a pending specification takes the next free id.
pub open spec fn daemon_wf(d: DaemonModel) -> bool {
    &&& ids_unique(d.registry)
    &&& (d.pending matches Some(s) ==> s.id == id_bound(d.registry))
}

/// How the daemon answers one datagram.
pub open spec fn datagram_step(d: DaemonModel, payload: Seq<u8>, now: u64) -> (
    DaemonModel,
    ActionModel,
) {
    if d.phase != Phase::Listening {
        (d, ActionModel::Idle)
    } else if payload.len() > MAX_PAYLOAD {
        (d, ActionModel::Discard(ProtocolError::TooLarge))
    } else {
        match decoding(payload) {
            Err(e) => (d, ActionModel::Discard(e)),
            Ok(EventModel::Kill) => (
                DaemonModel { phase: Phase::Terminating, ..d },
                ActionModel::ReplyAndExit(encoding(EventModel::Success)),
            ),
            Ok(EventModel::AddProcess { command, args, pwd, name }) => if id_bound(d.registry)
                <= u64::MAX {
                let s = new_spec(id_bound(d.registry) as u64, now, name, command, args, pwd);
                (DaemonModel { pending: Some(s), ..d }, ActionModel::Persist(d.registry.push(s)))
            } else {
                (d, ActionModel::Refuse(RegistryError::IdsExhausted))
            },
            Ok(_) => (d, ActionModel::Idle),
        }
    }
}

/// How the daemon takes the outcome of storing its registry: the pending
/// specification joins the registry and is launched only once stored.
pub open spec fn persisted_step(d: DaemonModel, stored: bool) -> (DaemonModel, Option<SpecModel>) {
    match d.pending {
        Some(s) => if stored {
            (DaemonModel { registry: d.registry.push(s), pending: None, ..d }, Some(s))
        } else {
            (DaemonModel { pending: None, ..d }, None)
        },
        None => (d, None),
    }
}

impl Daemon {
    pub open spec fn wf(&self) -> bool {
        daemon_wf(self@)
    }

    /// A daemon in `Starting` over a loaded registry.
    pub fn new(registry: Registry) -> (r: Daemon)
        requires
            registry.wf(),
        ensures
            r.wf(),
            r@ == (DaemonModel { phase: Phase::Starting, registry: registry@, pending: None }),
    {
        Daemon { phase: Phase::Starting, registry, pending: None }
    }

    pub fn phase(&self) -> (r: Phase)
        ensures
            r == self@.phase,
    {
        self.phase
    }

    pub fn registry(&self) -> (r: &Registry)
        ensures
            r@ == self@.registry,
    {
        &self.registry
    }

    /// Moves from `Starting` to `Listening` and gives every enabled
    /// specification to relaunch, each on its own task: one that fails to
    /// spawn leaves the others to be launched all the same.
    pub fn begin_listening(&mut self) -> (r: Vec<ManagedProcessSpec>)
        requires
            old(self).wf(),
        ensures
            final(self).wf(),
            old(self)@.phase == Phase::Starting ==> final(self)@ == (DaemonModel {
                phase: Phase::Listening,
                ..old(self)@
            }) && specs_view(r@) == old(self)@.registry.filter(|p: SpecModel| p.enabled),
            old(self)@.phase != Phase::Starting ==> final(self)@ == old(self)@ && r@.len() == 0,
    {
        if self.phase != Phase::Starting {
            return Vec::new();
        }
        self.phase = Phase::Listening;
        self.registry.enabled_specs()
    }

    /// Handles one datagram received at time `now`.
    pub fn on_datagram(&mut self, payload: &[u8], now: u64) -> (r: Action)
        requires
            old(self).wf(),
        ensures
            final(self).wf(),
            (final(self)@, r@) == datagram_step(old(self)@, payload@, now),
    {
        if self.phase != Phase::Listening {
            return Action::Idle;
        }
        if payload.len() > MAX_PAYLOAD {
            return Action::Discard(ProtocolError::TooLarge);
        }
        match ControlEvent::decode(payload) {
            Err(e) => Action::Discard(e),
            Ok(ControlEvent::Kill) => {
                self.phase = Phase::Terminating;
                Action::ReplyAndExit(ControlEvent::Success.encode())
            },
            Ok(ControlEvent::AddProcess { command, args, pwd, name }) => {
                let mut proposed = self.registry.snapshot();
                proof {
                    lemma_id_bound(self.registry@);
                }
                match proposed.add_process(name, command, args, pwd, now) {
                    Ok(spec) => {
                        self.pending = Some(spec);
                        Action::Persist(proposed)
                    },
                    Err(e) => Action::Refuse(e),
                }
            },
            Ok(_) => Action::Idle,
        }
    }

    /// Takes the outcome of storing the registry that `Persist` carried.
    /// Returns the specification to launch, once it is stored.
    pub fn persisted(&mut self, stored: bool) -> (r: Option<ManagedProcessSpec>)
        requires
            old(self).wf(),
        ensures
            final(self).wf(),
            (final(self)@, match r {
                Some(s) => Some(s@),
                None => None,
            }) == persisted_step(old(self)@, stored),
    {
        match self.pending.take() {
            Some(spec) => {
                if stored {
                    let launch = spec.duplicate();
                    proof {
                        lemma_id_bound(self.registry@);
                    }
                    self.registry.processes.push(spec);
                    assert(self.registry@ =~= old(self)@.registry.push(launch@));
                    Some(launch)
                } else {
                    None
                }
            },
            None => None,
        }
    }
}

proof fn lemma_escape_len(s: Seq<char>)
    ensures
        escape(s).len() <= 2 * s.len(),
    decreases s.len(),
{
    if s.len() > 0 {
        lemma_escape_len(s.drop_first());
    }
}

proof fn lemma_utf8_len(s: Seq<char>)
    ensures
        encode_utf8(s).len() <= 4 * s.len(),
    decreases s.len(),
{
    if s.len() > 0 {
        lemma_utf8_len(s.drop_first());
    }
}

/// An event without payload fits the receive buffer.
proof fn lemma_plain_fits(e: EventModel)
    requires
        !(e is AddProcess),
    ensures
        encoding(e).len() <= MAX_PAYLOAD,
{
    reveal_strlit("{\"t\":");
    reveal_strlit("}");
    reveal_strlit("Kill");
    reveal_strlit("Start");
    reveal_strlit("Restart");
    reveal_strlit("Success");
    let tag = match e {
        EventModel::Kill => "Kill"@,
        EventModel::Start => "Start"@,
        EventModel::Restart => "Restart"@,
        _ => "Success"@,
    };
    lemma_escape_len(tag);
    assert(document(e) == "{\"t\":"@ + quoted(tag) + Seq::<char>::empty() + "}"@);
    lemma_utf8_len(document(e));
}

/// Kill handshake: `Kill` is answered with `Success` and ends the
/// listening; any datagram after it gets no answer and changes nothing.
pub proof fn lemma_kill_handshake(d: DaemonModel, later: Seq<u8>, now: u64, later_now: u64)
    requires
        d.phase == Phase::Listening,
    ensures
        datagram_step(d, encoding(EventModel::Kill), now).1 == ActionModel::ReplyAndExit(
            encoding(EventModel::Success),
        ),
        datagram_step(d, encoding(EventModel::Kill), now).0.phase == Phase::Terminating,
        datagram_step(d, encoding(EventModel::Kill), now).0.registry == d.registry,
        datagram_step(datagram_step(d, encoding(EventModel::Kill), now).0, later, later_now) == (
        datagram_step(d, encoding(EventModel::Kill), now).0, ActionModel::Idle),
{
    lemma_plain_fits(EventModel::Kill);
    lemma_round_trip(EventModel::Kill);
}

/// The reserved variants `Start` and `Restart` decode, and the daemon does
/// nothing on them.
pub proof fn lemma_reserved_noop(d: DaemonModel, now: u64)
    requires
        d.phase == Phase::Listening,
    ensures
        decoding(encoding(EventModel::Start)) == Ok::<EventModel, ProtocolError>(
            EventModel::Start,
        ),
        decoding(encoding(EventModel::Restart)) == Ok::<EventModel, ProtocolError>(
            EventModel::Restart,
        ),
        datagram_step(d, encoding(EventModel::Start), now) == (d, ActionModel::Idle),
        datagram_step(d, encoding(EventModel::Restart), now) == (d, ActionModel::Idle),
{
    lemma_plain_fits(EventModel::Start);
    lemma_round_trip(EventModel::Start);
    lemma_plain_fits(EventModel::Restart);
    lemma_round_trip(EventModel::Restart);
}

/// A datagram that does not decode, or does not fit the buffer, is dropped:
/// the state stays as it was, so the next datagram is handled as it would
/// have been without it, and a valid `AddProcess` is still taken.
pub proof fn lemma_undecodable_dropped(
    d: DaemonModel,
    junk: Seq<u8>,
    next: Seq<u8>,
    now: u64,
    next_now: u64,
)
    requires
        d.phase == Phase::Listening,
        decoding(junk) is Err || junk.len() > MAX_PAYLOAD,
    ensures
        datagram_step(d, junk, now).0 == d,
        datagram_step(d, junk, now).1 is Discard,
        datagram_step(datagram_step(d, junk, now).0, next, next_now) == datagram_step(
            d,
            next,
            next_now,
        ),
        (next.len() <= MAX_PAYLOAD && (decoding(next) is Ok && decoding(next)->Ok_0 is AddProcess)
            && id_bound(d.registry) <= u64::MAX) ==> datagram_step(
            datagram_step(d, junk, now).0,
            next,
            next_now,
        ).1 is Persist,
{
}

/// One accepted `AddProcess` on a registry of `n` specifications leaves a
/// stored registry of `n + 1`: the first `n` as they were, then an enabled
/// specification with the submitted command, arguments, directory and name,
/// under an id that no other has; that specification is the one launched.
pub proof fn lemma_add_process_stored(
    d: DaemonModel,
    command: Seq<char>,
    args: Seq<Seq<char>>,
    pwd: Seq<char>,
    name: Seq<char>,
    now: u64,
)
    requires
        daemon_wf(d),
        d.phase == Phase::Listening,
        id_bound(d.registry) <= u64::MAX,
        encoding(EventModel::AddProcess { command, args, pwd, name }).len() <= MAX_PAYLOAD,
    ensures
        ({
            let (d1, act) = datagram_step(
                d,
                encoding(EventModel::AddProcess { command, args, pwd, name }),
                now,
            );
            let (d2, launched) = persisted_step(d1, true);
            let n = d.registry.len();
            &&& act == ActionModel::Persist(d2.registry)
            &&& d2.registry.len() == n + 1
            &&& d2.registry.subrange(0, n as int) == d.registry
            &&& d2.registry[n as int].command == command
            &&& d2.registry[n as int].args == args
            &&& d2.registry[n as int].pwd == pwd
            &&& d2.registry[n as int].name == name
            &&& d2.registry[n as int].enabled
            &&& d2.registry[n as int].created_at == now
            &&& launched == Some(d2.registry[n as int])
            &&& daemon_wf(d2)
            &&& d2.phase == Phase::Listening
        }),
{
    let e = EventModel::AddProcess { command, args, pwd, name };
    lemma_round_trip(e);
    lemma_id_bound(d.registry);
    let (d1, act) = datagram_step(d, encoding(e), now);
    let (d2, launched) = persisted_step(d1, true);
    assert(d2.registry.subrange(0, d.registry.len() as int) =~= d.registry);
}

} // verus!
