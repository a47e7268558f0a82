//! The decisions of the listener and of the worker that owns one connection.
//!
//! Neither touches a socket. The caller accepts, reads, queues and closes,
//! and after each of these tells the listener or the worker how it went;
//! what comes back is what to do next.

use crate::game::SocketEvent;
use crate::model::EventView;
use crate::protocol::ClientMessage;
use vstd::prelude::*;

verus! {

/// Hands out the identifiers of the sessions: each one once, in ascending
/// order from zero.
pub struct Listener {
    next: Option<u32>,
}

impl View for Listener {
    type V = nat;

    /// The number of identifiers handed out so far.
    closed spec fn view(&self) -> nat {
        match self.next {
            Some(n) => n as nat,
            None => 0x1_0000_0000,
        }
    }
}

impl Listener {
    /// A listener that has handed out nothing.
    pub fn new() -> (listener: Listener)
        ensures
            listener@ == 0,
    {
        Listener { next: Some(0) }
    }

    /// The identifier for a connection, given whether accepting it went
    /// well. A failed accept uses up no identifier. Each accepted connection
    /// is given the number of those accepted before it, so no identifier is
    /// handed out twice; when all are used up, none is given.
    pub fn session_for(&mut self, accepted: bool) -> (id: Option<u32>)
        ensures
            id == (if accepted && old(self)@ < 0x1_0000_0000 {
                Some(old(self)@ as u32)
            } else {
                None
            }),
            final(self)@ == old(self)@ + (if id is Some {
                1nat
            } else {
                0nat
            }),
    {
        if !accepted {
            return None;
        }
        match self.next {
            Some(n) => {
                self.next = n.checked_add(1);
                Some(n)
            },
            None => None,
        }
    }
}

/// Where a worker stands in the life of its connection.
#[derive(Clone, Copy, Debug, PartialEq, Eq, Structural)]
pub enum Phase {
    /// Nothing has been done yet.
    Idle,
    /// The connection is being announced to the coordinator.
    Announcing,
    /// A message is being read from the connection.
    Reading,
    /// A message that was read is being queued for the coordinator.
    Forwarding,
    /// The disconnection is being queued for the coordinator.
    Leaving,
    /// The connection is released; nothing is left to do.
    Closed,
}

/// What the caller reports to a worker.
#[derive(Clone, Debug, PartialEq, Eq)]
pub enum WorkerInput {
    /// The worker is set to work.
    Started,
    /// The event of the last `Send` was queued, or the queue refused it.
    Sent(bool),
    /// The last `Read` gave a message, or the connection was closed, failed
    /// or gave something that is no message.
    Read(Option<ClientMessage>),
}

/// What a worker asks of the caller.
#[derive(Clone, Debug, PartialEq, Eq)]
pub enum WorkerAction {
    /// Queue this event for the coordinator and report `Sent`.
    Send(SocketEvent),
    /// Read one message from the connection and report `Read`.
    Read,
    /// Release the connection. The worker is done.
    Close,
    /// Nothing: the report did not answer what was asked.
    Nothing,
}

/// The mathematical value of a [`WorkerInput`].
pub enum InputView {
    Started,
    Sent(bool),
    Read(Option<crate::protocol::ClientMessageView>),
}

/// The mathematical value of a [`WorkerAction`].
pub enum ActionView {
    Send(EventView),
    Read,
    Close,
    Nothing,
}

impl View for WorkerInput {
    type V = InputView;

    open spec fn view(&self) -> InputView {
        match self {
            WorkerInput::Started => InputView::Started,
            WorkerInput::Sent(taken) => InputView::Sent(*taken),
            WorkerInput::Read(Some(message)) => InputView::Read(Some(message@)),
            WorkerInput::Read(None) => InputView::Read(None),
        }
    }
}

impl View for WorkerAction {
    type V = ActionView;

    open spec fn view(&self) -> ActionView {
        match self {
            WorkerAction::Send(event) => ActionView::Send(event@),
            WorkerAction::Read => ActionView::Read,
            WorkerAction::Close => ActionView::Close,
            WorkerAction::Nothing => ActionView::Nothing,
        }
    }
}

/// The phase a report leads to, and what is asked next.
///
/// The connection is announced first. If the coordinator's queue does not
/// take the announcement, the connection is released and nothing more is
/// said. Otherwise messages are read and forwarded one by one until a read
/// fails or the queue refuses a message; then the disconnection is queued,
/// and whether or not the queue takes it, the connection is released.
pub open spec fn worker_step(id: u32, phase: Phase, input: InputView) -> (Phase, ActionView) {
    match (phase, input) {
        (Phase::Idle, InputView::Started) => (
            Phase::Announcing,
            ActionView::Send(EventView::Connect(id)),
        ),
        (Phase::Announcing, InputView::Sent(true)) => (Phase::Reading, ActionView::Read),
        (Phase::Announcing, InputView::Sent(false)) => (Phase::Closed, ActionView::Close),
        (Phase::Reading, InputView::Read(Some(message))) => (
            Phase::Forwarding,
            ActionView::Send(EventView::ClientMessage(id, message)),
        ),
        (Phase::Reading, InputView::Read(None)) => (
            Phase::Leaving,
            ActionView::Send(EventView::Disconnect(id)),
        ),
        (Phase::Forwarding, InputView::Sent(true)) => (Phase::Reading, ActionView::Read),
        (Phase::Forwarding, InputView::Sent(false)) => (
            Phase::Leaving,
            ActionView::Send(EventView::Disconnect(id)),
        ),
        (Phase::Leaving, InputView::Sent(_)) => (Phase::Closed, ActionView::Close),
        _ => (phase, ActionView::Nothing),
    }
}

/// The worker of one connection.
pub struct Worker {
    socket_id: u32,
    phase: Phase,
}

impl Worker {
    /// The identifier of the worker's session.
    pub closed spec fn id(&self) -> u32 {
        self.socket_id
    }

    /// Where the worker stands.
    pub closed spec fn phase(&self) -> Phase {
        self.phase
    }

    /// A worker for the connection accepted under `socket_id`, with nothing
    /// done yet.
    pub fn new(socket_id: u32) -> (worker: Worker)
        ensures
            worker.id() == socket_id,
            worker.phase() == Phase::Idle,
    {
        Worker { socket_id, phase: Phase::Idle }
    }

    /// Whether the connection is released and the worker done.
    pub fn is_closed(&self) -> (closed: bool)
        ensures
            closed == (self.phase() == Phase::Closed),
    {
        match self.phase {
            Phase::Closed => true,
            _ => false,
        }
    }

    /// Takes a report and says what to do next.
    pub fn step(&mut self, input: WorkerInput) -> (action: WorkerAction)
        ensures
            final(self).id() == old(self).id(),
            (final(self).phase(), action@) == worker_step(old(self).id(), old(self).phase(), input@),
    {
        let id = self.socket_id;
        match (self.phase, input) {
            (Phase::Idle, WorkerInput::Started) => {
                self.phase = Phase::Announcing;
                WorkerAction::Send(SocketEvent::Connect(id))
            },
            (Phase::Announcing, WorkerInput::Sent(true)) => {
                self.phase = Phase::Reading;
                WorkerAction::Read
            },
            (Phase::Announcing, WorkerInput::Sent(false)) => {
                self.phase = Phase::Closed;
                WorkerAction::Close
            },
            (Phase::Reading, WorkerInput::Read(Some(message))) => {
                self.phase = Phase::Forwarding;
                WorkerAction::Send(SocketEvent::ClientMessage(id, message))
            },
            (Phase::Reading, WorkerInput::Read(None)) => {
                self.phase = Phase::Leaving;
                WorkerAction::Send(SocketEvent::Disconnect(id))
            },
            (Phase::Forwarding, WorkerInput::Sent(true)) => {
                self.phase = Phase::Reading;
                WorkerAction::Read
            },
            (Phase::Forwarding, WorkerInput::Sent(false)) => {
                self.phase = Phase::Leaving;
                WorkerAction::Send(SocketEvent::Disconnect(id))
            },
            (Phase::Leaving, WorkerInput::Sent(_)) => {
                self.phase = Phase::Closed;
                WorkerAction::Close
            },
            _ => WorkerAction::Nothing,
        }
    }
}

/// The phase after a sequence of reports.
pub open spec fn phase_after(id: u32, phase: Phase, inputs: Seq<InputView>) -> Phase
    decreases inputs.len(),
{
    if inputs.len() == 0 {
        phase
    } else {
        worker_step(id, phase_after(id, phase, inputs.drop_last()), inputs.last()).0
    }
}

/// What is asked, in order, over a sequence of reports.
pub open spec fn asked(id: u32, phase: Phase, inputs: Seq<InputView>) -> Seq<ActionView>
    decreases inputs.len(),
{
    if inputs.len() == 0 {
        Seq::empty()
    } else {
        asked(id, phase, inputs.drop_last()).push(
            worker_step(id, phase_after(id, phase, inputs.drop_last()), inputs.last()).1,
        )
    }
}

/// How often a sequence of actions queues a disconnection.
pub open spec fn disconnections(actions: Seq<ActionView>) -> nat
    decreases actions.len(),
{
    if actions.len() == 0 {
        0
    } else {
        disconnections(actions.drop_last()) + (match actions.last() {
            ActionView::Send(EventView::Disconnect(_)) => 1nat,
            _ => 0nat,
        })
    }
}

/// How often a sequence of actions releases the connection.
pub open spec fn releases(actions: Seq<ActionView>) -> nat
    decreases actions.len(),
{
    if actions.len() == 0 {
        0
    } else {
        releases(actions.drop_last()) + (match actions.last() {
            ActionView::Close => 1nat,
            _ => 0nat,
        })
    }
}

/// A phase in which the disconnection has been queued, or in which the
/// connection is released.
pub open spec fn has_left(phase: Phase) -> bool {
    phase == Phase::Leaving || phase == Phase::Closed
}

/// A phase in which the connection is announced and messages are read.
pub open spec fn is_serving(phase: Phase) -> bool {
    phase == Phase::Reading || phase == Phase::Forwarding
}

/// Every event among the actions is of the session `id`.
pub open spec fn all_of_session(id: u32, actions: Seq<ActionView>) -> bool {
    forall|k: int|
        0 <= k < actions.len() ==> match #[trigger] actions[k] {
            ActionView::Send(EventView::Connect(i)) => i == id,
            ActionView::Send(EventView::ClientMessage(i, _)) => i == id,
            ActionView::Send(EventView::Disconnect(i)) => i == id,
            _ => true,
        }
}

/// Whatever is reported to a worker, and in whatever order: it queues the
/// disconnection of its session at most once, and not before it stops
/// reading; a worker that got as far as reading has queued it exactly once
/// when its connection is released. It releases the connection at most
/// once, and has done so exactly when it stands closed. Every event it
/// queues is of its own session.
pub proof fn lemma_worker_leaves_once(id: u32, phase: Phase, inputs: Seq<InputView>)
    ensures
        ({
            let reached = phase_after(id, phase, inputs);
            let actions = asked(id, phase, inputs);
            &&& actions.len() == inputs.len()
            &&& disconnections(actions) <= 1
            &&& has_left(phase) ==> disconnections(actions) == 0 && has_left(reached)
            &&& !has_left(phase) && !has_left(reached) ==> disconnections(actions) == 0
            &&& !has_left(phase) && reached == Phase::Leaving ==> disconnections(actions) == 1
            &&& is_serving(phase) ==> is_serving(reached) || has_left(reached)
            &&& is_serving(phase) && reached == Phase::Closed ==> disconnections(actions) == 1
            &&& releases(actions) <= 1
            &&& releases(actions) == 1 <==> phase != Phase::Closed && reached == Phase::Closed
            &&& phase == Phase::Closed ==> reached == Phase::Closed
            &&& all_of_session(id, actions)
        }),
    decreases inputs.len(),
{
    if inputs.len() > 0 {
        lemma_worker_leaves_once(id, phase, inputs.drop_last());
        let before = asked(id, phase, inputs.drop_last());
        let actions = asked(id, phase, inputs);
        assert(actions.drop_last() =~= before);
        assert forall|k: int| 0 <= k < actions.len() implies match #[trigger] actions[k] {
            ActionView::Send(EventView::Connect(i)) => i == id,
            ActionView::Send(EventView::ClientMessage(i, _)) => i == id,
            ActionView::Send(EventView::Disconnect(i)) => i == id,
            _ => true,
        } by {
            if k < before.len() {
                assert(actions[k] == before[k]);
            }
        }
    }
}

} // verus!
