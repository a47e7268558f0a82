//! The chat relay: what one client types goes to all the others.
//!
//! The relay itself keeps the members and says who is sent what. The worker
//! of a connection decides, report by report, what is done with the
//! connection; the caller reads, queues and closes.

use crate::table::{lemma_filter_all_but, lemma_filter_prefix};
use crate::worker::Phase;
use vstd::prelude::*;
use vstd::slice::slice_subrange;

verus! {

/// The text that code page 437, in the dialect that keeps the control
/// characters, gives for a sequence of bytes.
pub uninterp spec fn cp437_text(bytes: Seq<u8>) -> Seq<char>;

/// Calls `codepage_437::BorrowFromCp437::borrow_from_cp437` for `String`
/// with the dialect `CP437_CONTROL`. The call looks each byte up in the
/// dialect's table, so its result depends on the bytes alone; the contract
/// gives it its name.
#[verifier::external_body]
pub(crate) fn decode_cp437(bytes: &[u8]) -> (text: String)
    ensures
        text@ == cp437_text(bytes@),
{
    codepage_437::BorrowFromCp437::borrow_from_cp437(bytes, &codepage_437::CP437_CONTROL)
}

/// What reaches the relay.
#[derive(Clone, Debug, PartialEq, Eq)]
pub enum SocketEvent {
    /// A connection was accepted under this identifier.
    Connect(u32),
    /// The session sent this text.
    Message(u32, String),
    /// The connection of the session is gone.
    Disconnect(u32),
}

/// The mathematical value of a [`SocketEvent`] of the relay.
pub enum ChatEventView {
    Connect(u32),
    Message(u32, Seq<char>),
    Disconnect(u32),
}

impl View for SocketEvent {
    type V = ChatEventView;

    open spec fn view(&self) -> ChatEventView {
        match self {
            SocketEvent::Connect(id) => ChatEventView::Connect(*id),
            SocketEvent::Message(id, text) => ChatEventView::Message(*id, text@),
            SocketEvent::Disconnect(id) => ChatEventView::Disconnect(*id),
        }
    }
}

/// The mathematical value of an event that may be missing.
pub open spec fn event_of(event: Option<SocketEvent>) -> Option<ChatEventView> {
    match event {
        Some(e) => Some(e@),
        None => None,
    }
}

/// What a read of `len` bytes into `buffer` means for the session
/// `socket_id`: a read of nothing ends the session's reading, and anything
/// else is a message with the text that the bytes stand for in code page 437.
pub fn received_text(socket_id: u32, buffer: &[u8], len: usize) -> (event: Option<SocketEvent>)
    requires
        len <= buffer@.len(),
    ensures
        event_of(event) == (if len == 0 {
            None
        } else {
            Some(ChatEventView::Message(socket_id, cp437_text(buffer@.subrange(0, len as int))))
        }),
{
    if len == 0 {
        None
    } else {
        Some(SocketEvent::Message(socket_id, decode_cp437(slice_subrange(buffer, 0, len))))
    }
}

/// A text on its way to one session.
#[derive(Clone, Debug, PartialEq, Eq)]
pub struct Delivery {
    pub socket_id: u32,
    pub text: String,
}

/// The mathematical value of a [`Delivery`].
pub struct DeliveryView {
    pub socket_id: u32,
    pub text: Seq<char>,
}

impl View for Delivery {
    type V = DeliveryView;

    open spec fn view(&self) -> DeliveryView {
        DeliveryView { socket_id: self.socket_id, text: self.text@ }
    }
}

/// The mathematical value of a list of deliveries.
pub open spec fn deliveries_of(sent: Seq<Delivery>) -> Seq<DeliveryView> {
    sent.map_values(|d: Delivery| d@)
}

/// Sessions other than `id`.
pub open spec fn not_session(id: u32) -> spec_fn(u32) -> bool {
    |member: u32| member != id
}

/// `text`, addressed to a session unless it is the sender.
pub open spec fn forwarded(sender: u32, text: Seq<char>) -> spec_fn(u32) -> Option<DeliveryView> {
    |member: u32|
        if member != sender {
            Some(DeliveryView { socket_id: member, text })
        } else {
            None
        }
}

/// The members after an event: a connection puts the session behind the
/// others, a disconnection takes it out, a message changes nothing.
pub open spec fn members_after(members: Seq<u32>, event: ChatEventView) -> Seq<u32> {
    match event {
        ChatEventView::Connect(id) => members.filter(not_session(id)).push(id),
        ChatEventView::Message(_, _) => members,
        ChatEventView::Disconnect(id) => members.filter(not_session(id)),
    }
}

/// What an event has the relay send: a message goes to every member but its
/// sender, in the order in which the members connected; nothing else is sent.
pub open spec fn relayed(members: Seq<u32>, event: ChatEventView) -> Seq<DeliveryView> {
    match event {
        ChatEventView::Message(sender, text) => members.filter_map(forwarded(sender, text)),
        _ => Seq::empty(),
    }
}

/// The connected sessions of the relay, in the order in which they
/// connected.
pub struct ChatRoom {
    members: Vec<u32>,
}

impl View for ChatRoom {
    type V = Seq<u32>;

    closed spec fn view(&self) -> Seq<u32> {
        self.members@
    }
}

impl ChatRoom {
    /// The relay's invariant: no session is a member twice.
    pub open spec fn wf(&self) -> bool {
        self@.no_duplicates()
    }

    /// A relay with nobody connected.
    pub fn new() -> (room: ChatRoom)
        ensures
            room@ == Seq::<u32>::empty(),
            room.wf(),
    {
        ChatRoom { members: Vec::new() }
    }

    /// The number of connected sessions.
    pub fn len(&self) -> (n: usize)
        ensures
            n == self@.len(),
    {
        self.members.len()
    }

    /// Takes `id` out of the members, if it is among them.
    fn leave(&mut self, id: u32)
        requires
            old(self).wf(),
        ensures
            final(self).wf(),
            final(self)@ == old(self)@.filter(not_session(id)),
    {
        let ghost t = self@;
        let mut k: usize = 0;
        while k < self.members.len()
            invariant
                k <= self.members@.len(),
                self@ == t,
                t == old(self)@,
                t.no_duplicates(),
                forall|j: int| 0 <= j < k ==> #[trigger] t[j] != id,
            decreases self.members.len() - k,
        {
            if self.members[k] == id {
                proof {
                    assert forall|j: int| 0 <= j < t.len() && j != k implies not_session(id)(
                        #[trigger] t[j],
                    ) by {
                        assert(t[j] != t[k as int]);
                    }
                    lemma_filter_all_but(t, not_session(id), k as int);
                }
                let _ = self.members.remove(k);
                proof {
                    let u = t.remove(k as int);
                    assert(self@ =~= u);
                    assert forall|i: int, j: int| 0 <= i < u.len() && 0 <= j < u.len() && i
                        != j implies u[i] != u[j] by {
                        let a = if i < k { i } else { i + 1 };
                        let b = if j < k { j } else { j + 1 };
                        assert(u[i] == t[a] && u[j] == t[b]);
                        assert(t[a] != t[b]);
                    }
                }
                return ;
            }
            k += 1;
        }
        proof {
            lemma_filter_prefix(t, not_session(id), t.len() as int);
            assert(t.take(t.len() as int) =~= t);
        }
    }

    /// Handles one event and hands back what is to be sent, in order.
    pub fn handle(&mut self, event: SocketEvent) -> (sent: Vec<Delivery>)
        requires
            old(self).wf(),
        ensures
            final(self).wf(),
            final(self)@ == members_after(old(self)@, event@),
            deliveries_of(sent@) == relayed(old(self)@, event@),
    {
        let mut sent: Vec<Delivery> = Vec::new();
        match event {
            SocketEvent::Connect(socket_id) => {
                self.leave(socket_id);
                proof {
                    let left = self@;
                    assert forall|j: int| 0 <= j < left.len() implies #[trigger] left[j]
                        != socket_id by {
                        old(self)@.lemma_filter_pred(not_session(socket_id), j);
                    }
                }
                self.members.push(socket_id);
                assert(deliveries_of(sent@) =~= Seq::<DeliveryView>::empty());
            },
            SocketEvent::Message(sender_id, message) => {
                let ghost f = forwarded(sender_id, message@);
                let ghost t = self@;
                let mut k: usize = 0;
                assert(deliveries_of(sent@) =~= t.take(0).filter_map(f));
                while k < self.members.len()
                    invariant
                        k <= self.members@.len(),
                        self@ == t,
                        f == forwarded(sender_id, message@),
                        deliveries_of(sent@) == t.take(k as int).filter_map(f),
                    decreases self.members.len() - k,
                {
                    let ghost before = deliveries_of(sent@);
                    let member = self.members[k];
                    if member != sender_id {
                        sent.push(Delivery { socket_id: member, text: message.clone() });
                        assert(deliveries_of(sent@) =~= before.push(f(t[k as int])->0));
                    }
                    proof {
                        t.lemma_filter_map_take_succ(f, k as int);
                        assert(deliveries_of(sent@) =~= t.take(k + 1).filter_map(f));
                    }
                    k += 1;
                }
                assert(t.take(k as int) =~= t);
            },
            SocketEvent::Disconnect(socket_id) => {
                self.leave(socket_id);
                assert(deliveries_of(sent@) =~= Seq::<DeliveryView>::empty());
            },
        }
        sent
    }
}

/// What the caller reports to the worker of a relay connection.
#[derive(Clone, Copy, Debug, PartialEq, Eq, Structural)]
pub enum ChatInput {
    /// The worker is set to work.
    Started,
    /// The event of the last `Send` was queued, or the queue refused it.
    Sent(bool),
    /// The last `Read` filled this many bytes of the buffer, or failed.
    Read(Option<usize>),
}

/// What the worker of a relay connection asks of the caller.
#[derive(Clone, Debug, PartialEq, Eq)]
pub enum ChatAction {
    /// Queue this event for the relay and report `Sent`.
    Send(SocketEvent),
    /// Read from the connection into the buffer and report `Read`.
    Read,
    /// Release the connection. The worker is done.
    Close,
    /// Nothing: the report did not answer what was asked.
    Nothing,
}

/// The mathematical value of a [`ChatAction`].
pub enum ChatActionView {
    Send(ChatEventView),
    Read,
    Close,
    Nothing,
}

impl View for ChatAction {
    type V = ChatActionView;

    open spec fn view(&self) -> ChatActionView {
        match self {
            ChatAction::Send(event) => ChatActionView::Send(event@),
            ChatAction::Read => ChatActionView::Read,
            ChatAction::Close => ChatActionView::Close,
            ChatAction::Nothing => ChatActionView::Nothing,
        }
    }
}

/// The phase a report leads to, and what is asked next, with `buffer` what
/// the last read left.
///
/// The connection is announced first. If the relay's queue does not take the
/// announcement, the connection is released and nothing more is said.
/// Otherwise the worker reads, and forwards what it read as a text, until a
/// read gives nothing or fails or the queue refuses a text; then the
/// disconnection is queued, and whether or not the queue takes it, the
/// connection is released.
pub open spec fn chat_step(id: u32, phase: Phase, input: ChatInput, buffer: Seq<u8>) -> (
    Phase,
    ChatActionView,
) {
    let leave = (Phase::Leaving, ChatActionView::Send(ChatEventView::Disconnect(id)));
    match (phase, input) {
        (Phase::Idle, ChatInput::Started) => (
            Phase::Announcing,
            ChatActionView::Send(ChatEventView::Connect(id)),
        ),
        (Phase::Announcing, ChatInput::Sent(true)) => (Phase::Reading, ChatActionView::Read),
        (Phase::Announcing, ChatInput::Sent(false)) => (Phase::Closed, ChatActionView::Close),
        (Phase::Reading, ChatInput::Read(Some(len))) => if len == 0 {
            leave
        } else {
            (
                Phase::Forwarding,
                ChatActionView::Send(
                    ChatEventView::Message(id, cp437_text(buffer.subrange(0, len as int))),
                ),
            )
        },
        (Phase::Reading, ChatInput::Read(None)) => leave,
        (Phase::Forwarding, ChatInput::Sent(true)) => (Phase::Reading, ChatActionView::Read),
        (Phase::Forwarding, ChatInput::Sent(false)) => leave,
        (Phase::Leaving, ChatInput::Sent(_)) => (Phase::Closed, ChatActionView::Close),
        _ => (phase, ChatActionView::Nothing),
    }
}

/// The worker of one connection of the relay.
pub struct ChatWorker {
    socket_id: u32,
    phase: Phase,
}

impl ChatWorker {
    /// The identifier of the worker's session.
    pub closed spec fn id(&self) -> u32 {
        self.socket_id
    }

    /// Where the worker stands.
    pub closed spec fn phase(&self) -> Phase {
        self.phase
    }

    /// A worker for the connection accepted under `socket_id`, with nothing
    /// done yet.
    pub fn new(socket_id: u32) -> (worker: ChatWorker)
        ensures
            worker.id() == socket_id,
            worker.phase() == Phase::Idle,
    {
        ChatWorker { socket_id, phase: Phase::Idle }
    }

    /// Whether the connection is released and the worker done.
    pub fn is_closed(&self) -> (closed: bool)
        ensures
            closed == (self.phase() == Phase::Closed),
    {
        match self.phase {
            Phase::Closed => true,
            _ => false,
        }
    }

    /// Takes a report and says what to do next. `buffer` is what the reads
    /// fill; a read cannot have filled more of it than it holds.
    pub fn step(&mut self, input: ChatInput, buffer: &[u8]) -> (action: ChatAction)
        requires
            old(self).phase() == Phase::Reading ==> (input matches ChatInput::Read(Some(len))
                ==> len <= buffer@.len()),
        ensures
            final(self).id() == old(self).id(),
            (final(self).phase(), action@) == chat_step(
                old(self).id(),
                old(self).phase(),
                input,
                buffer@,
            ),
    {
        let id = self.socket_id;
        match (self.phase, input) {
            (Phase::Idle, ChatInput::Started) => {
                self.phase = Phase::Announcing;
                ChatAction::Send(SocketEvent::Connect(id))
            },
            (Phase::Announcing, ChatInput::Sent(true)) => {
                self.phase = Phase::Reading;
                ChatAction::Read
            },
            (Phase::Announcing, ChatInput::Sent(false)) => {
                self.phase = Phase::Closed;
                ChatAction::Close
            },
            (Phase::Reading, ChatInput::Read(Some(len))) => {
                match received_text(id, buffer, len) {
                    Some(event) => {
                        self.phase = Phase::Forwarding;
                        ChatAction::Send(event)
                    },
                    None => {
                        self.phase = Phase::Leaving;
                        ChatAction::Send(SocketEvent::Disconnect(id))
                    },
                }
            },
            (Phase::Reading, ChatInput::Read(None)) => {
                self.phase = Phase::Leaving;
                ChatAction::Send(SocketEvent::Disconnect(id))
            },
            (Phase::Forwarding, ChatInput::Sent(true)) => {
                self.phase = Phase::Reading;
                ChatAction::Read
            },
            (Phase::Forwarding, ChatInput::Sent(false)) => {
                self.phase = Phase::Leaving;
                ChatAction::Send(SocketEvent::Disconnect(id))
            },
            (Phase::Leaving, ChatInput::Sent(_)) => {
                self.phase = Phase::Closed;
                ChatAction::Close
            },
            _ => ChatAction::Nothing,
        }
    }
}

/// The phase after a sequence of reports, each with what the buffer held
/// when it was made.
pub open spec fn chat_phase_after(id: u32, phase: Phase, reports: Seq<(ChatInput, Seq<u8>)>) -> Phase
    decreases reports.len(),
{
    if reports.len() == 0 {
        phase
    } else {
        chat_step(
            id,
            chat_phase_after(id, phase, reports.drop_last()),
            reports.last().0,
            reports.last().1,
        ).0
    }
}

/// What is asked, in order, over a sequence of reports.
pub open spec fn chat_asked(id: u32, phase: Phase, reports: Seq<(ChatInput, Seq<u8>)>) -> Seq<
    ChatActionView,
>
    decreases reports.len(),
{
    if reports.len() == 0 {
        Seq::empty()
    } else {
        chat_asked(id, phase, reports.drop_last()).push(
            chat_step(
                id,
                chat_phase_after(id, phase, reports.drop_last()),
                reports.last().0,
                reports.last().1,
            ).1,
        )
    }
}

/// How often a sequence of actions queues a disconnection.
pub open spec fn chat_disconnections(actions: Seq<ChatActionView>) -> nat
    decreases actions.len(),
{
    if actions.len() == 0 {
        0
    } else {
        chat_disconnections(actions.drop_last()) + (match actions.last() {
            ChatActionView::Send(ChatEventView::Disconnect(_)) => 1nat,
            _ => 0nat,
        })
    }
}

/// How often a sequence of actions releases the connection.
pub open spec fn chat_releases(actions: Seq<ChatActionView>) -> nat
    decreases actions.len(),
{
    if actions.len() == 0 {
        0
    } else {
        chat_releases(actions.drop_last()) + (match actions.last() {
            ChatActionView::Close => 1nat,
            _ => 0nat,
        })
    }
}

/// Whatever is reported to the worker of a relay connection, and in
/// whatever order: it queues the disconnection of its session at most once,
/// and not before it stops reading; a worker that got as far as reading has
/// queued it exactly once when its connection is released. It releases the
/// connection at most once, and has done so exactly when it stands closed.
pub proof fn lemma_chat_worker_leaves_once(
    id: u32,
    phase: Phase,
    reports: Seq<(ChatInput, Seq<u8>)>,
)
    ensures
        ({
            let reached = chat_phase_after(id, phase, reports);
            let actions = chat_asked(id, phase, reports);
            let left = phase == Phase::Leaving || phase == Phase::Closed;
            let gone = reached == Phase::Leaving || reached == Phase::Closed;
            let serving = phase == Phase::Reading || phase == Phase::Forwarding;
            &&& actions.len() == reports.len()
            &&& chat_disconnections(actions) <= 1
            &&& left ==> chat_disconnections(actions) == 0 && gone
            &&& !left && !gone ==> chat_disconnections(actions) == 0
            &&& !left && reached == Phase::Leaving ==> chat_disconnections(actions) == 1
            &&& serving ==> reached == Phase::Reading || reached == Phase::Forwarding || gone
            &&& serving && reached == Phase::Closed ==> chat_disconnections(actions) == 1
            &&& chat_releases(actions) <= 1
            &&& chat_releases(actions) == 1 <==> phase != Phase::Closed && reached == Phase::Closed
            &&& phase == Phase::Closed ==> reached == Phase::Closed
        }),
    decreases reports.len(),
{
    if reports.len() > 0 {
        lemma_chat_worker_leaves_once(id, phase, reports.drop_last());
        let before = chat_asked(id, phase, reports.drop_last());
        let actions = chat_asked(id, phase, reports);
        assert(actions.drop_last() =~= before);
    }
}

} // verus!
