//! Messaging with asynchronous delivery: a message to an agent who is
//! offline waits behind a link until the agent fetches it, and its sender is
//! told of the delivery. Messages here carry their status and the time they
//! were received.

use vstd::prelude::*;

use crate::table::Table;
use crate::types::{
    copy_opt_string, copy_string, err, coded_reason, AgentPubKey, EntryHash, P2PMessageReceipt, P2PTypingDetailIO,
    ReceiptView, ZomeError,
};
use crate::zome::{views_of, CapAccess, CapGrantEntry, Commit, CommitView, RemoteCall, ZomeCallResponse};

verus! {

/// A time in whole seconds and nanoseconds since the UNIX epoch.
#[derive(Clone, Copy, Debug, PartialEq, Eq, Structural)]
pub struct SecondsTimestamp(pub i64, pub u32);

/// Whether a message was sent, delivered or read.
#[derive(Clone, Copy, Debug, PartialEq, Eq, Structural)]
pub enum MessageStatus {
    Sent,
    Delivered,
    Read,
}

/// A message with its delivery state.
#[derive(Debug)]
pub struct MessageParameter {
    pub author: AgentPubKey,
    pub receiver: AgentPubKey,
    pub payload: String,
    pub time_sent: SecondsTimestamp,
    pub time_received: Option<SecondsTimestamp>,
    pub status: MessageStatus,
    pub reply_to: Option<EntryHash>,
}

impl View for MessageParameter {
    type V = MessageParameter;

    open spec fn view(&self) -> MessageParameter {
        *self
    }
}

impl Clone for MessageParameter {
    fn clone(&self) -> (r: Self)
        ensures
            r == *self,
    {
        MessageParameter {
            author: copy_string(&self.author),
            receiver: copy_string(&self.receiver),
            payload: copy_string(&self.payload),
            time_sent: self.time_sent,
            time_received: self.time_received,
            status: self.status,
            reply_to: copy_opt_string(&self.reply_to),
        }
    }
}

/// The messages of one author.
#[derive(Debug)]
pub struct MessagesByAgent {
    pub author: AgentPubKey,
    pub messages: Vec<MessageParameter>,
}

/// The messages of a conversation to read: those of `author` sent up to the
/// second `last_message_timestamp_seconds`.
#[derive(Debug)]
pub struct MessageRange {
    pub author: AgentPubKey,
    pub last_message_timestamp_seconds: i64,
}

/// Telling the sender that its message was delivered: the message is
/// committed as it is given, and the answer is `true`.
pub fn notify_delivery(message_parameter: MessageParameter) -> (r: (MessageParameter, bool))
    ensures
        r.0 == message_parameter,
        r.1,
{
    (message_parameter, true)
}

/// One step of what the sender does when told late of a delivery.
pub enum AsyncStep {
    /// Update the entry written at `header` to `message`, a message left for its receiver.
    Update { header: EntryHash, message: MessageParameter },
    /// Link `base` to the entry just written, with the tag `tag`.
    Link { base: AgentPubKey, tag: String },
}

/// What the sender does when told late of a delivery: its steps, in order,
/// and its answer.
pub struct AsyncDeliveryNotice {
    pub steps: Vec<AsyncStep>,
    pub result: bool,
}

/// Telling the sender late that its message was delivered: the entry at
/// `header` is updated to the message, then the message's author is linked
/// to the new entry with the tag "async_messages"; the answer is `true`.
pub fn notify_delivery_async(message_parameter: MessageParameter, header: EntryHash) -> (r: AsyncDeliveryNotice)
    ensures
        r.steps@.len() == 2,
        r.steps@[0] == (AsyncStep::Update { header, message: message_parameter }),
        r.steps@[1] matches AsyncStep::Link { base, tag } && base == message_parameter.author && tag@
            == "async_messages"@,
        r.result,
{
    let base = copy_string(&message_parameter.author);
    let mut steps: Vec<AsyncStep> = Vec::new();
    steps.push(AsyncStep::Update { header, message: message_parameter });
    steps.push(AsyncStep::Link { base, tag: "async_messages".to_owned() });
    AsyncDeliveryNotice { steps, result: true }
}

/// The entries among `qs` that are messages, in order.
pub open spec fn readable(qs: Seq<Result<MessageParameter, ZomeError>>) -> Seq<MessageParameter>
    decreases qs.len(),
{
    if qs.len() == 0 {
        Seq::empty()
    } else {
        match qs.last() {
            Ok(m) => readable(qs.drop_last()).push(m),
            Err(_) => readable(qs.drop_last()),
        }
    }
}

/// All the messages on the chain (`queried_messages`), in order; entries that
/// are not messages are passed over.
pub fn get_all_messages(queried_messages: &Vec<Result<MessageParameter, ZomeError>>) -> (r: Vec<
    MessageParameter,
>)
    ensures
        r@ == readable(queried_messages@),
{
    let mut out: Vec<MessageParameter> = Vec::new();
    let n = queried_messages.len();
    let mut i: usize = 0;
    proof {
        assert(queried_messages@.take(0) =~= Seq::<Result<MessageParameter, ZomeError>>::empty());
    }
    while i < n
        invariant
            n == queried_messages@.len(),
            i <= n,
            out@ == readable(queried_messages@.take(i as int)),
        decreases n - i,
    {
        proof {
            assert(queried_messages@.take(i + 1).drop_last() =~= queried_messages@.take(i as int));
        }
        if let Ok(m) = &queried_messages[i] {
            out.push(m.clone());
        }
        i = i + 1;
    }
    proof {
        assert(queried_messages@.take(n as int) =~= queried_messages@);
    }
    out
}

/// The agents of `agents` without repetitions, each where it first occurs.
pub open spec fn deduped(agents: Seq<AgentPubKey>) -> Seq<AgentPubKey>
    decreases agents.len(),
{
    if agents.len() == 0 {
        Seq::empty()
    } else {
        let d = deduped(agents.drop_last());
        if exists|i: int| 0 <= i < d.len() && #[trigger] d[i]@ == agents.last()@ {
            d
        } else {
            d.push(agents.last())
        }
    }
}

/// The agents of `agents` without repetitions, each where it first occurs.
pub fn address_deduper(agents: Vec<AgentPubKey>) -> (r: Vec<AgentPubKey>)
    ensures
        r@ == deduped(agents@),
{
    let mut out: Vec<AgentPubKey> = Vec::new();
    let n = agents.len();
    let mut i: usize = 0;
    proof {
        assert(agents@.take(0) =~= Seq::<AgentPubKey>::empty());
    }
    while i < n
        invariant
            n == agents@.len(),
            i <= n,
            out@ == deduped(agents@.take(i as int)),
        decreases n - i,
    {
        proof {
            assert(agents@.take(i + 1).drop_last() =~= agents@.take(i as int));
        }
        if !crate::types::contains_string(&out, &agents[i]) {
            out.push(copy_string(&agents[i]));
        }
        i = i + 1;
    }
    proof {
        assert(agents@.take(n as int) =~= agents@);
    }
    out
}

/// The messages among `qs` written by `author`, in order.
pub open spec fn written_by(qs: Seq<Result<MessageParameter, ZomeError>>, author: AgentPubKey) -> Seq<MessageParameter>
    decreases qs.len(),
{
    if qs.len() == 0 {
        Seq::empty()
    } else {
        match qs.last() {
            Ok(m) => if m.author@ == author@ {
                written_by(qs.drop_last(), author).push(m)
            } else {
                written_by(qs.drop_last(), author)
            },
            Err(_) => written_by(qs.drop_last(), author),
        }
    }
}

fn messages_of(queried_messages: &Vec<Result<MessageParameter, ZomeError>>, author: &AgentPubKey) -> (r: Vec<
    MessageParameter,
>)
    ensures
        r@ == written_by(queried_messages@, *author),
{
    let mut out: Vec<MessageParameter> = Vec::new();
    let n = queried_messages.len();
    let mut i: usize = 0;
    proof {
        assert(queried_messages@.take(0) =~= Seq::<Result<MessageParameter, ZomeError>>::empty());
    }
    while i < n
        invariant
            n == queried_messages@.len(),
            i <= n,
            out@ == written_by(queried_messages@.take(i as int), *author),
        decreases n - i,
    {
        proof {
            assert(queried_messages@.take(i + 1).drop_last() =~= queried_messages@.take(i as int));
        }
        if let Ok(m) = &queried_messages[i] {
            if m.author == *author {
                out.push(m.clone());
            }
        }
        i = i + 1;
    }
    proof {
        assert(queried_messages@.take(n as int) =~= queried_messages@);
    }
    out
}

/// The messages on the chain (`queried_messages`) of each of the agents of
/// `agent_list`: one group for each agent (repetitions removed, each agent
/// where it first occurs), with the agent's messages in order.
pub fn get_all_messages_from_addresses(
    agent_list: Vec<AgentPubKey>,
    queried_messages: &Vec<Result<MessageParameter, ZomeError>>,
) -> (r: Vec<MessagesByAgent>)
    ensures
        r@.len() == deduped(agent_list@).len(),
        forall|i: int|
            0 <= i < r@.len() ==> (#[trigger] r@[i]).author == deduped(agent_list@)[i]
                && r@[i].messages@ == written_by(queried_messages@, deduped(agent_list@)[i]),
{
    let agents = address_deduper(agent_list);
    let mut out: Vec<MessagesByAgent> = Vec::new();
    let n = agents.len();
    let mut i: usize = 0;
    while i < n
        invariant
            n == agents@.len(),
            agents@ == deduped(agent_list@),
            i <= n,
            out@.len() == i,
            forall|j: int|
                0 <= j < i ==> (#[trigger] out@[j]).author == agents@[j] && out@[j].messages@
                    == written_by(queried_messages@, agents@[j]),
        decreases n - i,
    {
        let messages = messages_of(queried_messages, &agents[i]);
        out.push(MessagesByAgent { author: copy_string(&agents[i]), messages });
        i = i + 1;
    }
    out
}

/// How many seconds apart the messages of one batch may be.
pub open spec fn batch_timegap() -> int {
    10
}

/// How many messages one batch holds at most: a batch closes once it holds
/// this many.
pub open spec fn batch_limit() -> int {
    10
}

/// One step of [`get_batch_messages_on_conversation`]. The state is the
/// batch and whether it is closed. While the batch is empty, or holds fewer
/// than [`batch_limit`] messages and the message is less than [`batch_timegap`]
/// seconds older than the range's last second, a message of the range's
/// author sent up to that second is added; any other message closes the
/// batch. Entries that are not messages are passed over.
pub open spec fn batch_step(
    st: (Seq<MessageParameter>, bool),
    q: Result<MessageParameter, ZomeError>,
    range: MessageRange,
) -> (Seq<MessageParameter>, bool) {
    if st.1 {
        st
    } else {
        match q {
            Ok(m) => if st.0.len() <= 0 || (st.0.len() < batch_limit()
                && range.last_message_timestamp_seconds - m.time_sent.0 < batch_timegap()) {
                if m.author@ == range.author@ && m.time_sent.0 <= range.last_message_timestamp_seconds {
                    (st.0.push(m), false)
                } else {
                    st
                }
            } else {
                (st.0, true)
            },
            Err(_) => st,
        }
    }
}

/// The state of [`get_batch_messages_on_conversation`] once the entries `qs`
/// are read, oldest first.
pub open spec fn batch_read(qs: Seq<Result<MessageParameter, ZomeError>>, range: MessageRange) -> (
    Seq<MessageParameter>,
    bool,
)
    decreases qs.len(),
{
    if qs.len() == 0 {
        (Seq::empty(), false)
    } else {
        batch_step(batch_read(qs.drop_last(), range), qs.last(), range)
    }
}

/// A batch of messages of a conversation, as [`batch_step`] reads the chain's
/// messages (`queried_messages`) oldest first.
pub fn get_batch_messages_on_conversation(
    message_range: &MessageRange,
    queried_messages: &Vec<Result<MessageParameter, ZomeError>>,
) -> (r: Vec<MessageParameter>)
    ensures
        r@ == batch_read(queried_messages@, *message_range).0,
{
    let timegap: i128 = 10;
    let batch_size: usize = 10;
    let mut out: Vec<MessageParameter> = Vec::new();
    let n = queried_messages.len();
    let mut i: usize = 0;
    let mut closed = false;
    let ghost qs = queried_messages@;
    let ghost range = *message_range;
    proof {
        assert(qs.take(0) =~= Seq::<Result<MessageParameter, ZomeError>>::empty());
    }
    while i < n && !closed
        invariant
            n == qs.len(),
            qs == queried_messages@,
            range == *message_range,
            i <= n,
            timegap == batch_timegap(),
            batch_size == batch_limit(),
            (out@, closed) == batch_read(qs.take(i as int), range),
        decreases n - i,
    {
        proof {
            assert(qs.take(i + 1).drop_last() =~= qs.take(i as int));
        }
        if let Ok(m) = &queried_messages[i] {
            proof {
                assert(qs[i as int] matches Ok(m2) && m2 == *m);
            }
            if out.len() == 0 || (out.len() < batch_size
                && (message_range.last_message_timestamp_seconds as i128) - (m.time_sent.0 as i128) < timegap) {
                if m.author == message_range.author && m.time_sent.0
                    <= message_range.last_message_timestamp_seconds {
                    out.push(m.clone());
                }
            } else {
                closed = true;
            }
        }
        i = i + 1;
    }
    proof {
        lemma_batch_closed(qs, range, i as int);
        assert(qs.take(n as int) =~= qs);
    }
    out
}

proof fn lemma_batch_closed(qs: Seq<Result<MessageParameter, ZomeError>>, range: MessageRange, i: int)
    requires
        0 <= i <= qs.len(),
        batch_read(qs.take(i), range).1 || i == qs.len(),
    ensures
        batch_read(qs, range) == batch_read(qs.take(i), range),
    decreases qs.len() - i,
{
    if i < qs.len() {
        assert(qs.take(i + 1).drop_last() =~= qs.take(i));
        assert(batch_read(qs.take(i + 1), range) == batch_read(qs.take(i), range));
        lemma_batch_closed(qs, range, i + 1);
    } else {
        assert(qs.take(i) =~= qs);
    }
}

/// The state of fetching the messages that wait for the agent: the messages
/// fetched so far, and the delivered message whose sender is being told.
pub struct FetchRun {
    pub fetched: Vec<MessageParameter>,
    pub pending: Option<MessageParameter>,
}

/// What happens while the waiting messages are fetched.
pub enum FetchEvent {
    /// The target of the next link was read (none when it could not be got;
    /// an error when it is not a message), at `now`.
    Fetched { element: Option<Result<MessageParameter, ZomeError>>, now: SecondsTimestamp },
    /// The sender of the pending message answered the notice of delivery.
    Notified { response: ZomeCallResponse<bool> },
}

/// What the fetching agent does on the host.
pub enum FetchEffect {
    /// Commit the message as a message of the chain.
    CommitMessage(MessageParameter),
    /// Call a function of this zome on another agent's cell.
    Call(RemoteCall<MessageParameter>),
    /// Commit the message as a message left for its receiver, then link
    /// `base` to it with the tag `tag`.
    CommitAsyncAndLink { message: MessageParameter, base: AgentPubKey, tag: String },
}

/// The message `m` as delivered at `now`.
pub open spec fn delivered_at(m: MessageParameter, now: SecondsTimestamp) -> MessageParameter {
    MessageParameter {
        author: m.author,
        receiver: m.receiver,
        payload: m.payload,
        time_sent: m.time_sent,
        time_received: Some(now),
        status: MessageStatus::Delivered,
        reply_to: m.reply_to,
    }
}

/// The message `m` marked as sent.
pub open spec fn marked_sent(m: MessageParameter) -> MessageParameter {
    MessageParameter {
        author: m.author,
        receiver: m.receiver,
        payload: m.payload,
        time_sent: m.time_sent,
        time_received: m.time_received,
        status: MessageStatus::Sent,
        reply_to: m.reply_to,
    }
}

/// The state of fetching (the messages fetched and the pending message) after
/// the event `e`; none when fetching fails. A sent message becomes pending as
/// delivered at `now`; a delivered message changes nothing; when the sender
/// answered, the pending message is fetched (marked as sent), and when the
/// sender could not be reached, it is fetched as delivered.
pub open spec fn fetch_state(
    st: (Seq<MessageParameter>, Option<MessageParameter>),
    e: FetchEvent,
) -> Option<(Seq<MessageParameter>, Option<MessageParameter>)> {
    match e {
        FetchEvent::Fetched { element, now } => match (element, st.1) {
            (Some(Ok(m)), None) => match m.status {
                MessageStatus::Sent => Some((st.0, Some(delivered_at(m, now)))),
                MessageStatus::Delivered => Some(st),
                MessageStatus::Read => None,
            },
            _ => None,
        },
        FetchEvent::Notified { response } => match st.1 {
            Some(d) => match response {
                ZomeCallResponse::Returned(Ok(_)) => Some((st.0.push(marked_sent(d)), None)),
                ZomeCallResponse::NetworkError(_) => Some((st.0.push(d), None)),
                _ => None,
            },
            None => None,
        },
    }
}

/// Whether `r` is the error with the code `code` and the message `message`.
pub open spec fn fails_with<T>(r: Result<T, ZomeError>, code: Seq<char>, message: Seq<char>) -> bool {
    r matches Err(ZomeError::Guest(s)) && s@ == coded_reason(code, message)
}

/// One decision of fetching the messages that wait for the agent, from the
/// state `run`. For a fetched link: a sent message is committed as delivered
/// at `now`, its author's `notify_delivery` is called with it, and it becomes
/// pending; a delivered message is committed as it is; a read message, a
/// target that is not a message or that could not be got is an error. For
/// the sender's answer: the pending message is fetched (marked as sent) when
/// the sender answered; when the sender could not be reached, it is fetched
/// as delivered, committed as a message left for its author and linked from
/// the author with the tag "async_messages"; any other answer is an error.
pub fn fetch_async_messages(run: FetchRun, event: FetchEvent) -> (r: Result<(FetchRun, Vec<FetchEffect>), ZomeError>)
    requires
        event is Fetched ==> run.pending is None,
        event is Notified ==> run.pending is Some,
    ensures
        match fetch_state((run.fetched@, run.pending), event) {
            Some(st) => r matches Ok(x) && x.0.fetched@ == st.0 && x.0.pending == st.1,
            None => r is Err,
        },
        match event {
            FetchEvent::Fetched { element, now } => match element {
                None => fails_with(r, "TODO: 000"@, "Could not get link target"@),
                Some(Err(_)) => fails_with(r, "TODO: 000"@, "Could not convert element"@),
                Some(Ok(m)) => match m.status {
                    MessageStatus::Sent => r matches Ok(x) && x.1@.len() == 2 && x.1@[0] == FetchEffect::CommitMessage(
                        delivered_at(m, now),
                    ) && (x.1@[1] matches FetchEffect::Call(c) && c.agent == m.author && c.function@
                        == "notify_delivery"@ && c.payload == delivered_at(m, now)),
                    MessageStatus::Delivered => r matches Ok(x) && x.1@ == seq![FetchEffect::CommitMessage(m)],
                    MessageStatus::Read => fails_with(
                        r,
                        "TODO: 000"@,
                        "Unimplemented handlers for other status enums"@,
                    ),
                },
            },
            FetchEvent::Notified { response } => match response {
                ZomeCallResponse::Returned(Ok(_)) => r matches Ok(x) && x.1@.len() == 0,
                ZomeCallResponse::NetworkError(_) => r matches Ok(x) && x.1@.len() == 1 && (x.1@[0] matches FetchEffect::CommitAsyncAndLink {
                    message,
                    base,
                    tag,
                } && message == run.pending->0 && base == run.pending->0.author && tag@ == "async_messages"@),
                ZomeCallResponse::Unauthorized => fails_with(
                    r,
                    "TODO: 000:"@,
                    "This case shouldn't happen because of unrestricted access to receive message"@,
                ),
                _ => fails_with(r, "TODO: 000"@, "Unknown other error"@),
            },
        },
{
    let mut effects: Vec<FetchEffect> = Vec::new();
    let FetchRun { fetched, pending } = run;
    let mut fetched = fetched;
    match event {
        FetchEvent::Fetched { element, now } => match element {
            None => err("TODO: 000", "Could not get link target"),
            Some(Err(_)) => err("TODO: 000", "Could not convert element"),
            Some(Ok(m)) => match m.status {
                MessageStatus::Sent => {
                    let mut d = m;
                    d.time_received = Some(now);
                    d.status = MessageStatus::Delivered;
                    let agent = copy_string(&d.author);
                    effects.push(FetchEffect::CommitMessage(d.clone()));
                    effects.push(
                        FetchEffect::Call(
                            RemoteCall { agent, function: "notify_delivery".to_owned(), payload: d.clone() },
                        ),
                    );
                    Ok((FetchRun { fetched, pending: Some(d) }, effects))
                },
                MessageStatus::Delivered => {
                    effects.push(FetchEffect::CommitMessage(m));
                    proof {
                        assert(effects@ =~= seq![FetchEffect::CommitMessage(m)]);
                    }
                    Ok((FetchRun { fetched, pending }, effects))
                },
                MessageStatus::Read => err("TODO: 000", "Unimplemented handlers for other status enums"),
            },
        },
        FetchEvent::Notified { response } => {
            let d = pending.unwrap();
            match response {
                ZomeCallResponse::Returned(Ok(_)) => {
                    let mut sent = d;
                    sent.status = MessageStatus::Sent;
                    fetched.push(sent);
                    Ok((FetchRun { fetched, pending: None }, effects))
                },
                ZomeCallResponse::NetworkError(_) => {
                    let base = copy_string(&d.author);
                    fetched.push(d.clone());
                    effects.push(FetchEffect::CommitAsyncAndLink { message: d, base, tag: "async_messages".to_owned() });
                    Ok((FetchRun { fetched, pending: None }, effects))
                },
                ZomeCallResponse::Unauthorized => err(
                    "TODO: 000:",
                    "This case shouldn't happen because of unrestricted access to receive message",
                ),
                _ => err("TODO: 000", "Unknown other error"),
            }
        },
    }
}

/// A message to send: to `receiver`, with `payload`, possibly in reply to a message.
#[derive(Debug)]
pub struct MessageInput {
    pub receiver: AgentPubKey,
    pub payload: String,
    pub reply_to: Option<MessageParameter>,
}

/// Receiving a message at `now`: it is committed as delivered at `now`, and
/// given back as committed.
pub fn receive_message(message_input: MessageParameter, now: SecondsTimestamp) -> (r: MessageParameter)
    ensures
        r == delivered_at(message_input, now),
{
    let mut m = message_input;
    m.time_received = Some(now);
    m.status = MessageStatus::Delivered;
    m
}

/// What happens while a message is sent.
pub enum SendEvent {
    /// `author` starts sending `input` at `now`; `reply_to_hash` is the hash
    /// of the message it replies to, when it replies to one.
    Start { input: MessageInput, author: AgentPubKey, now: SecondsTimestamp, reply_to_hash: Option<EntryHash> },
    /// The receiver answered the call that hands it the message.
    Answered(ZomeCallResponse<MessageParameter>),
    /// The message was left for the receiver to fetch (an error when that failed).
    Queued(Result<MessageParameter, ZomeError>),
}

/// What the sender does next.
pub enum SendAction {
    /// Hand the message to its receiver.
    CallReceiver(MessageParameter),
    /// Commit the message and return it.
    Commit(MessageParameter),
    /// Leave the message for the receiver to fetch.
    SendAsync,
}

/// The message that `author` sends with `input` at `now`, replying to the
/// message with hash `reply_to_hash`: sent and not yet received.
pub open spec fn outgoing(
    input: MessageInput,
    author: AgentPubKey,
    now: SecondsTimestamp,
    reply_to_hash: Option<EntryHash>,
) -> MessageParameter {
    MessageParameter {
        author,
        receiver: input.receiver,
        payload: input.payload,
        time_sent: now,
        time_received: None,
        status: MessageStatus::Sent,
        reply_to: reply_to_hash,
    }
}

/// Whether `r` is the error with the code `code` and the message `message`.
pub open spec fn send_fails_with(r: Result<SendAction, ZomeError>, code: Seq<char>, message: Seq<char>) -> bool {
    r matches Err(ZomeError::Guest(s)) && s@ == coded_reason(code, message)
}

/// One decision of sending a message. At the start the message (sent at
/// `now`, not yet received, replying to `reply_to_hash`) is handed to its
/// receiver. When the receiver answered, what it gave back is committed; when
/// it could not be reached, the message is left for it to fetch; any other
/// answer is an error. Once left, the message is committed, else it is an
/// error. The hash of the replied message is owed exactly when the input
/// replies to one.
pub fn send_message(event: SendEvent) -> (r: Result<SendAction, ZomeError>)
    requires
        event matches SendEvent::Start { input, reply_to_hash, .. } ==> (input.reply_to is Some
            <==> reply_to_hash is Some),
    ensures
        match event {
            SendEvent::Start { input, author, now, reply_to_hash } => r matches Ok(
                SendAction::CallReceiver(m),
            ) && m == outgoing(input, author, now, reply_to_hash),
            SendEvent::Answered(response) => match response {
                ZomeCallResponse::Returned(Ok(m)) => r matches Ok(SendAction::Commit(d)) && d == m,
                ZomeCallResponse::NetworkError(_) => r matches Ok(SendAction::SendAsync),
                ZomeCallResponse::Unauthorized => send_fails_with(
                    r,
                    "TODO: 000:"@,
                    "This case shouldn't happen because of unrestricted access to receive message"@,
                ),
                _ => send_fails_with(r, "TODO: 000"@, "Unknown other error"@),
            },
            SendEvent::Queued(q) => match q {
                Ok(m) => r matches Ok(SendAction::Commit(d)) && d == m,
                Err(_) => send_fails_with(r, "TODO: 000"@, "This agent has no proper authorization"@),
            },
        },
{
    match event {
        SendEvent::Start { input, author, now, reply_to_hash } => {
            let message = MessageParameter {
                author,
                receiver: input.receiver,
                payload: input.payload,
                time_sent: now,
                time_received: None,
                status: MessageStatus::Sent,
                reply_to: reply_to_hash,
            };
            Ok(SendAction::CallReceiver(message))
        },
        SendEvent::Answered(response) => match response {
            ZomeCallResponse::Returned(Ok(m)) => Ok(SendAction::Commit(m)),
            ZomeCallResponse::NetworkError(_) => Ok(SendAction::SendAsync),
            ZomeCallResponse::Unauthorized => err(
                "TODO: 000:",
                "This case shouldn't happen because of unrestricted access to receive message",
            ),
            _ => err("TODO: 000", "Unknown other error"),
        },
        SendEvent::Queued(q) => match q {
            Ok(m) => Ok(SendAction::Commit(m)),
            Err(_) => err("TODO: 000", "This agent has no proper authorization"),
        },
    }
}

/// A message left for its receiver: the entry to commit, the agent that the
/// link to it starts from, and the link's tag.
pub struct AsyncSend {
    pub message: MessageParameter,
    pub link_base: AgentPubKey,
    pub tag: String,
}

/// Leaving a message for its receiver to fetch: the message from `author`,
/// sent at `now`, not yet received and replying to nothing, is committed
/// behind an "async_messages" link from its receiver.
pub fn send_message_async(input: MessageInput, author: AgentPubKey, now: SecondsTimestamp) -> (r: AsyncSend)
    ensures
        r.message == outgoing(input, author, now, None),
        r.link_base == input.receiver,
        r.tag@ == "async_messages"@,
{
    let link_base = copy_string(&input.receiver);
    let message = MessageParameter {
        author,
        receiver: input.receiver,
        payload: input.payload,
        time_sent: now,
        time_received: None,
        status: MessageStatus::Sent,
        reply_to: None,
    };
    AsyncSend { message, link_base, tag: "async_messages".to_owned() }
}

/// Telling a conversant that `me` is typing: the detail with `me` and whether
/// it is typing, sent to the agent of `typing_info` and to `me`.
pub fn typing(typing_info: P2PTypingDetailIO, me: AgentPubKey) -> (r: (P2PTypingDetailIO, Vec<AgentPubKey>))
    ensures
        r.0.agent == me,
        r.0.is_typing == typing_info.is_typing,
        r.1@ == seq![typing_info.agent, me],
{
    let mut agents: Vec<AgentPubKey> = Vec::new();
    agents.push(typing_info.agent);
    agents.push(copy_string(&me));
    proof {
        assert(agents@ =~= seq![typing_info.agent, me]);
    }
    (P2PTypingDetailIO { agent: me, is_typing: typing_info.is_typing }, agents)
}

/// The receipts `receipts` (each with its hash) keyed by hash; a later
/// receipt with the same hash takes the place of an earlier one.
pub open spec fn receipts_by_hash(receipts: Seq<(EntryHash, P2PMessageReceipt)>) -> Map<Seq<char>, ReceiptView>
    decreases receipts.len(),
{
    if receipts.len() == 0 {
        Map::empty()
    } else {
        receipts_by_hash(receipts.drop_last()).insert(receipts.last().0@, receipts.last().1@)
    }
}

/// The receipts of `receipts` (each with its hash) keyed by hash, but for
/// those whose hash is one of `committed`.
pub open spec fn uncommitted(receipts: Seq<(EntryHash, P2PMessageReceipt)>, committed: Seq<EntryHash>) -> Map<
    Seq<char>,
    ReceiptView,
> {
    receipts_by_hash(receipts).restrict(
        receipts_by_hash(receipts).dom().filter(
            |k: Seq<char>| forall|j: int| 0 <= j < committed.len() ==> #[trigger] committed[j]@ != k,
        ),
    )
}

/// The receipts of `receipts` (each with its hash) that are not yet on the
/// chain, keyed by hash: those whose hash is none of `committed`, the hashes
/// of the receipts on the chain.
pub fn commit_receipts(receipts: Vec<(EntryHash, P2PMessageReceipt)>, committed: &Vec<EntryHash>) -> (r: Table<
    P2PMessageReceipt,
>)
    ensures
        r@ == uncommitted(receipts@, committed@),
{
    let mut map: Table<P2PMessageReceipt> = Table::new();
    let ghost rs = receipts@;
    let mut i: usize = 0;
    while i < receipts.len()
        invariant
            rs == receipts@,
            i <= rs.len(),
            map@ == receipts_by_hash(rs.take(i as int)),
        decreases rs.len() - i,
    {
        let (h, receipt) = &receipts[i];
        proof {
            assert(rs.take(i + 1).drop_last() =~= rs.take(i as int));
        }
        map.insert(copy_string(h), receipt.clone());
        i = i + 1;
    }
    proof {
        assert(rs.take(rs.len() as int) =~= rs);
    }
    let ghost all = map@;
    let mut j: usize = 0;
    while j < committed.len()
        invariant
            j <= committed@.len(),
            all == receipts_by_hash(rs),
            map@ == all.restrict(
                all.dom().filter(|k: Seq<char>| forall|l: int| 0 <= l < j ==> #[trigger] committed@[l]@ != k),
            ),
        decreases committed@.len() - j,
    {
        let _ = map.remove(&committed[j]);
        proof {
            assert(map@ =~= all.restrict(
                all.dom().filter(|k: Seq<char>| forall|l: int| 0 <= l < j + 1 ==> #[trigger] committed@[l]@ != k),
            ));
        }
        j = j + 1;
    }
    map
}

/// The grants that the zome makes when it starts, as (tag, function) pairs:
/// "receive" opens `receive_message`, "notify" opens `notify_delivery`, the
/// grant with an empty tag opens `is_typing`, and "create_group_cap_grant"
/// opens `recv_remote_signal`.
pub open spec fn startup_grants() -> Seq<(Seq<char>, Seq<char>)> {
    seq![
        ("receive"@, "receive_message"@),
        ("notify"@, "notify_delivery"@),
        (""@, "is_typing"@),
        ("create_group_cap_grant"@, "recv_remote_signal"@),
    ]
}

fn open_grant(zome_name: &String, tag: &str, function_name: &str) -> (g: CapGrantEntry)
    ensures
        g.tag@ == tag@,
        g.access == CapAccess::Unrestricted,
        g.functions@.len() == 1,
        g.functions@[0].0 == *zome_name,
        g.functions@[0].1@ == function_name@,
{
    let mut functions: Vec<(String, String)> = Vec::new();
    functions.push((copy_string(zome_name), function_name.to_owned()));
    CapGrantEntry { tag: tag.to_owned(), access: CapAccess::Unrestricted, functions }
}

/// The zome's initialisation: the unrestricted grants of [`startup_grants`],
/// in that order, each covering one function of the zome `zome_name`.
pub fn init(zome_name: &String) -> (r: Vec<CapGrantEntry>)
    ensures
        r@.len() == startup_grants().len(),
        forall|i: int|
            0 <= i < r@.len() ==> {
                &&& (#[trigger] r@[i]).tag@ == startup_grants()[i].0
                &&& r@[i].access == CapAccess::Unrestricted
                &&& r@[i].functions@.len() == 1
                &&& r@[i].functions@[0].0 == *zome_name
                &&& r@[i].functions@[0].1@ == startup_grants()[i].1
            },
{
    let mut grants: Vec<CapGrantEntry> = Vec::new();
    grants.push(open_grant(zome_name, "receive", "receive_message"));
    grants.push(open_grant(zome_name, "notify", "notify_delivery"));
    grants.push(open_grant(zome_name, "", "is_typing"));
    grants.push(open_grant(zome_name, "create_group_cap_grant", "recv_remote_signal"));
    grants
}

/// A read receipt, with the sender of the messages it speaks of.
#[derive(Debug)]
pub struct ReadReceiptInput {
    pub receipt: P2PMessageReceipt,
    pub sender: AgentPubKey,
}

/// Reading messages: the read receipt is committed, then the sender's
/// `receive_read_receipt` is called with it; the sender's answer is what
/// reading returns.
pub fn read_message(input: ReadReceiptInput) -> (r: (Vec<Commit>, RemoteCall<P2PMessageReceipt>))
    ensures
        views_of(r.0@) == seq![CommitView::Receipt(input.receipt@)],
        r.1.agent == input.sender,
        r.1.function@ == "receive_read_receipt"@,
        r.1.payload@ == input.receipt@,
{
    let mut commits: Vec<Commit> = Vec::new();
    commits.push(Commit::Receipt(input.receipt.clone()));
    proof {
        assert(views_of(commits@) =~= seq![CommitView::Receipt(input.receipt@)]);
    }
    let call = RemoteCall { agent: input.sender, function: "receive_read_receipt".to_owned(), payload: input.receipt };
    (commits, call)
}

} // verus!
