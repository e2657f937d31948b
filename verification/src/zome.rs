//! The decisions of the zome functions that write to the chain, call other
//! agents and emit signals: what they commit, whom they call with what, what
//! they signal and what they return. Reading the chain, hashing, the clock
//! and the calls themselves are done by the caller, who hands the results in.

use vstd::prelude::*;

use crate::helpers::{first_match, get_file_from_chain, get_message_from_chain, get_receipt_from_chain, newest_match};
use crate::table::Table;
use crate::types::{
    copy_bytes, copy_string, data_of, error, reply_to_of, AgentPubKey, EntryHash, FileMetadata,
    Hashed, MessageDataView, MessageWithTimestampInput, MessageInput, P2PFileBytes, P2PMessage,
    P2PMessageData, P2PMessageReceipt, P2PMessageReplyTo, P2PMessageView, Payload, PayloadInput,
    PayloadView, ReceiptView, ReceiveMessageInput, ReplyToView, Status, Timestamp, ZomeError,
    is_kind, P2PMessagePin, P2PTypingDetailIO, PinMessageInput, PinStatus, PinView, ReadMessageInput,
};

verus! {

/// A message with its hash, and a receipt with its hash.
pub struct MessageDataAndReceipt(pub (EntryHash, P2PMessageData), pub (EntryHash, P2PMessageReceipt));

/// The signal that a message was received.
pub struct MessageSignal {
    pub message: MessageDataAndReceipt,
}

/// The signal that receipts were received.
pub struct ReceiptSignal {
    pub receipt: Table<P2PMessageReceipt>,
}

/// The signal that pins were received.
pub struct PinSignal {
    pub pin: Table<crate::types::P2PMessagePin>,
}

/// The signal that an agent is typing, or stopped.
pub struct TypingSignal {
    pub agent: AgentPubKey,
    pub is_typing: bool,
}

/// The signal that a message could not be handled.
pub struct ErrorMessage {
    pub message: P2PMessage,
}

/// The signal that a receipt could not be handled.
pub struct ErrorReceipt {
    pub receipt: P2PMessageReceipt,
}

/// What a signal carries.
pub enum Signal {
    Message(MessageSignal),
    P2PMessageReceipt(ReceiptSignal),
    P2PPinSignal(PinSignal),
    P2PTypingDetailSignal(TypingSignal),
    ErrorMessage(ErrorMessage),
    ErrorReceipt(ErrorReceipt),
}

/// A signal: its name and what it carries.
pub struct SignalDetails {
    pub name: String,
    pub payload: Signal,
}

/// The answer of another agent's zome to a call: what it returned (read
/// back, which may fail), or why the call failed.
pub enum ZomeCallResponse<T> {
    Returned(Result<T, ZomeError>),
    Unauthorized,
    NetworkError(String),
    CountersigningSession(String),
}

/// Whether `e` is the error that the zome raises when a call was answered by
/// `response` and returned nothing usable: the error of reading the answer
/// back, or the reason for an unauthorized call, a network error or a
/// countersigning session.
pub open spec fn call_failure<T>(response: ZomeCallResponse<T>, e: ZomeError) -> bool {
    match response {
        ZomeCallResponse::Returned(Ok(_)) => false,
        ZomeCallResponse::Returned(Err(e2)) => e == e2,
        ZomeCallResponse::Unauthorized => e matches ZomeError::Guest(s) && s@
            == "Sorry, something went wrong. [Authorization error]"@,
        ZomeCallResponse::NetworkError(_) => e matches ZomeError::Guest(s) && s@
            == "Sorry, something went wrong. [Network error]"@,
        ZomeCallResponse::CountersigningSession(_) => e matches ZomeError::Guest(s) && s@
            == "Sorry, something went wrong. [Countersigning error]"@,
    }
}

/// What another agent's zome returned, or the error that the zome raises
/// when the call failed.
pub fn remote_result<T>(response: ZomeCallResponse<T>) -> (r: Result<T, ZomeError>)
    ensures
        match response {
            ZomeCallResponse::Returned(Ok(x)) => r == Ok::<T, ZomeError>(x),
            _ => r matches Err(e) && call_failure(response, e),
        },
{
    match response {
        ZomeCallResponse::Returned(res) => res,
        ZomeCallResponse::Unauthorized => error("Sorry, something went wrong. [Authorization error]"),
        ZomeCallResponse::NetworkError(_e) => error("Sorry, something went wrong. [Network error]"),
        ZomeCallResponse::CountersigningSession(_e) => error(
            "Sorry, something went wrong. [Countersigning error]",
        ),
    }
}

/// An entry that a zome function commits to its own source chain.
pub enum Commit {
    Message(P2PMessage),
    Receipt(P2PMessageReceipt),
    Pin(P2PMessagePin),
    File(P2PFileBytes),
}

/// The model of a [`Commit`].
pub enum CommitView {
    Message(P2PMessageView),
    Receipt(ReceiptView),
    Pin(PinView),
    File(Seq<u8>),
}

impl View for Commit {
    type V = CommitView;

    open spec fn view(&self) -> CommitView {
        match self {
            Commit::Message(m) => CommitView::Message(m@),
            Commit::Receipt(r) => CommitView::Receipt(r@),
            Commit::Pin(p) => CommitView::Pin(p@),
            Commit::File(f) => CommitView::File(f@),
        }
    }
}

/// The index of the entry type under which a commit is made. The zome
/// declares its entry types in this order: the message ("p2pmessage"), the
/// receipt ("p2pmessagereceipt"), the pin ("p2pmessagepin") and the file
/// bytes ("p2pfilebytes"); each entry is committed under its own type, so
/// that the reads of each type find it. A receipt that arrives from the
/// other agent and a pin that is synced from it are committed under the same
/// indices, 1 and 2, as those written here.
pub open spec fn commit_index(c: CommitView) -> u8 {
    match c {
        CommitView::Message(_) => 0,
        CommitView::Receipt(_) => 1,
        CommitView::Pin(_) => 2,
        CommitView::File(_) => 3,
    }
}

impl Commit {
    /// The index of the entry type under which this entry is committed.
    pub fn entry_index(&self) -> (i: u8)
        ensures
            i == commit_index(self@),
    {
        match self {
            Commit::Message(_) => 0,
            Commit::Receipt(_) => 1,
            Commit::Pin(_) => 2,
            Commit::File(_) => 3,
        }
    }
}

/// The models of the commits `cs`, in order.
pub open spec fn views_of(cs: Seq<Commit>) -> Seq<CommitView> {
    cs.map_values(|c: Commit| c@)
}

/// The commits `commits` followed by the file `file`, if there is one.
pub open spec fn with_file(commits: Seq<CommitView>, file: Option<P2PFileBytes>) -> Seq<CommitView> {
    match file {
        Some(f) => commits.push(CommitView::File(f@)),
        None => commits,
    }
}

/// A call of the function `function` of this zome on the cell of `agent`,
/// with `payload`.
pub struct RemoteCall<T> {
    pub agent: AgentPubKey,
    pub function: String,
    pub payload: T,
}

/// The content of a message built from the sender's payload: the text, or
/// the file's description with `file_hash`, the hash of its bytes.
pub open spec fn payload_of(p: PayloadInput, file_hash: Option<EntryHash>) -> PayloadView {
    match p {
        PayloadInput::Text { payload } => PayloadView::Text { payload },
        PayloadInput::File { metadata, file_type, .. } => PayloadView::File {
            metadata: FileMetadata {
                file_name: metadata.file_name,
                file_size: metadata.file_size,
                file_type: metadata.file_type,
                file_hash: file_hash.unwrap(),
            },
            file_type: file_type@,
        },
    }
}

impl P2PMessage {
    /// The message that `author` sends as `input` says; `file_hash` is the
    /// hash of the bytes of the file it carries, if it carries one.
    pub fn from_input(
        input: MessageWithTimestampInput,
        author: AgentPubKey,
        file_hash: Option<EntryHash>,
    ) -> (m: P2PMessage)
        requires
            input.payload is File ==> file_hash is Some,
        ensures
            m@ == (P2PMessageView {
                author,
                receiver: input.receiver,
                payload: payload_of(input.payload, file_hash),
                time_sent: input.timestamp,
                reply_to: input.reply_to,
            }),
    {
        let payload = match input.payload {
            PayloadInput::Text { payload } => Payload::Text { payload },
            PayloadInput::File { metadata, file_type, file_bytes: _ } => Payload::File {
                metadata: FileMetadata {
                    file_name: metadata.file_name,
                    file_size: metadata.file_size,
                    file_type: metadata.file_type,
                    file_hash: file_hash.unwrap(),
                },
                file_type,
            },
        };
        P2PMessage {
            author,
            receiver: input.receiver,
            payload,
            time_sent: input.timestamp,
            reply_to: input.reply_to,
        }
    }
}

/// The message that `author` sends at `time_sent` as `input` says; `file_hash`
/// is the hash of the bytes of the file it carries, if it carries one.
pub fn message_of_input(
    input: MessageInput,
    author: AgentPubKey,
    time_sent: Timestamp,
    file_hash: Option<EntryHash>,
) -> (m: P2PMessage)
    requires
        input.payload is File ==> file_hash is Some,
    ensures
        m@ == (P2PMessageView {
            author,
            receiver: input.receiver,
            payload: payload_of(input.payload, file_hash),
            time_sent,
            reply_to: input.reply_to,
        }),
{
    P2PMessage::from_input(
        MessageWithTimestampInput {
            receiver: input.receiver,
            payload: input.payload,
            timestamp: time_sent,
            reply_to: input.reply_to,
        },
        author,
        file_hash,
    )
}

/// The file that a payload carries, if any.
pub fn file_of_payload(payload: &PayloadInput) -> (f: Option<P2PFileBytes>)
    ensures
        match payload {
            PayloadInput::Text { .. } => f is None,
            PayloadInput::File { file_bytes, .. } => f matches Some(b) && b@ == file_bytes@,
        },
{
    match payload {
        PayloadInput::Text { .. } => None,
        PayloadInput::File { file_bytes, .. } => Some(P2PFileBytes(copy_bytes(file_bytes))),
    }
}

/// The oldest message among `qs` with hash `r`, shown as the message replied to.
pub open spec fn first_reply(qs: Seq<Result<Hashed<P2PMessage>, ZomeError>>, r: Seq<char>) -> Option<ReplyToView>
    decreases qs.len(),
{
    if qs.len() == 0 {
        None
    } else {
        match qs.first() {
            Ok(x) => if x.hash@ == r {
                Some(reply_to_of(x.hash, x.content@))
            } else {
                first_reply(qs.drop_first(), r)
            },
            Err(_) => first_reply(qs.drop_first(), r),
        }
    }
}

/// The newest message among `qs` with hash `r`, shown as the message replied to.
pub open spec fn last_reply(qs: Seq<Result<Hashed<P2PMessage>, ZomeError>>, r: Seq<char>) -> Option<ReplyToView>
    decreases qs.len(),
{
    if qs.len() == 0 {
        None
    } else {
        match qs.last() {
            Ok(x) => if x.hash@ == r {
                Some(reply_to_of(x.hash, x.content@))
            } else {
                last_reply(qs.drop_last(), r)
            },
            Err(_) => last_reply(qs.drop_last(), r),
        }
    }
}

fn reply_from(x: &Hashed<P2PMessage>) -> (r: P2PMessageReplyTo)
    ensures
        r@ == reply_to_of(x.hash, x.content@),
{
    P2PMessageReplyTo {
        hash: copy_string(&x.hash),
        author: copy_string(&x.content.author),
        receiver: copy_string(&x.content.receiver),
        payload: x.content.payload.clone(),
        time_sent: x.content.time_sent,
        reply_to: None,
    }
}

/// The oldest message among `queried_messages` with hash `reply_to_hash`,
/// shown as the message replied to. Entries that are not messages are passed over.
pub fn find_first_reply(
    queried_messages: &Vec<Result<Hashed<P2PMessage>, ZomeError>>,
    reply_to_hash: &EntryHash,
) -> (r: Option<P2PMessageReplyTo>)
    ensures
        match first_reply(queried_messages@, reply_to_hash@) {
            Some(v) => r matches Some(x) && x@ == v,
            None => r is None,
        },
{
    let n = queried_messages.len();
    let ghost qs = queried_messages@;
    let mut i: usize = 0;
    proof {
        assert(qs.subrange(0, n as int) =~= qs);
    }
    while i < n
        invariant
            n == qs.len(),
            qs == queried_messages@,
            i <= n,
            first_reply(qs, reply_to_hash@) == first_reply(qs.subrange(i as int, n as int), reply_to_hash@),
        decreases n - i,
    {
        proof {
            assert(qs.subrange(i as int, n as int).drop_first() =~= qs.subrange(i + 1, n as int));
            assert(qs.subrange(i as int, n as int).first() == qs[i as int]);
        }
        if let Ok(x) = &queried_messages[i] {
            if x.hash == *reply_to_hash {
                return Some(reply_from(x));
            }
        }
        i = i + 1;
    }
    proof {
        assert(qs.subrange(n as int, n as int).len() == 0);
    }
    None
}

/// The newest message among `queried_messages` with hash `reply_to_hash`,
/// shown as the message replied to. Entries that are not messages are passed over.
pub fn find_last_reply(
    queried_messages: &Vec<Result<Hashed<P2PMessage>, ZomeError>>,
    reply_to_hash: &EntryHash,
) -> (r: Option<P2PMessageReplyTo>)
    ensures
        match last_reply(queried_messages@, reply_to_hash@) {
            Some(v) => r matches Some(x) && x@ == v,
            None => r is None,
        },
{
    let n = queried_messages.len();
    let ghost qs = queried_messages@;
    let mut i: usize = n;
    proof {
        assert(qs.subrange(0, n as int) =~= qs);
    }
    while i > 0
        invariant
            n == qs.len(),
            qs == queried_messages@,
            i <= n,
            last_reply(qs, reply_to_hash@) == last_reply(qs.subrange(0, i as int), reply_to_hash@),
        decreases i,
    {
        proof {
            assert(qs.subrange(0, i as int).drop_last() =~= qs.subrange(0, i - 1));
            assert(qs.subrange(0, i as int).last() == qs[i - 1]);
        }
        i = i - 1;
        if let Ok(x) = &queried_messages[i] {
            if x.hash == *reply_to_hash {
                return Some(reply_from(x));
            }
        }
    }
    proof {
        assert(qs.subrange(0, 0).len() == 0);
    }
    None
}

/// The message `message` shown with the message it replies to, `reply`.
pub fn message_data(message: &P2PMessage, reply: Option<P2PMessageReplyTo>) -> (d: P2PMessageData)
    ensures
        d@ == data_of(
            message@,
            match reply {
                Some(x) => Some(x@),
                None => None,
            },
        ),
{
    P2PMessageData {
        author: copy_string(&message.author),
        receiver: copy_string(&message.receiver),
        payload: message.payload.clone(),
        time_sent: message.time_sent,
        reply_to: reply,
    }
}

/// What the sender of a message does: the entries it commits, in order, the
/// receipt that it gives itself for a message to itself, and what it returns.
/// Sending calls no other agent: the message reaches its receiver once it is
/// committed (see [`post_commit`]).
pub struct SentMessage {
    pub commits: Vec<Commit>,
    pub self_receipt: Option<P2PMessageReceipt>,
    pub result: (EntryHash, P2PMessageData),
}

/// The message that the message `m` replies to, looked up among `qs` oldest first.
pub open spec fn replied_first(m: P2PMessageView, qs: Seq<Result<Hashed<P2PMessage>, ZomeError>>) -> Option<ReplyToView> {
    match m.reply_to {
        Some(t) => first_reply(qs, t@),
        None => None,
    }
}

/// The message that the message `m` replies to, looked up among `qs` newest first.
pub open spec fn replied_last(m: P2PMessageView, qs: Seq<Result<Hashed<P2PMessage>, ZomeError>>) -> Option<ReplyToView> {
    match m.reply_to {
        Some(t) => last_reply(qs, t@),
        None => None,
    }
}

/// Sending the message `message` (with hash `message_hash`) that carries the
/// file `file`, if any: the message is committed, then the file; a message
/// to oneself then gets a receipt that it was read at `read_time`; the
/// message is returned with its hash, shown with the oldest message among
/// `queried_messages` that it replies to.
pub fn send_message_handler(
    message: P2PMessage,
    file: Option<P2PFileBytes>,
    message_hash: EntryHash,
    read_time: Timestamp,
    queried_messages: &Vec<Result<Hashed<P2PMessage>, ZomeError>>,
) -> (r: SentMessage)
    ensures
        views_of(r.commits@) == with_file(seq![CommitView::Message(message@)], file),
        r.self_receipt is Some <==> message@.author@ == message@.receiver@,
        r.self_receipt matches Some(x) ==> x@ == (ReceiptView {
            id: seq![message_hash],
            status: Status::Read { timestamp: read_time },
        }),
        r.result.0 == message_hash,
        r.result.1@ == data_of(message@, replied_first(message@, queried_messages@)),
{
    let self_receipt = if message.author == message.receiver {
        let mut id: Vec<EntryHash> = Vec::new();
        id.push(copy_string(&message_hash));
        proof {
            assert(id@ =~= seq![message_hash]);
        }
        Some(P2PMessageReceipt { id, status: Status::Read { timestamp: read_time } })
    } else {
        None
    };
    let reply = match &message.reply_to {
        Some(reply_to_hash) => find_first_reply(queried_messages, reply_to_hash),
        None => None,
    };
    let data = message_data(&message, reply);
    let mut commits: Vec<Commit> = Vec::new();
    commits.push(Commit::Message(message));
    if let Some(f) = file {
        commits.push(Commit::File(f));
    }
    proof {
        assert(views_of(commits@) =~= with_file(seq![CommitView::Message(message@)], file));
    }
    SentMessage { commits, self_receipt, result: (message_hash, data) }
}

/// The call that sends a message with a given sending time, as `author`:
/// the receiver's `receive_message`, handed the message (with `file_hash`,
/// the hash of the bytes of the file it carries, if any) and the file.
pub fn send_with_timestamp_call(
    input: MessageWithTimestampInput,
    author: AgentPubKey,
    file_hash: Option<EntryHash>,
) -> (r: RemoteCall<ReceiveMessageInput>)
    requires
        input.payload is File ==> file_hash is Some,
    ensures
        r.agent == input.receiver,
        r.function@ == "receive_message"@,
        r.payload.message@ == (P2PMessageView {
            author,
            receiver: input.receiver,
            payload: payload_of(input.payload, file_hash),
            time_sent: input.timestamp,
            reply_to: input.reply_to,
        }),
        match input.payload {
            PayloadInput::Text { .. } => r.payload.file is None,
            PayloadInput::File { file_bytes, .. } => r.payload.file matches Some(b) && b@ == file_bytes@,
        },
{
    let file = file_of_payload(&input.payload);
    let agent = copy_string(&input.receiver);
    let message = P2PMessage::from_input(input, author, file_hash);
    RemoteCall { agent, function: "receive_message".to_owned(), payload: ReceiveMessageInput { message, file } }
}

/// What the sender of a message with a given sending time does once the
/// receiver answered: when the receiver returned a receipt, it commits the
/// message, the receipt and the file, in that order, and goes on with the
/// receipt; when the receiver's answer could not be read back, it commits the
/// message alone and fails with that error; when the call failed, it commits
/// nothing and fails as [`received_receipt_of`] says.
pub fn send_with_timestamp_answer(
    message: P2PMessage,
    file: Option<P2PFileBytes>,
    answer: ZomeCallResponse<P2PMessageReceipt>,
) -> (r: (Vec<Commit>, Result<P2PMessageReceipt, ZomeError>))
    ensures
        match answer {
            ZomeCallResponse::Returned(Ok(x)) => views_of(r.0@) == with_file(
                seq![CommitView::Message(message@), CommitView::Receipt(x@)],
                file,
            ) && r.1 == Ok::<P2PMessageReceipt, ZomeError>(x),
            ZomeCallResponse::Returned(Err(e)) => views_of(r.0@) == seq![CommitView::Message(message@)]
                && r.1 == Err::<P2PMessageReceipt, ZomeError>(e),
            ZomeCallResponse::NetworkError(e) => r.0@.len() == 0 && (r.1 matches Err(ZomeError::Guest(s))
                && s@ == e@),
            _ => r.0@.len() == 0 && (r.1 matches Err(e) && call_failure(answer, e)),
        },
{
    let ghost mv = message@;
    let mut commits: Vec<Commit> = Vec::new();
    match &answer {
        ZomeCallResponse::Returned(Ok(x)) => {
            commits.push(Commit::Message(message));
            commits.push(Commit::Receipt(x.clone()));
            if let Some(f) = file {
                commits.push(Commit::File(f));
            }
            proof {
                assert(views_of(commits@) =~= with_file(
                    seq![CommitView::Message(mv), CommitView::Receipt(x@)],
                    file,
                ));
            }
        },
        ZomeCallResponse::Returned(Err(_)) => {
            commits.push(Commit::Message(message));
            proof {
                assert(views_of(commits@) =~= seq![CommitView::Message(mv)]);
            }
        },
        _ => {},
    }
    (commits, received_receipt_of(answer))
}

/// Sending a message with a given sending time, once its receiver has
/// answered with the receipt `received_receipt` (whose hash is
/// `receipt_hash`) and the message, the receipt and the file are committed:
/// the message is returned with its hash, shown with the newest message among
/// `queried_messages` that it replies to, and the receipt with its hash.
pub fn send_message_with_timestamp_handler(
    message: P2PMessage,
    message_hash: EntryHash,
    received_receipt: P2PMessageReceipt,
    receipt_hash: EntryHash,
    queried_messages: &Vec<Result<Hashed<P2PMessage>, ZomeError>>,
) -> (r: MessageDataAndReceipt)
    ensures
        r.0.0 == message_hash,
        r.0.1@ == data_of(message@, replied_last(message@, queried_messages@)),
        r.1.0 == receipt_hash,
        r.1.1@ == received_receipt@,
{
    let reply = match &message.reply_to {
        Some(reply_to_hash) => find_last_reply(queried_messages, reply_to_hash),
        None => None,
    };
    let data = message_data(&message, reply);
    MessageDataAndReceipt((message_hash, data), (receipt_hash, received_receipt))
}

/// The receiver's answer to a message sent with a given sending time: the
/// receipt it returned, or an error: the error of reading the receipt back,
/// the reason for an unauthorized call or a countersigning session, or, for a
/// network error, its own description.
pub fn received_receipt_of(response: ZomeCallResponse<P2PMessageReceipt>) -> (r: Result<
    P2PMessageReceipt,
    ZomeError,
>)
    ensures
        match response {
            ZomeCallResponse::Returned(Ok(x)) => r == Ok::<P2PMessageReceipt, ZomeError>(x),
            ZomeCallResponse::NetworkError(e) => r matches Err(ZomeError::Guest(s)) && s@ == e@,
            _ => r matches Err(e) && call_failure(response, e),
        },
{
    match response {
        ZomeCallResponse::NetworkError(e) => error(e.as_str()),
        other => remote_result(other),
    }
}

/// The receipt that the receiver of the message with hash `message_hash`
/// gives when the message is delivered at `now`.
pub fn delivered_receipt(message_hash: EntryHash, now: Timestamp) -> (r: P2PMessageReceipt)
    ensures
        r@ == (ReceiptView { id: seq![message_hash], status: Status::Delivered { timestamp: now } }),
{
    let mut id: Vec<EntryHash> = Vec::new();
    id.push(message_hash);
    proof {
        assert(id@ =~= seq![message_hash]);
    }
    P2PMessageReceipt { id, status: Status::Delivered { timestamp: now } }
}

/// What the receiver of a message does: the entries it commits, in order,
/// the signal it emits and the receipt it returns.
pub struct ReceivedMessage {
    pub commits: Vec<Commit>,
    pub signal: SignalDetails,
    pub result: P2PMessageReceipt,
}

/// Receiving a message (whose hash is `message_hash`) at `now`: the receiver
/// commits the message, the receipt that it was delivered at `now` (whose
/// hash is `receipt_hash`) and the file, in that order, then emits a "RECEIVE_P2P_MESSAGE"
/// signal with the message (shown with the message among `queried_messages`
/// that it replies to, the newest if there are several) and the receipt, each
/// with its hash, and returns the receipt.
pub fn receive_message_handler(
    input: ReceiveMessageInput,
    message_hash: EntryHash,
    now: Timestamp,
    receipt_hash: EntryHash,
    queried_messages: &Vec<Result<Hashed<P2PMessage>, ZomeError>>,
) -> (r: ReceivedMessage)
    ensures
        views_of(r.commits@) == with_file(
            seq![CommitView::Message(input.message@), CommitView::Receipt(r.result@)],
            input.file,
        ),
        r.result@ == (ReceiptView { id: seq![message_hash], status: Status::Delivered { timestamp: now } }),
        r.signal.name@ == "RECEIVE_P2P_MESSAGE"@,
        r.signal.payload matches Signal::Message(ms) && {
            &&& ms.message.0.0 == message_hash
            &&& ms.message.0.1@ == data_of(input.message@, replied_last(input.message@, queried_messages@))
            &&& ms.message.1.0 == receipt_hash
            &&& ms.message.1.1@ == r.result@
        },
{
    let receipt = delivered_receipt(copy_string(&message_hash), now);
    let reply = match &input.message.reply_to {
        Some(reply_to_hash) => find_last_reply(queried_messages, reply_to_hash),
        None => None,
    };
    let data = message_data(&input.message, reply);
    let signal = SignalDetails {
        name: "RECEIVE_P2P_MESSAGE".to_owned(),
        payload: Signal::Message(
            MessageSignal {
                message: MessageDataAndReceipt((message_hash, data), (receipt_hash, receipt.clone())),
            },
        ),
    };
    let result = receipt.clone();
    let ghost mv = input.message@;
    let mut commits: Vec<Commit> = Vec::new();
    commits.push(Commit::Message(input.message));
    commits.push(Commit::Receipt(receipt));
    if let Some(f) = input.file {
        commits.push(Commit::File(f));
    }
    proof {
        assert(views_of(commits@) =~= with_file(
            seq![CommitView::Message(mv), CommitView::Receipt(result@)],
            input.file,
        ));
    }
    ReceivedMessage { commits, signal, result }
}

/// The receipt that the reader of messages sends their sender: the messages
/// of `input`, read at its time.
pub fn read_receipt_of(input: ReadMessageInput) -> (r: P2PMessageReceipt)
    ensures
        r@ == (ReceiptView {
            id: input.message_hashes@,
            status: Status::Read { timestamp: input.timestamp },
        }),
{
    P2PMessageReceipt {
        id: input.message_hashes,
        status: Status::Read { timestamp: input.timestamp },
    }
}

/// The call that tells the sender of messages that they were read: the
/// sender's `receive_receipt`, handed the read receipt of `input`.
pub fn read_message_call(input: ReadMessageInput) -> (r: RemoteCall<P2PMessageReceipt>)
    ensures
        r.agent == input.sender,
        r.function@ == "receive_receipt"@,
        r.payload@ == (ReceiptView {
            id: input.message_hashes@,
            status: Status::Read { timestamp: input.timestamp },
        }),
{
    let agent = copy_string(&input.sender);
    RemoteCall { agent, function: "receive_receipt".to_owned(), payload: read_receipt_of(input) }
}

/// What the reader of messages does once the sender has answered: the
/// entries it commits, and the receipts it returns or the error.
pub struct ReadMessages {
    pub commits: Vec<Commit>,
    pub result: Result<Table<P2PMessageReceipt>, ZomeError>,
}

/// Whether the call was answered (whether or not the answer could be read back).
pub open spec fn answered<T>(response: ZomeCallResponse<T>) -> bool {
    response is Returned
}

/// Reading messages, once their sender has answered the read receipt
/// `receipt`: when the sender answered, the reader commits `receipt`; it
/// returns the sender's receipts, or the call's error.
pub fn read_message_handler(
    receipt: P2PMessageReceipt,
    response: ZomeCallResponse<Table<P2PMessageReceipt>>,
) -> (r: ReadMessages)
    ensures
        views_of(r.commits@) == (if answered(response) {
            seq![CommitView::Receipt(receipt@)]
        } else {
            Seq::<CommitView>::empty()
        }),
        match response {
            ZomeCallResponse::Returned(Ok(t)) => r.result == Ok::<Table<P2PMessageReceipt>, ZomeError>(t),
            _ => r.result matches Err(e) && call_failure(response, e),
        },
{
    let ghost rv = receipt@;
    let mut commits: Vec<Commit> = Vec::new();
    if let ZomeCallResponse::Returned(_) = &response {
        commits.push(Commit::Receipt(receipt));
    }
    proof {
        assert(views_of(commits@) =~= (if answered(response) {
            seq![CommitView::Receipt(rv)]
        } else {
            Seq::<CommitView>::empty()
        }));
    }
    ReadMessages { commits, result: remote_result(response) }
}

/// The pin that `input` asks for: its messages and conversants, pinned at its
/// time if its status is "Pinned", else unpinned.
pub fn pin_of_input(input: PinMessageInput) -> (p: P2PMessagePin)
    ensures
        p@ == (PinView {
            id: input.message_hashes@,
            conversants: input.conversants@,
            status: if input.status@ == "Pinned"@ {
                PinStatus::Pinned { timestamp: input.timestamp }
            } else {
                PinStatus::Unpinned { timestamp: input.timestamp }
            },
        }),
{
    let status = if is_kind(&input.status, "Pinned") {
        PinStatus::Pinned { timestamp: input.timestamp }
    } else {
        PinStatus::Unpinned { timestamp: input.timestamp }
    };
    P2PMessagePin { id: input.message_hashes, conversants: input.conversants, status }
}

/// The conversant that `me` shares a pin with: the first of `conversants`
/// unless it is `me`, else the second.
pub fn pin_conversant(conversants: &Vec<AgentPubKey>, me: &AgentPubKey) -> (c: AgentPubKey)
    requires
        conversants@.len() >= 1,
        conversants@[0]@ == me@ ==> conversants@.len() >= 2,
    ensures
        c == if conversants@[0]@ != me@ {
            conversants@[0]
        } else {
            conversants@[1]
        },
{
    if conversants[0] != *me {
        copy_string(&conversants[0])
    } else {
        copy_string(&conversants[1])
    }
}

/// The call that pins messages, as `me`: the conversant's `sync_pins`
/// (see [`pin_conversant`]), handed the pin of `input`.
pub fn pin_message_call(input: PinMessageInput, me: &AgentPubKey) -> (r: RemoteCall<P2PMessagePin>)
    requires
        input.conversants@.len() >= 1,
        input.conversants@[0]@ == me@ ==> input.conversants@.len() >= 2,
    ensures
        r.agent == if input.conversants@[0]@ != me@ {
            input.conversants@[0]
        } else {
            input.conversants@[1]
        },
        r.function@ == "sync_pins"@,
        r.payload@ == (PinView {
            id: input.message_hashes@,
            conversants: input.conversants@,
            status: if input.status@ == "Pinned"@ {
                PinStatus::Pinned { timestamp: input.timestamp }
            } else {
                PinStatus::Unpinned { timestamp: input.timestamp }
            },
        }),
{
    let agent = pin_conversant(&input.conversants, me);
    RemoteCall { agent, function: "sync_pins".to_owned(), payload: pin_of_input(input) }
}

/// What the agent who pins messages does once the conversant has answered:
/// the entries it commits, and the pins it returns or the error.
pub struct PinnedMessages {
    pub commits: Vec<Commit>,
    pub result: Result<Table<P2PMessagePin>, ZomeError>,
}

/// Pinning messages, once the conversant has answered the pin `pin`: when the
/// conversant answered, the pin is committed; the conversant's pins are
/// returned, or the call's error.
pub fn pin_message_handler(
    pin: P2PMessagePin,
    response: ZomeCallResponse<Table<P2PMessagePin>>,
) -> (r: PinnedMessages)
    ensures
        views_of(r.commits@) == (if answered(response) {
            seq![CommitView::Pin(pin@)]
        } else {
            Seq::<CommitView>::empty()
        }),
        match response {
            ZomeCallResponse::Returned(Ok(t)) => r.result == Ok::<Table<P2PMessagePin>, ZomeError>(t),
            _ => r.result matches Err(e) && call_failure(response, e),
        },
{
    let ghost pv = pin@;
    let mut commits: Vec<Commit> = Vec::new();
    if let ZomeCallResponse::Returned(_) = &response {
        commits.push(Commit::Pin(pin));
    }
    proof {
        assert(views_of(commits@) =~= (if answered(response) {
            seq![CommitView::Pin(pv)]
        } else {
            Seq::<CommitView>::empty()
        }));
    }
    PinnedMessages { commits, result: remote_result(response) }
}

/// What an agent does with an entry it was sent and committed: the signal it
/// emits and the table it returns, both with the entry under its hash.
pub struct Acknowledged<V: View> {
    pub signal: SignalDetails,
    pub result: Table<V>,
}

fn single<V: View + Clone>(hash: &EntryHash, v: V) -> (t: Table<V>)
    ensures
        t@ == Map::<Seq<char>, V::V>::empty().insert(hash@, v@),
{
    let mut t = Table::new();
    t.insert(copy_string(hash), v);
    t
}

/// Receiving pins from the conversant: once the pin is committed with hash
/// `pin_hash`, a "SYNC_P2P_PINS" signal carries the pin under its hash, and
/// the same table is returned.
pub fn sync_pins_handler(pin: P2PMessagePin, pin_hash: EntryHash) -> (r: Acknowledged<P2PMessagePin>)
    ensures
        r.signal.name@ == "SYNC_P2P_PINS"@,
        r.signal.payload matches Signal::P2PPinSignal(ps) && ps.pin@ == r.result@,
        r.result@ == Map::<Seq<char>, PinView>::empty().insert(pin_hash@, pin@),
{
    let signal_table = single(&pin_hash, pin.clone());
    let result = single(&pin_hash, pin);
    let signal = SignalDetails {
        name: "SYNC_P2P_PINS".to_owned(),
        payload: Signal::P2PPinSignal(PinSignal { pin: signal_table }),
    };
    Acknowledged { signal, result }
}

/// Receiving a receipt: once it is committed with hash `receipt_hash`, a
/// "RECEIVE_P2P_RECEIPT" signal carries the receipt under its hash, and the
/// same table is returned.
pub fn receive_receipt_handler(receipt: P2PMessageReceipt, receipt_hash: EntryHash) -> (r: Acknowledged<
    P2PMessageReceipt,
>)
    ensures
        r.signal.name@ == "RECEIVE_P2P_RECEIPT"@,
        r.signal.payload matches Signal::P2PMessageReceipt(rs) && rs.receipt@
            == r.result@,
        r.result@ == Map::<Seq<char>, ReceiptView>::empty().insert(receipt_hash@, receipt@),
{
    let signal_table = single(&receipt_hash, receipt.clone());
    let result = single(&receipt_hash, receipt);
    let signal = SignalDetails {
        name: "RECEIVE_P2P_RECEIPT".to_owned(),
        payload: Signal::P2PMessageReceipt(ReceiptSignal { receipt: signal_table }),
    };
    Acknowledged { signal, result }
}

/// Receiving a read receipt; the same as [`receive_receipt_handler`].
pub fn receive_read_receipt_handler(receipt: P2PMessageReceipt, receipt_hash: EntryHash) -> (r: Acknowledged<
    P2PMessageReceipt,
>)
    ensures
        r.signal.name@ == "RECEIVE_P2P_RECEIPT"@,
        r.signal.payload matches Signal::P2PMessageReceipt(rs) && rs.receipt@
            == r.result@,
        r.result@ == Map::<Seq<char>, ReceiptView>::empty().insert(receipt_hash@, receipt@),
{
    receive_receipt_handler(receipt, receipt_hash)
}

/// Telling a conversant that `me` is typing: a "TYPING_P2P" signal with `me`
/// and whether it is typing, sent to the agent of `typing_info` alone.
pub fn typing_handler(typing_info: P2PTypingDetailIO, me: AgentPubKey) -> (r: (SignalDetails, Vec<AgentPubKey>))
    ensures
        r.0.name@ == "TYPING_P2P"@,
        r.0.payload matches Signal::P2PTypingDetailSignal(ts) && ts.agent == me && ts.is_typing
            == typing_info.is_typing,
        r.1@ == seq![typing_info.agent],
{
    let signal = SignalDetails {
        name: "TYPING_P2P".to_owned(),
        payload: Signal::P2PTypingDetailSignal(TypingSignal { agent: me, is_typing: typing_info.is_typing }),
    };
    let mut agents: Vec<AgentPubKey> = Vec::new();
    agents.push(typing_info.agent);
    proof {
        assert(agents@ =~= seq![typing_info.agent]);
    }
    (signal, agents)
}

/// The call that commits a message to its receiver's chain: the receiver's
/// `receive_message`, handed the message and its file.
pub type MessageDelivery = RemoteCall<ReceiveMessageInput>;

/// Committing the message with hash `message_hash` to its receiver's chain,
/// as `me`: the message is the newest on the chain with that hash (an entry
/// that is not a message, read before it, is an error); only its author sends
/// it, to its receiver, with the file it carries (the oldest file on the
/// chain with the file's hash). Otherwise it is an error.
pub fn commit_message_to_receiver_chain_handler(
    message_hash: EntryHash,
    me: &AgentPubKey,
    queried_messages: Vec<Result<Hashed<P2PMessage>, ZomeError>>,
    queried_files: Vec<Result<Hashed<P2PFileBytes>, ZomeError>>,
) -> (r: Result<MessageDelivery, ZomeError>)
    ensures
        match newest_match(queried_messages@, message_hash@) {
            None => r matches Err(ZomeError::Guest(s)) && s@ == "Sorry. Entry not found."@,
            Some(Err(e)) => r == Err::<MessageDelivery, ZomeError>(e),
            Some(Ok(m)) => if m.author@ == me@ {
                match m.payload {
                    Payload::Text { .. } => r matches Ok(d) && d.agent == m.receiver && d.function@ == "receive_message"@
                        && d.payload.message == m && d.payload.file is None,
                    Payload::File { metadata, .. } => match first_match(
                        queried_files@,
                        metadata.file_hash@,
                    ) {
                        Some(f) => r matches Ok(d) && d.agent == m.receiver && d.function@ == "receive_message"@
                            && d.payload.message == m && d.payload.file == Some(f),
                        None => r matches Err(ZomeError::Guest(s)) && s@ == "Sorry. File not found."@,
                    },
                }
            } else {
                r matches Err(ZomeError::Guest(s)) && s@
                    == "Sorry. Was not able to commit the message to receiver's chain. Something went wrong."@
            },
        },
{
    let message = get_message_from_chain(message_hash, queried_messages)?;
    if *me == message.author {
        let file = match &message.payload {
            Payload::Text { .. } => None,
            Payload::File { metadata, .. } => {
                let file_bytes = get_file_from_chain(copy_string(&metadata.file_hash), queried_files)?;
                Some(file_bytes)
            },
        };
        let receiver = copy_string(&message.receiver);
        return Ok(RemoteCall {
            agent: receiver,
            function: "receive_message".to_owned(),
            payload: ReceiveMessageInput { message, file },
        });
    }
    error("Sorry. Was not able to commit the message to receiver's chain. Something went wrong.")
}

/// The call that commits a receipt to its sender's chain: the sender's
/// `receive_receipt`, handed the receipt.
pub type ReceiptDelivery = RemoteCall<P2PMessageReceipt>;

/// Committing the receipt with hash `receipt_hash` to the sender's chain, as
/// `me`: the receipt is the oldest on the chain with that hash; if it says
/// its messages were delivered, the message it speaks of first is the newest
/// on the chain with that hash (an entry that is not a message, read before
/// it, is an error), and if `me` received it, the receipt is sent to the
/// message's author. Otherwise it is an error.
pub fn commit_receipt_to_sender_chain_handler(
    receipt_hash: EntryHash,
    me: &AgentPubKey,
    queried_receipts: Vec<Result<Hashed<P2PMessageReceipt>, ZomeError>>,
    queried_messages: Vec<Result<Hashed<P2PMessage>, ZomeError>>,
) -> (r: Result<ReceiptDelivery, ZomeError>)
    requires
        first_match(queried_receipts@, receipt_hash@) matches Some(x) ==> (x.status is Delivered
            ==> x.id@.len() > 0),
    ensures
        match first_match(queried_receipts@, receipt_hash@) {
            None => r matches Err(ZomeError::Guest(s)) && s@ == "Sorry. Receipt not found."@,
            Some(x) => if x.status is Delivered {
                match newest_match(queried_messages@, x.id@[0]@) {
                    None => r matches Err(ZomeError::Guest(s)) && s@ == "Sorry. Entry not found."@,
                    Some(Err(e)) => r == Err::<ReceiptDelivery, ZomeError>(e),
                    Some(Ok(m)) => if m.receiver@ == me@ {
                        r matches Ok(d) && d.agent == m.author && d.function@ == "receive_receipt"@ && d.payload == x
                    } else {
                        r matches Err(ZomeError::Guest(s)) && s@
                            == "Sorry. Was not able to commit the delivered receipt to the sender's chain. Something went wrong."@
                    },
                }
            } else {
                r matches Err(ZomeError::Guest(s)) && s@
                    == "Sorry. Was not able to commit the delivered receipt to the sender's chain. Something went wrong."@
            },
        },
{
    let receipt = get_receipt_from_chain(receipt_hash, queried_receipts)?;
    if let Status::Delivered { .. } = receipt.status {
        let message = get_message_from_chain(copy_string(&receipt.id[0]), queried_messages)?;
        if message.receiver == *me {
            return Ok(RemoteCall { agent: message.author, function: "receive_receipt".to_owned(), payload: receipt });
        }
    }
    error(
        "Sorry. Was not able to commit the delivered receipt to the sender's chain. Something went wrong.",
    )
}

/// What a commit on the chain is: the creation of an entry (with the index of
/// its entry type when it is an entry of the zome, and its hash), or another action.
pub enum CommittedAction {
    Create { app_entry_index: Option<u8>, entry_hash: EntryHash },
    Other,
}

/// What is done after a commit: commit a message to its receiver's chain, or
/// a receipt to its sender's chain.
pub enum PostCommitTask {
    CommitMessage(EntryHash),
    CommitReceipt(EntryHash),
}

/// The tasks after the commits `actions`, taken in order: a created message
/// (entry type 0) is committed to its receiver's chain, and a message to
/// oneself ends the tasks; a created receipt (entry type 1) is committed to
/// its sender's chain; other actions ask nothing. None when a created message
/// is not found on the chain (`messages`).
pub open spec fn post_commit_plan(
    actions: Seq<CommittedAction>,
    messages: Seq<Result<Hashed<P2PMessage>, ZomeError>>,
) -> Option<Seq<PostCommitTask>>
    decreases actions.len(),
{
    if actions.len() == 0 {
        Some(Seq::empty())
    } else {
        match actions.first() {
            CommittedAction::Create { app_entry_index: Some(index), entry_hash } => if index == 0 {
                match newest_match(messages, entry_hash@) {
                    Some(Ok(m)) => if m.author@ == m.receiver@ {
                        Some(Seq::empty())
                    } else {
                        match post_commit_plan(actions.drop_first(), messages) {
                            Some(t) => Some(seq![PostCommitTask::CommitMessage(entry_hash)] + t),
                            None => None,
                        }
                    },
                    _ => None,
                }
            } else if index == 1 {
                match post_commit_plan(actions.drop_first(), messages) {
                    Some(t) => Some(seq![PostCommitTask::CommitReceipt(entry_hash)] + t),
                    None => None,
                }
            } else {
                post_commit_plan(actions.drop_first(), messages)
            },
            _ => post_commit_plan(actions.drop_first(), messages),
        }
    }
}

/// The index of the entry of `qs` that decides [`newest_match`]: the newest
/// entry that has hash `h` or could not be read.
fn newest_index(qs: &Vec<Result<Hashed<P2PMessage>, ZomeError>>, h: &EntryHash) -> (r: Option<usize>)
    ensures
        match r {
            None => newest_match(qs@, h@) is None,
            Some(j) => j < qs@.len() && match qs@[j as int] {
                Ok(x) => newest_match(qs@, h@) == Some(Ok::<P2PMessage, ZomeError>(x.content)),
                Err(e) => newest_match(qs@, h@) == Some(Err::<P2PMessage, ZomeError>(e)),
            },
        },
{
    let n = qs.len();
    let mut i: usize = n;
    proof {
        assert(qs@.subrange(0, n as int) =~= qs@);
    }
    while i > 0
        invariant
            n == qs@.len(),
            i <= n,
            newest_match(qs@, h@) == newest_match(qs@.subrange(0, i as int), h@),
        decreases i,
    {
        proof {
            assert(qs@.subrange(0, i as int).drop_last() =~= qs@.subrange(0, i - 1));
            assert(qs@.subrange(0, i as int).last() == qs@[i - 1]);
        }
        i = i - 1;
        match &qs[i] {
            Ok(x) => {
                if x.hash == *h {
                    return Some(i);
                }
            },
            Err(_) => {
                return Some(i);
            },
        }
    }
    proof {
        assert(qs@.subrange(0, 0).len() == 0);
    }
    None
}

/// Whether [`post_commit`] can be asked for the commits `actions`: whether
/// each created message that the tasks reach is on the chain.
pub fn post_commit_ready(
    actions: &Vec<CommittedAction>,
    queried_messages: &Vec<Result<Hashed<P2PMessage>, ZomeError>>,
) -> (b: bool)
    ensures
        b == post_commit_plan(actions@, queried_messages@) is Some,
{
    let n = actions.len();
    let mut i: usize = 0;
    let ghost all = actions@;
    let ghost qs = queried_messages@;
    proof {
        assert(all.subrange(0, n as int) =~= all);
    }
    while i < n
        invariant
            n == all.len(),
            all == actions@,
            qs == queried_messages@,
            i <= n,
            post_commit_plan(all, qs) is Some <==> post_commit_plan(all.subrange(i as int, n as int), qs) is Some,
        decreases n - i,
    {
        let ghost rest = all.subrange(i as int, n as int);
        proof {
            assert(rest.drop_first() =~= all.subrange(i + 1, n as int));
            assert(rest.first() == all[i as int]);
        }
        match &actions[i] {
            CommittedAction::Create { app_entry_index: Some(index), entry_hash } => {
                if *index == 0 {
                    match newest_index(queried_messages, entry_hash) {
                        Some(j) => {
                            match &queried_messages[j] {
                                Ok(x) => {
                                    if x.content.author == x.content.receiver {
                                        return true;
                                    }
                                },
                                Err(_) => {
                                    return false;
                                },
                            }
                        },
                        None => {
                            return false;
                        },
                    }
                }
            },
            _ => {},
        }
        i = i + 1;
    }
    proof {
        assert(all.subrange(n as int, n as int).len() == 0);
    }
    true
}

/// What is done after the commits `actions`: the tasks of [`post_commit_plan`].
pub fn post_commit(
    actions: &Vec<CommittedAction>,
    queried_messages: &Vec<Result<Hashed<P2PMessage>, ZomeError>>,
) -> (r: Vec<PostCommitTask>)
    requires
        post_commit_plan(actions@, queried_messages@) is Some,
    ensures
        post_commit_plan(actions@, queried_messages@) == Some(r@),
{
    let mut tasks: Vec<PostCommitTask> = Vec::new();
    let n = actions.len();
    let mut i: usize = 0;
    let ghost all = actions@;
    let ghost qs = queried_messages@;
    proof {
        assert(all.subrange(0, n as int) =~= all);
        assert(tasks@ + post_commit_plan(all, qs).unwrap() =~= post_commit_plan(all, qs).unwrap());
    }
    while i < n
        invariant
            n == all.len(),
            all == actions@,
            qs == queried_messages@,
            i <= n,
            post_commit_plan(all.subrange(i as int, n as int), qs) is Some,
            post_commit_plan(all, qs) == Some(
                tasks@ + post_commit_plan(all.subrange(i as int, n as int), qs).unwrap(),
            ),
        decreases n - i,
    {
        let ghost rest = all.subrange(i as int, n as int);
        proof {
            assert(rest.drop_first() =~= all.subrange(i + 1, n as int));
            assert(rest.first() == all[i as int]);
        }
        match &actions[i] {
            CommittedAction::Create { app_entry_index: Some(index), entry_hash } => {
                if *index == 0 {
                    match newest_index(queried_messages, entry_hash) {
                        Some(j) => {
                            match &queried_messages[j] {
                                Ok(x) => {
                                    if x.content.author == x.content.receiver {
                                        proof {
                                            assert(tasks@ + Seq::<PostCommitTask>::empty() =~= tasks@);
                                        }
                                        return tasks;
                                    }
                                },
                                Err(_) => {},
                            }
                        },
                        None => {},
                    }
                    let ghost before = tasks@;
                    tasks.push(PostCommitTask::CommitMessage(copy_string(entry_hash)));
                    proof {
                        let t = post_commit_plan(all.subrange(i + 1, n as int), qs).unwrap();
                        assert(before + (seq![PostCommitTask::CommitMessage(*entry_hash)] + t) =~= tasks@ + t);
                    }
                } else if *index == 1 {
                    let ghost before = tasks@;
                    tasks.push(PostCommitTask::CommitReceipt(copy_string(entry_hash)));
                    proof {
                        let t = post_commit_plan(all.subrange(i + 1, n as int), qs).unwrap();
                        assert(before + (seq![PostCommitTask::CommitReceipt(*entry_hash)] + t) =~= tasks@ + t);
                    }
                }
            },
            _ => {},
        }
        i = i + 1;
    }
    proof {
        assert(all.subrange(n as int, n as int).len() == 0);
        assert(tasks@ + Seq::<PostCommitTask>::empty() =~= tasks@);
    }
    tasks
}

/// Who may call a function of the zome without a capability secret.
#[derive(Clone, Copy, Debug, PartialEq, Eq, Structural)]
pub enum CapAccess {
    Unrestricted,
}

/// A capability grant: its tag, who may call, and the functions (zome name
/// and function name) it covers.
pub struct CapGrantEntry {
    pub tag: String,
    pub access: CapAccess,
    pub functions: Vec<(String, String)>,
}

/// The functions that the zome opens to every agent, in the order in which
/// they are granted.
pub open spec fn granted_functions() -> Seq<Seq<char>> {
    seq![
        "receive_message"@,
        "receive_receipt"@,
        "typing"@,
        "recv_remote_signal"@,
        "post_commit"@,
        "sync_pins"@,
    ]
}

fn grant(zome_name: &String, function_name: &str) -> (g: CapGrantEntry)
    ensures
        g.tag@ == function_name@,
        g.access == CapAccess::Unrestricted,
        g.functions@.len() == 1,
        g.functions@[0].0 == *zome_name,
        g.functions@[0].1@ == function_name@,
{
    let mut functions: Vec<(String, String)> = Vec::new();
    functions.push((copy_string(zome_name), function_name.to_owned()));
    CapGrantEntry { tag: function_name.to_owned(), access: CapAccess::Unrestricted, functions }
}

/// The capability grants that the zome creates when it starts: one
/// unrestricted grant for each function of [`granted_functions`], tagged
/// with the function's name and covering that function of the zome `zome_name`.
pub fn init_handler(zome_name: &String) -> (r: Vec<CapGrantEntry>)
    ensures
        r@.len() == granted_functions().len(),
        forall|i: int|
            0 <= i < r@.len() ==> {
                &&& (#[trigger] r@[i]).tag@ == granted_functions()[i]
                &&& r@[i].access == CapAccess::Unrestricted
                &&& r@[i].functions@.len() == 1
                &&& r@[i].functions@[0].0 == *zome_name
                &&& r@[i].functions@[0].1@ == granted_functions()[i]
            },
{
    let mut grants: Vec<CapGrantEntry> = Vec::new();
    grants.push(grant(zome_name, "receive_message"));
    grants.push(grant(zome_name, "receive_receipt"));
    grants.push(grant(zome_name, "typing"));
    grants.push(grant(zome_name, "recv_remote_signal"));
    grants.push(grant(zome_name, "post_commit"));
    grants.push(grant(zome_name, "sync_pins"));
    grants
}

} // verus!
