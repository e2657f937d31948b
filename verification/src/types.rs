//! The data model: the entries that the zome commits (messages, receipts,
//! pins, file bytes), the inputs that its callers send, and the structures it
//! hands back. Hashes and agent keys are held by their printed form, which is
//! also the key under which the zome's tables list them.

use vstd::prelude::*;
use vstd::string::StringExecFns;

verus! {

/// The printed form of an entry hash.
pub type EntryHash = String;

/// The printed form of an agent's public key.
pub type AgentPubKey = String;

/// A point in time, in microseconds since the UNIX epoch.
#[derive(Clone, Copy, Debug, PartialEq, Eq, Structural)]
pub struct Timestamp(pub i64);

/// Whole seconds of `micros` microseconds, rounded toward zero.
pub open spec fn seconds_of(micros: int) -> int {
    if micros >= 0 {
        micros / 1_000_000
    } else {
        -((-micros) / 1_000_000)
    }
}

/// What is left of `micros` microseconds after the whole seconds, with the sign of `micros`.
pub open spec fn sub_second_micros_of(micros: int) -> int {
    micros - seconds_of(micros) * 1_000_000
}

impl Timestamp {
    /// Microseconds since the epoch.
    pub fn as_micros(&self) -> (m: i64)
        ensures
            m == self.0,
    {
        self.0
    }

    /// Whole seconds (rounded toward zero) and the nanoseconds that remain.
    pub fn as_seconds_and_nanos(&self) -> (r: (i64, u32))
        ensures
            r.0 == seconds_of(self.0 as int),
            r.1 == (sub_second_micros_of(self.0 as int) * 1000) as u32,
    {
        let secs = self.0.checked_div(1_000_000).unwrap();
        let rest = self.0.checked_rem(1_000_000).unwrap();
        proof {
            let x = self.0 as int;
            if x < 0 {
                assert((-x) / 1_000_000 * 1_000_000 + (-x) % 1_000_000 == -x);
            } else {
                assert(x / 1_000_000 * 1_000_000 + x % 1_000_000 == x);
            }
        }
        let nanos = #[verifier::truncate] ((rest * 1000) as u32);
        (secs, nanos)
    }
}

/// Whether a message was sent, delivered or read, and when.
#[derive(Clone, Copy, Debug, PartialEq, Eq, Structural)]
pub enum Status {
    Sent { timestamp: Timestamp },
    Delivered { timestamp: Timestamp },
    Read { timestamp: Timestamp },
}

/// Whether messages were pinned or unpinned, and when.
#[derive(Clone, Copy, Debug, PartialEq, Eq, Structural)]
pub enum PinStatus {
    Pinned { timestamp: Timestamp },
    Unpinned { timestamp: Timestamp },
}

/// The kind of a file, with the thumbnail of a picture or a video.
#[derive(Debug)]
pub enum FileType {
    Image { thumbnail: Vec<u8> },
    Video { thumbnail: Vec<u8> },
    Other,
}

/// The model of a [`FileType`].
pub enum FileTypeView {
    Image { thumbnail: Seq<u8> },
    Video { thumbnail: Seq<u8> },
    Other,
}

impl View for FileType {
    type V = FileTypeView;

    open spec fn view(&self) -> FileTypeView {
        match self {
            FileType::Image { thumbnail } => FileTypeView::Image { thumbnail: thumbnail@ },
            FileType::Video { thumbnail } => FileTypeView::Video { thumbnail: thumbnail@ },
            FileType::Other => FileTypeView::Other,
        }
    }
}

/// A copy of a byte string.
pub fn copy_bytes(b: &Vec<u8>) -> (r: Vec<u8>)
    ensures
        r@ == b@,
{
    let r = b.clone();
    proof {
        assert(r@ =~= b@);
    }
    r
}

impl Clone for FileType {
    fn clone(&self) -> (r: Self)
        ensures
            r@ == self@,
    {
        match self {
            FileType::Image { thumbnail } => FileType::Image { thumbnail: copy_bytes(thumbnail) },
            FileType::Video { thumbnail } => FileType::Video { thumbnail: copy_bytes(thumbnail) },
            FileType::Other => FileType::Other,
        }
    }
}

/// A copy of a string.
pub fn copy_string(s: &String) -> (r: String)
    ensures
        r == *s,
{
    s.clone()
}

/// A copy of a list of strings.
pub fn copy_strings(v: &Vec<String>) -> (r: Vec<String>)
    ensures
        r@ == v@,
{
    let r = v.clone();
    proof {
        assert(r@ =~= v@);
    }
    r
}

/// A copy of an optional string.
pub fn copy_opt_string(s: &Option<String>) -> (r: Option<String>)
    ensures
        r == *s,
{
    match s {
        Some(x) => Some(x.clone()),
        None => None,
    }
}

/// What the sender says of a file: its name, size and type.
#[derive(Debug)]
pub struct FileMetadataInput {
    pub file_name: String,
    pub file_size: usize,
    pub file_type: String,
}

/// What a message says of the file it carries, with the hash of the file's bytes.
#[derive(Debug)]
pub struct FileMetadata {
    pub file_name: String,
    pub file_size: usize,
    pub file_type: String,
    pub file_hash: EntryHash,
}

impl Clone for FileMetadata {
    fn clone(&self) -> (r: Self)
        ensures
            r == *self,
    {
        FileMetadata {
            file_name: copy_string(&self.file_name),
            file_size: self.file_size,
            file_type: copy_string(&self.file_type),
            file_hash: copy_string(&self.file_hash),
        }
    }
}

/// The content of a message as its sender gives it: text, or a file with its bytes.
#[derive(Debug)]
pub enum PayloadInput {
    Text { payload: String },
    File { metadata: FileMetadataInput, file_type: FileType, file_bytes: Vec<u8> },
}

/// The content of a message: text, or the description of a file.
#[derive(Debug)]
pub enum Payload {
    Text { payload: String },
    File { metadata: FileMetadata, file_type: FileType },
}

/// The model of a [`Payload`].
pub enum PayloadView {
    Text { payload: String },
    File { metadata: FileMetadata, file_type: FileTypeView },
}

impl View for Payload {
    type V = PayloadView;

    open spec fn view(&self) -> PayloadView {
        match self {
            Payload::Text { payload } => PayloadView::Text { payload: *payload },
            Payload::File { metadata, file_type } => PayloadView::File {
                metadata: *metadata,
                file_type: file_type@,
            },
        }
    }
}

impl Clone for Payload {
    fn clone(&self) -> (r: Self)
        ensures
            r@ == self@,
    {
        match self {
            Payload::Text { payload } => Payload::Text { payload: copy_string(payload) },
            Payload::File { metadata, file_type } => Payload::File {
                metadata: metadata.clone(),
                file_type: file_type.clone(),
            },
        }
    }
}

/// The kinds of content that a caller may ask for.
#[derive(Clone, Copy, Debug, PartialEq, Eq, Structural)]
pub enum PayloadType {
    Text,
    File,
    Media,
    All,
}

/// A message between two agents, as it is committed to both their chains.
#[derive(Debug)]
pub struct P2PMessage {
    pub author: AgentPubKey,
    pub receiver: AgentPubKey,
    pub payload: Payload,
    pub time_sent: Timestamp,
    pub reply_to: Option<EntryHash>,
}

/// The model of a [`P2PMessage`].
pub struct P2PMessageView {
    pub author: AgentPubKey,
    pub receiver: AgentPubKey,
    pub payload: PayloadView,
    pub time_sent: Timestamp,
    pub reply_to: Option<EntryHash>,
}

impl View for P2PMessage {
    type V = P2PMessageView;

    open spec fn view(&self) -> P2PMessageView {
        P2PMessageView {
            author: self.author,
            receiver: self.receiver,
            payload: self.payload@,
            time_sent: self.time_sent,
            reply_to: self.reply_to,
        }
    }
}

impl Clone for P2PMessage {
    fn clone(&self) -> (r: Self)
        ensures
            r@ == self@,
    {
        P2PMessage {
            author: copy_string(&self.author),
            receiver: copy_string(&self.receiver),
            payload: self.payload.clone(),
            time_sent: self.time_sent,
            reply_to: copy_opt_string(&self.reply_to),
        }
    }
}

/// A receipt: the messages it speaks of, and their status.
#[derive(Debug)]
pub struct P2PMessageReceipt {
    pub id: Vec<EntryHash>,
    pub status: Status,
}

/// The model of a [`P2PMessageReceipt`].
pub struct ReceiptView {
    pub id: Seq<EntryHash>,
    pub status: Status,
}

impl View for P2PMessageReceipt {
    type V = ReceiptView;

    open spec fn view(&self) -> ReceiptView {
        ReceiptView { id: self.id@, status: self.status }
    }
}

impl Clone for P2PMessageReceipt {
    fn clone(&self) -> (r: Self)
        ensures
            r@ == self@,
    {
        P2PMessageReceipt { id: copy_strings(&self.id), status: self.status }
    }
}

/// A pin: the messages it speaks of, the two conversants, and whether the
/// messages were pinned or unpinned.
#[derive(Debug)]
pub struct P2PMessagePin {
    pub id: Vec<EntryHash>,
    pub conversants: Vec<AgentPubKey>,
    pub status: PinStatus,
}

/// The model of a [`P2PMessagePin`].
pub struct PinView {
    pub id: Seq<EntryHash>,
    pub conversants: Seq<AgentPubKey>,
    pub status: PinStatus,
}

impl View for P2PMessagePin {
    type V = PinView;

    open spec fn view(&self) -> PinView {
        PinView { id: self.id@, conversants: self.conversants@, status: self.status }
    }
}

impl Clone for P2PMessagePin {
    fn clone(&self) -> (r: Self)
        ensures
            r@ == self@,
    {
        P2PMessagePin {
            id: copy_strings(&self.id),
            conversants: copy_strings(&self.conversants),
            status: self.status,
        }
    }
}

/// The bytes of a file sent in a message.
#[derive(Debug)]
pub struct P2PFileBytes(pub Vec<u8>);

impl View for P2PFileBytes {
    type V = Seq<u8>;

    open spec fn view(&self) -> Seq<u8> {
        self.0@
    }
}

impl Clone for P2PFileBytes {
    fn clone(&self) -> (r: Self)
        ensures
            r@ == self@,
    {
        P2PFileBytes(copy_bytes(&self.0))
    }
}

/// The message that another message replies to, as it is shown with the reply.
#[derive(Debug)]
pub struct P2PMessageReplyTo {
    pub hash: EntryHash,
    pub author: AgentPubKey,
    pub receiver: AgentPubKey,
    pub payload: Payload,
    pub time_sent: Timestamp,
    pub reply_to: Option<EntryHash>,
}

/// The model of a [`P2PMessageReplyTo`].
pub struct ReplyToView {
    pub hash: EntryHash,
    pub author: AgentPubKey,
    pub receiver: AgentPubKey,
    pub payload: PayloadView,
    pub time_sent: Timestamp,
    pub reply_to: Option<EntryHash>,
}

impl View for P2PMessageReplyTo {
    type V = ReplyToView;

    open spec fn view(&self) -> ReplyToView {
        ReplyToView {
            hash: self.hash,
            author: self.author,
            receiver: self.receiver,
            payload: self.payload@,
            time_sent: self.time_sent,
            reply_to: self.reply_to,
        }
    }
}

impl Clone for P2PMessageReplyTo {
    fn clone(&self) -> (r: Self)
        ensures
            r@ == self@,
    {
        P2PMessageReplyTo {
            hash: copy_string(&self.hash),
            author: copy_string(&self.author),
            receiver: copy_string(&self.receiver),
            payload: self.payload.clone(),
            time_sent: self.time_sent,
            reply_to: copy_opt_string(&self.reply_to),
        }
    }
}

/// A message as the zome shows it: its content, with the message it replies to.
#[derive(Debug)]
pub struct P2PMessageData {
    pub author: AgentPubKey,
    pub receiver: AgentPubKey,
    pub payload: Payload,
    pub time_sent: Timestamp,
    pub reply_to: Option<P2PMessageReplyTo>,
}

/// The model of a [`P2PMessageData`].
pub struct MessageDataView {
    pub author: AgentPubKey,
    pub receiver: AgentPubKey,
    pub payload: PayloadView,
    pub time_sent: Timestamp,
    pub reply_to: Option<ReplyToView>,
}

impl View for P2PMessageData {
    type V = MessageDataView;

    open spec fn view(&self) -> MessageDataView {
        MessageDataView {
            author: self.author,
            receiver: self.receiver,
            payload: self.payload@,
            time_sent: self.time_sent,
            reply_to: match self.reply_to {
                Some(r) => Some(r@),
                None => None,
            },
        }
    }
}

/// How the message `m` with hash `hash` is shown when another message replies to it.
pub open spec fn reply_to_of(hash: EntryHash, m: P2PMessageView) -> ReplyToView {
    ReplyToView {
        hash,
        author: m.author,
        receiver: m.receiver,
        payload: m.payload,
        time_sent: m.time_sent,
        reply_to: None,
    }
}

/// How the message `m` is shown, with the message it replies to, if it is known.
pub open spec fn data_of(m: P2PMessageView, reply: Option<ReplyToView>) -> MessageDataView {
    MessageDataView {
        author: m.author,
        receiver: m.receiver,
        payload: m.payload,
        time_sent: m.time_sent,
        reply_to: reply,
    }
}

/// A message to send: to whom, what, and the message it replies to.
#[derive(Debug)]
pub struct MessageInput {
    pub receiver: AgentPubKey,
    pub payload: PayloadInput,
    pub reply_to: Option<EntryHash>,
}

/// A message to send with the time to record as its sending time.
#[derive(Debug)]
pub struct MessageWithTimestampInput {
    pub receiver: AgentPubKey,
    pub payload: PayloadInput,
    pub timestamp: Timestamp,
    pub reply_to: Option<EntryHash>,
}

/// Messages read by their receiver: which, whose, and when.
#[derive(Debug)]
pub struct ReadMessageInput {
    pub message_hashes: Vec<EntryHash>,
    pub sender: AgentPubKey,
    pub timestamp: Timestamp,
}

/// Messages to pin or unpin ("Pinned" pins, anything else unpins) between two conversants.
#[derive(Debug)]
pub struct PinMessageInput {
    pub message_hashes: Vec<EntryHash>,
    pub conversants: Vec<AgentPubKey>,
    pub status: String,
    pub timestamp: Timestamp,
}

/// A message to commit to its receiver's chain.
#[derive(Debug)]
pub struct CommitMessageInput {
    pub message_hash: EntryHash,
    pub message: Option<P2PMessage>,
}

/// A receipt to commit to its sender's chain.
#[derive(Debug)]
pub struct CommitReceiptInput {
    pub receipt_hash: Option<EntryHash>,
    pub message: Option<P2PMessageReceipt>,
}

/// What the receiver of a message is sent: the message, with the file it carries.
#[derive(Debug)]
pub struct ReceiveMessageInput {
    pub message: P2PMessage,
    pub file: Option<P2PFileBytes>,
}

/// A receipt, with the agent who received the messages it speaks of.
#[derive(Debug)]
pub struct ReceiveReceiptInput {
    pub receipt: P2PMessageReceipt,
    pub receiver: AgentPubKey,
}

/// Whether an agent is typing.
#[derive(Debug)]
pub struct P2PTypingDetailIO {
    pub agent: AgentPubKey,
    pub is_typing: bool,
}

/// Which messages of one day to read: those exchanged with `conversant` on
/// the day that starts at `date`, of the kind `payload_type` ("Text", "File"
/// or "All").
#[derive(Debug)]
pub struct P2PMessageFilterAgentTimestamp {
    pub conversant: AgentPubKey,
    pub date: Timestamp,
    pub payload_type: String,
}

/// Which batch of messages to read: at most `batch_size` messages exchanged
/// with `conversant`, of the kind `payload_type` ("Text", "Media", "Other",
/// "File" or "All"), next to the last message fetched.
#[derive(Debug)]
pub struct P2PMessageFilterBatch {
    pub conversant: AgentPubKey,
    pub batch_size: u8,
    pub payload_type: String,
    pub last_fetched_timestamp: Option<Timestamp>,
    pub last_fetched_message_id: Option<EntryHash>,
}

/// Whether `kind` is `name`.
pub fn is_kind(kind: &String, name: &str) -> (b: bool)
    ensures
        b == (kind@ == name@),
{
    let other: String = name.to_owned();
    *kind == other
}

/// Whether `v` holds `s`.
pub fn contains_string(v: &Vec<String>, s: &String) -> (b: bool)
    ensures
        b == exists|i: int| 0 <= i < v@.len() && #[trigger] v@[i]@ == s@,
{
    let n = v.len();
    let mut i: usize = 0;
    while i < n
        invariant
            n == v@.len(),
            i <= n,
            forall|j: int| 0 <= j < i ==> v@[j]@ != s@,
        decreases n - i,
    {
        if v[i] == *s {
            return true;
        }
        i = i + 1;
    }
    false
}

/// An entry read back from the source chain, with its hash.
#[derive(Debug)]
pub struct Hashed<T> {
    pub hash: EntryHash,
    pub content: T,
}

impl Clone for ZomeError {
    fn clone(&self) -> (r: Self)
        ensures
            r == *self,
    {
        match self {
            ZomeError::Guest(s) => ZomeError::Guest(copy_string(s)),
            ZomeError::Host(s) => ZomeError::Host(copy_string(s)),
        }
    }
}

/// An error that a zome function returns.
#[derive(Debug)]
pub enum ZomeError {
    /// An error that the zome raises itself, with its reason.
    Guest(String),
    /// An error raised outside the zome (by the host or in a conversion),
    /// with its description.
    Host(String),
}

/// Fails with `reason`.
pub fn error<T>(reason: &str) -> (r: Result<T, ZomeError>)
    ensures
        r matches Err(ZomeError::Guest(s)) && s@ == reason@,
{
    Err(ZomeError::Guest(reason.to_owned()))
}

/// The reason that [`err`] gives: `{"code": "<code>", "message": "<message>"}`.
pub open spec fn coded_reason(code: Seq<char>, message: Seq<char>) -> Seq<char> {
    "{\"code\": \""@ + code + "\", \"message\": \""@ + message + "\"}"@
}

/// Fails with a reason that carries an error code and a message.
pub fn err<T>(code: &str, message: &str) -> (r: Result<T, ZomeError>)
    ensures
        r matches Err(ZomeError::Guest(s)) && s@ == coded_reason(code@, message@),
{
    let mut s = "{\"code\": \"".to_owned();
    s.append(code);
    s.append("\", \"message\": \"");
    s.append(message);
    s.append("\"}");
    Err(ZomeError::Guest(s))
}

/// Fails with a reason that carries an error code and a message; the same as [`err`].
pub fn _err<T>(code: &str, message: &str) -> (r: Result<T, ZomeError>)
    ensures
        r matches Err(ZomeError::Guest(s)) && s@ == coded_reason(code@, message@),
{
    err(code, message)
}

} // verus!
