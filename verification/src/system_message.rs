//! System messages: notifications that one agent announces to another.

use vstd::prelude::*;

use crate::helpers::first_match;
use crate::table::Table;
use crate::types::{copy_string, error, AgentPubKey, EntryHash, Hashed, ZomeError};
use crate::zome::{RemoteCall, call_failure, remote_result, ErrorMessage, ErrorReceipt, PinSignal, ReceiptSignal, TypingSignal, ZomeCallResponse};

verus! {

/// A notification from one agent to another.
#[derive(Debug)]
pub struct SystemMessage {
    pub author: AgentPubKey,
    pub receiver: AgentPubKey,
    pub message: String,
}

impl View for SystemMessage {
    type V = SystemMessage;

    open spec fn view(&self) -> SystemMessage {
        *self
    }
}

impl Clone for SystemMessage {
    fn clone(&self) -> (r: Self)
        ensures
            r == *self,
    {
        SystemMessage {
            author: copy_string(&self.author),
            receiver: copy_string(&self.receiver),
            message: copy_string(&self.message),
        }
    }
}

/// A notification to announce: to whom, and what.
#[derive(Debug)]
pub struct NotificationInput {
    pub receiver: AgentPubKey,
    pub message: String,
}

/// The signal that a notification was received.
pub struct SystemMessageSignal {
    pub message: SystemMessage,
}

/// What a signal about notifications carries.
pub enum Signal {
    SystemMessage(SystemMessageSignal),
    P2PTypingDetailSignal(TypingSignal),
    P2PMessageReceipt(ReceiptSignal),
    P2PPinSignal(PinSignal),
    ErrorMessage(ErrorMessage),
    ErrorReceipt(ErrorReceipt),
}

/// A signal about notifications: its name and what it carries.
pub struct SignalDetails {
    pub name: String,
    pub payload: Signal,
}

/// Notifications, by agent.
pub struct SystemMessages(pub Table<SystemMessage>);

/// The notification that `me` announces as `input` says.
pub fn announce_handler(input: NotificationInput, me: AgentPubKey) -> (r: SystemMessage)
    ensures
        r == (SystemMessage { author: me, receiver: input.receiver, message: input.message }),
{
    SystemMessage { author: me, receiver: input.receiver, message: input.message }
}

/// Receiving a notification: it is committed, and a "RECEIVE_SYSTEM_MESSAGE"
/// signal carries it.
pub fn receive_system_message_handler(input: SystemMessage) -> (r: (SystemMessage, SignalDetails))
    ensures
        r.0 == input,
        r.1.name@ == "RECEIVE_SYSTEM_MESSAGE"@,
        r.1.payload matches Signal::SystemMessage(s) && s.message == input,
{
    let signal = SignalDetails {
        name: "RECEIVE_SYSTEM_MESSAGE".to_owned(),
        payload: Signal::SystemMessage(SystemMessageSignal { message: input.clone() }),
    };
    (input, signal)
}

/// The notification with hash `system_message_hash` on the source chain: the
/// oldest among `queried_system_messages` with that hash; none is an error.
pub fn get_system_message_from_chain(
    system_message_hash: EntryHash,
    queried_system_messages: Vec<Result<Hashed<SystemMessage>, ZomeError>>,
) -> (r: Result<SystemMessage, ZomeError>)
    ensures
        match first_match(queried_system_messages@, system_message_hash@) {
            Some(m) => r == Ok::<SystemMessage, ZomeError>(m),
            None => r matches Err(ZomeError::Guest(s)) && s@
                == "Sorry. System message entry for hash not found."@,
        },
{
    match crate::helpers::find_first(queried_system_messages, &system_message_hash) {
        Some(m) => Ok(m),
        None => error("Sorry. System message entry for hash not found."),
    }
}

/// Committing the notification with hash `message_hash` to its receiver's
/// chain, as `me`: only its author sends it, to its receiver; for another
/// agent there is nothing to send.
pub fn commit_system_message_to_receiver_chain_handler(
    message_hash: EntryHash,
    me: &AgentPubKey,
    queried_system_messages: Vec<Result<Hashed<SystemMessage>, ZomeError>>,
) -> (r: Result<Option<RemoteCall<SystemMessage>>, ZomeError>)
    ensures
        match first_match(queried_system_messages@, message_hash@) {
            Some(m) => if m.author@ == me@ {
                r matches Ok(Some(d)) && d.agent == m.receiver && d.function@ == "receive_message"@ && d.payload == m
            } else {
                r == Ok::<Option<RemoteCall<SystemMessage>>, ZomeError>(None)
            },
            None => r matches Err(ZomeError::Guest(s)) && s@
                == "Sorry. System message entry for hash not found."@,
        },
{
    let message = get_system_message_from_chain(message_hash, queried_system_messages)?;
    if *me == message.author {
        let receiver = copy_string(&message.receiver);
        Ok(Some(RemoteCall { agent: receiver, function: "receive_message".to_owned(), payload: message }))
    } else {
        Ok(None)
    }
}

/// The receiver's answer to a notification: nothing when it returned, else
/// the error of the call.
pub fn system_message_delivered(response: ZomeCallResponse<()>) -> (r: Result<(), ZomeError>)
    ensures
        match response {
            ZomeCallResponse::Returned(Ok(_)) => r is Ok,
            _ => r matches Err(e) && call_failure(response, e),
        },
{
    match remote_result(response) {
        Ok(_) => Ok(()),
        Err(e) => Err(e),
    }
}

} // verus!
