use p2pmessage::handlers::{
    address_deduper, commit_receipts, fetch_async_messages, get_all_messages, get_all_messages_from_addresses,
    get_batch_messages_on_conversation, notify_delivery, notify_delivery_async, receive_message, send_message,
    send_message_async, typing, AsyncStep, FetchEffect, FetchEvent, FetchRun, MessageInput, MessageParameter, MessageRange,
    MessageStatus, SecondsTimestamp, SendAction, SendEvent,
};
use p2pmessage::types::{P2PMessageReceipt, P2PTypingDetailIO, Status, Timestamp, ZomeError};
use p2pmessage::zome::ZomeCallResponse;

fn param(author: &str, receiver: &str, secs: i64) -> MessageParameter {
    MessageParameter {
        author: author.to_string(),
        receiver: receiver.to_string(),
        payload: format!("sent at {}", secs),
        time_sent: SecondsTimestamp(secs, 0),
        time_received: None,
        status: MessageStatus::Sent,
        reply_to: None,
    }
}

fn reason<T>(r: Result<T, ZomeError>) -> String {
    match r {
        Err(ZomeError::Guest(s)) => s,
        _ => panic!("expected a zome error"),
    }
}

#[test]
fn receiving_marks_delivered_at_now() {
    let m = receive_message(param("bob", "alice", 1), SecondsTimestamp(5, 6));
    assert_eq!(m.status, MessageStatus::Delivered);
    assert_eq!(m.time_received, Some(SecondsTimestamp(5, 6)));
    assert_eq!(m.time_sent, SecondsTimestamp(1, 0));
}

#[test]
fn notify_delivery_answers_true() {
    let (m, ok) = notify_delivery(param("alice", "bob", 1));
    assert!(ok);
    assert_eq!(m.author, "alice");
    let notice = notify_delivery_async(param("alice", "bob", 1), "hdr".to_string());
    assert!(notice.result);
    assert!(matches!(&notice.steps[0], AsyncStep::Update { header, .. } if header == "hdr"));
    assert!(matches!(&notice.steps[1], AsyncStep::Link { base, tag } if base == "alice" && tag == "async_messages"));
}

#[test]
fn all_messages_pass_over_other_entries() {
    let qs = vec![Ok(param("a", "b", 1)), Err(ZomeError::Host("x".to_string())), Ok(param("b", "a", 2))];
    let all = get_all_messages(&qs);
    assert_eq!(all.len(), 2);
    assert_eq!(all[1].author, "b");
}

#[test]
fn deduper_keeps_first_occurrences() {
    let agents = vec!["b".to_string(), "a".to_string(), "b".to_string(), "c".to_string(), "a".to_string()];
    assert_eq!(address_deduper(agents), vec!["b".to_string(), "a".to_string(), "c".to_string()]);
}

#[test]
fn messages_grouped_by_address() {
    let qs = vec![Ok(param("a", "x", 1)), Ok(param("b", "x", 2)), Ok(param("a", "x", 3))];
    let groups = get_all_messages_from_addresses(vec!["a".to_string(), "c".to_string(), "a".to_string()], &qs);
    assert_eq!(groups.len(), 2);
    assert_eq!(groups[0].author, "a");
    assert_eq!(groups[0].messages.len(), 2);
    assert_eq!(groups[1].author, "c");
    assert!(groups[1].messages.is_empty());
}

#[test]
fn conversation_batch_closes_on_time_gap() {
    let qs = vec![Ok(param("a", "x", 100)), Ok(param("a", "x", 95)), Ok(param("a", "x", 80)), Ok(param("a", "x", 99))];
    let range = MessageRange { author: "a".to_string(), last_message_timestamp_seconds: 100 };
    let batch = get_batch_messages_on_conversation(&range, &qs);
    let times: Vec<i64> = batch.iter().map(|m| m.time_sent.0).collect();
    assert_eq!(times, vec![100, 95]);
}

#[test]
fn conversation_batch_holds_at_most_ten() {
    let qs: Vec<Result<MessageParameter, ZomeError>> = (0..20).map(|_| Ok(param("a", "x", 50))).collect();
    let range = MessageRange { author: "a".to_string(), last_message_timestamp_seconds: 50 };
    assert_eq!(get_batch_messages_on_conversation(&range, &qs).len(), 10);
}

fn start() -> FetchRun {
    FetchRun { fetched: vec![], pending: None }
}

#[test]
fn fetch_commits_sent_message_and_tells_its_author() {
    let r = fetch_async_messages(
        start(),
        FetchEvent::Fetched { element: Some(Ok(param("bob", "alice", 1))), now: SecondsTimestamp(9, 1) },
    );
    let (run, effects) = match r {
        Ok(x) => x,
        Err(_) => panic!("expected a step"),
    };
    let pending = run.pending.expect("the message waits for its author's answer");
    assert_eq!(pending.status, MessageStatus::Delivered);
    assert_eq!(pending.time_received, Some(SecondsTimestamp(9, 1)));
    assert_eq!(effects.len(), 2);
    assert!(matches!(&effects[0], FetchEffect::CommitMessage(m) if m.status == MessageStatus::Delivered));
    assert!(matches!(&effects[1], FetchEffect::Call(c) if c.agent == "bob" && c.function == "notify_delivery"));
}

#[test]
fn fetch_of_delivered_message_commits_it_locally() {
    let mut delivered = param("bob", "alice", 1);
    delivered.status = MessageStatus::Delivered;
    let (run, effects) = match fetch_async_messages(
        start(),
        FetchEvent::Fetched { element: Some(Ok(delivered)), now: SecondsTimestamp(0, 0) },
    ) {
        Ok(x) => x,
        Err(_) => panic!("expected a step"),
    };
    assert!(run.pending.is_none() && run.fetched.is_empty());
    assert!(matches!(&effects[..], [FetchEffect::CommitMessage(_)]));
}

#[test]
fn fetch_errors() {
    let none = fetch_async_messages(start(), FetchEvent::Fetched { element: None, now: SecondsTimestamp(0, 0) });
    assert_eq!(reason(none), "{\"code\": \"TODO: 000\", \"message\": \"Could not get link target\"}");
    let mut read = param("bob", "alice", 1);
    read.status = MessageStatus::Read;
    let r = fetch_async_messages(start(), FetchEvent::Fetched { element: Some(Ok(read)), now: SecondsTimestamp(0, 0) });
    assert_eq!(
        reason(r),
        "{\"code\": \"TODO: 000\", \"message\": \"Unimplemented handlers for other status enums\"}"
    );
}

#[test]
fn fetch_assembles_the_list_over_links() {
    let mut run = start();
    for (i, answer) in [ZomeCallResponse::Returned(Ok(true)), ZomeCallResponse::NetworkError("x".to_string())]
        .into_iter()
        .enumerate()
    {
        let (next, _) = match fetch_async_messages(
            run,
            FetchEvent::Fetched { element: Some(Ok(param("bob", "alice", i as i64))), now: SecondsTimestamp(9, 0) },
        ) {
            Ok(x) => x,
            Err(_) => panic!("expected a step"),
        };
        let (next, effects) = match fetch_async_messages(next, FetchEvent::Notified { response: answer }) {
            Ok(x) => x,
            Err(_) => panic!("expected a step"),
        };
        if i == 1 {
            assert!(matches!(&effects[..], [FetchEffect::CommitAsyncAndLink { base, tag, .. }]
                if base == "bob" && tag == "async_messages"));
        } else {
            assert!(effects.is_empty());
        }
        run = next;
    }
    assert_eq!(run.fetched.len(), 2);
    assert_eq!(run.fetched[0].status, MessageStatus::Sent);
    assert_eq!(run.fetched[1].status, MessageStatus::Delivered);
    assert_eq!(run.fetched[1].time_received, Some(SecondsTimestamp(9, 0)));
}

#[test]
fn sending_hands_message_to_receiver() {
    let input = MessageInput { receiver: "bob".to_string(), payload: "hi".to_string(), reply_to: None };
    let r = send_message(SendEvent::Start {
        input,
        author: "alice".to_string(),
        now: SecondsTimestamp(3, 4),
        reply_to_hash: None,
    });
    match r {
        Ok(SendAction::CallReceiver(m)) => {
            assert_eq!(m.author, "alice");
            assert_eq!(m.receiver, "bob");
            assert_eq!(m.status, MessageStatus::Sent);
            assert!(m.time_received.is_none());
        }
        _ => panic!("expected a call"),
    }
}

#[test]
fn sending_outcomes() {
    let answered = send_message(SendEvent::Answered(ZomeCallResponse::Returned(Ok(param("alice", "bob", 1)))));
    assert!(matches!(answered, Ok(SendAction::Commit(_))));
    let offline = send_message(SendEvent::Answered(ZomeCallResponse::NetworkError("x".to_string())));
    assert!(matches!(offline, Ok(SendAction::SendAsync)));
    let other = send_message(SendEvent::Answered(ZomeCallResponse::CountersigningSession("x".to_string())));
    assert_eq!(reason(other), "{\"code\": \"TODO: 000\", \"message\": \"Unknown other error\"}");
    let failed = send_message(SendEvent::Queued(Err(ZomeError::Host("x".to_string()))));
    assert_eq!(
        reason(failed),
        "{\"code\": \"TODO: 000\", \"message\": \"This agent has no proper authorization\"}"
    );
}

#[test]
fn async_send_links_from_receiver() {
    let input = MessageInput { receiver: "bob".to_string(), payload: "hi".to_string(), reply_to: None };
    let a = send_message_async(input, "alice".to_string(), SecondsTimestamp(1, 0));
    assert_eq!(a.link_base, "bob");
    assert_eq!(a.tag, "async_messages");
    assert_eq!(a.message.author, "alice");
    assert!(a.message.reply_to.is_none());
}

#[test]
fn typing_goes_to_both_agents() {
    let (detail, agents) = typing(P2PTypingDetailIO { agent: "bob".to_string(), is_typing: false }, "alice".to_string());
    assert_eq!(detail.agent, "alice");
    assert!(!detail.is_typing);
    assert_eq!(agents, vec!["bob".to_string(), "alice".to_string()]);
}

#[test]
fn only_new_receipts_are_committed() {
    let receipt = |h: &str| P2PMessageReceipt { id: vec![h.to_string()], status: Status::Read { timestamp: Timestamp(1) } };
    let receipts = vec![("r1".to_string(), receipt("a")), ("r2".to_string(), receipt("b"))];
    let t = commit_receipts(receipts, &vec!["r1".to_string(), "zz".to_string()]);
    assert_eq!(t.len(), 1);
    assert!(t.contains_key(&"r2".to_string()));
}

#[test]
fn startup_grants_are_open() {
    let grants = p2pmessage::handlers::init(&"z".to_string());
    let tags: Vec<(String, String)> = grants.iter().map(|g| (g.tag.clone(), g.functions[0].1.clone())).collect();
    assert_eq!(
        tags,
        vec![
            ("receive".to_string(), "receive_message".to_string()),
            ("notify".to_string(), "notify_delivery".to_string()),
            ("".to_string(), "is_typing".to_string()),
            ("create_group_cap_grant".to_string(), "recv_remote_signal".to_string()),
        ]
    );
    assert!(grants.iter().all(|g| g.functions.len() == 1 && g.functions[0].0 == "z"));
}

#[test]
fn reading_commits_then_calls_the_sender() {
    let receipt = P2PMessageReceipt { id: vec!["m".to_string()], status: Status::Read { timestamp: Timestamp(2) } };
    let (commits, call) = p2pmessage::handlers::read_message(p2pmessage::handlers::ReadReceiptInput {
        receipt,
        sender: "bob".to_string(),
    });
    assert_eq!(commits.len(), 1);
    assert_eq!(commits[0].entry_index(), 1);
    assert_eq!(call.agent, "bob");
    assert_eq!(call.function, "receive_read_receipt");
}

#[test]
fn receipts_are_committed_once() {
    let receipt = |h: &str| P2PMessageReceipt { id: vec![h.to_string()], status: Status::Read { timestamp: Timestamp(1) } };
    let receipts = || vec![("r1".to_string(), receipt("a")), ("r2".to_string(), receipt("b"))];
    let first = commit_receipts(receipts(), &vec![]);
    let keys: Vec<String> = first.into_pairs().into_iter().map(|(k, _)| k).collect();
    assert_eq!(keys.len(), 2);
    let again = commit_receipts(receipts(), &keys);
    assert_eq!(again.len(), 0);
}

#[test]
fn groups_ignore_the_order_of_agents() {
    let qs = vec![Ok(param("a", "x", 1)), Ok(param("b", "x", 2)), Ok(param("a", "x", 3))];
    let one = get_all_messages_from_addresses(vec!["a".to_string(), "b".to_string()], &qs);
    let two = get_all_messages_from_addresses(vec!["b".to_string(), "a".to_string(), "b".to_string()], &qs);
    for g in &one {
        let h = two.iter().find(|h| h.author == g.author).expect("same agent");
        assert_eq!(h.messages.len(), g.messages.len());
    }
    assert_eq!(one.len(), two.len());
}
