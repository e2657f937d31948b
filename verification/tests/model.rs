use p2pmessage::helpers::{
    find_first, get_file_from_chain, get_message_from_chain, get_receipt_from_chain, get_receipts, get_replies,
    insert_message, insert_reply, MessageBundle,
};
use p2pmessage::system_message::{
    announce_handler, commit_system_message_to_receiver_chain_handler, get_system_message_from_chain,
    receive_system_message_handler, system_message_delivered, NotificationInput, Signal, SystemMessage,
};
use p2pmessage::table::Table;
use p2pmessage::types::{
    _err, contains_string, is_kind, Hashed, P2PFileBytes, P2PMessage, P2PMessageReceipt, Payload, Status,
    Timestamp, ZomeError,
};
use p2pmessage::zome::ZomeCallResponse;

fn chat(author: &str, receiver: &str, micros: i64) -> P2PMessage {
    P2PMessage {
        author: author.to_string(),
        receiver: receiver.to_string(),
        payload: Payload::Text { payload: "m".to_string() },
        time_sent: Timestamp(micros),
        reply_to: None,
    }
}

fn kept<T>(hash: &str, content: T) -> Result<Hashed<T>, ZomeError> {
    Ok(Hashed { hash: hash.to_string(), content })
}

fn why<T>(r: Result<T, ZomeError>) -> String {
    match r {
        Err(ZomeError::Guest(s)) => s,
        _ => panic!("expected a zome error"),
    }
}

#[test]
fn timestamp_splits_into_seconds_and_nanos() {
    assert_eq!(Timestamp(1_234_567).as_seconds_and_nanos(), (1, 234_567_000));
    assert_eq!(Timestamp(0).as_seconds_and_nanos(), (0, 0));
    assert_eq!(Timestamp(5_000_000).as_micros(), 5_000_000);
}

#[test]
fn timestamp_before_epoch_rounds_toward_zero() {
    let (secs, nanos) = Timestamp(-1_500_000).as_seconds_and_nanos();
    assert_eq!(secs, -1);
    assert_eq!(nanos, (-500_000_000i64) as u32);
}

#[test]
fn timestamp_parts_give_back_the_time() {
    for micros in [0i64, 1, 999_999, 1_000_000, 86_399_999_999, 1_700_000_000_123_456] {
        let (secs, nanos) = Timestamp(micros).as_seconds_and_nanos();
        assert!(nanos < 1_000_000_000);
        assert_eq!(secs * 1_000_000 + (nanos / 1000) as i64, micros);
    }
}

#[test]
fn coded_error_helper_is_err() {
    let r: Result<(), ZomeError> = _err("E1", "bad");
    assert_eq!(why(r), "{\"code\": \"E1\", \"message\": \"bad\"}");
}

#[test]
fn kinds_and_membership() {
    assert!(is_kind(&"Text".to_string(), "Text"));
    assert!(!is_kind(&"text".to_string(), "Text"));
    let v = vec!["a".to_string(), "b".to_string()];
    assert!(contains_string(&v, &"b".to_string()));
    assert!(!contains_string(&v, &"c".to_string()));
}

#[test]
fn table_reads_back_what_was_written() {
    let mut t: Table<Vec<String>> = Table::new();
    assert_eq!(t.len(), 0);
    t.insert("k".to_string(), vec!["v".to_string()]);
    t.insert("j".to_string(), vec![]);
    assert_eq!(t.get(&"k".to_string()), Some(&vec!["v".to_string()]));
    t.insert("k".to_string(), vec!["w".to_string()]);
    assert_eq!(t.get(&"k".to_string()), Some(&vec!["w".to_string()]));
    assert_eq!(t.len(), 2);
    assert_eq!(t.remove(&"k".to_string()), Some(vec!["w".to_string()]));
    assert!(!t.contains_key(&"k".to_string()));
    assert_eq!(t.remove(&"k".to_string()), None);
    let pairs = t.into_pairs();
    assert_eq!(pairs, vec![("j".to_string(), Vec::<String>::new())]);
}

#[test]
fn insert_message_reports_list_length() {
    let mut agents: Table<Vec<String>> = Table::new();
    let mut contents: Table<MessageBundle> = Table::new();
    let first = insert_message(&mut agents, &mut contents, chat("a", "b", 1), "h1".to_string(), "b".to_string());
    assert_eq!(first.unwrap(), 0);
    let second = insert_message(&mut agents, &mut contents, chat("a", "b", 2), "h2".to_string(), "b".to_string());
    assert_eq!(second.unwrap(), 2);
    assert_eq!(agents.get(&"b".to_string()), Some(&vec!["h1".to_string(), "h2".to_string()]));
    let bundle = contents.get(&"h2".to_string()).unwrap();
    assert!(bundle.1.is_empty());
    assert!(bundle.0.reply_to.is_none());
}

#[test]
fn replies_and_receipts_are_attached() {
    let mut agents: Table<Vec<String>> = Table::new();
    let mut contents: Table<MessageBundle> = Table::new();
    let mut replies: Table<Vec<String>> = Table::new();
    let mut answer = chat("b", "a", 2);
    answer.reply_to = Some("h1".to_string());
    insert_message(&mut agents, &mut contents, chat("a", "b", 1), "h1".to_string(), "b".to_string()).unwrap();
    insert_message(&mut agents, &mut contents, answer.clone(), "h2".to_string(), "b".to_string()).unwrap();
    insert_reply(&mut replies, answer, "h2".to_string());
    assert_eq!(replies.get(&"h1".to_string()), Some(&vec!["h2".to_string()]));
    let chain = vec![kept("h1", chat("a", "b", 1))];
    get_replies(&replies, &mut contents, &chain).unwrap();
    assert_eq!(contents.get(&"h2".to_string()).unwrap().0.reply_to.as_ref().unwrap().hash, "h1");
    let mut receipts: Table<P2PMessageReceipt> = Table::new();
    let queried = vec![kept(
        "r",
        P2PMessageReceipt { id: vec!["h1".to_string(), "h2".to_string()], status: Status::Read { timestamp: Timestamp(3) } },
    )];
    get_receipts(&mut contents, &mut receipts, &queried).unwrap();
    assert_eq!(contents.get(&"h1".to_string()).unwrap().1, vec!["r".to_string()]);
    assert_eq!(contents.get(&"h2".to_string()).unwrap().1, vec!["r".to_string()]);
    assert!(receipts.contains_key(&"r".to_string()));
}

#[test]
fn message_from_chain_is_the_newest() {
    let chain = vec![kept("h", chat("a", "b", 1)), kept("x", chat("a", "b", 2)), kept("h", chat("a", "b", 3))];
    assert_eq!(get_message_from_chain("h".to_string(), chain).unwrap().time_sent, Timestamp(3));
}

#[test]
fn message_from_chain_errors() {
    let chain = vec![kept("h", chat("a", "b", 1)), Err(ZomeError::Host("unreadable".to_string()))];
    match get_message_from_chain("h".to_string(), chain) {
        Err(ZomeError::Host(s)) => assert_eq!(s, "unreadable"),
        _ => panic!("expected the entry's error"),
    }
    assert_eq!(why(get_message_from_chain("h".to_string(), vec![])), "Sorry. Entry not found.");
}

#[test]
fn file_and_receipt_from_chain_are_the_oldest() {
    let files = vec![kept("f", P2PFileBytes(vec![1])), kept("f", P2PFileBytes(vec![2]))];
    assert_eq!(get_file_from_chain("f".to_string(), files).unwrap().0, vec![1]);
    assert_eq!(why(get_file_from_chain("g".to_string(), vec![])), "Sorry. File not found.");
    let receipts = vec![
        kept("r", P2PMessageReceipt { id: vec![], status: Status::Sent { timestamp: Timestamp(1) } }),
        kept("r", P2PMessageReceipt { id: vec![], status: Status::Read { timestamp: Timestamp(2) } }),
    ];
    assert_eq!(get_receipt_from_chain("r".to_string(), receipts).unwrap().status, Status::Sent { timestamp: Timestamp(1) });
    assert_eq!(why(get_receipt_from_chain("r".to_string(), vec![])), "Sorry. Receipt not found.");
    assert_eq!(find_first(vec![kept("a", 1u8), kept("a", 2u8)], &"a".to_string()), Some(1));
}

#[test]
fn announcing_a_system_message() {
    let m = announce_handler(
        NotificationInput { receiver: "bob".to_string(), message: "joined".to_string() },
        "alice".to_string(),
    );
    assert_eq!(m.author, "alice");
    assert_eq!(m.receiver, "bob");
    assert_eq!(m.message, "joined");
    let (kept_message, signal) = receive_system_message_handler(m);
    assert_eq!(signal.name, "RECEIVE_SYSTEM_MESSAGE");
    assert_eq!(kept_message.message, "joined");
    match signal.payload {
        Signal::SystemMessage(s) => assert_eq!(s.message.author, "alice"),
        _ => panic!("expected a system message signal"),
    }
}

#[test]
fn system_message_commit_by_author_only() {
    let sm = || SystemMessage { author: "alice".to_string(), receiver: "bob".to_string(), message: "x".to_string() };
    let chain = vec![kept("s", sm())];
    let call = commit_system_message_to_receiver_chain_handler("s".to_string(), &"alice".to_string(), chain)
        .unwrap()
        .unwrap();
    assert_eq!(call.agent, "bob");
    assert_eq!(call.function, "receive_message");
    assert_eq!(call.payload.message, "x");
    let chain2 = vec![kept("s", sm())];
    assert!(commit_system_message_to_receiver_chain_handler("s".to_string(), &"bob".to_string(), chain2)
        .unwrap()
        .is_none());
    assert_eq!(
        why(get_system_message_from_chain("t".to_string(), vec![kept("s", sm())])),
        "Sorry. System message entry for hash not found."
    );
}

#[test]
fn system_message_delivery_result() {
    assert!(system_message_delivered(ZomeCallResponse::Returned(Ok(()))).is_ok());
    assert_eq!(
        why(system_message_delivered(ZomeCallResponse::NetworkError("x".to_string()))),
        "Sorry, something went wrong. [Network error]"
    );
}
