use p2pmessage::table::Table;
use p2pmessage::types::{
    FileMetadataInput, FileType, Hashed, MessageInput, MessageWithTimestampInput, P2PFileBytes, P2PMessage, P2PMessagePin, P2PMessageReceipt,
    P2PTypingDetailIO, Payload, PayloadInput, PinMessageInput, PinStatus, ReadMessageInput, ReceiveMessageInput,
    Status, Timestamp, ZomeError,
};
use p2pmessage::zome::{
    commit_message_to_receiver_chain_handler, commit_receipt_to_sender_chain_handler, delivered_receipt,
    file_of_payload, find_first_reply, find_last_reply, init_handler, message_of_input, pin_conversant,
    pin_message_handler, pin_of_input, post_commit, post_commit_ready, read_message_handler,
    read_receipt_of, receive_message_handler, receive_read_receipt_handler, receive_receipt_handler,
    received_receipt_of, remote_result, send_message_handler, send_message_with_timestamp_handler, sync_pins_handler,
    typing_handler, CapAccess, Commit, CommittedAction, PostCommitTask, Signal, ZomeCallResponse,
    pin_message_call, read_message_call, send_with_timestamp_answer, send_with_timestamp_call,
};

fn note(author: &str, receiver: &str, body: &str, micros: i64) -> P2PMessage {
    P2PMessage {
        author: author.to_string(),
        receiver: receiver.to_string(),
        payload: Payload::Text { payload: body.to_string() },
        time_sent: Timestamp(micros),
        reply_to: None,
    }
}

fn on_chain<T>(hash: &str, content: T) -> Result<Hashed<T>, ZomeError> {
    Ok(Hashed { hash: hash.to_string(), content })
}

fn guest_reason<T>(r: Result<T, ZomeError>) -> String {
    match r {
        Err(ZomeError::Guest(s)) => s,
        _ => panic!("expected a zome error"),
    }
}

#[test]
fn remote_result_names_each_failure() {
    assert_eq!(remote_result(ZomeCallResponse::Returned(Ok(7u8))).unwrap(), 7);
    assert_eq!(
        guest_reason(remote_result::<u8>(ZomeCallResponse::Unauthorized)),
        "Sorry, something went wrong. [Authorization error]"
    );
    assert_eq!(
        guest_reason(remote_result::<u8>(ZomeCallResponse::NetworkError("down".to_string()))),
        "Sorry, something went wrong. [Network error]"
    );
    assert_eq!(
        guest_reason(remote_result::<u8>(ZomeCallResponse::CountersigningSession("busy".to_string()))),
        "Sorry, something went wrong. [Countersigning error]"
    );
    match remote_result::<u8>(ZomeCallResponse::Returned(Err(ZomeError::Host("decode".to_string())))) {
        Err(ZomeError::Host(s)) => assert_eq!(s, "decode"),
        _ => panic!("expected the returned error"),
    }
}

#[test]
fn message_of_text_input() {
    let input = MessageInput {
        receiver: "bob".to_string(),
        payload: PayloadInput::Text { payload: "hi".to_string() },
        reply_to: Some("h0".to_string()),
    };
    let m = message_of_input(input, "alice".to_string(), Timestamp(42), None);
    assert_eq!(m.author, "alice");
    assert_eq!(m.receiver, "bob");
    assert_eq!(m.time_sent, Timestamp(42));
    assert_eq!(m.reply_to, Some("h0".to_string()));
    assert!(matches!(m.payload, Payload::Text { ref payload } if payload == "hi"));
}

#[test]
fn message_of_file_input_carries_file_hash() {
    let input = MessageInput {
        receiver: "bob".to_string(),
        payload: PayloadInput::File {
            metadata: FileMetadataInput { file_name: "a.png".to_string(), file_size: 3, file_type: "IMAGE".to_string() },
            file_type: FileType::Image { thumbnail: vec![7] },
            file_bytes: vec![1, 2, 3],
        },
        reply_to: None,
    };
    let file = file_of_payload(&input.payload).unwrap();
    assert_eq!(file.0, vec![1, 2, 3]);
    let m = message_of_input(input, "alice".to_string(), Timestamp(1), Some("fh".to_string()));
    match m.payload {
        Payload::File { metadata, file_type } => {
            assert_eq!(metadata.file_hash, "fh");
            assert_eq!(metadata.file_name, "a.png");
            assert_eq!(metadata.file_size, 3);
            assert!(matches!(file_type, FileType::Image { ref thumbnail } if *thumbnail == vec![7]));
        }
        _ => panic!("expected a file"),
    }
}

#[test]
fn text_payload_has_no_file() {
    assert!(file_of_payload(&PayloadInput::Text { payload: "x".to_string() }).is_none());
}

#[test]
fn replies_are_found_oldest_or_newest() {
    let chain = vec![
        on_chain("h1", note("bob", "alice", "old", 1)),
        Err(ZomeError::Host("skip".to_string())),
        on_chain("h1", note("bob", "alice", "new", 2)),
    ];
    let first = find_first_reply(&chain, &"h1".to_string()).unwrap();
    let last = find_last_reply(&chain, &"h1".to_string()).unwrap();
    assert_eq!(first.time_sent, Timestamp(1));
    assert_eq!(last.time_sent, Timestamp(2));
    assert!(find_first_reply(&chain, &"none".to_string()).is_none());
}

#[test]
fn send_to_self_gets_read_receipt() {
    let m = note("alice", "alice", "memo", 5);
    let sent = send_message_handler(m, None, "h".to_string(), Timestamp(9), &vec![]);
    let receipt = sent.self_receipt.unwrap();
    assert_eq!(receipt.id, vec!["h".to_string()]);
    assert_eq!(receipt.status, Status::Read { timestamp: Timestamp(9) });
    assert_eq!(sent.result.0, "h");
}

#[test]
fn send_to_other_has_no_receipt_and_shows_reply() {
    let mut m = note("alice", "bob", "re", 5);
    m.reply_to = Some("h0".to_string());
    let chain = vec![on_chain("h0", note("bob", "alice", "q", 1))];
    let sent = send_message_handler(m, None, "h".to_string(), Timestamp(9), &chain);
    assert!(sent.self_receipt.is_none());
    assert_eq!(sent.result.1.reply_to.unwrap().hash, "h0");
}

#[test]
fn send_with_timestamp_returns_message_and_receipt() {
    let m = note("alice", "bob", "x", 5);
    let receipt = delivered_receipt("h".to_string(), Timestamp(6));
    let out = send_message_with_timestamp_handler(m, "h".to_string(), receipt, "r".to_string(), &vec![]);
    assert_eq!((out.0).0, "h");
    assert_eq!((out.1).0, "r");
    assert_eq!((out.1).1.status, Status::Delivered { timestamp: Timestamp(6) });
}

#[test]
fn received_receipt_keeps_network_error_text() {
    let r = received_receipt_of(ZomeCallResponse::NetworkError("offline".to_string()));
    assert_eq!(guest_reason(r), "offline");
    let ok = received_receipt_of(ZomeCallResponse::Returned(Ok(delivered_receipt("h".to_string(), Timestamp(1)))));
    assert_eq!(ok.unwrap().id, vec!["h".to_string()]);
    assert_eq!(
        guest_reason(received_receipt_of(ZomeCallResponse::Unauthorized)),
        "Sorry, something went wrong. [Authorization error]"
    );
}

#[test]
fn receiving_a_message_gives_delivered_receipt() {
    let input = ReceiveMessageInput { message: note("bob", "alice", "hi", 3), file: Some(P2PFileBytes(vec![4])) };
    let r = receive_message_handler(input, "h".to_string(), Timestamp(10), "rh".to_string(), &vec![]);
    assert_eq!(r.commits.len(), 3);
    assert_eq!(r.commits.iter().map(|c| c.entry_index()).collect::<Vec<u8>>(), vec![0, 1, 3]);
    match &r.commits[1] {
        Commit::Receipt(receipt) => {
            assert_eq!(receipt.id, vec!["h".to_string()]);
            assert_eq!(receipt.status, Status::Delivered { timestamp: Timestamp(10) });
        }
        _ => panic!("expected the receipt second"),
    }
    assert_eq!(r.result.id, vec!["h".to_string()]);
    assert_eq!(r.signal.name, "RECEIVE_P2P_MESSAGE");
    assert!(matches!(&r.commits[2], Commit::File(f) if f.0 == vec![4]));
    match r.signal.payload {
        Signal::Message(ms) => {
            assert_eq!((ms.message.0).0, "h");
            assert_eq!((ms.message.1).0, "rh");
        }
        _ => panic!("expected a message signal"),
    }
}

#[test]
fn receiving_a_text_message_commits_two_entries() {
    let input = ReceiveMessageInput { message: note("bob", "alice", "hi", 3), file: None };
    let r = receive_message_handler(input, "h".to_string(), Timestamp(10), "rh".to_string(), &vec![]);
    assert!(matches!(&r.commits[0], Commit::Message(m) if m.author == "bob"));
    assert_eq!(r.commits.len(), 2);
}

#[test]
fn read_receipt_names_read_messages() {
    let input = ReadMessageInput {
        message_hashes: vec!["a".to_string(), "b".to_string()],
        sender: "bob".to_string(),
        timestamp: Timestamp(8),
    };
    let receipt = read_receipt_of(input);
    assert_eq!(receipt.id, vec!["a".to_string(), "b".to_string()]);
    assert_eq!(receipt.status, Status::Read { timestamp: Timestamp(8) });
}

#[test]
fn reading_messages_returns_sender_receipts() {
    let mut answer: Table<P2PMessageReceipt> = Table::new();
    answer.insert("r".to_string(), delivered_receipt("a".to_string(), Timestamp(1)));
    let receipt = P2PMessageReceipt { id: vec!["a".to_string()], status: Status::Read { timestamp: Timestamp(2) } };
    let r = read_message_handler(receipt, ZomeCallResponse::Returned(Ok(answer)));
    assert!(r.result.unwrap().contains_key(&"r".to_string()));
    assert!(matches!(&r.commits[..], [Commit::Receipt(x)] if x.status == Status::Read { timestamp: Timestamp(2) }));
    let receipt2 = P2PMessageReceipt { id: vec![], status: Status::Read { timestamp: Timestamp(2) } };
    let failed = read_message_handler(receipt2, ZomeCallResponse::NetworkError("x".to_string()));
    assert!(failed.commits.is_empty());
    assert_eq!(guest_reason(failed.result), "Sorry, something went wrong. [Network error]");
}

#[test]
fn pin_input_status_decides_pin() {
    let input = PinMessageInput {
        message_hashes: vec!["h".to_string()],
        conversants: vec!["alice".to_string(), "bob".to_string()],
        status: "Pinned".to_string(),
        timestamp: Timestamp(4),
    };
    assert_eq!(pin_of_input(input).status, PinStatus::Pinned { timestamp: Timestamp(4) });
    let input2 = PinMessageInput {
        message_hashes: vec!["h".to_string()],
        conversants: vec!["alice".to_string(), "bob".to_string()],
        status: "pinned".to_string(),
        timestamp: Timestamp(4),
    };
    assert_eq!(pin_of_input(input2).status, PinStatus::Unpinned { timestamp: Timestamp(4) });
}

#[test]
fn pin_conversant_is_the_other_agent() {
    let both = vec!["alice".to_string(), "bob".to_string()];
    assert_eq!(pin_conversant(&both, &"alice".to_string()), "bob");
    assert_eq!(pin_conversant(&both, &"bob".to_string()), "alice");
}

#[test]
fn pinning_commits_pin_when_conversant_answers() {
    let pin = P2PMessagePin {
        id: vec!["h".to_string()],
        conversants: vec!["alice".to_string(), "bob".to_string()],
        status: PinStatus::Pinned { timestamp: Timestamp(1) },
    };
    let mut answer: Table<P2PMessagePin> = Table::new();
    answer.insert("p".to_string(), pin.clone());
    let r = pin_message_handler(pin, ZomeCallResponse::Returned(Ok(answer)));
    assert_eq!(r.result.unwrap().len(), 1);
    assert!(matches!(&r.commits[..], [Commit::Pin(_)]));
    let pin2 = P2PMessagePin { id: vec![], conversants: vec![], status: PinStatus::Unpinned { timestamp: Timestamp(1) } };
    let failed = pin_message_handler(pin2, ZomeCallResponse::Unauthorized);
    assert!(failed.commits.is_empty());
    assert_eq!(guest_reason(failed.result), "Sorry, something went wrong. [Authorization error]");
}

#[test]
fn sync_pins_signals_the_pin() {
    let pin = P2PMessagePin {
        id: vec!["h".to_string()],
        conversants: vec!["alice".to_string(), "bob".to_string()],
        status: PinStatus::Pinned { timestamp: Timestamp(1) },
    };
    let r = sync_pins_handler(pin, "p".to_string());
    assert_eq!(r.signal.name, "SYNC_P2P_PINS");
    assert!(r.result.contains_key(&"p".to_string()));
    assert_eq!(r.result.len(), 1);
    match r.signal.payload {
        Signal::P2PPinSignal(ps) => assert!(ps.pin.contains_key(&"p".to_string())),
        _ => panic!("expected a pin signal"),
    }
}

#[test]
fn receipts_are_signalled() {
    let receipt = delivered_receipt("h".to_string(), Timestamp(2));
    let r = receive_receipt_handler(receipt, "r".to_string());
    assert_eq!(r.signal.name, "RECEIVE_P2P_RECEIPT");
    assert_eq!(r.result.get(&"r".to_string()).unwrap().id, vec!["h".to_string()]);
    let receipt2 = delivered_receipt("h".to_string(), Timestamp(2));
    let r2 = receive_read_receipt_handler(receipt2, "r2".to_string());
    assert!(r2.result.contains_key(&"r2".to_string()));
}

#[test]
fn typing_signal_goes_to_the_conversant() {
    let (signal, agents) =
        typing_handler(P2PTypingDetailIO { agent: "bob".to_string(), is_typing: true }, "alice".to_string());
    assert_eq!(signal.name, "TYPING_P2P");
    assert_eq!(agents, vec!["bob".to_string()]);
    match signal.payload {
        Signal::P2PTypingDetailSignal(ts) => {
            assert_eq!(ts.agent, "alice");
            assert!(ts.is_typing);
        }
        _ => panic!("expected a typing signal"),
    }
}

#[test]
fn author_commits_message_to_receiver() {
    let chain = vec![on_chain("h", note("alice", "bob", "hi", 1))];
    let call = commit_message_to_receiver_chain_handler("h".to_string(), &"alice".to_string(), chain, vec![])
        .unwrap();
    assert_eq!(call.agent, "bob");
    assert_eq!(call.function, "receive_message");
    let input = call.payload;
    assert_eq!(input.message.author, "alice");
    assert!(input.file.is_none());
}

#[test]
fn commit_message_errors() {
    let chain = vec![on_chain("h", note("alice", "bob", "hi", 1))];
    assert_eq!(
        guest_reason(commit_message_to_receiver_chain_handler("x".to_string(), &"alice".to_string(), chain, vec![])),
        "Sorry. Entry not found."
    );
    let chain2 = vec![on_chain("h", note("alice", "bob", "hi", 1))];
    assert_eq!(
        guest_reason(commit_message_to_receiver_chain_handler("h".to_string(), &"bob".to_string(), chain2, vec![])),
        "Sorry. Was not able to commit the message to receiver's chain. Something went wrong."
    );
}

#[test]
fn commit_file_message_needs_its_file() {
    let file_message = P2PMessage {
        author: "alice".to_string(),
        receiver: "bob".to_string(),
        payload: Payload::File {
            metadata: p2pmessage::types::FileMetadata {
                file_name: "f".to_string(),
                file_size: 1,
                file_type: "OTHER".to_string(),
                file_hash: "fh".to_string(),
            },
            file_type: FileType::Other,
        },
        time_sent: Timestamp(1),
        reply_to: None,
    };
    let chain = vec![on_chain("h", file_message)];
    let r = commit_message_to_receiver_chain_handler("h".to_string(), &"alice".to_string(), chain, vec![]);
    assert_eq!(guest_reason(r), "Sorry. File not found.");
}

#[test]
fn receiver_commits_delivered_receipt_to_sender() {
    let receipts = vec![on_chain("r", delivered_receipt("h".to_string(), Timestamp(2)))];
    let messages = vec![on_chain("h", note("alice", "bob", "hi", 1))];
    let call =
        commit_receipt_to_sender_chain_handler("r".to_string(), &"bob".to_string(), receipts, messages).unwrap();
    assert_eq!(call.agent, "alice");
    assert_eq!(call.function, "receive_receipt");
    let receipt = call.payload;
    assert_eq!(receipt.id, vec!["h".to_string()]);
}

#[test]
fn commit_receipt_errors() {
    let missing = commit_receipt_to_sender_chain_handler("r".to_string(), &"bob".to_string(), vec![], vec![]);
    assert_eq!(guest_reason(missing), "Sorry. Receipt not found.");
    let read = vec![on_chain("r", P2PMessageReceipt { id: vec!["h".to_string()], status: Status::Read { timestamp: Timestamp(1) } })];
    let r = commit_receipt_to_sender_chain_handler("r".to_string(), &"bob".to_string(), read, vec![]);
    assert_eq!(
        guest_reason(r),
        "Sorry. Was not able to commit the delivered receipt to the sender's chain. Something went wrong."
    );
}

#[test]
fn post_commit_plans_tasks_in_order() {
    let actions = vec![
        CommittedAction::Create { app_entry_index: Some(1), entry_hash: "r".to_string() },
        CommittedAction::Other,
        CommittedAction::Create { app_entry_index: Some(0), entry_hash: "h".to_string() },
        CommittedAction::Create { app_entry_index: None, entry_hash: "z".to_string() },
    ];
    let messages = vec![on_chain("h", note("alice", "bob", "x", 1))];
    assert!(post_commit_ready(&actions, &messages));
    let tasks = post_commit(&actions, &messages);
    assert_eq!(tasks.len(), 2);
    assert!(matches!(tasks[0], PostCommitTask::CommitReceipt(ref h) if h == "r"));
    assert!(matches!(tasks[1], PostCommitTask::CommitMessage(ref h) if h == "h"));
}

#[test]
fn post_commit_stops_at_message_to_self() {
    let actions = vec![
        CommittedAction::Create { app_entry_index: Some(0), entry_hash: "h".to_string() },
        CommittedAction::Create { app_entry_index: Some(1), entry_hash: "r".to_string() },
    ];
    let messages = vec![on_chain("h", note("alice", "alice", "memo", 1))];
    assert!(post_commit_ready(&actions, &messages));
    assert!(post_commit(&actions, &messages).is_empty());
}

#[test]
fn post_commit_not_ready_without_message() {
    let actions = vec![CommittedAction::Create { app_entry_index: Some(0), entry_hash: "h".to_string() }];
    assert!(!post_commit_ready(&actions, &vec![]));
}

#[test]
fn init_grants_unrestricted_functions() {
    let grants = init_handler(&"p2pmessage".to_string());
    let tags: Vec<String> = grants.iter().map(|g| g.tag.clone()).collect();
    assert_eq!(
        tags,
        vec!["receive_message", "receive_receipt", "typing", "recv_remote_signal", "post_commit", "sync_pins"]
    );
    for g in &grants {
        assert_eq!(g.access, CapAccess::Unrestricted);
        assert_eq!(g.functions, vec![("p2pmessage".to_string(), g.tag.clone())]);
    }
}

#[test]
fn sending_commits_the_message_then_the_file() {
    let m = note("alice", "bob", "x", 5);
    let sent = send_message_handler(m, Some(P2PFileBytes(vec![9])), "h".to_string(), Timestamp(9), &vec![]);
    assert_eq!(sent.commits.iter().map(|c| c.entry_index()).collect::<Vec<u8>>(), vec![0, 3]);
    assert!(matches!(&sent.commits[1], Commit::File(f) if f.0 == vec![9]));
}

fn timed_input(file: bool) -> MessageWithTimestampInput {
    MessageWithTimestampInput {
        receiver: "bob".to_string(),
        payload: if file {
            PayloadInput::File {
                metadata: FileMetadataInput { file_name: "f".to_string(), file_size: 1, file_type: "OTHER".to_string() },
                file_type: FileType::Other,
                file_bytes: vec![5],
            }
        } else {
            PayloadInput::Text { payload: "t".to_string() }
        },
        timestamp: Timestamp(77),
        reply_to: None,
    }
}

#[test]
fn timed_send_calls_the_receiver_once() {
    let call = send_with_timestamp_call(timed_input(true), "alice".to_string(), Some("fh".to_string()));
    assert_eq!(call.agent, "bob");
    assert_eq!(call.function, "receive_message");
    assert_eq!(call.payload.message.author, "alice");
    assert_eq!(call.payload.message.time_sent, Timestamp(77));
    assert_eq!(call.payload.file.unwrap().0, vec![5]);
    let text = send_with_timestamp_call(timed_input(false), "alice".to_string(), None);
    assert!(text.payload.file.is_none());
}

#[test]
fn timed_send_commits_after_the_answer() {
    let receipt = delivered_receipt("h".to_string(), Timestamp(6));
    let (commits, r) = send_with_timestamp_answer(
        note("alice", "bob", "x", 5),
        Some(P2PFileBytes(vec![1])),
        ZomeCallResponse::Returned(Ok(receipt)),
    );
    assert_eq!(commits.iter().map(|c| c.entry_index()).collect::<Vec<u8>>(), vec![0, 1, 3]);
    assert_eq!(r.unwrap().id, vec!["h".to_string()]);
    let (commits, r) = send_with_timestamp_answer(
        note("alice", "bob", "x", 5),
        None,
        ZomeCallResponse::Returned(Err(ZomeError::Guest("decode".to_string()))),
    );
    assert_eq!(commits.iter().map(|c| c.entry_index()).collect::<Vec<u8>>(), vec![0]);
    assert_eq!(guest_reason(r), "decode");
    let (commits, r) =
        send_with_timestamp_answer(note("alice", "bob", "x", 5), None, ZomeCallResponse::NetworkError("gone".to_string()));
    assert!(commits.is_empty());
    assert_eq!(guest_reason(r), "gone");
}

#[test]
fn read_and_pin_calls() {
    let call = read_message_call(ReadMessageInput {
        message_hashes: vec!["a".to_string()],
        sender: "bob".to_string(),
        timestamp: Timestamp(3),
    });
    assert_eq!(call.agent, "bob");
    assert_eq!(call.function, "receive_receipt");
    assert_eq!(call.payload.status, Status::Read { timestamp: Timestamp(3) });
    let pin = pin_message_call(
        PinMessageInput {
            message_hashes: vec!["h".to_string()],
            conversants: vec!["alice".to_string(), "bob".to_string()],
            status: "Pinned".to_string(),
            timestamp: Timestamp(4),
        },
        &"alice".to_string(),
    );
    assert_eq!(pin.agent, "bob");
    assert_eq!(pin.function, "sync_pins");
    assert_eq!(pin.payload.status, PinStatus::Pinned { timestamp: Timestamp(4) });
}
