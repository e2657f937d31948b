use p2pmessage::helpers::P2PMessageHashTables;
use p2pmessage::queries::{
    get_file_bytes_handler, get_latest_messages_handler, get_messages_by_agent_by_timestamp_handler,
    get_next_batch_messages_handler, get_next_messages_handler, get_pinned_messages_handler,
};
use p2pmessage::types::{
    Hashed, P2PFileBytes, P2PMessage, P2PMessageFilterAgentTimestamp, P2PMessageFilterBatch, P2PMessagePin,
    P2PMessageReceipt, Payload, PinStatus, Status, Timestamp, ZomeError,
};

fn text(author: &str, receiver: &str, body: &str, micros: i64) -> P2PMessage {
    P2PMessage {
        author: author.to_string(),
        receiver: receiver.to_string(),
        payload: Payload::Text { payload: body.to_string() },
        time_sent: Timestamp(micros),
        reply_to: None,
    }
}

fn reply(author: &str, receiver: &str, body: &str, micros: i64, to: &str) -> P2PMessage {
    let mut m = text(author, receiver, body, micros);
    m.reply_to = Some(to.to_string());
    m
}

fn entry<T>(hash: &str, content: T) -> Result<Hashed<T>, ZomeError> {
    Ok(Hashed { hash: hash.to_string(), content })
}

fn listed(t: &P2PMessageHashTables, agent: &str) -> Vec<String> {
    t.0.get(&agent.to_string()).cloned().expect("agent listed")
}

fn batch_filter(conversant: &str, size: u8, kind: &str) -> P2PMessageFilterBatch {
    P2PMessageFilterBatch {
        conversant: conversant.to_string(),
        batch_size: size,
        payload_type: kind.to_string(),
        last_fetched_timestamp: None,
        last_fetched_message_id: None,
    }
}

#[test]
fn latest_messages_keep_batch_size_per_conversant() {
    let messages = vec![
        entry("h1", text("alice", "bob", "one", 1_000_000)),
        entry("h2", text("bob", "alice", "two", 2_000_000)),
        entry("h3", text("alice", "carol", "three", 3_000_000)),
    ];
    let t = get_latest_messages_handler(&"alice".to_string(), 1, &messages, &vec![]).unwrap();
    assert_eq!(listed(&t, "bob"), vec!["h2".to_string()]);
    assert_eq!(listed(&t, "carol"), vec!["h3".to_string()]);
    assert_eq!(t.0.len(), 2);
    assert!(t.1.contains_key(&"h2".to_string()));
    assert!(t.1.contains_key(&"h3".to_string()));
    assert!(!t.1.contains_key(&"h1".to_string()));
}

#[test]
fn latest_messages_list_newest_first() {
    let messages = vec![
        entry("h1", text("alice", "bob", "one", 1)),
        entry("h2", text("bob", "alice", "two", 2)),
        entry("h3", text("alice", "bob", "three", 3)),
    ];
    let t = get_latest_messages_handler(&"alice".to_string(), 2, &messages, &vec![]).unwrap();
    assert_eq!(listed(&t, "bob"), vec!["h3".to_string(), "h2".to_string()]);
}

#[test]
fn latest_messages_with_zero_batch_keep_one() {
    let messages = vec![
        entry("h1", text("alice", "bob", "one", 1)),
        entry("h2", text("alice", "bob", "two", 2)),
    ];
    let t = get_latest_messages_handler(&"alice".to_string(), 0, &messages, &vec![]).unwrap();
    assert_eq!(listed(&t, "bob"), vec!["h2".to_string()]);
}

#[test]
fn latest_messages_pass_over_unreadable_entries() {
    let messages = vec![
        entry("h1", text("alice", "bob", "one", 1)),
        Err(ZomeError::Host("not a message".to_string())),
    ];
    let t = get_latest_messages_handler(&"alice".to_string(), 5, &messages, &vec![]).unwrap();
    assert_eq!(listed(&t, "bob"), vec!["h1".to_string()]);
}

#[test]
fn latest_messages_attach_receipts() {
    let messages = vec![entry("h1", text("alice", "bob", "one", 1))];
    let receipts = vec![
        entry("r1", P2PMessageReceipt { id: vec!["h1".to_string()], status: Status::Delivered { timestamp: Timestamp(5) } }),
        entry("r2", P2PMessageReceipt { id: vec!["other".to_string()], status: Status::Read { timestamp: Timestamp(6) } }),
    ];
    let t = get_latest_messages_handler(&"alice".to_string(), 5, &messages, &receipts).unwrap();
    let bundle = t.1.get(&"h1".to_string()).unwrap();
    assert_eq!(bundle.1, vec!["r1".to_string()]);
    assert!(t.2.contains_key(&"r1".to_string()));
    assert!(!t.2.contains_key(&"r2".to_string()));
    assert_eq!(t.2.len(), 1);
}

#[test]
fn latest_messages_show_replies() {
    let messages = vec![
        entry("h1", text("bob", "alice", "question", 1)),
        entry("h2", reply("alice", "bob", "answer", 2, "h1")),
    ];
    let t = get_latest_messages_handler(&"alice".to_string(), 5, &messages, &vec![]).unwrap();
    let bundle = t.1.get(&"h2".to_string()).unwrap();
    let shown = bundle.0.reply_to.as_ref().expect("reply shown");
    assert_eq!(shown.hash, "h1");
    assert_eq!(shown.author, "bob");
    let first = t.1.get(&"h1".to_string()).unwrap();
    assert!(first.0.reply_to.is_none());
}

#[test]
fn messages_of_one_day_are_filtered() {
    let day = 86_400_000_000i64;
    let messages = vec![
        entry("before", text("alice", "bob", "x", day - 1)),
        entry("start", text("alice", "bob", "x", day)),
        entry("other", text("alice", "carol", "x", day + 5)),
        entry("end", text("bob", "alice", "x", day + 86_399_000_000)),
        entry("after", text("bob", "alice", "x", day + 86_399_000_001)),
    ];
    let filter = P2PMessageFilterAgentTimestamp {
        conversant: "bob".to_string(),
        date: Timestamp(day),
        payload_type: "Text".to_string(),
    };
    let t = get_messages_by_agent_by_timestamp_handler(&filter, &messages, &vec![]).unwrap();
    assert_eq!(listed(&t, "bob"), vec!["end".to_string(), "start".to_string()]);
    assert_eq!(t.0.len(), 1);
}

#[test]
fn messages_of_one_day_for_file_kind_skip_text() {
    let messages = vec![entry("t", text("alice", "bob", "x", 10))];
    let filter = P2PMessageFilterAgentTimestamp {
        conversant: "bob".to_string(),
        date: Timestamp(0),
        payload_type: "File".to_string(),
    };
    let t = get_messages_by_agent_by_timestamp_handler(&filter, &messages, &vec![]).unwrap();
    assert_eq!(listed(&t, "bob"), Vec::<String>::new());
}

#[test]
fn next_batch_stops_at_batch_size() {
    let messages = vec![
        entry("h1", text("alice", "bob", "a", 1_000_000)),
        entry("h2", text("bob", "alice", "b", 2_000_000)),
        entry("h3", text("alice", "bob", "c", 3_000_000)),
    ];
    let t = get_next_batch_messages_handler(&batch_filter("bob", 2, "All"), Timestamp(10_000_000), &messages, &vec![])
        .unwrap();
    assert_eq!(listed(&t, "bob"), vec!["h3".to_string(), "h2".to_string()]);
}

#[test]
fn next_batch_starts_before_last_fetched() {
    let messages = vec![
        entry("h1", text("alice", "bob", "a", 1_000_000)),
        entry("h2", text("bob", "alice", "b", 2_000_000)),
        entry("h3", text("alice", "bob", "c", 3_000_000)),
    ];
    let mut filter = batch_filter("bob", 5, "Text");
    filter.last_fetched_timestamp = Some(Timestamp(2_500_000));
    filter.last_fetched_message_id = Some("h2".to_string());
    let t = get_next_batch_messages_handler(&filter, Timestamp(10_000_000), &messages, &vec![]).unwrap();
    assert_eq!(listed(&t, "bob"), vec!["h1".to_string()]);
}

#[test]
fn next_batch_compares_whole_seconds() {
    let messages = vec![entry("h1", text("alice", "bob", "a", 2_900_000))];
    let mut filter = batch_filter("bob", 5, "All");
    filter.last_fetched_timestamp = Some(Timestamp(2_100_000));
    let t = get_next_batch_messages_handler(&filter, Timestamp(0), &messages, &vec![]).unwrap();
    assert_eq!(listed(&t, "bob"), vec!["h1".to_string()]);
}

#[test]
fn next_batch_fails_on_unreadable_entry() {
    let messages = vec![
        Err(ZomeError::Host("broken".to_string())),
        entry("h1", text("alice", "bob", "a", 1_000_000)),
    ];
    let r = get_next_batch_messages_handler(&batch_filter("bob", 5, "All"), Timestamp(10_000_000), &messages, &vec![]);
    match r {
        Err(ZomeError::Host(s)) => assert_eq!(s, "broken"),
        _ => panic!("expected the entry's error"),
    }
}

#[test]
fn next_batch_complete_before_unreadable_entry() {
    let messages = vec![
        Err(ZomeError::Host("broken".to_string())),
        entry("h1", text("alice", "bob", "a", 1_000_000)),
    ];
    let t = get_next_batch_messages_handler(&batch_filter("bob", 1, "All"), Timestamp(10_000_000), &messages, &vec![])
        .unwrap();
    assert_eq!(listed(&t, "bob"), vec!["h1".to_string()]);
}

#[test]
fn next_messages_keep_the_last_batch_read() {
    let messages = vec![
        entry("h1", text("alice", "bob", "a", 1_000_000)),
        entry("h2", text("bob", "alice", "b", 2_000_000)),
        entry("h3", text("alice", "bob", "c", 3_000_000)),
        entry("h4", text("alice", "bob", "d", 4_000_000)),
    ];
    let mut filter = batch_filter("bob", 2, "All");
    filter.last_fetched_timestamp = Some(Timestamp(2_000_000));
    let t = get_next_messages_handler(&filter, Timestamp(0), &messages, &vec![]).unwrap();
    assert_eq!(listed(&t, "bob"), vec!["h3".to_string(), "h2".to_string()]);
}

#[test]
fn next_messages_skip_last_fetched() {
    let messages = vec![
        entry("h2", text("bob", "alice", "b", 2_000_000)),
        entry("h3", text("alice", "bob", "c", 3_000_000)),
    ];
    let mut filter = batch_filter("bob", 5, "All");
    filter.last_fetched_timestamp = Some(Timestamp(2_000_000));
    filter.last_fetched_message_id = Some("h2".to_string());
    let t = get_next_messages_handler(&filter, Timestamp(0), &messages, &vec![]).unwrap();
    assert_eq!(listed(&t, "bob"), vec!["h3".to_string()]);
}

fn pin(ids: &[&str], conversants: &[&str], pinned: bool, at: i64) -> P2PMessagePin {
    P2PMessagePin {
        id: ids.iter().map(|s| s.to_string()).collect(),
        conversants: conversants.iter().map(|s| s.to_string()).collect(),
        status: if pinned {
            PinStatus::Pinned { timestamp: Timestamp(at) }
        } else {
            PinStatus::Unpinned { timestamp: Timestamp(at) }
        },
    }
}

#[test]
fn pinned_messages_follow_newest_pin() {
    let pins = vec![
        entry("p1", pin(&["h1", "h2"], &["alice", "bob"], true, 1)),
        entry("p2", pin(&["h2"], &["alice", "bob"], false, 2)),
        entry("p3", pin(&["h3"], &["carol", "dave"], true, 3)),
    ];
    let messages = vec![
        entry("h1", text("alice", "bob", "a", 1)),
        entry("h2", text("bob", "alice", "b", 2)),
        entry("h3", text("carol", "dave", "c", 3)),
    ];
    let t = get_pinned_messages_handler(&"bob".to_string(), &pins, &messages, &vec![]).unwrap();
    assert_eq!(listed(&t, "bob"), vec!["h1".to_string()]);
    assert!(!t.1.contains_key(&"h2".to_string()));
    assert!(!t.1.contains_key(&"h3".to_string()));
}

#[test]
fn pinned_messages_fail_on_unreadable_pin() {
    let pins = vec![Err(ZomeError::Host("bad pin".to_string()))];
    let r = get_pinned_messages_handler(&"bob".to_string(), &pins, &vec![], &vec![]);
    assert!(matches!(r, Err(ZomeError::Host(ref s)) if s == "bad pin"));
}

#[test]
fn file_bytes_keep_the_oldest_file_of_each_hash() {
    let files = vec![
        entry("f1", P2PFileBytes(vec![1, 2])),
        entry("f2", P2PFileBytes(vec![3])),
        entry("f1", P2PFileBytes(vec![9])),
    ];
    let t = get_file_bytes_handler(&vec!["f1".to_string(), "f3".to_string()], &files).unwrap();
    assert_eq!(t.len(), 1);
    assert_eq!(t.get(&"f1".to_string()).unwrap().0, vec![1, 2]);
    assert!(!t.contains_key(&"f2".to_string()));
}

fn assert_consistent(t: P2PMessageHashTables) {
    let P2PMessageHashTables(agents, contents, receipts) = t;
    let listed: Vec<String> = agents.into_pairs().into_iter().flat_map(|(_agent, hashes)| hashes).collect();
    let bundles = contents.into_pairs();
    for h in &listed {
        assert!(bundles.iter().any(|(k, _)| k == h), "listed message {} has a bundle", h);
    }
    let named: Vec<String> = bundles.iter().flat_map(|(_k, (_data, rs))| rs.clone()).collect();
    for (k, _) in &bundles {
        assert!(listed.contains(k), "bundle {} is listed", k);
    }
    for r in &named {
        assert!(receipts.contains_key(r), "receipt {} is stored", r);
    }
    for (k, (_data, rs)) in &bundles {
        for r in rs {
            let receipt = receipts.get(r).expect("named receipt is stored");
            assert!(receipt.id.contains(k), "receipt {} named by {} speaks of it", r, k);
        }
    }
    for (r, receipt) in receipts.into_pairs() {
        assert!(named.contains(&r), "stored receipt {} is named by a bundle", r);
        assert!(receipt.id.iter().any(|m| bundles.iter().any(|(k, _)| k == m)), "receipt {} speaks of a bundle", r);
    }
}

#[test]
fn tables_are_consistent_for_every_read() {
    let chain = || {
        vec![
            entry("h1", text("alice", "bob", "a", 1_000_000)),
            entry("h2", reply("bob", "alice", "b", 2_000_000, "h1")),
            entry("h3", text("alice", "carol", "c", 3_000_000)),
        ]
    };
    let receipts = || {
        vec![
            entry("r1", P2PMessageReceipt { id: vec!["h1".to_string(), "h3".to_string()], status: Status::Delivered { timestamp: Timestamp(4) } }),
            entry("r2", P2PMessageReceipt { id: vec!["h2".to_string()], status: Status::Read { timestamp: Timestamp(5) } }),
        ]
    };
    assert_consistent(get_latest_messages_handler(&"alice".to_string(), 3, &chain(), &receipts()).unwrap());
    let day = P2PMessageFilterAgentTimestamp {
        conversant: "bob".to_string(),
        date: Timestamp(0),
        payload_type: "All".to_string(),
    };
    assert_consistent(get_messages_by_agent_by_timestamp_handler(&day, &chain(), &receipts()).unwrap());
    assert_consistent(
        get_next_batch_messages_handler(&batch_filter("bob", 5, "All"), Timestamp(9_000_000), &chain(), &receipts()).unwrap(),
    );
    assert_consistent(get_next_messages_handler(&batch_filter("bob", 5, "All"), Timestamp(0), &chain(), &receipts()).unwrap());
    let pins = vec![entry("p", pin(&["h1", "h2"], &["alice", "bob"], true, 1))];
    assert_consistent(get_pinned_messages_handler(&"bob".to_string(), &pins, &chain(), &receipts()).unwrap());
}

#[test]
fn latest_messages_are_listed_under_their_conversant() {
    let messages = vec![
        entry("h1", text("alice", "bob", "a", 1)),
        entry("h2", text("carol", "alice", "b", 2)),
        entry("h3", text("bob", "alice", "c", 3)),
    ];
    let t = get_latest_messages_handler(&"alice".to_string(), 9, &messages, &vec![]).unwrap();
    assert_eq!(listed(&t, "bob"), vec!["h3".to_string(), "h1".to_string()]);
    assert_eq!(listed(&t, "carol"), vec!["h2".to_string()]);
}

#[test]
fn batches_page_through_the_conversation() {
    let messages: Vec<_> = (1..=5)
        .map(|i| entry(&format!("h{}", i), text("alice", "bob", "m", i * 1_000_000)))
        .collect();
    let first = get_next_batch_messages_handler(&batch_filter("bob", 2, "All"), Timestamp(9_000_000), &messages, &vec![])
        .unwrap();
    assert_eq!(listed(&first, "bob"), vec!["h5".to_string(), "h4".to_string()]);
    let mut next = batch_filter("bob", 2, "All");
    next.last_fetched_timestamp = Some(Timestamp(4_000_000));
    next.last_fetched_message_id = Some("h4".to_string());
    let second = get_next_batch_messages_handler(&next, Timestamp(9_000_000), &messages, &vec![]).unwrap();
    assert_eq!(listed(&second, "bob"), vec!["h3".to_string(), "h2".to_string()]);
    let mut last = batch_filter("bob", 2, "All");
    last.last_fetched_timestamp = Some(Timestamp(2_000_000));
    last.last_fetched_message_id = Some("h2".to_string());
    let third = get_next_batch_messages_handler(&last, Timestamp(9_000_000), &messages, &vec![]).unwrap();
    assert_eq!(listed(&third, "bob"), vec!["h1".to_string()]);
}
