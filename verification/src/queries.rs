//! The read functions: which messages the zome lists for a conversant, in
//! which order, and how many.

use vstd::prelude::*;

use crate::helpers::{
    fresh_bundle, get_receipts, get_replies, insert_message, insert_reply, receipts_read,
    replies_read, appended, with_reply, lists_key, AgentsView, ContentsView, P2PMessageHashTables,
    ReceiptsView, RepliesView,
};
use crate::table::Table;
use crate::types::{
    copy_string, is_kind, AgentPubKey, EntryHash, FileTypeView, Hashed, P2PMessage,
    P2PMessageFilterAgentTimestamp, P2PMessageFilterBatch, P2PMessageReceipt, P2PMessageView,
    contains_string, seconds_of, P2PFileBytes, P2PMessagePin, Payload, PayloadView, PinStatus, PinView, Timestamp,
    ZomeError,
};

verus! {

/// The tables while messages are being listed: the lists of each agent, the
/// bundles, and the replies.
pub type Listing = (AgentsView, ContentsView, RepliesView);

/// The lists and bundles once the message `m` with hash `h` is listed under `key`.
pub open spec fn put(st: (AgentsView, ContentsView), h: EntryHash, m: P2PMessageView, key: AgentPubKey) -> (
    AgentsView,
    ContentsView,
) {
    (st.0.insert(key@, appended(st.0, key@, h)), st.1.insert(h@, fresh_bundle(m)))
}

/// The listing once the message `m` with hash `h` is listed under `key` and
/// recorded as a reply.
pub open spec fn listed(st: Listing, h: EntryHash, m: P2PMessageView, key: AgentPubKey) -> Listing {
    let p = put((st.0, st.1), h, m, key);
    (p.0, p.1, with_reply(st.2, m, h))
}

/// The listing before any message is read: an empty list for `conversant`.
pub open spec fn start_for(conversant: AgentPubKey) -> Listing {
    (Map::empty().insert(conversant@, Seq::empty()), Map::empty(), Map::empty())
}

/// Whether `a` wrote or received the message `m`.
pub open spec fn involves(m: P2PMessageView, a: AgentPubKey) -> bool {
    m.author@ == a@ || m.receiver@ == a@
}

/// The tables that a read function returns once the messages are listed:
/// the listed messages get their receipts (from `receipts`, oldest first) and
/// the messages they reply to (from `messages`, oldest first).
pub open spec fn finished(
    st: Listing,
    receipts: Seq<Result<Hashed<P2PMessageReceipt>, ZomeError>>,
    messages: Seq<Result<Hashed<P2PMessage>, ZomeError>>,
) -> (AgentsView, ContentsView, ReceiptsView) {
    let rr = receipts_read((st.1, Map::empty()), receipts);
    (st.0, replies_read(rr.0, st.2, messages), rr.1)
}

/// The conversant of `me` in the message `m`: its receiver if `me` wrote it,
/// else its author.
pub open spec fn partner_of(m: P2PMessageView, me: AgentPubKey) -> AgentPubKey {
    if m.author@ == me@ {
        m.receiver
    } else {
        m.author
    }
}

/// One step of [`get_latest_messages_handler`]: a message is listed under its
/// conversant unless `batch_size` messages are already listed there.
pub open spec fn latest_step(
    st: Listing,
    q: Result<Hashed<P2PMessage>, ZomeError>,
    me: AgentPubKey,
    batch_size: nat,
) -> Listing {
    match q {
        Ok(h) => {
            let key = partner_of(h.content@, me);
            if st.0.contains_key(key@) && st.0[key@].len() >= batch_size {
                st
            } else {
                listed(st, h.hash, h.content@, key)
            }
        },
        Err(_) => st,
    }
}

/// The listing of [`get_latest_messages_handler`] once the messages `qs` are
/// read, newest (last) first.
pub open spec fn latest_listing(
    qs: Seq<Result<Hashed<P2PMessage>, ZomeError>>,
    me: AgentPubKey,
    batch_size: nat,
) -> Listing
    decreases qs.len(),
{
    if qs.len() == 0 {
        (Map::empty(), Map::empty(), Map::empty())
    } else {
        latest_step(latest_listing(qs.drop_first(), me, batch_size), qs.first(), me, batch_size)
    }
}

/// The latest messages of each of `me`'s conversations: reading the chain's
/// messages newest first, each message is listed under its conversant (its
/// receiver if `me` wrote it, else its author) while fewer than `batch_size`
/// messages are listed there (the first message of a conversant is always
/// listed). Entries that are not messages are passed over.
pub fn get_latest_messages_handler(
    me: &AgentPubKey,
    batch_size: u8,
    queried_messages: &Vec<Result<Hashed<P2PMessage>, ZomeError>>,
    queried_receipts: &Vec<Result<Hashed<P2PMessageReceipt>, ZomeError>>,
) -> (r: Result<P2PMessageHashTables, ZomeError>)
    ensures
        r matches Ok(t) && t@ == finished(
            latest_listing(queried_messages@, *me, batch_size as nat),
            queried_receipts@,
            queried_messages@,
        ),
{
    let mut agent_messages: Table<Vec<EntryHash>> = Table::new();
    let mut message_contents = Table::new();
    let mut receipt_contents = Table::new();
    let mut reply_pairs: Table<Vec<EntryHash>> = Table::new();
    let n = queried_messages.len();
    let mut i: usize = n;
    let ghost qs = queried_messages@;
    proof {
        assert(qs.subrange(n as int, n as int) =~= Seq::<Result<Hashed<P2PMessage>, ZomeError>>::empty());
        assert((agent_messages@, message_contents@, reply_pairs@) =~= latest_listing(
            qs.subrange(n as int, n as int), *me, batch_size as nat));
    }
    while i > 0
        invariant
            n == qs.len(),
            qs == queried_messages@,
            i <= n,
            (agent_messages@, message_contents@, reply_pairs@) == latest_listing(
                qs.subrange(i as int, n as int),
                *me,
                batch_size as nat,
            ),
        decreases i,
    {
        i = i - 1;
        proof {
            assert(qs.subrange(i as int, n as int).drop_first() =~= qs.subrange(i + 1, n as int));
            assert(qs.subrange(i as int, n as int).first() == qs[i as int]);
        }
        if let Ok(message) = &queried_messages[i] {
            let message_entry = &message.content;
            let key = if message_entry.author == *me {
                copy_string(&message_entry.receiver)
            } else {
                copy_string(&message_entry.author)
            };
            let full = match agent_messages.get(&key) {
                Some(messages) => messages.len() >= batch_size as usize,
                None => false,
            };
            if !full {
                if message_entry.reply_to.is_some() {
                    insert_reply(&mut reply_pairs, message_entry.clone(), copy_string(&message.hash));
                }
                let _ = insert_message(
                    &mut agent_messages,
                    &mut message_contents,
                    message_entry.clone(),
                    copy_string(&message.hash),
                    key,
                );
            }
        }
    }
    proof {
        assert(qs.subrange(0, n as int) =~= qs);
    }
    let ghost st = (agent_messages@, message_contents@, reply_pairs@);
    let _ = get_receipts(&mut message_contents, &mut receipt_contents, queried_receipts);
    let _ = get_replies(&reply_pairs, &mut message_contents, queried_messages);
    Ok(P2PMessageHashTables(agent_messages, message_contents, receipt_contents))
}

/// Whether the kind `payload_type` of [`get_messages_by_agent_by_timestamp_handler`]
/// asks for a message with payload `p`: "Text" or "All" for text, "File" or
/// "All" for files.
pub open spec fn day_selects(payload_type: Seq<char>, p: PayloadView) -> bool {
    match p {
        PayloadView::Text { .. } => payload_type == "Text"@ || payload_type == "All"@,
        PayloadView::File { .. } => payload_type == "File"@ || payload_type == "All"@,
    }
}

fn day_selected(payload_type: &String, p: &Payload) -> (b: bool)
    ensures
        b == day_selects(payload_type@, p@),
{
    match p {
        Payload::Text { .. } => is_kind(payload_type, "Text") || is_kind(payload_type, "All"),
        Payload::File { .. } => is_kind(payload_type, "File") || is_kind(payload_type, "All"),
    }
}

/// The microseconds in a day, less one second.
pub open spec fn day_span() -> int {
    86399int * 1000000int
}

/// One step of [`get_messages_by_agent_by_timestamp_handler`]: a message is
/// listed when it was sent between `day_start` and `day_end`, involves the
/// conversant, and is of the asked kind.
pub open spec fn day_step(
    st: Listing,
    q: Result<Hashed<P2PMessage>, ZomeError>,
    filter: P2PMessageFilterAgentTimestamp,
    day_start: int,
    day_end: int,
) -> Listing {
    match q {
        Ok(h) => {
            let m = h.content@;
            if day_start <= m.time_sent.0 <= day_end && involves(m, filter.conversant)
                && day_selects(filter.payload_type@, m.payload) {
                listed(st, h.hash, m, filter.conversant)
            } else {
                st
            }
        },
        Err(_) => st,
    }
}

/// The listing of [`get_messages_by_agent_by_timestamp_handler`] once the
/// messages `qs` are read, newest (last) first.
pub open spec fn day_listing(
    qs: Seq<Result<Hashed<P2PMessage>, ZomeError>>,
    filter: P2PMessageFilterAgentTimestamp,
    day_start: int,
    day_end: int,
) -> Listing
    decreases qs.len(),
{
    if qs.len() == 0 {
        start_for(filter.conversant)
    } else {
        day_step(day_listing(qs.drop_first(), filter, day_start, day_end), qs.first(), filter, day_start, day_end)
    }
}

/// The messages exchanged with the filter's conversant on one day: those sent
/// from `filter.date` to 86399 seconds later, both included, of the asked
/// kind, listed newest first under the conversant. Entries that are not
/// messages are passed over.
pub fn get_messages_by_agent_by_timestamp_handler(
    filter: &P2PMessageFilterAgentTimestamp,
    queried_messages: &Vec<Result<Hashed<P2PMessage>, ZomeError>>,
    queried_receipts: &Vec<Result<Hashed<P2PMessageReceipt>, ZomeError>>,
) -> (r: Result<P2PMessageHashTables, ZomeError>)
    requires
        filter.date.0 + day_span() <= i64::MAX,
    ensures
        r matches Ok(t) && t@ == finished(
            day_listing(queried_messages@, *filter, filter.date.0 as int, filter.date.0 + day_span()),
            queried_receipts@,
            queried_messages@,
        ),
{
    let mut agent_messages: Table<Vec<EntryHash>> = Table::new();
    agent_messages.insert(copy_string(&filter.conversant), Vec::new());
    let mut message_contents = Table::new();
    let mut receipt_contents = Table::new();
    let mut reply_pairs: Table<Vec<EntryHash>> = Table::new();

    let day_start = filter.date.as_micros();
    let day_end = day_start + 86399 * 1000000;
    let ghost fv = *filter;

    let n = queried_messages.len();
    let mut i: usize = n;
    let ghost qs = queried_messages@;
    proof {
        assert(qs.subrange(n as int, n as int) =~= Seq::<Result<Hashed<P2PMessage>, ZomeError>>::empty());
        assert((agent_messages@, message_contents@, reply_pairs@) =~= day_listing(
            qs.subrange(n as int, n as int), fv, day_start as int, day_end as int));
    }
    while i > 0
        invariant
            n == qs.len(),
            qs == queried_messages@,
            fv == *filter,
            i <= n,
            (agent_messages@, message_contents@, reply_pairs@) == day_listing(
                qs.subrange(i as int, n as int),
                fv,
                day_start as int,
                day_end as int,
            ),
        decreases i,
    {
        i = i - 1;
        proof {
            assert(qs.subrange(i as int, n as int).drop_first() =~= qs.subrange(i + 1, n as int));
            assert(qs.subrange(i as int, n as int).first() == qs[i as int]);
        }
        if let Ok(message) = &queried_messages[i] {
            let message_entry = &message.content;
            let t = message_entry.time_sent.as_micros();
            if t >= day_start && t <= day_end && (message_entry.author == filter.conversant
                || message_entry.receiver == filter.conversant) && day_selected(
                &filter.payload_type,
                &message_entry.payload,
            ) {
                if message_entry.reply_to.is_some() {
                    insert_reply(&mut reply_pairs, message_entry.clone(), copy_string(&message.hash));
                }
                let _ = insert_message(
                    &mut agent_messages,
                    &mut message_contents,
                    message_entry.clone(),
                    copy_string(&message.hash),
                    copy_string(&filter.conversant),
                );
            }
        }
    }
    proof {
        assert(qs.subrange(0, n as int) =~= qs);
    }
    let _ = get_receipts(&mut message_contents, &mut receipt_contents, queried_receipts);
    let _ = get_replies(&reply_pairs, &mut message_contents, queried_messages);
    Ok(P2PMessageHashTables(agent_messages, message_contents, receipt_contents))
}

/// Whether the kind `payload_type` of a batch filter asks for a message with
/// payload `p`: "Text" or "All" for text; "Media", "File" or "All" for
/// pictures and videos; "Other", "File" or "All" for other files.
pub open spec fn batch_selects(payload_type: Seq<char>, p: PayloadView) -> bool {
    match p {
        PayloadView::Text { .. } => payload_type == "Text"@ || payload_type == "All"@,
        PayloadView::File { file_type, .. } => match file_type {
            FileTypeView::Image { .. } | FileTypeView::Video { .. } => payload_type == "Media"@
                || payload_type == "File"@ || payload_type == "All"@,
            FileTypeView::Other => payload_type == "Other"@ || payload_type == "File"@
                || payload_type == "All"@,
        },
    }
}

fn batch_selected(payload_type: &String, p: &Payload) -> (b: bool)
    ensures
        b == batch_selects(payload_type@, p@),
{
    match p {
        Payload::Text { .. } => is_kind(payload_type, "Text") || is_kind(payload_type, "All"),
        Payload::File { file_type, .. } => match file_type {
            crate::types::FileType::Image { .. } | crate::types::FileType::Video { .. } => is_kind(
                payload_type,
                "Media",
            ) || is_kind(payload_type, "File") || is_kind(payload_type, "All"),
            crate::types::FileType::Other => is_kind(payload_type, "Other") || is_kind(
                payload_type,
                "File",
            ) || is_kind(payload_type, "All"),
        },
    }
}

/// Whether the message with hash `h` is not the last message fetched.
pub open spec fn not_last_fetched(last: Option<EntryHash>, h: EntryHash) -> bool {
    match last {
        Some(id) => id@ != h@,
        None => true,
    }
}

/// Whether a message with hash `h` passes a batch filter (apart from its time).
pub open spec fn batch_passes(filter: P2PMessageFilterBatch, h: EntryHash, m: P2PMessageView) -> bool {
    &&& not_last_fetched(filter.last_fetched_message_id, h)
    &&& involves(m, filter.conversant)
    &&& batch_selects(filter.payload_type@, m.payload)
}

/// The time that a batch filter starts from: the last time fetched, else `now`.
pub open spec fn bound_of(filter: P2PMessageFilterBatch, now: Timestamp) -> Timestamp {
    match filter.last_fetched_timestamp {
        Some(t) => t,
        None => now,
    }
}

/// One step of [`get_next_batch_messages_handler`]. The state is an error,
/// or the listing with whether the batch is complete. A complete batch and an
/// error stay as they are; an entry that is not a message is an error; a
/// message is listed when it was sent in the second of `bound` or before and
/// passes the filter, and the batch is complete once `batch_size` messages
/// are listed.
pub open spec fn next_batch_step(
    r: Result<(Listing, bool), ZomeError>,
    q: Result<Hashed<P2PMessage>, ZomeError>,
    filter: P2PMessageFilterBatch,
    bound: Timestamp,
) -> Result<(Listing, bool), ZomeError> {
    match r {
        Err(e) => Err(e),
        Ok(p) => if p.1 {
            Ok(p)
        } else {
            match q {
                Err(e) => Err(e),
                Ok(h) => {
                    let m = h.content@;
                    if seconds_of(m.time_sent.0 as int) <= seconds_of(bound.0 as int) && batch_passes(
                        filter,
                        h.hash,
                        m,
                    ) {
                        let st = listed(p.0, h.hash, m, filter.conversant);
                        Ok((st, st.0[filter.conversant@].len() >= filter.batch_size))
                    } else {
                        Ok(p)
                    }
                },
            }
        },
    }
}

/// The state of [`get_next_batch_messages_handler`] once the messages `qs`
/// are read, newest (last) first.
pub open spec fn next_batch_listing(
    qs: Seq<Result<Hashed<P2PMessage>, ZomeError>>,
    filter: P2PMessageFilterBatch,
    bound: Timestamp,
) -> Result<(Listing, bool), ZomeError>
    decreases qs.len(),
{
    if qs.len() == 0 {
        Ok((start_for(filter.conversant), false))
    } else {
        next_batch_step(next_batch_listing(qs.drop_first(), filter, bound), qs.first(), filter, bound)
    }
}

proof fn lemma_next_batch_settled(
    qs: Seq<Result<Hashed<P2PMessage>, ZomeError>>,
    filter: P2PMessageFilterBatch,
    bound: Timestamp,
    i: int,
    j: int,
)
    requires
        0 <= j <= i <= qs.len(),
        match next_batch_listing(qs.subrange(i, qs.len() as int), filter, bound) {
            Err(_) => true,
            Ok(p) => p.1,
        },
    ensures
        next_batch_listing(qs.subrange(j, qs.len() as int), filter, bound) == next_batch_listing(
            qs.subrange(i, qs.len() as int),
            filter,
            bound,
        ),
    decreases i - j,
{
    if j < i {
        lemma_next_batch_settled(qs, filter, bound, i, j + 1);
        assert(qs.subrange(j, qs.len() as int).drop_first() =~= qs.subrange(j + 1, qs.len() as int));
    }
}

/// The batch of messages exchanged with the filter's conversant before the
/// last one fetched: reading the chain's messages newest first, a message is
/// listed under the conversant when it was sent in the same second as the
/// filter's time (the last time fetched, else `now`) or before, is not the
/// last message fetched, and is of the asked kind; reading stops once
/// `batch_size` messages are listed. An entry that is not a message, read
/// before the batch is complete, is an error.
pub fn get_next_batch_messages_handler(
    filter: &P2PMessageFilterBatch,
    now: Timestamp,
    queried_messages: &Vec<Result<Hashed<P2PMessage>, ZomeError>>,
    queried_receipts: &Vec<Result<Hashed<P2PMessageReceipt>, ZomeError>>,
) -> (r: Result<P2PMessageHashTables, ZomeError>)
    ensures
        match next_batch_listing(queried_messages@, *filter, bound_of(*filter, now)) {
            Err(e) => r == Err::<P2PMessageHashTables, ZomeError>(e),
            Ok(p) => r matches Ok(t) && t@ == finished(
                p.0,
                queried_receipts@,
                queried_messages@,
            ),
        },
{
    let mut agent_messages: Table<Vec<EntryHash>> = Table::new();
    agent_messages.insert(copy_string(&filter.conversant), Vec::new());
    let mut message_contents = Table::new();
    let mut receipt_contents = Table::new();
    let mut reply_pairs: Table<Vec<EntryHash>> = Table::new();

    let filter_timestamp = match filter.last_fetched_timestamp {
        Some(timestamp) => timestamp,
        None => now,
    };
    let bound_seconds = filter_timestamp.as_seconds_and_nanos().0;
    let ghost fv = *filter;

    let n = queried_messages.len();
    let mut i: usize = n;
    let mut complete = false;
    let ghost qs = queried_messages@;
    proof {
        assert(qs.subrange(n as int, n as int) =~= Seq::<Result<Hashed<P2PMessage>, ZomeError>>::empty());
        assert(next_batch_listing(qs.subrange(n as int, n as int), fv, filter_timestamp) == Ok::<
            (Listing, bool),
            ZomeError,
        >(((agent_messages@, message_contents@, reply_pairs@), false)));
    }
    while i > 0 && !complete
        invariant
            n == qs.len(),
            qs == queried_messages@,
            fv == *filter,
            filter_timestamp == bound_of(fv, now),
            bound_seconds == seconds_of(filter_timestamp.0 as int),
            i <= n,
            agent_messages@.contains_key(fv.conversant@),
            next_batch_listing(qs.subrange(i as int, n as int), fv, filter_timestamp) == Ok::<
                (Listing, bool),
                ZomeError,
            >(((agent_messages@, message_contents@, reply_pairs@), complete)),
        decreases i,
    {
        i = i - 1;
        proof {
            assert(qs.subrange(i as int, n as int).drop_first() =~= qs.subrange(i + 1, n as int));
            assert(qs.subrange(i as int, n as int).first() == qs[i as int]);
        }
        match &queried_messages[i] {
            Err(e) => {
                proof {
                    lemma_next_batch_settled(qs, fv, filter_timestamp, i as int, 0);
                    assert(qs.subrange(0, n as int) =~= qs);
                }
                return Err(e.clone());
            },
            Ok(message) => {
                let message_entry = &message.content;
                let last_ok = match &filter.last_fetched_message_id {
                    Some(id) => *id != message.hash,
                    None => true,
                };
                if message_entry.time_sent.as_seconds_and_nanos().0 <= bound_seconds && last_ok && (
                message_entry.author == filter.conversant || message_entry.receiver
                    == filter.conversant) && batch_selected(
                    &filter.payload_type,
                    &message_entry.payload,
                ) {
                    if message_entry.reply_to.is_some() {
                        insert_reply(
                            &mut reply_pairs,
                            message_entry.clone(),
                            copy_string(&message.hash),
                        );
                    }
                    let current_batch_size = insert_message(
                        &mut agent_messages,
                        &mut message_contents,
                        message_entry.clone(),
                        copy_string(&message.hash),
                        copy_string(&filter.conversant),
                    );
                    if let Ok(size) = current_batch_size {
                        if size >= filter.batch_size as usize {
                            complete = true;
                        }
                    }
                }
            },
        }
    }
    proof {
        if complete {
            lemma_next_batch_settled(qs, fv, filter_timestamp, i as int, 0);
        }
        assert(qs.subrange(0, n as int) =~= qs);
    }
    let _ = get_receipts(&mut message_contents, &mut receipt_contents, queried_receipts);
    let _ = get_replies(&reply_pairs, &mut message_contents, queried_messages);
    Ok(P2PMessageHashTables(agent_messages, message_contents, receipt_contents))
}

/// One step of the first pass of [`get_next_messages_handler`]: a message sent
/// at the filter's time or later that passes the filter is kept (after those
/// already kept) and recorded as a reply. The state is the replies and the
/// kept messages with their hashes.
pub open spec fn later_step(
    st: (RepliesView, Seq<(EntryHash, P2PMessageView)>),
    q: Result<Hashed<P2PMessage>, ZomeError>,
    filter: P2PMessageFilterBatch,
    bound: Timestamp,
) -> (RepliesView, Seq<(EntryHash, P2PMessageView)>) {
    match q {
        Ok(h) => {
            let m = h.content@;
            if m.time_sent.0 >= bound.0 && batch_passes(filter, h.hash, m) {
                (with_reply(st.0, m, h.hash), st.1.push((h.hash, m)))
            } else {
                st
            }
        },
        Err(_) => st,
    }
}

/// The first pass of [`get_next_messages_handler`] over the messages `qs`,
/// newest (last) first.
pub open spec fn later_messages_of(
    qs: Seq<Result<Hashed<P2PMessage>, ZomeError>>,
    filter: P2PMessageFilterBatch,
    bound: Timestamp,
) -> (RepliesView, Seq<(EntryHash, P2PMessageView)>)
    decreases qs.len(),
{
    if qs.len() == 0 {
        (Map::empty(), Seq::empty())
    } else {
        later_step(later_messages_of(qs.drop_first(), filter, bound), qs.first(), filter, bound)
    }
}

/// The lists and bundles once the messages `items` are listed under `key`, in order.
pub open spec fn put_all(
    st: (AgentsView, ContentsView),
    items: Seq<(EntryHash, P2PMessageView)>,
    key: AgentPubKey,
) -> (AgentsView, ContentsView)
    decreases items.len(),
{
    if items.len() == 0 {
        st
    } else {
        let p = put_all(st, items.drop_last(), key);
        put(p, items.last().0, items.last().1, key)
    }
}

/// Where the listed part of `n` kept messages starts: the last `batch_size` of them are listed.
pub open spec fn batch_start(n: nat, batch_size: nat) -> int {
    if n > batch_size {
        n - batch_size
    } else {
        0
    }
}

/// The listing of [`get_next_messages_handler`].
pub open spec fn next_listing(
    qs: Seq<Result<Hashed<P2PMessage>, ZomeError>>,
    filter: P2PMessageFilterBatch,
    bound: Timestamp,
) -> Listing {
    let later = later_messages_of(qs, filter, bound);
    let start = start_for(filter.conversant);
    let p = put_all(
        (start.0, start.1),
        later.1.subrange(batch_start(later.1.len(), filter.batch_size as nat), later.1.len() as int),
        filter.conversant,
    );
    (p.0, p.1, later.0)
}

/// The messages exchanged with the filter's conversant after the last one
/// fetched: reading the chain's messages newest first, the messages sent at
/// the filter's time (the last time fetched, else `now`) or later that are
/// not the last message fetched and are of the asked kind are kept; the last
/// `batch_size` of those kept are listed under the conversant, in the order
/// in which they were read. Entries that are not messages are passed over.
pub fn get_next_messages_handler(
    filter: &P2PMessageFilterBatch,
    now: Timestamp,
    queried_messages: &Vec<Result<Hashed<P2PMessage>, ZomeError>>,
    queried_receipts: &Vec<Result<Hashed<P2PMessageReceipt>, ZomeError>>,
) -> (r: Result<P2PMessageHashTables, ZomeError>)
    ensures
        r matches Ok(t) && t@ == finished(
            next_listing(queried_messages@, *filter, bound_of(*filter, now)),
            queried_receipts@,
            queried_messages@,
        ),
{
    let mut agent_messages: Table<Vec<EntryHash>> = Table::new();
    agent_messages.insert(copy_string(&filter.conversant), Vec::new());
    let mut message_contents = Table::new();
    let mut receipt_contents = Table::new();
    let mut reply_pairs: Table<Vec<EntryHash>> = Table::new();
    let mut later_message_hashes: Vec<EntryHash> = Vec::new();
    let mut later_messages: Vec<P2PMessage> = Vec::new();

    let filter_timestamp = match filter.last_fetched_timestamp {
        Some(timestamp) => timestamp,
        None => now,
    };
    let bound_micros = filter_timestamp.as_micros();
    let ghost fv = *filter;

    let n = queried_messages.len();
    let mut i: usize = n;
    let ghost qs = queried_messages@;
    proof {
        assert(qs.subrange(n as int, n as int) =~= Seq::<Result<Hashed<P2PMessage>, ZomeError>>::empty());
    }
    while i > 0
        invariant
            n == qs.len(),
            qs == queried_messages@,
            fv == *filter,
            filter_timestamp == bound_of(fv, now),
            bound_micros == filter_timestamp.0,
            i <= n,
            ({
                let later = later_messages_of(qs.subrange(i as int, n as int), fv, filter_timestamp);
                &&& reply_pairs@ == later.0
                &&& later_message_hashes@.len() == later.1.len()
                &&& later_messages@.len() == later.1.len()
                &&& forall|k: int| 0 <= k < later.1.len() ==> later_message_hashes@[k] == (
                    #[trigger] later.1[k]).0 && later_messages@[k]@ == later.1[k].1
            }),
        decreases i,
    {
        i = i - 1;
        proof {
            assert(qs.subrange(i as int, n as int).drop_first() =~= qs.subrange(i + 1, n as int));
            assert(qs.subrange(i as int, n as int).first() == qs[i as int]);
        }
        if let Ok(message) = &queried_messages[i] {
            let message_entry = &message.content;
            let last_ok = match &filter.last_fetched_message_id {
                Some(id) => *id != message.hash,
                None => true,
            };
            if message_entry.time_sent.as_micros() >= bound_micros && last_ok && (
            message_entry.author == filter.conversant || message_entry.receiver
                == filter.conversant) && batch_selected(&filter.payload_type, &message_entry.payload) {
                if message_entry.reply_to.is_some() {
                    insert_reply(&mut reply_pairs, message_entry.clone(), copy_string(&message.hash));
                }
                later_message_hashes.push(copy_string(&message.hash));
                later_messages.push(message_entry.clone());
            }
        }
    }
    proof {
        assert(qs.subrange(0, n as int) =~= qs);
    }
    let ghost later = later_messages_of(qs, fv, filter_timestamp);
    let total = later_messages.len();
    let mut start_index: usize = 0;
    if total > filter.batch_size as usize {
        start_index = total - filter.batch_size as usize;
    }
    let ghost chosen = later.1.subrange(start_index as int, total as int);
    let mut index = start_index;
    proof {
        assert(chosen.subrange(0, 0) =~= Seq::<(EntryHash, P2PMessageView)>::empty());
    }
    while index < total
        invariant
            start_index <= index <= total,
            fv == *filter,
            total == later.1.len(),
            chosen == later.1.subrange(start_index as int, total as int),
            later_message_hashes@.len() == total,
            later_messages@.len() == total,
            forall|k: int| 0 <= k < later.1.len() ==> later_message_hashes@[k] == (
                #[trigger] later.1[k]).0 && later_messages@[k]@ == later.1[k].1,
            (agent_messages@, message_contents@) == put_all(
                (start_for(fv.conversant).0, start_for(fv.conversant).1),
                chosen.subrange(0, index - start_index),
                fv.conversant,
            ),
        decreases total - index,
    {
        proof {
            let prefix = chosen.subrange(0, index + 1 - start_index);
            assert(prefix.drop_last() =~= chosen.subrange(0, index - start_index));
            assert(prefix.last() == later.1[index as int]);
        }
        let ghost before = (agent_messages@, message_contents@);
        proof {
            assert(later_message_hashes@[index as int] == later.1[index as int].0);
            assert(later_messages@[index as int]@ == later.1[index as int].1);
        }
        let m = later_messages[index].clone();
        let h = copy_string(&later_message_hashes[index]);
        let key = copy_string(&filter.conversant);
        proof {
            assert(m@ == later.1[index as int].1);
            assert(h == later.1[index as int].0);
            assert(key == fv.conversant);
        }
        let _ = insert_message(&mut agent_messages, &mut message_contents, m, h, key);
        proof {
            assert((agent_messages@, message_contents@) == put(
                before,
                later.1[index as int].0,
                later.1[index as int].1,
                fv.conversant,
            ));
        }
        index = index + 1;
    }
    proof {
        assert(chosen.subrange(0, total - start_index) =~= chosen);
        assert(agent_messages@ == next_listing(qs, fv, filter_timestamp).0);
    }
    let _ = get_receipts(&mut message_contents, &mut receipt_contents, queried_receipts);
    let _ = get_replies(&reply_pairs, &mut message_contents, queried_messages);
    Ok(P2PMessageHashTables(agent_messages, message_contents, receipt_contents))
}

/// For each message hash, the pin that decides its status.
pub type PinsView = Map<Seq<char>, PinView>;

/// `dest` once each of `ids` that is not a key of `other` is mapped to `pin`.
pub open spec fn marked(dest: PinsView, other: PinsView, ids: Seq<EntryHash>, pin: PinView) -> PinsView {
    Map::new(
        |k: Seq<char>| dest.contains_key(k) || (lists_key(ids, k) && !other.contains_key(k)),
        |k: Seq<char>| if lists_key(ids, k) && !other.contains_key(k) {
            pin
        } else {
            dest[k]
        },
    )
}

/// One step of the reading of pins in [`get_pinned_messages_handler`]. The
/// state is an error, or the pinned and the unpinned messages. A pin between
/// the conversants marks each of its messages with its status, unless the
/// message already has the other status.
pub open spec fn pin_step(
    r: Result<(PinsView, PinsView), ZomeError>,
    q: Result<Hashed<P2PMessagePin>, ZomeError>,
    conversant: AgentPubKey,
) -> Result<(PinsView, PinsView), ZomeError> {
    match r {
        Err(e) => Err(e),
        Ok(p) => match q {
            Err(e) => Err(e),
            Ok(h) => {
                let pin = h.content@;
                if lists_key(pin.conversants, conversant@) {
                    match pin.status {
                        PinStatus::Pinned { .. } => Ok((marked(p.0, p.1, pin.id, pin), p.1)),
                        PinStatus::Unpinned { .. } => Ok((p.0, marked(p.1, p.0, pin.id, pin))),
                    }
                } else {
                    Ok(p)
                }
            },
        },
    }
}

/// The pinned and unpinned messages once the pins `qs` are read, newest (last) first.
pub open spec fn pins_read(qs: Seq<Result<Hashed<P2PMessagePin>, ZomeError>>, conversant: AgentPubKey) -> Result<
    (PinsView, PinsView),
    ZomeError,
>
    decreases qs.len(),
{
    if qs.len() == 0 {
        Ok((Map::empty(), Map::empty()))
    } else {
        pin_step(pins_read(qs.drop_first(), conversant), qs.first(), conversant)
    }
}

/// One step of the listing of [`get_pinned_messages_handler`]: a pinned
/// message is listed under its receiver; an entry that is not a message is an
/// error.
pub open spec fn pinned_step(
    r: Result<(AgentsView, ContentsView), ZomeError>,
    q: Result<Hashed<P2PMessage>, ZomeError>,
    pinned: PinsView,
) -> Result<(AgentsView, ContentsView), ZomeError> {
    match r {
        Err(e) => Err(e),
        Ok(st) => match q {
            Err(e) => Err(e),
            Ok(h) => if pinned.contains_key(h.hash@) {
                Ok(put(st, h.hash, h.content@, h.content@.receiver))
            } else {
                Ok(st)
            },
        },
    }
}

/// The listing of [`get_pinned_messages_handler`] once the messages `qs` are
/// read, newest (last) first.
pub open spec fn pinned_listing(
    qs: Seq<Result<Hashed<P2PMessage>, ZomeError>>,
    conversant: AgentPubKey,
    pinned: PinsView,
) -> Result<(AgentsView, ContentsView), ZomeError>
    decreases qs.len(),
{
    if qs.len() == 0 {
        let s = start_for(conversant);
        Ok((s.0, s.1))
    } else {
        pinned_step(pinned_listing(qs.drop_first(), conversant, pinned), qs.first(), pinned)
    }
}

/// What [`get_pinned_messages_handler`] returns.
pub open spec fn pinned_tables(
    conversant: AgentPubKey,
    pins: Seq<Result<Hashed<P2PMessagePin>, ZomeError>>,
    messages: Seq<Result<Hashed<P2PMessage>, ZomeError>>,
    receipts: Seq<Result<Hashed<P2PMessageReceipt>, ZomeError>>,
) -> Result<(AgentsView, ContentsView, ReceiptsView), ZomeError> {
    match pins_read(pins, conversant) {
        Err(e) => Err(e),
        Ok(pp) => match pinned_listing(messages, conversant, pp.0) {
            Err(e) => Err(e),
            Ok(st) => {
                let rr = receipts_read((st.1, Map::empty()), receipts);
                Ok((st.0, rr.0, rr.1))
            },
        },
    }
}

proof fn lemma_pins_failed(
    qs: Seq<Result<Hashed<P2PMessagePin>, ZomeError>>,
    conversant: AgentPubKey,
    i: int,
    j: int,
)
    requires
        0 <= j <= i <= qs.len(),
        pins_read(qs.subrange(i, qs.len() as int), conversant) is Err,
    ensures
        pins_read(qs.subrange(j, qs.len() as int), conversant) == pins_read(
            qs.subrange(i, qs.len() as int),
            conversant,
        ),
    decreases i - j,
{
    if j < i {
        lemma_pins_failed(qs, conversant, i, j + 1);
        assert(qs.subrange(j, qs.len() as int).drop_first() =~= qs.subrange(j + 1, qs.len() as int));
    }
}

proof fn lemma_pinned_failed(
    qs: Seq<Result<Hashed<P2PMessage>, ZomeError>>,
    conversant: AgentPubKey,
    pinned: PinsView,
    i: int,
    j: int,
)
    requires
        0 <= j <= i <= qs.len(),
        pinned_listing(qs.subrange(i, qs.len() as int), conversant, pinned) is Err,
    ensures
        pinned_listing(qs.subrange(j, qs.len() as int), conversant, pinned) == pinned_listing(
            qs.subrange(i, qs.len() as int),
            conversant,
            pinned,
        ),
    decreases i - j,
{
    if j < i {
        lemma_pinned_failed(qs, conversant, pinned, i, j + 1);
        assert(qs.subrange(j, qs.len() as int).drop_first() =~= qs.subrange(j + 1, qs.len() as int));
    }
}

fn mark_pin(
    dest: &mut Table<P2PMessagePin>,
    other: &Table<P2PMessagePin>,
    pin: &P2PMessagePin,
)
    ensures
        final(dest)@ == marked(old(dest)@, other@, pin.id@, pin@),
{
    let ghost d0 = dest@;
    let n = pin.id.len();
    let mut j: usize = 0;
    proof {
        assert(dest@ =~= marked(d0, other@, pin.id@.take(0), pin@));
    }
    while j < n
        invariant
            n == pin.id@.len(),
            j <= n,
            dest@ == marked(d0, other@, pin.id@.take(j as int), pin@),
        decreases n - j,
    {
        let ghost prefix = pin.id@.take(j as int);
        let ghost next = pin.id@.take(j + 1);
        let ghost before = dest@;
        let message_hash = &pin.id[j];
        if !other.contains_key(message_hash) {
            dest.insert(copy_string(message_hash), pin.clone());
        }
        proof {
            assert forall|k: Seq<char>| lists_key(next, k) <==> (lists_key(prefix, k) || message_hash@ == k) by {
                if lists_key(next, k) {
                    let w = choose|w: int| 0 <= w < next.len() && #[trigger] next[w]@ == k;
                    if w < j {
                        assert(prefix[w] == next[w]);
                    }
                }
                if lists_key(prefix, k) {
                    let w = choose|w: int| 0 <= w < prefix.len() && #[trigger] prefix[w]@ == k;
                    assert(next[w] == prefix[w]);
                }
                if message_hash@ == k {
                    assert(next[j as int] == *message_hash);
                }
            }
            assert(dest@ =~= marked(d0, other@, next, pin@));
        }
        j = j + 1;
    }
    proof {
        assert(pin.id@.take(n as int) =~= pin.id@);
    }
}

/// The messages pinned in the conversation with `conversant`: reading the
/// pins between the conversants newest first, a message takes the status of
/// the newest pin that speaks of it; then, reading the chain's messages
/// newest first, each pinned message is listed under its receiver. An entry
/// that is not a pin, or not a message, is an error.
pub fn get_pinned_messages_handler(
    conversant: &AgentPubKey,
    queried_pins: &Vec<Result<Hashed<P2PMessagePin>, ZomeError>>,
    queried_messages: &Vec<Result<Hashed<P2PMessage>, ZomeError>>,
    queried_receipts: &Vec<Result<Hashed<P2PMessageReceipt>, ZomeError>>,
) -> (r: Result<P2PMessageHashTables, ZomeError>)
    ensures
        match pinned_tables(*conversant, queried_pins@, queried_messages@, queried_receipts@) {
            Err(e) => r == Err::<P2PMessageHashTables, ZomeError>(e),
            Ok(t) => r matches Ok(tables) && tables@ == t,
        },
{
    let mut pinned_messages: Table<P2PMessagePin> = Table::new();
    let mut unpinned_messages: Table<P2PMessagePin> = Table::new();
    let np = queried_pins.len();
    let mut i: usize = np;
    let ghost ps = queried_pins@;
    proof {
        assert(ps.subrange(np as int, np as int) =~= Seq::<Result<Hashed<P2PMessagePin>, ZomeError>>::empty());
    }
    while i > 0
        invariant
            np == ps.len(),
            ps == queried_pins@,
            i <= np,
            pins_read(ps.subrange(i as int, np as int), *conversant) == Ok::<
                (PinsView, PinsView),
                ZomeError,
            >((pinned_messages@, unpinned_messages@)),
        decreases i,
    {
        i = i - 1;
        proof {
            assert(ps.subrange(i as int, np as int).drop_first() =~= ps.subrange(i + 1, np as int));
            assert(ps.subrange(i as int, np as int).first() == ps[i as int]);
        }
        match &queried_pins[i] {
            Err(e) => {
                proof {
                    lemma_pins_failed(ps, *conversant, i as int, 0);
                    assert(ps.subrange(0, np as int) =~= ps);
                }
                return Err(e.clone());
            },
            Ok(pin) => {
                let pin_entry = &pin.content;
                if contains_string(&pin_entry.conversants, conversant) {
                    match pin_entry.status {
                        PinStatus::Pinned { .. } => {
                            mark_pin(&mut pinned_messages, &unpinned_messages, pin_entry);
                        },
                        PinStatus::Unpinned { .. } => {
                            mark_pin(&mut unpinned_messages, &pinned_messages, pin_entry);
                        },
                    }
                }
            },
        }
    }
    proof {
        assert(ps.subrange(0, np as int) =~= ps);
    }

    let mut agent_messages: Table<Vec<EntryHash>> = Table::new();
    agent_messages.insert(copy_string(conversant), Vec::new());
    let mut message_contents = Table::new();
    let mut receipt_contents = Table::new();
    let n = queried_messages.len();
    let mut i: usize = n;
    let ghost qs = queried_messages@;
    let ghost pinned = pinned_messages@;
    proof {
        assert(qs.subrange(n as int, n as int) =~= Seq::<Result<Hashed<P2PMessage>, ZomeError>>::empty());
    }
    while i > 0
        invariant
            n == qs.len(),
            qs == queried_messages@,
            i <= n,
            pinned == pinned_messages@,
            pins_read(queried_pins@, *conversant) matches Ok(pp) && pp.0 == pinned,
            pinned_listing(qs.subrange(i as int, n as int), *conversant, pinned) == Ok::<
                (AgentsView, ContentsView),
                ZomeError,
            >((agent_messages@, message_contents@)),
        decreases i,
    {
        i = i - 1;
        proof {
            assert(qs.subrange(i as int, n as int).drop_first() =~= qs.subrange(i + 1, n as int));
            assert(qs.subrange(i as int, n as int).first() == qs[i as int]);
        }
        match &queried_messages[i] {
            Err(e) => {
                proof {
                    lemma_pinned_failed(qs, *conversant, pinned, i as int, 0);
                    assert(qs.subrange(0, n as int) =~= qs);
                }
                return Err(e.clone());
            },
            Ok(message) => {
                if pinned_messages.contains_key(&message.hash) {
                    let _ = insert_message(
                        &mut agent_messages,
                        &mut message_contents,
                        message.content.clone(),
                        copy_string(&message.hash),
                        copy_string(&message.content.receiver),
                    );
                }
            },
        }
    }
    proof {
        assert(qs.subrange(0, n as int) =~= qs);
    }
    let _ = get_receipts(&mut message_contents, &mut receipt_contents, queried_receipts);
    Ok(P2PMessageHashTables(agent_messages, message_contents, receipt_contents))
}

/// For each file hash, the file's bytes.
pub type FilesView = Map<Seq<char>, Seq<u8>>;

/// One step of [`get_file_bytes_handler`]: a file whose hash was asked for is
/// kept, unless a file with that hash is kept already.
pub open spec fn file_step(
    files: FilesView,
    q: Result<Hashed<P2PFileBytes>, ZomeError>,
    file_hashes: Seq<EntryHash>,
) -> FilesView {
    match q {
        Ok(f) => if lists_key(file_hashes, f.hash@) && !files.contains_key(f.hash@) {
            files.insert(f.hash@, f.content@)
        } else {
            files
        },
        Err(_) => files,
    }
}

/// The files kept once the files `qs` are read, oldest first.
pub open spec fn files_read(qs: Seq<Result<Hashed<P2PFileBytes>, ZomeError>>, file_hashes: Seq<EntryHash>) -> FilesView
    decreases qs.len(),
{
    if qs.len() == 0 {
        Map::empty()
    } else {
        file_step(files_read(qs.drop_last(), file_hashes), qs.last(), file_hashes)
    }
}

/// The bytes of the files with the hashes `file_hashes`: reading the chain's
/// files oldest first, the first file with each asked hash. Entries that are
/// not files are passed over.
pub fn get_file_bytes_handler(
    file_hashes: &Vec<EntryHash>,
    queried_files: &Vec<Result<Hashed<P2PFileBytes>, ZomeError>>,
) -> (r: Result<Table<P2PFileBytes>, ZomeError>)
    ensures
        r matches Ok(t) && t@ == files_read(queried_files@, file_hashes@),
{
    let mut files: Table<P2PFileBytes> = Table::new();
    let n = queried_files.len();
    let mut i: usize = 0;
    proof {
        assert(queried_files@.take(0) =~= Seq::<Result<Hashed<P2PFileBytes>, ZomeError>>::empty());
    }
    while i < n
        invariant
            n == queried_files@.len(),
            i <= n,
            files@ == files_read(queried_files@.take(i as int), file_hashes@),
        decreases n - i,
    {
        proof {
            assert(queried_files@.take(i + 1).drop_last() =~= queried_files@.take(i as int));
        }
        if let Ok(file) = &queried_files[i] {
            if contains_string(file_hashes, &file.hash) {
                if !files.contains_key(&file.hash) {
                    files.insert(copy_string(&file.hash), file.content.clone());
                }
            }
        }
        i = i + 1;
    }
    proof {
        assert(queried_files@.take(n as int) =~= queried_files@);
    }
    Ok(files)
}

} // verus!
