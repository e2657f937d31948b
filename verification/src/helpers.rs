//! Building the hash tables that the zome's read functions return: the
//! messages of each conversant, the content of each message with the receipts
//! that speak of it, and the receipts themselves.

use vstd::prelude::*;

use crate::table::Table;
use crate::types::{
    copy_string, data_of, reply_to_of, AgentPubKey, EntryHash, Hashed, MessageDataView, P2PMessage,
    P2PMessageData, P2PMessageReceipt, P2PMessageReplyTo, P2PMessageView, ReceiptView, ReplyToView,
    ZomeError, error, P2PFileBytes,
};

verus! {

/// For each agent, the hashes of the messages listed for it.
pub type AgentsView = Map<Seq<char>, Seq<EntryHash>>;

/// A message shown with the hashes of the receipts that speak of it.
pub type MessageBundle = (P2PMessageData, Vec<EntryHash>);

/// The model of a [`MessageBundle`].
pub type BundleView = (MessageDataView, Seq<EntryHash>);

/// For each message hash, the message shown with its receipts.
pub type ContentsView = Map<Seq<char>, BundleView>;

/// For each receipt hash, the receipt.
pub type ReceiptsView = Map<Seq<char>, ReceiptView>;

/// For each message hash, the hashes of the messages that reply to it.
pub type RepliesView = Map<Seq<char>, Seq<EntryHash>>;

/// The three tables that the read functions return: the message hashes
/// listed for each agent, each listed message with the hashes of its
/// receipts, and those receipts.
pub struct P2PMessageHashTables(
    pub Table<Vec<EntryHash>>,
    pub Table<MessageBundle>,
    pub Table<P2PMessageReceipt>,
);

impl View for P2PMessageHashTables {
    type V = (AgentsView, ContentsView, ReceiptsView);

    open spec fn view(&self) -> (AgentsView, ContentsView, ReceiptsView) {
        (self.0@, self.1@, self.2@)
    }
}

/// The list stored under `key` with `h` added at its end (a new list if there was none).
pub open spec fn appended(m: Map<Seq<char>, Seq<EntryHash>>, key: Seq<char>, h: EntryHash) -> Seq<EntryHash> {
    if m.contains_key(key) {
        m[key].push(h)
    } else {
        seq![h]
    }
}

/// The bundle of a message that has just been listed: shown without a reply, with no receipt.
pub open spec fn fresh_bundle(m: P2PMessageView) -> BundleView {
    (data_of(m, None), Seq::empty())
}

/// The reply table once the message `m` with hash `h` is recorded as a reply
/// (unchanged when `m` replies to nothing).
pub open spec fn with_reply(replies: RepliesView, m: P2PMessageView, h: EntryHash) -> RepliesView {
    match m.reply_to {
        Some(r) => replies.insert(r@, appended(replies, r@, h)),
        None => replies,
    }
}

/// Lists the message `message_entry`, whose hash is `message_hash`, under
/// `key`, and stores its bundle. Returns the new length of the list under
/// `key` if there already was one, and 0 if the list was created.
pub fn insert_message(
    agent_messages: &mut Table<Vec<EntryHash>>,
    message_contents: &mut Table<MessageBundle>,
    message_entry: P2PMessage,
    message_hash: EntryHash,
    key: AgentPubKey,
) -> (r: Result<usize, ZomeError>)
    ensures
        final(agent_messages)@ == old(agent_messages)@.insert(
            key@,
            appended(old(agent_messages)@, key@, message_hash),
        ),
        final(message_contents)@ == old(message_contents)@.insert(
            message_hash@,
            fresh_bundle(message_entry@),
        ),
        r matches Ok(n) && n == (if old(agent_messages)@.contains_key(key@) {
            old(agent_messages)@[key@].len() + 1
        } else {
            0
        }),
{
    let ghost old_agents = agent_messages@;
    let mut message_array_length: usize = 0;
    match agent_messages.remove(&key) {
        Some(mut messages) => {
            messages.push(copy_string(&message_hash));
            message_array_length = messages.len();
            agent_messages.insert(key, messages);
        },
        None => {
            let mut messages: Vec<EntryHash> = Vec::new();
            messages.push(copy_string(&message_hash));
            agent_messages.insert(key, messages);
            proof {
                assert(messages@ =~= seq![message_hash]);
            }
        },
    }
    proof {
        assert(agent_messages@ =~= old_agents.insert(key@, appended(old_agents, key@, message_hash)));
    }
    let message_data = P2PMessageData {
        author: message_entry.author,
        receiver: message_entry.receiver,
        payload: message_entry.payload,
        time_sent: message_entry.time_sent,
        reply_to: None,
    };
    let receipts: Vec<EntryHash> = Vec::new();
    proof {
        assert(receipts@ =~= Seq::<EntryHash>::empty());
    }
    message_contents.insert(message_hash, (message_data, receipts));
    Ok(message_array_length)
}

/// Records the message `message_entry`, whose hash is `message_hash`, as a
/// reply to the message it replies to, if any.
pub fn insert_reply(
    reply_pairs: &mut Table<Vec<EntryHash>>,
    message_entry: P2PMessage,
    message_hash: EntryHash,
)
    ensures
        final(reply_pairs)@ == with_reply(old(reply_pairs)@, message_entry@, message_hash),
{
    if let Some(reply_to_hash) = message_entry.reply_to {
        let ghost old_replies = reply_pairs@;
        match reply_pairs.remove(&reply_to_hash) {
            Some(mut message_hashes) => {
                message_hashes.push(message_hash);
                reply_pairs.insert(reply_to_hash, message_hashes);
            },
            None => {
                let mut message_hashes: Vec<EntryHash> = Vec::new();
                message_hashes.push(message_hash);
                proof {
                    assert(message_hashes@ =~= seq![message_hash]);
                }
                reply_pairs.insert(reply_to_hash, message_hashes);
            },
        }
        proof {
            assert(reply_pairs@ =~= old_replies.insert(
                reply_to_hash@,
                appended(old_replies, reply_to_hash@, message_hash),
            ));
        }
    }
}

/// How many of `ids` are the key `k`.
pub open spec fn count_of(ids: Seq<EntryHash>, k: Seq<char>) -> nat
    decreases ids.len(),
{
    if ids.len() == 0 {
        0
    } else {
        count_of(ids.drop_last(), k) + if ids.last()@ == k { 1nat } else { 0nat }
    }
}

/// Whether one of `ids` is a key of `c`.
pub open spec fn mentions_listed(c: ContentsView, ids: Seq<EntryHash>) -> bool {
    exists|i: int| 0 <= i < ids.len() && #[trigger] c.contains_key(ids[i]@)
}

/// The bundles once the receipt with hash `rh`, which speaks of the messages
/// `ids`, is added to each listed message it speaks of (once per mention).
pub open spec fn with_receipt_hash(c: ContentsView, ids: Seq<EntryHash>, rh: EntryHash) -> ContentsView {
    Map::new(
        |k: Seq<char>| c.contains_key(k),
        |k: Seq<char>| (c[k].0, c[k].1 + Seq::new(count_of(ids, k), |i: int| rh)),
    )
}

/// The tables once one more queried receipt is read: a receipt that speaks of
/// a listed message is stored, and its hash is added to that message's bundle.
pub open spec fn receipt_step(
    st: (ContentsView, ReceiptsView),
    q: Result<Hashed<P2PMessageReceipt>, ZomeError>,
) -> (ContentsView, ReceiptsView) {
    match q {
        Ok(h) => (
            with_receipt_hash(st.0, h.content.id@, h.hash),
            if mentions_listed(st.0, h.content.id@) {
                st.1.insert(h.hash@, h.content@)
            } else {
                st.1
            },
        ),
        Err(_) => st,
    }
}

/// The tables once the queried receipts `qs` are read, oldest first.
pub open spec fn receipts_read(
    st: (ContentsView, ReceiptsView),
    qs: Seq<Result<Hashed<P2PMessageReceipt>, ZomeError>>,
) -> (ContentsView, ReceiptsView)
    decreases qs.len(),
{
    if qs.len() == 0 {
        st
    } else {
        receipt_step(receipts_read(st, qs.drop_last()), qs.last())
    }
}

/// Attaches to every listed message the receipts among `queried_receipts`
/// that speak of it, and stores those receipts. Entries that are not
/// receipts are passed over.
pub fn get_receipts(
    message_contents: &mut Table<MessageBundle>,
    receipt_contents: &mut Table<P2PMessageReceipt>,
    queried_receipts: &Vec<Result<Hashed<P2PMessageReceipt>, ZomeError>>,
) -> (r: Result<(), ZomeError>)
    ensures
        (final(message_contents)@, final(receipt_contents)@) == receipts_read(
            (old(message_contents)@, old(receipt_contents)@),
            queried_receipts@,
        ),
        r is Ok,
{
    let n = queried_receipts.len();
    let ghost c0 = message_contents@;
    let ghost r0 = receipt_contents@;
    let mut i: usize = 0;
    while i < n
        invariant
            n == queried_receipts@.len(),
            i <= n,
            (message_contents@, receipt_contents@) == receipts_read(
                (c0, r0),
                queried_receipts@.take(i as int),
            ),
        decreases n - i,
    {
        proof {
            assert(queried_receipts@.take(i + 1).drop_last() =~= queried_receipts@.take(i as int));
        }
        if let Ok(receipt) = &queried_receipts[i] {
            add_receipt(message_contents, receipt_contents, receipt);
        }
        i = i + 1;
    }
    proof {
        assert(queried_receipts@.take(n as int) =~= queried_receipts@);
    }
    Ok(())
}

fn add_receipt(
    message_contents: &mut Table<MessageBundle>,
    receipt_contents: &mut Table<P2PMessageReceipt>,
    receipt: &Hashed<P2PMessageReceipt>,
)
    ensures
        final(message_contents)@ == with_receipt_hash(
            old(message_contents)@,
            receipt.content.id@,
            receipt.hash,
        ),
        final(receipt_contents)@ == if mentions_listed(old(message_contents)@, receipt.content.id@) {
            old(receipt_contents)@.insert(receipt.hash@, receipt.content@)
        } else {
            old(receipt_contents)@
        },
{
    let ghost c0 = message_contents@;
    let ghost r0 = receipt_contents@;
    let ghost rh = receipt.hash;
    let ids = &receipt.content.id;
    let n = ids.len();
    let mut j: usize = 0;
    proof {
        assert(message_contents@ =~= with_receipt_hash(c0, ids@.take(0), rh));
    }
    while j < n
        invariant
            n == ids@.len(),
            j <= n,
            ids == &receipt.content.id,
            rh == receipt.hash,
            message_contents@ == with_receipt_hash(c0, ids@.take(j as int), rh),
            receipt_contents@ == if mentions_listed(c0, ids@.take(j as int)) {
                r0.insert(rh@, receipt.content@)
            } else {
                r0
            },
        decreases n - j,
    {
        let ghost before = message_contents@;
        let ghost prefix = ids@.take(j as int);
        let ghost next = ids@.take(j + 1);
        proof {
            assert(next.drop_last() =~= prefix);
            assert(next.last() == ids@[j as int]);
        }
        let id = &ids[j];
        if message_contents.contains_key(id) {
            receipt_contents.insert(copy_string(&receipt.hash), receipt.content.clone());
            let bundle = message_contents.remove(id);
            match bundle {
                Some(b) => {
                    let (data, mut receipts) = b;
                    receipts.push(copy_string(&receipt.hash));
                    message_contents.insert(copy_string(id), (data, receipts));
                    proof {
                        assert(message_contents@ =~= before.insert(
                            id@,
                            (before[id@].0, before[id@].1.push(rh)),
                        ));
                    }
                },
                None => {},
            }
            proof {
                assert(c0.contains_key(id@));
                assert(next[j as int] == *id);
                assert(mentions_listed(c0, next));
                assert(receipt_contents@ =~= r0.insert(rh@, receipt.content@));
            }
        } else {
            proof {
                assert(!c0.contains_key(id@));
                if mentions_listed(c0, next) {
                    let w = choose|w: int| 0 <= w < next.len() && #[trigger] c0.contains_key(next[w]@);
                    if w < j {
                        assert(prefix[w] == next[w]);
                    }
                    assert(mentions_listed(c0, prefix));
                }
                if mentions_listed(c0, prefix) {
                    let w = choose|w: int| 0 <= w < prefix.len() && #[trigger] c0.contains_key(prefix[w]@);
                    assert(next[w] == prefix[w]);
                    assert(mentions_listed(c0, next));
                }
            }
        }
        proof {
            let target = with_receipt_hash(c0, next, rh);
            assert forall|k: Seq<char>| #[trigger] c0.contains_key(k) implies message_contents@.contains_key(k)
                && message_contents@[k] == target[k] by {
                let old_seq = Seq::new(count_of(prefix, k), |x: int| rh);
                let new_seq = Seq::new(count_of(next, k), |x: int| rh);
                if id@ == k {
                    assert(new_seq =~= old_seq.push(rh));
                    assert(c0[k].1 + new_seq =~= (c0[k].1 + old_seq).push(rh));
                } else {
                    assert(new_seq =~= old_seq);
                }
            }
            assert(message_contents@ =~= target);
        }
        j = j + 1;
    }
    proof {
        assert(ids@.take(n as int) =~= ids@);
    }
}

/// Whether one of `targets` is the key `k`.
pub open spec fn lists_key(targets: Seq<EntryHash>, k: Seq<char>) -> bool {
    exists|i: int| 0 <= i < targets.len() && #[trigger] targets[i]@ == k
}

/// A message's data shown as a reply to `rt`.
pub open spec fn replying_to(d: MessageDataView, rt: ReplyToView) -> MessageDataView {
    MessageDataView {
        author: d.author,
        receiver: d.receiver,
        payload: d.payload,
        time_sent: d.time_sent,
        reply_to: Some(rt),
    }
}

/// The bundles once every listed message among `targets` is shown as a reply to `rt`.
pub open spec fn with_reply_shown(c: ContentsView, targets: Seq<EntryHash>, rt: ReplyToView) -> ContentsView {
    Map::new(
        |k: Seq<char>| c.contains_key(k),
        |k: Seq<char>| if lists_key(targets, k) {
            (replying_to(c[k].0, rt), c[k].1)
        } else {
            c[k]
        },
    )
}

/// The bundles once one more queried message is read: the listed replies to
/// it are shown with it.
pub open spec fn reply_step(
    c: ContentsView,
    replies: RepliesView,
    q: Result<Hashed<P2PMessage>, ZomeError>,
) -> ContentsView {
    match q {
        Ok(h) => if replies.contains_key(h.hash@) {
            with_reply_shown(c, replies[h.hash@], reply_to_of(h.hash, h.content@))
        } else {
            c
        },
        Err(_) => c,
    }
}

/// The bundles once the queried messages `qs` are read, oldest first.
pub open spec fn replies_read(
    c: ContentsView,
    replies: RepliesView,
    qs: Seq<Result<Hashed<P2PMessage>, ZomeError>>,
) -> ContentsView
    decreases qs.len(),
{
    if qs.len() == 0 {
        c
    } else {
        reply_step(replies_read(c, replies, qs.drop_last()), replies, qs.last())
    }
}

/// Shows every listed reply together with the message it replies to, when that
/// message is among `queried_messages`. Entries that are not messages are
/// passed over.
pub fn get_replies(
    reply_pairs: &Table<Vec<EntryHash>>,
    message_contents: &mut Table<MessageBundle>,
    queried_messages: &Vec<Result<Hashed<P2PMessage>, ZomeError>>,
) -> (r: Result<(), ZomeError>)
    ensures
        final(message_contents)@ == replies_read(
            old(message_contents)@,
            reply_pairs@,
            queried_messages@,
        ),
        r is Ok,
{
    let n = queried_messages.len();
    let ghost c0 = message_contents@;
    let mut i: usize = 0;
    while i < n
        invariant
            n == queried_messages@.len(),
            i <= n,
            message_contents@ == replies_read(c0, reply_pairs@, queried_messages@.take(i as int)),
        decreases n - i,
    {
        proof {
            assert(queried_messages@.take(i + 1).drop_last() =~= queried_messages@.take(i as int));
        }
        if let Ok(message) = &queried_messages[i] {
            if let Some(message_hashes) = reply_pairs.get(&message.hash) {
                let replied_to_message = P2PMessageReplyTo {
                    hash: copy_string(&message.hash),
                    author: copy_string(&message.content.author),
                    receiver: copy_string(&message.content.receiver),
                    payload: message.content.payload.clone(),
                    time_sent: message.content.time_sent,
                    reply_to: None,
                };
                show_replies(message_contents, message_hashes, &replied_to_message);
            }
        }
        i = i + 1;
    }
    proof {
        assert(queried_messages@.take(n as int) =~= queried_messages@);
    }
    Ok(())
}

fn show_replies(
    message_contents: &mut Table<MessageBundle>,
    targets: &Vec<EntryHash>,
    replied_to_message: &P2PMessageReplyTo,
)
    ensures
        final(message_contents)@ == with_reply_shown(
            old(message_contents)@,
            targets@,
            replied_to_message@,
        ),
{
    let ghost c0 = message_contents@;
    let ghost rt = replied_to_message@;
    let n = targets.len();
    let mut j: usize = 0;
    proof {
        assert(message_contents@ =~= with_reply_shown(c0, targets@.take(0), rt));
    }
    while j < n
        invariant
            n == targets@.len(),
            j <= n,
            rt == replied_to_message@,
            message_contents@ == with_reply_shown(c0, targets@.take(j as int), rt),
        decreases n - j,
    {
        let ghost before = message_contents@;
        let ghost prefix = targets@.take(j as int);
        let ghost next = targets@.take(j + 1);
        let reply_hash = &targets[j];
        match message_contents.remove(reply_hash) {
            Some(bundle) => {
                let (mut data, receipts) = bundle;
                data.reply_to = Some(replied_to_message.clone());
                message_contents.insert(copy_string(reply_hash), (data, receipts));
                proof {
                    assert(message_contents@ =~= before.insert(
                        reply_hash@,
                        (replying_to(before[reply_hash@].0, rt), before[reply_hash@].1),
                    ));
                }
            },
            None => {
                proof {
                    assert(message_contents@ =~= before);
                }
            },
        }
        proof {
            assert forall|k: Seq<char>| lists_key(next, k) <==> (lists_key(prefix, k) || reply_hash@ == k) by {
                if lists_key(next, k) {
                    let w = choose|w: int| 0 <= w < next.len() && #[trigger] next[w]@ == k;
                    if w < j {
                        assert(prefix[w] == next[w]);
                    }
                }
                if lists_key(prefix, k) {
                    let w = choose|w: int| 0 <= w < prefix.len() && #[trigger] prefix[w]@ == k;
                    assert(next[w] == prefix[w]);
                }
                if reply_hash@ == k {
                    assert(next[j as int] == *reply_hash);
                }
            }
            assert(message_contents@ =~= with_reply_shown(c0, next, rt));
        }
        j = j + 1;
    }
    proof {
        assert(targets@.take(n as int) =~= targets@);
    }
}

/// The content of the oldest entry among `qs` whose hash is `h`, passing over
/// entries that could not be read.
pub open spec fn first_match<T>(qs: Seq<Result<Hashed<T>, ZomeError>>, h: Seq<char>) -> Option<T>
    decreases qs.len(),
{
    if qs.len() == 0 {
        None
    } else {
        match qs.first() {
            Ok(x) => if x.hash@ == h {
                Some(x.content)
            } else {
                first_match(qs.drop_first(), h)
            },
            Err(_) => first_match(qs.drop_first(), h),
        }
    }
}

/// Takes out the content of the oldest entry of `queried` whose hash is `h`.
pub fn find_first<T>(queried: Vec<Result<Hashed<T>, ZomeError>>, h: &EntryHash) -> (r: Option<T>)
    ensures
        r == first_match(queried@, h@),
{
    let mut qs = queried;
    let ghost orig = qs@;
    let n = qs.len();
    let mut i: usize = 0;
    proof {
        assert(orig.subrange(0, n as int) =~= orig);
    }
    while i < n
        invariant
            n == qs@.len(),
            orig == qs@,
            orig == queried@,
            i <= n,
            first_match(orig, h@) == first_match(orig.subrange(i as int, n as int), h@),
        decreases n - i,
    {
        proof {
            assert(orig.subrange(i as int, n as int).drop_first() =~= orig.subrange(i + 1, n as int));
            assert(orig.subrange(i as int, n as int).first() == orig[i as int]);
        }
        let found = match &qs[i] {
            Ok(x) => x.hash == *h,
            Err(_) => false,
        };
        if found {
            let ghost at = orig[i as int];
            let item = qs.swap_remove(i);
            proof {
                assert(item == at);
                assert(at is Ok);
                assert(at->Ok_0.hash@ == h@);
                assert(first_match(orig.subrange(i as int, n as int), h@) == Some(at->Ok_0.content));
            }
            match item {
                Ok(x) => {
                    let Hashed { hash: _, content } = x;
                    return Some(content);
                },
                Err(_) => {
                    return None;
                },
            }
        }
        i = i + 1;
    }
    proof {
        assert(orig.subrange(n as int, n as int).len() == 0);
    }
    None
}

/// The content of the newest entry among `qs` whose hash is `h`, or the error
/// of an entry that could not be read and is newer than any such entry.
pub open spec fn newest_match<T>(qs: Seq<Result<Hashed<T>, ZomeError>>, h: Seq<char>) -> Option<
    Result<T, ZomeError>,
>
    decreases qs.len(),
{
    if qs.len() == 0 {
        None
    } else {
        match qs.last() {
            Ok(x) => if x.hash@ == h {
                Some(Ok(x.content))
            } else {
                newest_match(qs.drop_last(), h)
            },
            Err(e) => Some(Err(e)),
        }
    }
}

/// The message with hash `hash` on the source chain: the newest message
/// among `queried_messages` with that hash. An entry that is not a message,
/// read before such a message is found, is an error; no such message is an
/// error too.
pub fn get_message_from_chain(
    hash: EntryHash,
    queried_messages: Vec<Result<Hashed<P2PMessage>, ZomeError>>,
) -> (r: Result<P2PMessage, ZomeError>)
    ensures
        match newest_match(queried_messages@, hash@) {
            Some(res) => r == res,
            None => r matches Err(ZomeError::Guest(s)) && s@ == "Sorry. Entry not found."@,
        },
{
    let mut qs = queried_messages;
    let ghost orig = qs@;
    while qs.len() > 0
        invariant
            orig == queried_messages@,
            newest_match(orig, hash@) == newest_match(qs@, hash@),
        decreases qs@.len(),
    {
        let ghost before = qs@;
        let item = qs.pop();
        proof {
            assert(before.drop_last() =~= qs@);
            assert(item == Some(before.last()));
        }
        match item {
            Some(Ok(x)) => {
                let Hashed { hash: found, content } = x;
                if found == hash {
                    return Ok(content);
                }
            },
            Some(Err(e)) => {
                return Err(e);
            },
            None => {},
        }
    }
    error("Sorry. Entry not found.")
}

/// The file with hash `file_hash` on the source chain: the oldest file among
/// `queried_files` with that hash; none is an error.
pub fn get_file_from_chain(
    file_hash: EntryHash,
    queried_files: Vec<Result<Hashed<P2PFileBytes>, ZomeError>>,
) -> (r: Result<P2PFileBytes, ZomeError>)
    ensures
        match first_match(queried_files@, file_hash@) {
            Some(f) => r == Ok::<P2PFileBytes, ZomeError>(f),
            None => r matches Err(ZomeError::Guest(s)) && s@ == "Sorry. File not found."@,
        },
{
    match find_first(queried_files, &file_hash) {
        Some(f) => Ok(f),
        None => error("Sorry. File not found."),
    }
}

/// The receipt with hash `receipt_hash` on the source chain: the oldest
/// receipt among `queried_receipts` with that hash; none is an error.
pub fn get_receipt_from_chain(
    receipt_hash: EntryHash,
    queried_receipts: Vec<Result<Hashed<P2PMessageReceipt>, ZomeError>>,
) -> (r: Result<P2PMessageReceipt, ZomeError>)
    ensures
        match first_match(queried_receipts@, receipt_hash@) {
            Some(x) => r == Ok::<P2PMessageReceipt, ZomeError>(x),
            None => r matches Err(ZomeError::Guest(s)) && s@ == "Sorry. Receipt not found."@,
        },
{
    match find_first(queried_receipts, &receipt_hash) {
        Some(x) => Ok(x),
        None => error("Sorry. Receipt not found."),
    }
}

} // verus!
