//! What holds of the library on every input: of the tables that the read
//! functions return, whatever the chain holds; of pins; of times; of the
//! reads of messages with asynchronous delivery; and of the tasks that follow
//! the commits.

use vstd::prelude::*;

use crate::helpers::{
    count_of, mentions_listed, receipt_step, receipts_read, replies_read, reply_step,
    with_receipt_hash, with_reply_shown, AgentsView, ContentsView, ReceiptsView, RepliesView,
};
use crate::queries::{
    day_listing, day_step, finished, latest_listing, latest_step, listed, next_batch_listing,
    next_batch_step, next_listing, pinned_listing, pinned_step, put, put_all, start_for,
    Listing, PinsView,
};
use crate::handlers::{
    batch_limit, batch_read, deduped, uncommitted, written_by, delivered_at, fetch_state, marked_sent, FetchEvent, MessageParameter,
    MessageRange, MessageStatus, SecondsTimestamp,
};
use crate::zome::ZomeCallResponse;
use crate::types::{
    P2PFileBytes, P2PMessagePin, PinStatus, seconds_of, sub_second_micros_of, AgentPubKey, EntryHash, Hashed, P2PMessage,
    P2PMessageFilterAgentTimestamp, P2PMessageFilterBatch, P2PMessageReceipt, P2PMessageView, Timestamp,
    ZomeError,
};

verus! {

/// Every message hash listed for an agent has a bundle.
pub open spec fn listed_have_bundles(agents: AgentsView, contents: ContentsView) -> bool {
    forall|k: Seq<char>, i: int|
        agents.contains_key(k) && 0 <= i < agents[k].len() ==> contents.contains_key(
            #[trigger] agents[k][i]@,
        )
}

/// Every receipt hash in a bundle is the hash of a stored receipt.
pub open spec fn receipts_stored(contents: ContentsView, receipts: ReceiptsView) -> bool {
    forall|h: Seq<char>, j: int|
        contents.contains_key(h) && 0 <= j < contents[h].1.len() ==> receipts.contains_key(
            #[trigger] contents[h].1[j]@,
        )
}

/// Every bundle is that of a listed message.
pub open spec fn bundles_listed(agents: AgentsView, contents: ContentsView) -> bool {
    forall|h: Seq<char>|
        #[trigger] contents.contains_key(h) ==> exists|k: Seq<char>, i: int|
            agents.contains_key(k) && 0 <= i < agents[k].len() && (#[trigger] agents[k][i])@ == h
}

/// Every stored receipt is named by a bundle, and speaks of a message that
/// has a bundle.
pub open spec fn receipts_named(contents: ContentsView, receipts: ReceiptsView) -> bool {
    forall|r: Seq<char>|
        #[trigger] receipts.contains_key(r) ==> (exists|h: Seq<char>, j: int|
            contents.contains_key(h) && 0 <= j < contents[h].1.len() && (#[trigger] contents[h].1[j])@ == r)
            && mentions_listed(contents, receipts[r].id)
}

/// The tables hold together: the listed messages are exactly those with a
/// bundle, every receipt that a bundle names is stored, and every stored
/// receipt is named by a bundle and speaks of a message with a bundle.
pub open spec fn tables_consistent(t: (AgentsView, ContentsView, ReceiptsView)) -> bool {
    &&& listed_have_bundles(t.0, t.1)
    &&& bundles_listed(t.0, t.1)
    &&& receipts_stored(t.1, t.2)
    &&& receipts_named(t.1, t.2)
}

/// No bundle names a receipt or shows a message replied to yet.
pub open spec fn bundles_bare(contents: ContentsView) -> bool {
    forall|h: Seq<char>|
        #[trigger] contents.contains_key(h) ==> contents[h].1.len() == 0 && contents[h].0.reply_to is None
}

/// A listing whose listed messages are exactly those with a bundle, and
/// whose bundles name no receipt.
pub open spec fn listing_sound(st: (AgentsView, ContentsView)) -> bool {
    listed_have_bundles(st.0, st.1) && bundles_listed(st.0, st.1) && bundles_bare(st.1)
}

proof fn lemma_put_sound(st: (AgentsView, ContentsView), h: EntryHash, m: P2PMessageView, key: AgentPubKey)
    requires
        listing_sound(st),
    ensures
        listing_sound(put(st, h, m, key)),
{
    let p = put(st, h, m, key);
    assert forall|k: Seq<char>, i: int| p.0.contains_key(k) && 0 <= i < p.0[k].len() implies p.1.contains_key(
        #[trigger] p.0[k][i]@,
    ) by {
        if k == key@ {
            if st.0.contains_key(key@) && i < st.0[key@].len() {
                assert(p.0[k][i] == st.0[k][i]);
            }
        }
    }
    assert forall|g: Seq<char>| #[trigger] p.1.contains_key(g) implies exists|k: Seq<char>, i: int|
        p.0.contains_key(k) && 0 <= i < p.0[k].len() && (#[trigger] p.0[k][i])@ == g by {
        if g == h@ {
            if st.0.contains_key(key@) {
                assert(p.0[key@][st.0[key@].len() as int] == h);
            } else {
                assert(p.0[key@][0] == h);
            }
        } else {
            let (k, i) = choose|k: Seq<char>, i: int|
                st.0.contains_key(k) && 0 <= i < st.0[k].len() && (#[trigger] st.0[k][i])@ == g;
            assert(p.0[k][i] == st.0[k][i]);
        }
    }
}

proof fn lemma_start_sound(conversant: AgentPubKey)
    ensures
        listing_sound((start_for(conversant).0, start_for(conversant).1)),
{
}

proof fn lemma_count_of_mentions(ids: Seq<EntryHash>, k: Seq<char>)
    requires
        count_of(ids, k) > 0,
    ensures
        exists|i: int| 0 <= i < ids.len() && #[trigger] ids[i]@ == k,
    decreases ids.len(),
{
    if ids.last()@ != k {
        lemma_count_of_mentions(ids.drop_last(), k);
        let i = choose|i: int| 0 <= i < ids.drop_last().len() && #[trigger] ids.drop_last()[i]@ == k;
        assert(ids[i] == ids.drop_last()[i]);
    } else {
        assert(ids[ids.len() - 1]@ == k);
    }
}

proof fn lemma_mention_counts(ids: Seq<EntryHash>, k: Seq<char>, i: int)
    requires
        0 <= i < ids.len(),
        ids[i]@ == k,
    ensures
        count_of(ids, k) > 0,
    decreases ids.len(),
{
    if i < ids.len() - 1 {
        assert(ids.drop_last()[i] == ids[i]);
        lemma_mention_counts(ids.drop_last(), k, i);
    }
}

proof fn lemma_receipts_read_keeps(
    st: (ContentsView, ReceiptsView),
    qs: Seq<Result<Hashed<P2PMessageReceipt>, ZomeError>>,
)
    requires
        receipts_stored(st.0, st.1),
        receipts_named(st.0, st.1),
    ensures
        receipts_read(st, qs).0.dom() == st.0.dom(),
        forall|h: Seq<char>| #[trigger] st.0.contains_key(h) ==> receipts_read(st, qs).0[h].0 == st.0[h].0,
        receipts_stored(receipts_read(st, qs).0, receipts_read(st, qs).1),
        receipts_named(receipts_read(st, qs).0, receipts_read(st, qs).1),
    decreases qs.len(),
{
    if qs.len() > 0 {
        lemma_receipts_read_keeps(st, qs.drop_last());
        let prev = receipts_read(st, qs.drop_last());
        let next = receipts_read(st, qs);
        assert(next == receipt_step(prev, qs.last()));
        match qs.last() {
            Ok(x) => {
                let ids = x.content.id@;
                assert(next.0 == with_receipt_hash(prev.0, ids, x.hash));
                assert(next.0.dom() =~= prev.0.dom());
                assert forall|h: Seq<char>, j: int|
                    next.0.contains_key(h) && 0 <= j < next.0[h].1.len() implies next.1.contains_key(
                    #[trigger] next.0[h].1[j]@,
                ) by {
                    let old_len = prev.0[h].1.len();
                    if j < old_len {
                        assert(next.0[h].1[j] == prev.0[h].1[j]);
                        assert(prev.1.contains_key(prev.0[h].1[j]@));
                    } else {
                        assert(count_of(ids, h) > 0);
                        lemma_count_of_mentions(ids, h);
                        let i = choose|i: int| 0 <= i < ids.len() && #[trigger] ids[i]@ == h;
                        assert(prev.0.contains_key(ids[i]@));
                        assert(mentions_listed(prev.0, ids));
                        assert(next.0[h].1[j] == x.hash);
                    }
                }
                assert forall|r: Seq<char>| #[trigger] next.1.contains_key(r) implies (exists|h: Seq<char>, j: int|
                    next.0.contains_key(h) && 0 <= j < next.0[h].1.len() && (#[trigger] next.0[h].1[j])@ == r)
                    && mentions_listed(next.0, next.1[r].id) by {
                    if r == x.hash@ && mentions_listed(prev.0, ids) {
                        let i = choose|i: int| 0 <= i < ids.len() && #[trigger] prev.0.contains_key(ids[i]@);
                        let h = ids[i]@;
                        lemma_mention_counts(ids, h, i);
                        let old_len = prev.0[h].1.len();
                        assert(next.0[h].1[old_len as int] == x.hash);
                        assert(next.1[r].id == ids);
                        assert(next.0.contains_key(ids[i]@));
                    } else {
                        assert(prev.1.contains_key(r));
                        let (h, j) = choose|h: Seq<char>, j: int|
                            prev.0.contains_key(h) && 0 <= j < prev.0[h].1.len() && (#[trigger] prev.0[h].1[j])@ == r;
                        assert(next.0[h].1[j] == prev.0[h].1[j]);
                        assert(next.1[r] == prev.1[r]);
                        let ids2 = prev.1[r].id;
                        let i = choose|i: int| 0 <= i < ids2.len() && #[trigger] prev.0.contains_key(ids2[i]@);
                        assert(next.0.contains_key(ids2[i]@));
                    }
                }
            },
            Err(_) => {},
        }
    }
}

proof fn lemma_replies_read_keeps(
    c: ContentsView,
    replies: RepliesView,
    qs: Seq<Result<Hashed<P2PMessage>, ZomeError>>,
)
    ensures
        replies_read(c, replies, qs).dom() == c.dom(),
        forall|h: Seq<char>| #[trigger] c.contains_key(h) ==> replies_read(c, replies, qs)[h].1 == c[h].1,
    decreases qs.len(),
{
    if qs.len() > 0 {
        lemma_replies_read_keeps(c, replies, qs.drop_last());
        let prev = replies_read(c, replies, qs.drop_last());
        let next = replies_read(c, replies, qs);
        assert(next == reply_step(prev, replies, qs.last()));
        match qs.last() {
            Ok(x) => {
                if replies.contains_key(x.hash@) {
                    assert(next.dom() =~= prev.dom());
                }
            },
            Err(_) => {},
        }
    }
}

proof fn lemma_finished_consistent(
    st: Listing,
    receipts: Seq<Result<Hashed<P2PMessageReceipt>, ZomeError>>,
    messages: Seq<Result<Hashed<P2PMessage>, ZomeError>>,
)
    requires
        listing_sound((st.0, st.1)),
    ensures
        tables_consistent(finished(st, receipts, messages)),
{
    let empty = Map::<Seq<char>, crate::types::ReceiptView>::empty();
    assert(receipts_stored(st.1, empty));
    assert(receipts_named(st.1, empty));
    lemma_receipts_read_keeps((st.1, empty), receipts);
    let rr = receipts_read((st.1, empty), receipts);
    lemma_replies_read_keeps(rr.0, st.2, messages);
    let t = finished(st, receipts, messages);
    assert forall|r: Seq<char>| #[trigger] t.2.contains_key(r) implies (exists|h: Seq<char>, j: int|
        t.1.contains_key(h) && 0 <= j < t.1[h].1.len() && (#[trigger] t.1[h].1[j])@ == r)
        && mentions_listed(t.1, t.2[r].id) by {
        let (h, j) = choose|h: Seq<char>, j: int|
            rr.0.contains_key(h) && 0 <= j < rr.0[h].1.len() && (#[trigger] rr.0[h].1[j])@ == r;
        assert(t.1[h].1 == rr.0[h].1);
        let ids = t.2[r].id;
        let i = choose|i: int| 0 <= i < ids.len() && #[trigger] rr.0.contains_key(ids[i]@);
        assert(t.1.contains_key(ids[i]@));
    }
    assert forall|h: Seq<char>, j: int| t.1.contains_key(h) && 0 <= j < t.1[h].1.len() implies t.2.contains_key(
        #[trigger] t.1[h].1[j]@,
    ) by {
        assert(t.1[h].1 == rr.0[h].1);
    }
    assert forall|k: Seq<char>, i: int| t.0.contains_key(k) && 0 <= i < t.0[k].len() implies t.1.contains_key(
        #[trigger] t.0[k][i]@,
    ) by {
        assert(st.1.contains_key(st.0[k][i]@));
    }
}

proof fn lemma_latest_sound(qs: Seq<Result<Hashed<P2PMessage>, ZomeError>>, me: AgentPubKey, batch_size: nat)
    ensures
        listing_sound((latest_listing(qs, me, batch_size).0, latest_listing(qs, me, batch_size).1)),
    decreases qs.len(),
{
    if qs.len() > 0 {
        lemma_latest_sound(qs.drop_first(), me, batch_size);
        let prev = latest_listing(qs.drop_first(), me, batch_size);
        match qs.first() {
            Ok(h) => {
                let key = crate::queries::partner_of(h.content@, me);
                lemma_put_sound((prev.0, prev.1), h.hash, h.content@, key);
            },
            Err(_) => {},
        }
    }
}

/// The tables of the latest messages hold together: every listed message
/// has a bundle and every bundle is listed, every receipt that a bundle names is
/// returned, and every returned receipt is named by a bundle.
pub proof fn law_latest_messages_consistent(
    queried_messages: Seq<Result<Hashed<P2PMessage>, ZomeError>>,
    queried_receipts: Seq<Result<Hashed<P2PMessageReceipt>, ZomeError>>,
    me: AgentPubKey,
    batch_size: nat,
)
    ensures
        tables_consistent(
            finished(latest_listing(queried_messages, me, batch_size), queried_receipts, queried_messages),
        ),
{
    lemma_latest_sound(queried_messages, me, batch_size);
    lemma_finished_consistent(latest_listing(queried_messages, me, batch_size), queried_receipts, queried_messages);
}

proof fn lemma_day_sound(
    qs: Seq<Result<Hashed<P2PMessage>, ZomeError>>,
    filter: P2PMessageFilterAgentTimestamp,
    day_start: int,
    day_end: int,
)
    ensures
        listing_sound(
            (
                day_listing(qs, filter, day_start, day_end).0,
                day_listing(qs, filter, day_start, day_end).1,
            ),
        ),
    decreases qs.len(),
{
    if qs.len() > 0 {
        lemma_day_sound(qs.drop_first(), filter, day_start, day_end);
        let prev = day_listing(qs.drop_first(), filter, day_start, day_end);
        match qs.first() {
            Ok(h) => {
                lemma_put_sound((prev.0, prev.1), h.hash, h.content@, filter.conversant);
            },
            Err(_) => {},
        }
    }
}

/// The tables of one day's messages hold together: every listed message has
/// a bundle and every bundle is listed, every receipt that a bundle names
/// is returned, and every returned receipt is named by a bundle.
pub proof fn law_day_messages_consistent(
    queried_messages: Seq<Result<Hashed<P2PMessage>, ZomeError>>,
    queried_receipts: Seq<Result<Hashed<P2PMessageReceipt>, ZomeError>>,
    filter: P2PMessageFilterAgentTimestamp,
    day_start: int,
    day_end: int,
)
    ensures
        tables_consistent(
            finished(
                day_listing(queried_messages, filter, day_start, day_end),
                queried_receipts,
                queried_messages,
            ),
        ),
{
    lemma_day_sound(queried_messages, filter, day_start, day_end);
    lemma_finished_consistent(
        day_listing(queried_messages, filter, day_start, day_end),
        queried_receipts,
        queried_messages,
    );
}

proof fn lemma_next_batch_sound(
    qs: Seq<Result<Hashed<P2PMessage>, ZomeError>>,
    filter: P2PMessageFilterBatch,
    bound: Timestamp,
)
    ensures
        next_batch_listing(qs, filter, bound) matches Ok(p) ==> listing_sound((p.0.0, p.0.1)),
    decreases qs.len(),
{
    if qs.len() > 0 {
        lemma_next_batch_sound(qs.drop_first(), filter, bound);
        let prev = next_batch_listing(qs.drop_first(), filter, bound);
        match prev {
            Ok(p) => {
                if !p.1 {
                    match qs.first() {
                        Ok(h) => {
                            lemma_put_sound((p.0.0, p.0.1), h.hash, h.content@, filter.conversant);
                        },
                        Err(_) => {},
                    }
                }
            },
            Err(_) => {},
        }
    }
}

/// The tables of a batch of earlier messages hold together: every listed
/// message has a bundle and every bundle is listed, every receipt that a bundle names is
/// returned, and every returned receipt is named by a bundle.
pub proof fn law_next_batch_consistent(
    queried_messages: Seq<Result<Hashed<P2PMessage>, ZomeError>>,
    queried_receipts: Seq<Result<Hashed<P2PMessageReceipt>, ZomeError>>,
    filter: P2PMessageFilterBatch,
    bound: Timestamp,
)
    ensures
        next_batch_listing(queried_messages, filter, bound) matches Ok(p) ==> tables_consistent(
            finished(p.0, queried_receipts, queried_messages),
        ),
{
    lemma_next_batch_sound(queried_messages, filter, bound);
    if let Ok(p) = next_batch_listing(queried_messages, filter, bound) {
        lemma_finished_consistent(p.0, queried_receipts, queried_messages);
    }
}

proof fn lemma_put_all_sound(
    st: (AgentsView, ContentsView),
    items: Seq<(EntryHash, P2PMessageView)>,
    key: AgentPubKey,
)
    requires
        listing_sound(st),
    ensures
        listing_sound(put_all(st, items, key)),
    decreases items.len(),
{
    if items.len() > 0 {
        lemma_put_all_sound(st, items.drop_last(), key);
        lemma_put_sound(put_all(st, items.drop_last(), key), items.last().0, items.last().1, key);
    }
}

/// The tables of the later messages hold together: every listed message has
/// a bundle and every bundle is listed, every receipt that a bundle names
/// is returned, and every returned receipt is named by a bundle.
pub proof fn law_next_messages_consistent(
    queried_messages: Seq<Result<Hashed<P2PMessage>, ZomeError>>,
    queried_receipts: Seq<Result<Hashed<P2PMessageReceipt>, ZomeError>>,
    filter: P2PMessageFilterBatch,
    bound: Timestamp,
)
    ensures
        tables_consistent(finished(next_listing(queried_messages, filter, bound), queried_receipts, queried_messages)),
{
    let later = crate::queries::later_messages_of(queried_messages, filter, bound);
    let s = start_for(filter.conversant);
    lemma_start_sound(filter.conversant);
    lemma_put_all_sound(
        (s.0, s.1),
        later.1.subrange(
            crate::queries::batch_start(later.1.len(), filter.batch_size as nat),
            later.1.len() as int,
        ),
        filter.conversant,
    );
    lemma_finished_consistent(next_listing(queried_messages, filter, bound), queried_receipts, queried_messages);
}

proof fn lemma_pinned_sound(
    qs: Seq<Result<Hashed<P2PMessage>, ZomeError>>,
    conversant: AgentPubKey,
    pinned: PinsView,
)
    ensures
        pinned_listing(qs, conversant, pinned) matches Ok(st) ==> listing_sound(st),
    decreases qs.len(),
{
    if qs.len() > 0 {
        lemma_pinned_sound(qs.drop_first(), conversant, pinned);
        match pinned_listing(qs.drop_first(), conversant, pinned) {
            Ok(st) => {
                match qs.first() {
                    Ok(h) => {
                        lemma_put_sound(st, h.hash, h.content@, h.content@.receiver);
                    },
                    Err(_) => {},
                }
            },
            Err(_) => {},
        }
    }
}

/// The tables of the pinned messages hold together: every listed message
/// has a bundle and every bundle is listed, every receipt that a bundle names is
/// returned, and every returned receipt is named by a bundle.
pub proof fn law_pinned_messages_consistent(
    conversant: AgentPubKey,
    queried_pins: Seq<Result<Hashed<crate::types::P2PMessagePin>, ZomeError>>,
    queried_messages: Seq<Result<Hashed<P2PMessage>, ZomeError>>,
    queried_receipts: Seq<Result<Hashed<P2PMessageReceipt>, ZomeError>>,
)
    ensures
        crate::queries::pinned_tables(conversant, queried_pins, queried_messages, queried_receipts) matches Ok(
            t,
        ) ==> tables_consistent(t),
{
    if let Ok(pp) = crate::queries::pins_read(queried_pins, conversant) {
        lemma_pinned_sound(queried_messages, conversant, pp.0);
        if let Ok(st) = pinned_listing(queried_messages, conversant, pp.0) {
            let empty = Map::<Seq<char>, crate::types::ReceiptView>::empty();
            assert(receipts_stored(st.1, empty));
            assert(receipts_named(st.1, empty));
            lemma_receipts_read_keeps((st.1, empty), queried_receipts);
        }
    }
}

/// The larger of `batch_size` and 1.
pub open spec fn at_least_one(batch_size: nat) -> nat {
    if batch_size == 0 {
        1
    } else {
        batch_size
    }
}

/// The latest messages list at most `batch_size` messages for each
/// conversant (one when `batch_size` is 0).
pub proof fn law_latest_messages_bounded(
    queried_messages: Seq<Result<Hashed<P2PMessage>, ZomeError>>,
    me: AgentPubKey,
    batch_size: nat,
)
    ensures
        forall|k: Seq<char>| #[trigger] latest_listing(queried_messages, me, batch_size).0.contains_key(k)
            ==> latest_listing(queried_messages, me, batch_size).0[k].len() <= at_least_one(batch_size),
    decreases queried_messages.len(),
{
    let qs = queried_messages;
    if qs.len() > 0 {
        law_latest_messages_bounded(qs.drop_first(), me, batch_size);
        let prev = latest_listing(qs.drop_first(), me, batch_size);
        let next = latest_listing(qs, me, batch_size);
        assert(next == latest_step(prev, qs.first(), me, batch_size));
        assert forall|k: Seq<char>| #[trigger] next.0.contains_key(k) implies next.0[k].len() <= at_least_one(
            batch_size,
        ) by {
            if prev.0.contains_key(k) {
                assert(prev.0[k].len() <= at_least_one(batch_size));
            }
        }
    }
}

/// Whether the message hash `h` is the hash of one of the messages among `qs`
/// that satisfies `p`.
pub open spec fn hashed_message_with(
    qs: Seq<Result<Hashed<P2PMessage>, ZomeError>>,
    h: EntryHash,
    p: spec_fn(EntryHash, P2PMessageView) -> bool,
) -> bool {
    exists|j: int| 0 <= j < qs.len() && (#[trigger] qs[j] matches Ok(x) && x.hash == h && p(x.hash, x.content@))
}

proof fn lemma_witness_shift(
    qs: Seq<Result<Hashed<P2PMessage>, ZomeError>>,
    h: EntryHash,
    p: spec_fn(EntryHash, P2PMessageView) -> bool,
)
    requires
        qs.len() > 0,
        hashed_message_with(qs.drop_first(), h, p),
    ensures
        hashed_message_with(qs, h, p),
{
    let j = choose|j: int|
        0 <= j < qs.drop_first().len() && (#[trigger] qs.drop_first()[j] matches Ok(x) && x.hash == h
            && p(x.hash, x.content@));
    assert(qs[j + 1] == qs.drop_first()[j]);
}

/// The test that the messages of one day pass.
pub open spec fn in_day(filter: P2PMessageFilterAgentTimestamp, day_start: int, day_end: int) -> spec_fn(
    EntryHash,
    P2PMessageView,
) -> bool {
    |h: EntryHash, m: P2PMessageView|
        day_start <= m.time_sent.0 <= day_end && crate::queries::involves(m, filter.conversant)
            && crate::queries::day_selects(filter.payload_type@, m.payload)
}

/// Every message listed for one day is a message of the chain sent that day,
/// written or received by the conversant, and of the asked kind; only the
/// conversant has a list.
pub proof fn law_day_messages_match_filter(
    queried_messages: Seq<Result<Hashed<P2PMessage>, ZomeError>>,
    filter: P2PMessageFilterAgentTimestamp,
    day_start: int,
    day_end: int,
)
    ensures
        day_listing(queried_messages, filter, day_start, day_end).0.dom() =~= set![filter.conversant@],
        forall|i: int|
            0 <= i < day_listing(queried_messages, filter, day_start, day_end).0[filter.conversant@].len()
                ==> hashed_message_with(
                queried_messages,
                #[trigger] day_listing(queried_messages, filter, day_start, day_end).0[filter.conversant@][i],
                in_day(filter, day_start, day_end),
            ),
    decreases queried_messages.len(),
{
    let qs = queried_messages;
    let p = in_day(filter, day_start, day_end);
    if qs.len() > 0 {
        law_day_messages_match_filter(qs.drop_first(), filter, day_start, day_end);
        let prev = day_listing(qs.drop_first(), filter, day_start, day_end);
        let next = day_listing(qs, filter, day_start, day_end);
        let c = filter.conversant@;
        assert(next == day_step(prev, qs.first(), filter, day_start, day_end));
        assert forall|i: int| 0 <= i < next.0[c].len() implies hashed_message_with(qs, #[trigger] next.0[c][i], p) by {
            if i < prev.0[c].len() && next.0[c][i] == prev.0[c][i] {
                lemma_witness_shift(qs, prev.0[c][i], p);
            } else {
                assert(qs[0] == qs.first());
            }
        }
    }
}

/// A batch of earlier messages lists at most `batch_size` messages (one when
/// `batch_size` is 0), each a message of the chain written or received by the
/// conversant, sent in the second of the filter's time or before, other than
/// the last message fetched, and of the asked kind.
pub proof fn law_next_batch_bounded(
    queried_messages: Seq<Result<Hashed<P2PMessage>, ZomeError>>,
    filter: P2PMessageFilterBatch,
    bound: Timestamp,
)
    ensures
        next_batch_listing(queried_messages, filter, bound) matches Ok(p) ==> {
            &&& p.0.0.dom() =~= set![filter.conversant@]
            &&& p.0.0[filter.conversant@].len() <= at_least_one(filter.batch_size as nat)
            &&& !p.1 ==> p.0.0[filter.conversant@].len() < at_least_one(filter.batch_size as nat)
            &&& forall|i: int|
                0 <= i < p.0.0[filter.conversant@].len() ==> hashed_message_with(
                    queried_messages,
                    #[trigger] p.0.0[filter.conversant@][i],
                    |h: EntryHash, m: P2PMessageView|
                        crate::types::seconds_of(m.time_sent.0 as int) <= crate::types::seconds_of(
                            bound.0 as int,
                        ) && crate::queries::batch_passes(filter, h, m),
                )
        },
    decreases queried_messages.len(),
{
    let qs = queried_messages;
    let pred = |h: EntryHash, m: P2PMessageView|
        crate::types::seconds_of(m.time_sent.0 as int) <= crate::types::seconds_of(bound.0 as int)
            && crate::queries::batch_passes(filter, h, m);
    let c = filter.conversant@;
    if qs.len() > 0 {
        law_next_batch_bounded(qs.drop_first(), filter, bound);
        let prev = next_batch_listing(qs.drop_first(), filter, bound);
        let next = next_batch_listing(qs, filter, bound);
        assert(next == next_batch_step(prev, qs.first(), filter, bound));
        if let Ok(pp) = prev {
            if let Ok(np) = next {
                if !pp.1 {
                    if let Ok(h) = qs.first() {
                        assert(np.0.0.dom() =~= pp.0.0.dom());
                    }
                }
                assert forall|i: int| 0 <= i < np.0.0[c].len() implies hashed_message_with(
                    qs,
                    #[trigger] np.0.0[c][i],
                    pred,
                ) by {
                    if i < pp.0.0[c].len() && np.0.0[c][i] == pp.0.0[c][i] {
                        lemma_witness_shift(qs, pp.0.0[c][i], pred);
                    } else {
                        assert(qs[0] == qs.first());
                    }
                }
            }
        }
    } else {
        assert(next_batch_listing(qs, filter, bound) == Ok::<(Listing, bool), ZomeError>(
            (start_for(filter.conversant), false),
        ));
    }
}

proof fn lemma_put_all_length(
    st: (AgentsView, ContentsView),
    items: Seq<(EntryHash, P2PMessageView)>,
    key: AgentPubKey,
)
    requires
        st.0.contains_key(key@),
    ensures
        put_all(st, items, key).0.contains_key(key@),
        put_all(st, items, key).0[key@].len() == st.0[key@].len() + items.len(),
        put_all(st, items, key).0.dom() == st.0.dom(),
    decreases items.len(),
{
    if items.len() > 0 {
        lemma_put_all_length(st, items.drop_last(), key);
        let prev = put_all(st, items.drop_last(), key);
        assert(put_all(st, items, key).0.dom() =~= prev.0.dom());
    }
}

/// The later messages list at most `batch_size` messages, all for the conversant.
pub proof fn law_next_messages_bounded(
    queried_messages: Seq<Result<Hashed<P2PMessage>, ZomeError>>,
    filter: P2PMessageFilterBatch,
    bound: Timestamp,
)
    ensures
        next_listing(queried_messages, filter, bound).0.dom() =~= set![filter.conversant@],
        next_listing(queried_messages, filter, bound).0[filter.conversant@].len() <= filter.batch_size,
{
    let later = crate::queries::later_messages_of(queried_messages, filter, bound);
    let s = start_for(filter.conversant);
    let start = crate::queries::batch_start(later.1.len(), filter.batch_size as nat);
    lemma_put_all_length((s.0, s.1), later.1.subrange(start, later.1.len() as int), filter.conversant);
}

/// The test that the later messages pass: sent at `bound` or after, and
/// passing the filter.
pub open spec fn later_than(filter: P2PMessageFilterBatch, bound: Timestamp) -> spec_fn(
    EntryHash,
    P2PMessageView,
) -> bool {
    |h: EntryHash, m: P2PMessageView| m.time_sent.0 >= bound.0 && crate::queries::batch_passes(filter, h, m)
}

proof fn lemma_later_found(
    qs: Seq<Result<Hashed<P2PMessage>, ZomeError>>,
    filter: P2PMessageFilterBatch,
    bound: Timestamp,
)
    ensures
        forall|i: int|
            0 <= i < crate::queries::later_messages_of(qs, filter, bound).1.len() ==> hashed_message_with(
                qs,
                (#[trigger] crate::queries::later_messages_of(qs, filter, bound).1[i]).0,
                later_than(filter, bound),
            ),
    decreases qs.len(),
{
    let p = later_than(filter, bound);
    if qs.len() > 0 {
        lemma_later_found(qs.drop_first(), filter, bound);
        let prev = crate::queries::later_messages_of(qs.drop_first(), filter, bound);
        let next = crate::queries::later_messages_of(qs, filter, bound);
        assert forall|i: int| 0 <= i < next.1.len() implies hashed_message_with(qs, (#[trigger] next.1[i]).0, p) by {
            if i < prev.1.len() && next.1[i] == prev.1[i] {
                lemma_witness_shift(qs, prev.1[i].0, p);
            } else {
                assert(qs[0] == qs.first());
            }
        }
    }
}

proof fn lemma_put_all_list(
    st: (AgentsView, ContentsView),
    items: Seq<(EntryHash, P2PMessageView)>,
    key: AgentPubKey,
)
    requires
        st.0.contains_key(key@),
    ensures
        put_all(st, items, key).0[key@].len() == st.0[key@].len() + items.len(),
        forall|i: int| 0 <= i < st.0[key@].len() ==> put_all(st, items, key).0[key@][i] == #[trigger] st.0[key@][i],
        forall|i: int|
            0 <= i < items.len() ==> put_all(st, items, key).0[key@][st.0[key@].len() + i] == (#[trigger] items[i]).0,
    decreases items.len(),
{
    if items.len() > 0 {
        lemma_put_all_list(st, items.drop_last(), key);
        lemma_put_all_length(st, items.drop_last(), key);
        let prev = put_all(st, items.drop_last(), key);
        let next = put_all(st, items, key);
        assert forall|i: int| 0 <= i < items.len() implies next.0[key@][st.0[key@].len() + i] == (
        #[trigger] items[i]).0 by {
            if i < items.len() - 1 {
                assert(items.drop_last()[i] == items[i]);
            }
        }
    }
}

/// Every message listed among the later messages is a message of the chain
/// written or received by the conversant, sent at the filter's time or after,
/// other than the last message fetched, and of the asked kind.
pub proof fn law_next_messages_match_filter(
    queried_messages: Seq<Result<Hashed<P2PMessage>, ZomeError>>,
    filter: P2PMessageFilterBatch,
    bound: Timestamp,
)
    ensures
        forall|i: int|
            0 <= i < next_listing(queried_messages, filter, bound).0[filter.conversant@].len() ==> hashed_message_with(
                queried_messages,
                #[trigger] next_listing(queried_messages, filter, bound).0[filter.conversant@][i],
                later_than(filter, bound),
            ),
{
    let qs = queried_messages;
    let later = crate::queries::later_messages_of(qs, filter, bound);
    let s = start_for(filter.conversant);
    let start = crate::queries::batch_start(later.1.len(), filter.batch_size as nat);
    let items = later.1.subrange(start, later.1.len() as int);
    lemma_later_found(qs, filter, bound);
    lemma_put_all_list((s.0, s.1), items, filter.conversant);
    let l = next_listing(qs, filter, bound).0[filter.conversant@];
    assert forall|i: int| 0 <= i < l.len() implies hashed_message_with(qs, #[trigger] l[i], later_than(filter, bound)) by {
        assert(items[i] == later.1[start + i]);
    }
}

/// A time splits into whole seconds and the microseconds left over, which
/// together give it back; the part left over is less than a second and has
/// the sign of the time. At or after the epoch, the nanoseconds handed out are
/// the microseconds left over, in nanoseconds, less than a second.
pub proof fn law_timestamp_split(t: Timestamp)
    ensures
        seconds_of(t.0 as int) * 1_000_000 + sub_second_micros_of(t.0 as int) == t.0,
        -1_000_000 < sub_second_micros_of(t.0 as int) < 1_000_000,
        t.0 >= 0 ==> 0 <= sub_second_micros_of(t.0 as int),
        t.0 < 0 ==> sub_second_micros_of(t.0 as int) <= 0,
        t.0 >= 0 ==> (sub_second_micros_of(t.0 as int) * 1000) as u32 == sub_second_micros_of(t.0 as int) * 1000,
{
    let x = t.0 as int;
    if x < 0 {
        assert((-x) / 1_000_000 * 1_000_000 + (-x) % 1_000_000 == -x);
    } else {
        assert(x / 1_000_000 * 1_000_000 + x % 1_000_000 == x);
    }
}

proof fn lemma_deduped_distinct(agents: Seq<AgentPubKey>)
    ensures
        forall|i: int, j: int|
            0 <= i < j < deduped(agents).len() ==> (#[trigger] deduped(agents)[i])@ != (#[trigger] deduped(
                agents,
            )[j])@,
    decreases agents.len(),
{
    if agents.len() > 0 {
        let rest = agents.drop_last();
        lemma_deduped_distinct(rest);
        let d = deduped(rest);
        let a = agents.last();
        let e = deduped(agents);
        if !(exists|i: int| 0 <= i < d.len() && #[trigger] d[i]@ == a@) {
            assert(e == d.push(a));
            assert forall|i: int, j: int| 0 <= i < j < e.len() implies (#[trigger] e[i])@ != (#[trigger] e[j])@ by {
                if j == d.len() {
                    assert(e[i] == d[i]);
                    assert(!(d[i]@ == a@));
                } else {
                    assert(e[i] == d[i] && e[j] == d[j]);
                }
            }
        }
    }
}

/// Whether the agent `a` is among `agents`.
pub open spec fn has_agent(agents: Seq<AgentPubKey>, a: AgentPubKey) -> bool {
    exists|i: int| 0 <= i < agents.len() && (#[trigger] agents[i])@ == a@
}

proof fn lemma_deduped_complete(agents: Seq<AgentPubKey>)
    ensures
        forall|k: int| 0 <= k < agents.len() ==> has_agent(deduped(agents), #[trigger] agents[k]),
    decreases agents.len(),
{
    if agents.len() > 0 {
        let rest = agents.drop_last();
        lemma_deduped_complete(rest);
        let d = deduped(rest);
        let a = agents.last();
        let e = deduped(agents);
        assert forall|k: int| 0 <= k < agents.len() implies has_agent(e, #[trigger] agents[k]) by {
            if k < agents.len() - 1 {
                assert(rest[k] == agents[k]);
                assert(has_agent(d, rest[k]));
                let i = choose|i: int| 0 <= i < d.len() && (#[trigger] d[i])@ == rest[k]@;
                assert(e[i] == d[i]);
            } else if exists|i: int| 0 <= i < d.len() && #[trigger] d[i]@ == a@ {
                let i = choose|i: int| 0 <= i < d.len() && #[trigger] d[i]@ == a@;
                assert(e[i] == d[i]);
            } else {
                assert(e[d.len() as int] == a);
            }
        }
    }
}

proof fn lemma_deduped_sound(agents: Seq<AgentPubKey>)
    ensures
        forall|i: int|
            0 <= i < deduped(agents).len() ==> exists|k: int|
                0 <= k < agents.len() && (#[trigger] agents[k]) == #[trigger] deduped(agents)[i],
    decreases agents.len(),
{
    if agents.len() > 0 {
        let rest = agents.drop_last();
        lemma_deduped_sound(rest);
        let d = deduped(rest);
        let e = deduped(agents);
        assert forall|i: int| 0 <= i < e.len() implies exists|k: int|
            0 <= k < agents.len() && (#[trigger] agents[k]) == #[trigger] e[i] by {
            if i < d.len() {
                assert(e[i] == d[i]);
                let k = choose|k: int| 0 <= k < rest.len() && (#[trigger] rest[k]) == #[trigger] d[i];
                assert(agents[k] == rest[k]);
            } else {
                assert(agents[agents.len() - 1] == agents.last());
            }
        }
    }
}

/// Removing repetitions from a list of agents keeps each agent once and
/// brings in none: the result holds no agent twice, holds every agent of the
/// list, and holds only agents of the list.
pub proof fn law_deduped(agents: Seq<AgentPubKey>)
    ensures
        forall|i: int, j: int|
            0 <= i < j < deduped(agents).len() ==> (#[trigger] deduped(agents)[i])@ != (#[trigger] deduped(
                agents,
            )[j])@,
        forall|k: int| 0 <= k < agents.len() ==> has_agent(deduped(agents), #[trigger] agents[k]),
        forall|i: int|
            0 <= i < deduped(agents).len() ==> exists|k: int|
                0 <= k < agents.len() && (#[trigger] agents[k]) == #[trigger] deduped(agents)[i],
{
    lemma_deduped_distinct(agents);
    lemma_deduped_complete(agents);
    lemma_deduped_sound(agents);
}

/// A batch of a conversation holds at most [`batch_limit`] messages, each written by the range's author and sent up to its last second.
pub proof fn law_conversation_batch(queried_messages: Seq<Result<MessageParameter, ZomeError>>, range: MessageRange)
    ensures
        batch_read(queried_messages, range).0.len() <= batch_limit(),
        forall|i: int|
            0 <= i < batch_read(queried_messages, range).0.len() ==> {
                &&& (#[trigger] batch_read(queried_messages, range).0[i]).author@ == range.author@
                &&& batch_read(queried_messages, range).0[i].time_sent.0 <= range.last_message_timestamp_seconds
            },
    decreases queried_messages.len(),
{
    if queried_messages.len() > 0 {
        law_conversation_batch(queried_messages.drop_last(), range);
        let prev = batch_read(queried_messages.drop_last(), range);
        let next = batch_read(queried_messages, range);
        assert forall|i: int| 0 <= i < next.0.len() implies {
            &&& (#[trigger] next.0[i]).author@ == range.author@
            &&& next.0[i].time_sent.0 <= range.last_message_timestamp_seconds
        } by {
            if i < prev.0.len() {
                assert(next.0[i] == prev.0[i]);
            }
        }
    }
}

/// The status of the newest pin among `qs` (newest last) that is between
/// `conversant` and its peer and names the message `k`; none when no pin does.
pub open spec fn newest_pin_status(
    qs: Seq<Result<Hashed<P2PMessagePin>, ZomeError>>,
    conversant: AgentPubKey,
    k: Seq<char>,
) -> Option<PinStatus>
    decreases qs.len(),
{
    if qs.len() == 0 {
        None
    } else {
        match newest_pin_status(qs.drop_first(), conversant, k) {
            Some(st) => Some(st),
            None => match qs.first() {
                Ok(h) => if crate::helpers::lists_key(h.content@.conversants, conversant@)
                    && crate::helpers::lists_key(h.content@.id, k) {
                    Some(h.content@.status)
                } else {
                    None
                },
                Err(_) => None,
            },
        }
    }
}

/// Whether `st` is a pin that pins.
pub open spec fn pins_it(st: Option<PinStatus>) -> bool {
    st matches Some(PinStatus::Pinned { .. })
}

/// Whether `st` is a pin that unpins.
pub open spec fn unpins_it(st: Option<PinStatus>) -> bool {
    st matches Some(PinStatus::Unpinned { .. })
}

/// The newest pin decides: once the pins are read, a message is pinned
/// exactly when the newest pin between the conversants that names it pins
/// it, and unpinned exactly when that pin unpins it; so no message is both.
pub proof fn law_newest_pin_decides(qs: Seq<Result<Hashed<P2PMessagePin>, ZomeError>>, conversant: AgentPubKey)
    ensures
        crate::queries::pins_read(qs, conversant) matches Ok(pp) ==> forall|k: Seq<char>|
            #![trigger pp.0.contains_key(k)]
            #![trigger pp.1.contains_key(k)]
            {
                &&& pp.0.contains_key(k) <==> pins_it(newest_pin_status(qs, conversant, k))
                &&& pp.1.contains_key(k) <==> unpins_it(newest_pin_status(qs, conversant, k))
            },
    decreases qs.len(),
{
    if qs.len() > 0 {
        law_newest_pin_decides(qs.drop_first(), conversant);
        let prev = crate::queries::pins_read(qs.drop_first(), conversant);
        let next = crate::queries::pins_read(qs, conversant);
        if let Ok(np) = next {
            if let Ok(pp) = prev {
                assert forall|k: Seq<char>| {
                    &&& #[trigger] np.0.contains_key(k) <==> pins_it(newest_pin_status(qs, conversant, k))
                    &&& np.1.contains_key(k) <==> unpins_it(newest_pin_status(qs, conversant, k))
                } by {
                    assert(pp.0.contains_key(k) <==> pins_it(newest_pin_status(qs.drop_first(), conversant, k)));
                    assert(pp.1.contains_key(k) <==> unpins_it(newest_pin_status(qs.drop_first(), conversant, k)));
                }
            }
        }
    }
}

/// The test that the messages listed under the conversant `k` of `me` pass:
/// `k` is their conversant.
pub open spec fn with_conversant(me: AgentPubKey, k: Seq<char>) -> spec_fn(EntryHash, P2PMessageView) -> bool {
    |h: EntryHash, m: P2PMessageView| crate::queries::partner_of(m, me)@ == k
}

/// Every message listed among the latest messages under a conversant is a
/// message of the chain exchanged between `me` and that conversant.
pub proof fn law_latest_messages_match_conversant(
    queried_messages: Seq<Result<Hashed<P2PMessage>, ZomeError>>,
    me: AgentPubKey,
    batch_size: nat,
)
    ensures
        forall|k: Seq<char>, i: int|
            latest_listing(queried_messages, me, batch_size).0.contains_key(k) && 0 <= i < latest_listing(
                queried_messages,
                me,
                batch_size,
            ).0[k].len() ==> hashed_message_with(
                queried_messages,
                #[trigger] latest_listing(queried_messages, me, batch_size).0[k][i],
                with_conversant(me, k),
            ),
    decreases queried_messages.len(),
{
    let qs = queried_messages;
    if qs.len() > 0 {
        law_latest_messages_match_conversant(qs.drop_first(), me, batch_size);
        let prev = latest_listing(qs.drop_first(), me, batch_size);
        let next = latest_listing(qs, me, batch_size);
        assert(next == latest_step(prev, qs.first(), me, batch_size));
        assert forall|k: Seq<char>, i: int|
            next.0.contains_key(k) && 0 <= i < next.0[k].len() implies hashed_message_with(
            qs,
            #[trigger] next.0[k][i],
            with_conversant(me, k),
        ) by {
            if prev.0.contains_key(k) && i < prev.0[k].len() && next.0[k][i] == prev.0[k][i] {
                lemma_witness_shift(qs, prev.0[k][i], with_conversant(me, k));
            } else {
                assert(qs[0] == qs.first());
            }
        }
    }
}

/// The test that the pinned messages pass: their hash is pinned in `pinned`.
pub open spec fn pinned_in(pinned: PinsView) -> spec_fn(EntryHash, P2PMessageView) -> bool {
    |h: EntryHash, m: P2PMessageView| pinned.contains_key(h@)
}

/// Every message listed among the pinned messages is a message of the chain
/// whose hash is pinned.
pub proof fn law_pinned_messages_are_pinned(
    queried_messages: Seq<Result<Hashed<P2PMessage>, ZomeError>>,
    conversant: AgentPubKey,
    pinned: PinsView,
)
    ensures
        pinned_listing(queried_messages, conversant, pinned) matches Ok(st) ==> forall|k: Seq<char>, i: int|
            st.0.contains_key(k) && 0 <= i < st.0[k].len() ==> hashed_message_with(
                queried_messages,
                #[trigger] st.0[k][i],
                pinned_in(pinned),
            ),
    decreases queried_messages.len(),
{
    let qs = queried_messages;
    if qs.len() > 0 {
        law_pinned_messages_are_pinned(qs.drop_first(), conversant, pinned);
        let prev = pinned_listing(qs.drop_first(), conversant, pinned);
        let next = pinned_listing(qs, conversant, pinned);
        assert(next == pinned_step(prev, qs.first(), pinned));
        if let Ok(np) = next {
            if let Ok(pp) = prev {
                assert forall|k: Seq<char>, i: int|
                    np.0.contains_key(k) && 0 <= i < np.0[k].len() implies hashed_message_with(
                    qs,
                    #[trigger] np.0[k][i],
                    pinned_in(pinned),
                ) by {
                    if pp.0.contains_key(k) && i < pp.0[k].len() && np.0[k][i] == pp.0[k][i] {
                        lemma_witness_shift(qs, pp.0[k][i], pinned_in(pinned));
                    } else {
                        assert(qs[0] == qs.first());
                    }
                }
            }
        }
    } else {
        let s0 = start_for(conversant);
        assert(pinned_listing(qs, conversant, pinned) == Ok::<(AgentsView, ContentsView), ZomeError>((s0.0, s0.1)));
    }
}

proof fn lemma_first_match_last<T>(qs: Seq<Result<Hashed<T>, ZomeError>>, h: Seq<char>)
    requires
        qs.len() > 0,
    ensures
        crate::helpers::first_match(qs, h) == match crate::helpers::first_match(qs.drop_last(), h) {
            Some(x) => Some(x),
            None => match qs.last() {
                Ok(x) => if x.hash@ == h {
                    Some(x.content)
                } else {
                    None
                },
                Err(_) => None,
            },
        },
    decreases qs.len(),
{
    let fm = |s: Seq<Result<Hashed<T>, ZomeError>>| crate::helpers::first_match(s, h);
    if qs.len() > 1 {
        lemma_first_match_last(qs.drop_first(), h);
        assert(qs.drop_first().drop_last() =~= qs.drop_last().drop_first());
        assert(qs.drop_last().first() == qs.first());
        assert(qs.drop_first().last() == qs.last());
        match qs.first() {
            Ok(x) => {
                if x.hash@ == h {
                    assert(fm(qs) == Some(x.content));
                    assert(fm(qs.drop_last()) == Some(x.content));
                } else {
                    assert(fm(qs) == fm(qs.drop_first()));
                    assert(fm(qs.drop_last()) == fm(qs.drop_last().drop_first()));
                }
            },
            Err(_) => {
                assert(fm(qs) == fm(qs.drop_first()));
                assert(fm(qs.drop_last()) == fm(qs.drop_last().drop_first()));
            },
        }
    } else {
        assert(qs.drop_first().len() == 0);
        assert(qs.drop_last().len() == 0);
        assert(fm(qs.drop_first()) == None::<T>);
        assert(fm(qs.drop_last()) == None::<T>);
        assert(qs.first() == qs.last());
    }
}

/// The files handed out are exactly those asked for that are on the chain,
/// each with the bytes of the oldest file on the chain with its hash.
pub proof fn law_file_bytes(queried_files: Seq<Result<Hashed<P2PFileBytes>, ZomeError>>, file_hashes: Seq<EntryHash>)
    ensures
        forall|k: Seq<char>|
            #[trigger] crate::queries::files_read(queried_files, file_hashes).contains_key(k) <==> (
            crate::helpers::lists_key(file_hashes, k) && crate::helpers::first_match(queried_files, k) is Some),
        forall|k: Seq<char>|
            #[trigger] crate::queries::files_read(queried_files, file_hashes).contains_key(k) ==> crate::queries::files_read(
                queried_files,
                file_hashes,
            )[k] == crate::helpers::first_match(queried_files, k)->0@,
    decreases queried_files.len(),
{
    let qs = queried_files;
    if qs.len() > 0 {
        law_file_bytes(qs.drop_last(), file_hashes);
        let prev = crate::queries::files_read(qs.drop_last(), file_hashes);
        let next = crate::queries::files_read(qs, file_hashes);
        assert forall|k: Seq<char>| #[trigger] next.contains_key(k) <==> (crate::helpers::lists_key(file_hashes, k)
            && crate::helpers::first_match(qs, k) is Some) by {
            lemma_first_match_last(qs, k);
        }
        assert forall|k: Seq<char>| #[trigger] next.contains_key(k) implies next[k] == crate::helpers::first_match(
            qs,
            k,
        )->0@ by {
            lemma_first_match_last(qs, k);
        }
    }
}

/// Whether the hash `h` is on the list of `key` in `agents`.
pub open spec fn listed_in(agents: AgentsView, key: Seq<char>, h: EntryHash) -> bool {
    agents.contains_key(key) && exists|i: int| 0 <= i < agents[key].len() && agents[key][i] == h
}

proof fn lemma_put_keeps(st: (AgentsView, ContentsView), h: EntryHash, m: P2PMessageView, key: AgentPubKey)
    ensures
        listed_in(put(st, h, m, key).0, key@, h),
        forall|k: Seq<char>, h2: EntryHash| #[trigger] listed_in(st.0, k, h2) ==> listed_in(put(st, h, m, key).0, k, h2),
{
    let next = put(st, h, m, key).0;
    if st.0.contains_key(key@) {
        assert(next[key@][st.0[key@].len() as int] == h);
    } else {
        assert(next[key@][0] == h);
    }
    assert forall|k: Seq<char>, h2: EntryHash| #[trigger] listed_in(st.0, k, h2) implies listed_in(next, k, h2) by {
        let i = choose|i: int| 0 <= i < st.0[k].len() && st.0[k][i] == h2;
        if k == key@ {
            assert(next[k][i] == h2);
        } else {
            assert(next[k] == st.0[k]);
        }
    }
}

/// Every message of the chain sent on the day, written or received by the
/// conversant and of the asked kind, is listed for that day.
pub proof fn law_day_messages_complete(
    queried_messages: Seq<Result<Hashed<P2PMessage>, ZomeError>>,
    filter: P2PMessageFilterAgentTimestamp,
    day_start: int,
    day_end: int,
)
    ensures
        forall|j: int|
            0 <= j < queried_messages.len() && (#[trigger] queried_messages[j] matches Ok(x) && in_day(
                filter,
                day_start,
                day_end,
            )(x.hash, x.content@)) ==> listed_in(
                day_listing(queried_messages, filter, day_start, day_end).0,
                filter.conversant@,
                queried_messages[j]->Ok_0.hash,
            ),
    decreases queried_messages.len(),
{
    let qs = queried_messages;
    if qs.len() > 0 {
        let rest = qs.drop_first();
        law_day_messages_complete(rest, filter, day_start, day_end);
        let prev = day_listing(rest, filter, day_start, day_end);
        assert(day_listing(qs, filter, day_start, day_end) == day_step(prev, qs.first(), filter, day_start, day_end));
        if let Ok(h) = qs.first() {
            lemma_put_keeps((prev.0, prev.1), h.hash, h.content@, filter.conversant);
        }
        assert forall|j: int|
            0 <= j < qs.len() && (#[trigger] qs[j] matches Ok(x) && in_day(filter, day_start, day_end)(
                x.hash,
                x.content@,
            )) implies listed_in(day_listing(qs, filter, day_start, day_end).0, filter.conversant@, qs[j]->Ok_0.hash) by {
            if j > 0 {
                assert(rest[j - 1] == qs[j]);
            } else {
                assert(qs[0] == qs.first());
            }
        }
    }
}

/// Every message of the chain whose hash is pinned is listed among the
/// pinned messages, under its receiver.
pub proof fn law_pinned_messages_complete(
    queried_messages: Seq<Result<Hashed<P2PMessage>, ZomeError>>,
    conversant: AgentPubKey,
    pinned: PinsView,
)
    ensures
        pinned_listing(queried_messages, conversant, pinned) matches Ok(st) ==> forall|j: int|
            0 <= j < queried_messages.len() && (#[trigger] queried_messages[j] matches Ok(x) && pinned.contains_key(
                x.hash@,
            )) ==> listed_in(st.0, queried_messages[j]->Ok_0.content@.receiver@, queried_messages[j]->Ok_0.hash),
    decreases queried_messages.len(),
{
    let qs = queried_messages;
    if qs.len() > 0 {
        let rest = qs.drop_first();
        law_pinned_messages_complete(rest, conversant, pinned);
        let prev = pinned_listing(rest, conversant, pinned);
        let next = pinned_listing(qs, conversant, pinned);
        assert(next == pinned_step(prev, qs.first(), pinned));
        if let Ok(ps) = prev {
            if let Ok(h) = qs.first() {
                lemma_put_keeps(ps, h.hash, h.content@, h.content@.receiver);
            }
            if let Ok(ns) = next {
                assert forall|j: int|
                    0 <= j < qs.len() && (#[trigger] qs[j] matches Ok(x) && pinned.contains_key(x.hash@)) implies listed_in(
                    ns.0,
                    qs[j]->Ok_0.content@.receiver@,
                    qs[j]->Ok_0.hash,
                ) by {
                    if j > 0 {
                        assert(rest[j - 1] == qs[j]);
                    } else {
                        assert(qs[0] == qs.first());
                    }
                }
            }
        }
    }
}

/// What happens for one link to a waiting message: its target as read, the
/// time it is read at, and the answer of the target's sender when the target
/// is a sent message.
pub type LinkOutcome = (Option<Result<MessageParameter, ZomeError>>, SecondsTimestamp, ZomeCallResponse<bool>);

/// Whether the link's target is a sent message, whose sender is told.
pub open spec fn tells_sender(o: LinkOutcome) -> bool {
    o.0 matches Some(Ok(m)) && m.status == MessageStatus::Sent
}

/// The events that one link gives: its target read, then, for a sent
/// message, the sender's answer.
pub open spec fn link_events(o: LinkOutcome) -> Seq<FetchEvent> {
    if tells_sender(o) {
        seq![FetchEvent::Fetched { element: o.0, now: o.1 }, FetchEvent::Notified { response: o.2 }]
    } else {
        seq![FetchEvent::Fetched { element: o.0, now: o.1 }]
    }
}

/// The events of the links `outs`, in order.
pub open spec fn events_of(outs: Seq<LinkOutcome>) -> Seq<FetchEvent>
    decreases outs.len(),
{
    if outs.len() == 0 {
        Seq::empty()
    } else {
        events_of(outs.drop_last()) + link_events(outs.last())
    }
}

/// The state of fetching once the events `events` happened, from nothing
/// fetched and nothing pending; none once fetching failed.
pub open spec fn fetch_states(events: Seq<FetchEvent>) -> Option<(Seq<MessageParameter>, Option<MessageParameter>)>
    decreases events.len(),
{
    if events.len() == 0 {
        Some((Seq::empty(), None))
    } else {
        match fetch_states(events.drop_last()) {
            Some(st) => fetch_state(st, events.last()),
            None => None,
        }
    }
}

/// The messages fetched over the links `outs`, in link order: for each link
/// to a sent message, that message as delivered at the link's time, marked
/// as sent when its sender answered and left delivered when the sender could
/// not be reached; a link to a delivered message adds nothing; none when a
/// link's target is missing, not a message or read, or when a sender gave
/// any other answer.
pub open spec fn fetched_of(outs: Seq<LinkOutcome>) -> Option<Seq<MessageParameter>>
    decreases outs.len(),
{
    if outs.len() == 0 {
        Some(Seq::empty())
    } else {
        match fetched_of(outs.drop_last()) {
            None => None,
            Some(l) => {
                let o = outs.last();
                match o.0 {
                    Some(Ok(m)) => match m.status {
                        MessageStatus::Sent => match o.2 {
                            ZomeCallResponse::Returned(Ok(_)) => Some(l.push(marked_sent(delivered_at(m, o.1)))),
                            ZomeCallResponse::NetworkError(_) => Some(l.push(delivered_at(m, o.1))),
                            _ => None,
                        },
                        MessageStatus::Delivered => Some(l),
                        MessageStatus::Read => None,
                    },
                    _ => None,
                }
            },
        }
    }
}

/// Fetching the waiting messages link after link, one decision at a time,
/// assembles exactly the list of [`fetched_of`], and leaves nothing pending.
pub proof fn law_fetch_assembles_list(outs: Seq<LinkOutcome>)
    ensures
        fetch_states(events_of(outs)) == match fetched_of(outs) {
            Some(l) => Some((l, None::<MessageParameter>)),
            None => None,
        },
    decreases outs.len(),
{
    if outs.len() > 0 {
        let rest = outs.drop_last();
        law_fetch_assembles_list(rest);
        let a = events_of(rest);
        let o = outs.last();
        let first = FetchEvent::Fetched { element: o.0, now: o.1 };
        assert((a + seq![first]).drop_last() =~= a);
        assert((a + seq![first]).last() == first);
        let one = a + seq![first];
        assert(fetch_states(one) == match fetch_states(a) {
            Some(st) => fetch_state(st, first),
            None => None,
        });
        if tells_sender(o) {
            let second = FetchEvent::Notified { response: o.2 };
            let two = a + seq![first, second];
            assert(events_of(outs) =~= two);
            assert(two.drop_last() =~= one);
            assert(two.last() == second);
            assert(fetch_states(two) == match fetch_states(one) {
                Some(st) => fetch_state(st, second),
                None => None,
            });
        } else {
            assert(events_of(outs) =~= one);
        }
    }
}

/// Committing receipts is done once: when the receipts that are handed out
/// to be committed are on the chain too, the same receipts give nothing more
/// to commit.
pub proof fn law_commit_receipts_once(
    receipts: Seq<(EntryHash, P2PMessageReceipt)>,
    committed: Seq<EntryHash>,
    more: Seq<EntryHash>,
)
    requires
        forall|k: Seq<char>|
            #[trigger] uncommitted(receipts, committed).contains_key(k) ==> exists|j: int|
                0 <= j < more.len() && more[j]@ == k,
    ensures
        uncommitted(receipts, committed + more) == Map::<Seq<char>, crate::types::ReceiptView>::empty(),
{
    let all = committed + more;
    assert forall|k: Seq<char>| !#[trigger] uncommitted(receipts, all).contains_key(k) by {
        if uncommitted(receipts, all).contains_key(k) {
            if uncommitted(receipts, committed).contains_key(k) {
                let j = choose|j: int| 0 <= j < more.len() && more[j]@ == k;
                assert(all[committed.len() + j] == more[j]);
            } else {
                let j = choose|j: int| 0 <= j < committed.len() && #[trigger] committed[j]@ == k;
                assert(all[j] == committed[j]);
            }
        }
    }
    assert(uncommitted(receipts, all) =~= Map::<Seq<char>, crate::types::ReceiptView>::empty());
}

proof fn lemma_written_by_view(qs: Seq<Result<MessageParameter, ZomeError>>, a: AgentPubKey, b: AgentPubKey)
    requires
        a@ == b@,
    ensures
        written_by(qs, a) == written_by(qs, b),
    decreases qs.len(),
{
    if qs.len() > 0 {
        lemma_written_by_view(qs.drop_last(), a, b);
    }
}

/// The messages grouped by agent do not depend on the order of the agents
/// asked for, nor on repetitions: for two lists that name the same agents,
/// every group of one is, for the same agent and with the same messages, a
/// group of the other.
pub proof fn law_groups_ignore_order(
    agents: Seq<AgentPubKey>,
    others: Seq<AgentPubKey>,
    queried_messages: Seq<Result<MessageParameter, ZomeError>>,
)
    requires
        forall|k: int| 0 <= k < agents.len() ==> has_agent(others, #[trigger] agents[k]),
    ensures
        forall|i: int|
            0 <= i < deduped(agents).len() ==> exists|j: int|
                0 <= j < deduped(others).len() && (#[trigger] deduped(others)[j])@ == (#[trigger] deduped(
                    agents,
                )[i])@ && written_by(queried_messages, deduped(others)[j]) == written_by(
                    queried_messages,
                    deduped(agents)[i],
                ),
{
    law_deduped(agents);
    law_deduped(others);
    let d1 = deduped(agents);
    let d2 = deduped(others);
    assert forall|i: int| 0 <= i < d1.len() implies exists|j: int|
        0 <= j < d2.len() && (#[trigger] d2[j])@ == (#[trigger] d1[i])@ && written_by(queried_messages, d2[j])
            == written_by(queried_messages, d1[i]) by {
        let k = choose|k: int| 0 <= k < agents.len() && (#[trigger] agents[k]) == d1[i];
        assert(has_agent(others, agents[k]));
        let k2 = choose|k2: int| 0 <= k2 < others.len() && (#[trigger] others[k2])@ == agents[k]@;
        assert(has_agent(d2, others[k2]));
        let j = choose|j: int| 0 <= j < d2.len() && (#[trigger] d2[j])@ == others[k2]@;
        lemma_written_by_view(queried_messages, d2[j], d1[i]);
    }
}

/// Whether the receipts `qs` read from the chain are told apart by their
/// hashes: two receipts with the same hash are the same receipt.
pub open spec fn hashes_tell_receipts_apart(qs: Seq<Result<Hashed<P2PMessageReceipt>, ZomeError>>) -> bool {
    forall|i: int, j: int| 0 <= i < qs.len() && 0 <= j < qs.len() ==> same_hash_same_receipt(#[trigger] qs[i], #[trigger] qs[j])
}

/// Whether two entries read as receipts with the same hash are the same receipt.
pub open spec fn same_hash_same_receipt(
    a: Result<Hashed<P2PMessageReceipt>, ZomeError>,
    b: Result<Hashed<P2PMessageReceipt>, ZomeError>,
) -> bool {
    match (a, b) {
        (Ok(x), Ok(y)) => x.hash@ == y.hash@ ==> x.content@ == y.content@,
        _ => true,
    }
}

/// Every receipt hash that the bundle of a message names is that of a stored
/// receipt that speaks of that message.
pub open spec fn receipts_name_their_bundles(contents: ContentsView, receipts: ReceiptsView) -> bool {
    forall|h: Seq<char>, j: int|
        contents.contains_key(h) && 0 <= j < contents[h].1.len() ==> receipts.contains_key(
            (#[trigger] contents[h].1[j])@,
        ) && exists|i: int|
            0 <= i < receipts[contents[h].1[j]@].id.len() && (#[trigger] receipts[contents[h].1[j]@].id[i])@ == h
}

/// Every stored receipt is one of `qs`, under its hash.
pub open spec fn receipts_from(receipts: ReceiptsView, qs: Seq<Result<Hashed<P2PMessageReceipt>, ZomeError>>) -> bool {
    forall|r: Seq<char>|
        #[trigger] receipts.contains_key(r) ==> exists|j: int|
            0 <= j < qs.len() && (#[trigger] qs[j] matches Ok(x) && x.hash@ == r && x.content@ == receipts[r])
}

proof fn lemma_receipts_name(c: ContentsView, qs: Seq<Result<Hashed<P2PMessageReceipt>, ZomeError>>)
    requires
        bundles_bare(c),
        hashes_tell_receipts_apart(qs),
    ensures
        receipts_name_their_bundles(
            receipts_read((c, Map::empty()), qs).0,
            receipts_read((c, Map::empty()), qs).1,
        ),
        receipts_from(receipts_read((c, Map::empty()), qs).1, qs),
        receipts_read((c, Map::empty()), qs).0.dom() == c.dom(),
    decreases qs.len(),
{
    let st = (c, Map::<Seq<char>, crate::types::ReceiptView>::empty());
    if qs.len() > 0 {
        let rest = qs.drop_last();
        assert forall|i: int, j: int| 0 <= i < rest.len() && 0 <= j < rest.len() implies same_hash_same_receipt(
            #[trigger] rest[i],
            #[trigger] rest[j],
        ) by {
            assert(rest[i] == qs[i] && rest[j] == qs[j]);
        }
        lemma_receipts_name(c, rest);
        let prev = receipts_read(st, rest);
        let next = receipts_read(st, qs);
        assert(next == receipt_step(prev, qs.last()));
        let last = qs.len() - 1;
        assert(qs[last] == qs.last());
        match qs.last() {
            Ok(x) => {
                let ids = x.content.id@;
                assert(next.0 == with_receipt_hash(prev.0, ids, x.hash));
                assert(next.0.dom() =~= prev.0.dom());
                assert forall|r: Seq<char>| #[trigger] prev.1.contains_key(r) && r == x.hash@ implies prev.1[r]
                    == x.content@ by {
                    let j = choose|j: int|
                        0 <= j < rest.len() && (#[trigger] rest[j] matches Ok(y) && y.hash@ == r && y.content@
                            == prev.1[r]);
                    assert(rest[j] == qs[j]);
                    assert(same_hash_same_receipt(qs[j], qs[last]));
                }
                assert forall|h: Seq<char>, j: int|
                    next.0.contains_key(h) && 0 <= j < next.0[h].1.len() implies next.1.contains_key(
                    (#[trigger] next.0[h].1[j])@,
                ) && exists|i: int|
                    0 <= i < next.1[next.0[h].1[j]@].id.len() && (#[trigger] next.1[next.0[h].1[j]@].id[i])@ == h by {
                    let old_len = prev.0[h].1.len();
                    if j < old_len {
                        assert(next.0[h].1[j] == prev.0[h].1[j]);
                        let rh = prev.0[h].1[j]@;
                        assert(prev.1.contains_key(rh));
                        let i = choose|i: int| 0 <= i < prev.1[rh].id.len() && (#[trigger] prev.1[rh].id[i])@ == h;
                        assert(next.1[rh] == prev.1[rh]);
                        assert(next.1[rh].id[i]@ == h);
                    } else {
                        assert(next.0[h].1[j] == x.hash);
                        assert(count_of(ids, h) > 0);
                        lemma_count_of_mentions(ids, h);
                        let i = choose|i: int| 0 <= i < ids.len() && #[trigger] ids[i]@ == h;
                        assert(prev.0.contains_key(ids[i]@));
                        assert(mentions_listed(prev.0, ids));
                        assert(next.1[x.hash@] == x.content@);
                        assert(next.1[x.hash@].id[i]@ == h);
                    }
                }
                assert forall|r: Seq<char>| #[trigger] next.1.contains_key(r) implies exists|j: int|
                    0 <= j < qs.len() && (#[trigger] qs[j] matches Ok(y) && y.hash@ == r && y.content@ == next.1[r]) by {
                    if r == x.hash@ && mentions_listed(prev.0, ids) {
                        assert(qs[last] matches Ok(y) && y.hash@ == r && y.content@ == next.1[r]);
                    } else {
                        let j = choose|j: int|
                            0 <= j < rest.len() && (#[trigger] rest[j] matches Ok(y) && y.hash@ == r && y.content@
                                == prev.1[r]);
                        assert(rest[j] == qs[j]);
                        assert(next.1[r] == prev.1[r]);
                    }
                }
            },
            Err(_) => {
                assert forall|r: Seq<char>| #[trigger] next.1.contains_key(r) implies exists|j: int|
                    0 <= j < qs.len() && (#[trigger] qs[j] matches Ok(y) && y.hash@ == r && y.content@ == next.1[r]) by {
                    let j = choose|j: int|
                        0 <= j < rest.len() && (#[trigger] rest[j] matches Ok(y) && y.hash@ == r && y.content@ == prev.1[r]);
                    assert(rest[j] == qs[j]);
                }
            },
        }
    }
}

proof fn lemma_finished_names(
    st: Listing,
    receipts: Seq<Result<Hashed<P2PMessageReceipt>, ZomeError>>,
    messages: Seq<Result<Hashed<P2PMessage>, ZomeError>>,
)
    requires
        bundles_bare(st.1),
        hashes_tell_receipts_apart(receipts),
    ensures
        receipts_name_their_bundles(finished(st, receipts, messages).1, finished(st, receipts, messages).2),
{
    lemma_receipts_name(st.1, receipts);
    let rr = receipts_read((st.1, Map::empty()), receipts);
    lemma_replies_read_keeps(rr.0, st.2, messages);
    let t = finished(st, receipts, messages);
    assert forall|h: Seq<char>, j: int| t.1.contains_key(h) && 0 <= j < t.1[h].1.len() implies t.2.contains_key(
        (#[trigger] t.1[h].1[j])@,
    ) && exists|i: int| 0 <= i < t.2[t.1[h].1[j]@].id.len() && (#[trigger] t.2[t.1[h].1[j]@].id[i])@ == h by {
        assert(t.1[h].1 == rr.0[h].1);
        let rh = rr.0[h].1[j]@;
        let i = choose|i: int| 0 <= i < rr.1[rh].id.len() && (#[trigger] rr.1[rh].id[i])@ == h;
        assert(t.2[rh].id[i]@ == h);
    }
}

/// In the tables of the latest messages, every receipt that the bundle of a
/// message names is returned and speaks of that message, when the receipts
/// on the chain are told apart by their hashes.
pub proof fn law_latest_receipts_name_their_messages(
    queried_messages: Seq<Result<Hashed<P2PMessage>, ZomeError>>,
    queried_receipts: Seq<Result<Hashed<P2PMessageReceipt>, ZomeError>>,
    me: AgentPubKey,
    batch_size: nat,
)
    requires
        hashes_tell_receipts_apart(queried_receipts),
    ensures
        receipts_name_their_bundles(
            finished(latest_listing(queried_messages, me, batch_size), queried_receipts, queried_messages).1,
            finished(latest_listing(queried_messages, me, batch_size), queried_receipts, queried_messages).2,
        ),
{
    lemma_latest_sound(queried_messages, me, batch_size);
    lemma_finished_names(latest_listing(queried_messages, me, batch_size), queried_receipts, queried_messages);
}

/// In the tables of one day's messages, every receipt that the bundle of a
/// message names is returned and speaks of that message, when the receipts
/// on the chain are told apart by their hashes.
pub proof fn law_day_receipts_name_their_messages(
    queried_messages: Seq<Result<Hashed<P2PMessage>, ZomeError>>,
    queried_receipts: Seq<Result<Hashed<P2PMessageReceipt>, ZomeError>>,
    filter: P2PMessageFilterAgentTimestamp,
    day_start: int,
    day_end: int,
)
    requires
        hashes_tell_receipts_apart(queried_receipts),
    ensures
        receipts_name_their_bundles(
            finished(day_listing(queried_messages, filter, day_start, day_end), queried_receipts, queried_messages).1,
            finished(day_listing(queried_messages, filter, day_start, day_end), queried_receipts, queried_messages).2,
        ),
{
    lemma_day_sound(queried_messages, filter, day_start, day_end);
    lemma_finished_names(day_listing(queried_messages, filter, day_start, day_end), queried_receipts, queried_messages);
}

/// In the tables of a batch of earlier messages, every receipt that the
/// bundle of a message names is returned and speaks of that message, when
/// the receipts on the chain are told apart by their hashes.
pub proof fn law_next_batch_receipts_name_their_messages(
    queried_messages: Seq<Result<Hashed<P2PMessage>, ZomeError>>,
    queried_receipts: Seq<Result<Hashed<P2PMessageReceipt>, ZomeError>>,
    filter: P2PMessageFilterBatch,
    bound: Timestamp,
)
    requires
        hashes_tell_receipts_apart(queried_receipts),
    ensures
        next_batch_listing(queried_messages, filter, bound) matches Ok(p) ==> receipts_name_their_bundles(
            finished(p.0, queried_receipts, queried_messages).1,
            finished(p.0, queried_receipts, queried_messages).2,
        ),
{
    lemma_next_batch_sound(queried_messages, filter, bound);
    if let Ok(p) = next_batch_listing(queried_messages, filter, bound) {
        lemma_finished_names(p.0, queried_receipts, queried_messages);
    }
}

/// In the tables of the later messages, every receipt that the bundle of a
/// message names is returned and speaks of that message, when the receipts
/// on the chain are told apart by their hashes.
pub proof fn law_next_receipts_name_their_messages(
    queried_messages: Seq<Result<Hashed<P2PMessage>, ZomeError>>,
    queried_receipts: Seq<Result<Hashed<P2PMessageReceipt>, ZomeError>>,
    filter: P2PMessageFilterBatch,
    bound: Timestamp,
)
    requires
        hashes_tell_receipts_apart(queried_receipts),
    ensures
        receipts_name_their_bundles(
            finished(next_listing(queried_messages, filter, bound), queried_receipts, queried_messages).1,
            finished(next_listing(queried_messages, filter, bound), queried_receipts, queried_messages).2,
        ),
{
    let later = crate::queries::later_messages_of(queried_messages, filter, bound);
    let s = start_for(filter.conversant);
    lemma_start_sound(filter.conversant);
    lemma_put_all_sound(
        (s.0, s.1),
        later.1.subrange(
            crate::queries::batch_start(later.1.len(), filter.batch_size as nat),
            later.1.len() as int,
        ),
        filter.conversant,
    );
    lemma_finished_names(next_listing(queried_messages, filter, bound), queried_receipts, queried_messages);
}

/// In the tables of the pinned messages, every receipt that the bundle of a
/// message names is returned and speaks of that message, when the receipts
/// on the chain are told apart by their hashes.
pub proof fn law_pinned_receipts_name_their_messages(
    conversant: AgentPubKey,
    queried_pins: Seq<Result<Hashed<P2PMessagePin>, ZomeError>>,
    queried_messages: Seq<Result<Hashed<P2PMessage>, ZomeError>>,
    queried_receipts: Seq<Result<Hashed<P2PMessageReceipt>, ZomeError>>,
)
    requires
        hashes_tell_receipts_apart(queried_receipts),
    ensures
        crate::queries::pinned_tables(conversant, queried_pins, queried_messages, queried_receipts) matches Ok(
            t,
        ) ==> receipts_name_their_bundles(t.1, t.2),
{
    if let Ok(pp) = crate::queries::pins_read(queried_pins, conversant) {
        lemma_pinned_sound(queried_messages, conversant, pp.0);
        if let Ok(st) = pinned_listing(queried_messages, conversant, pp.0) {
            lemma_receipts_name(st.1, queried_receipts);
        }
    }
}

/// Whether the entry `q` is a message that a batch with `filter` from
/// `bound` takes: sent in the second of `bound` or before, and passing the
/// filter.
pub open spec fn batch_eligible(q: Result<Hashed<P2PMessage>, ZomeError>, filter: P2PMessageFilterBatch, bound: Timestamp) -> bool {
    q matches Ok(h) && seconds_of(h.content@.time_sent.0 as int) <= seconds_of(bound.0 as int)
        && crate::queries::batch_passes(filter, h.hash, h.content@)
}

/// The hashes of the messages among `qs` that a batch with `filter` from
/// `bound` takes, newest (last) first.
pub open spec fn eligible(qs: Seq<Result<Hashed<P2PMessage>, ZomeError>>, filter: P2PMessageFilterBatch, bound: Timestamp) -> Seq<
    EntryHash,
>
    decreases qs.len(),
{
    if qs.len() == 0 {
        Seq::empty()
    } else {
        let rest = eligible(qs.drop_first(), filter, bound);
        if batch_eligible(qs.first(), filter, bound) {
            rest.push(qs.first()->Ok_0.hash)
        } else {
            rest
        }
    }
}

/// The first `n` of `e`, or all of them when there are fewer.
pub open spec fn first_n(e: Seq<EntryHash>, n: int) -> Seq<EntryHash> {
    if e.len() >= n {
        e.take(n)
    } else {
        e
    }
}

proof fn lemma_eligible_concat(
    a: Seq<Result<Hashed<P2PMessage>, ZomeError>>,
    b: Seq<Result<Hashed<P2PMessage>, ZomeError>>,
    filter: P2PMessageFilterBatch,
    bound: Timestamp,
)
    ensures
        eligible(a + b, filter, bound) == eligible(b, filter, bound) + eligible(a, filter, bound),
    decreases a.len(),
{
    if a.len() == 0 {
        assert(a + b =~= b);
        assert(eligible(b, filter, bound) + eligible(a, filter, bound) =~= eligible(b, filter, bound));
    } else {
        lemma_eligible_concat(a.drop_first(), b, filter, bound);
        assert((a + b).drop_first() =~= a.drop_first() + b);
        assert((a + b).first() == a.first());
        let x = eligible(b, filter, bound);
        let y = eligible(a.drop_first(), filter, bound);
        if batch_eligible(a.first(), filter, bound) {
            assert((x + y).push(a.first()->Ok_0.hash) =~= x + y.push(a.first()->Ok_0.hash));
        }
    }
}

proof fn lemma_batch_takes_eligible(
    qs: Seq<Result<Hashed<P2PMessage>, ZomeError>>,
    filter: P2PMessageFilterBatch,
    bound: Timestamp,
)
    requires
        filter.batch_size >= 1,
        forall|i: int| 0 <= i < qs.len() ==> (#[trigger] qs[i]) is Ok,
    ensures
        next_batch_listing(qs, filter, bound) matches Ok(p) && p.0.0.contains_key(filter.conversant@)
            && p.0.0[filter.conversant@] == first_n(eligible(qs, filter, bound), filter.batch_size as int)
            && p.1 == (eligible(qs, filter, bound).len() >= filter.batch_size),
    decreases qs.len(),
{
    let c = filter.conversant@;
    let n = filter.batch_size as int;
    if qs.len() > 0 {
        let rest = qs.drop_first();
        assert forall|i: int| 0 <= i < rest.len() implies (#[trigger] rest[i]) is Ok by {
            assert(rest[i] == qs[i + 1]);
        }
        lemma_batch_takes_eligible(rest, filter, bound);
        let prev = next_batch_listing(rest, filter, bound);
        let e1 = eligible(rest, filter, bound);
        let e = eligible(qs, filter, bound);
        assert(next_batch_listing(qs, filter, bound) == next_batch_step(prev, qs.first(), filter, bound));
        assert(qs[0] == qs.first());
        if let Ok(pp) = prev {
            if pp.1 {
                if batch_eligible(qs.first(), filter, bound) {
                    assert(e.take(n) =~= e1.take(n));
                }
            } else {
                if batch_eligible(qs.first(), filter, bound) {
                    assert(e == e1.push(qs.first()->Ok_0.hash));
                    if e.len() >= n {
                        assert(e.take(n) =~= e);
                    }
                }
            }
        }
    }
}

proof fn lemma_eligible_same(
    qs: Seq<Result<Hashed<P2PMessage>, ZomeError>>,
    f1: P2PMessageFilterBatch,
    b1: Timestamp,
    f2: P2PMessageFilterBatch,
    b2: Timestamp,
)
    requires
        forall|i: int| 0 <= i < qs.len() ==> batch_eligible(#[trigger] qs[i], f1, b1) == batch_eligible(qs[i], f2, b2),
    ensures
        eligible(qs, f1, b1) == eligible(qs, f2, b2),
    decreases qs.len(),
{
    if qs.len() > 0 {
        let rest = qs.drop_first();
        assert forall|i: int| 0 <= i < rest.len() implies batch_eligible(#[trigger] rest[i], f1, b1) == batch_eligible(
            rest[i],
            f2,
            b2,
        ) by {
            assert(rest[i] == qs[i + 1]);
        }
        lemma_eligible_same(rest, f1, b1, f2, b2);
        assert(qs[0] == qs.first());
    }
}

proof fn lemma_eligible_none(qs: Seq<Result<Hashed<P2PMessage>, ZomeError>>, f: P2PMessageFilterBatch, b: Timestamp)
    requires
        forall|i: int| 0 <= i < qs.len() ==> !batch_eligible(#[trigger] qs[i], f, b),
    ensures
        eligible(qs, f, b) == Seq::<EntryHash>::empty(),
    decreases qs.len(),
{
    if qs.len() > 0 {
        let rest = qs.drop_first();
        assert forall|i: int| 0 <= i < rest.len() implies !batch_eligible(#[trigger] rest[i], f, b) by {
            assert(rest[i] == qs[i + 1]);
        }
        lemma_eligible_none(rest, f, b);
        assert(qs[0] == qs.first());
    }
}

/// The filter of the batch that follows the one that ended with the message
/// `x` (hash and content): from `x`'s time, with `x` as the last message fetched.
pub open spec fn following(filter: P2PMessageFilterBatch, x: Hashed<P2PMessage>) -> P2PMessageFilterBatch {
    P2PMessageFilterBatch {
        conversant: filter.conversant,
        batch_size: filter.batch_size,
        payload_type: filter.payload_type,
        last_fetched_timestamp: Some(x.content.time_sent),
        last_fetched_message_id: Some(x.hash),
    }
}

/// The whole second in which the message of the entry `q` was sent.
pub open spec fn second_of_entry(q: Result<Hashed<P2PMessage>, ZomeError>) -> int {
    seconds_of(q->Ok_0.content@.time_sent.0 as int)
}

/// Batches page through the conversation. On a chain whose entries are all
/// messages, with distinct hashes, sent in strictly later seconds along the
/// chain: let `x` (at index `k`) be the `batch_size`-th message, newest first,
/// that a batch takes, and let the last message fetched before (if any) not
/// be older than `x`. Then the batch holds the first `batch_size` messages
/// that it takes, ending with `x`, and the batch asked for next, from `x`'s
/// time with `x` as the last message fetched, holds the next `batch_size`
/// ones (or all that are left): no message is skipped and none repeated.
pub proof fn law_next_batch_pages(
    queried_messages: Seq<Result<Hashed<P2PMessage>, ZomeError>>,
    filter: P2PMessageFilterBatch,
    bound: Timestamp,
    now: Timestamp,
    k: int,
)
    requires
        filter.batch_size >= 1,
        forall|i: int| 0 <= i < queried_messages.len() ==> (#[trigger] queried_messages[i]) is Ok,
        forall|i: int, j: int|
            0 <= i < j < queried_messages.len() ==> second_of_entry(#[trigger] queried_messages[i]) < second_of_entry(
                #[trigger] queried_messages[j],
            ),
        forall|i: int, j: int|
            0 <= i < queried_messages.len() && 0 <= j < queried_messages.len() && i != j ==> (
            #[trigger] queried_messages[i])->Ok_0.hash@ != (#[trigger] queried_messages[j])->Ok_0.hash@,
        0 <= k < queried_messages.len(),
        batch_eligible(queried_messages[k], filter, bound),
        eligible(queried_messages.skip(k + 1), filter, bound).len() == filter.batch_size - 1,
        forall|i: int|
            0 <= i < k ==> crate::queries::not_last_fetched(
                filter.last_fetched_message_id,
                (#[trigger] queried_messages[i])->Ok_0.hash,
            ),
    ensures
        eligible(queried_messages, filter, bound)[filter.batch_size - 1] == queried_messages[k]->Ok_0.hash,
        next_batch_listing(queried_messages, filter, bound) matches Ok(p) && p.0.0[filter.conversant@]
            == eligible(queried_messages, filter, bound).take(filter.batch_size as int),
        next_batch_listing(
            queried_messages,
            following(filter, queried_messages[k]->Ok_0),
            crate::queries::bound_of(following(filter, queried_messages[k]->Ok_0), now),
        ) matches Ok(p2) && p2.0.0[filter.conversant@] == first_n(
            eligible(queried_messages, filter, bound).skip(filter.batch_size as int),
            filter.batch_size as int,
        ),
{
    let qs = queried_messages;
    let n = filter.batch_size as int;
    let x = qs[k]->Ok_0;
    let f2 = following(filter, x);
    let b2 = x.content.time_sent;
    assert(crate::queries::bound_of(f2, now) == b2);
    let q1 = qs.take(k);
    let q2 = seq![qs[k]];
    let q3 = qs.skip(k + 1);
    assert(qs =~= (q1 + q2) + q3);
    lemma_eligible_concat(q1 + q2, q3, filter, bound);
    lemma_eligible_concat(q1, q2, filter, bound);
    lemma_eligible_concat(q1 + q2, q3, f2, b2);
    lemma_eligible_concat(q1, q2, f2, b2);
    assert(q2.drop_first().len() == 0);
    assert(q2.first() == qs[k]);
    assert(eligible(q2.drop_first(), filter, bound) == Seq::<EntryHash>::empty());
    assert(eligible(q2.drop_first(), f2, b2) == Seq::<EntryHash>::empty());
    assert(eligible(q2, filter, bound) =~= seq![x.hash]);
    assert(!batch_eligible(qs[k], f2, b2));
    assert(eligible(q2, f2, b2) =~= Seq::<EntryHash>::empty());
    assert forall|i: int| 0 <= i < q3.len() implies !batch_eligible(#[trigger] q3[i], f2, b2) by {
        assert(q3[i] == qs[k + 1 + i]);
        assert(second_of_entry(qs[k]) < second_of_entry(qs[k + 1 + i]));
    }
    lemma_eligible_none(q3, f2, b2);
    assert forall|i: int| 0 <= i < q1.len() implies batch_eligible(#[trigger] q1[i], filter, bound) == batch_eligible(
        q1[i],
        f2,
        b2,
    ) by {
        assert(q1[i] == qs[i]);
        assert(second_of_entry(qs[i]) < second_of_entry(qs[k]));
        assert(qs[i]->Ok_0.hash@ != qs[k]->Ok_0.hash@);
    }
    lemma_eligible_same(q1, filter, bound, f2, b2);
    let e = eligible(qs, filter, bound);
    let e1 = eligible(q1, filter, bound);
    let e3 = eligible(q3, filter, bound);
    assert(e =~= e3 + seq![x.hash] + e1);
    assert(e[n - 1] == x.hash);
    assert(eligible(qs, f2, b2) =~= e1);
    assert(e.skip(n) =~= e1);
    lemma_batch_takes_eligible(qs, filter, bound);
    lemma_batch_takes_eligible(qs, f2, b2);
}


/// Every message of the chain sent on the filter's day (from `filter.date`
/// to 86399 seconds later) and written or received by the conversant is
/// listed for the conversant, with a bundle, when its kind is asked: "All"
/// asks for every message, "Text" for text messages and "File" for file
/// messages.
#[verifier::spinoff_prover]
pub proof fn law_day_lists_every_asked_message(
    queried_messages: Seq<Result<Hashed<P2PMessage>, ZomeError>>,
    queried_receipts: Seq<Result<Hashed<P2PMessageReceipt>, ZomeError>>,
    filter: P2PMessageFilterAgentTimestamp,
)
    ensures
        forall|j: int|
            0 <= j < queried_messages.len() && #[trigger] queried_messages[j] is Ok ==> {
                let x = queried_messages[j]->Ok_0;
                let t = finished(
                    day_listing(
                        queried_messages,
                        filter,
                        filter.date.0 as int,
                        filter.date.0 + crate::queries::day_span(),
                    ),
                    queried_receipts,
                    queried_messages,
                );
                (filter.date.0 <= x.content.time_sent.0 <= filter.date.0 + 86399 * 1000000
                    && (x.content.author@ == filter.conversant@ || x.content.receiver@ == filter.conversant@)
                    && (filter.payload_type@ == "All"@ || (filter.payload_type@ == "Text"@
                    && x.content.payload is Text) || (filter.payload_type@ == "File"@
                    && x.content.payload is File))) ==> listed_in(t.0, filter.conversant@, x.hash)
                    && t.1.contains_key(x.hash@)
            },
{
    let ds = filter.date.0 as int;
    let de = filter.date.0 + crate::queries::day_span();
    let qs = queried_messages;
    law_day_messages_complete(qs, filter, ds, de);
    law_day_messages_consistent(qs, queried_receipts, filter, ds, de);
    let t = finished(day_listing(qs, filter, ds, de), queried_receipts, qs);
    assert forall|j: int| 0 <= j < qs.len() && #[trigger] qs[j] is Ok implies {
        let x = qs[j]->Ok_0;
        (filter.date.0 <= x.content.time_sent.0 <= filter.date.0 + 86399 * 1000000
            && (x.content.author@ == filter.conversant@ || x.content.receiver@ == filter.conversant@)
            && (filter.payload_type@ == "All"@ || (filter.payload_type@ == "Text"@ && x.content.payload is Text)
            || (filter.payload_type@ == "File"@ && x.content.payload is File))) ==> listed_in(
            t.0,
            filter.conversant@,
            x.hash,
        ) && t.1.contains_key(x.hash@)
    } by {
        let x = qs[j]->Ok_0;
        if filter.date.0 <= x.content.time_sent.0 <= filter.date.0 + 86399 * 1000000
            && (x.content.author@ == filter.conversant@ || x.content.receiver@ == filter.conversant@)
            && (filter.payload_type@ == "All"@ || (filter.payload_type@ == "Text"@ && x.content.payload is Text)
            || (filter.payload_type@ == "File"@ && x.content.payload is File)) {
            assert(in_day(filter, ds, de)(x.hash, x.content@));
            assert(listed_in(t.0, filter.conversant@, x.hash));
            let i = choose|i: int| 0 <= i < t.0[filter.conversant@].len() && t.0[filter.conversant@][i] == x.hash;
            assert(t.1.contains_key(t.0[filter.conversant@][i]@));
        }
    }
}

#[verifier::spinoff_prover]
proof fn lemma_batch_takes_until_full(
    qs: Seq<Result<Hashed<P2PMessage>, ZomeError>>,
    filter: P2PMessageFilterBatch,
    bound: Timestamp,
)
    ensures
        next_batch_listing(qs, filter, bound) matches Ok(p) ==> {
            &&& p.0.0.contains_key(filter.conversant@)
            &&& p.1 ==> p.0.0[filter.conversant@].len() >= filter.batch_size
            &&& forall|j: int|
                0 <= j < qs.len() && #[trigger] batch_eligible(qs[j], filter, bound) ==> listed_in(
                    p.0.0,
                    filter.conversant@,
                    qs[j]->Ok_0.hash,
                ) || p.0.0[filter.conversant@].len() >= filter.batch_size
        },
    decreases qs.len(),
{
    if qs.len() > 0 {
        let rest = qs.drop_first();
        lemma_batch_takes_until_full(rest, filter, bound);
        let prev = next_batch_listing(rest, filter, bound);
        let next = next_batch_listing(qs, filter, bound);
        assert(next == next_batch_step(prev, qs.first(), filter, bound));
        if let Ok(p) = prev {
            if p.1 {
                assert forall|j: int|
                    0 <= j < qs.len() && #[trigger] batch_eligible(qs[j], filter, bound) implies listed_in(
                    p.0.0,
                    filter.conversant@,
                    qs[j]->Ok_0.hash,
                ) || p.0.0[filter.conversant@].len() >= filter.batch_size by {
                    if j > 0 {
                        assert(rest[j - 1] == qs[j]);
                    }
                }
            } else if let Ok(h) = qs.first() {
                if batch_eligible(qs.first(), filter, bound) {
                    let m = h.content@;
                    let st = listed(p.0, h.hash, m, filter.conversant);
                    lemma_put_keeps((p.0.0, p.0.1), h.hash, m, filter.conversant);
                    assert(st.0[filter.conversant@].len() == p.0.0[filter.conversant@].len() + 1);
                    assert(next == Ok::<(Listing, bool), ZomeError>((st, st.0[filter.conversant@].len() >= filter.batch_size)));
                    assert forall|j: int|
                        0 <= j < qs.len() && #[trigger] batch_eligible(qs[j], filter, bound) implies listed_in(
                        st.0,
                        filter.conversant@,
                        qs[j]->Ok_0.hash,
                    ) || st.0[filter.conversant@].len() >= filter.batch_size by {
                        if j > 0 {
                            assert(rest[j - 1] == qs[j]);
                            if listed_in(p.0.0, filter.conversant@, qs[j]->Ok_0.hash) {
                                assert(listed_in(st.0, filter.conversant@, qs[j]->Ok_0.hash));
                            }
                        } else {
                            assert(qs[0] == qs.first());
                        }
                    }
                } else {
                    assert forall|j: int|
                        0 <= j < qs.len() && #[trigger] batch_eligible(qs[j], filter, bound) implies listed_in(
                        p.0.0,
                        filter.conversant@,
                        qs[j]->Ok_0.hash,
                    ) || p.0.0[filter.conversant@].len() >= filter.batch_size by {
                        if j > 0 {
                            assert(rest[j - 1] == qs[j]);
                        } else {
                            assert(qs[0] == qs.first());
                        }
                    }
                }
            }
        }
    }
}

/// A batch of earlier messages takes every message exchanged with the
/// conversant, sent in the second of the filter's time (the last time
/// fetched, else `now`) or before, that is not the last message fetched and
/// whose kind is asked, unless the batch is already full: "All" asks for
/// every message; "Text" for text; "File" for every file; "Media" for
/// pictures and videos; "Other" for other files.
#[verifier::spinoff_prover]
pub proof fn law_batch_takes_every_asked_message(
    queried_messages: Seq<Result<Hashed<P2PMessage>, ZomeError>>,
    filter: P2PMessageFilterBatch,
    now: Timestamp,
)
    ensures
        next_batch_listing(queried_messages, filter, crate::queries::bound_of(filter, now)) matches Ok(p)
            ==> forall|j: int|
            0 <= j < queried_messages.len() && #[trigger] queried_messages[j] is Ok ==> {
                let x = queried_messages[j]->Ok_0;
                let pt = filter.payload_type@;
                (seconds_of(x.content.time_sent.0 as int) <= seconds_of(
                    crate::queries::bound_of(filter, now).0 as int,
                ) && (x.content.author@ == filter.conversant@ || x.content.receiver@ == filter.conversant@)
                    && (filter.last_fetched_message_id matches Some(id) ==> id@ != x.hash@) && (pt == "All"@
                    || (pt == "Text"@ && x.content.payload is Text) || (pt == "File"@ && x.content.payload is File)
                    || (pt == "Media"@ && (x.content.payload matches crate::types::Payload::File { file_type, .. }
                    && !(file_type is Other))) || (pt == "Other"@ && (x.content.payload matches crate::types::Payload::File {
                    file_type,
                    ..
                } && file_type is Other)))) ==> listed_in(p.0.0, filter.conversant@, x.hash)
                    || p.0.0[filter.conversant@].len() >= filter.batch_size
            },
{
    let qs = queried_messages;
    let bound = crate::queries::bound_of(filter, now);
    lemma_batch_takes_until_full(qs, filter, bound);
    if let Ok(p) = next_batch_listing(qs, filter, bound) {
        assert forall|j: int| 0 <= j < qs.len() && #[trigger] qs[j] is Ok implies {
            let x = qs[j]->Ok_0;
            let pt = filter.payload_type@;
            (seconds_of(x.content.time_sent.0 as int) <= seconds_of(bound.0 as int) && (x.content.author@
                == filter.conversant@ || x.content.receiver@ == filter.conversant@)
                && (filter.last_fetched_message_id matches Some(id) ==> id@ != x.hash@) && (pt == "All"@ || (pt
                == "Text"@ && x.content.payload is Text) || (pt == "File"@ && x.content.payload is File) || (pt
                == "Media"@ && (x.content.payload matches crate::types::Payload::File { file_type, .. }
                && !(file_type is Other))) || (pt == "Other"@ && (x.content.payload matches crate::types::Payload::File {
                file_type,
                ..
            } && file_type is Other)))) ==> listed_in(p.0.0, filter.conversant@, x.hash)
                || p.0.0[filter.conversant@].len() >= filter.batch_size
        } by {
            let x = qs[j]->Ok_0;
            assert(batch_eligible(qs[j], filter, bound) ==> listed_in(p.0.0, filter.conversant@, x.hash)
                || p.0.0[filter.conversant@].len() >= filter.batch_size);
            assert(crate::queries::involves(x.content@, filter.conversant) == (x.content.author@ == filter.conversant@
                || x.content.receiver@ == filter.conversant@));
        }
    }
}

/// Whether the receipt `x`, when it speaks of a message that has a bundle in
/// `t`, is returned in `t` under its hash and named in that bundle.
pub open spec fn receipt_returned(t: (ContentsView, ReceiptsView), x: Hashed<P2PMessageReceipt>) -> bool {
    forall|i: int|
        0 <= i < x.content.id@.len() && #[trigger] t.0.contains_key(x.content.id@[i]@) ==> t.1.contains_key(x.hash@)
            && crate::helpers::lists_key(t.0[x.content.id@[i]@].1, x.hash@)
}

#[verifier::spinoff_prover]
proof fn lemma_receipts_read_complete(
    st: (ContentsView, ReceiptsView),
    qs: Seq<Result<Hashed<P2PMessageReceipt>, ZomeError>>,
)
    ensures
        receipts_read(st, qs).0.dom() == st.0.dom(),
        forall|h: Seq<char>| #[trigger] st.0.contains_key(h) ==> receipts_read(st, qs).0[h].1.len() >= st.0[h].1.len()
            && forall|i: int| 0 <= i < st.0[h].1.len() ==> receipts_read(st, qs).0[h].1[i] == st.0[h].1[i],
        forall|r: Seq<char>| #[trigger] st.1.contains_key(r) ==> receipts_read(st, qs).1.contains_key(r),
        forall|j: int| 0 <= j < qs.len() && #[trigger] qs[j] is Ok ==> receipt_returned(receipts_read(st, qs), qs[j]->Ok_0),
    decreases qs.len(),
{
    if qs.len() > 0 {
        let rest = qs.drop_last();
        lemma_receipts_read_complete(st, rest);
        let prev = receipts_read(st, rest);
        let next = receipts_read(st, qs);
        assert(next == receipt_step(prev, qs.last()));
        if let Ok(x) = qs.last() {
            let ids = x.content.id@;
            assert(next.0.dom() =~= prev.0.dom());
            assert forall|h: Seq<char>| #[trigger] prev.0.contains_key(h) implies next.0[h].1.len() >= prev.0[h].1.len()
                && forall|i: int| 0 <= i < prev.0[h].1.len() ==> next.0[h].1[i] == prev.0[h].1[i] by {
            }
            assert forall|j: int| 0 <= j < qs.len() && #[trigger] qs[j] is Ok implies receipt_returned(next, qs[j]->Ok_0) by {
                let y = qs[j]->Ok_0;
                assert forall|i: int| 0 <= i < y.content.id@.len() && #[trigger] next.0.contains_key(y.content.id@[i]@) implies next.1.contains_key(y.hash@)
                    && crate::helpers::lists_key(next.0[y.content.id@[i]@].1, y.hash@) by {
                    let k = y.content.id@[i]@;
                    if j == qs.len() - 1 {
                        lemma_mention_counts(ids, k, i);
                        assert(mentions_listed(prev.0, ids));
                        let n = prev.0[k].1.len();
                        assert(next.0[k].1[n as int] == x.hash);
                    } else {
                        assert(rest[j] == qs[j]);
                        assert(receipt_returned(prev, y));
                        assert(prev.0.contains_key(k));
                        let w = choose|w: int| 0 <= w < prev.0[k].1.len() && #[trigger] prev.0[k].1[w]@ == y.hash@;
                        assert(next.0[k].1[w] == prev.0[k].1[w]);
                    }
                }
            }
        } else {
            assert forall|j: int| 0 <= j < qs.len() && #[trigger] qs[j] is Ok implies receipt_returned(next, qs[j]->Ok_0) by {
                assert(rest[j] == qs[j]);
            }
        }
        assert forall|h: Seq<char>| #[trigger] st.0.contains_key(h) implies next.0[h].1.len() >= st.0[h].1.len()
            && forall|i: int| 0 <= i < st.0[h].1.len() ==> next.0[h].1[i] == st.0[h].1[i] by {
            assert(prev.0.contains_key(h));
        }
    }
}

/// Every receipt on the chain that speaks of a message listed by a read
/// function is returned under its hash and named in that message's bundle.
pub proof fn law_read_receipts_complete(
    listing: Listing,
    queried_receipts: Seq<Result<Hashed<P2PMessageReceipt>, ZomeError>>,
    queried_messages: Seq<Result<Hashed<P2PMessage>, ZomeError>>,
)
    ensures
        forall|j: int|
            0 <= j < queried_receipts.len() && #[trigger] queried_receipts[j] is Ok ==> receipt_returned(
                (
                    finished(listing, queried_receipts, queried_messages).1,
                    finished(listing, queried_receipts, queried_messages).2,
                ),
                queried_receipts[j]->Ok_0,
            ),
{
    let rr = receipts_read((listing.1, Map::empty()), queried_receipts);
    lemma_receipts_read_complete((listing.1, Map::empty()), queried_receipts);
    lemma_replies_read_keeps(rr.0, listing.2, queried_messages);
    let t = finished(listing, queried_receipts, queried_messages);
    assert forall|j: int| 0 <= j < queried_receipts.len() && #[trigger] queried_receipts[j] is Ok implies receipt_returned(
        (t.1, t.2),
        queried_receipts[j]->Ok_0,
    ) by {
        let y = queried_receipts[j]->Ok_0;
        assert(receipt_returned(rr, y));
        assert forall|i: int| 0 <= i < y.content.id@.len() && #[trigger] t.1.contains_key(y.content.id@[i]@) implies t.2.contains_key(y.hash@)
            && crate::helpers::lists_key(t.1[y.content.id@[i]@].1, y.hash@) by {
            assert(rr.0.contains_key(y.content.id@[i]@));
        }
    }
}

/// Every receipt on the chain that speaks of a pinned message that is listed
/// is returned under its hash and named in that message's bundle.
pub proof fn law_pinned_receipts_complete(
    conversant: AgentPubKey,
    queried_pins: Seq<Result<Hashed<P2PMessagePin>, ZomeError>>,
    queried_messages: Seq<Result<Hashed<P2PMessage>, ZomeError>>,
    queried_receipts: Seq<Result<Hashed<P2PMessageReceipt>, ZomeError>>,
)
    ensures
        crate::queries::pinned_tables(conversant, queried_pins, queried_messages, queried_receipts) matches Ok(t)
            ==> forall|j: int|
            0 <= j < queried_receipts.len() && #[trigger] queried_receipts[j] is Ok ==> receipt_returned(
                (t.1, t.2),
                queried_receipts[j]->Ok_0,
            ),
{
    if let Ok(pp) = crate::queries::pins_read(queried_pins, conversant) {
        if let Ok(st) = pinned_listing(queried_messages, conversant, pp.0) {
            lemma_receipts_read_complete((st.1, Map::empty()), queried_receipts);
        }
    }
}

/// Whether `rt` shows the message `x` as it is on the chain: its hash, its
/// author, its receiver, its payload and its time.
pub open spec fn quotes(rt: crate::types::ReplyToView, x: Hashed<P2PMessage>) -> bool {
    &&& rt.hash@ == x.hash@
    &&& rt.author == x.content.author
    &&& rt.receiver == x.content.receiver
    &&& rt.payload == x.content@.payload
    &&& rt.time_sent == x.content.time_sent
}

/// Whether every bundle of `contents` that shows a message replied to shows
/// one of the messages `qs` as it is there.
pub open spec fn replies_quote(contents: ContentsView, qs: Seq<Result<Hashed<P2PMessage>, ZomeError>>) -> bool {
    forall|h: Seq<char>|
        #[trigger] contents.contains_key(h) && contents[h].0.reply_to is Some ==> exists|j: int|
            0 <= j < qs.len() && #[trigger] qs[j] is Ok && quotes(contents[h].0.reply_to->Some_0, qs[j]->Ok_0)
}

#[verifier::spinoff_prover]
proof fn lemma_replies_read_quote(
    c: ContentsView,
    replies: RepliesView,
    qs: Seq<Result<Hashed<P2PMessage>, ZomeError>>,
)
    requires
        forall|h: Seq<char>| #[trigger] c.contains_key(h) ==> c[h].0.reply_to is None,
    ensures
        replies_quote(replies_read(c, replies, qs), qs),
    decreases qs.len(),
{
    if qs.len() > 0 {
        let rest = qs.drop_last();
        lemma_replies_read_quote(c, replies, rest);
        let prev = replies_read(c, replies, rest);
        let next = replies_read(c, replies, qs);
        assert(next == reply_step(prev, replies, qs.last()));
        assert forall|h: Seq<char>| #[trigger] next.contains_key(h) && next[h].0.reply_to is Some implies exists|j: int|
            0 <= j < qs.len() && #[trigger] qs[j] is Ok && quotes(next[h].0.reply_to->Some_0, qs[j]->Ok_0) by {
            let last = qs.len() - 1;
            assert(qs[last] == qs.last());
            let shown_now = match qs.last() {
                Ok(x) => replies.contains_key(x.hash@) && crate::helpers::lists_key(replies[x.hash@], h),
                Err(_) => false,
            };
            if shown_now {
                let x = qs.last()->Ok_0;
                assert(quotes(next[h].0.reply_to->Some_0, qs[last]->Ok_0));
            } else {
                assert(prev.contains_key(h));
                assert(next[h] == prev[h]);
                let j = choose|j: int|
                    0 <= j < rest.len() && #[trigger] rest[j] is Ok && quotes(prev[h].0.reply_to->Some_0, rest[j]->Ok_0);
                assert(rest[j] == qs[j]);
            }
        }
    }
}

proof fn lemma_finished_quotes(
    st: Listing,
    receipts: Seq<Result<Hashed<P2PMessageReceipt>, ZomeError>>,
    messages: Seq<Result<Hashed<P2PMessage>, ZomeError>>,
)
    requires
        bundles_bare(st.1),
    ensures
        replies_quote(finished(st, receipts, messages).1, messages),
{
    let empty = Map::<Seq<char>, crate::types::ReceiptView>::empty();
    assert(receipts_stored(st.1, empty));
    assert(receipts_named(st.1, empty));
    lemma_receipts_read_keeps((st.1, empty), receipts);
    let rr = receipts_read((st.1, empty), receipts);
    assert forall|h: Seq<char>| #[trigger] rr.0.contains_key(h) implies rr.0[h].0.reply_to is None by {
        assert(st.1.contains_key(h));
    }
    lemma_replies_read_quote(rr.0, st.2, messages);
}

/// In the tables of the latest messages, a message shown as a reply shows
/// the message it replies to as that message is on the chain: its hash,
/// author, receiver, payload and time.
pub proof fn law_latest_replies_quote_the_chain(
    queried_messages: Seq<Result<Hashed<P2PMessage>, ZomeError>>,
    queried_receipts: Seq<Result<Hashed<P2PMessageReceipt>, ZomeError>>,
    me: AgentPubKey,
    batch_size: nat,
)
    ensures
        replies_quote(
            finished(latest_listing(queried_messages, me, batch_size), queried_receipts, queried_messages).1,
            queried_messages,
        ),
{
    lemma_latest_sound(queried_messages, me, batch_size);
    lemma_finished_quotes(latest_listing(queried_messages, me, batch_size), queried_receipts, queried_messages);
}

/// In the tables of one day's messages, a message shown as a reply shows the
/// message it replies to as that message is on the chain.
pub proof fn law_day_replies_quote_the_chain(
    queried_messages: Seq<Result<Hashed<P2PMessage>, ZomeError>>,
    queried_receipts: Seq<Result<Hashed<P2PMessageReceipt>, ZomeError>>,
    filter: P2PMessageFilterAgentTimestamp,
    day_start: int,
    day_end: int,
)
    ensures
        replies_quote(
            finished(day_listing(queried_messages, filter, day_start, day_end), queried_receipts, queried_messages).1,
            queried_messages,
        ),
{
    lemma_day_sound(queried_messages, filter, day_start, day_end);
    lemma_finished_quotes(day_listing(queried_messages, filter, day_start, day_end), queried_receipts, queried_messages);
}

/// In the tables of a batch of earlier messages, a message shown as a reply
/// shows the message it replies to as that message is on the chain.
pub proof fn law_next_batch_replies_quote_the_chain(
    queried_messages: Seq<Result<Hashed<P2PMessage>, ZomeError>>,
    queried_receipts: Seq<Result<Hashed<P2PMessageReceipt>, ZomeError>>,
    filter: P2PMessageFilterBatch,
    bound: Timestamp,
)
    ensures
        next_batch_listing(queried_messages, filter, bound) matches Ok(p) ==> replies_quote(
            finished(p.0, queried_receipts, queried_messages).1,
            queried_messages,
        ),
{
    lemma_next_batch_sound(queried_messages, filter, bound);
    if let Ok(p) = next_batch_listing(queried_messages, filter, bound) {
        lemma_finished_quotes(p.0, queried_receipts, queried_messages);
    }
}

/// In the tables of the later messages, a message shown as a reply shows the
/// message it replies to as that message is on the chain.
pub proof fn law_next_replies_quote_the_chain(
    queried_messages: Seq<Result<Hashed<P2PMessage>, ZomeError>>,
    queried_receipts: Seq<Result<Hashed<P2PMessageReceipt>, ZomeError>>,
    filter: P2PMessageFilterBatch,
    bound: Timestamp,
)
    ensures
        replies_quote(
            finished(next_listing(queried_messages, filter, bound), queried_receipts, queried_messages).1,
            queried_messages,
        ),
{
    let later = crate::queries::later_messages_of(queried_messages, filter, bound);
    let s = start_for(filter.conversant);
    lemma_start_sound(filter.conversant);
    lemma_put_all_sound(
        (s.0, s.1),
        later.1.subrange(
            crate::queries::batch_start(later.1.len(), filter.batch_size as nat),
            later.1.len() as int,
        ),
        filter.conversant,
    );
    lemma_finished_quotes(next_listing(queried_messages, filter, bound), queried_receipts, queried_messages);
}

/// The task that the commit `a` asks for on its own: a created message
/// (entry type 0) is committed to its receiver's chain, a created receipt
/// (entry type 1) to its sender's chain; other actions ask for none.
pub open spec fn task_for(a: crate::zome::CommittedAction) -> Option<crate::zome::PostCommitTask> {
    match a {
        crate::zome::CommittedAction::Create { app_entry_index: Some(i), entry_hash } => if i == 0 {
            Some(crate::zome::PostCommitTask::CommitMessage(entry_hash))
        } else if i == 1 {
            Some(crate::zome::PostCommitTask::CommitReceipt(entry_hash))
        } else {
            None
        },
        _ => None,
    }
}

/// The tasks that the commits `actions` ask for, one per created message or
/// receipt, in order.
pub open spec fn tasks_for(actions: Seq<crate::zome::CommittedAction>) -> Seq<crate::zome::PostCommitTask>
    decreases actions.len(),
{
    if actions.len() == 0 {
        Seq::empty()
    } else {
        (match task_for(actions.first()) {
            Some(t) => seq![t],
            None => Seq::empty(),
        }) + tasks_for(actions.drop_first())
    }
}

/// Whether `a` creates a message (entry type 0) that the chain `messages`
/// holds as a message to its own author.
pub open spec fn creates_message_to_self(
    a: crate::zome::CommittedAction,
    messages: Seq<Result<Hashed<P2PMessage>, ZomeError>>,
) -> bool {
    match a {
        crate::zome::CommittedAction::Create { app_entry_index: Some(i), entry_hash } => i == 0 && match crate::helpers::newest_match(
            messages,
            entry_hash@,
        ) {
            Some(Ok(m)) => m.author@ == m.receiver@,
            _ => false,
        },
        _ => false,
    }
}

/// Whether, when `a` creates a message (entry type 0), the chain `messages`
/// holds that message.
pub open spec fn created_message_found(
    a: crate::zome::CommittedAction,
    messages: Seq<Result<Hashed<P2PMessage>, ZomeError>>,
) -> bool {
    match a {
        crate::zome::CommittedAction::Create { app_entry_index: Some(i), entry_hash } => i == 0
            ==> crate::helpers::newest_match(messages, entry_hash@) is Some && crate::helpers::newest_match(
            messages,
            entry_hash@,
        )->Some_0 is Ok,
        _ => true,
    }
}

proof fn lemma_tasks_for_has(actions: Seq<crate::zome::CommittedAction>, k: int)
    requires
        0 <= k < actions.len(),
        task_for(actions[k]) is Some,
    ensures
        exists|i: int| 0 <= i < tasks_for(actions).len() && tasks_for(actions)[i] == task_for(actions[k])->Some_0,
    decreases actions.len(),
{
    let head = match task_for(actions.first()) {
        Some(t) => seq![t],
        None => Seq::<crate::zome::PostCommitTask>::empty(),
    };
    assert(tasks_for(actions) == head + tasks_for(actions.drop_first()));
    if k == 0 {
        assert(tasks_for(actions)[0] == task_for(actions[0])->Some_0);
    } else {
        assert(actions.drop_first()[k - 1] == actions[k]);
        lemma_tasks_for_has(actions.drop_first(), k - 1);
        let i = choose|i: int|
            0 <= i < tasks_for(actions.drop_first()).len() && tasks_for(actions.drop_first())[i] == task_for(
                actions[k],
            )->Some_0;
        assert(tasks_for(actions)[head.len() + i] == tasks_for(actions.drop_first())[i]);
    }
}

/// After the commits `actions`, taken in order up to the first that creates
/// a message to oneself (at `cut`, or none), there is exactly one task per
/// created message or receipt, in order: a created message is committed to
/// its receiver's chain, whatever came before it, and a created receipt to
/// its sender's chain, whatever messages to others came before it; nothing
/// is done after a message to oneself. This holds when every message created
/// before `cut` is on the chain.
#[verifier::spinoff_prover]
pub proof fn law_post_commit_tasks(
    actions: Seq<crate::zome::CommittedAction>,
    messages: Seq<Result<Hashed<P2PMessage>, ZomeError>>,
    cut: int,
)
    requires
        0 <= cut <= actions.len(),
        forall|k: int|
            0 <= k < cut ==> !creates_message_to_self(#[trigger] actions[k], messages) && created_message_found(
                actions[k],
                messages,
            ),
        cut < actions.len() ==> creates_message_to_self(actions[cut], messages),
    ensures
        crate::zome::post_commit_plan(actions, messages) == Some(tasks_for(actions.take(cut))),
        forall|k: int|
            0 <= k < cut && (#[trigger] actions[k] matches crate::zome::CommittedAction::Create {
                app_entry_index: Some(i),
                entry_hash,
            } && i == 1) ==> exists|t: int|
                0 <= t < tasks_for(actions.take(cut)).len() && tasks_for(actions.take(cut))[t]
                    == crate::zome::PostCommitTask::CommitReceipt(actions[k]->Create_entry_hash),
    decreases actions.len(),
{
    if actions.len() > 0 {
        if cut == 0 {
            assert(actions.take(0) =~= Seq::<crate::zome::CommittedAction>::empty());
            assert(actions[0] == actions.first());
        } else {
            let rest = actions.drop_first();
            assert forall|k: int| 0 <= k < cut - 1 implies !creates_message_to_self(#[trigger] rest[k], messages)
                && created_message_found(rest[k], messages) by {
                assert(rest[k] == actions[k + 1]);
            }
            if cut < actions.len() {
                assert(rest[cut - 1] == actions[cut]);
            }
            law_post_commit_tasks(rest, messages, cut - 1);
            assert(actions[0] == actions.first());
            assert(actions.take(cut).drop_first() =~= rest.take(cut - 1));
            assert(actions.take(cut).first() == actions.first());
        }
        assert forall|k: int|
            0 <= k < cut && (#[trigger] actions[k] matches crate::zome::CommittedAction::Create {
                app_entry_index: Some(i),
                entry_hash,
            } && i == 1) implies exists|t: int|
                0 <= t < tasks_for(actions.take(cut)).len() && tasks_for(actions.take(cut))[t]
                    == crate::zome::PostCommitTask::CommitReceipt(actions[k]->Create_entry_hash) by {
            assert(actions.take(cut)[k] == actions[k]);
            lemma_tasks_for_has(actions.take(cut), k);
        }
    } else {
        assert(actions.take(0) =~= Seq::<crate::zome::CommittedAction>::empty());
    }
}

/// Whether the entries of `qs` read as messages with the same hash are the
/// same message.
pub open spec fn hashes_tell_messages_apart(qs: Seq<Result<Hashed<P2PMessage>, ZomeError>>) -> bool {
    forall|i: int, j: int|
        #![trigger qs[i], qs[j]]
        0 <= i < qs.len() && 0 <= j < qs.len() && qs[i] is Ok && qs[j] is Ok && qs[i]->Ok_0.hash@
            == qs[j]->Ok_0.hash@ ==> qs[i]->Ok_0.content@ == qs[j]->Ok_0.content@
}

/// Every bundle of `st` is that of a message of `qs`.
spec fn bundles_from(st: Listing, qs: Seq<Result<Hashed<P2PMessage>, ZomeError>>) -> bool {
    forall|k: Seq<char>| #[trigger] st.1.contains_key(k) ==> exists|j: int|
        0 <= j < qs.len() && #[trigger] qs[j] is Ok && qs[j]->Ok_0.hash@ == k
}

/// Every message of `qs` that has a bundle in `st` and replies to a message
/// is recorded among the replies to that message.
spec fn replies_recorded(st: Listing, qs: Seq<Result<Hashed<P2PMessage>, ZomeError>>) -> bool {
    forall|j: int|
        0 <= j < qs.len() && #[trigger] qs[j] is Ok && st.1.contains_key(qs[j]->Ok_0.hash@)
            && qs[j]->Ok_0.content.reply_to is Some ==> st.2.contains_key(qs[j]->Ok_0.content.reply_to->Some_0@)
            && crate::helpers::lists_key(st.2[qs[j]->Ok_0.content.reply_to->Some_0@], qs[j]->Ok_0.hash@)
}

/// Every reply recorded in `replies` is a message of `qs` that replies to
/// the message it is recorded under.
spec fn replies_from(replies: RepliesView, qs: Seq<Result<Hashed<P2PMessage>, ZomeError>>) -> bool {
    forall|r: Seq<char>, k: Seq<char>|
        replies.contains_key(r) && #[trigger] crate::helpers::lists_key(replies[r], k) ==> exists|j: int|
            0 <= j < qs.len() && #[trigger] qs[j] is Ok && qs[j]->Ok_0.hash@ == k && qs[j]->Ok_0.content.reply_to is Some
                && qs[j]->Ok_0.content.reply_to->Some_0@ == r
}

spec fn replies_tracked(st: Listing, qs: Seq<Result<Hashed<P2PMessage>, ZomeError>>) -> bool {
    bundles_from(st, qs) && replies_recorded(st, qs) && replies_from(st.2, qs)
}

proof fn lemma_appended_lists(m: Map<Seq<char>, Seq<EntryHash>>, key: Seq<char>, h: EntryHash, k: Seq<char>)
    ensures
        crate::helpers::lists_key(crate::helpers::appended(m, key, h), k) <==> (k == h@ || (m.contains_key(key)
            && crate::helpers::lists_key(m[key], k))),
{
    let a = crate::helpers::appended(m, key, h);
    if m.contains_key(key) {
        if crate::helpers::lists_key(a, k) {
            let w = choose|w: int| 0 <= w < a.len() && #[trigger] a[w]@ == k;
            if w < m[key].len() {
                assert(m[key][w] == a[w]);
            }
        }
        if crate::helpers::lists_key(m[key], k) {
            let w = choose|w: int| 0 <= w < m[key].len() && #[trigger] m[key][w]@ == k;
            assert(a[w] == m[key][w]);
        }
        if k == h@ {
            assert(a[m[key].len() as int] == h);
        }
    } else {
        if crate::helpers::lists_key(a, k) {
            let w = choose|w: int| 0 <= w < a.len() && #[trigger] a[w]@ == k;
            assert(w == 0);
        }
        if k == h@ {
            assert(a[0] == h);
        }
    }
}

#[verifier::spinoff_prover]
proof fn lemma_step_tracks_replies(prev: Listing, next: Listing, qs: Seq<Result<Hashed<P2PMessage>, ZomeError>>, key: AgentPubKey)
    requires
        qs.len() > 0,
        hashes_tell_messages_apart(qs),
        replies_tracked(prev, qs.drop_first()),
        next == prev || (qs[0] is Ok && next == listed(prev, qs[0]->Ok_0.hash, qs[0]->Ok_0.content@, key)),
    ensures
        replies_tracked(next, qs),
{
    let rest = qs.drop_first();
    assert forall|j: int| 0 <= j < rest.len() implies #[trigger] rest[j] == qs[j + 1] by {}
    // what `prev` tracks of `rest` it tracks of `qs`
    assert(bundles_from(prev, qs)) by {
        assert forall|k: Seq<char>| #[trigger] prev.1.contains_key(k) implies exists|j: int|
            0 <= j < qs.len() && #[trigger] qs[j] is Ok && qs[j]->Ok_0.hash@ == k by {
            let j = choose|j: int| 0 <= j < rest.len() && #[trigger] rest[j] is Ok && rest[j]->Ok_0.hash@ == k;
            assert(rest[j] == qs[j + 1]);
        }
    }
    assert(replies_from(prev.2, qs)) by {
        assert forall|r: Seq<char>, k: Seq<char>|
            prev.2.contains_key(r) && #[trigger] crate::helpers::lists_key(prev.2[r], k) implies exists|j: int|
            0 <= j < qs.len() && #[trigger] qs[j] is Ok && qs[j]->Ok_0.hash@ == k && qs[j]->Ok_0.content.reply_to is Some
                && qs[j]->Ok_0.content.reply_to->Some_0@ == r by {
            let j = choose|j: int|
                0 <= j < rest.len() && #[trigger] rest[j] is Ok && rest[j]->Ok_0.hash@ == k && rest[j]->Ok_0.content.reply_to is Some
                    && rest[j]->Ok_0.content.reply_to->Some_0@ == r;
            assert(rest[j] == qs[j + 1]);
        }
    }
    assert(replies_recorded(prev, qs)) by {
        assert forall|j: int|
            0 <= j < qs.len() && #[trigger] qs[j] is Ok && prev.1.contains_key(qs[j]->Ok_0.hash@)
                && qs[j]->Ok_0.content.reply_to is Some implies prev.2.contains_key(qs[j]->Ok_0.content.reply_to->Some_0@)
                && crate::helpers::lists_key(prev.2[qs[j]->Ok_0.content.reply_to->Some_0@], qs[j]->Ok_0.hash@) by {
            if j > 0 {
                assert(rest[j - 1] == qs[j]);
            } else {
                let w = choose|w: int| 0 <= w < rest.len() && #[trigger] rest[w] is Ok && rest[w]->Ok_0.hash@ == qs[0]->Ok_0.hash@;
                assert(rest[w] == qs[w + 1]);
                assert(qs[w + 1]->Ok_0.content@ == qs[0]->Ok_0.content@);
                assert(rest[w]->Ok_0.content.reply_to == qs[0]->Ok_0.content.reply_to);
            }
        }
    }
    if next != prev {
        let x = qs[0]->Ok_0;
        let m = x.content@;
        assert(next.1 == prev.1.insert(x.hash@, crate::helpers::fresh_bundle(m)));
        assert(next.2 == crate::helpers::with_reply(prev.2, m, x.hash));
        assert forall|k: Seq<char>| #[trigger] next.1.contains_key(k) implies exists|j: int|
            0 <= j < qs.len() && #[trigger] qs[j] is Ok && qs[j]->Ok_0.hash@ == k by {
            if k == x.hash@ {
                assert(qs[0] is Ok);
            } else {
                assert(prev.1.contains_key(k));
            }
        }
        assert forall|r: Seq<char>, k: Seq<char>|
            next.2.contains_key(r) && #[trigger] crate::helpers::lists_key(next.2[r], k) implies exists|j: int|
            0 <= j < qs.len() && #[trigger] qs[j] is Ok && qs[j]->Ok_0.hash@ == k && qs[j]->Ok_0.content.reply_to is Some
                && qs[j]->Ok_0.content.reply_to->Some_0@ == r by {
            match m.reply_to {
                Some(rt) => {
                    if r == rt@ {
                        lemma_appended_lists(prev.2, rt@, x.hash, k);
                        if k == x.hash@ {
                            assert(qs[0] is Ok);
                        } else {
                            assert(crate::helpers::lists_key(prev.2[r], k));
                        }
                    } else {
                        assert(next.2[r] == prev.2[r]);
                    }
                },
                None => {},
            }
        }
        assert forall|j: int|
            0 <= j < qs.len() && #[trigger] qs[j] is Ok && next.1.contains_key(qs[j]->Ok_0.hash@)
                && qs[j]->Ok_0.content.reply_to is Some implies next.2.contains_key(qs[j]->Ok_0.content.reply_to->Some_0@)
                && crate::helpers::lists_key(next.2[qs[j]->Ok_0.content.reply_to->Some_0@], qs[j]->Ok_0.hash@) by {
            let y = qs[j]->Ok_0;
            let r = y.content.reply_to->Some_0@;
            if y.hash@ == x.hash@ {
                assert(qs[0]->Ok_0.content@ == qs[j]->Ok_0.content@);
                lemma_appended_lists(prev.2, r, x.hash, y.hash@);
            } else {
                assert(prev.1.contains_key(y.hash@));
                match m.reply_to {
                    Some(rt) => {
                        lemma_appended_lists(prev.2, rt@, x.hash, y.hash@);
                    },
                    None => {},
                }
            }
        }
    }
}

proof fn lemma_latest_tracks_replies(qs: Seq<Result<Hashed<P2PMessage>, ZomeError>>, me: AgentPubKey, batch_size: nat)
    requires
        hashes_tell_messages_apart(qs),
    ensures
        replies_tracked(latest_listing(qs, me, batch_size), qs),
    decreases qs.len(),
{
    if qs.len() > 0 {
        let rest = qs.drop_first();
        assert(hashes_tell_messages_apart(rest)) by {
            assert forall|i: int, j: int| 0 <= i < rest.len() && 0 <= j < rest.len() implies #[trigger] rest[i] == qs[i + 1]
                && #[trigger] rest[j] == qs[j + 1] by {}
        }
        lemma_latest_tracks_replies(rest, me, batch_size);
        let prev = latest_listing(rest, me, batch_size);
        assert(qs[0] == qs.first());
        match qs.first() {
            Ok(h) => {
                let key = crate::queries::partner_of(h.content@, me);
                lemma_step_tracks_replies(prev, latest_listing(qs, me, batch_size), qs, key);
            },
            Err(_) => {
                lemma_step_tracks_replies(prev, latest_listing(qs, me, batch_size), qs, me);
            },
        }
    }
}

#[verifier::spinoff_prover]
proof fn lemma_replies_read_shows(
    c: ContentsView,
    replies: RepliesView,
    ms: Seq<Result<Hashed<P2PMessage>, ZomeError>>,
    k: Seq<char>,
    r: Seq<char>,
)
    requires
        c.contains_key(k),
        replies.contains_key(r),
        crate::helpers::lists_key(replies[r], k),
        forall|r2: Seq<char>| replies.contains_key(r2) && #[trigger] crate::helpers::lists_key(replies[r2], k) ==> r2 == r,
        hashes_tell_messages_apart(ms),
    ensures
        (exists|i: int| 0 <= i < ms.len() && #[trigger] ms[i] is Ok && ms[i]->Ok_0.hash@ == r) ==> {
            let shown = replies_read(c, replies, ms)[k].0.reply_to;
            &&& shown is Some
            &&& forall|i: int|
                0 <= i < ms.len() && #[trigger] ms[i] is Ok && ms[i]->Ok_0.hash@ == r ==> quotes(shown->Some_0, ms[i]->Ok_0)
        },
    decreases ms.len(),
{
    if ms.len() > 0 {
        let rest = ms.drop_last();
        assert forall|i: int| 0 <= i < rest.len() implies #[trigger] rest[i] == ms[i] by {}
        assert(hashes_tell_messages_apart(rest)) by {
            assert forall|i: int, j: int| 0 <= i < rest.len() && 0 <= j < rest.len() implies #[trigger] rest[i] == ms[i]
                && #[trigger] rest[j] == ms[j] by {}
        }
        lemma_replies_read_shows(c, replies, rest, k, r);
        lemma_replies_read_keeps(c, replies, rest);
        let prev = replies_read(c, replies, rest);
        let next = replies_read(c, replies, ms);
        assert(next == reply_step(prev, replies, ms.last()));
        let last = ms.len() - 1;
        assert(ms[last] == ms.last());
        assert(prev.contains_key(k));
        if ms.last() is Ok && ms.last()->Ok_0.hash@ == r {
            let y = ms.last()->Ok_0;
            assert(next[k].0.reply_to == Some(crate::types::reply_to_of(y.hash, y.content@)));
            assert forall|i: int| 0 <= i < ms.len() && #[trigger] ms[i] is Ok && ms[i]->Ok_0.hash@ == r implies quotes(
                next[k].0.reply_to->Some_0,
                ms[i]->Ok_0,
            ) by {
                assert(ms[i]->Ok_0.content@ == ms[last]->Ok_0.content@);
            }
        } else {
            if ms.last() is Ok {
                let y = ms.last()->Ok_0;
                if replies.contains_key(y.hash@) {
                    assert(!crate::helpers::lists_key(replies[y.hash@], k));
                }
            }
            assert(next[k] == prev[k]);
            if exists|i: int| 0 <= i < ms.len() && #[trigger] ms[i] is Ok && ms[i]->Ok_0.hash@ == r {
                let i = choose|i: int| 0 <= i < ms.len() && #[trigger] ms[i] is Ok && ms[i]->Ok_0.hash@ == r;
                assert(i != last);
                assert(rest[i] == ms[i]);
            }
        }
    }
}

#[verifier::spinoff_prover]
proof fn lemma_finished_shows(
    st: Listing,
    receipts: Seq<Result<Hashed<P2PMessageReceipt>, ZomeError>>,
    messages: Seq<Result<Hashed<P2PMessage>, ZomeError>>,
)
    requires
        hashes_tell_messages_apart(messages),
        replies_tracked(st, messages),
        bundles_bare(st.1),
    ensures
        replies_shown(finished(st, receipts, messages).1, messages),
{
    let empty = Map::<Seq<char>, crate::types::ReceiptView>::empty();
    assert(receipts_stored(st.1, empty));
    assert(receipts_named(st.1, empty));
    lemma_receipts_read_keeps((st.1, empty), receipts);
    let rr = receipts_read((st.1, empty), receipts);
    lemma_replies_read_keeps(rr.0, st.2, messages);
    let t = finished(st, receipts, messages);
    assert forall|j: int, i: int|
        0 <= j < messages.len() && 0 <= i < messages.len() && #[trigger] messages[j] is Ok && #[trigger] messages[i] is Ok
            && t.1.contains_key(messages[j]->Ok_0.hash@) && messages[j]->Ok_0.content.reply_to is Some
            && messages[i]->Ok_0.hash@ == messages[j]->Ok_0.content.reply_to->Some_0@ implies t.1[messages[j]->Ok_0.hash@].0.reply_to is Some
            && quotes(t.1[messages[j]->Ok_0.hash@].0.reply_to->Some_0, messages[i]->Ok_0) by {
        let x = messages[j]->Ok_0;
        let k = x.hash@;
        let r = x.content.reply_to->Some_0@;
        assert(st.1.contains_key(k));
        assert(st.2.contains_key(r) && crate::helpers::lists_key(st.2[r], k));
        assert forall|r2: Seq<char>| st.2.contains_key(r2) && #[trigger] crate::helpers::lists_key(st.2[r2], k) implies r2 == r by {
            let w = choose|w: int|
                0 <= w < messages.len() && #[trigger] messages[w] is Ok && messages[w]->Ok_0.hash@ == k
                    && messages[w]->Ok_0.content.reply_to is Some && messages[w]->Ok_0.content.reply_to->Some_0@ == r2;
            assert(messages[w]->Ok_0.content@ == messages[j]->Ok_0.content@);
        }
        lemma_replies_read_shows(rr.0, st.2, messages, k, r);
    }
}

/// Whether every message of `qs` that has a bundle in `contents` and replies
/// to a message of `qs` is shown with that message as it is on the chain.
pub open spec fn replies_shown(contents: ContentsView, qs: Seq<Result<Hashed<P2PMessage>, ZomeError>>) -> bool {
    forall|j: int, i: int|
        0 <= j < qs.len() && 0 <= i < qs.len() && #[trigger] qs[j] is Ok && #[trigger] qs[i] is Ok
            && contents.contains_key(qs[j]->Ok_0.hash@) && qs[j]->Ok_0.content.reply_to is Some
            && qs[i]->Ok_0.hash@ == qs[j]->Ok_0.content.reply_to->Some_0@ ==> contents[qs[j]->Ok_0.hash@].0.reply_to is Some
            && quotes(contents[qs[j]->Ok_0.hash@].0.reply_to->Some_0, qs[i]->Ok_0)
}

/// In the tables of the latest messages, a listed message that replies to a
/// message on the chain is shown with that message as it is there (its hash,
/// author, receiver, payload and time), when the messages on the chain are
/// told apart by their hashes.
pub proof fn law_latest_replies_show_their_message(
    queried_messages: Seq<Result<Hashed<P2PMessage>, ZomeError>>,
    queried_receipts: Seq<Result<Hashed<P2PMessageReceipt>, ZomeError>>,
    me: AgentPubKey,
    batch_size: nat,
)
    requires
        hashes_tell_messages_apart(queried_messages),
    ensures
        replies_shown(
            finished(latest_listing(queried_messages, me, batch_size), queried_receipts, queried_messages).1,
            queried_messages,
        ),
{
    lemma_latest_tracks_replies(queried_messages, me, batch_size);
    lemma_latest_sound(queried_messages, me, batch_size);
    lemma_finished_shows(latest_listing(queried_messages, me, batch_size), queried_receipts, queried_messages);
}

proof fn lemma_rest_apart(qs: Seq<Result<Hashed<P2PMessage>, ZomeError>>)
    requires
        qs.len() > 0,
        hashes_tell_messages_apart(qs),
    ensures
        hashes_tell_messages_apart(qs.drop_first()),
{
    let rest = qs.drop_first();
    assert forall|i: int, j: int| 0 <= i < rest.len() && 0 <= j < rest.len() implies #[trigger] rest[i] == qs[i + 1]
        && #[trigger] rest[j] == qs[j + 1] by {}
}

proof fn lemma_day_tracks_replies(
    qs: Seq<Result<Hashed<P2PMessage>, ZomeError>>,
    filter: P2PMessageFilterAgentTimestamp,
    day_start: int,
    day_end: int,
)
    requires
        hashes_tell_messages_apart(qs),
    ensures
        replies_tracked(day_listing(qs, filter, day_start, day_end), qs),
    decreases qs.len(),
{
    if qs.len() > 0 {
        let rest = qs.drop_first();
        lemma_rest_apart(qs);
        lemma_day_tracks_replies(rest, filter, day_start, day_end);
        assert(qs[0] == qs.first());
        lemma_step_tracks_replies(
            day_listing(rest, filter, day_start, day_end),
            day_listing(qs, filter, day_start, day_end),
            qs,
            filter.conversant,
        );
    }
}

proof fn lemma_next_batch_tracks_replies(
    qs: Seq<Result<Hashed<P2PMessage>, ZomeError>>,
    filter: P2PMessageFilterBatch,
    bound: Timestamp,
)
    requires
        hashes_tell_messages_apart(qs),
    ensures
        next_batch_listing(qs, filter, bound) matches Ok(p) ==> replies_tracked(p.0, qs),
    decreases qs.len(),
{
    if qs.len() > 0 {
        let rest = qs.drop_first();
        lemma_rest_apart(qs);
        lemma_next_batch_tracks_replies(rest, filter, bound);
        assert(qs[0] == qs.first());
        if let Ok(p) = next_batch_listing(rest, filter, bound) {
            if let Ok(n) = next_batch_listing(qs, filter, bound) {
                lemma_step_tracks_replies(p.0, n.0, qs, filter.conversant);
            }
        }
    }
}

/// In the tables of one day's messages, a listed message that replies to a
/// message on the chain is shown with that message as it is there, when the
/// messages on the chain are told apart by their hashes.
pub proof fn law_day_replies_show_their_message(
    queried_messages: Seq<Result<Hashed<P2PMessage>, ZomeError>>,
    queried_receipts: Seq<Result<Hashed<P2PMessageReceipt>, ZomeError>>,
    filter: P2PMessageFilterAgentTimestamp,
    day_start: int,
    day_end: int,
)
    requires
        hashes_tell_messages_apart(queried_messages),
    ensures
        replies_shown(
            finished(day_listing(queried_messages, filter, day_start, day_end), queried_receipts, queried_messages).1,
            queried_messages,
        ),
{
    lemma_day_tracks_replies(queried_messages, filter, day_start, day_end);
    lemma_day_sound(queried_messages, filter, day_start, day_end);
    lemma_finished_shows(day_listing(queried_messages, filter, day_start, day_end), queried_receipts, queried_messages);
}

/// In the tables of a batch of earlier messages, a listed message that
/// replies to a message on the chain is shown with that message as it is
/// there, when the messages on the chain are told apart by their hashes.
pub proof fn law_next_batch_replies_show_their_message(
    queried_messages: Seq<Result<Hashed<P2PMessage>, ZomeError>>,
    queried_receipts: Seq<Result<Hashed<P2PMessageReceipt>, ZomeError>>,
    filter: P2PMessageFilterBatch,
    bound: Timestamp,
)
    requires
        hashes_tell_messages_apart(queried_messages),
    ensures
        next_batch_listing(queried_messages, filter, bound) matches Ok(p) ==> replies_shown(
            finished(p.0, queried_receipts, queried_messages).1,
            queried_messages,
        ),
{
    lemma_next_batch_tracks_replies(queried_messages, filter, bound);
    lemma_next_batch_sound(queried_messages, filter, bound);
    if let Ok(p) = next_batch_listing(queried_messages, filter, bound) {
        lemma_finished_shows(p.0, queried_receipts, queried_messages);
    }
}

/// Whether the kind `pt` of a day's query names the payload `p`: "All"
/// names every message, "Text" text messages and "File" file messages.
pub open spec fn day_kind_names(pt: Seq<char>, p: crate::types::PayloadView) -> bool {
    pt == "All"@ || (pt == "Text"@ && p is Text) || (pt == "File"@ && p is File)
}

/// Whether the kind `pt` of a batch query names the payload `p`: "All" names
/// every message, "Text" text messages, "File" every file, "Media" pictures
/// and videos, and "Other" other files.
pub open spec fn batch_kind_names(pt: Seq<char>, p: crate::types::PayloadView) -> bool {
    ||| pt == "All"@
    ||| pt == "Text"@ && p is Text
    ||| pt == "File"@ && p is File
    ||| pt == "Media"@ && (p matches crate::types::PayloadView::File { file_type, .. } && !(file_type is Other))
    ||| pt == "Other"@ && (p matches crate::types::PayloadView::File { file_type, .. } && file_type is Other)
}

/// The read functions take a message exactly when the kind asked names its
/// payload: a day's query, and the queries of earlier and of later messages,
/// select by the kinds as they are named, and by nothing else.
pub proof fn law_kinds_select_what_they_name(pt: Seq<char>, p: crate::types::PayloadView)
    ensures
        crate::queries::day_selects(pt, p) <==> day_kind_names(pt, p),
        crate::queries::batch_selects(pt, p) <==> batch_kind_names(pt, p),
{
}

/// The agent that `me` exchanges the message `x` with: its receiver when
/// `me` wrote it, else its author.
pub open spec fn other_party(x: P2PMessage, me: AgentPubKey) -> Seq<char> {
    if x.author@ == me@ {
        x.receiver@
    } else {
        x.author@
    }
}

#[verifier::spinoff_prover]
proof fn lemma_latest_takes_until_full(
    qs: Seq<Result<Hashed<P2PMessage>, ZomeError>>,
    me: AgentPubKey,
    batch_size: nat,
)
    ensures
        forall|j: int|
            0 <= j < qs.len() && #[trigger] qs[j] is Ok ==> listed_in(
                latest_listing(qs, me, batch_size).0,
                other_party(qs[j]->Ok_0.content, me),
                qs[j]->Ok_0.hash,
            ) || (latest_listing(qs, me, batch_size).0.contains_key(other_party(qs[j]->Ok_0.content, me))
                && latest_listing(qs, me, batch_size).0[other_party(qs[j]->Ok_0.content, me)].len() >= batch_size),
    decreases qs.len(),
{
    if qs.len() > 0 {
        let rest = qs.drop_first();
        lemma_latest_takes_until_full(rest, me, batch_size);
        let prev = latest_listing(rest, me, batch_size);
        let next = latest_listing(qs, me, batch_size);
        assert(next == latest_step(prev, qs.first(), me, batch_size));
        assert(qs[0] == qs.first());
        match qs.first() {
            Ok(h) => {
                let key = crate::queries::partner_of(h.content@, me);
                if prev.0.contains_key(key@) && prev.0[key@].len() >= batch_size {
                    assert forall|j: int| 0 <= j < qs.len() && #[trigger] qs[j] is Ok implies listed_in(
                        next.0,
                        other_party(qs[j]->Ok_0.content, me),
                        qs[j]->Ok_0.hash,
                    ) || (next.0.contains_key(other_party(qs[j]->Ok_0.content, me))
                        && next.0[other_party(qs[j]->Ok_0.content, me)].len() >= batch_size) by {
                        if j > 0 {
                            assert(rest[j - 1] == qs[j]);
                        }
                    }
                } else {
                    lemma_put_keeps((prev.0, prev.1), h.hash, h.content@, key);
                    assert forall|j: int| 0 <= j < qs.len() && #[trigger] qs[j] is Ok implies listed_in(
                        next.0,
                        other_party(qs[j]->Ok_0.content, me),
                        qs[j]->Ok_0.hash,
                    ) || (next.0.contains_key(other_party(qs[j]->Ok_0.content, me))
                        && next.0[other_party(qs[j]->Ok_0.content, me)].len() >= batch_size) by {
                        if j > 0 {
                            assert(rest[j - 1] == qs[j]);
                            let k = other_party(qs[j]->Ok_0.content, me);
                            if listed_in(prev.0, k, qs[j]->Ok_0.hash) {
                            } else if k == key@ {
                                assert(next.0[k].len() == prev.0[k].len() + 1);
                            } else {
                                assert(next.0[k] == prev.0[k]);
                            }
                        }
                    }
                }
            },
            Err(_) => {
                assert forall|j: int| 0 <= j < qs.len() && #[trigger] qs[j] is Ok implies listed_in(
                    next.0,
                    other_party(qs[j]->Ok_0.content, me),
                    qs[j]->Ok_0.hash,
                ) || (next.0.contains_key(other_party(qs[j]->Ok_0.content, me))
                    && next.0[other_party(qs[j]->Ok_0.content, me)].len() >= batch_size) by {
                    if j > 0 {
                        assert(rest[j - 1] == qs[j]);
                    }
                }
            },
        }
    }
}

/// Every message on the chain is listed among the latest messages under the
/// agent that `me` exchanged it with (with a bundle), unless that agent's
/// list already holds `batch_size` messages.
#[verifier::spinoff_prover]
pub proof fn law_latest_lists_until_full(
    queried_messages: Seq<Result<Hashed<P2PMessage>, ZomeError>>,
    queried_receipts: Seq<Result<Hashed<P2PMessageReceipt>, ZomeError>>,
    me: AgentPubKey,
    batch_size: nat,
)
    ensures
        forall|j: int|
            0 <= j < queried_messages.len() && #[trigger] queried_messages[j] is Ok ==> {
                let x = queried_messages[j]->Ok_0;
                let t = finished(latest_listing(queried_messages, me, batch_size), queried_receipts, queried_messages);
                let k = if x.content.author@ == me@ { x.content.receiver@ } else { x.content.author@ };
                (listed_in(t.0, k, x.hash) && t.1.contains_key(x.hash@)) || (t.0.contains_key(k)
                    && t.0[k].len() >= batch_size)
            },
{
    let qs = queried_messages;
    lemma_latest_takes_until_full(qs, me, batch_size);
    law_latest_messages_consistent(qs, queried_receipts, me, batch_size);
    let t = finished(latest_listing(qs, me, batch_size), queried_receipts, qs);
    assert forall|j: int| 0 <= j < qs.len() && #[trigger] qs[j] is Ok implies {
        let x = qs[j]->Ok_0;
        let k = if x.content.author@ == me@ { x.content.receiver@ } else { x.content.author@ };
        (listed_in(t.0, k, x.hash) && t.1.contains_key(x.hash@)) || (t.0.contains_key(k) && t.0[k].len() >= batch_size)
    } by {
        let x = qs[j]->Ok_0;
        let k = other_party(x.content, me);
        if listed_in(t.0, k, x.hash) {
            let i = choose|i: int| 0 <= i < t.0[k].len() && t.0[k][i] == x.hash;
            assert(t.1.contains_key(t.0[k][i]@));
        }
    }
}

/// Every message listed for the filter's day is a message of the chain sent
/// from `filter.date` to 86399 seconds later, written or received by the
/// conversant, whose payload the asked kind names.
#[verifier::spinoff_prover]
pub proof fn law_day_lists_only_that_day(
    queried_messages: Seq<Result<Hashed<P2PMessage>, ZomeError>>,
    filter: P2PMessageFilterAgentTimestamp,
)
    ensures
        ({
            let l = day_listing(
                queried_messages,
                filter,
                filter.date.0 as int,
                filter.date.0 + crate::queries::day_span(),
            ).0[filter.conversant@];
            forall|i: int|
                #![trigger l[i]]
                0 <= i < l.len() ==> exists|j: int|
                    0 <= j < queried_messages.len() && #[trigger] queried_messages[j] is Ok && queried_messages[j]->Ok_0.hash
                        == l[i] && filter.date.0 <= queried_messages[j]->Ok_0.content.time_sent.0 <= filter.date.0
                        + 86399 * 1000000 && (queried_messages[j]->Ok_0.content.author@ == filter.conversant@
                        || queried_messages[j]->Ok_0.content.receiver@ == filter.conversant@) && day_kind_names(
                        filter.payload_type@,
                        queried_messages[j]->Ok_0.content@.payload,
                    )
        }),
{
    let qs = queried_messages;
    let ds = filter.date.0 as int;
    let de = filter.date.0 + crate::queries::day_span();
    law_day_messages_match_filter(qs, filter, ds, de);
    let l = day_listing(qs, filter, ds, de).0[filter.conversant@];
    assert forall|i: int| #![trigger l[i]] 0 <= i < l.len() implies exists|j: int|
        0 <= j < qs.len() && #[trigger] qs[j] is Ok && qs[j]->Ok_0.hash == l[i] && filter.date.0
            <= qs[j]->Ok_0.content.time_sent.0 <= filter.date.0 + 86399 * 1000000 && (qs[j]->Ok_0.content.author@
            == filter.conversant@ || qs[j]->Ok_0.content.receiver@ == filter.conversant@) && day_kind_names(
            filter.payload_type@,
            qs[j]->Ok_0.content@.payload,
        ) by {
        assert(hashed_message_with(qs, l[i], in_day(filter, ds, de)));
        let j = choose|j: int|
            0 <= j < qs.len() && (#[trigger] qs[j] matches Ok(x) && x.hash == l[i] && in_day(filter, ds, de)(
                x.hash,
                x.content@,
            ));
        law_kinds_select_what_they_name(filter.payload_type@, qs[j]->Ok_0.content@.payload);
    }
}

/// Whether the entries of `qs` read as messages have distinct hashes.
pub open spec fn message_hashes_distinct(qs: Seq<Result<Hashed<P2PMessage>, ZomeError>>) -> bool {
    forall|i: int, j: int|
        #![trigger qs[i], qs[j]]
        0 <= i < qs.len() && 0 <= j < qs.len() && i != j && qs[i] is Ok && qs[j] is Ok ==> qs[i]->Ok_0.hash@
            != qs[j]->Ok_0.hash@
}

/// Whether `q` is a message that the later messages keep.
spec fn kept_later(q: Result<Hashed<P2PMessage>, ZomeError>, filter: P2PMessageFilterBatch, bound: Timestamp) -> bool {
    q matches Ok(h) && h.content@.time_sent.0 >= bound.0 && crate::queries::batch_passes(filter, h.hash, h.content@)
}

proof fn lemma_rest_distinct(qs: Seq<Result<Hashed<P2PMessage>, ZomeError>>)
    requires
        qs.len() > 0,
        message_hashes_distinct(qs),
    ensures
        message_hashes_distinct(qs.drop_first()),
        forall|i: int| 0 <= i < qs.len() - 1 ==> #[trigger] qs.drop_first()[i] == qs[i + 1],
{
    let rest = qs.drop_first();
    assert forall|i: int, j: int| 0 <= i < rest.len() && 0 <= j < rest.len() implies #[trigger] rest[i] == qs[i + 1]
        && #[trigger] rest[j] == qs[j + 1] by {}
}

proof fn lemma_later_from(qs: Seq<Result<Hashed<P2PMessage>, ZomeError>>, filter: P2PMessageFilterBatch, bound: Timestamp)
    ensures
        forall|p: int|
            #![trigger crate::queries::later_messages_of(qs, filter, bound).1[p]]
            0 <= p < crate::queries::later_messages_of(qs, filter, bound).1.len() ==> exists|i: int|
                0 <= i < qs.len() && #[trigger] kept_later(qs[i], filter, bound) && qs[i]->Ok_0.hash
                    == crate::queries::later_messages_of(qs, filter, bound).1[p].0,
    decreases qs.len(),
{
    if qs.len() > 0 {
        let rest = qs.drop_first();
        lemma_later_from(rest, filter, bound);
        let kr = crate::queries::later_messages_of(rest, filter, bound).1;
        let k = crate::queries::later_messages_of(qs, filter, bound).1;
        assert(qs[0] == qs.first());
        if kept_later(qs[0], filter, bound) {
            assert(k == kr.push((qs[0]->Ok_0.hash, qs[0]->Ok_0.content@)));
        } else {
            assert(k == kr);
        }
        assert forall|p: int| #![trigger k[p]] 0 <= p < k.len() implies exists|i: int|
            0 <= i < qs.len() && #[trigger] kept_later(qs[i], filter, bound) && qs[i]->Ok_0.hash == k[p].0 by {
            if p < kr.len() {
                assert(k[p] == kr[p]);
                let i = choose|i: int| 0 <= i < rest.len() && #[trigger] kept_later(rest[i], filter, bound) && rest[i]->Ok_0.hash == kr[p].0;
                assert(qs[i + 1] == rest[i]);
            } else {
                assert(kept_later(qs[0], filter, bound));
            }
        }
    }
}

proof fn lemma_later_has(qs: Seq<Result<Hashed<P2PMessage>, ZomeError>>, filter: P2PMessageFilterBatch, bound: Timestamp)
    ensures
        forall|j: int| 0 <= j < qs.len() && #[trigger] kept_later(qs[j], filter, bound) ==> exists|p: int|
            0 <= p < crate::queries::later_messages_of(qs, filter, bound).1.len()
                && #[trigger] crate::queries::later_messages_of(qs, filter, bound).1[p].0 == qs[j]->Ok_0.hash,
    decreases qs.len(),
{
    if qs.len() > 0 {
        let rest = qs.drop_first();
        lemma_later_has(rest, filter, bound);
        let kr = crate::queries::later_messages_of(rest, filter, bound).1;
        let k = crate::queries::later_messages_of(qs, filter, bound).1;
        assert(qs[0] == qs.first());
        assert forall|j: int| 0 <= j < qs.len() && #[trigger] kept_later(qs[j], filter, bound) implies exists|p: int|
            0 <= p < k.len() && #[trigger] k[p].0 == qs[j]->Ok_0.hash by {
            if j > 0 {
                assert(rest[j - 1] == qs[j]);
                let p = choose|p: int| 0 <= p < kr.len() && #[trigger] kr[p].0 == rest[j - 1]->Ok_0.hash;
                assert(k[p] == kr[p]);
            } else {
                assert(k[kr.len() as int].0 == qs[0]->Ok_0.hash);
            }
        }
    }
}

#[verifier::spinoff_prover]
proof fn lemma_later_order(qs: Seq<Result<Hashed<P2PMessage>, ZomeError>>, filter: P2PMessageFilterBatch, bound: Timestamp)
    requires
        message_hashes_distinct(qs),
    ensures
        forall|i: int, j: int, p: int, q: int|
            #![trigger qs[i], qs[j], crate::queries::later_messages_of(qs, filter, bound).1[p], crate::queries::later_messages_of(qs, filter, bound).1[q]]
            0 <= i < j < qs.len() && kept_later(qs[i], filter, bound) && kept_later(qs[j], filter, bound) && 0 <= p
                < crate::queries::later_messages_of(qs, filter, bound).1.len() && 0 <= q
                < crate::queries::later_messages_of(qs, filter, bound).1.len()
                && crate::queries::later_messages_of(qs, filter, bound).1[p].0 == qs[i]->Ok_0.hash
                && crate::queries::later_messages_of(qs, filter, bound).1[q].0 == qs[j]->Ok_0.hash ==> p > q,
    decreases qs.len(),
{
    if qs.len() > 0 {
        let rest = qs.drop_first();
        lemma_rest_distinct(qs);
        lemma_later_order(rest, filter, bound);
        lemma_later_from(rest, filter, bound);
        let kr = crate::queries::later_messages_of(rest, filter, bound).1;
        let k = crate::queries::later_messages_of(qs, filter, bound).1;
        let n = kr.len() as int;
        assert(qs[0] == qs.first());
        assert forall|i: int, j: int, p: int, q: int|
            #![trigger qs[i], qs[j], k[p], k[q]]
            0 <= i < j < qs.len() && kept_later(qs[i], filter, bound) && kept_later(qs[j], filter, bound) && 0 <= p
                < k.len() && 0 <= q < k.len() && k[p].0 == qs[i]->Ok_0.hash && k[q].0 == qs[j]->Ok_0.hash implies p > q by {
            assert(qs[j] == rest[j - 1]);
            if q >= n {
                assert(qs[j]->Ok_0.hash@ == qs[0]->Ok_0.hash@);
                assert(false);
            }
            assert(k[q] == kr[q]);
            if i > 0 {
                assert(qs[i] == rest[i - 1]);
                if p >= n {
                    assert(qs[i]->Ok_0.hash@ == qs[0]->Ok_0.hash@);
                    assert(false);
                }
                assert(k[p] == kr[p]);
                assert(kept_later(rest[i - 1], filter, bound) && kept_later(rest[j - 1], filter, bound));
            } else if p < n {
                assert(k[p] == kr[p]);
                let w = choose|w: int| 0 <= w < rest.len() && #[trigger] kept_later(rest[w], filter, bound) && rest[w]->Ok_0.hash == kr[p].0;
                assert(qs[w + 1] == rest[w]);
                assert(qs[w + 1]->Ok_0.hash@ == qs[0]->Ok_0.hash@);
                assert(false);
            }
        }
    }
}

/// Whether `q` is a message exchanged with the filter's conversant, sent at
/// `bound` or later, other than the last message fetched, whose payload the
/// asked kind names.
pub open spec fn asked_later(q: Result<Hashed<P2PMessage>, ZomeError>, filter: P2PMessageFilterBatch, bound: Timestamp) -> bool {
    &&& q is Ok
    &&& q->Ok_0.content.time_sent.0 >= bound.0
    &&& q->Ok_0.content.author@ == filter.conversant@ || q->Ok_0.content.receiver@ == filter.conversant@
    &&& filter.last_fetched_message_id matches Some(id) ==> id@ != q->Ok_0.hash@
    &&& batch_kind_names(filter.payload_type@, q->Ok_0.content@.payload)
}

proof fn lemma_asked_later_kept(q: Result<Hashed<P2PMessage>, ZomeError>, filter: P2PMessageFilterBatch, bound: Timestamp)
    ensures
        asked_later(q, filter, bound) ==> kept_later(q, filter, bound),
{
    if asked_later(q, filter, bound) {
        law_kinds_select_what_they_name(filter.payload_type@, q->Ok_0.content@.payload);
    }
}

/// The later messages are the oldest of those asked for: every message of
/// the chain exchanged with the conversant, sent at the filter's time or
/// later, other than the last fetched and of a kind asked, is listed unless
/// the list already holds `batch_size` messages; and when such a message is
/// listed, every such message older than it on the chain is listed too.
/// This holds when the messages on the chain have distinct hashes.
#[verifier::spinoff_prover]
pub proof fn law_next_lists_oldest_asked(
    queried_messages: Seq<Result<Hashed<P2PMessage>, ZomeError>>,
    filter: P2PMessageFilterBatch,
    bound: Timestamp,
)
    requires
        message_hashes_distinct(queried_messages),
    ensures
        forall|j: int|
            0 <= j < queried_messages.len() && #[trigger] asked_later(queried_messages[j], filter, bound) ==> next_listing(
                queried_messages,
                filter,
                bound,
            ).0[filter.conversant@].contains(queried_messages[j]->Ok_0.hash) || next_listing(
                queried_messages,
                filter,
                bound,
            ).0[filter.conversant@].len() == filter.batch_size,
        forall|i: int, j: int|
            0 <= i < j < queried_messages.len() && #[trigger] asked_later(queried_messages[i], filter, bound)
                && #[trigger] asked_later(queried_messages[j], filter, bound) && next_listing(
                queried_messages,
                filter,
                bound,
            ).0[filter.conversant@].contains(queried_messages[j]->Ok_0.hash) ==> next_listing(
                queried_messages,
                filter,
                bound,
            ).0[filter.conversant@].contains(queried_messages[i]->Ok_0.hash),
{
    let qs = queried_messages;
    let k = crate::queries::later_messages_of(qs, filter, bound).1;
    let s = start_for(filter.conversant);
    let start = crate::queries::batch_start(k.len(), filter.batch_size as nat);
    let items = k.subrange(start, k.len() as int);
    lemma_later_has(qs, filter, bound);
    lemma_later_order(qs, filter, bound);
    lemma_put_all_list((s.0, s.1), items, filter.conversant);
    let l = next_listing(qs, filter, bound).0[filter.conversant@];
    assert(l.len() == items.len());
    assert forall|p: int| 0 <= p < items.len() implies #[trigger] l[p] == k[start + p].0 by {
        assert(items[p] == k[start + p]);
    }
    assert forall|j: int| 0 <= j < qs.len() && #[trigger] asked_later(qs[j], filter, bound) implies l.contains(
        qs[j]->Ok_0.hash,
    ) || l.len() == filter.batch_size by {
        lemma_asked_later_kept(qs[j], filter, bound);
        let p = choose|p: int| 0 <= p < k.len() && #[trigger] k[p].0 == qs[j]->Ok_0.hash;
        if p >= start {
            assert(l[p - start] == qs[j]->Ok_0.hash);
        }
    }
    assert forall|i: int, j: int|
        0 <= i < j < qs.len() && #[trigger] asked_later(qs[i], filter, bound) && #[trigger] asked_later(qs[j], filter, bound)
            && l.contains(qs[j]->Ok_0.hash) implies l.contains(qs[i]->Ok_0.hash) by {
        lemma_asked_later_kept(qs[i], filter, bound);
        lemma_asked_later_kept(qs[j], filter, bound);
        let w = choose|w: int| 0 <= w < l.len() && l[w] == qs[j]->Ok_0.hash;
        let q = start + w;
        assert(k[q].0 == qs[j]->Ok_0.hash);
        let p = choose|p: int| 0 <= p < k.len() && #[trigger] k[p].0 == qs[i]->Ok_0.hash;
        assert(p > q);
        assert(l[p - start] == qs[i]->Ok_0.hash);
    }
}

/// Whether `q` is a message written by the range's author and sent up to the
/// range's last second.
pub open spec fn in_range(q: Result<MessageParameter, ZomeError>, range: MessageRange) -> bool {
    q is Ok && q->Ok_0.author@ == range.author@ && q->Ok_0.time_sent.0 <= range.last_message_timestamp_seconds
}

proof fn lemma_batch_none_in_range(qs: Seq<Result<MessageParameter, ZomeError>>, range: MessageRange)
    requires
        forall|j: int| 0 <= j < qs.len() ==> !in_range(#[trigger] qs[j], range),
    ensures
        batch_read(qs, range) == (Seq::<MessageParameter>::empty(), false),
    decreases qs.len(),
{
    if qs.len() > 0 {
        let rest = qs.drop_last();
        assert forall|j: int| 0 <= j < rest.len() implies !in_range(#[trigger] rest[j], range) by {
            assert(rest[j] == qs[j]);
        }
        lemma_batch_none_in_range(rest, range);
        assert(qs[qs.len() - 1] == qs.last());
    }
}

/// A batch of a conversation starts with the oldest message that the
/// range's author sent up to the range's last second, whenever the chain
/// holds one.
pub proof fn law_conversation_batch_starts_at_oldest(
    queried_messages: Seq<Result<MessageParameter, ZomeError>>,
    range: MessageRange,
    j: int,
)
    requires
        0 <= j < queried_messages.len(),
        in_range(queried_messages[j], range),
        forall|k: int| 0 <= k < j ==> !in_range(#[trigger] queried_messages[k], range),
    ensures
        batch_read(queried_messages, range).0.len() > 0,
        batch_read(queried_messages, range).0[0] == queried_messages[j]->Ok_0,
    decreases queried_messages.len(),
{
    let qs = queried_messages;
    let rest = qs.drop_last();
    let prev = batch_read(rest, range);
    assert(qs[qs.len() - 1] == qs.last());
    if j < rest.len() {
        assert(rest[j] == qs[j]);
        assert forall|k: int| 0 <= k < j implies !in_range(#[trigger] rest[k], range) by {
            assert(rest[k] == qs[k]);
        }
        law_conversation_batch_starts_at_oldest(rest, range, j);
    } else {
        assert forall|k: int| 0 <= k < rest.len() implies !in_range(#[trigger] rest[k], range) by {
            assert(rest[k] == qs[k]);
        }
        lemma_batch_none_in_range(rest, range);
    }
}

#[verifier::spinoff_prover]
proof fn lemma_later_replies(qs: Seq<Result<Hashed<P2PMessage>, ZomeError>>, filter: P2PMessageFilterBatch, bound: Timestamp)
    ensures
        replies_from(crate::queries::later_messages_of(qs, filter, bound).0, qs),
        forall|j: int|
            0 <= j < qs.len() && #[trigger] kept_later(qs[j], filter, bound) && qs[j]->Ok_0.content.reply_to is Some ==> {
                let rs = crate::queries::later_messages_of(qs, filter, bound).0;
                let r = qs[j]->Ok_0.content.reply_to->Some_0@;
                rs.contains_key(r) && crate::helpers::lists_key(rs[r], qs[j]->Ok_0.hash@)
            },
    decreases qs.len(),
{
    if qs.len() > 0 {
        let rest = qs.drop_first();
        assert forall|i: int| 0 <= i < rest.len() implies #[trigger] rest[i] == qs[i + 1] by {}
        lemma_later_replies(rest, filter, bound);
        let pr = crate::queries::later_messages_of(rest, filter, bound).0;
        let nr = crate::queries::later_messages_of(qs, filter, bound).0;
        assert(qs[0] == qs.first());
        if kept_later(qs[0], filter, bound) {
            let x = qs[0]->Ok_0;
            assert(nr == crate::helpers::with_reply(pr, x.content@, x.hash));
            assert forall|r: Seq<char>, k: Seq<char>|
                nr.contains_key(r) && #[trigger] crate::helpers::lists_key(nr[r], k) implies exists|j: int|
                0 <= j < qs.len() && #[trigger] qs[j] is Ok && qs[j]->Ok_0.hash@ == k && qs[j]->Ok_0.content.reply_to is Some
                    && qs[j]->Ok_0.content.reply_to->Some_0@ == r by {
                let w = if x.content.reply_to is Some && r == x.content.reply_to->Some_0@ {
                    lemma_appended_lists(pr, r, x.hash, k);
                    if k == x.hash@ {
                        0
                    } else {
                        let w = choose|w: int|
                            0 <= w < rest.len() && #[trigger] rest[w] is Ok && rest[w]->Ok_0.hash@ == k
                                && rest[w]->Ok_0.content.reply_to is Some && rest[w]->Ok_0.content.reply_to->Some_0@ == r;
                        w + 1
                    }
                } else {
                    assert(nr[r] == pr[r]);
                    let w = choose|w: int|
                        0 <= w < rest.len() && #[trigger] rest[w] is Ok && rest[w]->Ok_0.hash@ == k
                            && rest[w]->Ok_0.content.reply_to is Some && rest[w]->Ok_0.content.reply_to->Some_0@ == r;
                    w + 1
                };
                assert(qs[w] is Ok && qs[w]->Ok_0.hash@ == k);
            }
            assert forall|j: int|
                0 <= j < qs.len() && #[trigger] kept_later(qs[j], filter, bound) && qs[j]->Ok_0.content.reply_to is Some implies
                nr.contains_key(qs[j]->Ok_0.content.reply_to->Some_0@) && crate::helpers::lists_key(
                    nr[qs[j]->Ok_0.content.reply_to->Some_0@],
                    qs[j]->Ok_0.hash@,
                ) by {
                let r = qs[j]->Ok_0.content.reply_to->Some_0@;
                if j > 0 {
                    assert(kept_later(rest[j - 1], filter, bound));
                }
                match x.content.reply_to {
                    Some(rt) => {
                        lemma_appended_lists(pr, rt@, x.hash, qs[j]->Ok_0.hash@);
                    },
                    None => {},
                }
            }
        } else {
            assert(nr == pr);
            assert forall|r: Seq<char>, k: Seq<char>|
                nr.contains_key(r) && #[trigger] crate::helpers::lists_key(nr[r], k) implies exists|j: int|
                0 <= j < qs.len() && #[trigger] qs[j] is Ok && qs[j]->Ok_0.hash@ == k && qs[j]->Ok_0.content.reply_to is Some
                    && qs[j]->Ok_0.content.reply_to->Some_0@ == r by {
                let w = choose|w: int|
                    0 <= w < rest.len() && #[trigger] rest[w] is Ok && rest[w]->Ok_0.hash@ == k
                        && rest[w]->Ok_0.content.reply_to is Some && rest[w]->Ok_0.content.reply_to->Some_0@ == r;
                assert(qs[w + 1] == rest[w]);
            }
            assert forall|j: int|
                0 <= j < qs.len() && #[trigger] kept_later(qs[j], filter, bound) && qs[j]->Ok_0.content.reply_to is Some implies
                nr.contains_key(qs[j]->Ok_0.content.reply_to->Some_0@) && crate::helpers::lists_key(
                    nr[qs[j]->Ok_0.content.reply_to->Some_0@],
                    qs[j]->Ok_0.hash@,
                ) by {
                assert(kept_later(rest[j - 1], filter, bound));
            }
        }
    }
}

/// In the tables of the later messages, a listed message that replies to a
/// message on the chain is shown with that message as it is there, when the
/// messages on the chain are told apart by their hashes.
#[verifier::spinoff_prover]
pub proof fn law_next_replies_show_their_message(
    queried_messages: Seq<Result<Hashed<P2PMessage>, ZomeError>>,
    queried_receipts: Seq<Result<Hashed<P2PMessageReceipt>, ZomeError>>,
    filter: P2PMessageFilterBatch,
    bound: Timestamp,
)
    requires
        hashes_tell_messages_apart(queried_messages),
    ensures
        replies_shown(
            finished(next_listing(queried_messages, filter, bound), queried_receipts, queried_messages).1,
            queried_messages,
        ),
{
    let qs = queried_messages;
    let later = crate::queries::later_messages_of(qs, filter, bound);
    let k = later.1;
    let s = start_for(filter.conversant);
    let start = crate::queries::batch_start(k.len(), filter.batch_size as nat);
    let items = k.subrange(start, k.len() as int);
    let st = next_listing(qs, filter, bound);
    lemma_start_sound(filter.conversant);
    lemma_put_all_sound((s.0, s.1), items, filter.conversant);
    lemma_put_all_list((s.0, s.1), items, filter.conversant);
    lemma_put_all_length((s.0, s.1), items, filter.conversant);
    lemma_later_from(qs, filter, bound);
    lemma_later_replies(qs, filter, bound);
    assert(st.0.dom() =~= set![filter.conversant@]);
    // every bundle is that of a kept message
    assert forall|h: Seq<char>| #[trigger] st.1.contains_key(h) implies exists|j: int|
        0 <= j < qs.len() && #[trigger] kept_later(qs[j], filter, bound) && qs[j]->Ok_0.hash@ == h by {
        let (a, i) = choose|a: Seq<char>, i: int| st.0.contains_key(a) && 0 <= i < st.0[a].len() && (#[trigger] st.0[a][i])@ == h;
        assert(a == filter.conversant@);
        assert(items[i] == k[start + i]);
        let j = choose|j: int| 0 <= j < qs.len() && #[trigger] kept_later(qs[j], filter, bound) && qs[j]->Ok_0.hash == k[start + i].0;
    }
    assert(replies_tracked(st, qs)) by {
        assert forall|h: Seq<char>| #[trigger] st.1.contains_key(h) implies exists|j: int|
            0 <= j < qs.len() && #[trigger] qs[j] is Ok && qs[j]->Ok_0.hash@ == h by {
            let j = choose|j: int| 0 <= j < qs.len() && #[trigger] kept_later(qs[j], filter, bound) && qs[j]->Ok_0.hash@ == h;
            assert(qs[j] is Ok);
        }
        assert forall|j: int|
            0 <= j < qs.len() && #[trigger] qs[j] is Ok && st.1.contains_key(qs[j]->Ok_0.hash@)
                && qs[j]->Ok_0.content.reply_to is Some implies st.2.contains_key(qs[j]->Ok_0.content.reply_to->Some_0@)
                && crate::helpers::lists_key(st.2[qs[j]->Ok_0.content.reply_to->Some_0@], qs[j]->Ok_0.hash@) by {
            let w = choose|w: int| 0 <= w < qs.len() && #[trigger] kept_later(qs[w], filter, bound) && qs[w]->Ok_0.hash@ == qs[j]->Ok_0.hash@;
            assert(qs[w]->Ok_0.content@ == qs[j]->Ok_0.content@);
            assert(qs[w]->Ok_0.content.reply_to is Some);
        }
    }
    lemma_finished_shows(st, queried_receipts, qs);
}

} // verus!
