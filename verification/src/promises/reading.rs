//! What is listed, and what a conversation is said to hold.

use crate::ids::{NodeId, Ulid};
use crate::message::MessageV;
use crate::service::conversations::ConversationV;
use crate::service::query::{QueryV, SummaryV};
use crate::service::ServiceV;
use crate::store::{MailV, Mailbox};
use vstd::prelude::*;

verus! {

use crate::service::query::{a_conversation_holds_each_message_once, a_conversation_is_made_of_rows, a_conversation_leaves_nothing_out, a_listing_is_everything_asked_for, a_listing_is_what_was_asked_for, all_rows, conversation, listing, message_rows, outbound_rows, row_of, rows_are_distinct, wanted_rows};
use crate::table::{keys_of, sorted_keys, sorted_keys_exist, Key};

/// The message that a mailbox holds under an id, if it holds one.
pub open spec fn filed(mail: MailV, mailbox: Mailbox, id: Ulid) -> Option<MessageV> {
    match mailbox {
        Mailbox::New => if mail.new.contains_key(id) {
            Some(mail.new[id])
        } else {
            None
        },
        Mailbox::Cur => if mail.cur.contains_key(id) {
            Some(mail.cur[id])
        } else {
            None
        },
        Mailbox::Out => if mail.out.contains_key(id) {
            Some(mail.out[id].message)
        } else {
            None
        },
        Mailbox::Sent => if mail.sent.contains_key(id) {
            Some(mail.sent[id].message)
        } else {
            None
        },
    }
}

/// Whether a row says of a message what the message says of itself.
pub open spec fn tells_of(row: SummaryV, message: MessageV) -> bool {
    &&& row.id == message.id
    &&& row.thread_id == message.thread_id
    &&& row.from == message.from
    &&& row.subject == message.subject
    &&& row.kind == message.kind
    &&& row.sender_kind == message.sender_kind
    &&& row.sent_at == message.sent_at
    &&& row.attachment_names.len() == message.attachments.len()
    &&& forall|k: int|
        0 <= k < message.attachments.len() ==> #[trigger] row.attachment_names[k]
            == message.attachments[k].name
}

/// Every row tells of a message that its mailbox holds, and every message that
/// a mailbox holds has a row.
pub proof fn rows_tell_of_what_is_filed(mail: MailV)
    requires
        mail.wf(),
    ensures
        forall|i: int|
            0 <= i < all_rows(mail).len() ==> filed(
                mail,
                (#[trigger] all_rows(mail)[i]).mailbox,
                all_rows(mail)[i].id,
            ) is Some && tells_of(
                all_rows(mail)[i],
                filed(mail, all_rows(mail)[i].mailbox, all_rows(mail)[i].id)->0,
            ),
        forall|mailbox: Mailbox, id: Ulid| #[trigger]
            filed(mail, mailbox, id) is Some ==> exists|i: int|
                0 <= i < all_rows(mail).len() && (#[trigger] all_rows(mail)[i]).id == id
                    && all_rows(mail)[i].mailbox == mailbox,
{
    let all = all_rows(mail);
    let a = message_rows(mail.new, Mailbox::New);
    let b = message_rows(mail.cur, Mailbox::Cur);
    let c = outbound_rows(mail.out, Mailbox::Out);
    let d = outbound_rows(mail.sent, Mailbox::Sent);
    let x = a.len() as int;
    let y = x + b.len();
    let z = y + c.len();
    sorted_keys_exist(mail.new);
    sorted_keys_exist(mail.cur);
    sorted_keys_exist(mail.out);
    sorted_keys_exist(mail.sent);
    assert forall|i: int| 0 <= i < all.len() implies filed(
        mail,
        (#[trigger] all[i]).mailbox,
        all[i].id,
    ) is Some && tells_of(all[i], filed(mail, all[i].mailbox, all[i].id)->0) by {
        if i < x {
            let id = sorted_keys(mail.new)[i];
            assert(sorted_keys(mail.new).contains(id));
            assert(mail.new.contains_key(id));
            assert(all[i] == a[i]);
        } else if i < y {
            let id = sorted_keys(mail.cur)[i - x];
            assert(sorted_keys(mail.cur).contains(id));
            assert(mail.cur.contains_key(id));
            assert(all[i] == b[i - x]);
        } else if i < z {
            let id = sorted_keys(mail.out)[i - y];
            assert(sorted_keys(mail.out).contains(id));
            assert(mail.out.contains_key(id));
            assert(all[i] == c[i - y]);
        } else {
            let id = sorted_keys(mail.sent)[i - z];
            assert(sorted_keys(mail.sent).contains(id));
            assert(mail.sent.contains_key(id));
            assert(all[i] == d[i - z]);
        }
    }
    assert forall|mailbox: Mailbox, id: Ulid| #[trigger]
        filed(mail, mailbox, id) is Some implies exists|i: int|
        0 <= i < all.len() && (#[trigger] all[i]).id == id && all[i].mailbox == mailbox by {
        match mailbox {
            Mailbox::New => {
                assert(mail.new.contains_key(id));
                assert(sorted_keys(mail.new).contains(id));
                let k = sorted_keys(mail.new).index_of(id);
                assert(all[k] == a[k]);
            },
            Mailbox::Cur => {
                assert(mail.cur.contains_key(id));
                assert(sorted_keys(mail.cur).contains(id));
                let k = sorted_keys(mail.cur).index_of(id);
                assert(all[x + k] == b[k]);
            },
            Mailbox::Out => {
                assert(mail.out.contains_key(id));
                assert(sorted_keys(mail.out).contains(id));
                let k = sorted_keys(mail.out).index_of(id);
                assert(all[y + k] == c[k]);
            },
            Mailbox::Sent => {
                assert(mail.sent.contains_key(id));
                assert(sorted_keys(mail.sent).contains(id));
                let k = sorted_keys(mail.sent).index_of(id);
                assert(all[z + k] == d[k]);
            },
        }
    }
}

/// Whether a message in a mailbox is one that a query asks for, by each thing
/// that the query restricts.
pub open spec fn fits(query: QueryV, mailbox: Mailbox, message: MessageV) -> bool {
    &&& query.mailbox matches Some(asked) ==> mailbox == asked
    &&& query.thread matches Some(thread) ==> message.thread_id == thread
    &&& query.from matches Some(who) ==> message.from == who
    &&& query.unread_only ==> mailbox == Mailbox::New
    &&& query.found matches Some(ids) ==> ids.contains(message.id)
    &&& query.cursor matches Some(at) ==> message.sent_at@ / 1_000_000 < at.ms || (
    message.sent_at@ / 1_000_000 == at.ms && message.id.value < at.id.value)
}

/// Every row of a listing is of a message that is filed where the row says,
/// and that fits the query in everything the query restricts.
pub proof fn a_listing_keeps_to_its_query(mail: MailV, query: QueryV, i: int)
    requires
        mail.wf(),
        0 <= i < listing(mail, query).len(),
    ensures
        ({
            let row = listing(mail, query)[i];
            &&& filed(mail, row.mailbox, row.id) matches Some(message)
            &&& tells_of(row, message)
            &&& fits(query, row.mailbox, message)
        }),
        query.from matches Some(who) ==> listing(mail, query)[i].from == who,
        query.mailbox matches Some(mailbox) ==> listing(mail, query)[i].mailbox == mailbox,
        query.thread matches Some(thread) ==> listing(mail, query)[i].thread_id == thread,
        query.unread_only ==> listing(mail, query)[i].mailbox == Mailbox::New,
        query.found matches Some(ids) ==> ids.contains(listing(mail, query)[i].id),
{
    a_listing_is_what_was_asked_for(mail, query);
    rows_tell_of_what_is_filed(mail);
    let row = listing(mail, query)[i];
    let k = all_rows(mail).index_of(row);
    assert(all_rows(mail)[k] == row);
}

/// A listing without a limit holds every message that fits the query.
pub proof fn a_listing_leaves_out_nothing_that_fits(
    mail: MailV,
    query: QueryV,
    mailbox: Mailbox,
    id: Ulid,
)
    requires
        mail.wf(),
        query.limit is None,
        filed(mail, mailbox, id) matches Some(message) && fits(query, mailbox, message),
    ensures
        exists|i: int|
            0 <= i < listing(mail, query).len() && (#[trigger] listing(mail, query)[i]).id == id
                && listing(mail, query)[i].mailbox == mailbox,
{
    rows_tell_of_what_is_filed(mail);
    let k = choose|k: int|
        0 <= k < all_rows(mail).len() && (#[trigger] all_rows(mail)[k]).id == id
            && all_rows(mail)[k].mailbox == mailbox;
    let row = all_rows(mail)[k];
    a_listing_is_everything_asked_for(mail, query, row);
    let i = listing(mail, query).index_of(row);
    assert(listing(mail, query)[i].id == id);
}

/// A listing of one sender's messages that restricts nothing else is every row
/// of that sender's, and no other's.
pub proof fn a_sender_s_listing_is_theirs(mail: MailV, who: NodeId, row: SummaryV)
    ensures
        listing(mail, QueryV { from: Some(who), ..QueryV::everything() }).contains(row)
            <==> all_rows(mail).contains(row) && row.from == who,
{
    let query = QueryV { from: Some(who), ..QueryV::everything() };
    a_listing_is_what_was_asked_for(mail, query);
    if all_rows(mail).contains(row) && row.from == who {
        a_listing_is_everything_asked_for(mail, query, row);
    }
}

/// Likewise of one conversation, of one mailbox, of what is unread and of what
/// a search found.
pub proof fn each_filter_alone_keeps_its_own(
    mail: MailV,
    thread: Ulid,
    mailbox: Mailbox,
    ids: Seq<Ulid>,
    row: SummaryV,
)
    ensures
        listing(mail, QueryV { thread: Some(thread), ..QueryV::everything() }).contains(row)
            <==> all_rows(mail).contains(row) && row.thread_id == thread,
        listing(mail, QueryV { mailbox: Some(mailbox), ..QueryV::everything() }).contains(row)
            <==> all_rows(mail).contains(row) && row.mailbox == mailbox,
        listing(mail, QueryV { unread_only: true, ..QueryV::everything() }).contains(row)
            <==> all_rows(mail).contains(row) && row.mailbox == Mailbox::New,
        listing(mail, QueryV { found: Some(ids), ..QueryV::everything() }).contains(row)
            <==> all_rows(mail).contains(row) && ids.contains(row.id),
        listing(mail, QueryV::everything()).contains(row) <==> all_rows(mail).contains(row),
{
    let everything = QueryV::everything();
    let a = QueryV { thread: Some(thread), ..everything };
    let b = QueryV { mailbox: Some(mailbox), ..everything };
    let c = QueryV { unread_only: true, ..everything };
    let d = QueryV { found: Some(ids), ..everything };
    a_listing_is_what_was_asked_for(mail, a);
    a_listing_is_what_was_asked_for(mail, b);
    a_listing_is_what_was_asked_for(mail, c);
    a_listing_is_what_was_asked_for(mail, d);
    a_listing_is_what_was_asked_for(mail, everything);
    if all_rows(mail).contains(row) {
        a_listing_is_everything_asked_for(mail, everything, row);
        if row.thread_id == thread {
            a_listing_is_everything_asked_for(mail, a, row);
        }
        if row.mailbox == mailbox {
            a_listing_is_everything_asked_for(mail, b, row);
        }
        if row.mailbox == Mailbox::New {
            a_listing_is_everything_asked_for(mail, c, row);
        }
        if ids.contains(row.id) {
            a_listing_is_everything_asked_for(mail, d, row);
        }
    }
}

/// A listing reads from the message sent last, by the millisecond; of two sent
/// in the same one, the later id stands first.
pub proof fn a_listing_reads_from_the_latest(mail: MailV, query: QueryV, i: int, j: int)
    requires
        0 <= i < j < listing(mail, query).len(),
    ensures
        ({
            let above = listing(mail, query)[i];
            let below = listing(mail, query)[j];
            ||| above.sent_at@ / 1_000_000 > below.sent_at@ / 1_000_000
            ||| above.sent_at@ / 1_000_000 == below.sent_at@ / 1_000_000 && above.id.value
                >= below.id.value
        }),
{
    a_listing_is_what_was_asked_for(mail, query);
    let newer = |a: SummaryV, b: SummaryV| a.newer_than(b);
    let rows = listing(mail, query);
    assert(!newer(rows[j], rows[i]));
}

/// A limit cuts a listing short and changes nothing else: what is left is how
/// the whole of it begins, as much as was asked for if there is as much.
pub proof fn a_limit_only_cuts_short(mail: MailV, query: QueryV, limit: usize)
    ensures
        ({
            let whole = listing(mail, QueryV { limit: None, ..query });
            let cut = listing(mail, QueryV { limit: Some(limit), ..query });
            &&& cut.len() == if limit < whole.len() {
                limit as nat
            } else {
                whole.len()
            }
            &&& forall|i: int| 0 <= i < cut.len() ==> #[trigger] cut[i] == whole[i]
        }),
{
    let whole = QueryV { limit: None, ..query };
    let cut = QueryV { limit: Some(limit), ..query };
    let keep_whole = |row: SummaryV| whole.wants(row);
    let keep_cut = |row: SummaryV| cut.wants(row);
    assert(keep_whole =~= keep_cut);
    assert(wanted_rows(mail, whole) == wanted_rows(mail, cut));
}

/// No message is listed twice out of the same mailbox.
pub proof fn a_listing_repeats_nothing(mail: MailV, query: QueryV, i: int, j: int)
    requires
        mail.wf(),
        0 <= i < j < listing(mail, query).len(),
    ensures
        listing(mail, query)[i].id != listing(mail, query)[j].id || listing(mail, query)[i].mailbox
            != listing(mail, query)[j].mailbox,
{
    let newer = |a: SummaryV, b: SummaryV| a.newer_than(b);
    let keep = |row: SummaryV| query.wants(row);
    let all = all_rows(mail);
    rows_are_distinct(mail);
    crate::sorting::filter_distinct(all, keep);
    crate::sorting::sorting_distinct(all.filter(keep), newer);
    a_listing_is_what_was_asked_for(mail, query);
    let rows = wanted_rows(mail, query);
    let a = listing(mail, query)[i];
    let b = listing(mail, query)[j];
    assert(rows[i] == a && rows[j] == b);
    assert(a != b);
    let p = all.index_of(a);
    let q = all.index_of(b);
    assert(all[p] == a && all[q] == b);
}

// ---------------------------------------------------------------------------
// Conversations.
// ---------------------------------------------------------------------------

/// The messages of a conversation that have not been read.
pub open spec fn unread_of(mail: MailV, thread: Ulid) -> Set<Ulid> {
    Set::new(|id: Ulid| mail.new.contains_key(id) && mail.new[id].thread_id == thread)
}

/// The messages of a conversation, read or not, received or sent.
pub open spec fn messages_of(mail: MailV, thread: Ulid) -> Set<Ulid> {
    Set::new(
        |id: Ulid|
            {
                ||| mail.new.contains_key(id) && mail.new[id].thread_id == thread
                ||| mail.cur.contains_key(id) && mail.cur[id].thread_id == thread
                ||| mail.out.contains_key(id) && mail.out[id].message.thread_id == thread
                ||| mail.sent.contains_key(id) && mail.sent[id].message.thread_id == thread
            },
    )
}

/// How many rows of a list are of the unread.
proof fn lemma_count_unread(rows: Seq<SummaryV>)
    ensures
        crate::service::conversations::unread_among(rows) == rows.filter(
            |row: SummaryV| row.mailbox == Mailbox::New,
        ).len(),
    decreases rows.len(),
{
    reveal(Seq::filter);
    if rows.len() > 0 {
        lemma_count_unread(rows.drop_last());
    }
}

/// A conversation is of its messages: each has a row in it, once, of a copy
/// that is filed, and the unread have the row of the unread copy.
proof fn lemma_conversation_ids(mail: MailV, thread: Ulid)
    requires
        mail.wf(),
    ensures
        conversation(mail, thread).map_values(|row: SummaryV| row.id).no_duplicates(),
        conversation(mail, thread).map_values(|row: SummaryV| row.id).to_set() == messages_of(
            mail,
            thread,
        ),
        forall|id: Ulid| #[trigger]
            unread_of(mail, thread).contains(id) <==> exists|i: int|
                0 <= i < conversation(mail, thread).len() && (#[trigger] conversation(
                    mail,
                    thread,
                )[i]).id == id && conversation(mail, thread)[i].mailbox == Mailbox::New,
{
    let talk = conversation(mail, thread);
    let ids = talk.map_values(|row: SummaryV| row.id);
    a_conversation_holds_each_message_once(mail, thread);
    crate::service::query::a_conversation_reads_forwards(mail, thread);
    rows_tell_of_what_is_filed(mail);
    assert forall|i: int| 0 <= i < talk.len() implies filed(
        mail,
        (#[trigger] talk[i]).mailbox,
        talk[i].id,
    ) is Some && tells_of(talk[i], filed(mail, talk[i].mailbox, talk[i].id)->0) by {
        a_conversation_is_made_of_rows(mail, thread, i);
        let k = all_rows(mail).index_of(talk[i]);
        assert(all_rows(mail)[k] == talk[i]);
    }
    assert forall|i: int, j: int| 0 <= i < ids.len() && 0 <= j < ids.len() && i != j implies ids[i]
        != ids[j] by {
        if i < j {
            assert(talk[i].id != talk[j].id);
        } else {
            assert(talk[j].id != talk[i].id);
        }
    }
    assert forall|id: Ulid| ids.to_set().contains(id) <==> messages_of(mail, thread).contains(
        id,
    ) by {
        if ids.to_set().contains(id) {
            let i = ids.index_of(id);
            assert(talk[i].id == id && talk[i].thread_id == thread);
        }
        if messages_of(mail, thread).contains(id) {
            let mailbox = if mail.new.contains_key(id) && mail.new[id].thread_id == thread {
                Mailbox::New
            } else if mail.cur.contains_key(id) && mail.cur[id].thread_id == thread {
                Mailbox::Cur
            } else if mail.out.contains_key(id) && mail.out[id].message.thread_id == thread {
                Mailbox::Out
            } else {
                Mailbox::Sent
            };
            let i = lemma_in_conversation(mail, thread, mailbox, id);
            assert(ids[i] == id);
        }
    }
    assert(ids.to_set() =~= messages_of(mail, thread));
    assert forall|id: Ulid| #[trigger] unread_of(mail, thread).contains(id) <==> exists|i: int|
        0 <= i < talk.len() && (#[trigger] talk[i]).id == id && talk[i].mailbox
            == Mailbox::New by {
        if unread_of(mail, thread).contains(id) {
            let i = lemma_in_conversation(mail, thread, Mailbox::New, id);
            assert(talk[i].mailbox.place() == 0);
            assert(talk[i].id == id && talk[i].mailbox == Mailbox::New);
        }
    }
}

/// A message that is filed under a conversation is in it, by this copy or by
/// one that is looked for before.
proof fn lemma_in_conversation(mail: MailV, thread: Ulid, mailbox: Mailbox, id: Ulid) -> (i: int)
    requires
        mail.wf(),
        filed(mail, mailbox, id) is Some,
        filed(mail, mailbox, id)->0.thread_id == thread,
    ensures
        0 <= i < conversation(mail, thread).len(),
        conversation(mail, thread)[i].id == id,
        conversation(mail, thread)[i].mailbox.place() <= mailbox.place(),
{
    rows_tell_of_what_is_filed(mail);
    let k = choose|k: int|
        0 <= k < all_rows(mail).len() && (#[trigger] all_rows(mail)[k]).id == id
            && all_rows(mail)[k].mailbox == mailbox;
    let row = all_rows(mail)[k];
    a_conversation_leaves_nothing_out(mail, thread, row);
    let talk = conversation(mail, thread);
    if talk.contains(row) {
        talk.index_of(row)
    } else {
        choose|i: int|
            0 <= i < talk.len() && (#[trigger] talk[i]).id == row.id && talk[i].mailbox.place()
                < row.mailbox.place()
    }
}

/// A conversation that is listed is the row of its thread.
proof fn lemma_listed(node: ServiceV, with: Option<NodeId>, limit: Option<usize>, i: int)
    requires
        0 <= i < node.conversations(with, limit).len(),
    ensures
        node.conversations(with, limit)[i] == crate::service::conversations::conversation_row(
            node.mail,
            node.conversations(with, limit)[i].thread_id,
            node.node.id,
        ),
{
    let after = |a: ConversationV, b: ConversationV| a.moved_after(b);
    let row_of = |thread: Ulid|
        crate::service::conversations::conversation_row(node.mail, thread, node.node.id);
    let keep = node.is_with(with);
    let keys = sorted_keys(crate::service::conversations::threads(node.mail));
    let rows = keys.filter(keep).map_values(row_of);
    let all = node.all_conversations(with);
    let one = node.conversations(with, limit)[i];
    crate::sorting::sorting_keeps_elements(rows, after);
    assert(all[i] == one);
    assert(all.contains(one));
    assert(rows.contains(one));
    let k = rows.index_of(one);
    assert(rows[k] == row_of(keys.filter(keep)[k]));
}

/// The unread count of a listed conversation is the number of its messages
/// that are in `new`, and its message count the number of its messages
/// anywhere, each counted once.
pub proof fn a_listed_conversation_counts_its_messages(
    node: ServiceV,
    with: Option<NodeId>,
    limit: Option<usize>,
    i: int,
)
    requires
        node.mail.wf(),
        0 <= i < node.conversations(with, limit).len(),
    ensures
        ({
            let one = node.conversations(with, limit)[i];
            &&& one.unread == unread_of(node.mail, one.thread_id).len()
            &&& one.messages == messages_of(node.mail, one.thread_id).len()
            &&& unread_of(node.mail, one.thread_id).finite()
            &&& messages_of(node.mail, one.thread_id).finite()
        }),
{
    lemma_listed(node, with, limit, i);
    let one = node.conversations(with, limit)[i];
    lemma_counts(node.mail, one.thread_id);
}

proof fn lemma_counts(mail: MailV, thread: Ulid)
    requires
        mail.wf(),
    ensures
        crate::service::conversations::unread_among(conversation(mail, thread)) == unread_of(
            mail,
            thread,
        ).len(),
        conversation(mail, thread).len() == messages_of(mail, thread).len(),
        unread_of(mail, thread).finite(),
        messages_of(mail, thread).finite(),
{
    let talk = conversation(mail, thread);
    let ids = talk.map_values(|row: SummaryV| row.id);
    lemma_conversation_ids(mail, thread);
    ids.unique_seq_to_set();
    vstd::seq_lib::seq_to_set_is_finite(ids);
    let is_new = |row: SummaryV| row.mailbox == Mailbox::New;
    let fresh = talk.filter(is_new);
    let fresh_ids = fresh.map_values(|row: SummaryV| row.id);
    lemma_count_unread(talk);
    crate::sorting::filter_from(talk, is_new);
    assert(talk.no_duplicates()) by {
        assert forall|i: int, j: int|
            0 <= i < talk.len() && 0 <= j < talk.len() && i != j implies talk[i] != talk[j] by {
            assert(ids[i] != ids[j]);
        }
    }
    crate::sorting::filter_distinct(talk, is_new);
    assert forall|i: int, j: int|
        0 <= i < fresh_ids.len() && 0 <= j < fresh_ids.len() && i != j implies fresh_ids[i]
        != fresh_ids[j] by {
        let p = talk.index_of(fresh[i]);
        let q = talk.index_of(fresh[j]);
        assert(talk.contains(fresh[i]) && talk.contains(fresh[j]));
        assert(talk[p] == fresh[i] && talk[q] == fresh[j]);
        assert(p != q);
        assert(ids[p] != ids[q]);
    }
    assert forall|id: Ulid| fresh_ids.to_set().contains(id) <==> unread_of(mail, thread).contains(
        id,
    ) by {
        if fresh_ids.to_set().contains(id) {
            let k = fresh_ids.index_of(id);
            assert(talk.contains(fresh[k]));
            let p = talk.index_of(fresh[k]);
            assert(talk[p].id == id && talk[p].mailbox == Mailbox::New);
        }
        if unread_of(mail, thread).contains(id) {
            let p = choose|p: int|
                0 <= p < talk.len() && (#[trigger] talk[p]).id == id && talk[p].mailbox
                    == Mailbox::New;
            crate::sorting::filter_has(talk, is_new, p);
            let k = fresh.index_of(talk[p]);
            assert(fresh_ids[k] == id);
        }
    }
    assert(fresh_ids.to_set() =~= unread_of(mail, thread));
    fresh_ids.unique_seq_to_set();
    vstd::seq_lib::seq_to_set_is_finite(fresh_ids);
}

/// Reading an unread message takes one off the unread of its conversation,
/// and leaves the number of its messages and every other conversation's counts
/// as they were.
pub proof fn reading_one_takes_one_off(
    node: ServiceV,
    id: Ulid,
    now: crate::time::Timestamp,
    with: Option<NodeId>,
    limit: Option<usize>,
    i: int,
    j: int,
)
    requires
        node.mail.wf(),
        node.mail.new.contains_key(id),
        !node.mail.cur.contains_key(id),
        0 <= i < node.conversations(with, limit).len(),
        0 <= j < node.reading(id, now).conversations(with, limit).len(),
        node.conversations(with, limit)[i].thread_id == node.reading(id, now).conversations(
            with,
            limit,
        )[j].thread_id,
    ensures
        ({
            let before = node.conversations(with, limit)[i];
            let after = node.reading(id, now).conversations(with, limit)[j];
            &&& after.messages == before.messages
            &&& before.thread_id == node.mail.new[id].thread_id ==> after.unread == before.unread
                - 1
            &&& before.thread_id != node.mail.new[id].thread_id ==> after.unread == before.unread
        }),
{
    let read = node.reading(id, now);
    let thread = node.conversations(with, limit)[i].thread_id;
    assert(read.mail.wf()) by {
        assert(read.mail.new =~= node.mail.new.remove(id));
        assert(read.mail.cur =~= node.mail.cur.insert(id, node.mail.new[id]));
    }
    a_listed_conversation_counts_its_messages(node, with, limit, i);
    a_listed_conversation_counts_its_messages(read, with, limit, j);
    assert(messages_of(read.mail, thread) =~= messages_of(node.mail, thread));
    if thread == node.mail.new[id].thread_id {
        assert(unread_of(read.mail, thread) =~= unread_of(node.mail, thread).remove(id));
    } else {
        assert(unread_of(read.mail, thread) =~= unread_of(node.mail, thread));
    }
}

/// A conversation with nothing in `new` is shown with nothing unread.
pub proof fn nothing_new_is_nothing_unread(
    node: ServiceV,
    with: Option<NodeId>,
    limit: Option<usize>,
    i: int,
)
    requires
        node.mail.wf(),
        0 <= i < node.conversations(with, limit).len(),
        forall|id: Ulid| #[trigger]
            node.mail.new.contains_key(id) ==> node.mail.new[id].thread_id != node.conversations(
                with,
                limit,
            )[i].thread_id,
    ensures
        node.conversations(with, limit)[i].unread == 0,
{
    a_listed_conversation_counts_its_messages(node, with, limit, i);
    let thread = node.conversations(with, limit)[i].thread_id;
    assert(unread_of(node.mail, thread) =~= Set::empty());
}

/// Whether a message of a conversation is not earlier than another moment, or
/// is of that moment and has no earlier id.
pub open spec fn is_no_earlier(a: SummaryV, b: SummaryV) -> bool {
    a.sent_at@ / 1_000_000 > b.sent_at@ / 1_000_000 || (a.sent_at@ / 1_000_000 == b.sent_at@
        / 1_000_000 && a.id.value >= b.id.value)
}

/// A conversation holds the messages that carry its thread, each once, and
/// reads from the one sent first to the one sent last.
pub proof fn a_conversation_is_its_messages_in_order(mail: MailV, thread: Ulid)
    requires
        mail.wf(),
    ensures
        conversation(mail, thread).len() == messages_of(mail, thread).len(),
        forall|i: int|
            0 <= i < conversation(mail, thread).len() ==> (#[trigger] conversation(
                mail,
                thread,
            )[i]).thread_id == thread && filed(
                mail,
                conversation(mail, thread)[i].mailbox,
                conversation(mail, thread)[i].id,
            ) is Some && tells_of(
                conversation(mail, thread)[i],
                filed(
                    mail,
                    conversation(mail, thread)[i].mailbox,
                    conversation(mail, thread)[i].id,
                )->0,
            ),
        forall|i: int, j: int|
            #![trigger conversation(mail, thread)[i], conversation(mail, thread)[j]]
            0 <= i < j < conversation(mail, thread).len() ==> conversation(mail, thread)[i].id
                != conversation(mail, thread)[j].id && is_no_earlier(
                conversation(mail, thread)[j],
                conversation(mail, thread)[i],
            ),
        forall|id: Ulid| #[trigger]
            messages_of(mail, thread).contains(id) ==> exists|i: int|
                0 <= i < conversation(mail, thread).len() && (#[trigger] conversation(
                    mail,
                    thread,
                )[i]).id == id,
{
    let talk = conversation(mail, thread);
    let ids = talk.map_values(|row: SummaryV| row.id);
    lemma_counts(mail, thread);
    lemma_conversation_ids(mail, thread);
    rows_tell_of_what_is_filed(mail);
    crate::service::query::a_conversation_reads_forwards(mail, thread);
    a_conversation_holds_each_message_once(mail, thread);
    assert forall|i: int| 0 <= i < talk.len() implies (#[trigger] talk[i]).thread_id == thread
        && filed(mail, talk[i].mailbox, talk[i].id) is Some && tells_of(
        talk[i],
        filed(mail, talk[i].mailbox, talk[i].id)->0,
    ) by {
        a_conversation_is_made_of_rows(mail, thread, i);
        let k = all_rows(mail).index_of(talk[i]);
        assert(all_rows(mail)[k] == talk[i]);
    }
    lemma_conversation_order(mail, thread);
    assert forall|id: Ulid| #[trigger] messages_of(mail, thread).contains(id) implies exists|i: int|
        0 <= i < talk.len() && (#[trigger] talk[i]).id == id by {
        assert(ids.to_set().contains(id));
        let i = ids.index_of(id);
        assert(talk[i].id == id);
    }
}

proof fn lemma_conversation_order(mail: MailV, thread: Ulid)
    ensures
        forall|i: int, j: int|
            #![trigger conversation(mail, thread)[i], conversation(mail, thread)[j]]
            0 <= i < j < conversation(mail, thread).len() ==> is_no_earlier(
                conversation(mail, thread)[j],
                conversation(mail, thread)[i],
            ),
{
    let query = QueryV { thread: Some(thread), ..QueryV::everything() };
    a_listing_is_what_was_asked_for(mail, query);
    let newest = wanted_rows(mail, query);
    assert(newest == listing(mail, query));
    let rows = crate::service::query::thread_rows(mail, thread);
    let newer = |a: SummaryV, b: SummaryV| a.newer_than(b);
    assert forall|i: int, j: int|
        #![trigger rows[i], rows[j]]
        0 <= i < j < rows.len() implies is_no_earlier(rows[j], rows[i]) by {
        let a = newest.len() - 1 - i;
        let b = newest.len() - 1 - j;
        assert(rows[i] == newest[a] && rows[j] == newest[b]);
        assert(!newer(newest[a], newest[b]));
    }
    lemma_kept_in_order(rows, |row: SummaryV| !crate::service::query::is_behind(rows, row));
}

proof fn lemma_kept_in_order(s: Seq<SummaryV>, keep: spec_fn(SummaryV) -> bool)
    requires
        forall|i: int, j: int|
            #![trigger s[i], s[j]]
            0 <= i < j < s.len() ==> is_no_earlier(s[j], s[i]),
    ensures
        forall|i: int, j: int|
            #![trigger s.filter(keep)[i], s.filter(keep)[j]]
            0 <= i < j < s.filter(keep).len() ==> is_no_earlier(
                s.filter(keep)[j],
                s.filter(keep)[i],
            ),
    decreases s.len(),
{
    reveal(Seq::filter);
    if s.len() > 0 {
        let shorter = s.drop_last();
        lemma_kept_in_order(shorter, keep);
        crate::sorting::filter_from(shorter, keep);
        let f = s.filter(keep);
        assert forall|i: int, j: int|
            #![trigger f[i], f[j]]
            0 <= i < j < f.len() implies is_no_earlier(f[j], f[i]) by {
            let g = shorter.filter(keep);
            assert(f[i] == g[i]);
            if j < g.len() {
                assert(f[j] == g[j]);
            } else {
                assert(f[j] == s[s.len() - 1]);
                assert(shorter.contains(g[i]));
                let k = shorter.index_of(g[i]);
                assert(s[k] == g[i]);
            }
        }
    }
}

/// A listed conversation is shown by the subject of its first message and by
/// its last message: whose it was, who wrote it and when.
pub proof fn a_listed_conversation_shows_its_ends(
    node: ServiceV,
    with: Option<NodeId>,
    limit: Option<usize>,
    i: int,
)
    requires
        node.mail.wf(),
        0 <= i < node.conversations(with, limit).len(),
    ensures
        ({
            let one = node.conversations(with, limit)[i];
            let talk = conversation(node.mail, one.thread_id);
            &&& talk.len() > 0
            &&& one.subject == talk[0].subject
            &&& one.last_id == talk.last().id
            &&& one.last_from == talk.last().from
            &&& one.last_sender_kind == talk.last().sender_kind
            &&& one.last_at == talk.last().sent_at
        }),
{
    lemma_listed(node, with, limit, i);
    crate::service::conversations::a_listed_conversation_has_messages(node, with, limit, i);
}

/// Whether a machine has a part in a conversation: a message of it is from that
/// machine, or names it as a recipient, or was sent from here to it.
pub open spec fn has_a_part(mail: MailV, thread: Ulid, who: NodeId) -> bool {
    ||| exists|mailbox: Mailbox, id: Ulid|
        (#[trigger] filed(mail, mailbox, id) matches Some(message) && message.thread_id == thread
            && (message.from == who || exists|k: int|
            0 <= k < message.to.len() && #[trigger] message.to[k]
                == crate::message::RecipientV::Node(who)))
    ||| exists|id: Ulid, k: int|
        mail.out.contains_key(id) && mail.out[id].message.thread_id == thread && 0 <= k
            < mail.out[id].recipients.len() && (#[trigger] mail.out[id].recipients[k]).node == who
    ||| exists|id: Ulid, k: int|
        mail.sent.contains_key(id) && mail.sent[id].message.thread_id == thread && 0 <= k
            < mail.sent[id].recipients.len() && (#[trigger] mail.sent[id].recipients[k]).node
            == who
}

proof fn lemma_parts(mail: MailV, thread: Ulid, who: NodeId)
    ensures
        crate::service::conversations::takes_part(mail, thread, who) <==> has_a_part(
            mail,
            thread,
            who,
        ),
{
    let node = crate::message::RecipientV::Node(who);
    if has_a_part(mail, thread, who) {
        if exists|mailbox: Mailbox, id: Ulid|
            (#[trigger] filed(mail, mailbox, id) matches Some(message) && message.thread_id
                == thread && (message.from == who || exists|k: int|
                0 <= k < message.to.len() && #[trigger] message.to[k] == node)) {
            let (mailbox, id) = choose|mailbox: Mailbox, id: Ulid|
                (#[trigger] filed(mail, mailbox, id) matches Some(message) && message.thread_id
                    == thread && (message.from == who || exists|k: int|
                    0 <= k < message.to.len() && #[trigger] message.to[k] == node));
            let message = filed(mail, mailbox, id)->0;
            assert(crate::service::conversations::concerns(message, who));
            match mailbox {
                Mailbox::New => assert(mail.new.contains_key(id)),
                Mailbox::Cur => assert(mail.cur.contains_key(id)),
                Mailbox::Out => assert(mail.out.contains_key(id)),
                Mailbox::Sent => assert(mail.sent.contains_key(id)),
            }
        } else if exists|id: Ulid, k: int|
            mail.out.contains_key(id) && mail.out[id].message.thread_id == thread && 0 <= k
                < mail.out[id].recipients.len() && (#[trigger] mail.out[id].recipients[k]).node
                == who {
            let (id, k) = choose|id: Ulid, k: int|
                mail.out.contains_key(id) && mail.out[id].message.thread_id == thread && 0 <= k
                    < mail.out[id].recipients.len() && (#[trigger] mail.out[id].recipients[k]).node
                    == who;
            assert(crate::service::conversations::went_to(mail.out[id].recipients, who));
            assert(mail.out.contains_key(id));
        } else {
            let (id, k) = choose|id: Ulid, k: int|
                mail.sent.contains_key(id) && mail.sent[id].message.thread_id == thread && 0 <= k
                    < mail.sent[id].recipients.len() && (
                #[trigger] mail.sent[id].recipients[k]).node == who;
            assert(crate::service::conversations::went_to(mail.sent[id].recipients, who));
            assert(mail.sent.contains_key(id));
        }
    }
    if crate::service::conversations::takes_part(mail, thread, who) {
        if crate::service::conversations::part_by_arrival(mail.new, thread, who) {
            let id = choose|id: Ulid| #[trigger]
                mail.new.contains_key(id) && mail.new[id].thread_id == thread
                    && crate::service::conversations::concerns(mail.new[id], who);
            lemma_concerned(mail, Mailbox::New, id, thread, who);
        } else if crate::service::conversations::part_by_arrival(mail.cur, thread, who) {
            let id = choose|id: Ulid| #[trigger]
                mail.cur.contains_key(id) && mail.cur[id].thread_id == thread
                    && crate::service::conversations::concerns(mail.cur[id], who);
            lemma_concerned(mail, Mailbox::Cur, id, thread, who);
        } else if crate::service::conversations::part_by_sending(mail.out, thread, who) {
            let id = choose|id: Ulid| #[trigger]
                mail.out.contains_key(id) && mail.out[id].message.thread_id == thread && (
                crate::service::conversations::concerns(mail.out[id].message, who)
                    || crate::service::conversations::went_to(mail.out[id].recipients, who));
            if crate::service::conversations::concerns(mail.out[id].message, who) {
                lemma_concerned(mail, Mailbox::Out, id, thread, who);
            } else {
                let k = choose|k: int|
                    0 <= k < mail.out[id].recipients.len() && (
                    #[trigger] mail.out[id].recipients[k]).node == who;
                assert(mail.out[id].recipients[k].node == who);
            }
        } else {
            let id = choose|id: Ulid| #[trigger]
                mail.sent.contains_key(id) && mail.sent[id].message.thread_id == thread && (
                crate::service::conversations::concerns(mail.sent[id].message, who)
                    || crate::service::conversations::went_to(mail.sent[id].recipients, who));
            if crate::service::conversations::concerns(mail.sent[id].message, who) {
                lemma_concerned(mail, Mailbox::Sent, id, thread, who);
            } else {
                let k = choose|k: int|
                    0 <= k < mail.sent[id].recipients.len() && (
                    #[trigger] mail.sent[id].recipients[k]).node == who;
                assert(mail.sent[id].recipients[k].node == who);
            }
        }
    }
}

proof fn lemma_concerned(mail: MailV, mailbox: Mailbox, id: Ulid, thread: Ulid, who: NodeId)
    requires
        filed(mail, mailbox, id) is Some,
        filed(mail, mailbox, id)->0.thread_id == thread,
        crate::service::conversations::concerns(filed(mail, mailbox, id)->0, who),
    ensures
        has_a_part(mail, thread, who),
{
    let message = filed(mail, mailbox, id)->0;
    let node = crate::message::RecipientV::Node(who);
    if message.from != who {
        let k = message.to.index_of(node);
        assert(message.to[k] == node);
    }
}

/// A listed conversation is with every machine that has a part in it but this
/// one, and no other; with this one where nobody else has.
pub proof fn a_listed_conversation_is_with_whoever_has_a_part(
    node: ServiceV,
    with: Option<NodeId>,
    limit: Option<usize>,
    i: int,
    who: NodeId,
)
    requires
        node.mail.wf(),
        0 <= i < node.conversations(with, limit).len(),
    ensures
        ({
            let one = node.conversations(with, limit)[i];
            let me = node.node.id;
            &&& who != me ==> (one.participants.contains(who) <==> has_a_part(
                node.mail,
                one.thread_id,
                who,
            ))
            &&& one.participants.contains(me) <==> forall|n: NodeId|
                n != me ==> !has_a_part(node.mail, one.thread_id, n)
            &&& one.participants.contains(me) ==> one.participants == seq![me]
        }),
{
    lemma_listed(node, with, limit, i);
    let one = node.conversations(with, limit)[i];
    let me = node.node.id;
    let found = crate::service::conversations::others(node.mail, one.thread_id, me);
    lemma_others_end(node.mail, one.thread_id, me);
    let keys = sorted_keys(found);
    assert forall|n: NodeId| #[trigger] keys.contains(n) <==> n != me && has_a_part(
        node.mail,
        one.thread_id,
        n,
    ) by {
        lemma_parts(node.mail, one.thread_id, n);
        assert(found.contains_key(n) <==> keys.contains(n));
    }
    if keys.len() == 0 {
        assert forall|n: NodeId| n != me implies !has_a_part(node.mail, one.thread_id, n) by {
            if has_a_part(node.mail, one.thread_id, n) {
                assert(keys.contains(n));
            }
        }
        assert(one.participants == seq![me]);
        assert(seq![me].contains(me)) by {
            assert(seq![me][0] == me);
        }
        if who != me {
            assert(!seq![me].contains(who));
        }
    } else {
        assert(keys.contains(keys[0]));
        assert(has_a_part(node.mail, one.thread_id, keys[0]));
        assert(!keys.contains(me));
    }
}

/// There is an end to those who have a part in a conversation.
proof fn lemma_others_end(mail: MailV, thread: Ulid, me: NodeId)
    requires
        mail.wf(),
    ensures
        keys_of(
            sorted_keys(crate::service::conversations::others(mail, thread, me)),
            crate::service::conversations::others(mail, thread, me),
        ),
{
    let all = crate::service::conversations::others(mail, thread, me);
    let a = lemma_arrived_end(mail.new);
    let b = lemma_arrived_end(mail.cur);
    let c = lemma_sent_end(mail.out);
    let d = lemma_sent_end(mail.sent);
    let most = a.union(b).union(c).union(d);
    assert forall|n: NodeId| #[trigger] all.dom().contains(n) implies most.contains(n) by {
        if crate::service::conversations::part_by_arrival(mail.new, thread, n) {
            let id = choose|id: Ulid| #[trigger]
                mail.new.contains_key(id) && mail.new[id].thread_id == thread
                    && crate::service::conversations::concerns(mail.new[id], n);
            assert(a.contains(n));
        } else if crate::service::conversations::part_by_arrival(mail.cur, thread, n) {
            let id = choose|id: Ulid| #[trigger]
                mail.cur.contains_key(id) && mail.cur[id].thread_id == thread
                    && crate::service::conversations::concerns(mail.cur[id], n);
            assert(b.contains(n));
        } else if crate::service::conversations::part_by_sending(mail.out, thread, n) {
            let id = choose|id: Ulid| #[trigger]
                mail.out.contains_key(id) && mail.out[id].message.thread_id == thread && (
                crate::service::conversations::concerns(mail.out[id].message, n)
                    || crate::service::conversations::went_to(mail.out[id].recipients, n));
            assert(c.contains(n));
        } else {
            let id = choose|id: Ulid| #[trigger]
                mail.sent.contains_key(id) && mail.sent[id].message.thread_id == thread && (
                crate::service::conversations::concerns(mail.sent[id].message, n)
                    || crate::service::conversations::went_to(mail.sent[id].recipients, n));
            assert(d.contains(n));
        }
    }
    vstd::set_lib::lemma_set_subset_finite(most, all.dom());
    sorted_keys_exist(all);
}

proof fn lemma_named_end(to: Seq<crate::message::RecipientV>, spare: NodeId) -> (some: Set<NodeId>)
    ensures
        some.finite(),
        forall|n: NodeId|
            to.contains(crate::message::RecipientV::Node(n)) ==> #[trigger] some.contains(n),
{
    let named = to.map_values(
        |r: crate::message::RecipientV|
            match r {
                crate::message::RecipientV::Node(n) => n,
                _ => spare,
            },
    );
    vstd::seq_lib::seq_to_set_is_finite(named);
    assert forall|n: NodeId| to.contains(crate::message::RecipientV::Node(n)) implies
        #[trigger] named.to_set().contains(n) by {
        let k = to.index_of(crate::message::RecipientV::Node(n));
        assert(named[k] == n);
    }
    named.to_set()
}

proof fn lemma_arrived_end(map: Map<Ulid, MessageV>) -> (some: Set<NodeId>)
    requires
        map.dom().finite(),
    ensures
        some.finite(),
        forall|id: Ulid, n: NodeId|
            #![trigger map.contains_key(id), some.contains(n)]
            map.contains_key(id) && crate::service::conversations::concerns(map[id], n)
                ==> some.contains(n),
    decreases map.dom().len(),
{
    if map.dom().len() == 0 {
        assert forall|id: Ulid| !#[trigger] map.contains_key(id) by {
            assert(map.dom() =~= Set::empty());
            assert(!map.dom().contains(id));
        }
        Set::empty()
    } else {
        let one = map.dom().choose();
        let rest = map.remove(one);
        let before = lemma_arrived_end(rest);
        let named = lemma_named_end(map[one].to, map[one].from);
        let some = before.union(named).insert(map[one].from);
        assert forall|id: Ulid, n: NodeId|
            #![trigger map.contains_key(id), some.contains(n)]
            map.contains_key(id) && crate::service::conversations::concerns(
                map[id],
                n,
            ) implies some.contains(n) by {
            if id != one {
                assert(rest.contains_key(id));
                assert(before.contains(n));
            } else if map[one].from != n {
                assert(named.contains(n));
            }
        }
        some
    }
}

proof fn lemma_sent_end(map: Map<Ulid, crate::store::OutboundV>) -> (some: Set<NodeId>)
    requires
        map.dom().finite(),
    ensures
        some.finite(),
        forall|id: Ulid, n: NodeId|
            #![trigger map.contains_key(id), some.contains(n)]
            map.contains_key(id) && (crate::service::conversations::concerns(map[id].message, n)
                || crate::service::conversations::went_to(map[id].recipients, n))
                ==> some.contains(n),
    decreases map.dom().len(),
{
    if map.dom().len() == 0 {
        assert forall|id: Ulid| !#[trigger] map.contains_key(id) by {
            assert(map.dom() =~= Set::empty());
            assert(!map.dom().contains(id));
        }
        Set::empty()
    } else {
        let one = map.dom().choose();
        let rest = map.remove(one);
        let before = lemma_sent_end(rest);
        let named = lemma_named_end(map[one].message.to, map[one].message.from);
        let went = map[one].recipients.map_values(|r: crate::store::RecipientStateV| r.node);
        vstd::seq_lib::seq_to_set_is_finite(went);
        let some = before.union(named).union(went.to_set()).insert(map[one].message.from);
        assert forall|id: Ulid, n: NodeId|
            #![trigger map.contains_key(id), some.contains(n)]
            map.contains_key(id) && (crate::service::conversations::concerns(map[id].message, n)
                || crate::service::conversations::went_to(
                map[id].recipients,
                n,
            )) implies some.contains(n) by {
            if id != one {
                assert(rest.contains_key(id));
                assert(before.contains(n));
            } else if crate::service::conversations::went_to(map[one].recipients, n) {
                let k = choose|k: int|
                    0 <= k < map[one].recipients.len() && (
                    #[trigger] map[one].recipients[k]).node == n;
                assert(went[k] == n);
                assert(went.to_set().contains(n));
            } else if map[one].message.from != n {
                assert(named.contains(n));
            }
        }
        some
    }
}

/// The list holds each conversation once: one for every thread that a message
/// here carries, unless it is not with the machine asked for; the one that
/// moved last comes first, and a limit cuts the list short.
pub proof fn the_list_of_conversations(
    node: ServiceV,
    with: Option<NodeId>,
    mailbox: Mailbox,
    id: Ulid,
)
    requires
        node.mail.wf(),
    ensures
        forall|i: int, j: int|
            #![trigger node.conversations(with, None)[i], node.conversations(with, None)[j]]
            0 <= i < j < node.conversations(with, None).len() ==> {
                let above = node.conversations(with, None)[i];
                let below = node.conversations(with, None)[j];
                &&& above.thread_id != below.thread_id
                &&& above.last_at@ / 1_000_000 > below.last_at@ / 1_000_000 || (above.last_at@
                    / 1_000_000 == below.last_at@ / 1_000_000 && above.last_id.value
                    >= below.last_id.value)
            },
        with matches Some(who) ==> forall|i: int|
            0 <= i < node.conversations(with, None).len() ==> (#[trigger] node.conversations(
                with,
                None,
            )[i]).participants.contains(who),
        with is None && filed(node.mail, mailbox, id) is Some ==> exists|i: int|
            0 <= i < node.conversations(with, None).len() && (#[trigger] node.conversations(
                with,
                None,
            )[i]).thread_id == filed(node.mail, mailbox, id)->0.thread_id,
{
    let after = |a: ConversationV, b: ConversationV| a.moved_after(b);
    let row_of = |thread: Ulid|
        crate::service::conversations::conversation_row(node.mail, thread, node.node.id);
    let keep = node.is_with(with);
    let map = crate::service::conversations::threads(node.mail);
    let keys = sorted_keys(map);
    let picked = keys.filter(keep);
    let rows = picked.map_values(row_of);
    let all = node.all_conversations(with);
    let ids = all_rows(node.mail).map_values(|row: SummaryV| row.thread_id);
    vstd::seq_lib::seq_to_set_is_finite(ids);
    assert forall|t: Ulid| #[trigger] map.contains_key(t) implies ids.to_set().contains(t) by {
        let j = choose|j: int|
            0 <= j < all_rows(node.mail).len() && (#[trigger] all_rows(node.mail)[j]).thread_id
                == t;
        assert(ids[j] == t);
    }
    assert(map.dom().subset_of(ids.to_set()));
    sorted_keys_exist(map);
    assert(keys.no_duplicates()) by {
        assert forall|a: int, b: int|
            0 <= a < keys.len() && 0 <= b < keys.len() && a != b implies keys[a] != keys[b] by {
            if a < b {
                assert(keys[a].rank() < keys[b].rank());
            } else {
                assert(keys[b].rank() < keys[a].rank());
            }
        }
    }
    crate::sorting::filter_distinct(keys, keep);
    assert(rows.no_duplicates()) by {
        assert forall|a: int, b: int|
            0 <= a < rows.len() && 0 <= b < rows.len() && a != b implies rows[a] != rows[b] by {
            assert(rows[a].thread_id == picked[a] && rows[b].thread_id == picked[b]);
        }
    }
    crate::sorting::sorting_distinct(rows, after);
    crate::sorting::sorting_keeps_elements(rows, after);
    crate::service::conversations::conversations_are_newest_first(node, with, None);
    assert(all == node.conversations(with, None));
    assert forall|i: int, j: int|
        #![trigger all[i], all[j]]
        0 <= i < j < all.len() implies {
        let above = all[i];
        let below = all[j];
        &&& above.thread_id != below.thread_id
        &&& above.last_at@ / 1_000_000 > below.last_at@ / 1_000_000 || (above.last_at@ / 1_000_000
            == below.last_at@ / 1_000_000 && above.last_id.value >= below.last_id.value)
    } by {
        assert(!after(all[j], all[i]));
        lemma_listed(node, with, None, i);
        lemma_listed(node, with, None, j);
        assert(all[i] != all[j]);
    }
    if let Some(who) = with {
        assert forall|i: int| 0 <= i < all.len() implies (
        #[trigger] all[i]).participants.contains(who) by {
            crate::service::conversations::conversations_are_with_whom_was_asked(
                node,
                who,
                None,
                i,
            );
        }
    }
    if with is None && filed(node.mail, mailbox, id) is Some {
        rows_tell_of_what_is_filed(node.mail);
        let k = choose|k: int|
            0 <= k < all_rows(node.mail).len() && (#[trigger] all_rows(node.mail)[k]).id == id
                && all_rows(node.mail)[k].mailbox == mailbox;
        let row = all_rows(node.mail)[k];
        crate::service::conversations::every_conversation_is_listed(node, None, row);
        let i = all.index_of(row_of(row.thread_id));
        assert(all[i].thread_id == row.thread_id);
    }
}

/// A conversation is left out of a list for one machine only where that machine
/// has no part in it.
pub proof fn a_machine_s_conversations_are_all_listed(
    node: ServiceV,
    who: NodeId,
    i: int,
)
    requires
        node.mail.wf(),
        0 <= i < node.conversations(None, None).len(),
        node.conversations(None, None)[i].participants.contains(who),
    ensures
        node.conversations(Some(who), None).contains(node.conversations(None, None)[i]),
{
    lemma_listed(node, None, None, i);
    let one = node.conversations(None, None)[i];
    crate::service::conversations::a_listed_conversation_has_messages(node, None, None, i);
    let talk = conversation(node.mail, one.thread_id);
    a_conversation_is_made_of_rows(node.mail, one.thread_id, 0);
    crate::service::query::a_conversation_reads_forwards(node.mail, one.thread_id);
    assert(talk[0].thread_id == one.thread_id);
    crate::service::conversations::every_conversation_is_listed(node, Some(who), talk[0]);
}

/// A limit cuts the list of conversations short and changes nothing else.
pub proof fn a_limit_only_cuts_the_list_short(
    node: ServiceV,
    with: Option<NodeId>,
    limit: usize,
)
    ensures
        ({
            let whole = node.conversations(with, None);
            let cut = node.conversations(with, Some(limit));
            &&& cut.len() == if limit < whole.len() {
                limit as nat
            } else {
                whole.len()
            }
            &&& forall|i: int| 0 <= i < cut.len() ==> #[trigger] cut[i] == whole[i]
        }),
{
}

// ---------------------------------------------------------------------------
// Ids as they are typed.
// ---------------------------------------------------------------------------

/// Whether the id of a message here ends as typed.
pub open spec fn ends_as_typed(mail: MailV, typed: Seq<char>, id: Ulid) -> bool {
    (mail.new.contains_key(id) || mail.cur.contains_key(id) || mail.out.contains_key(id)
        || mail.sent.contains_key(id)) && typed.is_suffix_of(crate::ids::ulid_text(id))
}

/// A message is named by its whole id, whoever holds it, or by how its id ends
/// where one message here ends so and no other.
pub proof fn a_message_is_named_by_its_id(mail: MailV, typed: Seq<char>, id: Ulid)
    requires
        mail.wf(),
    ensures
        crate::service::query::message_named(mail, crate::ids::ulid_text(id)) == Ok::<
            Ulid,
            crate::service::ServiceErrorV,
        >(id),
        crate::ids::named_ulid(crate::text::trimmed(typed)) is None ==> {
            let said = crate::text::trimmed(typed);
            match crate::service::query::message_named(mail, typed) {
                Ok(found) => ends_as_typed(mail, said, found) && (ends_as_typed(mail, said, id)
                    ==> id == found),
                Err(crate::service::ServiceErrorV::AmbiguousMessage { candidates, .. }) => {
                    &&& candidates.len() > 1
                    &&& candidates.no_duplicates()
                    &&& candidates.contains(id) <==> ends_as_typed(mail, said, id)
                },
                Err(_) => !ends_as_typed(mail, said, id),
            }
        },
{
    crate::service::query::a_whole_id_names_its_message(mail, id);
    let said = crate::text::trimmed(typed);
    if crate::ids::named_ulid(said) is None {
        crate::service::query::a_shared_tail_names_all_who_share_it(mail, typed);
        let map = crate::service::query::tail_matches(mail, said);
        assert forall|other: Ulid| #[trigger]
            map.contains_key(other) <==> ends_as_typed(mail, said, other) by {}
        assert(map.contains_key(id) <==> ends_as_typed(mail, said, id));
        if let Ok(found) = crate::service::query::message_named(mail, typed) {
            assert(map.contains_key(found));
        }
    }
}

/// Of a message that is here twice, a conversation shows the copy that arrived,
/// unread before read, and else the copy that reached everybody.
pub proof fn what_arrived_stands_for_a_message(mail: MailV, thread: Ulid, id: Ulid, i: int)
    requires
        mail.wf(),
        0 <= i < conversation(mail, thread).len(),
        conversation(mail, thread)[i].id == id,
    ensures
        ({
            let at = |mailbox: Mailbox|
                filed(mail, mailbox, id) is Some && filed(mail, mailbox, id)->0.thread_id
                    == thread;
            let shown = conversation(mail, thread)[i].mailbox;
            &&& at(Mailbox::New) ==> shown == Mailbox::New
            &&& !at(Mailbox::New) && at(Mailbox::Cur) ==> shown == Mailbox::Cur
            &&& !at(Mailbox::New) && !at(Mailbox::Cur) && at(Mailbox::Sent) ==> shown
                == Mailbox::Sent
        }),
{
    a_conversation_is_its_messages_in_order(mail, thread);
    let talk = conversation(mail, thread);
    let shown = talk[i].mailbox;
    assert(filed(mail, shown, id) is Some && filed(mail, shown, id)->0.thread_id == thread);
    assert forall|mailbox: Mailbox|
        (#[trigger] filed(mail, mailbox, id)) is Some && filed(mail, mailbox, id)->0.thread_id
            == thread implies shown.place() <= mailbox.place() by {
        let j = lemma_in_conversation(mail, thread, mailbox, id);
        if j < i {
            assert(talk[j].id != talk[i].id);
        } else if i < j {
            assert(talk[i].id != talk[j].id);
        }
    }
    assert(filed(mail, Mailbox::New, id) is Some || filed(mail, Mailbox::New, id) is None);
    assert(filed(mail, Mailbox::Cur, id) is Some || filed(mail, Mailbox::Cur, id) is None);
    assert(filed(mail, Mailbox::Sent, id) is Some || filed(mail, Mailbox::Sent, id) is None);
}

/// A cursor is written as the milliseconds and the id that it stands at.
pub proof fn a_cursor_reads_back(ms: u64, id: Ulid)
    ensures
        crate::service::query::named_cursor(
            crate::text::decimal(ms as nat) + seq![':'] + crate::ids::ulid_text(id),
        ) == Some(crate::service::query::Cursor { ms, id }),
{
    let digits = crate::text::decimal(ms as nat);
    let text = digits + seq![':'] + crate::ids::ulid_text(id);
    crate::text::decimal_is_digits(ms as nat);
    crate::text::decimal_reads_back(ms as nat, u64::MAX as nat);
    crate::ids::ulid_text_reads_back(id);
    assert(text[digits.len() as int] == ':');
    assert(text.contains(':'));
    crate::text::first_at_is_first(text, ':');
    assert forall|k: int| 0 <= k < digits.len() implies text[k] != ':' by {
        assert(text[k] == digits[k]);
        assert(crate::text::is_digit(digits[k]));
    }
    assert(crate::text::first_at(text, ':') == digits.len());
    assert(text.take(digits.len() as int) =~= digits);
    assert(text.skip(digits.len() as int + 1) =~= crate::ids::ulid_text(id));
}

} // verus!
