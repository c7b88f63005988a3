//! What a node shows its owner in a browser.

use crate::ids::{NodeId, Ulid};
use crate::message::{DraftV, Kind, LocalFileV, MessageV, SenderKind};
use crate::service::conversations::ConversationV;
use crate::service::peering::MetV;
use crate::service::query::SummaryV;
use crate::service::{ServiceErrorV, ServiceV};
use crate::store::Mailbox;
use crate::time::Timestamp;
use crate::web::{ComposeFormV, ListQueryV, OutcomeV, PeerRowV, PostV, RowV};
use vstd::prelude::*;

verus! {

use crate::ids::{digest_text, node_short, node_text, ulid_text};
use crate::promises::reading::{filed, messages_of};
use crate::service::query::{conversation, listing};
use crate::sorting::sorting_keeps_elements;
use crate::table::{sorted_keys, sorted_keys_exist, Key};
use crate::text::{decimal, pieces, trimmed};
use crate::time::written_at;
use crate::web::chats::chat_shown;
use crate::web::{content_type, escaped, escaped_char, how_long_ago, page_query, peer_row, recipients_typed, row_shown, size_text};

// ---------------------------------------------------------------------------
// Words on a page.
// ---------------------------------------------------------------------------

/// Escaping text leaves every character as it is but the five that mean
/// something in a page, each of which becomes the name it goes by, in its
/// place.
pub proof fn escaping_spells_out_what_means_something(a: Seq<char>, b: Seq<char>, c: char)
    ensures
        escaped(a + b) == escaped(a) + escaped(b),
        escaped(seq!['&']) == "&amp;"@,
        escaped(seq!['<']) == "&lt;"@,
        escaped(seq!['>']) == "&gt;"@,
        escaped(seq!['"']) == "&quot;"@,
        escaped(seq!['\'']) == "&#39;"@,
        c != '&' && c != '<' && c != '>' && c != '"' && c != '\'' ==> escaped(seq![c]) == seq![c],
    decreases b.len(),
{
    lemma_escaped_one('&');
    lemma_escaped_one('<');
    lemma_escaped_one('>');
    lemma_escaped_one('"');
    lemma_escaped_one('\'');
    lemma_escaped_one(c);
    if b.len() == 0 {
        assert(a + b =~= a);
        assert(escaped(a) + escaped(b) =~= escaped(a));
    } else {
        escaping_spells_out_what_means_something(a, b.drop_last(), c);
        assert((a + b).drop_last() =~= a + b.drop_last());
        assert((a + b).last() == b.last());
        assert(escaped(a + b) =~= escaped(a) + escaped(b));
    }
}

proof fn lemma_escaped_one(c: char)
    ensures
        escaped(seq![c]) == escaped_char(c),
{
    let one = seq![c];
    assert(one.drop_last() =~= Seq::<char>::empty());
    assert(escaped(one.drop_last()) =~= Seq::<char>::empty());
    assert(escaped(one) =~= escaped_char(c));
}

/// How long ago something was is said in the largest unit that it fills: in
/// minutes from one on, in hours from one on, in days from one on; before that
/// it was just now.
pub proof fn how_long_ago_it_was(when: Timestamp, now: Timestamp, n: nat)
    ensures
        now@ - when@ < 60_000_000_000 ==> how_long_ago(when, now) == "just now"@,
        60_000_000_000 <= now@ - when@ < 120_000_000_000 ==> how_long_ago(when, now)
            == "1 "@ + "minute"@ + " ago"@,
        2 <= n < 60 && n * 60_000_000_000 <= now@ - when@ < (n + 1) * 60_000_000_000
            ==> how_long_ago(when, now) == decimal(n) + " "@ + "minute"@ + "s ago"@,
        3_600_000_000_000 <= now@ - when@ < 7_200_000_000_000 ==> how_long_ago(when, now)
            == "1 "@ + "hour"@ + " ago"@,
        2 <= n < 24 && n * 3_600_000_000_000 <= now@ - when@ < (n + 1) * 3_600_000_000_000
            ==> how_long_ago(when, now) == decimal(n) + " "@ + "hour"@ + "s ago"@,
        86_400_000_000_000 <= now@ - when@ < 172_800_000_000_000 ==> how_long_ago(when, now)
            == "1 "@ + "day"@ + " ago"@,
        2 <= n && n * 86_400_000_000_000 <= now@ - when@ < (n + 1) * 86_400_000_000_000
            ==> how_long_ago(when, now) == decimal(n) + " "@ + "day"@ + "s ago"@,
{
}

/// A size is said in bytes below a thousand and twenty-four, and above that in
/// the largest unit that it fills, to the nearest tenth.
pub proof fn a_size_is_said_to_the_nearest_tenth(bytes: nat) -> (tenths: nat)
    requires
        bytes < 9_007_199_254_740_992,
    ensures
        bytes < 1024 ==> size_text(bytes) == decimal(bytes) + " B"@,
        1024 <= bytes < 1_048_576 ==> {
            &&& size_text(bytes) == decimal(tenths / 10) + "."@ + decimal(tenths % 10) + " "@
                + "KiB"@
            &&& -1024 <= 2 * (tenths * 1024 - 10 * bytes) <= 1024
        },
        1_048_576 <= bytes < 1_073_741_824 ==> {
            &&& size_text(bytes) == decimal(tenths / 10) + "."@ + decimal(tenths % 10) + " "@
                + "MiB"@
            &&& -1_048_576 <= 2 * (tenths * 1_048_576 - 10 * bytes) <= 1_048_576
        },
        1_073_741_824 <= bytes ==> {
            &&& size_text(bytes) == decimal(tenths / 10) + "."@ + decimal(tenths % 10) + " "@
                + "GiB"@
            &&& -1_073_741_824 <= 2 * (tenths * 1_073_741_824 - 10 * bytes) <= 1_073_741_824
        },
{
    assert(crate::web::double_gap(bytes) == 1);
    assert(crate::web::half_even(bytes, 1) == bytes);
    assert(crate::web::nearest_double(bytes) == bytes);
    let scale: nat = if bytes >= 1_073_741_824 {
        1_073_741_824
    } else if bytes >= 1_048_576 {
        1_048_576
    } else {
        1024
    };
    crate::web::half_even(bytes * 10, scale)
}

// ---------------------------------------------------------------------------
// Lists.
// ---------------------------------------------------------------------------

/// Whether a row of a page is of a message in a mailbox.
pub open spec fn page_row_is_of(row: RowV, mailbox: Mailbox, message: MessageV, now: Timestamp) -> bool {
    &&& row.id == ulid_text(message.id)
    &&& row.thread_id == ulid_text(message.thread_id)
    &&& row.from == node_text(message.from)
    &&& row.from_short == node_short(message.from)
    &&& row.subject == message.subject
    &&& row.kind == message.kind.name()
    &&& row.sender_kind == message.sender_kind.name()
    &&& row.sent_at == written_at(message.sent_at)
    &&& row.when == how_long_ago(message.sent_at, now)
    &&& row.unread <==> mailbox == Mailbox::New
    &&& row.attachment_names.len() == message.attachments.len()
    &&& forall|k: int|
        0 <= k < message.attachments.len() ==> #[trigger] row.attachment_names[k]
            == message.attachments[k].name
}

/// A page of two mailboxes shows messages of those two, each as it is: only the
/// unread where only they are asked for, and only what a search found where
/// there was one. It shows two hundred at most, and says whether it is
/// restricted and by what.
pub proof fn a_page_shows_what_is_in_its_mailboxes(
    node: ServiceV,
    here: Seq<char>,
    heading: Seq<char>,
    path: Seq<char>,
    empty: Seq<char>,
    live: bool,
    first: Mailbox,
    second: Mailbox,
    params: ListQueryV,
    found: Seq<Ulid>,
    now: Timestamp,
    i: int,
)
    requires
        node.mail.wf(),
    ensures
        ({
            let page = node.listing_page(
                here,
                heading,
                path,
                empty,
                live,
                first,
                second,
                params,
                found,
                now,
            );
            let searched = params.q matches Some(q) && trimmed(q).len() > 0;
            &&& page.messages.len() <= 200
            &&& page.here == here && page.heading == heading && page.path == path && page.empty
                == empty && page.live == live
            &&& page.unread_only <==> params.unread == Some(true)
            &&& searched ==> Some(page.query) == params.q
            &&& !searched ==> page.query.len() == 0
            &&& 0 <= i < page.messages.len() ==> exists|mailbox: Mailbox, id: Ulid|
                (#[trigger] filed(node.mail, mailbox, id) matches Some(message) && page_row_is_of(
                    page.messages[i],
                    mailbox,
                    message,
                    now,
                ) && (mailbox == first || mailbox == second) && (params.unread == Some(true)
                    ==> mailbox == Mailbox::New) && (searched ==> found.contains(id)))
        }),
{
    let page = node.listing_page(
        here,
        heading,
        path,
        empty,
        live,
        first,
        second,
        params,
        found,
        now,
    );
    let rows = node.page_rows(first, second, params, found);
    let a = page_query(first, params, found);
    let b = page_query(second, params, found);
    let both = listing(node.mail, a) + listing(node.mail, b);
    let later = |x: SummaryV, y: SummaryV| crate::web::sent_later(x, y);
    sorting_keeps_elements(both, later);
    if 0 <= i < page.messages.len() {
        let row = rows[i];
        let all = crate::sorting::sorted_by(both, later);
        assert(row == all[i]);
        assert(all.contains(row));
        assert(both.contains(row));
        let k = both.index_of(row);
        if k < listing(node.mail, a).len() {
            assert(listing(node.mail, a)[k] == row);
            crate::promises::reading::a_listing_keeps_to_its_query(node.mail, a, k);
        } else {
            let j = k - listing(node.mail, a).len();
            assert(listing(node.mail, b)[j] == row);
            crate::promises::reading::a_listing_keeps_to_its_query(node.mail, b, j);
        }
        assert(page.messages[i] == row_shown(row, now));
        assert(page_row_is_of(
            page.messages[i],
            row.mailbox,
            filed(node.mail, row.mailbox, row.id)->0,
            now,
        ));
    }
}

/// A page that is not full shows every message of its two mailboxes that was
/// asked for, and reads from the one sent last.
pub proof fn a_page_leaves_out_nothing_while_it_has_room(
    node: ServiceV,
    first: Mailbox,
    second: Mailbox,
    params: ListQueryV,
    found: Seq<Ulid>,
    mailbox: Mailbox,
    id: Ulid,
)
    requires
        node.mail.wf(),
        filed(node.mail, mailbox, id) is Some,
        mailbox == first || mailbox == second,
        params.unread == Some(true) ==> mailbox == Mailbox::New,
        params.q matches Some(q) && trimmed(q).len() > 0 ==> found.contains(id),
    ensures
        node.page_rows(first, second, params, found).len() < 200 ==> exists|i: int|
            0 <= i < node.page_rows(first, second, params, found).len() && (
            #[trigger] node.page_rows(first, second, params, found)[i]).id == id
                && node.page_rows(first, second, params, found)[i].mailbox == mailbox,
        forall|i: int, j: int|
            #![trigger node.page_rows(first, second, params, found)[i], node.page_rows(first, second, params, found)[j]]
            0 <= i < j < node.page_rows(first, second, params, found).len() ==> node.page_rows(
                first,
                second,
                params,
                found,
            )[i].sent_at@ >= node.page_rows(first, second, params, found)[j].sent_at@,
{
    crate::promises::reading::rows_tell_of_what_is_filed(node.mail);
    let all = crate::service::query::all_rows(node.mail);
    let k = choose|k: int|
        0 <= k < all.len() && (#[trigger] all[k]).id == id && all[k].mailbox == mailbox;
    let row = all[k];
    crate::web::a_page_holds_the_newest(node, first, second, params, found, row);
    crate::web::a_page_reads_newest_first(node, first, second, params, found);
    let rows = node.page_rows(first, second, params, found);
    if rows.len() < 200 {
        let i = rows.index_of(row);
        assert(rows[i].id == id);
    }
    let later = |x: SummaryV, y: SummaryV| crate::web::sent_later(x, y);
    assert forall|i: int, j: int|
        #![trigger rows[i], rows[j]]
        0 <= i < j < rows.len() implies rows[i].sent_at@ >= rows[j].sent_at@ by {
        assert(!later(rows[j], rows[i]));
    }
}

/// Every page says how much is unread.
pub proof fn every_page_counts_the_unread(
    node: ServiceV,
    problem: Option<Seq<char>>,
    form: ComposeFormV,
    now: Timestamp,
)
    requires
        node.mail.new.dom().len() <= u64::MAX,
    ensures
        node.unread() == node.mail.new.dom().len(),
        node.compose_page(problem, form, now).unread == node.mail.new.dom().len(),
        node.peers_page(problem, now).unread == node.mail.new.dom().len(),
        node.chats_page(now).unread == node.mail.new.dom().len(),
        node.compose_page(problem, form, now).node_id == node_text(node.node.id),
        node.peers_page(problem, now).short_id == node_short(node.node.id),
{
}

/// The page of conversations shows the two hundred that moved last at most, one
/// for one, with whom they are and what of them is unread.
pub proof fn the_page_of_conversations(node: ServiceV, now: Timestamp)
    ensures
        node.chats_page(now).chats.len() == node.conversations(None, Some(200)).len(),
        forall|i: int|
            0 <= i < node.chats_page(now).chats.len() ==> #[trigger] node.chats_page(now).chats[i]
                == chat_shown(node.conversations(None, Some(200))[i], now),
{
}

/// A conversation is shown on its page as it is.
pub proof fn a_conversation_is_shown_on_its_page(c: ConversationV, now: Timestamp)
    requires
        c.messages <= u64::MAX,
        c.unread <= u64::MAX,
    ensures
        ({
            let shown = chat_shown(c, now);
            &&& shown.thread_id == ulid_text(c.thread_id)
            &&& shown.subject == c.subject
            &&& shown.messages == c.messages
            &&& shown.unread == c.unread
            &&& shown.last_sender_kind == c.last_sender_kind.name()
            &&& shown.last_at == written_at(c.last_at)
            &&& shown.when == how_long_ago(c.last_at, now)
            &&& shown.participants.len() == c.participants.len()
            &&& forall|k: int|
                0 <= k < c.participants.len() ==> (#[trigger] shown.participants[k]).id
                    == node_text(c.participants[k]) && shown.participants[k].short == node_short(
                    c.participants[k],
                )
        }),
{
}

// ---------------------------------------------------------------------------
// A conversation.
// ---------------------------------------------------------------------------

/// Whether a post is of a message.
pub open spec fn post_is_of(node: ServiceV, post: PostV, message: MessageV, now: Timestamp) -> bool {
    &&& post.id == ulid_text(message.id)
    &&& post.from == node_text(message.from)
    &&& post.from_short == node_short(message.from)
    &&& post.sender_kind == message.sender_kind.name()
    &&& post.sent_at == written_at(message.sent_at)
    &&& post.when == how_long_ago(message.sent_at, now)
    &&& post.body == message.body
    &&& post.attachments.len() == message.attachments.len()
    &&& forall|k: int|
        0 <= k < message.attachments.len() ==> {
            &&& (#[trigger] post.attachments[k]).name == message.attachments[k].name
            &&& post.attachments[k].sha256 == digest_text(message.attachments[k].sha256)
            &&& post.attachments[k].human_size == size_text(message.attachments[k].size as nat)
            &&& post.attachments[k].cached == node.blobs.contains_key(
                message.attachments[k].sha256,
            )
        }
}

proof fn lemma_rows_read(node: ServiceV, rows: Seq<SummaryV>, now: Timestamp, id: Ulid)
    ensures
        node.reading_rows(rows, now).mail.new.contains_key(id) <==> node.mail.new.contains_key(id)
            && !exists|i: int| 0 <= i < rows.len() && (#[trigger] rows[i]).id == id,
        node.reading_rows(rows, now).mail.new.contains_key(id) ==> node.reading_rows(
            rows,
            now,
        ).mail.new[id] == node.mail.new[id],
        node.reading_rows(rows, now).mail.out == node.mail.out,
        node.reading_rows(rows, now).mail.sent == node.mail.sent,
        node.reading_rows(rows, now).mail.cur.contains_key(id) <==> node.mail.cur.contains_key(id)
            || (node.mail.new.contains_key(id) && exists|i: int|
            0 <= i < rows.len() && (#[trigger] rows[i]).id == id),
        node.reading_rows(rows, now).book == node.book,
        node.reading_rows(rows, now).node == node.node,
    decreases rows.len(),
{
    if rows.len() > 0 {
        let before = rows.drop_last();
        lemma_rows_read(node, before, now, id);
        if exists|i: int| 0 <= i < before.len() && (#[trigger] before[i]).id == id {
            let i = choose|i: int| 0 <= i < before.len() && (#[trigger] before[i]).id == id;
            assert(rows[i].id == id);
        }
        if exists|i: int| 0 <= i < rows.len() && (#[trigger] rows[i]).id == id {
            let i = choose|i: int| 0 <= i < rows.len() && (#[trigger] rows[i]).id == id;
            if i < before.len() {
                assert(before[i].id == id);
            }
        }
        assert(rows[rows.len() - 1] == rows.last());
    }
}

/// Opening a conversation shows its messages from the first to the last, under
/// the subject of the first, and reads the unread among them and nothing else.
/// One that holds nothing is not found.
pub proof fn a_conversation_opens_on_its_messages(
    node: ServiceV,
    thread: Ulid,
    now: Timestamp,
    other: Ulid,
)
    requires
        node.mail.wf(),
    ensures
        ({
            let talk = conversation(node.mail, thread);
            let after = node.opening_thread(ulid_text(thread), now);
            &&& messages_of(node.mail, thread).len() == 0 ==> after.0 == node && (
            after.1 matches Err(page) && page.status == 404)
            &&& messages_of(node.mail, thread).len() > 0 ==> {
                &&& after.1 matches Ok(page)
                &&& page.thread_id == ulid_text(thread)
                &&& page.subject == talk[0].subject
                &&& page.messages.len() == messages_of(node.mail, thread).len()
                &&& forall|i: int|
                    0 <= i < talk.len() ==> (node.found((#[trigger] talk[i]).id) matches Ok(
                        (_, message),
                    ) && post_is_of(node, page.messages[i], message, now))
                &&& after.0.mail.new.contains_key(other) <==> node.mail.new.contains_key(other)
                    && !messages_of(node.mail, thread).contains(other)
                &&& after.0.mail.cur.contains_key(other) <==> node.mail.cur.contains_key(other) || (
                node.mail.new.contains_key(other) && messages_of(node.mail, thread).contains(
                    other,
                ))
                &&& after.0.mail.out == node.mail.out
                &&& after.0.mail.sent == node.mail.sent
            }
        }),
{
    crate::ids::ulid_text_reads_back(thread);
    crate::promises::reading::a_conversation_is_its_messages_in_order(node.mail, thread);
    let talk = conversation(node.mail, thread);
    lemma_rows_read(node, talk, now, other);
    if talk.len() > 0 {
        let page = node.opening_thread(ulid_text(thread), now).1->Ok_0;
        assert forall|i: int| 0 <= i < talk.len() implies (node.found(
            (#[trigger] talk[i]).id,
        ) matches Ok((_, message)) && post_is_of(node, page.messages[i], message, now)) by {
            assert(filed(node.mail, talk[i].mailbox, talk[i].id) is Some);
            crate::promises::writing::a_message_is_found_where_it_is(node, talk[i].id);
            assert(page.messages[i] == node.post(node.found(talk[i].id)->Ok_0.1, now));
        }
        if exists|i: int| 0 <= i < talk.len() && (#[trigger] talk[i]).id == other {
            let i = choose|i: int| 0 <= i < talk.len() && (#[trigger] talk[i]).id == other;
            assert(talk[i].thread_id == thread);
            assert(filed(node.mail, talk[i].mailbox, talk[i].id) is Some);
            assert(messages_of(node.mail, thread).contains(other));
        }
        if messages_of(node.mail, thread).contains(other) {
            let i = choose|i: int| 0 <= i < talk.len() && (#[trigger] talk[i]).id == other;
            assert(talk[i].id == other);
        }
    }
}

// ---------------------------------------------------------------------------
// Machines.
// ---------------------------------------------------------------------------

/// Whether a peer's row says what the address book and its presence do.
pub open spec fn peer_row_is_of(node: ServiceV, row: PeerRowV, id: NodeId, now: Timestamp) -> bool {
    let peer = node.book.peers[id];
    &&& row.id == node_text(id)
    &&& row.short_id == node_short(id)
    &&& row.name == peer.name
    &&& row.owner == peer.owner
    &&& node.addresses(id).len() == 0 ==> row.addr == "no known address"@
    &&& node.addresses(id).len() > 0 ==> row.addr == node.addresses(id)[0]
    &&& peer.last_seen is None ==> row.last_seen is None
    &&& peer.last_seen matches Some(at) ==> row.last_seen == Some(how_long_ago(at, now))
    &&& row.online <==> node.present(id, now) is Some
    &&& node.present(id, now) is None ==> row.sessions.len() == 0
    &&& node.present(id, now) matches Some(seen) ==> row.sessions.len() == seen.sessions.len()
        && forall|k: int|
        0 <= k < seen.sessions.len() ==> #[trigger] row.sessions[k] == seen.sessions[k].label
}

/// The page of machines shows every peer, and apart from them everybody seen
/// outside the group, the one seen last first; it says whether this node is in
/// a group, and what went wrong if something did.
pub proof fn the_page_of_machines(
    node: ServiceV,
    problem: Option<Seq<char>>,
    now: Timestamp,
    id: NodeId,
)
    requires
        node.wf(),
    ensures
        ({
            let page = node.peers_page(problem, now);
            &&& page.problem == problem
            &&& page.in_group <==> node.group is Some
            &&& page.paired.len() == sorted_keys(node.book.peers).len()
            &&& node.book.peers.contains_key(id) ==> exists|i: int|
                0 <= i < page.paired.len() && peer_row_is_of(
                    node,
                    #[trigger] page.paired[i],
                    id,
                    now,
                )
            &&& page.seen.len() == node.seen.dom().len()
            &&& forall|i: int|
                0 <= i < page.seen.len() ==> {
                    let seen = node.sightings()[i];
                    &&& (#[trigger] page.seen[i]).id == node_text(seen.id)
                    &&& page.seen[i].name == if seen.name is Some {
                        seen.name->0
                    } else {
                        seen.addr.host
                    }
                    &&& page.seen[i].owner == seen.owner
                    &&& page.seen[i].addr == seen.addr.authority()
                    &&& page.seen[i].last_seen == Some(how_long_ago(seen.last_seen, now))
                    &&& !page.seen[i].online
                }
        }),
{
    let page = node.peers_page(problem, now);
    crate::promises::company::every_sighting_is_listed(node, id);
    let keys = sorted_keys(node.book.peers);
    sorted_keys_exist(node.book.peers);
    if node.book.peers.contains_key(id) {
        assert(keys.contains(id));
        let k = keys.index_of(id);
        assert(page.paired[k] == peer_row(node.book.peers[id], node.present(id, now), now));
        assert(peer_row_is_of(node, page.paired[k], id, now));
    }
}

/// Trying to join a machine leads to the page of machines: plainly where it was
/// let in, and else with what was the matter.
pub proof fn joining_a_machine_says_how_it_went(
    node: ServiceV,
    host: Seq<char>,
    met: Result<MetV, ServiceErrorV>,
    now: Timestamp,
)
    ensures
        match met {
            Ok(MetV::Member(_)) => node.joined_page(host, met, now) == OutcomeV::<
                crate::web::PeersPageV,
            >::Redirect("/peers"@),
            Ok(MetV::Stranger(_)) => node.joined_page(host, met, now) matches OutcomeV::Page(page)
                && page.problem is Some,
            Err(error) => node.joined_page(host, met, now) matches OutcomeV::Page(page)
                && page.problem == Some(crate::problem::error_text(error)),
        },
{
}

/// A machine is forgotten by its id.
pub proof fn a_machine_is_forgotten_by_its_id(node: ServiceV, id: NodeId, now: Timestamp)
    ensures
        node.forgetting_form(node_text(id), now).0 == node.removing(id).0,
        node.book.peers.contains_key(id) || node.seen.contains_key(id) ==> node.forgetting_form(
            node_text(id),
            now,
        ).1 == OutcomeV::<crate::web::PeersPageV>::Redirect("/peers"@),
{
    crate::ids::node_text_reads_back(id);
}

// ---------------------------------------------------------------------------
// Writing.
// ---------------------------------------------------------------------------

proof fn lemma_typed_two(a: Seq<char>, b: Seq<char>)
    ensures
        recipients_typed(a + seq![','] + b) == recipients_typed(a) + recipients_typed(b),
{
    crate::promises::files::pieces_of_two(a, b, ',');
    let trim = |p: Seq<char>| trimmed(p);
    let keep = |p: Seq<char>| p.len() > 0;
    let x = pieces(a, ',').map_values(trim);
    let y = pieces(b, ',').map_values(trim);
    assert((pieces(a, ',') + pieces(b, ',')).map_values(trim) =~= x + y);
    Seq::filter_distributes_over_add(x, y, keep);
}

/// The recipients typed in a form are what stands between its commas, without
/// the white space round it, and where that leaves nothing there is none.
pub proof fn recipients_stand_between_commas(a: Seq<char>, b: Seq<char>, name: Seq<char>)
    requires
        !name.contains(','),
    ensures
        recipients_typed(a + seq![','] + b) == recipients_typed(a) + recipients_typed(b),
        trimmed(name).len() > 0 ==> recipients_typed(name) == seq![trimmed(name)],
        trimmed(name).len() == 0 ==> recipients_typed(name).len() == 0,
{
    lemma_typed_two(a, b);
    let trim = |p: Seq<char>| trimmed(p);
    let keep = |p: Seq<char>| p.len() > 0;
    assert(pieces(name, ',') =~= seq![name]);
    let one = seq![name].map_values(trim);
    assert(one =~= seq![trimmed(name)]);
    reveal(Seq::filter);
    assert(one.drop_last() =~= Seq::<Seq<char>>::empty());
    assert(one.drop_last().filter(keep) =~= Seq::<Seq<char>>::empty());
    assert(one.last() == trimmed(name));
    if trimmed(name).len() > 0 {
        assert(one.filter(keep) =~= seq![trimmed(name)]);
    } else {
        assert(one.filter(keep) =~= Seq::<Seq<char>>::empty());
    }
}

/// A form that is sent is sent as it was filled in, as written by a person, to
/// whom its recipients name; it leads to the conversation that it opened.
pub proof fn a_form_is_sent_as_it_was_filled_in(
    node: ServiceV,
    form: ComposeFormV,
    files: Seq<LocalFileV>,
    id: Ulid,
    now: Timestamp,
    signed: Result<Seq<u8>, Seq<char>>,
)
    ensures
        ({
            let to = node.recipients_named(recipients_typed(form.to));
            let draft = DraftV {
                to: to->Ok_0,
                subject: form.subject,
                body: form.body,
                kind: Kind::Message,
                in_reply_to: None,
                attachments: files,
            };
            let sent = node.sending(draft, SenderKind::Human, id, now, signed);
            let after = node.sending_form(form, files, id, now, signed);
            &&& to is Err ==> after.0 == node && after.1 is Failed
            &&& to is Ok ==> after.0 == sent.0
            &&& to is Ok && sent.1 is Ok ==> after.1 == OutcomeV::<
                crate::web::ComposePageV,
            >::Redirect("/thread/"@ + ulid_text(id))
            &&& to is Ok && sent.1 is Err ==> (after.1 matches OutcomeV::Page(page) && page.to
                == form.to && page.subject == form.subject && page.body == form.body
                && page.problem == Some(crate::problem::error_text(sent.1->Err_0)))
        }),
{
}

/// A reply from a conversation's page is the words typed, from a person, and
/// leads back to the conversation.
pub proof fn a_reply_from_a_page_leads_back(
    node: ServiceV,
    thread: Ulid,
    body: Seq<char>,
    id: Ulid,
    now: Timestamp,
    signed: Result<Seq<u8>, Seq<char>>,
)
    ensures
        ({
            let sent = node.replying(thread, body, seq![], SenderKind::Human, id, now, signed);
            let after = node.replying_form(ulid_text(thread), body, id, now, signed);
            &&& after.0 == sent.0
            &&& sent.1 is Ok ==> after.1 == OutcomeV::<()>::Redirect(
                "/thread/"@ + ulid_text(thread),
            )
            &&& sent.1 is Err ==> after.1 is Failed
        }),
{
    crate::ids::ulid_text_reads_back(thread);
}

/// A page that says what went wrong has the status of what did.
pub proof fn a_page_of_what_went_wrong(detail: Seq<char>, error: ServiceErrorV)
    ensures
        crate::web::problem_page(crate::problem::told(error)).status
            == crate::problem::told(error).status,
        crate::web::missing_page(detail).status == 404,
        crate::web::unreadable_page(detail).status == 400,
{
}

proof fn lemma_after_dot(stem: Seq<char>, ext: Seq<char>)
    requires
        !ext.contains('.'),
    ensures
        crate::web::after_last_dot(stem + seq!['.'] + ext) == Some(ext),
    decreases ext.len(),
{
    let name = stem + seq!['.'] + ext;
    if ext.len() == 0 {
        assert(name.last() == '.');
        assert(ext =~= Seq::<char>::empty());
    } else {
        let shorter = ext.drop_last();
        assert(name.last() == ext.last());
        assert(ext.contains(ext.last()));
        assert(name.drop_last() =~= stem + seq!['.'] + shorter);
        assert(!shorter.contains('.')) by {
            if shorter.contains('.') {
                let k = shorter.index_of('.');
                assert(ext[k] == '.');
            }
        }
        lemma_after_dot(stem, shorter);
        assert(shorter.push(ext.last()) =~= ext);
    }
}

/// What a page is made of is served as what the end of its name says.
pub proof fn a_part_of_a_page_is_what_its_name_says(stem: Seq<char>)
    ensures
        content_type(stem + seq!['.'] + "css"@) == "text/css; charset=utf-8"@,
        content_type(stem + seq!['.'] + "js"@) == "text/javascript; charset=utf-8"@,
        content_type(stem + seq!['.'] + "svg"@) == "image/svg+xml"@,
        content_type(stem + seq!['.'] + "woff2"@) == "application/octet-stream"@,
{
    reveal_strlit("css");
    reveal_strlit("js");
    reveal_strlit("svg");
    reveal_strlit("woff2");
    assert("css"@.len() == 3 && "css"@[0] == 'c' && "css"@[1] == 's' && "css"@[2] == 's');
    assert("js"@.len() == 2 && "js"@[0] == 'j' && "js"@[1] == 's');
    assert("svg"@.len() == 3 && "svg"@[0] == 's' && "svg"@[1] == 'v' && "svg"@[2] == 'g');
    assert("woff2"@.len() == 5 && "woff2"@[0] == 'w' && "woff2"@[1] == 'o' && "woff2"@[2] == 'f'
        && "woff2"@[3] == 'f' && "woff2"@[4] == '2');
    lemma_after_dot(stem, "css"@);
    lemma_after_dot(stem, "js"@);
    lemma_after_dot(stem, "svg"@);
    lemma_after_dot(stem, "woff2"@);
}

} // verus!
