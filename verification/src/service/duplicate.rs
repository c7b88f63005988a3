//! Noticing that a message has just been sent again.
//!
//! It warns rather than refuses: asking somebody the same thing again is
//! legitimate, and mail that is not carried is worse than a copy nobody
//! wanted. The notice travels with what a send returns.

use crate::ids::Ulid;
use crate::message::{same_recipients, Draft, DraftV, Message, MessageV};
use crate::service::{MailService, ServiceV};
use crate::store::{Outbound, OutboundV};
use crate::table::Table;
use crate::time::Timestamp;
use vstd::prelude::*;

verus! {

use crate::table::{sorted_keys, table_keys_are_sorted, Key};

/// How recently an identical message must have gone out to count as a repeat:
/// two minutes, in nanoseconds.
pub const REPEAT_WINDOW: i128 = 120_000_000_000;

/// What a send produced.
#[derive(PartialEq, Eq, Debug)]
pub struct Queued {
    /// The message that was written and queued.
    pub message: Message,
    /// An identical message sent moments before, if there was one.
    pub duplicate_of: Option<Ulid>,
}

/// What a send produced.
pub struct QueuedV {
    /// The message that was written and queued.
    pub message: MessageV,
    /// An identical message sent moments before, if there was one.
    pub duplicate_of: Option<Ulid>,
}

impl View for Queued {
    type V = QueuedV;

    open spec fn view(&self) -> QueuedV {
        QueuedV { message: self.message@, duplicate_of: self.duplicate_of }
    }
}

/// When an id was made.
pub fn generated_at(id: Ulid) -> (at: Option<Timestamp>)
    ensures
        at matches Some(at) && at@ == id.ms() * 1_000_000,
{
    let ms: u64 = id.timestamp_ms();
    Timestamp::from_timestamp_millis(ms as i64)
}

/// Whether an id was made inside the window.
pub open spec fn is_recent(id: Ulid, now: Timestamp) -> bool {
    id.ms() * 1_000_000 >= now@ - REPEAT_WINDOW
}

fn recent(id: Ulid, now: &Timestamp) -> (r: bool)
    ensures
        r == is_recent(id, *now),
{
    match generated_at(id) {
        Some(at) => at.nanos() >= now.nanos() - REPEAT_WINDOW,
        None => false,
    }
}

/// Whether a message is a draft again: recipients, subject, body, kind and the
/// message it answers, all exactly.
pub open spec fn is_repeat(message: MessageV, draft: DraftV) -> bool {
    &&& message.to == draft.to
    &&& message.subject == draft.subject
    &&& message.body == draft.body
    &&& message.kind == draft.kind
    &&& message.in_reply_to == draft.in_reply_to
}

/// Whether a message is a draft again.
pub fn repeats(message: &Message, draft: &Draft) -> (r: bool)
    ensures
        r == is_repeat(message@, draft@),
{
    same_recipients(&message.to, &draft.to) && message.subject == draft.subject && message.body
        == draft.body && message.kind == draft.kind && match (
        message.in_reply_to,
        draft.in_reply_to,
    ) {
        (Some(a), Some(b)) => a == b,
        (None, None) => true,
        _ => false,
    }
}

/// Whether an envelope in a mailbox is a recent copy of a draft.
pub open spec fn is_copy(
    map: Map<Ulid, OutboundV>,
    id: Ulid,
    draft: DraftV,
    now: Timestamp,
) -> bool {
    map.contains_key(id) && is_recent(id, now) && is_repeat(map[id].message, draft)
}

/// Whether an envelope is the newest recent copy of a draft in a mailbox.
pub open spec fn is_newest_copy(
    map: Map<Ulid, OutboundV>,
    id: Ulid,
    draft: DraftV,
    now: Timestamp,
) -> bool {
    &&& is_copy(map, id, draft, now)
    &&& forall|other: Ulid| #[trigger]
        is_copy(map, other, draft, now) ==> other.rank() <= id.rank()
}

/// The newest recent copy of a draft in a mailbox, if there is one.
pub open spec fn newest_copy(map: Map<Ulid, OutboundV>, draft: DraftV, now: Timestamp) -> Option<
    Ulid,
> {
    if exists|id: Ulid| is_copy(map, id, draft, now) {
        Some(choose|id: Ulid| is_newest_copy(map, id, draft, now))
    } else {
        None
    }
}

impl ServiceV {
    /// The newest identical message sent inside the window, if any, whether
    /// it is still waiting or has reached everybody.
    pub open spec fn duplicate(self, draft: DraftV, now: Timestamp) -> Option<Ulid> {
        match (newest_copy(self.mail.out, draft, now), newest_copy(self.mail.sent, draft, now)) {
            (Some(waiting), Some(sent)) => Some(
                if waiting.rank() < sent.rank() {
                    sent
                } else {
                    waiting
                },
            ),
            (Some(waiting), None) => Some(waiting),
            (None, sent) => sent,
        }
    }
}

/// Sending what was sent moments before is noticed: where this node still has
/// a recent message that the draft repeats, such a message is named, and none
/// that the draft repeats is newer.
pub proof fn a_repeat_is_noticed(service: MailService, id: Ulid, draft: DraftV, now: Timestamp)
    requires
        service.wf(),
        is_copy(service@.mail.out, id, draft, now) || is_copy(
            service@.mail.sent,
            id,
            draft,
            now,
        ),
    ensures
        service@.duplicate(draft, now) matches Some(found) && (is_copy(
            service@.mail.out,
            found,
            draft,
            now,
        ) || is_copy(service@.mail.sent, found, draft, now)) && forall|other: Ulid|
            #![trigger is_copy(service@.mail.out, other, draft, now)]
            #![trigger is_copy(service@.mail.sent, other, draft, now)]
            is_copy(service@.mail.out, other, draft, now) || is_copy(
                service@.mail.sent,
                other,
                draft,
                now,
            ) ==> other.rank() <= found.rank(),
{
    let out = service@.mail.out;
    let sent = service@.mail.sent;
    table_keys_are_sorted(service.mail.out);
    table_keys_are_sorted(service.mail.sent);
    if exists|one: Ulid| is_copy(out, one, draft, now) {
        let one = choose|one: Ulid| is_copy(out, one, draft, now);
        lemma_newest_exists(sorted_keys(out), out, one, draft, now);
    }
    if exists|one: Ulid| is_copy(sent, one, draft, now) {
        let one = choose|one: Ulid| is_copy(sent, one, draft, now);
        lemma_newest_exists(sorted_keys(sent), sent, one, draft, now);
    }
}

proof fn lemma_newest_exists(
    keys: Seq<Ulid>,
    map: Map<Ulid, OutboundV>,
    one: Ulid,
    draft: DraftV,
    now: Timestamp,
)
    requires
        crate::table::keys_of(keys, map),
        is_copy(map, one, draft, now),
    ensures
        exists|id: Ulid| is_newest_copy(map, id, draft, now),
{
    assert(keys.contains(one));
    let k = lemma_newest_among(keys, keys.len() as int, map, keys.index_of(one), draft, now);
    let id = keys[k];
    assert forall|other: Ulid| #[trigger] is_copy(map, other, draft, now) implies other.rank()
        <= id.rank() by {
        assert(keys.contains(other));
        let m = keys.index_of(other);
        assert(keys[m] == other);
        if m < k {
            assert(keys[m].rank() < keys[k].rank());
        }
    }
    assert(is_newest_copy(map, id, draft, now));
}

proof fn lemma_newest_among(
    keys: Seq<Ulid>,
    n: int,
    map: Map<Ulid, OutboundV>,
    at: int,
    draft: DraftV,
    now: Timestamp,
) -> (k: int)
    requires
        0 <= at < n <= keys.len(),
        is_copy(map, keys[at], draft, now),
    ensures
        0 <= k < n,
        is_copy(map, keys[k], draft, now),
        forall|j: int| k < j < n ==> !is_copy(map, #[trigger] keys[j], draft, now),
    decreases n,
{
    if is_copy(map, keys[n - 1], draft, now) {
        n - 1
    } else {
        lemma_newest_among(keys, n - 1, map, at, draft, now)
    }
}

fn newest_copy_in(table: &Table<Ulid, Outbound>, draft: &Draft, now: &Timestamp) -> (out: Option<
    Ulid,
>)
    requires
        table.wf(),
    ensures
        out == newest_copy(table.map(), draft@, *now),
{
    proof {
        table_keys_are_sorted(*table);
    }
    let ghost keys = table.keys();
    let ghost map = table.map();
    let mut i: usize = table.len();
    while i > 0
        invariant
            table.wf(),
            keys == table.keys(),
            map == table.map(),
            crate::table::keys_of(keys, map),
            i <= keys.len(),
            forall|j: int|
                i <= j < keys.len() ==> !is_copy(map, #[trigger] keys[j], draft@, *now),
        decreases i,
    {
        let id = table.key_at(i - 1);
        let ghost at = i - 1;
        assert(keys[at] == id);
        if !recent(id, now) {
            proof {
                assert forall|other: Ulid| !is_copy(map, other, draft@, *now) by {
                    if map.contains_key(other) {
                        assert(keys.contains(other));
                        let k = keys.index_of(other);
                        if k < at {
                            assert(keys[k].rank() < keys[at].rank());
                            crate::ids::later_ids_are_no_older(other, id);
                        }
                    }
                }
            }
            return None;
        }
        if repeats(&table.value_at(i - 1).message, draft) {
            proof {
                assert(is_copy(map, id, draft@, *now));
                assert forall|other: Ulid| #[trigger] is_copy(map, other, draft@, *now) implies other.rank()
                    <= id.rank() by {
                    assert(keys.contains(other));
                    let k = keys.index_of(other);
                    if k > at {
                        assert(!is_copy(map, keys[k], draft@, *now));
                    } else if k < at {
                        assert(keys[k].rank() < keys[at].rank());
                    }
                }
                assert(is_newest_copy(map, id, draft@, *now));
                let chosen = choose|c: Ulid| is_newest_copy(map, c, draft@, *now);
                assert(chosen.rank() == id.rank());
                Ulid::rank_is_injective(chosen, id);
            }
            return Some(id);
        }
        i -= 1;
    }
    proof {
        assert forall|other: Ulid| !is_copy(map, other, draft@, *now) by {
            if map.contains_key(other) {
                assert(keys.contains(other));
                let k = keys.index_of(other);
                assert(keys[k] == other);
            }
        }
    }
    None
}

impl MailService {
    /// The newest identical message sent inside the window, if any.
    pub fn recent_duplicate(&self, draft: &Draft, now: &Timestamp) -> (out: Option<Ulid>)
        requires
            self.wf(),
        ensures
            out == self@.duplicate(draft@, *now),
    {
        match (
            newest_copy_in(&self.mail.out, draft, now),
            newest_copy_in(&self.mail.sent, draft, now),
        ) {
            (Some(waiting), Some(sent)) => if waiting.precedes(&sent) {
                Some(sent)
            } else {
                Some(waiting)
            },
            (Some(waiting), None) => Some(waiting),
            (None, sent) => sent,
        }
    }
}

} // verus!
