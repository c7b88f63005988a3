//! What outlives a run.
//!
//! Mail, trust, the group, receipts that are owed and the files are kept. Who
//! is up, who was seen and what is still to be tried are not: a node that has
//! just started knows nothing about anybody until its first round.

use crate::ids::{Sha256Digest, Ulid};
use crate::peerbook::PeerBook;
use crate::service::receipts::{OwedReceipt, OwedV};
use crate::service::{Kept, MailService, ServiceV};
use crate::store::Outbound;
use vstd::prelude::*;

verus! {

use crate::message::views;
use crate::service::{blobs_of, receipts_of, started};
use crate::table::{table_keys_are_sorted, Key};

/// Whether this is what outlives a run of a node.
pub open spec fn outlives(kept: Kept, node: ServiceV) -> bool {
    &&& kept.mail@ == node.mail
    &&& kept.book@ == node.book
    &&& kept.group == node.group
    &&& receipts_of(views(kept.receipts@)) == node.receipts
    &&& blobs_of(kept.blobs@) == node.blobs
}

/// A node that starts again from what it kept has the mail, the address book,
/// the group, the receipts it owes and the files that it had. It believes
/// nobody to be up, and remembers no node outside its group.
pub proof fn a_restart_loses_nothing_that_is_kept(
    before: ServiceV,
    kept: Kept,
    node: crate::service::NodeV,
)
    requires
        outlives(kept, before),
    ensures
        ({
            let after = started(node, kept);
            &&& after.mail == before.mail
            &&& after.book == before.book
            &&& after.group == before.group
            &&& after.receipts == before.receipts
            &&& after.blobs == before.blobs
            &&& after.presence.dom() == Set::<crate::ids::NodeId>::empty()
            &&& after.seen.dom() == Set::<crate::ids::NodeId>::empty()
        }),
{
    assert(started(node, kept).presence.dom() =~= Set::empty());
    assert(started(node, kept).seen.dom() =~= Set::empty());
}

proof fn lemma_receipts(list: Seq<OwedV>)
    ensures
        forall|id: Ulid| #[trigger]
            receipts_of(list).contains_key(id) <==> exists|j: int|
                0 <= j < list.len() && (#[trigger] list[j]).message == id,
        forall|j: int|
            0 <= j < list.len() && (forall|k: int|
                j < k < list.len() ==> (#[trigger] list[k]).message != list[j].message)
                ==> receipts_of(list)[(#[trigger] list[j]).message] == list[j],
    decreases list.len(),
{
    if list.len() > 0 {
        let shorter = list.drop_last();
        let last = list.len() - 1;
        lemma_receipts(shorter);
        assert forall|id: Ulid| #[trigger] receipts_of(list).contains_key(id) <==> exists|j: int|
            0 <= j < list.len() && (#[trigger] list[j]).message == id by {
            if exists|j: int| 0 <= j < list.len() && (#[trigger] list[j]).message == id {
                let j = choose|j: int| 0 <= j < list.len() && (#[trigger] list[j]).message == id;
                if j < last {
                    assert(shorter[j].message == id);
                }
            }
            if receipts_of(shorter).contains_key(id) {
                let j = choose|j: int|
                    0 <= j < shorter.len() && (#[trigger] shorter[j]).message == id;
                assert(list[j].message == id);
            }
            assert(list[last] == list.last());
        }
        assert forall|j: int|
            0 <= j < list.len() && (forall|k: int|
                j < k < list.len() ==> (#[trigger] list[k]).message
                    != list[j].message) implies receipts_of(list)[(
        #[trigger] list[j]).message] == list[j] by {
            if j < last {
                assert(list[last].message != list[j].message);
                assert(shorter[j] == list[j]);
                assert forall|k: int| j < k < shorter.len() implies (#[trigger] shorter[k]).message
                    != shorter[j].message by {
                    assert(list[k].message != list[j].message);
                }
            }
        }
    }
}

proof fn lemma_blobs(list: Seq<(Sha256Digest, u64)>)
    ensures
        forall|d: Sha256Digest| #[trigger]
            blobs_of(list).contains_key(d) <==> exists|j: int|
                0 <= j < list.len() && (#[trigger] list[j]).0 == d,
        forall|j: int|
            0 <= j < list.len() && (forall|k: int|
                j < k < list.len() ==> (#[trigger] list[k]).0 != list[j].0)
                ==> blobs_of(list)[(#[trigger] list[j]).0] == list[j].1,
    decreases list.len(),
{
    if list.len() > 0 {
        let shorter = list.drop_last();
        let last = list.len() - 1;
        lemma_blobs(shorter);
        assert forall|d: Sha256Digest| #[trigger] blobs_of(list).contains_key(d) <==> exists|
            j: int,
        | 0 <= j < list.len() && (#[trigger] list[j]).0 == d by {
            if exists|j: int| 0 <= j < list.len() && (#[trigger] list[j]).0 == d {
                let j = choose|j: int| 0 <= j < list.len() && (#[trigger] list[j]).0 == d;
                if j < last {
                    assert(shorter[j].0 == d);
                }
            }
            if blobs_of(shorter).contains_key(d) {
                let j = choose|j: int| 0 <= j < shorter.len() && (#[trigger] shorter[j]).0 == d;
                assert(list[j].0 == d);
            }
            assert(list[last] == list.last());
        }
        assert forall|j: int|
            0 <= j < list.len() && (forall|k: int|
                j < k < list.len() ==> (#[trigger] list[k]).0
                    != list[j].0) implies blobs_of(list)[(#[trigger] list[j]).0]
            == list[j].1 by {
            if j < last {
                assert(list[last].0 != list[j].0);
                assert(shorter[j] == list[j]);
                assert forall|k: int| j < k < shorter.len() implies (#[trigger] shorter[k]).0
                    != shorter[j].0 by {
                    assert(list[k].0 != list[j].0);
                }
            }
        }
    }
}

impl MailService {
    /// The address book.
    pub fn book(&self) -> (out: &PeerBook)
        ensures
            out@ == self@.book,
    {
        &self.book
    }

    /// The envelope of a message that this node sent, if it sent one by that
    /// id.
    pub fn outbound(&self, id: Ulid) -> (out: Option<Outbound>)
        requires
            self.wf(),
        ensures
            match out {
                Some(found) => if self@.mail.out.contains_key(id) {
                    found@ == self@.mail.out[id]
                } else {
                    self@.mail.sent.contains_key(id) && found@ == self@.mail.sent[id]
                },
                None => !self@.mail.out.contains_key(id) && !self@.mail.sent.contains_key(id),
            },
    {
        if let Some(found) = self.mail.out.get(&id) {
            return Some(found.clone());
        }
        match self.mail.sent.get(&id) {
            Some(found) => Some(found.clone()),
            None => None,
        }
    }

    /// Every receipt that is owed, by the message it is for.
    fn kept_receipts(&self) -> (out: Vec<OwedReceipt>)
        requires
            self.wf(),
        ensures
            receipts_of(views(out@)) == self@.receipts,
    {
        let ghost keys = self.receipts.keys();
        let ghost map = self@.receipts;
        proof {
            table_keys_are_sorted(self.receipts);
        }
        let n: usize = self.receipts.len();
        let mut out: Vec<OwedReceipt> = Vec::new();
        let mut i: usize = 0;
        while i < n
            invariant
                self.wf(),
                keys == self.receipts.keys(),
                map == self@.receipts,
                crate::table::keys_of(keys, map),
                n == keys.len(),
                i <= n,
                out.len() == i,
                forall|j: int|
                    0 <= j < i ==> (#[trigger] out@[j])@ == map[keys[j]] && out@[j]@.message
                        == keys[j],
            decreases n - i,
        {
            assert(keys.contains(keys[i as int]));
            assert(map.contains_key(keys[i as int]));
            out.push(self.receipts.value_at(i).clone());
            i += 1;
        }
        proof {
            let list = views(out@);
            lemma_receipts(list);
            assert forall|id: Ulid| receipts_of(list).contains_key(id) == map.contains_key(id) by {
                if map.contains_key(id) {
                    assert(keys.contains(id));
                    let k = keys.index_of(id);
                    assert(list[k] == out@[k]@);
                    assert(list[k].message == id);
                }
                if receipts_of(list).contains_key(id) {
                    let j = choose|j: int| 0 <= j < list.len() && (#[trigger] list[j]).message == id;
                    assert(list[j] == out@[j]@);
                    assert(keys[j] == id);
                    assert(keys.contains(id));
                }
            }
            assert forall|id: Ulid| map.contains_key(id) implies receipts_of(list)[id]
                == map[id] by {
                assert(keys.contains(id));
                let k = keys.index_of(id);
                assert(list[k] == out@[k]@);
                assert forall|m: int| k < m < list.len() implies (#[trigger] list[m]).message
                    != list[k].message by {
                    assert(list[m] == out@[m]@);
                    assert(keys[k].rank() < keys[m].rank());
                }
            }
            assert(receipts_of(list) =~= map);
        }
        out
    }

    /// Every file, by its content address.
    fn kept_blobs(&self) -> (out: Vec<(Sha256Digest, u64)>)
        requires
            self.wf(),
        ensures
            blobs_of(out@) == self@.blobs,
    {
        let ghost keys = self.blobs.keys();
        let ghost map = self@.blobs;
        proof {
            table_keys_are_sorted(self.blobs);
        }
        let n: usize = self.blobs.len();
        let mut out: Vec<(Sha256Digest, u64)> = Vec::new();
        let mut i: usize = 0;
        while i < n
            invariant
                self.wf(),
                keys == self.blobs.keys(),
                map == self@.blobs,
                n == keys.len(),
                i <= n,
                out.len() == i,
                forall|j: int|
                    0 <= j < i ==> (#[trigger] out@[j]).0 == keys[j] && out@[j].1 == map[keys[j]],
            decreases n - i,
        {
            let digest = self.blobs.key_at(i);
            let size: u64 = *self.blobs.value_at(i);
            out.push((digest, size));
            i += 1;
        }
        proof {
            let list = out@;
            lemma_blobs(list);
            assert forall|d: Sha256Digest| blobs_of(list).contains_key(d) == map.contains_key(
                d,
            ) by {
                if map.contains_key(d) {
                    assert(keys.contains(d));
                    let k = keys.index_of(d);
                    assert(list[k].0 == d);
                }
                if blobs_of(list).contains_key(d) {
                    let j = choose|j: int| 0 <= j < list.len() && (#[trigger] list[j]).0 == d;
                    assert(keys[j] == d);
                    assert(keys.contains(d));
                }
            }
            assert forall|d: Sha256Digest| map.contains_key(d) implies blobs_of(list)[d]
                == map[d] by {
                assert(keys.contains(d));
                let k = keys.index_of(d);
                assert(list[k].0 == d);
                assert forall|m: int| k < m < list.len() implies (#[trigger] list[m]).0
                    != list[k].0 by {
                    assert(keys[k].rank() < keys[m].rank());
                }
            }
            assert(blobs_of(list) =~= map);
        }
        out
    }

    /// Stop, and hand over what outlives the run. Starting again from it gives
    /// the same mail, address book, group, receipts and files.
    pub fn keep(self) -> (kept: Kept)
        requires
            self.wf(),
        ensures
            kept.mail.wf(),
            kept.book.wf(),
            outlives(kept, self@),
    {
        let receipts = self.kept_receipts();
        let blobs = self.kept_blobs();
        Kept { mail: self.mail, book: self.book, group: self.group, receipts, blobs }
    }
}

} // verus!
