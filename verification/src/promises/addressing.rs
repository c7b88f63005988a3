//! Whom mail reaches.

use crate::ids::NodeId;
use crate::message::RecipientV;
use crate::service::{ServiceErrorV, ServiceV};
use vstd::prelude::*;

verus! {

use crate::service::recipients::expansion_is_exact;
use crate::ids::{named_node, node_short, node_text};
use crate::table::{sorted_keys, sorted_keys_exist, Key};
use crate::text::{same_name, trimmed};

/// Whether a machine belongs to the person of a name: it is a peer that the
/// address book says is theirs, or it is this machine and it is theirs.
pub open spec fn is_machine_of(node: ServiceV, id: NodeId, name: Seq<char>) -> bool {
    ||| node.book.peers.contains_key(id) && (node.book.peers[id].owner matches Some(owner)
        && same_name(owner, name))
    ||| id == node.node.id && (node.node.owner matches Some(owner) && same_name(owner, name))
}

/// Mail to a person reaches every machine that the address book says is
/// theirs, this one too if it is, and no other.
pub proof fn mail_to_a_person_reaches_their_machines(node: ServiceV, name: Seq<char>, id: NodeId)
    requires
        node.wf(),
    ensures
        node.expanded(seq![RecipientV::Owner(name)]).contains(id) <==> is_machine_of(
            node,
            id,
            name,
        ),
{
    let to = seq![RecipientV::Owner(name)];
    expansion_is_exact(node, to, id);
    if is_machine_of(node, id, name) {
        assert(node.reaches(to[0], id));
    }
}

/// Mail to one machine reaches that machine and no other.
pub proof fn mail_to_a_machine_reaches_it_alone(node: ServiceV, to: NodeId, id: NodeId)
    requires
        node.wf(),
    ensures
        node.expanded(seq![RecipientV::Node(to)]).contains(id) <==> id == to,
{
    let list = seq![RecipientV::Node(to)];
    expansion_is_exact(node, list, id);
    if id == to {
        assert(node.reaches(list[0], id));
    }
}

/// Mail to everyone reaches every peer and this machine, and nobody else.
pub proof fn mail_to_everyone_reaches_the_group(node: ServiceV, id: NodeId)
    requires
        node.wf(),
    ensures
        node.expanded(seq![RecipientV::Everyone]).contains(id)
            <==> node.book.peers.contains_key(id) || id == node.node.id,
{
    let to = seq![RecipientV::Everyone];
    expansion_is_exact(node, to, id);
    if node.book.peers.contains_key(id) || id == node.node.id {
        assert(node.reaches(to[0], id));
    }
}

/// A list of recipients reaches whom any one of them would reach alone, and
/// each of those once.
pub proof fn a_list_reaches_whom_each_would(node: ServiceV, to: Seq<RecipientV>, id: NodeId)
    requires
        node.wf(),
    ensures
        node.expanded(to).contains(id) <==> exists|i: int|
            0 <= i < to.len() && node.expanded(seq![#[trigger] to[i]]).contains(id),
        node.expanded(to).no_duplicates(),
{
    expansion_is_exact(node, to, id);
    assert forall|i: int| 0 <= i < to.len() implies (node.expanded(
        seq![#[trigger] to[i]],
    ).contains(id) <==> node.reaches(to[i], id)) by {
        let one = seq![to[i]];
        expansion_is_exact(node, one, id);
        assert(one[0] == to[i]);
        if node.reaches(to[i], id) {
            assert(node.reaches(one[0], id));
        }
    }
}

/// Whether a machine is one of those that a list of recipients names.
pub open spec fn is_addressed(node: ServiceV, to: Seq<RecipientV>, id: NodeId) -> bool {
    exists|i: int|
        0 <= i < to.len() && match #[trigger] to[i] {
            RecipientV::Node(named) => named == id,
            RecipientV::Owner(name) => is_machine_of(node, id, name),
            RecipientV::Everyone => node.book.peers.contains_key(id) || id == node.node.id,
        }
}

/// Mail reaches exactly the machines that it is addressed to.
pub proof fn mail_reaches_whom_it_is_addressed_to(node: ServiceV, to: Seq<RecipientV>, id: NodeId)
    requires
        node.wf(),
    ensures
        node.expanded(to).contains(id) <==> is_addressed(node, to, id),
        node.expanded(to).no_duplicates(),
{
    a_list_reaches_whom_each_would(node, to, id);
    assert forall|i: int| 0 <= i < to.len() implies (node.expanded(
        seq![#[trigger] to[i]],
    ).contains(id) <==> match to[i] {
        RecipientV::Node(named) => named == id,
        RecipientV::Owner(name) => is_machine_of(node, id, name),
        RecipientV::Everyone => node.book.peers.contains_key(id) || id == node.node.id,
    }) by {
        match to[i] {
            RecipientV::Node(named) => mail_to_a_machine_reaches_it_alone(node, named, id),
            RecipientV::Owner(name) => mail_to_a_person_reaches_their_machines(node, name, id),
            RecipientV::Everyone => mail_to_everyone_reaches_the_group(node, id),
        }
    }
}

/// Whether a person of a name is known here: some machine known here is theirs.
pub open spec fn is_known(node: ServiceV, name: Seq<char>) -> bool {
    exists|id: NodeId| is_machine_of(node, id, name)
}

/// Whether a machine is known here: it is a peer, or this one.
pub open spec fn is_here(node: ServiceV, id: NodeId) -> bool {
    node.book.peers.contains_key(id) || id == node.node.id
}

proof fn lemma_known(node: ServiceV, name: Seq<char>)
    ensures
        node.names_somebody(name) <==> is_known(node, name),
{
    if node.names_somebody(name) {
        if crate::service::recipients::owned_by(node.node.owner, name) {
            assert(is_machine_of(node, node.node.id, name));
        } else {
            let id = choose|id: NodeId| #[trigger]
                node.is_member(id) && crate::service::recipients::owned_by(
                    node.book.peers[id].owner,
                    name,
                );
            assert(is_machine_of(node, id, name));
        }
    }
    if is_known(node, name) {
        let id = choose|id: NodeId| is_machine_of(node, id, name);
        if !(id == node.node.id && crate::service::recipients::owned_by(node.node.owner, name)) {
            assert(node.is_member(id));
        }
    }
}

proof fn lemma_short(node: ServiceV, typed: Seq<char>, id: NodeId)
    requires
        node.wf(),
    ensures
        node.short_matches(typed).contains(id) <==> is_here(node, id) && same_name(
            node_short(id),
            typed,
        ),
        !node.book.peers.contains_key(node.node.id) ==> node.short_matches(typed).no_duplicates(),
{
    let keys = sorted_keys(node.book.peers);
    let all = keys.push(node.node.id);
    let keep = |n: NodeId| same_name(node_short(n), typed);
    sorted_keys_exist(node.book.peers);
    crate::sorting::filter_from(all, keep);
    let found = node.short_matches(typed);
    if found.contains(id) {
        let i = found.index_of(id);
        assert(all.contains(found[i]));
        let k = all.index_of(id);
        if k < keys.len() {
            assert(keys[k] == id);
            assert(keys.contains(id));
        }
    }
    if is_here(node, id) && same_name(node_short(id), typed) {
        if node.book.peers.contains_key(id) {
            assert(keys.contains(id));
            let k = keys.index_of(id);
            assert(all[k] == id);
            crate::sorting::filter_has(all, keep, k);
        } else {
            assert(all[keys.len() as int] == id);
            crate::sorting::filter_has(all, keep, keys.len() as int);
        }
    }
    if !node.book.peers.contains_key(node.node.id) {
        assert(all.no_duplicates()) by {
            assert forall|a: int, b: int|
                0 <= a < all.len() && 0 <= b < all.len() && a != b implies all[a] != all[b] by {
                if a < keys.len() && b < keys.len() {
                    if a < b {
                        assert(keys[a].rank() < keys[b].rank());
                    } else {
                        assert(keys[b].rank() < keys[a].rank());
                    }
                } else if a < keys.len() {
                    assert(keys.contains(keys[a]));
                } else {
                    assert(keys.contains(keys[b]));
                }
            }
        }
        crate::sorting::filter_distinct(all, keep);
    }
}

/// What somebody types in a `To` box, white space at its ends aside, means: a
/// machine by its whole id; `everyone`, in any case; else a person known here;
/// else the one machine known here with that short form; and else a person who
/// is not known here.
pub proof fn what_is_typed_names_whom_it_says(node: ServiceV, typed: Seq<char>, id: NodeId)
    requires
        node.wf(),
    ensures
        ({
            let said = trimmed(typed);
            let meant = node.recipient_named(typed);
            let short = is_here(node, id) && same_name(node_short(id), said);
            let plain = said.len() > 0 && named_node(said) is None && !same_name(
                said,
                "everyone"@,
            );
            &&& said.len() == 0 ==> meant is Err
            &&& said == node_text(id) && said.len() > 0 ==> meant == Ok::<
                RecipientV,
                ServiceErrorV,
            >(RecipientV::Node(id))
            &&& said.len() > 0 && named_node(said) is None && same_name(said, "everyone"@) ==> meant
                == Ok::<RecipientV, ServiceErrorV>(RecipientV::Everyone)
            &&& plain && is_known(node, said) ==> meant == Ok::<RecipientV, ServiceErrorV>(
                RecipientV::Owner(said),
            )
            &&& plain && !is_known(node, said) && short ==> match meant {
                Ok(RecipientV::Node(found)) => found == id,
                Err(_) => true,
                _ => false,
            }
            &&& plain && !is_known(node, said) && !node.book.peers.contains_key(node.node.id)
                && short && (forall|other: NodeId|
                is_here(node, other) && #[trigger] same_name(node_short(other), said) ==> other
                    == id) ==> meant == Ok::<RecipientV, ServiceErrorV>(RecipientV::Node(id))
            &&& plain && !is_known(node, said) && (forall|other: NodeId|
                is_here(node, other) ==> !#[trigger] same_name(node_short(other), said)) ==> meant
                == Ok::<RecipientV, ServiceErrorV>(RecipientV::Owner(said))
            &&& meant matches Ok(RecipientV::Node(found)) ==> node_text(found) == said || (
            is_here(node, found) && same_name(node_short(found), said))
        }),
{
    let said = trimmed(typed);
    lemma_known(node, said);
    crate::ids::node_text_reads_back(id);
    let found = node.short_matches(said);
    lemma_short(node, said, id);
    if found.len() > 0 {
        assert(found.contains(found[0]));
        lemma_short(node, said, found[0]);
        if found.len() == 1 && found.contains(id) {
            let k = found.index_of(id);
            assert(found[0] == id);
        }
        if found.len() > 1 {
            assert(found.contains(found[1]));
            lemma_short(node, said, found[1]);
            assert(!node.book.peers.contains_key(node.node.id) ==> found[0] != found[1]);
        }
    }
}

/// A list that is typed means what each of its entries means, in order, and is
/// refused where one of them is.
pub proof fn a_typed_list_means_what_each_entry_does(node: ServiceV, typed: Seq<Seq<char>>)
    ensures
        node.recipients_named(typed) is Ok <==> forall|k: int|
            0 <= k < typed.len() ==> node.recipient_named(#[trigger] typed[k]) is Ok,
        node.recipients_named(typed) matches Ok(list) ==> list.len() == typed.len() && forall|
            k: int,
        |
            0 <= k < typed.len() ==> node.recipient_named(#[trigger] typed[k]) == Ok::<
                RecipientV,
                ServiceErrorV,
            >(list[k]),
    decreases typed.len(),
{
    if typed.len() > 0 {
        let before = typed.drop_last();
        a_typed_list_means_what_each_entry_does(node, before);
        if node.recipients_named(typed) is Ok {
            let list = node.recipients_named(typed)->Ok_0;
            let first = node.recipients_named(before)->Ok_0;
            assert forall|k: int| 0 <= k < typed.len() implies node.recipient_named(
                #[trigger] typed[k],
            ) == Ok::<RecipientV, ServiceErrorV>(list[k]) by {
                if k < before.len() {
                    assert(before[k] == typed[k]);
                    assert(list[k] == first[k]);
                } else {
                    assert(typed[k] == typed.last());
                }
            }
        } else if node.recipients_named(before) is Err {
            let k = choose|k: int|
                0 <= k < before.len() && !(node.recipient_named(#[trigger] before[k]) is Ok);
            assert(typed[k] == before[k]);
        } else {
            assert(typed[typed.len() - 1] == typed.last());
        }
    }
}

} // verus!
