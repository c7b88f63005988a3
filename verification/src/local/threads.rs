//! Conversations: the list of them, and one of them.

use crate::ids::NodeId;
use crate::local::messages::{MessageSummary, MessageSummaryV};
use crate::problem::{Problem, ProblemType, ProblemV};
use crate::service::conversations::{Conversation, ConversationV};
use crate::service::{MailService, ServiceV};
use crate::text::trim;
use crate::time::Timestamp;
use vstd::prelude::*;
use vstd::string::*;

verus! {

use crate::ids::{node_text, ulid_text};
use crate::message::views;
use crate::problem::{problem, told};
use crate::service::conversations::a_listed_conversation_has_messages;
use crate::service::query::{a_whole_id_names_its_message, conversation, message_named};
use crate::text::{opt_text, texts, trimmed};

/// One conversation, as the list shows it.
#[derive(PartialEq, Eq, Debug)]
pub struct ConversationSummary {
    /// The thread every message in it carries.
    pub thread_id: String,
    /// The subject it opened with.
    pub subject: String,
    /// The machines it is with. This node is left out, unless it is the only
    /// one in it.
    pub participants: Vec<String>,
    /// How many messages are in it, once each.
    pub messages: u64,
    /// How many of those are still unread.
    pub unread: u64,
    /// The most recent message's id.
    pub last_id: String,
    /// Who sent the most recent message.
    pub last_from: String,
    /// `human` if a person typed the most recent message, `agent` if a program
    /// sent it.
    pub last_sender_kind: String,
    /// When it was sent. The list is ordered by this, newest first.
    pub last_at: Timestamp,
}

/// One conversation, as the list shows it.
#[verifier::ext_equal]
pub struct ConversationSummaryV {
    /// The thread every message in it carries.
    pub thread_id: Seq<char>,
    /// The subject it opened with.
    pub subject: Seq<char>,
    /// The machines it is with. This node is left out, unless it is the only
    /// one in it.
    pub participants: Seq<Seq<char>>,
    /// How many messages are in it, once each.
    pub messages: u64,
    /// How many of those are still unread.
    pub unread: u64,
    /// The most recent message's id.
    pub last_id: Seq<char>,
    /// Who sent the most recent message.
    pub last_from: Seq<char>,
    /// `human` if a person typed the most recent message, `agent` if a program
    /// sent it.
    pub last_sender_kind: Seq<char>,
    /// When it was sent. The list is ordered by this, newest first.
    pub last_at: Timestamp,
}

impl View for ConversationSummary {
    type V = ConversationSummaryV;

    open spec fn view(&self) -> ConversationSummaryV {
        ConversationSummaryV {
            thread_id: self.thread_id@,
            subject: self.subject@,
            participants: texts(self.participants@),
            messages: self.messages,
            unread: self.unread,
            last_id: self.last_id@,
            last_from: self.last_from@,
            last_sender_kind: self.last_sender_kind@,
            last_at: self.last_at,
        }
    }
}

/// Which conversations to list.
#[derive(PartialEq, Eq, Debug)]
pub struct ListThreadsParams {
    /// Only conversations with this machine: a node id, whole or in its short
    /// form.
    pub with: Option<String>,
    /// How many to return.
    pub limit: Option<usize>,
}

/// Which conversations to list.
#[verifier::ext_equal]
pub struct ListThreadsParamsV {
    /// Only conversations with this machine: a node id, whole or in its short
    /// form.
    pub with: Option<Seq<char>>,
    /// How many to return.
    pub limit: Option<usize>,
}

impl View for ListThreadsParams {
    type V = ListThreadsParamsV;

    open spec fn view(&self) -> ListThreadsParamsV {
        ListThreadsParamsV {
            with: opt_text(self.with),
            limit: self.limit,
        }
    }
}

/// A conversation, as the list shows it.
pub open spec fn conversation_shown(c: ConversationV) -> ConversationSummaryV {
    ConversationSummaryV {
        thread_id: ulid_text(c.thread_id),
        subject: c.subject,
        participants: c.participants.map_values(|id: NodeId| node_text(id)),
        messages: c.messages as u64,
        unread: c.unread as u64,
        last_id: ulid_text(c.last_id),
        last_from: node_text(c.last_from),
        last_sender_kind: c.last_sender_kind.name(),
        last_at: c.last_at,
    }
}

impl ServiceV {
    /// The machine that conversations are asked for with, or that it is none
    /// this node has met.
    pub open spec fn asked_with(self, typed: Option<Seq<char>>) -> Result<
        Option<NodeId>,
        ProblemV,
    > {
        match typed {
            None => Ok(None),
            Some(typed) => if self.peer_named(trimmed(typed)) matches Ok(id) && self.has_met(id) {
                Ok(Some(self.peer_named(trimmed(typed))->Ok_0))
            } else {
                Err(
                    problem(
                        ProblemType::InvalidQuery,
                        "`"@ + typed
                            + "` is not a machine this node knows; `with` takes a node id, whole or in its short form"@,
                    ),
                )
            },
        }
    }

    /// What asking for the conversations is answered with.
    pub open spec fn threads_listed(self, params: ListThreadsParamsV) -> Result<
        Seq<ConversationSummaryV>,
        ProblemV,
    > {
        match self.asked_with(params.with) {
            Err(why) => Err(why),
            Ok(with) => Ok(
                self.conversations(with, params.limit).map_values(
                    |c: ConversationV| conversation_shown(c),
                ),
            ),
        }
    }

    /// What asking for one conversation is answered with: the id is that of any
    /// message in it, or its own, which is that of the message it opened with
    /// and may never have come here.
    pub open spec fn thread_opened(self, typed: Seq<char>) -> Result<
        Seq<MessageSummaryV>,
        ProblemV,
    > {
        match message_named(self.mail, typed) {
            Err(error) => Err(told(error)),
            Ok(id) => match self.found(id) {
                Ok((mailbox, message)) => Ok(
                    self.shown_rows(conversation(self.mail, message.thread_id)),
                ),
                Err(error) => if conversation(self.mail, id).len() > 0 {
                    Ok(self.shown_rows(conversation(self.mail, id)))
                } else {
                    Err(told(error))
                },
            },
        }
    }
}

/// A machine that this node has never met is refused, and never answered with
/// an empty list. An empty list says that there is no conversation with a
/// machine that is known here.
pub proof fn an_unknown_machine_is_refused(
    node: ServiceV,
    params: ListThreadsParamsV,
    typed: Seq<char>,
)
    requires
        params.with == Some(typed),
    ensures
        node.threads_listed(params) is Err <==> !(node.peer_named(trimmed(typed)) matches Ok(id)
            && node.has_met(id)),
        node.threads_listed(params) is Err ==> node.threads_listed(params)->Err_0.status == 400,
        (node.threads_listed(params) matches Ok(rows) && rows.len() == 0 && params.limit != Some(
            0usize,
        )) ==> (node.peer_named(trimmed(typed)) matches Ok(id) && (id == node.node.id
            || node.is_member(id) || node.seen.contains_key(id))),
{
}

/// Every conversation of the list can be opened by its id, whether or not the
/// message it opened with ever came here.
pub proof fn a_listed_conversation_can_be_opened(
    node: ServiceV,
    with: Option<NodeId>,
    limit: Option<usize>,
    i: int,
)
    requires
        0 <= i < node.conversations(with, limit).len(),
    ensures
        ({
            let thread = node.conversations(with, limit)[i].thread_id;
            &&& node.thread_opened(ulid_text(thread)) is Ok
            &&& (node.found(thread) matches Ok((_, message)) ==> message.thread_id == thread)
                ==> node.thread_opened(ulid_text(thread)) == Ok::<
                Seq<MessageSummaryV>,
                ProblemV,
            >(node.shown_rows(conversation(node.mail, thread)))
        }),
{
    let thread = node.conversations(with, limit)[i].thread_id;
    a_whole_id_names_its_message(node.mail, thread);
    a_listed_conversation_has_messages(node, with, limit, i);
}

impl ConversationSummary {
    /// A conversation, as the list shows it.
    pub fn of(c: &Conversation) -> (out: ConversationSummary)
        ensures
            out@ == conversation_shown(c@),
    {
        let mut participants: Vec<String> = Vec::new();
        let mut i: usize = 0;
        while i < c.participants.len()
            invariant
                i <= c.participants.len(),
                participants.len() == i,
                forall|j: int|
                    0 <= j < i ==> (#[trigger] participants@[j])@ == node_text(c.participants@[j]),
            decreases c.participants.len() - i,
        {
            participants.push(c.participants[i].to_string());
            i += 1;
        }
        assert(texts(participants@) =~= c@.participants.map_values(|id: NodeId| node_text(id)));
        ConversationSummary {
            thread_id: c.thread_id.to_string(),
            subject: c.subject.clone(),
            participants,
            messages: c.messages,
            unread: c.unread,
            last_id: c.last_id.to_string(),
            last_from: c.last_from.to_string(),
            last_sender_kind: c.last_sender_kind.as_str().to_owned(),
            last_at: c.last_at,
        }
    }
}

/// The conversations, the one that moved last first.
pub fn list_threads(service: &MailService, params: &ListThreadsParams) -> (out: Result<
    Vec<ConversationSummary>,
    Problem,
>)
    requires
        service.wf(),
    ensures
        match out {
            Ok(rows) => service@.threads_listed(params@) == Ok::<_, ProblemV>(views(rows@)),
            Err(why) => service@.threads_listed(params@) == Err::<
                Seq<ConversationSummaryV>,
                _,
            >(why@),
        },
{
    let with = match &params.with {
        None => None,
        Some(typed) => {
            let name = trim(typed.as_str());
            let met = match service.resolve_peer(name.as_str()) {
                Ok(id) => if service.has_met(id) {
                    Some(id)
                } else {
                    None
                },
                Err(_) => None,
            };
            if met.is_none() {
                let mut detail = "`".to_owned();
                detail.append(typed.as_str());
                detail.append(
                    "` is not a machine this node knows; `with` takes a node id, whole or in its short form",
                );
                return Err(Problem::new(ProblemType::InvalidQuery, detail));
            }
            met
        },
    };
    let found = service.conversations(with, params.limit);
    let mut out: Vec<ConversationSummary> = Vec::new();
    let mut i: usize = 0;
    while i < found.len()
        invariant
            i <= found.len(),
            out.len() == i,
            forall|j: int| 0 <= j < i ==> (#[trigger] out@[j])@ == conversation_shown(found@[j]@),
        decreases found.len() - i,
    {
        out.push(ConversationSummary::of(&found[i]));
        i += 1;
    }
    proof {
        let want = service@.conversations(with, params.limit).map_values(
            |c: ConversationV| conversation_shown(c),
        );
        assert forall|j: int| 0 <= j < out.len() implies #[trigger] views(out@)[j] == want[j] by {
            assert(found@[j]@ == service@.conversations(with, params.limit)[j]);
        }
        assert(views(out@) =~= want);
    }
    Ok(out)
}

/// One conversation, by its id or that of any message in it.
pub fn get_thread(service: &MailService, typed: &str) -> (out: Result<
    Vec<MessageSummary>,
    Problem,
>)
    requires
        service.wf(),
    ensures
        match out {
            Ok(rows) => service@.thread_opened(typed@) == Ok::<_, ProblemV>(views(rows@)),
            Err(why) => service@.thread_opened(typed@) == Err::<Seq<MessageSummaryV>, _>(why@),
        },
{
    match service.resolve_message(typed) {
        Err(error) => Err(Problem::from_error(&error)),
        Ok(id) => match service.thread_of(id) {
            Ok(rows) => Ok(service.show_rows(&rows)),
            Err(error) => {
                let rows = service.thread(id);
                assert(views(rows@).len() == rows.len());
                if rows.len() > 0 {
                    Ok(service.show_rows(&rows))
                } else {
                    Err(Problem::from_error(&error))
                }
            },
        },
    }
}

} // verus!
