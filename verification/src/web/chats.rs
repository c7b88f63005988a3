//! The page that lists conversations.

use crate::ids::NodeId;
use crate::service::conversations::{Conversation, ConversationV};
use crate::service::{MailService, ServiceV};
use crate::time::Timestamp;
use crate::web::{relative, Chrome, PAGE_ROWS};
use vstd::prelude::*;
use vstd::string::*;

verus! {

use crate::ids::{node_short, node_text, ulid_text};
use crate::message::views;
use crate::time::written_at;
use crate::web::how_long_ago;

/// One machine in a conversation.
#[derive(PartialEq, Eq, Debug)]
pub struct Who {
    /// Its fingerprint.
    pub id: String,
    /// Its short form.
    pub short: String,
}

/// One machine in a conversation.
#[verifier::ext_equal]
pub struct WhoV {
    /// Its fingerprint.
    pub id: Seq<char>,
    /// Its short form.
    pub short: Seq<char>,
}

impl View for Who {
    type V = WhoV;

    open spec fn view(&self) -> WhoV {
        WhoV {
            id: self.id@,
            short: self.short@,
        }
    }
}

/// One conversation, as the page shows it.
#[derive(PartialEq, Eq, Debug)]
pub struct ChatRow {
    /// The thread.
    pub thread_id: String,
    /// The subject it opened with.
    pub subject: String,
    /// The machines it is with.
    pub participants: Vec<Who>,
    /// How many messages are in it.
    pub messages: u64,
    /// How many of those are unread.
    pub unread: u64,
    /// Who wrote the most recent one.
    pub last_sender_kind: String,
    /// When it was sent, in RFC 3339.
    pub last_at: String,
    /// When it was sent, as a reader would say it.
    pub when: String,
}

/// One conversation, as the page shows it.
#[verifier::ext_equal]
pub struct ChatRowV {
    /// The thread.
    pub thread_id: Seq<char>,
    /// The subject it opened with.
    pub subject: Seq<char>,
    /// The machines it is with.
    pub participants: Seq<WhoV>,
    /// How many messages are in it.
    pub messages: u64,
    /// How many of those are unread.
    pub unread: u64,
    /// Who wrote the most recent one.
    pub last_sender_kind: Seq<char>,
    /// When it was sent, in RFC 3339.
    pub last_at: Seq<char>,
    /// When it was sent, as a reader would say it.
    pub when: Seq<char>,
}

impl View for ChatRow {
    type V = ChatRowV;

    open spec fn view(&self) -> ChatRowV {
        ChatRowV {
            thread_id: self.thread_id@,
            subject: self.subject@,
            participants: views(self.participants@),
            messages: self.messages,
            unread: self.unread,
            last_sender_kind: self.last_sender_kind@,
            last_at: self.last_at@,
            when: self.when@,
        }
    }
}

/// The conversations.
#[derive(PartialEq, Eq, Debug)]
pub struct ChatsPage {
    /// Which page it is.
    pub here: &'static str,
    /// How many messages are unread.
    pub unread: u64,
    /// This node's fingerprint.
    pub node_id: String,
    /// Its short form.
    pub short_id: String,
    /// Each of them, the one that moved last first.
    pub chats: Vec<ChatRow>,
}

/// The conversations.
#[verifier::ext_equal]
pub struct ChatsPageV {
    /// Which page it is.
    pub here: Seq<char>,
    /// How many messages are unread.
    pub unread: u64,
    /// This node's fingerprint.
    pub node_id: Seq<char>,
    /// Its short form.
    pub short_id: Seq<char>,
    /// Each of them, the one that moved last first.
    pub chats: Seq<ChatRowV>,
}

impl View for ChatsPage {
    type V = ChatsPageV;

    open spec fn view(&self) -> ChatsPageV {
        ChatsPageV {
            here: self.here@,
            unread: self.unread,
            node_id: self.node_id@,
            short_id: self.short_id@,
            chats: views(self.chats@),
        }
    }
}

/// A conversation, as the page shows it.
pub open spec fn chat_shown(c: ConversationV, now: Timestamp) -> ChatRowV {
    ChatRowV {
        thread_id: ulid_text(c.thread_id),
        subject: c.subject,
        participants: c.participants.map_values(
            |id: NodeId| WhoV { id: node_text(id), short: node_short(id) },
        ),
        messages: c.messages as u64,
        unread: c.unread as u64,
        last_sender_kind: c.last_sender_kind.name(),
        last_at: written_at(c.last_at),
        when: how_long_ago(c.last_at, now),
    }
}

impl ServiceV {
    /// The page that lists conversations.
    pub open spec fn chats_page(self, now: Timestamp) -> ChatsPageV {
        ChatsPageV {
            here: "chats"@,
            unread: self.unread(),
            node_id: node_text(self.node.id),
            short_id: node_short(self.node.id),
            chats: self.conversations(None, Some(PAGE_ROWS)).map_values(
                |c: ConversationV| chat_shown(c, now),
            ),
        }
    }
}

impl ChatRow {
    /// A conversation, as the page shows it.
    pub fn of(chat: &Conversation, now: &Timestamp) -> (out: ChatRow)
        ensures
            out@ == chat_shown(chat@, *now),
    {
        let mut participants: Vec<Who> = Vec::new();
        let mut i: usize = 0;
        while i < chat.participants.len()
            invariant
                i <= chat.participants.len(),
                participants.len() == i,
                forall|j: int|
                    0 <= j < i ==> (#[trigger] participants@[j])@ == (WhoV {
                        id: node_text(chat.participants@[j]),
                        short: node_short(chat.participants@[j]),
                    }),
            decreases chat.participants.len() - i,
        {
            let id = chat.participants[i];
            participants.push(Who { id: id.to_string(), short: id.short() });
            i += 1;
        }
        assert(views(participants@) =~= chat@.participants.map_values(
            |id: NodeId| WhoV { id: node_text(id), short: node_short(id) },
        ));
        ChatRow {
            thread_id: chat.thread_id.to_string(),
            subject: chat.subject.clone(),
            participants,
            messages: chat.messages,
            unread: chat.unread,
            last_sender_kind: chat.last_sender_kind.as_str().to_owned(),
            last_at: chat.last_at.to_rfc3339(),
            when: relative(&chat.last_at, now),
        }
    }
}

/// The conversations, the one that moved last first.
pub fn chats(service: &MailService, now: &Timestamp) -> (out: ChatsPage)
    requires
        service.wf(),
    ensures
        out@ == service@.chats_page(*now),
{
    let chrome = Chrome::new(service, "chats");
    let found = service.conversations(None, Some(PAGE_ROWS));
    let mut chats: Vec<ChatRow> = Vec::new();
    let mut i: usize = 0;
    while i < found.len()
        invariant
            i <= found.len(),
            chats.len() == i,
            forall|j: int| 0 <= j < i ==> (#[trigger] chats@[j])@ == chat_shown(found@[j]@, *now),
        decreases found.len() - i,
    {
        chats.push(ChatRow::of(&found[i], now));
        i += 1;
    }
    proof {
        let want = service@.conversations(None, Some(PAGE_ROWS)).map_values(
            |c: ConversationV| chat_shown(c, *now),
        );
        assert forall|j: int| 0 <= j < chats.len() implies #[trigger] views(chats@)[j]
            == want[j] by {
            assert(found@[j]@ == views(found@)[j]);
        }
        assert(views(chats@) =~= want);
    }
    ChatsPage {
        here: chrome.here,
        unread: chrome.unread,
        node_id: chrome.node_id,
        short_id: chrome.short_id,
        chats,
    }
}

} // verus!
