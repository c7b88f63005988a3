//! What a node says every so often: still here, still in the group, and here
//! is everybody else I know.

use crate::peer::{Proof, ProofV};
use vstd::prelude::*;

verus! {

use crate::message::views;
use crate::peer::opt_proof;
use crate::text::{opt_text, texts};

/// One node as another describes it. Nothing here is believed beyond "try this
/// address".
#[derive(PartialEq, Eq, Debug)]
pub struct PeerNote {
    /// The node's fingerprint, as text.
    pub id: String,
    /// What it calls itself.
    pub name: String,
    /// Who owns it, if it said.
    pub owner: Option<String>,
    /// Where the sender reaches it, as `host:port`, best guess first.
    pub addrs: Vec<String>,
}

/// One node as another describes it.
pub struct PeerNoteV {
    /// The node's fingerprint, as text.
    pub id: Seq<char>,
    /// What it calls itself.
    pub name: Seq<char>,
    /// Who owns it, if it said.
    pub owner: Option<Seq<char>>,
    /// Where the sender reaches it, best guess first.
    pub addrs: Seq<Seq<char>>,
}

impl View for PeerNote {
    type V = PeerNoteV;

    open spec fn view(&self) -> PeerNoteV {
        PeerNoteV {
            id: self.id@,
            name: self.name@,
            owner: opt_text(self.owner),
            addrs: texts(self.addrs@),
        }
    }
}

/// A session open on the sending machine: that there is one, and what it is
/// working on.
#[derive(PartialEq, Eq, Debug)]
pub struct SessionNote {
    /// What it is working on.
    pub label: String,
}

/// A session open on the sending machine.
pub struct SessionNoteV {
    /// What it is working on.
    pub label: Seq<char>,
}

impl View for SessionNote {
    type V = SessionNoteV;

    open spec fn view(&self) -> SessionNoteV {
        SessionNoteV { label: self.label@ }
    }
}

impl Clone for SessionNote {
    fn clone(&self) -> (out: Self)
        ensures
            out == *self,
    {
        SessionNote { label: self.label.clone() }
    }
}

/// What presence says, in both directions. The answer to a hello is a hello,
/// so one request tells each side about the other.
#[derive(PartialEq, Eq, Debug)]
pub struct Hello {
    /// The sender's node id, as text. Advisory: the identity is the
    /// certificate, and a mismatch is rejected.
    pub id: String,
    /// Its display name, which may have changed since the handshake.
    pub name: String,
    /// The owner it claims.
    pub owner: Option<String>,
    /// The version it is running.
    pub version: String,
    /// The host it can be called back on.
    pub callback_host: String,
    /// The port its peer listener is on.
    pub callback_port: u16,
    /// Fresh proof that the sender still holds the group key.
    pub proof: Option<Proof>,
    /// Everybody the sender knows.
    pub peers: Vec<PeerNote>,
    /// The sessions open on the sending machine.
    pub sessions: Vec<SessionNote>,
    /// Nodes the sender has just heard from, as a hint. Never believed: the
    /// receiver says hello to each itself.
    pub up: Vec<String>,
}

/// What presence says, in both directions.
pub struct HelloV {
    /// The sender's node id, as text.
    pub id: Seq<char>,
    /// Its display name.
    pub name: Seq<char>,
    /// The owner it claims.
    pub owner: Option<Seq<char>>,
    /// The version it is running.
    pub version: Seq<char>,
    /// The host it can be called back on.
    pub callback_host: Seq<char>,
    /// The port its peer listener is on.
    pub callback_port: u16,
    /// Fresh proof that the sender still holds the group key.
    pub proof: Option<ProofV>,
    /// Everybody the sender knows.
    pub peers: Seq<PeerNoteV>,
    /// The sessions open on the sending machine.
    pub sessions: Seq<SessionNoteV>,
    /// Nodes the sender has just heard from.
    pub up: Seq<Seq<char>>,
}

impl View for Hello {
    type V = HelloV;

    open spec fn view(&self) -> HelloV {
        HelloV {
            id: self.id@,
            name: self.name@,
            owner: opt_text(self.owner),
            version: self.version@,
            callback_host: self.callback_host@,
            callback_port: self.callback_port,
            proof: opt_proof(self.proof),
            peers: views(self.peers@),
            sessions: views(self.sessions@),
            up: texts(self.up@),
        }
    }
}

} // verus!
