//! What nodes say to each other.
//!
//! A handshake is open to anyone, because a node never met before has to be
//! able to prove that it is in the group. Everything else is for members.

use vstd::prelude::*;

pub mod hello;
pub mod router;

pub use crate::peer::hello::{Hello, HelloV, PeerNote, PeerNoteV, SessionNote, SessionNoteV};

verus! {

use crate::message::views;
use crate::text::opt_text;

/// What each side sends in a handshake.
#[derive(PartialEq, Eq, Debug)]
pub struct Handshake {
    /// The sender's node id, as text. Advisory: the identity is the
    /// certificate, and a mismatch is rejected.
    pub id: String,
    /// Its display name.
    pub name: String,
    /// The owner it claims.
    pub owner: Option<String>,
    /// The version it is running.
    pub version: String,
    /// The host it can be called back on.
    pub callback_host: String,
    /// The port its peer listener is on.
    pub callback_port: u16,
    /// Proof that the sender holds the group key, if it is in a group.
    pub proof: Option<Proof>,
    /// Everybody the sender knows, so that a node admitted this second has
    /// the group now.
    pub gossip: Vec<PeerNote>,
}

/// What each side sends in a handshake.
pub struct HandshakeV {
    /// The sender's node id, as text.
    pub id: Seq<char>,
    /// Its display name.
    pub name: Seq<char>,
    /// The owner it claims.
    pub owner: Option<Seq<char>>,
    /// The version it is running.
    pub version: Seq<char>,
    /// The host it can be called back on.
    pub callback_host: Seq<char>,
    /// The port its peer listener is on.
    pub callback_port: u16,
    /// Proof that the sender holds the group key, if it is in a group.
    pub proof: Option<ProofV>,
    /// Everybody the sender knows.
    pub gossip: Seq<PeerNoteV>,
}

impl View for Handshake {
    type V = HandshakeV;

    open spec fn view(&self) -> HandshakeV {
        HandshakeV {
            id: self.id@,
            name: self.name@,
            owner: opt_text(self.owner),
            version: self.version@,
            callback_host: self.callback_host@,
            callback_port: self.callback_port,
            proof: opt_proof(self.proof),
            gossip: views(self.gossip@),
        }
    }
}

/// Proof of the group key, bound to both certificates.
#[derive(PartialEq, Eq, Debug)]
pub struct Proof {
    /// When it was made, in milliseconds since the beginning of 1970.
    pub sent_at: i64,
    /// The authentication code, in lower-case hexadecimal.
    pub mac: String,
}

/// Proof of the group key, bound to both certificates.
pub struct ProofV {
    /// When it was made.
    pub sent_at: i64,
    /// The authentication code, in lower-case hexadecimal.
    pub mac: Seq<char>,
}

impl View for Proof {
    type V = ProofV;

    open spec fn view(&self) -> ProofV {
        ProofV { sent_at: self.sent_at, mac: self.mac@ }
    }
}

impl Clone for Proof {
    fn clone(&self) -> (out: Self)
        ensures
            out == *self,
    {
        Proof { sent_at: self.sent_at, mac: self.mac.clone() }
    }
}

/// The view of a proof that may be absent.
pub open spec fn opt_proof(offered: Option<Proof>) -> Option<ProofV> {
    match offered {
        Some(p) => Some(p@),
        None => None,
    }
}

/// What a delivery returns, so the sender can mark that recipient done.
#[derive(PartialEq, Eq, Debug)]
pub struct Delivered {
    /// The id that was received.
    pub id: String,
}

/// What a delivery returns.
pub struct DeliveredV {
    /// The id that was received.
    pub id: Seq<char>,
}

impl View for Delivered {
    type V = DeliveredV;

    open spec fn view(&self) -> DeliveredV {
        DeliveredV { id: self.id@ }
    }
}

} // verus!
