//! The address book: the nodes this one trusts, and where they might be.

use crate::ids::NodeId;
use crate::sorting::sort_by;
use crate::table::Table;
use crate::text::{chars_of, decimal_text, find, parse_number, same_opt_text, same_text, text_between};
use crate::time::Timestamp;
use vstd::prelude::*;
use vstd::string::*;

verus! {

use crate::message::views;
use crate::sorting::{filter_ends, filter_step, sorted_by, sorting_views};
use crate::text::{decimal, decimal_is_digits, decimal_reads_back, first_at, first_at_is_first, is_digit, opt_text, parsed_number, texts};

/// The port that a peer listens on unless it says otherwise.
pub const DEFAULT_PEER_PORT: u16 = 8400;

// ---------------------------------------------------------------------------
// Hosts.
// ---------------------------------------------------------------------------

/// `host[:port]` taken apart, bracketed IPv6 addresses among them.
///
/// An address with several colons and no brackets cannot be told from one with
/// a port, so it is kept whole.
pub open spec fn host_parts(s: Seq<char>, default_port: u16) -> (Seq<char>, u16) {
    if s.len() > 0 && s[0] == '[' {
        let rest = s.skip(1);
        if rest.contains(']') {
            let close = first_at(rest, ']');
            let after = rest.skip(close + 1);
            (
                rest.take(close),
                if after.len() > 0 && after[0] == ':' {
                    port_or(after.skip(1), default_port)
                } else {
                    default_port
                },
            )
        } else {
            (s, default_port)
        }
    } else if s.contains(':') && !s.skip(first_at(s, ':') + 1).contains(':') {
        let colon = first_at(s, ':');
        match parsed_number(s.skip(colon + 1), 65535) {
            Some(port) => (s.take(colon), port as u16),
            None => (s, default_port),
        }
    } else {
        (s, default_port)
    }
}

/// A port as it was typed, or the default where it is not one.
pub open spec fn port_or(s: Seq<char>, default_port: u16) -> u16 {
    match parsed_number(s, 65535) {
        Some(port) => port as u16,
        None => default_port,
    }
}

/// Split `host[:port]` into its parts, bracketed IPv6 addresses included.
pub fn split_host(host: &str, default_port: u16) -> (parts: (String, u16))
    ensures
        (parts.0@, parts.1) == host_parts(host@, default_port),
{
    let chars = chars_of(host);
    if chars.len() > 0 && chars[0] == '[' {
        let rest = text_between(&chars, 1, chars.len());
        assert(rest@ =~= host@.skip(1));
        let rest_chars = chars_of(rest.as_str());
        return match find(&rest_chars, ']') {
            None => (host.to_owned(), default_port),
            Some(close) => {
                let inside = text_between(&rest_chars, 0, close);
                assert(inside@ =~= rest@.take(close as int));
                let after = text_between(&rest_chars, close + 1, rest_chars.len());
                assert(after@ =~= rest@.skip(close + 1));
                let after_chars = chars_of(after.as_str());
                if after_chars.len() > 0 && after_chars[0] == ':' {
                    let typed = text_between(&after_chars, 1, after_chars.len());
                    assert(typed@ =~= after@.skip(1));
                    match parse_number(typed.as_str(), 65535) {
                        Some(port) => (inside, port as u16),
                        None => (inside, default_port),
                    }
                } else {
                    (inside, default_port)
                }
            },
        };
    }
    match find(&chars, ':') {
        None => (host.to_owned(), default_port),
        Some(colon) => {
            let typed = text_between(&chars, colon + 1, chars.len());
            assert(typed@ =~= host@.skip(colon + 1));
            let typed_chars = chars_of(typed.as_str());
            match find(&typed_chars, ':') {
                Some(_) => (host.to_owned(), default_port),
                None => match parse_number(typed.as_str(), 65535) {
                    Some(port) => {
                        let name = text_between(&chars, 0, colon);
                        assert(name@ =~= host@.take(colon as int));
                        (name, port as u16)
                    },
                    None => (host.to_owned(), default_port),
                },
            }
        },
    }
}

/// A host and port as one text, a host with colons in it in brackets.
pub open spec fn authority_text(host: Seq<char>, port: u16) -> Seq<char> {
    if host.contains(':') {
        seq!['['] + host + seq![']', ':'] + decimal(port as nat)
    } else {
        host + seq![':'] + decimal(port as nat)
    }
}

/// Splitting what was put together gives back the host and the port, whatever
/// the default, for a host that holds no bracket.
pub proof fn splitting_undoes_joining(host: Seq<char>, port: u16, default_port: u16)
    requires
        !host.contains('['),
        !host.contains(']'),
    ensures
        host_parts(authority_text(host, port), default_port) == (host, port),
{
    let s = authority_text(host, port);
    let digits = decimal(port as nat);
    decimal_is_digits(port as nat);
    decimal_reads_back(port as nat, 65535);
    if host.contains(':') {
        let rest = s.skip(1);
        assert(s[0] == '[');
        assert(rest =~= host + seq![']', ':'] + digits);
        assert(rest[host.len() as int] == ']');
        assert(rest.contains(']'));
        first_at_is_first(rest, ']');
        assert forall|i: int| 0 <= i < host.len() implies rest[i] != ']' by {
            assert(rest[i] == host[i]);
        }
        assert(first_at(rest, ']') == host.len());
        let after = rest.skip(host.len() as int + 1);
        assert(rest.take(host.len() as int) =~= host);
        assert(after[0] == ':');
        assert(after.skip(1) =~= digits);
    } else {
        assert(s[host.len() as int] == ':');
        assert(s.contains(':'));
        if host.len() > 0 {
            assert(s[0] == host[0]);
            assert(host.contains(host[0]));
        }
        first_at_is_first(s, ':');
        assert forall|i: int| 0 <= i < host.len() implies s[i] != ':' by {
            assert(s[i] == host[i]);
        }
        assert(first_at(s, ':') == host.len());
        let typed = s.skip(host.len() as int + 1);
        assert(typed =~= digits);
        assert(!typed.contains(':')) by {
            if typed.contains(':') {
                let k = choose|k: int| 0 <= k < typed.len() && typed[k] == ':';
                assert(is_digit(digits[k]));
            }
        }
        assert(s.take(host.len() as int) =~= host);
    }
}

// ---------------------------------------------------------------------------
// Addresses.
// ---------------------------------------------------------------------------

/// How an address was come by.
#[derive(Clone, Copy, PartialEq, Eq, Structural, Hash, Debug)]
pub enum AddrSource {
    /// Somebody named it, or the node itself did.
    Manual,
    /// It was announced on the local network.
    Mdns,
    /// Tailscale listed it.
    Tailscale,
    /// Another node passed it on.
    Gossip,
}

/// Somewhere a node might be reached.
#[derive(PartialEq, Eq, Debug)]
pub struct PeerAddr {
    /// The host, by name or by address.
    pub host: String,
    /// The port.
    pub port: u16,
    /// How it was come by.
    pub source: AddrSource,
    /// When the node last answered there, if it did.
    pub last_ok: Option<Timestamp>,
}

/// Somewhere a node might be reached.
pub struct AddrV {
    /// The host, by name or by address.
    pub host: Seq<char>,
    /// The port.
    pub port: u16,
    /// How it was come by.
    pub source: AddrSource,
    /// When the node last answered there, if it did.
    pub last_ok: Option<Timestamp>,
}

impl AddrV {
    /// The host and port as one text.
    pub open spec fn authority(self) -> Seq<char> {
        authority_text(self.host, self.port)
    }

    /// Whether two addresses are the same place.
    pub open spec fn same_place(self, other: AddrV) -> bool {
        self.host == other.host && self.port == other.port
    }

    /// Whether this address is to be tried before another: a node answered
    /// here later, or answered here and not there.
    pub open spec fn preferred_to(self, other: AddrV) -> bool {
        match (self.last_ok, other.last_ok) {
            (Some(a), Some(b)) => a@ > b@,
            (Some(_), None) => true,
            _ => false,
        }
    }
}

impl View for PeerAddr {
    type V = AddrV;

    open spec fn view(&self) -> AddrV {
        AddrV {
            host: self.host@,
            port: self.port,
            source: self.source,
            last_ok: self.last_ok,
        }
    }
}

impl Clone for PeerAddr {
    fn clone(&self) -> (out: Self)
        ensures
            out == *self,
    {
        PeerAddr {
            host: self.host.clone(),
            port: self.port,
            source: self.source,
            last_ok: self.last_ok,
        }
    }
}

impl PeerAddr {
    /// An address somebody named.
    pub fn manual(host: &str, port: u16) -> (out: Self)
        ensures
            out@ == (AddrV { host: host@, port, source: AddrSource::Manual, last_ok: None }),
    {
        PeerAddr { host: host.to_owned(), port, source: AddrSource::Manual, last_ok: None }
    }

    /// The host and port as one text.
    pub fn authority(&self) -> (out: String)
        ensures
            out@ == self@.authority(),
    {
        let chars = chars_of(self.host.as_str());
        let port = decimal_text(self.port as u64);
        let mut out = String::new();
        match find(&chars, ':') {
            Some(_) => {
                out.push('[');
                out.append(self.host.as_str());
                out.push(']');
                out.push(':');
                out.append(port.as_str());
                assert(out@ =~= seq!['['] + self.host@ + seq![']', ':'] + port@);
            },
            None => {
                out.append(self.host.as_str());
                out.push(':');
                out.append(port.as_str());
                assert(out@ =~= self.host@ + seq![':'] + port@);
            },
        }
        out
    }

    /// Whether two addresses are the same place.
    pub fn same_place(&self, other: &PeerAddr) -> (r: bool)
        ensures
            r == self@.same_place(other@),
    {
        self.port == other.port && self.host == other.host
    }

    /// Whether this address is to be tried before another.
    pub fn preferred_to(&self, other: &PeerAddr) -> (r: bool)
        ensures
            r == self@.preferred_to(other@),
    {
        match (&self.last_ok, &other.last_ok) {
            (Some(a), Some(b)) => a.nanos() > b.nanos(),
            (Some(_), None) => true,
            _ => false,
        }
    }
}

/// Addresses in the order in which to try them.
pub open spec fn by_preference(addrs: Seq<AddrV>) -> Seq<AddrV> {
    sorted_by(addrs, |a: AddrV, b: AddrV| a.preferred_to(b))
}

/// The addresses as texts.
pub open spec fn authorities(addrs: Seq<AddrV>) -> Seq<Seq<char>> {
    addrs.map_values(|a: AddrV| a.authority())
}

/// The addresses as texts.
pub fn authorities_of(addrs: &Vec<PeerAddr>) -> (out: Vec<String>)
    ensures
        texts(out@) == authorities(views(addrs@)),
{
    let mut out: Vec<String> = Vec::new();
    let mut i: usize = 0;
    while i < addrs.len()
        invariant
            i <= addrs.len(),
            out.len() == i,
            forall|j: int| 0 <= j < i ==> (#[trigger] out@[j])@ == addrs@[j]@.authority(),
        decreases addrs.len() - i,
    {
        out.push(addrs[i].authority());
        i += 1;
    }
    assert(texts(out@) =~= authorities(views(addrs@)));
    out
}

// ---------------------------------------------------------------------------
// Peers.
// ---------------------------------------------------------------------------

/// A node this one trusts.
#[derive(PartialEq, Eq, Debug)]
pub struct Peer {
    /// Its identity.
    pub id: NodeId,
    /// What it calls itself.
    pub name: String,
    /// Who it says owns it.
    pub owner: Option<String>,
    /// Its certificate, which the identity is the fingerprint of.
    pub certificate: Vec<u8>,
    /// Where it might be.
    pub addrs: Vec<PeerAddr>,
    /// When it was first trusted.
    pub paired_at: Timestamp,
    /// When it was last heard from.
    pub last_seen: Option<Timestamp>,
}

/// A node this one trusts.
pub struct PeerV {
    /// Its identity.
    pub id: NodeId,
    /// What it calls itself.
    pub name: Seq<char>,
    /// Who it says owns it.
    pub owner: Option<Seq<char>>,
    /// Its certificate.
    pub certificate: Seq<u8>,
    /// Where it might be.
    pub addrs: Seq<AddrV>,
    /// When it was first trusted.
    pub paired_at: Timestamp,
    /// When it was last heard from.
    pub last_seen: Option<Timestamp>,
}

impl PeerV {
    /// The peer under what it now calls itself.
    pub open spec fn relabelled(self, name: Seq<char>, owner: Option<Seq<char>>) -> Self {
        PeerV { name, owner, ..self }
    }

    /// Whether the peer is known to be at a place.
    pub open spec fn is_at(self, addr: AddrV) -> bool {
        exists|i: int| 0 <= i < self.addrs.len() && (#[trigger] self.addrs[i]).same_place(addr)
    }

    /// The peer with one more place to look; a place already known is kept as
    /// it is.
    pub open spec fn learned(self, addr: AddrV) -> Self {
        if self.is_at(addr) {
            self
        } else {
            PeerV { addrs: self.addrs.push(addr), ..self }
        }
    }

    /// The peer after it answered at an address.
    pub open spec fn reached(self, authority: Seq<char>, at: Timestamp) -> Self {
        PeerV {
            addrs: self.addrs.map_values(
                |a: AddrV|
                    if a.authority() == authority {
                        AddrV { last_ok: Some(at), ..a }
                    } else {
                        a
                    },
            ),
            ..self
        }
    }

    /// The peer after it was heard from.
    pub open spec fn heard(self, at: Timestamp) -> Self {
        PeerV { last_seen: Some(at), ..self }
    }

    /// The peer without an address.
    pub open spec fn without_addr(self, authority: Seq<char>) -> Self {
        PeerV { addrs: self.addrs.filter(|a: AddrV| a.authority() != authority), ..self }
    }
}

impl View for Peer {
    type V = PeerV;

    open spec fn view(&self) -> PeerV {
        PeerV {
            id: self.id,
            name: self.name@,
            owner: opt_text(self.owner),
            certificate: self.certificate@,
            addrs: views(self.addrs@),
            paired_at: self.paired_at,
            last_seen: self.last_seen,
        }
    }
}

impl Clone for Peer {
    fn clone(&self) -> (out: Self)
        ensures
            out@ == self@,
    {
        let out = Peer {
            id: self.id,
            name: self.name.clone(),
            owner: self.owner.clone(),
            certificate: self.certificate.clone(),
            addrs: self.addrs.clone(),
            paired_at: self.paired_at,
            last_seen: self.last_seen,
        };
        assert(out.addrs@ =~= self.addrs@);
        assert(out.certificate@ =~= self.certificate@);
        out
    }
}

/// An owned copy of a name that may be absent.
pub fn owned(name: Option<&str>) -> (out: Option<String>)
    ensures
        match (name, out) {
            (Some(a), Some(b)) => a@ == b@,
            (None, None) => true,
            _ => false,
        },
{
    match name {
        Some(s) => Some(s.to_owned()),
        None => None,
    }
}

/// The view of a borrowed name that may be absent.
pub open spec fn opt_str(name: Option<&str>) -> Option<Seq<char>> {
    match name {
        Some(s) => Some(s@),
        None => None,
    }
}

impl Peer {
    /// Take what the peer now calls itself. Says whether that is news.
    pub fn relabel(&mut self, name: &str, owner: Option<&str>) -> (changed: bool)
        ensures
            final(self)@ == old(self)@.relabelled(name@, opt_str(owner)),
            changed == (final(self)@ != old(self)@),
    {
        let new_owner = owned(owner);
        if same_text(self.name.as_str(), name) && same_opt_text(&self.owner, &new_owner) {
            return false;
        }
        self.name = name.to_owned();
        self.owner = new_owner;
        assert(self@.name != old(self)@.name || self@.owner != old(self)@.owner);
        true
    }

    /// Remember one more place to look.
    pub fn learn_addr(&mut self, addr: PeerAddr)
        ensures
            final(self)@ == old(self)@.learned(addr@),
    {
        let mut i: usize = 0;
        while i < self.addrs.len()
            invariant
                i <= self.addrs.len(),
                *self == *old(self),
                forall|j: int| 0 <= j < i ==> !(#[trigger] self@.addrs[j]).same_place(addr@),
            decreases self.addrs.len() - i,
        {
            assert(self@.addrs[i as int] == self.addrs@[i as int]@);
            if self.addrs[i].same_place(&addr) {
                return;
            }
            i += 1;
        }
        let ghost before = self.addrs@;
        self.addrs.push(addr);
        assert(views(self.addrs@) =~= views(before).push(addr@));
    }

    /// Note that the peer answered at an address.
    pub fn mark_reached(&mut self, authority: &str, at: Timestamp)
        ensures
            final(self)@ == old(self)@.reached(authority@, at),
    {
        let mut i: usize = 0;
        while i < self.addrs.len()
            invariant
                i <= self.addrs.len(),
                self.addrs.len() == old(self).addrs.len(),
                self@ == (PeerV { addrs: self@.addrs, ..old(self)@ }),
                forall|j: int|
                    i <= j < self.addrs.len() ==> #[trigger] self.addrs@[j] == old(self).addrs@[j],
                forall|j: int|
                    0 <= j < i ==> (#[trigger] self.addrs@[j])@ == old(self)@.reached(
                        authority@,
                        at,
                    ).addrs[j],
            decreases self.addrs.len() - i,
        {
            let here = self.addrs[i].authority();
            if same_text(here.as_str(), authority) {
                let mut addr = self.addrs[i].clone();
                addr.last_ok = Some(at);
                self.addrs.set(i, addr);
            }
            i += 1;
        }
        assert(self@.addrs =~= old(self)@.reached(authority@, at).addrs);
    }

    /// The addresses, in the order in which to try them.
    pub fn addrs_by_preference(&self) -> (out: Vec<PeerAddr>)
        ensures
            views(out@) == by_preference(self@.addrs),
    {
        let list = self.addrs.clone();
        assert(list@ =~= self.addrs@);
        let ghost before = |a: PeerAddr, b: PeerAddr| a@.preferred_to(b@);
        proof {
            sorting_views(list@, before, |a: AddrV, b: AddrV| a.preferred_to(b));
        }
        let order = |a: &PeerAddr, b: &PeerAddr| -> (r: bool)
            ensures
                r == a@.preferred_to(b@),
            { a.preferred_to(b) };
        sort_by(list, order, Ghost(before))
    }

    /// Forget an address. Says whether it was there.
    pub fn forget_addr(&mut self, authority: &str) -> (gone: bool)
        ensures
            final(self)@ == old(self)@.without_addr(authority@),
            gone == exists|i: int|
                0 <= i < old(self)@.addrs.len() && (#[trigger] old(self)@.addrs[i]).authority()
                    == authority@,
    {
        let ghost keep = |a: AddrV| a.authority() != authority@;
        let mut kept: Vec<PeerAddr> = Vec::new();
        let mut gone = false;
        let mut i: usize = 0;
        proof {
            filter_ends(self@.addrs, keep);
            assert(views(kept@) =~= Seq::<AddrV>::empty());
        }
        while i < self.addrs.len()
            invariant
                i <= self.addrs.len(),
                *self == *old(self),
                keep == (|a: AddrV| a.authority() != authority@),
                views(kept@) == self@.addrs.take(i as int).filter(keep),
                gone == exists|j: int|
                    0 <= j < i && (#[trigger] self@.addrs[j]).authority() == authority@,
            decreases self.addrs.len() - i,
        {
            let addr = self.addrs[i].clone();
            let here = addr.authority();
            assert(self@.addrs[i as int] == addr@);
            proof {
                filter_step(self@.addrs, keep, i as int);
            }
            if same_text(here.as_str(), authority) {
                gone = true;
            } else {
                let ghost before = kept@;
                kept.push(addr);
                assert(views(kept@) =~= views(before).push(addr@));
            }
            i += 1;
        }
        proof {
            filter_ends(self@.addrs, keep);
        }
        self.addrs = kept;
        gone
    }
}

// ---------------------------------------------------------------------------
// The book.
// ---------------------------------------------------------------------------

/// An address that was in the book and is not used, because it points at this
/// node.
#[derive(PartialEq, Eq, Debug)]
pub struct Discarded {
    /// Whose address it was said to be.
    pub peer: NodeId,
    /// The address.
    pub authority: String,
}

/// An address that was in the book and is not used.
pub struct DiscardedV {
    /// Whose address it was said to be.
    pub peer: NodeId,
    /// The address.
    pub authority: Seq<char>,
}

impl View for Discarded {
    type V = DiscardedV;

    open spec fn view(&self) -> DiscardedV {
        DiscardedV { peer: self.peer, authority: self.authority@ }
    }
}

impl Clone for Discarded {
    fn clone(&self) -> (out: Self)
        ensures
            out == *self,
    {
        Discarded { peer: self.peer, authority: self.authority.clone() }
    }
}

/// Whether every peer is filed under its own identity.
fn peers_are_filed(table: &Table<NodeId, Peer>) -> (r: bool)
    ensures
        r == (table.wf() && forall|id: NodeId| #[trigger]
            table.map().contains_key(id) ==> table.map()[id].id == id),
{
    if !table.is_sound() {
        return false;
    }
    let n: usize = table.len();
    let mut i: usize = 0;
    while i < n
        invariant
            table.wf(),
            n == table.keys().len(),
            i <= n,
            forall|j: int|
                0 <= j < i ==> table.map()[#[trigger] table.keys()[j]].id == table.keys()[j],
        decreases n - i,
    {
        if table.value_at(i).id != table.key_at(i) {
            return false;
        }
        i += 1;
    }
    proof {
        table.keys_are_the_domain();
        assert forall|id: NodeId| #[trigger]
            table.map().contains_key(id) implies table.map()[id].id == id by {
            let k = table.keys().index_of(id);
            assert(table.keys()[k] == id);
        }
    }
    true
}

/// The nodes this one trusts, in the order of their identities.
#[derive(Debug)]
pub struct PeerBook {
    /// The peers.
    pub peers: Table<NodeId, Peer>,
    /// The addresses that were read and are not used.
    pub discarded: Vec<Discarded>,
}

/// The nodes this one trusts.
#[verifier::ext_equal]
pub struct BookV {
    /// The peers.
    pub peers: Map<NodeId, PeerV>,
    /// The addresses that were read and are not used.
    pub discarded: Seq<DiscardedV>,
}

impl BookV {
    /// Every peer is filed under its own identity, and there is an end to them.
    pub open spec fn wf(self) -> bool {
        &&& self.peers.dom().finite()
        &&& forall|id: NodeId| #[trigger] self.peers.contains_key(id) ==> self.peers[id].id == id
    }

    /// The book with a peer changed or added.
    pub open spec fn with(self, peer: PeerV) -> Self {
        BookV { peers: self.peers.insert(peer.id, peer), ..self }
    }

    /// The book without a peer.
    pub open spec fn without(self, id: NodeId) -> Self {
        BookV { peers: self.peers.remove(id), ..self }
    }

    /// Whether an address is one of a peer's, in use or not.
    pub open spec fn has_addr(self, id: NodeId, authority: Seq<char>) -> bool {
        ||| exists|i: int|
            0 <= i < self.peers[id].addrs.len() && (#[trigger] self.peers[id].addrs[i]).authority()
                == authority
        ||| exists|i: int|
            0 <= i < self.discarded.len() && (#[trigger] self.discarded[i]).peer == id
                && self.discarded[i].authority == authority
    }

    /// The book after one of a peer's addresses was forgotten.
    pub open spec fn without_addr(self, id: NodeId, authority: Seq<char>) -> Self {
        BookV {
            peers: self.peers.insert(id, self.peers[id].without_addr(authority)),
            discarded: self.discarded.filter(
                |d: DiscardedV| !(d.peer == id && d.authority == authority),
            ),
        }
    }
}

impl View for PeerBook {
    type V = BookV;

    open spec fn view(&self) -> BookV {
        BookV { peers: self.peers.map(), discarded: views(self.discarded@) }
    }
}

impl PeerBook {
    /// The table is well formed and every peer is filed under its identity.
    pub open spec fn wf(&self) -> bool {
        self.peers.wf() && self@.wf()
    }

    /// Whether the table is well formed and every peer is filed under its
    /// identity.
    pub fn is_sound(&self) -> (r: bool)
        ensures
            r == self.wf(),
    {
        let r = peers_are_filed(&self.peers);
        proof {
            if r {
                self.peers.keys_are_counted();
            }
        }
        r
    }

    /// A book with nobody in it.
    pub fn new() -> (out: Self)
        ensures
            out.wf(),
            out@ == (BookV { peers: Map::empty(), discarded: seq![] }),
    {
        let out = PeerBook { peers: Table::new(), discarded: Vec::new() };
        assert(out@.discarded =~= seq![]);
        out
    }

    /// Add a peer, or put it in place of the one with its identity.
    pub fn insert_peer(&mut self, peer: Peer)
        requires
            old(self).wf(),
        ensures
            final(self).wf(),
            final(self)@ == old(self)@.with(peer@),
    {
        self.peers.insert(peer.id, peer);
    }

    /// Remove a peer. Says whether it was there.
    pub fn remove_peer(&mut self, id: NodeId) -> (was_there: bool)
        requires
            old(self).wf(),
        ensures
            final(self).wf(),
            final(self)@ == old(self)@.without(id),
            was_there == old(self)@.peers.contains_key(id),
    {
        self.peers.remove(&id).is_some()
    }

    /// A copy of a peer, if it is there.
    pub fn peer(&self, id: &NodeId) -> (out: Option<Peer>)
        requires
            self.wf(),
        ensures
            match out {
                Some(peer) => self@.peers.contains_key(*id) && peer@ == self@.peers[*id]
                    && peer.id == *id,
                None => !self@.peers.contains_key(*id),
            },
    {
        match self.peers.get(id) {
            Some(peer) => Some(peer.clone()),
            None => None,
        }
    }

    /// Forget one of a peer's addresses, in use or not. Says whether it was
    /// there.
    pub fn forget_addr(&mut self, id: NodeId, authority: &str) -> (gone: bool)
        requires
            old(self).wf(),
            old(self)@.peers.contains_key(id),
        ensures
            final(self).wf(),
            final(self)@ == old(self)@.without_addr(id, authority@),
            gone == old(self)@.has_addr(id, authority@),
    {
        let ghost before = self@;
        let mut gone = false;
        match self.peer(&id) {
            None => {},
            Some(mut peer) => {
                gone = peer.forget_addr(authority);
                self.peers.insert(id, peer);
            },
        }
        let ghost keep = |d: DiscardedV| !(d.peer == id && d.authority == authority@);
        let ghost was = gone;
        let mut kept: Vec<Discarded> = Vec::new();
        let mut i: usize = 0;
        proof {
            filter_ends(views(self.discarded@), keep);
            assert(views(kept@) =~= Seq::<DiscardedV>::empty());
        }
        while i < self.discarded.len()
            invariant
                i <= self.discarded.len(),
                self.peers.wf(),
                self@ == (BookV {
                    peers: before.peers.insert(id, before.peers[id].without_addr(authority@)),
                    discarded: before.discarded,
                }),
                before.wf(),
                before.peers.contains_key(id),
                keep == (|d: DiscardedV| !(d.peer == id && d.authority == authority@)),
                views(kept@) == before.discarded.take(i as int).filter(keep),
                gone == (was || exists|j: int|
                    0 <= j < i && (#[trigger] before.discarded[j]).peer == id
                        && before.discarded[j].authority == authority@),
            decreases self.discarded.len() - i,
        {
            let item = self.discarded[i].clone();
            assert(before.discarded[i as int] == item@);
            proof {
                filter_step(before.discarded, keep, i as int);
            }
            if item.peer == id && same_text(item.authority.as_str(), authority) {
                gone = true;
            } else {
                let ghost earlier = kept@;
                kept.push(item);
                assert(views(kept@) =~= views(earlier).push(item@));
            }
            i += 1;
        }
        proof {
            filter_ends(before.discarded, keep);
        }
        self.discarded = kept;
        gone
    }
}

} // verus!
