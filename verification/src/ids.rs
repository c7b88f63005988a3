//! The names of things: nodes, messages, files and groups.

use crate::encoding::{
    base32_decode, base32_encode, bytes_of, group, hex_decode, hex_encode, to_lower_text, to_upper,
    ungroup, value_of,
};
use crate::table::Key;
use crate::text::{chars_of, eq_ignore_ascii_case, same_text, text_between};
use vstd::prelude::*;
use vstd::string::*;

verus! {

use crate::encoding::{
    base32_case_round_trip, base32_text, be_bound_of_sixteen, be_bytes, be_bytes_len,
    be_bytes_of_value, be_value, be_value_of_bytes, grouped, hex_text, ungrouped,
    ungrouping_undoes_grouping, upper,
};
use crate::text::{lower, same_name};

/// Thirty-two bytes as two numbers, the more significant half first.
pub open spec fn thirty_two(hi: u128, lo: u128) -> Seq<u8> {
    be_bytes(hi as nat, 16) + be_bytes(lo as nat, 16)
}

proof fn lemma_thirty_two(hi: u128, lo: u128)
    ensures
        thirty_two(hi, lo).len() == 32,
        thirty_two(hi, lo).subrange(0, 16) == be_bytes(hi as nat, 16),
        thirty_two(hi, lo).subrange(16, 32) == be_bytes(lo as nat, 16),
        be_value(thirty_two(hi, lo).subrange(0, 16)) == hi,
        be_value(thirty_two(hi, lo).subrange(16, 32)) == lo,
{
    be_bound_of_sixteen();
    be_value_of_bytes(hi as nat, 16);
    be_value_of_bytes(lo as nat, 16);
    assert(thirty_two(hi, lo).subrange(0, 16) =~= be_bytes(hi as nat, 16));
    assert(thirty_two(hi, lo).subrange(16, 32) =~= be_bytes(lo as nat, 16));
}

proof fn lemma_thirty_two_back(bytes: Seq<u8>)
    requires
        bytes.len() == 32,
    ensures
        be_value(bytes.subrange(0, 16)) <= u128::MAX,
        be_value(bytes.subrange(16, 32)) <= u128::MAX,
        thirty_two(
            be_value(bytes.subrange(0, 16)) as u128,
            be_value(bytes.subrange(16, 32)) as u128,
        ) == bytes,
{
    be_bound_of_sixteen();
    be_bytes_of_value(bytes.subrange(0, 16));
    be_bytes_of_value(bytes.subrange(16, 32));
    assert(bytes =~= bytes.subrange(0, 16) + bytes.subrange(16, 32));
}

fn thirty_two_bytes(hi: u128, lo: u128) -> (out: Vec<u8>)
    ensures
        out@ == thirty_two(hi, lo),
{
    let mut out = bytes_of(hi, 16);
    let mut rest = bytes_of(lo, 16);
    out.append(&mut rest);
    out
}

// ---------------------------------------------------------------------------
// Nodes.
// ---------------------------------------------------------------------------

/// A node's identity: the SHA-256 of its certificate, as two numbers.
#[derive(Clone, Copy, PartialEq, Eq, Structural, PartialOrd, Ord, Hash, Debug)]
pub struct NodeId {
    /// The first sixteen bytes.
    pub hi: u128,
    /// The last sixteen bytes.
    pub lo: u128,
}

impl View for NodeId {
    type V = NodeId;

    open spec fn view(&self) -> NodeId {
        *self
    }
}

/// How a node's identity is written: `hm1:` and the base32 of its bytes, in
/// lower case and in groups of four.
pub open spec fn node_text(id: NodeId) -> Seq<char> {
    "hm1:"@ + grouped(node_letters(id))
}

/// The letters of a node's identity, without prefix or hyphens.
pub open spec fn node_letters(id: NodeId) -> Seq<char> {
    lower(base32_text(id.bytes()))
}

/// The short form: the first eight letters.
pub open spec fn node_short(id: NodeId) -> Seq<char> {
    node_letters(id).take(8)
}

/// The node that text names in full, if it names one.
pub open spec fn named_node(s: Seq<char>) -> Option<NodeId> {
    if exists|id: NodeId| node_text(id) == s {
        Some(choose|id: NodeId| node_text(id) == s)
    } else {
        None
    }
}

impl NodeId {
    /// The bytes of the identity.
    pub open spec fn bytes(self) -> Seq<u8> {
        thirty_two(self.hi, self.lo)
    }

    /// The node with these thirty-two bytes.
    pub fn from_bytes(bytes: &Vec<u8>) -> (id: Option<NodeId>)
        ensures
            match id {
                Some(id) => id.bytes() == bytes@,
                None => bytes.len() != 32,
            },
    {
        if bytes.len() != 32 {
            return None;
        }
        proof {
            lemma_thirty_two_back(bytes@);
        }
        Some(NodeId { hi: value_of(bytes, 0), lo: value_of(bytes, 16) })
    }

    fn letters(&self) -> (out: String)
        ensures
            out@ == node_letters(*self),
            out@.len() == 52,
    {
        let bytes = thirty_two_bytes(self.hi, self.lo);
        proof {
            lemma_thirty_two(self.hi, self.lo);
        }
        to_lower_text(base32_encode(&bytes).as_str())
    }

    /// The identity as text.
    pub fn to_string(&self) -> (out: String)
        ensures
            out@ == node_text(*self),
    {
        let letters = self.letters();
        let groups = group(letters.as_str());
        let mut out = "hm1:".to_owned();
        out.append(groups.as_str());
        out
    }

    /// The short form.
    pub fn short(&self) -> (out: String)
        ensures
            out@ == node_short(*self),
    {
        let letters = self.letters();
        let chars = chars_of(letters.as_str());
        assert(chars@.subrange(0, 8) =~= chars@.take(8));
        text_between(&chars, 0, 8)
    }

    /// The node that text names in full, if it names one.
    pub fn parse(s: &str) -> (id: Option<NodeId>)
        ensures
            id == named_node(s@),
    {
        let chars = chars_of(s);
        proof {
            reveal_strlit("hm1:");
            assert forall|id: NodeId| #[trigger] node_text(id) == s@ implies s@.len() >= 4
                && ungrouped(s@.subrange(4, s@.len() as int)) == node_letters(id) by {
                base32_case_round_trip(id.bytes());
                ungrouping_undoes_grouping(node_letters(id));
                assert(s@.subrange(4, s@.len() as int) =~= grouped(node_letters(id)));
            }
        }
        if chars.len() < 4 {
            return None;
        }
        let rest = text_between(&chars, 4, chars.len());
        let letters = to_upper(ungroup(rest.as_str()).as_str());
        proof {
            assert forall|id: NodeId| #[trigger] node_text(id) == s@ implies base32_text(
                id.bytes(),
            ) == letters@ by {
                base32_case_round_trip(id.bytes());
            }
        }
        match base32_decode(letters.as_str()) {
            None => None,
            Some(bytes) => match NodeId::from_bytes(&bytes) {
                None => {
                    proof {
                        assert forall|id: NodeId| #[trigger] node_text(id) != s@ by {
                            lemma_thirty_two(id.hi, id.lo);
                        }
                    }
                    None
                },
                Some(found) => {
                    let written = found.to_string();
                    proof {
                        assert forall|id: NodeId| #[trigger] node_text(id) == s@ implies id
                            == found by {
                            lemma_thirty_two(id.hi, id.lo);
                            lemma_thirty_two(found.hi, found.lo);
                        }
                    }
                    if same_text(written.as_str(), s) {
                        assert(node_text(found) == s@);
                        Some(found)
                    } else {
                        None
                    }
                },
            },
        }
    }
}

/// A node's identity reads back from its text.
pub proof fn node_text_reads_back(id: NodeId)
    ensures
        named_node(node_text(id)) == Some(id),
{
    node_text_is_injective();
}

/// No two nodes are written alike.
pub proof fn node_text_is_injective()
    ensures
        forall|a: NodeId, b: NodeId| #[trigger]
            node_text(a) == #[trigger] node_text(b) ==> a == b,
{
    assert forall|a: NodeId, b: NodeId| #[trigger] node_text(a) == #[trigger] node_text(b) implies a
        == b by {
        reveal_strlit("hm1:");
        let g = grouped(node_letters(a));
        let h = grouped(node_letters(b));
        assert(g =~= node_text(a).skip(4));
        assert(h =~= node_text(b).skip(4));
        base32_case_round_trip(a.bytes());
        base32_case_round_trip(b.bytes());
        ungrouping_undoes_grouping(node_letters(a));
        ungrouping_undoes_grouping(node_letters(b));
        crate::encoding::base32_is_injective(a.bytes(), b.bytes());
        lemma_thirty_two(a.hi, a.lo);
        lemma_thirty_two(b.hi, b.lo);
    }
}

impl Key for NodeId {
    open spec fn rank(self) -> int {
        self.hi * 0x1_0000_0000_0000_0000_0000_0000_0000_0000int + self.lo
    }

    proof fn rank_is_injective(a: Self, b: Self) {
    }

    fn precedes(&self, other: &Self) -> (r: bool) {
        self.hi < other.hi || (self.hi == other.hi && self.lo < other.lo)
    }
}

// ---------------------------------------------------------------------------
// Files.
// ---------------------------------------------------------------------------

/// The SHA-256 of a file's bytes, which is also its name in the blob store.
#[derive(Clone, Copy, PartialEq, Eq, Structural, PartialOrd, Ord, Hash, Debug)]
pub struct Sha256Digest {
    /// The first sixteen bytes.
    pub hi: u128,
    /// The last sixteen bytes.
    pub lo: u128,
}

impl View for Sha256Digest {
    type V = Sha256Digest;

    open spec fn view(&self) -> Sha256Digest {
        *self
    }
}

/// A digest in lower-case hexadecimal.
pub open spec fn digest_text(d: Sha256Digest) -> Seq<char> {
    hex_text(d.bytes())
}

/// The digest that text is the hexadecimal of, if it is one.
pub open spec fn named_digest(s: Seq<char>) -> Option<Sha256Digest> {
    if exists|d: Sha256Digest| digest_text(d) == s {
        Some(choose|d: Sha256Digest| digest_text(d) == s)
    } else {
        None
    }
}

impl Sha256Digest {
    /// The bytes of the digest.
    pub open spec fn bytes(self) -> Seq<u8> {
        thirty_two(self.hi, self.lo)
    }

    /// The digest in hexadecimal.
    pub fn to_hex(&self) -> (out: String)
        ensures
            out@ == digest_text(*self),
    {
        let bytes = thirty_two_bytes(self.hi, self.lo);
        proof {
            lemma_thirty_two(self.hi, self.lo);
        }
        hex_encode(&bytes)
    }

    /// The digest that text is the hexadecimal of, if it is one.
    pub fn parse(s: &str) -> (d: Option<Sha256Digest>)
        ensures
            d == named_digest(s@),
    {
        match hex_decode(s) {
            None => {
                assert forall|d: Sha256Digest| #[trigger] digest_text(d) != s@ by {}
                None
            },
            Some(bytes) => {
                if bytes.len() != 32 {
                    proof {
                        assert forall|d: Sha256Digest| #[trigger] digest_text(d) != s@ by {
                            lemma_thirty_two(d.hi, d.lo);
                        }
                    }
                    None
                } else {
                    proof {
                        lemma_thirty_two_back(bytes@);
                    }
                    let found = Sha256Digest { hi: value_of(&bytes, 0), lo: value_of(&bytes, 16) };
                    proof {
                        assert(digest_text(found) == s@);
                        assert forall|d: Sha256Digest| #[trigger] digest_text(d) == s@ implies d
                            == found by {
                            lemma_thirty_two(d.hi, d.lo);
                            lemma_thirty_two(found.hi, found.lo);
                        }
                    }
                    Some(found)
                }
            },
        }
    }
}

impl Key for Sha256Digest {
    open spec fn rank(self) -> int {
        self.hi * 0x1_0000_0000_0000_0000_0000_0000_0000_0000int + self.lo
    }

    proof fn rank_is_injective(a: Self, b: Self) {
    }

    fn precedes(&self, other: &Self) -> (r: bool) {
        self.hi < other.hi || (self.hi == other.hi && self.lo < other.lo)
    }
}

/// A digest reads back from its hexadecimal.
pub proof fn digest_text_reads_back(d: Sha256Digest)
    ensures
        named_digest(digest_text(d)) == Some(d),
{
    assert forall|e: Sha256Digest| #[trigger] digest_text(e) == digest_text(d) implies e == d by {
        crate::encoding::hex_is_injective(e.bytes(), d.bytes());
        lemma_thirty_two(d.hi, d.lo);
        lemma_thirty_two(e.hi, e.lo);
    }
}

// ---------------------------------------------------------------------------
// Messages.
// ---------------------------------------------------------------------------

/// A message's id: a ULID, which begins with the moment it was made.
#[derive(Clone, Copy, PartialEq, Eq, Structural, PartialOrd, Ord, Hash, Debug)]
pub struct Ulid {
    /// All 128 bits: 48 of time in milliseconds, then 80 of chance.
    pub value: u128,
}

impl View for Ulid {
    type V = Ulid;

    open spec fn view(&self) -> Ulid {
        *self
    }
}

/// The character for a number below 32: digits, then letters without I, L, O
/// and U.
pub open spec fn crockford(d: nat) -> char {
    if d < 10 {
        (d + 48) as u8 as char
    } else if d < 18 {
        (d + 55) as u8 as char
    } else if d < 20 {
        (d + 56) as u8 as char
    } else if d < 22 {
        (d + 57) as u8 as char
    } else if d < 27 {
        (d + 58) as u8 as char
    } else {
        (d + 59) as u8 as char
    }
}

/// The number below 32 that a character stands for, in either case.
pub open spec fn crockford_value(c: char) -> Option<nat> {
    let u = crate::encoding::upper_char(c);
    let n = u as int;
    if '0' <= u && u <= '9' {
        Some((n - 48) as nat)
    } else if 'A' <= u && u <= 'H' {
        Some((n - 55) as nat)
    } else if 'J' <= u && u <= 'K' {
        Some((n - 56) as nat)
    } else if 'M' <= u && u <= 'N' {
        Some((n - 57) as nat)
    } else if 'P' <= u && u <= 'T' {
        Some((n - 58) as nat)
    } else if 'V' <= u && u <= 'Z' {
        Some((n - 59) as nat)
    } else {
        None
    }
}

/// A number as `n` characters in base 32, the most significant first.
pub open spec fn crockford_text(value: nat, n: nat) -> Seq<char>
    decreases n,
{
    if n == 0 {
        seq![]
    } else {
        crockford_text(value / 32, (n - 1) as nat).push(crockford(value % 32))
    }
}

/// The number that characters stand for in base 32, if each stands for one.
pub open spec fn crockford_number(s: Seq<char>) -> Option<nat>
    decreases s.len(),
{
    if s.len() == 0 {
        Some(0)
    } else {
        match (crockford_number(s.drop_last()), crockford_value(s.last())) {
            (Some(rest), Some(d)) => Some(rest * 32 + d),
            _ => None,
        }
    }
}

/// How a message's id is written: 26 characters.
pub open spec fn ulid_text(id: Ulid) -> Seq<char> {
    crockford_text(id.value as nat, 26)
}

/// The message id that text stands for, if it stands for one. The first of
/// the 26 characters has two bits too many, which are let go.
pub open spec fn named_ulid(s: Seq<char>) -> Option<Ulid> {
    if s.len() != 26 {
        None
    } else {
        match crockford_number(s) {
            Some(n) => Some(
                Ulid { value: (n % 0x1_0000_0000_0000_0000_0000_0000_0000_0000nat) as u128 },
            ),
            None => None,
        }
    }
}

/// `ulid::Ulid::to_string`: the id in 26 characters of Crockford's base 32.
#[verifier::external_body]
fn ulid_to_text(value: u128) -> (out: String)
    ensures
        out@ == crockford_text(value as nat, 26),
{
    ulid::Ulid(value).to_string()
}

/// `ulid::Ulid::from_string`: the id that 26 characters of Crockford's base
/// 32, in either case, stand for; nothing for any other text.
#[verifier::external_body]
fn ulid_from_text(s: &str) -> (out: Option<u128>)
    ensures
        match out {
            Some(value) => named_ulid(s@) == Some(Ulid { value }),
            None => named_ulid(s@) is None,
        },
{
    ulid::Ulid::from_string(s).ok().map(|id| id.0)
}

/// `ulid::Ulid::timestamp_ms`: the first 48 bits.
#[verifier::external_body]
fn ulid_time(value: u128) -> (ms: u64)
    ensures
        ms as nat == value as nat / 0x1_0000_0000_0000_0000_0000nat,
{
    ulid::Ulid(value).timestamp_ms()
}

impl Ulid {
    /// When the id was made, in milliseconds since the epoch.
    pub open spec fn ms(self) -> nat {
        self.value as nat / 0x1_0000_0000_0000_0000_0000nat
    }

    /// The id as text.
    pub fn to_string(&self) -> (out: String)
        ensures
            out@ == ulid_text(*self),
    {
        ulid_to_text(self.value)
    }

    /// The id that text stands for, if it stands for one.
    pub fn parse(s: &str) -> (id: Option<Ulid>)
        ensures
            id == named_ulid(s@),
    {
        match ulid_from_text(s) {
            Some(value) => Some(Ulid { value }),
            None => None,
        }
    }

    /// When the id was made, in milliseconds since the epoch.
    pub fn timestamp_ms(&self) -> (ms: u64)
        ensures
            ms == self.ms(),
            ms < 0x1_0000_0000_0000,
    {
        ulid_time(self.value)
    }
}

impl Key for Ulid {
    open spec fn rank(self) -> int {
        self.value as int
    }

    proof fn rank_is_injective(a: Self, b: Self) {
    }

    fn precedes(&self, other: &Self) -> (r: bool) {
        self.value < other.value
    }
}

proof fn lemma_crockford_round_trip(value: nat, n: nat)
    ensures
        crockford_text(value, n).len() == n,
        crockford_number(crockford_text(value, n)) == Some(
            value % (crockford_bound(n)),
        ),
    decreases n,
{
    if n == 0 {
        assert(value % 1 == 0);
    } else {
        let m = (n - 1) as nat;
        lemma_crockford_round_trip(value / 32, m);
        lemma_crockford_bound(m);
        let s = crockford_text(value, n);
        assert(s.drop_last() =~= crockford_text(value / 32, m));
        let d = value % 32;
        assert(crockford_value(crockford(d)) == Some(d));
        let b = crockford_bound(m);
        assert((value / 32) % b * 32 + value % 32 == value % (32 * b)) by {
            vstd::arithmetic::div_mod::lemma_mod_breakdown(value as int, 32, b as int);
        }
    }
}

spec fn crockford_bound(n: nat) -> nat
    decreases n,
{
    if n == 0 {
        1
    } else {
        32 * crockford_bound((n - 1) as nat)
    }
}

proof fn lemma_crockford_bound(n: nat)
    ensures
        crockford_bound(n) > 0,
    decreases n,
{
    if n > 0 {
        lemma_crockford_bound((n - 1) as nat);
    }
}

/// A message's id reads back from its text.
pub proof fn ulid_text_reads_back(id: Ulid)
    ensures
        ulid_text(id).len() == 26,
        named_ulid(ulid_text(id)) == Some(id),
        crate::text::trimmed(ulid_text(id)) == ulid_text(id),
{
    lemma_crockford_is_solid(id.value as nat, 26);
    crate::text::solid_text_is_trimmed(ulid_text(id));
    lemma_crockford_round_trip(id.value as nat, 26);
    assert(crockford_bound(26) == 0x4_0000_0000_0000_0000_0000_0000_0000_0000nat) by {
        reveal_with_fuel(crockford_bound, 27);
    }
}

proof fn lemma_crockford_is_solid(value: nat, n: nat)
    ensures
        forall|i: int|
            0 <= i < crockford_text(value, n).len() ==> !crate::text::is_white(
                #[trigger] crockford_text(value, n)[i],
            ),
    decreases n,
{
    if n > 0 {
        lemma_crockford_is_solid(value / 32, (n - 1) as nat);
        let rest = crockford_text(value / 32, (n - 1) as nat);
        assert forall|i: int| 0 <= i < crockford_text(value, n).len() implies !crate::text::is_white(
            #[trigger] crockford_text(value, n)[i],
        ) by {
            if i < rest.len() {
                assert(!crate::text::is_white(rest[i]));
            }
        }
    }
}

/// A later id was made no earlier.
pub proof fn later_ids_are_no_older(a: Ulid, b: Ulid)
    requires
        a.rank() <= b.rank(),
    ensures
        a.ms() <= b.ms(),
{
}

// ---------------------------------------------------------------------------
// Groups.
// ---------------------------------------------------------------------------

/// A group's shared secret: 128 random bits.
#[derive(Clone, Copy, PartialEq, Eq, Structural, Debug)]
pub struct GroupKey {
    /// The bits.
    pub bits: u128,
}

/// The letters of a group's code, without prefix or hyphens.
pub open spec fn code_letters(key: GroupKey) -> Seq<char> {
    lower(base32_text(be_bytes(key.bits as nat, 16)))
}

/// How a group's secret is written for people: `hm-` and the base32 of its
/// bytes, in lower case and in groups of four.
pub open spec fn code_text(key: GroupKey) -> Seq<char> {
    "hm-"@ + grouped(code_letters(key))
}

/// What is left of a code when the case, the `hm-` prefix and the hyphens do
/// not matter.
pub open spec fn code_core(s: Seq<char>) -> Seq<char> {
    let body = if s.len() >= 3 && same_name(s.take(3), "hm-"@) {
        s.skip(3)
    } else {
        s
    };
    upper(ungrouped(body))
}

/// Whether a code is one for this key.
pub open spec fn is_code_for(s: Seq<char>, key: GroupKey) -> bool {
    base32_text(be_bytes(key.bits as nat, 16)) == code_core(s)
}

impl GroupKey {
    /// The code for this key.
    pub fn code(&self) -> (out: String)
        ensures
            out@ == code_text(*self),
    {
        let bytes = bytes_of(self.bits, 16);
        proof {
            be_bytes_len(self.bits as nat, 16);
        }
        let letters = to_lower_text(base32_encode(&bytes).as_str());
        let groups = group(letters.as_str());
        let mut out = "hm-".to_owned();
        out.append(groups.as_str());
        out
    }

    /// The key that a code is for, if it is a code. Case, the `hm-` prefix and
    /// hyphens do not matter.
    pub fn parse(code: &str) -> (key: Option<GroupKey>)
        ensures
            match key {
                Some(key) => is_code_for(code@, key) && forall|k: GroupKey|
                    #[trigger] is_code_for(code@, k) ==> k == key,
                None => forall|k: GroupKey| !#[trigger] is_code_for(code@, k),
            },
    {
        let chars = chars_of(code);
        let from: usize = if chars.len() >= 3 {
            let head = text_between(&chars, 0, 3);
            assert(head@ =~= code@.take(3));
            if eq_ignore_ascii_case(head.as_str(), "hm-") {
                3
            } else {
                0
            }
        } else {
            0
        };
        let body = text_between(&chars, from, chars.len());
        assert(body@ =~= code@.skip(from as int));
        assert(code@.skip(0) =~= code@);
        let letters = to_upper(ungroup(body.as_str()).as_str());
        assert(letters@ == code_core(code@));
        match base32_decode(letters.as_str()) {
            None => None,
            Some(bytes) => {
                proof {
                    be_bound_of_sixteen();
                    assert forall|k: GroupKey| #[trigger] is_code_for(code@, k) implies be_bytes(
                        k.bits as nat,
                        16,
                    ) == bytes@ && be_value(bytes@) == k.bits && bytes@.len() == 16 by {
                        be_value_of_bytes(k.bits as nat, 16);
                    }
                }
                if bytes.len() != 16 {
                    return None;
                }
                assert(bytes@.subrange(0, 16) =~= bytes@);
                let bits = value_of(&bytes, 0);
                proof {
                    be_bytes_of_value(bytes@);
                }
                Some(GroupKey { bits })
            },
        }
    }
}

/// A code is one for the key it was written from, and for no other.
pub proof fn code_reads_back(key: GroupKey)
    ensures
        is_code_for(code_text(key), key),
        forall|k: GroupKey| #[trigger] is_code_for(code_text(key), k) ==> k == key,
{
    reveal_strlit("hm-");
    let s = code_text(key);
    let letters = code_letters(key);
    assert(s.take(3) =~= "hm-"@);
    assert(s.skip(3) =~= grouped(letters));
    let bytes = be_bytes(key.bits as nat, 16);
    base32_case_round_trip(bytes);
    ungrouping_undoes_grouping(letters);
    assert forall|k: GroupKey| #[trigger] is_code_for(code_text(key), k) implies k == key by {
        crate::encoding::base32_is_injective(be_bytes(k.bits as nat, 16), bytes);
        be_bound_of_sixteen();
        be_value_of_bytes(k.bits as nat, 16);
        be_value_of_bytes(key.bits as nat, 16);
    }
}

} // verus!
