//! The pages.
//!
//! Each is worked out here, down to the words, and drawn elsewhere. Every
//! action on a page is a form that posts and redirects, so that reading mail
//! needs nothing but a browser.

use crate::ids::{NodeId, Ulid};
use crate::local::labels;
use crate::message::{Draft, DraftV, Kind, LocalFile, LocalFileV, Message, MessageV, SenderKind, Signature};
use crate::peerbook::{authorities_of, Peer, PeerV};
use crate::problem::{Problem, ProblemV};
use crate::service::group::{SeenNode, SeenV};
use crate::service::peering::{Met, MetV};
use crate::service::presence::{Presence, PresenceV};
use crate::service::query::{Query, QueryV, Summary, SummaryV};
use crate::service::{MailService, ServiceError, ServiceErrorV, ServiceV};
use crate::sorting::sort_by;
use crate::store::Mailbox;
use crate::text::{chars_of, decimal_text, same_text, split, text_between, trim};
use crate::time::Timestamp;
use vstd::prelude::*;
use vstd::string::*;

pub mod chats;

verus! {

use crate::ids::{digest_text, named_ulid, node_short, node_text, ulid_text};
use crate::local::{labels_of};
use crate::message::{views, AttachmentV};
use crate::peerbook::{authorities, by_preference};
use crate::problem::{error_text, problem, told};
use crate::service::query::{a_full_listing_holds_the_newest, all_rows, conversation, listing};
use crate::service::send::signed_view;
use crate::sorting::{in_order, is_strict_order, sorted_by, sorting_fills_from_the_front, sorting_keeps_elements, sorting_sorts, sorting_views};
use crate::table::sorted_keys;
use crate::text::{decimal, opt_text, pieces, texts, trimmed};
use crate::time::written_at;

/// How many rows a page shows.
pub const PAGE_ROWS: usize = 200;

// ---------------------------------------------------------------------------
// Words.
// ---------------------------------------------------------------------------

/// A character as a page shows it, where it would otherwise be markup.
pub open spec fn escaped_char(c: char) -> Seq<char> {
    if c == '&' {
        "&amp;"@
    } else if c == '<' {
        "&lt;"@
    } else if c == '>' {
        "&gt;"@
    } else if c == '"' {
        "&quot;"@
    } else if c == '\'' {
        "&#39;"@
    } else {
        seq![c]
    }
}

/// Text as a page shows it.
pub open spec fn escaped(s: Seq<char>) -> Seq<char>
    decreases s.len(),
{
    if s.len() == 0 {
        seq![]
    } else {
        escaped(s.drop_last()) + escaped_char(s.last())
    }
}

/// Whether a character would begin or end markup, or the value of an
/// attribute.
pub open spec fn is_markup(c: char) -> bool {
    c == '<' || c == '>' || c == '"' || c == '\''
}

/// Nothing in escaped text is markup.
pub proof fn escaped_text_holds_no_markup(s: Seq<char>, i: int)
    requires
        0 <= i < escaped(s).len(),
    ensures
        !is_markup(escaped(s)[i]),
    decreases s.len(),
{
    let before = escaped(s.drop_last());
    let last = escaped_char(s.last());
    if i < before.len() {
        escaped_text_holds_no_markup(s.drop_last(), i);
        assert(escaped(s)[i] == before[i]);
    } else {
        reveal_strlit("&amp;");
        reveal_strlit("&lt;");
        reveal_strlit("&gt;");
        reveal_strlit("&quot;");
        reveal_strlit("&#39;");
        assert(escaped(s)[i] == last[i - before.len()]);
    }
}

/// Text without markup is shown as it is.
pub proof fn plain_text_is_shown_as_it_is(s: Seq<char>)
    requires
        forall|i: int| 0 <= i < s.len() ==> !is_markup(#[trigger] s[i]) && s[i] != '&',
    ensures
        escaped(s) == s,
    decreases s.len(),
{
    if s.len() > 0 {
        let shorter = s.drop_last();
        assert forall|i: int| 0 <= i < shorter.len() implies !is_markup(#[trigger] shorter[i])
            && shorter[i] != '&' by {
            assert(shorter[i] == s[i]);
        }
        plain_text_is_shown_as_it_is(shorter);
        assert(s[s.len() - 1] == s.last());
        assert(escaped(s) =~= s);
    }
}

/// Escape the five characters that matter.
pub fn escape(text: &str) -> (out: String)
    ensures
        out@ == escaped(text@),
{
    let chars = chars_of(text);
    let mut out = String::new();
    let mut i: usize = 0;
    assert(text@.take(0) =~= seq![]);
    while i < chars.len()
        invariant
            i <= chars.len(),
            chars@ == text@,
            out@ == escaped(text@.take(i as int)),
        decreases chars.len() - i,
    {
        let c = chars[i];
        assert(text@.take(i + 1).drop_last() =~= text@.take(i as int));
        assert(text@.take(i + 1).last() == c);
        if c == '&' {
            out.append("&amp;");
        } else if c == '<' {
            out.append("&lt;");
        } else if c == '>' {
            out.append("&gt;");
        } else if c == '"' {
            out.append("&quot;");
        } else if c == '\'' {
            out.append("&#39;");
        } else {
            let ghost before = out@;
            out.push(c);
            assert(out@ =~= before + seq![c]);
        }
        i += 1;
    }
    assert(text@.take(i as int) =~= text@);
    out
}

/// A number in decimal, with its sign where it is negative.
pub open spec fn signed_decimal(n: int) -> Seq<char> {
    if n < 0 {
        seq!['-'] + decimal((-n) as nat)
    } else {
        decimal(n as nat)
    }
}

/// So many of a unit, ago.
pub open spec fn so_many(count: int, unit: Seq<char>) -> Seq<char> {
    if count == 1 {
        "1 "@ + unit + " ago"@
    } else {
        signed_decimal(count) + " "@ + unit + "s ago"@
    }
}

/// So many of a unit, ago.
pub fn plural(count: i64, unit: &str) -> (out: String)
    ensures
        out@ == so_many(count as int, unit@),
{
    if count == 1 {
        let mut out = "1 ".to_owned();
        out.append(unit);
        out.append(" ago");
        out
    } else {
        let mut out = String::new();
        assert(out@ =~= seq![]);
        let magnitude: u64 = if count < 0 {
            out.push('-');
            (0i128 - count as i128) as u64
        } else {
            count as u64
        };
        let digits = decimal_text(magnitude);
        out.append(digits.as_str());
        assert(out@ =~= signed_decimal(count as int));
        out.append(" ");
        out.append(unit);
        out.append("s ago");
        out
    }
}

/// How long ago a moment was, as a reader would say it. A moment that has not
/// come yet is just now: a clock that ran backwards is ordinary.
pub open spec fn how_long_ago(when: Timestamp, now: Timestamp) -> Seq<char> {
    let seconds = (now@ - when@) / 1_000_000_000;
    if seconds <= 59 {
        "just now"@
    } else if seconds <= 3599 {
        so_many(seconds / 60, "minute"@)
    } else if seconds <= 86_399 {
        so_many(seconds / 3600, "hour"@)
    } else {
        so_many(seconds / 86_400, "day"@)
    }
}

/// How long ago a moment was, as a reader would say it.
pub fn relative(when: &Timestamp, now: &Timestamp) -> (out: String)
    ensures
        out@ == how_long_ago(*when, *now),
{
    let gap: i128 = now.nanos() - when.nanos();
    if gap < 60_000_000_000 {
        return "just now".to_owned();
    }
    let seconds: i64 = (gap / 1_000_000_000) as i64;
    if seconds <= 3599 {
        plural(seconds / 60, "minute")
    } else if seconds <= 86_399 {
        plural(seconds / 3600, "hour")
    } else {
        plural(seconds / 86_400, "day")
    }
}

/// A quotient rounded to the nearest integer, a tie to the even one.
pub open spec fn half_even(n: nat, d: nat) -> nat {
    let q = n / d;
    let r = n % d;
    if 2 * r > d || (2 * r == d && q % 2 == 1) {
        q + 1
    } else {
        q
    }
}

/// How far apart the numbers are that a double can hold about `n`.
pub open spec fn double_gap(n: nat) -> nat
    decreases n,
{
    if n < 9_007_199_254_740_992 {
        1
    } else {
        2 * double_gap(n / 2)
    }
}

/// The double nearest to an integer.
pub open spec fn nearest_double(n: nat) -> nat {
    half_even(n, double_gap(n)) * double_gap(n)
}

/// A size to one decimal of a unit.
pub open spec fn in_units(bytes: nat, scale: nat, unit: Seq<char>) -> Seq<char> {
    let tenths = half_even(nearest_double(bytes) * 10, scale);
    decimal(tenths / 10) + "."@ + decimal(tenths % 10) + " "@ + unit
}

/// A size a person can read at a glance.
pub open spec fn size_text(bytes: nat) -> Seq<char> {
    if bytes >= 1_073_741_824 {
        in_units(bytes, 1_073_741_824, "GiB"@)
    } else if bytes >= 1_048_576 {
        in_units(bytes, 1_048_576, "MiB"@)
    } else if bytes >= 1024 {
        in_units(bytes, 1024, "KiB"@)
    } else {
        decimal(bytes) + " B"@
    }
}

fn round_half_even(n: u128, d: u128) -> (out: u128)
    requires
        0 < d <= 4_294_967_296,
        n <= 1_000_000_000_000_000_000_000,
    ensures
        out as nat == half_even(n as nat, d as nat),
        out <= n / d + 1,
{
    let q: u128 = n / d;
    let r: u128 = n % d;
    if 2 * r > d || (2 * r == d && q % 2 == 1) {
        q + 1
    } else {
        q
    }
}

fn gap_about(n: u64) -> (gap: u64)
    ensures
        gap as nat == double_gap(n as nat),
        gap == 1 || 2 <= gap && gap * 4_503_599_627_370_496 <= n,
    decreases n,
{
    if n < 9_007_199_254_740_992 {
        1
    } else {
        2 * gap_about(n / 2)
    }
}

fn sized(bytes: u64, scale: u64, unit: &str) -> (out: String)
    requires
        1024 <= scale <= 1_073_741_824,
    ensures
        out@ == in_units(bytes as nat, scale as nat, unit@),
{
    let gap: u64 = gap_about(bytes);
    let nearest: u128 = round_half_even(bytes as u128, gap as u128);
    proof {
        let b = bytes as int;
        let g = gap as int;
        let m = nearest as int;
        assert(m * g <= b + g) by (nonlinear_arith)
            requires
                m <= b / g + 1,
                g >= 1,
                b >= 0,
        ;
    }
    let whole: u128 = nearest * gap as u128;
    let tenths: u128 = round_half_even(whole * 10, scale as u128);
    proof {
        let w = (whole * 10) as int;
        let d = scale as int;
        assert(w / d <= w / 1024) by (nonlinear_arith)
            requires
                w >= 0,
                d >= 1024,
        ;
    }
    let mut out = decimal_text((tenths / 10) as u64);
    out.append(".");
    out.append(decimal_text((tenths % 10) as u64).as_str());
    out.append(" ");
    out.append(unit);
    out
}

/// A size a person can read at a glance.
pub fn human_size(bytes: u64) -> (out: String)
    ensures
        out@ == size_text(bytes as nat),
{
    if bytes >= 1_073_741_824 {
        sized(bytes, 1_073_741_824, "GiB")
    } else if bytes >= 1_048_576 {
        sized(bytes, 1_048_576, "MiB")
    } else if bytes >= 1024 {
        sized(bytes, 1024, "KiB")
    } else {
        let mut out = decimal_text(bytes);
        out.append(" B");
        out
    }
}

/// What stands after the last dot of a name, if it has one.
pub open spec fn after_last_dot(s: Seq<char>) -> Option<Seq<char>>
    decreases s.len(),
{
    if s.len() == 0 {
        None
    } else if s.last() == '.' {
        Some(seq![])
    } else {
        match after_last_dot(s.drop_last()) {
            Some(rest) => Some(rest.push(s.last())),
            None => None,
        }
    }
}

/// What an asset is served as.
pub open spec fn content_type(file: Seq<char>) -> Seq<char> {
    match after_last_dot(file) {
        Some(ext) => if ext == "css"@ {
            "text/css; charset=utf-8"@
        } else if ext == "js"@ {
            "text/javascript; charset=utf-8"@
        } else if ext == "svg"@ {
            "image/svg+xml"@
        } else {
            "application/octet-stream"@
        },
        None => "application/octet-stream"@,
    }
}

proof fn lemma_after_last_dot(s: Seq<char>, at: int)
    requires
        0 <= at < s.len(),
        s[at] == '.',
        forall|j: int| at < j < s.len() ==> s[j] != '.',
    ensures
        after_last_dot(s) == Some(s.skip(at + 1)),
    decreases s.len(),
{
    if at == s.len() - 1 {
        assert(s.skip(at + 1) =~= seq![]);
    } else {
        lemma_after_last_dot(s.drop_last(), at);
        assert(s.drop_last().skip(at + 1).push(s.last()) =~= s.skip(at + 1));
    }
}

proof fn lemma_no_dot(s: Seq<char>)
    requires
        forall|j: int| 0 <= j < s.len() ==> s[j] != '.',
    ensures
        after_last_dot(s) is None,
    decreases s.len(),
{
    if s.len() > 0 {
        assert(s[s.len() - 1] == s.last());
        lemma_no_dot(s.drop_last());
    }
}

/// What an asset is served as, by extension.
pub fn content_type_of(file: &str) -> (out: &'static str)
    ensures
        out@ == content_type(file@),
{
    let chars = chars_of(file);
    let n: usize = chars.len();
    let mut i: usize = n;
    while i > 0
        invariant
            i <= n,
            n == chars.len(),
            chars@ == file@,
            forall|j: int| i <= j < n ==> chars@[j] != '.',
        decreases i,
    {
        i -= 1;
        if chars[i] == '.' {
            let ext = text_between(&chars, i + 1, n);
            proof {
                lemma_after_last_dot(file@, i as int);
                assert(ext@ =~= file@.skip(i + 1));
            }
            if same_text(ext.as_str(), "css") {
                return "text/css; charset=utf-8";
            }
            if same_text(ext.as_str(), "js") {
                return "text/javascript; charset=utf-8";
            }
            if same_text(ext.as_str(), "svg") {
                return "image/svg+xml";
            }
            return "application/octet-stream";
        }
    }
    proof {
        lemma_no_dot(file@);
    }
    "application/octet-stream"
}

/// Whether a name may be looked up among the assets at all: one with a slash
/// in it is no name.
pub fn may_be_an_asset(file: &str) -> (r: bool)
    ensures
        r == !file@.contains('/'),
{
    crate::text::find(&chars_of(file), '/').is_none()
}

// ---------------------------------------------------------------------------
// Errors, as pages.
// ---------------------------------------------------------------------------

/// A page that says what went wrong.
#[derive(PartialEq, Eq, Debug)]
pub struct ErrorPage {
    /// The status.
    pub status: u16,
    /// What it says.
    pub html: String,
}

/// A page that says what went wrong.
#[verifier::ext_equal]
pub struct ErrorPageV {
    /// The status.
    pub status: u16,
    /// What it says.
    pub html: Seq<char>,
}

impl View for ErrorPage {
    type V = ErrorPageV;

    open spec fn view(&self) -> ErrorPageV {
        ErrorPageV {
            status: self.status,
            html: self.html@,
        }
    }
}

/// The page for a problem.
pub open spec fn problem_page(problem: ProblemV) -> ErrorPageV {
    ErrorPageV {
        status: problem.status,
        html: "<h1>"@ + escaped(problem.title) + "</h1><p>"@ + escaped(problem.detail)
            + "</p><p><a href=\"/\">Back to the inbox</a></p>"@,
    }
}

/// The page for what is not there.
pub open spec fn missing_page(detail: Seq<char>) -> ErrorPageV {
    ErrorPageV {
        status: 404,
        html: "<h1>Not found</h1><p>"@ + escaped(detail)
            + "</p><p><a href=\"/\">Back to the inbox</a></p>"@,
    }
}

/// The page for a form that could not be read.
pub open spec fn unreadable_page(why: Seq<char>) -> ErrorPageV {
    ErrorPageV {
        status: 400,
        html: "<h1>That form could not be read</h1><p>"@ + escaped(why) + "</p>"@,
    }
}

/// A failure as a page: somebody reading this is in a browser.
pub fn render_error(error: &ServiceError) -> (out: ErrorPage)
    ensures
        out@ == problem_page(told(error@)),
{
    let problem = Problem::from_error(error);
    let mut html = "<h1>".to_owned();
    html.append(escape(problem.title.as_str()).as_str());
    html.append("</h1><p>");
    html.append(escape(problem.detail.as_str()).as_str());
    html.append("</p><p><a href=\"/\">Back to the inbox</a></p>");
    ErrorPage { status: problem.status, html }
}

/// The page for what is not there.
pub fn not_found(detail: &str) -> (out: ErrorPage)
    ensures
        out@ == missing_page(detail@),
{
    let mut html = "<h1>Not found</h1><p>".to_owned();
    html.append(escape(detail).as_str());
    html.append("</p><p><a href=\"/\">Back to the inbox</a></p>");
    ErrorPage { status: 404, html }
}

/// The page for a form that could not be read.
pub fn bad_request(why: &str) -> (out: ErrorPage)
    ensures
        out@ == unreadable_page(why@),
{
    let mut html = "<h1>That form could not be read</h1><p>".to_owned();
    html.append(escape(why).as_str());
    html.append("</p>");
    ErrorPage { status: 400, html }
}

// ---------------------------------------------------------------------------
// What pages show.
// ---------------------------------------------------------------------------

/// What every page shows.
#[derive(PartialEq, Eq, Debug)]
pub struct Chrome {
    /// Which page it is.
    pub here: &'static str,
    /// How many messages are unread.
    pub unread: u64,
    /// This node's fingerprint.
    pub node_id: String,
    /// Its short form.
    pub short_id: String,
}

/// What every page shows.
#[verifier::ext_equal]
pub struct ChromeV {
    /// Which page it is.
    pub here: Seq<char>,
    /// How many messages are unread.
    pub unread: u64,
    /// This node's fingerprint.
    pub node_id: Seq<char>,
    /// Its short form.
    pub short_id: Seq<char>,
}

impl View for Chrome {
    type V = ChromeV;

    open spec fn view(&self) -> ChromeV {
        ChromeV {
            here: self.here@,
            unread: self.unread,
            node_id: self.node_id@,
            short_id: self.short_id@,
        }
    }
}

/// One row of a listing.
#[derive(PartialEq, Eq, Debug)]
pub struct Row {
    /// The message id.
    pub id: String,
    /// The thread it belongs to.
    pub thread_id: String,
    /// Who sent it.
    pub from: String,
    /// Who sent it, in the short form.
    pub from_short: String,
    /// Its subject.
    pub subject: String,
    /// What it is for.
    pub kind: String,
    /// Who wrote it.
    pub sender_kind: String,
    /// When it was sent, in RFC 3339.
    pub sent_at: String,
    /// When it was sent, as a reader would say it.
    pub when: String,
    /// Whether it is unread.
    pub unread: bool,
    /// The names of its attachments.
    pub attachment_names: Vec<String>,
}

/// One row of a listing.
#[verifier::ext_equal]
pub struct RowV {
    /// The message id.
    pub id: Seq<char>,
    /// The thread it belongs to.
    pub thread_id: Seq<char>,
    /// Who sent it.
    pub from: Seq<char>,
    /// Who sent it, in the short form.
    pub from_short: Seq<char>,
    /// Its subject.
    pub subject: Seq<char>,
    /// What it is for.
    pub kind: Seq<char>,
    /// Who wrote it.
    pub sender_kind: Seq<char>,
    /// When it was sent, in RFC 3339.
    pub sent_at: Seq<char>,
    /// When it was sent, as a reader would say it.
    pub when: Seq<char>,
    /// Whether it is unread.
    pub unread: bool,
    /// The names of its attachments.
    pub attachment_names: Seq<Seq<char>>,
}

impl View for Row {
    type V = RowV;

    open spec fn view(&self) -> RowV {
        RowV {
            id: self.id@,
            thread_id: self.thread_id@,
            from: self.from@,
            from_short: self.from_short@,
            subject: self.subject@,
            kind: self.kind@,
            sender_kind: self.sender_kind@,
            sent_at: self.sent_at@,
            when: self.when@,
            unread: self.unread,
            attachment_names: texts(self.attachment_names@),
        }
    }
}

/// One attachment, as the page shows it.
#[derive(PartialEq, Eq, Debug)]
pub struct Attached {
    /// Its name.
    pub name: String,
    /// Its content address.
    pub sha256: String,
    /// Its size, as a reader would say it.
    pub human_size: String,
    /// Whether its bytes are here.
    pub cached: bool,
}

/// One attachment, as the page shows it.
#[verifier::ext_equal]
pub struct AttachedV {
    /// Its name.
    pub name: Seq<char>,
    /// Its content address.
    pub sha256: Seq<char>,
    /// Its size, as a reader would say it.
    pub human_size: Seq<char>,
    /// Whether its bytes are here.
    pub cached: bool,
}

impl View for Attached {
    type V = AttachedV;

    open spec fn view(&self) -> AttachedV {
        AttachedV {
            name: self.name@,
            sha256: self.sha256@,
            human_size: self.human_size@,
            cached: self.cached,
        }
    }
}

/// One message in a thread.
#[derive(PartialEq, Eq, Debug)]
pub struct Post {
    /// The message id.
    pub id: String,
    /// Who sent it.
    pub from: String,
    /// Who sent it, in the short form.
    pub from_short: String,
    /// Who wrote it.
    pub sender_kind: String,
    /// When it was sent, in RFC 3339.
    pub sent_at: String,
    /// When it was sent, as a reader would say it.
    pub when: String,
    /// What it says.
    pub body: String,
    /// The files that came with it.
    pub attachments: Vec<Attached>,
}

/// One message in a thread.
#[verifier::ext_equal]
pub struct PostV {
    /// The message id.
    pub id: Seq<char>,
    /// Who sent it.
    pub from: Seq<char>,
    /// Who sent it, in the short form.
    pub from_short: Seq<char>,
    /// Who wrote it.
    pub sender_kind: Seq<char>,
    /// When it was sent, in RFC 3339.
    pub sent_at: Seq<char>,
    /// When it was sent, as a reader would say it.
    pub when: Seq<char>,
    /// What it says.
    pub body: Seq<char>,
    /// The files that came with it.
    pub attachments: Seq<AttachedV>,
}

impl View for Post {
    type V = PostV;

    open spec fn view(&self) -> PostV {
        PostV {
            id: self.id@,
            from: self.from@,
            from_short: self.from_short@,
            sender_kind: self.sender_kind@,
            sent_at: self.sent_at@,
            when: self.when@,
            body: self.body@,
            attachments: views(self.attachments@),
        }
    }
}

/// One peer, a member or merely seen.
#[derive(PartialEq, Eq, Debug)]
pub struct PeerRow {
    /// Its fingerprint.
    pub id: String,
    /// Its short form.
    pub short_id: String,
    /// What it calls itself.
    pub name: String,
    /// Who owns it, if it said.
    pub owner: Option<String>,
    /// Where it is.
    pub addr: String,
    /// When it was last heard from, as a reader would say it.
    pub last_seen: Option<String>,
    /// Whether it is up.
    pub online: bool,
    /// What each session there is working on.
    pub sessions: Vec<String>,
}

/// One peer, a member or merely seen.
#[verifier::ext_equal]
pub struct PeerRowV {
    /// Its fingerprint.
    pub id: Seq<char>,
    /// Its short form.
    pub short_id: Seq<char>,
    /// What it calls itself.
    pub name: Seq<char>,
    /// Who owns it, if it said.
    pub owner: Option<Seq<char>>,
    /// Where it is.
    pub addr: Seq<char>,
    /// When it was last heard from, as a reader would say it.
    pub last_seen: Option<Seq<char>>,
    /// Whether it is up.
    pub online: bool,
    /// What each session there is working on.
    pub sessions: Seq<Seq<char>>,
}

impl View for PeerRow {
    type V = PeerRowV;

    open spec fn view(&self) -> PeerRowV {
        PeerRowV {
            id: self.id@,
            short_id: self.short_id@,
            name: self.name@,
            owner: opt_text(self.owner),
            addr: self.addr@,
            last_seen: opt_text(self.last_seen),
            online: self.online,
            sessions: texts(self.sessions@),
        }
    }
}

/// What a listing page was asked for.
#[derive(PartialEq, Eq, Debug)]
pub struct ListQuery {
    /// Text to look for in subject and body.
    pub q: Option<String>,
    /// Show only unread mail.
    pub unread: Option<bool>,
}

/// What a listing page was asked for.
#[verifier::ext_equal]
pub struct ListQueryV {
    /// Text to look for in subject and body.
    pub q: Option<Seq<char>>,
    /// Show only unread mail.
    pub unread: Option<bool>,
}

impl View for ListQuery {
    type V = ListQueryV;

    open spec fn view(&self) -> ListQueryV {
        ListQueryV {
            q: opt_text(self.q),
            unread: self.unread,
        }
    }
}

/// A listing.
#[derive(PartialEq, Eq, Debug)]
pub struct InboxPage {
    /// Which page it is.
    pub here: &'static str,
    /// How many messages are unread.
    pub unread: u64,
    /// This node's fingerprint.
    pub node_id: String,
    /// Its short form.
    pub short_id: String,
    /// Its heading.
    pub heading: &'static str,
    /// Where it is.
    pub path: &'static str,
    /// What it says when there is nothing.
    pub empty: &'static str,
    /// Whether it updates itself.
    pub live: bool,
    /// The text that was looked for.
    pub query: String,
    /// Whether only unread mail is shown.
    pub unread_only: bool,
    /// The messages.
    pub messages: Vec<Row>,
}

/// A listing.
#[verifier::ext_equal]
pub struct InboxPageV {
    /// Which page it is.
    pub here: Seq<char>,
    /// How many messages are unread.
    pub unread: u64,
    /// This node's fingerprint.
    pub node_id: Seq<char>,
    /// Its short form.
    pub short_id: Seq<char>,
    /// Its heading.
    pub heading: Seq<char>,
    /// Where it is.
    pub path: Seq<char>,
    /// What it says when there is nothing.
    pub empty: Seq<char>,
    /// Whether it updates itself.
    pub live: bool,
    /// The text that was looked for.
    pub query: Seq<char>,
    /// Whether only unread mail is shown.
    pub unread_only: bool,
    /// The messages.
    pub messages: Seq<RowV>,
}

impl View for InboxPage {
    type V = InboxPageV;

    open spec fn view(&self) -> InboxPageV {
        InboxPageV {
            here: self.here@,
            unread: self.unread,
            node_id: self.node_id@,
            short_id: self.short_id@,
            heading: self.heading@,
            path: self.path@,
            empty: self.empty@,
            live: self.live,
            query: self.query@,
            unread_only: self.unread_only,
            messages: views(self.messages@),
        }
    }
}

/// One conversation.
#[derive(PartialEq, Eq, Debug)]
pub struct ThreadPage {
    /// Which page it is.
    pub here: &'static str,
    /// How many messages are unread.
    pub unread: u64,
    /// This node's fingerprint.
    pub node_id: String,
    /// Its short form.
    pub short_id: String,
    /// The thread.
    pub thread_id: String,
    /// The subject it opened with.
    pub subject: String,
    /// Its messages, oldest first.
    pub messages: Vec<Post>,
}

/// One conversation.
#[verifier::ext_equal]
pub struct ThreadPageV {
    /// Which page it is.
    pub here: Seq<char>,
    /// How many messages are unread.
    pub unread: u64,
    /// This node's fingerprint.
    pub node_id: Seq<char>,
    /// Its short form.
    pub short_id: Seq<char>,
    /// The thread.
    pub thread_id: Seq<char>,
    /// The subject it opened with.
    pub subject: Seq<char>,
    /// Its messages, oldest first.
    pub messages: Seq<PostV>,
}

impl View for ThreadPage {
    type V = ThreadPageV;

    open spec fn view(&self) -> ThreadPageV {
        ThreadPageV {
            here: self.here@,
            unread: self.unread,
            node_id: self.node_id@,
            short_id: self.short_id@,
            thread_id: self.thread_id@,
            subject: self.subject@,
            messages: views(self.messages@),
        }
    }
}

/// The form for a new message.
#[derive(PartialEq, Eq, Debug)]
pub struct ComposePage {
    /// Which page it is.
    pub here: &'static str,
    /// How many messages are unread.
    pub unread: u64,
    /// This node's fingerprint.
    pub node_id: String,
    /// Its short form.
    pub short_id: String,
    /// What was wrong with it.
    pub problem: Option<String>,
    /// Whom it is for, as typed.
    pub to: String,
    /// Its subject.
    pub subject: String,
    /// What it says.
    pub body: String,
    /// Whom it could be for.
    pub peers: Vec<PeerRow>,
}

/// The form for a new message.
#[verifier::ext_equal]
pub struct ComposePageV {
    /// Which page it is.
    pub here: Seq<char>,
    /// How many messages are unread.
    pub unread: u64,
    /// This node's fingerprint.
    pub node_id: Seq<char>,
    /// Its short form.
    pub short_id: Seq<char>,
    /// What was wrong with it.
    pub problem: Option<Seq<char>>,
    /// Whom it is for, as typed.
    pub to: Seq<char>,
    /// Its subject.
    pub subject: Seq<char>,
    /// What it says.
    pub body: Seq<char>,
    /// Whom it could be for.
    pub peers: Seq<PeerRowV>,
}

impl View for ComposePage {
    type V = ComposePageV;

    open spec fn view(&self) -> ComposePageV {
        ComposePageV {
            here: self.here@,
            unread: self.unread,
            node_id: self.node_id@,
            short_id: self.short_id@,
            problem: opt_text(self.problem),
            to: self.to@,
            subject: self.subject@,
            body: self.body@,
            peers: views(self.peers@),
        }
    }
}

/// Everybody.
#[derive(PartialEq, Eq, Debug)]
pub struct PeersPage {
    /// Which page it is.
    pub here: &'static str,
    /// How many messages are unread.
    pub unread: u64,
    /// This node's fingerprint.
    pub node_id: String,
    /// Its short form.
    pub short_id: String,
    /// What went wrong.
    pub problem: Option<String>,
    /// Whether this node is in a group.
    pub in_group: bool,
    /// The members.
    pub paired: Vec<PeerRow>,
    /// Nodes merely seen.
    pub seen: Vec<PeerRow>,
}

/// Everybody.
#[verifier::ext_equal]
pub struct PeersPageV {
    /// Which page it is.
    pub here: Seq<char>,
    /// How many messages are unread.
    pub unread: u64,
    /// This node's fingerprint.
    pub node_id: Seq<char>,
    /// Its short form.
    pub short_id: Seq<char>,
    /// What went wrong.
    pub problem: Option<Seq<char>>,
    /// Whether this node is in a group.
    pub in_group: bool,
    /// The members.
    pub paired: Seq<PeerRowV>,
    /// Nodes merely seen.
    pub seen: Seq<PeerRowV>,
}

impl View for PeersPage {
    type V = PeersPageV;

    open spec fn view(&self) -> PeersPageV {
        PeersPageV {
            here: self.here@,
            unread: self.unread,
            node_id: self.node_id@,
            short_id: self.short_id@,
            problem: opt_text(self.problem),
            in_group: self.in_group,
            paired: views(self.paired@),
            seen: views(self.seen@),
        }
    }
}

/// What a reply form sends.
#[derive(PartialEq, Eq, Debug)]
pub struct ReplyForm {
    /// The reply.
    pub body: String,
}

/// What a reply form sends.
#[verifier::ext_equal]
pub struct ReplyFormV {
    /// The reply.
    pub body: Seq<char>,
}

impl View for ReplyForm {
    type V = ReplyFormV;

    open spec fn view(&self) -> ReplyFormV {
        ReplyFormV {
            body: self.body@,
        }
    }
}

/// What the form for joining by address sends.
#[derive(PartialEq, Eq, Debug)]
pub struct JoinForm {
    /// The address, as typed.
    pub host: String,
}

/// What the form for joining by address sends.
#[verifier::ext_equal]
pub struct JoinFormV {
    /// The address, as typed.
    pub host: Seq<char>,
}

impl View for JoinForm {
    type V = JoinFormV;

    open spec fn view(&self) -> JoinFormV {
        JoinFormV {
            host: self.host@,
        }
    }
}

/// What the form for a new message sends.
#[derive(PartialEq, Eq, Debug)]
pub struct ComposeForm {
    /// Whom it is for, as typed.
    pub to: String,
    /// Its subject.
    pub subject: String,
    /// What it says.
    pub body: String,
}

/// What the form for a new message sends.
#[verifier::ext_equal]
pub struct ComposeFormV {
    /// Whom it is for, as typed.
    pub to: Seq<char>,
    /// Its subject.
    pub subject: Seq<char>,
    /// What it says.
    pub body: Seq<char>,
}

impl View for ComposeForm {
    type V = ComposeFormV;

    open spec fn view(&self) -> ComposeFormV {
        ComposeFormV {
            to: self.to@,
            subject: self.subject@,
            body: self.body@,
        }
    }
}

/// What an action on a page comes to.
#[derive(PartialEq, Eq, Debug)]
pub enum Outcome<P> {
    /// Go and look here.
    Redirect(
        /// Where.
        String,
    ),
    /// A page.
    Page(P),
    /// A page that says what went wrong.
    Failed(ErrorPage),
}

/// What an action on a page comes to.
#[verifier::ext_equal]
pub enum OutcomeV<P> {
    /// Go and look here.
    Redirect(
        /// Where.
        Seq<char>,
    ),
    /// A page.
    Page(P),
    /// A page that says what went wrong.
    Failed(ErrorPageV),
}

impl<P: View> View for Outcome<P> {
    type V = OutcomeV<P::V>;

    open spec fn view(&self) -> OutcomeV<P::V> {
        match self {
            Outcome::Redirect(to) => OutcomeV::Redirect(to@),
            Outcome::Page(page) => OutcomeV::Page(page@),
            Outcome::Failed(page) => OutcomeV::Failed(page@),
        }
    }
}

/// A row of a listing.
pub open spec fn row_shown(row: SummaryV, now: Timestamp) -> RowV {
    RowV {
        id: ulid_text(row.id),
        thread_id: ulid_text(row.thread_id),
        from: node_text(row.from),
        from_short: node_short(row.from),
        subject: row.subject,
        kind: row.kind.name(),
        sender_kind: row.sender_kind.name(),
        sent_at: written_at(row.sent_at),
        when: how_long_ago(row.sent_at, now),
        unread: row.is_unread(),
        attachment_names: row.attachment_names,
    }
}

/// A peer, with what presence knows of it.
pub open spec fn peer_row(peer: PeerV, presence: Option<PresenceV>, now: Timestamp) -> PeerRowV {
    let addrs = authorities(by_preference(peer.addrs));
    PeerRowV {
        id: node_text(peer.id),
        short_id: node_short(peer.id),
        name: peer.name,
        owner: peer.owner,
        addr: if addrs.len() == 0 {
            "no known address"@
        } else {
            addrs[0]
        },
        last_seen: match peer.last_seen {
            Some(at) => Some(how_long_ago(at, now)),
            None => None,
        },
        online: presence is Some,
        sessions: match presence {
            Some(presence) => labels_of(presence.sessions),
            None => seq![],
        },
    }
}

/// A node merely seen.
pub open spec fn seen_row(seen: SeenV, now: Timestamp) -> PeerRowV {
    PeerRowV {
        id: node_text(seen.id),
        short_id: node_short(seen.id),
        name: match seen.name {
            Some(name) => name,
            None => seen.addr.host,
        },
        owner: seen.owner,
        addr: seen.addr.authority(),
        last_seen: Some(how_long_ago(seen.last_seen, now)),
        online: false,
        sessions: seq![],
    }
}

/// Whether a row was sent later than another.
pub open spec fn sent_later(a: SummaryV, b: SummaryV) -> bool {
    a.sent_at@ > b.sent_at@
}

/// No more than so many.
pub open spec fn capped<T>(s: Seq<T>, n: nat) -> Seq<T> {
    if s.len() > n {
        s.take(n as int)
    } else {
        s
    }
}

/// The text that a page was asked to look for: blank text is none.
pub open spec fn looked_for(params: ListQueryV) -> Option<Seq<char>> {
    match params.q {
        Some(q) => if trimmed(q).len() == 0 {
            None
        } else {
            Some(q)
        },
        None => None,
    }
}

/// What a page asks of one mailbox.
pub open spec fn page_query(mailbox: Mailbox, params: ListQueryV, found: Seq<Ulid>) -> QueryV {
    QueryV {
        mailbox: Some(mailbox),
        thread: None,
        from: None,
        unread_only: params.unread == Some(true),
        found: if looked_for(params) is Some {
            Some(found)
        } else {
            None
        },
        limit: Some(PAGE_ROWS),
        cursor: None,
    }
}

impl ServiceV {
    /// The rows of a page over two mailboxes, newest first, no more than a
    /// page.
    pub open spec fn page_rows(
        self,
        first: Mailbox,
        second: Mailbox,
        params: ListQueryV,
        found: Seq<Ulid>,
    ) -> Seq<SummaryV> {
        capped(
            sorted_by(
                listing(self.mail, page_query(first, params, found)) + listing(
                    self.mail,
                    page_query(second, params, found),
                ),
                |a: SummaryV, b: SummaryV| sent_later(a, b),
            ),
            PAGE_ROWS as nat,
        )
    }

    /// How many messages are unread.
    pub open spec fn unread(self) -> u64 {
        self.mail.new.dom().len() as u64
    }

    /// A listing.
    pub open spec fn listing_page(
        self,
        here: Seq<char>,
        heading: Seq<char>,
        path: Seq<char>,
        empty: Seq<char>,
        live: bool,
        first: Mailbox,
        second: Mailbox,
        params: ListQueryV,
        found: Seq<Ulid>,
        now: Timestamp,
    ) -> InboxPageV {
        InboxPageV {
            here,
            unread: self.unread(),
            node_id: node_text(self.node.id),
            short_id: node_short(self.node.id),
            heading,
            path,
            empty,
            live,
            query: match looked_for(params) {
                Some(q) => q,
                None => seq![],
            },
            unread_only: params.unread == Some(true),
            messages: self.page_rows(first, second, params, found).map_values(
                |row: SummaryV| row_shown(row, now),
            ),
        }
    }

    /// An attachment.
    pub open spec fn attached(self, a: AttachmentV) -> AttachedV {
        AttachedV {
            name: a.name,
            sha256: digest_text(a.sha256),
            human_size: size_text(a.size as nat),
            cached: self.blobs.contains_key(a.sha256),
        }
    }

    /// A message in a thread.
    pub open spec fn post(self, message: MessageV, now: Timestamp) -> PostV {
        PostV {
            id: ulid_text(message.id),
            from: node_text(message.from),
            from_short: node_short(message.from),
            sender_kind: message.sender_kind.name(),
            sent_at: written_at(message.sent_at),
            when: how_long_ago(message.sent_at, now),
            body: message.body,
            attachments: message.attachments.map_values(|a: AttachmentV| self.attached(a)),
        }
    }

    /// The posts of some rows.
    pub open spec fn posts(self, rows: Seq<SummaryV>, now: Timestamp) -> Seq<PostV> {
        rows.map_values(|row: SummaryV| self.post(self.found(row.id)->Ok_0.1, now))
    }

    /// The node after every message of some rows was read.
    pub open spec fn reading_rows(self, rows: Seq<SummaryV>, now: Timestamp) -> ServiceV
        decreases rows.len(),
    {
        if rows.len() == 0 {
            self
        } else {
            self.reading_rows(rows.drop_last(), now).reading(rows.last().id, now)
        }
    }

    /// The node after a conversation was opened, and the page. Opening a
    /// conversation is reading it.
    pub open spec fn opening_thread(self, typed: Seq<char>, now: Timestamp) -> (
        ServiceV,
        Result<ThreadPageV, ErrorPageV>,
    ) {
        match named_ulid(typed) {
            None => (self, Err(missing_page("no such thread"@))),
            Some(thread) => {
                let rows = conversation(self.mail, thread);
                if rows.len() == 0 {
                    (self, Err(missing_page("no such thread"@)))
                } else {
                    let after = self.reading_rows(rows, now);
                    (
                        after,
                        Ok(
                            ThreadPageV {
                                here: "inbox"@,
                                unread: after.unread(),
                                node_id: node_text(self.node.id),
                                short_id: node_short(self.node.id),
                                thread_id: ulid_text(thread),
                                subject: rows[0].subject,
                                messages: self.posts(rows, now),
                            },
                        ),
                    )
                }
            },
        }
    }

    /// The members, as pages show them.
    pub open spec fn member_rows(self, now: Timestamp) -> Seq<PeerRowV> {
        sorted_keys(self.book.peers).map_values(
            |id: NodeId| peer_row(self.book.peers[id], self.present(id, now), now),
        )
    }

    /// The form for a new message, filled in so far.
    pub open spec fn compose_page(
        self,
        problem: Option<Seq<char>>,
        form: ComposeFormV,
        now: Timestamp,
    ) -> ComposePageV {
        ComposePageV {
            here: "compose"@,
            unread: self.unread(),
            node_id: node_text(self.node.id),
            short_id: node_short(self.node.id),
            problem,
            to: form.to,
            subject: form.subject,
            body: form.body,
            peers: self.member_rows(now),
        }
    }

    /// Everybody.
    pub open spec fn peers_page(self, problem: Option<Seq<char>>, now: Timestamp) -> PeersPageV {
        PeersPageV {
            here: "peers"@,
            unread: self.unread(),
            node_id: node_text(self.node.id),
            short_id: node_short(self.node.id),
            problem,
            in_group: self.group is Some,
            paired: self.member_rows(now),
            seen: self.sightings().map_values(|seen: SeenV| seen_row(seen, now)),
        }
    }

    /// The draft that a form asks for.
    pub open spec fn drafted(self, form: ComposeFormV, files: Seq<LocalFileV>) -> Result<
        DraftV,
        ServiceErrorV,
    > {
        match self.recipients_named(recipients_typed(form.to)) {
            Err(error) => Err(error),
            Ok(to) => Ok(
                DraftV {
                    to,
                    subject: form.subject,
                    body: form.body,
                    kind: Kind::Message,
                    in_reply_to: None,
                    attachments: files,
                },
            ),
        }
    }

    /// The node after a new message was sent from its form, and where that
    /// leads. A message that could not be sent comes back in its form, filled
    /// in. A recipient that could be more than one node is an error instead.
    pub open spec fn sending_form(
        self,
        form: ComposeFormV,
        files: Seq<LocalFileV>,
        id: Ulid,
        now: Timestamp,
        signed: Result<Seq<u8>, Seq<char>>,
    ) -> (ServiceV, OutcomeV<ComposePageV>) {
        match self.drafted(form, files) {
            Err(error) => (self, OutcomeV::Failed(problem_page(told(error)))),
            Ok(draft) => {
                let sent = self.sending(draft, SenderKind::Human, id, now, signed);
                (
                    sent.0,
                    match sent.1 {
                        Ok(queued) => OutcomeV::Redirect(
                            "/thread/"@ + ulid_text(queued.message.thread_id),
                        ),
                        Err(error) => OutcomeV::Page(
                            sent.0.compose_page(Some(error_text(error)), form, now),
                        ),
                    },
                )
            },
        }
    }

    /// The node after a conversation was answered from its form, and where
    /// that leads.
    pub open spec fn replying_form(
        self,
        typed: Seq<char>,
        body: Seq<char>,
        id: Ulid,
        now: Timestamp,
        signed: Result<Seq<u8>, Seq<char>>,
    ) -> (ServiceV, OutcomeV<()>) {
        match named_ulid(typed) {
            None => (self, OutcomeV::Failed(missing_page("no such thread"@))),
            Some(thread) => {
                let sent = self.replying(thread, body, seq![], SenderKind::Human, id, now, signed);
                (
                    sent.0,
                    match sent.1 {
                        Ok(queued) => OutcomeV::Redirect("/thread/"@ + ulid_text(thread)),
                        Err(error) => OutcomeV::Failed(problem_page(told(error))),
                    },
                )
            },
        }
    }

    /// Where joining a node by its address leads.
    pub open spec fn joined_page(
        self,
        host: Seq<char>,
        met: Result<MetV, ServiceErrorV>,
        now: Timestamp,
    ) -> OutcomeV<PeersPageV> {
        match met {
            Ok(MetV::Member(peer)) => OutcomeV::Redirect("/peers"@),
            Ok(MetV::Stranger(seen)) => OutcomeV::Page(
                self.peers_page(
                    Some(
                        (match seen.name {
                            Some(name) => name,
                            None => host,
                        }) + " answered, but it is not in this node's group"@,
                    ),
                    now,
                ),
            ),
            Err(error) => OutcomeV::Page(self.peers_page(Some(error_text(error)), now)),
        }
    }

    /// The node after another was forgotten from the page, and where that
    /// leads.
    pub open spec fn forgetting_form(self, typed: Seq<char>, now: Timestamp) -> (
        ServiceV,
        OutcomeV<PeersPageV>,
    ) {
        match self.peer_named(typed) {
            Err(error) => (self, OutcomeV::Failed(problem_page(told(error)))),
            Ok(id) => {
                let removed = self.removing(id);
                (
                    removed.0,
                    match removed.1 {
                        Ok(()) => OutcomeV::Redirect("/peers"@),
                        Err(error) => OutcomeV::Page(
                            removed.0.peers_page(Some(error_text(error)), now),
                        ),
                    },
                )
            },
        }
    }
}

/// The recipients of a form: what stands between its commas and is not blank.
pub open spec fn recipients_typed(to: Seq<char>) -> Seq<Seq<char>> {
    pieces(to, ',').map_values(|p: Seq<char>| trimmed(p)).filter(|p: Seq<char>| p.len() > 0)
}

// ---------------------------------------------------------------------------
// Laws.
// ---------------------------------------------------------------------------

/// A listing page reads newest first, and holds no more than a page.
pub proof fn a_page_reads_newest_first(
    node: ServiceV,
    first: Mailbox,
    second: Mailbox,
    params: ListQueryV,
    found: Seq<Ulid>,
)
    ensures
        in_order(
            node.page_rows(first, second, params, found),
            |a: SummaryV, b: SummaryV| sent_later(a, b),
        ),
        node.page_rows(first, second, params, found).len() <= PAGE_ROWS,
{
    let later = |a: SummaryV, b: SummaryV| sent_later(a, b);
    let rows = listing(node.mail, page_query(first, params, found)) + listing(
        node.mail,
        page_query(second, params, found),
    );
    assert(is_strict_order(later));
    sorting_sorts(rows, later);
    let all = sorted_by(rows, later);
    let out = node.page_rows(first, second, params, found);
    assert forall|i: int, j: int|
        #![trigger out[i], out[j]]
        0 <= i < j < out.len() implies !later(out[j], out[i]) by {
        assert(out[i] == all[i] && out[j] == all[j]);
    }
}

/// A listing page leaves out nothing that was asked for of either mailbox but
/// when it is full, and then nothing on it was sent in an earlier millisecond
/// than what it leaves out.
pub proof fn a_page_holds_the_newest(
    node: ServiceV,
    first: Mailbox,
    second: Mailbox,
    params: ListQueryV,
    found: Seq<Ulid>,
    row: SummaryV,
)
    requires
        all_rows(node.mail).contains(row),
        page_query(first, params, found).wants(row) || page_query(second, params, found).wants(row),
    ensures
        node.page_rows(first, second, params, found).contains(row) || (node.page_rows(
            first,
            second,
            params,
            found,
        ).len() == PAGE_ROWS && forall|k: int|
            0 <= k < PAGE_ROWS ==> row.sent_at.ms() <= (#[trigger] node.page_rows(
                first,
                second,
                params,
                found,
            )[k]).sent_at.ms()),
{
    let later = |a: SummaryV, b: SummaryV| sent_later(a, b);
    let a = listing(node.mail, page_query(first, params, found));
    let b = listing(node.mail, page_query(second, params, found));
    let all = sorted_by(a + b, later);
    let page = node.page_rows(first, second, params, found);
    assert(is_strict_order(later));
    sorting_sorts(a + b, later);
    sorting_keeps_elements(a + b, later);
    if a.contains(row) || b.contains(row) {
        if a.contains(row) {
            assert((a + b)[a.index_of(row)] == row);
        } else {
            assert((a + b)[a.len() + b.index_of(row)] == row);
        }
        assert(all.contains(row));
        let at = all.index_of(row);
        if at < page.len() {
            assert(page[at] == row);
        } else {
            assert forall|k: int| 0 <= k < PAGE_ROWS implies row.sent_at.ms() <= (
            #[trigger] page[k]).sent_at.ms() by {
                assert(page[k] == all[k]);
                assert(!later(all[at], all[k]));
            }
        }
    } else {
        let query = if page_query(first, params, found).wants(row) {
            page_query(first, params, found)
        } else {
            page_query(second, params, found)
        };
        let part = listing(node.mail, query);
        a_full_listing_holds_the_newest(node.mail, query, row);
        vstd::seq_lib::lemma_multiset_commutative(a, b);
        assert(part.to_multiset().subset_of((a + b).to_multiset())) by {
            broadcast use vstd::multiset::group_multiset_axioms;

        }
        assert forall|k: int| 0 <= k < PAGE_ROWS implies row.sent_at.ms() <= (
        #[trigger] page[k]).sent_at.ms() by {
            assert(page[k] == all[k]);
            sorting_fills_from_the_front(a + b, part, later, k);
            let i = choose|i: int|
                0 <= i < part.len() && !later(#[trigger] part[i], all[k]);
            assert(row.sent_at.ms() <= part[i].sent_at.ms());
        }
    }
}

/// A message that could not be sent is not lost: its form comes back as it was
/// filled in, saying why. That is so wherever each of its recipients is one.
pub proof fn a_half_written_message_is_kept(
    node: ServiceV,
    form: ComposeFormV,
    files: Seq<LocalFileV>,
    id: Ulid,
    now: Timestamp,
    signed: Result<Seq<u8>, Seq<char>>,
)
    requires
        node.drafted(form, files) is Ok,
    ensures
        match node.sending_form(form, files, id, now, signed).1 {
            OutcomeV::Redirect(to) => true,
            OutcomeV::Page(page) => page.to == form.to && page.subject == form.subject && page.body
                == form.body && page.problem is Some,
            OutcomeV::Failed(page) => false,
        },
{
}

/// Opening a conversation leaves nothing in it unread.
pub proof fn an_opened_conversation_is_read(
    node: ServiceV,
    rows: Seq<SummaryV>,
    now: Timestamp,
    i: int,
)
    requires
        0 <= i < rows.len(),
    ensures
        !node.reading_rows(rows, now).mail.new.contains_key(rows[i].id),
    decreases rows.len(),
{
    let before = node.reading_rows(rows.drop_last(), now);
    if i < rows.len() - 1 {
        an_opened_conversation_is_read(node, rows.drop_last(), now, i);
        assert(rows.drop_last()[i] == rows[i]);
    }
}

// ---------------------------------------------------------------------------
// Making them.
// ---------------------------------------------------------------------------

impl Chrome {
    /// What every page shows.
    pub fn new(service: &MailService, here: &'static str) -> (out: Chrome)
        requires
            service.wf(),
        ensures
            out@ == (ChromeV {
                here: here@,
                unread: service@.unread(),
                node_id: node_text(service@.node.id),
                short_id: node_short(service@.node.id),
            }),
    {
        let id = service.identity();
        Chrome {
            here,
            unread: service.unread_count(),
            node_id: id.to_string(),
            short_id: id.short(),
        }
    }
}

impl Row {
    /// A row of a listing.
    pub fn of(row: &Summary, now: &Timestamp) -> (out: Row)
        ensures
            out@ == row_shown(row@, *now),
    {
        let out = Row {
            id: row.id.to_string(),
            thread_id: row.thread_id.to_string(),
            from: row.from.to_string(),
            from_short: row.from.short(),
            subject: row.subject.clone(),
            kind: row.kind.as_str().to_owned(),
            sender_kind: row.sender_kind.as_str().to_owned(),
            sent_at: row.sent_at.to_rfc3339(),
            when: relative(&row.sent_at, now),
            unread: row.is_unread(),
            attachment_names: row.attachment_names.clone(),
        };
        assert(out.attachment_names@ =~= row.attachment_names@);
        out
    }
}

impl PeerRow {
    /// A peer, with what presence knows of it.
    pub fn of_peer(peer: &Peer, presence: &Option<Presence>, now: &Timestamp) -> (out: PeerRow)
        ensures
            out@ == peer_row(
                peer@,
                match *presence {
                    Some(p) => Some(p@),
                    None => None,
                },
                *now,
            ),
    {
        let addrs = authorities_of(&peer.addrs_by_preference());
        assert(texts(addrs@).len() == addrs.len());
        let addr = if addrs.len() == 0 {
            "no known address".to_owned()
        } else {
            assert(texts(addrs@)[0] == addrs@[0]@);
            addrs[0].clone()
        };
        let sessions = match presence {
            Some(presence) => labels(presence),
            None => Vec::new(),
        };
        assert(presence is None ==> texts(sessions@) =~= seq![]);
        PeerRow {
            id: peer.id.to_string(),
            short_id: peer.id.short(),
            name: peer.name.clone(),
            owner: peer.owner.clone(),
            addr,
            last_seen: match &peer.last_seen {
                Some(at) => Some(relative(at, now)),
                None => None,
            },
            online: presence.is_some(),
            sessions,
        }
    }

    /// A node merely seen.
    pub fn of_seen(seen: &SeenNode, now: &Timestamp) -> (out: PeerRow)
        ensures
            out@ == seen_row(seen@, *now),
    {
        let sessions: Vec<String> = Vec::new();
        assert(texts(sessions@) =~= seq![]);
        PeerRow {
            id: seen.id.to_string(),
            short_id: seen.id.short(),
            name: match &seen.name {
                Some(name) => name.clone(),
                None => seen.addr.host.clone(),
            },
            owner: seen.owner.clone(),
            addr: seen.addr.authority(),
            last_seen: Some(relative(&seen.last_seen, now)),
            online: false,
            sessions,
        }
    }
}

/// The members, as pages show them.
pub fn peer_rows(service: &MailService, now: &Timestamp) -> (out: Vec<PeerRow>)
    requires
        service.wf(),
    ensures
        views(out@) == service@.member_rows(*now),
{
    let peers = service.paired_peers();
    let ghost ids = sorted_keys(service@.book.peers);
    let mut out: Vec<PeerRow> = Vec::new();
    let mut i: usize = 0;
    proof {
        service.lemma_peers_know_themselves();
        assert(views(peers@).len() == peers.len());
    }
    while i < peers.len()
        invariant
            service.wf(),
            i <= peers.len(),
            out.len() == i,
            ids == sorted_keys(service@.book.peers),
            ids.len() == peers.len(),
            views(peers@) == ids.map_values(|id: NodeId| service@.book.peers[id]),
            forall|j: int|
                0 <= j < ids.len() ==> service@.book.peers[#[trigger] ids[j]].id == ids[j],
            forall|j: int|
                0 <= j < i ==> (#[trigger] out@[j])@ == peer_row(
                    service@.book.peers[ids[j]],
                    service@.present(ids[j], *now),
                    *now,
                ),
        decreases peers.len() - i,
    {
        assert(peers@[i as int]@ == views(peers@)[i as int]);
        assert(peers@[i as int]@ == service@.book.peers[ids[i as int]]);
        let presence = service.presence_of(peers[i].id, now);
        out.push(PeerRow::of_peer(&peers[i], &presence, now));
        i += 1;
    }
    assert(views(out@) =~= service@.member_rows(*now));
    out
}

/// The text that a page was asked to look for.
pub fn looking_for(params: &ListQuery) -> (out: Option<String>)
    ensures
        opt_text(out) == looked_for(params@),
{
    match &params.q {
        None => None,
        Some(q) => {
            if trim(q.as_str()).as_str().is_empty() {
                None
            } else {
                Some(q.clone())
            }
        },
    }
}

fn page_of(service: &MailService, mailbox: Mailbox, params: &ListQuery, found: &Vec<Ulid>) -> (out:
    Vec<Summary>)
    requires
        service.wf(),
    ensures
        views(out@) == listing(service@.mail, page_query(mailbox, params@, found@)),
{
    let unread_only = match params.unread {
        Some(unread) => unread,
        None => false,
    };
    let found = if looking_for(params).is_some() {
        let copy = found.clone();
        assert(copy@ =~= found@);
        Some(copy)
    } else {
        None
    };
    let query = Query {
        mailbox: Some(mailbox),
        thread: None,
        from: None,
        unread_only,
        found,
        limit: Some(PAGE_ROWS),
        cursor: None,
    };
    service.list(&query)
}

/// A listing over two mailboxes: a message addressed to its own sender is in
/// two of them.
pub fn listing_for(
    service: &MailService,
    here: &'static str,
    heading: &'static str,
    path: &'static str,
    empty: &'static str,
    live: bool,
    first: Mailbox,
    second: Mailbox,
    params: &ListQuery,
    found: &Vec<Ulid>,
    now: &Timestamp,
) -> (out: InboxPage)
    requires
        service.wf(),
    ensures
        out@ == service@.listing_page(
            here@,
            heading@,
            path@,
            empty@,
            live,
            first,
            second,
            params@,
            found@,
            *now,
        ),
{
    let chrome = Chrome::new(service, here);
    let mut rows = page_of(service, first, params, found);
    let mut more = page_of(service, second, params, found);
    let ghost a = rows@;
    let ghost b = more@;
    rows.append(&mut more);
    assert(rows@ =~= a + b);
    assert(views(rows@) =~= views(a) + views(b));
    let ghost before = |x: Summary, y: Summary| sent_later(x@, y@);
    proof {
        sorting_views(rows@, before, |x: SummaryV, y: SummaryV| sent_later(x, y));
    }
    let order = |x: &Summary, y: &Summary| -> (r: bool)
        ensures
            r == sent_later(x@, y@),
        { x.sent_at.nanos() > y.sent_at.nanos() };
    let mut sorted = sort_by(rows, order, Ghost(before));
    let ghost whole = sorted@;
    if sorted.len() > PAGE_ROWS {
        sorted.truncate(PAGE_ROWS);
        assert(views(sorted@) =~= views(whole).take(PAGE_ROWS as int));
    }
    assert(views(sorted@) == service@.page_rows(first, second, params@, found@));
    let mut messages: Vec<Row> = Vec::new();
    let mut i: usize = 0;
    while i < sorted.len()
        invariant
            i <= sorted.len(),
            messages.len() == i,
            forall|j: int|
                0 <= j < i ==> (#[trigger] messages@[j])@ == row_shown(sorted@[j]@, *now),
        decreases sorted.len() - i,
    {
        messages.push(Row::of(&sorted[i], now));
        i += 1;
    }
    proof {
        let want = service@.page_rows(first, second, params@, found@).map_values(
            |row: SummaryV| row_shown(row, *now),
        );
        assert forall|j: int| 0 <= j < messages.len() implies #[trigger] views(messages@)[j]
            == want[j] by {
            assert(sorted@[j]@ == views(sorted@)[j]);
        }
        assert(views(messages@) =~= want);
    }
    let query = match looking_for(params) {
        Some(q) => q,
        None => {
            let none = String::new();
            assert(none@ =~= seq![]);
            none
        },
    };
    InboxPage {
        here: chrome.here,
        unread: chrome.unread,
        node_id: chrome.node_id,
        short_id: chrome.short_id,
        heading,
        path,
        empty,
        live,
        query,
        unread_only: match params.unread {
            Some(unread) => unread,
            None => false,
        },
        messages,
    }
}

/// Everything received, newest first.
pub fn inbox(service: &MailService, params: &ListQuery, found: &Vec<Ulid>, now: &Timestamp) -> (out:
    InboxPage)
    requires
        service.wf(),
    ensures
        out@ == service@.listing_page(
            "inbox"@,
            "Inbox"@,
            "/"@,
            "Nothing here yet."@,
            true,
            Mailbox::New,
            Mailbox::Cur,
            params@,
            found@,
            *now,
        ),
{
    listing_for(
        service,
        "inbox",
        "Inbox",
        "/",
        "Nothing here yet.",
        true,
        Mailbox::New,
        Mailbox::Cur,
        params,
        found,
        now,
    )
}

/// Everything sent, what is still on its way with it: hiding that until the
/// last recipient takes it would make a peer being off look like the message
/// vanishing.
pub fn sent(service: &MailService, params: &ListQuery, found: &Vec<Ulid>, now: &Timestamp) -> (out:
    InboxPage)
    requires
        service.wf(),
    ensures
        out@ == service@.listing_page(
            "sent"@,
            "Sent"@,
            "/sent"@,
            "You have not sent anything yet."@,
            false,
            Mailbox::Out,
            Mailbox::Sent,
            params@,
            found@,
            *now,
        ),
{
    listing_for(
        service,
        "sent",
        "Sent",
        "/sent",
        "You have not sent anything yet.",
        false,
        Mailbox::Out,
        Mailbox::Sent,
        params,
        found,
        now,
    )
}

impl Post {
    /// A message in a thread.
    pub fn from_message(service: &MailService, message: &Message, now: &Timestamp) -> (out: Post)
        requires
            service.wf(),
        ensures
            out@ == service@.post(message@, *now),
    {
        let mut attachments: Vec<Attached> = Vec::new();
        let mut i: usize = 0;
        while i < message.attachments.len()
            invariant
                service.wf(),
                i <= message.attachments.len(),
                attachments.len() == i,
                forall|j: int|
                    0 <= j < i ==> (#[trigger] attachments@[j])@ == service@.attached(
                        message.attachments@[j]@,
                    ),
            decreases message.attachments.len() - i,
        {
            let a = &message.attachments[i];
            attachments.push(
                Attached {
                    name: a.name.clone(),
                    sha256: a.sha256.to_hex(),
                    human_size: human_size(a.size),
                    cached: service.has_blob(&a.sha256),
                },
            );
            i += 1;
        }
        assert(views(attachments@) =~= message@.attachments.map_values(
            |a: AttachmentV| service@.attached(a),
        ));
        Post {
            id: message.id.to_string(),
            from: message.from.to_string(),
            from_short: message.from.short(),
            sender_kind: message.sender_kind.as_str().to_owned(),
            sent_at: message.sent_at.to_rfc3339(),
            when: relative(&message.sent_at, now),
            body: message.body.clone(),
            attachments,
        }
    }
}

fn read_rows(service: &mut MailService, rows: &Vec<Summary>, now: &Timestamp)
    requires
        old(service).wf(),
    ensures
        final(service).wf(),
        final(service)@ == old(service)@.reading_rows(views(rows@), *now),
{
    let ghost all = views(rows@);
    let mut i: usize = 0;
    assert(all.take(0) =~= seq![]);
    while i < rows.len()
        invariant
            i <= rows.len(),
            all == views(rows@),
            service.wf(),
            service@ == old(service)@.reading_rows(all.take(i as int), *now),
        decreases rows.len() - i,
    {
        assert(all.take(i + 1).drop_last() =~= all.take(i as int));
        assert(all.take(i + 1).last() == rows@[i as int]@);
        let _ = service.mark_read(rows[i].id, now);
        i += 1;
    }
    assert(all.take(i as int) =~= all);
}

/// One conversation, oldest first, marking everything in it read.
pub fn thread(service: &mut MailService, typed: &str, now: &Timestamp) -> (out: Result<
    ThreadPage,
    ErrorPage,
>)
    requires
        old(service).wf(),
    ensures
        final(service).wf(),
        final(service)@ == old(service)@.opening_thread(typed@, *now).0,
        match out {
            Ok(page) => old(service)@.opening_thread(typed@, *now).1 == Ok::<_, ErrorPageV>(page@),
            Err(page) => old(service)@.opening_thread(typed@, *now).1 == Err::<ThreadPageV, _>(
                page@,
            ),
        },
{
    let thread_id = match Ulid::parse(typed) {
        Some(id) => id,
        None => {
            return Err(not_found("no such thread"));
        },
    };
    let rows = service.thread(thread_id);
    let ghost all = conversation(service@.mail, thread_id);
    assert(views(rows@).len() == rows.len());
    if rows.len() == 0 {
        return Err(not_found("no such thread"));
    }
    let ghost before = service@;
    let mut messages: Vec<Post> = Vec::new();
    let mut i: usize = 0;
    while i < rows.len()
        invariant
            *service == *old(service),
            service.wf(),
            before == service@,
            i <= rows.len(),
            all == views(rows@),
            all == conversation(service@.mail, thread_id),
            messages.len() == i,
            forall|j: int|
                0 <= j < i ==> (#[trigger] messages@[j])@ == before.post(
                    before.found(all[j].id)->Ok_0.1,
                    *now,
                ),
        decreases rows.len() - i,
    {
        assert(all[i as int] == rows@[i as int]@);
        proof {
            lemma_conversation_is_held(*service, thread_id, i as int);
        }
        match service.get(rows[i].id) {
            Ok((_, message)) => {
                messages.push(Post::from_message(service, &message, now));
            },
            Err(error) => {
                return Err(render_error(&error));
            },
        }
        i += 1;
    }
    assert(views(messages@) =~= before.posts(all, *now));
    let subject = rows[0].subject.clone();
    assert(all[0] == rows@[0]@);
    read_rows(service, &rows, now);
    proof {
        lemma_reading_keeps_the_node(before, all, *now);
    }
    let id = service.identity();
    Ok(
        ThreadPage {
            here: "inbox",
            unread: service.unread_count(),
            node_id: id.to_string(),
            short_id: id.short(),
            thread_id: thread_id.to_string(),
            subject,
            messages,
        },
    )
}

proof fn lemma_reading_keeps_the_node(node: ServiceV, rows: Seq<SummaryV>, now: Timestamp)
    ensures
        node.reading_rows(rows, now).node == node.node,
    decreases rows.len(),
{
    if rows.len() > 0 {
        lemma_reading_keeps_the_node(node, rows.drop_last(), now);
    }
}

/// Every message of a conversation is held.
proof fn lemma_conversation_is_held(service: MailService, thread: Ulid, i: int)
    requires
        service.wf(),
        0 <= i < conversation(service@.mail, thread).len(),
    ensures
        service@.found(conversation(service@.mail, thread)[i].id) is Ok,
{
    let mail = service@.mail;
    let row = conversation(mail, thread)[i];
    crate::service::query::a_conversation_is_made_of_rows(mail, thread, i);
    let all = crate::service::query::all_rows(mail);
    let k = all.index_of(row);
    assert(all[k].id == row.id);
    crate::service::query::lemma_rows_hold(service, row.id);
}

/// Answer a conversation from its form.
pub fn reply(
    service: &mut MailService,
    typed: &str,
    form: ReplyForm,
    id: Ulid,
    now: &Timestamp,
    signed: Result<Signature, String>,
) -> (out: Outcome<()>)
    requires
        old(service).wf(),
    ensures
        final(service).wf(),
        (final(service)@, out@) == old(service)@.replying_form(
            typed@,
            form@.body,
            id,
            *now,
            signed_view(signed),
        ),
{
    let thread_id = match Ulid::parse(typed) {
        Some(id) => id,
        None => {
            return Outcome::Failed(not_found("no such thread"));
        },
    };
    let none: Vec<LocalFile> = Vec::new();
    assert(views(none@) =~= seq![]);
    match service.reply(thread_id, form.body, none, SenderKind::Human, id, now, signed) {
        Ok(_) => {
            let mut to = "/thread/".to_owned();
            to.append(thread_id.to_string().as_str());
            Outcome::Redirect(to)
        },
        Err(error) => Outcome::Failed(render_error(&error)),
    }
}

/// The form for a new message, filled in so far.
pub fn compose_with(
    service: &MailService,
    problem: Option<String>,
    form: ComposeForm,
    now: &Timestamp,
) -> (out: ComposePage)
    requires
        service.wf(),
    ensures
        out@ == service@.compose_page(opt_text(problem), form@, *now),
{
    let chrome = Chrome::new(service, "compose");
    ComposePage {
        here: chrome.here,
        unread: chrome.unread,
        node_id: chrome.node_id,
        short_id: chrome.short_id,
        problem,
        to: form.to,
        subject: form.subject,
        body: form.body,
        peers: peer_rows(service, now),
    }
}

impl Default for ComposeForm {
    fn default() -> (out: ComposeForm)
        ensures
            out@ == (ComposeFormV { to: seq![], subject: seq![], body: seq![] }),
    {
        let out = ComposeForm {
            to: String::new(),
            subject: String::new(),
            body: String::new(),
        };
        assert(out@ =~= (ComposeFormV { to: seq![], subject: seq![], body: seq![] }));
        out
    }
}

impl ComposeForm {
    /// The form after one of its parts was read. A part of another name is no
    /// part of it.
    pub fn take(&mut self, name: &str, text: String)
        ensures
            final(self)@ == (if name@ == "to"@ {
                ComposeFormV { to: text@, ..old(self)@ }
            } else if name@ == "subject"@ {
                ComposeFormV { subject: text@, ..old(self)@ }
            } else if name@ == "body"@ {
                ComposeFormV { body: text@, ..old(self)@ }
            } else {
                old(self)@
            }),
    {
        if same_text(name, "to") {
            self.to = text;
        } else if same_text(name, "subject") {
            self.subject = text;
        } else if same_text(name, "body") {
            self.body = text;
        }
    }
}

/// The form for a new message, with nothing in it.
pub fn compose(service: &MailService, now: &Timestamp) -> (out: ComposePage)
    requires
        service.wf(),
    ensures
        out@ == service@.compose_page(
            None,
            ComposeFormV { to: seq![], subject: seq![], body: seq![] },
            *now,
        ),
{
    compose_with(service, None, ComposeForm::default(), now)
}

/// Whether a part that is a file is one: an empty file input still sends a
/// part, without a name.
pub fn is_a_file(filename: Option<&str>, bytes: usize) -> (r: bool)
    ensures
        r == (filename matches Some(name) && name@.len() > 0 && bytes > 0),
{
    match filename {
        Some(name) => !name.is_empty() && bytes > 0,
        None => false,
    }
}

fn typed_recipients(to: &str) -> (out: Vec<String>)
    ensures
        texts(out@) == recipients_typed(to@),
{
    let parts = split(to, ',');
    let ghost cut = |p: Seq<char>| trimmed(p);
    let ghost keep = |p: Seq<char>| p.len() > 0;
    let ghost all = pieces(to@, ',').map_values(cut);
    let mut out: Vec<String> = Vec::new();
    let mut i: usize = 0;
    proof {
        crate::sorting::filter_ends(all, keep);
        assert(texts(out@) =~= Seq::<Seq<char>>::empty());
        assert(texts(parts@).len() == parts.len());
    }
    while i < parts.len()
        invariant
            i <= parts.len(),
            cut == (|p: Seq<char>| trimmed(p)),
            keep == (|p: Seq<char>| p.len() > 0),
            all == pieces(to@, ',').map_values(cut),
            texts(parts@) == pieces(to@, ','),
            all.len() == parts.len(),
            texts(out@) == all.take(i as int).filter(keep),
        decreases parts.len() - i,
    {
        proof {
            crate::sorting::filter_step(all, keep, i as int);
        }
        let part = trim(parts[i].as_str());
        assert(texts(parts@)[i as int] == parts@[i as int]@);
        assert(all[i as int] == part@);
        if !part.as_str().is_empty() {
            let ghost earlier = out@;
            out.push(part);
            assert(texts(out@) =~= texts(earlier).push(part@));
        }
        i += 1;
    }
    proof {
        crate::sorting::filter_ends(all, keep);
    }
    out
}

/// The draft that a form asks for. `files` are the files that came with it.
pub fn drafted(service: &MailService, form: &ComposeForm, files: Vec<LocalFile>) -> (out: Result<
    Draft,
    ServiceError,
>)
    requires
        service.wf(),
    ensures
        crate::service::outcome(out) == service@.drafted(form@, views(files@)),
{
    let typed = typed_recipients(form.to.as_str());
    match service.parse_recipients(&typed) {
        Err(error) => Err(error),
        Ok(to) => Ok(
            Draft {
                to,
                subject: form.subject.clone(),
                body: form.body.clone(),
                kind: Kind::Message,
                in_reply_to: None,
                attachments: files,
            },
        ),
    }
}

/// Send a new message from its form.
pub fn send(
    service: &mut MailService,
    form: ComposeForm,
    files: Vec<LocalFile>,
    id: Ulid,
    now: &Timestamp,
    signed: Result<Signature, String>,
) -> (out: Outcome<ComposePage>)
    requires
        old(service).wf(),
    ensures
        final(service).wf(),
        (final(service)@, out@) == old(service)@.sending_form(
            form@,
            views(files@),
            id,
            *now,
            signed_view(signed),
        ),
{
    let draft = match drafted(service, &form, files) {
        Ok(draft) => draft,
        Err(error) => {
            return Outcome::Failed(render_error(&error));
        },
    };
    match service.send(draft, SenderKind::Human, id, now, signed) {
        Ok(queued) => {
            let mut to = "/thread/".to_owned();
            to.append(queued.message.thread_id.to_string().as_str());
            Outcome::Redirect(to)
        },
        Err(error) => Outcome::Page(compose_with(service, Some(error.text()), form, now)),
    }
}

/// Everybody, and what went wrong if anything did.
pub fn peers_page(service: &MailService, problem: Option<String>, now: &Timestamp) -> (out:
    PeersPage)
    requires
        service.wf(),
    ensures
        out@ == service@.peers_page(opt_text(problem), *now),
{
    let chrome = Chrome::new(service, "peers");
    let nodes = service.seen_nodes();
    let mut seen: Vec<PeerRow> = Vec::new();
    let mut i: usize = 0;
    while i < nodes.len()
        invariant
            i <= nodes.len(),
            seen.len() == i,
            forall|j: int| 0 <= j < i ==> (#[trigger] seen@[j])@ == seen_row(nodes@[j]@, *now),
        decreases nodes.len() - i,
    {
        seen.push(PeerRow::of_seen(&nodes[i], now));
        i += 1;
    }
    proof {
        let want = service@.sightings().map_values(|s: SeenV| seen_row(s, *now));
        assert forall|j: int| 0 <= j < seen.len() implies #[trigger] views(seen@)[j]
            == want[j] by {
            assert(nodes@[j]@ == views(nodes@)[j]);
        }
        assert(views(seen@) =~= want);
    }
    PeersPage {
        here: chrome.here,
        unread: chrome.unread,
        node_id: chrome.node_id,
        short_id: chrome.short_id,
        problem,
        in_group: service.in_group(),
        paired: peer_rows(service, now),
        seen,
    }
}

/// Where joining a node by its address leads. One that was reached but is no
/// member is said to be so: a list that looks as though nothing happened would
/// not do.
pub fn join(
    service: &MailService,
    form: &JoinForm,
    met: Result<Met, ServiceError>,
    now: &Timestamp,
) -> (out: Outcome<PeersPage>)
    requires
        service.wf(),
    ensures
        out@ == service@.joined_page(form@.host, crate::service::outcome(met), *now),
{
    match met {
        Ok(Met::Member(_)) => Outcome::Redirect("/peers".to_owned()),
        Ok(Met::Stranger(node)) => {
            let mut text = match node.name {
                Some(name) => name,
                None => form.host.clone(),
            };
            text.append(" answered, but it is not in this node's group");
            Outcome::Page(peers_page(service, Some(text), now))
        },
        Err(error) => Outcome::Page(peers_page(service, Some(error.text()), now)),
    }
}

/// Forget a peer, or a node merely seen, from the page.
pub fn forget(service: &mut MailService, typed: &str, now: &Timestamp) -> (out: Outcome<PeersPage>)
    requires
        old(service).wf(),
    ensures
        final(service).wf(),
        (final(service)@, out@) == old(service)@.forgetting_form(typed@, *now),
{
    let id = match service.resolve_peer(typed) {
        Ok(id) => id,
        Err(error) => {
            return Outcome::Failed(render_error(&error));
        },
    };
    match service.remove_peer(id) {
        Ok(()) => Outcome::Redirect("/peers".to_owned()),
        Err(error) => Outcome::Page(peers_page(service, Some(error.text()), now)),
    }
}

/// Where looking for peers leads.
pub fn refresh(service: &MailService, failed: Option<ServiceError>, now: &Timestamp) -> (out:
    Outcome<PeersPage>)
    requires
        service.wf(),
    ensures
        out@ == (match failed {
            None => OutcomeV::Redirect("/peers"@),
            Some(error) => OutcomeV::Page(service@.peers_page(Some(error_text(error@)), *now)),
        }),
{
    match failed {
        None => Outcome::Redirect("/peers".to_owned()),
        Some(error) => Outcome::Page(peers_page(service, Some(error.text()), now)),
    }
}

} // verus!
