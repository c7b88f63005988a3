//! Text as people write it.

use crate::ids::{GroupKey, NodeId, Ulid};
use vstd::prelude::*;

verus! {

use crate::encoding::{base32_char, grouped, hex_digit, ungrouped};
use crate::ids::{code_text, crockford, crockford_text, named_ulid, node_letters, node_short, node_text, ulid_text};
use crate::text::{first_at, is_white, joined, lower, lower_char, pieces, same_name, text_before, trim_end, trim_start, trimmed};

/// Whether two characters are the same letter, or the same but for the case of
/// an ASCII letter.
pub open spec fn same_letter(a: char, b: char) -> bool {
    let x = a as int;
    let y = b as int;
    x == y || (65 <= x <= 90 && y == x + 32) || (65 <= y <= 90 && x == y + 32)
}

/// Two names are the same exactly where they are as long and agree letter by
/// letter but for ASCII case.
pub proof fn names_agree_letter_by_letter(a: Seq<char>, b: Seq<char>)
    ensures
        same_name(a, b) <==> a.len() == b.len() && forall|i: int|
            0 <= i < a.len() ==> same_letter(#[trigger] a[i], b[i]),
{
    if same_name(a, b) {
        assert(lower(a).len() == a.len() && lower(b).len() == b.len());
        assert forall|i: int| 0 <= i < a.len() implies same_letter(#[trigger] a[i], b[i]) by {
            assert(lower(a)[i] == lower_char(a[i]));
            assert(lower(b)[i] == lower_char(b[i]));
        }
    } else if a.len() == b.len() && forall|i: int|
        0 <= i < a.len() ==> same_letter(#[trigger] a[i], b[i]) {
        assert forall|i: int| 0 <= i < a.len() implies lower(a)[i] == lower(b)[i] by {
            assert(same_letter(a[i], b[i]));
        }
        assert(lower(a) =~= lower(b));
    }
}

/// Trimming takes white space off both ends and leaves what is between as it
/// was.
pub proof fn trimming_takes_white_space_off_the_ends(s: Seq<char>) -> (from: int)
    ensures
        0 <= from <= from + trimmed(s).len() <= s.len(),
        trimmed(s) == s.subrange(from, from + trimmed(s).len()),
        forall|i: int| 0 <= i < from ==> is_white(#[trigger] s[i]),
        forall|i: int| from + trimmed(s).len() <= i < s.len() ==> is_white(#[trigger] s[i]),
        trimmed(s).len() > 0 ==> !is_white(trimmed(s)[0]) && !is_white(trimmed(s).last()),
{
    crate::text::trimming_is_idempotent(s);
    let from = lemma_trim_start(s);
    let rest = trim_start(s);
    lemma_trim_end(rest);
    let kept = trim_end(rest);
    assert(kept =~= s.subrange(from, from + kept.len()));
    assert forall|i: int| from + kept.len() <= i < s.len() implies is_white(#[trigger] s[i]) by {
        assert(s[i] == rest[i - from]);
    }
    from
}

proof fn lemma_trim_start(s: Seq<char>) -> (from: int)
    ensures
        0 <= from <= s.len(),
        trim_start(s) == s.subrange(from, s.len() as int),
        forall|i: int| 0 <= i < from ==> is_white(#[trigger] s[i]),
    decreases s.len(),
{
    if s.len() > 0 && is_white(s[0]) {
        let rest = s.skip(1);
        let from = lemma_trim_start(rest);
        assert(trim_start(s) =~= s.subrange(from + 1, s.len() as int));
        assert forall|i: int| 0 <= i < from + 1 implies is_white(#[trigger] s[i]) by {
            if i > 0 {
                assert(s[i] == rest[i - 1]);
            }
        }
        from + 1
    } else {
        assert(s =~= s.subrange(0, s.len() as int));
        0
    }
}

proof fn lemma_trim_end(s: Seq<char>)
    ensures
        trim_end(s).len() <= s.len(),
        trim_end(s) == s.subrange(0, trim_end(s).len() as int),
        forall|i: int| trim_end(s).len() <= i < s.len() ==> is_white(#[trigger] s[i]),
    decreases s.len(),
{
    if s.len() > 0 && is_white(s.last()) {
        let rest = s.drop_last();
        lemma_trim_end(rest);
        assert(trim_end(s) =~= s.subrange(0, trim_end(s).len() as int));
        assert forall|i: int| trim_end(s).len() <= i < s.len() implies is_white(
            #[trigger] s[i],
        ) by {
            if i < rest.len() {
                assert(s[i] == rest[i]);
            }
        }
    } else {
        assert(s =~= s.subrange(0, s.len() as int));
    }
}

/// The pieces of text, put together again with the separator between them, are
/// the text, and none of them holds the separator.
pub proof fn pieces_make_up_the_text(s: Seq<char>, separator: char)
    ensures
        pieces(s, separator).len() > 0,
        joined(pieces(s, separator), seq![separator]) == s,
        forall|i: int|
            0 <= i < pieces(s, separator).len() ==> !(#[trigger] pieces(
                s,
                separator,
            )[i]).contains(separator),
    decreases s.len(),
{
    crate::text::first_at_is_first(s, separator);
    let at = first_at(s, separator);
    if s.contains(separator) && 0 <= at < s.len() {
        let head = s.take(at);
        let rest = s.skip(at + 1);
        let tail = pieces(rest, separator);
        pieces_make_up_the_text(rest, separator);
        lemma_joined_front(head, tail, seq![separator]);
        let all = pieces(s, separator);
        assert(joined(all, seq![separator]) =~= s) by {
            assert(s =~= head + seq![separator] + rest);
        }
        assert forall|i: int| 0 <= i < all.len() implies !(#[trigger] all[i]).contains(
            separator,
        ) by {
            if i == 0 {
                if head.contains(separator) {
                    let k = head.index_of(separator);
                    assert(s[k] == separator);
                }
            } else {
                assert(all[i] == tail[i - 1]);
            }
        }
    } else {
        assert(pieces(s, separator) =~= seq![s]);
        if s.contains(separator) {
            assert(false);
        }
    }
}

/// Joining from the front.
proof fn lemma_joined_front(head: Seq<char>, tail: Seq<Seq<char>>, separator: Seq<char>)
    requires
        tail.len() > 0,
    ensures
        joined(seq![head] + tail, separator) == head + separator + joined(tail, separator),
    decreases tail.len(),
{
    let all = seq![head] + tail;
    if tail.len() == 1 {
        assert(all.drop_last() =~= seq![head]);
        assert(joined(seq![head], separator) == head);
        assert(all.last() == tail[0]);
        assert(joined(all, separator) =~= head + separator + joined(tail, separator));
    } else {
        assert(all.drop_last() =~= seq![head] + tail.drop_last());
        lemma_joined_front(head, tail.drop_last(), separator);
        assert(all.last() == tail.last());
        assert(joined(all, separator) =~= head + separator + joined(tail, separator));
    }
}

/// One text comes before another exactly where it is a proper beginning of it,
/// or the first character in which they differ is the lesser.
pub proof fn texts_are_ordered_by_their_first_difference(a: Seq<char>, b: Seq<char>, k: int)
    requires
        0 <= k <= a.len(),
        k <= b.len(),
        forall|i: int| 0 <= i < k ==> a[i] == b[i],
        k < a.len() && k < b.len() ==> a[k] != b[k],
        k == a.len() || k == b.len() || a[k] != b[k],
    ensures
        text_before(a, b) <==> k < b.len() && (k == a.len() || (a[k] as int) < (b[k] as int)),
    decreases k,
{
    if k > 0 {
        assert(a[0] == b[0]);
        let x = a.skip(1);
        let y = b.skip(1);
        assert forall|i: int| 0 <= i < k - 1 implies x[i] == y[i] by {
            assert(a[i + 1] == b[i + 1]);
        }
        texts_are_ordered_by_their_first_difference(x, y, k - 1);
    }
}

// ---------------------------------------------------------------------------
// Ids as they are written.
// ---------------------------------------------------------------------------

/// The digits that ids of messages, ids of nodes and digests are written with,
/// each standing for its place in the row.
pub proof fn digits_stand_for_their_place(d: nat)
    ensures
        d < 32 ==> crockford(d) == "0123456789ABCDEFGHJKMNPQRSTVWXYZ"@[d as int],
        d < 32 ==> base32_char(d) == "ABCDEFGHIJKLMNOPQRSTUVWXYZ234567"@[d as int],
        d < 16 ==> hex_digit(d) == "0123456789abcdef"@[d as int],
{
    reveal_strlit("0123456789ABCDEFGHJKMNPQRSTVWXYZ");
    reveal_strlit("ABCDEFGHIJKLMNOPQRSTUVWXYZ234567");
    reveal_strlit("0123456789abcdef");
}

/// A node is written as `hm1:` and its letters in groups of four, and for short
/// by the first eight of them.
pub proof fn a_node_s_short_form_is_how_it_begins(id: NodeId)
    ensures
        "hm1:"@.is_prefix_of(node_text(id)),
        node_short(id) == ungrouped(node_text(id).skip(4)).take(8),
        node_short(id).len() == 8,
        node_text(id)[8] == '-',
{
    let letters = node_letters(id);
    reveal_strlit("hm1:");
    crate::encoding::be_bytes_len(id.hi as nat, 16);
    crate::encoding::be_bytes_len(id.lo as nat, 16);
    assert(id.bytes().len() == 32);
    assert(letters.len() == 52);
    crate::encoding::base32_alphabet(id.bytes());
    assert(node_text(id).subrange(0, 4) =~= "hm1:"@);
    assert(node_text(id).skip(4) =~= grouped(letters));
    crate::encoding::ungrouping_undoes_grouping(letters);
}

/// A message's id is written with twenty-six digits and reads back from them,
/// and its upper bits are the millisecond it was made in.
pub proof fn a_message_s_id_has_twenty_six_digits(id: Ulid)
    ensures
        ulid_text(id).len() == 26,
        named_ulid(ulid_text(id)) == Some(id),
        id.ms() == id.value as int / 0x1_0000_0000_0000_0000_0000int,
{
    crate::ids::ulid_text_reads_back(id);
    lemma_digits(id.value as nat, 26);
}

proof fn lemma_digits(value: nat, n: nat)
    ensures
        crockford_text(value, n).len() == n,
    decreases n,
{
    if n > 0 {
        lemma_digits(value / 32, (n - 1) as nat);
    }
}

/// Among the characters of ASCII, the white space is the space, the tab, and
/// the line and page breaks.
pub proof fn white_space_in_plain_text(c: char)
    requires
        (c as int) < 128,
    ensures
        is_white(c) <==> c as int == 32 || 9 <= c as int <= 13,
{
}

proof fn lemma_same_core(a: Seq<char>, b: Seq<char>)
    requires
        same_name(a, b),
    ensures
        crate::encoding::upper(ungrouped(a)) == crate::encoding::upper(ungrouped(b)),
    decreases a.len(),
{
    names_agree_letter_by_letter(a, b);
    if a.len() > 0 {
        let x = a.drop_last();
        let y = b.drop_last();
        assert forall|i: int| 0 <= i < x.len() implies same_letter(#[trigger] x[i], y[i]) by {
            assert(same_letter(a[i], b[i]));
        }
        names_agree_letter_by_letter(x, y);
        lemma_same_core(x, y);
        assert(same_letter(a[a.len() - 1], b[b.len() - 1]));
        assert(crate::encoding::upper(ungrouped(a)) =~= crate::encoding::upper(ungrouped(b))) by {
            if a.last() != '-' {
                assert(crate::encoding::upper(ungrouped(a)) =~= crate::encoding::upper(
                    ungrouped(x),
                ).push(crate::encoding::upper_char(a.last())));
                assert(crate::encoding::upper(ungrouped(b)) =~= crate::encoding::upper(
                    ungrouped(y),
                ).push(crate::encoding::upper_char(b.last())));
            }
        }
    } else {
        assert(a =~= b);
    }
}

/// A group code means the same in upper case and in lower.
pub proof fn a_group_code_may_be_typed_in_any_case(s: Seq<char>, t: Seq<char>, key: GroupKey)
    requires
        same_name(s, t),
    ensures
        crate::ids::is_code_for(s, key) <==> crate::ids::is_code_for(t, key),
        crate::ids::is_code_for(code_text(key), key),
{
    crate::ids::code_reads_back(key);
    names_agree_letter_by_letter(s, t);
    if s.len() >= 3 {
        lemma_part(s, t, 0, 3);
        lemma_part(s, t, 3, s.len() as int);
        assert(s.take(3) =~= s.subrange(0, 3) && t.take(3) =~= t.subrange(0, 3));
        assert(s.skip(3) =~= s.subrange(3, s.len() as int));
        assert(t.skip(3) =~= t.subrange(3, t.len() as int));
        lemma_same_core(s.skip(3), t.skip(3));
    }
    lemma_same_core(s, t);
}

proof fn lemma_part(s: Seq<char>, t: Seq<char>, from: int, to: int)
    requires
        same_name(s, t),
        0 <= from <= to <= s.len(),
    ensures
        same_name(s.subrange(from, to), t.subrange(from, to)),
{
    names_agree_letter_by_letter(s, t);
    let a = s.subrange(from, to);
    let b = t.subrange(from, to);
    assert forall|i: int| 0 <= i < a.len() implies same_letter(#[trigger] a[i], b[i]) by {
        assert(same_letter(s[from + i], t[from + i]));
    }
    names_agree_letter_by_letter(a, b);
}

} // verus!
